use bitcli::cli::OutputOrder;
use bitcli::dispatch::{Directive, Dispatcher};

fn wait(input: bool, completion: bool) -> Directive<&'static str> {
    Directive::Wait { input, completion }
}

fn emit(index: usize, value: &'static str) -> Directive<&'static str> {
    Directive::Emit { index, value }
}

#[test]
fn nothing_is_accepted_beyond_the_bound() {
    let mut dispatcher: Dispatcher<&str> = Dispatcher::new(2, OutputOrder::Unordered);
    assert_eq!(dispatcher.poll(), wait(true, false));
    assert_eq!(dispatcher.accept(), Some(0));
    assert_eq!(dispatcher.poll(), wait(true, true));
    assert_eq!(dispatcher.accept(), Some(1));
    assert_eq!(dispatcher.poll(), wait(false, true));
    assert_eq!(dispatcher.accept(), None);
    assert_eq!(dispatcher.in_flight(), 2);

    assert!(dispatcher.complete(1, "b"));
    assert_eq!(dispatcher.in_flight(), 1);
    // a result that waits still takes its place
    assert_eq!(dispatcher.accept(), None);
    assert_eq!(dispatcher.poll(), emit(1, "b"));
    assert_eq!(dispatcher.accept(), Some(2));
    assert_eq!(dispatcher.in_flight(), 2);
}

#[test]
fn ordered_results_wait_for_their_turn() {
    let mut dispatcher: Dispatcher<&str> = Dispatcher::new(3, OutputOrder::Ordered);
    assert_eq!(dispatcher.accept(), Some(0));
    assert_eq!(dispatcher.accept(), Some(1));
    assert_eq!(dispatcher.accept(), Some(2));

    assert!(dispatcher.complete(2, "c"));
    assert_eq!(dispatcher.poll(), wait(false, true));
    assert!(dispatcher.complete(1, "b"));
    assert_eq!(dispatcher.poll(), wait(false, true));
    assert!(dispatcher.complete(0, "a"));

    assert_eq!(dispatcher.poll(), emit(0, "a"));
    assert_eq!(dispatcher.poll(), emit(1, "b"));
    assert_eq!(dispatcher.poll(), emit(2, "c"));
    assert_eq!(dispatcher.poll(), wait(true, false));
    dispatcher.close();
    assert_eq!(dispatcher.poll(), Directive::Finished);
    assert_eq!(dispatcher.poll(), Directive::Finished);
}

#[test]
fn unordered_results_leave_in_the_order_of_completion() {
    let mut dispatcher: Dispatcher<&str> = Dispatcher::new(3, OutputOrder::Unordered);
    assert_eq!(dispatcher.accept(), Some(0));
    assert_eq!(dispatcher.accept(), Some(1));
    assert_eq!(dispatcher.accept(), Some(2));

    assert!(dispatcher.complete(2, "c"));
    assert!(dispatcher.complete(0, "a"));
    assert_eq!(dispatcher.poll(), emit(2, "c"));
    assert!(dispatcher.complete(1, "b"));
    assert_eq!(dispatcher.poll(), emit(0, "a"));
    assert_eq!(dispatcher.poll(), emit(1, "b"));
    dispatcher.close();
    assert_eq!(dispatcher.poll(), Directive::Finished);
}

#[test]
fn unknown_completion_changes_nothing() {
    let mut dispatcher: Dispatcher<&str> = Dispatcher::new(2, OutputOrder::Ordered);
    assert!(!dispatcher.complete(0, "early"));
    assert_eq!(dispatcher.accept(), Some(0));
    assert!(!dispatcher.complete(1, "other"));
    assert!(dispatcher.complete(0, "a"));
    assert!(!dispatcher.complete(0, "again"));
    assert_eq!(dispatcher.poll(), emit(0, "a"));
    assert_eq!(dispatcher.poll(), wait(true, false));
}

#[test]
fn closed_input_accepts_nothing() {
    let mut dispatcher: Dispatcher<&str> = Dispatcher::new(2, OutputOrder::Ordered);
    assert_eq!(dispatcher.accept(), Some(0));
    dispatcher.close();
    assert_eq!(dispatcher.accept(), None);
    assert_eq!(dispatcher.poll(), wait(false, true));
    assert!(dispatcher.complete(0, "a"));
    assert_eq!(dispatcher.poll(), emit(0, "a"));
    assert_eq!(dispatcher.poll(), Directive::Finished);
}

#[test]
fn empty_input_finishes_at_once() {
    let mut dispatcher: Dispatcher<&str> = Dispatcher::new(1, OutputOrder::Unordered);
    dispatcher.close();
    assert_eq!(dispatcher.poll(), Directive::Finished);
}

/// Runs `count` items through a controller. The operation that was
/// started last ends first.
fn drain(limit: usize, order: OutputOrder, count: usize) -> Vec<(usize, usize)> {
    let mut dispatcher: Dispatcher<usize> = Dispatcher::new(limit, order);
    let mut offered = 0;
    let mut running: Vec<usize> = Vec::new();
    let mut out = Vec::new();
    loop {
        assert!(dispatcher.in_flight() <= limit);
        assert_eq!(dispatcher.in_flight(), running.len());
        match dispatcher.poll() {
            Directive::Emit { index, value } => out.push((index, value)),
            Directive::Finished => return out,
            Directive::Wait { input: true, .. } => {
                if offered < count {
                    let index = dispatcher.accept().expect("room");
                    assert_eq!(index, offered);
                    running.push(index);
                    offered += 1;
                } else {
                    dispatcher.close();
                }
            }
            Directive::Wait { completion: true, .. } => {
                let index = running.pop().expect("in flight");
                assert!(dispatcher.complete(index, index * 10));
            }
            Directive::Wait { .. } => panic!("nothing to wait for"),
        }
    }
}

#[test]
fn ordered_run_follows_the_input() {
    for limit in 1..6 {
        let out = drain(limit, OutputOrder::Ordered, 17);
        let expected: Vec<(usize, usize)> = (0..17).map(|index| (index, index * 10)).collect();
        assert_eq!(out, expected, "limit {limit}");
    }
}

#[test]
fn unordered_run_is_a_permutation() {
    for limit in 1..6 {
        let mut out = drain(limit, OutputOrder::Unordered, 17);
        assert!(out.iter().all(|(index, value)| *value == index * 10));
        if limit > 1 {
            assert!(out.windows(2).any(|pair| pair[0].0 > pair[1].0), "limit {limit}");
        }
        out.sort();
        let expected: Vec<(usize, usize)> = (0..17).map(|index| (index, index * 10)).collect();
        assert_eq!(out, expected, "limit {limit}");
    }
}
