//! The concurrency controller: it accepts the items of an input one by one,
//! keeps the number of operations in flight within a bound, and hands the
//! results out in the order that was asked for.
//!
//! The controller performs nothing itself. Its driver pulls the input, runs
//! the operations and reports what happened; the controller answers what
//! to do next.

use crate::cli::OutputOrder;
use vstd::prelude::*;

verus! {

/// What the controller asks of its driver.
#[derive(Debug, PartialEq, Eq)]
pub enum Directive<T> {
    /// Hand this result out. `index` is the position in the input of the
    /// item that it belongs to.
    Emit { index: usize, value: T },
    /// Wait for what happens next: an item of the input or its end, if
    /// `input` is set; the end of an operation, if `completion` is set.
    Wait { input: bool, completion: bool },
    /// The input has ended and every result has been handed out.
    Finished,
}

/// The state of the controller. The items accepted so far are numbered by
/// their position in the input, from 0.
pub struct DispatchState<T> {
    /// The bound on the items that are accepted and not yet handed out.
    pub limit: nat,
    /// Whether results leave in the order of the input.
    pub ordered: bool,
    /// The number of items accepted.
    pub started: nat,
    /// The number of results handed out.
    pub emitted: nat,
    /// Whether the input has ended.
    pub closed: bool,
    /// The items whose operations are in flight.
    pub running: Seq<usize>,
    /// The results that wait to be handed out, in the order in which the
    /// operations ended, each with its item.
    pub ready: Seq<(usize, T)>,
}

impl<T> DispatchState<T> {
    /// The state before anything has happened.
    pub open spec fn init(limit: nat, ordered: bool) -> Self {
        DispatchState {
            limit,
            ordered,
            started: 0,
            emitted: 0,
            closed: false,
            running: Seq::empty(),
            ready: Seq::empty(),
        }
    }

    /// Whether the operation of item `index` is in flight.
    pub open spec fn is_running(self, index: int) -> bool {
        exists|i: int| 0 <= i < self.running.len() && (#[trigger] self.running[i]) == index
    }

    /// Whether the result of item `index` waits to be handed out.
    pub open spec fn is_ready(self, index: int) -> bool {
        exists|p: int| 0 <= p < self.ready.len() && (#[trigger] self.ready[p]).0 == index
    }

    /// Whether item `index` is accepted and its result not yet handed out.
    pub open spec fn is_pending(self, index: int) -> bool {
        self.is_running(index) || self.is_ready(index)
    }

    /// What holds of every state that the controller reaches.
    pub open spec fn wf(self) -> bool {
        &&& self.limit >= 1
        &&& self.emitted <= self.started <= usize::MAX
        &&& self.started - self.emitted == self.running.len() + self.ready.len()
        &&& self.started - self.emitted <= self.limit
        &&& forall|i: int, j: int|
            0 <= i < j < self.running.len() ==> self.running[i] != self.running[j]
        &&& forall|p: int, q: int|
            0 <= p < q < self.ready.len() ==> (#[trigger] self.ready[p]).0 != (
            #[trigger] self.ready[q]).0
        &&& forall|i: int, p: int|
            0 <= i < self.running.len() && 0 <= p < self.ready.len() ==> (
            #[trigger] self.running[i]) != (#[trigger] self.ready[p]).0
        &&& forall|i: int| 0 <= i < self.running.len() ==> (#[trigger] self.running[i]) < self.started
        &&& forall|p: int| 0 <= p < self.ready.len() ==> (#[trigger] self.ready[p]).0 < self.started
        &&& self.ordered ==> {
            &&& forall|i: int|
                0 <= i < self.running.len() ==> (#[trigger] self.running[i]) >= self.emitted
            &&& forall|p: int|
                0 <= p < self.ready.len() ==> (#[trigger] self.ready[p]).0 >= self.emitted
            &&& forall|index: int|
                self.emitted <= index < self.started ==> #[trigger] self.is_pending(index)
        }
    }

    /// Whether another item may be accepted: the input has not ended, the
    /// bound leaves room, and the positions are not used up.
    pub open spec fn accepts_input(self) -> bool {
        !self.closed && self.started - self.emitted < self.limit && self.started < usize::MAX
    }

    /// The state after the next item of the input was accepted, where one
    /// may be; the state as it is, where none may.
    pub open spec fn accept(self) -> Self {
        if self.accepts_input() {
            DispatchState {
                started: self.started + 1,
                running: self.running.push(self.started as usize),
                ..self
            }
        } else {
            self
        }
    }

    /// The state after the input has ended.
    pub open spec fn close(self) -> Self {
        DispatchState { closed: true, ..self }
    }

    /// Where item `index` stands among the operations in flight.
    pub open spec fn position(self, index: int) -> int {
        choose|i: int| 0 <= i < self.running.len() && (#[trigger] self.running[i]) == index
    }

    /// The state after the operation of item `index` has ended with
    /// `value`; the state as it is, where no such operation is in flight.
    pub open spec fn complete(self, index: usize, value: T) -> Self {
        if self.is_running(index as int) {
            DispatchState {
                running: self.running.remove(self.position(index as int)),
                ready: self.ready.push((index, value)),
                ..self
            }
        } else {
            self
        }
    }

    /// Which of the waiting results leaves next: in ordered mode the one
    /// of the item that follows the last one handed out, in unordered mode
    /// the one that has waited longest.
    pub open spec fn next_ready(self) -> Option<int> {
        if self.ordered {
            if self.is_ready(self.emitted as int) {
                Some(
                    choose|p: int|
                        0 <= p < self.ready.len() && (#[trigger] self.ready[p]).0 == self.emitted,
                )
            } else {
                None
            }
        } else if self.ready.len() > 0 {
            Some(0)
        } else {
            None
        }
    }

    /// What the controller answers when it is asked what to do, and the
    /// state after that.
    pub open spec fn poll(self) -> (Self, Directive<T>) {
        match self.next_ready() {
            Some(p) => (
                DispatchState { emitted: self.emitted + 1, ready: self.ready.remove(p), ..self },
                Directive::Emit { index: self.ready[p].0, value: self.ready[p].1 },
            ),
            None => (
                self,
                if self.closed && self.running.len() == 0 {
                    Directive::Finished
                } else {
                    Directive::Wait {
                        input: self.accepts_input(),
                        completion: self.running.len() > 0,
                    }
                },
            ),
        }
    }

    /// The end of the input keeps the state well-formed.
    pub proof fn lemma_close_wf(self)
        requires
            self.wf(),
        ensures
            self.close().wf(),
    {
        let after = self.close();
        if self.ordered {
            assert forall|index: int|
                after.emitted <= index < after.started implies #[trigger] after.is_pending(
                index,
            ) by {
                assert(self.is_pending(index));
                if self.is_running(index) {
                    let i = self.position(index);
                    assert(after.running[i] == index);
                } else {
                    let p = choose|p: int|
                        0 <= p < self.ready.len() && (#[trigger] self.ready[p]).0 == index;
                    assert(after.ready[p].0 == index);
                }
            }
        }
    }

    /// An item in flight is found where it stands.
    pub proof fn lemma_position(self, i: int)
        requires
            self.wf(),
            0 <= i < self.running.len(),
        ensures
            self.is_running(self.running[i] as int),
            self.position(self.running[i] as int) == i,
    {
        let index = self.running[i] as int;
        let found = self.position(index);
        if found < i {
            assert(self.running[found] != self.running[i]);
        } else if i < found {
            assert(self.running[i] != self.running[found]);
        }
    }

    /// In ordered mode the result that leaves next is the one of the item
    /// that follows the last one handed out, wherever it waits.
    pub proof fn lemma_next_ready(self, p: int)
        requires
            self.wf(),
            self.ordered,
            0 <= p < self.ready.len(),
            self.ready[p].0 == self.emitted,
        ensures
            self.next_ready() == Some(p),
    {
        let found = choose|q: int|
            0 <= q < self.ready.len() && (#[trigger] self.ready[q]).0 == self.emitted;
        if found < p {
            assert(self.ready[found].0 != self.ready[p].0);
        } else if p < found {
            assert(self.ready[p].0 != self.ready[found].0);
        }
    }

    /// Admitting an item keeps the state well-formed.
    pub proof fn lemma_accept_wf(self)
        requires
            self.wf(),
        ensures
            self.accept().wf(),
    {
        if self.accepts_input() {
            let after = self.accept();
            let last = self.running.len() as int;
            assert(after.running[last] == self.started);
            assert forall|i: int, j: int| 0 <= i < j < after.running.len() implies after.running[i]
                != after.running[j] by {
                if j < last {
                    assert(after.running[i] == self.running[i]);
                    assert(after.running[j] == self.running[j]);
                } else {
                    assert(after.running[i] == self.running[i]);
                }
            }
            assert forall|i: int, p: int|
                0 <= i < after.running.len() && 0 <= p < after.ready.len() implies (
            #[trigger] after.running[i]) != (#[trigger] after.ready[p]).0 by {
                if i < last {
                    assert(after.running[i] == self.running[i]);
                }
            }
            assert forall|i: int| 0 <= i < after.running.len() implies (
            #[trigger] after.running[i]) < after.started by {
                if i < last {
                    assert(after.running[i] == self.running[i]);
                }
            }
            if self.ordered {
                assert forall|i: int| 0 <= i < after.running.len() implies (
                #[trigger] after.running[i]) >= after.emitted by {
                    if i < last {
                        assert(after.running[i] == self.running[i]);
                    }
                }
                assert forall|index: int|
                    after.emitted <= index < after.started implies #[trigger] after.is_pending(
                    index,
                ) by {
                    if index < self.started {
                        assert(self.is_pending(index));
                        if self.is_running(index) {
                            let i = self.position(index);
                            assert(after.running[i] == index);
                        }
                    } else {
                        assert(after.running[last] == index);
                    }
                }
            }
        }
    }

    /// The end of an operation keeps the state well-formed.
    pub proof fn lemma_complete_wf(self, index: usize, value: T)
        requires
            self.wf(),
        ensures
            self.complete(index, value).wf(),
    {
        if self.is_running(index as int) {
            let after = self.complete(index, value);
            let at = self.position(index as int);
            let last = self.ready.len() as int;
            self.running.remove_ensures(at);
            assert(after.ready[last] == (index, value));
            assert forall|i: int, j: int| 0 <= i < j < after.running.len() implies after.running[i]
                != after.running[j] by {
                let a = if i < at { i } else { i + 1 };
                let b = if j < at { j } else { j + 1 };
                assert(after.running[i] == self.running[a]);
                assert(after.running[j] == self.running[b]);
            }
            assert forall|p: int, q: int| 0 <= p < q < after.ready.len() implies (
            #[trigger] after.ready[p]).0 != (#[trigger] after.ready[q]).0 by {
                assert(after.ready[p] == self.ready[p]);
                if q < last {
                    assert(after.ready[q] == self.ready[q]);
                } else {
                    assert(self.running[at] != self.ready[p].0);
                }
            }
            assert forall|i: int, p: int|
                0 <= i < after.running.len() && 0 <= p < after.ready.len() implies (
            #[trigger] after.running[i]) != (#[trigger] after.ready[p]).0 by {
                let a = if i < at { i } else { i + 1 };
                assert(after.running[i] == self.running[a]);
                if p < last {
                    assert(after.ready[p] == self.ready[p]);
                } else {
                    if a < at {
                        assert(self.running[a] != self.running[at]);
                    } else {
                        assert(self.running[at] != self.running[a]);
                    }
                }
            }
            assert forall|i: int| 0 <= i < after.running.len() implies (
            #[trigger] after.running[i]) < after.started by {
                let a = if i < at { i } else { i + 1 };
                assert(after.running[i] == self.running[a]);
            }
            assert forall|p: int| 0 <= p < after.ready.len() implies (#[trigger] after.ready[p]).0
                < after.started by {
                if p < last {
                    assert(after.ready[p] == self.ready[p]);
                } else {
                    assert(self.running[at] < self.started);
                }
            }
            if self.ordered {
                assert forall|i: int| 0 <= i < after.running.len() implies (
                #[trigger] after.running[i]) >= after.emitted by {
                    let a = if i < at { i } else { i + 1 };
                    assert(after.running[i] == self.running[a]);
                }
                assert forall|p: int| 0 <= p < after.ready.len() implies (
                #[trigger] after.ready[p]).0 >= after.emitted by {
                    if p < last {
                        assert(after.ready[p] == self.ready[p]);
                    } else {
                        assert(self.running[at] >= self.emitted);
                    }
                }
                assert forall|k: int|
                    after.emitted <= k < after.started implies #[trigger] after.is_pending(k) by {
                    assert(self.is_pending(k));
                    if k == index {
                        assert(after.ready[last].0 == k);
                    } else if self.is_running(k) {
                        let i = self.position(k);
                        if i < at {
                            assert(after.running[i] == self.running[i]);
                        } else {
                            assert(i != at);
                            assert(after.running[i - 1] == self.running[i]);
                        }
                    } else {
                        let p = choose|p: int|
                            0 <= p < self.ready.len() && (#[trigger] self.ready[p]).0 == k;
                        assert(after.ready[p] == self.ready[p]);
                    }
                }
            }
        }
    }

    /// Asking the controller what to do keeps the state well-formed.
    pub proof fn lemma_poll_wf(self)
        requires
            self.wf(),
        ensures
            self.poll().0.wf(),
    {
        if let Some(at) = self.next_ready() {
            let after = self.poll().0;
            self.ready.remove_ensures(at);
            assert(0 <= at < self.ready.len());
            assert forall|p: int, q: int| 0 <= p < q < after.ready.len() implies (
            #[trigger] after.ready[p]).0 != (#[trigger] after.ready[q]).0 by {
                let a = if p < at { p } else { p + 1 };
                let b = if q < at { q } else { q + 1 };
                assert(after.ready[p] == self.ready[a]);
                assert(after.ready[q] == self.ready[b]);
            }
            assert forall|i: int, p: int|
                0 <= i < after.running.len() && 0 <= p < after.ready.len() implies (
            #[trigger] after.running[i]) != (#[trigger] after.ready[p]).0 by {
                let a = if p < at { p } else { p + 1 };
                assert(after.ready[p] == self.ready[a]);
            }
            assert forall|p: int| 0 <= p < after.ready.len() implies (#[trigger] after.ready[p]).0
                < after.started by {
                let a = if p < at { p } else { p + 1 };
                assert(after.ready[p] == self.ready[a]);
            }
            if self.ordered {
                assert(self.ready[at].0 == self.emitted);
                assert forall|i: int| 0 <= i < after.running.len() implies (
                #[trigger] after.running[i]) >= after.emitted by {
                    assert(self.running[i] != self.ready[at].0);
                }
                assert forall|p: int| 0 <= p < after.ready.len() implies (
                #[trigger] after.ready[p]).0 >= after.emitted by {
                    let a = if p < at { p } else { p + 1 };
                    assert(after.ready[p] == self.ready[a]);
                    if a < at {
                        assert(self.ready[a].0 != self.ready[at].0);
                    } else {
                        assert(self.ready[at].0 != self.ready[a].0);
                    }
                }
                assert forall|k: int|
                    after.emitted <= k < after.started implies #[trigger] after.is_pending(k) by {
                    assert(self.is_pending(k));
                    if self.is_running(k) {
                        let i = self.position(k);
                        assert(after.running[i] == k);
                    } else {
                        let p = choose|p: int|
                            0 <= p < self.ready.len() && (#[trigger] self.ready[p]).0 == k;
                        assert(p != at);
                        if p < at {
                            assert(after.ready[p] == self.ready[p]);
                        } else {
                            assert(after.ready[p - 1] == self.ready[p]);
                        }
                    }
                }
            }
        }
    }
}

/// What may happen to the controller.
pub enum Event {
    /// The next item of the input is offered.
    Accept,
    /// The input ends.
    Close,
    /// The operation of this item ends.
    Complete(usize),
    /// The controller is asked what to do.
    Poll,
}

/// A run of the controller: the state that `events` lead to from the
/// start, and the results handed out on the way, each with its item. The
/// operation of item `i` ends with the result `results(i)`, whenever it
/// ends.
pub open spec fn run<T>(
    limit: nat,
    ordered: bool,
    results: spec_fn(usize) -> T,
    events: Seq<Event>,
) -> (DispatchState<T>, Seq<(usize, T)>)
    decreases events.len(),
{
    if events.len() == 0 {
        (DispatchState::init(limit, ordered), Seq::empty())
    } else {
        let (state, out) = run(limit, ordered, results, events.drop_last());
        match events.last() {
            Event::Accept => (state.accept(), out),
            Event::Close => (state.close(), out),
            Event::Complete(index) => (state.complete(index, results(index)), out),
            Event::Poll => {
                let (after, directive) = state.poll();
                (
                    after,
                    match directive {
                        Directive::Emit { index, value } => out.push((index, value)),
                        _ => out,
                    },
                )
            },
        }
    }
}

/// What holds of a state and of the results handed out before it, in
/// every run: each result handed out or waiting is the one of its item,
/// no item's result is handed out twice or while the item is pending,
/// and in ordered mode the results have left in the order of the input.
pub open spec fn consistent<T>(
    state: DispatchState<T>,
    out: Seq<(usize, T)>,
    results: spec_fn(usize) -> T,
) -> bool {
    &&& state.wf()
    &&& out.len() == state.emitted
    &&& forall|p: int|
        0 <= p < state.ready.len() ==> (#[trigger] state.ready[p]).1 == results(state.ready[p].0)
    &&& forall|k: int| 0 <= k < out.len() ==> (#[trigger] out[k]).1 == results(out[k].0)
    &&& forall|k: int| 0 <= k < out.len() ==> (#[trigger] out[k]).0 < state.started
    &&& forall|k: int, l: int| 0 <= k < l < out.len() ==> (#[trigger] out[k]).0 != (#[trigger] out[l]).0
    &&& forall|k: int, i: int|
        0 <= k < out.len() && 0 <= i < state.running.len() ==> (#[trigger] out[k]).0 != (
        #[trigger] state.running[i])
    &&& forall|k: int, p: int|
        0 <= k < out.len() && 0 <= p < state.ready.len() ==> (#[trigger] out[k]).0 != (
        #[trigger] state.ready[p]).0
    &&& state.ordered ==> forall|k: int| 0 <= k < out.len() ==> (#[trigger] out[k]).0 == k
}

/// One more event keeps a run consistent.
proof fn lemma_step_consistent<T>(
    state: DispatchState<T>,
    out: Seq<(usize, T)>,
    results: spec_fn(usize) -> T,
    event: Event,
)
    requires
        consistent(state, out, results),
    ensures
        ({
            let (after, emitted) = match event {
                Event::Accept => (state.accept(), out),
                Event::Close => (state.close(), out),
                Event::Complete(index) => (state.complete(index, results(index)), out),
                Event::Poll => (
                    state.poll().0,
                    match state.poll().1 {
                        Directive::Emit { index, value } => out.push((index, value)),
                        _ => out,
                    },
                ),
            };
            consistent(after, emitted, results)
        }),
{
    match event {
        Event::Accept => {
            state.lemma_accept_wf();
            if state.accepts_input() {
                let after = state.accept();
                let last = state.running.len() as int;
                assert forall|k: int, i: int|
                    0 <= k < out.len() && 0 <= i < after.running.len() implies (#[trigger] out[k]).0
                    != (#[trigger] after.running[i]) by {
                    if i < last {
                        assert(after.running[i] == state.running[i]);
                    } else {
                        assert(after.running[i] == state.started);
                    }
                }
            }
        },
        Event::Close => {
            state.lemma_close_wf();
        },
        Event::Complete(index) => {
            let value = results(index);
            state.lemma_complete_wf(index, value);
            if state.is_running(index as int) {
                let after = state.complete(index, value);
                let at = state.position(index as int);
                let last = state.ready.len() as int;
                state.running.remove_ensures(at);
                assert forall|p: int| 0 <= p < after.ready.len() implies (
                #[trigger] after.ready[p]).1 == results(after.ready[p].0) by {
                    if p < last {
                        assert(after.ready[p] == state.ready[p]);
                    } else {
                        assert(after.ready[p] == (index, value));
                    }
                }
                assert forall|k: int, i: int|
                    0 <= k < out.len() && 0 <= i < after.running.len() implies (#[trigger] out[k]).0
                    != (#[trigger] after.running[i]) by {
                    let a = if i < at { i } else { i + 1 };
                    assert(after.running[i] == state.running[a]);
                }
                assert forall|k: int, p: int|
                    0 <= k < out.len() && 0 <= p < after.ready.len() implies (#[trigger] out[k]).0
                    != (#[trigger] after.ready[p]).0 by {
                    if p < last {
                        assert(after.ready[p] == state.ready[p]);
                    } else {
                        assert(after.ready[p] == (index, value));
                        assert(out[k].0 != state.running[at]);
                    }
                }
            }
        },
        Event::Poll => {
            state.lemma_poll_wf();
            if let Some(at) = state.next_ready() {
                let after = state.poll().0;
                let entry = state.ready[at];
                let emitted = out.push(entry);
                let last = out.len() as int;
                state.ready.remove_ensures(at);
                assert(0 <= at < state.ready.len());
                assert(emitted[last] == entry);
                assert forall|p: int| 0 <= p < after.ready.len() implies (
                #[trigger] after.ready[p]).1 == results(after.ready[p].0) by {
                    let a = if p < at { p } else { p + 1 };
                    assert(after.ready[p] == state.ready[a]);
                }
                assert forall|k: int| 0 <= k < emitted.len() implies (#[trigger] emitted[k]).1
                    == results(emitted[k].0) by {
                    if k < last {
                        assert(emitted[k] == out[k]);
                    }
                }
                assert forall|k: int| 0 <= k < emitted.len() implies (#[trigger] emitted[k]).0
                    < after.started by {
                    if k < last {
                        assert(emitted[k] == out[k]);
                    }
                }
                assert forall|k: int, l: int| 0 <= k < l < emitted.len() implies (
                #[trigger] emitted[k]).0 != (#[trigger] emitted[l]).0 by {
                    assert(emitted[k] == out[k]);
                    if l < last {
                        assert(emitted[l] == out[l]);
                    } else {
                        assert(out[k].0 != state.ready[at].0);
                    }
                }
                assert forall|k: int, i: int|
                    0 <= k < emitted.len() && 0 <= i < after.running.len() implies (
                #[trigger] emitted[k]).0 != (#[trigger] after.running[i]) by {
                    if k < last {
                        assert(emitted[k] == out[k]);
                    } else {
                        assert(state.running[i] != state.ready[at].0);
                    }
                }
                assert forall|k: int, p: int|
                    0 <= k < emitted.len() && 0 <= p < after.ready.len() implies (
                #[trigger] emitted[k]).0 != (#[trigger] after.ready[p]).0 by {
                    let a = if p < at { p } else { p + 1 };
                    assert(after.ready[p] == state.ready[a]);
                    if k < last {
                        assert(emitted[k] == out[k]);
                    } else if a < at {
                        assert(state.ready[a].0 != state.ready[at].0);
                    } else {
                        assert(state.ready[at].0 != state.ready[a].0);
                    }
                }
                if state.ordered {
                    assert(entry.0 == state.emitted);
                    assert forall|k: int| 0 <= k < emitted.len() implies (#[trigger] emitted[k]).0
                        == k by {
                        if k < last {
                            assert(emitted[k] == out[k]);
                        }
                    }
                }
            }
        },
    }
}

/// Every run is consistent.
pub proof fn lemma_run_consistent<T>(
    limit: nat,
    ordered: bool,
    results: spec_fn(usize) -> T,
    events: Seq<Event>,
)
    requires
        limit >= 1,
    ensures
        consistent(
            run(limit, ordered, results, events).0,
            run(limit, ordered, results, events).1,
            results,
        ),
        run(limit, ordered, results, events).0.limit == limit,
        run(limit, ordered, results, events).0.ordered == ordered,
    decreases events.len(),
{
    if events.len() > 0 {
        lemma_run_consistent(limit, ordered, results, events.drop_last());
        let (state, out) = run(limit, ordered, results, events.drop_last());
        lemma_step_consistent(state, out, results, events.last());
    }
}

/// The bound: whatever happens and in whatever order, no more operations
/// are in flight than the bound allows, and no more items are accepted
/// and not yet handed out.
pub proof fn law_bound_is_kept<T>(
    limit: nat,
    ordered: bool,
    results: spec_fn(usize) -> T,
    events: Seq<Event>,
)
    requires
        limit >= 1,
    ensures
        run(limit, ordered, results, events).0.running.len() <= limit,
        run(limit, ordered, results, events).0.started - run(
            limit,
            ordered,
            results,
            events,
        ).0.emitted <= limit,
{
    lemma_run_consistent(limit, ordered, results, events);
}

/// The order: in ordered mode the results leave in the order of the
/// input, whenever the operations end. The result handed out in place
/// `k` is the one of item `k`.
pub proof fn law_ordered_results_follow_input<T>(
    limit: nat,
    results: spec_fn(usize) -> T,
    events: Seq<Event>,
)
    requires
        limit >= 1,
    ensures
        ({
            let out = run(limit, true, results, events).1;
            forall|k: int| 0 <= k < out.len() ==> #[trigger] out[k] == (k as usize, results(k as usize))
        }),
{
    lemma_run_consistent(limit, true, results, events);
    let out = run(limit, true, results, events).1;
    assert forall|k: int| 0 <= k < out.len() implies #[trigger] out[k] == (
        k as usize,
        results(k as usize),
    ) by {
        assert(out[k].0 == k);
        assert(out[k].1 == results(out[k].0));
    }
}

/// The pairing: in either mode every result that is handed out comes
/// with the item that it belongs to, and no item's result leaves twice.
pub proof fn law_results_are_paired<T>(
    limit: nat,
    ordered: bool,
    results: spec_fn(usize) -> T,
    events: Seq<Event>,
)
    requires
        limit >= 1,
    ensures
        ({
            let (state, out) = run(limit, ordered, results, events);
            &&& out.len() == state.emitted
            &&& forall|k: int| 0 <= k < out.len() ==> (#[trigger] out[k]).1 == results(out[k].0)
            &&& forall|k: int| 0 <= k < out.len() ==> (#[trigger] out[k]).0 < state.started
            &&& forall|k: int, l: int|
                0 <= k < l < out.len() ==> (#[trigger] out[k]).0 != (#[trigger] out[l]).0
        }),
{
    lemma_run_consistent(limit, ordered, results, events);
}

/// Progress: a driver that is told to wait is told what for. Only when
/// the positions are used up can there be nothing to wait for.
pub proof fn law_wait_names_an_event<T>(state: DispatchState<T>)
    requires
        state.wf(),
    ensures
        state.poll().1 matches Directive::Wait { input, completion } ==> input || completion
            || state.started == usize::MAX,
{
    if state.next_ready() is None && !state.closed && state.started - state.emitted
        >= state.limit {
        if state.ordered {
            assert(state.is_pending(state.emitted as int));
        }
    }
}

/// Whether the result of item `index` is among the results handed out.
pub open spec fn hands_out<T>(out: Seq<(usize, T)>, results: spec_fn(usize) -> T, index: int)
    -> bool {
    exists|k: int|
        0 <= k < out.len() && #[trigger] out[k] == (index as usize, results(index as usize))
}

/// Nothing is lost: when the controller says that a run is over, one
/// result has been handed out for every item that was accepted, each the
/// result of its item.
pub proof fn law_finished_run_is_complete<T>(
    limit: nat,
    ordered: bool,
    results: spec_fn(usize) -> T,
    events: Seq<Event>,
)
    requires
        limit >= 1,
    ensures
        ({
            let (state, out) = run(limit, ordered, results, events);
            state.poll().1 is Finished ==> {
                &&& out.len() == state.started
                &&& forall|index: int|
                    0 <= index < state.started ==> #[trigger] hands_out(out, results, index)
            }
        }),
{
    let (state, out) = run(limit, ordered, results, events);
    lemma_run_consistent(limit, ordered, results, events);
    if state.poll().1 is Finished {
        law_finished_leaves_nothing(state);
        let indices = out.map_values(|entry: (usize, T)| entry.0);
        assert forall|k: int| 0 <= k < indices.len() implies (#[trigger] indices[k])
            < state.started by {
            assert(indices[k] == out[k].0);
        }
        assert forall|k: int, l: int| 0 <= k < l < indices.len() implies indices[k]
            != indices[l] by {
            assert(indices[k] == out[k].0);
            assert(indices[l] == out[l].0);
        }
        lemma_distinct_indices_cover(indices, state.started);
        assert forall|index: int| 0 <= index < state.started implies #[trigger] hands_out(
            out,
            results,
            index,
        ) by {
            assert(occurs(indices, index));
            let k = choose|k: int| 0 <= k < indices.len() && #[trigger] indices[k] == index;
            assert(indices[k] == out[k].0);
            assert(out[k].1 == results(out[k].0));
            assert(out[k] == (index as usize, results(index as usize)));
        }
    }
}

/// Whether `index` is one of `indices`.
spec fn occurs(indices: Seq<usize>, index: int) -> bool {
    exists|k: int| 0 <= k < indices.len() && #[trigger] indices[k] == index
}

/// As many distinct numbers below a bound as the bound says are all the
/// numbers below it.
proof fn lemma_distinct_indices_cover(indices: Seq<usize>, bound: nat)
    requires
        indices.len() == bound,
        forall|k: int| 0 <= k < indices.len() ==> (#[trigger] indices[k]) < bound,
        forall|k: int, l: int| 0 <= k < l < indices.len() ==> indices[k] != indices[l],
    ensures
        forall|index: int| 0 <= index < bound ==> #[trigger] occurs(indices, index),
    decreases bound,
{
    if bound > 0 {
        let top = (bound - 1) as int;
        // either `top` occurs, or all of the numbers are below it, which
        // are too few places for them
        if occurs(indices, top) {
            let at = choose|k: int| 0 <= k < indices.len() && #[trigger] indices[k] == top;
            let rest = indices.remove(at);
            indices.remove_ensures(at);
            assert forall|k: int| 0 <= k < rest.len() implies (#[trigger] rest[k]) < top by {
                let a = if k < at { k } else { k + 1 };
                assert(rest[k] == indices[a]);
                if a < at {
                    assert(indices[a] != indices[at]);
                } else {
                    assert(indices[at] != indices[a]);
                }
            }
            assert forall|k: int, l: int| 0 <= k < l < rest.len() implies rest[k] != rest[l] by {
                let a = if k < at { k } else { k + 1 };
                let b = if l < at { l } else { l + 1 };
                assert(rest[k] == indices[a]);
                assert(rest[l] == indices[b]);
            }
            lemma_distinct_indices_cover(rest, top as nat);
            assert forall|index: int| 0 <= index < bound implies #[trigger] occurs(
                indices,
                index,
            ) by {
                if index < top {
                    assert(occurs(rest, index));
                    let k = choose|k: int| 0 <= k < rest.len() && #[trigger] rest[k] == index;
                    let a = if k < at { k } else { k + 1 };
                    assert(rest[k] == indices[a]);
                    assert(indices[a] == index);
                } else {
                    assert(indices[at] == index);
                }
            }
        } else {
            let rest = indices.drop_last();
            let end = indices.len() - 1;
            assert forall|k: int| 0 <= k < rest.len() implies (#[trigger] rest[k]) < top by {
                assert(rest[k] == indices[k]);
                assert(indices[k] < bound);
            }
            assert forall|k: int, l: int| 0 <= k < l < rest.len() implies rest[k] != rest[l] by {
                assert(rest[k] == indices[k]);
                assert(rest[l] == indices[l]);
            }
            lemma_distinct_indices_cover(rest, top as nat);
            let last = indices[end];
            assert(last < bound);
            assert(last < top);
            assert(occurs(rest, last as int));
            let k = choose|k: int| 0 <= k < rest.len() && #[trigger] rest[k] == last;
            assert(rest[k] == indices[k]);
            assert(indices[k] != indices[end]);
            assert(false);
        }
    }
}

/// The end: when the controller says that the run is over, the input has
/// ended and the result of every item that was accepted has been handed
/// out.
pub proof fn law_finished_leaves_nothing<T>(state: DispatchState<T>)
    requires
        state.wf(),
    ensures
        state.poll().1 is Finished ==> state.closed && state.emitted == state.started
            && state.poll().0 == state,
{
    if state.poll().1 is Finished {
        if state.ordered {
            if state.emitted < state.started {
                assert(state.is_pending(state.emitted as int));
                assert(state.is_ready(state.emitted as int));
            }
        }
    }
}

/// The concurrency controller for results of type `T`.
pub struct Dispatcher<T> {
    limit: usize,
    ordered: bool,
    started: usize,
    emitted: usize,
    closed: bool,
    running: Vec<usize>,
    ready: Vec<(usize, T)>,
}

impl<T> View for Dispatcher<T> {
    type V = DispatchState<T>;

    closed spec fn view(&self) -> DispatchState<T> {
        DispatchState {
            limit: self.limit as nat,
            ordered: self.ordered,
            started: self.started as nat,
            emitted: self.emitted as nat,
            closed: self.closed,
            running: self.running@,
            ready: self.ready@,
        }
    }
}

impl<T> Dispatcher<T> {
    /// A controller that keeps at most `limit` items accepted and not yet
    /// handed out, and hands results out in the given order.
    pub fn new(limit: usize, order: OutputOrder) -> (r: Self)
        requires
            limit >= 1,
        ensures
            r@ == DispatchState::<T>::init(limit as nat, order == OutputOrder::Ordered),
            r@.wf(),
    {
        let ordered = match order {
            OutputOrder::Ordered => true,
            OutputOrder::Unordered => false,
        };
        Dispatcher {
            limit,
            ordered,
            started: 0,
            emitted: 0,
            closed: false,
            running: Vec::new(),
            ready: Vec::new(),
        }
    }

    /// Accepts the next item of the input, if one may be accepted, and
    /// returns its position in the input. The driver starts the item's
    /// operation and reports its end under this position.
    pub fn accept(&mut self) -> (r: Option<usize>)
        requires
            old(self)@.wf(),
        ensures
            final(self)@ == old(self)@.accept(),
            final(self)@.wf(),
            r == if old(self)@.accepts_input() {
                Some(old(self)@.started as usize)
            } else {
                None
            },
    {
        if self.closed || self.started - self.emitted >= self.limit || self.started == usize::MAX {
            return None;
        }
        proof {
            self@.lemma_accept_wf();
        }
        let index = self.started;
        self.running.push(index);
        self.started = index + 1;
        Some(index)
    }

    /// Takes note that the input has ended.
    pub fn close(&mut self)
        requires
            old(self)@.wf(),
        ensures
            final(self)@ == old(self)@.close(),
            final(self)@.wf(),
    {
        proof {
            self@.lemma_close_wf();
        }
        self.closed = true;
    }

    /// Takes in the result of the operation of item `index`. Returns
    /// `false`, and changes nothing, where no such operation is in flight.
    pub fn complete(&mut self, index: usize, value: T) -> (r: bool)
        requires
            old(self)@.wf(),
        ensures
            r == old(self)@.is_running(index as int),
            final(self)@ == old(self)@.complete(index, value),
            final(self)@.wf(),
    {
        let mut i: usize = 0;
        while i < self.running.len()
            invariant
                i <= self.running.len(),
                *self == *old(self),
                self@.wf(),
                forall|k: int| 0 <= k < i ==> (#[trigger] self.running@[k]) != index,
            decreases self.running.len() - i,
        {
            if self.running[i] == index {
                proof {
                    self@.lemma_position(i as int);
                    self@.lemma_complete_wf(index, value);
                }
                self.running.remove(i);
                self.ready.push((index, value));
                return true;
            }
            i += 1;
        }
        false
    }

    /// Where the result that leaves next waits, if there is one.
    fn find_ready(&self) -> (r: Option<usize>)
        requires
            self@.wf(),
        ensures
            match r {
                Some(p) => self@.next_ready() == Some(p as int),
                None => self@.next_ready() is None,
            },
    {
        if !self.ordered {
            return if self.ready.len() > 0 {
                Some(0)
            } else {
                None
            };
        }
        let mut p: usize = 0;
        while p < self.ready.len()
            invariant
                p <= self.ready.len(),
                self@.wf(),
                self.ordered,
                forall|k: int| 0 <= k < p ==> (#[trigger] self.ready@[k]).0 != self.emitted,
            decreases self.ready.len() - p,
        {
            if self.ready[p].0 == self.emitted {
                proof {
                    self@.lemma_next_ready(p as int);
                }
                return Some(p);
            }
            p += 1;
        }
        None
    }

    /// Says what to do next. A result that may leave is handed out at
    /// once; otherwise the driver is told what to wait for, or that the
    /// run is over.
    pub fn poll(&mut self) -> (r: Directive<T>)
        requires
            old(self)@.wf(),
        ensures
            (final(self)@, r) == old(self)@.poll(),
            final(self)@.wf(),
    {
        proof {
            self@.lemma_poll_wf();
        }
        match self.find_ready() {
            Some(p) => {
                let (index, value) = self.ready.remove(p);
                self.emitted = self.emitted + 1;
                Directive::Emit { index, value }
            },
            None => {
                if self.closed && self.running.len() == 0 {
                    Directive::Finished
                } else {
                    Directive::Wait {
                        input: !self.closed && self.started - self.emitted < self.limit
                            && self.started < usize::MAX,
                        completion: self.running.len() > 0,
                    }
                }
            },
        }
    }

    /// The number of operations in flight. It never exceeds the bound.
    pub fn in_flight(&self) -> (r: usize)
        requires
            self@.wf(),
        ensures
            r == self@.running.len(),
            r <= self@.limit,
    {
        self.running.len()
    }
}

} // verus!
