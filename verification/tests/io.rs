use bitcli::error::{Error, IoError, IoErrorKind};
use bitcli::io::{invalid_input as as_invalid_input, parse_line, read_lines, try_read};
use bitcli::weburl::{ParseError, Url};

fn lines(text: &[&str]) -> Vec<String> {
    text.iter().map(|line| line.to_string()).collect()
}

#[test]
fn empty_input() {
    let input = read_lines(&lines(&[]));

    let expected: Vec<Url> = vec![];

    match input.into_iter().collect::<Result<Vec<_>, Error>>() {
        Ok(actual) => assert_eq!(expected, actual),
        Err(error) => panic!("expected read to succeed with no data, got error: {error:?}"),
    }
}

#[test]
fn valid_input() {
    let input = read_lines(&lines(&["https://example.com\n", "http://example.com\n"]));

    let expected = vec![
        Url::parse("https://example.com").expect("valid URL"),
        Url::parse("http://example.com").expect("valid URL"),
    ];

    match input.into_iter().collect::<Result<Vec<_>, Error>>() {
        Ok(actual) => assert_eq!(expected, actual),
        Err(error) => panic!("expected read to succeed with no data, got error: {error:?}"),
    }
}

#[test]
fn invalid_input() {
    let input = read_lines(&lines(&["https://example.com\n", "some invalid entry\n"]));
    let input = input.into_iter().collect::<Result<Vec<_>, Error>>();

    match input.expect_err("read should fail") {
        Error::Io(err) => assert_eq!(err.kind, IoErrorKind::InvalidInput),
        error => panic!("expected an IO error, got: {error:?}"),
    }
}

#[test]
fn io_error() {
    let first = try_read(Ok(20), "https://example.com\n");
    assert_eq!(first, Some(Ok(Url::parse("https://example.com").expect("valid URL"))));

    let failure = IoError { kind: IoErrorKind::Other, message: "IO error".to_string() };
    let input = try_read(Err(failure), "");

    match input.expect("an item").expect_err("read should fail") {
        Error::Io(err) => assert!(err.message.contains("IO error")),
        error => panic!("expected an IO error, got: {error:?}"),
    }
}

#[test]
fn nothing_read_ends_the_input() {
    assert_eq!(try_read(Ok(0), ""), None);
    assert_eq!(try_read(Ok(0), "https://example.com"), None);
}

#[test]
fn input_ends_after_the_first_failure() {
    let input =
        read_lines(&lines(&["https://example.com\n", "nope\n", "http://example.com\n"]));
    assert_eq!(input.len(), 2);
    assert_eq!(input[0], Ok(Url::parse("https://example.com").expect("valid URL")));
    assert_eq!(
        input[1],
        Err(Error::Io(IoError {
            kind: IoErrorKind::InvalidInput,
            message: "relative URL without a base".to_string(),
        }))
    );
}

#[test]
fn input_ends_at_an_empty_line() {
    let input = read_lines(&lines(&["https://example.com\n", "", "http://example.com\n"]));
    assert_eq!(input, vec![Ok(Url::parse("https://example.com").expect("valid URL"))]);
}

#[test]
fn blank_line_is_a_failure() {
    let input = read_lines(&lines(&["\n", "http://example.com\n"]));
    assert_eq!(input.len(), 1);
    assert!(input[0].is_err());
}

#[test]
fn line_is_trimmed_before_it_is_parsed() {
    let expected = Url::parse("https://example.com/a%20b").expect("valid URL");
    assert_eq!(parse_line(" \t https://example.com/a b\u{3000}\r\n"), Ok(expected));
    // a zero-width space is no white space
    assert_ne!(
        parse_line("https://example.com/\u{200B}"),
        parse_line("https://example.com/")
    );
}

#[test]
fn invalid_input_keeps_the_reason() {
    let failure = as_invalid_input(ParseError { message: "empty host".to_string() });
    assert_eq!(
        failure,
        IoError { kind: IoErrorKind::InvalidInput, message: "empty host".to_string() }
    );
}

#[test]
fn every_white_space_character_is_trimmed() {
    let white_space = [
        '\u{0009}', '\u{000A}', '\u{000B}', '\u{000C}', '\u{000D}', '\u{0020}', '\u{0085}',
        '\u{00A0}', '\u{1680}', '\u{2000}', '\u{2001}', '\u{2002}', '\u{2003}', '\u{2004}',
        '\u{2005}', '\u{2006}', '\u{2007}', '\u{2008}', '\u{2009}', '\u{200A}', '\u{2028}',
        '\u{2029}', '\u{202F}', '\u{205F}', '\u{3000}',
    ];
    let expected = Url::parse("https://example.com/x").expect("valid URL");
    for c in white_space {
        assert!(c.is_whitespace());
        let line = format!("{c}{c}https://example.com/x{c}");
        assert_eq!(parse_line(&line), Ok(expected.clone()), "{:?}", c);
    }
}

#[test]
fn other_characters_stay_on_the_line() {
    // neither of these has the property, close as they are to some that have
    for c in ['\u{180E}', '\u{200B}', '\u{2060}', '\u{FEFF}', '\u{00AD}'] {
        assert!(!c.is_whitespace());
        let line = format!("https://example.com/x{c}");
        let bare = Url::parse("https://example.com/x").expect("valid URL");
        assert_ne!(parse_line(&line), Ok(bare), "{:?}", c);
    }
}
