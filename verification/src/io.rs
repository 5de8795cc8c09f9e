//! The input of a run: lines of text, one URL on each.

use crate::error::{Error, IoError, IoErrorKind};
use crate::weburl::{url_parse, ParseError, Url};
use vstd::prelude::*;

verus! {

/// Whether a character is white space: the characters with the Unicode
/// property `White_Space`.
pub open spec fn is_whitespace(c: char) -> bool {
    let code = c as u32;
    ||| 0x09 <= code <= 0x0D
    ||| code == 0x20
    ||| code == 0x85
    ||| code == 0xA0
    ||| code == 0x1680
    ||| 0x2000 <= code <= 0x200A
    ||| code == 0x2028
    ||| code == 0x2029
    ||| code == 0x202F
    ||| code == 0x205F
    ||| code == 0x3000
}

/// A text without the white space that it begins with.
pub open spec fn trim_start(text: Seq<char>) -> Seq<char>
    decreases text.len(),
{
    if text.len() > 0 && is_whitespace(text.first()) {
        trim_start(text.drop_first())
    } else {
        text
    }
}

/// A text without the white space that it ends with.
pub open spec fn trim_end(text: Seq<char>) -> Seq<char>
    decreases text.len(),
{
    if text.len() > 0 && is_whitespace(text.last()) {
        trim_end(text.drop_last())
    } else {
        text
    }
}

/// A text without the white space at either end.
pub open spec fn spec_trim(text: Seq<char>) -> Seq<char> {
    trim_end(trim_start(text))
}

/// Calls `str::trim`. Trusted: it returns the text without the white
/// space at either end, white space being the characters with the Unicode
/// property `White_Space`, as the documentation of `trim` says.
#[verifier::external_body]
fn trim(text: &str) -> (r: &str)
    ensures
        r@ == spec_trim(text@),
{
    text.trim()
}

/// The failure that stands for a line which holds no URL.
pub fn invalid_input(error: ParseError) -> (r: IoError)
    ensures
        r == (IoError { kind: IoErrorKind::InvalidInput, message: error.message }),
{
    IoError { kind: IoErrorKind::InvalidInput, message: error.message }
}

/// What a line of the input holds: the URL that it parses to once the
/// white space around it is taken off, or the parser's reason why it is
/// none.
pub open spec fn spec_parse_line(line: Seq<char>) -> Result<Seq<char>, Seq<char>> {
    url_parse(spec_trim(line))
}

/// Whether `result` is what `line` holds.
pub open spec fn is_parsed_line(line: Seq<char>, result: Result<Url, Error>) -> bool {
    match result {
        Ok(url) => spec_parse_line(line) == Ok::<Seq<char>, Seq<char>>(url@),
        Err(error) => error matches Error::Io(failure) && failure.kind == IoErrorKind::InvalidInput
            && spec_parse_line(line) == Err::<Seq<char>, Seq<char>>(failure.message@),
    }
}

/// Reads the URL on one line. A line that holds none is a failure of the
/// input, never dropped.
pub fn parse_line(line: &str) -> (r: Result<Url, Error>)
    ensures
        is_parsed_line(line@, r),
{
    match Url::parse(trim(line)) {
        Ok(url) => Ok(url),
        Err(error) => Err(Error::Io(invalid_input(error))),
    }
}

/// What one read of a line amounts to. `read` is the number of bytes that
/// were read into `line`, or the failure of the read. The input has ended
/// where nothing was read; otherwise the line gives the next item. After
/// an item that is a failure the input gives nothing more.
pub fn try_read(read: Result<usize, IoError>, line: &str) -> (r: Option<Result<Url, Error>>)
    ensures
        match read {
            Err(failure) => r == Some(Err::<Url, Error>(Error::Io(failure))),
            Ok(n) => if n == 0 {
                r is None
            } else {
                r matches Some(item) && is_parsed_line(line@, item)
            },
        },
{
    match read {
        Err(failure) => Some(Err(Error::Io(failure))),
        Ok(n) => {
            if n == 0 {
                None
            } else {
                Some(parse_line(line))
            }
        },
    }
}

/// Whether `items` are what an input of these `lines` gives: one item for
/// each line, in order, up to the first line that is empty, which ends
/// the input, or the first that holds no URL, whose failure is the last
/// item.
pub open spec fn is_read(lines: Seq<Seq<char>>, items: Seq<Result<Url, Error>>) -> bool {
    &&& items.len() <= lines.len()
    &&& forall|i: int| 0 <= i < items.len() ==> (#[trigger] lines[i]).len() > 0
    &&& forall|i: int| 0 <= i < items.len() ==> is_parsed_line(lines[i], #[trigger] items[i])
    &&& forall|i: int| 0 <= i < items.len() - 1 ==> (#[trigger] items[i]) is Ok
    &&& items.len() < lines.len() ==> lines[items.len() as int].len() == 0 || (items.len() > 0
        && items.last() is Err)
}

/// The texts of these lines.
pub open spec fn texts(lines: Seq<String>) -> Seq<Seq<char>> {
    lines.map_values(|line: String| line@)
}

/// Reads an input that is held in memory, line by line, as `try_read`
/// reads one that arrives.
pub fn read_lines(lines: &Vec<String>) -> (items: Vec<Result<Url, Error>>)
    ensures
        is_read(texts(lines@), items@),
{
    let mut items: Vec<Result<Url, Error>> = Vec::new();
    let ghost all = texts(lines@);
    let mut i: usize = 0;
    while i < lines.len()
        invariant
            i <= lines.len(),
            all == texts(lines@),
            all.len() == lines.len(),
            items@.len() == i,
            forall|k: int| 0 <= k < i ==> (#[trigger] all[k]).len() > 0,
            forall|k: int| 0 <= k < i ==> is_parsed_line(all[k], #[trigger] items@[k]),
            forall|k: int| 0 <= k < i ==> (#[trigger] items@[k]) is Ok,
        decreases lines.len() - i,
    {
        let line = lines[i].as_str();
        assert(all[i as int] == line@);
        if line.is_empty() {
            return items;
        }
        let item = parse_line(line);
        let failed = item.is_err();
        let ghost before = items@;
        items.push(item);
        assert forall|k: int| 0 <= k < items@.len() implies is_parsed_line(
            all[k],
            #[trigger] items@[k],
        ) by {
            if k < i {
                assert(items@[k] == before[k]);
            }
        }
        assert forall|k: int| 0 <= k < items@.len() - 1 implies (#[trigger] items@[k]) is Ok by {
            assert(items@[k] == before[k]);
        }
        if failed {
            assert(items@.last() is Err);
            return items;
        }
        i += 1;
    }
    items
}

} // verus!
