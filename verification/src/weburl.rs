//! Absolute URLs, parsed and normalised by the `url` crate and held as text.

use vstd::prelude::*;
use vstd::string::StrSliceExecFns;

verus! {

/// What `url::Url::parse` makes of `input`: the serialization of the parsed
/// URL, or the parser's message where it rejects the input.
pub uninterp spec fn url_parse(input: Seq<char>) -> Result<Seq<char>, Seq<char>>;

/// The serialization of the URL that `base` parses to, after
/// `url::Url::set_path` was called on it with `path`; `None` where `base`
/// does not parse.
pub uninterp spec fn url_with_path(base: Seq<char>, path: Seq<char>) -> Option<Seq<char>>;

/// The longest text, counted in characters, that is handed to a path
/// replacement. The `url` crate keeps positions in 32 bits; a character
/// takes at most twelve bytes once it is percent-encoded, so texts within
/// this bound stay far below that limit.
pub const MAX_REPLACE_CHARS: usize = 0x0100_0000;

/// The reason why a text is not an absolute URL.
#[derive(Debug, PartialEq, Eq)]
pub struct ParseError {
    /// The parser's own words.
    pub message: String,
}

impl Clone for ParseError {
    fn clone(&self) -> (r: Self)
        ensures
            r == *self,
    {
        ParseError { message: self.message.clone() }
    }
}

/// An absolute URL in its normalised form.
#[derive(Debug, PartialEq, Eq)]
pub struct Url {
    text: String,
}

impl View for Url {
    type V = Seq<char>;

    closed spec fn view(&self) -> Seq<char> {
        self.text@
    }
}

impl Clone for Url {
    fn clone(&self) -> (r: Self)
        ensures
            r == *self,
    {
        Url { text: self.text.clone() }
    }
}

/// Calls `url::Url::parse` and hands back the serialization of the URL it
/// returns, or the text of its error. Trusted: the result is the one named
/// by `url_parse`.
#[verifier::external_body]
fn parse_text(input: &str) -> (r: Result<String, String>)
    ensures
        match r {
            Ok(text) => url_parse(input@) == Ok::<Seq<char>, Seq<char>>(text@),
            Err(message) => url_parse(input@) == Err::<Seq<char>, Seq<char>>(message@),
        },
{
    match ::url::Url::parse(input) {
        Ok(url) => Ok(String::from(url)),
        Err(error) => Err(error.to_string()),
    }
}

/// Parses `base` with `url::Url::parse`, calls `url::Url::set_path` on the
/// result and hands back its serialization. Trusted: the result is the one
/// named by `url_with_path`. The bound keeps the serialization below the
/// four gigabytes beyond which `set_path` panics.
#[verifier::external_body]
fn replace_path(base: &str, path: &str) -> (r: Option<String>)
    requires
        base@.len() + path@.len() <= MAX_REPLACE_CHARS,
    ensures
        match r {
            Some(text) => url_with_path(base@, path@) == Some(text@),
            None => url_with_path(base@, path@) is None,
        },
{
    match ::url::Url::parse(base) {
        Ok(mut url) => {
            url.set_path(path);
            Some(String::from(url))
        },
        Err(_) => None,
    }
}

impl Url {
    /// Parses an absolute URL.
    pub fn parse(input: &str) -> (r: Result<Url, ParseError>)
        ensures
            match r {
                Ok(url) => url_parse(input@) == Ok::<Seq<char>, Seq<char>>(url@),
                Err(error) => url_parse(input@) == Err::<Seq<char>, Seq<char>>(error.message@),
            },
    {
        match parse_text(input) {
            Ok(text) => Ok(Url { text }),
            Err(message) => Err(ParseError { message }),
        }
    }

    /// The normalised text of this URL.
    pub fn as_str(&self) -> (r: &str)
        ensures
            r@ == self@,
    {
        self.text.as_str()
    }

    /// The normalised text of this URL, as an owned string is borrowed.
    pub fn as_string(&self) -> (r: &String)
        ensures
            r@ == self@,
    {
        &self.text
    }

    /// What `with_path` returns, over the texts alone.
    pub open spec fn spec_with_path(base: Seq<char>, path: Seq<char>) -> Option<Seq<char>> {
        if base.len() + path.len() <= MAX_REPLACE_CHARS {
            url_with_path(base, path)
        } else {
            None
        }
    }

    /// This URL with its path replaced by `path`. `None` where the two texts
    /// together are longer than `MAX_REPLACE_CHARS`, or where the text of
    /// this URL is not accepted by the parser again.
    pub fn with_path(&self, path: &str) -> (r: Option<Url>)
        ensures
            match r {
                Some(url) => Self::spec_with_path(self@, path@) == Some(url@),
                None => Self::spec_with_path(self@, path@) is None,
            },
    {
        let base_chars = self.text.as_str().unicode_len();
        let path_chars = path.unicode_len();
        if base_chars > MAX_REPLACE_CHARS || path_chars > MAX_REPLACE_CHARS - base_chars {
            return None;
        }
        match replace_path(self.text.as_str(), path) {
            Some(text) => Some(Url { text }),
            None => None,
        }
    }
}

} // verus!
