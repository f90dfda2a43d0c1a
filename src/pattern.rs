//! Compiled patterns: the literal that is searched for and the verification
//! pattern that gates a replacement. Matching itself is done by the `regex`
//! crate.
use crate::error::BumpError;
use crate::text::occurrences;
use vstd::prelude::*;
use vstd::utf8::encode_utf8;

verus! {

/// Whether the regex syntax accepts `pattern` within the default size limits.
pub uninterp spec fn pattern_compiles(pattern: Seq<char>) -> bool;

/// Whether the regex compiled from `pattern` matches somewhere in `haystack`.
pub uninterp spec fn pattern_matches(pattern: Seq<char>, haystack: Seq<u8>) -> bool;

/// The characters that regex syntax gives a meaning of their own.
pub open spec fn is_meta_char(c: char) -> bool {
    c == '\\' || c == '.' || c == '+' || c == '*' || c == '?' || c == '(' || c == ')' || c
        == '|' || c == '[' || c == ']' || c == '{' || c == '}' || c == '^' || c == '$' || c == '#'
        || c == '&' || c == '-' || c == '~'
}

/// `s` with a backslash put before each meta character.
pub open spec fn escaped(s: Seq<char>) -> Seq<char>
    decreases s.len(),
{
    if s.len() == 0 {
        Seq::empty()
    } else {
        let c = s.last();
        escaped(s.drop_last()) + if is_meta_char(c) {
            seq!['\\', c]
        } else {
            seq![c]
        }
    }
}

/// Relies on regex::escape: each meta character gets a backslash before it.
#[verifier::external_body]
fn escape(s: &str) -> (r: String)
    ensures
        r@ == escaped(s@),
{
    regex::escape(s)
}

/// Relies on regex::bytes::Regex::new: it succeeds exactly when the pattern
/// is valid and within the default size limits.
#[verifier::external_body]
fn compile(pattern: &str) -> (r: Result<regex::bytes::Regex, regex::Error>)
    ensures
        r is Ok <==> pattern_compiles(pattern@),
{
    regex::bytes::Regex::new(pattern)
}

/// A literal text, compiled for searching in bytes.
pub struct LiteralPattern {
    text: String,
    regex: regex::bytes::Regex,
}

impl LiteralPattern {
    /// The literal text searched for.
    pub closed spec fn text(&self) -> Seq<char> {
        self.text@
    }

    /// Compiles `text` as a literal: every meta character is escaped.
    pub fn new(text: &str) -> (r: Result<LiteralPattern, BumpError>)
        ensures
            r is Ok <==> pattern_compiles(escaped(text@)),
            r matches Ok(p) ==> p.text() == text@,
            r matches Err(e) ==> e is Regex,
    {
        let source = escape(text);
        match compile(source.as_str()) {
            Ok(regex) => Ok(LiteralPattern { text: text.to_owned(), regex }),
            Err(e) => Err(BumpError::Regex(e)),
        }
    }

    /// Offsets of the leftmost, non-overlapping occurrences of the literal.
    ///
    /// Relies on regex::bytes::Regex::find_iter, which yields successive
    /// non-overlapping leftmost matches; the regex is the escaped literal that
    /// `new` compiled, so its matches are the literal's UTF-8 bytes.
    #[verifier::external_body]
    pub(crate) fn match_starts(&self, hay: &[u8]) -> (r: Vec<usize>)
        requires
            self.text().len() > 0,
        ensures
            r@.len() == occurrences(hay@, encode_utf8(self.text())).len(),
            forall|k: int|
                0 <= k < r@.len() ==> r@[k] as int == #[trigger] occurrences(
                    hay@,
                    encode_utf8(self.text()),
                )[k],
    {
        self.regex.find_iter(hay).map(|m| m.start()).collect()
    }
}

/// A verification pattern, compiled for testing a context.
pub struct VerificationPattern {
    source: String,
    regex: regex::bytes::Regex,
}

impl VerificationPattern {
    /// The pattern text as written.
    pub closed spec fn source(&self) -> Seq<char> {
        self.source@
    }

    /// Compiles `source` as a regular expression.
    pub fn new(source: &str) -> (r: Result<VerificationPattern, BumpError>)
        ensures
            r is Ok <==> pattern_compiles(source@),
            r matches Ok(p) ==> p.source() == source@,
            r matches Err(e) ==> e is Regex,
    {
        match compile(source) {
            Ok(regex) => Ok(VerificationPattern { source: source.to_owned(), regex }),
            Err(e) => Err(BumpError::Regex(e)),
        }
    }

    /// Relies on regex::bytes::Regex::is_match, on the regex that `new`
    /// compiled from `source`.
    #[verifier::external_body]
    pub(crate) fn found_in(&self, hay: &[u8]) -> (r: bool)
        ensures
            r == pattern_matches(self.source(), hay@),
    {
        self.regex.is_match(hay)
    }
}

} // verus!
