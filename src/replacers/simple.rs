//! Direct substitution: every literal occurrence of the old version is
//! replaced.
use super::file;
use crate::error::BumpError;
use crate::pattern::{escaped, pattern_compiles, LiteralPattern};
use crate::text::{
    lemma_occurrences_spaced, lemma_spaced_spans, occurrences, offsets, spans_of, splice, substituted,
};
use vstd::prelude::*;
use vstd::slice::slice_to_vec;
use vstd::utf8::encode_utf8;

verus! {

/// Replaces every occurrence of a literal text in one file.
pub struct Replacer {
    path: String,
    pattern: LiteralPattern,
    old_len: usize,
    new_data: Vec<u8>,
}

impl Replacer {
    /// The path of the file edited.
    pub closed spec fn path(&self) -> Seq<char> {
        self.path@
    }

    /// The bytes searched for.
    pub closed spec fn old_bytes(&self) -> Seq<u8> {
        encode_utf8(self.pattern.text())
    }

    /// The bytes put in place of each occurrence.
    pub closed spec fn new_bytes(&self) -> Seq<u8> {
        self.new_data@
    }

    /// The searched text is not empty, and its length is known.
    pub closed spec fn wf(&self) -> bool {
        &&& self.pattern.text().len() > 0
        &&& self.old_len == encode_utf8(self.pattern.text()).len()
    }

    /// Prepares the replacement of `old_content` by `new_content` in `path`.
    pub fn new(path: String, old_content: &str, new_content: &str) -> (r: Result<Self, BumpError>)
        requires
            old_content@.len() > 0,
        ensures
            r is Ok <==> pattern_compiles(escaped(old_content@)),
            r matches Ok(p) ==> {
                &&& p.wf()
                &&& p.path() == path@
                &&& p.old_bytes() == encode_utf8(old_content@)
                &&& p.new_bytes() == encode_utf8(new_content@)
            },
            r matches Err(e) ==> e is Regex,
    {
        let pattern = LiteralPattern::new(old_content)?;
        let old_len = old_content.as_bytes().len();
        let new_data = slice_to_vec(new_content.as_bytes());
        Ok(Replacer { path, pattern, old_len, new_data })
    }

    /// The edit that replaces every leftmost, non-overlapping occurrence in
    /// `source`, the file's current content. With no occurrence the content
    /// is unchanged.
    pub fn determine_replacements(&self, source: &[u8]) -> (r: file::Replacer)
        requires
            self.wf(),
        ensures
            r.path@ == self.path(),
            r.contents@ == substituted(source@, self.old_bytes(), self.new_bytes()),
    {
        let ghost old = self.old_bytes();
        proof {
            lemma_encoded_nonempty(self.pattern.text());
            lemma_occurrences_spaced(source@, old);
        }
        let starts = self.pattern.match_starts(source);
        let _n = source.len();
        assert(offsets(starts@) =~= occurrences(source@, old));
        assert forall|k: int| 0 <= k < starts@.len() implies #[trigger] starts@[k] + self.old_len
            <= usize::MAX by {
            assert(offsets(starts@)[k] == starts@[k]);
        }
        let spans = spans_of(starts.as_slice(), self.old_len);
        proof {
            lemma_spaced_spans(occurrences(source@, old), old.len() as int, source@.len() as int);
        }
        let contents = match splice(source, spans.as_slice(), self.new_data.as_slice()) {
            Ok(out) => out,
            Err(_) => {
                proof {
                    assert(false);
                }
                Vec::new()
            },
        };
        file::Replacer { path: self.path.clone(), contents }
    }
}

/// A non-empty text has a non-empty encoding.
pub proof fn lemma_encoded_nonempty(s: Seq<char>)
    requires
        s.len() > 0,
    ensures
        encode_utf8(s).len() > 0,
{
    assert(vstd::utf8::encode_scalar(s[0] as u32).len() > 0);
}

} // verus!
