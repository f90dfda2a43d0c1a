//! Context-verified substitution: an occurrence of the old version is
//! replaced only where the verification pattern matches the two lines before
//! the line that holds it.
use super::file;
use super::simple::lemma_encoded_nonempty;
use crate::error::BumpError;
use crate::pattern::{
    escaped, pattern_compiles, pattern_matches, LiteralPattern, VerificationPattern,
};
use crate::text::{
    candidate_context, context_before, lemma_occurrences_spaced, lemma_selected_spaced,
    lemma_spaced_spans, occurrences, offsets, replace_selected, selected, spans_at, spliced,
};
use vstd::prelude::*;
use vstd::slice::{slice_subrange, slice_to_vec};
use vstd::utf8::encode_utf8;

verus! {

/// Whether `pattern` matches the context of the occurrence at `start`.
pub open spec fn context_holds(buf: Seq<u8>, start: int, pattern: Seq<char>) -> bool {
    match context_before(buf, start) {
        Some(c) => pattern_matches(pattern, buf.subrange(c.start as int, c.end as int)),
        None => false,
    }
}

/// The verdict for each occurrence.
pub open spec fn context_verdicts(buf: Seq<u8>, starts: Seq<int>, pattern: Seq<char>) -> Seq<
    bool,
> {
    starts.map_values(|s: int| context_holds(buf, s, pattern))
}

/// The occurrences of `old` whose context the pattern matches.
pub open spec fn validated_starts(buf: Seq<u8>, old: Seq<u8>, pattern: Seq<char>) -> Seq<int> {
    let occ = occurrences(buf, old);
    selected(occ, context_verdicts(buf, occ, pattern))
}

/// Replaces the occurrences of a literal text that a verification pattern
/// vouches for.
pub struct Replacer {
    path: String,
    pattern: LiteralPattern,
    old_len: usize,
    verification: VerificationPattern,
    new_data: Vec<u8>,
}

impl Replacer {
    /// The path of the file edited.
    pub closed spec fn path(&self) -> Seq<char> {
        self.path@
    }

    /// The bytes searched for.
    pub closed spec fn old_bytes(&self) -> Seq<u8> {
        encode_utf8(self.pattern.text())
    }

    /// The verification pattern as written.
    pub closed spec fn verification(&self) -> Seq<char> {
        self.verification.source()
    }

    /// The bytes put in place of each validated occurrence.
    pub closed spec fn new_bytes(&self) -> Seq<u8> {
        self.new_data@
    }

    /// The searched text is not empty, and its length is known.
    pub closed spec fn wf(&self) -> bool {
        &&& self.pattern.text().len() > 0
        &&& self.old_len == encode_utf8(self.pattern.text()).len()
    }

    /// Prepares the replacement of `old_content` by `new_content` in `path`
    /// where `verification_regex` matches the two preceding lines.
    pub fn new(path: String, old_content: &str, verification_regex: &str, new_content: &str) -> (r:
        Result<Self, BumpError>)
        requires
            old_content@.len() > 0,
        ensures
            r is Ok <==> pattern_compiles(escaped(old_content@)) && pattern_compiles(
                verification_regex@,
            ),
            r matches Ok(p) ==> {
                &&& p.wf()
                &&& p.path() == path@
                &&& p.old_bytes() == encode_utf8(old_content@)
                &&& p.verification() == verification_regex@
                &&& p.new_bytes() == encode_utf8(new_content@)
            },
            r matches Err(e) ==> e is Regex,
    {
        let pattern = LiteralPattern::new(old_content)?;
        let verification = VerificationPattern::new(verification_regex)?;
        let old_len = old_content.as_bytes().len();
        let new_data = slice_to_vec(new_content.as_bytes());
        Ok(Replacer { path, pattern, old_len, verification, new_data })
    }

    /// The edit that replaces, in `source`, each occurrence whose two
    /// preceding lines match the verification pattern. An occurrence on the
    /// first or second line has no such context and is kept. Fails when no
    /// occurrence is validated.
    pub fn determine_replacements(&self, source: &[u8]) -> (r: Result<file::Replacer, BumpError>)
        requires
            self.wf(),
        ensures
            ({
                let chosen = validated_starts(source@, self.old_bytes(), self.verification());
                &&& r is Ok <==> chosen.len() > 0
                &&& r matches Ok(e) ==> e.path@ == self.path() && e.contents@ == spliced(
                    source@,
                    spans_at(chosen, self.old_bytes().len() as int),
                    self.new_bytes(),
                )
                &&& r matches Err(e) ==> e is NoValidatedMatches
            }),
    {
        let ghost old = self.old_bytes();
        let ghost occ = occurrences(source@, old);
        let ghost verdicts_spec = context_verdicts(source@, occ, self.verification());
        proof {
            lemma_encoded_nonempty(self.pattern.text());
            lemma_occurrences_spaced(source@, old);
        }
        let starts = self.pattern.match_starts(source);
        let _n = source.len();
        assert(offsets(starts@) =~= occ);
        let mut verdicts: Vec<bool> = Vec::new();
        let mut i: usize = 0;
        while i < starts.len()
            invariant
                i <= starts@.len(),
                offsets(starts@) == occ,
                starts@.len() == occ.len(),
                verdicts_spec == context_verdicts(source@, occ, self.verification()),
                verdicts@.len() == i,
                forall|k: int| 0 <= k < i ==> #[trigger] verdicts@[k] == verdicts_spec[k],
                forall|k: int|
                    0 <= k < occ.len() ==> 0 <= #[trigger] occ[k] && occ[k] + old.len()
                        <= source@.len(),
            decreases starts@.len() - i,
        {
            let start = starts[i];
            assert(occ[i as int] == start);
            let verdict = match candidate_context(source, start) {
                Some(c) => self.verification.found_in(slice_subrange(source, c.start, c.end)),
                None => false,
            };
            verdicts.push(verdict);
            i = i + 1;
        }
        assert(verdicts@ =~= verdicts_spec);
        assert forall|k: int| 0 <= k < starts@.len() implies #[trigger] starts@[k] + self.old_len
            <= source@.len() by {
            assert(occ[k] == starts@[k]);
        }
        proof {
            lemma_selected_spaced(occ, verdicts_spec, old.len() as int, source@.len() as int);
            lemma_spaced_spans(
                selected(occ, verdicts_spec),
                old.len() as int,
                source@.len() as int,
            );
        }
        match replace_selected(
            source,
            starts.as_slice(),
            self.old_len,
            verdicts.as_slice(),
            self.new_data.as_slice(),
        ) {
            Ok(contents) => Ok(file::Replacer { path: self.path.clone(), contents }),
            Err(e) => Err(e),
        }
    }
}

} // verus!
