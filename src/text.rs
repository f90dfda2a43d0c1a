//! Byte-level text model: literal occurrences, line contexts and splicing of
//! replacement spans.
use crate::error::BumpError;
use vstd::prelude::*;

verus! {

/// A half-open byte range `[start, end)` of a buffer.
#[derive(Clone, Copy, Debug, PartialEq, Eq, Structural)]
pub struct Span {
    pub start: usize,
    pub end: usize,
}

/// Offsets of the leftmost, non-overlapping occurrences of `pat` in `hay`,
/// scanning left to right from offset `i`.
pub open spec fn occurrences_from(hay: Seq<u8>, pat: Seq<u8>, i: int) -> Seq<int>
    decreases hay.len() - i,
{
    if pat.len() == 0 || i < 0 || i + pat.len() > hay.len() {
        Seq::empty()
    } else if hay.subrange(i, i + pat.len()) == pat {
        seq![i] + occurrences_from(hay, pat, i + pat.len())
    } else {
        occurrences_from(hay, pat, i + 1)
    }
}

/// Offsets of the leftmost, non-overlapping occurrences of `pat` in `hay`.
pub open spec fn occurrences(hay: Seq<u8>, pat: Seq<u8>) -> Seq<int> {
    occurrences_from(hay, pat, 0)
}

/// The span that an occurrence of a pattern of length `len` at `start` covers.
pub open spec fn span_at(start: int, len: int) -> Span {
    Span { start: start as usize, end: (start + len) as usize }
}

/// The spans covered by the occurrences at `starts`.
pub open spec fn spans_at(starts: Seq<int>, len: int) -> Seq<Span> {
    starts.map_values(|s: int| span_at(s, len))
}

/// Where the unchanged bytes before span `k` begin: the end of span `k - 1`,
/// or the start of the buffer.
pub open spec fn gap_start(spans: Seq<Span>, k: int) -> int {
    if k <= 0 {
        0
    } else {
        spans[k - 1].end as int
    }
}

/// Spans are ascending, disjoint and inside a buffer of length `len`.
pub open spec fn well_placed(spans: Seq<Span>, len: int) -> bool {
    forall|k: int|
        0 <= k < spans.len() ==> gap_start(spans, k) <= #[trigger] spans[k].start <= spans[k].end
            <= len
}

/// The output up to the end of the last span: each gap copied, each span
/// replaced by `new`.
pub open spec fn assembled(buf: Seq<u8>, spans: Seq<Span>, new: Seq<u8>) -> Seq<u8>
    decreases spans.len(),
{
    if spans.len() == 0 {
        Seq::empty()
    } else {
        let k = spans.len() - 1;
        assembled(buf, spans.drop_last(), new) + buf.subrange(
            gap_start(spans, k),
            spans[k].start as int,
        ) + new
    }
}

/// `buf` with every span replaced by `new` and every other byte kept.
pub open spec fn spliced(buf: Seq<u8>, spans: Seq<Span>, new: Seq<u8>) -> Seq<u8> {
    assembled(buf, spans, new) + buf.subrange(gap_start(spans, spans.len() as int), buf.len() as int)
}

/// The total length of the spans.
pub open spec fn removed_len(spans: Seq<Span>) -> int
    decreases spans.len(),
{
    if spans.len() == 0 {
        0
    } else {
        removed_len(spans.drop_last()) + (spans.last().end - spans.last().start)
    }
}

/// Appends `buf[from..to]` to `out`.
fn append_range(out: &mut Vec<u8>, buf: &[u8], from: usize, to: usize)
    requires
        from <= to <= buf@.len(),
    ensures
        final(out)@ == old(out)@ + buf@.subrange(from as int, to as int),
{
    let mut i = from;
    while i < to
        invariant
            from <= i <= to,
            to <= buf@.len(),
            out@ == old(out)@ + buf@.subrange(from as int, i as int),
        decreases to - i,
    {
        out.push(buf[i]);
        assert(buf@.subrange(from as int, i + 1) =~= buf@.subrange(from as int, i as int).push(
            buf@[i as int],
        ));
        i = i + 1;
    }
}

/// Copies `buf`, replacing each span by `new`. Fails when the spans are not
/// ascending, disjoint and inside the buffer, rather than produce a corrupt
/// result.
pub fn splice(buf: &[u8], spans: &[Span], new: &[u8]) -> (r: Result<Vec<u8>, BumpError>)
    ensures
        r is Ok <==> well_placed(spans@, buf@.len() as int),
        r matches Ok(out) ==> out@ == spliced(buf@, spans@, new@),
        r matches Err(e) ==> e is OverlappingSpans,
{
    let mut out: Vec<u8> = Vec::new();
    let mut prev: usize = 0;
    let mut i: usize = 0;
    while i < spans.len()
        invariant
            i <= spans@.len(),
            prev as int == gap_start(spans@, i as int),
            prev <= buf@.len(),
            well_placed(spans@.take(i as int), buf@.len() as int),
            out@ == assembled(buf@, spans@.take(i as int), new@),
        decreases spans@.len() - i,
    {
        let s = spans[i];
        if s.start < prev || s.end < s.start || s.end > buf.len() {
            assert(!well_placed(spans@, buf@.len() as int)) by {
                assert(spans@[i as int] == s);
            }
            return Err(BumpError::OverlappingSpans);
        }
        append_range(&mut out, buf, prev, s.start);
        append_range(&mut out, new, 0, new.len());
        proof {
            let t = spans@.take(i + 1);
            assert(t.drop_last() =~= spans@.take(i as int));
            assert(new@.subrange(0, new@.len() as int) =~= new@);
            assert(gap_start(t, i as int) == gap_start(spans@, i as int));
            assert forall|k: int| 0 <= k < t.len() implies gap_start(t, k) <= #[trigger] t[k].start
                <= t[k].end <= buf@.len() by {
                if k < i {
                    assert(spans@.take(i as int)[k] == t[k]);
                    assert(gap_start(spans@.take(i as int), k) == gap_start(t, k));
                }
            }
        }
        prev = s.end;
        i = i + 1;
    }
    append_range(&mut out, buf, prev, buf.len());
    proof {
        assert(spans@.take(i as int) =~= spans@);
    }
    Ok(out)
}


/// Proves that the scanned occurrences are real, in bounds, ascending and
/// disjoint.
pub proof fn lemma_occurrences_from(hay: Seq<u8>, pat: Seq<u8>, i: int)
    requires
        pat.len() > 0,
        0 <= i,
    ensures
        forall|k: int|
            0 <= k < occurrences_from(hay, pat, i).len() ==> {
                let o = #[trigger] occurrences_from(hay, pat, i)[k];
                &&& i <= o
                &&& o + pat.len() <= hay.len()
                &&& hay.subrange(o, o + pat.len()) == pat
            },
        forall|k: int|
            0 < k < occurrences_from(hay, pat, i).len() ==> occurrences_from(hay, pat, i)[k - 1]
                + pat.len() <= #[trigger] occurrences_from(hay, pat, i)[k],
    decreases hay.len() - i,
{
    let occ = occurrences_from(hay, pat, i);
    if i + pat.len() > hay.len() {
        assert(occ.len() == 0);
    } else if hay.subrange(i, i + pat.len()) == pat {
        lemma_occurrences_from(hay, pat, i + pat.len());
        let rest = occurrences_from(hay, pat, i + pat.len());
        assert(occ == seq![i] + rest);
        assert forall|k: int| 0 <= k < occ.len() implies {
            let o = #[trigger] occ[k];
            &&& i <= o
            &&& o + pat.len() <= hay.len()
            &&& hay.subrange(o, o + pat.len()) == pat
        } by {
            if k > 0 {
                assert(occ[k] == rest[k - 1]);
            }
        }
        assert forall|k: int| 0 < k < occ.len() implies occ[k - 1] + pat.len() <= #[trigger] occ[k] by {
            assert(occ[k] == rest[k - 1]);
            if k > 1 {
                assert(occ[k - 1] == rest[k - 2]);
            }
        }
    } else {
        lemma_occurrences_from(hay, pat, i + 1);
        assert(occ == occurrences_from(hay, pat, i + 1));
    }
}

/// The spans of the occurrences of a non-empty pattern are well placed.
pub proof fn lemma_occurrence_spans(hay: Seq<u8>, pat: Seq<u8>)
    requires
        pat.len() > 0,
        hay.len() <= usize::MAX,
    ensures
        well_placed(spans_at(occurrences(hay, pat), pat.len() as int), hay.len() as int),
{
    lemma_occurrences_from(hay, pat, 0);
    let occ = occurrences(hay, pat);
    let spans = spans_at(occ, pat.len() as int);
    assert forall|k: int| 0 <= k < spans.len() implies gap_start(spans, k) <= #[trigger] spans[k].start
        <= spans[k].end <= hay.len() by {
        assert(occ[k] + pat.len() <= hay.len());
        assert(spans[k] == span_at(occ[k], pat.len() as int));
        if k > 0 {
            assert(occ[k - 1] + pat.len() <= occ[k]);
            assert(spans[k - 1] == span_at(occ[k - 1], pat.len() as int));
        }
    }
}

/// Start of the line that holds offset `k`.
pub open spec fn line_start(buf: Seq<u8>, k: int) -> int
    decreases k,
{
    if k <= 0 {
        0
    } else if buf[k - 1] == 10u8 {
        k
    } else {
        line_start(buf, k - 1)
    }
}

/// The two full lines, newlines included, just before the line that holds
/// offset `k`; none when fewer than two lines precede it.
pub open spec fn context_before(buf: Seq<u8>, k: int) -> Option<Span> {
    let l0 = line_start(buf, k);
    if l0 == 0 {
        None
    } else {
        let l1 = line_start(buf, l0 - 1);
        if l1 == 0 {
            None
        } else {
            Some(Span { start: line_start(buf, l1 - 1) as usize, end: l0 as usize })
        }
    }
}

proof fn lemma_line_start_bounds(buf: Seq<u8>, k: int)
    ensures
        k <= 0 ==> line_start(buf, k) == 0,
        k > 0 ==> 0 <= line_start(buf, k) <= k,
    decreases k,
{
    if k > 0 {
        lemma_line_start_bounds(buf, k - 1);
    }
}

/// Finds the start of the line that holds offset `k`.
pub fn line_start_of(buf: &[u8], k: usize) -> (r: usize)
    requires
        k <= buf@.len(),
    ensures
        r as int == line_start(buf@, k as int),
{
    let mut j = k;
    while j > 0 && buf[j - 1] != 10u8
        invariant
            j <= k <= buf@.len(),
            line_start(buf@, j as int) == line_start(buf@, k as int),
        decreases j,
    {
        j = j - 1;
    }
    j
}

/// The two lines before the line holding offset `k`, as `context_before`
/// describes them.
pub fn candidate_context(buf: &[u8], k: usize) -> (r: Option<Span>)
    requires
        k <= buf@.len(),
    ensures
        r == context_before(buf@, k as int),
        r matches Some(c) ==> c.start <= c.end <= k,
{
    proof {
        lemma_line_start_bounds(buf@, k as int);
    }
    let l0 = line_start_of(buf, k);
    if l0 == 0 {
        return None;
    }
    proof {
        lemma_line_start_bounds(buf@, l0 - 1);
    }
    let l1 = line_start_of(buf, l0 - 1);
    if l1 == 0 {
        return None;
    }
    proof {
        lemma_line_start_bounds(buf@, l1 - 1);
    }
    let l2 = line_start_of(buf, l1 - 1);
    Some(Span { start: l2, end: l0 })
}

/// The offsets in `starts` whose verdict is true, in order.
pub open spec fn selected(starts: Seq<int>, verdicts: Seq<bool>) -> Seq<int>
    decreases starts.len(),
{
    if starts.len() == 0 || verdicts.len() == 0 {
        Seq::empty()
    } else if verdicts[starts.len() - 1] {
        selected(starts.drop_last(), verdicts).push(starts.last())
    } else {
        selected(starts.drop_last(), verdicts)
    }
}


/// `buf` with every leftmost, non-overlapping occurrence of `old` replaced
/// by `new`.
pub open spec fn substituted(buf: Seq<u8>, old: Seq<u8>, new: Seq<u8>) -> Seq<u8> {
    spliced(buf, spans_at(occurrences(buf, old), old.len() as int), new)
}

/// Offsets as integers.
pub open spec fn offsets(starts: Seq<usize>) -> Seq<int> {
    starts.map_values(|s: usize| s as int)
}

/// The spans of length `len` that start at `starts`.
pub fn spans_of(starts: &[usize], len: usize) -> (r: Vec<Span>)
    requires
        forall|k: int| 0 <= k < starts@.len() ==> #[trigger] starts@[k] + len <= usize::MAX,
    ensures
        r@ == spans_at(offsets(starts@), len as int),
{
    let mut r: Vec<Span> = Vec::new();
    let mut i: usize = 0;
    while i < starts.len()
        invariant
            i <= starts@.len(),
            forall|k: int| 0 <= k < starts@.len() ==> #[trigger] starts@[k] + len <= usize::MAX,
            r@.len() == i,
            forall|k: int| 0 <= k < i ==> #[trigger] r@[k] == span_at(starts@[k] as int, len as int),
        decreases starts@.len() - i,
    {
        let s = starts[i];
        r.push(Span { start: s, end: s + len });
        i = i + 1;
    }
    assert(r@ =~= spans_at(offsets(starts@), len as int));
    r
}

/// Offsets that are ascending, at least `len` apart, and leave room for
/// `len` bytes before `bound`.
pub open spec fn spaced(starts: Seq<int>, len: int, bound: int) -> bool {
    &&& forall|k: int| 0 <= k < starts.len() ==> 0 <= #[trigger] starts[k] && starts[k] + len <= bound
    &&& forall|k: int| 0 < k < starts.len() ==> starts[k - 1] + len <= #[trigger] starts[k]
}

/// Keeping some of the offsets keeps them spaced, and every kept offset lies
/// between the first and the last.
pub proof fn lemma_selected_spaced(starts: Seq<int>, verdicts: Seq<bool>, len: int, bound: int)
    requires
        spaced(starts, len, bound),
        len >= 0,
    ensures
        spaced(selected(starts, verdicts), len, bound),
        forall|k: int|
            0 <= k < selected(starts, verdicts).len() ==> starts[0] <= #[trigger] selected(
                starts,
                verdicts,
            )[k] <= starts.last(),
    decreases starts.len(),
{
    if starts.len() == 0 || verdicts.len() == 0 {
    } else {
        let dl = starts.drop_last();
        assert(spaced(dl, len, bound)) by {
            assert forall|k: int| 0 < k < dl.len() implies dl[k - 1] + len <= #[trigger] dl[k] by {
                assert(dl[k] == starts[k] && dl[k - 1] == starts[k - 1]);
            }
        }
        lemma_selected_spaced(dl, verdicts, len, bound);
        let sub = selected(dl, verdicts);
        if dl.len() > 0 {
            assert(starts[dl.len() - 1] + len <= starts.last());
            assert(starts[0] <= starts[dl.len() - 1]) by {
                lemma_spaced_ascending(starts, len, bound, 0, dl.len() - 1);
            }
        }
        if dl.len() == 0 {
            assert(sub.len() == 0);
        }
    }
}

proof fn lemma_spaced_ascending(starts: Seq<int>, len: int, bound: int, i: int, j: int)
    requires
        spaced(starts, len, bound),
        len >= 0,
        0 <= i <= j < starts.len(),
    ensures
        starts[i] <= starts[j],
    decreases j - i,
{
    if i < j {
        lemma_spaced_ascending(starts, len, bound, i, j - 1);
        assert(starts[j - 1] + len <= starts[j]);
    }
}

/// Spaced offsets give well placed spans.
pub proof fn lemma_spaced_spans(starts: Seq<int>, len: int, bound: int)
    requires
        spaced(starts, len, bound),
        len >= 0,
        bound <= usize::MAX,
    ensures
        well_placed(spans_at(starts, len), bound),
{
    let spans = spans_at(starts, len);
    assert forall|k: int| 0 <= k < spans.len() implies gap_start(spans, k) <= #[trigger] spans[k].start
        <= spans[k].end <= bound by {
        assert(spans[k] == span_at(starts[k], len));
        if k > 0 {
            assert(spans[k - 1] == span_at(starts[k - 1], len));
        }
    }
}

/// The occurrences of a non-empty pattern are spaced by its length.
pub proof fn lemma_occurrences_spaced(hay: Seq<u8>, pat: Seq<u8>)
    requires
        pat.len() > 0,
    ensures
        spaced(occurrences(hay, pat), pat.len() as int, hay.len() as int),
{
    lemma_occurrences_from(hay, pat, 0);
}

/// Replaces the spans of length `len` at those `starts` whose verdict is
/// true. Fails when no verdict is true, and when the chosen spans overlap.
pub fn replace_selected(buf: &[u8], starts: &[usize], len: usize, verdicts: &[bool], new: &[u8]) -> (r:
    Result<Vec<u8>, BumpError>)
    requires
        starts@.len() == verdicts@.len(),
        forall|k: int| 0 <= k < starts@.len() ==> #[trigger] starts@[k] + len <= buf@.len(),
    ensures
        ({
            let chosen = selected(offsets(starts@), verdicts@);
            &&& (r matches Err(e) && e is NoValidatedMatches) <==> chosen.len() == 0
            &&& r is Ok <==> chosen.len() > 0 && well_placed(
                spans_at(chosen, len as int),
                buf@.len() as int,
            )
            &&& r matches Ok(out) ==> out@ == spliced(buf@, spans_at(chosen, len as int), new@)
            &&& r matches Err(e) ==> e is NoValidatedMatches || e is OverlappingSpans
        }),
{
    let ghost all = offsets(starts@);
    let mut chosen: Vec<usize> = Vec::new();
    let mut i: usize = 0;
    while i < starts.len()
        invariant
            i <= starts@.len(),
            starts@.len() == verdicts@.len(),
            all == offsets(starts@),
            forall|k: int| 0 <= k < starts@.len() ==> #[trigger] starts@[k] + len <= buf@.len(),
            offsets(chosen@) == selected(all.take(i as int), verdicts@),
            forall|k: int| 0 <= k < chosen@.len() ==> #[trigger] chosen@[k] + len <= buf@.len(),
        decreases starts@.len() - i,
    {
        proof {
            assert(all.take(i + 1).drop_last() =~= all.take(i as int));
        }
        if verdicts[i] {
            chosen.push(starts[i]);
            assert(offsets(chosen@) =~= selected(all.take(i as int), verdicts@).push(all[i as int]));
        }
        i = i + 1;
    }
    assert(all.take(i as int) =~= all);
    if chosen.len() == 0 {
        return Err(BumpError::NoValidatedMatches);
    }
    let _n = buf.len();
    let spans = spans_of(chosen.as_slice(), len);
    splice(buf, spans.as_slice(), new)
}

} // verus!
