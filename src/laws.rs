//! Laws that relate the strategies' and the builders' results to their
//! inputs.
use crate::text::{
    assembled, gap_start, occurrences, occurrences_from, removed_len, spliced, substituted,
    spans_at, span_at, well_placed, Span, lemma_occurrences_from,
};
use crate::tree::{
    built_root, child_path, child_prefix, edit_for, edit_paths, longest, object_hash,
    rebuilt_entries, touched, EntryKind, TreeEntry, TreeObject,
};
use crate::config::CargoReplaceMode;
use crate::documents::manifest_versions;
use crate::replacers::cargo::{edits_path, propagated, Workspace};
use crate::replacers::file;
use vstd::prelude::*;

verus! {

/// Where the copy of `new` that replaces span `k` begins in the output.
pub open spec fn replaced_at(spans: Seq<Span>, k: int, new_len: int) -> int {
    spans[k].start - removed_len(spans.take(k)) + k * new_len
}

proof fn lemma_take_well_placed(spans: Seq<Span>, len: int, m: int)
    requires
        well_placed(spans, len),
        0 <= m <= spans.len(),
    ensures
        well_placed(spans.take(m), len),
{
    let t = spans.take(m);
    assert forall|k: int| 0 <= k < t.len() implies gap_start(t, k) <= #[trigger] t[k].start
        <= t[k].end <= len by {
        assert(t[k] == spans[k]);
        assert(gap_start(t, k) == gap_start(spans, k));
    }
}

proof fn lemma_assembled_len(buf: Seq<u8>, spans: Seq<Span>, new: Seq<u8>)
    requires
        well_placed(spans, buf.len() as int),
    ensures
        assembled(buf, spans, new).len() == gap_start(spans, spans.len() as int) - removed_len(
            spans,
        ) + spans.len() * new.len(),
    decreases spans.len(),
{
    if spans.len() > 0 {
        let dl = spans.drop_last();
        let k = spans.len() - 1;
        lemma_take_well_placed(spans, buf.len() as int, k);
        assert(spans.take(k) =~= dl);
        lemma_assembled_len(buf, dl, new);
        assert(gap_start(dl, k) == gap_start(spans, k));
        assert(spans[k] == spans.last());
        assert(k * new.len() + new.len() == (k + 1) * new.len()) by (nonlinear_arith);
    }
}

proof fn lemma_assembled_prefix(buf: Seq<u8>, spans: Seq<Span>, new: Seq<u8>, m: int)
    requires
        0 <= m <= spans.len(),
    ensures
        assembled(buf, spans.take(m), new).len() <= assembled(buf, spans, new).len(),
        assembled(buf, spans, new).subrange(0, assembled(buf, spans.take(m), new).len() as int)
            == assembled(buf, spans.take(m), new),
    decreases spans.len(),
{
    if m == spans.len() {
        assert(spans.take(m) =~= spans);
        assert(assembled(buf, spans, new).subrange(0, assembled(buf, spans, new).len() as int)
            =~= assembled(buf, spans, new));
    } else {
        let dl = spans.drop_last();
        assert(spans.take(m) =~= dl.take(m));
        lemma_assembled_prefix(buf, dl, new, m);
        let a = assembled(buf, dl, new);
        let p = assembled(buf, dl.take(m), new);
        assert(assembled(buf, spans, new).subrange(0, p.len() as int) =~= a.subrange(
            0,
            p.len() as int,
        ));
    }
}

/// Splicing N spans removes their bytes and adds N copies of `new`:
/// the output is `|buf| - Σ|span| + N·|new|` long. Every gap between spans,
/// and the tail after the last, is copied unchanged, and each span's place
/// holds `new`.
pub proof fn law_splice_length(buf: Seq<u8>, spans: Seq<Span>, new: Seq<u8>)
    requires
        well_placed(spans, buf.len() as int),
    ensures
        spliced(buf, spans, new).len() == buf.len() - removed_len(spans) + spans.len() * new.len(),
        forall|k: int|
            0 <= k < spans.len() ==> {
                let o = #[trigger] replaced_at(spans, k, new.len() as int);
                let gap = spans[k].start - gap_start(spans, k);
                &&& spliced(buf, spans, new).subrange(o - gap, o) == buf.subrange(
                    gap_start(spans, k),
                    spans[k].start as int,
                )
                &&& spliced(buf, spans, new).subrange(o, o + new.len()) == new
            },
        ({
            let out = spliced(buf, spans, new);
            let tail = buf.len() - gap_start(spans, spans.len() as int);
            out.subrange(out.len() - tail, out.len() as int) == buf.subrange(
                gap_start(spans, spans.len() as int),
                buf.len() as int,
            )
        }),
{
    let n = spans.len() as int;
    let out = spliced(buf, spans, new);
    let a = assembled(buf, spans, new);
    lemma_assembled_len(buf, spans, new);
    assert(gap_start(spans, n) <= buf.len()) by {
        if n > 0 {
            assert(spans[n - 1].end <= buf.len());
        }
    }
    assert(out.subrange(a.len() as int, out.len() as int) =~= buf.subrange(
        gap_start(spans, n),
        buf.len() as int,
    ));
    assert forall|k: int| 0 <= k < spans.len() implies {
        let o = #[trigger] replaced_at(spans, k, new.len() as int);
        let gap = spans[k].start - gap_start(spans, k);
        &&& out.subrange(o - gap, o) == buf.subrange(gap_start(spans, k), spans[k].start as int)
        &&& out.subrange(o, o + new.len()) == new
    } by {
        let t = spans.take(k + 1);
        let tk = spans.take(k);
        lemma_take_well_placed(spans, buf.len() as int, k + 1);
        lemma_take_well_placed(spans, buf.len() as int, k);
        lemma_assembled_len(buf, tk, new);
        lemma_assembled_prefix(buf, spans, new, k + 1);
        assert(t.drop_last() =~= tk);
        assert(t[k] == spans[k]);
        assert(gap_start(t, k) == gap_start(spans, k));
        assert(gap_start(tk, k) == gap_start(spans, k));
        let pre = assembled(buf, tk, new);
        let at = assembled(buf, t, new);
        let gap_bytes = buf.subrange(gap_start(spans, k), spans[k].start as int);
        assert(at == pre + gap_bytes + new);
        let o = replaced_at(spans, k, new.len() as int);
        assert(o == pre.len() + gap_bytes.len());
        assert(out.subrange(0, at.len() as int) == at) by {
            assert(out.subrange(0, at.len() as int) =~= a.subrange(0, at.len() as int));
        }
        assert(out.subrange(o - gap_bytes.len(), o) =~= at.subrange(pre.len() as int, o));
        assert(out.subrange(o, o + new.len()) =~= at.subrange(o, o + new.len()));
        assert(at.subrange(pre.len() as int, o) =~= gap_bytes);
        assert(at.subrange(o, o + new.len()) =~= new);
    }
}


proof fn lemma_covered_from(buf: Seq<u8>, old: Seq<u8>, j: int, i: int)
    requires
        old.len() > 0,
        0 <= j <= i,
        i + old.len() <= buf.len(),
        buf.subrange(i, i + old.len()) == old,
    ensures
        exists|k: int|
            0 <= k < occurrences_from(buf, old, j).len() && #[trigger] occurrences_from(
                buf,
                old,
                j,
            )[k] <= i < occurrences_from(buf, old, j)[k] + old.len(),
    decreases buf.len() - j,
{
    let occ = occurrences_from(buf, old, j);
    if buf.subrange(j, j + old.len()) == old {
        let rest = occurrences_from(buf, old, j + old.len());
        assert(occ == seq![j] + rest);
        if i < j + old.len() {
            assert(occ[0] == j);
        } else {
            lemma_covered_from(buf, old, j + old.len(), i);
            let k = choose|k: int|
                0 <= k < rest.len() && #[trigger] rest[k] <= i < rest[k] + old.len();
            assert(occ[k + 1] == rest[k]);
        }
    } else {
        assert(i != j);
        lemma_covered_from(buf, old, j + 1, i);
    }
}

/// Direct substitution leaves no occurrence out: every occurrence of `old`
/// in `buf`, at any offset, begins inside one of the occurrences that are
/// replaced (the leftmost, non-overlapping ones), not only the first.
pub proof fn law_substitution_exhaustive(buf: Seq<u8>, old: Seq<u8>, i: int)
    requires
        old.len() > 0,
        0 <= i,
        i + old.len() <= buf.len(),
        buf.subrange(i, i + old.len()) == old,
    ensures
        exists|k: int|
            0 <= k < occurrences(buf, old).len() && #[trigger] occurrences(buf, old)[k] <= i
                < occurrences(buf, old)[k] + old.len(),
{
    lemma_covered_from(buf, old, 0, i);
    let occ = occurrences_from(buf, old, 0);
    let k = choose|k: int| 0 <= k < occ.len() && #[trigger] occ[k] <= i < occ[k] + old.len();
    assert(occurrences(buf, old)[k] <= i < occurrences(buf, old)[k] + old.len());
}

proof fn lemma_splice_same(buf: Seq<u8>, spans: Seq<Span>, new: Seq<u8>)
    requires
        well_placed(spans, buf.len() as int),
        forall|k: int|
            0 <= k < spans.len() ==> buf.subrange(#[trigger] spans[k].start as int, spans[k].end as int)
                == new,
    ensures
        assembled(buf, spans, new) == buf.subrange(0, gap_start(spans, spans.len() as int)),
    decreases spans.len(),
{
    if spans.len() > 0 {
        let k = spans.len() - 1;
        let dl = spans.drop_last();
        lemma_take_well_placed(spans, buf.len() as int, k);
        assert(spans.take(k) =~= dl);
        assert forall|j: int| 0 <= j < dl.len() implies buf.subrange(
            #[trigger] dl[j].start as int,
            dl[j].end as int,
        ) == new by {
            assert(dl[j] == spans[j]);
        }
        lemma_splice_same(buf, dl, new);
        assert(gap_start(dl, k) == gap_start(spans, k));
        assert(buf.subrange(spans[k].start as int, spans[k].end as int) == new);
        assert(buf.subrange(0, gap_start(dl, k)) + buf.subrange(
            gap_start(spans, k),
            spans[k].start as int,
        ) + new =~= buf.subrange(0, spans[k].end as int));
    }
}

/// The spans at which `new` was put by substituting `old` in `buf`.
pub open spec fn inserted_starts(buf: Seq<u8>, old: Seq<u8>, new_len: int) -> Seq<int> {
    let spans = spans_at(occurrences(buf, old), old.len() as int);
    Seq::new(spans.len(), |k: int| replaced_at(spans, k, new_len))
}

/// Substituting `old` by `new` and then `new` by `old` gives back the
/// starting bytes, when the only occurrences of `new` in the intermediate
/// result are the copies that the first substitution put there.
pub proof fn law_round_trip(buf: Seq<u8>, old: Seq<u8>, new: Seq<u8>)
    requires
        old.len() > 0,
        new.len() > 0,
        buf.len() <= usize::MAX,
        substituted(buf, old, new).len() <= usize::MAX,
        occurrences(substituted(buf, old, new), new) == inserted_starts(buf, old, new.len() as int),
    ensures
        substituted(substituted(buf, old, new), new, old) == buf,
{
    let ss = spans_at(occurrences(buf, old), old.len() as int);
    let t = substituted(buf, old, new);
    let n = ss.len() as int;
    let ts = spans_at(occurrences(t, new), new.len() as int);
    lemma_occurrences_from(buf, old, 0);
    crate::text::lemma_occurrence_spans(buf, old);
    lemma_occurrences_from(t, new, 0);
    crate::text::lemma_occurrence_spans(t, new);
    law_splice_length(buf, ss, new);
    assert forall|k: int| 0 <= k < ss.len() implies buf.subrange(
        #[trigger] ss[k].start as int,
        ss[k].end as int,
    ) == old by {
        assert(ss[k] == span_at(occurrences(buf, old)[k], old.len() as int));
    }
    lemma_splice_same(buf, ss, old);
    assert(ts.len() == n);
    lemma_gaps_agree(buf, old, new, n);
    assert(ts.take(n) =~= ts);
    assert(ss.take(n) =~= ss);
    lemma_tail_agrees(buf, old, new);
    assert(spliced(buf, ss, old) =~= buf);
}

proof fn lemma_inserted_span(buf: Seq<u8>, old: Seq<u8>, new: Seq<u8>, k: int)
    requires
        old.len() > 0,
        new.len() > 0,
        buf.len() <= usize::MAX,
        substituted(buf, old, new).len() <= usize::MAX,
        occurrences(substituted(buf, old, new), new) == inserted_starts(buf, old, new.len() as int),
        0 <= k < occurrences(buf, old).len(),
    ensures
        ({
            let ss = spans_at(occurrences(buf, old), old.len() as int);
            let ts = spans_at(
                occurrences(substituted(buf, old, new), new),
                new.len() as int,
            );
            &&& ts[k].start as int == replaced_at(ss, k, new.len() as int)
            &&& ts[k].end as int == replaced_at(ss, k, new.len() as int) + new.len()
            &&& gap_start(ts, k) == replaced_at(ss, k, new.len() as int) - (ss[k].start
                - gap_start(ss, k))
        }),
{
    let ss = spans_at(occurrences(buf, old), old.len() as int);
    let t = substituted(buf, old, new);
    let ts = spans_at(occurrences(t, new), new.len() as int);
    lemma_occurrences_from(t, new, 0);
    let ot = occurrences(t, new);
    assert(ot[k] == replaced_at(ss, k, new.len() as int));
    assert(0 <= ot[k] && ot[k] + new.len() <= t.len());
    assert(ts[k] == span_at(occurrences(t, new)[k], new.len() as int));
    if k > 0 {
        assert(ot[k - 1] == replaced_at(ss, k - 1, new.len() as int));
        assert(0 <= ot[k - 1] && ot[k - 1] + new.len() <= t.len());
        assert(ts[k - 1] == span_at(occurrences(t, new)[k - 1], new.len() as int));
        assert(ss.take(k).drop_last() =~= ss.take(k - 1));
        assert(ss.take(k).last() == ss[k - 1]);
        assert(removed_len(ss.take(k)) == removed_len(ss.take(k - 1)) + (ss[k - 1].end
            - ss[k - 1].start));
        assert((k - 1) * new.len() + new.len() == k * new.len()) by (nonlinear_arith);
    } else {
        assert(removed_len(ss.take(0)) == 0);
        assert(0 * new.len() == 0);
    }
}

proof fn lemma_gaps_agree(buf: Seq<u8>, old: Seq<u8>, new: Seq<u8>, k: int)
    requires
        old.len() > 0,
        new.len() > 0,
        buf.len() <= usize::MAX,
        substituted(buf, old, new).len() <= usize::MAX,
        occurrences(substituted(buf, old, new), new) == inserted_starts(buf, old, new.len() as int),
        0 <= k <= occurrences(buf, old).len(),
    ensures
        ({
            let ss = spans_at(occurrences(buf, old), old.len() as int);
            let t = substituted(buf, old, new);
            let ts = spans_at(occurrences(t, new), new.len() as int);
            assembled(t, ts.take(k), old) == assembled(buf, ss.take(k), old)
        }),
    decreases k,
{
    let ss = spans_at(occurrences(buf, old), old.len() as int);
    let t = substituted(buf, old, new);
    let ts = spans_at(occurrences(t, new), new.len() as int);
    if k == 0 {
        assert(ts.take(0).len() == 0);
        assert(ss.take(0).len() == 0);
    } else {
        let j = k - 1;
        lemma_gaps_agree(buf, old, new, j);
        lemma_occurrences_from(buf, old, 0);
        crate::text::lemma_occurrence_spans(buf, old);
        law_splice_length(buf, ss, new);
        lemma_inserted_span(buf, old, new, j);
        assert(ts.take(k).drop_last() =~= ts.take(j));
        assert(ss.take(k).drop_last() =~= ss.take(j));
        assert(ts.take(k)[j] == ts[j]);
        assert(ss.take(k)[j] == ss[j]);
        assert(gap_start(ts.take(k), j) == gap_start(ts, j));
        assert(gap_start(ss.take(k), j) == gap_start(ss, j));
        let o = replaced_at(ss, j, new.len() as int);
        assert(t.subrange(o - (ss[j].start - gap_start(ss, j)), o) == buf.subrange(
            gap_start(ss, j),
            ss[j].start as int,
        ));
    }
}

proof fn lemma_tail_agrees(buf: Seq<u8>, old: Seq<u8>, new: Seq<u8>)
    requires
        old.len() > 0,
        new.len() > 0,
        buf.len() <= usize::MAX,
        substituted(buf, old, new).len() <= usize::MAX,
        occurrences(substituted(buf, old, new), new) == inserted_starts(buf, old, new.len() as int),
    ensures
        ({
            let ss = spans_at(occurrences(buf, old), old.len() as int);
            let t = substituted(buf, old, new);
            let ts = spans_at(occurrences(t, new), new.len() as int);
            t.subrange(gap_start(ts, ts.len() as int), t.len() as int) == buf.subrange(
                gap_start(ss, ss.len() as int),
                buf.len() as int,
            )
        }),
{
    let ss = spans_at(occurrences(buf, old), old.len() as int);
    let t = substituted(buf, old, new);
    let ts = spans_at(occurrences(t, new), new.len() as int);
    let n = ss.len() as int;
    lemma_occurrences_from(buf, old, 0);
    crate::text::lemma_occurrence_spans(buf, old);
    law_splice_length(buf, ss, new);
    if n == 0 {
        assert(ts.len() == 0);
    } else {
        lemma_inserted_span(buf, old, new, n - 1);
        assert(ss.take(n).drop_last() =~= ss.take(n - 1));
        assert(ss.take(n) =~= ss);
        assert(ss.take(n).last() == ss[n - 1]);
        assert((n - 1) * new.len() + new.len() == n * new.len()) by (nonlinear_arith);
    }
}


/// Rebuilding a tree with no edits gives back the reference root's id.
pub proof fn law_rebuild_without_edits(store: Seq<TreeObject>, root: Seq<u8>)
    ensures
        built_root(store, root, Seq::<file::Replacer>::empty()) == Ok::<Seq<u8>, Option<int>>(root),
{
    assert(edit_paths(Seq::<file::Replacer>::empty()).len() == 0);
}

/// Whether an entry of the tree at `prefix` has an edit at or under it.
pub open spec fn entry_touched(e: TreeEntry, prefix: Seq<u8>, paths: Seq<Seq<u8>>) -> bool {
    match e.kind {
        EntryKind::Tree => touched(child_prefix(prefix, e.name@), paths) && child_prefix(
            prefix,
            e.name@,
        ).len() <= longest(paths),
        EntryKind::Blob | EntryKind::Link => edit_for(child_path(prefix, e.name@), paths) is Some,
        EntryKind::Commit => false,
    }
}

/// A rebuilt tree keeps every entry's mode and name, in order; an entry with
/// no edit at or under its path keeps its object id, so the ids of siblings
/// of an edited path do not change; an edited file points to its new
/// content's id.
pub proof fn law_rebuild_keeps_untouched(
    store: Seq<TreeObject>,
    entries: Seq<TreeEntry>,
    prefix: Seq<u8>,
    paths: Seq<Seq<u8>>,
    contents: Seq<Seq<u8>>,
)
    requires
        rebuilt_entries(store, entries, prefix, paths, contents) is Ok,
    ensures
        ({
            let out = rebuilt_entries(store, entries, prefix, paths, contents)->Ok_0;
            &&& out.len() == entries.len()
            &&& forall|k: int|
                0 <= k < entries.len() ==> {
                    let e = #[trigger] entries[k];
                    &&& out[k].0 == e.mode@
                    &&& out[k].1 == e.name@
                    &&& !entry_touched(e, prefix, paths) ==> out[k].2 == e.oid@
                    &&& (e.kind is Blob || e.kind is Link) ==> match edit_for(
                        child_path(prefix, e.name@),
                        paths,
                    ) {
                        Some(i) => out[k].2 == object_hash(false, contents[i]),
                        None => true,
                    }
                }
        }),
    decreases entries.len(),
{
    if entries.len() > 0 {
        let dl = entries.drop_last();
        law_rebuild_keeps_untouched(store, dl, prefix, paths, contents);
        let out = rebuilt_entries(store, entries, prefix, paths, contents)->Ok_0;
        let front = rebuilt_entries(store, dl, prefix, paths, contents)->Ok_0;
        assert(out == front.push(out.last()));
        assert forall|k: int| 0 <= k < entries.len() - 1 implies #[trigger] entries[k] == dl[k] by {}
    }
}


/// Direct substitution of a text that does not occur leaves the content as
/// it was.
pub proof fn law_substitution_without_occurrence(buf: Seq<u8>, old: Seq<u8>, new: Seq<u8>)
    requires
        occurrences(buf, old).len() == 0,
    ensures
        substituted(buf, old, new) == buf,
{
    assert(spans_at(occurrences(buf, old), old.len() as int).len() == 0);
    assert(buf.subrange(0, buf.len() as int) =~= buf);
}

/// A member whose manifest inherits its version gets no edit of its own:
/// only the root manifest, which holds the shared version, can be edited.
pub proof fn law_inheriting_member_untouched(
    ws: Workspace,
    mode: CargoReplaceMode,
    old: Seq<char>,
    new: Seq<char>,
    edits: Seq<file::Replacer>,
    i: int,
)
    requires
        ws.wf(),
        propagated(ws, mode, old, new, edits),
        0 <= i < ws.packages@.len(),
        manifest_versions(ws.packages@[i].manifest@) matches Some((Some(None), _)),
        ws.packages@[i].manifest_path@ != ws.root_manifest_path@,
    ensures
        !edits_path(edits, ws.packages@[i].manifest_path@),
{
    let path = ws.packages@[i].manifest_path@;
    if edits_path(edits, path) {
        let k = choose|k: int| 0 <= k < edits.len() && (#[trigger] edits[k]).path@ == path;
        assert(crate::replacers::cargo::edit_owed(ws, mode, old, new, edits[k]));
        if exists|j: int|
            0 <= j < ws.packages@.len() && crate::replacers::cargo::package_bumped(
                mode,
                #[trigger] ws.packages@[j],
                old,
            ) && path == ws.packages@[j].manifest_path@ {
            let j = choose|j: int|
                0 <= j < ws.packages@.len() && crate::replacers::cargo::package_bumped(
                    mode,
                    #[trigger] ws.packages@[j],
                    old,
                ) && path == ws.packages@[j].manifest_path@;
            if j != i {
                if j < i {
                    assert(ws.packages@[j].manifest_path@ != ws.packages@[i].manifest_path@);
                } else {
                    assert(ws.packages@[i].manifest_path@ != ws.packages@[j].manifest_path@);
                }
            }
        }
    }
}

} // verus!
