//! The description of a version: what is left of the text written in the
//! editor once comment lines and surrounding white space are dropped.
use vstd::prelude::*;
use vstd::string::{StrSliceExecFns, StringExecFns};

verus! {

/// The characters that Unicode calls white space.
pub open spec fn is_space(c: char) -> bool {
    let u = c as u32;
    (0x9 <= u <= 0xd) || u == 0x20 || u == 0x85 || u == 0xa0 || u == 0x1680 || (0x2000 <= u
        <= 0x200a) || u == 0x2028 || u == 0x2029 || u == 0x202f || u == 0x205f || u == 0x3000
}

/// Tells whether `c` is white space.
pub fn space_char(c: char) -> (r: bool)
    ensures
        r == is_space(c),
{
    let u = c as u32;
    (0x9 <= u && u <= 0xd) || u == 0x20 || u == 0x85 || u == 0xa0 || u == 0x1680 || (0x2000 <= u
        && u <= 0x200a) || u == 0x2028 || u == 0x2029 || u == 0x202f || u == 0x205f || u == 0x3000
}

/// A line without the carriage return of a `\r\n` ending.
pub open spec fn strip_cr(l: Seq<char>) -> Seq<char> {
    if l.len() > 0 && l.last() == '\r' {
        l.drop_last()
    } else {
        l
    }
}

/// The lines ended by a newline so far, and the characters after the last
/// newline.
pub open spec fn line_scan(s: Seq<char>) -> (Seq<Seq<char>>, Seq<char>)
    decreases s.len(),
{
    if s.len() == 0 {
        (Seq::empty(), Seq::empty())
    } else {
        let (done, cur) = line_scan(s.drop_last());
        if s.last() == '\n' {
            (done.push(strip_cr(cur)), Seq::empty())
        } else {
            (done, cur.push(s.last()))
        }
    }
}

/// The lines of `s`: split at each newline, a `\r` before it dropped; a
/// last line without a newline counts unless it is empty.
pub open spec fn text_lines(s: Seq<char>) -> Seq<Seq<char>> {
    let (done, cur) = line_scan(s);
    if cur.len() == 0 {
        done
    } else {
        done.push(cur)
    }
}

/// The line's first character that is not white space is `#`.
pub open spec fn is_comment(l: Seq<char>) -> bool {
    exists|k: int| 0 <= k < l.len() && l[k] == '#' && forall|j: int| 0 <= j < k ==> is_space(#[trigger] l[j])
}

/// Some line is no comment.
pub open spec fn has_kept(ls: Seq<Seq<char>>) -> bool {
    exists|i: int| 0 <= i < ls.len() && !is_comment(#[trigger] ls[i])
}

/// The lines that are no comments, joined by newlines.
pub open spec fn joined_kept(ls: Seq<Seq<char>>) -> Seq<char>
    decreases ls.len(),
{
    if ls.len() == 0 {
        Seq::empty()
    } else {
        let front = joined_kept(ls.drop_last());
        let l = ls.last();
        if is_comment(l) {
            front
        } else if has_kept(ls.drop_last()) {
            front + seq!['\n'] + l
        } else {
            l
        }
    }
}

proof fn lemma_nothing_kept(ls: Seq<Seq<char>>)
    requires
        !has_kept(ls),
    ensures
        joined_kept(ls) == Seq::<char>::empty(),
    decreases ls.len(),
{
    if ls.len() > 0 {
        let dl = ls.drop_last();
        assert(!has_kept(dl)) by {
            assert forall|i: int| 0 <= i < dl.len() implies is_comment(#[trigger] dl[i]) by {
                assert(dl[i] == ls[i]);
            }
        }
        lemma_nothing_kept(dl);
        assert(is_comment(ls[ls.len() - 1]));
    }
}

/// `t` is `s` without its leading and trailing white space, and not empty.
pub open spec fn trimmed(s: Seq<char>, t: Seq<char>) -> bool {
    exists|a: int, b: int|
        0 <= a < b <= s.len() && t == s.subrange(a, b) && (forall|k: int|
            0 <= k < a ==> is_space(#[trigger] s[k])) && (forall|k: int|
            b <= k < s.len() ==> is_space(#[trigger] s[k])) && !is_space(s[a]) && !is_space(s[b - 1])
}

/// Tells whether the characters `from..to` of `s` form a comment line.
fn comment_line(s: &str, from: usize, to: usize) -> (r: bool)
    requires
        from <= to <= s@.len(),
    ensures
        r == is_comment(s@.subrange(from as int, to as int)),
{
    let ghost l = s@.subrange(from as int, to as int);
    let mut k = from;
    while k < to && space_char(s.get_char(k))
        invariant
            from <= k <= to <= s@.len(),
            l == s@.subrange(from as int, to as int),
            forall|j: int| 0 <= j < k - from ==> is_space(#[trigger] l[j]),
        decreases to - k,
    {
        k = k + 1;
    }
    if k < to && s.get_char(k) == '#' {
        assert(l[k - from] == '#');
        true
    } else {
        assert forall|m: int| 0 <= m < l.len() && l[m] == '#' implies !(forall|j: int|
            0 <= j < m ==> is_space(#[trigger] l[j])) by {
            if k < to {
                assert(!is_space(l[k - from]) || l[k - from] != '#');
                if m > k - from {
                    assert(!is_space(l[k - from]));
                }
            }
        }
        false
    }
}

/// Appends line `from..to` of `s` to `out`, after a newline where a line
/// was kept before.
fn keep_line(out: &mut String, s: &str, from: usize, to: usize, kept_any: bool)
    requires
        from <= to <= s@.len(),
    ensures
        final(out)@ == if kept_any {
            old(out)@ + seq!['\n'] + s@.subrange(from as int, to as int)
        } else {
            old(out)@ + s@.subrange(from as int, to as int)
        },
{
    if kept_any {
        out.append("\n");
        proof {
            reveal_strlit("\n");
        }
    }
    out.append(s.substring_char(from, to));
}

/// The description in `text`: its lines that are no comments, joined by
/// newlines, without leading and trailing white space; none when nothing
/// but white space is left.
pub fn description_from(text: &str) -> (r: Option<String>)
    ensures
        ({
            let j = joined_kept(text_lines(text@));
            &&& r is None <==> forall|k: int| 0 <= k < j.len() ==> is_space(#[trigger] j[k])
            &&& r matches Some(d) ==> trimmed(j, d@)
        }),
{
    let n = text.unicode_len();
    let mut out = String::new();
    let mut kept_any = false;
    let mut start: usize = 0;
    let ghost mut done: Seq<Seq<char>> = Seq::empty();
    let mut i: usize = 0;
    while i < n
        invariant
            i <= n,
            n == text@.len(),
            start <= i,
            line_scan(text@.take(i as int)) == (done, text@.subrange(start as int, i as int)),
            out@ == joined_kept(done),
            kept_any == has_kept(done),
        decreases n - i,
    {
        proof {
            assert(text@.take(i + 1).drop_last() =~= text@.take(i as int));
            assert(text@.take(i + 1).last() == text@[i as int]);
        }
        let c = text.get_char(i);
        if c == '\n' {
            let mut end = i;
            if i > start && text.get_char(i - 1) == '\r' {
                end = i - 1;
            }
            let ghost line = text@.subrange(start as int, i as int);
            assert(strip_cr(line) =~= text@.subrange(start as int, end as int));
            let ghost next = done.push(strip_cr(line));
            assert(next.drop_last() =~= done);
            if !comment_line(text, start, end) {
                proof {
                    if !kept_any {
                        lemma_nothing_kept(done);
                    }
                }
                keep_line(&mut out, text, start, end, kept_any);
                assert(!is_comment(next[next.len() - 1]));
                assert(has_kept(next));
                assert(out@ =~= joined_kept(next));
                kept_any = true;
            } else {
                assert forall|m: int| 0 <= m < next.len() && !is_comment(#[trigger] next[m]) implies has_kept(done) by {
                    assert(next[m] == done[m]);
                }
                assert(out@ == joined_kept(next));
            }
            proof {
                done = next;
            }
            start = i + 1;
            assert(text@.subrange(start as int, i + 1) =~= Seq::<char>::empty());
        } else {
            assert(text@.subrange(start as int, i + 1) =~= text@.subrange(start as int, i as int).push(c));
        }
        i = i + 1;
    }
    assert(text@.take(n as int) =~= text@);
    if start < n {
        let ghost line = text@.subrange(start as int, n as int);
        let ghost next = done.push(line);
        assert(next.drop_last() =~= done);
        if !comment_line(text, start, n) {
            proof {
                if !kept_any {
                    lemma_nothing_kept(done);
                }
            }
            keep_line(&mut out, text, start, n, kept_any);
            assert(out@ =~= joined_kept(next));
        } else {
            assert forall|m: int| 0 <= m < next.len() && !is_comment(#[trigger] next[m]) implies has_kept(done) by {
                assert(next[m] == done[m]);
            }
        }
        assert(text_lines(text@) == next);
    } else {
        assert(text_lines(text@) == done);
    }
    let ghost j = joined_kept(text_lines(text@));
    assert(out@ == j);
    let t = out.as_str();
    let m = t.unicode_len();
    let mut a: usize = 0;
    while a < m && space_char(t.get_char(a))
        invariant
            a <= m,
            m == j.len(),
            t@ == j,
            forall|k: int| 0 <= k < a ==> is_space(#[trigger] j[k]),
        decreases m - a,
    {
        a = a + 1;
    }
    if a == m {
        return None;
    }
    let mut b: usize = m;
    while b > a + 1 && space_char(t.get_char(b - 1))
        invariant
            a < b <= m,
            m == j.len(),
            t@ == j,
            !is_space(j[a as int]),
            forall|k: int| b <= k < m ==> is_space(#[trigger] j[k]),
        decreases b,
    {
        b = b - 1;
    }
    let d = String::from_str(t.substring_char(a, b));
    assert(trimmed(j, d@)) by {
        assert(!is_space(j[b - 1]));
    }
    Some(d)
}

} // verus!
