//! A newline-delimited line model for source text, with verified
//! executable helpers for scanning `&str` values against it.
//!
//! A line is a maximal run of characters free of `'\n'`. A terminating
//! `'\n'` closes the line it follows and is not part of any line; text
//! after the last `'\n'` forms one further line when it is nonempty. A
//! `'\r'` is an ordinary character and stays inside its line.

use vstd::prelude::*;

verus! {

/// Index of the first `'\n'` in `s`, or `s.len()` when there is none.
pub open spec fn first_line_end(s: Seq<char>) -> int
    decreases s.len(),
{
    if s.len() == 0 {
        0
    } else if s[0] == '\n' {
        0
    } else {
        1 + first_line_end(s.drop_first())
    }
}

pub proof fn lemma_first_line_end_bounds(s: Seq<char>)
    ensures
        0 <= first_line_end(s) <= s.len(),
        forall|k: int| 0 <= k < first_line_end(s) ==> s[k] != '\n',
        first_line_end(s) < s.len() ==> s[first_line_end(s)] == '\n',
    decreases s.len(),
{
    if s.len() != 0 && s[0] != '\n' {
        let t = s.drop_first();
        lemma_first_line_end_bounds(t);
        assert(forall|k: int| 1 <= k < first_line_end(s) ==> s[k] == t[k - 1]);
    }
}

/// `first_line_end` is the one index with nothing but non-newlines
/// before it and, unless it is the length, a newline at it.
pub proof fn lemma_first_line_end_at(s: Seq<char>, j: int)
    requires
        0 <= j <= s.len(),
        forall|k: int| 0 <= k < j ==> s[k] != '\n',
        j < s.len() ==> s[j] == '\n',
    ensures
        first_line_end(s) == j,
    decreases s.len(),
{
    if s.len() == 0 {
    } else if s[0] == '\n' {
        assert(j == 0);
    } else {
        assert(j != 0);
        let t = s.drop_first();
        assert(forall|k: int| 0 <= k < j - 1 ==> t[k] == s[k + 1] && t[k] != '\n');
        assert(j - 1 < t.len() ==> t[j - 1] == s[j]);
        lemma_first_line_end_at(t, j - 1);
    }
}

/// The lines of `s`, in order.
pub open spec fn split_lines(s: Seq<char>) -> Seq<Seq<char>>
    decreases s.len(),
{
    if s.len() == 0 {
        Seq::empty()
    } else {
        let j = first_line_end(s);
        if 0 <= j < s.len() {
            seq![s.subrange(0, j)] + split_lines(s.subrange(j + 1, s.len() as int))
        } else {
            seq![s]
        }
    }
}

/// Lines come out in the order they stand in the text: the lines of a
/// newline-terminated text followed by more text are the first text's
/// lines and then the rest's.
pub proof fn lemma_split_lines_append(s1: Seq<char>, s2: Seq<char>)
    requires
        s1.len() > 0 ==> s1.last() == '\n',
    ensures
        split_lines(s1 + s2) == split_lines(s1) + split_lines(s2),
    decreases s1.len(),
{
    if s1.len() == 0 {
        assert(s1 + s2 =~= s2);
        assert(split_lines(s1) + split_lines(s2) =~= split_lines(s2));
    } else {
        let j = first_line_end(s1);
        lemma_first_line_end_bounds(s1);
        assert(j < s1.len()) by {
            if j == s1.len() {
                assert(s1[s1.len() - 1] == '\n');
            }
        }
        let whole = s1 + s2;
        assert(forall|k: int| 0 <= k < j ==> whole[k] == s1[k]);
        lemma_first_line_end_at(whole, j);
        let tail1 = s1.subrange(j + 1, s1.len() as int);
        assert(tail1.len() > 0 ==> tail1.last() == s1.last());
        assert(whole.subrange(0, j) =~= s1.subrange(0, j));
        assert(whole.subrange(j + 1, whole.len() as int) =~= tail1 + s2);
        lemma_split_lines_append(tail1, s2);
        assert(seq![s1.subrange(0, j)] + (split_lines(tail1) + split_lines(s2)) =~= (seq![
            s1.subrange(0, j),
        ] + split_lines(tail1)) + split_lines(s2));
    }
}

/// `h` begins with `p`.
pub open spec fn begins_with(h: Seq<char>, p: Seq<char>) -> bool {
    p.len() <= h.len() && h.subrange(0, p.len() as int) == p
}

/// `n` occurs somewhere inside `h`.
pub open spec fn contains_sub(h: Seq<char>, n: Seq<char>) -> bool {
    exists|o: int| 0 <= o && o + n.len() <= h.len() && #[trigger] h.subrange(o, o + n.len()) == n
}

/// Whether `needle` stands at position `at` of `h`.
fn matches_at(h: &str, needle: &str, at: usize) -> (r: bool)
    requires
        at + needle@.len() <= h@.len() <= usize::MAX,
    ensures
        r == (h@.subrange(at as int, at + needle@.len()) == needle@),
{
    let m = needle.unicode_len();
    let mut i: usize = 0;
    while i < m
        invariant
            i <= m,
            m == needle@.len(),
            at + m <= h@.len() <= usize::MAX,
            forall|k: int| 0 <= k < i ==> h@[at + k] == needle@[k],
        decreases m - i,
    {
        if h.get_char(at + i) != needle.get_char(i) {
            proof {
                assert(h@.subrange(at as int, at + m) != needle@) by {
                    assert(h@.subrange(at as int, at + m)[i as int] == h@[at + i]);
                }
            }
            return false;
        }
        i += 1;
    }
    proof {
        assert(h@.subrange(at as int, at + m) =~= needle@);
    }
    true
}

/// Whether `h` begins with `prefix`.
pub fn str_begins_with(h: &str, prefix: &str) -> (r: bool)
    ensures
        r == begins_with(h@, prefix@),
{
    let hn = h.unicode_len();
    let pn = prefix.unicode_len();
    if pn > hn {
        return false;
    }
    matches_at(h, prefix, 0)
}

/// Whether `needle` occurs somewhere inside `h`.
pub fn str_contains(h: &str, needle: &str) -> (r: bool)
    ensures
        r == contains_sub(h@, needle@),
{
    let hn = h.unicode_len();
    let nn = needle.unicode_len();
    if nn > hn {
        return false;
    }
    let last = hn - nn;
    let mut o: usize = 0;
    loop
        invariant
            o <= last,
            nn <= hn,
            last == hn - nn,
            hn == h@.len(),
            nn == needle@.len(),
            forall|k: int| 0 <= k < o ==> #[trigger] h@.subrange(k, k + needle@.len()) != needle@,
        ensures
            forall|k: int| 0 <= k <= last ==> #[trigger] h@.subrange(k, k + needle@.len())
                != needle@,
        decreases last - o,
    {
        if matches_at(h, needle, o) {
            proof {
                assert(0 <= o as int && o + needle@.len() <= h@.len() && h@.subrange(
                    o as int,
                    o + needle@.len(),
                ) == needle@);
            }
            return true;
        }
        if o == last {
            break;
        }
        o += 1;
    }
    false
}

/// The end of the line that starts at `start`: the index of the next
/// `'\n'`, or the text's length when the line runs to the end.
pub fn line_end_from(source: &str, start: usize) -> (j: usize)
    requires
        start <= source@.len(),
    ensures
        start <= j <= source@.len(),
        first_line_end(source@.subrange(start as int, source@.len() as int)) == j - start,
        j < source@.len() ==> source@[j as int] == '\n',
        forall|k: int| start <= k < j ==> source@[k] != '\n',
{
    let n = source.unicode_len();
    let mut j = start;
    loop
        invariant
            start <= j <= n,
            n == source@.len(),
            forall|k: int| start <= k < j ==> source@[k] != '\n',
        ensures
            start <= j <= n,
            j < n ==> source@[j as int] == '\n',
            forall|k: int| start <= k < j ==> source@[k] != '\n',
        decreases n - j,
    {
        if j == n {
            break;
        }
        if source.get_char(j) == '\n' {
            break;
        }
        j += 1;
    }
    proof {
        let rest = source@.subrange(start as int, source@.len() as int);
        assert(forall|k: int| 0 <= k < j - start ==> rest[k] == source@[start + k]);
        lemma_first_line_end_at(rest, j - start);
    }
    j
}

} // verus!
