//! Character-sequence primitives: conversion from string slices, line
//! splitting and joining, ASCII trimming, and small search helpers.

use vstd::prelude::*;
use vstd::string::StrSliceExecFns;

verus! {

/// The views of a sequence of character vectors.
pub open spec fn line_views(ls: Seq<Vec<char>>) -> Seq<Seq<char>> {
    Seq::new(ls.len(), |i: int| ls[i]@)
}

/// Convert a string slice into the vector of its characters.
pub fn chars_of(s: &str) -> (r: Vec<char>)
    ensures
        r@ == s@,
{
    let n = s.unicode_len();
    let mut r: Vec<char> = Vec::new();
    let mut i: usize = 0;
    while i < n
        invariant
            n == s@.len(),
            i <= n,
            r@ == s@.subrange(0, i as int),
        decreases n - i,
    {
        r.push(s.get_char(i));
        i += 1;
        assert(r@ =~= s@.subrange(0, i as int));
    }
    assert(r@ =~= s@);
    r
}

/// Copy the characters of `t` in positions `lo..hi`.
pub fn copy_range(t: &Vec<char>, lo: usize, hi: usize) -> (r: Vec<char>)
    requires
        lo <= hi <= t@.len(),
    ensures
        r@ == t@.subrange(lo as int, hi as int),
{
    let mut r: Vec<char> = Vec::new();
    let mut i: usize = lo;
    while i < hi
        invariant
            lo <= i <= hi <= t@.len(),
            r@ == t@.subrange(lo as int, i as int),
        decreases hi - i,
    {
        r.push(t[i]);
        i += 1;
        assert(r@ =~= t@.subrange(lo as int, i as int));
    }
    r
}

/// Append all characters of `src` to `out`.
pub fn push_all(out: &mut Vec<char>, src: &Vec<char>)
    ensures
        final(out)@ == old(out)@ + src@,
{
    let mut i: usize = 0;
    while i < src.len()
        invariant
            i <= src@.len(),
            out@ == old(out)@ + src@.subrange(0, i as int),
        decreases src@.len() - i,
    {
        out.push(src[i]);
        i += 1;
        assert(out@ =~= old(out)@ + src@.subrange(0, i as int));
    }
    assert(out@ =~= old(out)@ + src@);
}

/// Whether `t` holds exactly the characters of `pat` at positions `lo..hi`.
pub fn range_eq(t: &Vec<char>, lo: usize, hi: usize, pat: &Vec<char>) -> (r: bool)
    requires
        lo <= hi <= t@.len(),
    ensures
        r == (t@.subrange(lo as int, hi as int) == pat@),
{
    if hi - lo != pat.len() {
        return false;
    }
    let mut i: usize = 0;
    while i < pat.len()
        invariant
            lo <= hi <= t@.len(),
            hi - lo == pat@.len(),
            i <= pat@.len(),
            forall|j: int| 0 <= j < i ==> t@[lo + j] == pat@[j],
        decreases pat@.len() - i,
    {
        if t[lo + i] != pat[i] {
            assert(t@.subrange(lo as int, hi as int)[i as int] != pat@[i as int]);
            return false;
        }
        i += 1;
    }
    assert(t@.subrange(lo as int, hi as int) =~= pat@);
    true
}

/// Whether the vectors hold the same characters.
pub fn vec_eq(a: &Vec<char>, b: &Vec<char>) -> (r: bool)
    ensures
        r == (a@ == b@),
{
    if a.len() != b.len() {
        return false;
    }
    let r = range_eq(a, 0, a.len(), b);
    assert(a@.subrange(0, a@.len() as int) =~= a@);
    r
}

/// ASCII whitespace that may surround tokens on a configuration line.
pub open spec fn is_ws(c: char) -> bool {
    c == ' ' || c == '\t' || c == '\r'
}

/// Executable check for [`is_ws`].
pub fn is_ws_char(c: char) -> (r: bool)
    ensures
        r == is_ws(c),
{
    c == ' ' || c == '\t' || c == '\r'
}

/// Index of the first occurrence of `c` in `s` at or after `i`; `s.len()` if none.
pub open spec fn first_idx_from(s: Seq<char>, c: char, i: int) -> int
    decreases s.len() - i,
{
    if i < 0 || i >= s.len() {
        s.len() as int
    } else if s[i] == c {
        i
    } else {
        first_idx_from(s, c, i + 1)
    }
}

/// Index of the first occurrence of `c` in `s`; `s.len()` if none.
pub open spec fn first_idx(s: Seq<char>, c: char) -> int {
    first_idx_from(s, c, 0)
}

pub proof fn lemma_first_idx_from(s: Seq<char>, c: char, i: int)
    requires
        0 <= i <= s.len(),
    ensures
        i <= first_idx_from(s, c, i) <= s.len(),
        first_idx_from(s, c, i) < s.len() ==> s[first_idx_from(s, c, i)] == c,
        forall|j: int| i <= j < first_idx_from(s, c, i) ==> s[j] != c,
    decreases s.len() - i,
{
    if i < s.len() && s[i] != c {
        lemma_first_idx_from(s, c, i + 1);
    }
}

/// First occurrence of `c` in `t`, or `t.len()` if `c` does not occur.
pub fn find_char(t: &Vec<char>, c: char) -> (r: usize)
    ensures
        r == first_idx(t@, c),
{
    let mut i: usize = 0;
    while i < t.len()
        invariant
            i <= t@.len(),
            first_idx(t@, c) == first_idx_from(t@, c, i as int),
        decreases t@.len() - i,
    {
        if t[i] == c {
            return i;
        }
        i += 1;
    }
    i
}

pub proof fn lemma_first_idx_at(s: Seq<char>, c: char, i: int)
    requires
        0 <= i <= s.len(),
        forall|j: int| 0 <= j < i ==> s[j] != c,
        i < s.len() ==> s[i] == c,
    ensures
        first_idx(s, c) == i,
{
    lemma_first_idx_from(s, c, 0);
    if first_idx(s, c) < i {
        assert(s[first_idx(s, c)] == c);
    }
    if i < first_idx(s, c) {
        assert(i < s.len());
    }
}

pub proof fn lemma_concat_contains(a: Seq<char>, b: Seq<char>, c: char)
    ensures
        (a + b).contains(c) <==> a.contains(c) || b.contains(c),
{
    if (a + b).contains(c) {
        let i = choose|i: int| 0 <= i < (a + b).len() && (a + b)[i] == c;
        if i < a.len() {
            assert(a[i] == c);
        } else {
            assert(b[i - a.len()] == c);
        }
    }
    if a.contains(c) {
        let i = choose|i: int| 0 <= i < a.len() && a[i] == c;
        assert((a + b)[i] == c);
    }
    if b.contains(c) {
        let i = choose|i: int| 0 <= i < b.len() && b[i] == c;
        assert((a + b)[a.len() + i] == c);
    }
}

/// First index at or after `i` holding a non-whitespace character; `s.len()` if none.
pub open spec fn first_non_ws(s: Seq<char>, i: int) -> int
    decreases s.len() - i,
{
    if i < 0 || i >= s.len() {
        s.len() as int
    } else if is_ws(s[i]) {
        first_non_ws(s, i + 1)
    } else {
        i
    }
}

/// One past the last non-whitespace character strictly before `j`; `0` if none.
pub open spec fn end_non_ws(s: Seq<char>, j: int) -> int
    decreases j,
{
    if j <= 0 || j > s.len() {
        0
    } else if is_ws(s[j - 1]) {
        end_non_ws(s, j - 1)
    } else {
        j
    }
}

/// `s` with ASCII whitespace removed from both ends.
pub open spec fn spec_trim(s: Seq<char>) -> Seq<char> {
    let a = first_non_ws(s, 0);
    let b = end_non_ws(s, s.len() as int);
    if a < b {
        s.subrange(a, b)
    } else {
        Seq::empty()
    }
}

pub proof fn lemma_first_non_ws(s: Seq<char>, i: int)
    requires
        0 <= i <= s.len(),
    ensures
        i <= first_non_ws(s, i) <= s.len(),
        first_non_ws(s, i) < s.len() ==> !is_ws(s[first_non_ws(s, i)]),
        forall|j: int| i <= j < first_non_ws(s, i) ==> is_ws(s[j]),
    decreases s.len() - i,
{
    if i < s.len() && is_ws(s[i]) {
        lemma_first_non_ws(s, i + 1);
    }
}

pub proof fn lemma_end_non_ws(s: Seq<char>, j: int)
    requires
        0 <= j <= s.len(),
    ensures
        0 <= end_non_ws(s, j) <= j,
        end_non_ws(s, j) > 0 ==> !is_ws(s[end_non_ws(s, j) - 1]),
        forall|k: int| end_non_ws(s, j) <= k < j ==> is_ws(s[k]),
    decreases j,
{
    if j > 0 && is_ws(s[j - 1]) {
        lemma_end_non_ws(s, j - 1);
    }
}

/// The trimmed copy of `line`.
pub fn trimmed(line: &Vec<char>) -> (r: Vec<char>)
    ensures
        r@ == spec_trim(line@),
{
    let n = line.len();
    let mut a: usize = 0;
    while a < n && is_ws_char(line[a])
        invariant
            a <= n,
            n == line@.len(),
            first_non_ws(line@, 0) == first_non_ws(line@, a as int),
        decreases n - a,
    {
        a += 1;
    }
    assert(first_non_ws(line@, a as int) == a);
    let mut b: usize = n;
    while b > a && is_ws_char(line[b - 1])
        invariant
            a <= b <= n,
            n == line@.len(),
            first_non_ws(line@, 0) == a,
            end_non_ws(line@, n as int) == end_non_ws(line@, b as int),
        decreases b,
    {
        b -= 1;
    }
    if b == a {
        proof {
            lemma_first_non_ws(line@, 0);
            if b > 0 && !is_ws(line@[b - 1]) {
                assert(end_non_ws(line@, b as int) == b);
                assert(first_non_ws(line@, 0) <= b - 1);
            }
            assert(end_non_ws(line@, b as int) <= a) by {
                lemma_end_non_ws(line@, b as int);
            }
        }
        assert(spec_trim(line@) =~= Seq::<char>::empty());
        Vec::new()
    } else {
        assert(!is_ws(line@[b - 1]));
        assert(end_non_ws(line@, b as int) == b);
        let r = copy_range(line, a, b);
        assert(r@ =~= spec_trim(line@));
        r
    }
}

/// The lines of `t`, split on `'\n'`; there is always at least one line, and
/// joining the lines with `'\n'` restores `t` exactly.
pub open spec fn spec_split_lines(t: Seq<char>) -> Seq<Seq<char>>
    decreases t.len(),
{
    if t.len() == 0 {
        seq![Seq::<char>::empty()]
    } else if t[0] == '\n' {
        seq![Seq::<char>::empty()] + spec_split_lines(t.drop_first())
    } else {
        let rest = spec_split_lines(t.drop_first());
        seq![seq![t[0]] + rest[0]] + rest.drop_first()
    }
}

/// The text the lines describe: the lines joined with `'\n'`.
pub open spec fn spec_join_lines(ls: Seq<Seq<char>>) -> Seq<char>
    decreases ls.len(),
{
    if ls.len() == 0 {
        Seq::empty()
    } else if ls.len() == 1 {
        ls[0]
    } else {
        spec_join_lines(ls.drop_last()) + seq!['\n'] + ls.last()
    }
}

pub proof fn lemma_split_no_nl(p: Seq<char>)
    requires
        !p.contains('\n'),
    ensures
        spec_split_lines(p) == seq![p],
    decreases p.len(),
{
    if p.len() == 0 {
        assert(p =~= Seq::<char>::empty());
    } else {
        assert(p[0] != '\n');
        assert(!p.drop_first().contains('\n')) by {
            if p.drop_first().contains('\n') {
                let j = choose|j: int|
                    0 <= j < p.drop_first().len() && p.drop_first()[j] == '\n';
                assert(p[j + 1] == '\n');
            }
        }
        lemma_split_no_nl(p.drop_first());
        assert(seq![p[0]] + p.drop_first() =~= p);
        assert(spec_split_lines(p) =~= seq![p]);
    }
}

pub proof fn lemma_split_cons(p: Seq<char>, rest: Seq<char>)
    requires
        !p.contains('\n'),
    ensures
        spec_split_lines(p + seq!['\n'] + rest) == seq![p] + spec_split_lines(rest),
    decreases p.len(),
{
    let t = p + seq!['\n'] + rest;
    if p.len() == 0 {
        assert(t[0] == '\n');
        assert(t.drop_first() =~= rest);
        assert(p =~= Seq::<char>::empty());
        assert(spec_split_lines(t) =~= seq![p] + spec_split_lines(rest));
    } else {
        assert(t[0] == p[0]);
        assert(p[0] != '\n');
        assert(!p.drop_first().contains('\n')) by {
            if p.drop_first().contains('\n') {
                let j = choose|j: int|
                    0 <= j < p.drop_first().len() && p.drop_first()[j] == '\n';
                assert(p[j + 1] == '\n');
            }
        }
        assert(t.drop_first() =~= p.drop_first() + seq!['\n'] + rest);
        lemma_split_cons(p.drop_first(), rest);
        let rest2 = spec_split_lines(t.drop_first());
        assert(rest2 == seq![p.drop_first()] + spec_split_lines(rest));
        assert(rest2[0] == p.drop_first());
        assert(seq![t[0]] + rest2[0] =~= p);
        assert(rest2.drop_first() =~= spec_split_lines(rest));
        assert(spec_split_lines(t) =~= seq![p] + spec_split_lines(rest));
    }
}

pub proof fn lemma_split_lines_wf(t: Seq<char>)
    ensures
        spec_split_lines(t).len() >= 1,
        forall|i: int|
            0 <= i < spec_split_lines(t).len() ==> !(#[trigger] spec_split_lines(
                t,
            )[i]).contains('\n'),
    decreases t.len(),
{
    if t.len() == 0 {
    } else if t[0] == '\n' {
        lemma_split_lines_wf(t.drop_first());
    } else {
        lemma_split_lines_wf(t.drop_first());
        let rest = spec_split_lines(t.drop_first());
        let first = seq![t[0]] + rest[0];
        assert(!first.contains('\n')) by {
            if first.contains('\n') {
                let j = choose|j: int| 0 <= j < first.len() && first[j] == '\n';
                if j == 0 {
                    assert(t[0] == '\n');
                } else {
                    assert(rest[0][j - 1] == '\n');
                    assert(rest[0].contains('\n'));
                }
            }
        }
    }
}

pub proof fn lemma_join_append(a: Seq<Seq<char>>, b: Seq<Seq<char>>)
    requires
        a.len() >= 1,
        b.len() >= 1,
    ensures
        spec_join_lines(a + b) == spec_join_lines(a) + seq!['\n'] + spec_join_lines(b),
    decreases b.len(),
{
    if b.len() == 1 {
        assert((a + b).drop_last() =~= a);
        assert((a + b).last() == b[0]);
        assert(spec_join_lines(b) == b[0]);
    } else {
        assert((a + b).drop_last() =~= a + b.drop_last());
        lemma_join_append(a, b.drop_last());
        assert((a + b).last() == b.last());
        assert(b.drop_last().len() >= 1);
        assert(spec_join_lines(a + b) =~= spec_join_lines(a) + seq!['\n'] + spec_join_lines(b));
    }
}

pub proof fn lemma_split_join(ls: Seq<Seq<char>>)
    requires
        ls.len() >= 1,
        forall|i: int| 0 <= i < ls.len() ==> !(#[trigger] ls[i]).contains('\n'),
    ensures
        spec_split_lines(spec_join_lines(ls)) == ls,
    decreases ls.len(),
{
    if ls.len() == 1 {
        lemma_split_no_nl(ls[0]);
        assert(seq![ls[0]] =~= ls);
    } else {
        assert(seq![ls[0]] + ls.drop_first() =~= ls);
        lemma_join_append(seq![ls[0]], ls.drop_first());
        assert(spec_join_lines(seq![ls[0]]) == ls[0]);
        lemma_split_cons(ls[0], spec_join_lines(ls.drop_first()));
        assert(forall|i: int|
            0 <= i < ls.drop_first().len() ==> !(#[trigger] ls.drop_first()[i]).contains('\n'));
        lemma_split_join(ls.drop_first());
        assert(spec_split_lines(spec_join_lines(ls)) =~= ls);
    }
}

pub proof fn lemma_join_split(t: Seq<char>)
    ensures
        spec_join_lines(spec_split_lines(t)) == t,
    decreases t.len(),
{
    lemma_split_lines_wf(t);
    if t.len() == 0 {
        assert(spec_join_lines(spec_split_lines(t)) =~= t);
    } else if t[0] == '\n' {
        let rest = spec_split_lines(t.drop_first());
        lemma_split_lines_wf(t.drop_first());
        lemma_join_append(seq![Seq::<char>::empty()], rest);
        lemma_join_split(t.drop_first());
        assert(spec_join_lines(seq![Seq::<char>::empty()]) == Seq::<char>::empty());
        assert(spec_join_lines(spec_split_lines(t)) =~= t);
    } else {
        let rest = spec_split_lines(t.drop_first());
        lemma_split_lines_wf(t.drop_first());
        lemma_join_split(t.drop_first());
        let first = seq![t[0]] + rest[0];
        if rest.len() == 1 {
            assert(spec_split_lines(t) =~= seq![first]);
            assert(spec_join_lines(rest) == rest[0]);
            assert(spec_join_lines(spec_split_lines(t)) =~= t);
        } else {
            assert(spec_split_lines(t) =~= seq![first] + rest.drop_first());
            lemma_join_append(seq![first], rest.drop_first());
            assert(seq![rest[0]] + rest.drop_first() =~= rest);
            lemma_join_append(seq![rest[0]], rest.drop_first());
            assert(spec_join_lines(seq![rest[0]]) == rest[0]);
            assert(spec_join_lines(seq![first]) == first);
            assert(spec_join_lines(spec_split_lines(t)) == first + seq!['\n']
                + spec_join_lines(rest.drop_first()));
            assert(t.drop_first() == rest[0] + seq!['\n'] + spec_join_lines(rest.drop_first()));
            assert(t =~= seq![t[0]] + t.drop_first());
            assert(spec_join_lines(spec_split_lines(t)) =~= t);
        }
    }
}

/// Split `t` into its lines.
pub fn split_lines(t: &Vec<char>) -> (r: Vec<Vec<char>>)
    ensures
        line_views(r@) == spec_split_lines(t@),
        r@.len() >= 1,
{
    let n = t.len();
    let mut done: Vec<Vec<char>> = Vec::new();
    let mut cur: Vec<char> = Vec::new();
    let mut i: usize = 0;
    proof {
        assert(cur@ + t@.subrange(0, n as int) =~= t@);
        assert(line_views(done@) + spec_split_lines(t@) =~= spec_split_lines(t@));
    }
    while i < n
        invariant
            i <= n,
            n == t@.len(),
            !cur@.contains('\n'),
            spec_split_lines(t@) == line_views(done@) + spec_split_lines(
                cur@ + t@.subrange(i as int, n as int),
            ),
        decreases n - i,
    {
        let c = t[i];
        if c == '\n' {
            proof {
                assert(cur@ + t@.subrange(i as int, n as int) =~= cur@ + seq!['\n'] + t@.subrange(
                    i as int + 1,
                    n as int,
                ));
                lemma_split_cons(cur@, t@.subrange(i as int + 1, n as int));
            }
            let ghost prev_done = done@;
            let ghost prev = cur@;
            done.push(cur);
            cur = Vec::new();
            proof {
                assert(line_views(done@) =~= line_views(prev_done) + seq![prev]);
                assert(cur@ + t@.subrange(i as int + 1, n as int) =~= t@.subrange(
                    i as int + 1,
                    n as int,
                ));
                assert(line_views(prev_done) + (seq![prev] + spec_split_lines(
                    t@.subrange(i as int + 1, n as int),
                )) =~= line_views(done@) + spec_split_lines(
                    t@.subrange(i as int + 1, n as int),
                ));
            }
        } else {
            let ghost prev = cur@;
            cur.push(c);
            proof {
                assert(!cur@.contains('\n')) by {
                    if cur@.contains('\n') {
                        let j = choose|j: int| 0 <= j < cur@.len() && cur@[j] == '\n';
                        if j < prev.len() {
                            assert(prev[j] == '\n');
                        }
                    }
                }
                assert(cur@ + t@.subrange(i as int + 1, n as int) =~= prev + t@.subrange(
                    i as int,
                    n as int,
                ));
            }
        }
        i += 1;
    }
    proof {
        assert(cur@ + t@.subrange(n as int, n as int) =~= cur@);
        lemma_split_no_nl(cur@);
    }
    let ghost prev_done = done@;
    let ghost prev = cur@;
    done.push(cur);
    proof {
        assert(line_views(done@) =~= line_views(prev_done) + seq![prev]);
        assert(line_views(done@) =~= spec_split_lines(t@));
    }
    done
}

/// Join lines into a single text with `'\n'` separators.
pub fn join_lines(ls: &Vec<Vec<char>>) -> (r: Vec<char>)
    ensures
        r@ == spec_join_lines(line_views(ls@)),
{
    let mut r: Vec<char> = Vec::new();
    if ls.len() == 0 {
        assert(r@ =~= spec_join_lines(line_views(ls@)));
        return r;
    }
    push_all(&mut r, &ls[0]);
    proof {
        let lv = line_views(ls@);
        assert(Seq::<char>::empty() + ls@[0]@ =~= lv.subrange(0, 1)[0]);
        assert(r@ =~= spec_join_lines(lv.subrange(0, 1)));
    }
    let mut i: usize = 1;
    while i < ls.len()
        invariant
            1 <= i <= ls@.len(),
            r@ == spec_join_lines(line_views(ls@).subrange(0, i as int)),
        decreases ls@.len() - i,
    {
        r.push('\n');
        push_all(&mut r, &ls[i]);
        proof {
            let lv = line_views(ls@);
            assert(lv.subrange(0, i as int + 1).drop_last() =~= lv.subrange(0, i as int));
            assert(lv.subrange(0, i as int + 1).last() == ls@[i as int]@);
            assert(r@ =~= spec_join_lines(lv.subrange(0, i as int + 1)));
        }
        i += 1;
    }
    assert(line_views(ls@).subrange(0, ls@.len() as int) =~= line_views(ls@));
    r
}

} // verus!
