//! Build-descriptor injection: the generated build descriptor holds two
//! marker lines, and each registration inserts a new file reference directly
//! above a marker, leaving the marker in place so that later registrations
//! keep working.

use vstd::prelude::*;
use crate::text::chars_of;
use crate::text::copy_range;
use crate::text::push_all;
use crate::text::vec_eq;
use crate::text::trimmed;
use crate::text::spec_trim;
use crate::text::line_views;
use crate::text::spec_split_lines;
use crate::text::spec_join_lines;
use crate::text::split_lines;
use crate::text::join_lines;
use crate::text::lemma_split_lines_wf;
use crate::text::lemma_split_join;
use crate::text::lemma_concat_contains;
use crate::text::is_ws;
use crate::text::first_non_ws;
use crate::text::end_non_ws;
use crate::naming::spec_module_source_path;
use crate::naming::spec_module_header_path;
use crate::naming::module_source_path;
use crate::naming::module_header_path;

verus! {

/// The marker token under which generated source files are registered.
pub open spec fn sources_marker() -> Seq<char> {
    "# @c1_sources"@
}

/// The marker token under which generated header files are registered.
pub open spec fn headers_marker() -> Seq<char> {
    "# @c1_headers"@
}

/// Whether `l` is a marker line for token `m`: the token alone on the line,
/// surrounded only by whitespace.
pub open spec fn is_marker_line(l: Seq<char>, m: Seq<char>) -> bool {
    spec_trim(l) == m
}

/// Index of the first marker line for `m`; `ls.len()` if none.
pub open spec fn first_marker(ls: Seq<Seq<char>>, m: Seq<char>) -> int
    decreases ls.len(),
{
    if ls.len() == 0 {
        0
    } else if is_marker_line(ls[0], m) {
        0
    } else {
        1 + first_marker(ls.drop_first(), m)
    }
}

pub proof fn lemma_first_marker(ls: Seq<Seq<char>>, m: Seq<char>)
    ensures
        0 <= first_marker(ls, m) <= ls.len(),
        first_marker(ls, m) < ls.len() ==> is_marker_line(ls[first_marker(ls, m)], m),
        forall|j: int| 0 <= j < first_marker(ls, m) ==> !is_marker_line(ls[j], m),
    decreases ls.len(),
{
    if ls.len() > 0 && !is_marker_line(ls[0], m) {
        lemma_first_marker(ls.drop_first(), m);
        assert forall|j: int| 0 <= j < first_marker(ls, m) implies !is_marker_line(ls[j], m) by {
            if j > 0 {
                assert(ls.drop_first()[j - 1] == ls[j]);
                assert(!is_marker_line(ls.drop_first()[j - 1], m));
            }
        }
    }
}

pub proof fn lemma_first_marker_at(ls: Seq<Seq<char>>, m: Seq<char>, i: int)
    requires
        0 <= i <= ls.len(),
        forall|j: int| 0 <= j < i ==> !is_marker_line(ls[j], m),
        i < ls.len() ==> is_marker_line(ls[i], m),
    ensures
        first_marker(ls, m) == i,
    decreases i,
{
    if i == 0 {
    } else {
        assert(!is_marker_line(ls[0], m));
        lemma_first_marker_at(ls.drop_first(), m, i - 1);
    }
}

/// Whether some line of `t` is a marker line for `m`.
pub open spec fn spec_marker_present(t: Seq<char>, m: Seq<char>) -> bool {
    first_marker(spec_split_lines(t), m) < spec_split_lines(t).len()
}

/// The descriptor after inserting `entry` as a new line directly above the
/// first marker line for `m`; unchanged when no line holds the marker.
pub open spec fn spec_append_at(t: Seq<char>, m: Seq<char>, entry: Seq<char>) -> Seq<char> {
    let ls = spec_split_lines(t);
    let k = first_marker(ls, m);
    if k < ls.len() {
        spec_join_lines(ls.insert(k, entry))
    } else {
        t
    }
}

/// Insert `entry` as a new line directly above the first marker line for
/// `marker`. Returns the new text, and whether the marker was found; without
/// the marker the text comes back unchanged, so the caller can report the
/// skipped registration.
pub fn append_at_marker(t: &Vec<char>, marker: &Vec<char>, entry: &Vec<char>) -> (r: (
    Vec<char>,
    bool,
))
    ensures
        r.0@ == spec_append_at(t@, marker@, entry@),
        r.1 == spec_marker_present(t@, marker@),
{
    let mut ls = split_lines(t);
    let n = ls.len();
    let mut i: usize = 0;
    while i < n
        invariant
            n == ls@.len(),
            i <= n,
            line_views(ls@) == spec_split_lines(t@),
            forall|j: int| 0 <= j < i ==> !is_marker_line(line_views(ls@)[j], marker@),
        decreases n - i,
    {
        let tr = trimmed(&ls[i]);
        if vec_eq(&tr, marker) {
            proof {
                lemma_first_marker_at(line_views(ls@), marker@, i as int);
            }
            let e = copy_range(entry, 0, entry.len());
            assert(e@ =~= entry@);
            let ghost lv0 = line_views(ls@);
            ls.insert(i, e);
            proof {
                assert(line_views(ls@) =~= lv0.insert(i as int, entry@));
            }
            let out = join_lines(&ls);
            return (out, true);
        }
        assert(!is_marker_line(line_views(ls@)[i as int], marker@));
        i += 1;
    }
    proof {
        lemma_first_marker_at(line_views(ls@), marker@, n as int);
    }
    let out = copy_range(t, 0, t.len());
    assert(out@ =~= t@);
    (out, false)
}

/// The descriptor line registering a file path: the path under four spaces
/// of indentation.
pub open spec fn spec_entry_line(path: Seq<char>) -> Seq<char> {
    "    "@ + path
}

fn entry_line(path: &Vec<char>) -> (r: Vec<char>)
    ensures
        r@ == spec_entry_line(path@),
{
    let mut r = chars_of("    ");
    push_all(&mut r, path);
    r
}

/// Register a source-file path under the sources marker.
pub fn append_source(descriptor: &Vec<char>, path: &Vec<char>) -> (r: (Vec<char>, bool))
    ensures
        r.0@ == spec_append_at(descriptor@, sources_marker(), spec_entry_line(path@)),
        r.1 == spec_marker_present(descriptor@, sources_marker()),
{
    let m = chars_of("# @c1_sources");
    let e = entry_line(path);
    append_at_marker(descriptor, &m, &e)
}

/// Register a header-file path under the headers marker.
pub fn append_header(descriptor: &Vec<char>, path: &Vec<char>) -> (r: (Vec<char>, bool))
    ensures
        r.0@ == spec_append_at(descriptor@, headers_marker(), spec_entry_line(path@)),
        r.1 == spec_marker_present(descriptor@, headers_marker()),
{
    let m = chars_of("# @c1_headers");
    let e = entry_line(path);
    append_at_marker(descriptor, &m, &e)
}

/// The descriptor after registering module `name`: its source path
/// appended under the sources marker, then its header path under the
/// headers marker.
pub open spec fn spec_register_module(t: Seq<char>, name: Seq<char>) -> Seq<char> {
    spec_append_at(
        spec_append_at(t, sources_marker(), spec_entry_line(spec_module_source_path(name))),
        headers_marker(),
        spec_entry_line(spec_module_header_path(name)),
    )
}

/// Register a module's source and header paths in the descriptor. Returns
/// the new descriptor and whether each marker was found; a missing marker
/// skips only that registration.
pub fn register_module(descriptor: &Vec<char>, name: &Vec<char>) -> (r: (Vec<char>, bool, bool))
    ensures
        r.0@ == spec_register_module(descriptor@, name@),
        r.1 == spec_marker_present(descriptor@, sources_marker()),
        r.2 == spec_marker_present(
            spec_append_at(
                descriptor@,
                sources_marker(),
                spec_entry_line(spec_module_source_path(name@)),
            ),
            headers_marker(),
        ),
{
    let sp = module_source_path(name);
    let (t1, found_src) = append_source(descriptor, &sp);
    let hp = module_header_path(name);
    let (t2, found_hdr) = append_header(&t1, &hp);
    (t2, found_src, found_hdr)
}

/// Growth law: with the marker present, appending `e1` and then `e2` yields
/// the original lines with both entries inserted directly above the marker,
/// earlier call first, and the marker line still present, so further appends
/// keep working. (An entry that is itself a marker line for `m` would change
/// where the second insertion lands, so `e1` is required not to be one.)
pub proof fn lemma_append_twice(t: Seq<char>, m: Seq<char>, e1: Seq<char>, e2: Seq<char>)
    ensures
        spec_marker_present(t, m) && !e1.contains('\n') && !e2.contains('\n') && spec_trim(e1)
            != m ==> ({
            let ls = spec_split_lines(t);
            let k = first_marker(ls, m);
            let once = spec_append_at(t, m, e1);
            let twice = spec_append_at(once, m, e2);
            &&& spec_marker_present(once, m)
            &&& spec_split_lines(twice) == ls.insert(k, e1).insert(k + 1, e2)
            &&& spec_split_lines(twice)[k] == e1
            &&& spec_split_lines(twice)[k + 1] == e2
            &&& spec_split_lines(twice)[k + 2] == ls[k]
            &&& spec_marker_present(twice, m)
        }),
{
    if spec_marker_present(t, m) && !e1.contains('\n') && !e2.contains('\n') && spec_trim(e1)
        != m {
        let ls = spec_split_lines(t);
        let k = first_marker(ls, m);
        lemma_split_lines_wf(t);
        lemma_first_marker(ls, m);
        let ls1 = ls.insert(k, e1);
        let once = spec_append_at(t, m, e1);
        assert(once == spec_join_lines(ls1));
        assert(forall|i: int| 0 <= i < ls1.len() ==> !(#[trigger] ls1[i]).contains('\n')) by {
            assert(forall|i: int|
                0 <= i < ls1.len() && i != k ==> ls1[i] == if i < k {
                    ls[i]
                } else {
                    ls[i - 1]
                });
        }
        lemma_split_join(ls1);
        assert(spec_split_lines(once) == ls1);
        assert(forall|j: int| 0 <= j < k + 1 ==> !is_marker_line(ls1[j], m)) by {
            assert(forall|j: int| 0 <= j < k ==> ls1[j] == ls[j]);
            assert(ls1[k] == e1);
        }
        assert(is_marker_line(ls1[k + 1], m));
        lemma_first_marker_at(ls1, m, k + 1);
        assert(spec_marker_present(once, m));
        let ls2 = ls1.insert(k + 1, e2);
        let twice = spec_append_at(once, m, e2);
        assert(twice == spec_join_lines(ls2));
        assert(forall|i: int| 0 <= i < ls2.len() ==> !(#[trigger] ls2[i]).contains('\n')) by {
            assert(forall|i: int|
                0 <= i < ls2.len() && i != k + 1 ==> ls2[i] == if i < k + 1 {
                    ls1[i]
                } else {
                    ls1[i - 1]
                });
        }
        lemma_split_join(ls2);
        assert(spec_split_lines(twice) == ls2);
        assert(ls2[k] == e1);
        assert(ls2[k + 1] == e2);
        assert(ls2[k + 2] == ls[k]);
        assert(spec_marker_present(twice, m)) by {
            lemma_first_marker(ls2, m);
            assert(is_marker_line(ls2[k + 2], m));
            if first_marker(ls2, m) == ls2.len() {
                assert(!is_marker_line(ls2[k + 2], m));
            }
        }
    }
}

/// Growth law for the source list: registering the same path twice, with
/// the sources marker present, leaves both entries directly above the
/// marker, earlier call first, and the marker line still present, so
/// duplicate registration keeps growing the list rather than failing. (A
/// path whose entry line trims to the marker token itself would move where
/// the second insertion lands, so such a path is excluded.)
pub proof fn lemma_append_source_twice(t: Seq<char>, p: Seq<char>)
    requires
        spec_marker_present(t, sources_marker()),
        !p.contains('\n'),
        spec_trim(spec_entry_line(p)) != sources_marker(),
    ensures
        ({
            let ls = spec_split_lines(t);
            let k = first_marker(ls, sources_marker());
            let e = spec_entry_line(p);
            let once = spec_append_at(t, sources_marker(), e);
            let twice = spec_append_at(once, sources_marker(), e);
            &&& spec_marker_present(once, sources_marker())
            &&& spec_split_lines(twice) == ls.insert(k, e).insert(k + 1, e)
            &&& spec_marker_present(twice, sources_marker())
        }),
{
    assert(!spec_entry_line(p).contains('\n')) by {
        reveal_strlit("    ");
        assert(!"    "@.contains('\n')) by {
            if "    "@.contains('\n') {
                let i = choose|i: int| 0 <= i < "    "@.len() && "    "@[i] == '\n';
            }
        }
        lemma_concat_contains("    "@, p, '\n');
    }
    lemma_append_twice(t, sources_marker(), spec_entry_line(p), spec_entry_line(p));
}

/// How many lines of `ls` are marker lines for `m`.
pub open spec fn marker_count(ls: Seq<Seq<char>>, m: Seq<char>) -> int
    decreases ls.len(),
{
    if ls.len() == 0 {
        0
    } else {
        (if is_marker_line(ls.last(), m) {
            1int
        } else {
            0int
        }) + marker_count(ls.drop_last(), m)
    }
}

pub proof fn lemma_marker_count_insert(ls: Seq<Seq<char>>, m: Seq<char>, p: int, e: Seq<char>)
    requires
        0 <= p <= ls.len(),
    ensures
        marker_count(ls.insert(p, e), m) == marker_count(ls, m) + (if is_marker_line(e, m) {
            1int
        } else {
            0int
        }),
    decreases ls.len(),
{
    let ls1 = ls.insert(p, e);
    if p == ls.len() {
        assert(ls1.last() == e);
        assert(ls1.drop_last() =~= ls);
    } else {
        assert(ls1.last() == ls.last());
        assert(ls1.drop_last() =~= ls.drop_last().insert(p, e));
        lemma_marker_count_insert(ls.drop_last(), m, p, e);
    }
}

/// The lines of an append: with the marker present, exactly one line is
/// inserted directly above the first marker line.
pub proof fn lemma_append_at_lines(t: Seq<char>, m: Seq<char>, e: Seq<char>)
    requires
        spec_marker_present(t, m),
        !e.contains('\n'),
    ensures
        spec_split_lines(spec_append_at(t, m, e)) == spec_split_lines(t).insert(
            first_marker(spec_split_lines(t), m),
            e,
        ),
{
    let ls = spec_split_lines(t);
    let k = first_marker(ls, m);
    lemma_split_lines_wf(t);
    lemma_first_marker(ls, m);
    let ls1 = ls.insert(k, e);
    assert(forall|i: int| 0 <= i < ls1.len() ==> !(#[trigger] ls1[i]).contains('\n')) by {
        assert(forall|i: int|
            0 <= i < ls1.len() && i != k ==> ls1[i] == if i < k {
                ls[i]
            } else {
                ls[i - 1]
            });
    }
    lemma_split_join(ls1);
}

/// Where the first marker line for `m` stands after a line is inserted at
/// `p`: shifted by one when the insertion is at or above it (and the new
/// line is no marker), unchanged when the insertion is below it.
pub proof fn lemma_first_marker_after_insert(
    ls: Seq<Seq<char>>,
    m: Seq<char>,
    p: int,
    e: Seq<char>,
)
    requires
        0 <= p <= ls.len(),
    ensures
        first_marker(ls, m) < ls.len() && p <= first_marker(ls, m) && !is_marker_line(e, m)
            ==> first_marker(ls.insert(p, e), m) == first_marker(ls, m) + 1,
        p > first_marker(ls, m) ==> first_marker(ls.insert(p, e), m) == first_marker(ls, m),
{
    let f = first_marker(ls, m);
    lemma_first_marker(ls, m);
    let ls1 = ls.insert(p, e);
    if f < ls.len() && p <= f && !is_marker_line(e, m) {
        assert forall|j: int| 0 <= j < f + 1 implies !is_marker_line(ls1[j], m) by {
            if j < p {
                assert(ls1[j] == ls[j]);
            } else if j == p {
                assert(ls1[j] == e);
            } else {
                assert(ls1[j] == ls[j - 1]);
            }
        }
        assert(is_marker_line(ls1[f + 1], m)) by {
            assert(ls1[f + 1] == ls[f]);
        }
        lemma_first_marker_at(ls1, m, f + 1);
    }
    if p > f {
        assert forall|j: int| 0 <= j < f implies !is_marker_line(ls1[j], m) by {
            assert(ls1[j] == ls[j]);
        }
        assert(is_marker_line(ls1[f], m)) by {
            assert(ls1[f] == ls[f]);
        }
        lemma_first_marker_at(ls1, m, f);
    }
}

pub proof fn lemma_module_entries(name: Seq<char>)
    requires
        !name.contains('\n'),
    ensures
        ({
            let se = spec_entry_line(spec_module_source_path(name));
            let he = spec_entry_line(spec_module_header_path(name));
            &&& !se.contains('\n')
            &&& !he.contains('\n')
            &&& !is_marker_line(se, sources_marker())
            &&& !is_marker_line(se, headers_marker())
            &&& !is_marker_line(he, sources_marker())
            &&& !is_marker_line(he, headers_marker())
        }),
{
    reveal_strlit("    ");
    reveal_strlit("src/");
    reveal_strlit("include/");
    reveal_strlit(".c");
    reveal_strlit(".h");
    reveal_strlit("# @c1_sources");
    reveal_strlit("# @c1_headers");
    let sp = spec_module_source_path(name);
    let hp = spec_module_header_path(name);
    let se = spec_entry_line(sp);
    let he = spec_entry_line(hp);
    assert(!"    "@.contains('\n')) by {
        if "    "@.contains('\n') {
            let i = choose|i: int| 0 <= i < "    "@.len() && "    "@[i] == '\n';
        }
    }
    assert(!"src/"@.contains('\n')) by {
        if "src/"@.contains('\n') {
            let i = choose|i: int| 0 <= i < "src/"@.len() && "src/"@[i] == '\n';
        }
    }
    assert(!"include/"@.contains('\n')) by {
        if "include/"@.contains('\n') {
            let i = choose|i: int| 0 <= i < "include/"@.len() && "include/"@[i] == '\n';
        }
    }
    assert(!".c"@.contains('\n')) by {
        if ".c"@.contains('\n') {
            let i = choose|i: int| 0 <= i < ".c"@.len() && ".c"@[i] == '\n';
        }
    }
    assert(!".h"@.contains('\n')) by {
        if ".h"@.contains('\n') {
            let i = choose|i: int| 0 <= i < ".h"@.len() && ".h"@[i] == '\n';
        }
    }
    lemma_concat_contains("src/"@, name, '\n');
    lemma_concat_contains("src/"@ + name, ".c"@, '\n');
    lemma_concat_contains("    "@, sp, '\n');
    lemma_concat_contains("include/"@, name, '\n');
    lemma_concat_contains("include/"@ + name, ".h"@, '\n');
    lemma_concat_contains("    "@, hp, '\n');
    // Both entry lines trim to their path, which opens with a letter; a
    // marker line trims to a token opening with `#`.
    assert(se[0] == ' ' && se[1] == ' ' && se[2] == ' ' && se[3] == ' ');
    assert(se[4] == 's');
    assert(se[se.len() - 1] == 'c');
    assert(first_non_ws(se, 0) == first_non_ws(se, 1));
    assert(first_non_ws(se, 1) == first_non_ws(se, 2));
    assert(first_non_ws(se, 2) == first_non_ws(se, 3));
    assert(first_non_ws(se, 3) == first_non_ws(se, 4));
    assert(first_non_ws(se, 4) == 4);
    assert(first_non_ws(se, 0) == 4);
    assert(end_non_ws(se, se.len() as int) == se.len() as int);
    assert(spec_trim(se) == se.subrange(4, se.len() as int));
    assert(spec_trim(se)[0] == 's');
    assert(he[0] == ' ' && he[1] == ' ' && he[2] == ' ' && he[3] == ' ');
    assert(he[4] == 'i');
    assert(he[he.len() - 1] == 'h');
    assert(first_non_ws(he, 0) == first_non_ws(he, 1));
    assert(first_non_ws(he, 1) == first_non_ws(he, 2));
    assert(first_non_ws(he, 2) == first_non_ws(he, 3));
    assert(first_non_ws(he, 3) == first_non_ws(he, 4));
    assert(first_non_ws(he, 4) == 4);
    assert(first_non_ws(he, 0) == 4);
    assert(end_non_ws(he, he.len() as int) == he.len() as int);
    assert(spec_trim(he) == he.subrange(4, he.len() as int));
    assert(spec_trim(he)[0] == 'i');
    assert(sources_marker()[0] == '#');
    assert(headers_marker()[0] == '#');
}

/// Growth law for module registration: with both markers present,
/// registering the same module twice leaves its source entry twice directly
/// above the still-present sources marker, its header entry twice directly
/// above the still-present headers marker, every other line untouched, and
/// the number of marker lines unchanged — registration never consumes a
/// marker, and duplicate registration is growth, not failure.
#[verifier::rlimit(100)]
#[verifier::spinoff_prover]
pub proof fn lemma_register_module_twice(d: Seq<char>, name: Seq<char>)
    requires
        spec_marker_present(d, sources_marker()),
        spec_marker_present(d, headers_marker()),
        !name.contains('\n'),
    ensures
        ({
            let ls = spec_split_lines(d);
            let ks = first_marker(ls, sources_marker());
            let kh = first_marker(ls, headers_marker());
            let se = spec_entry_line(spec_module_source_path(name));
            let he = spec_entry_line(spec_module_header_path(name));
            let d2 = spec_register_module(spec_register_module(d, name), name);
            let ls2 = spec_split_lines(d2);
            &&& ks != kh
            &&& (ks < kh ==> ls2 == ls.subrange(0, ks) + seq![se, se, ls[ks]] + ls.subrange(
                ks + 1,
                kh,
            ) + seq![he, he, ls[kh]] + ls.subrange(kh + 1, ls.len() as int))
            &&& (kh < ks ==> ls2 == ls.subrange(0, kh) + seq![he, he, ls[kh]] + ls.subrange(
                kh + 1,
                ks,
            ) + seq![se, se, ls[ks]] + ls.subrange(ks + 1, ls.len() as int))
            &&& spec_marker_present(d2, sources_marker())
            &&& spec_marker_present(d2, headers_marker())
            &&& marker_count(ls2, sources_marker()) == marker_count(ls, sources_marker())
            &&& marker_count(ls2, headers_marker()) == marker_count(ls, headers_marker())
        }),
{
    let ms = sources_marker();
    let mh = headers_marker();
    let se = spec_entry_line(spec_module_source_path(name));
    let he = spec_entry_line(spec_module_header_path(name));
    let ls = spec_split_lines(d);
    let n = ls.len() as int;
    let ks = first_marker(ls, ms);
    let kh = first_marker(ls, mh);
    lemma_split_lines_wf(d);
    lemma_first_marker(ls, ms);
    lemma_first_marker(ls, mh);
    lemma_module_entries(name);
    assert(ks != kh) by {
        if ks == kh {
            assert(spec_trim(ls[ks]) == ms);
            assert(spec_trim(ls[kh]) == mh);
            reveal_strlit("# @c1_sources");
            reveal_strlit("# @c1_headers");
            assert(ms[6] != mh[6]);
        }
    }
    if ks < kh {
        // Round one: source entry above the sources marker...
        let d1s = spec_append_at(d, ms, se);
        lemma_append_at_lines(d, ms, se);
        let a1 = ls.insert(ks, se);
        assert(spec_split_lines(d1s) == a1);
        lemma_first_marker_after_insert(ls, ms, ks, se);
        lemma_first_marker_after_insert(ls, mh, ks, se);
        assert(first_marker(a1, ms) == ks + 1);
        assert(first_marker(a1, mh) == kh + 1);
        assert(spec_marker_present(d1s, mh));
        // ...then the header entry above the headers marker.
        let d1 = spec_append_at(d1s, mh, he);
        lemma_append_at_lines(d1s, mh, he);
        let a2 = a1.insert(kh + 1, he);
        assert(spec_split_lines(d1) == a2);
        assert(d1 == spec_register_module(d, name));
        lemma_first_marker_after_insert(a1, ms, kh + 1, he);
        lemma_first_marker_after_insert(a1, mh, kh + 1, he);
        assert(first_marker(a2, ms) == ks + 1);
        assert(first_marker(a2, mh) == kh + 2);
        assert(spec_marker_present(d1, ms));
        // Round two, same shape, one line lower each time.
        let d2s = spec_append_at(d1, ms, se);
        lemma_append_at_lines(d1, ms, se);
        let a3 = a2.insert(ks + 1, se);
        assert(spec_split_lines(d2s) == a3);
        lemma_first_marker_after_insert(a2, ms, ks + 1, se);
        lemma_first_marker_after_insert(a2, mh, ks + 1, se);
        assert(first_marker(a3, ms) == ks + 2);
        assert(first_marker(a3, mh) == kh + 3);
        assert(spec_marker_present(d2s, mh));
        let d2 = spec_append_at(d2s, mh, he);
        lemma_append_at_lines(d2s, mh, he);
        let a4 = a3.insert(kh + 3, he);
        assert(spec_split_lines(d2) == a4);
        assert(d2 == spec_register_module(spec_register_module(d, name), name));
        lemma_first_marker_after_insert(a3, ms, kh + 3, he);
        lemma_first_marker_after_insert(a3, mh, kh + 3, he);
        assert(first_marker(a4, ms) == ks + 2);
        assert(first_marker(a4, mh) == kh + 4);
        assert(spec_marker_present(d2, ms));
        assert(spec_marker_present(d2, mh));
        assert(a4 =~= ls.subrange(0, ks) + seq![se, se, ls[ks]] + ls.subrange(ks + 1, kh)
            + seq![he, he, ls[kh]] + ls.subrange(kh + 1, n));
        lemma_marker_count_insert(ls, ms, ks, se);
        lemma_marker_count_insert(a1, ms, kh + 1, he);
        lemma_marker_count_insert(a2, ms, ks + 1, se);
        lemma_marker_count_insert(a3, ms, kh + 3, he);
        lemma_marker_count_insert(ls, mh, ks, se);
        lemma_marker_count_insert(a1, mh, kh + 1, he);
        lemma_marker_count_insert(a2, mh, ks + 1, se);
        lemma_marker_count_insert(a3, mh, kh + 3, he);
    } else {
        // The headers marker stands first; the source inserts land below it.
        let d1s = spec_append_at(d, ms, se);
        lemma_append_at_lines(d, ms, se);
        let a1 = ls.insert(ks, se);
        assert(spec_split_lines(d1s) == a1);
        lemma_first_marker_after_insert(ls, ms, ks, se);
        lemma_first_marker_after_insert(ls, mh, ks, se);
        assert(first_marker(a1, ms) == ks + 1);
        assert(first_marker(a1, mh) == kh);
        assert(spec_marker_present(d1s, mh));
        let d1 = spec_append_at(d1s, mh, he);
        lemma_append_at_lines(d1s, mh, he);
        let a2 = a1.insert(kh, he);
        assert(spec_split_lines(d1) == a2);
        assert(d1 == spec_register_module(d, name));
        lemma_first_marker_after_insert(a1, ms, kh, he);
        lemma_first_marker_after_insert(a1, mh, kh, he);
        assert(first_marker(a2, ms) == ks + 2);
        assert(first_marker(a2, mh) == kh + 1);
        assert(spec_marker_present(d1, ms));
        let d2s = spec_append_at(d1, ms, se);
        lemma_append_at_lines(d1, ms, se);
        let a3 = a2.insert(ks + 2, se);
        assert(spec_split_lines(d2s) == a3);
        lemma_first_marker_after_insert(a2, ms, ks + 2, se);
        lemma_first_marker_after_insert(a2, mh, ks + 2, se);
        assert(first_marker(a3, ms) == ks + 3);
        assert(first_marker(a3, mh) == kh + 1);
        assert(spec_marker_present(d2s, mh));
        let d2 = spec_append_at(d2s, mh, he);
        lemma_append_at_lines(d2s, mh, he);
        let a4 = a3.insert(kh + 1, he);
        assert(spec_split_lines(d2) == a4);
        assert(d2 == spec_register_module(spec_register_module(d, name), name));
        lemma_first_marker_after_insert(a3, ms, kh + 1, he);
        lemma_first_marker_after_insert(a3, mh, kh + 1, he);
        assert(first_marker(a4, ms) == ks + 4);
        assert(first_marker(a4, mh) == kh + 2);
        assert(spec_marker_present(d2, ms));
        assert(spec_marker_present(d2, mh));
        assert(a4 =~= ls.subrange(0, kh) + seq![he, he, ls[kh]] + ls.subrange(kh + 1, ks)
            + seq![se, se, ls[ks]] + ls.subrange(ks + 1, n));
        lemma_marker_count_insert(ls, ms, ks, se);
        lemma_marker_count_insert(a1, ms, kh, he);
        lemma_marker_count_insert(a2, ms, ks + 2, se);
        lemma_marker_count_insert(a3, ms, kh + 1, he);
        lemma_marker_count_insert(ls, mh, ks, se);
        lemma_marker_count_insert(a1, mh, kh, he);
        lemma_marker_count_insert(a2, mh, ks + 2, se);
        lemma_marker_count_insert(a3, mh, kh + 1, he);
    }
}

} // verus!
