//! Manifest codec: surgical dependency upserts on the manifest text. The
//! transform touches exactly one line (a replaced entry) or inserts exactly
//! one line (a new entry), and otherwise keeps the text byte for byte.

use vstd::prelude::*;
use crate::manifest::DependencySpec;
use crate::manifest::DepEntry;
use crate::manifest::DepSource;
use crate::manifest::Manifest;
use crate::text::chars_of;
use crate::text::copy_range;
use crate::text::push_all;
use crate::text::vec_eq;
use crate::text::trimmed;
use crate::text::find_char;
use crate::text::lemma_first_idx_from;
use crate::text::first_idx;
use crate::text::spec_trim;
use crate::text::is_ws;
use crate::text::first_non_ws;
use crate::text::end_non_ws;
use crate::text::lemma_first_idx_at;
use crate::text::lemma_concat_contains;
use crate::text::lemma_split_lines_wf;
use crate::text::lemma_split_join;
use crate::text::lemma_join_split;
use crate::text::lemma_join_append;
use crate::text::line_views;
use crate::text::spec_split_lines;
use crate::text::spec_join_lines;
use crate::text::split_lines;
use crate::text::join_lines;

verus! {

/// Whether the line opens some section: its trimmed text starts with `[`.
pub open spec fn is_section(l: Seq<char>) -> bool {
    spec_trim(l).len() > 0 && spec_trim(l)[0] == '['
}

/// Whether the line is the dependency section header.
pub open spec fn is_dep_header(l: Seq<char>) -> bool {
    spec_trim(l) == "[dependencies]"@
}

/// The key of a dependency entry line: the trimmed text before the first
/// `=`. Blank lines, comments, section lines and lines without `=` carry no
/// key.
pub open spec fn spec_line_key(l: Seq<char>) -> Option<Seq<char>> {
    let tr = spec_trim(l);
    if tr.len() == 0 {
        None
    } else if tr[0] == '#' || tr[0] == '[' {
        None
    } else {
        let e = first_idx(tr, '=');
        if e == tr.len() {
            None
        } else {
            Some(spec_trim(tr.subrange(0, e)))
        }
    }
}

/// Whether a scan for `name`'s entry stops at this line: it opens another
/// section, or it is an entry whose key is `name`.
pub open spec fn line_stops(l: Seq<char>, name: Seq<char>) -> bool {
    is_section(l) || spec_line_key(l) == Some(name)
}

/// Index of the first dependency-section header line; `ls.len()` if none.
pub open spec fn first_dep_header(ls: Seq<Seq<char>>) -> int
    decreases ls.len(),
{
    if ls.len() == 0 {
        0
    } else if is_dep_header(ls[0]) {
        0
    } else {
        1 + first_dep_header(ls.drop_first())
    }
}

pub proof fn lemma_first_dep_header(ls: Seq<Seq<char>>)
    ensures
        0 <= first_dep_header(ls) <= ls.len(),
        first_dep_header(ls) < ls.len() ==> is_dep_header(ls[first_dep_header(ls)]),
        forall|j: int| 0 <= j < first_dep_header(ls) ==> !is_dep_header(ls[j]),
    decreases ls.len(),
{
    if ls.len() > 0 && !is_dep_header(ls[0]) {
        lemma_first_dep_header(ls.drop_first());
        assert forall|j: int| 0 <= j < first_dep_header(ls) implies !is_dep_header(ls[j]) by {
            if j > 0 {
                assert(ls.drop_first()[j - 1] == ls[j]);
                assert(!is_dep_header(ls.drop_first()[j - 1]));
            }
        }
    }
}

pub proof fn lemma_first_dep_header_at(ls: Seq<Seq<char>>, i: int)
    requires
        0 <= i <= ls.len(),
        forall|j: int| 0 <= j < i ==> !is_dep_header(ls[j]),
        i < ls.len() ==> is_dep_header(ls[i]),
    ensures
        first_dep_header(ls) == i,
    decreases i,
{
    if i > 0 {
        assert(!is_dep_header(ls[0]));
        lemma_first_dep_header_at(ls.drop_first(), i - 1);
    }
}

/// Index of the first stopping line for `name`; `ls.len()` if none.
pub open spec fn first_stop(ls: Seq<Seq<char>>, name: Seq<char>) -> int
    decreases ls.len(),
{
    if ls.len() == 0 {
        0
    } else if line_stops(ls[0], name) {
        0
    } else {
        1 + first_stop(ls.drop_first(), name)
    }
}

pub proof fn lemma_first_stop(ls: Seq<Seq<char>>, name: Seq<char>)
    ensures
        0 <= first_stop(ls, name) <= ls.len(),
        first_stop(ls, name) < ls.len() ==> line_stops(ls[first_stop(ls, name)], name),
        forall|j: int| 0 <= j < first_stop(ls, name) ==> !line_stops(ls[j], name),
    decreases ls.len(),
{
    if ls.len() > 0 && !line_stops(ls[0], name) {
        lemma_first_stop(ls.drop_first(), name);
        assert forall|j: int| 0 <= j < first_stop(ls, name) implies !line_stops(ls[j], name) by {
            if j > 0 {
                assert(ls.drop_first()[j - 1] == ls[j]);
                assert(!line_stops(ls.drop_first()[j - 1], name));
            }
        }
    }
}

pub proof fn lemma_first_stop_at(ls: Seq<Seq<char>>, name: Seq<char>, i: int)
    requires
        0 <= i <= ls.len(),
        forall|j: int| 0 <= j < i ==> !line_stops(ls[j], name),
        i < ls.len() ==> line_stops(ls[i], name),
    ensures
        first_stop(ls, name) == i,
    decreases i,
{
    if i > 0 {
        assert(!line_stops(ls[0], name));
        lemma_first_stop_at(ls.drop_first(), name, i - 1);
    }
}

/// The serialized ref selector of a dependency entry: a tag is written in
/// preference to a branch, and nothing stands for the default branch.
pub open spec fn dep_ref_part(d: DependencySpec) -> Seq<char> {
    match d.tag {
        Some(t) => ", tag = \""@ + t@ + "\""@,
        None => match d.branch {
            Some(b) => ", branch = \""@ + b@ + "\""@,
            None => Seq::empty(),
        },
    }
}

/// The manifest line for one dependency entry.
pub open spec fn dep_entry_line(name: Seq<char>, d: DependencySpec) -> Seq<char> {
    name + " = { git = \""@ + d.git@ + "\""@ + dep_ref_part(d) + " }"@
}

/// Serialize one dependency entry line.
pub fn format_dep_entry(name: &Vec<char>, d: &DependencySpec) -> (r: Vec<char>)
    ensures
        r@ == dep_entry_line(name@, *d),
{
    let mut r = copy_range(name, 0, name.len());
    assert(r@ =~= name@);
    let part = chars_of(" = { git = \"");
    push_all(&mut r, &part);
    push_all(&mut r, &d.git);
    let part = chars_of("\"");
    push_all(&mut r, &part);
    match &d.tag {
        Some(t) => {
            let part = chars_of(", tag = \"");
            push_all(&mut r, &part);
            push_all(&mut r, t);
            let part = chars_of("\"");
            push_all(&mut r, &part);
        },
        None => {
            match &d.branch {
                Some(b) => {
                    let part = chars_of(", branch = \"");
                    push_all(&mut r, &part);
                    push_all(&mut r, b);
                    let part = chars_of("\"");
                    push_all(&mut r, &part);
                },
                None => {},
            }
        },
    }
    let part = chars_of(" }");
    push_all(&mut r, &part);
    assert(r@ =~= dep_entry_line(name@, *d));
    r
}

/// Whether the line is the dependency section header.
pub fn line_is_dep_header(l: &Vec<char>) -> (r: bool)
    ensures
        r == is_dep_header(l@),
{
    let tr = trimmed(l);
    let h = chars_of("[dependencies]");
    vec_eq(&tr, &h)
}

/// Whether the line opens some section.
pub fn line_is_section(l: &Vec<char>) -> (r: bool)
    ensures
        r == is_section(l@),
{
    let tr = trimmed(l);
    tr.len() > 0 && tr[0] == '['
}

/// The entry key of the line, if it is an entry line.
pub fn line_key(l: &Vec<char>) -> (r: Option<Vec<char>>)
    ensures
        match r {
            Some(k) => spec_line_key(l@) == Some(k@),
            None => spec_line_key(l@) is None,
        },
{
    let tr = trimmed(l);
    if tr.len() == 0 {
        return None;
    }
    let c0 = tr[0];
    if c0 == '#' || c0 == '[' {
        return None;
    }
    let e = find_char(&tr, '=');
    proof {
        lemma_first_idx_from(tr@, '=', 0);
    }
    if e == tr.len() {
        return None;
    }
    let pre = copy_range(&tr, 0, e);
    let k = trimmed(&pre);
    Some(k)
}

/// Whether the line is an entry whose key is exactly `name`.
pub fn line_key_matches(l: &Vec<char>, name: &Vec<char>) -> (r: bool)
    ensures
        r == (spec_line_key(l@) == Some(name@)),
{
    match line_key(l) {
        Some(k) => vec_eq(&k, name),
        None => false,
    }
}

fn find_dep_header(ls: &Vec<Vec<char>>) -> (r: usize)
    ensures
        r == first_dep_header(line_views(ls@)),
{
    let mut i: usize = 0;
    while i < ls.len()
        invariant
            i <= ls@.len(),
            forall|j: int| 0 <= j < i ==> !is_dep_header(line_views(ls@)[j]),
        decreases ls@.len() - i,
    {
        if line_is_dep_header(&ls[i]) {
            proof {
                lemma_first_dep_header_at(line_views(ls@), i as int);
            }
            return i;
        }
        assert(!is_dep_header(line_views(ls@)[i as int]));
        i += 1;
    }
    proof {
        lemma_first_dep_header_at(line_views(ls@), ls@.len() as int);
    }
    i
}

fn find_stop_from(ls: &Vec<Vec<char>>, from: usize, name: &Vec<char>) -> (r: usize)
    requires
        from <= ls@.len(),
    ensures
        from <= r <= ls@.len(),
        r - from == first_stop(
            line_views(ls@).subrange(from as int, ls@.len() as int),
            name@,
        ),
{
    let ghost tail = line_views(ls@).subrange(from as int, ls@.len() as int);
    let n = ls.len();
    let mut i: usize = from;
    while i < n
        invariant
            from <= i <= n,
            n == ls@.len(),
            tail == line_views(ls@).subrange(from as int, n as int),
            forall|j: int| 0 <= j < i - from ==> !line_stops(tail[j], name@),
        decreases n - i,
    {
        assert(tail[i - from] == line_views(ls@)[i as int]);
        let sec = line_is_section(&ls[i]);
        let km = line_key_matches(&ls[i], name);
        if sec || km {
            proof {
                lemma_first_stop_at(tail, name@, i - from);
            }
            return i;
        }
        i += 1;
    }
    proof {
        lemma_first_stop_at(tail, name@, n - from);
    }
    n
}

/// The lines after upserting `entry` for `name`: an existing entry for
/// `name` is replaced in place; otherwise the entry is inserted at the end
/// of the dependency section, directly before the next section line; with no
/// dependency section, a blank line, the section header and the entry are
/// appended.
pub open spec fn spec_upsert_lines(
    ls: Seq<Seq<char>>,
    name: Seq<char>,
    entry: Seq<char>,
) -> Seq<Seq<char>> {
    let h = first_dep_header(ls);
    if h == ls.len() {
        ls + seq![Seq::<char>::empty(), "[dependencies]"@, entry]
    } else {
        let tail = ls.subrange(h + 1, ls.len() as int);
        let s = first_stop(tail, name);
        if s < tail.len() && spec_line_key(tail[s]) == Some(name) {
            ls.update(h + 1 + s, entry)
        } else {
            ls.insert(h + 1 + s, entry)
        }
    }
}

/// The manifest text after upserting the dependency `name = d`.
pub open spec fn spec_upsert(t: Seq<char>, name: Seq<char>, d: DependencySpec) -> Seq<char> {
    spec_join_lines(spec_upsert_lines(spec_split_lines(t), name, dep_entry_line(name, d)))
}

/// Insert or replace the entry for dependency `name` in the manifest text,
/// touching nothing else. The caller persists the result.
pub fn upsert_dependency(text: &Vec<char>, name: &Vec<char>, d: &DependencySpec) -> (r: Vec<
    char,
>)
    ensures
        r@ == spec_upsert(text@, name@, *d),
{
    let entry = format_dep_entry(name, d);
    let mut ls = split_lines(text);
    let n = ls.len();
    let h = find_dep_header(&ls);
    proof {
        lemma_first_dep_header(line_views(ls@));
    }
    if h == n {
        let ghost lv0 = line_views(ls@);
        ls.push(Vec::new());
        let hdr = chars_of("[dependencies]");
        ls.push(hdr);
        ls.push(entry);
        proof {
            assert(line_views(ls@) =~= lv0 + seq![
                Seq::<char>::empty(),
                "[dependencies]"@,
                dep_entry_line(name@, *d),
            ]);
        }
        return join_lines(&ls);
    }
    let s = find_stop_from(&ls, h + 1, name);
    let ghost lv0 = line_views(ls@);
    let ghost tail = lv0.subrange(h + 1, n as int);
    if s < n && line_key_matches(&ls[s], name) {
        assert(tail[s - (h + 1)] == lv0[s as int]);
        ls.remove(s);
        ls.insert(s, entry);
        proof {
            assert(line_views(ls@) =~= lv0.update(s as int, dep_entry_line(name@, *d)));
        }
        join_lines(&ls)
    } else {
        proof {
            lemma_first_stop(tail, name@);
            if s - (h + 1) < tail.len() {
                assert(tail[s - (h + 1)] == lv0[s as int]);
                assert(line_stops(tail[s - (h + 1)], name@));
            }
        }
        ls.insert(s, entry);
        proof {
            assert(line_views(ls@) =~= lv0.insert(s as int, dep_entry_line(name@, *d)));
        }
        join_lines(&ls)
    }
}

/// The serialized dependency lines of a manifest, one entry line per
/// clonable dependency, in table order; entries without a clonable source
/// have no faithful text form and are not written.
pub open spec fn spec_dep_lines(deps: Seq<DepEntry>) -> Seq<char>
    decreases deps.len(),
{
    if deps.len() == 0 {
        Seq::empty()
    } else {
        spec_dep_lines(deps.drop_last()) + (match deps.last().source {
            DepSource::Git(d) => dep_entry_line(deps.last().name@, d) + seq!['\n'],
            DepSource::Invalid(_) => Seq::<char>::empty(),
        })
    }
}

/// The serialized flags list: each flag quoted, separated by `, `.
pub open spec fn spec_flags_list(fl: Seq<Seq<char>>) -> Seq<char>
    decreases fl.len(),
{
    if fl.len() == 0 {
        Seq::empty()
    } else if fl.len() == 1 {
        seq!['"'] + fl[0] + seq!['"']
    } else {
        spec_flags_list(fl.drop_last()) + ", "@ + seq!['"'] + fl.last() + seq!['"']
    }
}

/// The full text a manifest serializes to: identity, dependency table and
/// build settings, in that order.
pub open spec fn spec_save(m: Manifest) -> Seq<char> {
    "[project]\nname = \""@ + m.project.name@ + "\"\nversion = \""@ + m.project.version@
        + "\"\nedition = \""@ + m.project.edition@ + "\"\ndescription = \""@
        + m.project.description@ + "\"\n\n[dependencies]\n"@ + spec_dep_lines(m.dependencies@)
        + "\n[build]\ncompiler = \""@ + m.build.compiler@ + "\"\nflags = ["@ + spec_flags_list(
        line_views(m.build.flags@),
    ) + "]\n"@
}

/// Serialize a whole manifest; used for full rewrites at project creation.
pub fn save(m: &Manifest) -> (r: Vec<char>)
    ensures
        r@ == spec_save(*m),
{
    let mut r = chars_of("[project]\nname = \"");
    push_all(&mut r, &m.project.name);
    let part = chars_of("\"\nversion = \"");
    push_all(&mut r, &part);
    push_all(&mut r, &m.project.version);
    let part = chars_of("\"\nedition = \"");
    push_all(&mut r, &part);
    push_all(&mut r, &m.project.edition);
    let part = chars_of("\"\ndescription = \"");
    push_all(&mut r, &part);
    push_all(&mut r, &m.project.description);
    let part = chars_of("\"\n\n[dependencies]\n");
    push_all(&mut r, &part);
    let ghost base = r@;
    let nd = m.dependencies.len();
    let mut i: usize = 0;
    proof {
        assert(m.dependencies@.subrange(0, 0) =~= Seq::<DepEntry>::empty());
        assert(r@ =~= base + spec_dep_lines(m.dependencies@.subrange(0, 0)));
    }
    while i < nd
        invariant
            i <= nd,
            nd == m.dependencies@.len(),
            r@ == base + spec_dep_lines(m.dependencies@.subrange(0, i as int)),
        decreases nd - i,
    {
        match &m.dependencies[i].source {
            DepSource::Git(d) => {
                let entry = format_dep_entry(&m.dependencies[i].name, d);
                push_all(&mut r, &entry);
                r.push('\n');
            },
            DepSource::Invalid(_) => {},
        }
        proof {
            let sub = m.dependencies@.subrange(0, i as int + 1);
            assert(sub.drop_last() =~= m.dependencies@.subrange(0, i as int));
            assert(sub.last() == m.dependencies@[i as int]);
            assert(r@ =~= base + spec_dep_lines(sub));
        }
        i += 1;
    }
    assert(m.dependencies@.subrange(0, nd as int) =~= m.dependencies@);
    let part = chars_of("\n[build]\ncompiler = \"");
    push_all(&mut r, &part);
    push_all(&mut r, &m.build.compiler);
    let part = chars_of("\"\nflags = [");
    push_all(&mut r, &part);
    let ghost base2 = r@;
    let nf = m.build.flags.len();
    let mut j: usize = 0;
    proof {
        assert(line_views(m.build.flags@).subrange(0, 0) =~= Seq::<Seq<char>>::empty());
        assert(r@ =~= base2 + spec_flags_list(line_views(m.build.flags@).subrange(0, 0)));
    }
    while j < nf
        invariant
            j <= nf,
            nf == m.build.flags@.len(),
            r@ == base2 + spec_flags_list(line_views(m.build.flags@).subrange(0, j as int)),
        decreases nf - j,
    {
        if j > 0 {
            let part = chars_of(", ");
            push_all(&mut r, &part);
        }
        r.push('"');
        push_all(&mut r, &m.build.flags[j]);
        r.push('"');
        proof {
            let fl = line_views(m.build.flags@);
            let sub = fl.subrange(0, j as int + 1);
            assert(sub.drop_last() =~= fl.subrange(0, j as int));
            assert(sub.last() == fl[j as int]);
            assert(fl[j as int] == m.build.flags@[j as int]@);
            if j == 0 {
                assert(sub.len() == 1);
                assert(sub[0] == fl[0]);
            }
            assert(r@ =~= base2 + spec_flags_list(sub));
        }
        j += 1;
    }
    assert(line_views(m.build.flags@).subrange(0, nf as int) =~= line_views(m.build.flags@));
    let part = chars_of("]\n");
    push_all(&mut r, &part);
    assert(r@ =~= spec_save(*m));
    r
}

/// Index of the first section line; `ls.len()` if none.
pub open spec fn first_section(ls: Seq<Seq<char>>) -> int
    decreases ls.len(),
{
    if ls.len() == 0 {
        0
    } else if is_section(ls[0]) {
        0
    } else {
        1 + first_section(ls.drop_first())
    }
}

pub proof fn lemma_first_section(ls: Seq<Seq<char>>)
    ensures
        0 <= first_section(ls) <= ls.len(),
        first_section(ls) < ls.len() ==> is_section(ls[first_section(ls)]),
        forall|j: int| 0 <= j < first_section(ls) ==> !is_section(ls[j]),
    decreases ls.len(),
{
    if ls.len() > 0 && !is_section(ls[0]) {
        lemma_first_section(ls.drop_first());
        assert forall|j: int| 0 <= j < first_section(ls) implies !is_section(ls[j]) by {
            if j > 0 {
                assert(ls.drop_first()[j - 1] == ls[j]);
                assert(!is_section(ls.drop_first()[j - 1]));
            }
        }
    }
}

pub proof fn lemma_first_section_at(ls: Seq<Seq<char>>, i: int)
    requires
        0 <= i <= ls.len(),
        forall|j: int| 0 <= j < i ==> !is_section(ls[j]),
        i < ls.len() ==> is_section(ls[i]),
    ensures
        first_section(ls) == i,
    decreases i,
{
    if i > 0 {
        assert(!is_section(ls[0]));
        lemma_first_section_at(ls.drop_first(), i - 1);
    }
}

/// One past the last line of the dependency section whose header stands at
/// `h`: the index of the next section line, or `ls.len()`.
pub open spec fn dep_section_end(ls: Seq<Seq<char>>, h: int) -> int {
    h + 1 + first_section(ls.subrange(h + 1, ls.len() as int))
}

/// Number of entry lines (lines carrying a key) among `ls[lo..hi]`.
pub open spec fn count_entries(ls: Seq<Seq<char>>, lo: int, hi: int) -> int
    decreases hi - lo,
{
    if lo < 0 || lo >= hi || hi > ls.len() {
        0
    } else {
        (if spec_line_key(ls[lo]) is Some {
            1int
        } else {
            0int
        }) + count_entries(ls, lo + 1, hi)
    }
}

pub proof fn lemma_count_split(ls: Seq<Seq<char>>, lo: int, mid: int, hi: int)
    requires
        0 <= lo <= mid <= hi <= ls.len(),
    ensures
        count_entries(ls, lo, hi) == count_entries(ls, lo, mid) + count_entries(ls, mid, hi),
    decreases mid - lo,
{
    if lo < mid {
        lemma_count_split(ls, lo + 1, mid, hi);
    }
}

pub proof fn lemma_count_congruent(ls1: Seq<Seq<char>>, ls2: Seq<Seq<char>>, lo1: int, lo2: int, n: int)
    requires
        n >= 0,
        0 <= lo1,
        lo1 + n <= ls1.len(),
        0 <= lo2,
        lo2 + n <= ls2.len(),
        forall|k: int| 0 <= k < n ==> ls1[lo1 + k] == #[trigger] ls2[lo2 + k],
    ensures
        count_entries(ls1, lo1, lo1 + n) == count_entries(ls2, lo2, lo2 + n),
    decreases n,
{
    if n > 0 {
        assert(ls1[lo1 + 0] == ls2[lo2 + 0]);
        assert forall|k: int| 0 <= k < n - 1 implies ls1[lo1 + 1 + k] == #[trigger] ls2[lo2 + 1
            + k] by {
            assert(ls1[lo1 + (k + 1)] == ls2[lo2 + (k + 1)]);
        }
        lemma_count_congruent(ls1, ls2, lo1 + 1, lo2 + 1, n - 1);
    }
}

/// Number of entry lines among `ls[lo..hi]` whose key is exactly `name`.
pub open spec fn count_keyed(ls: Seq<Seq<char>>, name: Seq<char>, lo: int, hi: int) -> int
    decreases hi - lo,
{
    if lo < 0 || lo >= hi || hi > ls.len() {
        0
    } else {
        (if spec_line_key(ls[lo]) == Some(name) {
            1int
        } else {
            0int
        }) + count_keyed(ls, name, lo + 1, hi)
    }
}

pub proof fn lemma_count_keyed_split(ls: Seq<Seq<char>>, name: Seq<char>, lo: int, mid: int, hi: int)
    requires
        0 <= lo <= mid <= hi <= ls.len(),
    ensures
        count_keyed(ls, name, lo, hi) == count_keyed(ls, name, lo, mid) + count_keyed(
            ls,
            name,
            mid,
            hi,
        ),
    decreases mid - lo,
{
    if lo < mid {
        lemma_count_keyed_split(ls, name, lo + 1, mid, hi);
    }
}

pub proof fn lemma_count_keyed_congruent(
    ls1: Seq<Seq<char>>,
    ls2: Seq<Seq<char>>,
    name: Seq<char>,
    lo1: int,
    lo2: int,
    n: int,
)
    requires
        n >= 0,
        0 <= lo1,
        lo1 + n <= ls1.len(),
        0 <= lo2,
        lo2 + n <= ls2.len(),
        forall|k: int| 0 <= k < n ==> ls1[lo1 + k] == #[trigger] ls2[lo2 + k],
    ensures
        count_keyed(ls1, name, lo1, lo1 + n) == count_keyed(ls2, name, lo2, lo2 + n),
    decreases n,
{
    if n > 0 {
        assert(ls1[lo1 + 0] == ls2[lo2 + 0]);
        assert forall|k: int| 0 <= k < n - 1 implies ls1[lo1 + 1 + k] == #[trigger] ls2[lo2 + 1
            + k] by {
            assert(ls1[lo1 + (k + 1)] == ls2[lo2 + (k + 1)]);
        }
        lemma_count_keyed_congruent(ls1, ls2, name, lo1 + 1, lo2 + 1, n - 1);
    }
}

pub proof fn lemma_count_keyed_exists(ls: Seq<Seq<char>>, name: Seq<char>, lo: int, hi: int)
    requires
        0 <= lo <= hi <= ls.len(),
    ensures
        count_keyed(ls, name, lo, hi) >= 0,
        (count_keyed(ls, name, lo, hi) > 0) <==> (exists|i: int|
            lo <= i < hi && spec_line_key(#[trigger] ls[i]) == Some(name)),
    decreases hi - lo,
{
    if lo < hi {
        lemma_count_keyed_exists(ls, name, lo + 1, hi);
        if spec_line_key(ls[lo]) == Some(name) {
            assert(lo <= lo < hi && spec_line_key(ls[lo]) == Some(name));
        }
    }
}

/// Number of entry lines in the dependency section keyed exactly `name`;
/// zero without a dependency section.
pub open spec fn spec_keyed_count(t: Seq<char>, name: Seq<char>) -> int {
    let ls = spec_split_lines(t);
    let h = first_dep_header(ls);
    if h == ls.len() {
        0
    } else {
        count_keyed(ls, name, h + 1, dep_section_end(ls, h))
    }
}

/// Number of entries in the dependency section of the manifest text; zero
/// without a dependency section.
pub open spec fn spec_dep_count(t: Seq<char>) -> int {
    let ls = spec_split_lines(t);
    let h = first_dep_header(ls);
    if h == ls.len() {
        0
    } else {
        count_entries(ls, h + 1, dep_section_end(ls, h))
    }
}

/// Whether the dependency section holds an entry whose key is `name`.
pub open spec fn spec_has_dep(t: Seq<char>, name: Seq<char>) -> bool {
    let ls = spec_split_lines(t);
    let h = first_dep_header(ls);
    h < ls.len() && exists|i: int|
        h < i < dep_section_end(ls, h) && spec_line_key(ls[i]) == Some(name)
}

/// A dependency name the textual codec can carry on one entry line: it has
/// no surrounding whitespace and none of the characters that would change
/// how the line is read back.
pub open spec fn spec_clean_dep_name(name: Seq<char>) -> bool {
    &&& name.len() > 0
    &&& !is_ws(name[0])
    &&& !is_ws(name[name.len() - 1])
    &&& name[0] != '#'
    &&& name[0] != '['
    &&& !name.contains('=')
    &&& !name.contains('\n')
}

/// Ref values the textual codec can carry on one entry line.
pub open spec fn spec_clean_dep_spec(d: DependencySpec) -> bool {
    &&& !d.git@.contains('\n')
    &&& match d.tag {
        Some(t) => !t@.contains('\n'),
        None => true,
    }
    &&& match d.branch {
        Some(b) => !b@.contains('\n'),
        None => true,
    }
}

pub proof fn lemma_entry_line_key(name: Seq<char>, d: DependencySpec)
    requires
        spec_clean_dep_name(name),
        spec_clean_dep_spec(d),
    ensures
        spec_line_key(dep_entry_line(name, d)) == Some(name),
        !dep_entry_line(name, d).contains('\n'),
        !is_section(dep_entry_line(name, d)),
        !is_dep_header(dep_entry_line(name, d)),
{
    reveal_strlit(" = { git = \"");
    reveal_strlit("\"");
    reveal_strlit(", tag = \"");
    reveal_strlit(", branch = \"");
    reveal_strlit(" }");
    reveal_strlit("[dependencies]");
    let line = dep_entry_line(name, d);
    let mid = " = { git = \""@ + d.git@ + "\""@ + dep_ref_part(d);
    assert(line =~= name + mid + " }"@);
    assert(!line.contains('\n')) by {
        assert(!" = { git = \""@.contains('\n')) by {
            if " = { git = \""@.contains('\n') {
                let i = choose|i: int|
                    0 <= i < " = { git = \""@.len() && " = { git = \""@[i] == '\n';
            }
        }
        assert(!"\""@.contains('\n')) by {
            if "\""@.contains('\n') {
                let i = choose|i: int| 0 <= i < "\""@.len() && "\""@[i] == '\n';
            }
        }
        assert(!dep_ref_part(d).contains('\n')) by {
            match d.tag {
                Some(t) => {
                    assert(!", tag = \""@.contains('\n')) by {
                        if ", tag = \""@.contains('\n') {
                            let i = choose|i: int|
                                0 <= i < ", tag = \""@.len() && ", tag = \""@[i] == '\n';
                        }
                    }
                    lemma_concat_contains(", tag = \""@, t@, '\n');
                    lemma_concat_contains(", tag = \""@ + t@, "\""@, '\n');
                },
                None => {
                    match d.branch {
                        Some(b) => {
                            assert(!", branch = \""@.contains('\n')) by {
                                if ", branch = \""@.contains('\n') {
                                    let i = choose|i: int|
                                        0 <= i < ", branch = \""@.len() && ", branch = \""@[i]
                                            == '\n';
                                }
                            }
                            lemma_concat_contains(", branch = \""@, b@, '\n');
                            lemma_concat_contains(", branch = \""@ + b@, "\""@, '\n');
                        },
                        None => {
                            assert(!dep_ref_part(d).contains('\n'));
                        },
                    }
                },
            }
        }
        assert(!" }"@.contains('\n')) by {
            if " }"@.contains('\n') {
                let i = choose|i: int| 0 <= i < " }"@.len() && " }"@[i] == '\n';
            }
        }
        lemma_concat_contains(" = { git = \""@, d.git@, '\n');
        lemma_concat_contains(" = { git = \""@ + d.git@, "\""@, '\n');
        lemma_concat_contains(" = { git = \""@ + d.git@ + "\""@, dep_ref_part(d), '\n');
        lemma_concat_contains(name, mid, '\n');
        lemma_concat_contains(name + mid, " }"@, '\n');
    }
    // The line is already trimmed: it starts with the name's first character
    // and ends with `}`.
    assert(line[0] == name[0]);
    assert(line[line.len() - 1] == '}');
    assert(first_non_ws(line, 0) == 0);
    assert(end_non_ws(line, line.len() as int) == line.len() as int);
    assert(spec_trim(line) =~= line);
    // The first `=` of the line stands directly after the name.
    let e = name.len() as int + 1;
    assert(line[e] == '=');
    assert(forall|j: int| 0 <= j < name.len() ==> line[j] == name[j]);
    assert(line[name.len() as int] == ' ');
    assert forall|j: int| 0 <= j < e implies line[j] != '=' by {
        if j < name.len() {
            if line[j] == '=' {
                assert(name.contains('='));
            }
        }
    }
    lemma_first_idx_at(line, '=', e);
    // The key before the `=` trims back to the name itself.
    let pre = line.subrange(0, e);
    assert(pre =~= name + seq![' ']);
    assert(first_non_ws(pre, 0) == 0);
    assert(end_non_ws(pre, pre.len() as int) == end_non_ws(pre, pre.len() as int - 1));
    assert(end_non_ws(pre, pre.len() as int - 1) == name.len() as int);
    assert(spec_trim(pre) =~= name);
    assert(spec_line_key(line) == Some(name));
    assert(!is_section(line));
    assert(!is_dep_header(line)) by {
        if is_dep_header(line) {
            assert(spec_trim(line)[0] == "[dependencies]"@[0]);
        }
    }
}

/// Law: upserting a dependency name not yet present grows the dependency
/// count by exactly one and only inserts a single new line at the end of
/// the dependency section (or appends a fresh section at the end of the
/// text), altering no other byte of the manifest.
#[verifier::rlimit(100)]
#[verifier::spinoff_prover]
pub proof fn lemma_upsert_new_dependency(t: Seq<char>, name: Seq<char>, d: DependencySpec)
    requires
        spec_clean_dep_name(name),
        spec_clean_dep_spec(d),
        !spec_has_dep(t, name),
    ensures
        ({
            let ls = spec_split_lines(t);
            let h = first_dep_header(ls);
            let entry = dep_entry_line(name, d);
            let r = spec_upsert(t, name, d);
            let b = dep_section_end(ls, h);
            let k = spec_join_lines(ls.subrange(0, b)).len() as int + 1;
            &&& spec_dep_count(r) == spec_dep_count(t) + 1
            &&& spec_keyed_count(t, name) == 0
            &&& spec_keyed_count(r, name) == 1
            &&& spec_has_dep(r, name)
            &&& (h < ls.len() ==> spec_split_lines(r) == ls.insert(b, entry))
            &&& (h == ls.len() ==> r == t + "\n\n[dependencies]\n"@ + entry)
            &&& (h < ls.len() && b == ls.len() ==> r == t + seq!['\n'] + entry)
            &&& (h < ls.len() && b < ls.len() ==> r == t.subrange(0, k) + entry + seq!['\n']
                + t.subrange(k, t.len() as int))
        }),
{
    let ls = spec_split_lines(t);
    let n = ls.len() as int;
    let h = first_dep_header(ls);
    let entry = dep_entry_line(name, d);
    let r = spec_upsert(t, name, d);
    lemma_split_lines_wf(t);
    lemma_first_dep_header(ls);
    lemma_entry_line_key(name, d);
    lemma_join_split(t);
    reveal_strlit("[dependencies]");
    reveal_strlit("\n\n[dependencies]\n");
    let hdr = "[dependencies]"@;
    assert(spec_trim(hdr) =~= hdr) by {
        assert(!is_ws(hdr[0]));
        assert(!is_ws(hdr[hdr.len() - 1]));
        assert(first_non_ws(hdr, 0) == 0);
        assert(end_non_ws(hdr, hdr.len() as int) == hdr.len() as int);
    }
    assert(!hdr.contains('\n')) by {
        if hdr.contains('\n') {
            let i = choose|i: int| 0 <= i < hdr.len() && hdr[i] == '\n';
        }
    }
    if h == n {
        let app = seq![Seq::<char>::empty(), hdr, entry];
        let ls2 = ls + app;
        assert(spec_upsert_lines(ls, name, entry) =~= ls2);
        assert(r == spec_join_lines(ls2));
        lemma_join_append(ls, app);
        let two = seq![Seq::<char>::empty(), hdr];
        assert(app.len() == 3);
        assert(spec_join_lines(app) == spec_join_lines(app.drop_last()) + seq!['\n']
            + app.last());
        assert(app.last() == entry);
        assert(app.drop_last() =~= two);
        assert(spec_join_lines(two) == spec_join_lines(two.drop_last()) + seq!['\n']
            + two.last());
        assert(two.drop_last() =~= seq![Seq::<char>::empty()]);
        assert(spec_join_lines(seq![Seq::<char>::empty()]) == Seq::<char>::empty());
        assert(spec_join_lines(app) =~= seq!['\n'] + hdr + seq!['\n'] + entry);
        assert(r =~= t + "\n\n[dependencies]\n"@ + entry);
        assert(forall|i: int| 0 <= i < ls2.len() ==> !(#[trigger] ls2[i]).contains('\n')) by {
            assert(!Seq::<char>::empty().contains('\n'));
        }
        lemma_split_join(ls2);
        assert(spec_split_lines(r) == ls2);
        assert(is_dep_header(ls2[n + 1]));
        assert(!is_dep_header(Seq::<char>::empty())) by {
            assert(spec_trim(Seq::<char>::empty()) =~= Seq::<char>::empty());
        }
        assert forall|j: int| 0 <= j < n + 1 implies !is_dep_header(ls2[j]) by {
            if j < n {
                assert(ls2[j] == ls[j]);
            }
        }
        lemma_first_dep_header_at(ls2, n + 1);
        let tail2 = ls2.subrange(n + 2, n + 3);
        assert(tail2 =~= seq![entry]);
        lemma_first_section_at(tail2, 1);
        assert(dep_section_end(ls2, n + 1) == n + 3);
        assert(count_entries(ls2, n + 2, n + 3) == 1) by {
            assert(ls2[n + 2] == entry);
            assert(spec_line_key(entry) is Some);
            assert(n + 3 == ls2.len());
            assert(count_entries(ls2, n + 3, n + 3) == 0);
        }
        assert(count_keyed(ls2, name, n + 2, n + 3) == 1) by {
            assert(ls2[n + 2] == entry);
            assert(spec_line_key(entry) == Some(name));
            assert(count_keyed(ls2, name, n + 3, n + 3) == 0);
        }
        assert(spec_keyed_count(t, name) == 0);
        assert(spec_keyed_count(r, name) == 1);
        assert(spec_dep_count(r) == 1);
        assert(spec_dep_count(t) == 0);
        assert(spec_has_dep(r, name)) by {
            assert(spec_line_key(ls2[n + 2]) == Some(name));
            assert(n + 1 < n + 2 < dep_section_end(ls2, n + 1));
        }
    } else {
        let tail = ls.subrange(h + 1, n);
        let s = first_stop(tail, name);
        let fs = first_section(tail);
        lemma_first_stop(tail, name);
        lemma_first_section(tail);
        if s < tail.len() && spec_line_key(tail[s]) == Some(name) {
            assert(!is_section(tail[s]));
            assert(fs > s) by {
                if fs < s {
                    assert(is_section(tail[fs]));
                    assert(!line_stops(tail[fs], name));
                }
                if fs == s {
                    assert(is_section(tail[s]));
                }
            }
            assert(spec_line_key(ls[h + 1 + s]) == Some(name)) by {
                assert(tail[s] == ls[h + 1 + s]);
            }
            assert(h < h + 1 + s < dep_section_end(ls, h));
            assert(spec_has_dep(t, name));
            assert(false);
        }
        assert(s == fs) by {
            if fs < s {
                assert(is_section(tail[fs]));
                assert(!line_stops(tail[fs], name));
            }
            if fs > s {
                assert(s < tail.len());
                assert(line_stops(tail[s], name));
                assert(!is_section(tail[s]));
                assert(spec_line_key(tail[s]) == Some(name));
            }
        }
        let b = h + 1 + s;
        assert(b == dep_section_end(ls, h));
        let ls2 = ls.insert(b, entry);
        assert(spec_upsert_lines(ls, name, entry) == ls2);
        assert(r == spec_join_lines(ls2));
        assert(forall|i: int| 0 <= i < ls2.len() ==> !(#[trigger] ls2[i]).contains('\n')) by {
            assert(forall|i: int|
                0 <= i < ls2.len() && i != b ==> ls2[i] == if i < b {
                    ls[i]
                } else {
                    ls[i - 1]
                });
        }
        lemma_split_join(ls2);
        assert(spec_split_lines(r) == ls2);
        assert forall|j: int| 0 <= j < h implies !is_dep_header(ls2[j]) by {
            assert(ls2[j] == ls[j]);
        }
        assert(ls2[h] == ls[h]);
        lemma_first_dep_header_at(ls2, h);
        let tail2 = ls2.subrange(h + 1, n + 1);
        assert(tail2 =~= tail.insert(s, entry)) by {
            assert forall|j: int| 0 <= j < tail2.len() implies tail2[j] == tail.insert(
                s,
                entry,
            )[j] by {
                if j < s {
                    assert(tail2[j] == ls2[h + 1 + j]);
                    assert(ls2[h + 1 + j] == ls[h + 1 + j]);
                } else if j == s {
                    assert(tail2[j] == ls2[b]);
                } else {
                    assert(tail2[j] == ls2[h + 1 + j]);
                    assert(ls2[h + 1 + j] == ls[h + j]);
                    assert(tail[j - 1] == ls[h + j]);
                }
            }
        }
        assert forall|j: int| 0 <= j < s + 1 implies !is_section(tail2[j]) by {
            if j < s {
                assert(tail2[j] == tail[j]);
                assert(!line_stops(tail[j], name));
            } else {
                assert(tail2[j] == entry);
            }
        }
        if s < tail.len() {
            assert(is_section(tail2[s + 1])) by {
                assert(tail2[s + 1] == tail[s]);
                assert(is_section(tail[s]));
            }
            lemma_first_section_at(tail2, s + 1);
        } else {
            assert(tail2.len() == s + 1);
            lemma_first_section_at(tail2, s + 1);
        }
        assert(dep_section_end(ls2, h) == b + 1);
        lemma_count_split(ls2, h + 1, b, b + 1);
        lemma_count_congruent(ls2, ls, h + 1, h + 1, s);
        assert(count_entries(ls2, b, b + 1) == 1) by {
            assert(ls2[b] == entry);
            assert(spec_line_key(entry) is Some);
            assert(count_entries(ls2, b + 1, b + 1) == 0);
        }
        assert(spec_dep_count(r) == spec_dep_count(t) + 1);
        assert(spec_keyed_count(t, name) == 0) by {
            lemma_count_keyed_exists(ls, name, h + 1, b);
            if count_keyed(ls, name, h + 1, b) > 0 {
                let i0 = choose|i: int|
                    h + 1 <= i < b && spec_line_key(#[trigger] ls[i]) == Some(name);
                assert(spec_has_dep(t, name));
            }
        }
        assert(spec_keyed_count(r, name) == 1) by {
            lemma_count_keyed_split(ls2, name, h + 1, b, b + 1);
            lemma_count_keyed_congruent(ls2, ls, name, h + 1, h + 1, s);
            assert(count_keyed(ls2, name, b, b + 1) == 1) by {
                assert(ls2[b] == entry);
                assert(spec_line_key(entry) == Some(name));
                assert(count_keyed(ls2, name, b + 1, b + 1) == 0);
            }
        }
        assert(spec_has_dep(r, name)) by {
            assert(spec_line_key(ls2[b]) == Some(name));
            assert(h < b < dep_section_end(ls2, h));
        }
        if b < n {
            let pre = ls.subrange(0, b);
            let post = ls.subrange(b, n);
            assert(ls =~= pre + post);
            lemma_join_append(pre, post);
            assert(t == spec_join_lines(pre) + seq!['\n'] + spec_join_lines(post));
            assert(ls2 =~= pre + (seq![entry] + post));
            lemma_join_append(pre, seq![entry] + post);
            lemma_join_append(seq![entry], post);
            assert(spec_join_lines(seq![entry]) == entry);
            let k = spec_join_lines(pre).len() as int + 1;
            assert(t.subrange(0, k) =~= spec_join_lines(pre) + seq!['\n']);
            assert(t.subrange(k, t.len() as int) =~= spec_join_lines(post));
            assert(r =~= t.subrange(0, k) + entry + seq!['\n'] + t.subrange(
                k,
                t.len() as int,
            ));
        } else {
            assert(ls2 =~= ls + seq![entry]);
            lemma_join_append(ls, seq![entry]);
            assert(spec_join_lines(seq![entry]) == entry);
            assert(r =~= t + seq!['\n'] + entry);
        }
    }
}

/// Law: upserting a dependency name already present leaves the dependency
/// count unchanged and replaces exactly the first entry line carrying that
/// name, altering no other byte of the manifest.
#[verifier::rlimit(100)]
#[verifier::spinoff_prover]
pub proof fn lemma_upsert_existing_dependency(t: Seq<char>, name: Seq<char>, d: DependencySpec)
    requires
        spec_clean_dep_name(name),
        spec_clean_dep_spec(d),
        spec_has_dep(t, name),
    ensures
        ({
            let ls = spec_split_lines(t);
            let h = first_dep_header(ls);
            let entry = dep_entry_line(name, d);
            let r = spec_upsert(t, name, d);
            let m = h + 1 + first_stop(ls.subrange(h + 1, ls.len() as int), name);
            let k1 = spec_join_lines(ls.subrange(0, m)).len() as int + 1;
            let k2 = k1 + ls[m].len() as int;
            &&& spec_dep_count(r) == spec_dep_count(t)
            &&& spec_keyed_count(r, name) == spec_keyed_count(t, name)
            &&& spec_has_dep(r, name)
            &&& spec_split_lines(r) == ls.update(m, entry)
            &&& spec_line_key(ls[m]) == Some(name)
            &&& h < m < dep_section_end(ls, h)
            &&& (m < ls.len() - 1 ==> r == t.subrange(0, k1) + entry + t.subrange(
                k2,
                t.len() as int,
            ))
            &&& (m == ls.len() - 1 ==> r == t.subrange(0, k1) + entry)
        }),
{
    let ls = spec_split_lines(t);
    let n = ls.len() as int;
    let h = first_dep_header(ls);
    let entry = dep_entry_line(name, d);
    let r = spec_upsert(t, name, d);
    lemma_split_lines_wf(t);
    lemma_first_dep_header(ls);
    lemma_entry_line_key(name, d);
    lemma_join_split(t);
    assert(h < n);
    let tail = ls.subrange(h + 1, n);
    let s = first_stop(tail, name);
    let fs = first_section(tail);
    lemma_first_stop(tail, name);
    lemma_first_section(tail);
    let i0 = choose|i: int| h < i < dep_section_end(ls, h) && spec_line_key(ls[i]) == Some(name);
    let j0 = i0 - (h + 1);
    assert(tail[j0] == ls[i0]);
    assert(j0 < fs);
    assert(line_stops(tail[j0], name));
    assert(s <= j0) by {
        if s > j0 {
            assert(!line_stops(tail[j0], name));
        }
    }
    assert(s < tail.len());
    assert(!is_section(tail[s])) by {
        if is_section(tail[s]) {
            assert(fs <= s) by {
                if fs > s {
                    assert(!is_section(tail[s]));
                }
            }
            assert(fs < s || fs == s);
            if fs < s {
                assert(!line_stops(tail[fs], name));
                assert(is_section(tail[fs]));
            }
            if fs == s {
                assert(j0 < fs);
                assert(s <= j0);
            }
        }
    }
    assert(spec_line_key(tail[s]) == Some(name));
    let m = h + 1 + s;
    assert(spec_line_key(ls[m]) == Some(name)) by {
        assert(tail[s] == ls[m]);
    }
    assert(fs > s) by {
        if fs < s {
            assert(is_section(tail[fs]));
            assert(!line_stops(tail[fs], name));
        }
        if fs == s {
            assert(is_section(tail[s]));
        }
    }
    assert(h < m < dep_section_end(ls, h));
    let ls2 = ls.update(m, entry);
    assert(spec_upsert_lines(ls, name, entry) == ls2);
    assert(r == spec_join_lines(ls2));
    assert(forall|i: int| 0 <= i < ls2.len() ==> !(#[trigger] ls2[i]).contains('\n')) by {
        assert(forall|i: int| 0 <= i < ls2.len() && i != m ==> ls2[i] == ls[i]);
    }
    lemma_split_join(ls2);
    assert(spec_split_lines(r) == ls2);
    assert forall|j: int| 0 <= j < h implies !is_dep_header(ls2[j]) by {
        assert(ls2[j] == ls[j]);
    }
    assert(ls2[h] == ls[h]);
    lemma_first_dep_header_at(ls2, h);
    let tail2 = ls2.subrange(h + 1, n);
    assert(tail2 =~= tail.update(s, entry)) by {
        assert forall|j: int| 0 <= j < tail2.len() implies tail2[j] == tail.update(s, entry)[j] by {
            assert(tail2[j] == ls2[h + 1 + j]);
            if j != s {
                assert(ls2[h + 1 + j] == ls[h + 1 + j]);
            }
        }
    }
    assert forall|j: int| 0 <= j < fs implies !is_section(tail2[j]) by {
        if j == s {
            assert(tail2[j] == entry);
        } else {
            assert(tail2[j] == tail[j]);
            if j < s {
                assert(!line_stops(tail[j], name));
            }
        }
    }
    if fs < tail.len() {
        assert(is_section(tail2[fs])) by {
            assert(tail2[fs] == tail[fs]);
        }
        lemma_first_section_at(tail2, fs);
    } else {
        lemma_first_section_at(tail2, fs);
    }
    assert(dep_section_end(ls2, h) == dep_section_end(ls, h));
    let b = dep_section_end(ls, h);
    lemma_count_split(ls2, h + 1, m, b);
    lemma_count_split(ls2, m, m + 1, b);
    lemma_count_split(ls, h + 1, m, b);
    lemma_count_split(ls, m, m + 1, b);
    lemma_count_congruent(ls2, ls, h + 1, h + 1, s);
    lemma_count_congruent(ls2, ls, m + 1, m + 1, b - m - 1);
    assert(count_entries(ls2, m, m + 1) == 1) by {
        assert(ls2[m] == entry);
    }
    assert(count_entries(ls, m, m + 1) == 1);
    assert(spec_dep_count(r) == spec_dep_count(t));
    assert(spec_keyed_count(r, name) == spec_keyed_count(t, name)) by {
        lemma_count_keyed_split(ls2, name, h + 1, m, b);
        lemma_count_keyed_split(ls2, name, m, m + 1, b);
        lemma_count_keyed_split(ls, name, h + 1, m, b);
        lemma_count_keyed_split(ls, name, m, m + 1, b);
        lemma_count_keyed_congruent(ls2, ls, name, h + 1, h + 1, s);
        lemma_count_keyed_congruent(ls2, ls, name, m + 1, m + 1, b - m - 1);
        assert(count_keyed(ls2, name, m, m + 1) == 1) by {
            assert(ls2[m] == entry);
            assert(spec_line_key(entry) == Some(name));
            assert(count_keyed(ls2, name, m + 1, m + 1) == 0);
        }
        assert(count_keyed(ls, name, m, m + 1) == 1) by {
            assert(spec_line_key(ls[m]) == Some(name));
            assert(count_keyed(ls, name, m + 1, m + 1) == 0);
        }
    }
    assert(spec_has_dep(r, name)) by {
        assert(spec_line_key(ls2[m]) == Some(name));
        assert(h < m < dep_section_end(ls2, h));
    }
    let pre = ls.subrange(0, m);
    let old_line = ls[m];
    let k1 = spec_join_lines(pre).len() as int + 1;
    let k2 = k1 + old_line.len() as int;
    if m < n - 1 {
        let post = ls.subrange(m + 1, n);
        assert(ls =~= pre + (seq![old_line] + post));
        lemma_join_append(pre, seq![old_line] + post);
        lemma_join_append(seq![old_line], post);
        assert(spec_join_lines(seq![old_line]) == old_line);
        assert(t == spec_join_lines(pre) + seq!['\n'] + (old_line + seq!['\n'] + spec_join_lines(
            post,
        )));
        assert(ls2 =~= pre + (seq![entry] + post));
        lemma_join_append(pre, seq![entry] + post);
        lemma_join_append(seq![entry], post);
        assert(spec_join_lines(seq![entry]) == entry);
        assert(t.subrange(0, k1) =~= spec_join_lines(pre) + seq!['\n']);
        assert(t.subrange(k2, t.len() as int) =~= seq!['\n'] + spec_join_lines(post));
        assert(r =~= t.subrange(0, k1) + entry + t.subrange(k2, t.len() as int));
    } else {
        assert(m == n - 1);
        assert(ls =~= pre + seq![old_line]);
        lemma_join_append(pre, seq![old_line]);
        assert(spec_join_lines(seq![old_line]) == old_line);
        assert(t == spec_join_lines(pre) + seq!['\n'] + old_line);
        assert(ls2 =~= pre + seq![entry]);
        lemma_join_append(pre, seq![entry]);
        assert(spec_join_lines(seq![entry]) == entry);
        assert(t.subrange(0, k1) =~= spec_join_lines(pre) + seq!['\n']);
        assert(r =~= t.subrange(0, k1) + entry);
    }
}

/// Law: upserting the same dependency twice changes nothing the second
/// time — the entry keeps the position it first got, and the last write
/// already won.
#[verifier::rlimit(100)]
#[verifier::spinoff_prover]
pub proof fn lemma_upsert_idempotent(t: Seq<char>, name: Seq<char>, d: DependencySpec)
    requires
        spec_clean_dep_name(name),
        spec_clean_dep_spec(d),
    ensures
        spec_upsert(spec_upsert(t, name, d), name, d) == spec_upsert(t, name, d),
{
    let ls = spec_split_lines(t);
    let n = ls.len() as int;
    let h = first_dep_header(ls);
    let entry = dep_entry_line(name, d);
    let t1 = spec_upsert(t, name, d);
    let ls1 = spec_split_lines(t1);
    lemma_split_lines_wf(t);
    lemma_first_dep_header(ls);
    lemma_entry_line_key(name, d);
    assert(line_stops(entry, name));
    if h < n {
        let tail = ls.subrange(h + 1, n);
        lemma_first_stop(tail, name);
        lemma_first_section(tail);
        // Where the first upsert put the entry.
        let pos: int = if spec_has_dep(t, name) {
            h + 1 + first_stop(tail, name)
        } else {
            dep_section_end(ls, h)
        };
        let s = pos - (h + 1);
        if spec_has_dep(t, name) {
            lemma_upsert_existing_dependency(t, name, d);
            assert(ls1 == ls.update(pos, entry));
            assert(0 <= s < tail.len());
        } else {
            lemma_upsert_new_dependency(t, name, d);
            assert(ls1 == ls.insert(pos, entry));
            assert(0 <= s <= tail.len());
        }
        // Scanning below the entry position stops nowhere earlier.
        assert(forall|j: int| 0 <= j < s ==> !line_stops(#[trigger] tail[j], name)) by {
            if !spec_has_dep(t, name) {
                assert forall|j: int| 0 <= j < s implies !line_stops(#[trigger] tail[j], name) by {
                    assert(!is_section(tail[j]));
                    if spec_line_key(tail[j]) == Some(name) {
                        assert(tail[j] == ls[h + 1 + j]);
                        assert(h < h + 1 + j < dep_section_end(ls, h));
                        assert(spec_has_dep(t, name));
                    }
                }
            }
        }
        // The header of t1 is the old header.
        assert forall|j: int| 0 <= j < h implies !is_dep_header(ls1[j]) by {
            assert(ls1[j] == ls[j]);
        }
        assert(ls1[h] == ls[h]);
        lemma_first_dep_header_at(ls1, h);
        // The second scan stops at the entry line itself.
        let tail1 = ls1.subrange(h + 1, ls1.len() as int);
        assert forall|j: int| 0 <= j < s implies !line_stops(#[trigger] tail1[j], name) by {
            assert(tail1[j] == ls1[h + 1 + j]);
            assert(ls1[h + 1 + j] == ls[h + 1 + j]);
            assert(tail[j] == ls[h + 1 + j]);
        }
        assert(tail1[s] == ls1[pos]);
        assert(ls1[pos] == entry);
        lemma_first_stop_at(tail1, name, s);
        // So the second upsert replaces the entry with itself.
        assert(spec_line_key(tail1[s]) == Some(name));
        assert(spec_upsert_lines(ls1, name, entry) == ls1.update(pos, entry));
        assert(ls1.update(pos, entry) =~= ls1);
        lemma_join_split(t1);
        assert(spec_upsert(t1, name, d) == t1);
    } else {
        // No section existed (so the name was not present): the first upsert
        // appended one, and the entry stands two lines under the new header.
        lemma_upsert_new_dependency(t, name, d);
        reveal_strlit("[dependencies]");
        let hdr = "[dependencies]"@;
        assert(!hdr.contains('\n')) by {
            if hdr.contains('\n') {
                let i = choose|i: int| 0 <= i < hdr.len() && hdr[i] == '\n';
            }
        }
        let app = seq![Seq::<char>::empty(), hdr, entry];
        let ls2 = ls + app;
        assert(spec_upsert_lines(ls, name, entry) =~= ls2);
        assert(ls1 == ls2) by {
            assert(forall|i: int| 0 <= i < ls2.len() ==> !(#[trigger] ls2[i]).contains('\n')) by {
                assert(!Seq::<char>::empty().contains('\n'));
            }
            lemma_split_join(ls2);
        }
        assert(spec_trim(hdr) =~= hdr) by {
            assert(!is_ws(hdr[0]));
            assert(!is_ws(hdr[hdr.len() - 1]));
            assert(first_non_ws(hdr, 0) == 0);
            assert(end_non_ws(hdr, hdr.len() as int) == hdr.len() as int);
        }
        assert(!is_dep_header(Seq::<char>::empty())) by {
            assert(spec_trim(Seq::<char>::empty()) =~= Seq::<char>::empty());
        }
        assert forall|j: int| 0 <= j < n + 1 implies !is_dep_header(ls1[j]) by {
            if j < n {
                assert(ls1[j] == ls[j]);
            } else {
                assert(ls1[j] == Seq::<char>::empty());
            }
        }
        assert(is_dep_header(ls1[n + 1]));
        lemma_first_dep_header_at(ls1, n + 1);
        let tail1 = ls1.subrange(n + 2, n + 3);
        assert(tail1[0] == entry);
        lemma_first_stop_at(tail1, name, 0);
        assert(spec_line_key(tail1[0]) == Some(name));
        assert(spec_upsert_lines(ls1, name, entry) == ls1.update(n + 2, entry));
        assert(ls1.update(n + 2, entry) =~= ls1);
        lemma_join_split(t1);
        assert(spec_upsert(t1, name, d) == t1);
    }
}

} // verus!
