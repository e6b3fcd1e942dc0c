//! Pure derivation functions: package name from a source URL, module-name
//! validation, header-guard tokens, and module file paths.

use vstd::prelude::*;
use crate::text::chars_of;
use crate::text::copy_range;
use crate::text::push_all;

verus! {

/// Whether `s` ends with the four characters `.git`.
pub open spec fn ends_with_git(s: Seq<char>) -> bool {
    s.len() >= 4 && s.subrange(s.len() - 4, s.len() as int) == ".git"@
}

/// Last index strictly before `j` holding `c`; `-1` if there is none.
pub open spec fn last_idx_before(s: Seq<char>, c: char, j: int) -> int
    decreases j,
{
    if j <= 0 || j > s.len() {
        -1
    } else if s[j - 1] == c {
        j - 1
    } else {
        last_idx_before(s, c, j - 1)
    }
}

pub proof fn lemma_last_idx_before(s: Seq<char>, c: char, j: int)
    requires
        0 <= j <= s.len(),
    ensures
        -1 <= last_idx_before(s, c, j) < j,
        last_idx_before(s, c, j) >= 0 ==> s[last_idx_before(s, c, j)] == c,
        forall|k: int| last_idx_before(s, c, j) < k < j ==> s[k] != c,
    decreases j,
{
    if j > 0 && s[j - 1] != c {
        lemma_last_idx_before(s, c, j - 1);
    }
}

/// The package name a source URL derives: one trailing `.git` suffix is
/// stripped, then the part after the last `/` is taken; with no `/`, the part
/// after the last `:`; with neither separator, the whole remainder.
pub open spec fn spec_extract_package_name(url: Seq<char>) -> Seq<char> {
    let u = if ends_with_git(url) {
        url.subrange(0, url.len() - 4)
    } else {
        url
    };
    let si = last_idx_before(u, '/', u.len() as int);
    if si >= 0 {
        u.subrange(si + 1, u.len() as int)
    } else {
        let ci = last_idx_before(u, ':', u.len() as int);
        if ci >= 0 {
            u.subrange(ci + 1, u.len() as int)
        } else {
            u
        }
    }
}

/// Search backwards from the end for `c`; the index found, or `v.len()` as "none".
fn rfind_char(v: &Vec<char>, c: char) -> (r: usize)
    ensures
        last_idx_before(v@, c, v@.len() as int) >= 0 ==> r == last_idx_before(
            v@,
            c,
            v@.len() as int,
        ),
        last_idx_before(v@, c, v@.len() as int) < 0 ==> r == v@.len(),
{
    let mut j: usize = v.len();
    while j > 0
        invariant
            j <= v@.len(),
            last_idx_before(v@, c, v@.len() as int) == last_idx_before(v@, c, j as int),
        decreases j,
    {
        if v[j - 1] == c {
            return j - 1;
        }
        j -= 1;
    }
    v.len()
}

/// Derive a package name from a git source URL.
pub fn extract_package_name(url: &Vec<char>) -> (r: Vec<char>)
    ensures
        r@ == spec_extract_package_name(url@),
{
    let n = url.len();
    let stripped: bool = n >= 4 && url[n - 4] == '.' && url[n - 3] == 'g' && url[n - 2] == 'i'
        && url[n - 1] == 't';
    proof {
        reveal_strlit(".git");
        if n >= 4 {
            assert(stripped ==> url@.subrange(n - 4, n as int) =~= ".git"@);
            assert(url@.subrange(n - 4, n as int) == ".git"@ ==> stripped) by {
                if url@.subrange(n - 4, n as int) == ".git"@ {
                    assert(url@[n - 4] == url@.subrange(n - 4, n as int)[0]);
                    assert(url@[n - 3] == url@.subrange(n - 4, n as int)[1]);
                    assert(url@[n - 2] == url@.subrange(n - 4, n as int)[2]);
                    assert(url@[n - 1] == url@.subrange(n - 4, n as int)[3]);
                }
            }
        }
        assert(stripped == ends_with_git(url@));
    }
    let m: usize = if stripped {
        n - 4
    } else {
        n
    };
    let u = copy_range(url, 0, m);
    proof {
        if stripped {
            assert(u@ =~= url@.subrange(0, url@.len() - 4));
        } else {
            assert(u@ =~= url@);
        }
    }
    let si = rfind_char(&u, '/');
    proof {
        lemma_last_idx_before(u@, '/', u@.len() as int);
    }
    if si < u.len() {
        let r = copy_range(&u, si + 1, u.len());
        return r;
    }
    let ci = rfind_char(&u, ':');
    proof {
        lemma_last_idx_before(u@, ':', u@.len() as int);
    }
    if ci < u.len() {
        let r = copy_range(&u, ci + 1, u.len());
        return r;
    }
    assert(u@ =~= u@.subrange(0, u@.len() as int));
    u
}

/// Whether a character is in Unicode's letter or number classes; the
/// result depends on the character alone.
pub uninterp spec fn alnum_of(c: char) -> bool;

/// Relies on char::is_alphanumeric: the Unicode alphanumeric test.
#[verifier::external_body]
fn char_is_alphanumeric(c: char) -> (r: bool)
    ensures
        r == alnum_of(c),
{
    c.is_alphanumeric()
}

/// A module-name character: alphanumeric, or underscore.
pub open spec fn is_word_char(c: char) -> bool {
    alnum_of(c) || c == '_'
}

/// A valid module name is non-empty and made of word characters only.
pub open spec fn spec_valid_module_name(s: Seq<char>) -> bool {
    s.len() > 0 && forall|i: int| 0 <= i < s.len() ==> is_word_char(s[i])
}

/// Whether `name` may name a module: non-empty, letters, digits and
/// underscores only.
pub fn validate_module_name(name: &Vec<char>) -> (r: bool)
    ensures
        r == spec_valid_module_name(name@),
{
    if name.len() == 0 {
        return false;
    }
    let mut i: usize = 0;
    while i < name.len()
        invariant
            i <= name@.len(),
            forall|j: int| 0 <= j < i ==> is_word_char(name@[j]),
        decreases name@.len() - i,
    {
        let c = name[i];
        let ok = char_is_alphanumeric(c) || c == '_';
        if !ok {
            assert(!is_word_char(name@[i as int]));
            return false;
        }
        i += 1;
    }
    true
}

/// The uppercase mapping of a text; the result depends on the characters
/// alone.
pub uninterp spec fn upper_of(s: Seq<char>) -> Seq<char>;

/// Relies on str::to_uppercase: the Unicode uppercase of the whole text.
#[verifier::external_body]
fn to_upper(s: &Vec<char>) -> (r: Vec<char>)
    ensures
        r@ == upper_of(s@),
{
    let owned: String = s.iter().collect();
    owned.to_uppercase().chars().collect()
}

/// The header-guard token of a module: `_<NAME>_H` with the name uppercased.
pub open spec fn spec_header_guard(name: Seq<char>) -> Seq<char> {
    seq!['_'] + upper_of(name) + seq!['_', 'H']
}

/// Derive the header-guard macro token for a module name.
pub fn header_guard(name: &Vec<char>) -> (r: Vec<char>)
    ensures
        r@ == spec_header_guard(name@),
{
    let mut r: Vec<char> = Vec::new();
    r.push('_');
    let up = to_upper(name);
    push_all(&mut r, &up);
    r.push('_');
    r.push('H');
    assert(r@ =~= spec_header_guard(name@));
    r
}

/// The source-file path of a module: `src/<name>.c`.
pub open spec fn spec_module_source_path(name: Seq<char>) -> Seq<char> {
    "src/"@ + name + ".c"@
}

/// The header-file path of a module: `include/<name>.h`.
pub open spec fn spec_module_header_path(name: Seq<char>) -> Seq<char> {
    "include/"@ + name + ".h"@
}

/// Build the source-file path of a module.
pub fn module_source_path(name: &Vec<char>) -> (r: Vec<char>)
    ensures
        r@ == spec_module_source_path(name@),
{
    let mut r = chars_of("src/");
    push_all(&mut r, name);
    let tail = chars_of(".c");
    push_all(&mut r, &tail);
    r
}

/// Build the header-file path of a module.
pub fn module_header_path(name: &Vec<char>) -> (r: Vec<char>)
    ensures
        r@ == spec_module_header_path(name@),
{
    let mut r = chars_of("include/");
    push_all(&mut r, name);
    let tail = chars_of(".h");
    push_all(&mut r, &tail);
    r
}

} // verus!
