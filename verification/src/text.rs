//! Case-insensitive matching over path and file-name strings.
//!
//! Rule matching throughout the dashboard is case-insensitive, with the fold
//! defined on the ASCII letters (every rule pattern is plain ASCII). All
//! predicates are stated over the character view of a string, so the
//! classification contracts can speak about them directly.

use vstd::prelude::*;

verus! {

/// One character folded to lower case (ASCII letters only), as a Unicode
/// scalar value.
pub open spec fn lower(c: char) -> u32 {
    if 65 <= c as u32 && c as u32 <= 90 {
        (c as u32 + 32) as u32
    } else {
        c as u32
    }
}

/// The characters of `a` starting at `i` match `pat`, ignoring case.
pub open spec fn matches_at(a: Seq<char>, pat: Seq<char>, i: int) -> bool {
    forall|j: int| 0 <= j < pat.len() ==> lower(a[i + j]) == lower(pat[j])
}

/// `a` and `b` are equal ignoring case.
pub open spec fn eq_ci(a: Seq<char>, b: Seq<char>) -> bool {
    a.len() == b.len() && matches_at(a, b, 0)
}

/// `a` begins with `pat`, ignoring case.
pub open spec fn starts_with_ci(a: Seq<char>, pat: Seq<char>) -> bool {
    pat.len() <= a.len() && matches_at(a, pat, 0)
}

/// `a` ends with `pat`, ignoring case.
pub open spec fn ends_with_ci(a: Seq<char>, pat: Seq<char>) -> bool {
    pat.len() <= a.len() && matches_at(a, pat, a.len() - pat.len())
}

/// `pat` occurs somewhere in `a`, ignoring case.
pub open spec fn contains_ci(a: Seq<char>, pat: Seq<char>) -> bool {
    exists|i: int| 0 <= i <= a.len() - pat.len() && matches_at(a, pat, i)
}

/// Path-component separator: both separators are accepted, as on the
/// platforms whose paths the rules name.
pub open spec fn is_sep(c: char) -> bool {
    c == '\\' || c == '/'
}

/// Largest index whose character satisfies `p`, or -1 if none does.
pub open spec fn last_where(s: Seq<char>, p: spec_fn(char) -> bool) -> int
    decreases s.len(),
{
    if s.len() == 0 {
        -1
    } else if p(s.last()) {
        s.len() - 1
    } else {
        last_where(s.drop_last(), p)
    }
}

/// Index of the last separator in `s`, or -1.
pub open spec fn last_sep_idx(s: Seq<char>) -> int {
    last_where(s, |c: char| is_sep(c))
}

/// Index of the last `.` in `s`, or -1.
pub open spec fn last_dot_idx(s: Seq<char>) -> int {
    last_where(s, |c: char| c == '.')
}

/// The final path component of `s` (everything after the last separator).
pub open spec fn file_name_of(s: Seq<char>) -> Seq<char> {
    s.subrange(last_sep_idx(s) + 1, s.len() as int)
}

/// `s` has an extension: a `.` strictly inside its final path component.
pub open spec fn has_ext(s: Seq<char>) -> bool {
    last_dot_idx(s) > last_sep_idx(s) + 1
}

/// The extension of `s` (everything after the last `.`); meaningful only
/// when `has_ext(s)` holds.
pub open spec fn ext_of(s: Seq<char>) -> Seq<char> {
    s.subrange(last_dot_idx(s) + 1, s.len() as int)
}

/// The extension of `s` is `pat`, ignoring case.
pub open spec fn ext_is(s: Seq<char>, pat: Seq<char>) -> bool {
    has_ext(s) && eq_ci(ext_of(s), pat)
}

/// `last_where` picks the largest satisfying index: it is in bounds, its
/// character satisfies `p`, and no later character does.
pub proof fn lemma_last_where(s: Seq<char>, p: spec_fn(char) -> bool)
    ensures
        -1 <= last_where(s, p) < s.len(),
        last_where(s, p) >= 0 ==> p(s[last_where(s, p)]),
        forall|j: int| last_where(s, p) < j < s.len() ==> !p(#[trigger] s[j]),
    decreases s.len(),
{
    if s.len() > 0 && !p(s.last()) {
        lemma_last_where(s.drop_last(), p);
        assert(forall|j: int| 0 <= j < s.len() - 1 ==> s.drop_last()[j] == #[trigger] s[j]);
    }
}

pub fn char_lower(c: char) -> (r: u32)
    ensures
        r == lower(c),
{
    let u = c as u32;
    if 65 <= u && u <= 90 {
        u + 32
    } else {
        u
    }
}

pub fn char_is_sep(c: char) -> (r: bool)
    ensures
        r == is_sep(c),
{
    c == '\\' || c == '/'
}

/// Does `a` match `pat` at offset `i`, ignoring case?
fn match_at(a: &str, pat: &str, i: usize) -> (r: bool)
    requires
        i + pat@.len() <= a@.len(),
    ensures
        r == matches_at(a@, pat@, i as int),
{
    let n = a.unicode_len();
    let m = pat.unicode_len();
    let mut j: usize = 0;
    while j < m
        invariant
            j <= m,
            n == a@.len(),
            m == pat@.len(),
            i + m <= n,
            forall|k: int| 0 <= k < j ==> lower(a@[i + k]) == lower(#[trigger] pat@[k]),
        decreases m - j,
    {
        let ca = a.get_char(i + j);
        let cb = pat.get_char(j);
        if char_lower(ca) != char_lower(cb) {
            assert(!matches_at(a@, pat@, i as int)) by {
                assert(lower(a@[i + j]) != lower(pat@[j as int]));
            }
            return false;
        }
        j += 1;
    }
    true
}

/// `a == b`, exactly (paths are identity keys and compare case-sensitively).
pub fn str_eq(a: &str, b: &str) -> (r: bool)
    ensures
        r == (a@ == b@),
{
    let n = a.unicode_len();
    let m = b.unicode_len();
    if n != m {
        return false;
    }
    let mut i: usize = 0;
    while i < n
        invariant
            i <= n,
            n == a@.len(),
            n == b@.len(),
            forall|j: int| 0 <= j < i ==> a@[j] == #[trigger] b@[j],
        decreases n - i,
    {
        if a.get_char(i) != b.get_char(i) {
            return false;
        }
        i += 1;
    }
    proof {
        assert(a@ =~= b@);
    }
    true
}

/// `a == pat`, ignoring case.
pub fn str_eq_ci(a: &str, pat: &str) -> (r: bool)
    ensures
        r == eq_ci(a@, pat@),
{
    let n = a.unicode_len();
    let m = pat.unicode_len();
    if n != m {
        return false;
    }
    match_at(a, pat, 0)
}

/// `a` begins with `pat`, ignoring case.
pub fn str_starts_with_ci(a: &str, pat: &str) -> (r: bool)
    ensures
        r == starts_with_ci(a@, pat@),
{
    let n = a.unicode_len();
    let m = pat.unicode_len();
    if m > n {
        return false;
    }
    match_at(a, pat, 0)
}

/// `a` ends with `pat`, ignoring case.
pub fn str_ends_with_ci(a: &str, pat: &str) -> (r: bool)
    ensures
        r == ends_with_ci(a@, pat@),
{
    let n = a.unicode_len();
    let m = pat.unicode_len();
    if m > n {
        return false;
    }
    match_at(a, pat, n - m)
}

/// `pat` occurs somewhere in `a`, ignoring case.
pub fn str_contains_ci(a: &str, pat: &str) -> (r: bool)
    ensures
        r == contains_ci(a@, pat@),
{
    let n = a.unicode_len();
    let m = pat.unicode_len();
    if m > n {
        return false;
    }
    let mut i: usize = 0;
    while i <= n - m
        invariant
            n == a@.len(),
            m == pat@.len(),
            m <= n,
            i <= n - m + 1,
            forall|k: int| 0 <= k < i ==> !matches_at(a@, pat@, k),
        decreases n - m + 1 - i,
    {
        if match_at(a, pat, i) {
            return true;
        }
        i += 1;
    }
    false
}

/// The characters of `a` in `[start, end)` equal `pat`, ignoring case.
fn region_eq_ci(a: &str, start: usize, end: usize, pat: &str) -> (r: bool)
    requires
        start <= end,
        end <= a@.len(),
    ensures
        r == eq_ci(a@.subrange(start as int, end as int), pat@),
{
    let m = pat.unicode_len();
    if end - start != m {
        return false;
    }
    let r = match_at(a, pat, start);
    proof {
        let sub = a@.subrange(start as int, end as int);
        assert(forall|j: int| 0 <= j < m ==> sub[j] == #[trigger] a@[start + j]);
        assert(matches_at(sub, pat@, 0) == matches_at(a@, pat@, start as int));
    }
    r
}

/// The characters of `a` in `[start, end)` begin with `pat`, ignoring case.
fn region_starts_with_ci(a: &str, start: usize, end: usize, pat: &str) -> (r: bool)
    requires
        start <= end,
        end <= a@.len(),
    ensures
        r == starts_with_ci(a@.subrange(start as int, end as int), pat@),
{
    let m = pat.unicode_len();
    if m > end - start {
        return false;
    }
    let r = match_at(a, pat, start);
    proof {
        let sub = a@.subrange(start as int, end as int);
        assert(forall|j: int| 0 <= j < m ==> sub[j] == #[trigger] a@[start + j]);
        assert(matches_at(sub, pat@, 0) == matches_at(a@, pat@, start as int));
    }
    r
}

/// Index at which the final path component of `path` begins.
pub fn name_start(path: &str) -> (r: usize)
    ensures
        r == last_sep_idx(path@) + 1,
        r <= path@.len(),
{
    let n = path.unicode_len();
    let mut i: usize = n;
    while i > 0
        invariant
            i <= n,
            n == path@.len(),
            forall|j: int| i <= j < n ==> !is_sep(#[trigger] path@[j]),
        decreases i,
    {
        let c = path.get_char(i - 1);
        if char_is_sep(c) {
            proof {
                lemma_last_where(path@, |ch: char| is_sep(ch));
            }
            return i;
        }
        i -= 1;
    }
    proof {
        lemma_last_where(path@, |ch: char| is_sep(ch));
    }
    0
}

/// The final path component of `path` equals `pat`, ignoring case.
pub fn file_name_eq_ci(path: &str, pat: &str) -> (r: bool)
    ensures
        r == eq_ci(file_name_of(path@), pat@),
{
    let n = path.unicode_len();
    let ns = name_start(path);
    region_eq_ci(path, ns, n, pat)
}

/// The final path component of `path` begins with `pat`, ignoring case.
pub fn file_name_starts_with_ci(path: &str, pat: &str) -> (r: bool)
    ensures
        r == starts_with_ci(file_name_of(path@), pat@),
{
    let n = path.unicode_len();
    let ns = name_start(path);
    region_starts_with_ci(path, ns, n, pat)
}

/// The extension of `path` equals `pat`, ignoring case.
pub fn ext_matches(path: &str, pat: &str) -> (r: bool)
    ensures
        r == ext_is(path@, pat@),
{
    let n = path.unicode_len();
    let mut i: usize = n;
    while i > 0
        invariant
            i <= n,
            n == path@.len(),
            forall|j: int| i <= j < n ==> !is_sep(#[trigger] path@[j]) && path@[j] != '.',
        decreases i,
    {
        let c = path.get_char(i - 1);
        if char_is_sep(c) {
            // A separator after the last dot: the final component has none.
            proof {
                lemma_last_where(path@, |ch: char| ch == '.');
                lemma_last_where(path@, |ch: char| is_sep(ch));
            }
            return false;
        }
        if c == '.' {
            let d = i - 1;
            proof {
                lemma_last_where(path@, |ch: char| ch == '.');
                lemma_last_where(path@, |ch: char| is_sep(ch));
            }
            if d == 0 {
                return false;
            }
            let before = path.get_char(d - 1);
            if char_is_sep(before) {
                return false;
            }
            assert(last_sep_idx(path@) < d - 1) by {
                lemma_last_where(path@, |ch: char| is_sep(ch));
            }
            return region_eq_ci(path, d + 1, n, pat);
        }
        i -= 1;
    }
    proof {
        lemma_last_where(path@, |ch: char| ch == '.');
        lemma_last_where(path@, |ch: char| is_sep(ch));
    }
    false
}

} // verus!
