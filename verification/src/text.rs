//! Character classes and low-level text scanning: whitespace and word
//! runs, digit runs, substring search, and trimming.  Each spec
//! function states what a scan returns; each exec function is proved
//! equal to its spec.

use vstd::prelude::*;
use vstd::string::StrSliceExecFns;

verus! {

/// Whitespace, as the statement grammar understands it.
pub open spec fn is_space_char(c: char) -> bool {
    c == ' ' || c == '\t' || c == '\n' || c == '\r'
}

/// A word character: an ASCII letter, digit, or underscore.  Names are
/// maximal runs of these.
pub open spec fn is_word_char(c: char) -> bool {
    (97 <= c as u32 && c as u32 <= 122)  // a-z
        || (65 <= c as u32 && c as u32 <= 90)  // A-Z
        || (48 <= c as u32 && c as u32 <= 57)  // 0-9
        || c == '_'
}

/// An ASCII decimal digit.
pub open spec fn is_digit_char(c: char) -> bool {
    48 <= c as u32 && c as u32 <= 57
}

/// A character that can open a relational token.
pub open spec fn is_rel_char(c: char) -> bool {
    c == '=' || c == '<' || c == '>'
}

/// The numeric value of a digit character.
pub open spec fn digit_val(c: char) -> int {
    c as u32 - 48
}

pub fn is_space_exec(c: char) -> (r: bool)
    ensures
        r == is_space_char(c),
{
    c == ' ' || c == '\t' || c == '\n' || c == '\r'
}

pub fn is_word_exec(c: char) -> (r: bool)
    ensures
        r == is_word_char(c),
{
    let u = c as u32;
    (97 <= u && u <= 122) || (65 <= u && u <= 90) || (48 <= u && u <= 57) || c == '_'
}

pub fn is_digit_exec(c: char) -> (r: bool)
    ensures
        r == is_digit_char(c),
{
    let u = c as u32;
    48 <= u && u <= 57
}

pub fn is_rel_exec(c: char) -> (r: bool)
    ensures
        r == is_rel_char(c),
{
    c == '=' || c == '<' || c == '>'
}

/// The first position at or after `i`, but before `hi`, that does not
/// hold whitespace.
pub open spec fn skip_spaces_to(s: Seq<char>, i: int, hi: int) -> int
    decreases hi - i,
{
    if i < hi && is_space_char(s[i]) {
        skip_spaces_to(s, i + 1, hi)
    } else {
        i
    }
}


/// Everything a whitespace skip passes over is whitespace.
pub proof fn lemma_skip_spaces_to_spaces(s: Seq<char>, i: int, hi: int)
    requires
        i <= hi,
    ensures
        forall|t: int| i <= t < skip_spaces_to(s, i, hi) ==> is_space_char(s[t]),
    decreases hi - i,
{
    if i < hi && is_space_char(s[i]) {
        lemma_skip_spaces_to_spaces(s, i + 1, hi);
    }
}

/// The end of the maximal word-character run starting at `i`.
pub open spec fn scan_word(s: Seq<char>, i: int) -> int
    decreases s.len() - i,
{
    if i < s.len() && is_word_char(s[i]) {
        scan_word(s, i + 1)
    } else {
        i
    }
}


/// The end of the maximal digit run starting at `i`.
pub open spec fn scan_digits(s: Seq<char>, i: int) -> int
    decreases s.len() - i,
{
    if i < s.len() && is_digit_char(s[i]) {
        scan_digits(s, i + 1)
    } else {
        i
    }
}


pub proof fn lemma_scan_digits_all_digits(s: Seq<char>, i: int)
    requires
        0 <= i <= s.len(),
    ensures
        forall|j: int| i <= j < scan_digits(s, i) ==> is_digit_char(s[j]),
    decreases s.len() - i,
{
    if i < s.len() && is_digit_char(s[i]) {
        lemma_scan_digits_all_digits(s, i + 1);
    }
}

/// The position of the first character at or after `i` that could open
/// a relational token, or the length when there is none.
pub open spec fn scan_to_rel(s: Seq<char>, i: int) -> int
    decreases s.len() - i,
{
    if i < s.len() && !is_rel_char(s[i]) {
        scan_to_rel(s, i + 1)
    } else {
        i
    }
}

pub proof fn lemma_scan_to_rel_bounds(s: Seq<char>, i: int)
    requires
        i <= s.len(),
    ensures
        i <= scan_to_rel(s, i) <= s.len(),
        scan_to_rel(s, i) < s.len() ==> is_rel_char(s[scan_to_rel(s, i)]),
    decreases s.len() - i,
{
    if i < s.len() && !is_rel_char(s[i]) {
        lemma_scan_to_rel_bounds(s, i + 1);
    }
}

/// The position of the first occurrence of `c` at or after `i`, or the
/// length when there is none.
pub open spec fn scan_to_char(s: Seq<char>, i: int, c: char) -> int
    decreases s.len() - i,
{
    if i < s.len() && s[i] != c {
        scan_to_char(s, i + 1, c)
    } else {
        i
    }
}


/// Walks back from `j` over trailing whitespace, not below `lo`.
pub open spec fn rtrim(s: Seq<char>, lo: int, j: int) -> int
    decreases j - lo,
{
    if lo < j && is_space_char(s[j - 1]) {
        rtrim(s, lo, j - 1)
    } else {
        j
    }
}


/// The segment `[lo, hi)` of `s` with leading and trailing whitespace
/// removed.
pub open spec fn trim_range(s: Seq<char>, lo: int, hi: int) -> Seq<char> {
    let a = skip_spaces_to(s, lo, hi);
    let b = rtrim(s, a, hi);
    s.subrange(a, b)
}

/// Whether `pat` occurs in `s` starting exactly at position `i`.
pub open spec fn has_pat_at(s: Seq<char>, pat: Seq<char>, i: int) -> bool {
    0 <= i && i + pat.len() <= s.len() && (forall|k: int|
        0 <= k < pat.len() ==> s[i + k] == pat[k])
}

/// Whether `pat` occurs anywhere in `s`.
pub open spec fn contains_pat(s: Seq<char>, pat: Seq<char>) -> bool {
    exists|i: int| has_pat_at(s, pat, i)
}

pub fn skip_spaces_exec(s: &str, n: usize, i: usize, hi: usize) -> (r: usize)
    requires
        n == s@.len(),
        i <= hi <= n,
    ensures
        r == skip_spaces_to(s@, i as int, hi as int),
        i <= r <= hi,
{
    let mut j: usize = i;
    while j < hi && is_space_exec(s.get_char(j))
        invariant
            i <= j <= hi <= n,
            n == s@.len(),
            skip_spaces_to(s@, i as int, hi as int) == skip_spaces_to(s@, j as int, hi as int),
        decreases hi - j,
    {
        j += 1;
    }
    j
}

pub fn scan_word_exec(s: &str, n: usize, i: usize) -> (r: usize)
    requires
        n == s@.len(),
        i <= n,
    ensures
        r == scan_word(s@, i as int),
        i <= r <= n,
{
    let mut j: usize = i;
    while j < n && is_word_exec(s.get_char(j))
        invariant
            i <= j <= n,
            n == s@.len(),
            scan_word(s@, i as int) == scan_word(s@, j as int),
        decreases n - j,
    {
        j += 1;
    }
    j
}

pub fn scan_digits_exec(s: &str, n: usize, i: usize) -> (r: usize)
    requires
        n == s@.len(),
        i <= n,
    ensures
        r == scan_digits(s@, i as int),
        i <= r <= n,
{
    let mut j: usize = i;
    while j < n && is_digit_exec(s.get_char(j))
        invariant
            i <= j <= n,
            n == s@.len(),
            scan_digits(s@, i as int) == scan_digits(s@, j as int),
        decreases n - j,
    {
        j += 1;
    }
    j
}

pub fn scan_to_rel_exec(s: &str, n: usize, i: usize) -> (r: usize)
    requires
        n == s@.len(),
        i <= n,
    ensures
        r == scan_to_rel(s@, i as int),
        i <= r <= n,
{
    let mut j: usize = i;
    while j < n && !is_rel_exec(s.get_char(j))
        invariant
            i <= j <= n,
            n == s@.len(),
            scan_to_rel(s@, i as int) == scan_to_rel(s@, j as int),
        decreases n - j,
    {
        j += 1;
    }
    j
}

pub fn scan_to_char_exec(s: &str, n: usize, i: usize, c: char) -> (r: usize)
    requires
        n == s@.len(),
        i <= n,
    ensures
        r == scan_to_char(s@, i as int, c),
        i <= r <= n,
{
    let mut j: usize = i;
    while j < n && s.get_char(j) != c
        invariant
            i <= j <= n,
            n == s@.len(),
            scan_to_char(s@, i as int, c) == scan_to_char(s@, j as int, c),
        decreases n - j,
    {
        j += 1;
    }
    j
}

pub fn rtrim_exec(s: &str, n: usize, lo: usize, j: usize) -> (r: usize)
    requires
        n == s@.len(),
        lo <= j <= n,
    ensures
        r == rtrim(s@, lo as int, j as int),
        lo <= r <= j,
{
    let mut k: usize = j;
    while lo < k && is_space_exec(s.get_char(k - 1))
        invariant
            lo <= k <= j <= n,
            n == s@.len(),
            rtrim(s@, lo as int, j as int) == rtrim(s@, lo as int, k as int),
        decreases k,
    {
        k -= 1;
    }
    k
}

pub fn has_pat_at_exec(s: &str, n: usize, pat: &str, m: usize, i: usize) -> (r: bool)
    requires
        n == s@.len(),
        m == pat@.len(),
    ensures
        r == has_pat_at(s@, pat@, i as int),
{
    if m > n || i > n - m {
        return false;
    }
    let mut k: usize = 0;
    while k < m
        invariant
            k <= m,
            i + m <= n,
            n == s@.len(),
            m == pat@.len(),
            forall|t: int| 0 <= t < k ==> s@[i + t] == pat@[t],
        decreases m - k,
    {
        if s.get_char(i + k) != pat.get_char(k) {
            return false;
        }
        k += 1;
    }
    true
}

pub fn contains_pat_exec(s: &str, n: usize, pat: &str, m: usize) -> (r: bool)
    requires
        n == s@.len(),
        m == pat@.len(),
    ensures
        r == contains_pat(s@, pat@),
{
    if m > n {
        assert(forall|i: int| !has_pat_at(s@, pat@, i));
        return false;
    }
    let mut i: usize = 0;
    while i <= n - m
        invariant
            m <= n,
            i <= n - m + 1,
            n == s@.len(),
            m == pat@.len(),
            forall|j: int| 0 <= j < i ==> !has_pat_at(s@, pat@, j),
        decreases n - m + 1 - i,
    {
        if has_pat_at_exec(s, n, pat, m, i) {
            return true;
        }
        i += 1;
    }
    assert(forall|j: int| !has_pat_at(s@, pat@, j));
    false
}

} // verus!
