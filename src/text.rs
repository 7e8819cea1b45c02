//! Character-level helpers shared by the renderer and the parser.
use vstd::prelude::*;

verus! {

/// Lowercases an ASCII letter and leaves every other character as it is.
pub open spec fn ascii_lower(c: char) -> char {
    if 'A' <= c && c <= 'Z' {
        ((c as u8) + 32) as char
    } else {
        c
    }
}

/// The text with every ASCII letter lowercased.
pub open spec fn fold_case(s: Seq<char>) -> Seq<char> {
    s.map_values(|c: char| ascii_lower(c))
}

pub fn lower_char(c: char) -> (r: char)
    ensures
        r == ascii_lower(c),
{
    if 'A' <= c && c <= 'Z' {
        ((c as u8) + 32) as char
    } else {
        c
    }
}

/// The characters of a string slice, in order.
pub fn chars_of(s: &str) -> (v: Vec<char>)
    ensures
        v@ == s@,
{
    let n = s.unicode_len();
    let mut v: Vec<char> = Vec::new();
    let mut i: usize = 0;
    while i < n
        invariant
            n == s@.len(),
            i <= n,
            v@ == s@.subrange(0, i as int),
        decreases n - i,
    {
        v.push(s.get_char(i));
        i = i + 1;
    }
    assert(v@ =~= s@);
    v
}

/// Whether `s`, with ASCII letters lowercased, is exactly `word`.
pub fn eq_ignore_ascii_case(s: &Vec<char>, word: &str) -> (r: bool)
    ensures
        r == (fold_case(s@) == word@),
{
    let w = chars_of(word);
    if s.len() != w.len() {
        proof {
            assert(fold_case(s@).len() != word@.len());
        }
        return false;
    }
    let mut i: usize = 0;
    while i < s.len()
        invariant
            w@ == word@,
            s@.len() == w@.len(),
            i <= s@.len(),
            forall|j: int| 0 <= j < i ==> ascii_lower(s@[j]) == w@[j],
        decreases s@.len() - i,
    {
        if lower_char(s[i]) != w[i] {
            proof {
                assert(fold_case(s@)[i as int] != word@[i as int]);
            }
            return false;
        }
        i = i + 1;
    }
    assert(fold_case(s@) =~= word@);
    true
}

/// White space as `char::is_whitespace` defines it (Unicode `White_Space`).
pub open spec fn is_space(c: char) -> bool {
    ('\u{9}' <= c && c <= '\u{d}') || c == ' ' || c == '\u{85}' || c == '\u{a0}' || c
        == '\u{1680}' || ('\u{2000}' <= c && c <= '\u{200a}') || c == '\u{2028}' || c
        == '\u{2029}' || c == '\u{202f}' || c == '\u{205f}' || c == '\u{3000}'
}

pub fn is_space_char(c: char) -> (r: bool)
    ensures
        r == is_space(c),
{
    ('\u{9}' <= c && c <= '\u{d}') || c == ' ' || c == '\u{85}' || c == '\u{a0}' || c
        == '\u{1680}' || ('\u{2000}' <= c && c <= '\u{200a}') || c == '\u{2028}' || c
        == '\u{2029}' || c == '\u{202f}' || c == '\u{205f}' || c == '\u{3000}'
}

/// The first position at or after `p` and before `end` that holds no white
/// space, or `end`.
pub open spec fn skip_space(s: Seq<char>, p: int, end: int) -> int
    decreases end - p,
{
    if 0 <= p < end && end <= s.len() && is_space(s[p]) {
        skip_space(s, p + 1, end)
    } else {
        p
    }
}

/// The end of `s[a..b]` once trailing white space is dropped.
pub open spec fn trim_back(s: Seq<char>, a: int, b: int) -> int
    decreases b - a,
{
    if a < b && 0 < b <= s.len() && is_space(s[b - 1]) {
        trim_back(s, a, b - 1)
    } else {
        b
    }
}

/// `s[from..to]` without leading and trailing white space.
pub open spec fn trimmed(s: Seq<char>, from: int, to: int) -> Seq<char> {
    let a = skip_space(s, from, to);
    s.subrange(a, trim_back(s, a, to))
}

/// The first position at or after `p` that holds `c`, or the length of `s`.
pub open spec fn find_char(s: Seq<char>, p: int, c: char) -> int
    decreases s.len() - p,
{
    if 0 <= p < s.len() && s[p] != c {
        find_char(s, p + 1, c)
    } else {
        p
    }
}

pub proof fn lemma_find_char_bounds(s: Seq<char>, p: int, c: char)
    requires
        0 <= p <= s.len(),
    ensures
        p <= find_char(s, p, c) <= s.len(),
        find_char(s, p, c) < s.len() ==> s[find_char(s, p, c)] == c,
        forall|i: int| p <= i < find_char(s, p, c) ==> s[i] != c,
    decreases s.len() - p,
{
    if p < s.len() && s[p] != c {
        lemma_find_char_bounds(s, p + 1, c);
    }
}

/// The position `skip_space` gives, computed.
pub fn skip_space_exec(s: &Vec<char>, p: usize, end: usize) -> (r: usize)
    requires
        p <= end <= s@.len(),
    ensures
        r == skip_space(s@, p as int, end as int),
        p <= r <= end,
{
    let mut i = p;
    while i < end && is_space_char(s[i])
        invariant
            p <= i <= end <= s@.len(),
            skip_space(s@, i as int, end as int) == skip_space(s@, p as int, end as int),
        decreases end - i,
    {
        i = i + 1;
    }
    i
}

/// The position `trim_back` gives, computed.
pub fn trim_back_exec(s: &Vec<char>, a: usize, b: usize) -> (r: usize)
    requires
        a <= b <= s@.len(),
    ensures
        r == trim_back(s@, a as int, b as int),
        a <= r <= b,
{
    let mut j = b;
    while j > a && is_space_char(s[j - 1])
        invariant
            a <= j <= b <= s@.len(),
            trim_back(s@, a as int, j as int) == trim_back(s@, a as int, b as int),
        decreases j - a,
    {
        j = j - 1;
    }
    j
}

/// The position `find_char` gives, computed.
pub fn find_char_exec(s: &Vec<char>, p: usize, c: char) -> (r: usize)
    requires
        p <= s@.len(),
    ensures
        r == find_char(s@, p as int, c),
        p <= r <= s@.len(),
{
    let mut i = p;
    while i < s.len() && s[i] != c
        invariant
            p <= i <= s@.len(),
            find_char(s@, i as int, c) == find_char(s@, p as int, c),
        decreases s@.len() - i,
    {
        i = i + 1;
    }
    i
}

} // verus!
