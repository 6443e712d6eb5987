//! Character classes and small matching helpers over sequences of characters.
use vstd::prelude::*;

verus! {

pub open spec fn is_digit(c: char) -> bool {
    '0' <= c <= '9'
}

pub open spec fn is_alpha(c: char) -> bool {
    ('a' <= c <= 'z') || ('A' <= c <= 'Z')
}

/// A character that belongs to a word (letters, digits and the underscore).
pub open spec fn is_word(c: char) -> bool {
    is_alpha(c) || is_digit(c) || c == '_'
}

/// Characters with the Unicode `White_Space` property.
pub open spec fn is_space(c: char) -> bool {
    ('\t' <= c <= '\r') || c == ' ' || c == '\u{85}' || c == '\u{a0}' || c == '\u{1680}' || (
    '\u{2000}' <= c <= '\u{200a}') || c == '\u{2028}' || c == '\u{2029}' || c == '\u{202f}' || c
        == '\u{205f}' || c == '\u{3000}'
}

pub open spec fn lower(c: char) -> char {
    if 'A' <= c <= 'Z' {
        ((c as u8) + 32) as char
    } else {
        c
    }
}

pub open spec fn digit_value(c: char) -> int {
    c as int - '0' as int
}

/// `pat` stands in `s` at position `i`, letter case aside.
pub open spec fn at_ci(s: Seq<char>, i: int, pat: Seq<char>) -> bool {
    &&& 0 <= i
    &&& i + pat.len() <= s.len()
    &&& forall|j: int| 0 <= j < pat.len() ==> lower(#[trigger] s[i + j]) == lower(pat[j])
}

/// `pat` stands in `s` at position `i`, exactly.
pub open spec fn at_exact(s: Seq<char>, i: int, pat: Seq<char>) -> bool {
    &&& 0 <= i
    &&& i + pat.len() <= s.len()
    &&& s.subrange(i, i + pat.len()) == pat
}

/// A word boundary just before position `i`, where `s[i]` is a word character.
pub open spec fn boundary_before(s: Seq<char>, i: int) -> bool {
    i == 0 || !is_word(s[i - 1])
}

/// A word boundary at position `i`, just after a word character.
pub open spec fn boundary_after(s: Seq<char>, i: int) -> bool {
    i == s.len() || !is_word(s[i])
}

/// Length of the run of digits that starts at `i`.
pub open spec fn digit_run(s: Seq<char>, i: int) -> nat
    decreases s.len() - i,
{
    if 0 <= i < s.len() && is_digit(s[i]) {
        1 + digit_run(s, i + 1)
    } else {
        0
    }
}

/// Value of the decimal numeral `s[i..j]`.
pub open spec fn numeral(s: Seq<char>, i: int, j: int) -> int
    decreases j - i,
{
    if j <= i {
        0
    } else {
        numeral(s, i, j - 1) * 10 + digit_value(s[j - 1])
    }
}

/// Index of the first character at or after `i` that is not white space.
pub open spec fn skip_space(s: Seq<char>, i: int) -> int
    decreases s.len() - i,
{
    if 0 <= i < s.len() && is_space(s[i]) {
        skip_space(s, i + 1)
    } else {
        i
    }
}

/// Index just after the last character before `j` that is not white space.
pub open spec fn trim_end_index(s: Seq<char>, j: int) -> int
    decreases j,
{
    if 0 < j <= s.len() && is_space(s[j - 1]) {
        trim_end_index(s, j - 1)
    } else {
        j
    }
}

/// `s` without white space at either end.
pub open spec fn trim(s: Seq<char>) -> Seq<char> {
    let e = trim_end_index(s, s.len() as int);
    s.subrange(skip_space(s, 0), if skip_space(s, 0) <= e { e } else { skip_space(s, 0) })
}

pub fn is_digit_exec(c: char) -> (r: bool)
    ensures
        r == is_digit(c),
{
    '0' <= c && c <= '9'
}

pub fn is_alpha_exec(c: char) -> (r: bool)
    ensures
        r == is_alpha(c),
{
    ('a' <= c && c <= 'z') || ('A' <= c && c <= 'Z')
}

pub fn is_word_exec(c: char) -> (r: bool)
    ensures
        r == is_word(c),
{
    is_alpha_exec(c) || is_digit_exec(c) || c == '_'
}

pub fn is_space_exec(c: char) -> (r: bool)
    ensures
        r == is_space(c),
{
    ('\t' <= c && c <= '\r') || c == ' ' || c == '\u{85}' || c == '\u{a0}' || c == '\u{1680}' || (
    '\u{2000}' <= c && c <= '\u{200a}') || c == '\u{2028}' || c == '\u{2029}' || c == '\u{202f}'
        || c == '\u{205f}' || c == '\u{3000}'
}

pub fn lower_exec(c: char) -> (r: char)
    ensures
        r == lower(c),
{
    if 'A' <= c && c <= 'Z' {
        ((c as u8) + 32) as char
    } else {
        c
    }
}

/// The characters of a string slice, in order.
pub fn chars_of(s: &str) -> (r: Vec<char>)
    ensures
        r@ == s@,
{
    let n = s.unicode_len();
    let mut r: Vec<char> = Vec::new();
    let mut i: usize = 0;
    while i < n
        invariant
            n == s@.len(),
            i <= n,
            r@ == s@.subrange(0, i as int),
        decreases n - i,
    {
        r.push(s.get_char(i));
        i = i + 1;
        assert(r@ == s@.subrange(0, i as int));
    }
    r
}

/// Whether `pat` stands in `s` at position `i`, letter case aside.
pub fn at_ci_exec(s: &Vec<char>, i: usize, pat: &str) -> (r: bool)
    ensures
        r == at_ci(s@, i as int, pat@),
{
    let n = pat.unicode_len();
    if i > s.len() || n > s.len() - i {
        return false;
    }
    let mut j: usize = 0;
    while j < n
        invariant
            n == pat@.len(),
            s@.len() <= usize::MAX,
            i <= s@.len(),
            n <= s@.len(),
            i + n <= s@.len(),
            j <= n,
            forall|k: int| 0 <= k < j ==> lower(#[trigger] s@[i + k]) == lower(pat@[k]),
        decreases n - j,
    {
        if lower_exec(s[i + j]) != lower_exec(pat.get_char(j)) {
            assert(lower(s@[i + j as int]) != lower(pat@[j as int]));
            return false;
        }
        j = j + 1;
    }
    true
}

/// Whether `pat` stands in `s` at position `i`, exactly.
pub fn at_exact_exec(s: &Vec<char>, i: usize, pat: &str) -> (r: bool)
    ensures
        r == at_exact(s@, i as int, pat@),
{
    let n = pat.unicode_len();
    if i > s.len() || n > s.len() - i {
        return false;
    }
    let mut j: usize = 0;
    while j < n
        invariant
            n == pat@.len(),
            s@.len() <= usize::MAX,
            i <= s@.len(),
            n <= s@.len(),
            i + n <= s@.len(),
            j <= n,
            forall|k: int| 0 <= k < j ==> s@[i + k] == pat@[k],
        decreases n - j,
    {
        if s[i + j] != pat.get_char(j) {
            assert(s@.subrange(i as int, i + n)[j as int] != pat@[j as int]);
            return false;
        }
        j = j + 1;
    }
    assert(s@.subrange(i as int, i + n) =~= pat@);
    true
}

/// Length of the run of digits that starts at `i`.
pub fn digit_run_exec(s: &Vec<char>, i: usize) -> (r: usize)
    requires
        i <= s@.len(),
    ensures
        r == digit_run(s@, i as int),
        i + r <= s@.len(),
{
    let mut j: usize = i;
    while j < s.len() && is_digit_exec(s[j])
        invariant
            i <= j <= s@.len(),
            digit_run(s@, i as int) == (j - i) + digit_run(s@, j as int),
        decreases s@.len() - j,
    {
        j = j + 1;
    }
    j - i
}

/// Value of a numeral of at most four digits.
pub fn numeral_exec(s: &Vec<char>, i: usize, j: usize) -> (r: u32)
    requires
        i <= j <= s@.len(),
        j - i <= 4,
        forall|k: int| i <= k < j ==> is_digit(#[trigger] s@[k]),
    ensures
        r == numeral(s@, i as int, j as int),
        r < 10000,
{
    let mut v: u32 = 0;
    let mut k: usize = i;
    while k < j
        invariant
            i <= k <= j <= s@.len(),
            j - i <= 4,
            forall|q: int| i <= q < j ==> is_digit(#[trigger] s@[q]),
            v == numeral(s@, i as int, k as int),
            k - i <= 0 ==> v == 0,
            k - i <= 1 ==> v < 10,
            k - i <= 2 ==> v < 100,
            k - i <= 3 ==> v < 1000,
            v < 10000,
        decreases j - k,
    {
        let c = s[k];
        assert(is_digit(s@[k as int]));
        v = v * 10 + (c as u32 - '0' as u32);
        k = k + 1;
    }
    v
}

/// Bounds of `s[i..j]` once white space is taken from both ends.
pub fn trim_bounds(s: &Vec<char>) -> (r: (usize, usize))
    ensures
        r.0 <= r.1 <= s@.len(),
        s@.subrange(r.0 as int, r.1 as int) == trim(s@),
{
    let mut a: usize = 0;
    while a < s.len() && is_space_exec(s[a])
        invariant
            a <= s@.len(),
            skip_space(s@, 0) == skip_space(s@, a as int),
        decreases s@.len() - a,
    {
        a = a + 1;
    }
    let mut b: usize = s.len();
    while b > 0 && is_space_exec(s[b - 1])
        invariant
            b <= s@.len(),
            trim_end_index(s@, s@.len() as int) == trim_end_index(s@, b as int),
        decreases b,
    {
        b = b - 1;
    }
    if a <= b {
        (a, b)
    } else {
        (a, a)
    }
}

/// The characters `s[i..j]`.
pub fn slice(s: &Vec<char>, i: usize, j: usize) -> (r: Vec<char>)
    requires
        i <= j <= s@.len(),
    ensures
        r@ == s@.subrange(i as int, j as int),
{
    let mut r: Vec<char> = Vec::new();
    let mut k: usize = i;
    while k < j
        invariant
            i <= k <= j <= s@.len(),
            r@ == s@.subrange(i as int, k as int),
        decreases j - k,
    {
        r.push(s[k]);
        k = k + 1;
        assert(r@ =~= s@.subrange(i as int, k as int));
    }
    r
}

} // verus!
