//! Character-level helpers shared by the log grammar.

use vstd::prelude::*;

verus! {

/// Copies the characters of `s` into a vector.
pub fn chars_of(s: &str) -> (r: Vec<char>)
    ensures
        r@ == s@,
{
    let mut r: Vec<char> = Vec::new();
    for c in it: s.chars()
        invariant
            r@ == it.seq().take(it.index() as int),
    {
        r.push(c);
    }
    r
}

/// Whether `p` occurs in `s` at index `i`.
pub open spec fn starts_at(s: Seq<char>, i: int, p: Seq<char>) -> bool {
    0 <= i && i + p.len() <= s.len() && s.subrange(i, i + p.len()) == p
}

/// Tests whether the literal `p` occurs in `s` at index `i`.
pub fn lit_at(s: &Vec<char>, i: usize, p: &[char]) -> (r: bool)
    ensures
        r == starts_at(s@, i as int, p@),
{
    if p.len() > s.len() || i > s.len() - p.len() {
        return false;
    }
    let mut k: usize = 0;
    while k < p.len()
        invariant
            i + p.len() <= s.len(),
            k <= p.len(),
            forall|j: int| 0 <= j < k ==> s@[i + j] == p@[j],
        decreases p@.len() - k,
    {
        if s[i + k] != p[k] {
            assert(s@.subrange(i as int, i + p@.len())[k as int] != p@[k as int]);
            return false;
        }
        k = k + 1;
    }
    assert(s@.subrange(i as int, i + p@.len()) =~= p@);
    true
}

/// Tests whether a literal occurs in `s` at index `i`, given as text.
pub fn text_at(s: &Vec<char>, i: usize, lit: &str) -> (r: bool)
    ensures
        r == starts_at(s@, i as int, lit@),
{
    let p = chars_of(lit);
    lit_at(s, i, p.as_slice())
}

/// Tests whether the literal `lit` occurs in `s` at index `i`, and gives the
/// index just past it.
pub fn text_end(s: &Vec<char>, i: usize, lit: &str) -> (r: Option<usize>)
    ensures
        r is Some == starts_at(s@, i as int, lit@),
        r matches Some(e) ==> e == i + lit@.len() && e <= s.len(),
{
    let p = chars_of(lit);
    if i > s.len() || p.len() > s.len() - i {
        return None;
    }
    if lit_at(s, i, p.as_slice()) {
        Some(i + p.len())
    } else {
        None
    }
}

/// Relies on String::push: appends one character to the string.
#[verifier::external_body]
fn push_char(s: &mut String, c: char)
    ensures
        final(s)@ == old(s)@.push(c),
{
    s.push(c);
}

/// The characters from `a` to `b`, as a string.
pub fn string_of(s: &Vec<char>, a: usize, b: usize) -> (r: String)
    requires
        a <= b <= s.len(),
    ensures
        r@ == s@.subrange(a as int, b as int),
{
    let mut r = String::new();
    let mut k = a;
    while k < b
        invariant
            a <= k <= b <= s.len(),
            r@ == s@.subrange(a as int, k as int),
        decreases b - k,
    {
        push_char(&mut r, s[k]);
        assert(s@.subrange(a as int, k + 1) =~= s@.subrange(a as int, k as int).push(s@[k as int]));
        k = k + 1;
    }
    r
}

/// The characters from `a` to `b`, as a vector.
pub fn chars_range(s: &Vec<char>, a: usize, b: usize) -> (r: Vec<char>)
    requires
        a <= b <= s.len(),
    ensures
        r@ == s@.subrange(a as int, b as int),
{
    let mut r: Vec<char> = Vec::new();
    let mut k = a;
    while k < b
        invariant
            a <= k <= b <= s.len(),
            r@ == s@.subrange(a as int, k as int),
        decreases b - k,
    {
        r.push(s[k]);
        assert(s@.subrange(a as int, k + 1) =~= s@.subrange(a as int, k as int).push(s@[k as int]));
        k = k + 1;
    }
    r
}

/// Space or tab.
pub open spec fn is_ws(c: char) -> bool {
    c == ' ' || c == '\t'
}

/// An ASCII decimal digit.
pub open spec fn is_digit(c: char) -> bool {
    48 <= (c as u32) <= 57
}

/// An ASCII letter.
pub open spec fn is_alpha(c: char) -> bool {
    (65 <= (c as u32) <= 90) || (97 <= (c as u32) <= 122)
}

/// The value of a decimal digit.
pub open spec fn digit_val(c: char) -> int {
    (c as u32) as int - 48
}

/// The index of the first non-blank character at or after `i`.
pub open spec fn ws_end(s: Seq<char>, i: int) -> int
    decreases s.len() - i,
{
    if 0 <= i < s.len() && is_ws(s[i]) {
        ws_end(s, i + 1)
    } else {
        i
    }
}

/// The index of the first non-digit at or after `i`.
pub open spec fn digits_end(s: Seq<char>, i: int) -> int
    decreases s.len() - i,
{
    if 0 <= i < s.len() && is_digit(s[i]) {
        digits_end(s, i + 1)
    } else {
        i
    }
}

/// The index of the first non-letter at or after `i`.
pub open spec fn alpha_end(s: Seq<char>, i: int) -> int
    decreases s.len() - i,
{
    if 0 <= i < s.len() && is_alpha(s[i]) {
        alpha_end(s, i + 1)
    } else {
        i
    }
}

/// The first index at or after `i` that holds `c`.
pub open spec fn find_from(s: Seq<char>, i: int, c: char) -> Option<int>
    decreases s.len() - i,
{
    if 0 <= i < s.len() {
        if s[i] == c {
            Some(i)
        } else {
            find_from(s, i + 1, c)
        }
    } else {
        None
    }
}

/// The last index below `n` that holds `c`.
pub open spec fn last_before(s: Seq<char>, n: int, c: char) -> Option<int>
    decreases n,
{
    if 0 < n <= s.len() {
        if s[n - 1] == c {
            Some(n - 1)
        } else {
            last_before(s, n - 1, c)
        }
    } else {
        None
    }
}

/// Whether every character of `s` is a digit.
pub open spec fn all_digits(s: Seq<char>) -> bool {
    forall|j: int| 0 <= j < s.len() ==> is_digit(#[trigger] s[j])
}

/// The value of a run of decimal digits.
pub open spec fn decimal(s: Seq<char>) -> int
    decreases s.len(),
{
    if s.len() == 0 {
        0
    } else {
        decimal(s.drop_last()) * 10 + digit_val(s.last())
    }
}

/// The number that `s` spells in decimal, where it is a non-empty run of
/// digits whose value fits in 64 bits.
pub open spec fn number(s: Seq<char>) -> Option<u64> {
    if s.len() > 0 && all_digits(s) && decimal(s) <= u64::MAX {
        Some(decimal(s) as u64)
    } else {
        None
    }
}

/// The number that `s` spells, as Rust reads an unsigned integer: an
/// optional `+`, then digits.
pub open spec fn plus_number(s: Seq<char>) -> Option<u64> {
    if s.len() > 0 && s[0] == '+' {
        number(s.drop_first())
    } else {
        number(s)
    }
}

proof fn lemma_decimal_nonneg(s: Seq<char>)
    requires
        all_digits(s),
    ensures
        decimal(s) >= 0,
    decreases s.len(),
{
    if s.len() > 0 {
        lemma_decimal_nonneg(s.drop_last());
    }
}

proof fn lemma_decimal_prefix(s: Seq<char>, k: int)
    requires
        all_digits(s),
        0 <= k <= s.len(),
    ensures
        decimal(s.take(k)) <= decimal(s),
    decreases s.len(),
{
    if k == s.len() {
        assert(s.take(k) =~= s);
    } else {
        lemma_decimal_prefix(s.drop_last(), k);
        assert(s.drop_last().take(k) =~= s.take(k));
        lemma_decimal_nonneg(s.drop_last());
    }
}

/// Tests for a space or tab.
pub fn is_ws_char(c: char) -> (r: bool)
    ensures
        r == is_ws(c),
{
    c == ' ' || c == '\t'
}

/// Tests for an ASCII decimal digit.
pub fn is_digit_char(c: char) -> (r: bool)
    ensures
        r == is_digit(c),
{
    let u = c as u32;
    48 <= u && u <= 57
}

/// Tests for an ASCII letter.
pub fn is_alpha_char(c: char) -> (r: bool)
    ensures
        r == is_alpha(c),
{
    let u = c as u32;
    (65 <= u && u <= 90) || (97 <= u && u <= 122)
}

/// Skips blanks from `i`.
pub fn skip_ws(s: &Vec<char>, i: usize) -> (r: usize)
    requires
        i <= s.len(),
    ensures
        r == ws_end(s@, i as int),
        i <= r <= s.len(),
{
    let mut k = i;
    while k < s.len() && is_ws_char(s[k])
        invariant
            i <= k <= s.len(),
            ws_end(s@, k as int) == ws_end(s@, i as int),
        decreases s.len() - k,
    {
        k = k + 1;
    }
    k
}

/// Skips digits from `i`.
pub fn skip_digits(s: &Vec<char>, i: usize) -> (r: usize)
    requires
        i <= s.len(),
    ensures
        r == digits_end(s@, i as int),
        i <= r <= s.len(),
{
    let mut k = i;
    while k < s.len() && is_digit_char(s[k])
        invariant
            i <= k <= s.len(),
            digits_end(s@, k as int) == digits_end(s@, i as int),
        decreases s.len() - k,
    {
        k = k + 1;
    }
    k
}

/// Skips letters from `i`.
pub fn skip_alpha(s: &Vec<char>, i: usize) -> (r: usize)
    requires
        i <= s.len(),
    ensures
        r == alpha_end(s@, i as int),
        i <= r <= s.len(),
{
    let mut k = i;
    while k < s.len() && is_alpha_char(s[k])
        invariant
            i <= k <= s.len(),
            alpha_end(s@, k as int) == alpha_end(s@, i as int),
        decreases s.len() - k,
    {
        k = k + 1;
    }
    k
}

/// Finds the first `c` at or after `i`.
pub fn find_char(s: &Vec<char>, i: usize, c: char) -> (r: Option<usize>)
    ensures
        r matches Some(j) ==> find_from(s@, i as int, c) == Some(j as int) && i <= j < s.len(),
        r is None ==> find_from(s@, i as int, c) is None,
{
    let mut k = i;
    while k < s.len()
        invariant
            i <= k,
            find_from(s@, k as int, c) == find_from(s@, i as int, c),
        decreases s.len() - k,
    {
        if s[k] == c {
            return Some(k);
        }
        k = k + 1;
    }
    None
}

/// Finds the last `c` below `n`.
pub fn find_last_before(s: &Vec<char>, n: usize, c: char) -> (r: Option<usize>)
    requires
        n <= s.len(),
    ensures
        r matches Some(j) ==> last_before(s@, n as int, c) == Some(j as int) && j < n,
        r is None ==> last_before(s@, n as int, c) is None,
{
    let mut k = n;
    while k > 0
        invariant
            k <= n <= s.len(),
            last_before(s@, k as int, c) == last_before(s@, n as int, c),
        decreases k,
    {
        if s[k - 1] == c {
            return Some(k - 1);
        }
        k = k - 1;
    }
    None
}

/// Reads the characters from `a` to `b` as a decimal number.
pub fn parse_number(s: &Vec<char>, a: usize, b: usize) -> (r: Option<u64>)
    requires
        a <= b <= s.len(),
    ensures
        r == number(s@.subrange(a as int, b as int)),
{
    let ghost t = s@.subrange(a as int, b as int);
    if a == b {
        return None;
    }
    let mut k = a;
    while k < b
        invariant
            a <= k <= b <= s.len(),
            t == s@.subrange(a as int, b as int),
            forall|j: int| a <= j < k ==> is_digit(s@[j]),
        decreases b - k,
    {
        if !is_digit_char(s[k]) {
            assert(!is_digit(t[k - a]));
            return None;
        }
        k = k + 1;
    }
    assert(all_digits(t));
    let mut v: u64 = 0;
    k = a;
    while k < b
        invariant
            a <= k <= b <= s.len(),
            t == s@.subrange(a as int, b as int),
            all_digits(t),
            v == decimal(t.take(k - a)),
        decreases b - k,
    {
        assert(t.take(k + 1 - a).drop_last() =~= t.take(k - a));
        assert(t[k - a] == s@[k as int]);
        let d = (s[k] as u32 - 48) as u64;
        if v > 1844674407370955161u64 || (v == 1844674407370955161u64 && d > 5) {
            proof {
                assert(v * 10 + d > u64::MAX) by (nonlinear_arith)
                    requires
                        v > 1844674407370955161u64 || (v == 1844674407370955161u64 && d > 5),
                ;
                lemma_decimal_prefix(t, k + 1 - a);
            }
            return None;
        }
        assert(v * 10 + d <= u64::MAX) by (nonlinear_arith)
            requires
                v <= 1844674407370955161u64,
                v < 1844674407370955161u64 || d <= 5,
                d <= 9,
        ;
        v = v * 10 + d;
        k = k + 1;
    }
    assert(t.take(b - a) =~= t);
    Some(v)
}

/// Reads the characters from `a` to `b` as an unsigned number with an
/// optional `+` sign.
pub fn parse_plus_number(s: &Vec<char>, a: usize, b: usize) -> (r: Option<u64>)
    requires
        a <= b <= s.len(),
    ensures
        r == plus_number(s@.subrange(a as int, b as int)),
{
    if a < b && s[a] == '+' {
        assert(s@.subrange(a as int, b as int).drop_first() =~= s@.subrange(a + 1, b as int));
        parse_number(s, a + 1, b)
    } else {
        parse_number(s, a, b)
    }
}

} // verus!
