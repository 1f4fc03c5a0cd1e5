//! Numbers as text: reading decimal digits into a 64-bit value, and writing a
//! 64-bit value as decimal digits.
use vstd::prelude::*;

verus! {

/// Whether `c` is one of the decimal digits `0` to `9`.
pub open spec fn is_digit(c: char) -> bool {
    '0' <= c && c <= '9'
}

/// The number that the digit `c` stands for.
pub open spec fn digit_value(c: char) -> int {
    c as int - '0' as int
}

/// The digit that stands for `d`, for `d` from 0 to 9.
pub open spec fn digit_char(d: int) -> char {
    ('0' as int + d) as char
}

/// The number that a run of decimal digits denotes, most significant digit
/// first. The empty run denotes zero.
pub open spec fn decimal_value(digits: Seq<char>) -> int
    decreases digits.len(),
{
    if digits.len() == 0 {
        0
    } else {
        decimal_value(digits.drop_last()) * 10 + digit_value(digits.last())
    }
}

/// The 64-bit signed integer that is congruent to `x` modulo 2^64: what
/// fixed-width arithmetic keeps of the mathematical result `x`.
pub open spec fn wrap_i64(x: int) -> i64 {
    let r = x % 0x1_0000_0000_0000_0000;
    if r > i64::MAX {
        (r - 0x1_0000_0000_0000_0000) as i64
    } else {
        r as i64
    }
}

/// The decimal digits of `n`, most significant first, without leading zeros.
pub open spec fn decimal_digits(n: nat) -> Seq<char>
    decreases n,
{
    if n < 10 {
        seq![digit_char(n as int)]
    } else {
        decimal_digits(n / 10).push(digit_char((n % 10) as int))
    }
}

/// The decimal form of `v`: a minus sign if `v` is negative, then the digits
/// of its magnitude.
pub open spec fn decimal_text(v: int) -> Seq<char> {
    if v < 0 {
        seq!['-'] + decimal_digits((-v) as nat)
    } else {
        decimal_digits(v as nat)
    }
}

/// A 64-bit value that differs from `x` by a multiple of 2^64 is the wrapped
/// value of `x`.
pub proof fn lemma_wrap_unique(x: int, y: i64, k: int)
    requires
        x == y + k * 0x1_0000_0000_0000_0000,
    ensures
        wrap_i64(x) == y,
{
    vstd::arithmetic::div_mod::lemma_mod_multiples_vanish(k, y as int, 0x1_0000_0000_0000_0000);
}

/// The wrapped value of `x` differs from `x` by a multiple of 2^64.
pub proof fn lemma_wrap_offset(x: int) -> (k: int)
    ensures
        wrap_i64(x) == x + k * 0x1_0000_0000_0000_0000,
{
    let q = x / 0x1_0000_0000_0000_0000;
    let r = x % 0x1_0000_0000_0000_0000;
    assert(x == q * 0x1_0000_0000_0000_0000 + r);
    if r > i64::MAX {
        -q - 1
    } else {
        -q
    }
}

/// A value that fits in 64 bits wraps to itself.
pub proof fn lemma_wrap_identity(y: i64)
    ensures
        wrap_i64(y as int) == y,
{
    lemma_wrap_unique(y as int, y, 0);
}

/// Wrapping commutes with reading one more digit: appending the digit value
/// `d` to a wrapped prefix gives the wrapped value of the longer number.
pub proof fn lemma_wrap_push_digit(prefix: int, d: int)
    requires
        0 <= d <= 9,
    ensures
        wrap_i64(wrap_i64(prefix) * 10 + d) == wrap_i64(prefix * 10 + d),
{
    let k = lemma_wrap_offset(prefix);
    let inner = wrap_i64(prefix) * 10 + d;
    let j = lemma_wrap_offset(inner);
    assert(wrap_i64(inner) == prefix * 10 + d + (10 * k + j) * 0x1_0000_0000_0000_0000);
    lemma_wrap_unique(prefix * 10 + d, wrap_i64(inner), -(10 * k + j));
}

/// Printing and reading are inverse to each other: the decimal digits of
/// `n` are digits, and read back they denote `n`.
pub proof fn lemma_digits_read_back(n: nat)
    ensures
        decimal_digits(n).len() >= 1,
        forall|i: int| 0 <= i < decimal_digits(n).len() ==> is_digit(decimal_digits(n)[i]),
        decimal_value(decimal_digits(n)) == n,
    decreases n,
{
    if n < 10 {
        assert(seq![digit_char(n as int)].drop_last() =~= Seq::<char>::empty());
        reveal_with_fuel(decimal_value, 2);
    } else {
        lemma_digits_read_back(n / 10);
        let longer = decimal_digits(n / 10).push(digit_char((n % 10) as int));
        assert(longer.drop_last() =~= decimal_digits(n / 10));
    }
}

/// Whether `c` is a decimal digit.
pub fn char_is_digit(c: char) -> (b: bool)
    ensures
        b == is_digit(c),
{
    '0' <= c && c <= '9'
}

/// Reads one more digit into a wrapped running value.
pub(crate) fn push_digit(acc: i64, c: char) -> (r: i64)
    requires
        is_digit(c),
    ensures
        r == wrap_i64(acc * 10 + digit_value(c)),
{
    let d: i64 = (c as u32 - 48) as i64;
    let r = acc.wrapping_mul(10).wrapping_add(d);
    proof {
        let m = acc.wrapping_mul(10);
        assert(m == wrap_i64(acc * 10));
        let k = lemma_wrap_offset(acc * 10);
        let j: int = if m + d > i64::MAX { -1 } else { 0 };
        assert(r == m + d + j * 0x1_0000_0000_0000_0000);
        lemma_wrap_unique(acc * 10 + d, r, -(k + j));
    }
    r
}

/// The sum of two 64-bit values, wrapped to 64 bits.
pub fn add_wrapping(a: i64, b: i64) -> (r: i64)
    ensures
        r == wrap_i64(a + b),
{
    let r = a.wrapping_add(b);
    proof {
        let j: int = if a + b > i64::MAX { -1 } else if a + b < i64::MIN { 1 } else { 0 };
        assert(r == a + b + j * 0x1_0000_0000_0000_0000);
        lemma_wrap_unique(a + b, r, -j);
    }
    r
}

/// Appends the decimal digits of `n` to `text`.
pub fn push_decimal_digits(text: &mut String, n: u64)
    ensures
        final(text)@ == old(text)@ + decimal_digits(n as nat),
    decreases n,
{
    if n >= 10 {
        push_decimal_digits(text, n / 10);
    }
    let low: u8 = (n % 10) as u8;
    text.push((48u8 + low) as char);
}

/// The decimal form of `n`, as printed: `-` before a negative number, no sign
/// otherwise, no leading zeros.
pub fn number_text(n: i64) -> (text: String)
    ensures
        text@ == decimal_text(n as int),
{
    let mut text = String::new();
    if n < 0 {
        text.push('-');
        let magnitude: u64 = (-(n + 1)) as u64 + 1;
        push_decimal_digits(&mut text, magnitude);
    } else {
        push_decimal_digits(&mut text, n as u64);
    }
    text
}

} // verus!
