//! Numbers as decimal text, and powers.

use vstd::arithmetic::power2::{lemma2_to64, lemma_pow2_strictly_increases, lemma_pow2_unfold, pow2};
use vstd::prelude::*;

use crate::text::{byte_len_spec, chars_of};

verus! {

/// The digit character of `d`, for `d` below ten.
pub open spec fn digit_char(d: nat) -> char {
    (48 + d) as char
}

/// `n` in decimal digits, without leading zeros.
pub open spec fn decimal_spec(n: nat) -> Seq<char>
    decreases n,
{
    if n < 10 {
        seq![digit_char(n)]
    } else {
        decimal_spec(n / 10).push(digit_char(n % 10))
    }
}

pub fn decimal(n: u64) -> (res: String)
    ensures
        res@ == decimal_spec(n as nat),
    decreases n,
{
    let mut res = if n < 10 {
        String::new()
    } else {
        decimal(n / 10)
    };
    let digit = (n % 10) as u8;
    res.push((48 + digit) as char);
    assert(res@ =~= decimal_spec(n as nat));
    res
}

/// A number of 64 bits has one to twenty digits, a byte each.
pub proof fn lemma_decimal_size(n: nat)
    requires
        n <= u64::MAX,
    ensures
        1 <= byte_len_spec(decimal_spec(n)) <= 20,
{
    assert(u64::MAX < pow10(20)) by {
        reveal_with_fuel(pow10, 21);
    }
    lemma_decimal_digits(n, 20);
    vstd::utf8::is_ascii_chars_encode_utf8(decimal_spec(n));
}

/// Ten to the power of `k`.
pub open spec fn pow10(k: nat) -> nat
    decreases k,
{
    if k == 0 {
        1
    } else {
        10 * pow10((k - 1) as nat)
    }
}

proof fn lemma_decimal_digits(n: nat, places: nat)
    requires
        places >= 1,
        n < pow10(places),
    ensures
        1 <= decimal_spec(n).len() <= places,
        vstd::utf8::is_ascii_chars(decimal_spec(n)),
    decreases n,
{
    if n >= 10 {
        if places == 1 {
            reveal_with_fuel(pow10, 2);
        }
        lemma_decimal_digits(n / 10, (places - 1) as nat);
    }
}

pub open spec fn is_digit(c: char) -> bool {
    '0' <= c <= '9'
}

/// The number that a sequence of digits stands for.
pub open spec fn digits_value(digits: Seq<char>) -> nat
    decreases digits.len(),
{
    if digits.len() == 0 {
        0
    } else {
        (digits_value(digits.drop_last()) * 10 + (digits.last() as u32 - 48)) as nat
    }
}

/// `s` without one leading plus sign.
pub open spec fn without_plus(s: Seq<char>) -> Seq<char> {
    if s.len() > 0 && s[0] == '+' {
        s.drop_first()
    } else {
        s
    }
}

/// What `s` reads as: a decimal number up to `max`, with an optional plus sign
/// before its digits.
pub open spec fn parse_spec(s: Seq<char>, max: nat) -> Option<nat> {
    let digits = without_plus(s);
    if digits.len() > 0 && (forall|i: int| 0 <= i < digits.len() ==> is_digit(#[trigger] digits[i]))
        && digits_value(digits) <= max {
        Some(digits_value(digits))
    } else {
        None
    }
}

/// More digits never make the number smaller.
proof fn lemma_digits_grow(digits: Seq<char>, n: int)
    requires
        0 <= n <= digits.len(),
        forall|i: int| 0 <= i < digits.len() ==> is_digit(#[trigger] digits[i]),
    ensures
        digits_value(digits.take(n)) <= digits_value(digits),
    decreases digits.len(),
{
    if n == digits.len() {
        assert(digits.take(n) =~= digits);
    } else {
        let head = digits.drop_last();
        assert(head.take(n) =~= digits.take(n));
        lemma_digits_grow(head, n);
        assert(is_digit(digits[digits.len() - 1]));
    }
}

/// Reads an unsigned decimal number up to `max`.
pub fn parse(s: &str, max: u64) -> (res: Option<u64>)
    ensures
        match res {
            Some(n) => parse_spec(s@, max as nat) == Some(n as nat),
            None => parse_spec(s@, max as nat) is None,
        },
{
    let x = chars_of(s);
    let ghost digits = without_plus(s@);
    let start: usize = if x.len() > 0 && x[0] == '+' {
        1
    } else {
        0
    };
    assert(digits =~= s@.skip(start as int));
    if start == x.len() {
        return None;
    }
    let mut value: u64 = 0;
    let mut i: usize = start;
    assert(digits.take(0) =~= Seq::<char>::empty());
    while i < x.len()
        invariant
            x@ == s@,
            start <= i <= x@.len(),
            digits == without_plus(s@),
            digits == s@.skip(start as int),
            digits.len() > 0,
            forall|k: int| 0 <= k < i - start ==> is_digit(#[trigger] digits[k]),
            value == digits_value(digits.take(i - start)),
            value <= max,
        decreases x@.len() - i,
    {
        let c = x[i];
        assert(digits[i - start] == c);
        if !('0' <= c && c <= '9') {
            return None;
        }
        let d: u64 = (c as u8 - 48) as u64;
        assert(digits.take(i - start + 1).drop_last() =~= digits.take(i - start));
        let wide: u128 = value as u128 * 10 + d as u128;
        if wide > max as u128 {
            proof {
                if forall|k: int| 0 <= k < digits.len() ==> is_digit(#[trigger] digits[k]) {
                    lemma_digits_grow(digits, i - start + 1);
                }
            }
            return None;
        }
        value = wide as u64;
        i += 1;
    }
    assert(digits.take(i - start) =~= digits);
    Some(value)
}

/// `base`, doubled this many times.
pub fn times_pow2(base: u64, doublings: u32) -> (res: u128)
    requires
        doublings <= 31,
    ensures
        res == base as nat * pow2(doublings as nat),
{
    let mut factor: u64 = 1;
    let mut i: u32 = 0;
    proof {
        lemma2_to64();
    }
    while i < doublings
        invariant
            i <= doublings <= 31,
            factor == pow2(i as nat),
            factor <= 0x8000_0000,
        decreases doublings - i,
    {
        proof {
            lemma2_to64();
            lemma_pow2_unfold((i + 1) as nat);
            if i + 1 < 31 {
                lemma_pow2_strictly_increases((i + 1) as nat, 31);
            }
        }
        factor = factor * 2;
        i += 1;
    }
    assert(base * factor <= u64::MAX * 0x8000_0000) by (nonlinear_arith)
        requires
            factor <= 0x8000_0000,
    ;
    base as u128 * factor as u128
}

/// A number written in decimal digits is read back, and only where it is not
/// too large.
pub proof fn law_decimals_are_read_back(n: nat, max: nat)
    ensures
        n <= max ==> parse_spec(decimal_spec(n), max) == Some(n),
        n > max ==> parse_spec(decimal_spec(n), max) is None,
{
    lemma_decimal_value(n);
    assert(is_digit(decimal_spec(n)[0]));
}

/// The digits of a number, and what they stand for.
pub proof fn lemma_decimal_value(n: nat)
    ensures
        decimal_spec(n).len() > 0,
        forall|i: int| 0 <= i < decimal_spec(n).len() ==> is_digit(#[trigger] decimal_spec(n)[i]),
        digits_value(decimal_spec(n)) == n,
    decreases n,
{
    let all = decimal_spec(n);
    if n < 10 {
        assert(all.drop_last() =~= Seq::<char>::empty());
        assert(digits_value(Seq::<char>::empty()) == 0);
    } else {
        lemma_decimal_value(n / 10);
        let front = decimal_spec(n / 10);
        assert(all.drop_last() =~= front);
        assert forall|i: int| 0 <= i < all.len() implies is_digit(#[trigger] all[i]) by {
            if i < front.len() {
                assert(all[i] == front[i]);
            }
        }
    }
}

/// A text with anything but digits in it, beside a plus sign in front, is no
/// number, and neither is an empty one.
pub proof fn law_other_texts_are_no_numbers(s: Seq<char>, max: nat, k: int)
    requires
        s.len() == 0 || 0 < k < s.len() && !is_digit(s[k]) || k == 0 && !is_digit(s[0]) && s[0]
            != '+',
    ensures
        parse_spec(s, max) is None,
{
    let digits = without_plus(s);
    if s.len() > 0 {
        if s[0] == '+' {
            assert(digits[k - 1] == s[k]);
        } else {
            assert(digits[k] == s[k]);
        }
    }
}

} // verus!
