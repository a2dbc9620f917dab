//! Numbers as they are written in source text, and as they are printed.
//!
//! A written number has any count of digits, so its value is an `int`. The
//! executable readers clamp what they read to a bound that the caller picks:
//! every use compares the value with a small limit, and a clamped value
//! compares with that limit as the true one does.

use vstd::prelude::*;
use vstd::slice::slice_subrange;

verus! {

/// What `c` is worth as a digit: `0..=9` for the decimal digits, ten and
/// more for the letters of either case, and 36 for every other character.
pub open spec fn digit_value(c: char) -> int {
    if '0' <= c <= '9' {
        c as int - '0' as int
    } else if 'a' <= c <= 'z' {
        c as int - 'a' as int + 10
    } else if 'A' <= c <= 'Z' {
        c as int - 'A' as int + 10
    } else {
        36
    }
}

/// Whether every character of `s` is a digit of the given base.
pub open spec fn all_digits(s: Seq<char>, base: int) -> bool {
    forall|i: int| 0 <= i < s.len() ==> digit_value(#[trigger] s[i]) < base
}

/// The number that the digits `s` spell in the given base, most significant
/// digit first.
pub open spec fn digits_value(s: Seq<char>, base: int) -> int
    decreases s.len(),
{
    if s.len() == 0 {
        0
    } else {
        digits_value(s.drop_last(), base) * base + digit_value(s.last())
    }
}

/// The value of an unsigned literal: an optional `+`, then one digit or
/// more and nothing else.
pub open spec fn unsigned_value(s: Seq<char>, base: int) -> Option<int> {
    let digits = if s.len() > 0 && s[0] == '+' {
        s.drop_first()
    } else {
        s
    };
    if digits.len() > 0 && all_digits(digits, base) {
        Some(digits_value(digits, base))
    } else {
        None
    }
}

/// The value of a signed decimal literal: an optional `+` or `-`, then one
/// digit or more and nothing else.
pub open spec fn signed_value(s: Seq<char>) -> Option<int> {
    if s.len() > 0 && s[0] == '-' {
        let digits = s.drop_first();
        if digits.len() > 0 && all_digits(digits, 10) {
            Some(-digits_value(digits, 10))
        } else {
            None
        }
    } else {
        unsigned_value(s, 10)
    }
}

/// `v` held between `low` and `high`.
pub open spec fn clamped(v: int, low: int, high: int) -> int {
    if v < low {
        low
    } else if v > high {
        high
    } else {
        v
    }
}

/// The low twelve bits of `raw` read as a two's-complement number.
pub open spec fn sign_extend_12(raw: int) -> int {
    let low = raw % 4096;
    if low >= 2048 {
        low - 4096
    } else {
        low
    }
}

/// The character that prints the digit `d`, with small letters from ten on.
pub open spec fn digit_char(d: int) -> char {
    if d < 10 {
        ('0' as int + d) as char
    } else {
        ('a' as int + d - 10) as char
    }
}

/// `n` printed in decimal with no sign and no padding.
pub open spec fn decimal_digits(n: nat) -> Seq<char>
    decreases n,
{
    if n < 10 {
        seq![digit_char(n as int)]
    } else {
        decimal_digits(n / 10).push(digit_char((n % 10) as int))
    }
}

/// `n` printed in decimal, with a `-` in front where it is negative.
pub open spec fn decimal_text(n: int) -> Seq<char> {
    if n < 0 {
        seq!['-'] + decimal_digits((-n) as nat)
    } else {
        decimal_digits(n as nat)
    }
}

/// The last `width` digits of `n` in the given base, padded with zeros.
pub open spec fn padded_digits(n: nat, base: int, width: nat) -> Seq<char>
    decreases width,
{
    if width == 0 {
        Seq::empty()
    } else {
        padded_digits(n / (base as nat), base, (width - 1) as nat).push(digit_char(n as int % base))
    }
}

/// `base` multiplied by itself `width` times.
pub open spec fn power(base: int, width: nat) -> int
    decreases width,
{
    if width == 0 {
        1
    } else {
        base * power(base, (width - 1) as nat)
    }
}

/// A digit read back is the digit printed.
pub proof fn lemma_digit_char(d: int)
    requires
        0 <= d < 36,
    ensures
        digit_value(digit_char(d)) == d,
        !(digit_char(d) == '+'),
        !(digit_char(d) == '-'),
        d < 10 ==> '0' <= digit_char(d) <= '9',
{
}

/// Digits spell a number that is not negative.
pub proof fn lemma_digits_value_bounds(s: Seq<char>, base: int)
    requires
        base >= 1,
    ensures
        digits_value(s, base) >= 0,
    decreases s.len(),
{
    if s.len() > 0 {
        lemma_digits_value_bounds(s.drop_last(), base);
        assert(digits_value(s.drop_last(), base) * base >= 0) by (nonlinear_arith)
            requires
                digits_value(s.drop_last(), base) >= 0,
                base >= 1,
        ;
    }
}

/// An unsigned literal has a value that is not negative.
pub proof fn lemma_unsigned_value_bounds(s: Seq<char>, base: int)
    requires
        base >= 1,
    ensures
        (match unsigned_value(s, base) {
            Some(v) => v >= 0,
            None => true,
        }),
{
    if s.len() > 0 && s[0] == '+' {
        lemma_digits_value_bounds(s.drop_first(), base);
    } else {
        lemma_digits_value_bounds(s, base);
    }
}

/// A number printed in decimal reads back as itself: the text is made of
/// decimal digits only, at least one, and they spell `n`.
pub proof fn lemma_decimal_digits(n: nat)
    ensures
        decimal_digits(n).len() > 0,
        all_digits(decimal_digits(n), 10),
        digits_value(decimal_digits(n), 10) == n,
        forall|i: int|
            0 <= i < decimal_digits(n).len() ==> '0' <= #[trigger] decimal_digits(n)[i] <= '9',
        unsigned_value(decimal_digits(n), 10) == Some(n as int),
        signed_value(decimal_digits(n)) == Some(n as int),
    decreases n,
{
    let s = decimal_digits(n);
    if n < 10 {
        lemma_digit_char(n as int);
        assert(s.drop_last() =~= Seq::<char>::empty());
        assert(digits_value(s.drop_last(), 10) == 0);
    } else {
        let head = decimal_digits(n / 10);
        lemma_decimal_digits(n / 10);
        lemma_digit_char((n % 10) as int);
        assert(s.drop_last() =~= head);
        assert forall|i: int| 0 <= i < s.len() implies '0' <= #[trigger] s[i] <= '9' by {
            if i < head.len() {
                assert(s[i] == head[i]);
            }
        }
    }
    assert(all_digits(s, 10)) by {
        assert forall|i: int| 0 <= i < s.len() implies digit_value(#[trigger] s[i]) < 10 by {
            assert('0' <= s[i] <= '9');
        }
    }
    assert('0' <= s[0] <= '9');
}

/// A number printed with a fixed count of digits reads back as what is left
/// of it below `base` to the power of that count.
pub proof fn lemma_padded_digits(n: nat, base: int, width: nat)
    requires
        2 <= base <= 36,
    ensures
        padded_digits(n, base, width).len() == width,
        all_digits(padded_digits(n, base, width), base),
        power(base, width) > 0,
        digits_value(padded_digits(n, base, width), base) == n as int % power(base, width),
    decreases width,
{
    let s = padded_digits(n, base, width);
    if width > 0 {
        let rest = padded_digits(n / (base as nat), base, (width - 1) as nat);
        let below = power(base, (width - 1) as nat);
        lemma_padded_digits(n / (base as nat), base, (width - 1) as nat);
        lemma_digit_char(n as int % base);
        assert(s.drop_last() =~= rest);
        assert forall|i: int| 0 <= i < s.len() implies digit_value(#[trigger] s[i]) < base by {
            if i < rest.len() {
                assert(s[i] == rest[i]);
            }
        }
        vstd::arithmetic::div_mod::lemma_mod_breakdown(n as int, base, below);
        assert(base * ((n as int / base) % below) == ((n as int / base) % below) * base)
            by (nonlinear_arith);
        assert(base * below > 0) by (nonlinear_arith)
            requires
                base >= 2,
                below > 0,
        ;
    }
}

/// Shifting a word of 32 bits left by twenty and back right, with the sign
/// carried along, reads its low twelve bits in two's complement.
pub proof fn lemma_sign_extend_by_shifts(v: i32)
    by (bit_vector)
    requires
        0 <= v <= 4095,
    ensures
        (v << 20) >> 20 == (if v >= 2048 {
            (v - 4096) as i32
        } else {
            v
        }),
{
}

/// Tells what `c` is worth as a digit.
pub(crate) fn digit_of(c: char) -> (d: u32)
    ensures
        d == digit_value(c),
        d <= 36,
{
    let u: u32 = c as u32;
    if 0x30 <= u && u <= 0x39 {
        u - 0x30
    } else if 0x61 <= u && u <= 0x7a {
        u - 0x61 + 10
    } else if 0x41 <= u && u <= 0x5a {
        u - 0x41 + 10
    } else {
        36
    }
}

/// Reads a run of digits. The result is `None` unless `s` is one digit or
/// more and nothing else; the value is clamped to `cap`.
pub(crate) fn parse_digits(s: &[char], base: u32, cap: u64) -> (value: Option<u64>)
    requires
        2 <= base <= 36,
        cap <= 0xffff_ffff_ffff,
    ensures
        value == (if s@.len() > 0 && all_digits(s@, base as int) {
            Some(clamped(digits_value(s@, base as int), 0, cap as int) as u64)
        } else {
            None
        }),
{
    let n: usize = s.len();
    if n == 0 {
        return None;
    }
    let mut acc: u64 = 0;
    let mut i: usize = 0;
    proof {
        assert(s@.take(0) =~= Seq::<char>::empty());
    }
    while i < n
        invariant
            n == s@.len(),
            i <= n,
            2 <= base <= 36,
            cap <= 0xffff_ffff_ffff,
            all_digits(s@.take(i as int), base as int),
            acc == clamped(digits_value(s@.take(i as int), base as int), 0, cap as int),
        decreases n - i,
    {
        let d: u32 = digit_of(s[i]);
        if d >= base {
            proof {
                assert(digit_value(s@[i as int]) >= base);
            }
            return None;
        }
        proof {
            let head = s@.take(i as int);
            let next = s@.take(i + 1);
            assert(next.drop_last() =~= head);
            assert(next.last() == s@[i as int]);
            assert forall|j: int| 0 <= j < next.len() implies digit_value(#[trigger] next[j])
                < base by {
                if j < i {
                    assert(next[j] == head[j]);
                }
            }
            lemma_digits_value_bounds(head, base as int);
            let exact = digits_value(head, base as int);
            assert(acc * base <= cap * base) by (nonlinear_arith)
                requires
                    acc <= cap,
                    base >= 0,
            ;
            assert(cap * base <= 0xffff_ffff_ffff * 36) by (nonlinear_arith)
                requires
                    cap <= 0xffff_ffff_ffff,
                    0 <= base <= 36,
            ;
            assert(exact >= cap ==> exact * base + d >= cap) by (nonlinear_arith)
                requires
                    exact >= 0,
                    base >= 2,
                    d >= 0,
                    cap >= 0,
            ;
            assert(acc * base + d >= acc) by (nonlinear_arith)
                requires
                    acc >= 0,
                    base >= 2,
                    d >= 0,
            ;
            assert(digits_value(next, base as int) == exact * base + d);
        }
        let wide: u64 = acc * (base as u64) + (d as u64);
        acc = if wide > cap {
            cap
        } else {
            wide
        };
        i += 1;
    }
    proof {
        assert(s@.take(n as int) =~= s@);
    }
    Some(acc)
}

/// Reads an unsigned literal, clamping its value to `cap`.
pub(crate) fn parse_unsigned(s: &[char], base: u32, cap: u64) -> (value: Option<u64>)
    requires
        2 <= base <= 36,
        cap <= 0xffff_ffff_ffff,
    ensures
        value == (match unsigned_value(s@, base as int) {
            Some(v) => Some(clamped(v, 0, cap as int) as u64),
            None => None,
        }),
{
    if s.len() > 0 && s[0] == '+' {
        parse_digits(slice_subrange(s, 1, s.len()), base, cap)
    } else {
        parse_digits(s, base, cap)
    }
}

/// Reads a signed decimal literal, clamping its value to `-cap..=cap`.
pub(crate) fn parse_signed(s: &[char], cap: u64) -> (value: Option<i64>)
    requires
        cap <= 0xffff_ffff_ffff,
    ensures
        value == (match signed_value(s@) {
            Some(v) => Some(clamped(v, -(cap as int), cap as int) as i64),
            None => None,
        }),
{
    if s.len() > 0 && s[0] == '-' {
        proof {
            lemma_digits_value_bounds(s@.drop_first(), 10);
        }
        match parse_digits(slice_subrange(s, 1, s.len()), 10, cap) {
            Some(m) => Some(-(m as i64)),
            None => None,
        }
    } else {
        proof {
            if s@.len() > 0 && s@[0] == '+' {
                lemma_digits_value_bounds(s@.drop_first(), 10);
            } else {
                lemma_digits_value_bounds(s@, 10);
            }
        }
        match parse_unsigned(s, 10, cap) {
            Some(m) => Some(m as i64),
            None => None,
        }
    }
}

} // verus!
