//! Decimal and hexadecimal text of unsigned integers.

use vstd::prelude::*;
use crate::text::push_char;

verus! {

/// The digit character for `d` (0 to 15), lower case.
pub open spec fn digit_char(d: nat) -> char {
    if d < 10 {
        (48 + d) as char
    } else {
        (87 + d) as char
    }
}

/// The decimal text of `n`, without leading zeros (`0` is `"0"`).
pub open spec fn decimal(n: nat) -> Seq<char>
    decreases n,
{
    if n < 10 {
        seq![digit_char(n)]
    } else {
        decimal(n / 10).push(digit_char(n % 10))
    }
}

/// The lower-case hexadecimal text of `n` in exactly `width` digits (high digits dropped).
pub open spec fn hex_fixed(n: nat, width: nat) -> Seq<char>
    decreases width,
{
    if width == 0 {
        Seq::empty()
    } else {
        hex_fixed(n / 16, (width - 1) as nat).push(digit_char(n % 16))
    }
}

/// `16` to the power `w`.
pub open spec fn pow16(w: nat) -> nat
    decreases w,
{
    if w == 0 { 1 } else { 16 * pow16((w - 1) as nat) }
}

/// Fixed-width hexadecimal text tells apart numbers below `16^width`.
pub proof fn lemma_hex_fixed_injective(a: nat, b: nat, width: nat)
    requires
        a < pow16(width),
        b < pow16(width),
        hex_fixed(a, width) == hex_fixed(b, width),
    ensures
        a == b,
    decreases width,
{
    if width > 0 {
        let w1 = (width - 1) as nat;
        assert(hex_fixed(a, width).last() == digit_char(a % 16));
        assert(hex_fixed(b, width).last() == digit_char(b % 16));
        assert(a % 16 == b % 16) by {
            let x = a % 16;
            let y = b % 16;
            assert(digit_char(x) == digit_char(y));
            assert(digit_char(x) as u32 == if x < 10 { 48 + x } else { 87 + x });
            assert(digit_char(y) as u32 == if y < 10 { 48 + y } else { 87 + y });
        }
        assert(hex_fixed(a / 16, w1) == hex_fixed(a, width).drop_last());
        assert(hex_fixed(b / 16, w1) == hex_fixed(b, width).drop_last());
        assert(a / 16 < pow16(w1)) by (nonlinear_arith)
            requires a < 16 * pow16(w1);
        assert(b / 16 < pow16(w1)) by (nonlinear_arith)
            requires b < 16 * pow16(w1);
        lemma_hex_fixed_injective(a / 16, b / 16, w1);
        assert(a == 16 * (a / 16) + a % 16) by (nonlinear_arith);
        assert(b == 16 * (b / 16) + b % 16) by (nonlinear_arith);
    }
}

fn digit(d: u64) -> (c: char)
    requires
        d < 16,
    ensures
        c == digit_char(d as nat),
{
    if d < 10 {
        ((48 + d) as u8) as char
    } else {
        ((87 + d) as u8) as char
    }
}

/// Decimal text of `n`.
pub fn to_decimal(n: u64) -> (r: String)
    ensures
        r@ == decimal(n as nat),
    decreases n,
{
    if n < 10 {
        let mut r = String::new();
        push_char(&mut r, digit(n));
        r
    } else {
        let mut r = to_decimal(n / 10);
        push_char(&mut r, digit(n % 10));
        r
    }
}

/// Lower-case hexadecimal text of `n` in `width` digits.
pub fn to_hex_fixed(n: u64, width: u64) -> (r: String)
    ensures
        r@ == hex_fixed(n as nat, width as nat),
    decreases width,
{
    if width == 0 {
        String::new()
    } else {
        let mut r = to_hex_fixed(n / 16, width - 1);
        push_char(&mut r, digit(n % 16));
        r
    }
}

} // verus!
