//! Number text: fixed-width lowercase hexadecimal, as `format!("{:08x}", x)`
//! writes it, and decimal, as `format!("{}", x)` writes it.
use vstd::prelude::*;
use vstd::string::{StrSliceExecFns, StringExecFns};
use vstd::utf8::is_ascii_chars;

verus! {

/// The lowercase hex digit of `d` (for `d < 16`).
pub open spec fn hex_digit(d: nat) -> char {
    if d < 10 {
        (('0' as nat) + d) as char
    } else {
        (('a' as nat) + d - 10) as char
    }
}

/// The last `n` hex digits of `x`, most significant first.
pub open spec fn hex_digits(x: nat, n: nat) -> Seq<char>
    decreases n,
{
    if n == 0 {
        Seq::empty()
    } else {
        hex_digits(x / 16, (n - 1) as nat).push(hex_digit(x % 16))
    }
}

/// `n` hex digits are `n` ASCII characters.
pub proof fn lemma_hex_digits_ascii(x: nat, n: nat)
    ensures
        hex_digits(x, n).len() == n,
        is_ascii_chars(hex_digits(x, n)),
    decreases n,
{
    if n > 0 {
        lemma_hex_digits_ascii(x / 16, (n - 1) as nat);
        let d = x % 16;
        assert(hex_digit(d) <= '\u{7f}');
    }
}

/// `x` as eight lowercase hex digits, zero-padded.
pub open spec fn hex8(x: u32) -> Seq<char> {
    hex_digits(x as nat, 8)
}

fn hex_digit_str(d: u32) -> (s: &'static str)
    requires
        d < 16,
    ensures
        s@ == seq![hex_digit(d as nat)],
{
    let digits = "0123456789abcdef";
    proof {
        reveal_strlit("0123456789abcdef");
    }
    assert(digits.is_ascii());
    let s = digits.substring_ascii(d as usize, (d + 1) as usize);
    assert(s@ =~= seq![hex_digit(d as nat)]);
    s
}

fn push_hex_digits(s: &mut String, x: u32, n: u32)
    ensures
        final(s)@ == old(s)@ + hex_digits(x as nat, n as nat),
    decreases n,
{
    if n > 0 {
        push_hex_digits(s, x / 16, n - 1);
        s.append(hex_digit_str(x % 16));
        assert(final(s)@ =~= old(s)@ + hex_digits(x as nat, n as nat));
    } else {
        assert(final(s)@ =~= old(s)@ + hex_digits(x as nat, n as nat));
    }
}

/// Appends `x` as eight lowercase hex digits.
pub fn push_hex8(s: &mut String, x: u32)
    ensures
        final(s)@ == old(s)@ + hex8(x),
{
    push_hex_digits(s, x, 8);
}

/// The decimal digits of `n`, most significant first, without leading zeros.
pub open spec fn decimal(n: nat) -> Seq<char>
    decreases n,
{
    if n < 10 {
        seq![hex_digit(n)]
    } else {
        decimal(n / 10).push(hex_digit(n % 10))
    }
}

/// `v` in decimal, with a leading `-` when negative.
pub open spec fn signed_decimal(v: int) -> Seq<char> {
    if v < 0 {
        seq!['-'] + decimal((-v) as nat)
    } else {
        decimal(v as nat)
    }
}

/// Appends `n` in decimal.
pub fn push_decimal(s: &mut String, n: u64)
    ensures
        final(s)@ == old(s)@ + decimal(n as nat),
    decreases n,
{
    if n >= 10 {
        push_decimal(s, n / 10);
    }
    s.append(hex_digit_str((n % 10) as u32));
    assert(final(s)@ =~= old(s)@ + decimal(n as nat));
}

/// Appends `v` in decimal, with a leading `-` when negative.
pub fn push_signed_decimal(s: &mut String, v: i64)
    ensures
        final(s)@ == old(s)@ + signed_decimal(v as int),
{
    if v < 0 {
        proof {
            reveal_strlit("-");
        }
        s.append("-");
        let m: u64 = if v == i64::MIN {
            0x8000_0000_0000_0000u64
        } else {
            (-v) as u64
        };
        push_decimal(s, m);
        assert(final(s)@ =~= old(s)@ + signed_decimal(v as int));
    } else {
        push_decimal(s, v as u64);
    }
}

} // verus!
