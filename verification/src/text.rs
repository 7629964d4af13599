//! Decimal and hexadecimal renderings of integers, as the assembler expects them.
use vstd::prelude::*;

verus! {

/// The one-character rendering of a decimal digit.
pub open spec fn digit_chars(d: nat) -> Seq<char> {
    if d == 0 { "0"@ }
    else if d == 1 { "1"@ }
    else if d == 2 { "2"@ }
    else if d == 3 { "3"@ }
    else if d == 4 { "4"@ }
    else if d == 5 { "5"@ }
    else if d == 6 { "6"@ }
    else if d == 7 { "7"@ }
    else if d == 8 { "8"@ }
    else { "9"@ }
}

/// The one-character rendering of a lower-case hexadecimal digit.
pub open spec fn hex_digit_chars(d: nat) -> Seq<char> {
    if d < 10 { digit_chars(d) }
    else if d == 10 { "a"@ }
    else if d == 11 { "b"@ }
    else if d == 12 { "c"@ }
    else if d == 13 { "d"@ }
    else if d == 14 { "e"@ }
    else { "f"@ }
}

/// Decimal rendering of a natural number, without leading zeros.
pub open spec fn dec_nat(n: nat) -> Seq<char>
    decreases n,
{
    if n < 10 {
        digit_chars(n)
    } else {
        dec_nat(n / 10) + digit_chars(n % 10)
    }
}

/// Decimal rendering of an integer, with a leading `-` when it is negative.
pub open spec fn dec_int(i: int) -> Seq<char> {
    if i < 0 {
        "-"@ + dec_nat((-i) as nat)
    } else {
        dec_nat(i as nat)
    }
}

/// Lower-case hexadecimal rendering of a natural number, without leading zeros.
pub open spec fn hex_nat(n: nat) -> Seq<char>
    decreases n,
{
    if n < 16 {
        hex_digit_chars(n)
    } else {
        hex_nat(n / 16) + hex_digit_chars(n % 16)
    }
}

/// The last `width` hexadecimal digits of `n`, most significant first.
pub open spec fn hex_digits(n: nat, width: nat) -> Seq<char>
    decreases width,
{
    if width == 0 {
        Seq::empty()
    } else {
        hex_digits(n / 16, (width - 1) as nat) + hex_digit_chars(n % 16)
    }
}

fn digit_str(d: u64) -> (s: &'static str)
    requires
        d < 16,
    ensures
        s@ == hex_digit_chars(d as nat),
{
    if d == 0 { "0" }
    else if d == 1 { "1" }
    else if d == 2 { "2" }
    else if d == 3 { "3" }
    else if d == 4 { "4" }
    else if d == 5 { "5" }
    else if d == 6 { "6" }
    else if d == 7 { "7" }
    else if d == 8 { "8" }
    else if d == 9 { "9" }
    else if d == 10 { "a" }
    else if d == 11 { "b" }
    else if d == 12 { "c" }
    else if d == 13 { "d" }
    else if d == 14 { "e" }
    else { "f" }
}

/// Appends the decimal rendering of `n`.
pub fn push_dec_u64(s: &mut String, n: u64)
    ensures
        final(s)@ == old(s)@ + dec_nat(n as nat),
    decreases n,
{
    if n >= 10 {
        push_dec_u64(s, n / 10);
    }
    s.append(digit_str(n % 10));
    proof {
        assert(hex_digit_chars((n % 10) as nat) == digit_chars((n % 10) as nat));
        if n >= 10 {
            assert(old(s)@ + dec_nat((n / 10) as nat) + digit_chars((n % 10) as nat)
                =~= old(s)@ + (dec_nat((n / 10) as nat) + digit_chars((n % 10) as nat)));
        }
    }
}

/// Appends the decimal rendering of `i`.
pub fn push_dec_i64(s: &mut String, i: i64)
    ensures
        final(s)@ == old(s)@ + dec_int(i as int),
{
    if i < 0 {
        s.append("-");
        let a: u64 = if i == i64::MIN { 9223372036854775808u64 } else { (-i) as u64 };
        push_dec_u64(s, a);
        proof {
            assert(old(s)@ + "-"@ + dec_nat(a as nat) =~= old(s)@ + ("-"@ + dec_nat(a as nat)));
        }
    } else {
        push_dec_u64(s, i as u64);
    }
}

/// Appends the hexadecimal rendering of `n`, without leading zeros.
pub fn push_hex_nat(s: &mut String, n: u64)
    ensures
        final(s)@ == old(s)@ + hex_nat(n as nat),
    decreases n,
{
    if n >= 16 {
        push_hex_nat(s, n / 16);
    }
    s.append(digit_str(n % 16));
    proof {
        if n >= 16 {
            assert(old(s)@ + hex_nat((n / 16) as nat) + hex_digit_chars((n % 16) as nat)
                =~= old(s)@ + (hex_nat((n / 16) as nat) + hex_digit_chars((n % 16) as nat)));
        }
    }
}

/// Appends the last `width` hexadecimal digits of `n`.
pub fn push_hex(s: &mut String, n: u64, width: u64)
    ensures
        final(s)@ == old(s)@ + hex_digits(n as nat, width as nat),
    decreases width,
{
    if width > 0 {
        push_hex(s, n / 16, width - 1);
        s.append(digit_str(n % 16));
        proof {
            assert(old(s)@ + hex_digits((n / 16) as nat, (width - 1) as nat) + hex_digit_chars((n % 16) as nat)
                =~= old(s)@ + (hex_digits((n / 16) as nat, (width - 1) as nat) + hex_digit_chars((n % 16) as nat)));
        }
    } else {
        assert(old(s)@ + hex_digits(n as nat, 0) =~= old(s)@);
    }
}

/// The decimal rendering of `n` as a fresh string.
pub fn u64_to_dec(n: u64) -> (s: String)
    ensures
        s@ == dec_nat(n as nat),
{
    let mut s = String::new();
    push_dec_u64(&mut s, n);
    assert(Seq::<char>::empty() + dec_nat(n as nat) =~= dec_nat(n as nat));
    s
}

/// The decimal rendering of `i` as a fresh string.
pub fn i64_to_dec(i: i64) -> (s: String)
    ensures
        s@ == dec_int(i as int),
{
    let mut s = String::new();
    push_dec_i64(&mut s, i);
    assert(Seq::<char>::empty() + dec_int(i as int) =~= dec_int(i as int));
    s
}

} // verus!
