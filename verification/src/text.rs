use vstd::prelude::*;
use vstd::string::StringExecFns;

verus! {

/// The one-character text of a decimal digit.
pub open spec fn spec_digit_str(d: int) -> Seq<char> {
    if d == 0 {
        "0"@
    } else if d == 1 {
        "1"@
    } else if d == 2 {
        "2"@
    } else if d == 3 {
        "3"@
    } else if d == 4 {
        "4"@
    } else if d == 5 {
        "5"@
    } else if d == 6 {
        "6"@
    } else if d == 7 {
        "7"@
    } else if d == 8 {
        "8"@
    } else if d == 9 {
        "9"@
    } else {
        Seq::empty()
    }
}

/// The one-character text of a hexadecimal digit, upper case.
pub open spec fn spec_hex_digit_str(d: int) -> Seq<char> {
    if d < 10 {
        spec_digit_str(d)
    } else if d == 10 {
        "A"@
    } else if d == 11 {
        "B"@
    } else if d == 12 {
        "C"@
    } else if d == 13 {
        "D"@
    } else if d == 14 {
        "E"@
    } else if d == 15 {
        "F"@
    } else {
        Seq::empty()
    }
}

/// The decimal digits of `n`, most significant first; empty for zero.
pub open spec fn spec_dec_digits(n: int) -> Seq<char>
    decreases n,
{
    if n <= 0 {
        Seq::empty()
    } else {
        spec_dec_digits(n / 10) + spec_digit_str(n % 10)
    }
}

/// The decimal text of `n`; zero renders as a single digit.
pub open spec fn spec_dec_text(n: int) -> Seq<char> {
    if n == 0 {
        "0"@
    } else {
        spec_dec_digits(n)
    }
}

/// The two-digit upper-case hexadecimal text of a byte.
pub open spec fn spec_hex8_text(v: u8) -> Seq<char> {
    spec_hex_digit_str(v as int / 16) + spec_hex_digit_str(v as int % 16)
}

/// Append the single decimal digit `d`.
fn append_digit(s: &mut String, d: u64)
    requires
        d < 10,
    ensures
        final(s)@ == old(s)@ + spec_digit_str(d as int),
{
    match d {
        0 => s.append("0"),
        1 => s.append("1"),
        2 => s.append("2"),
        3 => s.append("3"),
        4 => s.append("4"),
        5 => s.append("5"),
        6 => s.append("6"),
        7 => s.append("7"),
        8 => s.append("8"),
        _ => s.append("9"),
    }
}

/// Append the single upper-case hexadecimal digit `d`.
fn append_hex_digit(s: &mut String, d: u64)
    requires
        d < 16,
    ensures
        final(s)@ == old(s)@ + spec_hex_digit_str(d as int),
{
    match d {
        0 => s.append("0"),
        1 => s.append("1"),
        2 => s.append("2"),
        3 => s.append("3"),
        4 => s.append("4"),
        5 => s.append("5"),
        6 => s.append("6"),
        7 => s.append("7"),
        8 => s.append("8"),
        9 => s.append("9"),
        10 => s.append("A"),
        11 => s.append("B"),
        12 => s.append("C"),
        13 => s.append("D"),
        14 => s.append("E"),
        _ => s.append("F"),
    }
}

/// Append the decimal digits of `n`, most significant first; nothing for
/// zero.
pub fn append_dec_digits(s: &mut String, n: u64)
    ensures
        final(s)@ == old(s)@ + spec_dec_digits(n as int),
    decreases n,
{
    if n > 0 {
        append_dec_digits(s, n / 10);
        append_digit(s, n % 10);
    }
}

/// Append the decimal text of `n`.
pub fn append_dec(s: &mut String, n: u64)
    ensures
        final(s)@ == old(s)@ + spec_dec_text(n as int),
{
    if n == 0 {
        s.append("0");
    } else {
        append_dec_digits(s, n);
    }
}

/// The decimal text of `n`.
pub fn dec_u64(n: u64) -> (r: String)
    ensures
        r@ == spec_dec_text(n as int),
{
    let mut s = String::new();
    append_dec(&mut s, n);
    proof {
        assert(s@ =~= spec_dec_text(n as int));
    }
    s
}

/// The two-digit upper-case hexadecimal text of `v`.
pub fn hex8(v: u8) -> (r: String)
    ensures
        r@ == spec_hex8_text(v),
{
    let mut s = String::new();
    append_hex_digit(&mut s, (v / 16) as u64);
    append_hex_digit(&mut s, (v % 16) as u64);
    proof {
        assert(s@ =~= spec_hex8_text(v));
    }
    s
}

} // verus!
