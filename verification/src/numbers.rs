//! Rendering attempt counters for the mining log: thousands separated by
//! commas, rounded down to whole thousands.

use vstd::prelude::*;
use crate::hash::spec_hex_digit;

verus! {

/// The decimal digit character for a value below ten.
pub open spec fn spec_dec_digit(n: u64) -> char {
    spec_hex_digit((n % 10) as u8)
}

/// The decimal digits of a number, most significant first.
pub open spec fn spec_decimal(n: u64) -> Seq<char>
    decreases n,
{
    if n < 10 {
        seq![spec_dec_digit(n)]
    } else {
        spec_decimal(n / 10).push(spec_dec_digit(n % 10))
    }
}

/// Three decimal digits, zero-padded, for a value below a thousand.
pub open spec fn spec_pad3(n: u64) -> Seq<char> {
    seq![spec_dec_digit(n / 100), spec_dec_digit((n / 10) % 10), spec_dec_digit(n % 10)]
}

/// A number rounded down to thousands, commas between groups: the form
/// the mining log counts attempts in.
pub open spec fn spec_format_number(n: u64) -> Seq<char> {
    if n < 1000000 {
        spec_decimal(n / 1000) + seq![',', '0', '0', '0']
    } else {
        spec_decimal(n / 1000000) + seq![','] + spec_pad3((n % 1000000) / 1000)
            + seq![',', '0', '0', '0']
    }
}

fn dec_digit(n: u64) -> (r: char)
    ensures
        r == spec_dec_digit(n),
{
    let d = (n % 10) as u8;
    if d == 0 { '0' } else if d == 1 { '1' } else if d == 2 { '2' } else if d == 3 { '3' }
    else if d == 4 { '4' } else if d == 5 { '5' } else if d == 6 { '6' } else if d == 7 { '7' }
    else if d == 8 { '8' } else { '9' }
}

fn decimal_chars(n: u64) -> (r: Vec<char>)
    ensures
        r@ == spec_decimal(n),
    decreases n,
{
    if n < 10 {
        let mut out: Vec<char> = Vec::new();
        out.push(dec_digit(n));
        assert(out@ =~= spec_decimal(n));
        out
    } else {
        let mut out = decimal_chars(n / 10);
        out.push(dec_digit(n % 10));
        out
    }
}

/// Render a count of attempts in whole thousands.
pub fn format_number(n: u64) -> (r: Vec<char>)
    ensures
        r@ == spec_format_number(n),
{
    if n < 1000000 {
        let mut out = decimal_chars(n / 1000);
        out.push(',');
        out.push('0');
        out.push('0');
        out.push('0');
        assert(out@ =~= spec_format_number(n));
        out
    } else {
        let mut out = decimal_chars(n / 1000000);
        out.push(',');
        let m = (n % 1000000) / 1000;
        out.push(dec_digit(m / 100));
        out.push(dec_digit((m / 10) % 10));
        out.push(dec_digit(m % 10));
        out.push(',');
        out.push('0');
        out.push('0');
        out.push('0');
        assert(out@ =~= spec_format_number(n));
        out
    }
}

} // verus!
