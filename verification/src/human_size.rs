//! Human-readable size labels: bytes below 1 KB, one decimal place up to
//! 1 GB, two decimal places above. The fractional digit is rounded to
//! nearest with ties going to the even digit, computed exactly in integers.

use vstd::arithmetic::div_mod::lemma_div_is_ordered;
use vstd::prelude::*;
use vstd::string::StringExecFns;

verus! {

/// The decimal digit `d` as a character.
pub open spec fn digit_char(d: int) -> char {
    if d == 0 {
        '0'
    } else if d == 1 {
        '1'
    } else if d == 2 {
        '2'
    } else if d == 3 {
        '3'
    } else if d == 4 {
        '4'
    } else if d == 5 {
        '5'
    } else if d == 6 {
        '6'
    } else if d == 7 {
        '7'
    } else if d == 8 {
        '8'
    } else {
        '9'
    }
}

/// The decimal digits of `n`, most significant first.
pub open spec fn spec_decimal(n: nat) -> Seq<char>
    decreases n,
{
    if n < 10 {
        seq![digit_char(n as int)]
    } else {
        spec_decimal(n / 10).push(digit_char((n % 10) as int))
    }
}

/// `num / den` rounded to the nearest integer, ties to the even neighbour.
pub open spec fn spec_round_half_even(num: int, den: int) -> int {
    let q = num / den;
    let r = num % den;
    if 2 * r > den {
        q + 1
    } else if 2 * r < den {
        q
    } else if q % 2 == 0 {
        q
    } else {
        q + 1
    }
}

/// A quantity in tenths, written with one decimal place.
pub open spec fn spec_one_decimal(t: int) -> Seq<char> {
    spec_decimal((t / 10) as nat) + "."@ + seq![digit_char(t % 10)]
}

/// A quantity in hundredths, written with two decimal places.
pub open spec fn spec_two_decimal(h: int) -> Seq<char> {
    spec_decimal((h / 100) as nat) + "."@ + seq![digit_char((h / 10) % 10), digit_char(h % 10)]
}

/// The label for a byte count: a whole number of bytes, or a rounded
/// quantity in the largest unit that stays at least 1.
pub open spec fn spec_format_size(bytes: u64) -> Seq<char> {
    if bytes < 1024 {
        spec_decimal(bytes as nat) + " B"@
    } else if bytes < 1048576 {
        spec_one_decimal(spec_round_half_even(bytes * 10, 1024)) + " KB"@
    } else if bytes < 1073741824 {
        spec_one_decimal(spec_round_half_even(bytes * 10, 1048576)) + " MB"@
    } else if bytes < 1099511627776 {
        spec_two_decimal(spec_round_half_even(bytes * 100, 1073741824)) + " GB"@
    } else {
        spec_two_decimal(spec_round_half_even(bytes * 100, 1099511627776)) + " TB"@
    }
}

/// Append the single digit `d`.
fn push_digit(out: &mut String, d: u64)
    requires
        d < 10,
    ensures
        final(out)@ == old(out)@ + seq![digit_char(d as int)],
{
    let s: &str = if d == 0 {
        "0"
    } else if d == 1 {
        "1"
    } else if d == 2 {
        "2"
    } else if d == 3 {
        "3"
    } else if d == 4 {
        "4"
    } else if d == 5 {
        "5"
    } else if d == 6 {
        "6"
    } else if d == 7 {
        "7"
    } else if d == 8 {
        "8"
    } else {
        "9"
    };
    proof {
        reveal_strlit("0");
        reveal_strlit("1");
        reveal_strlit("2");
        reveal_strlit("3");
        reveal_strlit("4");
        reveal_strlit("5");
        reveal_strlit("6");
        reveal_strlit("7");
        reveal_strlit("8");
        reveal_strlit("9");
        assert(s@ =~= seq![digit_char(d as int)]);
    }
    out.append(s);
}

/// Append the decimal digits of `n`.
fn push_decimal(out: &mut String, n: u64)
    ensures
        final(out)@ == old(out)@ + spec_decimal(n as nat),
    decreases n,
{
    if n < 10 {
        push_digit(out, n);
    } else {
        push_decimal(out, n / 10);
        push_digit(out, n % 10);
        assert(final(out)@ =~= old(out)@ + spec_decimal(n as nat));
    }
}

/// `num / den` rounded to nearest, ties to even, without overflow.
fn round_half_even(num: u128, den: u128) -> (r: u128)
    requires
        den > 1,
    ensures
        r as int == spec_round_half_even(num as int, den as int),
        r as int <= num as int / den as int + 1,
{
    let q = num / den;
    let rm = num % den;
    proof {
        vstd::arithmetic::div_mod::lemma_div_is_ordered_by_denominator(num as int, 2, den as int);
    }
    if rm > den - rm {
        q + 1
    } else if rm < den - rm {
        q
    } else if q % 2 == 0 {
        q
    } else {
        q + 1
    }
}

/// Render a byte count in the largest fitting unit.
pub fn format_size(bytes: u64) -> (r: String)
    ensures
        r@ == spec_format_size(bytes),
{
    let mut out = String::new();
    if bytes < 1024 {
        push_decimal(&mut out, bytes);
        out.append(" B");
        proof {
            assert(out@ =~= spec_format_size(bytes));
        }
    } else if bytes < 1048576 {
        let t128 = round_half_even((bytes as u128) * 10, 1024);
        proof {
            lemma_div_is_ordered((bytes as u128 * 10) as int, 10485760, 1024);
        }
        let t = t128 as u64;
        push_decimal(&mut out, t / 10);
        out.append(".");
        push_digit(&mut out, t % 10);
        out.append(" KB");
        proof {
            assert(out@ =~= spec_format_size(bytes));
        }
    } else if bytes < 1073741824 {
        let t128 = round_half_even((bytes as u128) * 10, 1048576);
        proof {
            lemma_div_is_ordered((bytes as u128 * 10) as int, 10737418240, 1048576);
        }
        let t = t128 as u64;
        push_decimal(&mut out, t / 10);
        out.append(".");
        push_digit(&mut out, t % 10);
        out.append(" MB");
        proof {
            assert(out@ =~= spec_format_size(bytes));
        }
    } else if bytes < 1099511627776 {
        let h128 = round_half_even((bytes as u128) * 100, 1073741824);
        proof {
            lemma_div_is_ordered((bytes as u128 * 100) as int, 109951162777600, 1073741824);
        }
        let h = h128 as u64;
        push_decimal(&mut out, h / 100);
        out.append(".");
        push_digit(&mut out, (h / 10) % 10);
        push_digit(&mut out, h % 10);
        out.append(" GB");
        proof {
            assert(out@ =~= spec_format_size(bytes));
        }
    } else {
        let h128 = round_half_even((bytes as u128) * 100, 1099511627776);
        proof {
            lemma_div_is_ordered(
                (bytes as u128 * 100) as int,
                0xffffffffffffffffu64 as int * 100,
                1099511627776,
            );
            assert((0xffffffffffffffffu64 as int * 100) / 1099511627776 + 1 < 0x100000000int);
        }
        let h = h128 as u64;
        push_decimal(&mut out, h / 100);
        out.append(".");
        push_digit(&mut out, (h / 10) % 10);
        push_digit(&mut out, h % 10);
        out.append(" TB");
        proof {
            assert(out@ =~= spec_format_size(bytes));
        }
    }
    out
}

} // verus!
