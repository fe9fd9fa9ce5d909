//! Rendering of byte and bit rates as human-readable strings.
//!
//! Rates are scaled by powers of 1024: below the first threshold the raw
//! value is printed whole; above it the scaled value is printed with two
//! decimal places, rounded to nearest with ties to even.  The rounding
//! is exact integer arithmetic; for values below 2^53 it agrees digit
//! for digit with what a 64-bit binary floating-point formatter prints
//! for these power-of-two divisions, while for larger values it stays
//! exact where a float conversion would already have rounded the value
//! itself.

use vstd::prelude::*;
use vstd::string::StringExecFns;

verus! {

pub const KIB: u64 = 1024;
pub const MIB: u64 = 1048576;
pub const GIB: u64 = 1073741824;

/// The decimal digit character for `d` (`0 <= d <= 9`).
pub open spec fn digit_char(d: int) -> char {
    if d == 0 {
        '0'
    } else if d == 1 {
        '1'
    } else if d == 2 {
        '2'
    } else if d == 3 {
        '3'
    } else if d == 4 {
        '4'
    } else if d == 5 {
        '5'
    } else if d == 6 {
        '6'
    } else if d == 7 {
        '7'
    } else if d == 8 {
        '8'
    } else {
        '9'
    }
}

/// The decimal digit string of `n`, without leading zeroes (a single
/// `'0'` for zero).
pub open spec fn spec_dec_digits(n: nat) -> Seq<char>
    decreases n,
{
    if n < 10 {
        seq![digit_char(n as int)]
    } else {
        spec_dec_digits(n / 10).push(digit_char((n % 10) as int))
    }
}

/// `num / den` rounded to the nearest integer, ties to even.
pub open spec fn spec_round_nearest_even(num: nat, den: nat) -> nat
    recommends
        den > 0,
{
    let q = num / den;
    let r = num % den;
    if 2 * r < den {
        q
    } else if 2 * r > den {
        q + 1
    } else if q % 2 == 0 {
        q
    } else {
        q + 1
    }
}

/// `v / den` scaled to hundredths and rounded to the nearest hundredth,
/// ties to even.
pub open spec fn spec_scaled_hundredths(v: nat, den: nat) -> nat
    recommends
        den > 0,
{
    spec_round_nearest_even(100 * v, den)
}

/// `v / den` rendered with exactly two decimal places.
pub open spec fn spec_fixed2(v: nat, den: nat) -> Seq<char>
    recommends
        den > 0,
{
    let s = spec_scaled_hundredths(v, den);
    spec_dec_digits(s / 100) + seq!['.', digit_char(((s % 100) / 10) as int), digit_char(
        (s % 10) as int,
    )]
}

/// The rendering of `bytes` bytes per second: whole bytes below 1024,
/// otherwise two decimal places over the matching power-of-1024 divisor.
pub open spec fn spec_human_bytes_per_sec(bytes: u64) -> Seq<char> {
    let v = bytes as nat;
    if v < KIB {
        spec_dec_digits(v) + " B/s"@
    } else if v < MIB {
        spec_fixed2(v, KIB as nat) + " KB/s"@
    } else if v < GIB {
        spec_fixed2(v, MIB as nat) + " MB/s"@
    } else {
        spec_fixed2(v, GIB as nat) + " GB/s"@
    }
}

/// The rendering of `bytes` bytes per second as bits per second: the
/// byte count times eight, pushed through the same threshold ladder.
pub open spec fn spec_human_bits_per_sec(bytes: u64) -> Seq<char> {
    let v = (8 * bytes) as nat;
    if v < KIB {
        spec_dec_digits(v) + " bps"@
    } else if v < MIB {
        spec_fixed2(v, KIB as nat) + " Kbps"@
    } else if v < GIB {
        spec_fixed2(v, MIB as nat) + " Mbps"@
    } else {
        spec_fixed2(v, GIB as nat) + " Gbps"@
    }
}

/// The one-character string of a decimal digit.
fn digit_str(d: u64) -> (s: &'static str)
    requires
        d < 10,
    ensures
        s@ == seq![digit_char(d as int)],
{
    let s: &'static str = if d == 0 {
        "0"
    } else if d == 1 {
        "1"
    } else if d == 2 {
        "2"
    } else if d == 3 {
        "3"
    } else if d == 4 {
        "4"
    } else if d == 5 {
        "5"
    } else if d == 6 {
        "6"
    } else if d == 7 {
        "7"
    } else if d == 8 {
        "8"
    } else {
        "9"
    };
    proof {
        reveal_strlit("0");
        reveal_strlit("1");
        reveal_strlit("2");
        reveal_strlit("3");
        reveal_strlit("4");
        reveal_strlit("5");
        reveal_strlit("6");
        reveal_strlit("7");
        reveal_strlit("8");
        reveal_strlit("9");
        assert(s@ =~= seq![digit_char(d as int)]);
    }
    s
}

/// Appends the decimal digits of `n` to `s`.
fn push_dec_digits(s: &mut String, n: u64)
    ensures
        final(s)@ == old(s)@ + spec_dec_digits(n as nat),
    decreases n,
{
    if n < 10 {
        s.append(digit_str(n));
        proof {
            assert(final(s)@ =~= old(s)@ + spec_dec_digits(n as nat));
        }
    } else {
        push_dec_digits(s, n / 10);
        s.append(digit_str(n % 10));
        proof {
            assert(final(s)@ =~= old(s)@ + spec_dec_digits(n as nat));
        }
    }
}

/// The decimal digit string of `n`.
fn u64_to_dec_string(n: u64) -> (s: String)
    ensures
        s@ == spec_dec_digits(n as nat),
{
    let mut s = String::new();
    push_dec_digits(&mut s, n);
    proof {
        assert(s@ =~= spec_dec_digits(n as nat));
    }
    s
}

/// `v / den` scaled to hundredths, rounded to nearest with ties to even.
fn scaled_hundredths(v: u128, den: u64) -> (r: u64)
    requires
        den > 0,
        100 * v <= u128::MAX,
        100 * v / (den as int) < u64::MAX,
    ensures
        r == spec_scaled_hundredths(v as nat, den as nat),
{
    let num: u128 = v * 100;
    let d: u128 = den as u128;
    let q: u128 = num / d;
    let rem: u128 = num % d;
    let q64: u64 = q as u64;
    if 2 * rem < d {
        q64
    } else if 2 * rem > d {
        q64 + 1
    } else if q64 % 2 == 0 {
        q64
    } else {
        q64 + 1
    }
}

/// Appends `v / den` with exactly two decimal places to `s`.
fn push_fixed2(s: &mut String, v: u128, den: u64)
    requires
        den > 0,
        100 * v <= u128::MAX,
        100 * v / (den as int) < u64::MAX,
    ensures
        final(s)@ == old(s)@ + spec_fixed2(v as nat, den as nat),
{
    let scaled = scaled_hundredths(v, den);
    let whole = scaled / 100;
    let frac = scaled % 100;
    push_dec_digits(s, whole);
    s.append(".");
    s.append(digit_str(frac / 10));
    s.append(digit_str(frac % 10));
    proof {
        reveal_strlit(".");
        assert(final(s)@ =~= old(s)@ + spec_fixed2(v as nat, den as nat));
    }
}

/// Renders a byte rate as `"N B/s"`, `"N.NN KB/s"`, `"N.NN MB/s"` or
/// `"N.NN GB/s"`, thresholding at each power of 1024.
pub fn human_bytes_per_sec(bytes: u64) -> (s: String)
    ensures
        s@ == spec_human_bytes_per_sec(bytes),
{
    if bytes < KIB {
        let mut s = u64_to_dec_string(bytes);
        s.append(" B/s");
        proof {
            assert(s@ =~= spec_human_bytes_per_sec(bytes));
        }
        s
    } else if bytes < MIB {
        let mut s = String::new();
        push_fixed2(&mut s, bytes as u128, KIB);
        s.append(" KB/s");
        proof {
            assert(s@ =~= spec_human_bytes_per_sec(bytes));
        }
        s
    } else if bytes < GIB {
        let mut s = String::new();
        push_fixed2(&mut s, bytes as u128, MIB);
        s.append(" MB/s");
        proof {
            assert(s@ =~= spec_human_bytes_per_sec(bytes));
        }
        s
    } else {
        let mut s = String::new();
        push_fixed2(&mut s, bytes as u128, GIB);
        s.append(" GB/s");
        proof {
            assert(s@ =~= spec_human_bytes_per_sec(bytes));
        }
        s
    }
}

/// Renders a byte rate as bits per second: eight bits to the byte, then
/// the same threshold ladder with `"bps"` unit suffixes.
pub fn human_bits_per_sec(bytes: u64) -> (s: String)
    ensures
        s@ == spec_human_bits_per_sec(bytes),
{
    let bits: u128 = (bytes as u128) * 8;
    if bits < KIB as u128 {
        let mut s = u64_to_dec_string(bits as u64);
        s.append(" bps");
        proof {
            assert(s@ =~= spec_human_bits_per_sec(bytes));
        }
        s
    } else if bits < MIB as u128 {
        let mut s = String::new();
        push_fixed2(&mut s, bits, KIB);
        s.append(" Kbps");
        proof {
            assert(s@ =~= spec_human_bits_per_sec(bytes));
        }
        s
    } else if bits < GIB as u128 {
        let mut s = String::new();
        push_fixed2(&mut s, bits, MIB);
        s.append(" Mbps");
        proof {
            assert(s@ =~= spec_human_bits_per_sec(bytes));
        }
        s
    } else {
        let mut s = String::new();
        push_fixed2(&mut s, bits, GIB);
        s.append(" Gbps");
        proof {
            assert(s@ =~= spec_human_bits_per_sec(bytes));
        }
        s
    }
}

} // verus!
