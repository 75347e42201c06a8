//! Byte counts as text in binary units.
//!
//! A count is shown the way a double-precision number shows it: first
//! rounded to the 53 significant bits that a double holds, then scaled to
//! the largest unit that leaves it below 1024, then rounded to one decimal.
//! Both roundings are to nearest, and of two equally near to the even one.
//! All of it is done in whole numbers.
use vstd::prelude::*;
use vstd::string::StringExecFns;
use crate::text::{decimal, digit_char, digit_text, push_decimal};

verus! {

/// `a / b` rounded to the nearest whole number, and to the even one of two
/// equally near.
pub open spec fn round_half_even(a: nat, b: nat) -> nat
    recommends
        b > 0,
{
    let q = a / b;
    let r = a % b;
    if 2 * r > b || (2 * r == b && q % 2 == 1) {
        q + 1
    } else {
        q
    }
}

/// The spacing of the doubles around `n`: 1 below 2^53, and twice as much
/// for each further bit.
pub open spec fn double_spacing(n: nat) -> nat {
    if n < 0x20_0000_0000_0000 {
        1
    } else if n < 0x40_0000_0000_0000 {
        2
    } else if n < 0x80_0000_0000_0000 {
        4
    } else if n < 0x100_0000_0000_0000 {
        8
    } else if n < 0x200_0000_0000_0000 {
        16
    } else if n < 0x400_0000_0000_0000 {
        32
    } else if n < 0x800_0000_0000_0000 {
        64
    } else if n < 0x1000_0000_0000_0000 {
        128
    } else if n < 0x2000_0000_0000_0000 {
        256
    } else if n < 0x4000_0000_0000_0000 {
        512
    } else if n < 0x8000_0000_0000_0000 {
        1024
    } else {
        2048
    }
}

/// The double nearest to a 64-bit count.
pub open spec fn as_double(n: nat) -> nat
    recommends
        n <= u64::MAX,
{
    round_half_even(n, double_spacing(n)) * double_spacing(n)
}

/// The number of bytes in the unit that a count is shown in: the largest
/// power of 1024 that leaves it below 1024.
pub open spec fn unit_size(v: nat) -> nat
    recommends
        v <= 0x1_0000_0000_0000_0000,
{
    if v < 0x400 {
        1
    } else if v < 0x10_0000 {
        0x400
    } else if v < 0x4000_0000 {
        0x10_0000
    } else if v < 0x100_0000_0000 {
        0x4000_0000
    } else if v < 0x4_0000_0000_0000 {
        0x100_0000_0000
    } else if v < 0x1000_0000_0000_0000 {
        0x4_0000_0000_0000
    } else {
        0x1000_0000_0000_0000
    }
}

/// The prefix of a unit of the given size.
pub open spec fn unit_prefix(size: nat) -> Seq<char> {
    if size == 1 {
        ""@
    } else if size == 0x400 {
        "Ki"@
    } else if size == 0x10_0000 {
        "Mi"@
    } else if size == 0x4000_0000 {
        "Gi"@
    } else if size == 0x100_0000_0000 {
        "Ti"@
    } else if size == 0x4_0000_0000_0000 {
        "Pi"@
    } else {
        "Ei"@
    }
}

/// A byte count as text: the number with one decimal, a space, and the
/// unit, as in `1.5 KiB` or `512.0 B`.
pub open spec fn bytes_text(bytes: u64) -> Seq<char> {
    let v = as_double(bytes as nat);
    let unit = unit_size(v);
    let tenths = round_half_even(v * 10, unit);
    decimal(tenths / 10) + "."@ + seq![digit_char(tenths % 10)] + " "@ + unit_prefix(unit) + "B"@
}

/// `a / b` rounded to nearest, and to even of two equally near.
fn rounded_quotient(a: u128, b: u128) -> (q: u128)
    requires
        b > 0,
        a / b < u128::MAX,
        b <= 0x1000_0000_0000_0000,
    ensures
        q == round_half_even(a as nat, b as nat),
{
    let q: u128 = a / b;
    let r: u128 = a % b;
    if 2 * r > b || (2 * r == b && q % 2 == 1) {
        q + 1
    } else {
        q
    }
}

/// The double nearest to `n`.
fn to_double(n: u64) -> (v: u128)
    ensures
        v == as_double(n as nat),
        v <= 0x1_0000_0000_0000_0000,
{
    let a: u128 = n as u128;
    if n < 0x20_0000_0000_0000 {
        rounded_quotient(a, 1) * 1
    } else if n < 0x40_0000_0000_0000 {
        rounded_quotient(a, 2) * 2
    } else if n < 0x80_0000_0000_0000 {
        rounded_quotient(a, 4) * 4
    } else if n < 0x100_0000_0000_0000 {
        rounded_quotient(a, 8) * 8
    } else if n < 0x200_0000_0000_0000 {
        rounded_quotient(a, 16) * 16
    } else if n < 0x400_0000_0000_0000 {
        rounded_quotient(a, 32) * 32
    } else if n < 0x800_0000_0000_0000 {
        rounded_quotient(a, 64) * 64
    } else if n < 0x1000_0000_0000_0000 {
        rounded_quotient(a, 128) * 128
    } else if n < 0x2000_0000_0000_0000 {
        rounded_quotient(a, 256) * 256
    } else if n < 0x4000_0000_0000_0000 {
        rounded_quotient(a, 512) * 512
    } else if n < 0x8000_0000_0000_0000 {
        rounded_quotient(a, 1024) * 1024
    } else {
        rounded_quotient(a, 2048) * 2048
    }
}

/// The tenths of units that `v` comes to, and the prefix of the unit.
fn in_units(v: u128) -> (shown: (u128, &'static str))
    requires
        v <= 0x1_0000_0000_0000_0000,
    ensures
        shown.0 == round_half_even((v * 10) as nat, unit_size(v as nat)),
        shown.1@ == unit_prefix(unit_size(v as nat)),
        shown.0 <= 10240,
{
    if v < 0x400 {
        (rounded_quotient(v * 10, 0x1), "")
    } else if v < 0x10_0000 {
        (rounded_quotient(v * 10, 0x400), "Ki")
    } else if v < 0x4000_0000 {
        (rounded_quotient(v * 10, 0x10_0000), "Mi")
    } else if v < 0x100_0000_0000 {
        (rounded_quotient(v * 10, 0x4000_0000), "Gi")
    } else if v < 0x4_0000_0000_0000 {
        (rounded_quotient(v * 10, 0x100_0000_0000), "Ti")
    } else if v < 0x1000_0000_0000_0000 {
        (rounded_quotient(v * 10, 0x4_0000_0000_0000), "Pi")
    } else {
        (rounded_quotient(v * 10, 0x1000_0000_0000_0000), "Ei")
    }
}

/// A byte count as text in binary units, with one decimal.
pub fn format_bytes(bytes: u64) -> (text: String)
    ensures
        text@ == bytes_text(bytes),
{
    let v: u128 = to_double(bytes);
    let (tenths, prefix) = in_units(v);
    let whole: u64 = (tenths / 10) as u64;
    let mut text = String::new();
    push_decimal(&mut text, whole);
    text.append(".");
    text.append(digit_text((tenths % 10) as u8));
    text.append(" ");
    text.append(prefix);
    text.append("B");
    proof {
        assert(text@ =~= bytes_text(bytes));
    }
    text
}

} // verus!
