//! Integers kept within the range of a type.
use vstd::prelude::*;

verus! {

/// `v`, or the bound of the range `low..=high` that it passes.
pub open spec fn clip(v: int, low: int, high: int) -> int {
    if v < low {
        low
    } else if v > high {
        high
    } else {
        v
    }
}

pub open spec fn clip64(v: int) -> i64 {
    clip(v, i64::MIN as int, i64::MAX as int) as i64
}

pub open spec fn clip32(v: int) -> i32 {
    clip(v, i32::MIN as int, i32::MAX as int) as i32
}

pub open spec fn max_int(a: int, b: int) -> int {
    if a < b {
        b
    } else {
        a
    }
}

fn fit64(v: i128) -> (r: i64)
    ensures
        r == clip64(v as int),
{
    if v < i64::MIN as i128 {
        i64::MIN
    } else if v > i64::MAX as i128 {
        i64::MAX
    } else {
        v as i64
    }
}

pub fn saturating_add(a: i64, b: i64) -> (r: i64)
    ensures
        r == clip64(a + b),
{
    fit64(a as i128 + b as i128)
}

pub fn saturating_sub(a: i64, b: i64) -> (r: i64)
    ensures
        r == clip64(a - b),
{
    fit64(a as i128 - b as i128)
}

pub fn saturating_mul(a: i64, b: i64) -> (r: i64)
    ensures
        r == clip64(a * b),
{
    proof {
        assert(-0x8000_0000_0000_0000 * 0x8000_0000_0000_0000 <= a * b <= 0x8000_0000_0000_0000
            * 0x8000_0000_0000_0000) by (nonlinear_arith)
            requires
                -0x8000_0000_0000_0000 <= a <= 0x8000_0000_0000_0000,
                -0x8000_0000_0000_0000 <= b <= 0x8000_0000_0000_0000,
        ;
    }
    fit64(a as i128 * b as i128)
}

/// A 64-bit integer within the range of 32 bits.
pub fn to_i32_saturated(value: i64) -> (r: i32)
    ensures
        r == clip32(value as int),
{
    if value < i32::MIN as i64 {
        i32::MIN
    } else if value > i32::MAX as i64 {
        i32::MAX
    } else {
        value as i32
    }
}

pub fn saturating_add32(a: i32, b: i32) -> (r: i32)
    ensures
        r == clip32(a + b),
{
    to_i32_saturated(a as i64 + b as i64)
}

pub fn saturating_mul32(a: i32, b: i32) -> (r: i32)
    ensures
        r == clip32(a * b),
{
    proof {
        assert(-0x8000_0000 * 0x8000_0000 <= a * b <= 0x8000_0000 * 0x8000_0000)
            by (nonlinear_arith)
            requires
                -0x8000_0000 <= a <= 0x8000_0000,
                -0x8000_0000 <= b <= 0x8000_0000,
        ;
    }
    to_i32_saturated(a as i64 * b as i64)
}

pub fn max64(a: i64, b: i64) -> (r: i64)
    ensures
        r == max_int(a as int, b as int),
{
    if a < b {
        b
    } else {
        a
    }
}

pub fn max32(a: i32, b: i32) -> (r: i32)
    ensures
        r == max_int(a as int, b as int),
{
    if a < b {
        b
    } else {
        a
    }
}

pub fn max16(a: i16, b: i16) -> (r: i16)
    ensures
        r == max_int(a as int, b as int),
{
    if a < b {
        b
    } else {
        a
    }
}

} // verus!
