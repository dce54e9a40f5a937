//! Saturating and bounded arithmetic.
use vstd::prelude::*;

verus! {

/// A mathematical value clipped to the largest `u64`.
pub open spec fn sat64(n: int) -> int {
    if n > u64::MAX {
        u64::MAX as int
    } else {
        n
    }
}

/// A mathematical value clipped to the largest `usize`.
pub open spec fn sat_size(n: int) -> int {
    if n > usize::MAX {
        usize::MAX as int
    } else {
        n
    }
}

/// A mathematical difference clipped at zero.
pub open spec fn monus(a: int, b: int) -> int {
    if a < b {
        0
    } else {
        a - b
    }
}

pub open spec fn spec_max(a: int, b: int) -> int {
    if a < b {
        b
    } else {
        a
    }
}

pub open spec fn spec_min(a: int, b: int) -> int {
    if a < b {
        a
    } else {
        b
    }
}

pub fn saturating_mul_size(a: usize, b: usize) -> (r: usize)
    ensures
        r == sat_size(a * b),
{
    match a.checked_mul(b) {
        Some(v) => v,
        None => usize::MAX,
    }
}

pub fn saturating_mul_64(a: u64, b: u64) -> (r: u64)
    ensures
        r == sat64(a * b),
{
    match a.checked_mul(b) {
        Some(v) => v,
        None => u64::MAX,
    }
}

pub fn max_size(a: usize, b: usize) -> (r: usize)
    ensures
        r == spec_max(a as int, b as int),
{
    if a < b {
        b
    } else {
        a
    }
}

pub fn min_size(a: usize, b: usize) -> (r: usize)
    ensures
        r == spec_min(a as int, b as int),
{
    if a < b {
        a
    } else {
        b
    }
}

pub fn max_64(a: u64, b: u64) -> (r: u64)
    ensures
        r == spec_max(a as int, b as int),
{
    if a < b {
        b
    } else {
        a
    }
}

pub fn min_64(a: u64, b: u64) -> (r: u64)
    ensures
        r == spec_min(a as int, b as int),
{
    if a < b {
        a
    } else {
        b
    }
}

} // verus!
