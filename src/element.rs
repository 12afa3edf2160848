use vstd::prelude::*;

verus! {

/// A matrix entry type: a zero and the step `acc + x * y` of an inner product.
///
/// The multiply routines accumulate `x * y` terms one at a time, in a fixed order,
/// so the exact result of a product is a function of these two operations.
pub trait Element: Copy + Sized {
    spec fn spec_zero() -> Self;

    spec fn spec_accumulate(acc: Self, x: Self, y: Self) -> Self;

    fn zero() -> (r: Self)
        ensures
            r == Self::spec_zero(),
    ;

    /// `acc + x * y`, in the arithmetic of the type.
    fn accumulate(acc: Self, x: Self, y: Self) -> (r: Self)
        ensures
            r == Self::spec_accumulate(acc, x, y),
    ;
}

/// Integers modulo `2^64`.
impl Element for u64 {
    open spec fn spec_zero() -> u64 {
        0
    }

    open spec fn spec_accumulate(acc: u64, x: u64, y: u64) -> u64 {
        vstd::wrapping::u64_specs::wrapping_add(acc, vstd::wrapping::u64_specs::wrapping_mul(x, y))
    }

    fn zero() -> (r: u64) {
        0
    }

    fn accumulate(acc: u64, x: u64, y: u64) -> (r: u64) {
        acc.wrapping_add(x.wrapping_mul(y))
    }
}

/// Signed integers modulo `2^64`, two's complement.
impl Element for i64 {
    open spec fn spec_zero() -> i64 {
        0
    }

    open spec fn spec_accumulate(acc: i64, x: i64, y: i64) -> i64 {
        vstd::wrapping::i64_specs::wrapping_add(acc, vstd::wrapping::i64_specs::wrapping_mul(x, y))
    }

    fn zero() -> (r: i64) {
        0
    }

    fn accumulate(acc: i64, x: i64, y: i64) -> (r: i64) {
        acc.wrapping_add(x.wrapping_mul(y))
    }
}

} // verus!
