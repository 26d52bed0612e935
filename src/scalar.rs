use vstd::prelude::*;

verus! {

/// An element type that the kernels multiply and add.
///
/// `spec_plus` and `spec_times` name the two operations as mathematical
/// functions, so that every kernel's contract can say exactly which sums of
/// which products land in the output, in which order. The executable methods
/// compute exactly those functions.
///
/// A type implemented outside verified code (single-precision floats, for
/// instance) gives `spec_plus` and `spec_times` the same bodies as `plus` and
/// `times`: compiled code keeps them as ordinary trait methods.
pub trait Scalar: Copy + Send + Sync + Sized {
    spec fn spec_plus(x: Self, y: Self) -> Self;

    spec fn spec_times(x: Self, y: Self) -> Self;

    fn plus(x: Self, y: Self) -> (r: Self)
        ensures
            r == Self::spec_plus(x, y),
    ;

    fn times(x: Self, y: Self) -> (r: Self)
        ensures
            r == Self::spec_times(x, y),
    ;
}

impl Scalar for u32 {
    open spec fn spec_plus(x: u32, y: u32) -> u32 {
        x.wrapping_add(y)
    }

    open spec fn spec_times(x: u32, y: u32) -> u32 {
        x.wrapping_mul(y)
    }

    fn plus(x: u32, y: u32) -> (r: u32) {
        x.wrapping_add(y)
    }

    fn times(x: u32, y: u32) -> (r: u32) {
        x.wrapping_mul(y)
    }
}

impl Scalar for u64 {
    open spec fn spec_plus(x: u64, y: u64) -> u64 {
        x.wrapping_add(y)
    }

    open spec fn spec_times(x: u64, y: u64) -> u64 {
        x.wrapping_mul(y)
    }

    fn plus(x: u64, y: u64) -> (r: u64) {
        x.wrapping_add(y)
    }

    fn times(x: u64, y: u64) -> (r: u64) {
        x.wrapping_mul(y)
    }
}

impl Scalar for i32 {
    open spec fn spec_plus(x: i32, y: i32) -> i32 {
        x.wrapping_add(y)
    }

    open spec fn spec_times(x: i32, y: i32) -> i32 {
        x.wrapping_mul(y)
    }

    fn plus(x: i32, y: i32) -> (r: i32) {
        x.wrapping_add(y)
    }

    fn times(x: i32, y: i32) -> (r: i32) {
        x.wrapping_mul(y)
    }
}

impl Scalar for i64 {
    open spec fn spec_plus(x: i64, y: i64) -> i64 {
        x.wrapping_add(y)
    }

    open spec fn spec_times(x: i64, y: i64) -> i64 {
        x.wrapping_mul(y)
    }

    fn plus(x: i64, y: i64) -> (r: i64) {
        x.wrapping_add(y)
    }

    fn times(x: i64, y: i64) -> (r: i64) {
        x.wrapping_mul(y)
    }
}

} // verus!
