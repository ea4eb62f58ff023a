//! Conversion of integers into scalars.
use crate::field::{fneg, Fr};
use vstd::prelude::*;

verus! {

/// A conversion into a scalar.
pub trait IntoScalar: Copy {
    /// The scalar that the value stands for, as a number in `0 .. q`.
    spec fn scalar(self) -> int;

    /// Converts `self` to a field element.
    fn into_scalar(self) -> (r: Fr)
        ensures
            r@ == self.scalar(),
    ;
}

impl IntoScalar for Fr {
    open spec fn scalar(self) -> int {
        self@
    }

    fn into_scalar(self) -> (r: Fr) {
        self
    }
}

impl IntoScalar for u64 {
    open spec fn scalar(self) -> int {
        self as int
    }

    fn into_scalar(self) -> (r: Fr) {
        Fr::from_u64(self)
    }
}

impl IntoScalar for usize {
    open spec fn scalar(self) -> int {
        self as int
    }

    fn into_scalar(self) -> (r: Fr) {
        Fr::from_u64(self as u64)
    }
}

impl IntoScalar for i32 {
    /// A negative number stands for the field's negation of its absolute value.
    open spec fn scalar(self) -> int {
        if self >= 0 {
            self as int
        } else {
            fneg(-(self as int))
        }
    }

    fn into_scalar(self) -> (r: Fr) {
        if self >= 0 {
            Fr::from_u64(self as u64)
        } else {
            let wide: i64 = self as i64;
            Fr::from_u64((-wide) as u64).negate()
        }
    }
}

impl IntoScalar for i64 {
    /// A negative number stands for the field's negation of its absolute value.
    open spec fn scalar(self) -> int {
        if self >= 0 {
            self as int
        } else {
            fneg(-(self as int))
        }
    }

    fn into_scalar(self) -> (r: Fr) {
        if self >= 0 {
            Fr::from_u64(self as u64)
        } else {
            // `-(self + 1)` cannot overflow, whereas `-self` does for the least `i64`.
            let below: u64 = (-(self + 1)) as u64;
            Fr::from_u64(below + 1).negate()
        }
    }
}

impl<'a, T: IntoScalar> IntoScalar for &'a T {
    open spec fn scalar(self) -> int {
        (*self).scalar()
    }

    fn into_scalar(self) -> (r: Fr) {
        (*self).into_scalar()
    }
}

} // verus!
