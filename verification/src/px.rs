//! A signed length in whole pixels, a scalar whose arithmetic and order
//! follow their specifications exactly.
use core::cmp::Ordering;
use core::convert::From;
use core::ops::{Add, Div, Mul, Sub};
use vstd::prelude::*;

verus! {

/// A length in whole pixels. Its operations are those of `i64`: they are
/// defined where `i64`'s are (no overflow, no division by zero) and division
/// truncates toward zero.
#[derive(Debug, Default, Clone, Copy)]
pub struct Px(pub i64);

impl PartialEq for Px {
    fn eq(&self, other: &Self) -> (r: bool) {
        self.0 == other.0
    }
}

impl vstd::std_specs::cmp::PartialEqSpecImpl for Px {
    open spec fn obeys_eq_spec() -> bool {
        true
    }

    /// Lengths are equal when their pixel counts are.
    open spec fn eq_spec(&self, other: &Self) -> bool {
        self.0 == other.0
    }
}

impl PartialOrd for Px {
    fn partial_cmp(&self, other: &Self) -> (r: Option<Ordering>) {
        self.0.partial_cmp(&other.0)
    }
}

impl vstd::std_specs::cmp::PartialOrdSpecImpl for Px {
    open spec fn obeys_partial_cmp_spec() -> bool {
        true
    }

    /// Lengths compare by their pixel counts.
    open spec fn partial_cmp_spec(&self, other: &Self) -> Option<Ordering> {
        vstd::std_specs::cmp::PartialOrdSpec::partial_cmp_spec(&self.0, &other.0)
    }
}

impl Add for Px {
    type Output = Self;

    fn add(self, rhs: Self) -> (r: Self) {
        Px(self.0 + rhs.0)
    }
}

impl vstd::std_specs::ops::AddSpecImpl for Px {
    open spec fn obeys_add_spec() -> bool {
        true
    }

    open spec fn add_req(self, rhs: Self) -> bool {
        i64::MIN <= self.0 + rhs.0 <= i64::MAX
    }

    open spec fn add_spec(self, rhs: Self) -> Self {
        Px((self.0 + rhs.0) as i64)
    }
}

impl Sub for Px {
    type Output = Self;

    fn sub(self, rhs: Self) -> (r: Self) {
        Px(self.0 - rhs.0)
    }
}

impl vstd::std_specs::ops::SubSpecImpl for Px {
    open spec fn obeys_sub_spec() -> bool {
        true
    }

    open spec fn sub_req(self, rhs: Self) -> bool {
        i64::MIN <= self.0 - rhs.0 <= i64::MAX
    }

    open spec fn sub_spec(self, rhs: Self) -> Self {
        Px((self.0 - rhs.0) as i64)
    }
}

impl Mul for Px {
    type Output = Self;

    fn mul(self, rhs: Self) -> (r: Self) {
        Px(self.0 * rhs.0)
    }
}

impl vstd::std_specs::ops::MulSpecImpl for Px {
    open spec fn obeys_mul_spec() -> bool {
        true
    }

    open spec fn mul_req(self, rhs: Self) -> bool {
        i64::MIN <= self.0 * rhs.0 <= i64::MAX
    }

    open spec fn mul_spec(self, rhs: Self) -> Self {
        Px((self.0 * rhs.0) as i64)
    }
}

impl Div for Px {
    type Output = Self;

    fn div(self, rhs: Self) -> (r: Self) {
        Px(self.0 / rhs.0)
    }
}

impl vstd::std_specs::ops::DivSpecImpl for Px {
    open spec fn obeys_div_spec() -> bool {
        true
    }

    open spec fn div_req(self, rhs: Self) -> bool {
        vstd::std_specs::ops::DivSpec::div_req(self.0, rhs.0)
    }

    open spec fn div_spec(self, rhs: Self) -> Self {
        Px(vstd::std_specs::ops::DivSpec::div_spec(self.0, rhs.0))
    }
}

impl From<u8> for Px {
    fn from(v: u8) -> (r: Self) {
        Px(v as i64)
    }
}

impl vstd::std_specs::convert::FromSpecImpl<u8> for Px {
    open spec fn obeys_from_spec() -> bool {
        true
    }

    open spec fn from_spec(v: u8) -> Self {
        Px(v as i64)
    }
}

} // verus!
