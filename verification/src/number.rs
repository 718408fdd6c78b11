use vstd::prelude::*;

verus! {

/// A number that may be left undefined.
#[derive(Copy, Clone, PartialEq, PartialOrd, Debug)]
pub enum Number<T> {
    /// A defined value.
    Defined(T),
    /// No value.
    Undefined,
}

/// Falls back to `other` where a value is undefined.
pub trait OrElse<T> {
    /// The value itself if it is defined, `other` otherwise.
    fn or_else(self, other: T) -> T;
}

impl<T> Default for Number<T> {
    fn default() -> (r: Self)
        ensures
            r == Number::<T>::Undefined,
    {
        Number::Undefined
    }
}

impl<T> OrElse<T> for Number<T> {
    fn or_else(self, other: T) -> (r: T)
        ensures
            r == (match self {
                Number::Defined(v) => v,
                Number::Undefined => other,
            }),
    {
        if let Number::Defined(val) = self {
            val
        } else {
            other
        }
    }
}

impl<T> OrElse<Number<T>> for Number<T> {
    fn or_else(self, other: Number<T>) -> (r: Number<T>)
        ensures
            r == (if self is Defined {
                self
            } else {
                other
            }),
    {
        if let Number::Defined(_) = self {
            self
        } else {
            other
        }
    }
}

impl<T> Number<T> {
    /// The number holds a value.
    pub fn is_defined(&self) -> (r: bool)
        ensures
            r == (*self is Defined),
    {
        match self {
            Number::Defined(_) => true,
            Number::Undefined => false,
        }
    }
}

} // verus!
