use core::cmp::Ordering;
use vstd::prelude::*;
use crate::calc::{RelNodeInfo, TempNodeType};

verus! {

/// Flex items are ordered by their `order` value, and items with the same
/// `order` by the index at which they were added.
pub open spec fn order_less(a: (isize, usize), b: (isize, usize)) -> bool {
    a.0 < b.0 || (a.0 == b.0 && a.1 < b.1)
}

/// Compares two (order, index) keys of flex items.
pub fn order_cmp(a: (isize, usize), b: (isize, usize)) -> (r: Ordering)
    ensures
        (r == Ordering::Less) == order_less(a, b),
        (r == Ordering::Equal) == (a == b),
        (r == Ordering::Greater) == order_less(b, a),
{
    if a.0 > b.0 {
        Ordering::Greater
    } else if a.0 < b.0 {
        Ordering::Less
    } else if a.1 > b.1 {
        Ordering::Greater
    } else if a.1 < b.1 {
        Ordering::Less
    } else {
        Ordering::Equal
    }
}

/// The item order is a strict total order: irreflexive, transitive, and any
/// two different keys are ordered one way.
pub proof fn lemma_order_strict_total(a: (isize, usize), b: (isize, usize), c: (isize, usize))
    ensures
        !order_less(a, a),
        order_less(a, b) && order_less(b, c) ==> order_less(a, c),
        a != b ==> (order_less(a, b) || order_less(b, a)),
        !(order_less(a, b) && order_less(b, a)),
{
}

/// The three-way comparison of two item keys, as an `Ordering`.
pub open spec fn order_ordering(a: (isize, usize), b: (isize, usize)) -> Ordering {
    if order_less(a, b) {
        Ordering::Less
    } else if a == b {
        Ordering::Equal
    } else {
        Ordering::Greater
    }
}

/// A flex item waiting to be laid out in `order`: (order, index at which it
/// was added, item data, cache).
#[derive(Default, Debug)]
pub struct OrderSort<K, T>(pub isize, pub usize, pub RelNodeInfo<K, T>, pub TempNodeType<K, T>);

impl<K, T> PartialEq for OrderSort<K, T> {
    fn eq(&self, other: &Self) -> (r: bool) {
        self.0 == other.0 && self.1 == other.1
    }
}

impl<K, T> vstd::std_specs::cmp::PartialEqSpecImpl for OrderSort<K, T> {
    open spec fn obeys_eq_spec() -> bool {
        true
    }

    /// Items are equal when their order and index are.
    open spec fn eq_spec(&self, other: &Self) -> bool {
        self.0 == other.0 && self.1 == other.1
    }
}

impl<K, T> Eq for OrderSort<K, T> {
}

impl<K, T> PartialOrd for OrderSort<K, T> {
    fn partial_cmp(&self, other: &Self) -> (r: Option<Ordering>) {
        Some(order_cmp((self.0, self.1), (other.0, other.1)))
    }
}

impl<K, T> vstd::std_specs::cmp::PartialOrdSpecImpl for OrderSort<K, T> {
    open spec fn obeys_partial_cmp_spec() -> bool {
        true
    }

    /// Items compare by order, then by index (see `order_less`).
    open spec fn partial_cmp_spec(&self, other: &Self) -> Option<Ordering> {
        Some(order_ordering((self.0, self.1), (other.0, other.1)))
    }
}

} // verus!
