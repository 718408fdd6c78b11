//! Distributing a container's main size over its items by their grow and
//! shrink factors, under each item's minimum and maximum.
use core::convert::From;
use core::ops::{Add, Div, Mul, Sub};
use vstd::prelude::*;
use vstd::std_specs::cmp::{PartialEqSpec, PartialOrdIs, PartialOrdSpec};
use vstd::std_specs::convert::FromSpec;
use vstd::std_specs::ops::{AddSpec, DivSpec, MulSpec, SubSpec};
use crate::calc::{RelNodeInfo, obeys_laws, one, ops_total, zero};
use crate::number::Number;
use crate::px::Px;

verus! {

/// One item of a line: its factors, its constraints, its basis and the size computed for it.
#[derive(Debug, Default, Clone, Copy, PartialEq)]
pub struct Data<T> {
    /// Grow factor.
    pub grow: T,
    /// Shrink factor.
    pub shrink: T,
    /// Smallest size.
    pub min: Option<T>,
    /// Largest size.
    pub max: Option<T>,
    /// Flex basis.
    pub basis: Option<T>,
    /// Content length, the basis where none is set.
    pub length: T,
    /// The computed size.
    pub result: T,
    /// The item's size may still change in a later round.
    pub result_maybe_ok: bool,
}

/// The totals over a line's items and the state of the distribution.
#[derive(Debug, Clone, Default, PartialEq, PartialOrd)]
pub struct GrowShrinkContext<T> {
    /// Sum of the positive grow factors.
    pub grow_weight: T,
    /// Sum of the bases of growing items.
    pub grow_basis: T,
    /// Number of growing items without a maximum.
    pub only_grow_count: u32,
    /// Sum of the maxima of growing items.
    pub max_grow_amount: T,
    /// Sum of the bases of the other items.
    pub no_grow_basis: T,
    /// Sum of the shrink weights (shrink factor times basis).
    pub shrink_weight: T,
    /// Sum of the bases of shrinking items.
    pub shrink_basis: T,
    /// Sum of the minima of shrinking items.
    pub min_shrink_amount: T,
    /// Sum of the bases of the items that do not shrink.
    pub no_shrink_basis: T,
    /// Sum of all bases.
    pub basis: T,
    /// The container's length.
    pub length: T,
    /// Sum of the computed sizes.
    pub amount: T,
    /// The total weight used for the proportional step.
    pub weight: T,
    /// The space distributed by the proportional step.
    pub weight_basis: T,
}

/// `basis` raised to the item's minimum where it lies below it.
pub open spec fn min_basis_spec<T: PartialOrd>(d: Data<T>, basis: T) -> T {
    match d.min {
        Some(m) => if basis.is_lt(&m) {
            m
        } else {
            basis
        },
        None => basis,
    }
}

/// `basis` lowered to the item's maximum where it lies above it.
pub open spec fn max_basis_spec<T: PartialOrd>(d: Data<T>, basis: T) -> T {
    match d.max {
        Some(m) => if basis.is_gt(&m) {
            m
        } else {
            basis
        },
        None => basis,
    }
}

/// The item's basis (its content length where none is set), raised to its
/// minimum and then lowered to its maximum.
pub open spec fn real_basis<T: PartialOrd>(d: Data<T>) -> T {
    max_basis_spec(d, min_basis_spec(d, match d.basis {
        Some(b) => b,
        None => d.length,
    }))
}

/// The same item with another computed size.
pub open spec fn with_result<T>(d: Data<T>, r: T) -> Data<T> {
    Data { result: r, ..d }
}

impl<T: Copy + PartialOrd> Data<T> {
    /// The item's basis within its minimum and maximum (see `real_basis`).
    pub fn get_real_basis(&self) -> (r: T)
        ensures
            T::obeys_partial_cmp_spec() ==> r == real_basis(*self),
    {
        let b = match self.basis {
            Some(b) => b,
            None => self.length,
        };
        self.get_max_basis(self.get_min_basis(b))
    }

    /// `basis`, or the minimum where `basis` lies below it.
    pub fn get_min_basis(&self, basis: T) -> (r: T)
        ensures
            T::obeys_partial_cmp_spec() ==> r == min_basis_spec(*self, basis),
            r == basis || self.min == Some(r),
    {
        match self.min {
            Some(min) => {
                if basis < min {
                    min
                } else {
                    basis
                }
            },
            None => basis,
        }
    }

    /// `basis`, or the maximum where `basis` lies above it.
    pub fn get_max_basis(&self, basis: T) -> (r: T)
        ensures
            T::obeys_partial_cmp_spec() ==> r == max_basis_spec(*self, basis),
            r == basis || self.max == Some(r),
    {
        match self.max {
            Some(max) => {
                if basis > max {
                    max
                } else {
                    basis
                }
            },
            None => basis,
        }
    }
}

/// The totals after counting one more item: its basis joins the sum of all
/// bases; an item with a positive grow factor adds that factor, its basis,
/// and its maximum (or one to the count of unbounded growing items), any
/// other item adds its basis to the non-growing bases; likewise an item with
/// a positive shrink factor adds its shrink weight (factor times basis), its
/// basis and its minimum, any other item adds its basis to the non-shrinking
/// bases.
pub open spec fn stat_step<T: PartialOrd + Add<Output = T> + Mul<Output = T> + From<u8>>(c: GrowShrinkContext<T>, d: Data<T>) -> GrowShrinkContext<T> {
    let b = real_basis(d);
    let grows = d.grow.is_gt(&zero());
    let shrinks = d.shrink.is_gt(&zero());
    GrowShrinkContext {
        basis: c.basis.add_spec(b),
        grow_weight: if grows {
            c.grow_weight.add_spec(d.grow)
        } else {
            c.grow_weight
        },
        grow_basis: if grows {
            c.grow_basis.add_spec(b)
        } else {
            c.grow_basis
        },
        max_grow_amount: if grows && d.max is Some {
            c.max_grow_amount.add_spec(d.max->0)
        } else {
            c.max_grow_amount
        },
        only_grow_count: if grows && d.max is None {
            (c.only_grow_count + 1) as u32
        } else {
            c.only_grow_count
        },
        no_grow_basis: if grows {
            c.no_grow_basis
        } else {
            c.no_grow_basis.add_spec(b)
        },
        shrink_weight: if shrinks {
            c.shrink_weight.add_spec(d.shrink.mul_spec(b))
        } else {
            c.shrink_weight
        },
        shrink_basis: if shrinks {
            c.shrink_basis.add_spec(b)
        } else {
            c.shrink_basis
        },
        min_shrink_amount: if shrinks && d.min is Some {
            c.min_shrink_amount.add_spec(d.min->0)
        } else {
            c.min_shrink_amount
        },
        no_shrink_basis: if shrinks {
            c.no_shrink_basis
        } else {
            c.no_shrink_basis.add_spec(b)
        },
        ..c
    }
}

/// The additions and the product of `stat_step` are defined.
pub open spec fn stat_step_req<T: PartialOrd + Add<Output = T> + Mul<Output = T> + From<u8>>(c: GrowShrinkContext<T>, d: Data<T>) -> bool {
    let b = real_basis(d);
    let grows = d.grow.is_gt(&zero());
    let shrinks = d.shrink.is_gt(&zero());
    &&& c.basis.add_req(b)
    &&& grows ==> c.grow_weight.add_req(d.grow) && c.grow_basis.add_req(b)
        && (d.max is Some ==> c.max_grow_amount.add_req(d.max->0))
    &&& !grows ==> c.no_grow_basis.add_req(b)
    &&& shrinks ==> d.shrink.mul_req(b) && c.shrink_weight.add_req(d.shrink.mul_spec(b))
        && c.shrink_basis.add_req(b) && (d.min is Some ==> c.min_shrink_amount.add_req(d.min->0))
    &&& !shrinks ==> c.no_shrink_basis.add_req(b)
}

/// The operations of `stat_fold` are defined at every item.
pub open spec fn stat_fold_req<T: PartialOrd + Add<Output = T> + Mul<Output = T> + From<u8>>(c: GrowShrinkContext<T>, s: Seq<Data<T>>) -> bool
    decreases s.len(),
{
    s.len() == 0 || (stat_fold_req(c, s.drop_last()) && stat_step_req(stat_fold(c, s.drop_last()), s.last()))
}

/// Where the operations are defined on the items, they are on each prefix.
proof fn lemma_stat_fold_req_prefix<T: PartialOrd + Add<Output = T> + Mul<Output = T> + From<u8>>(c: GrowShrinkContext<T>, s: Seq<Data<T>>, k: int)
    requires
        stat_fold_req(c, s),
        0 <= k <= s.len(),
    ensures
        stat_fold_req(c, s.subrange(0, k)),
    decreases s.len(),
{
    if k < s.len() {
        assert(s.drop_last().subrange(0, k) =~= s.subrange(0, k));
        lemma_stat_fold_req_prefix(c, s.drop_last(), k);
    } else {
        assert(s.subrange(0, k) =~= s);
    }
}

/// The totals after counting the items of `s` in order.
pub open spec fn stat_fold<T: PartialOrd + Add<Output = T> + Mul<Output = T> + From<u8>>(c: GrowShrinkContext<T>, s: Seq<Data<T>>) -> GrowShrinkContext<T>
    decreases s.len(),
{
    if s.len() == 0 {
        c
    } else {
        stat_step(stat_fold(c, s.drop_last()), s.last())
    }
}

impl<T: Copy + PartialEq + PartialOrd + Add<Output = T> + Sub<Output = T> + Mul<Output = T> + Div<Output = T> + From<u8>> Data<T> {
    /// Counts the item into the totals (see `stat_step`).
    pub fn statistics(&self, context: &mut GrowShrinkContext<T>)
        requires
            (obeys_laws::<T>() && stat_step_req(*old(context), *self)) || ops_total::<T>(),
            old(context).only_grow_count < u32::MAX,
        ensures
            obeys_laws::<T>() ==> *final(context) == stat_step(*old(context), *self),
            final(context).length == old(context).length,
            final(context).amount == old(context).amount,
            final(context).weight == old(context).weight,
            final(context).weight_basis == old(context).weight_basis,
            final(context).only_grow_count == old(context).only_grow_count
                || final(context).only_grow_count == old(context).only_grow_count + 1,
    {
        let zero = T::from(0u8);
        let basis = self.get_real_basis();
        context.basis = context.basis + basis;
        if self.grow > zero {
            context.grow_weight = context.grow_weight + self.grow;
            context.grow_basis = context.grow_basis + basis;
            match self.max {
                Some(max) => {
                    context.max_grow_amount = context.max_grow_amount + max;
                },
                None => {
                    context.only_grow_count = context.only_grow_count + 1;
                },
            }
        } else {
            context.no_grow_basis = context.no_grow_basis + basis;
        }
        if self.shrink > zero {
            context.shrink_weight = context.shrink_weight + self.shrink * basis;
            context.shrink_basis = context.shrink_basis + basis;
            match self.min {
                Some(min) => {
                    context.min_shrink_amount = context.min_shrink_amount + min;
                },
                None => {},
            }
        } else {
            context.no_shrink_basis = context.no_shrink_basis + basis;
        }
    }
}

/// The computed size when every item takes its minimum: an item that does
/// not shrink (shrink factor zero) keeps its basis, another takes its
/// minimum, zero where it has none.
pub open spec fn set_min_spec<T: PartialEq + PartialOrd + From<u8>>(d: Data<T>) -> T {
    if d.shrink.eq_spec(&zero()) {
        real_basis(d)
    } else {
        match d.min {
            Some(m) => m,
            None => zero(),
        }
    }
}

/// The computed size when every item takes its maximum: an item that does
/// not grow keeps its basis, another takes its maximum.
pub open spec fn set_max_spec<T: PartialEq + PartialOrd + From<u8>>(d: Data<T>) -> T {
    if d.grow.eq_spec(&zero()) {
        real_basis(d)
    } else {
        d.max->0
    }
}

/// The item can take its maximum: it has one, or it does not grow.
pub open spec fn max_defined<T: PartialEq + From<u8>>(d: Data<T>) -> bool {
    d.max is Some || (T::obeys_eq_spec() && T::obeys_from_spec() && d.grow.eq_spec(&zero()))
}

/// Proportional shrinking: a shrinking item gives up its share of
/// `weight_basis` in proportion to its shrink weight: basis plus
/// `shrink * basis * weight_basis / weight` (`weight_basis` is negative when
/// the items overflow); another item keeps its basis.
pub open spec fn shrink_spec<T: PartialOrd + Add<Output = T> + Mul<Output = T> + Div<Output = T> + From<u8>>(d: Data<T>, weight: T, weight_basis: T) -> T {
    if d.shrink.is_gt(&zero()) {
        let b = real_basis(d);
        b.add_spec(d.shrink.mul_spec(b).mul_spec(weight_basis).div_spec(weight))
    } else {
        real_basis(d)
    }
}

/// Proportional growing: a growing item takes its share of `weight_basis`
/// in proportion to its grow factor: basis plus
/// `grow * weight_basis / weight`; another item keeps its basis.
pub open spec fn grow_spec<T: PartialOrd + Add<Output = T> + Mul<Output = T> + Div<Output = T> + From<u8>>(d: Data<T>, weight: T, weight_basis: T) -> T {
    if d.grow.is_gt(&zero()) {
        let b = real_basis(d);
        b.add_spec(d.grow.mul_spec(weight_basis).div_spec(weight))
    } else {
        real_basis(d)
    }
}

/// The operations of `shrink_spec` are defined for the item.
pub open spec fn shrink_req<T: PartialOrd + Add<Output = T> + Mul<Output = T> + Div<Output = T> + From<u8>>(d: Data<T>, weight: T, weight_basis: T) -> bool {
    let b = real_basis(d);
    let p = d.shrink.mul_spec(b).mul_spec(weight_basis);
    d.shrink.is_gt(&zero()) ==> d.shrink.mul_req(b) && d.shrink.mul_spec(b).mul_req(weight_basis)
        && p.div_req(weight) && b.add_req(p.div_spec(weight))
}

/// The operations of `grow_spec` are defined for the item.
pub open spec fn grow_req<T: PartialOrd + Add<Output = T> + Mul<Output = T> + Div<Output = T> + From<u8>>(d: Data<T>, weight: T, weight_basis: T) -> bool {
    let b = real_basis(d);
    let p = d.grow.mul_spec(weight_basis);
    d.grow.is_gt(&zero()) ==> d.grow.mul_req(weight_basis) && p.div_req(weight) && b.add_req(p.div_spec(weight))
}

/// The divisor of the growing share: the total grow factor, or one where the
/// total lies below one, so that each item then takes only its grow factor's
/// fraction of the free space and the rest stays free.
pub open spec fn grow_divisor<T: PartialOrd + From<u8>>(total: T) -> T {
    if total.is_lt(&one()) {
        one()
    } else {
        total
    }
}

/// `after` is `before` with only the computed sizes changed.
pub open spec fn same_items<T>(before: Seq<Data<T>>, after: Seq<Data<T>>) -> bool {
    &&& after.len() == before.len()
    &&& forall|i: int| 0 <= i < before.len() ==> #[trigger] after[i] == Data {
        result: after[i].result,
        result_maybe_ok: after[i].result_maybe_ok,
        ..before[i]
    }
}

impl<T: Copy + PartialEq + PartialOrd + Add<Output = T> + Sub<Output = T> + Mul<Output = T> + Div<Output = T> + From<u8>> GrowShrinkContext<T> {
    /// Counts the items into the totals, in order (see `stat_fold`).
    pub fn statistics_array(&mut self, array: &[Data<T>])
        requires
            (obeys_laws::<T>() && stat_fold_req(*old(self), array@)) || ops_total::<T>(),
            old(self).only_grow_count + array@.len() <= u32::MAX,
        ensures
            obeys_laws::<T>() ==> *final(self) == stat_fold(*old(self), array@),
            final(self).length == old(self).length,
            final(self).amount == old(self).amount,
            final(self).weight == old(self).weight,
            final(self).weight_basis == old(self).weight_basis,
    {
        let n = array.len();
        let mut i: usize = 0;
        while i < n
            invariant
                n == array@.len(),
                i <= n,
                (obeys_laws::<T>() && stat_fold_req(*old(self), array@)) || ops_total::<T>(),
                self.only_grow_count <= old(self).only_grow_count + i,
                old(self).only_grow_count + n <= u32::MAX,
                obeys_laws::<T>() ==> *self == stat_fold(*old(self), array@.subrange(0, i as int)),
                self.length == old(self).length,
                self.amount == old(self).amount,
                self.weight == old(self).weight,
                self.weight_basis == old(self).weight_basis,
            decreases n - i,
        {
            let data = array[i];
            proof {
                let s = array@.subrange(0, i as int + 1);
                assert(s.drop_last() =~= array@.subrange(0, i as int));
                assert(s.last() == array@[i as int]);
                if obeys_laws::<T>() && stat_fold_req(*old(self), array@) {
                    lemma_stat_fold_req_prefix(*old(self), array@, i as int + 1);
                }
            }
            data.statistics(self);
            i = i + 1;
        }
        proof {
            assert(array@.subrange(0, n as int) =~= array@);
        }
    }

    /// Every item takes its basis.
    pub fn set_basis(&mut self, array: &mut [Data<T>])
        ensures
            *final(self) == *old(self),
            same_items(old(array)@, final(array)@),
            forall|i: int| 0 <= i < old(array)@.len() ==> #[trigger] final(array)@[i].result_maybe_ok
                == old(array)@[i].result_maybe_ok,
            T::obeys_partial_cmp_spec() ==> forall|i: int| 0 <= i < old(array)@.len()
                ==> #[trigger] final(array)@[i] == with_result(old(array)@[i], real_basis(old(array)@[i])),
    {
        let n = array.len();
        let mut i: usize = 0;
        while i < n
            invariant
                n == array@.len(),
                n == old(array)@.len(),
                i <= n,
                forall|j: int| i <= j < n ==> #[trigger] array@[j] == old(array)@[j],
                forall|j: int| 0 <= j < i ==> #[trigger] array@[j] == with_result(old(array)@[j], array@[j].result),
                T::obeys_partial_cmp_spec() ==> forall|j: int| 0 <= j < i
                    ==> #[trigger] array@[j] == with_result(old(array)@[j], real_basis(old(array)@[j])),
            decreases n - i,
        {
            let mut el = array[i];
            el.result = el.get_real_basis();
            array[i] = el;
            i = i + 1;
        }
    }

    /// Every item takes its minimum (see `set_min_spec`).
    pub fn set_min(&mut self, array: &mut [Data<T>])
        ensures
            *final(self) == *old(self),
            same_items(old(array)@, final(array)@),
            forall|i: int| 0 <= i < old(array)@.len() ==> #[trigger] final(array)@[i].result_maybe_ok
                == old(array)@[i].result_maybe_ok,
            obeys_laws::<T>() ==> forall|i: int| 0 <= i < old(array)@.len()
                ==> #[trigger] final(array)@[i] == with_result(old(array)@[i], set_min_spec(old(array)@[i])),
    {
        let zero = T::from(0u8);
        let n = array.len();
        let mut i: usize = 0;
        while i < n
            invariant
                n == array@.len(),
                n == old(array)@.len(),
                i <= n,
                obeys_laws::<T>() ==> zero == crate::calc::zero::<T>(),
                forall|j: int| i <= j < n ==> #[trigger] array@[j] == old(array)@[j],
                forall|j: int| 0 <= j < i ==> #[trigger] array@[j] == with_result(old(array)@[j], array@[j].result),
                obeys_laws::<T>() ==> forall|j: int| 0 <= j < i
                    ==> #[trigger] array@[j] == with_result(old(array)@[j], set_min_spec(old(array)@[j])),
            decreases n - i,
        {
            let mut el = array[i];
            let r = if el.shrink == zero {
                el.get_real_basis()
            } else {
                match el.min {
                    Some(m) => m,
                    None => zero,
                }
            };
            el.result = r;
            array[i] = el;
            i = i + 1;
        }
    }

    /// Every item takes its maximum (see `set_max_spec`).
    pub fn set_max(&mut self, array: &mut [Data<T>])
        requires
            forall|i: int| 0 <= i < old(array)@.len() ==> #[trigger] max_defined(old(array)@[i]),
        ensures
            *final(self) == *old(self),
            same_items(old(array)@, final(array)@),
            forall|i: int| 0 <= i < old(array)@.len() ==> #[trigger] final(array)@[i].result_maybe_ok
                == old(array)@[i].result_maybe_ok,
            obeys_laws::<T>() ==> forall|i: int| 0 <= i < old(array)@.len()
                ==> #[trigger] final(array)@[i] == with_result(old(array)@[i], set_max_spec(old(array)@[i])),
    {
        let zero = T::from(0u8);
        let n = array.len();
        let mut i: usize = 0;
        while i < n
            invariant
                n == array@.len(),
                n == old(array)@.len(),
                i <= n,
                T::obeys_from_spec() ==> zero == crate::calc::zero::<T>(),
                forall|j: int| 0 <= j < n ==> #[trigger] max_defined(old(array)@[j]),
                forall|j: int| i <= j < n ==> #[trigger] array@[j] == old(array)@[j],
                forall|j: int| 0 <= j < i ==> #[trigger] array@[j] == with_result(old(array)@[j], array@[j].result),
                obeys_laws::<T>() ==> forall|j: int| 0 <= j < i
                    ==> #[trigger] array@[j] == with_result(old(array)@[j], set_max_spec(old(array)@[j])),
            decreases n - i,
        {
            let mut el = array[i];
            assert(max_defined(old(array)@[i as int]));
            let r = if el.grow == zero {
                el.get_real_basis()
            } else {
                match el.max {
                    Some(m) => m,
                    None => {
                        proof {
                            assert(false);
                        }
                        zero
                    },
                }
            };
            el.result = r;
            array[i] = el;
            i = i + 1;
        }
    }

    /// Shrinks the shrinking items in proportion (see `shrink_spec`, with the
    /// context's `weight` and `weight_basis`).
    pub fn shrink(&mut self, array: &mut [Data<T>])
        requires
            (obeys_laws::<T>() && forall|i: int| 0 <= i < old(array)@.len()
                ==> #[trigger] shrink_req(old(array)@[i], old(self).weight, old(self).weight_basis))
                || ops_total::<T>(),
        ensures
            *final(self) == *old(self),
            same_items(old(array)@, final(array)@),
            forall|i: int| 0 <= i < old(array)@.len() ==> #[trigger] final(array)@[i].result_maybe_ok
                == old(array)@[i].result_maybe_ok,
            obeys_laws::<T>() ==> forall|i: int| 0 <= i < old(array)@.len()
                ==> #[trigger] final(array)@[i] == with_result(old(array)@[i],
                    shrink_spec(old(array)@[i], old(self).weight, old(self).weight_basis)),
    {
        let zero = T::from(0u8);
        let n = array.len();
        let mut i: usize = 0;
        while i < n
            invariant
                n == array@.len(),
                n == old(array)@.len(),
                i <= n,
                (obeys_laws::<T>() && forall|k: int| 0 <= k < n
                    ==> #[trigger] shrink_req(old(array)@[k], old(self).weight, old(self).weight_basis))
                    || ops_total::<T>(),
                *self == *old(self),
                obeys_laws::<T>() ==> zero == crate::calc::zero::<T>(),
                forall|j: int| i <= j < n ==> #[trigger] array@[j] == old(array)@[j],
                forall|j: int| 0 <= j < i ==> #[trigger] array@[j] == with_result(old(array)@[j], array@[j].result),
                obeys_laws::<T>() ==> forall|j: int| 0 <= j < i
                    ==> #[trigger] array@[j] == with_result(old(array)@[j],
                        shrink_spec(old(array)@[j], self.weight, self.weight_basis)),
            decreases n - i,
        {
            let mut el = array[i];
            proof {
                if !ops_total::<T>() {
                    assert(shrink_req(old(array)@[i as int], self.weight, self.weight_basis));
                }
            }
            let r = if el.shrink > zero {
                let b = el.get_real_basis();
                b + el.shrink * b * self.weight_basis / self.weight
            } else {
                el.get_real_basis()
            };
            el.result = r;
            array[i] = el;
            i = i + 1;
        }
    }

    /// Grows the growing items in proportion (see `grow_spec`, with the
    /// context's `weight` and `weight_basis`).
    pub fn grow(&mut self, array: &mut [Data<T>])
        requires
            (obeys_laws::<T>() && forall|i: int| 0 <= i < old(array)@.len()
                ==> #[trigger] grow_req(old(array)@[i], old(self).weight, old(self).weight_basis))
                || ops_total::<T>(),
        ensures
            *final(self) == *old(self),
            same_items(old(array)@, final(array)@),
            forall|i: int| 0 <= i < old(array)@.len() ==> #[trigger] final(array)@[i].result_maybe_ok
                == old(array)@[i].result_maybe_ok,
            obeys_laws::<T>() ==> forall|i: int| 0 <= i < old(array)@.len()
                ==> #[trigger] final(array)@[i] == with_result(old(array)@[i],
                    grow_spec(old(array)@[i], old(self).weight, old(self).weight_basis)),
    {
        let zero = T::from(0u8);
        let n = array.len();
        let mut i: usize = 0;
        while i < n
            invariant
                n == array@.len(),
                n == old(array)@.len(),
                i <= n,
                (obeys_laws::<T>() && forall|k: int| 0 <= k < n
                    ==> #[trigger] grow_req(old(array)@[k], old(self).weight, old(self).weight_basis))
                    || ops_total::<T>(),
                *self == *old(self),
                obeys_laws::<T>() ==> zero == crate::calc::zero::<T>(),
                forall|j: int| i <= j < n ==> #[trigger] array@[j] == old(array)@[j],
                forall|j: int| 0 <= j < i ==> #[trigger] array@[j] == with_result(old(array)@[j], array@[j].result),
                obeys_laws::<T>() ==> forall|j: int| 0 <= j < i
                    ==> #[trigger] array@[j] == with_result(old(array)@[j],
                        grow_spec(old(array)@[j], self.weight, self.weight_basis)),
            decreases n - i,
        {
            let mut el = array[i];
            proof {
                if !ops_total::<T>() {
                    assert(grow_req(old(array)@[i as int], self.weight, self.weight_basis));
                }
            }
            let r = if el.grow > zero {
                let b = el.get_real_basis();
                b + el.grow * self.weight_basis / self.weight
            } else {
                el.get_real_basis()
            };
            el.result = r;
            array[i] = el;
            i = i + 1;
        }
    }
}

/// The state of a round over the items: the items, the running sum of the
/// computed sizes, the weight and the size of the items held at their bound,
/// the bases of the items still free, and whether an item was newly held.
pub struct RoundState<T> {
    pub arr: Seq<Data<T>>,
    pub amount: T,
    pub fix_weight: T,
    pub fix_basis: T,
    pub re_basis: T,
    pub re_calc: bool,
}

/// The factor that moves the item: its shrink factor when shrinking, its grow factor otherwise.
pub open spec fn factor<T>(d: Data<T>, shrinking: bool) -> T {
    if shrinking {
        d.shrink
    } else {
        d.grow
    }
}

/// The bound that holds the item: its minimum when shrinking, its maximum otherwise.
pub open spec fn bound<T>(d: Data<T>, shrinking: bool) -> Option<T> {
    if shrinking {
        d.min
    } else {
        d.max
    }
}

/// The item's weight: shrink factor times basis when shrinking, grow factor otherwise.
pub open spec fn item_weight<T: PartialOrd + Mul<Output = T>>(d: Data<T>, shrinking: bool) -> T {
    if shrinking {
        d.shrink.mul_spec(real_basis(d))
    } else {
        d.grow
    }
}

/// The item's size when it takes its share of `weight_basis`: its basis plus
/// `shrink * basis * weight_basis / weight` when shrinking, plus
/// `grow * weight_basis / weight` when growing.
pub open spec fn flex_value<T: PartialOrd + Add<Output = T> + Mul<Output = T> + Div<Output = T>>(d: Data<T>, shrinking: bool, weight: T, weight_basis: T) -> T {
    let b = real_basis(d);
    if shrinking {
        b.add_spec(d.shrink.mul_spec(b).mul_spec(weight_basis).div_spec(weight))
    } else {
        b.add_spec(d.grow.mul_spec(weight_basis).div_spec(weight))
    }
}

/// The size `r` is held at the bound `m`: in the first round when it reaches
/// it, in later rounds when it passes it.
pub open spec fn passes_bound<T: PartialOrd>(r: T, m: T, shrinking: bool, first: bool) -> bool {
    if shrinking {
        if first {
            r.is_le(&m)
        } else {
            r.is_lt(&m)
        }
    } else {
        if first {
            r.is_ge(&m)
        } else {
            r.is_gt(&m)
        }
    }
}

/// The first round at item `j`: an item whose factor is zero takes its basis;
/// another takes its share, or its bound where the share reaches it (it is
/// then held: its weight and bound are set aside and a further round is
/// asked for); an item left free is marked as such and its basis counted.
pub open spec fn first_step<T: PartialEq + PartialOrd + Add<Output = T> + Mul<Output = T> + Div<Output = T> + From<u8>>(st: RoundState<T>, j: int, shrinking: bool, weight: T, weight_basis: T) -> RoundState<T> {
    let d = st.arr[j];
    let b = real_basis(d);
    if factor(d, shrinking).eq_spec(&zero()) {
        RoundState { arr: st.arr.update(j, with_result(d, b)), amount: st.amount.add_spec(b), ..st }
    } else {
        let r = flex_value(d, shrinking, weight, weight_basis);
        if bound(d, shrinking) is Some && passes_bound(r, bound(d, shrinking)->0, shrinking, true) {
            let m = bound(d, shrinking)->0;
            RoundState {
                arr: st.arr.update(j, with_result(d, m)),
                amount: st.amount.add_spec(m),
                fix_weight: st.fix_weight.add_spec(item_weight(d, shrinking)),
                fix_basis: st.fix_basis.add_spec(m),
                re_calc: true,
                ..st
            }
        } else {
            RoundState {
                arr: st.arr.update(j, Data { result: r, result_maybe_ok: true, ..d }),
                amount: st.amount.add_spec(r),
                re_basis: st.re_basis.add_spec(b),
                ..st
            }
        }
    }
}

/// A later round at item `j`: only a free item is computed again; its old
/// size leaves the sum and its new share enters it, or its bound where the
/// share passes it (it is then held and no longer free).
pub open spec fn later_step<T: PartialOrd + Add<Output = T> + Sub<Output = T> + Mul<Output = T> + Div<Output = T>>(st: RoundState<T>, j: int, shrinking: bool, weight: T, weight_basis: T) -> RoundState<T> {
    let d = st.arr[j];
    if !d.result_maybe_ok {
        st
    } else {
        let a = st.amount.sub_spec(d.result);
        let r = flex_value(d, shrinking, weight, weight_basis);
        if bound(d, shrinking) is Some && passes_bound(r, bound(d, shrinking)->0, shrinking, false) {
            let m = bound(d, shrinking)->0;
            RoundState {
                arr: st.arr.update(j, Data { result: m, result_maybe_ok: false, ..d }),
                amount: a.add_spec(m),
                fix_weight: st.fix_weight.add_spec(item_weight(d, shrinking)),
                fix_basis: st.fix_basis.add_spec(m),
                re_calc: true,
                ..st
            }
        } else {
            RoundState {
                arr: st.arr.update(j, with_result(d, r)),
                amount: a.add_spec(r),
                re_basis: st.re_basis.add_spec(real_basis(d)),
                ..st
            }
        }
    }
}

/// The first round over the items `0..k`.
pub open spec fn first_pass<T: PartialEq + PartialOrd + Add<Output = T> + Mul<Output = T> + Div<Output = T> + From<u8>>(st: RoundState<T>, k: int, shrinking: bool, weight: T, weight_basis: T) -> RoundState<T>
    decreases k,
{
    if k <= 0 {
        st
    } else {
        first_step(first_pass(st, k - 1, shrinking, weight, weight_basis), k - 1, shrinking, weight, weight_basis)
    }
}

/// A later round over the items `0..k`.
pub open spec fn later_pass<T: PartialOrd + Add<Output = T> + Sub<Output = T> + Mul<Output = T> + Div<Output = T>>(st: RoundState<T>, k: int, shrinking: bool, weight: T, weight_basis: T) -> RoundState<T>
    decreases k,
{
    if k <= 0 {
        st
    } else {
        later_step(later_pass(st, k - 1, shrinking, weight, weight_basis), k - 1, shrinking, weight, weight_basis)
    }
}

/// The number of free items.
pub open spec fn count_ok<T>(s: Seq<Data<T>>) -> nat
    decreases s.len(),
{
    if s.len() == 0 {
        0
    } else {
        count_ok(s.drop_last()) + if s.last().result_maybe_ok {
            1nat
        } else {
            0nat
        }
    }
}

/// The weight of a later round: the total weight less the held items'
/// weight; when growing with a total grow factor below one, one (see
/// `grow_divisor`).
pub open spec fn round_weight<T: PartialOrd + Sub<Output = T> + From<u8>>(total_weight: T, fix_weight: T, shrinking: bool) -> T {
    if !shrinking && total_weight.is_lt(&one()) {
        one()
    } else {
        total_weight.sub_spec(fix_weight)
    }
}

/// Further rounds while an item was newly held: each takes the weight of
/// `round_weight`, and as space `length` less the held items' bounds and the
/// free items' bases; a round that holds an item frees none, so the rounds
/// end.
pub open spec fn later_rounds<T: PartialOrd + Add<Output = T> + Sub<Output = T> + Mul<Output = T> + Div<Output = T> + From<u8>>(st: RoundState<T>, shrinking: bool, total_weight: T, length: T) -> RoundState<T>
    decreases count_ok(st.arr),
{
    if !st.re_calc {
        st
    } else {
        let w = round_weight(total_weight, st.fix_weight, shrinking);
        let wb = length.sub_spec(st.fix_basis).sub_spec(st.re_basis);
        let st2 = later_pass(RoundState { re_basis: zero(), re_calc: false, ..st }, st.arr.len() as int, shrinking, w, wb);
        if count_ok(st2.arr) < count_ok(st.arr) {
            later_rounds(st2, shrinking, total_weight, length)
        } else {
            st2
        }
    }
}

/// Distribution under the bounds: a first round with the whole weight (for
/// growing, `grow_divisor` of it) and the space `main` less the bases, then
/// further rounds within `main`.
pub open spec fn distribute_spec<T: PartialEq + PartialOrd + Add<Output = T> + Sub<Output = T> + Mul<Output = T> + Div<Output = T> + From<u8>>(c: GrowShrinkContext<T>, arr: Seq<Data<T>>, main: T, shrinking: bool) -> RoundState<T> {
    let total = if shrinking {
        c.shrink_weight
    } else {
        c.grow_weight
    };
    let fixed = if shrinking {
        c.no_shrink_basis
    } else {
        c.no_grow_basis
    };
    let flexible = if shrinking {
        c.shrink_basis
    } else {
        c.grow_basis
    };
    let first_weight = if shrinking {
        total
    } else {
        grow_divisor(total)
    };
    let st0 = RoundState {
        arr,
        amount: c.amount,
        fix_weight: zero(),
        fix_basis: fixed,
        re_basis: zero(),
        re_calc: false,
    };
    let first = first_pass(st0, arr.len() as int, shrinking, first_weight, main.sub_spec(fixed).sub_spec(flexible));
    later_rounds(first, shrinking, total, main)
}

/// The operations of `flex_value` are defined for the item.
pub open spec fn flex_req<T: PartialOrd + Add<Output = T> + Mul<Output = T> + Div<Output = T>>(d: Data<T>, shrinking: bool, weight: T, weight_basis: T) -> bool {
    let b = real_basis(d);
    if shrinking {
        let p = d.shrink.mul_spec(b).mul_spec(weight_basis);
        d.shrink.mul_req(b) && d.shrink.mul_spec(b).mul_req(weight_basis) && p.div_req(weight)
            && b.add_req(p.div_spec(weight))
    } else {
        let p = d.grow.mul_spec(weight_basis);
        d.grow.mul_req(weight_basis) && p.div_req(weight) && b.add_req(p.div_spec(weight))
    }
}

/// The operations of `first_step` are defined.
pub open spec fn first_step_req<T: PartialEq + PartialOrd + Add<Output = T> + Mul<Output = T> + Div<Output = T> + From<u8>>(st: RoundState<T>, j: int, shrinking: bool, weight: T, weight_basis: T) -> bool {
    let d = st.arr[j];
    let b = real_basis(d);
    if factor(d, shrinking).eq_spec(&zero()) {
        st.amount.add_req(b)
    } else {
        let r = flex_value(d, shrinking, weight, weight_basis);
        &&& flex_req(d, shrinking, weight, weight_basis)
        &&& if bound(d, shrinking) is Some && passes_bound(r, bound(d, shrinking)->0, shrinking, true) {
            let m = bound(d, shrinking)->0;
            st.fix_weight.add_req(item_weight(d, shrinking)) && st.fix_basis.add_req(m) && st.amount.add_req(m)
        } else {
            st.re_basis.add_req(b) && st.amount.add_req(r)
        }
    }
}

/// The operations of `later_step` are defined.
pub open spec fn later_step_req<T: PartialOrd + Add<Output = T> + Sub<Output = T> + Mul<Output = T> + Div<Output = T>>(st: RoundState<T>, j: int, shrinking: bool, weight: T, weight_basis: T) -> bool {
    let d = st.arr[j];
    d.result_maybe_ok ==> {
        let a = st.amount.sub_spec(d.result);
        let r = flex_value(d, shrinking, weight, weight_basis);
        &&& st.amount.sub_req(d.result)
        &&& flex_req(d, shrinking, weight, weight_basis)
        &&& if bound(d, shrinking) is Some && passes_bound(r, bound(d, shrinking)->0, shrinking, false) {
            let m = bound(d, shrinking)->0;
            (shrinking ==> d.shrink.mul_req(real_basis(d))) && st.fix_weight.add_req(item_weight(d, shrinking))
                && st.fix_basis.add_req(m) && a.add_req(m)
        } else {
            st.re_basis.add_req(real_basis(d)) && a.add_req(r)
        }
    }
}

/// The operations of `first_pass` are defined.
pub open spec fn first_pass_req<T: PartialEq + PartialOrd + Add<Output = T> + Mul<Output = T> + Div<Output = T> + From<u8>>(st: RoundState<T>, k: int, shrinking: bool, weight: T, weight_basis: T) -> bool
    decreases k,
{
    k <= 0 || (first_pass_req(st, k - 1, shrinking, weight, weight_basis)
        && first_step_req(first_pass(st, k - 1, shrinking, weight, weight_basis), k - 1, shrinking, weight, weight_basis))
}

/// The operations of `later_pass` are defined.
pub open spec fn later_pass_req<T: PartialOrd + Add<Output = T> + Sub<Output = T> + Mul<Output = T> + Div<Output = T>>(st: RoundState<T>, k: int, shrinking: bool, weight: T, weight_basis: T) -> bool
    decreases k,
{
    k <= 0 || (later_pass_req(st, k - 1, shrinking, weight, weight_basis)
        && later_step_req(later_pass(st, k - 1, shrinking, weight, weight_basis), k - 1, shrinking, weight, weight_basis))
}

/// The operations of `later_rounds` are defined.
pub open spec fn later_rounds_req<T: PartialOrd + Add<Output = T> + Sub<Output = T> + Mul<Output = T> + Div<Output = T> + From<u8>>(st: RoundState<T>, shrinking: bool, total_weight: T, length: T) -> bool
    decreases count_ok(st.arr),
{
    if !st.re_calc {
        true
    } else {
        let w = round_weight(total_weight, st.fix_weight, shrinking);
        let wb = length.sub_spec(st.fix_basis).sub_spec(st.re_basis);
        let st1 = RoundState { re_basis: zero(), re_calc: false, ..st };
        let st2 = later_pass(st1, st.arr.len() as int, shrinking, w, wb);
        &&& !(!shrinking && total_weight.is_lt(&one())) ==> total_weight.sub_req(st.fix_weight)
        &&& length.sub_req(st.fix_basis) && length.sub_spec(st.fix_basis).sub_req(st.re_basis)
        &&& later_pass_req(st1, st.arr.len() as int, shrinking, w, wb)
        &&& count_ok(st2.arr) < count_ok(st.arr) ==> later_rounds_req(st2, shrinking, total_weight, length)
    }
}

/// The operations of `distribute_spec` are defined.
pub open spec fn distribute_req<T: PartialEq + PartialOrd + Add<Output = T> + Sub<Output = T> + Mul<Output = T> + Div<Output = T> + From<u8>>(c: GrowShrinkContext<T>, arr: Seq<Data<T>>, main: T, shrinking: bool) -> bool {
    let total = if shrinking {
        c.shrink_weight
    } else {
        c.grow_weight
    };
    let fixed = if shrinking {
        c.no_shrink_basis
    } else {
        c.no_grow_basis
    };
    let flexible = if shrinking {
        c.shrink_basis
    } else {
        c.grow_basis
    };
    let first_weight = if shrinking {
        total
    } else {
        grow_divisor(total)
    };
    let st0 = RoundState { arr, amount: c.amount, fix_weight: zero(), fix_basis: fixed, re_basis: zero(), re_calc: false };
    let wb = main.sub_spec(fixed).sub_spec(flexible);
    &&& main.sub_req(fixed) && main.sub_spec(fixed).sub_req(flexible)
    &&& first_pass_req(st0, arr.len() as int, shrinking, first_weight, wb)
    &&& later_rounds_req(first_pass(st0, arr.len() as int, shrinking, first_weight, wb), shrinking, total, main)
}

/// Where the operations of a pass are defined, they are at each of its steps.
proof fn lemma_first_pass_req_step<T: PartialEq + PartialOrd + Add<Output = T> + Mul<Output = T> + Div<Output = T> + From<u8>>(st: RoundState<T>, k: int, i: int, shrinking: bool, w: T, wb: T)
    requires
        first_pass_req(st, k, shrinking, w, wb),
        0 <= i < k,
    ensures
        first_step_req(first_pass(st, i, shrinking, w, wb), i, shrinking, w, wb),
    decreases k,
{
    if i < k - 1 {
        lemma_first_pass_req_step(st, k - 1, i, shrinking, w, wb);
    }
}

/// Where the operations of a later pass are defined, they are at each of its steps.
proof fn lemma_later_pass_req_step<T: PartialOrd + Add<Output = T> + Sub<Output = T> + Mul<Output = T> + Div<Output = T>>(st: RoundState<T>, k: int, i: int, shrinking: bool, w: T, wb: T)
    requires
        later_pass_req(st, k, shrinking, w, wb),
        0 <= i < k,
    ensures
        later_step_req(later_pass(st, i, shrinking, w, wb), i, shrinking, w, wb),
    decreases k,
{
    if i < k - 1 {
        lemma_later_pass_req_step(st, k - 1, i, shrinking, w, wb);
    }
}

/// Items that are not free now were not free before: then the free items are
/// no more, and fewer where one was freed before and is not now.
proof fn lemma_count_mono<T>(a: Seq<Data<T>>, b: Seq<Data<T>>)
    requires
        a.len() == b.len(),
        forall|j: int| 0 <= j < a.len() ==> (#[trigger] b[j]).result_maybe_ok ==> a[j].result_maybe_ok,
    ensures
        count_ok(b) <= count_ok(a),
        (exists|j: int| 0 <= j < a.len() && a[j].result_maybe_ok && !(#[trigger] b[j]).result_maybe_ok)
            ==> count_ok(b) < count_ok(a),
    decreases a.len(),
{
    if a.len() > 0 {
        let n = a.len() - 1;
        assert forall|j: int| 0 <= j < n && (#[trigger] b.drop_last()[j]).result_maybe_ok
            implies a.drop_last()[j].result_maybe_ok by {
            assert(b.drop_last()[j] == b[j]);
            assert(a.drop_last()[j] == a[j]);
        }
        lemma_count_mono(a.drop_last(), b.drop_last());
        if exists|j: int| 0 <= j < a.len() && a[j].result_maybe_ok && !(#[trigger] b[j]).result_maybe_ok {
            let j = choose|j: int| 0 <= j < a.len() && a[j].result_maybe_ok && !(#[trigger] b[j]).result_maybe_ok;
            if j < n {
                assert(a.drop_last()[j] == a[j]);
                assert(b.drop_last()[j] == b[j]);
            }
        }
    }
}

impl<T: Copy + PartialEq + PartialOrd + Add<Output = T> + Sub<Output = T> + Mul<Output = T> + Div<Output = T> + From<u8>> GrowShrinkContext<T> {
    /// Distributes `main` over the items under their bounds (see `distribute_spec`).
    fn distribute(&mut self, array: &mut [Data<T>], main: T, shrinking: bool)
        requires
            (obeys_laws::<T>() && distribute_req(*old(self), old(array)@, main, shrinking)) || ops_total::<T>(),
        ensures
            same_items(old(array)@, final(array)@),
            *final(self) == (GrowShrinkContext { amount: final(self).amount, ..*old(self) }),
            obeys_laws::<T>() ==> final(array)@ == distribute_spec(*old(self), old(array)@, main, shrinking).arr,
            obeys_laws::<T>() ==> final(self).amount == distribute_spec(*old(self), old(array)@, main, shrinking).amount,
    {
        let zero = T::from(0u8);
        let total_weight = if shrinking {
            self.shrink_weight
        } else {
            self.grow_weight
        };
        let mut fix_weight = zero;
        let mut fix_basis = if shrinking {
            self.no_shrink_basis
        } else {
            self.no_grow_basis
        };
        let flexible = if shrinking {
            self.shrink_basis
        } else {
            self.grow_basis
        };
        let one = T::from(1u8);
        let below_one = !shrinking && total_weight < one;
        let mut re_basis = zero;
        let mut re_calc = false;
        let weight = if below_one {
            one
        } else {
            total_weight
        };
        let weight_basis = main - fix_basis - flexible;
        let ghost st0 = RoundState {
            arr: array@,
            amount: self.amount,
            fix_weight: fix_weight,
            fix_basis: fix_basis,
            re_basis: re_basis,
            re_calc: false,
        };
        let n = array.len();
        let ghost fully = first_pass(st0, n as int, shrinking, weight, weight_basis);
        let mut i: usize = 0;
        while i < n
            invariant
                n == array@.len(),
                n == old(array)@.len(),
                i <= n,
                ops_total::<T>() || (obeys_laws::<T>() && first_pass_req(st0, n as int, shrinking, weight, weight_basis)
                    && later_rounds_req(fully, shrinking, total_weight, main)),
                fully == first_pass(st0, n as int, shrinking, weight, weight_basis),
                *self == (GrowShrinkContext { amount: self.amount, ..*old(self) }),
                same_items(old(array)@, array@),
                st0.arr == old(array)@,
                obeys_laws::<T>() ==> zero == crate::calc::zero::<T>(),
                obeys_laws::<T>() ==> (RoundState {
                    arr: array@,
                    amount: self.amount,
                    fix_weight: fix_weight,
                    fix_basis: fix_basis,
                    re_basis: re_basis,
                    re_calc: re_calc,
                }) == first_pass(st0, i as int, shrinking, weight, weight_basis),
            decreases n - i,
        {
            proof {
                if !ops_total::<T>() {
                    lemma_first_pass_req_step(st0, n as int, i as int, shrinking, weight, weight_basis);
                }
            }
            let mut el = array[i];
            let b = el.get_real_basis();
            let f = if shrinking {
                el.shrink
            } else {
                el.grow
            };
            if f == zero {
                el.result = b;
            } else {
                let r = if shrinking {
                    b + el.shrink * b * weight_basis / weight
                } else {
                    b + el.grow * weight_basis / weight
                };
                let bound = if shrinking {
                    el.min
                } else {
                    el.max
                };
                let mut held = false;
                if let Some(m) = bound {
                    let reached = if shrinking {
                        r <= m
                    } else {
                        r >= m
                    };
                    if reached {
                        held = true;
                        re_calc = true;
                        let w = if shrinking {
                            el.shrink * b
                        } else {
                            el.grow
                        };
                        fix_weight = fix_weight + w;
                        fix_basis = fix_basis + m;
                        el.result = m;
                    }
                }
                if !held {
                    el.result_maybe_ok = true;
                    re_basis = re_basis + b;
                    el.result = r;
                }
            }
            self.amount = self.amount + el.result;
            array[i] = el;
            i = i + 1;
        }
        let ghost first = RoundState {
            arr: array@,
            amount: self.amount,
            fix_weight: fix_weight,
            fix_basis: fix_basis,
            re_basis: re_basis,
            re_calc: re_calc,
        };
        while re_calc
            invariant
                n == array@.len(),
                n == old(array)@.len(),
                ops_total::<T>() || (obeys_laws::<T>() && later_rounds_req(RoundState {
                    arr: array@,
                    amount: self.amount,
                    fix_weight: fix_weight,
                    fix_basis: fix_basis,
                    re_basis: re_basis,
                    re_calc: re_calc,
                }, shrinking, total_weight, main)),
                *self == (GrowShrinkContext { amount: self.amount, ..*old(self) }),
                same_items(old(array)@, array@),
                obeys_laws::<T>() ==> zero == crate::calc::zero::<T>(),
                obeys_laws::<T>() ==> total_weight == (if shrinking {
                    old(self).shrink_weight
                } else {
                    old(self).grow_weight
                }),
                obeys_laws::<T>() ==> one == crate::calc::one::<T>(),
                obeys_laws::<T>() ==> below_one == (!shrinking && total_weight.is_lt(&one)),
                obeys_laws::<T>() ==> later_rounds(RoundState {
                    arr: array@,
                    amount: self.amount,
                    fix_weight: fix_weight,
                    fix_basis: fix_basis,
                    re_basis: re_basis,
                    re_calc: re_calc,
                }, shrinking, total_weight, main) == later_rounds(first, shrinking, total_weight, main),
            decreases count_ok(array@) + if re_calc {
                1nat
            } else {
                0nat
            },
        {
            let weight = if below_one {
                one
            } else {
                total_weight - fix_weight
            };
            let weight_basis = main - fix_basis - re_basis;
            let ghost cur = RoundState {
                arr: array@,
                amount: self.amount,
                fix_weight: fix_weight,
                fix_basis: fix_basis,
                re_basis: re_basis,
                re_calc: re_calc,
            };
            re_basis = zero;
            re_calc = false;
            let ghost start = RoundState {
                arr: array@,
                amount: self.amount,
                fix_weight: fix_weight,
                fix_basis: fix_basis,
                re_basis: re_basis,
                re_calc: false,
            };
            proof {
                if obeys_laws::<T>() {
                    assert(start == (RoundState { re_basis: crate::calc::zero::<T>(), re_calc: false, ..cur }));
                }
            }
            let ghost mut held_at: int = 0;
            let mut i: usize = 0;
            while i < n
                invariant
                    n == array@.len(),
                    n == start.arr.len(),
                    n == old(array)@.len(),
                    i <= n,
                    ops_total::<T>() || (obeys_laws::<T>() && later_pass_req(start, n as int, shrinking, weight, weight_basis)
                        && (count_ok(later_pass(start, n as int, shrinking, weight, weight_basis).arr) < count_ok(start.arr)
                            ==> later_rounds_req(later_pass(start, n as int, shrinking, weight, weight_basis), shrinking, total_weight, main))),
                    *self == (GrowShrinkContext { amount: self.amount, ..*old(self) }),
                    same_items(old(array)@, array@),
                    forall|j: int| i <= j < n ==> #[trigger] array@[j] == start.arr[j],
                    forall|j: int| 0 <= j < n ==> (#[trigger] array@[j]).result_maybe_ok
                        ==> start.arr[j].result_maybe_ok,
                    re_calc ==> 0 <= held_at < n && start.arr[held_at].result_maybe_ok
                        && !array@[held_at].result_maybe_ok,
                    obeys_laws::<T>() ==> (RoundState {
                        arr: array@,
                        amount: self.amount,
                        fix_weight: fix_weight,
                        fix_basis: fix_basis,
                        re_basis: re_basis,
                        re_calc: re_calc,
                    }) == later_pass(start, i as int, shrinking, weight, weight_basis),
                decreases n - i,
            {
                proof {
                    if !ops_total::<T>() {
                        lemma_later_pass_req_step(start, n as int, i as int, shrinking, weight, weight_basis);
                    }
                }
                let mut el = array[i];
                if el.result_maybe_ok {
                    self.amount = self.amount - el.result;
                    let b = el.get_real_basis();
                    let r = if shrinking {
                        b + el.shrink * b * weight_basis / weight
                    } else {
                        b + el.grow * weight_basis / weight
                    };
                    let bound = if shrinking {
                        el.min
                    } else {
                        el.max
                    };
                    let mut held = false;
                    if let Some(m) = bound {
                        let passed = if shrinking {
                            r < m
                        } else {
                            r > m
                        };
                        if passed {
                            proof {
                                held_at = i as int;
                            }
                            held = true;
                            el.result_maybe_ok = false;
                            re_calc = true;
                            let w = if shrinking {
                                el.shrink * b
                            } else {
                                el.grow
                            };
                            fix_weight = fix_weight + w;
                            fix_basis = fix_basis + m;
                            el.result = m;
                        }
                    }
                    if !held {
                        re_basis = re_basis + b;
                        el.result = r;
                    }
                    self.amount = self.amount + el.result;
                    array[i] = el;
                }
                i = i + 1;
            }
            proof {
                if re_calc {
                    assert(start.arr[held_at].result_maybe_ok && !array@[held_at].result_maybe_ok);
                }
                lemma_count_mono(start.arr, array@);
                if obeys_laws::<T>() {
                    assert(start == (RoundState { re_basis: crate::calc::zero::<T>(), re_calc: false, ..cur }));
                }
            }
        }
    }
}

/// The way `calculate` sizes the items.
pub enum Distribution {
    /// Every item takes its basis.
    Bases,
    /// Every shrinking item takes its minimum.
    Minima,
    /// The shrinking items shrink in proportion.
    Shrink,
    /// The shrinking items shrink in proportion, held at their minima.
    ShrinkBounded,
    /// Every growing item takes its maximum.
    Maxima,
    /// The growing items grow in proportion.
    Grow,
    /// The growing items grow in proportion, held at their maxima.
    GrowBounded,
}

/// The distribution chosen for the totals `c` and the container size `main`:
/// the bases fit exactly, or nothing can shrink or grow; when the bases
/// overflow, the minima if even they do not fit, proportional shrinking if
/// no shrinking item has a minimum, bounded shrinking otherwise; when they
/// underflow, the maxima if every growing item has one and they fit,
/// proportional growing if no growing item has a maximum, bounded growing
/// otherwise.
pub open spec fn distribution<T: PartialEq + PartialOrd + Add<Output = T> + From<u8>>(c: GrowShrinkContext<T>, main: T) -> Distribution {
    if c.basis.eq_spec(&main) {
        Distribution::Bases
    } else if c.basis.is_gt(&main) {
        if c.shrink_weight.eq_spec(&zero()) {
            Distribution::Bases
        } else if c.no_shrink_basis.add_spec(c.min_shrink_amount).is_ge(&main) {
            Distribution::Minima
        } else if c.min_shrink_amount.eq_spec(&zero()) {
            Distribution::Shrink
        } else {
            Distribution::ShrinkBounded
        }
    } else if c.grow_weight.eq_spec(&zero()) {
        Distribution::Bases
    } else if c.only_grow_count == 0 && c.max_grow_amount.add_spec(c.no_grow_basis).is_le(&main) {
        Distribution::Maxima
    } else if c.max_grow_amount.eq_spec(&zero()) {
        Distribution::Grow
    } else {
        Distribution::GrowBounded
    }
}

/// The totals and the items after `calculate`: the items sized by the chosen
/// distribution, and the sum of their sizes (and, for proportional steps, the
/// weight and space used) recorded in the totals.
pub open spec fn calculate_spec<T: PartialEq + PartialOrd + Add<Output = T> + Sub<Output = T> + Mul<Output = T> + Div<Output = T> + From<u8>>(c: GrowShrinkContext<T>, arr: Seq<Data<T>>, main: T) -> (GrowShrinkContext<T>, Seq<Data<T>>) {
    match distribution(c, main) {
        Distribution::Bases => (
            GrowShrinkContext { amount: c.basis, ..c },
            arr.map_values(|d: Data<T>| with_result(d, real_basis(d))),
        ),
        Distribution::Minima => (
            GrowShrinkContext { amount: c.no_shrink_basis.add_spec(c.min_shrink_amount), ..c },
            arr.map_values(|d: Data<T>| with_result(d, set_min_spec(d))),
        ),
        Distribution::Shrink => {
            let wb = main.sub_spec(c.no_shrink_basis).sub_spec(c.shrink_basis);
            (
                GrowShrinkContext { weight: c.shrink_weight, weight_basis: wb, amount: main, ..c },
                arr.map_values(|d: Data<T>| with_result(d, shrink_spec(d, c.shrink_weight, wb))),
            )
        },
        Distribution::ShrinkBounded => {
            let st = distribute_spec(c, arr, main, true);
            (GrowShrinkContext { amount: st.amount, ..c }, st.arr)
        },
        Distribution::Maxima => (
            GrowShrinkContext { amount: c.no_grow_basis.add_spec(c.max_grow_amount), ..c },
            arr.map_values(|d: Data<T>| with_result(d, set_max_spec(d))),
        ),
        Distribution::Grow => {
            let wb = main.sub_spec(c.no_grow_basis).sub_spec(c.grow_basis);
            let w = grow_divisor(c.grow_weight);
            (
                GrowShrinkContext { weight: w, weight_basis: wb, amount: main, ..c },
                arr.map_values(|d: Data<T>| with_result(d, grow_spec(d, w, wb))),
            )
        },
        Distribution::GrowBounded => {
            let st = distribute_spec(c, arr, main, false);
            (GrowShrinkContext { amount: st.amount, ..c }, st.arr)
        },
    }
}

/// The operations of `calculate` are defined: the sums it compares with
/// the container size on its way, and those of the distribution it chooses.
pub open spec fn calculate_req<T: PartialEq + PartialOrd + Add<Output = T> + Sub<Output = T> + Mul<Output = T> + Div<Output = T> + From<u8>>(c: GrowShrinkContext<T>, arr: Seq<Data<T>>, main: T) -> bool {
    let over = !c.basis.eq_spec(&main) && c.basis.is_gt(&main);
    let under = !c.basis.eq_spec(&main) && !c.basis.is_gt(&main);
    &&& over && !c.shrink_weight.eq_spec(&zero()) ==> c.no_shrink_basis.add_req(c.min_shrink_amount)
    &&& under && !c.grow_weight.eq_spec(&zero()) && c.only_grow_count == 0 ==> c.max_grow_amount.add_req(c.no_grow_basis)
    &&& match distribution(c, main) {
        Distribution::Maxima => c.no_grow_basis.add_req(c.max_grow_amount),
        Distribution::Shrink => {
            let wb = main.sub_spec(c.no_shrink_basis).sub_spec(c.shrink_basis);
            &&& main.sub_req(c.no_shrink_basis) && main.sub_spec(c.no_shrink_basis).sub_req(c.shrink_basis)
            &&& forall|i: int| 0 <= i < arr.len() ==> #[trigger] shrink_req(arr[i], c.shrink_weight, wb)
        },
        Distribution::ShrinkBounded => distribute_req(c, arr, main, true),
        Distribution::Grow => {
            let wb = main.sub_spec(c.no_grow_basis).sub_spec(c.grow_basis);
            &&& main.sub_req(c.no_grow_basis) && main.sub_spec(c.no_grow_basis).sub_req(c.grow_basis)
            &&& forall|i: int| 0 <= i < arr.len() ==> #[trigger] grow_req(arr[i], grow_divisor(c.grow_weight), wb)
        },
        Distribution::GrowBounded => distribute_req(c, arr, main, false),
        _ => true,
    }
}

/// A defined number as `Some`, an undefined one as `None`.
pub open spec fn number_option<T>(n: Number<T>) -> Option<T> {
    match n {
        Number::Defined(v) => Some(v),
        Number::Undefined => None,
    }
}

/// A flex item as an item of the distribution: its factors, its main-axis
/// bounds, its main size as basis and length, and its main-axis result.
pub open spec fn item_data<K, T>(el: RelNodeInfo<K, T>) -> Data<T> {
    Data {
        grow: el.grow,
        shrink: el.shrink,
        min: number_option(el.min_main),
        max: number_option(el.max_main),
        basis: Some(el.main),
        length: el.main,
        result: el.main_result,
        result_maybe_ok: el.main_result_maybe_ok,
    }
}

impl<T: Copy + PartialEq + PartialOrd + Add<Output = T> + Sub<Output = T> + Mul<Output = T> + Div<Output = T> + From<u8>> GrowShrinkContext<T> {
    /// Counts a flex item into the totals (see `item_data` and `stat_step`).
    pub fn statistics<K>(&mut self, el: RelNodeInfo<K, T>)
        requires
            (obeys_laws::<T>() && stat_step_req(*old(self), item_data(el))) || ops_total::<T>(),
            old(self).only_grow_count < u32::MAX,
        ensures
            obeys_laws::<T>() ==> *final(self) == stat_step(*old(self), item_data(el)),
            final(self).length == old(self).length,
            final(self).amount == old(self).amount,
            final(self).weight == old(self).weight,
            final(self).weight_basis == old(self).weight_basis,
    {
        let min = match el.min_main {
            Number::Defined(v) => Some(v),
            Number::Undefined => None,
        };
        let max = match el.max_main {
            Number::Defined(v) => Some(v),
            Number::Undefined => None,
        };
        let data = Data {
            grow: el.grow,
            shrink: el.shrink,
            min,
            max,
            basis: Some(el.main),
            length: el.main,
            result: el.main_result,
            result_maybe_ok: el.main_result_maybe_ok,
        };
        data.statistics(self);
    }

    /// Shrinks the shrinking items in proportion, holding each at its
    /// minimum (see `distribute_spec`).
    pub fn shrink_min(&mut self, array: &mut [Data<T>], main: T)
        requires
            (obeys_laws::<T>() && distribute_req(*old(self), old(array)@, main, true)) || ops_total::<T>(),
        ensures
            same_items(old(array)@, final(array)@),
            *final(self) == (GrowShrinkContext { amount: final(self).amount, ..*old(self) }),
            obeys_laws::<T>() ==> final(array)@ == distribute_spec(*old(self), old(array)@, main, true).arr,
            obeys_laws::<T>() ==> final(self).amount == distribute_spec(*old(self), old(array)@, main, true).amount,
    {
        self.distribute(array, main, true);
    }

    /// Grows the growing items in proportion, holding each at its maximum
    /// (see `distribute_spec`).
    pub fn grow_max(&mut self, array: &mut [Data<T>], main: T)
        requires
            (obeys_laws::<T>() && distribute_req(*old(self), old(array)@, main, false)) || ops_total::<T>(),
        ensures
            same_items(old(array)@, final(array)@),
            *final(self) == (GrowShrinkContext { amount: final(self).amount, ..*old(self) }),
            obeys_laws::<T>() ==> final(array)@ == distribute_spec(*old(self), old(array)@, main, false).arr,
            obeys_laws::<T>() ==> final(self).amount == distribute_spec(*old(self), old(array)@, main, false).amount,
    {
        self.distribute(array, main, false);
    }

    /// Sizes the items from the totals and the container size `main` (see
    /// `distribution` and `calculate_spec`).
    pub fn calculate(&mut self, array: &mut [Data<T>], main: T)
        requires
            (obeys_laws::<T>() && calculate_req(*old(self), old(array)@, main)) || ops_total::<T>(),
            (obeys_laws::<T>() && !(distribution(*old(self), main) is Maxima))
                || forall|i: int| 0 <= i < old(array)@.len() ==> #[trigger] max_defined(old(array)@[i]),
        ensures
            same_items(old(array)@, final(array)@),
            obeys_laws::<T>() ==> (*final(self), final(array)@) == calculate_spec(*old(self), old(array)@, main),
            (obeys_laws::<T>() && total_order::<T>() && none_free(old(array)@)
                && forall|i: int| 0 <= i < old(array)@.len() ==> #[trigger] bounded_item(old(array)@[i]))
                ==> forall|i: int| 0 <= i < old(array)@.len()
                    ==> kept_within(distribution(*old(self), main), old(array)@[i], #[trigger] final(array)@[i]),
    {
        let zero = T::from(0u8);
        let ghost c = *self;
        let ghost a = array@;
        proof {
            if total_order::<T>() && none_free(a) && forall|i: int| 0 <= i < a.len() ==> #[trigger] bounded_item(a[i]) {
                lemma_calculate_within_bounds(c, a, main);
            }
        }
        if self.basis == main {
            self.amount = self.basis;
            self.set_basis(array);
            proof {
                if obeys_laws::<T>() {
                    assert(array@ =~= a.map_values(|d: Data<T>| with_result(d, real_basis(d))));
                }
            }
            return;
        }
        if self.basis > main {
            if self.shrink_weight == zero {
                self.amount = self.basis;
                self.set_basis(array);
                proof {
                    if obeys_laws::<T>() {
                        assert(array@ =~= a.map_values(|d: Data<T>| with_result(d, real_basis(d))));
                    }
                }
                return;
            }
            if self.no_shrink_basis + self.min_shrink_amount >= main {
                self.amount = self.no_shrink_basis + self.min_shrink_amount;
                self.set_min(array);
                proof {
                    if obeys_laws::<T>() {
                        assert(array@ =~= a.map_values(|d: Data<T>| with_result(d, set_min_spec(d))));
                    }
                }
                return;
            }
            if self.min_shrink_amount == zero {
                self.weight = self.shrink_weight;
                self.weight_basis = main - self.no_shrink_basis - self.shrink_basis;
                self.amount = main;
                self.shrink(array);
                proof {
                    if obeys_laws::<T>() {
                        let wb = main.sub_spec(c.no_shrink_basis).sub_spec(c.shrink_basis);
                        assert(array@ =~= a.map_values(|d: Data<T>| with_result(d, shrink_spec(d, c.shrink_weight, wb))));
                    }
                }
                return;
            }
            self.shrink_min(array, main);
            return;
        }
        if self.grow_weight == zero {
            self.amount = self.basis;
            self.set_basis(array);
            proof {
                if obeys_laws::<T>() {
                    assert(array@ =~= a.map_values(|d: Data<T>| with_result(d, real_basis(d))));
                }
            }
            return;
        }
        if self.only_grow_count == 0 && self.max_grow_amount + self.no_grow_basis <= main {
            self.amount = self.no_grow_basis + self.max_grow_amount;
            self.set_max(array);
            proof {
                if obeys_laws::<T>() {
                    assert(array@ =~= a.map_values(|d: Data<T>| with_result(d, set_max_spec(d))));
                }
            }
            return;
        }
        if self.max_grow_amount == zero {
            let one = T::from(1u8);
            self.weight = if self.grow_weight < one {
                one
            } else {
                self.grow_weight
            };
            self.weight_basis = main - self.no_grow_basis - self.grow_basis;
            self.amount = main;
            self.grow(array);
            proof {
                if obeys_laws::<T>() {
                    let wb = main.sub_spec(c.no_grow_basis).sub_spec(c.grow_basis);
                    assert(array@ =~= a.map_values(|d: Data<T>| with_result(d, grow_spec(d, grow_divisor(c.grow_weight), wb))));
                }
            }
            return;
        }
        self.grow_max(array, main);
    }
}

/// Item `d` after the first round, taken alone (see `first_step`).
pub open spec fn first_elem<T: PartialEq + PartialOrd + Add<Output = T> + Mul<Output = T> + Div<Output = T> + From<u8>>(d: Data<T>, shrinking: bool, weight: T, weight_basis: T) -> Data<T> {
    if factor(d, shrinking).eq_spec(&zero()) {
        with_result(d, real_basis(d))
    } else {
        let r = flex_value(d, shrinking, weight, weight_basis);
        if bound(d, shrinking) is Some && passes_bound(r, bound(d, shrinking)->0, shrinking, true) {
            with_result(d, bound(d, shrinking)->0)
        } else {
            Data { result: r, result_maybe_ok: true, ..d }
        }
    }
}

/// Item `d` after a later round, taken alone (see `later_step`).
pub open spec fn later_elem<T: PartialOrd + Add<Output = T> + Mul<Output = T> + Div<Output = T>>(d: Data<T>, shrinking: bool, weight: T, weight_basis: T) -> Data<T> {
    if !d.result_maybe_ok {
        d
    } else {
        let r = flex_value(d, shrinking, weight, weight_basis);
        if bound(d, shrinking) is Some && passes_bound(r, bound(d, shrinking)->0, shrinking, false) {
            Data { result: bound(d, shrinking)->0, result_maybe_ok: false, ..d }
        } else {
            with_result(d, r)
        }
    }
}

/// A round changes each item by itself: the first `k` items as `first_elem`
/// says, the others not at all.
proof fn lemma_first_pass_elems<T: PartialEq + PartialOrd + Add<Output = T> + Mul<Output = T> + Div<Output = T> + From<u8>>(st: RoundState<T>, k: int, shrinking: bool, w: T, wb: T)
    requires
        0 <= k <= st.arr.len(),
    ensures
        first_pass(st, k, shrinking, w, wb).arr.len() == st.arr.len(),
        forall|j: int| 0 <= j < st.arr.len() ==> #[trigger] first_pass(st, k, shrinking, w, wb).arr[j] == if j < k {
            first_elem(st.arr[j], shrinking, w, wb)
        } else {
            st.arr[j]
        },
    decreases k,
{
    if k > 0 {
        lemma_first_pass_elems(st, k - 1, shrinking, w, wb);
    }
}

/// A later round changes each item by itself, as `later_elem` says.
proof fn lemma_later_pass_elems<T: PartialOrd + Add<Output = T> + Sub<Output = T> + Mul<Output = T> + Div<Output = T>>(st: RoundState<T>, k: int, shrinking: bool, w: T, wb: T)
    requires
        0 <= k <= st.arr.len(),
    ensures
        later_pass(st, k, shrinking, w, wb).arr.len() == st.arr.len(),
        forall|j: int| 0 <= j < st.arr.len() ==> #[trigger] later_pass(st, k, shrinking, w, wb).arr[j] == if j < k {
            later_elem(st.arr[j], shrinking, w, wb)
        } else {
            st.arr[j]
        },
    decreases k,
{
    if k > 0 {
        lemma_later_pass_elems(st, k - 1, shrinking, w, wb);
    }
}

/// Item `d`, computed from the starting item `d0`, has settled: at its basis when its
/// factor is zero, at its share of the proportional step (`weight`,
/// `weight_basis`) while free, a share that does not pass its bound, at its
/// bound once held.
pub open spec fn settled_item<T: PartialEq + PartialOrd + Add<Output = T> + Mul<Output = T> + Div<Output = T> + From<u8>>(d0: Data<T>, d: Data<T>, shrinking: bool, weight: T, weight_basis: T) -> bool {
    if factor(d0, shrinking).eq_spec(&zero()) {
        d == with_result(d0, real_basis(d0))
    } else if d.result_maybe_ok {
        &&& d == (Data { result: flex_value(d0, shrinking, weight, weight_basis), result_maybe_ok: true, ..d0 })
        &&& bound(d0, shrinking) is Some ==> !passes_bound(d.result, bound(d0, shrinking)->0, shrinking, false)
    } else {
        bound(d0, shrinking) is Some && d == with_result(d0, bound(d0, shrinking)->0)
    }
}

/// Every item of `arr` has settled with respect to the starting items `arr0`.
pub open spec fn settled<T: PartialEq + PartialOrd + Add<Output = T> + Mul<Output = T> + Div<Output = T> + From<u8>>(arr0: Seq<Data<T>>, arr: Seq<Data<T>>, shrinking: bool, weight: T, weight_basis: T) -> bool {
    &&& arr.len() == arr0.len()
    &&& forall|j: int| 0 <= j < arr0.len() ==> #[trigger] settled_item(arr0[j], arr[j], shrinking, weight, weight_basis)
}

/// No item is marked free.
pub open spec fn none_free<T>(arr: Seq<Data<T>>) -> bool {
    forall|i: int| 0 <= i < arr.len() ==> !(#[trigger] arr[i]).result_maybe_ok
}

/// Settled items stay settled through the further rounds, with the step of
/// the last round.
proof fn lemma_rounds_settled<T: PartialEq + PartialOrd + Add<Output = T> + Sub<Output = T> + Mul<Output = T> + Div<Output = T> + From<u8>>(arr0: Seq<Data<T>>, st: RoundState<T>, shrinking: bool, total: T, length: T, w: T, wb: T) -> (step: (T, T))
    requires
        none_free(arr0),
        settled(arr0, st.arr, shrinking, w, wb),
    ensures
        settled(arr0, later_rounds(st, shrinking, total, length).arr, shrinking, step.0, step.1),
        (later_rounds_req(st, shrinking, total, length) && free_defined(arr0, st.arr, shrinking, w, wb))
            ==> free_defined(arr0, later_rounds(st, shrinking, total, length).arr, shrinking, step.0, step.1),
    decreases count_ok(st.arr),
{
    if !st.re_calc {
        (w, wb)
    } else {
        let w2 = round_weight(total, st.fix_weight, shrinking);
        let wb2 = length.sub_spec(st.fix_basis).sub_spec(st.re_basis);
        let st1 = RoundState { re_basis: zero(), re_calc: false, ..st };
        let n = st.arr.len() as int;
        let st2 = later_pass(st1, n, shrinking, w2, wb2);
        lemma_later_pass_elems(st1, n, shrinking, w2, wb2);
        assert forall|j: int| 0 <= j < arr0.len() implies #[trigger] settled_item(arr0[j], st2.arr[j], shrinking, w2, wb2) by {
            assert(settled_item(arr0[j], st.arr[j], shrinking, w, wb));
        }
        if later_rounds_req(st, shrinking, total, length) {
            assert forall|j: int| 0 <= j < arr0.len() && (#[trigger] st2.arr[j]).result_maybe_ok
                implies flex_req(arr0[j], shrinking, w2, wb2) by {
                assert(settled_item(arr0[j], st.arr[j], shrinking, w, wb));
                lemma_later_pass_req_step(st1, n, j, shrinking, w2, wb2);
                lemma_later_pass_elems(st1, j, shrinking, w2, wb2);
                assert(later_pass(st1, j, shrinking, w2, wb2).arr[j] == st.arr[j]);
            }
        }
        if count_ok(st2.arr) < count_ok(st.arr) {
            lemma_rounds_settled(arr0, st2, shrinking, total, length, w2, wb2)
        } else {
            (w2, wb2)
        }
    }
}

/// The free items of `arr` take a share whose operations are defined, the
/// share of the step (`weight`, `weight_basis`) of their starting items `arr0`.
pub open spec fn free_defined<T: PartialOrd + Add<Output = T> + Mul<Output = T> + Div<Output = T>>(arr0: Seq<Data<T>>, arr: Seq<Data<T>>, shrinking: bool, weight: T, weight_basis: T) -> bool {
    forall|j: int| 0 <= j < arr0.len() && (#[trigger] arr[j]).result_maybe_ok ==> flex_req(arr0[j], shrinking, weight, weight_basis)
}

/// Bounded distribution (the one `shrink_min` and `grow_max` perform) ends
/// with every item at its basis when its factor is zero, at its bound when it
/// is held, and at its share of one common proportional step when it is
/// free, provided no item starts marked free; where every operation of the
/// distribution is defined, so are those of each free item's share.
pub proof fn lemma_bounded_distribution_settles<T: PartialEq + PartialOrd + Add<Output = T> + Sub<Output = T> + Mul<Output = T> + Div<Output = T> + From<u8>>(c: GrowShrinkContext<T>, arr: Seq<Data<T>>, main: T, shrinking: bool)
    requires
        none_free(arr),
    ensures
        exists|w: T, wb: T| settled(arr, #[trigger] distribute_spec(c, arr, main, shrinking).arr, shrinking, w, wb)
            && (distribute_req(c, arr, main, shrinking) ==> free_defined(arr, distribute_spec(c, arr, main, shrinking).arr, shrinking, w, wb)),
{
    let total = if shrinking {
        c.shrink_weight
    } else {
        c.grow_weight
    };
    let fixed = if shrinking {
        c.no_shrink_basis
    } else {
        c.no_grow_basis
    };
    let flexible = if shrinking {
        c.shrink_basis
    } else {
        c.grow_basis
    };
    let first_weight = if shrinking {
        total
    } else {
        grow_divisor(total)
    };
    let st0 = RoundState { arr, amount: c.amount, fix_weight: zero(), fix_basis: fixed, re_basis: zero(), re_calc: false };
    let wb0 = main.sub_spec(fixed).sub_spec(flexible);
    let first = first_pass(st0, arr.len() as int, shrinking, first_weight, wb0);
    lemma_first_pass_elems(st0, arr.len() as int, shrinking, first_weight, wb0);
    assert forall|j: int| 0 <= j < arr.len() implies #[trigger] settled_item(arr[j], first.arr[j], shrinking, first_weight, wb0) by {
        assert(!arr[j].result_maybe_ok);
    }
    if distribute_req(c, arr, main, shrinking) {
        assert forall|j: int| 0 <= j < arr.len() && (#[trigger] first.arr[j]).result_maybe_ok
            implies flex_req(arr[j], shrinking, first_weight, wb0) by {
            assert(!arr[j].result_maybe_ok);
            lemma_first_pass_req_step(st0, arr.len() as int, j, shrinking, first_weight, wb0);
            lemma_first_pass_elems(st0, j, shrinking, first_weight, wb0);
            assert(first_pass(st0, j, shrinking, first_weight, wb0).arr[j] == arr[j]);
        }
    }
    let step = lemma_rounds_settled(arr, first, shrinking, total, main, first_weight, wb0);
    assert(settled(arr, distribute_spec(c, arr, main, shrinking).arr, shrinking, step.0, step.1));
}

/// An item that can neither grow nor shrink (both factors equal to zero and
/// neither above it) keeps its basis whichever distribution `calculate`
/// chooses, provided no item starts marked free.
pub proof fn lemma_rigid_item_keeps_basis<T: PartialEq + PartialOrd + Add<Output = T> + Sub<Output = T> + Mul<Output = T> + Div<Output = T> + From<u8>>(c: GrowShrinkContext<T>, arr: Seq<Data<T>>, main: T, j: int)
    requires
        0 <= j < arr.len(),
        none_free(arr),
        arr[j].grow.eq_spec(&zero()),
        arr[j].shrink.eq_spec(&zero()),
        !arr[j].grow.is_gt(&zero()),
        !arr[j].shrink.is_gt(&zero()),
    ensures
        calculate_spec(c, arr, main).1[j] == with_result(arr[j], real_basis(arr[j])),
{
    match distribution(c, main) {
        Distribution::ShrinkBounded => {
            lemma_bounded_distribution_settles(c, arr, main, true);
            let (w, wb) = choose|w: T, wb: T| settled(arr, #[trigger] distribute_spec(c, arr, main, true).arr, true, w, wb)
                && (distribute_req(c, arr, main, true) ==> free_defined(arr, distribute_spec(c, arr, main, true).arr, true, w, wb));
            assert(settled_item(arr[j], distribute_spec(c, arr, main, true).arr[j], true, w, wb));
        },
        Distribution::GrowBounded => {
            lemma_bounded_distribution_settles(c, arr, main, false);
            let (w, wb) = choose|w: T, wb: T| settled(arr, #[trigger] distribute_spec(c, arr, main, false).arr, false, w, wb)
                && (distribute_req(c, arr, main, false) ==> free_defined(arr, distribute_spec(c, arr, main, false).arr, false, w, wb));
            assert(settled_item(arr[j], distribute_spec(c, arr, main, false).arr[j], false, w, wb));
        },
        _ => {},
    }
}


/// `T`'s order is total: every value is at most itself, and a value that is
/// not below (or not above) another is at least (or at most) it.
pub open spec fn total_order<T: PartialOrd>() -> bool {
    &&& forall|x: T| #![trigger x.partial_cmp_spec(&x)] x.is_le(&x)
    &&& forall|x: T, y: T| #![trigger x.partial_cmp_spec(&y)] !x.is_lt(&y) ==> y.is_le(&x)
    &&& forall|x: T, y: T| #![trigger x.partial_cmp_spec(&y)] !x.is_gt(&y) ==> x.is_le(&y)
}

/// The item has both a minimum and a maximum, the minimum at most the maximum.
pub open spec fn bounded_item<T: PartialOrd>(d: Data<T>) -> bool {
    d.min is Some && d.max is Some && d.min->0.is_le(&d.max->0)
}

/// `r` lies within the item's minimum and maximum.
pub open spec fn within<T: PartialOrd>(d: Data<T>, r: T) -> bool {
    d.min->0.is_le(&r) && r.is_le(&d.max->0)
}

/// The sum of the computed sizes, added from the first item on.
pub open spec fn result_sum<T: Add<Output = T> + From<u8>>(s: Seq<Data<T>>) -> T
    decreases s.len(),
{
    if s.len() == 0 {
        zero()
    } else {
        result_sum(s.drop_last()).add_spec(s.last().result)
    }
}

/// The totals of a context that has counted nothing yet.
pub open spec fn empty_context<T: From<u8>>() -> GrowShrinkContext<T> {
    GrowShrinkContext {
        grow_weight: zero(),
        grow_basis: zero(),
        only_grow_count: 0,
        max_grow_amount: zero(),
        no_grow_basis: zero(),
        shrink_weight: zero(),
        shrink_basis: zero(),
        min_shrink_amount: zero(),
        no_shrink_basis: zero(),
        basis: zero(),
        length: zero(),
        amount: zero(),
        weight: zero(),
        weight_basis: zero(),
    }
}

/// What the distribution `dist` keeps of the bounds of item `d0`, computed
/// as `d`: both bounds when every item takes its basis, minimum or maximum;
/// under bounded shrinking the minimum, and both where the item is no
/// longer free; under bounded growing the maximum, and both where the item
/// is no longer free; nothing under the proportional steps.
pub open spec fn kept_within<T: PartialOrd>(dist: Distribution, d0: Data<T>, d: Data<T>) -> bool {
    match dist {
        Distribution::Bases | Distribution::Minima | Distribution::Maxima => within(d0, d.result),
        Distribution::ShrinkBounded => d0.min->0.is_le(&d.result) && (!d.result_maybe_ok ==> within(d0, d.result)),
        Distribution::GrowBounded => d.result.is_le(&d0.max->0) && (!d.result_maybe_ok ==> within(d0, d.result)),
        _ => true,
    }
}

/// A basis clamped to a minimum that is at most the maximum lies between them.
pub proof fn lemma_real_basis_within<T: PartialOrd>(d: Data<T>)
    requires
        total_order::<T>(),
        bounded_item(d),
    ensures
        within(d, real_basis(d)),
{
    let m = d.min->0;
    let mx = d.max->0;
    let b0 = match d.basis {
        Some(b) => b,
        None => d.length,
    };
    let b1 = min_basis_spec(d, b0);
    assert(m.is_le(&b1)) by {
        if !b0.is_lt(&m) {
            assert(m.is_le(&b0));
        } else {
            assert(m.is_le(&m));
        }
    }
    if b1.is_gt(&mx) {
        assert(mx.is_le(&mx));
    } else {
        assert(b1.is_le(&mx));
    }
}

/// The bases counted from nothing add up, item by item, to the totals' sum of bases.
proof fn lemma_bases_sum<T: PartialOrd + Add<Output = T> + Mul<Output = T> + From<u8>>(s: Seq<Data<T>>)
    ensures
        stat_fold(empty_context::<T>(), s).basis == result_sum(s.map_values(|d: Data<T>| with_result(d, real_basis(d)))),
    decreases s.len(),
{
    let f = |d: Data<T>| with_result(d, real_basis(d));
    if s.len() > 0 {
        lemma_bases_sum(s.drop_last());
        assert(s.map_values(f).drop_last() =~= s.drop_last().map_values(f));
    } else {
        assert(s.map_values(f) =~= Seq::<Data<T>>::empty());
    }
}

/// Where every item has a minimum at most its maximum, `calculate` keeps the
/// items within them: every item when all take their bases, minima or
/// maxima; under bounded shrinking an item still free lies at or above its
/// minimum and every other item within both; under bounded growing an item
/// still free lies at or below its maximum and every other item within both.
/// When all take their bases, the recorded amount is the sum of the sizes of
/// items counted from an empty context.
pub proof fn lemma_calculate_within_bounds<T: PartialEq + PartialOrd + Add<Output = T> + Sub<Output = T> + Mul<Output = T> + Div<Output = T> + From<u8>>(c: GrowShrinkContext<T>, arr: Seq<Data<T>>, main: T)
    requires
        total_order::<T>(),
        none_free(arr),
        forall|i: int| 0 <= i < arr.len() ==> #[trigger] bounded_item(arr[i]),
    ensures
        calculate_spec(c, arr, main).1.len() == arr.len(),
        forall|i: int| 0 <= i < arr.len() ==> kept_within(distribution(c, main), arr[i], #[trigger] calculate_spec(c, arr, main).1[i]),
        (distribution(c, main) is Bases && c == stat_fold(empty_context::<T>(), arr))
            ==> calculate_spec(c, arr, main).0.amount == result_sum(calculate_spec(c, arr, main).1),
{
    match distribution(c, main) {
        Distribution::Bases => {
            assert forall|i: int| 0 <= i < arr.len() implies within(arr[i], #[trigger] calculate_spec(c, arr, main).1[i].result) by {
                lemma_real_basis_within(arr[i]);
            }
            if c == stat_fold(empty_context::<T>(), arr) {
                lemma_bases_sum(arr);
            }
        },
        Distribution::Minima => {
            assert forall|i: int| 0 <= i < arr.len() implies within(arr[i], #[trigger] calculate_spec(c, arr, main).1[i].result) by {
                lemma_real_basis_within(arr[i]);
                assert(calculate_spec(c, arr, main).1[i] == with_result(arr[i], set_min_spec(arr[i])));
                assert(bounded_item(arr[i]));
                if !arr[i].shrink.eq_spec(&zero()) {
                    assert(set_min_spec(arr[i]) == arr[i].min->0);
                    assert(arr[i].min->0.is_le(&arr[i].min->0));
                    assert(within(arr[i], arr[i].min->0));
                }
            }
        },
        Distribution::Maxima => {
            assert forall|i: int| 0 <= i < arr.len() implies within(arr[i], #[trigger] calculate_spec(c, arr, main).1[i].result) by {
                lemma_real_basis_within(arr[i]);
                assert(calculate_spec(c, arr, main).1[i] == with_result(arr[i], set_max_spec(arr[i])));
                assert(bounded_item(arr[i]));
                if !arr[i].grow.eq_spec(&zero()) {
                    assert(arr[i].max->0.is_le(&arr[i].max->0));
                    assert(within(arr[i], arr[i].max->0));
                }
            }
        },
        Distribution::ShrinkBounded => {
            lemma_bounded_distribution_settles(c, arr, main, true);
            let (w, wb) = choose|w: T, wb: T| settled(arr, #[trigger] distribute_spec(c, arr, main, true).arr, true, w, wb)
                && (distribute_req(c, arr, main, true) ==> free_defined(arr, distribute_spec(c, arr, main, true).arr, true, w, wb));
            let out = distribute_spec(c, arr, main, true).arr;
            assert forall|i: int| 0 <= i < arr.len() implies kept_within(Distribution::ShrinkBounded, arr[i], #[trigger] out[i]) by {
                assert(settled_item(arr[i], out[i], true, w, wb));
                lemma_real_basis_within(arr[i]);
                assert(arr[i].min->0.is_le(&arr[i].min->0));
                assert(bounded_item(arr[i]));
                if out[i].result_maybe_ok && !factor(arr[i], true).eq_spec(&zero()) {
                    assert(bound(arr[i], true) is Some);
                    assert(!passes_bound(out[i].result, bound(arr[i], true)->0, true, false));
                    assert(!out[i].result.is_lt(&arr[i].min->0));
                }
            }
        },
        Distribution::GrowBounded => {
            lemma_bounded_distribution_settles(c, arr, main, false);
            let (w, wb) = choose|w: T, wb: T| settled(arr, #[trigger] distribute_spec(c, arr, main, false).arr, false, w, wb)
                && (distribute_req(c, arr, main, false) ==> free_defined(arr, distribute_spec(c, arr, main, false).arr, false, w, wb));
            let out = distribute_spec(c, arr, main, false).arr;
            assert forall|i: int| 0 <= i < arr.len() implies kept_within(Distribution::GrowBounded, arr[i], #[trigger] out[i]) by {
                assert(settled_item(arr[i], out[i], false, w, wb));
                lemma_real_basis_within(arr[i]);
                assert(arr[i].max->0.is_le(&arr[i].max->0));
                assert(bounded_item(arr[i]));
                if out[i].result_maybe_ok && !factor(arr[i], false).eq_spec(&zero()) {
                    assert(bound(arr[i], false) is Some);
                    assert(!passes_bound(out[i].result, bound(arr[i], false)->0, false, false));
                    assert(!out[i].result.is_gt(&arr[i].max->0));
                }
            }
        },
        _ => {},
    }
}


/// The order of `u64` is total.
proof fn lemma_total_order_u64()
    ensures
        total_order::<u64>(),
{
}

/// Counted from an empty context without overflow, the sum of all bases of
/// `u64` items splits into the growing and the other items' bases, and into
/// the shrinking and the other items' bases; no growing item lacks a maximum
/// where every item has one.
pub proof fn lemma_stat_sums_u64(s: Seq<Data<u64>>)
    requires
        stat_fold_req(empty_context::<u64>(), s),
    ensures
        stat_fold(empty_context::<u64>(), s).basis == stat_fold(empty_context::<u64>(), s).no_grow_basis
            + stat_fold(empty_context::<u64>(), s).grow_basis,
        stat_fold(empty_context::<u64>(), s).basis == stat_fold(empty_context::<u64>(), s).no_shrink_basis
            + stat_fold(empty_context::<u64>(), s).shrink_basis,
        (forall|i: int| 0 <= i < s.len() ==> (#[trigger] s[i]).max is Some)
            ==> stat_fold(empty_context::<u64>(), s).only_grow_count == 0,
        stat_fold(empty_context::<u64>(), s).amount == 0,
        stat_fold(empty_context::<u64>(), s).grow_weight == 0 ==> stat_fold(empty_context::<u64>(), s).grow_basis == 0,
        stat_fold(empty_context::<u64>(), s).shrink_weight == 0 ==> stat_fold(empty_context::<u64>(), s).shrink_basis == 0,
        (forall|i: int| 0 <= i < s.len() ==> (#[trigger] s[i]).grow == 0) ==> stat_fold(empty_context::<u64>(), s).grow_weight == 0,
        (forall|i: int| 0 <= i < s.len() ==> (#[trigger] s[i]).shrink == 0) ==> stat_fold(empty_context::<u64>(), s).shrink_weight == 0,
    decreases s.len(),
{
    if s.len() > 0 {
        let t = s.drop_last();
        assert forall|i: int| 0 <= i < t.len() implies #[trigger] t[i] == s[i] by {}
        assert(s.last() == s[s.len() - 1]);
        if forall|i: int| 0 <= i < s.len() ==> (#[trigger] s[i]).max is Some {
            assert forall|i: int| 0 <= i < t.len() implies (#[trigger] t[i]).max is Some by {
                assert(t[i] == s[i]);
            }
        }
        if forall|i: int| 0 <= i < s.len() ==> (#[trigger] s[i]).grow == 0 {
            assert forall|i: int| 0 <= i < t.len() implies (#[trigger] t[i]).grow == 0 by {
                assert(t[i] == s[i]);
            }
        }
        if forall|i: int| 0 <= i < s.len() ==> (#[trigger] s[i]).shrink == 0 {
            assert forall|i: int| 0 <= i < t.len() implies (#[trigger] t[i]).shrink == 0 by {
                assert(t[i] == s[i]);
            }
        }
        lemma_stat_sums_u64(t);
        let d = s.last();
        let b = real_basis(d);
        if d.shrink > 0 {
            let sh = d.shrink;
            assert(sh * b == 0 ==> b == 0) by (nonlinear_arith)
                requires
                    sh > 0,
                    b >= 0,
            ;
        }
    }
}

/// With `u64` sizes, where every item has a minimum at most its maximum, the
/// items are counted from an empty context and every operation that counting
/// and `calculate` perform is defined: every item ends within its minimum
/// and maximum, and the recorded amount is the sum of the sizes.
pub proof fn lemma_calculate_within_bounds_u64(arr: Seq<Data<u64>>, main: u64)
    requires
        none_free(arr),
        forall|i: int| 0 <= i < arr.len() ==> #[trigger] bounded_item(arr[i]),
        stat_fold_req(empty_context::<u64>(), arr),
        calculate_req(stat_fold(empty_context::<u64>(), arr), arr, main),
    ensures
        forall|i: int| 0 <= i < arr.len()
            ==> within(arr[i], (#[trigger] calculate_spec(stat_fold(empty_context::<u64>(), arr), arr, main).1[i]).result),
        calculate_spec(stat_fold(empty_context::<u64>(), arr), arr, main).0.amount
            == result_sum(calculate_spec(stat_fold(empty_context::<u64>(), arr), arr, main).1),
{
    let c = stat_fold(empty_context::<u64>(), arr);
    lemma_total_order_u64();
    assert forall|k: int| 0 <= k < arr.len() implies (#[trigger] arr[k]).max is Some by {
        assert(bounded_item(arr[k]));
    }
    lemma_stat_sums_u64(arr);
    lemma_calculate_within_bounds(c, arr, main);
    let out = calculate_spec(c, arr, main).1;
    assert forall|i: int| 0 <= i < arr.len() implies within(arr[i], (#[trigger] out[i]).result) by {
        assert(kept_within(distribution(c, main), arr[i], out[i]));
        assert(bounded_item(arr[i]));
        match distribution(c, main) {
            Distribution::Shrink => {
                assert(false);
            },
            Distribution::ShrinkBounded => {
                assert(false);
            },
            Distribution::Grow => {
                assert(c.only_grow_count == 0);
                assert(false);
            },
            Distribution::GrowBounded => {
                if out[i].result_maybe_ok {
                    lemma_bounded_distribution_settles(c, arr, main, false);
                    let (w, wb) = choose|w: u64, wb: u64| settled(arr, #[trigger] distribute_spec(c, arr, main, false).arr, false, w, wb)
                        && (distribute_req(c, arr, main, false) ==> free_defined(arr, distribute_spec(c, arr, main, false).arr, false, w, wb));
                    assert(settled_item(arr[i], out[i], false, w, wb));
                    assert(flex_req(arr[i], false, w, wb));
                    lemma_real_basis_within(arr[i]);
                }
            },
            _ => {},
        }
    }
    assert forall|k: int| 0 <= k < arr.len() implies (#[trigger] arr[k]).min is Some by {
        assert(bounded_item(arr[k]));
    }
    match distribution(c, main) {
        Distribution::Minima => {
            lemma_minima_sum_u64(arr);
            lemma_result_sum_u64(out);
        },
        Distribution::Maxima => {
            lemma_maxima_sum_u64(arr);
            lemma_result_sum_u64(out);
        },
        Distribution::GrowBounded => {
            lemma_distribution_amount_u64(c, arr, main, false);
            lemma_result_sum_u64(out);
        },
        _ => {},
    }
}


/// The `u64` bases counted from an empty context add up, as integers, to
/// the counted sum of all bases.
proof fn lemma_bases_total_u64(s: Seq<Data<u64>>)
    requires
        stat_fold_req(empty_context::<u64>(), s),
    ensures
        size_total(s.map_values(|d: Data<u64>| with_result(d, real_basis(d)))) == stat_fold(empty_context::<u64>(), s).basis,
    decreases s.len(),
{
    let f = |d: Data<u64>| with_result(d, real_basis(d));
    if s.len() > 0 {
        lemma_bases_total_u64(s.drop_last());
        assert(s.map_values(f).drop_last() =~= s.drop_last().map_values(f));
    } else {
        assert(s.map_values(f) =~= Seq::<Data<u64>>::empty());
    }
}

/// Where every `u64` item has a minimum, the sizes of `set_min_spec` add up,
/// as integers, to the counted non-shrinking bases plus the shrinking items'
/// minima.
proof fn lemma_minima_sum_u64(s: Seq<Data<u64>>)
    requires
        stat_fold_req(empty_context::<u64>(), s),
        forall|i: int| 0 <= i < s.len() ==> (#[trigger] s[i]).min is Some,
    ensures
        size_total(s.map_values(|d: Data<u64>| with_result(d, set_min_spec(d))))
            == stat_fold(empty_context::<u64>(), s).no_shrink_basis + stat_fold(empty_context::<u64>(), s).min_shrink_amount,
    decreases s.len(),
{
    let f = |d: Data<u64>| with_result(d, set_min_spec(d));
    if s.len() > 0 {
        assert forall|i: int| 0 <= i < s.drop_last().len() implies (#[trigger] s.drop_last()[i]).min is Some by {
            assert(s.drop_last()[i] == s[i]);
        }
        assert(s.last() == s[s.len() - 1]);
        lemma_minima_sum_u64(s.drop_last());
        assert(s.map_values(f).drop_last() =~= s.drop_last().map_values(f));
    } else {
        assert(s.map_values(f) =~= Seq::<Data<u64>>::empty());
    }
}

/// Where every growing `u64` item has a maximum, the sizes of `set_max_spec`
/// add up, as integers, to the counted non-growing bases plus the growing
/// items' maxima.
proof fn lemma_maxima_sum_u64(s: Seq<Data<u64>>)
    requires
        stat_fold_req(empty_context::<u64>(), s),
        forall|i: int| 0 <= i < s.len() ==> (#[trigger] s[i]).max is Some,
    ensures
        size_total(s.map_values(|d: Data<u64>| with_result(d, set_max_spec(d))))
            == stat_fold(empty_context::<u64>(), s).no_grow_basis + stat_fold(empty_context::<u64>(), s).max_grow_amount,
    decreases s.len(),
{
    let f = |d: Data<u64>| with_result(d, set_max_spec(d));
    if s.len() > 0 {
        assert forall|i: int| 0 <= i < s.drop_last().len() implies (#[trigger] s.drop_last()[i]).max is Some by {
            assert(s.drop_last()[i] == s[i]);
        }
        assert(s.last() == s[s.len() - 1]);
        lemma_maxima_sum_u64(s.drop_last());
        assert(s.map_values(f).drop_last() =~= s.drop_last().map_values(f));
    } else {
        assert(s.map_values(f) =~= Seq::<Data<u64>>::empty());
    }
}


/// The sum of the computed `u64` sizes, as an integer.
pub open spec fn size_total(s: Seq<Data<u64>>) -> int
    decreases s.len(),
{
    if s.len() == 0 {
        0
    } else {
        size_total(s.drop_last()) + s.last().result
    }
}

/// Replacing one item changes the total by the difference of its sizes.
proof fn lemma_size_total_update(s: Seq<Data<u64>>, j: int, d: Data<u64>)
    requires
        0 <= j < s.len(),
    ensures
        size_total(s.update(j, d)) == size_total(s) - s[j].result + d.result,
    decreases s.len(),
{
    if j < s.len() - 1 {
        lemma_size_total_update(s.drop_last(), j, d);
        assert(s.update(j, d).drop_last() =~= s.drop_last().update(j, d));
    } else {
        assert(s.update(j, d).drop_last() =~= s.drop_last());
    }
}

/// Where the total fits in a `u64`, adding up the sizes in `u64` gives it.
proof fn lemma_result_sum_u64(s: Seq<Data<u64>>)
    requires
        size_total(s) <= u64::MAX,
    ensures
        result_sum(s) == size_total(s),
    decreases s.len(),
{
    if s.len() > 0 {
        lemma_result_sum_u64(s.drop_last());
    }
}

/// A first round over the items `0..k` raises the amount by the new sizes of
/// those items, as integers.
proof fn lemma_first_pass_amount_u64(st: RoundState<u64>, k: int, shrinking: bool, w: u64, wb: u64)
    requires
        0 <= k <= st.arr.len(),
        first_pass_req(st, k, shrinking, w, wb),
    ensures
        first_pass(st, k, shrinking, w, wb).amount - size_total(first_pass(st, k, shrinking, w, wb).arr)
            == st.amount - size_total(st.arr) + size_total(st.arr.take(k)),
    decreases k,
{
    if k > 0 {
        lemma_first_pass_amount_u64(st, k - 1, shrinking, w, wb);
        let p = first_pass(st, k - 1, shrinking, w, wb);
        lemma_first_pass_elems(st, k - 1, shrinking, w, wb);
        assert(p.arr[k - 1] == st.arr[k - 1]);
        let q = first_step(p, k - 1, shrinking, w, wb);
        lemma_size_total_update(p.arr, k - 1, q.arr[k - 1]);
        assert(q.arr =~= p.arr.update(k - 1, q.arr[k - 1]));
        assert(st.arr.take(k).drop_last() =~= st.arr.take(k - 1));
    } else {
        assert(st.arr.take(0) =~= Seq::<Data<u64>>::empty());
    }
}

/// A later round keeps the amount equal to the sum of the sizes.
proof fn lemma_later_pass_amount_u64(st: RoundState<u64>, k: int, shrinking: bool, w: u64, wb: u64)
    requires
        0 <= k <= st.arr.len(),
        later_pass_req(st, k, shrinking, w, wb),
        st.amount == size_total(st.arr),
    ensures
        later_pass(st, k, shrinking, w, wb).amount == size_total(later_pass(st, k, shrinking, w, wb).arr),
    decreases k,
{
    if k > 0 {
        lemma_later_pass_amount_u64(st, k - 1, shrinking, w, wb);
        let p = later_pass(st, k - 1, shrinking, w, wb);
        lemma_later_pass_elems(st, k - 1, shrinking, w, wb);
        let q = later_step(p, k - 1, shrinking, w, wb);
        if p.arr[k - 1].result_maybe_ok {
            lemma_size_total_update(p.arr, k - 1, q.arr[k - 1]);
            assert(q.arr =~= p.arr.update(k - 1, q.arr[k - 1]));
        }
    }
}

/// The further rounds keep the amount equal to the sum of the sizes.
proof fn lemma_later_rounds_amount_u64(st: RoundState<u64>, shrinking: bool, total: u64, length: u64)
    requires
        later_rounds_req(st, shrinking, total, length),
        st.amount == size_total(st.arr),
    ensures
        later_rounds(st, shrinking, total, length).amount == size_total(later_rounds(st, shrinking, total, length).arr),
    decreases count_ok(st.arr),
{
    if st.re_calc {
        let w = round_weight(total, st.fix_weight, shrinking);
        let wb = length.sub_spec(st.fix_basis).sub_spec(st.re_basis);
        let st1 = RoundState { re_basis: zero(), re_calc: false, ..st };
        let st2 = later_pass(st1, st.arr.len() as int, shrinking, w, wb);
        lemma_later_pass_amount_u64(st1, st.arr.len() as int, shrinking, w, wb);
        if count_ok(st2.arr) < count_ok(st.arr) {
            lemma_later_rounds_amount_u64(st2, shrinking, total, length);
        }
    }
}

/// Bounded distribution of `u64` sizes from a zero amount, with every
/// operation defined, records as amount the sum of the sizes.
proof fn lemma_distribution_amount_u64(c: GrowShrinkContext<u64>, arr: Seq<Data<u64>>, main: u64, shrinking: bool)
    requires
        c.amount == 0,
        distribute_req(c, arr, main, shrinking),
    ensures
        distribute_spec(c, arr, main, shrinking).amount == size_total(distribute_spec(c, arr, main, shrinking).arr),
{
    let total = if shrinking {
        c.shrink_weight
    } else {
        c.grow_weight
    };
    let fixed = if shrinking {
        c.no_shrink_basis
    } else {
        c.no_grow_basis
    };
    let flexible = if shrinking {
        c.shrink_basis
    } else {
        c.grow_basis
    };
    let first_weight = if shrinking {
        total
    } else {
        grow_divisor(total)
    };
    let st0 = RoundState { arr, amount: c.amount, fix_weight: zero(), fix_basis: fixed, re_basis: zero(), re_calc: false };
    let wb0 = main.sub_spec(fixed).sub_spec(flexible);
    let n = arr.len() as int;
    lemma_first_pass_amount_u64(st0, n, shrinking, first_weight, wb0);
    assert(arr.take(n) =~= arr);
    lemma_later_rounds_amount_u64(first_pass(st0, n, shrinking, first_weight, wb0), shrinking, total, main);
}


/// With `u64` sizes counted from an empty context and every operation
/// defined, `calculate` never shrinks in proportion (the free space it would
/// share is negative) nor grows without bounds where every item has a
/// maximum, and the amount it records is the integer sum of the sizes.
proof fn lemma_amount_total_u64(arr: Seq<Data<u64>>, main: u64)
    requires
        none_free(arr),
        forall|i: int| 0 <= i < arr.len() ==> #[trigger] bounded_item(arr[i]),
        stat_fold_req(empty_context::<u64>(), arr),
        calculate_req(stat_fold(empty_context::<u64>(), arr), arr, main),
    ensures
        !(distribution(stat_fold(empty_context::<u64>(), arr), main) is Shrink),
        !(distribution(stat_fold(empty_context::<u64>(), arr), main) is ShrinkBounded),
        !(distribution(stat_fold(empty_context::<u64>(), arr), main) is Grow),
        calculate_spec(stat_fold(empty_context::<u64>(), arr), arr, main).0.amount
            == size_total(calculate_spec(stat_fold(empty_context::<u64>(), arr), arr, main).1),
{
    let c = stat_fold(empty_context::<u64>(), arr);
    let out = calculate_spec(c, arr, main).1;
    assert forall|k: int| 0 <= k < arr.len() implies (#[trigger] arr[k]).max is Some && arr[k].min is Some by {
        assert(bounded_item(arr[k]));
    }
    lemma_stat_sums_u64(arr);
    match distribution(c, main) {
        Distribution::Bases => {
            lemma_bases_total_u64(arr);
        },
        Distribution::Minima => {
            lemma_minima_sum_u64(arr);
        },
        Distribution::Maxima => {
            lemma_maxima_sum_u64(arr);
        },
        Distribution::GrowBounded => {
            lemma_distribution_amount_u64(c, arr, main, false);
        },
        _ => {},
    }
}

/// How the sum of the sizes compares with the totals when growing, for `u64` sizes of
/// items that do not shrink, each with a minimum at most its maximum,
/// counted from an empty context with every operation defined: with nothing
/// to grow the sizes add up to the non-growing bases; where the bases reach
/// the container they add up to the bases; where even the maxima fall short
/// of it they add up to the non-growing bases plus the maxima; where the
/// maxima reach it, to at most the container size, and to exactly that
/// size where they reach it exactly.
pub proof fn lemma_grow_totals_u64(arr: Seq<Data<u64>>, main: u64)
    requires
        none_free(arr),
        forall|i: int| 0 <= i < arr.len() ==> #[trigger] bounded_item(arr[i]),
        forall|i: int| 0 <= i < arr.len() ==> (#[trigger] arr[i]).shrink == 0,
        stat_fold_req(empty_context::<u64>(), arr),
        calculate_req(stat_fold(empty_context::<u64>(), arr), arr, main),
    ensures ({
        let c = stat_fold(empty_context::<u64>(), arr);
        let a = size_total(calculate_spec(c, arr, main).1);
        &&& c.grow_weight == 0 ==> a == c.no_grow_basis
        &&& c.grow_weight != 0 && c.no_grow_basis + c.grow_basis >= main ==> a == c.no_grow_basis + c.grow_basis
        &&& c.grow_weight != 0 && c.no_grow_basis + c.grow_basis < main && c.no_grow_basis + c.max_grow_amount >= main
            ==> a <= main
        &&& c.grow_weight != 0 && c.no_grow_basis + c.grow_basis < main && c.no_grow_basis + c.max_grow_amount == main
            ==> a == main
        &&& c.grow_weight != 0 && c.no_grow_basis + c.grow_basis < main && c.no_grow_basis + c.max_grow_amount < main
            ==> a == c.no_grow_basis + c.max_grow_amount
    }),
{
    let c = stat_fold(empty_context::<u64>(), arr);
    assert forall|k: int| 0 <= k < arr.len() implies (#[trigger] arr[k]).max is Some by {
        assert(bounded_item(arr[k]));
    }
    lemma_amount_total_u64(arr, main);
    lemma_stat_sums_u64(arr);
    assert(c.shrink_weight == 0);
    assert(c.only_grow_count == 0);
    if distribution(c, main) is GrowBounded {
        lemma_grow_bounded_fits(arr, main);
    }
}

/// How the sum of the sizes compares with the totals when shrinking, for `u64` sizes of
/// items that do not grow, each with a minimum at most its maximum, counted
/// from an empty context with every operation defined: with nothing to
/// shrink the sizes add up to the non-shrinking bases; where the bases fit
/// the container they add up to the bases; where they overflow it but the
/// minima fit, to the container size; where even the minima overflow it, to
/// the non-shrinking bases plus the minima.
pub proof fn lemma_shrink_totals_u64(arr: Seq<Data<u64>>, main: u64)
    requires
        none_free(arr),
        forall|i: int| 0 <= i < arr.len() ==> #[trigger] bounded_item(arr[i]),
        forall|i: int| 0 <= i < arr.len() ==> (#[trigger] arr[i]).grow == 0,
        stat_fold_req(empty_context::<u64>(), arr),
        calculate_req(stat_fold(empty_context::<u64>(), arr), arr, main),
    ensures ({
        let c = stat_fold(empty_context::<u64>(), arr);
        let a = size_total(calculate_spec(c, arr, main).1);
        &&& c.shrink_weight == 0 ==> a == c.no_shrink_basis
        &&& c.shrink_weight != 0 && c.no_shrink_basis + c.shrink_basis <= main ==> a == c.no_shrink_basis + c.shrink_basis
        &&& c.shrink_weight != 0 && c.no_shrink_basis + c.shrink_basis > main && c.no_shrink_basis + c.min_shrink_amount <= main
            ==> a == main
        &&& c.shrink_weight != 0 && c.no_shrink_basis + c.shrink_basis > main && c.no_shrink_basis + c.min_shrink_amount > main
            ==> a == c.no_shrink_basis + c.min_shrink_amount
    }),
{
    let c = stat_fold(empty_context::<u64>(), arr);
    lemma_amount_total_u64(arr, main);
    lemma_stat_sums_u64(arr);
}

/// Where the sum of the sizes lies against the container, for `u64` sizes
/// of items each with a minimum at most its maximum, counted from an empty
/// context with every operation defined: where the bases overflow the
/// container the sizes add up to at least its size, where they fall short
/// of it to at most its size.
pub proof fn lemma_total_range_u64(arr: Seq<Data<u64>>, main: u64)
    requires
        none_free(arr),
        forall|i: int| 0 <= i < arr.len() ==> #[trigger] bounded_item(arr[i]),
        stat_fold_req(empty_context::<u64>(), arr),
        calculate_req(stat_fold(empty_context::<u64>(), arr), arr, main),
    ensures
        stat_fold(empty_context::<u64>(), arr).basis > main
            ==> size_total(calculate_spec(stat_fold(empty_context::<u64>(), arr), arr, main).1) >= main,
        stat_fold(empty_context::<u64>(), arr).basis < main
            ==> size_total(calculate_spec(stat_fold(empty_context::<u64>(), arr), arr, main).1) <= main,
{
    let c = stat_fold(empty_context::<u64>(), arr);
    lemma_amount_total_u64(arr, main);
    lemma_stat_sums_u64(arr);
    if distribution(c, main) is GrowBounded {
        lemma_grow_bounded_fits(arr, main);
    }
}


/// The sum of `f` over the items, as an integer.
pub open spec fn sum_by<T>(s: Seq<Data<T>>, f: spec_fn(Data<T>) -> int) -> int
    decreases s.len(),
{
    if s.len() == 0 {
        0
    } else {
        sum_by(s.drop_last(), f) + f(s.last())
    }
}

/// Where each item of `b` gives by `f` what the item of `a` at its place
/// gives by `g` and `h` together, the sums over `b` and `a` agree.
proof fn lemma_sum_split<T>(a: Seq<Data<T>>, b: Seq<Data<T>>, f: spec_fn(Data<T>) -> int, g: spec_fn(Data<T>) -> int, h: spec_fn(Data<T>) -> int)
    requires
        a.len() == b.len(),
        forall|j: int| 0 <= j < a.len() ==> f(#[trigger] b[j]) == g(a[j]) + h(a[j]),
    ensures
        sum_by(b, f) == sum_by(a, g) + sum_by(a, h),
    decreases a.len(),
{
    if a.len() > 0 {
        assert forall|j: int| 0 <= j < a.drop_last().len() implies f(#[trigger] b.drop_last()[j]) == g(a.drop_last()[j]) + h(a.drop_last()[j]) by {
            assert(b.drop_last()[j] == b[j]);
            assert(a.drop_last()[j] == a[j]);
        }
        lemma_sum_split(a.drop_last(), b.drop_last(), f, g, h);
        assert(f(b.last()) == g(a.last()) + h(a.last())) by {
            assert(b.last() == b[b.len() - 1]);
            assert(a.last() == a[a.len() - 1]);
        }
    }
}

/// Where each item of `b` gives by `f` at most what the item of `a` at its
/// place gives by `g`, so do the sums.
proof fn lemma_sum_le<T>(a: Seq<Data<T>>, b: Seq<Data<T>>, f: spec_fn(Data<T>) -> int, g: spec_fn(Data<T>) -> int)
    requires
        a.len() == b.len(),
        forall|j: int| 0 <= j < a.len() ==> f(#[trigger] b[j]) <= g(a[j]),
    ensures
        sum_by(b, f) <= sum_by(a, g),
    decreases a.len(),
{
    if a.len() > 0 {
        assert forall|j: int| 0 <= j < a.drop_last().len() implies f(#[trigger] b.drop_last()[j]) <= g(a.drop_last()[j]) by {
            assert(b.drop_last()[j] == b[j]);
            assert(a.drop_last()[j] == a[j]);
        }
        lemma_sum_le(a.drop_last(), b.drop_last(), f, g);
        assert(f(b.last()) <= g(a.last())) by {
            assert(b.last() == b[b.len() - 1]);
            assert(a.last() == a[a.len() - 1]);
        }
    }
}

/// Shares taken in proportion: where each `q` times `w` is at most the
/// item's weight `g` times `wb`, and the weights add up to at most `w`, the
/// shares add up to at most `wb`.
proof fn lemma_shares_fit<T>(a: Seq<Data<T>>, q: spec_fn(Data<T>) -> int, g: spec_fn(Data<T>) -> int, w: int, wb: int)
    requires
        w > 0,
        wb >= 0,
        sum_by(a, g) <= w,
        forall|j: int| 0 <= j < a.len() ==> 0 <= q(#[trigger] a[j]) && 0 <= g(a[j]) && w * q(a[j]) <= wb * g(a[j]),
    ensures
        sum_by(a, q) <= wb,
{
    lemma_shares_scaled(a, q, g, w, wb);
    let sq = sum_by(a, q);
    let sg = sum_by(a, g);
    assert(w * sq <= wb * sg);
    assert(wb * sg <= wb * w) by (nonlinear_arith)
        requires
            wb >= 0,
            sg <= w,
    ;
    assert(sq <= wb) by (nonlinear_arith)
        requires
            w > 0,
            w * sq <= wb * w,
    ;
}

/// The scaled shares add up to at most the scaled weights.
proof fn lemma_shares_scaled<T>(a: Seq<Data<T>>, q: spec_fn(Data<T>) -> int, g: spec_fn(Data<T>) -> int, w: int, wb: int)
    requires
        forall|j: int| 0 <= j < a.len() ==> 0 <= q(#[trigger] a[j]) && 0 <= g(a[j]) && w * q(a[j]) <= wb * g(a[j]),
    ensures
        w * sum_by(a, q) <= wb * sum_by(a, g),
        0 <= sum_by(a, g),
    decreases a.len(),
{
    if a.len() > 0 {
        let t = a.drop_last();
        assert forall|j: int| 0 <= j < t.len() implies 0 <= q(#[trigger] t[j]) && 0 <= g(t[j]) && w * q(t[j]) <= wb * g(t[j]) by {
            assert(t[j] == a[j]);
        }
        lemma_shares_scaled(t, q, g, w, wb);
        let x = a.last();
        assert(a.last() == a[a.len() - 1]);
        let sq = sum_by(t, q);
        let sg = sum_by(t, g);
        let qx = q(x);
        let gx = g(x);
        assert(w * (sq + qx) <= wb * (sg + gx)) by (nonlinear_arith)
            requires
                w * sq <= wb * sg,
                w * qx <= wb * gx,
        ;
    }
}


/// The computed size of an item.
spec fn by_result() -> spec_fn(Data<u64>) -> int {
    |d: Data<u64>| d.result as int
}

/// The basis of an item that does not grow.
spec fn by_still_basis() -> spec_fn(Data<u64>) -> int {
    |d: Data<u64>| if d.grow == 0 {
        real_basis(d) as int
    } else {
        0
    }
}

/// The basis of an item that grows.
spec fn by_grow_basis() -> spec_fn(Data<u64>) -> int {
    |d: Data<u64>| if d.grow != 0 {
        real_basis(d) as int
    } else {
        0
    }
}

/// The grow factor of an item.
spec fn by_grow() -> spec_fn(Data<u64>) -> int {
    |d: Data<u64>| d.grow as int
}

/// The size of an item that is not free.
spec fn by_fixed_result() -> spec_fn(Data<u64>) -> int {
    |d: Data<u64>| if !d.result_maybe_ok {
        d.result as int
    } else {
        0
    }
}

/// The basis of a free item.
spec fn by_free_basis() -> spec_fn(Data<u64>) -> int {
    |d: Data<u64>| if d.result_maybe_ok {
        real_basis(d) as int
    } else {
        0
    }
}

/// The grow factor of a free item.
spec fn by_free_grow() -> spec_fn(Data<u64>) -> int {
    |d: Data<u64>| if d.result_maybe_ok {
        d.grow as int
    } else {
        0
    }
}

/// The grow factor of a growing item that is held.
spec fn by_held_grow() -> spec_fn(Data<u64>) -> int {
    |d: Data<u64>| if !d.result_maybe_ok && d.grow != 0 {
        d.grow as int
    } else {
        0
    }
}

/// The size total is the sum of the sizes.
proof fn lemma_size_total_by(s: Seq<Data<u64>>)
    ensures
        size_total(s) == sum_by(s, by_result()),
    decreases s.len(),
{
    if s.len() > 0 {
        lemma_size_total_by(s.drop_last());
    }
}

/// Counted from an empty context without overflow, the totals of `u64`
/// items are their sums: the non-growing bases, the growing bases and the
/// grow factors.
proof fn lemma_stat_by_u64(s: Seq<Data<u64>>)
    requires
        stat_fold_req(empty_context::<u64>(), s),
    ensures
        stat_fold(empty_context::<u64>(), s).no_grow_basis == sum_by(s, by_still_basis()),
        stat_fold(empty_context::<u64>(), s).grow_basis == sum_by(s, by_grow_basis()),
        stat_fold(empty_context::<u64>(), s).grow_weight == sum_by(s, by_grow()),
    decreases s.len(),
{
    if s.len() > 0 {
        lemma_stat_by_u64(s.drop_last());
    }
}


/// A growing item held at its maximum in the first round (see `first_step`).
spec fn first_held(d: Data<u64>, w: u64, wb: u64) -> bool {
    &&& !factor(d, false).eq_spec(&zero())
    &&& bound(d, false) is Some
    &&& passes_bound(flex_value(d, false, w, wb), bound(d, false)->0, false, true)
}

/// The maximum of an item held in the first round.
spec fn by_first_fix(w: u64, wb: u64) -> spec_fn(Data<u64>) -> int {
    |d: Data<u64>| if first_held(d, w, wb) {
        bound(d, false)->0 as int
    } else {
        0
    }
}

/// The grow factor of an item held in the first round.
spec fn by_first_fix_weight(w: u64, wb: u64) -> spec_fn(Data<u64>) -> int {
    |d: Data<u64>| if first_held(d, w, wb) {
        d.grow as int
    } else {
        0
    }
}

/// The basis of an item left free by the first round.
spec fn by_first_free(w: u64, wb: u64) -> spec_fn(Data<u64>) -> int {
    |d: Data<u64>| if !factor(d, false).eq_spec(&zero()) && !first_held(d, w, wb) {
        real_basis(d) as int
    } else {
        0
    }
}

/// A free item held at its maximum in a later round (see `later_step`).
spec fn later_held(d: Data<u64>, w: u64, wb: u64) -> bool {
    &&& d.result_maybe_ok
    &&& bound(d, false) is Some
    &&& passes_bound(flex_value(d, false, w, wb), bound(d, false)->0, false, false)
}

/// The maximum of an item held in a later round.
spec fn by_later_fix(w: u64, wb: u64) -> spec_fn(Data<u64>) -> int {
    |d: Data<u64>| if later_held(d, w, wb) {
        bound(d, false)->0 as int
    } else {
        0
    }
}

/// The grow factor of an item held in a later round.
spec fn by_later_fix_weight(w: u64, wb: u64) -> spec_fn(Data<u64>) -> int {
    |d: Data<u64>| if later_held(d, w, wb) {
        d.grow as int
    } else {
        0
    }
}

/// The basis of an item still free after a later round.
spec fn by_later_free(w: u64, wb: u64) -> spec_fn(Data<u64>) -> int {
    |d: Data<u64>| if d.result_maybe_ok && !later_held(d, w, wb) {
        real_basis(d) as int
    } else {
        0
    }
}

/// The accumulators of a first growing round over the items `0..k` of `u64`
/// sizes, as sums over those items.
proof fn lemma_first_pass_by(st: RoundState<u64>, k: int, w: u64, wb: u64)
    requires
        0 <= k <= st.arr.len(),
        first_pass_req(st, k, false, w, wb),
    ensures
        first_pass(st, k, false, w, wb).fix_basis == st.fix_basis + sum_by(st.arr.take(k), by_first_fix(w, wb)),
        first_pass(st, k, false, w, wb).fix_weight == st.fix_weight + sum_by(st.arr.take(k), by_first_fix_weight(w, wb)),
        first_pass(st, k, false, w, wb).re_basis == st.re_basis + sum_by(st.arr.take(k), by_first_free(w, wb)),
    decreases k,
{
    if k > 0 {
        lemma_first_pass_by(st, k - 1, w, wb);
        lemma_first_pass_elems(st, k - 1, false, w, wb);
        assert(first_pass(st, k - 1, false, w, wb).arr[k - 1] == st.arr[k - 1]);
        assert(st.arr.take(k).drop_last() =~= st.arr.take(k - 1));
        assert(st.arr.take(k).last() == st.arr[k - 1]);
    } else {
        assert(st.arr.take(0) =~= Seq::<Data<u64>>::empty());
    }
}

/// The accumulators of a later growing round over the items `0..k` of `u64`
/// sizes, as sums over those items.
proof fn lemma_later_pass_by(st: RoundState<u64>, k: int, w: u64, wb: u64)
    requires
        0 <= k <= st.arr.len(),
        later_pass_req(st, k, false, w, wb),
    ensures
        later_pass(st, k, false, w, wb).fix_basis == st.fix_basis + sum_by(st.arr.take(k), by_later_fix(w, wb)),
        later_pass(st, k, false, w, wb).fix_weight == st.fix_weight + sum_by(st.arr.take(k), by_later_fix_weight(w, wb)),
        later_pass(st, k, false, w, wb).re_basis == st.re_basis + sum_by(st.arr.take(k), by_later_free(w, wb)),
    decreases k,
{
    if k > 0 {
        lemma_later_pass_by(st, k - 1, w, wb);
        lemma_later_pass_elems(st, k - 1, false, w, wb);
        assert(later_pass(st, k - 1, false, w, wb).arr[k - 1] == st.arr[k - 1]);
        assert(st.arr.take(k).drop_last() =~= st.arr.take(k - 1));
        assert(st.arr.take(k).last() == st.arr[k - 1]);
    } else {
        assert(st.arr.take(0) =~= Seq::<Data<u64>>::empty());
    }
}


/// Nothing.
spec fn by_zero<T>() -> spec_fn(Data<T>) -> int {
    |d: Data<T>| 0
}

/// The basis of an item.
spec fn by_basis() -> spec_fn(Data<u64>) -> int {
    |d: Data<u64>| real_basis(d) as int
}

/// The share of the growing step (`w`, `wb`) that a growing item takes.
spec fn by_share(w: u64, wb: u64) -> spec_fn(Data<u64>) -> int {
    |d: Data<u64>| if d.grow != 0 {
        d.grow.mul_spec(wb).div_spec(w) as int
    } else {
        0
    }
}

/// The share of the growing step (`w`, `wb`) that a free item takes.
spec fn by_free_share(w: u64, wb: u64) -> spec_fn(Data<u64>) -> int {
    |d: Data<u64>| if d.result_maybe_ok {
        d.grow.mul_spec(wb).div_spec(w) as int
    } else {
        0
    }
}

/// Sums over two sequences of one length compare as their items do, place
/// by place.
proof fn lemma_sum_two_le<T>(a: Seq<Data<T>>, b: Seq<Data<T>>, fa: spec_fn(Data<T>) -> int, fb: spec_fn(Data<T>) -> int, ga: spec_fn(Data<T>) -> int, gb: spec_fn(Data<T>) -> int)
    requires
        a.len() == b.len(),
        forall|j: int| 0 <= j < a.len() ==> fa(#[trigger] a[j]) + fb(b[j]) <= ga(a[j]) + gb(b[j]),
    ensures
        sum_by(a, fa) + sum_by(b, fb) <= sum_by(a, ga) + sum_by(b, gb),
    decreases a.len(),
{
    if a.len() > 0 {
        let a1 = a.drop_last();
        let b1 = b.drop_last();
        assert forall|j: int| 0 <= j < a1.len() implies fa(#[trigger] a1[j]) + fb(b1[j]) <= ga(a1[j]) + gb(b1[j]) by {
            assert(a1[j] == a[j]);
            assert(b1[j] == b[j]);
        }
        lemma_sum_two_le(a1, b1, fa, fb, ga, gb);
        assert(a.last() == a[a.len() - 1]);
        assert(b.last() == b[b.len() - 1]);
    }
}

/// Sums over two sequences of one length agree where their items do, place
/// by place.
proof fn lemma_sum_two_eq<T>(a: Seq<Data<T>>, b: Seq<Data<T>>, fa: spec_fn(Data<T>) -> int, fb: spec_fn(Data<T>) -> int, ga: spec_fn(Data<T>) -> int, gb: spec_fn(Data<T>) -> int)
    requires
        a.len() == b.len(),
        forall|j: int| 0 <= j < a.len() ==> fa(#[trigger] a[j]) + fb(b[j]) == ga(a[j]) + gb(b[j]),
    ensures
        sum_by(a, fa) + sum_by(b, fb) == sum_by(a, ga) + sum_by(b, gb),
{
    lemma_sum_two_le(a, b, fa, fb, ga, gb);
    lemma_sum_two_le(a, b, ga, gb, fa, fb);
}

/// Nothing sums to zero.
proof fn lemma_sum_zero<T>(a: Seq<Data<T>>)
    ensures
        sum_by(a, by_zero()) == 0,
    decreases a.len(),
{
    if a.len() > 0 {
        lemma_sum_zero(a.drop_last());
    }
}

/// A share, scaled back by its divisor, is at most what was divided.
proof fn lemma_share_floor(g: u64, wb: u64, w: u64)
    requires
        w != 0,
        g.mul_req(wb),
    ensures
        w as int * (g.mul_spec(wb).div_spec(w) as int) <= g as int * wb as int,
        0 <= g.mul_spec(wb).div_spec(w) as int,
{
    let x = g.mul_spec(wb) as int;
    let q = g.mul_spec(wb).div_spec(w) as int;
    assert(x == g as int * wb as int);
    assert(q == x / (w as int));
    vstd::arithmetic::div_mod::lemma_fundamental_div_mod(x, w as int);
    assert(0 <= x % (w as int));
}


/// A complete growing round of `u64` sizes left its accumulators as sums
/// over the items: the sizes held fixed, the bases of the free items, and
/// with the held weight the free items' grow factors make up `total`; a free
/// item grows; the sizes do not exceed `main`.
spec fn grow_round_inv(st: RoundState<u64>, total: u64, main: u64) -> bool {
    &&& st.fix_basis == sum_by(st.arr, by_fixed_result())
    &&& st.re_basis == sum_by(st.arr, by_free_basis())
    &&& st.fix_weight + sum_by(st.arr, by_free_grow()) == total
    &&& forall|j: int| 0 <= j < st.arr.len() ==> (#[trigger] st.arr[j]).result_maybe_ok ==> st.arr[j].grow != 0
    &&& sum_by(st.arr, by_result()) <= main
}

/// The first growing round from an empty context ends in a state of
/// `grow_round_inv`.
proof fn lemma_first_grow_round(arr: Seq<Data<u64>>, main: u64)
    requires
        none_free(arr),
        stat_fold_req(empty_context::<u64>(), arr),
        distribute_req(stat_fold(empty_context::<u64>(), arr), arr, main, false),
    ensures ({
        let c = stat_fold(empty_context::<u64>(), arr);
        let st0 = RoundState { arr, amount: c.amount, fix_weight: zero(), fix_basis: c.no_grow_basis, re_basis: zero(), re_calc: false };
        let w0 = grow_divisor(c.grow_weight);
        let wb0 = main.sub_spec(c.no_grow_basis).sub_spec(c.grow_basis);
        grow_round_inv(first_pass(st0, arr.len() as int, false, w0, wb0), c.grow_weight, main)
    }),
{
    let c = stat_fold(empty_context::<u64>(), arr);
    let n = arr.len() as int;
    let st0 = RoundState { arr, amount: c.amount, fix_weight: zero(), fix_basis: c.no_grow_basis, re_basis: zero(), re_calc: false };
    let w0 = grow_divisor(c.grow_weight);
    let wb0 = main.sub_spec(c.no_grow_basis).sub_spec(c.grow_basis);
    let first = first_pass(st0, n, false, w0, wb0);
    lemma_stat_by_u64(arr);
    lemma_stat_sums_u64(arr);
    lemma_first_pass_by(st0, n, w0, wb0);
    assert(arr.take(n) =~= arr);
    lemma_first_pass_elems(st0, n, false, w0, wb0);
    assert forall|j: int| 0 <= j < n implies #[trigger] first.arr[j] == first_elem(arr[j], false, w0, wb0) by {}
    // the sizes held fixed
    assert forall|j: int| 0 <= j < n implies by_fixed_result()(#[trigger] first.arr[j])
        == by_still_basis()(arr[j]) + by_first_fix(w0, wb0)(arr[j]) by {
        assert(!arr[j].result_maybe_ok);
    }
    lemma_sum_split(arr, first.arr, by_fixed_result(), by_still_basis(), by_first_fix(w0, wb0));
    // the bases of the free items
    assert forall|j: int| 0 <= j < n implies by_zero()(#[trigger] arr[j]) + by_free_basis()(first.arr[j])
        == by_first_free(w0, wb0)(arr[j]) + by_zero()(first.arr[j]) by {
        assert(!arr[j].result_maybe_ok);
    }
    lemma_sum_two_eq(arr, first.arr, by_zero(), by_free_basis(), by_first_free(w0, wb0), by_zero());
    // the weights
    assert forall|j: int| 0 <= j < n implies by_first_fix_weight(w0, wb0)(#[trigger] arr[j]) + by_free_grow()(first.arr[j])
        == by_grow()(arr[j]) + by_zero()(first.arr[j]) by {
        assert(!arr[j].result_maybe_ok);
    }
    lemma_sum_two_eq(arr, first.arr, by_first_fix_weight(w0, wb0), by_free_grow(), by_grow(), by_zero());
    lemma_sum_zero(arr);
    lemma_sum_zero(first.arr);
    assert(first.fix_basis == sum_by(first.arr, by_fixed_result()));
    assert(first.re_basis == sum_by(first.arr, by_free_basis()));
    assert(first.fix_weight + sum_by(first.arr, by_free_grow()) == c.grow_weight);
    // the sizes: each at most its basis and its share
    let both = |d: Data<u64>| by_basis()(d) + by_share(w0, wb0)(d);
    assert forall|j: int| 0 <= j < n implies by_result()(#[trigger] first.arr[j]) <= both(arr[j]) by {
        assert(!arr[j].result_maybe_ok);
        if arr[j].grow != 0 {
            lemma_first_pass_req_step(st0, n, j, false, w0, wb0);
            lemma_first_pass_elems(st0, j, false, w0, wb0);
            assert(first_pass(st0, j, false, w0, wb0).arr[j] == arr[j]);
            assert(flex_req(arr[j], false, w0, wb0));
        }
    }
    lemma_sum_le(arr, first.arr, by_result(), both);
    lemma_sum_split(arr, arr, both, by_basis(), by_share(w0, wb0));
    lemma_sum_split(arr, arr, by_basis(), by_still_basis(), by_grow_basis());
    assert forall|j: int| 0 <= j < n implies 0 <= by_share(w0, wb0)(#[trigger] arr[j]) && 0 <= by_grow()(arr[j])
        && w0 * by_share(w0, wb0)(arr[j]) <= wb0 * by_grow()(arr[j]) by {
        if arr[j].grow != 0 {
            lemma_first_pass_req_step(st0, n, j, false, w0, wb0);
            lemma_first_pass_elems(st0, j, false, w0, wb0);
            assert(first_pass(st0, j, false, w0, wb0).arr[j] == arr[j]);
            assert(flex_req(arr[j], false, w0, wb0));
            lemma_share_floor(arr[j].grow, wb0, w0);
        }
    }
    lemma_shares_fit(arr, by_share(w0, wb0), by_grow(), w0 as int, wb0 as int);
    assert(sum_by(first.arr, by_result()) <= main);
    assert forall|j: int| 0 <= j < n && (#[trigger] first.arr[j]).result_maybe_ok implies first.arr[j].grow != 0 by {
        assert(!arr[j].result_maybe_ok);
    }
}


/// A later growing round from a state of `grow_round_inv` ends in one.
proof fn lemma_later_grow_round(st: RoundState<u64>, total: u64, main: u64)
    requires
        grow_round_inv(st, total, main),
        st.re_calc,
        later_rounds_req(st, false, total, main),
    ensures ({
        let w = round_weight(total, st.fix_weight, false);
        let wb = main.sub_spec(st.fix_basis).sub_spec(st.re_basis);
        let st1 = RoundState { re_basis: zero(), re_calc: false, ..st };
        grow_round_inv(later_pass(st1, st.arr.len() as int, false, w, wb), total, main)
    }),
{
    let n = st.arr.len() as int;
    let w = round_weight(total, st.fix_weight, false);
    let wb = main.sub_spec(st.fix_basis).sub_spec(st.re_basis);
    let st1 = RoundState { re_basis: zero(), re_calc: false, ..st };
    let s2 = later_pass(st1, n, false, w, wb);
    let a = st.arr;
    lemma_later_pass_by(st1, n, w, wb);
    assert(a.take(n) =~= a);
    lemma_later_pass_elems(st1, n, false, w, wb);
    assert forall|j: int| 0 <= j < n implies #[trigger] s2.arr[j] == later_elem(a[j], false, w, wb) by {}
    // a free item's share is defined
    assert forall|j: int| 0 <= j < n && (#[trigger] a[j]).result_maybe_ok implies flex_req(a[j], false, w, wb) by {
        lemma_later_pass_req_step(st1, n, j, false, w, wb);
        lemma_later_pass_elems(st1, j, false, w, wb);
        assert(later_pass(st1, j, false, w, wb).arr[j] == a[j]);
    }
    // the sizes held fixed
    assert forall|j: int| 0 <= j < n implies by_fixed_result()(#[trigger] s2.arr[j])
        == by_fixed_result()(a[j]) + by_later_fix(w, wb)(a[j]) by {}
    lemma_sum_split(a, s2.arr, by_fixed_result(), by_fixed_result(), by_later_fix(w, wb));
    // the bases of the free items
    assert forall|j: int| 0 <= j < n implies by_free_basis()(#[trigger] s2.arr[j])
        == by_later_free(w, wb)(a[j]) + by_zero()(a[j]) by {}
    lemma_sum_split(a, s2.arr, by_free_basis(), by_later_free(w, wb), by_zero());
    lemma_sum_zero(a);
    // the weights
    assert forall|j: int| 0 <= j < n implies by_later_fix_weight(w, wb)(#[trigger] a[j]) + by_free_grow()(s2.arr[j])
        == by_free_grow()(a[j]) + by_zero()(s2.arr[j]) by {}
    lemma_sum_two_eq(a, s2.arr, by_later_fix_weight(w, wb), by_free_grow(), by_free_grow(), by_zero());
    lemma_sum_zero(s2.arr);
    assert forall|j: int| 0 <= j < n && (#[trigger] s2.arr[j]).result_maybe_ok implies s2.arr[j].grow != 0 by {}
    // the sizes: a free item takes at most its basis and its share
    let bound3 = |d: Data<u64>| by_fixed_result()(d) + (by_free_basis()(d) + by_free_share(w, wb)(d));
    assert forall|j: int| 0 <= j < n implies by_result()(#[trigger] s2.arr[j]) <= bound3(a[j]) by {}
    lemma_sum_le(a, s2.arr, by_result(), bound3);
    let rest = |d: Data<u64>| by_free_basis()(d) + by_free_share(w, wb)(d);
    lemma_sum_split(a, a, bound3, by_fixed_result(), rest);
    lemma_sum_split(a, a, rest, by_free_basis(), by_free_share(w, wb));
    let sf = sum_by(a, by_free_grow());
    if w == 0 {
        assert forall|j: int| 0 <= j < n implies by_free_share(w, wb)(#[trigger] a[j]) <= by_zero()(a[j]) by {
            if a[j].result_maybe_ok {
                assert(flex_req(a[j], false, w, wb));
            }
        }
        lemma_sum_le(a, a, by_free_share(w, wb), by_zero());
    } else {
        assert forall|j: int| 0 <= j < n implies 0 <= by_free_share(w, wb)(#[trigger] a[j]) && 0 <= by_free_grow()(a[j])
            && w * by_free_share(w, wb)(a[j]) <= wb * by_free_grow()(a[j]) by {
            if a[j].result_maybe_ok {
                assert(flex_req(a[j], false, w, wb));
                lemma_share_floor(a[j].grow, wb, w);
            }
        }
        lemma_shares_scaled(a, by_free_share(w, wb), by_free_grow(), w as int, wb as int);
        assert(sf <= w);
        lemma_shares_fit(a, by_free_share(w, wb), by_free_grow(), w as int, wb as int);
    }
}

/// The further growing rounds from a state of `grow_round_inv` keep the
/// sizes within `main`.
proof fn lemma_grow_rounds_fit(st: RoundState<u64>, total: u64, main: u64)
    requires
        grow_round_inv(st, total, main),
        later_rounds_req(st, false, total, main),
    ensures
        sum_by(later_rounds(st, false, total, main).arr, by_result()) <= main,
    decreases count_ok(st.arr),
{
    if st.re_calc {
        let w = round_weight(total, st.fix_weight, false);
        let wb = main.sub_spec(st.fix_basis).sub_spec(st.re_basis);
        let st1 = RoundState { re_basis: zero(), re_calc: false, ..st };
        let st2 = later_pass(st1, st.arr.len() as int, false, w, wb);
        lemma_later_grow_round(st, total, main);
        if count_ok(st2.arr) < count_ok(st.arr) {
            lemma_grow_rounds_fit(st2, total, main);
        }
    }
}


/// Bounded growing of `u64` sizes counted from an empty context, with every
/// operation defined, keeps the sum of the sizes within the container.
proof fn lemma_grow_bounded_fits(arr: Seq<Data<u64>>, main: u64)
    requires
        none_free(arr),
        stat_fold_req(empty_context::<u64>(), arr),
        distribute_req(stat_fold(empty_context::<u64>(), arr), arr, main, false),
    ensures
        size_total(distribute_spec(stat_fold(empty_context::<u64>(), arr), arr, main, false).arr) <= main,
{
    let c = stat_fold(empty_context::<u64>(), arr);
    let st0 = RoundState { arr, amount: c.amount, fix_weight: zero(), fix_basis: c.no_grow_basis, re_basis: zero(), re_calc: false };
    let w0 = grow_divisor(c.grow_weight);
    let wb0 = main.sub_spec(c.no_grow_basis).sub_spec(c.grow_basis);
    lemma_first_grow_round(arr, main);
    lemma_grow_rounds_fit(first_pass(st0, arr.len() as int, false, w0, wb0), c.grow_weight, main);
    lemma_size_total_by(distribute_spec(c, arr, main, false).arr);
}


/// The order of `Px` is total.
proof fn lemma_total_order_px()
    ensures
        total_order::<Px>(),
{
}

/// The item's lengths are not negative: its factors, bounds, basis and
/// content length.
pub open spec fn nonneg_item(d: Data<Px>) -> bool {
    &&& d.grow.0 >= 0 && d.shrink.0 >= 0 && d.length.0 >= 0
    &&& (d.min matches Some(m) ==> m.0 >= 0)
    &&& (d.max matches Some(m) ==> m.0 >= 0)
    &&& (d.basis matches Some(b) ==> b.0 >= 0)
}

/// The sum of the computed `Px` sizes, as an integer.
pub open spec fn px_total(s: Seq<Data<Px>>) -> int
    decreases s.len(),
{
    if s.len() == 0 {
        0
    } else {
        px_total(s.drop_last()) + s.last().result.0
    }
}

/// The size total is the sum of the sizes.
proof fn lemma_px_total_by(s: Seq<Data<Px>>)
    ensures
        px_total(s) == sum_by(s, by_px_result()),
    decreases s.len(),
{
    if s.len() > 0 {
        lemma_px_total_by(s.drop_last());
    }
}

/// The computed size of an item.
spec fn by_px_result() -> spec_fn(Data<Px>) -> int {
    |d: Data<Px>| d.result.0 as int
}

/// The basis of an item that does not shrink.
spec fn by_px_still() -> spec_fn(Data<Px>) -> int {
    |d: Data<Px>| if d.shrink.0 == 0 {
        real_basis(d).0 as int
    } else {
        0
    }
}

/// The basis of an item that shrinks.
spec fn by_px_shrink_basis() -> spec_fn(Data<Px>) -> int {
    |d: Data<Px>| if d.shrink.0 != 0 {
        real_basis(d).0 as int
    } else {
        0
    }
}

/// The minimum of an item that shrinks.
spec fn by_px_shrink_min() -> spec_fn(Data<Px>) -> int {
    |d: Data<Px>| if d.shrink.0 != 0 && d.min is Some {
        (d.min->0).0 as int
    } else {
        0
    }
}

/// The shrink weight (factor times basis) of an item that shrinks.
spec fn by_px_weight() -> spec_fn(Data<Px>) -> int {
    |d: Data<Px>| if d.shrink.0 != 0 {
        d.shrink.0 * real_basis(d).0
    } else {
        0
    }
}

/// The size of an item that is not free.
spec fn by_px_fixed() -> spec_fn(Data<Px>) -> int {
    |d: Data<Px>| if !d.result_maybe_ok {
        d.result.0 as int
    } else {
        0
    }
}

/// The basis of a free item.
spec fn by_px_free_basis() -> spec_fn(Data<Px>) -> int {
    |d: Data<Px>| if d.result_maybe_ok {
        real_basis(d).0 as int
    } else {
        0
    }
}

/// The shrink weight of a free item.
spec fn by_px_free_weight() -> spec_fn(Data<Px>) -> int {
    |d: Data<Px>| if d.result_maybe_ok {
        d.shrink.0 * real_basis(d).0
    } else {
        0
    }
}

/// The share of the shrinking step (`w`, `wb`) that an item takes.
spec fn px_share(d: Data<Px>, w: Px, wb: Px) -> int {
    d.shrink.mul_spec(real_basis(d)).mul_spec(wb).div_spec(w).0 as int
}

/// The share of a shrinking item.
spec fn by_px_share(w: Px, wb: Px) -> spec_fn(Data<Px>) -> int {
    |d: Data<Px>| if d.shrink.0 != 0 {
        px_share(d, w, wb)
    } else {
        0
    }
}

/// The share of a free item.
spec fn by_px_free_share(w: Px, wb: Px) -> spec_fn(Data<Px>) -> int {
    |d: Data<Px>| if d.result_maybe_ok {
        px_share(d, w, wb)
    } else {
        0
    }
}

/// A shrinking item held at its minimum in the first round.
spec fn px_first_held(d: Data<Px>, w: Px, wb: Px) -> bool {
    &&& !factor(d, true).eq_spec(&zero())
    &&& bound(d, true) is Some
    &&& passes_bound(flex_value(d, true, w, wb), bound(d, true)->0, true, true)
}

spec fn by_px_first_fix(w: Px, wb: Px) -> spec_fn(Data<Px>) -> int {
    |d: Data<Px>| if px_first_held(d, w, wb) {
        (bound(d, true)->0).0 as int
    } else {
        0
    }
}

spec fn by_px_first_fix_weight(w: Px, wb: Px) -> spec_fn(Data<Px>) -> int {
    |d: Data<Px>| if px_first_held(d, w, wb) {
        item_weight(d, true).0 as int
    } else {
        0
    }
}

spec fn by_px_first_free(w: Px, wb: Px) -> spec_fn(Data<Px>) -> int {
    |d: Data<Px>| if !factor(d, true).eq_spec(&zero()) && !px_first_held(d, w, wb) {
        real_basis(d).0 as int
    } else {
        0
    }
}

/// A free item held at its minimum in a later round.
spec fn px_later_held(d: Data<Px>, w: Px, wb: Px) -> bool {
    &&& d.result_maybe_ok
    &&& bound(d, true) is Some
    &&& passes_bound(flex_value(d, true, w, wb), bound(d, true)->0, true, false)
}

spec fn by_px_later_fix(w: Px, wb: Px) -> spec_fn(Data<Px>) -> int {
    |d: Data<Px>| if px_later_held(d, w, wb) {
        (bound(d, true)->0).0 as int
    } else {
        0
    }
}

spec fn by_px_later_fix_weight(w: Px, wb: Px) -> spec_fn(Data<Px>) -> int {
    |d: Data<Px>| if px_later_held(d, w, wb) {
        item_weight(d, true).0 as int
    } else {
        0
    }
}

spec fn by_px_later_free(w: Px, wb: Px) -> spec_fn(Data<Px>) -> int {
    |d: Data<Px>| if d.result_maybe_ok && !px_later_held(d, w, wb) {
        real_basis(d).0 as int
    } else {
        0
    }
}

/// The accumulators of a first shrinking round over the items `0..k`, as sums.
proof fn lemma_px_first_pass_by(st: RoundState<Px>, k: int, w: Px, wb: Px)
    requires
        0 <= k <= st.arr.len(),
        first_pass_req(st, k, true, w, wb),
    ensures
        first_pass(st, k, true, w, wb).fix_basis.0 == st.fix_basis.0 + sum_by(st.arr.take(k), by_px_first_fix(w, wb)),
        first_pass(st, k, true, w, wb).fix_weight.0 == st.fix_weight.0 + sum_by(st.arr.take(k), by_px_first_fix_weight(w, wb)),
        first_pass(st, k, true, w, wb).re_basis.0 == st.re_basis.0 + sum_by(st.arr.take(k), by_px_first_free(w, wb)),
    decreases k,
{
    if k > 0 {
        lemma_px_first_pass_by(st, k - 1, w, wb);
        lemma_first_pass_elems(st, k - 1, true, w, wb);
        assert(first_pass(st, k - 1, true, w, wb).arr[k - 1] == st.arr[k - 1]);
        assert(st.arr.take(k).drop_last() =~= st.arr.take(k - 1));
        assert(st.arr.take(k).last() == st.arr[k - 1]);
    } else {
        assert(st.arr.take(0) =~= Seq::<Data<Px>>::empty());
    }
}

/// The accumulators of a later shrinking round over the items `0..k`, as sums.
proof fn lemma_px_later_pass_by(st: RoundState<Px>, k: int, w: Px, wb: Px)
    requires
        0 <= k <= st.arr.len(),
        later_pass_req(st, k, true, w, wb),
    ensures
        later_pass(st, k, true, w, wb).fix_basis.0 == st.fix_basis.0 + sum_by(st.arr.take(k), by_px_later_fix(w, wb)),
        later_pass(st, k, true, w, wb).fix_weight.0 == st.fix_weight.0 + sum_by(st.arr.take(k), by_px_later_fix_weight(w, wb)),
        later_pass(st, k, true, w, wb).re_basis.0 == st.re_basis.0 + sum_by(st.arr.take(k), by_px_later_free(w, wb)),
    decreases k,
{
    if k > 0 {
        lemma_px_later_pass_by(st, k - 1, w, wb);
        lemma_later_pass_elems(st, k - 1, true, w, wb);
        assert(later_pass(st, k - 1, true, w, wb).arr[k - 1] == st.arr[k - 1]);
        assert(st.arr.take(k).drop_last() =~= st.arr.take(k - 1));
        assert(st.arr.take(k).last() == st.arr[k - 1]);
    } else {
        assert(st.arr.take(0) =~= Seq::<Data<Px>>::empty());
    }
}


/// Counted from an empty context without overflow, the totals of `Px`
/// items with no negative length are their sums.
proof fn lemma_px_stat(s: Seq<Data<Px>>)
    requires
        stat_fold_req(empty_context::<Px>(), s),
        forall|i: int| 0 <= i < s.len() ==> #[trigger] nonneg_item(s[i]),
    ensures
        stat_fold(empty_context::<Px>(), s).no_shrink_basis.0 == sum_by(s, by_px_still()),
        stat_fold(empty_context::<Px>(), s).shrink_basis.0 == sum_by(s, by_px_shrink_basis()),
        stat_fold(empty_context::<Px>(), s).shrink_weight.0 == sum_by(s, by_px_weight()),
        stat_fold(empty_context::<Px>(), s).min_shrink_amount.0 == sum_by(s, by_px_shrink_min()),
        stat_fold(empty_context::<Px>(), s).basis.0 == sum_by(s, by_px_still()) + sum_by(s, by_px_shrink_basis()),
        stat_fold(empty_context::<Px>(), s).amount.0 == 0,
        (forall|i: int| 0 <= i < s.len() ==> (#[trigger] s[i]).grow.0 == 0) ==> stat_fold(empty_context::<Px>(), s).grow_weight.0 == 0,
    decreases s.len(),
{
    if s.len() > 0 {
        let t = s.drop_last();
        assert forall|i: int| 0 <= i < t.len() implies #[trigger] nonneg_item(t[i]) by {
            assert(t[i] == s[i]);
        }
        if forall|i: int| 0 <= i < s.len() ==> (#[trigger] s[i]).grow.0 == 0 {
            assert forall|i: int| 0 <= i < t.len() implies (#[trigger] t[i]).grow.0 == 0 by {
                assert(t[i] == s[i]);
            }
        }
        assert(s.last() == s[s.len() - 1]);
        assert(nonneg_item(s.last()));
        let d = s.last();
        assert(d.shrink.is_gt(&zero()) == (d.shrink.0 != 0));
        lemma_px_stat(t);
    }
}

/// A shrinking share of a step with a positive weight and no free space
/// is at most zero, and scaled back by the weight it is at least what was
/// divided (division truncates toward zero).
proof fn lemma_px_share_trunc(d: Data<Px>, w: Px, wb: Px)
    requires
        flex_req(d, true, w, wb),
        d.shrink.0 >= 0,
        real_basis(d).0 >= 0,
        wb.0 <= 0,
        w.0 > 0,
    ensures
        px_share(d, w, wb) <= 0,
        w.0 * px_share(d, w, wb) >= d.shrink.0 * real_basis(d).0 * wb.0,
{
    let b = real_basis(d).0 as int;
    let sh = d.shrink.0 as int;
    let x = sh * b * wb.0;
    assert(sh * b >= 0) by (nonlinear_arith)
        requires
            sh >= 0,
            b >= 0,
    ;
    assert(x <= 0) by (nonlinear_arith)
        requires
            sh * b >= 0,
            wb.0 <= 0,
            x == sh * b * wb.0,
    ;
    let p = d.shrink.mul_spec(real_basis(d)).mul_spec(wb);
    assert(p.0 == x);
    if x < 0 {
        let y = -x;
        let wi = w.0 as int;
        vstd::arithmetic::div_mod::lemma_fundamental_div_mod(y, wi);
        assert(0 <= y % wi);
        let t = y / wi;
        assert(t >= 0) by (nonlinear_arith)
            requires
                y > 0,
                wi > 0,
                t == y / wi,
        ;
        assert(wi * t <= y);
        assert(px_share(d, w, wb) == -t);
        assert(wi * (-t) >= x) by (nonlinear_arith)
            requires
                wi * t <= y,
                y == -x,
        ;
    } else {
        assert(px_share(d, w, wb) == 0);
    }
}

/// Shares that fall short: where each `q` times `w` is at least `wb` times
/// the item's weight `g`, `wb` is at most zero, and the weights add up to at
/// most `w`, the shares add up to at least `wb`.
proof fn lemma_shares_cover<T>(a: Seq<Data<T>>, q: spec_fn(Data<T>) -> int, g: spec_fn(Data<T>) -> int, w: int, wb: int)
    requires
        w > 0,
        wb <= 0,
        sum_by(a, g) <= w,
        forall|j: int| 0 <= j < a.len() ==> 0 <= g(#[trigger] a[j]) && w * q(a[j]) >= wb * g(a[j]),
    ensures
        sum_by(a, q) >= wb,
{
    lemma_shares_scaled_cover(a, q, g, w, wb);
    let sq = sum_by(a, q);
    let sg = sum_by(a, g);
    assert(wb * sg >= wb * w) by (nonlinear_arith)
        requires
            wb <= 0,
            sg <= w,
    ;
    assert(sq >= wb) by (nonlinear_arith)
        requires
            w > 0,
            w * sq >= wb * w,
    ;
}

/// The scaled shares add up to at least the scaled weights.
proof fn lemma_shares_scaled_cover<T>(a: Seq<Data<T>>, q: spec_fn(Data<T>) -> int, g: spec_fn(Data<T>) -> int, w: int, wb: int)
    requires
        forall|j: int| 0 <= j < a.len() ==> 0 <= g(#[trigger] a[j]) && w * q(a[j]) >= wb * g(a[j]),
    ensures
        w * sum_by(a, q) >= wb * sum_by(a, g),
        0 <= sum_by(a, g),
    decreases a.len(),
{
    if a.len() > 0 {
        let t = a.drop_last();
        assert forall|j: int| 0 <= j < t.len() implies 0 <= g(#[trigger] t[j]) && w * q(t[j]) >= wb * g(t[j]) by {
            assert(t[j] == a[j]);
        }
        lemma_shares_scaled_cover(t, q, g, w, wb);
        let x = a.last();
        assert(a.last() == a[a.len() - 1]);
        let sq = sum_by(t, q);
        let sg = sum_by(t, g);
        let qx = q(x);
        let gx = g(x);
        assert(w * (sq + qx) >= wb * (sg + gx)) by (nonlinear_arith)
            requires
                w * sq >= wb * sg,
                w * qx >= wb * gx,
        ;
    }
}

/// A complete shrinking round of `Px` sizes left its accumulators as sums
/// over the items: the sizes held fixed, the bases of the free items, and
/// with the held weight the free items' weights make up `total`; every item
/// has no negative length, lies within its bounds, and a free item shrinks
/// and lies at or below its basis; the fixed sizes and free bases leave no
/// free space, and the sizes fill `main`.
spec fn shrink_round_inv(st: RoundState<Px>, total: Px, main: Px) -> bool {
    &&& st.fix_basis.0 == sum_by(st.arr, by_px_fixed())
    &&& st.re_basis.0 == sum_by(st.arr, by_px_free_basis())
    &&& st.fix_weight.0 + sum_by(st.arr, by_px_free_weight()) == total.0
    &&& forall|j: int| 0 <= j < st.arr.len() ==> {
        &&& #[trigger] nonneg_item(st.arr[j])
        &&& bounded_item(st.arr[j])
        &&& within(st.arr[j], st.arr[j].result)
        &&& st.arr[j].result_maybe_ok ==> st.arr[j].shrink.0 > 0 && st.arr[j].result.0 <= real_basis(st.arr[j]).0
    }
    &&& st.fix_basis.0 + st.re_basis.0 >= main.0
    &&& sum_by(st.arr, by_px_result()) >= main.0
}


/// A `Px` item with no negative length and a minimum at most its maximum
/// has its basis within them and not negative.
proof fn lemma_px_basis(d: Data<Px>)
    requires
        nonneg_item(d),
        bounded_item(d),
    ensures
        within(d, real_basis(d)),
        real_basis(d).0 >= 0,
{
    lemma_total_order_px();
    lemma_real_basis_within(d);
}

spec fn by_px_part(w: Px, wb: Px) -> spec_fn(Data<Px>) -> int {
    |d: Data<Px>| by_px_shrink_basis()(d) + by_px_share(w, wb)(d)
}

/// What an item of a shrinking round leaves at least: its basis, less its
/// share where it shrinks.
spec fn by_px_lower(w: Px, wb: Px) -> spec_fn(Data<Px>) -> int {
    |d: Data<Px>| by_px_still()(d) + by_px_part(w, wb)(d)
}

/// The size of an item held fixed, or the basis of a free one.
spec fn by_px_fixed_free() -> spec_fn(Data<Px>) -> int {
    |d: Data<Px>| by_px_fixed()(d) + by_px_free_basis()(d)
}

/// What the first shrinking round makes of item `d0` (as `d`).
spec fn px_first_item(d0: Data<Px>, d: Data<Px>, w0: Px, wb0: Px) -> bool {
    &&& nonneg_item(d)
    &&& bounded_item(d)
    &&& within(d, d.result)
    &&& d.result_maybe_ok ==> d.shrink.0 > 0 && d.result.0 <= real_basis(d).0
    &&& by_px_fixed()(d) == by_px_still()(d0) + by_px_first_fix(w0, wb0)(d0)
    &&& by_px_free_basis()(d) == by_px_first_free(w0, wb0)(d0) + by_zero()(d0)
    &&& by_px_first_fix_weight(w0, wb0)(d0) + by_px_free_weight()(d) == by_px_weight()(d0) + by_zero()(d)
    &&& by_px_lower(w0, wb0)(d0) <= by_px_fixed_free()(d)
    &&& by_px_lower(w0, wb0)(d0) <= by_px_result()(d)
    &&& 0 <= by_px_weight()(d0)
    &&& w0.0 * by_px_share(w0, wb0)(d0) >= wb0.0 * by_px_weight()(d0)
}

/// One item through the first shrinking round.
proof fn lemma_px_first_item(d0: Data<Px>, w0: Px, wb0: Px)
    requires
        nonneg_item(d0),
        bounded_item(d0),
        !d0.result_maybe_ok,
        d0.shrink.0 != 0 ==> flex_req(d0, true, w0, wb0),
        w0.0 > 0,
        wb0.0 <= 0,
    ensures
        px_first_item(d0, first_elem(d0, true, w0, wb0), w0, wb0),
{
    lemma_px_basis(d0);
    lemma_total_order_px();
    let sh = d0.shrink.0 as int;
    let b = real_basis(d0).0 as int;
    assert(sh * b >= 0) by (nonlinear_arith)
        requires
            sh >= 0,
            b >= 0,
    ;
    if d0.shrink.0 != 0 {
        lemma_px_share_trunc(d0, w0, wb0);
        assert(sh * b * wb0.0 == wb0.0 * (sh * b)) by (nonlinear_arith);
    }
}

/// The first shrinking round from an empty context, where the bases
/// overflow the container, ends in a state of `shrink_round_inv`.
proof fn lemma_px_first_round(arr: Seq<Data<Px>>, main: Px)
    requires
        none_free(arr),
        forall|i: int| 0 <= i < arr.len() ==> #[trigger] nonneg_item(arr[i]) && bounded_item(arr[i]),
        stat_fold_req(empty_context::<Px>(), arr),
        distribute_req(stat_fold(empty_context::<Px>(), arr), arr, main, true),
        stat_fold(empty_context::<Px>(), arr).basis.0 > main.0,
        stat_fold(empty_context::<Px>(), arr).shrink_weight.0 != 0,
    ensures ({
        let c = stat_fold(empty_context::<Px>(), arr);
        let st0 = RoundState { arr, amount: c.amount, fix_weight: zero(), fix_basis: c.no_shrink_basis, re_basis: zero(), re_calc: false };
        let wb0 = main.sub_spec(c.no_shrink_basis).sub_spec(c.shrink_basis);
        shrink_round_inv(first_pass(st0, arr.len() as int, true, c.shrink_weight, wb0), c.shrink_weight, main)
    }),
{
    let c = stat_fold(empty_context::<Px>(), arr);
    let n = arr.len() as int;
    let st0 = RoundState { arr, amount: c.amount, fix_weight: zero(), fix_basis: c.no_shrink_basis, re_basis: zero(), re_calc: false };
    let w0 = c.shrink_weight;
    let wb0 = main.sub_spec(c.no_shrink_basis).sub_spec(c.shrink_basis);
    let first = first_pass(st0, n, true, w0, wb0);
    lemma_px_stat(arr);
    lemma_px_first_pass_by(st0, n, w0, wb0);
    assert(arr.take(n) =~= arr);
    lemma_first_pass_elems(st0, n, true, w0, wb0);
    assert forall|j: int| 0 <= j < n implies #[trigger] first.arr[j] == first_elem(arr[j], true, w0, wb0) by {}
    assert(wb0.0 < 0);
    // the shrink weights are not negative, and their total is positive
    assert forall|j: int| 0 <= j < n implies by_zero()(#[trigger] arr[j]) <= by_px_weight()(arr[j]) by {
        assert(nonneg_item(arr[j]));
        assert(bounded_item(arr[j]));
        lemma_px_basis(arr[j]);
        let sh = arr[j].shrink.0 as int;
        let b = real_basis(arr[j]).0 as int;
        assert(sh * b >= 0) by (nonlinear_arith)
            requires
                sh >= 0,
                b >= 0,
        ;
    }
    lemma_sum_le(arr, arr, by_zero(), by_px_weight());
    lemma_sum_zero(arr);
    assert(w0.0 > 0);
    // the items
    assert forall|j: int| 0 <= j < n implies #[trigger] px_first_item(arr[j], first.arr[j], w0, wb0) by {
        assert(nonneg_item(arr[j]));
        assert(bounded_item(arr[j]));
        assert(!arr[j].result_maybe_ok);
        if arr[j].shrink.0 != 0 {
            lemma_first_pass_req_step(st0, n, j, true, w0, wb0);
            lemma_first_pass_elems(st0, j, true, w0, wb0);
            assert(first_pass(st0, j, true, w0, wb0).arr[j] == arr[j]);
            assert(flex_req(arr[j], true, w0, wb0));
        }
        lemma_px_first_item(arr[j], w0, wb0);
    }
    assert forall|j: int| 0 <= j < n implies {
        &&& #[trigger] nonneg_item(first.arr[j])
        &&& bounded_item(first.arr[j])
        &&& within(first.arr[j], first.arr[j].result)
        &&& first.arr[j].result_maybe_ok ==> first.arr[j].shrink.0 > 0 && first.arr[j].result.0 <= real_basis(first.arr[j]).0
    } by {
        assert(px_first_item(arr[j], first.arr[j], w0, wb0));
    }
    assert forall|j: int| 0 <= j < n implies by_px_fixed()(#[trigger] first.arr[j]) == by_px_still()(arr[j]) + by_px_first_fix(w0, wb0)(arr[j]) by {
        assert(px_first_item(arr[j], first.arr[j], w0, wb0));
    }
    assert forall|j: int| 0 <= j < n implies by_px_free_basis()(#[trigger] first.arr[j]) == by_px_first_free(w0, wb0)(arr[j]) + by_zero()(arr[j]) by {
        assert(px_first_item(arr[j], first.arr[j], w0, wb0));
    }
    assert forall|j: int| 0 <= j < n implies by_px_first_fix_weight(w0, wb0)(#[trigger] arr[j]) + by_px_free_weight()(first.arr[j]) == by_px_weight()(arr[j]) + by_zero()(first.arr[j]) by {
        assert(px_first_item(arr[j], first.arr[j], w0, wb0));
    }
    assert forall|j: int| 0 <= j < n implies by_px_lower(w0, wb0)(#[trigger] arr[j]) <= by_px_fixed_free()(first.arr[j])
        && by_px_lower(w0, wb0)(arr[j]) <= by_px_result()(first.arr[j]) by {
        assert(px_first_item(arr[j], first.arr[j], w0, wb0));
    }
    assert forall|j: int| 0 <= j < n implies 0 <= by_px_weight()(#[trigger] arr[j])
        && w0.0 * by_px_share(w0, wb0)(arr[j]) >= wb0.0 * by_px_weight()(arr[j]) by {
        assert(px_first_item(arr[j], first.arr[j], w0, wb0));
    }
    lemma_sum_split(arr, first.arr, by_px_fixed(), by_px_still(), by_px_first_fix(w0, wb0));
    lemma_sum_split(arr, first.arr, by_px_free_basis(), by_px_first_free(w0, wb0), by_zero());
    lemma_sum_two_eq(arr, first.arr, by_px_first_fix_weight(w0, wb0), by_px_free_weight(), by_px_weight(), by_zero());
    lemma_sum_zero(first.arr);
    lemma_sum_split(arr, arr, by_px_lower(w0, wb0), by_px_still(), by_px_part(w0, wb0));
    lemma_sum_split(arr, arr, by_px_part(w0, wb0), by_px_shrink_basis(), by_px_share(w0, wb0));
    lemma_sum_split(first.arr, first.arr, by_px_fixed_free(), by_px_fixed(), by_px_free_basis());
    lemma_sum_le(first.arr, arr, by_px_lower(w0, wb0), by_px_fixed_free());
    lemma_sum_le(first.arr, arr, by_px_lower(w0, wb0), by_px_result());
    lemma_shares_cover(arr, by_px_share(w0, wb0), by_px_weight(), w0.0 as int, wb0.0 as int);
}


/// What an item of a later shrinking round leaves at least: its fixed size,
/// or its basis less its share while free.
spec fn by_px_later_lower(w: Px, wb: Px) -> spec_fn(Data<Px>) -> int {
    |d: Data<Px>| by_px_fixed_free()(d) + by_px_free_share(w, wb)(d)
}

/// What a later shrinking round makes of item `d0` (as `d`).
spec fn px_later_item(d0: Data<Px>, d: Data<Px>, w: Px, wb: Px) -> bool {
    &&& nonneg_item(d)
    &&& bounded_item(d)
    &&& within(d, d.result)
    &&& d.result_maybe_ok ==> d.shrink.0 > 0 && d.result.0 <= real_basis(d).0
    &&& by_px_fixed()(d) == by_px_fixed()(d0) + by_px_later_fix(w, wb)(d0)
    &&& by_px_free_basis()(d) == by_px_later_free(w, wb)(d0) + by_zero()(d0)
    &&& by_px_later_fix_weight(w, wb)(d0) + by_px_free_weight()(d) == by_px_free_weight()(d0) + by_zero()(d)
    &&& by_px_later_lower(w, wb)(d0) <= by_px_fixed_free()(d)
    &&& by_px_later_lower(w, wb)(d0) <= by_px_result()(d)
    &&& 0 <= by_px_free_weight()(d0)
    &&& w.0 * by_px_free_share(w, wb)(d0) >= wb.0 * by_px_free_weight()(d0)
}

/// One item through a later shrinking round.
proof fn lemma_px_later_item(d0: Data<Px>, w: Px, wb: Px)
    requires
        nonneg_item(d0),
        bounded_item(d0),
        within(d0, d0.result),
        d0.result_maybe_ok ==> d0.shrink.0 > 0 && d0.result.0 <= real_basis(d0).0,
        d0.result_maybe_ok ==> flex_req(d0, true, w, wb) && w.0 > 0,
        wb.0 <= 0,
    ensures
        px_later_item(d0, later_elem(d0, true, w, wb), w, wb),
{
    lemma_px_basis(d0);
    lemma_total_order_px();
    let sh = d0.shrink.0 as int;
    let b = real_basis(d0).0 as int;
    assert(sh * b >= 0) by (nonlinear_arith)
        requires
            sh >= 0,
            b >= 0,
    ;
    if d0.result_maybe_ok {
        lemma_px_share_trunc(d0, w, wb);
        assert(sh * b * wb.0 == wb.0 * (sh * b)) by (nonlinear_arith);
    }
}

/// A later shrinking round from a state of `shrink_round_inv` ends in one.
proof fn lemma_px_later_round(st: RoundState<Px>, total: Px, main: Px)
    requires
        shrink_round_inv(st, total, main),
        st.re_calc,
        later_rounds_req(st, true, total, main),
    ensures ({
        let w = round_weight(total, st.fix_weight, true);
        let wb = main.sub_spec(st.fix_basis).sub_spec(st.re_basis);
        let st1 = RoundState { re_basis: zero(), re_calc: false, ..st };
        shrink_round_inv(later_pass(st1, st.arr.len() as int, true, w, wb), total, main)
    }),
{
    let n = st.arr.len() as int;
    let w = round_weight(total, st.fix_weight, true);
    let wb = main.sub_spec(st.fix_basis).sub_spec(st.re_basis);
    let st1 = RoundState { re_basis: zero(), re_calc: false, ..st };
    let s2 = later_pass(st1, n, true, w, wb);
    let a = st.arr;
    assert(wb.0 <= 0);
    assert(w.0 == total.0 - st.fix_weight.0);
    lemma_px_later_pass_by(st1, n, w, wb);
    assert(a.take(n) =~= a);
    lemma_later_pass_elems(st1, n, true, w, wb);
    // the free items' weights are not negative
    assert forall|j: int| 0 <= j < n implies by_zero()(#[trigger] a[j]) <= by_px_free_weight()(a[j]) by {
        assert(nonneg_item(a[j]));
        assert(bounded_item(a[j]));
        lemma_px_basis(a[j]);
        let sh = a[j].shrink.0 as int;
        let b = real_basis(a[j]).0 as int;
        assert(sh * b >= 0) by (nonlinear_arith)
            requires
                sh >= 0,
                b >= 0,
        ;
    }
    lemma_sum_le(a, a, by_zero(), by_px_free_weight());
    lemma_sum_zero(a);
    assert(w.0 >= 0);
    assert forall|j: int| 0 <= j < n implies #[trigger] px_later_item(a[j], s2.arr[j], w, wb) by {
        assert(nonneg_item(a[j]));
        if a[j].result_maybe_ok {
            lemma_later_pass_req_step(st1, n, j, true, w, wb);
            lemma_later_pass_elems(st1, j, true, w, wb);
            assert(later_pass(st1, j, true, w, wb).arr[j] == a[j]);
            assert(flex_req(a[j], true, w, wb));
        }
        lemma_px_later_item(a[j], w, wb);
        assert(s2.arr[j] == later_elem(a[j], true, w, wb));
    }
    assert forall|j: int| 0 <= j < n implies {
        &&& #[trigger] nonneg_item(s2.arr[j])
        &&& bounded_item(s2.arr[j])
        &&& within(s2.arr[j], s2.arr[j].result)
        &&& s2.arr[j].result_maybe_ok ==> s2.arr[j].shrink.0 > 0 && s2.arr[j].result.0 <= real_basis(s2.arr[j]).0
    } by {
        assert(px_later_item(a[j], s2.arr[j], w, wb));
    }
    assert forall|j: int| 0 <= j < n implies by_px_fixed()(#[trigger] s2.arr[j]) == by_px_fixed()(a[j]) + by_px_later_fix(w, wb)(a[j]) by {
        assert(px_later_item(a[j], s2.arr[j], w, wb));
    }
    assert forall|j: int| 0 <= j < n implies by_px_free_basis()(#[trigger] s2.arr[j]) == by_px_later_free(w, wb)(a[j]) + by_zero()(a[j]) by {
        assert(px_later_item(a[j], s2.arr[j], w, wb));
    }
    assert forall|j: int| 0 <= j < n implies by_px_later_fix_weight(w, wb)(#[trigger] a[j]) + by_px_free_weight()(s2.arr[j]) == by_px_free_weight()(a[j]) + by_zero()(s2.arr[j]) by {
        assert(px_later_item(a[j], s2.arr[j], w, wb));
    }
    assert forall|j: int| 0 <= j < n implies by_px_later_lower(w, wb)(#[trigger] a[j]) <= by_px_fixed_free()(s2.arr[j])
        && by_px_later_lower(w, wb)(a[j]) <= by_px_result()(s2.arr[j]) by {
        assert(px_later_item(a[j], s2.arr[j], w, wb));
    }
    lemma_sum_split(a, s2.arr, by_px_fixed(), by_px_fixed(), by_px_later_fix(w, wb));
    lemma_sum_split(a, s2.arr, by_px_free_basis(), by_px_later_free(w, wb), by_zero());
    lemma_sum_two_eq(a, s2.arr, by_px_later_fix_weight(w, wb), by_px_free_weight(), by_px_free_weight(), by_zero());
    lemma_sum_zero(s2.arr);
    lemma_sum_split(a, a, by_px_later_lower(w, wb), by_px_fixed_free(), by_px_free_share(w, wb));
    lemma_sum_split(a, a, by_px_fixed_free(), by_px_fixed(), by_px_free_basis());
    lemma_sum_split(s2.arr, s2.arr, by_px_fixed_free(), by_px_fixed(), by_px_free_basis());
    lemma_sum_le(s2.arr, a, by_px_later_lower(w, wb), by_px_fixed_free());
    lemma_sum_le(s2.arr, a, by_px_later_lower(w, wb), by_px_result());
    if w.0 == 0 {
        assert forall|j: int| 0 <= j < n implies by_zero()(#[trigger] a[j]) <= by_px_free_share(w, wb)(a[j]) by {
            if a[j].result_maybe_ok {
                lemma_later_pass_req_step(st1, n, j, true, w, wb);
                lemma_later_pass_elems(st1, j, true, w, wb);
                assert(later_pass(st1, j, true, w, wb).arr[j] == a[j]);
                assert(flex_req(a[j], true, w, wb));
            }
        }
        lemma_sum_le(a, a, by_zero(), by_px_free_share(w, wb));
    } else {
        assert forall|j: int| 0 <= j < n implies 0 <= by_px_free_weight()(#[trigger] a[j])
            && w.0 * by_px_free_share(w, wb)(a[j]) >= wb.0 * by_px_free_weight()(a[j]) by {
            assert(px_later_item(a[j], s2.arr[j], w, wb));
        }
        lemma_shares_cover(a, by_px_free_share(w, wb), by_px_free_weight(), w.0 as int, wb.0 as int);
    }
}

/// The further shrinking rounds from a state of `shrink_round_inv` end in
/// one.
proof fn lemma_px_rounds(st: RoundState<Px>, total: Px, main: Px)
    requires
        shrink_round_inv(st, total, main),
        later_rounds_req(st, true, total, main),
    ensures
        shrink_round_inv(later_rounds(st, true, total, main), total, main),
    decreases count_ok(st.arr),
{
    if st.re_calc {
        let w = round_weight(total, st.fix_weight, true);
        let wb = main.sub_spec(st.fix_basis).sub_spec(st.re_basis);
        let st1 = RoundState { re_basis: zero(), re_calc: false, ..st };
        let st2 = later_pass(st1, st.arr.len() as int, true, w, wb);
        lemma_px_later_round(st, total, main);
        if count_ok(st2.arr) < count_ok(st.arr) {
            lemma_px_rounds(st2, total, main);
        }
    }
}


/// With `Px` sizes, none negative, where every item has a minimum at most
/// its maximum, the items are counted from an empty context with every
/// operation defined, and the bases overflow the container while the
/// non-shrinking bases and the shrinking items' minima fit it (at least one
/// of those minima above zero): every item ends within its minimum and
/// maximum, and the sizes fill the container: they add up to at least its
/// size (shares are truncated toward zero), and to exactly its size where
/// the minima fill it exactly; the recorded amount is the sum of the sizes.
pub proof fn lemma_shrink_fills_container_px(arr: Seq<Data<Px>>, main: Px)
    requires
        none_free(arr),
        forall|i: int| 0 <= i < arr.len() ==> #[trigger] nonneg_item(arr[i]) && bounded_item(arr[i]),
        stat_fold_req(empty_context::<Px>(), arr),
        calculate_req(stat_fold(empty_context::<Px>(), arr), arr, main),
        stat_fold(empty_context::<Px>(), arr).no_shrink_basis.0 + stat_fold(empty_context::<Px>(), arr).min_shrink_amount.0 <= main.0,
        main.0 < stat_fold(empty_context::<Px>(), arr).basis.0,
        stat_fold(empty_context::<Px>(), arr).min_shrink_amount.0 != 0,
    ensures
        forall|i: int| 0 <= i < arr.len()
            ==> within(arr[i], (#[trigger] calculate_spec(stat_fold(empty_context::<Px>(), arr), arr, main).1[i]).result),
        px_total(calculate_spec(stat_fold(empty_context::<Px>(), arr), arr, main).1) >= main.0,
        stat_fold(empty_context::<Px>(), arr).no_shrink_basis.0 + stat_fold(empty_context::<Px>(), arr).min_shrink_amount.0 == main.0
            ==> px_total(calculate_spec(stat_fold(empty_context::<Px>(), arr), arr, main).1) == main.0,
        calculate_spec(stat_fold(empty_context::<Px>(), arr), arr, main).0.amount.0
            == px_total(calculate_spec(stat_fold(empty_context::<Px>(), arr), arr, main).1),
{
    let c = stat_fold(empty_context::<Px>(), arr);
    let out = calculate_spec(c, arr, main).1;
    let n = arr.len() as int;
    lemma_total_order_px();
    lemma_px_stat(arr);
    // a shrinking item's basis is at most its weight
    assert forall|j: int| 0 <= j < n implies by_px_shrink_basis()(#[trigger] arr[j]) <= by_px_weight()(arr[j])
        && 0 <= by_px_shrink_min()(arr[j]) by {
        assert(nonneg_item(arr[j]));
        assert(bounded_item(arr[j]));
        lemma_px_basis(arr[j]);
        let sh = arr[j].shrink.0 as int;
        let b = real_basis(arr[j]).0 as int;
        if sh != 0 {
            assert(b <= sh * b) by (nonlinear_arith)
                requires
                    sh >= 1,
                    b >= 0,
            ;
        }
    }
    lemma_sum_le(arr, arr, by_px_shrink_basis(), by_px_weight());
    lemma_sum_le(arr, arr, by_zero(), by_px_shrink_min());
    lemma_sum_zero(arr);
    assert forall|j: int| 0 <= j < n implies by_zero()(#[trigger] arr[j]) <= by_px_shrink_basis()(arr[j]) by {
        assert(nonneg_item(arr[j]));
        assert(bounded_item(arr[j]));
        lemma_px_basis(arr[j]);
    }
    lemma_sum_le(arr, arr, by_zero(), by_px_shrink_basis());
    assert(c.shrink_weight.0 != 0);
    assert forall|i: int| 0 <= i < n implies #[trigger] bounded_item(arr[i]) by {
        assert(nonneg_item(arr[i]));
        assert(bounded_item(arr[i]));
    }
    lemma_calculate_within_bounds(c, arr, main);
    match distribution(c, main) {
        Distribution::Minima => {
            assert forall|j: int| 0 <= j < n implies by_px_result()(#[trigger] out[j])
                == by_px_still()(arr[j]) + by_px_shrink_min()(arr[j]) by {
                assert(nonneg_item(arr[j]));
        assert(bounded_item(arr[j]));
                assert(out[j] == with_result(arr[j], set_min_spec(arr[j])));
            }
            lemma_sum_split(arr, out, by_px_result(), by_px_still(), by_px_shrink_min());
            lemma_px_total_by(out);
            assert forall|i: int| 0 <= i < n implies within(arr[i], (#[trigger] out[i]).result) by {
                assert(kept_within(distribution(c, main), arr[i], out[i]));
            }
        },
        Distribution::ShrinkBounded => {
            let st0 = RoundState { arr, amount: c.amount, fix_weight: zero(), fix_basis: c.no_shrink_basis, re_basis: zero(), re_calc: false };
            let wb0 = main.sub_spec(c.no_shrink_basis).sub_spec(c.shrink_basis);
            let first = first_pass(st0, n, true, c.shrink_weight, wb0);
            lemma_px_first_round(arr, main);
            lemma_px_rounds(first, c.shrink_weight, main);
            lemma_distribution_amount_px(c, arr, main, true);
            lemma_px_total_by(out);
            lemma_bounded_distribution_settles(c, arr, main, true);
            let (w, wb) = choose|w: Px, wb: Px| settled(arr, #[trigger] distribute_spec(c, arr, main, true).arr, true, w, wb)
                && (distribute_req(c, arr, main, true) ==> free_defined(arr, distribute_spec(c, arr, main, true).arr, true, w, wb));
            assert forall|i: int| 0 <= i < n implies within(arr[i], (#[trigger] out[i]).result) by {
                assert(settled_item(arr[i], out[i], true, w, wb));
                assert(out == later_rounds(first, true, c.shrink_weight, main).arr);
                assert(nonneg_item(out[i]));
                assert(within(out[i], out[i].result));
                assert(out[i].min == arr[i].min && out[i].max == arr[i].max);
            }
        },
        _ => {},
    }
}

/// With `Px` sizes, none negative, where no item grows and every item has a
/// minimum at most its maximum, counted from an empty context with every
/// operation defined, the sizes add up to: the non-shrinking bases where
/// nothing shrinks; all bases where they fit the container; at least the
/// container's size where the bases overflow it and the non-shrinking bases
/// with the shrinking items' minima (at least one above zero) fit it;
/// exactly its size where those fill it; the non-shrinking bases with the
/// minima where even they overflow it. Outside proportional shrinking every
/// item ends within its minimum and maximum, and the recorded amount is the
/// sum of the sizes.
pub proof fn lemma_shrink_totals_px(arr: Seq<Data<Px>>, main: Px)
    requires
        none_free(arr),
        forall|i: int| 0 <= i < arr.len() ==> #[trigger] nonneg_item(arr[i]) && bounded_item(arr[i]),
        forall|i: int| 0 <= i < arr.len() ==> (#[trigger] arr[i]).grow.0 == 0,
        stat_fold_req(empty_context::<Px>(), arr),
        calculate_req(stat_fold(empty_context::<Px>(), arr), arr, main),
    ensures ({
        let c = stat_fold(empty_context::<Px>(), arr);
        let out = calculate_spec(c, arr, main);
        let a = px_total(out.1);
        let ns = c.no_shrink_basis.0;
        &&& c.shrink_weight.0 == 0 ==> a == ns
        &&& c.shrink_weight.0 != 0 && ns + c.shrink_basis.0 <= main.0 ==> a == ns + c.shrink_basis.0
        &&& c.shrink_weight.0 != 0 && ns + c.shrink_basis.0 > main.0 && ns + c.min_shrink_amount.0 <= main.0
            && c.min_shrink_amount.0 != 0 ==> a >= main.0
        &&& c.shrink_weight.0 != 0 && ns + c.shrink_basis.0 > main.0 && ns + c.min_shrink_amount.0 == main.0 ==> a == main.0
        &&& c.shrink_weight.0 != 0 && ns + c.shrink_basis.0 > main.0 && ns + c.min_shrink_amount.0 > main.0
            ==> a == ns + c.min_shrink_amount.0
        &&& !(distribution(c, main) is Shrink) ==> out.0.amount.0 == a
        &&& !(distribution(c, main) is Shrink) ==> forall|i: int| 0 <= i < arr.len() ==> within(arr[i], (#[trigger] out.1[i]).result)
    }),
{
    let c = stat_fold(empty_context::<Px>(), arr);
    let out = calculate_spec(c, arr, main).1;
    let n = arr.len() as int;
    lemma_total_order_px();
    lemma_px_stat(arr);
    assert forall|j: int| 0 <= j < n implies by_px_shrink_basis()(#[trigger] arr[j]) <= by_px_weight()(arr[j])
        && by_zero()(arr[j]) <= by_px_shrink_basis()(arr[j]) && bounded_item(arr[j]) by {
        assert(nonneg_item(arr[j]));
        assert(bounded_item(arr[j]));
        lemma_px_basis(arr[j]);
        let sh = arr[j].shrink.0 as int;
        let b = real_basis(arr[j]).0 as int;
        if sh != 0 {
            assert(b <= sh * b) by (nonlinear_arith)
                requires
                    sh >= 1,
                    b >= 0,
            ;
        }
    }
    lemma_sum_le(arr, arr, by_px_shrink_basis(), by_px_weight());
    lemma_sum_zero(arr);
    lemma_sum_le(arr, arr, by_zero(), by_px_shrink_basis());
    lemma_calculate_within_bounds(c, arr, main);
    match distribution(c, main) {
        Distribution::Bases => {
            assert forall|j: int| 0 <= j < n implies by_px_result()(#[trigger] out[j])
                == by_px_still()(arr[j]) + by_px_shrink_basis()(arr[j]) by {
                assert(out[j] == with_result(arr[j], real_basis(arr[j])));
            }
            lemma_sum_split(arr, out, by_px_result(), by_px_still(), by_px_shrink_basis());
            lemma_px_total_by(out);
            assert forall|i: int| 0 <= i < n implies within(arr[i], (#[trigger] out[i]).result) by {
                assert(kept_within(distribution(c, main), arr[i], out[i]));
            }
        },
        Distribution::Minima => {
            assert forall|j: int| 0 <= j < n implies by_px_result()(#[trigger] out[j])
                == by_px_still()(arr[j]) + by_px_shrink_min()(arr[j]) by {
                assert(out[j] == with_result(arr[j], set_min_spec(arr[j])));
            }
            lemma_sum_split(arr, out, by_px_result(), by_px_still(), by_px_shrink_min());
            lemma_px_total_by(out);
            assert forall|i: int| 0 <= i < n implies within(arr[i], (#[trigger] out[i]).result) by {
                assert(kept_within(distribution(c, main), arr[i], out[i]));
            }
        },
        Distribution::ShrinkBounded => {
            lemma_shrink_fills_container_px(arr, main);
        },
        Distribution::Shrink => {},
        _ => {
            assert(c.grow_weight.0 == 0);
        },
    }
}

/// Replacing one item changes the total by the difference of its sizes.
proof fn lemma_px_total_update(s: Seq<Data<Px>>, j: int, d: Data<Px>)
    requires
        0 <= j < s.len(),
    ensures
        px_total(s.update(j, d)) == px_total(s) - s[j].result.0 + d.result.0,
    decreases s.len(),
{
    if j < s.len() - 1 {
        lemma_px_total_update(s.drop_last(), j, d);
        assert(s.update(j, d).drop_last() =~= s.drop_last().update(j, d));
    } else {
        assert(s.update(j, d).drop_last() =~= s.drop_last());
    }
}


/// A first round over the items `0..k` raises the amount by the new sizes of
/// those items, as integers (`Px` sizes).
proof fn lemma_first_pass_amount_px(st: RoundState<Px>, k: int, shrinking: bool, w: Px, wb: Px)
    requires
        0 <= k <= st.arr.len(),
        first_pass_req(st, k, shrinking, w, wb),
    ensures
        first_pass(st, k, shrinking, w, wb).amount.0 - px_total(first_pass(st, k, shrinking, w, wb).arr)
            == st.amount.0 - px_total(st.arr) + px_total(st.arr.take(k)),
    decreases k,
{
    if k > 0 {
        lemma_first_pass_amount_px(st, k - 1, shrinking, w, wb);
        let p = first_pass(st, k - 1, shrinking, w, wb);
        lemma_first_pass_elems(st, k - 1, shrinking, w, wb);
        assert(p.arr[k - 1] == st.arr[k - 1]);
        let q = first_step(p, k - 1, shrinking, w, wb);
        lemma_px_total_update(p.arr, k - 1, q.arr[k - 1]);
        assert(q.arr =~= p.arr.update(k - 1, q.arr[k - 1]));
        assert(st.arr.take(k).drop_last() =~= st.arr.take(k - 1));
    } else {
        assert(st.arr.take(0) =~= Seq::<Data<Px>>::empty());
    }
}

/// A later round keeps the amount equal to the sum of the sizes.
proof fn lemma_later_pass_amount_px(st: RoundState<Px>, k: int, shrinking: bool, w: Px, wb: Px)
    requires
        0 <= k <= st.arr.len(),
        later_pass_req(st, k, shrinking, w, wb),
        st.amount.0 == px_total(st.arr),
    ensures
        later_pass(st, k, shrinking, w, wb).amount.0 == px_total(later_pass(st, k, shrinking, w, wb).arr),
    decreases k,
{
    if k > 0 {
        lemma_later_pass_amount_px(st, k - 1, shrinking, w, wb);
        let p = later_pass(st, k - 1, shrinking, w, wb);
        lemma_later_pass_elems(st, k - 1, shrinking, w, wb);
        let q = later_step(p, k - 1, shrinking, w, wb);
        if p.arr[k - 1].result_maybe_ok {
            lemma_px_total_update(p.arr, k - 1, q.arr[k - 1]);
            assert(q.arr =~= p.arr.update(k - 1, q.arr[k - 1]));
        }
    }
}

/// The further rounds keep the amount equal to the sum of the sizes.
proof fn lemma_later_rounds_amount_px(st: RoundState<Px>, shrinking: bool, total: Px, length: Px)
    requires
        later_rounds_req(st, shrinking, total, length),
        st.amount.0 == px_total(st.arr),
    ensures
        later_rounds(st, shrinking, total, length).amount.0 == px_total(later_rounds(st, shrinking, total, length).arr),
    decreases count_ok(st.arr),
{
    if st.re_calc {
        let w = round_weight(total, st.fix_weight, shrinking);
        let wb = length.sub_spec(st.fix_basis).sub_spec(st.re_basis);
        let st1 = RoundState { re_basis: zero(), re_calc: false, ..st };
        let st2 = later_pass(st1, st.arr.len() as int, shrinking, w, wb);
        lemma_later_pass_amount_px(st1, st.arr.len() as int, shrinking, w, wb);
        if count_ok(st2.arr) < count_ok(st.arr) {
            lemma_later_rounds_amount_px(st2, shrinking, total, length);
        }
    }
}

/// Bounded distribution of `Px` sizes from a zero amount, with every
/// operation defined, records as amount the sum of the sizes.
proof fn lemma_distribution_amount_px(c: GrowShrinkContext<Px>, arr: Seq<Data<Px>>, main: Px, shrinking: bool)
    requires
        c.amount.0 == 0,
        distribute_req(c, arr, main, shrinking),
    ensures
        distribute_spec(c, arr, main, shrinking).amount.0 == px_total(distribute_spec(c, arr, main, shrinking).arr),
{
    let total = if shrinking {
        c.shrink_weight
    } else {
        c.grow_weight
    };
    let fixed = if shrinking {
        c.no_shrink_basis
    } else {
        c.no_grow_basis
    };
    let flexible = if shrinking {
        c.shrink_basis
    } else {
        c.grow_basis
    };
    let first_weight = if shrinking {
        total
    } else {
        grow_divisor(total)
    };
    let st0 = RoundState { arr, amount: c.amount, fix_weight: zero(), fix_basis: fixed, re_basis: zero(), re_calc: false };
    let wb0 = main.sub_spec(fixed).sub_spec(flexible);
    let n = arr.len() as int;
    lemma_first_pass_amount_px(st0, n, shrinking, first_weight, wb0);
    assert(arr.take(n) =~= arr);
    lemma_later_rounds_amount_px(first_pass(st0, n, shrinking, first_weight, wb0), shrinking, total, main);
}

} // verus!
