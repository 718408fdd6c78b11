use pi_null::Null;
use vstd::prelude::*;

verus! {

/// The index that stands for "no node" (`pi_null`'s null for `usize`).
pub open spec fn null_index() -> usize {
    usize::MAX
}

/// `<usize as pi_null::Null>::null()`: pi_null returns `usize::max_value()`.
#[verifier::external_body]
pub(crate) fn null_id() -> (r: usize)
    ensures
        r == null_index(),
{
    <usize as Null>::null()
}

/// `<usize as pi_null::Null>::is_null`: pi_null compares the value with `usize::max_value()`.
#[verifier::external_body]
pub(crate) fn is_null_id(id: usize) -> (r: bool)
    ensures
        r == (id == null_index()),
{
    id.is_null()
}

} // verus!
