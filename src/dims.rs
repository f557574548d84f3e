//! Small inline vectors of dimension extents (sizes and strides).
use smallvec::SmallVec;
use vstd::prelude::*;

verus! {

/// A dimension list: an inline vector that holds up to five entries
/// without a heap allocation. Its contents are `dims_of(v)`.
#[verifier::external_body]
pub struct DimVec {
    inner: SmallVec<[usize; 5]>,
}

/// The entries that a dimension list holds, in order.
pub uninterp spec fn dims_of(v: DimVec) -> Seq<usize>;

/// Relies on `SmallVec::from_slice`: the new vector holds a copy of the
/// slice's elements, in order.
#[verifier::external_body]
pub(crate) fn dims_from_slice(s: &[usize]) -> (r: DimVec)
    ensures
        dims_of(r) == s@,
{
    DimVec { inner: SmallVec::from_slice(s) }
}

/// Relies on `SmallVec::as_slice`: the slice covers the whole vector.
#[verifier::external_body]
pub(crate) fn dims_as_slice(v: &DimVec) -> (r: &[usize])
    ensures
        r@ == dims_of(*v),
{
    v.inner.as_slice()
}

} // verus!
