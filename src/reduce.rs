//! Reductions over the elements of a tensor.
use vstd::prelude::*;

verus! {

/// `i` holds the largest element, and no earlier position holds one as
/// large.
pub open spec fn is_first_max(values: Seq<i64>, i: int) -> bool {
    &&& 0 <= i < values.len()
    &&& forall|k: int| 0 <= k < values.len() ==> values[k] <= values[i]
    &&& forall|k: int| 0 <= k < i ==> values[k] < values[i]
}

/// The position of the first largest element; none for no elements.
pub fn argmax_kernel_impl(values: &[i64]) -> (r: Option<usize>)
    ensures
        values@.len() == 0 <==> r is None,
        r is Some ==> is_first_max(values@, r->0 as int),
{
    if values.len() == 0 {
        return None;
    }
    let mut best: usize = 0;
    let mut i: usize = 1;
    while i < values.len()
        invariant
            1 <= i <= values@.len(),
            best < i,
            forall|k: int| 0 <= k < i ==> values@[k] <= values@[best as int],
            forall|k: int| 0 <= k < best ==> values@[k] < values@[best as int],
        decreases values@.len() - i,
    {
        if values[i] > values[best] {
            best = i;
        }
        i = i + 1;
    }
    Some(best)
}

} // verus!
