//! Resizing a tensor: new sizes in row-major layout, and a storage grown to
//! hold them.
use crate::device::{MemoryFormat, itemsize_of};
use crate::error::AutogradError;
use crate::graph::Graph;
use crate::node::Tensor;
use crate::shape::{contiguous_strides, extent, prod, strides_fit};
use vstd::prelude::*;

verus! {

/// The bytes a tensor of `numel` elements at element offset `offset` needs:
/// none when it is empty.
pub open spec fn needed_bytes(numel: int, offset: int, itemsize: int) -> int {
    if numel == 0 {
        0
    } else {
        (numel + offset) * itemsize
    }
}

/// The storage of `t` as a handle.
pub fn get_storage_ptr(g: &Graph, t: Tensor) -> (r: usize)
    requires
        g.wf(),
        g.valid_tensor(t),
    ensures
        r == g.tensors_spec()[t.id as int].storage_spec(),
        r < g.storages_spec().len(),
{
    g.tensor_impl(t).storage()
}

/// Resizes storage `storage` to `size_bytes`; see `Storage::resize_bytes`.
pub fn resize_bytes(g: &mut Graph, storage: usize, size_bytes: usize) -> (r: Result<(), AutogradError>)
    requires
        old(g).wf(),
        storage < old(g).storages_spec().len(),
    ensures
        final(g).wf(),
        r is Ok <==> old(g).storages_spec()[storage as int].is_resizable(),
        r is Err ==> r == Err::<(), AutogradError>(AutogradError::NonResizableStorage) && *final(g) == *old(g),
        r is Ok ==> final(g).storages_spec()[storage as int].bytes().len() == size_bytes
            && (forall|i: int| 0 <= i < old(g).storages_spec()[storage as int].bytes().len() && i < size_bytes
                ==> final(g).storages_spec()[storage as int].bytes()[i] == old(g).storages_spec()[storage as int].bytes()[i]),
        r is Ok ==> final(g).storages_spec()[storage as int].is_resizable()
            && final(g).storages_spec()[storage as int].device_spec() == old(g).storages_spec()[storage as int].device_spec()
            && (forall|i: int| old(g).storages_spec()[storage as int].bytes().len() <= i < size_bytes
                ==> final(g).storages_spec()[storage as int].bytes()[i] == 0u8),
        final(g).storages_spec().len() == old(g).storages_spec().len(),
        forall|k: int| 0 <= k < old(g).storages_spec().len() && k != storage ==> final(g).storages_spec()[k] == old(g).storages_spec()[k],
        final(g).tensors_spec() == old(g).tensors_spec(),
        final(g).values_spec() == old(g).values_spec(),
        final(g).nodes_spec() == old(g).nodes_spec(),
        final(g).versions_spec() == old(g).versions_spec(),
        final(g).grad_mode_spec() == old(g).grad_mode_spec(),
{
    g.resize_storage(storage, size_bytes)
}

/// Grows the storage of `t` so that `new_size` elements from its offset
/// fit; a storage that is large enough is left alone. Fails when the byte
/// count does not fit in `usize` or the storage must grow but cannot.
pub fn may_be_resize_storage_cpu(g: &mut Graph, t: Tensor, new_size: usize) -> (r: Result<(), AutogradError>)
    requires
        old(g).wf(),
        old(g).valid_tensor(t),
    ensures
        final(g).wf(),
        ({
            let ti = old(g).tensors_spec()[t.id as int];
            let need = needed_bytes(new_size as int, ti.offset_spec() as int, itemsize_of(ti.dtype_spec().scalar_type) as int);
            let s = old(g).storages_spec()[ti.storage_spec() as int];
            &&& (r is Ok <==> (need <= usize::MAX && (need <= s.bytes().len() || s.is_resizable())))
            &&& need > usize::MAX ==> r == Err::<(), AutogradError>(AutogradError::ShapeMismatch)
            &&& r is Ok ==> final(g).storages_spec()[ti.storage_spec() as int].bytes().len() >= need
            &&& r is Ok && need <= s.bytes().len() ==> *final(g) == *old(g)
            &&& r is Ok && need > s.bytes().len() ==> final(g).storages_spec()[ti.storage_spec() as int].bytes().len() == need
                && forall|i: int| 0 <= i < s.bytes().len() ==> #[trigger] final(g).storages_spec()[ti.storage_spec() as int].bytes()[i] == s.bytes()[i]
            &&& r is Err ==> *final(g) == *old(g)
        }),
        final(g).tensors_spec() == old(g).tensors_spec(),
        final(g).values_spec() == old(g).values_spec(),
        final(g).nodes_spec() == old(g).nodes_spec(),
        final(g).storages_spec().len() == old(g).storages_spec().len(),
        final(g).grad_mode_spec() == old(g).grad_mode_spec(),
{
    if new_size > 0 {
        let ti = g.tensor_impl(t);
        let itemsize = ti.itemsize();
        let offset = ti.storage_offset();
        let new_size_bytes = match new_size.checked_add(offset) {
            Some(n) => match n.checked_mul(itemsize) {
                Some(b) => b,
                None => {
                    return Err(AutogradError::ShapeMismatch);
                },
            },
            None => {
                proof {
                    assert((new_size + offset) * itemsize >= new_size + offset) by (nonlinear_arith)
                        requires
                            itemsize >= 1,
                            new_size + offset >= 0,
                    ;
                }
                return Err(AutogradError::ShapeMismatch);
            },
        };
        let sid = get_storage_ptr(g, t);
        if new_size_bytes > g.storage(sid).nbytes() {
            resize_bytes(g, sid, new_size_bytes)?;
        }
    }
    Ok(())
}

/// When resizing `t` to `size` succeeds: the shape fits the machine, the
/// bytes it needs from the tensor's offset fit in `usize`, and the storage
/// already holds them or can grow.
pub open spec fn resize_ok(g: Graph, t: Tensor, size: Seq<usize>) -> bool {
    let ti = g.tensors_spec()[t.id as int];
    let need = needed_bytes(prod(size), ti.offset_spec() as int, itemsize_of(ti.dtype_spec().scalar_type) as int);
    let s = g.storages_spec()[ti.storage_spec() as int];
    &&& size.len() <= i64::MAX
    &&& strides_fit(size)
    &&& need <= usize::MAX
    &&& (need <= s.bytes().len() || s.is_resizable())
}

/// What a successful resize of `t` to `size` leaves: the sizes with
/// row-major strides, a storage that holds the bytes needed and keeps its
/// old bytes, and every other tensor as it was.
pub open spec fn resize_done(g0: Graph, g1: Graph, t: Tensor, size: Seq<usize>) -> bool {
    let ti = g1.tensors_spec()[t.id as int];
    let s0 = g0.storages_spec()[ti.storage_spec() as int];
    let s1 = g1.storages_spec()[ti.storage_spec() as int];
    &&& ti.sizes_spec() == size
    &&& ti.strides_spec() == contiguous_strides(size)
    &&& ti.numel_spec() == prod(size)
    &&& ti.storage_spec() == g0.tensors_spec()[t.id as int].storage_spec()
    &&& ti.offset_spec() == g0.tensors_spec()[t.id as int].offset_spec()
    &&& g1.meta_of(t) == g0.meta_of(t)
    &&& s1.bytes().len() >= needed_bytes(prod(size), ti.offset_spec() as int, itemsize_of(ti.dtype_spec().scalar_type) as int)
    &&& s1.bytes().len() >= s0.bytes().len()
    &&& forall|i: int| 0 <= i < s0.bytes().len() ==> #[trigger] s1.bytes()[i] == s0.bytes()[i]
    &&& forall|k: int| 0 <= k < g0.tensors_spec().len() && k != t.id ==> g1.tensors_spec()[k] == g0.tensors_spec()[k]
}

/// Sets the sizes of `t` in row-major layout and grows its storage to
/// hold them; on failure nothing changes. Only row-major layouts are
/// computed: no strides may be given.
pub fn resize_impl_cpu(g: &mut Graph, t: Tensor, size: &[usize], stride: Option<&[usize]>) -> (r: Result<(), AutogradError>)
    requires
        old(g).wf(),
        old(g).valid_tensor(t),
        stride is None,
    ensures
        final(g).wf(),
        final(g).tensors_spec().len() == old(g).tensors_spec().len(),
        final(g).nodes_spec() == old(g).nodes_spec(),
        r is Ok <==> resize_ok(*old(g), t, size@),
        r is Ok ==> resize_done(*old(g), *final(g), t, size@),
        r is Err ==> *final(g) == *old(g),
        !(size@.len() <= i64::MAX && strides_fit(size@)) ==> r == Err::<(), AutogradError>(AutogradError::ShapeMismatch),
{
    if size.len() as u128 > i64::MAX as u128 || extent(size).is_none() {
        return Err(AutogradError::ShapeMismatch);
    }
    let storage_size = crate::shape::numel_of(size);
    let ghost g0 = *g;
    may_be_resize_storage_cpu(g, t, storage_size)?;
    let ghost g1 = *g;
    g.set_sizes_contiguous_of(t, size);
    proof {
        let sid = g0.tensors_spec()[t.id as int].storage_spec() as int;
        assert(g.storages_spec() == g1.storages_spec());
        if needed_bytes(storage_size as int, g0.tensors_spec()[t.id as int].offset_spec() as int,
            itemsize_of(g0.tensors_spec()[t.id as int].dtype_spec().scalar_type) as int) <= g0.storages_spec()[sid].bytes().len() {
            assert(g1 == g0);
        }
    }
    Ok(())
}

/// Resizes `t` to `size` in row-major layout; on failure nothing changes.
/// The memory format is kept only as a request, as the row-major layout
/// is the one computed.
pub fn resize(g: &mut Graph, t: Tensor, size: &[usize], optional_memory_format: Option<MemoryFormat>) -> (r: Result<Tensor, AutogradError>)
    requires
        old(g).wf(),
        old(g).valid_tensor(t),
    ensures
        final(g).wf(),
        final(g).tensors_spec().len() == old(g).tensors_spec().len(),
        final(g).nodes_spec() == old(g).nodes_spec(),
        r is Ok <==> resize_ok(*old(g), t, size@),
        r is Ok ==> r->Ok_0 == t && resize_done(*old(g), *final(g), t, size@),
        r is Err ==> *final(g) == *old(g),
        !(size@.len() <= i64::MAX && strides_fit(size@)) ==> r == Err::<Tensor, AutogradError>(AutogradError::ShapeMismatch),
{
    resize_impl_cpu(g, t, size, None)?;
    Ok(t)
}

} // verus!
