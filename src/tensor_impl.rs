//! Tensor metadata: shape, strides and offset over a shared storage, with
//! cached element count and contiguity.
use crate::autograd_meta::AutogradMeta;
use crate::device::{Device, Layout, MemoryFormat, TypeMeta, itemsize_of};
use crate::dims::{DimVec, dims_as_slice, dims_from_slice, dims_of};
use crate::error::AutogradError;
use crate::shape::{
    contiguous_strides, is_contiguous_layout, lemma_prod_pos, lemma_prod_suffix_le, lemma_prod_suffix_step,
    lemma_prod_zero, numel_of, prod, row_major_strides, strides_fit, extent,
};
use crate::storage::Storage;
use crate::version::TensorVersion;
use vstd::prelude::*;

verus! {

/// Maps a possibly negative dimension index onto `0..rank`. A rank-0
/// tensor counts as rank 1 when `wrap_scalar` is set.
pub open spec fn wrap_dim_spec(dim: i64, rank: i64, wrap_scalar: bool) -> Option<int> {
    let r = if rank <= 0 && wrap_scalar { 1 } else { rank as int };
    if r <= 0 || dim < -r || dim >= r {
        None
    } else if dim < 0 {
        Some(dim + r)
    } else {
        Some(dim as int)
    }
}

/// Wraps a dimension index; an index outside `-rank..rank` is an error that
/// names the index and the rank.
pub fn maybe_wrap_dim(dim: i64, rank: i64, wrap_scalar: bool) -> (r: Result<usize, AutogradError>)
    requires
        rank >= 0,
        rank as int <= usize::MAX,
    ensures
        r is Ok <==> wrap_dim_spec(dim, rank, wrap_scalar) is Some,
        r is Ok ==> r->Ok_0 as int == wrap_dim_spec(dim, rank, wrap_scalar)->0,
        r is Err ==> r->Err_0 == (AutogradError::DimensionOutOfRange { dim, rank }),
{
    let r: i64 = if rank <= 0 && wrap_scalar { 1 } else { rank };
    if r <= 0 || dim < -r || dim >= r {
        Err(AutogradError::DimensionOutOfRange { dim, rank })
    } else if dim < 0 {
        let w = dim + r;
        assert(0 <= w < r);
        assert(wrap_dim_spec(dim, rank, wrap_scalar) == Some(w as int));
        Ok(w as usize)
    } else {
        assert(wrap_dim_spec(dim, rank, wrap_scalar) == Some(dim as int));
        Ok(dim as usize)
    }
}

/// Shape, strides, offset, element type and device of a tensor, over a
/// storage named by its handle. The element count and the contiguity flags
/// are caches that every change of sizes or strides refreshes.
pub struct TensorImpl {
    storage: usize,
    autogradmeta: Option<AutogradMeta>,
    version_counter: TensorVersion,
    sizes: DimVec,
    strides: DimVec,
    storage_offset: usize,
    numel: usize,
    data_type: TypeMeta,
    device_opt: Option<Device>,
    is_contiguous: bool,
    is_wrapped_number: bool,
    is_defined: bool,
    is_non_overlapping_and_dense: bool,
}

impl TensorImpl {
    /// The autograd record, if any.
    pub closed spec fn meta_spec(&self) -> Option<AutogradMeta> {
        self.autogradmeta
    }

    pub closed spec fn version_spec(&self) -> TensorVersion {
        self.version_counter
    }

    pub closed spec fn sizes_spec(&self) -> Seq<usize> {
        dims_of(self.sizes)
    }

    pub closed spec fn strides_spec(&self) -> Seq<usize> {
        dims_of(self.strides)
    }

    pub closed spec fn storage_spec(&self) -> usize {
        self.storage
    }

    pub closed spec fn offset_spec(&self) -> usize {
        self.storage_offset
    }

    pub closed spec fn numel_spec(&self) -> usize {
        self.numel
    }

    pub closed spec fn dtype_spec(&self) -> TypeMeta {
        self.data_type
    }

    pub closed spec fn device_spec(&self) -> Option<Device> {
        self.device_opt
    }

    pub closed spec fn contiguous_flag(&self) -> bool {
        self.is_contiguous
    }

    pub closed spec fn dense_flag(&self) -> bool {
        self.is_non_overlapping_and_dense
    }

    pub closed spec fn wrapped_spec(&self) -> bool {
        self.is_wrapped_number
    }

    pub closed spec fn defined_spec(&self) -> bool {
        self.is_defined
    }

    /// The tensor is defined and its caches agree with the sizes and
    /// strides.
    pub open spec fn wf(&self) -> bool {
        &&& self.defined_spec()
        &&& self.sizes_spec().len() == self.strides_spec().len()
        &&& self.sizes_spec().len() <= i64::MAX
        &&& strides_fit(self.sizes_spec())
        &&& self.numel_spec() as int == prod(self.sizes_spec())
        &&& self.contiguous_flag() == is_contiguous_layout(self.sizes_spec(), self.strides_spec())
        &&& self.dense_flag() == self.contiguous_flag()
    }

    /// Everything but the autograd record and the version counter.
    pub open spec fn same_layout(&self, o: &TensorImpl) -> bool {
        &&& self.sizes_spec() == o.sizes_spec()
        &&& self.strides_spec() == o.strides_spec()
        &&& self.storage_spec() == o.storage_spec()
        &&& self.offset_spec() == o.offset_spec()
        &&& self.numel_spec() == o.numel_spec()
        &&& self.dtype_spec() == o.dtype_spec()
        &&& self.device_spec() == o.device_spec()
        &&& self.contiguous_flag() == o.contiguous_flag()
        &&& self.dense_flag() == o.dense_flag()
        &&& self.wrapped_spec() == o.wrapped_spec()
        &&& self.defined_spec() == o.defined_spec()
    }

    /// A one-dimensional tensor of size 0 over `storage`, with no autograd
    /// record.
    pub fn new(
        storage: usize,
        data_type: TypeMeta,
        device_opt: Option<Device>,
        version_counter: TensorVersion,
    ) -> (r: TensorImpl)
        ensures
            r.wf(),
            r.sizes_spec() == seq![0usize],
            r.strides_spec() == seq![1usize],
            r.numel_spec() == 0,
            r.offset_spec() == 0,
            r.storage_spec() == storage,
            r.dtype_spec() == data_type,
            r.device_spec() == device_opt,
            r.contiguous_flag(),
            !r.wrapped_spec(),
            r.defined_spec(),
            r.meta_spec() is None,
            r.version_spec() == version_counter,
    {
        let zero: [usize; 1] = [0];
        let one: [usize; 1] = [1];
        let sizes = dims_from_slice(zero.as_slice());
        let strides = dims_from_slice(one.as_slice());
        proof {
            assert(dims_of(sizes) =~= seq![0usize]);
            assert(dims_of(strides) =~= seq![1usize]);
            assert(prod(seq![0usize]) == 0) by {
                assert(seq![0usize].drop_first() =~= Seq::<usize>::empty());
            }
            assert(crate::shape::clamp1(seq![0usize]) =~= seq![1usize]);
            assert(prod(seq![1usize]) == 1) by {
                assert(seq![1usize].drop_first() =~= Seq::<usize>::empty());
                assert(prod(Seq::<usize>::empty()) == 1);
                assert(prod(seq![1usize]) == 1 * prod(seq![1usize].drop_first()));
            }
        }
        TensorImpl {
            storage,
            autogradmeta: None,
            version_counter,
            sizes,
            strides,
            storage_offset: 0,
            numel: 0,
            data_type,
            device_opt,
            is_contiguous: true,
            is_wrapped_number: false,
            is_defined: true,
            is_non_overlapping_and_dense: true,
        }
    }

    /// A tensor over `storage` (whose handle is `storage_id`) on the
    /// storage's device.
    pub fn with_storage_and_dtype(
        storage_id: usize,
        storage: &Storage,
        data_type: TypeMeta,
        version_counter: TensorVersion,
    ) -> (r: TensorImpl)
        ensures
            r.wf(),
            r.sizes_spec() == seq![0usize],
            r.storage_spec() == storage_id,
            r.dtype_spec() == data_type,
            r.device_spec() == Some(storage.device_spec()),
            r.meta_spec() is None,
            r.version_spec() == version_counter,
    {
        let device = Some(storage.device());
        Self::new(storage_id, data_type, device, version_counter)
    }

    pub fn defined(&self) -> (r: bool)
        ensures
            r == self.defined_spec(),
    {
        self.is_defined
    }

    /// The accumulated gradient, if there is an autograd record holding one.
    pub fn grad(&self) -> (r: Option<&Vec<i64>>)
        ensures
            r is Some <==> (self.meta_spec() is Some && self.meta_spec()->0.grad is Some),
            r is Some ==> r->0@ == self.meta_spec()->0.grad->0@,
    {
        match &self.autogradmeta {
            Some(m) => m.grad(),
            None => None,
        }
    }

    /// Creates the autograd record if there is none.
    fn materialize_meta(&mut self)
        ensures
            final(self).meta_spec() is Some,
            old(self).meta_spec() is Some ==> final(self).meta_spec() == old(self).meta_spec(),
            old(self).meta_spec() is None ==> final(self).meta_spec() == Some(
                AutogradMeta { requires_grad: false, grad: None, grad_fn: None, output_nr: 0, grad_accumulator: None },
            ),
            final(self).same_layout(old(self)),
            final(self).wf() == old(self).wf(),
            final(self).version_spec() == old(self).version_spec(),
    {
        if self.autogradmeta.is_none() {
            self.autogradmeta = Some(AutogradMeta::new());
        }
    }

    pub fn set_grad(&mut self, grad: Vec<i64>)
        ensures
            final(self).meta_spec() is Some,
            final(self).meta_spec()->0.grad == Some(grad),
            final(self).meta_spec()->0.requires_grad == (old(self).meta_spec() is Some && old(self).meta_spec()->0.requires_grad),
            old(self).meta_spec() is Some ==> final(self).meta_spec()->0.grad_fn == old(self).meta_spec()->0.grad_fn
                && final(self).meta_spec()->0.output_nr == old(self).meta_spec()->0.output_nr
                && final(self).meta_spec()->0.grad_accumulator == old(self).meta_spec()->0.grad_accumulator,
            old(self).meta_spec() is None ==> final(self).meta_spec()->0.grad_fn is None
                && final(self).meta_spec()->0.grad_accumulator is None,
            final(self).same_layout(old(self)),
            final(self).wf() == old(self).wf(),
            final(self).version_spec() == old(self).version_spec(),
    {
        self.materialize_meta();
        let mut m = self.autogradmeta.take().unwrap();
        m.set_grad(grad);
        self.autogradmeta = Some(m);
    }

    /// False when there is no autograd record.
    pub fn requires_grad(&self) -> (r: bool)
        ensures
            r == (self.meta_spec() is Some && self.meta_spec()->0.requires_grad),
    {
        match &self.autogradmeta {
            Some(m) => m.requires_grad(),
            None => false,
        }
    }

    pub fn set_requires_grad(&mut self, requires_grad: bool)
        ensures
            final(self).meta_spec() is Some,
            final(self).meta_spec()->0.requires_grad == requires_grad,
            old(self).meta_spec() is Some ==> final(self).meta_spec()->0 == (AutogradMeta { requires_grad, ..old(self).meta_spec()->0 }),
            old(self).meta_spec() is None ==> final(self).meta_spec()->0.grad_fn is None
                && final(self).meta_spec()->0.grad is None
                && final(self).meta_spec()->0.grad_accumulator is None,
            final(self).same_layout(old(self)),
            final(self).wf() == old(self).wf(),
            final(self).version_spec() == old(self).version_spec(),
    {
        self.materialize_meta();
        let mut m = self.autogradmeta.take().unwrap();
        m.set_requires_grad(requires_grad);
        self.autogradmeta = Some(m);
    }

    pub fn get_autogradmeta(&self) -> (r: Option<&AutogradMeta>)
        ensures
            r is Some <==> self.meta_spec() is Some,
            r is Some ==> *r->0 == self.meta_spec()->0,
    {
        self.autogradmeta.as_ref()
    }

    pub fn set_autograd_meta(&mut self, t: Option<AutogradMeta>)
        ensures
            final(self).meta_spec() == t,
            final(self).same_layout(old(self)),
            final(self).wf() == old(self).wf(),
            final(self).version_spec() == old(self).version_spec(),
    {
        self.autogradmeta = t;
    }

    pub fn set_grad_fn(&mut self, t: Option<usize>)
        ensures
            final(self).meta_spec() is Some,
            final(self).meta_spec()->0.grad_fn == t,
            old(self).meta_spec() is Some ==> final(self).meta_spec()->0 == (AutogradMeta { grad_fn: t, ..old(self).meta_spec()->0 }),
            old(self).meta_spec() is None ==> final(self).meta_spec()->0 == (AutogradMeta {
                requires_grad: false, grad: None, grad_fn: t, output_nr: 0, grad_accumulator: None }),
            final(self).same_layout(old(self)),
            final(self).wf() == old(self).wf(),
            final(self).version_spec() == old(self).version_spec(),
    {
        self.materialize_meta();
        let mut m = self.autogradmeta.take().unwrap();
        m.set_grad_fn(t);
        self.autogradmeta = Some(m);
    }

    pub fn set_grad_accumulator(&mut self, grad_accumulator: Option<usize>)
        ensures
            final(self).meta_spec() is Some,
            old(self).meta_spec() is Some ==> final(self).meta_spec()->0 == (AutogradMeta { grad_accumulator, ..old(self).meta_spec()->0 }),
            old(self).meta_spec() is None ==> final(self).meta_spec()->0 == (AutogradMeta {
                requires_grad: false, grad: None, grad_fn: None, output_nr: 0, grad_accumulator }),
            final(self).same_layout(old(self)),
            final(self).wf() == old(self).wf(),
            final(self).version_spec() == old(self).version_spec(),
    {
        self.materialize_meta();
        let mut m = self.autogradmeta.take().unwrap();
        m.grad_accumulator = grad_accumulator;
        self.autogradmeta = Some(m);
    }

    pub fn set_output_nr(&mut self, output_nr: usize)
        ensures
            final(self).meta_spec() is Some,
            old(self).meta_spec() is Some ==> final(self).meta_spec()->0 == (AutogradMeta { output_nr, ..old(self).meta_spec()->0 }),
            old(self).meta_spec() is None ==> final(self).meta_spec()->0 == (AutogradMeta {
                requires_grad: false, grad: None, grad_fn: None, output_nr, grad_accumulator: None }),
            final(self).same_layout(old(self)),
            final(self).wf() == old(self).wf(),
            final(self).version_spec() == old(self).version_spec(),
    {
        self.materialize_meta();
        let mut m = self.autogradmeta.take().unwrap();
        m.set_output_nr(output_nr);
        self.autogradmeta = Some(m);
    }

    pub fn version_counter(&self) -> (r: TensorVersion)
        ensures
            r == self.version_spec(),
    {
        self.version_counter
    }

    pub fn set_version_counter(&mut self, version_counter: TensorVersion)
        ensures
            final(self).version_spec() == version_counter,
            final(self).meta_spec() == old(self).meta_spec(),
            final(self).same_layout(old(self)),
            final(self).wf() == old(self).wf(),
    {
        self.version_counter = version_counter;
    }

    /// The number of dimensions.
    pub fn dim(&self) -> (r: i64)
        requires
            self.wf(),
        ensures
            r as int == self.sizes_spec().len(),
    {
        dims_as_slice(&self.sizes).len() as i64
    }

    pub fn sizes(&self) -> (r: &[usize])
        ensures
            r@ == self.sizes_spec(),
    {
        dims_as_slice(&self.sizes)
    }

    pub fn strides(&self) -> (r: &[usize])
        ensures
            r@ == self.strides_spec(),
    {
        dims_as_slice(&self.strides)
    }

    pub fn storage_offset(&self) -> (r: usize)
        ensures
            r == self.offset_spec(),
    {
        self.storage_offset
    }

    pub fn set_storage_offset(&mut self, storage_offset: usize)
        ensures
            final(self).offset_spec() == storage_offset,
            final(self).sizes_spec() == old(self).sizes_spec(),
            final(self).strides_spec() == old(self).strides_spec(),
            final(self).storage_spec() == old(self).storage_spec(),
            final(self).numel_spec() == old(self).numel_spec(),
            final(self).dtype_spec() == old(self).dtype_spec(),
            final(self).device_spec() == old(self).device_spec(),
            final(self).contiguous_flag() == old(self).contiguous_flag(),
            final(self).wf() == old(self).wf(),
            final(self).meta_spec() == old(self).meta_spec(),
            final(self).version_spec() == old(self).version_spec(),
    {
        self.storage_offset = storage_offset;
    }

    /// Replaces sizes and strides together. The two lists must have the same
    /// length and the shape's strides must fit in `usize`; otherwise nothing
    /// changes and the call fails.
    pub fn set_sizes_and_strides(&mut self, new_size: &[usize], new_stride: &[usize]) -> (r: Result<(), AutogradError>)
        requires
            old(self).wf(),
        ensures
            r is Ok <==> (new_size@.len() == new_stride@.len() && new_size@.len() <= i64::MAX && strides_fit(new_size@)),
            r is Err ==> r == Err::<(), AutogradError>(AutogradError::ShapeMismatch) && final(self).sizes_spec() == old(self).sizes_spec()
                && final(self).strides_spec() == old(self).strides_spec(),
            r is Ok ==> final(self).sizes_spec() == new_size@ && final(self).strides_spec() == new_stride@,
            final(self).wf(),
            final(self).storage_spec() == old(self).storage_spec(),
            final(self).offset_spec() == old(self).offset_spec(),
            final(self).dtype_spec() == old(self).dtype_spec(),
            final(self).device_spec() == old(self).device_spec(),
            final(self).meta_spec() == old(self).meta_spec(),
            final(self).version_spec() == old(self).version_spec(),
    {
        if new_size.len() != new_stride.len() || new_size.len() as u128 > i64::MAX as u128 {
            return Err(AutogradError::ShapeMismatch);
        }
        if extent(new_size).is_none() {
            return Err(AutogradError::ShapeMismatch);
        }
        self.sizes = dims_from_slice(new_size);
        self.strides = dims_from_slice(new_stride);
        self.refresh_numel();
        self.refresh_contiguous();
        Ok(())
    }

    fn refresh_contiguous(&mut self)
        requires
            old(self).is_defined,
            dims_of(old(self).sizes).len() == dims_of(old(self).strides).len(),
            strides_fit(dims_of(old(self).sizes)),
            old(self).numel as int == prod(dims_of(old(self).sizes)),
        ensures
            final(self).wf() || dims_of(old(self).sizes).len() > i64::MAX,
            final(self).is_contiguous == is_contiguous_layout(dims_of(old(self).sizes), dims_of(old(self).strides)),
            final(self).sizes == old(self).sizes,
            final(self).strides == old(self).strides,
            final(self).numel == old(self).numel,
            final(self).storage == old(self).storage,
            final(self).storage_offset == old(self).storage_offset,
            final(self).data_type == old(self).data_type,
            final(self).device_opt == old(self).device_opt,
            final(self).is_wrapped_number == old(self).is_wrapped_number,
            final(self).is_defined == old(self).is_defined,
            final(self).meta_spec() == old(self).meta_spec(),
            final(self).version_spec() == old(self).version_spec(),
    {
        self.is_contiguous = self.compute_contiguous();
        self.is_non_overlapping_and_dense = self.is_contiguous;
    }

    /// A new tensor over the same storage with the same metadata, no
    /// autograd record and the given version counter.
    pub fn shallow_copy_and_detach(&self, version_counter: TensorVersion) -> (r: TensorImpl)
        requires
            self.wf(),
        ensures
            r.wf(),
            r.same_layout(self),
            r.meta_spec() is None,
            r.version_spec() == version_counter,
    {
        let mut impl_ = Self::new(self.storage, self.data_type, None, version_counter);
        Self::copy_tensor_metadata(self, &mut impl_, version_counter);
        impl_
    }

    /// Copies shape, strides, offset, storage, type, device and flags from
    /// `src_impl` to `dest_impl`, and gives it the version counter.
    pub fn copy_tensor_metadata(src_impl: &TensorImpl, dest_impl: &mut TensorImpl, version_counter: TensorVersion)
        requires
            src_impl.wf(),
        ensures
            final(dest_impl).wf(),
            final(dest_impl).same_layout(src_impl),
            final(dest_impl).meta_spec() == old(dest_impl).meta_spec(),
            final(dest_impl).version_spec() == version_counter,
    {
        dest_impl.storage = src_impl.storage;
        dest_impl.sizes = dims_from_slice(dims_as_slice(&src_impl.sizes));
        dest_impl.strides = dims_from_slice(dims_as_slice(&src_impl.strides));
        dest_impl.storage_offset = src_impl.storage_offset;
        dest_impl.numel = src_impl.numel;
        dest_impl.data_type = src_impl.data_type;
        dest_impl.device_opt = src_impl.device_opt;
        dest_impl.is_contiguous = src_impl.is_contiguous;
        dest_impl.is_non_overlapping_and_dense = src_impl.is_non_overlapping_and_dense;
        dest_impl.is_wrapped_number = src_impl.is_wrapped_number;
        dest_impl.is_defined = src_impl.is_defined;
        dest_impl.set_version_counter(version_counter);
    }

    /// Walks the dimensions from last to first, skipping size-1 ones, and
    /// checks each stride against the product of the sizes after it. An
    /// empty tensor is contiguous.
    fn compute_contiguous(&self) -> (r: bool)
        requires
            dims_of(self.sizes).len() == dims_of(self.strides).len(),
            self.numel as int == prod(dims_of(self.sizes)),
        ensures
            r == is_contiguous_layout(dims_of(self.sizes), dims_of(self.strides)),
    {
        let sizes = dims_as_slice(&self.sizes);
        let strides = dims_as_slice(&self.strides);
        let ghost s = sizes@;
        let ghost st = strides@;
        let n = sizes.len();
        if self.numel == 0 {
            return true;
        }
        proof {
            lemma_prod_zero(s);
            assert forall|k: int| 0 <= k < n implies s[k] >= 1 by {
                if s[k] == 0 {
                    assert(exists|i: int| 0 <= i < s.len() && s[i] == 0);
                }
            }
            assert(s.subrange(n as int, n as int) =~= Seq::<usize>::empty());
        }
        let mut z: usize = 1;
        let mut d: usize = n;
        while d > 0
            invariant
                d <= n,
                n == s.len(),
                st.len() == n,
                sizes@ == s,
                strides@ == st,
                s == dims_of(self.sizes),
                st == dims_of(self.strides),
                prod(s) == self.numel,
                self.numel <= usize::MAX,
                forall|k: int| 0 <= k < n ==> s[k] >= 1,
                z as int == prod(s.subrange(d as int, n as int)),
                forall|k: int| d <= k < n && s[k] != 1 ==> #[trigger] st[k] == prod(s.subrange(k + 1, n as int)),
            decreases d,
        {
            let i = d - 1;
            proof {
                lemma_prod_suffix_step(s, i as int);
                lemma_prod_suffix_le(s, i as int);
            }
            if sizes[i] != 1 {
                if strides[i] == z {
                    assert(z * sizes[i as int] == sizes[i as int] * z) by (nonlinear_arith);
                    z = z * sizes[i];
                } else {
                    proof {
                        assert(s[i as int] != 1 && st[i as int] != prod(s.subrange(i + 1, n as int)));
                        lemma_prod_pos(s);
                        assert(prod(s) != 0);
                        let ii = i as int;
                        assert(0 <= ii < s.len() && s[ii] != 1 && st[ii] != prod(s.subrange(ii + 1, s.len() as int)));
                        assert(!is_contiguous_layout(s, st));
                    }
                    return false;
                }
            } else {
                assert(sizes[i as int] * z == z) by (nonlinear_arith)
                    requires
                        sizes[i as int] == 1,
                ;
            }
            d = i;
        }
        true
    }

    /// The size of dimension `d`, where a negative `d` counts from the end.
    pub fn size(&self, d: i64) -> (r: Result<usize, AutogradError>)
        requires
            self.wf(),
        ensures
            r is Ok <==> wrap_dim_spec(d, self.sizes_spec().len() as i64, false) is Some,
            r is Ok ==> r->Ok_0 == self.sizes_spec()[wrap_dim_spec(d, self.sizes_spec().len() as i64, false)->0],
            r is Err ==> r->Err_0 == (AutogradError::DimensionOutOfRange { dim: d, rank: self.sizes_spec().len() as i64 }),
    {
        let sizes = dims_as_slice(&self.sizes);
        let rank = sizes.len() as i64;
        let i = maybe_wrap_dim(d, rank, false)?;
        Ok(sizes[i])
    }

    /// The stride of dimension `d`.
    pub fn stride(&self, d: usize) -> (r: Result<usize, AutogradError>)
        requires
            self.wf(),
        ensures
            r is Ok <==> d < self.strides_spec().len(),
            r is Ok ==> r->Ok_0 == self.strides_spec()[d as int],
    {
        let strides = dims_as_slice(&self.strides);
        if d < strides.len() {
            Ok(strides[d])
        } else {
            Err(AutogradError::DimensionOutOfRange { dim: if d as u128 > i64::MAX as u128 { i64::MAX } else { d as i64 }, rank: if strides.len() as u128 > i64::MAX as u128 { i64::MAX } else { strides.len() as i64 } })
        }
    }

    /// Sets the sizes and gives the tensor row-major strides.
    pub fn set_sizes_contiguous(&mut self, new_size: &[usize])
        requires
            old(self).wf(),
            strides_fit(new_size@),
            new_size@.len() <= i64::MAX,
        ensures
            final(self).wf(),
            final(self).sizes_spec() == new_size@,
            final(self).strides_spec() == contiguous_strides(new_size@),
            final(self).numel_spec() == prod(new_size@),
            final(self).storage_spec() == old(self).storage_spec(),
            final(self).offset_spec() == old(self).offset_spec(),
            final(self).dtype_spec() == old(self).dtype_spec(),
            final(self).device_spec() == old(self).device_spec(),
            final(self).meta_spec() == old(self).meta_spec(),
            final(self).version_spec() == old(self).version_spec(),
    {
        self.sizes = dims_from_slice(new_size);
        let st = row_major_strides(new_size);
        self.strides = dims_from_slice(st.as_slice());
        self.refresh_numel();
        self.refresh_contiguous();
    }

    /// Recomputes strides for the memory format; only the row-major layout
    /// changes them. The contiguity flags are refreshed in every case.
    pub fn empty_tensor_restride(&mut self, memory_format: MemoryFormat)
        requires
            old(self).wf(),
            strides_fit(old(self).sizes_spec()),
        ensures
            final(self).wf(),
            final(self).sizes_spec() == old(self).sizes_spec(),
            memory_format == MemoryFormat::Contiguous ==> final(self).strides_spec() == contiguous_strides(old(self).sizes_spec()),
            memory_format != MemoryFormat::Contiguous ==> final(self).strides_spec() == old(self).strides_spec(),
            final(self).numel_spec() == old(self).numel_spec(),
            final(self).storage_spec() == old(self).storage_spec(),
            final(self).offset_spec() == old(self).offset_spec(),
            final(self).dtype_spec() == old(self).dtype_spec(),
            final(self).device_spec() == old(self).device_spec(),
            final(self).meta_spec() == old(self).meta_spec(),
            final(self).version_spec() == old(self).version_spec(),
    {
        match memory_format {
            MemoryFormat::Contiguous => {
                let st = row_major_strides(dims_as_slice(&self.sizes));
                self.strides = dims_from_slice(st.as_slice());
            },
            MemoryFormat::Preserve => {},
            MemoryFormat::ChannelsLast => {},
            MemoryFormat::ChannelsLast3d => {},
        }
        self.refresh_contiguous();
    }

    fn refresh_numel(&mut self)
        requires
            strides_fit(dims_of(old(self).sizes)),
        ensures
            final(self).numel as int == prod(dims_of(old(self).sizes)),
            final(self).sizes == old(self).sizes,
            final(self).strides == old(self).strides,
            final(self).storage == old(self).storage,
            final(self).storage_offset == old(self).storage_offset,
            final(self).data_type == old(self).data_type,
            final(self).device_opt == old(self).device_opt,
            final(self).is_wrapped_number == old(self).is_wrapped_number,
            final(self).is_defined == old(self).is_defined,
            final(self).meta_spec() == old(self).meta_spec(),
            final(self).version_spec() == old(self).version_spec(),
    {
        self.numel = self.compute_numel();
    }

    fn compute_numel(&self) -> (r: usize)
        requires
            strides_fit(dims_of(self.sizes)),
        ensures
            r as int == prod(dims_of(self.sizes)),
    {
        numel_of(dims_as_slice(&self.sizes))
    }

    pub fn numel(&self) -> (r: usize)
        requires
            self.wf(),
        ensures
            r as int == prod(self.sizes_spec()),
            r == self.numel_spec(),
    {
        self.numel
    }

    /// The cached element count.
    pub fn numel_of_impl(&self) -> (r: usize)
        ensures
            r == self.numel_spec(),
    {
        self.numel
    }

    pub fn is_empty(&self) -> (r: bool)
        requires
            self.wf(),
        ensures
            r == (prod(self.sizes_spec()) == 0),
    {
        self.numel == 0
    }

    pub fn dtype(&self) -> (r: TypeMeta)
        ensures
            r == self.dtype_spec(),
    {
        self.data_type
    }

    /// The handle of the storage this tensor views.
    pub fn storage(&self) -> (r: usize)
        ensures
            r == self.storage_spec(),
    {
        self.storage
    }

    pub fn is_contiguous(&self) -> (r: bool)
        requires
            self.wf(),
        ensures
            r == is_contiguous_layout(self.sizes_spec(), self.strides_spec()),
    {
        self.is_contiguous_(MemoryFormat::Contiguous)
    }

    pub fn set_wrapped_number(&mut self, value: bool)
        ensures
            final(self).wrapped_spec() == value,
            final(self).sizes_spec() == old(self).sizes_spec(),
            final(self).strides_spec() == old(self).strides_spec(),
            final(self).storage_spec() == old(self).storage_spec(),
            final(self).numel_spec() == old(self).numel_spec(),
            final(self).wf() == old(self).wf(),
            final(self).meta_spec() == old(self).meta_spec(),
            final(self).version_spec() == old(self).version_spec(),
    {
        self.is_wrapped_number = value;
    }

    pub fn is_wrapped_number(&self) -> (r: bool)
        ensures
            r == self.wrapped_spec(),
    {
        self.is_wrapped_number
    }

    /// Contiguity in the given memory format; only the row-major test is
    /// kept, so every format answers with it.
    pub fn is_contiguous_(&self, memory_format: MemoryFormat) -> (r: bool)
        requires
            self.wf(),
        ensures
            r == is_contiguous_layout(self.sizes_spec(), self.strides_spec()),
    {
        self.is_contiguous
    }

    pub fn is_non_overlapping_and_dense(&self) -> (r: bool)
        requires
            self.wf(),
        ensures
            r == is_contiguous_layout(self.sizes_spec(), self.strides_spec()),
    {
        self.is_non_overlapping_and_dense
    }

    pub fn layout(&self) -> (r: Layout)
        ensures
            r == Layout::Strided,
    {
        Layout::Strided
    }

    /// The device; a tensor made without one has none.
    pub fn device(&self) -> (r: Option<Device>)
        ensures
            r == self.device_spec(),
    {
        self.device_opt
    }

    /// Size in bytes of one element.
    pub fn itemsize(&self) -> (r: usize)
        ensures
            r == itemsize_of(self.dtype_spec().scalar_type),
    {
        self.data_type.itemsize()
    }
}

} // verus!
