use rovo::autograd::TensorHook;
use rovo::device::{Device, MemoryFormat, ScalarType, TypeMeta};
use rovo::error::AutogradError;
use rovo::graph::Graph;
use rovo::resize::resize;
use rovo::shape::{extent, numel_of, row_major_strides};
use rovo::storage::Storage;
use rovo::tensor_impl::{maybe_wrap_dim, TensorImpl};
use rovo::version::TensorVersion;

fn fresh() -> TensorImpl {
    TensorImpl::new(0, TypeMeta::new(ScalarType::Float), Some(Device::cpu()), TensorVersion { id: 0 })
}

#[test]
fn new_tensor_impl_is_empty_and_contiguous() {
    let t = fresh();
    assert_eq!(t.sizes(), &[0]);
    assert_eq!(t.strides(), &[1]);
    assert_eq!(t.numel(), 0);
    assert!(t.is_empty());
    assert!(t.is_contiguous());
    assert_eq!(t.itemsize(), 4);
}

#[test]
fn contiguous_strides_are_suffix_products() {
    let mut t = fresh();
    t.set_sizes_contiguous(&[2, 3, 4]);
    assert_eq!(t.strides(), &[12, 4, 1]);
    assert_eq!(t.numel(), 24);
    assert!(t.is_contiguous());
    assert!(t.is_non_overlapping_and_dense());
    assert_eq!(t.dim(), 3);
}

#[test]
fn zero_sized_dimension_counts_as_one_in_strides() {
    let mut t = fresh();
    t.set_sizes_contiguous(&[3, 0, 2]);
    assert_eq!(t.strides(), &[2, 2, 1]);
    assert_eq!(t.numel(), 0);
    assert!(t.is_contiguous());
}

#[test]
fn transposed_strides_are_not_contiguous() {
    let mut t = fresh();
    assert!(t.set_sizes_and_strides(&[3, 2], &[1, 3]).is_ok());
    assert!(!t.is_contiguous());
    assert!(t.set_sizes_and_strides(&[3, 1], &[1, 99]).is_ok());
    assert!(t.is_contiguous());
    assert_eq!(t.set_sizes_and_strides(&[3, 2], &[1]), Err(AutogradError::ShapeMismatch));
    assert_eq!(t.sizes(), &[3, 1]);
}

#[test]
fn restride_to_row_major() {
    let mut t = fresh();
    t.set_sizes_and_strides(&[2, 5], &[1, 2]).unwrap();
    t.empty_tensor_restride(MemoryFormat::ChannelsLast);
    assert_eq!(t.strides(), &[1, 2]);
    t.empty_tensor_restride(MemoryFormat::Contiguous);
    assert_eq!(t.strides(), &[5, 1]);
    assert!(t.is_contiguous());
}

#[test]
fn negative_dimension_wraps() {
    let mut t = fresh();
    t.set_sizes_contiguous(&[2, 3, 4]);
    assert_eq!(t.size(-1), Ok(4));
    assert_eq!(t.size(0), Ok(2));
    assert_eq!(t.size(3), Err(AutogradError::DimensionOutOfRange { dim: 3, rank: 3 }));
    assert_eq!(t.size(-4), Err(AutogradError::DimensionOutOfRange { dim: -4, rank: 3 }));
    assert_eq!(t.stride(1), Ok(4));
    assert!(t.stride(3).is_err());
    assert_eq!(maybe_wrap_dim(-1, 0, true), Ok(0));
    assert!(maybe_wrap_dim(0, 0, false).is_err());
}

#[test]
fn shape_helpers() {
    assert_eq!(numel_of(&[2, 3, 4]), 24);
    assert_eq!(numel_of(&[]), 1);
    assert_eq!(row_major_strides(&[4, 1, 3]), vec![3, 3, 1]);
    assert_eq!(extent(&[usize::MAX, 2]), None);
    assert_eq!(extent(&[0, 7]), Some(7));
}

#[test]
fn storage_growth_keeps_prefix() {
    let mut s = Storage::new(4, true, Device::cpu());
    for i in 0..4 {
        s.set_byte(i, (i + 10) as u8);
    }
    assert!(s.resize_bytes(10).is_ok());
    assert_eq!(s.nbytes(), 10);
    assert_eq!(&s.data()[..4], &[10, 11, 12, 13]);
    assert_eq!(&s.data()[4..], &[0, 0, 0, 0, 0, 0]);
    assert!(s.resize_bytes(2).is_ok());
    assert_eq!(s.data(), &[10, 11]);
}

#[test]
fn non_resizable_storage_fails() {
    let mut s = Storage::new(4, false, Device::cpu());
    s.set_byte(0, 1);
    assert_eq!(s.resize_bytes(8), Err(AutogradError::NonResizableStorage));
    assert_eq!(s.nbytes(), 4);
    assert_eq!(s.data()[0], 1);
    assert!(!s.resizable());
}

#[test]
fn resize_grows_storage_of_tensor() {
    let mut g = Graph::new(true);
    let t = g.new_tensor(&[2], vec![1, 2], false).unwrap();
    let sid = g.tensor_impl(t).storage();
    assert_eq!(g.storage(sid).nbytes(), 16);
    let r = resize(&mut g, t, &[3, 4], None).unwrap();
    assert_eq!(r, t);
    assert_eq!(g.tensor_impl(t).sizes(), &[3, 4]);
    assert_eq!(g.tensor_impl(t).strides(), &[4, 1]);
    assert_eq!(g.storage(sid).nbytes(), 96);
    resize(&mut g, t, &[1], None).unwrap();
    assert_eq!(g.storage(sid).nbytes(), 96);
    assert_eq!(resize(&mut g, t, &[usize::MAX, 2], None).err(), Some(AutogradError::ShapeMismatch));
}

#[test]
fn version_counter_bumps_and_sharing() {
    let mut g = Graph::new(true);
    let t = g.new_tensor(&[1], vec![1], false).unwrap();
    let v = TensorHook::version_counter(&g, t);
    assert_eq!(v.current_version(&g), 0);
    assert!(v.unique(&g));
    v.bump(&mut g);
    v.bump(&mut g);
    assert_eq!(v.current_version(&g), 2);
    let view = TensorHook::tensor_data(&mut g, t);
    assert_eq!(TensorHook::version_counter(&g, view), v);
    assert!(!v.unique(&g));
    g.bump_version(view);
    assert_eq!(v.current_version(&g), 3);
    let other = TensorVersion::new_with_version(&mut g, 9);
    TensorHook::set_version_counter(&mut g, view, other);
    assert!(v.unique(&g));
    assert_eq!(other.current_version(&g), 9);
    assert_eq!(g.values(view), &vec![1]);
}

#[test]
fn detached_copy_has_no_autograd_record() {
    let mut g = Graph::new(true);
    let t = g.new_tensor(&[2, 2], vec![1, 2, 3, 4], true).unwrap();
    let d = TensorHook::tensor_data(&mut g, t);
    assert!(TensorHook::get_autograd_meta(&g, d).is_none());
    assert!(!g.tensor_impl(d).requires_grad());
    assert_eq!(g.tensor_impl(d).storage(), g.tensor_impl(t).storage());
    assert_eq!(g.tensor_impl(d).sizes(), &[2, 2]);
}

#[test]
fn failed_resize_changes_nothing() {
    let mut g = Graph::new(true);
    let sid = g.add_storage(Storage::new(8, false, Device::cpu()));
    let v = TensorVersion::new(&mut g);
    let mut ti = TensorImpl::with_storage_and_dtype(sid, g.storage(sid), TypeMeta::new(ScalarType::Long), v);
    ti.set_sizes_contiguous(&[1]);
    let t = g.add_tensor(ti, vec![5]);
    assert_eq!(resize(&mut g, t, &[4], None).err(), Some(AutogradError::NonResizableStorage));
    assert_eq!(g.tensor_impl(t).sizes(), &[1]);
    assert_eq!(g.storage(sid).nbytes(), 8);
    assert!(resize(&mut g, t, &[1, 1], None).is_ok());
    assert_eq!(g.tensor_impl(t).sizes(), &[1, 1]);
}
