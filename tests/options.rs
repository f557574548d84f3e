use rovo::device::{Device, DeviceType, Layout, MemoryFormat, ScalarType, TypeMeta};
use rovo::options::{device, TensorOptions};

#[test]
fn defaults_leave_everything_unset() {
    let o = TensorOptions::default();
    assert!(!o.has_device());
    assert!(!o.has_dtype());
    assert!(!o.has_layout());
    assert!(!o.has_requires_grad());
    assert!(!o.has_memory_format());
    assert_eq!(o.dtype(), TypeMeta::new(ScalarType::Float));
    assert_eq!(o.device(), Device::new(DeviceType::Cpu, None));
    assert_eq!(o.layout(), Layout::Strided);
    assert!(!o.requires_grad());
    assert_eq!(o.device_opt(), None);
}

#[test]
fn setters_set_and_unset() {
    let o = TensorOptions::with_dtype(TypeMeta::new(ScalarType::Long));
    assert_eq!(o.dtype_opt(), Some(TypeMeta::new(ScalarType::Long)));
    let o2 = o.set_dtype(None);
    assert_eq!(o2.dtype_opt(), None);
    assert_eq!(o2.dtype(), TypeMeta::new(ScalarType::Float));
    let o3 = o2.set_dtype_(Some(ScalarType::Double));
    assert_eq!(o3.dtype().itemsize(), 8);
    let o4 = o3.set_layout(Some(Layout::Sparse)).set_memory_format(Some(MemoryFormat::ChannelsLast));
    assert_eq!(o4.layout_opt(), Some(Layout::Sparse));
    assert_eq!(o4.memory_format_opt(), Some(MemoryFormat::ChannelsLast));
    let o5 = o4.set_requires_grad(Some(true));
    assert_eq!(o5.requires_grad_opt(), Some(true));
    assert!(TensorOptions::with_requires_grad().requires_grad());
    assert!(!TensorOptions::with_requires_grad_(false).requires_grad());
    assert!(TensorOptions::with_requires_grad_(false).has_requires_grad());
}

#[test]
fn merge_in_fills_unset_options() {
    let base = TensorOptions::default()
        .set_device(Some(Device::new(DeviceType::Cuda, Some(1))))
        .set_dtype(Some(TypeMeta::new(ScalarType::Int)))
        .set_requires_grad(Some(true));
    let over = TensorOptions::default().set_dtype(Some(TypeMeta::new(ScalarType::Half)));
    let m = base.merge_in(&over);
    assert_eq!(m.device_opt(), Some(Device::new(DeviceType::Cuda, Some(1))));
    assert_eq!(m.dtype_opt(), Some(TypeMeta::new(ScalarType::Half)));
    assert_eq!(m.requires_grad_opt(), Some(true));
    assert_eq!(m.layout_opt(), None);
}

#[test]
fn builders_store_without_marking() {
    let d = Device::new(DeviceType::Cuda, Some(0));
    let o = device(d);
    assert!(!o.has_device());
    assert_eq!(o.device(), Device::cpu());
    let o = TensorOptions::with_device_type(DeviceType::Cuda, Some(0)).set_device(Some(d));
    assert_eq!(o.device(), d);
    let mut m = TensorOptions::with_layout(Layout::Sparse);
    assert_eq!(m.layout(), Layout::Strided);
    m.set_layout_mut(Some(Layout::Sparse));
    assert_eq!(m.layout(), Layout::Sparse);
    let f = TensorOptions::with_memory_format(MemoryFormat::Preserve);
    assert_eq!(f.memory_format_opt(), None);
}
