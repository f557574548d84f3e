//! Device, layout, memory-format and element-type descriptors.
use vstd::prelude::*;

verus! {

/// The kind of device a tensor lives on.
#[derive(Clone, Copy, Debug, PartialEq, Eq, Structural)]
pub enum DeviceType {
    Cpu,
    Cuda,
}

/// A device: its kind and an optional index among devices of that kind.
#[derive(Clone, Copy, Debug, PartialEq, Eq, Structural)]
pub struct Device {
    pub device_type: DeviceType,
    pub index: Option<i16>,
}

impl Device {
    pub fn new(device_type: DeviceType, index: Option<i16>) -> (r: Device)
        ensures
            r == (Device { device_type, index }),
    {
        Device { device_type, index }
    }

    /// The host CPU, with no index.
    pub fn cpu() -> (r: Device)
        ensures
            r == (Device { device_type: DeviceType::Cpu, index: None }),
    {
        Device { device_type: DeviceType::Cpu, index: None }
    }
}

/// How a tensor's elements are laid out.
#[derive(Clone, Copy, Debug, PartialEq, Eq, Structural)]
pub enum Layout {
    Strided,
    Sparse,
}

/// The order in which a tensor's dimensions are laid out in memory.
#[derive(Clone, Copy, Debug, PartialEq, Eq, Structural)]
pub enum MemoryFormat {
    Contiguous,
    Preserve,
    ChannelsLast,
    ChannelsLast3d,
}

/// The element types a tensor may hold.
#[derive(Clone, Copy, Debug, PartialEq, Eq, Structural)]
pub enum ScalarType {
    Byte,
    Char,
    Short,
    Int,
    Long,
    Half,
    Float,
    Double,
    Bool,
}

/// The size in bytes of one element of the given type.
pub open spec fn itemsize_of(s: ScalarType) -> usize {
    match s {
        ScalarType::Byte | ScalarType::Char | ScalarType::Bool => 1,
        ScalarType::Short | ScalarType::Half => 2,
        ScalarType::Int | ScalarType::Float => 4,
        ScalarType::Long | ScalarType::Double => 8,
    }
}

/// An element type descriptor: the type tag, from which the element size
/// follows.
#[derive(Clone, Copy, Debug, PartialEq, Eq, Structural)]
pub struct TypeMeta {
    pub scalar_type: ScalarType,
}

impl TypeMeta {
    pub fn new(scalar_type: ScalarType) -> (r: TypeMeta)
        ensures
            r.scalar_type == scalar_type,
    {
        TypeMeta { scalar_type }
    }

    /// Size in bytes of one element.
    pub fn itemsize(&self) -> (r: usize)
        ensures
            r == itemsize_of(self.scalar_type),
            1 <= r <= 8,
    {
        match self.scalar_type {
            ScalarType::Byte | ScalarType::Char | ScalarType::Bool => 1,
            ScalarType::Short | ScalarType::Half => 2,
            ScalarType::Int | ScalarType::Float => 4,
            ScalarType::Long | ScalarType::Double => 8,
        }
    }
}

/// The element type used where none is given: 32-bit float.
pub open spec fn default_dtype() -> TypeMeta {
    TypeMeta { scalar_type: ScalarType::Float }
}

pub fn get_default_dtype() -> (r: TypeMeta)
    ensures
        r == default_dtype(),
{
    TypeMeta { scalar_type: ScalarType::Float }
}

} // verus!
