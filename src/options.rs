//! Options for creating tensors: element type, device, layout, memory
//! format and whether gradients are required, each either set or left to
//! its default.
use crate::device::{Device, DeviceType, Layout, MemoryFormat, ScalarType, TypeMeta, default_dtype, get_default_dtype};
use vstd::prelude::*;

verus! {

/// Each option with a flag that says whether it was set.
#[derive(Clone, Copy, Debug, PartialEq, Eq, Structural)]
pub struct TensorOptions {
    pub dtype: TypeMeta,
    pub device: Device,
    pub layout: Layout,
    pub memory_format: MemoryFormat,
    pub requires_grad: bool,
    pub pinned_memory: bool,
    pub has_device: bool,
    pub has_dtype: bool,
    pub has_layout: bool,
    pub has_requires_grad: bool,
    pub has_pinned_memory: bool,
    pub has_memory_format: bool,
}

/// No option set; the stored values are float, the CPU, strided,
/// contiguous.
pub open spec fn default_options() -> TensorOptions {
    TensorOptions {
        dtype: TypeMeta { scalar_type: ScalarType::Float },
        device: Device { device_type: DeviceType::Cpu, index: None },
        layout: Layout::Strided,
        memory_format: MemoryFormat::Contiguous,
        requires_grad: false,
        pinned_memory: false,
        has_device: false,
        has_dtype: false,
        has_layout: false,
        has_requires_grad: false,
        has_pinned_memory: false,
        has_memory_format: false,
    }
}

impl Default for TensorOptions {
    fn default() -> (r: TensorOptions)
        ensures
            r == default_options(),
    {
        TensorOptions {
            dtype: TypeMeta::new(ScalarType::Float),
            device: Device::cpu(),
            layout: Layout::Strided,
            memory_format: MemoryFormat::Contiguous,
            requires_grad: false,
            pinned_memory: false,
            has_device: false,
            has_dtype: false,
            has_layout: false,
            has_requires_grad: false,
            has_pinned_memory: false,
            has_memory_format: false,
        }
    }
}

impl TensorOptions {
    /// The defaults with the stored layout replaced (not marked as set).
    pub fn with_layout(layout: Layout) -> (r: TensorOptions)
        ensures
            r == (TensorOptions { layout, ..default_options() }),
    {
        TensorOptions { layout, ..TensorOptions::default() }
    }

    /// The defaults with the stored device replaced (not marked as set).
    pub fn with_device_type(type_: DeviceType, index: Option<i16>) -> (r: TensorOptions)
        ensures
            r == (TensorOptions { device: Device { device_type: type_, index }, ..default_options() }),
    {
        let device = Device::new(type_, index);
        Self::with_device(device)
    }

    /// The defaults with the stored device replaced (not marked as set).
    pub fn with_device(device: Device) -> (r: TensorOptions)
        ensures
            r == (TensorOptions { device, ..default_options() }),
    {
        TensorOptions { device, ..TensorOptions::default() }
    }

    /// The defaults with the element type set.
    pub fn with_dtype(dtype: TypeMeta) -> (r: TensorOptions)
        ensures
            r == (TensorOptions { dtype, has_dtype: true, ..default_options() }),
    {
        TensorOptions { dtype, has_dtype: true, ..TensorOptions::default() }
    }

    /// The defaults with the stored memory format replaced (not marked as
    /// set).
    pub fn with_memory_format(memory_format: MemoryFormat) -> (r: TensorOptions)
        ensures
            r == (TensorOptions { memory_format, ..default_options() }),
    {
        TensorOptions { memory_format, ..TensorOptions::default() }
    }

    /// A copy with the element type set, or unset for `None`.
    pub fn set_dtype(&self, dtype: Option<TypeMeta>) -> (r: TensorOptions)
        ensures
            dtype is Some ==> r == (TensorOptions { dtype: dtype->0, has_dtype: true, ..*self }),
            dtype is None ==> r == (TensorOptions { has_dtype: false, ..*self }),
    {
        let mut clone = *self;
        clone.set_dtype_mut(dtype);
        clone
    }

    /// A copy with the element type of the given tag set, or unset.
    pub fn set_dtype_(&self, scalar_type: Option<ScalarType>) -> (r: TensorOptions)
        ensures
            scalar_type is Some ==> r == (TensorOptions { dtype: TypeMeta { scalar_type: scalar_type->0 }, has_dtype: true, ..*self }),
            scalar_type is None ==> r == (TensorOptions { has_dtype: false, ..*self }),
    {
        let mut clone = *self;
        clone.set_dtype_mut_(scalar_type);
        clone
    }

    /// Sets the element type, or unsets it for `None`.
    pub fn set_dtype_mut(&mut self, dtype: Option<TypeMeta>)
        ensures
            dtype is Some ==> *final(self) == (TensorOptions { dtype: dtype->0, has_dtype: true, ..*old(self) }),
            dtype is None ==> *final(self) == (TensorOptions { has_dtype: false, ..*old(self) }),
    {
        match dtype {
            Some(d) => {
                self.dtype = d;
                self.has_dtype = true;
            },
            None => {
                self.has_dtype = false;
            },
        }
    }

    /// Sets the element type of the given tag, or unsets it.
    pub fn set_dtype_mut_(&mut self, scalar_type: Option<ScalarType>)
        ensures
            scalar_type is Some ==> *final(self) == (TensorOptions { dtype: TypeMeta { scalar_type: scalar_type->0 }, has_dtype: true, ..*old(self) }),
            scalar_type is None ==> *final(self) == (TensorOptions { has_dtype: false, ..*old(self) }),
    {
        let dtype = match scalar_type {
            Some(s) => Some(TypeMeta::new(s)),
            None => None,
        };
        self.set_dtype_mut(dtype)
    }

    /// A copy with the device set, or unset for `None`.
    pub fn set_device(&self, device: Option<Device>) -> (r: TensorOptions)
        ensures
            device is Some ==> r == (TensorOptions { device: device->0, has_device: true, ..*self }),
            device is None ==> r == (TensorOptions { has_device: false, ..*self }),
    {
        let mut clone = *self;
        clone.set_device_mut(device);
        clone
    }

    /// Sets the device, or unsets it for `None`.
    pub fn set_device_mut(&mut self, device: Option<Device>)
        ensures
            device is Some ==> *final(self) == (TensorOptions { device: device->0, has_device: true, ..*old(self) }),
            device is None ==> *final(self) == (TensorOptions { has_device: false, ..*old(self) }),
    {
        match device {
            Some(d) => {
                self.device = d;
                self.has_device = true;
            },
            None => {
                self.has_device = false;
            },
        }
    }

    /// A copy with the layout set, or unset for `None`.
    pub fn set_layout(&self, layout: Option<Layout>) -> (r: TensorOptions)
        ensures
            layout is Some ==> r == (TensorOptions { layout: layout->0, has_layout: true, ..*self }),
            layout is None ==> r == (TensorOptions { has_layout: false, ..*self }),
    {
        let mut clone = *self;
        clone.set_layout_mut(layout);
        clone
    }

    /// Sets the layout, or unsets it for `None`.
    pub fn set_layout_mut(&mut self, layout: Option<Layout>)
        ensures
            layout is Some ==> *final(self) == (TensorOptions { layout: layout->0, has_layout: true, ..*old(self) }),
            layout is None ==> *final(self) == (TensorOptions { has_layout: false, ..*old(self) }),
    {
        match layout {
            Some(l) => {
                self.layout = l;
                self.has_layout = true;
            },
            None => {
                self.has_layout = false;
            },
        }
    }

    /// A copy with the memory format set, or unset for `None`.
    pub fn set_memory_format(&self, memory_format: Option<MemoryFormat>) -> (r: TensorOptions)
        ensures
            memory_format is Some ==> r == (TensorOptions { memory_format: memory_format->0, has_memory_format: true, ..*self }),
            memory_format is None ==> r == (TensorOptions { has_memory_format: false, ..*self }),
    {
        let mut r = *self;
        r.set_memory_format_mut(memory_format);
        r
    }

    /// Sets the memory format, or unsets it for `None`.
    pub fn set_memory_format_mut(&mut self, memory_format: Option<MemoryFormat>)
        ensures
            memory_format is Some ==> *final(self) == (TensorOptions { memory_format: memory_format->0, has_memory_format: true, ..*old(self) }),
            memory_format is None ==> *final(self) == (TensorOptions { has_memory_format: false, ..*old(self) }),
    {
        match memory_format {
            Some(f) => {
                self.has_memory_format = true;
                self.memory_format = f;
            },
            None => {
                self.has_memory_format = false;
            },
        }
    }

    pub fn has_memory_format(&self) -> (r: bool)
        ensures
            r == self.has_memory_format,
    {
        self.has_memory_format
    }

    /// The defaults with gradients required.
    pub fn with_requires_grad() -> (r: TensorOptions)
        ensures
            r == (TensorOptions { requires_grad: true, has_requires_grad: true, ..default_options() }),
    {
        Self::with_requires_grad_(true)
    }

    /// The defaults with `requires_grad` set to the given value.
    pub fn with_requires_grad_(requires_grad: bool) -> (r: TensorOptions)
        ensures
            r == (TensorOptions { requires_grad, has_requires_grad: true, ..default_options() }),
    {
        let mut o = TensorOptions::default();
        o.set_requires_grad_mut(Some(requires_grad));
        o
    }

    /// Whether gradients are required; false when not set.
    pub fn requires_grad(&self) -> (r: bool)
        ensures
            r == (self.has_requires_grad && self.requires_grad),
    {
        if self.has_requires_grad {
            self.requires_grad
        } else {
            false
        }
    }

    /// A copy with `requires_grad` set, or unset for `None`.
    pub fn set_requires_grad(&self, requires_grad: Option<bool>) -> (r: TensorOptions)
        ensures
            requires_grad is Some ==> r == (TensorOptions { requires_grad: requires_grad->0, has_requires_grad: true, ..*self }),
            requires_grad is None ==> r == (TensorOptions { has_requires_grad: false, ..*self }),
    {
        let mut clone = *self;
        clone.set_requires_grad_mut(requires_grad);
        clone
    }

    /// Sets `requires_grad`, or unsets it for `None`.
    pub fn set_requires_grad_mut(&mut self, requires_grad: Option<bool>)
        ensures
            requires_grad is Some ==> *final(self) == (TensorOptions { requires_grad: requires_grad->0, has_requires_grad: true, ..*old(self) }),
            requires_grad is None ==> *final(self) == (TensorOptions { has_requires_grad: false, ..*old(self) }),
    {
        match requires_grad {
            Some(b) => {
                self.requires_grad = b;
                self.has_requires_grad = true;
            },
            None => {
                self.has_requires_grad = false;
            },
        }
    }

    /// The element type, or the default one when not set.
    pub fn dtype(&self) -> (r: TypeMeta)
        ensures
            r == if self.has_dtype { self.dtype } else { default_dtype() },
    {
        if self.has_dtype {
            self.dtype
        } else {
            get_default_dtype()
        }
    }

    pub fn has_device(&self) -> (r: bool)
        ensures
            r == self.has_device,
    {
        self.has_device
    }

    pub fn has_dtype(&self) -> (r: bool)
        ensures
            r == self.has_dtype,
    {
        self.has_dtype
    }

    pub fn has_layout(&self) -> (r: bool)
        ensures
            r == self.has_layout,
    {
        self.has_layout
    }

    pub fn has_requires_grad(&self) -> (r: bool)
        ensures
            r == self.has_requires_grad,
    {
        self.has_requires_grad
    }

    pub fn device_opt(&self) -> (r: Option<Device>)
        ensures
            r == if self.has_device { Some(self.device) } else { None },
    {
        if self.has_device {
            Some(self.device)
        } else {
            None
        }
    }

    /// The device, or the CPU when not set.
    pub fn device(&self) -> (r: Device)
        ensures
            r == if self.has_device { self.device } else { Device { device_type: DeviceType::Cpu, index: None } },
    {
        if self.has_device {
            self.device
        } else {
            Device::new(DeviceType::Cpu, None)
        }
    }

    pub fn layout_opt(&self) -> (r: Option<Layout>)
        ensures
            r == if self.has_layout { Some(self.layout) } else { None },
    {
        if self.has_layout {
            Some(self.layout)
        } else {
            None
        }
    }

    /// The layout, or strided when not set.
    pub fn layout(&self) -> (r: Layout)
        ensures
            r == if self.has_layout { self.layout } else { Layout::Strided },
    {
        if self.has_layout {
            self.layout
        } else {
            Layout::Strided
        }
    }

    pub fn dtype_opt(&self) -> (r: Option<TypeMeta>)
        ensures
            r == if self.has_dtype { Some(self.dtype) } else { None },
    {
        if self.has_dtype {
            Some(self.dtype)
        } else {
            None
        }
    }

    pub fn memory_format_opt(&self) -> (r: Option<MemoryFormat>)
        ensures
            r == if self.has_memory_format { Some(self.memory_format) } else { None },
    {
        if self.has_memory_format {
            Some(self.memory_format)
        } else {
            None
        }
    }

    pub fn requires_grad_opt(&self) -> (r: Option<bool>)
        ensures
            r == if self.has_requires_grad { Some(self.requires_grad) } else { None },
    {
        if self.has_requires_grad {
            Some(self.requires_grad)
        } else {
            None
        }
    }

    /// `options`, with each of device, element type, layout and
    /// `requires_grad` that it leaves unset taken from `self`.
    pub fn merge_in(&self, options: &TensorOptions) -> (r: TensorOptions)
        ensures
            r.has_device == (options.has_device || self.has_device),
            r.device == if options.has_device || !self.has_device { options.device } else { self.device },
            r.has_dtype == (options.has_dtype || self.has_dtype),
            r.dtype == if options.has_dtype || !self.has_dtype { options.dtype } else { self.dtype },
            r.has_layout == (options.has_layout || self.has_layout),
            r.layout == if options.has_layout || !self.has_layout { options.layout } else { self.layout },
            r.has_requires_grad == (options.has_requires_grad || self.has_requires_grad),
            r.requires_grad == if options.has_requires_grad || !self.has_requires_grad { options.requires_grad } else { self.requires_grad },
            r.memory_format == options.memory_format,
            r.has_memory_format == options.has_memory_format,
            r.pinned_memory == options.pinned_memory,
            r.has_pinned_memory == options.has_pinned_memory,
    {
        let mut r = *options;
        if !r.has_device() {
            r.set_device_mut(self.device_opt());
        }
        if !r.has_dtype() {
            r.set_dtype_mut(self.dtype_opt());
        }
        if !r.has_layout() {
            r.set_layout_mut(self.layout_opt());
        }
        if !r.has_requires_grad() {
            r.set_requires_grad_mut(self.requires_grad_opt());
        }
        r
    }
}

/// The defaults with the stored device replaced.
pub fn device(d: Device) -> (r: TensorOptions)
    ensures
        r == (TensorOptions { device: d, ..default_options() }),
{
    TensorOptions::with_device(d)
}

} // verus!
