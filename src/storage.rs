//! A resizable raw byte buffer shared by the tensors that view it.
use crate::device::Device;
use crate::error::AutogradError;
use vstd::prelude::*;

verus! {

/// A raw byte buffer with a device tag and a `resizable` flag. Its size in
/// bytes is always the length of the last successful allocation.
pub struct Storage {
    data: Vec<u8>,
    resizable: bool,
    device: Device,
}

impl Storage {
    /// The bytes the buffer holds.
    pub closed spec fn bytes(&self) -> Seq<u8> {
        self.data@
    }

    pub closed spec fn is_resizable(&self) -> bool {
        self.resizable
    }

    pub closed spec fn device_spec(&self) -> Device {
        self.device
    }

    /// Allocates a buffer of `nbytes` bytes, all zero.
    pub fn new(nbytes: usize, resizable: bool, device: Device) -> (r: Storage)
        ensures
            r.bytes() == Seq::new(nbytes as nat, |i: int| 0u8),
            r.is_resizable() == resizable,
            r.device_spec() == device,
    {
        let data = vec![0u8; nbytes];
        proof {
            assert(data@ =~= Seq::new(nbytes as nat, |i: int| 0u8));
        }
        Storage { data, resizable, device }
    }

    pub fn nbytes(&self) -> (r: usize)
        ensures
            r == self.bytes().len(),
    {
        self.data.len()
    }

    pub fn resizable(&self) -> (r: bool)
        ensures
            r == self.is_resizable(),
    {
        self.resizable
    }

    pub fn device(&self) -> (r: Device)
        ensures
            r == self.device_spec(),
    {
        self.device
    }

    /// The whole buffer.
    pub fn data(&self) -> (r: &[u8])
        ensures
            r@ == self.bytes(),
    {
        self.data.as_slice()
    }

    /// Writes one byte.
    pub fn set_byte(&mut self, i: usize, b: u8)
        requires
            i < old(self).bytes().len(),
        ensures
            final(self).bytes() == old(self).bytes().update(i as int, b),
            final(self).is_resizable() == old(self).is_resizable(),
            final(self).device_spec() == old(self).device_spec(),
    {
        self.data.set(i, b);
    }

    /// Replaces the buffer by a fresh one of `size_bytes` bytes, copying the
    /// first `min(old size, size_bytes)` bytes over; newly exposed bytes are
    /// zero. A storage that is not resizable is left as it is and the call
    /// fails.
    pub fn resize_bytes(&mut self, size_bytes: usize) -> (r: Result<(), AutogradError>)
        ensures
            r is Ok <==> old(self).is_resizable(),
            r is Err ==> r == Err::<(), AutogradError>(AutogradError::NonResizableStorage)
                && *final(self) == *old(self),
            r is Ok ==> final(self).bytes().len() == size_bytes
                && (forall|i: int| 0 <= i < old(self).bytes().len() && i < size_bytes
                    ==> final(self).bytes()[i] == old(self).bytes()[i])
                && (forall|i: int| old(self).bytes().len() <= i < size_bytes
                    ==> final(self).bytes()[i] == 0u8),
            final(self).is_resizable() == old(self).is_resizable(),
            final(self).device_spec() == old(self).device_spec(),
    {
        if !self.resizable {
            return Err(AutogradError::NonResizableStorage);
        }
        let mut new_data: Vec<u8> = vec![0u8; size_bytes];
        let old_capacity = self.data.len();
        let copy_capacity = if size_bytes < old_capacity { size_bytes } else { old_capacity };
        let mut i: usize = 0;
        while i < copy_capacity
            invariant
                i <= copy_capacity,
                copy_capacity <= size_bytes,
                copy_capacity <= self.data@.len(),
                copy_capacity == size_bytes || copy_capacity == self.data@.len(),
                new_data@.len() == size_bytes,
                forall|j: int| 0 <= j < i ==> new_data@[j] == self.data@[j],
                forall|j: int| i <= j < size_bytes ==> new_data@[j] == 0u8,
            decreases copy_capacity - i,
        {
            new_data.set(i, self.data[i]);
            i = i + 1;
        }
        self.data = new_data;
        Ok(())
    }
}

} // verus!
