use vstd::prelude::*;

verus! {

/// A resource that lives on a device and can be told which device to use.
pub trait GPUResource {
    type Device;

    fn device(&self) -> &Self::Device;

    fn set_device(&mut self, device: &Self::Device);
}

} // verus!
