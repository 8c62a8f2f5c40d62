use vstd::prelude::*;

verus! {

use vstd::layout::size_of;
use crate::util::{page_aligned_spec, MemAlign};

/// A single `Copy` value kept in a buffer of its own, laid out by the
/// page-aligned allocation plan for one element.
pub struct GPUVar<T: Copy> {
    value: T,
    mem_align: MemAlign<T>,
}

impl<T: Copy> GPUVar<T> {
    /// The value held.
    pub closed spec fn value(&self) -> T {
        self.value
    }

    /// The allocation plan of the backing buffer.
    pub closed spec fn layout(&self) -> MemAlign<T> {
        self.mem_align
    }

    /// A variable holding `value`, in a buffer planned for one element.
    pub fn with_value(value: T) -> (r: Self)
        requires
            size_of::<T>() > 0,
            page_aligned_spec(size_of::<T>() as int) <= usize::MAX,
        ensures
            r.value() == value,
            r.layout().byte_size == page_aligned_spec(size_of::<T>() as int),
            r.layout().capacity == (r.layout().byte_size as int) / (size_of::<T>() as int),
            r.layout().remainder == (r.layout().byte_size as int) % (size_of::<T>() as int),
            r.layout().is_valid_spec(),
            r.layout().capacity >= 1,
    {
        proof {
            assert(size_of::<T>() * 1 == size_of::<T>() as int);
        }
        let mem_align = MemAlign::<T>::new(1);
        GPUVar { value, mem_align }
    }

    /// A variable holding `value`; the form the `gpuvar!` shorthand builds.
    pub fn with_value1(value: T) -> (r: Self)
        requires
            size_of::<T>() > 0,
            page_aligned_spec(size_of::<T>() as int) <= usize::MAX,
        ensures
            r.value() == value,
            r.layout().byte_size == page_aligned_spec(size_of::<T>() as int),
            r.layout().capacity == (r.layout().byte_size as int) / (size_of::<T>() as int),
            r.layout().remainder == (r.layout().byte_size as int) % (size_of::<T>() as int),
            r.layout().is_valid_spec(),
            r.layout().capacity >= 1,
    {
        Self::with_value(value)
    }

    /// The size in bytes of the value's type.
    pub fn element_size() -> (r: usize)
        ensures
            r == size_of::<T>(),
    {
        core::mem::size_of::<T>()
    }

    /// The allocation plan of the backing buffer.
    pub fn mem_align(&self) -> (r: MemAlign<T>)
        ensures
            r == self.layout(),
    {
        self.mem_align.clone()
    }
}

impl<T: Copy> Clone for GPUVar<T> {
    /// A new variable, in a buffer of the same plan, holding the same value.
    fn clone(&self) -> (r: Self)
        ensures
            r.value() == self.value(),
            r.layout() == self.layout(),
    {
        GPUVar { value: self.value, mem_align: self.mem_align.clone() }
    }
}

impl<T: Copy> core::ops::Deref for GPUVar<T> {
    type Target = T;

    /// The value held.
    fn deref(&self) -> (r: &T)
        ensures
            *r == self.value(),
    {
        &self.value
    }
}

impl<T: Copy> core::ops::DerefMut for GPUVar<T> {
    /// The value held, for writing; the buffer's plan stays as it is.
    fn deref_mut(&mut self) -> (r: &mut T)
        ensures
            *r == old(self).value(),
            *final(r) == final(self).value(),
            final(self).layout() == old(self).layout(),
    {
        &mut self.value
    }
}

} // verus!
