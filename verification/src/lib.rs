//! Page-aligned storage planning, and growable buffers of `Copy` elements
//! whose backing allocation is sized in whole memory pages.

pub mod gpu_resource;
pub mod gpu_var;
pub mod gpu_vec;
pub mod gpu_vec_order;
pub mod laws;
pub mod util;

pub use gpu_resource::GPUResource;
pub use gpu_var::GPUVar;
pub use gpu_vec::{checked_range, is_allocatable, Bound, GPUVec};
pub use util::{page_aligned, round_up, BufferAllocator, MemAlign, PAGE_SIZE};
