//! Models of the libplacebo objects the tool handles.

pub mod log;
pub mod gpu;
pub mod vulkan;
