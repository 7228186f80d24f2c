//! Vulkan device setup shared by wgpu, FFmpeg and libplacebo.

pub mod errors;
pub mod queues;
pub mod features;
pub mod extensions;
pub mod backend;
