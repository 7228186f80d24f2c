//! Verified core of the lowpass analysis tool: the decisions that sit between
//! FFmpeg, libplacebo and Vulkan, modelled over plain values.

pub mod libplacebo;
pub mod vulkan;
pub mod frame_iterator;
pub mod texture_cache;
pub mod frame_pair;
