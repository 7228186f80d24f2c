//! Errors raised while setting up the shared Vulkan device.
use vstd::prelude::*;

verus! {

/// Why the shared Vulkan device could not be set up.
#[derive(Debug, PartialEq, Eq)]
pub enum WgpuInitError {
    /// The Vulkan instance is older than 1.3, which FFmpeg requires.
    VulkanVersion { major: u32, minor: u32 },
    /// No adapter carries the name that was asked for.
    RequestedPhysicalDevice(String),
    /// No queue family of the device supports graphics.
    DeviceGraphicsQueue,
    /// The device lacks features that wgpu or libplacebo require.
    PhysicalDeviceUnsupported,
}

/// Why a hardware device context for FFmpeg or libplacebo could not be made.
#[derive(Debug, PartialEq, Eq)]
pub enum HWDeviceError {
    /// FFmpeg could not allocate the device context.
    AllocationFailed,
    /// FFmpeg returned this error code.
    FFmpeg(i32),
    /// This libplacebo function failed.
    LibPlacebo(&'static str),
}

} // verus!
