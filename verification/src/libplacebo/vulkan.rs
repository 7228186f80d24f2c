//! libplacebo's Vulkan GPU: how it is asked for and what it is imported from.
use vstd::prelude::*;
use crate::libplacebo::gpu::Gpu;
use crate::libplacebo::log::Log;
use crate::vulkan::features::FeatureChain;

verus! {

/// Which physical device libplacebo should create its Vulkan device on.
#[derive(Debug, PartialEq, Eq)]
pub enum VulkanDeviceSelector<'a> {
    /// The first suitable device; software rasterizers only if allowed.
    Default { allow_software: bool },
    /// The device with this name.
    Name(&'a str),
    /// The device with this UUID.
    Uuid(u128),
}

impl Default for VulkanDeviceSelector<'_> {
    /// The first suitable hardware device.
    fn default() -> (r: Self)
        ensures
            r == (VulkanDeviceSelector::Default { allow_software: false }),
    {
        VulkanDeviceSelector::Default { allow_software: false }
    }
}

/// Which physical device of an existing Vulkan instance libplacebo should use.
#[derive(Debug, PartialEq, Eq)]
pub enum VulkanDeviceSelectorExt<'a> {
    /// The first suitable device; software rasterizers only if allowed.
    Default { allow_software: bool },
    /// This `VkPhysicalDevice` (its raw handle).
    Existing(u64),
    /// The device with this name.
    Name(&'a str),
    /// The device with this UUID.
    Uuid(u128),
}

impl Default for VulkanDeviceSelectorExt<'_> {
    /// The first suitable hardware device.
    fn default() -> (r: Self)
        ensures
            r == (VulkanDeviceSelectorExt::Default { allow_software: false }),
    {
        VulkanDeviceSelectorExt::Default { allow_software: false }
    }
}

/// Whether and how libplacebo may use compute shaders.
#[derive(Debug, Clone, Copy, PartialEq, Eq, Structural)]
pub enum VulkanComputeMode {
    /// Disables use of compute shaders.
    Disabled,
    /// Disables asynchronous compute.
    Sync,
    /// Enables asynchronous compute.
    Async,
}

impl Default for VulkanComputeMode {
    /// Asynchronous compute.
    fn default() -> (r: Self)
        ensures
            r == VulkanComputeMode::Async,
    {
        VulkanComputeMode::Async
    }
}

/// Where libplacebo's Vulkan instance comes from.
#[allow(inconsistent_fields)]
pub enum VulkanSource<'a> {
    /// libplacebo creates the instance itself.
    CreateNew {
        device: VulkanDeviceSelector<'a>,
        /// Enables the debugging and validation layers.
        debug: bool,
        /// Also enables GPU-assisted validation and best practices layers.
        debug_extra: bool,
        /// Instance extensions that must be enabled.
        required_extensions: &'a [&'a str],
        /// Instance extensions enabled where supported.
        optional_extensions: &'a [&'a str],
        /// Layers that must be enabled.
        required_layers: &'a [&'a str],
        /// Layers enabled where supported.
        optional_layers: &'a [&'a str],
    },
    /// libplacebo uses an existing instance (its raw `VkInstance` handle).
    Existing { instance: u64, device: VulkanDeviceSelectorExt<'a> },
}

impl<'a> Default for VulkanSource<'a> {
    /// A new instance on the first suitable hardware device, without debugging
    /// layers or extra extensions and layers.
    fn default() -> (r: Self)
        ensures
            r matches VulkanSource::CreateNew {
                device,
                debug,
                debug_extra,
                required_extensions,
                optional_extensions,
                required_layers,
                optional_layers,
            } && device == (VulkanDeviceSelector::Default { allow_software: false }) && !debug
                && !debug_extra && required_extensions@.len() == 0 && optional_extensions@.len() == 0
                && required_layers@.len() == 0 && optional_layers@.len() == 0,
    {
        let none: &'a [&'a str] = &[];
        VulkanSource::CreateNew {
            device: VulkanDeviceSelector::Default { allow_software: false },
            debug: false,
            debug_extra: false,
            required_extensions: none,
            optional_extensions: none,
            required_layers: none,
            optional_layers: none,
        }
    }
}

/// A queue family as libplacebo is told of it (`pl_vulkan_queue`).
#[derive(Debug, Clone, Copy, PartialEq, Eq, Structural)]
pub struct PlVulkanQueue {
    pub index: u32,
    pub count: u32,
}

/// A queue family of an imported Vulkan device.
#[derive(Debug, Clone, Copy, PartialEq, Eq, Structural)]
pub struct VkQueueFamily {
    /// Queue family index.
    pub index: u32,
    /// Number of queues created at device initialization.
    pub count: u32,
}

impl VkQueueFamily {
    /// The family in libplacebo's terms.
    pub fn as_raw(self) -> (r: PlVulkanQueue)
        ensures
            r == (PlVulkanQueue { index: self.index, count: self.count }),
    {
        PlVulkanQueue { index: self.index, count: self.count }
    }
}

/// What libplacebo is told of a Vulkan device it should share.
pub struct InitParamsExisting {
    /// Raw `VkInstance`.
    pub instance: u64,
    /// Raw `VkPhysicalDevice`.
    pub phys_device: u64,
    /// Raw `VkDevice`.
    pub device: u64,
    /// Names of all device extensions that were enabled.
    pub device_extensions: Vec<Vec<u8>>,
    /// The features the device was created with; it must have all that
    /// libplacebo requires.
    pub device_features: FeatureChain,
    /// Must support graphics.
    pub graphics_queue: VkQueueFamily,
    /// Must support compute.
    pub compute_queue: Option<VkQueueFamily>,
    /// Must support transfer.
    pub transfer_queue: Option<VkQueueFamily>,
    /// Disables compute shaders.
    pub disable_compute: bool,
    pub max_glsl_version: i32,
    pub max_vk_api_version: u32,
}

/// The plain values of `pl_vulkan_import_params`; the pointers to the
/// extension names, the features and the loader are filled in beside it.
#[derive(Debug, Clone, Copy, PartialEq, Eq, Structural)]
pub struct PlVulkanImportParams {
    pub instance: u64,
    pub phys_device: u64,
    pub device: u64,
    pub num_extensions: i32,
    pub queue_graphics: PlVulkanQueue,
    pub queue_compute: PlVulkanQueue,
    pub queue_transfer: PlVulkanQueue,
    pub no_compute: bool,
    pub max_glsl_version: i32,
    pub max_api_version: u32,
}

/// A queue family in libplacebo's terms; an absent family is `{0, 0}`.
pub open spec fn raw_queue(q: Option<VkQueueFamily>) -> PlVulkanQueue {
    match q {
        Some(f) => PlVulkanQueue { index: f.index, count: f.count },
        None => PlVulkanQueue { index: 0, count: 0 },
    }
}

/// libplacebo's Vulkan context (`pl_vulkan`) and the log it writes to.
#[derive(Debug, PartialEq, Eq, Structural)]
pub struct GpuVk {
    /// Address of the `pl_vulkan`.
    pub handle: usize,
    /// Address of its `pl_gpu`.
    pub gpu: usize,
    /// The log the context writes to; it lives as long as the context.
    pub log: Log,
}

impl GpuVk {
    /// The plain values of the import parameters for `params`.
    pub fn import_params(params: &InitParamsExisting) -> (r: PlVulkanImportParams)
        ensures
            r.instance == params.instance,
            r.phys_device == params.phys_device,
            r.device == params.device,
            r.num_extensions == params.device_extensions.len() as i32,
            r.queue_graphics == raw_queue(Some(params.graphics_queue)),
            r.queue_compute == raw_queue(params.compute_queue),
            r.queue_transfer == raw_queue(params.transfer_queue),
            r.no_compute == params.disable_compute,
            r.max_glsl_version == params.max_glsl_version,
            r.max_api_version == params.max_vk_api_version,
    {
        let queue_compute = match params.compute_queue {
            Some(q) => q.as_raw(),
            None => PlVulkanQueue { index: 0, count: 0 },
        };
        let queue_transfer = match params.transfer_queue {
            Some(q) => q.as_raw(),
            None => PlVulkanQueue { index: 0, count: 0 },
        };
        PlVulkanImportParams {
            instance: params.instance,
            phys_device: params.phys_device,
            device: params.device,
            num_extensions: params.device_extensions.len() as i32,
            queue_graphics: params.graphics_queue.as_raw(),
            queue_compute,
            queue_transfer,
            no_compute: params.disable_compute,
            max_glsl_version: params.max_glsl_version,
            max_api_version: params.max_vk_api_version,
        }
    }

    /// Wraps what `pl_vulkan_import` returned: none for a null context (the
    /// reason went to the log), else the context with its GPU and log.
    pub fn from_import(handle: usize, gpu: usize, log: Log) -> (r: Option<GpuVk>)
        ensures
            handle == 0 ==> r is None,
            handle != 0 ==> r == Some(GpuVk { handle, gpu, log }),
    {
        if handle == 0 {
            None
        } else {
            Some(GpuVk { handle, gpu, log })
        }
    }

    /// The `pl_vulkan` handle.
    pub fn handle(&self) -> (r: usize)
        ensures
            r == self.handle,
    {
        self.handle
    }

    /// The GPU of the context.
    pub fn as_gpu(&self) -> (r: Gpu)
        ensures
            r == (Gpu { handle: self.gpu }),
    {
        Gpu { handle: self.gpu }
    }
}

} // verus!
