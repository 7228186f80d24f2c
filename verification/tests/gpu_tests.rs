use lowpass_analysis::libplacebo::gpu::{Frame, FrameSource, Gpu, Texture};
use lowpass_analysis::libplacebo::log::Log;
use lowpass_analysis::libplacebo::vulkan::{
    GpuVk, InitParamsExisting, PlVulkanQueue, VkQueueFamily, VulkanComputeMode, VulkanDeviceSelector,
    VulkanDeviceSelectorExt, VulkanSource,
};
use lowpass_analysis::texture_cache::{FrameProps, TextureCache};
use lowpass_analysis::vulkan::features::FeatureChain;

fn texture(handle: usize) -> Texture {
    let gpu = Gpu { handle: 7 };
    gpu.frame_from_mapping(true, handle, 100, 200).unwrap().drop_retain().unwrap()
}

#[test]
fn gpu_unmapped_frame_is_none() {
    let gpu = Gpu { handle: 7 };
    assert!(gpu.frame_from_mapping(false, 5, 100, 200).is_none());
}

#[test]
fn gpu_mapped_frame_keeps_texture() {
    let gpu = Gpu { handle: 7 };
    let frame = gpu.frame_from_mapping(true, 5, 100, 200).unwrap();
    assert_eq!(frame.inner, 100);
    assert_eq!(frame.source_avframe(), Some(200));
    assert_eq!(
        frame.source,
        FrameSource::AVFrame { gpu, texture: Some(Texture { handle: 5, gpu }) }
    );
    let tex = frame.drop_retain().unwrap();
    assert_eq!(tex.handle(), 5);
    assert_eq!(tex.gpu, gpu);
}

#[test]
fn gpu_mapped_frame_without_texture() {
    let gpu = Gpu { handle: 7 };
    let frame: Frame = gpu.frame_from_mapping(true, 0, 100, 200).unwrap();
    assert!(frame.drop_retain().is_none());
}

#[test]
fn gpu_backing_handle() {
    assert_eq!(Gpu::backing_handle(&None), 0);
    assert_eq!(Gpu::backing_handle(&Some(texture(9))), 9);
}

#[test]
fn texture_cache_is_lifo_per_shape() {
    let a = FrameProps { width: 1920, height: 1080, pixfmt: 0 };
    let b = FrameProps { width: 1280, height: 720, pixfmt: 0 };
    let mut cache = TextureCache::new();
    assert!(cache.release_texture(a).is_none());
    cache.consume_texture(a, texture(1));
    cache.consume_texture(a, texture(2));
    cache.consume_texture(b, texture(3));
    assert_eq!(cache.release_texture(a).map(|t| t.handle()), Some(2));
    assert_eq!(cache.release_texture(b).map(|t| t.handle()), Some(3));
    assert!(cache.release_texture(b).is_none());
    assert_eq!(cache.release_texture(a).map(|t| t.handle()), Some(1));
    assert!(cache.release_texture(a).is_none());
}

#[test]
fn texture_cache_release_after_consume_returns_it() {
    let a = FrameProps { width: 640, height: 480, pixfmt: 3 };
    let other_format = FrameProps { width: 640, height: 480, pixfmt: 4 };
    let mut cache = TextureCache::new();
    cache.consume_texture(a, texture(11));
    assert!(cache.release_texture(other_format).is_none());
    assert_eq!(cache.release_texture(a).map(|t| t.handle()), Some(11));
}

#[test]
fn vk_queue_family_as_raw() {
    let q = VkQueueFamily { index: 2, count: 4 };
    assert_eq!(q.as_raw(), PlVulkanQueue { index: 2, count: 4 });
}

#[test]
fn vulkan_defaults() {
    assert_eq!(VulkanComputeMode::default(), VulkanComputeMode::Async);
    assert_eq!(
        VulkanDeviceSelector::default(),
        VulkanDeviceSelector::Default { allow_software: false }
    );
    assert_eq!(
        VulkanDeviceSelectorExt::default(),
        VulkanDeviceSelectorExt::Default { allow_software: false }
    );
    match VulkanSource::default() {
        VulkanSource::CreateNew {
            device,
            debug,
            debug_extra,
            required_extensions,
            optional_extensions,
            required_layers,
            optional_layers,
        } => {
            assert_eq!(device, VulkanDeviceSelector::Default { allow_software: false });
            assert!(!debug && !debug_extra);
            assert!(required_extensions.is_empty() && optional_extensions.is_empty());
            assert!(required_layers.is_empty() && optional_layers.is_empty());
        },
        VulkanSource::Existing { .. } => panic!("default source should create a new instance"),
    }
}

fn import_params(compute: Option<VkQueueFamily>, transfer: Option<VkQueueFamily>) -> InitParamsExisting {
    InitParamsExisting {
        instance: 1,
        phys_device: 2,
        device: 3,
        device_extensions: vec![b"VK_KHR_swapchain".to_vec(), b"VK_KHR_video_queue".to_vec()],
        device_features: FeatureChain { base: vec![0; 55], structs: Vec::new() },
        graphics_queue: VkQueueFamily { index: 0, count: 1 },
        compute_queue: compute,
        transfer_queue: transfer,
        disable_compute: false,
        max_glsl_version: i32::MAX,
        max_vk_api_version: u32::MAX,
    }
}

#[test]
fn gpu_vk_import_params() {
    let params = import_params(Some(VkQueueFamily { index: 1, count: 2 }), None);
    let raw = GpuVk::import_params(&params);
    assert_eq!(raw.instance, 1);
    assert_eq!(raw.phys_device, 2);
    assert_eq!(raw.device, 3);
    assert_eq!(raw.num_extensions, 2);
    assert_eq!(raw.queue_graphics, PlVulkanQueue { index: 0, count: 1 });
    assert_eq!(raw.queue_compute, PlVulkanQueue { index: 1, count: 2 });
    assert_eq!(raw.queue_transfer, PlVulkanQueue { index: 0, count: 0 });
    assert!(!raw.no_compute);
    assert_eq!(raw.max_glsl_version, i32::MAX);
    assert_eq!(raw.max_api_version, u32::MAX);
}

#[test]
fn gpu_vk_from_import() {
    assert!(GpuVk::from_import(0, 5, Log::default()).is_none());
    let vk = GpuVk::from_import(10, 20, Log::from_raw(30)).unwrap();
    assert_eq!(vk.handle(), 10);
    assert_eq!(vk.as_gpu(), Gpu { handle: 20 });
    assert_eq!(vk.log.handle(), 30);
}

#[test]
fn texture_cache_keeps_similar_shapes_apart() {
    let a = FrameProps { width: 1, height: 2, pixfmt: -1 };
    let b = FrameProps { width: 2, height: 1, pixfmt: -1 };
    let c = FrameProps { width: 1, height: 2, pixfmt: i32::MAX };
    let mut cache = TextureCache::new();
    cache.consume_texture(a, texture(1));
    assert!(cache.release_texture(b).is_none());
    assert!(cache.release_texture(c).is_none());
    assert_eq!(cache.release_texture(a).map(|t| t.handle()), Some(1));
}
