use lowpass_analysis::vulkan::backend::{check_instance_version, select_adapter, AdapterInfo};
use lowpass_analysis::vulkan::errors::WgpuInitError;
use lowpass_analysis::vulkan::extensions::update_extensions;
use lowpass_analysis::vulkan::queues::{
    graphics_queue_of, placebo_queues, select_queues, QueueFamily, QUEUE_COMPUTE, QUEUE_GRAPHICS,
    QUEUE_TRANSFER, QUEUE_VIDEO_DECODE,
};
use lowpass_analysis::libplacebo::vulkan::VkQueueFamily;

fn qf(idx: i32, flags: u32) -> QueueFamily {
    QueueFamily { idx, num: 1 + idx, flags, video_caps: 0 }
}

#[test]
fn queue_flag_values_match_vulkan() {
    assert_eq!(QUEUE_GRAPHICS, ash::vk::QueueFlags::GRAPHICS.as_raw());
    assert_eq!(QUEUE_COMPUTE, ash::vk::QueueFlags::COMPUTE.as_raw());
    assert_eq!(QUEUE_TRANSFER, ash::vk::QueueFlags::TRANSFER.as_raw());
    assert_eq!(QUEUE_VIDEO_DECODE, ash::vk::QueueFlags::VIDEO_DECODE_KHR.as_raw());
}

#[test]
fn select_queues_without_graphics_fails() {
    let fams = vec![qf(0, QUEUE_COMPUTE | QUEUE_TRANSFER), qf(1, QUEUE_TRANSFER)];
    assert_eq!(select_queues(&fams), Err(WgpuInitError::DeviceGraphicsQueue));
    assert_eq!(select_queues(&Vec::new()), Err(WgpuInitError::DeviceGraphicsQueue));
}

#[test]
fn select_queues_picks_one_family_per_purpose() {
    let g = qf(0, QUEUE_GRAPHICS | QUEUE_COMPUTE | QUEUE_TRANSFER);
    let c = qf(1, QUEUE_COMPUTE | QUEUE_TRANSFER);
    let t = qf(2, QUEUE_TRANSFER);
    let v = qf(3, QUEUE_VIDEO_DECODE | QUEUE_TRANSFER);
    let fams = vec![g, c, t, v];
    assert_eq!(select_queues(&fams), Ok(vec![g, v, c, t]));
}

#[test]
fn select_queues_skips_purposes_without_new_family() {
    let g = qf(0, QUEUE_GRAPHICS | QUEUE_COMPUTE | QUEUE_TRANSFER);
    let fams = vec![g];
    assert_eq!(select_queues(&fams), Ok(vec![g]));
    let c = qf(1, QUEUE_COMPUTE);
    let fams = vec![c, g];
    assert_eq!(select_queues(&fams), Ok(vec![g, c]));
}

#[test]
fn graphics_queue_of_selection() {
    let g = qf(2, QUEUE_GRAPHICS);
    assert_eq!(graphics_queue_of(&vec![qf(1, QUEUE_COMPUTE), g]), Ok(g));
    assert_eq!(graphics_queue_of(&vec![qf(1, QUEUE_COMPUTE)]), Err(WgpuInitError::DeviceGraphicsQueue));
}

#[test]
fn placebo_queues_search_in_one_pass() {
    let fams = vec![
        qf(0, QUEUE_GRAPHICS | QUEUE_COMPUTE | QUEUE_TRANSFER),
        qf(1, QUEUE_VIDEO_DECODE),
        qf(2, QUEUE_COMPUTE | QUEUE_TRANSFER),
        qf(3, QUEUE_TRANSFER),
    ];
    let (g, c, t) = placebo_queues(&fams);
    assert_eq!(g, VkQueueFamily { index: 0, count: 1 });
    assert_eq!(c, Some(VkQueueFamily { index: 2, count: 3 }));
    assert_eq!(t, Some(VkQueueFamily { index: 3, count: 4 }));
}

#[test]
fn placebo_queues_without_compute_after_graphics() {
    let fams = vec![qf(0, QUEUE_COMPUTE), qf(1, QUEUE_GRAPHICS), qf(2, QUEUE_TRANSFER)];
    let (g, c, t) = placebo_queues(&fams);
    assert_eq!(g, VkQueueFamily { index: 1, count: 2 });
    assert_eq!(c, None);
    assert_eq!(t, None);
}

#[test]
fn queue_family_from_properties() {
    let f = QueueFamily::from_properties(3, 16, QUEUE_GRAPHICS | QUEUE_COMPUTE, Some(0x2));
    assert_eq!(f, QueueFamily { idx: 3, num: 16, flags: 3, video_caps: 2 });
    let f = QueueFamily::from_properties(0, 1, QUEUE_TRANSFER, None);
    assert_eq!(f, QueueFamily { idx: 0, num: 1, flags: 4, video_caps: 0 });
}

#[test]
fn instance_version_check() {
    assert_eq!(
        check_instance_version(ash::vk::make_api_version(0, 1, 2, 198)),
        Err(WgpuInitError::VulkanVersion { major: 1, minor: 2 })
    );
    assert_eq!(check_instance_version(ash::vk::make_api_version(0, 1, 3, 0)), Ok(()));
    assert_eq!(check_instance_version(ash::vk::make_api_version(0, 1, 4, 304)), Ok(()));
    assert_eq!(check_instance_version(ash::vk::make_api_version(0, 2, 0, 0)), Ok(()));
    assert_eq!(
        check_instance_version(ash::vk::make_api_version(0, 1, 0, 0)),
        Err(WgpuInitError::VulkanVersion { major: 1, minor: 0 })
    );
}

fn adapter(name: &str, external_memory: bool, discrete: bool) -> AdapterInfo {
    AdapterInfo { name: name.to_string(), external_memory, discrete }
}

#[test]
fn select_adapter_by_name() {
    let adapters = vec![adapter("llvmpipe", false, false), adapter("Radeon", true, true)];
    assert_eq!(select_adapter(&adapters, Some("Radeon".to_string())), Ok(1));
    assert_eq!(
        select_adapter(&adapters, Some("GeForce".to_string())),
        Err(WgpuInitError::RequestedPhysicalDevice("GeForce".to_string()))
    );
    assert_eq!(
        select_adapter(&Vec::new(), Some("x".to_string())),
        Err(WgpuInitError::RequestedPhysicalDevice("x".to_string()))
    );
}

#[test]
fn select_adapter_prefers_last_sharing_discrete_gpu() {
    let adapters = vec![
        adapter("integrated", true, false),
        adapter("discrete a", true, true),
        adapter("discrete no sharing", false, true),
        adapter("discrete b", true, true),
        adapter("software", true, false),
    ];
    assert_eq!(select_adapter(&adapters, None), Ok(3));
    let adapters = vec![adapter("integrated", true, false), adapter("dgpu", false, true)];
    assert_eq!(select_adapter(&adapters, None), Ok(0));
}

fn names(list: &[&str]) -> Vec<Vec<u8>> {
    list.iter().map(|s| s.as_bytes().to_vec()).collect()
}

#[test]
fn update_extensions_adds_supported_sorted_once() {
    let mut dst = names(&["VK_KHR_swapchain", "VK_EXT_debug_utils", "VK_KHR_swapchain"]);
    let src = names(&["VK_KHR_video_queue", "VK_KHR_external_memory_fd", "VK_EXT_debug_utils"]);
    let supported = names(&["VK_KHR_external_memory_fd", "VK_EXT_debug_utils", "VK_KHR_swapchain"]);
    update_extensions(&mut dst, &src, &supported);
    assert_eq!(
        dst,
        names(&["VK_EXT_debug_utils", "VK_KHR_external_memory_fd", "VK_KHR_swapchain"])
    );
}

#[test]
fn update_extensions_orders_like_cstr() {
    let mut dst = names(&["VK_KHR_video_queue"]);
    let src = names(&["VK_KHR_video", "VK_KHR_video_decode_queue", "VK_KHR_Z"]);
    let supported = src.clone();
    update_extensions(&mut dst, &src, &supported);
    let mut expected = names(&[
        "VK_KHR_video_queue",
        "VK_KHR_video",
        "VK_KHR_video_decode_queue",
        "VK_KHR_Z",
    ]);
    expected.sort();
    assert_eq!(expected[0], b"VK_KHR_Z".to_vec());
    assert_eq!(expected[1], b"VK_KHR_video".to_vec());
    assert_eq!(dst, expected);
}

#[test]
fn update_extensions_is_idempotent() {
    let src = names(&["b", "a", "c"]);
    let supported = names(&["a", "c"]);
    let mut once = names(&["d"]);
    update_extensions(&mut once, &src, &supported);
    let mut twice = once.clone();
    update_extensions(&mut twice, &src, &supported);
    assert_eq!(once, twice);
    assert_eq!(once, names(&["a", "c", "d"]));
}
