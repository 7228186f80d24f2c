use lowpass_analysis::frame_iterator::{supported_device_types, HwConfig, HwDeviceType};

#[test]
fn supported_device_types_need_device_context_method() {
    let configs = vec![
        HwConfig { pix_fmt: 44, methods: 1, device_type: HwDeviceType::Vaapi },
        HwConfig { pix_fmt: 117, methods: 2, device_type: HwDeviceType::Cuda },
        HwConfig { pix_fmt: 9, methods: 3, device_type: HwDeviceType::Other(8) },
    ];
    assert_eq!(supported_device_types(&configs), vec![HwDeviceType::Vaapi, HwDeviceType::Other(8)]);
    assert!(supported_device_types(&Vec::new()).is_empty());
}
