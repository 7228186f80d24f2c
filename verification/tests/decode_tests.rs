use lowpass_analysis::frame_iterator::{
    after_attempt, hw_device_plan, TryAction,
    hw_decoder_candidates, hw_device_attempts, hw_device_result, next_action, plan_pixel_format,
    DecoderAction, DecoderEvent, FormatPlan, HwConfig, HwDeviceAttempt, HwDeviceType,
    AV_PIX_FMT_NONE,
};
use lowpass_analysis::vulkan::errors::HWDeviceError;

#[test]
fn hw_decoder_candidates_follow_preference() {
    let supported = vec![HwDeviceType::Cuda, HwDeviceType::Other(8), HwDeviceType::Vaapi, HwDeviceType::Vulkan];
    assert_eq!(
        hw_decoder_candidates(&supported),
        vec![HwDeviceType::Vulkan, HwDeviceType::Vaapi, HwDeviceType::Cuda]
    );
    assert!(hw_decoder_candidates(&vec![HwDeviceType::Other(1)]).is_empty());
}

#[test]
fn hw_device_attempt_order() {
    assert_eq!(
        hw_device_attempts(HwDeviceType::Vaapi, Some(HwDeviceType::Vaapi)),
        vec![HwDeviceAttempt::UseExisting]
    );
    assert_eq!(
        hw_device_attempts(HwDeviceType::Vaapi, Some(HwDeviceType::Vulkan)),
        vec![HwDeviceAttempt::Derive, HwDeviceAttempt::Create]
    );
    assert_eq!(hw_device_attempts(HwDeviceType::Cuda, None), vec![HwDeviceAttempt::Create]);
}

#[test]
fn hw_device_result_codes() {
    assert_eq!(hw_device_result(0, 0x1000), Ok(0x1000));
    assert_eq!(hw_device_result(-12, 0x1000), Err(HWDeviceError::FFmpeg(-12)));
}

#[test]
fn pixel_format_plan() {
    let vaapi = 44;
    let cuda = 117;
    let nv12 = 23;
    let configs = vec![
        HwConfig { pix_fmt: cuda, methods: 1, device_type: HwDeviceType::Cuda },
        HwConfig { pix_fmt: vaapi, methods: 1, device_type: HwDeviceType::Vaapi },
        HwConfig { pix_fmt: vaapi, methods: 2, device_type: HwDeviceType::Vaapi },
    ];
    let offered = vec![vaapi, nv12, vaapi];
    assert_eq!(plan_pixel_format(AV_PIX_FMT_NONE, Some(HwDeviceType::Vaapi), &configs, &offered), FormatPlan::NoFormat);
    assert_eq!(
        plan_pixel_format(nv12, Some(HwDeviceType::Vaapi), &configs, &offered),
        FormatPlan::Try { candidates: vec![vaapi, vaapi], fallback: nv12 }
    );
    assert_eq!(
        plan_pixel_format(nv12, Some(HwDeviceType::Cuda), &configs, &offered),
        FormatPlan::Try { candidates: vec![], fallback: nv12 }
    );
    assert_eq!(
        plan_pixel_format(nv12, None, &configs, &offered),
        FormatPlan::Try { candidates: vec![], fallback: nv12 }
    );
}

#[test]
fn decoder_loop_actions() {
    assert_eq!(next_action(0, DecoderEvent::FrameReady), DecoderAction::ReturnFrame);
    assert_eq!(next_action(0, DecoderEvent::NeedsInput), DecoderAction::ReadPacket);
    assert_eq!(next_action(0, DecoderEvent::EndOfStream), DecoderAction::ReturnEnd);
    assert_eq!(next_action(0, DecoderEvent::ReceiveFailed(-5)), DecoderAction::ReturnError(-5));
    assert_eq!(next_action(1, DecoderEvent::Packet { stream_index: 1 }), DecoderAction::SendPacket);
    assert_eq!(next_action(1, DecoderEvent::Packet { stream_index: 0 }), DecoderAction::ReceiveFrame);
    assert_eq!(next_action(0, DecoderEvent::NoMorePackets), DecoderAction::SendEof);
    assert_eq!(next_action(0, DecoderEvent::PacketSent), DecoderAction::ReceiveFrame);
    assert_eq!(next_action(0, DecoderEvent::SendEndOfStream), DecoderAction::ReturnEnd);
    assert_eq!(next_action(0, DecoderEvent::SendFailed(-22)), DecoderAction::ReturnError(-22));
    assert_eq!(next_action(0, DecoderEvent::EofSent), DecoderAction::ReceiveFrame);
    assert_eq!(next_action(0, DecoderEvent::EofSendFailed(-1)), DecoderAction::ReturnError(-1));
}

#[test]
fn after_attempt_steps() {
    assert_eq!(after_attempt(false, 0, 0), TryAction::GiveUp);
    assert_eq!(after_attempt(false, 0, 2), TryAction::Try(0));
    assert_eq!(after_attempt(false, 1, 2), TryAction::Try(1));
    assert_eq!(after_attempt(false, 2, 2), TryAction::GiveUp);
    assert_eq!(after_attempt(true, 1, 2), TryAction::Stop);
}

#[test]
fn hw_device_plan_order() {
    let supported = vec![HwDeviceType::Cuda, HwDeviceType::Vulkan];
    assert_eq!(
        hw_device_plan(&supported, Some(HwDeviceType::Vulkan)),
        vec![
            (HwDeviceType::Vulkan, HwDeviceAttempt::UseExisting),
            (HwDeviceType::Cuda, HwDeviceAttempt::Derive),
            (HwDeviceType::Cuda, HwDeviceAttempt::Create),
        ]
    );
    assert_eq!(
        hw_device_plan(&supported, None),
        vec![(HwDeviceType::Vulkan, HwDeviceAttempt::Create), (HwDeviceType::Cuda, HwDeviceAttempt::Create)]
    );
    assert!(hw_device_plan(&vec![HwDeviceType::Other(8)], None).is_empty());
}
