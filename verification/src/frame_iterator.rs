//! The decisions of the hardware-accelerated frame decoder: which hardware
//! devices to try, which pixel formats to try, and what to do next while
//! pulling a frame out of the decoder.
use vstd::prelude::*;
use crate::vulkan::errors::HWDeviceError;

verus! {

/// `AV_PIX_FMT_NONE`
pub const AV_PIX_FMT_NONE: i32 = -1;

/// `AV_CODEC_HW_CONFIG_METHOD_HW_DEVICE_CTX`
pub const AV_CODEC_HW_CONFIG_METHOD_HW_DEVICE_CTX: i32 = 0x01;

/// An FFmpeg hardware device type (`AVHWDeviceType`); those the decoder prefers
/// have a variant, any other is carried by its raw value.
#[derive(Debug, Clone, Copy, PartialEq, Eq, Structural)]
pub enum HwDeviceType {
    Vulkan,
    D3d12va,
    D3d11va,
    Vaapi,
    Cuda,
    Amf,
    Qsv,
    Other(i32),
}

/// The hardware device types to decode with, most preferred first.
pub open spec fn hw_decoders() -> Seq<HwDeviceType> {
    seq![
        HwDeviceType::Vulkan,
        HwDeviceType::D3d12va,
        HwDeviceType::D3d11va,
        HwDeviceType::Vaapi,
        HwDeviceType::Cuda,
        HwDeviceType::Amf,
        HwDeviceType::Qsv,
    ]
}

/// The elements of `order` that `supported` holds, in the order of `order`.
pub open spec fn keep_supported(order: Seq<HwDeviceType>, supported: Seq<HwDeviceType>) -> Seq<
    HwDeviceType,
>
    decreases order.len(),
{
    if order.len() == 0 {
        Seq::empty()
    } else {
        let rest = keep_supported(order.drop_last(), supported);
        if supported.contains(order.last()) {
            rest.push(order.last())
        } else {
            rest
        }
    }
}

/// Whether `supported` holds `ty`.
fn contains_device(supported: &Vec<HwDeviceType>, ty: HwDeviceType) -> (r: bool)
    ensures
        r == supported@.contains(ty),
{
    let mut i: usize = 0;
    while i < supported.len()
        invariant
            i <= supported.len(),
            forall|k: int| 0 <= k < i ==> supported@[k] != ty,
        decreases supported.len() - i,
    {
        if supported[i] == ty {
            return true;
        }
        i = i + 1;
    }
    false
}

/// The hardware device types to try for a codec whose hardware configurations
/// support the types in `supported`: the preferred types, in order of
/// preference, that the codec supports.
pub fn hw_decoder_candidates(supported: &Vec<HwDeviceType>) -> (r: Vec<HwDeviceType>)
    ensures
        r@ == keep_supported(hw_decoders(), supported@),
        r@ == seq![
            HwDeviceType::Vulkan,
            HwDeviceType::D3d12va,
            HwDeviceType::D3d11va,
            HwDeviceType::Vaapi,
            HwDeviceType::Cuda,
            HwDeviceType::Amf,
            HwDeviceType::Qsv,
        ].filter(|t: HwDeviceType| supported@.contains(t)),
{
    proof {
        hw_decoder_candidates_preference_order(supported@);
    }
    let order: [HwDeviceType; 7] = [
        HwDeviceType::Vulkan,
        HwDeviceType::D3d12va,
        HwDeviceType::D3d11va,
        HwDeviceType::Vaapi,
        HwDeviceType::Cuda,
        HwDeviceType::Amf,
        HwDeviceType::Qsv,
    ];
    assert(order@ =~= hw_decoders());
    let mut r: Vec<HwDeviceType> = Vec::new();
    let mut i: usize = 0;
    while i < 7
        invariant
            i <= 7,
            order@ == hw_decoders(),
            r@ == keep_supported(hw_decoders().take(i as int), supported@),
        decreases 7 - i,
    {
        assert(hw_decoders().take(i + 1).drop_last() =~= hw_decoders().take(i as int));
        let ty = order[i];
        if contains_device(supported, ty) {
            r.push(ty);
        }
        i = i + 1;
    }
    assert(hw_decoders().take(7) =~= hw_decoders());
    r
}

/// One way to give the decoder a hardware device of some type.
#[derive(Debug, Clone, Copy, PartialEq, Eq, Structural)]
pub enum HwDeviceAttempt {
    /// Share the device that was handed in; it is of the wanted type.
    UseExisting,
    /// Derive a device of the wanted type from the one handed in.
    Derive,
    /// Create a new device of the wanted type.
    Create,
}

/// How to get a device of type `ty`, in order, given the type of the device
/// that was handed in (if any): share it when it is of type `ty`, else derive
/// from it and then create; with none handed in, create.
pub open spec fn hw_device_attempts_spec(ty: HwDeviceType, existing: Option<HwDeviceType>) -> Seq<
    HwDeviceAttempt,
> {
    match existing {
        Some(t) => if t == ty {
            seq![HwDeviceAttempt::UseExisting]
        } else {
            seq![HwDeviceAttempt::Derive, HwDeviceAttempt::Create]
        },
        None => seq![HwDeviceAttempt::Create],
    }
}

/// The ways to try, in order, to give the decoder a device of type `ty`; the
/// first that works is kept.
pub fn hw_device_attempts(ty: HwDeviceType, existing: Option<HwDeviceType>) -> (r: Vec<
    HwDeviceAttempt,
>)
    ensures
        r@ == hw_device_attempts_spec(ty, existing),
{
    let mut r: Vec<HwDeviceAttempt> = Vec::new();
    match existing {
        Some(t) => {
            if t == ty {
                r.push(HwDeviceAttempt::UseExisting);
            } else {
                r.push(HwDeviceAttempt::Derive);
                r.push(HwDeviceAttempt::Create);
            }
        },
        None => {
            r.push(HwDeviceAttempt::Create);
        },
    }
    assert(r@ =~= hw_device_attempts_spec(ty, existing));
    r
}

/// What to do after one of a list of attempts, tried in order until one works.
#[derive(Debug, Clone, Copy, PartialEq, Eq, Structural)]
pub enum TryAction {
    /// An attempt worked: stop trying.
    Stop,
    /// Make the attempt at this index.
    Try(usize),
    /// Every attempt failed.
    GiveUp,
}

/// The next step of trying `len` attempts in order: stop once one works,
/// else make attempt `next`, or give up when none is left. The first step is
/// `after_attempt(false, 0, len)`.
pub fn after_attempt(succeeded: bool, next: usize, len: usize) -> (r: TryAction)
    ensures
        succeeded ==> r == TryAction::Stop,
        !succeeded && next < len ==> r == TryAction::Try(next),
        !succeeded && next >= len ==> r == TryAction::GiveUp,
{
    if succeeded {
        TryAction::Stop
    } else if next < len {
        TryAction::Try(next)
    } else {
        TryAction::GiveUp
    }
}

/// Every way to give the decoder a hardware device, in the order they are
/// tried: for each candidate type in turn, the attempts for that type.
pub open spec fn device_plan_spec(candidates: Seq<HwDeviceType>, existing: Option<HwDeviceType>) -> Seq<
    (HwDeviceType, HwDeviceAttempt),
>
    decreases candidates.len(),
{
    if candidates.len() == 0 {
        Seq::empty()
    } else {
        let ty = candidates.last();
        device_plan_spec(candidates.drop_last(), existing) + hw_device_attempts_spec(
            ty,
            existing,
        ).map_values(|a: HwDeviceAttempt| (ty, a))
    }
}

/// The attempts to give the decoder a hardware device, in order, for a codec
/// that supports the device types `supported`, given the type of the device
/// handed in (if any). The first that works is kept.
pub fn hw_device_plan(supported: &Vec<HwDeviceType>, existing: Option<HwDeviceType>) -> (r: Vec<
    (HwDeviceType, HwDeviceAttempt),
>)
    ensures
        r@ == device_plan_spec(keep_supported(hw_decoders(), supported@), existing),
{
    let candidates = hw_decoder_candidates(supported);
    let mut plan: Vec<(HwDeviceType, HwDeviceAttempt)> = Vec::new();
    let mut i: usize = 0;
    while i < candidates.len()
        invariant
            i <= candidates.len(),
            candidates@ == keep_supported(hw_decoders(), supported@),
            plan@ == device_plan_spec(candidates@.take(i as int), existing),
        decreases candidates.len() - i,
    {
        let ty = candidates[i];
        let attempts = hw_device_attempts(ty, existing);
        let ghost before = plan@;
        let mut k: usize = 0;
        while k < attempts.len()
            invariant
                k <= attempts.len(),
                attempts@ == hw_device_attempts_spec(ty, existing),
                plan@ == before + attempts@.take(k as int).map_values(
                    |a: HwDeviceAttempt| (ty, a),
                ),
            decreases attempts.len() - k,
        {
            plan.push((ty, attempts[k]));
            k = k + 1;
            assert(plan@ =~= before + attempts@.take(k as int).map_values(
                |a: HwDeviceAttempt| (ty, a),
            ));
        }
        assert(attempts@.take(attempts.len() as int) =~= attempts@);
        assert(candidates@.take(i + 1).drop_last() =~= candidates@.take(i as int));
        assert(candidates@.take(i + 1).last() == ty);
        i = i + 1;
    }
    assert(candidates@.take(candidates.len() as int) =~= candidates@);
    plan
}

/// What creating a hardware device context came to: the context, or FFmpeg's
/// error code when it is not zero.
pub fn hw_device_result(err: i32, ctx: usize) -> (r: Result<usize, HWDeviceError>)
    ensures
        err != 0 ==> r == Err::<usize, HWDeviceError>(HWDeviceError::FFmpeg(err)),
        err == 0 ==> r == Ok::<usize, HWDeviceError>(ctx),
{
    if err != 0 {
        return Err(HWDeviceError::FFmpeg(err));
    }
    Ok(ctx)
}

/// A hardware configuration of a codec (`AVCodecHWConfig`).
#[derive(Debug, Clone, Copy, PartialEq, Eq, Structural)]
pub struct HwConfig {
    /// The pixel format of frames decoded with this configuration.
    pub pix_fmt: i32,
    /// `AV_CODEC_HW_CONFIG_METHOD_*` flags.
    pub methods: i32,
    /// The device type the configuration needs.
    pub device_type: HwDeviceType,
}

/// The configuration can be set up through a device context of type `device`.
pub open spec fn config_fits(c: HwConfig, device: HwDeviceType) -> bool {
    c.methods & AV_CODEC_HW_CONFIG_METHOD_HW_DEVICE_CTX != 0 && c.device_type == device
}

/// The device types of the configurations that can be set up through a
/// device context, in the codec's order.
pub open spec fn device_types_of(configs: Seq<HwConfig>) -> Seq<HwDeviceType>
    decreases configs.len(),
{
    if configs.len() == 0 {
        Seq::empty()
    } else if configs.last().methods & AV_CODEC_HW_CONFIG_METHOD_HW_DEVICE_CTX != 0 {
        device_types_of(configs.drop_last()).push(configs.last().device_type)
    } else {
        device_types_of(configs.drop_last())
    }
}

/// The device types a codec supports through a device context, from its
/// hardware configurations.
pub fn supported_device_types(configs: &Vec<HwConfig>) -> (r: Vec<HwDeviceType>)
    ensures
        r@ == device_types_of(configs@),
{
    let mut r: Vec<HwDeviceType> = Vec::new();
    let mut i: usize = 0;
    while i < configs.len()
        invariant
            i <= configs.len(),
            r@ == device_types_of(configs@.take(i as int)),
        decreases configs.len() - i,
    {
        assert(configs@.take(i + 1).drop_last() =~= configs@.take(i as int));
        if configs[i].methods & AV_CODEC_HW_CONFIG_METHOD_HW_DEVICE_CTX != 0 {
            r.push(configs[i].device_type);
        }
        i = i + 1;
    }
    assert(configs@.take(configs.len() as int) =~= configs@);
    r
}

/// `fmt` once for each time `fmts` offers it.
pub open spec fn occurrences(fmts: Seq<i32>, fmt: i32) -> Seq<i32>
    decreases fmts.len(),
{
    if fmts.len() == 0 {
        Seq::empty()
    } else if fmts.last() == fmt {
        occurrences(fmts.drop_last(), fmt).push(fmt)
    } else {
        occurrences(fmts.drop_last(), fmt)
    }
}

/// The hardware pixel formats to set up, in order: for each configuration that
/// fits the device, in the codec's order, its format as often as the decoder
/// offers it.
pub open spec fn hw_format_candidates_spec(
    configs: Seq<HwConfig>,
    device: HwDeviceType,
    offered: Seq<i32>,
) -> Seq<i32>
    decreases configs.len(),
{
    if configs.len() == 0 {
        Seq::empty()
    } else {
        let rest = hw_format_candidates_spec(configs.drop_last(), device, offered);
        if config_fits(configs.last(), device) {
            rest + occurrences(offered, configs.last().pix_fmt)
        } else {
            rest
        }
    }
}

/// What the decoder's pixel format callback does.
#[derive(Debug, PartialEq, Eq)]
pub enum FormatPlan {
    /// The stream has no software format: answer `AV_PIX_FMT_NONE`.
    NoFormat,
    /// Set up frames for each candidate in turn and answer the first that
    /// works; if none does, answer `fallback` and decode in software.
    Try { candidates: Vec<i32>, fallback: i32 },
}

/// `fmt` once for each time `fmts` offers it.
fn collect_occurrences(fmts: &Vec<i32>, fmt: i32, out: &mut Vec<i32>)
    ensures
        final(out)@ == old(out)@ + occurrences(fmts@, fmt),
{
    let ghost start = out@;
    let mut p: usize = 0;
    while p < fmts.len()
        invariant
            p <= fmts.len(),
            out@ == start + occurrences(fmts@.take(p as int), fmt),
        decreases fmts.len() - p,
    {
        assert(fmts@.take(p + 1).drop_last() =~= fmts@.take(p as int));
        if fmts[p] == fmt {
            out.push(fmt);
        }
        p = p + 1;
        assert(out@ =~= start + occurrences(fmts@.take(p as int), fmt));
    }
    assert(fmts@.take(fmts.len() as int) =~= fmts@);
}

/// Plans the answer of the decoder's pixel format callback. `sw_pix_fmt` is the
/// codec's software format, `device` the type of the decoder's hardware device
/// (if it has one), `configs` the codec's hardware configurations and `offered`
/// the formats the decoder offers, up to `AV_PIX_FMT_NONE`.
pub fn plan_pixel_format(
    sw_pix_fmt: i32,
    device: Option<HwDeviceType>,
    configs: &Vec<HwConfig>,
    offered: &Vec<i32>,
) -> (r: FormatPlan)
    ensures
        sw_pix_fmt == AV_PIX_FMT_NONE ==> r == FormatPlan::NoFormat,
        sw_pix_fmt != AV_PIX_FMT_NONE ==> (r matches FormatPlan::Try { candidates, fallback }
            && fallback == sw_pix_fmt && candidates@ == match device {
            Some(d) => hw_format_candidates_spec(configs@, d, offered@),
            None => Seq::empty(),
        }),
{
    if sw_pix_fmt == AV_PIX_FMT_NONE {
        return FormatPlan::NoFormat;
    }
    let mut candidates: Vec<i32> = Vec::new();
    match device {
        Some(d) => {
            let mut i: usize = 0;
            while i < configs.len()
                invariant
                    i <= configs.len(),
                    candidates@ == hw_format_candidates_spec(configs@.take(i as int), d, offered@),
                decreases configs.len() - i,
            {
                assert(configs@.take(i + 1).drop_last() =~= configs@.take(i as int));
                let c = configs[i];
                if c.methods & AV_CODEC_HW_CONFIG_METHOD_HW_DEVICE_CTX != 0 && c.device_type == d {
                    collect_occurrences(offered, c.pix_fmt, &mut candidates);
                }
                i = i + 1;
            }
            assert(configs@.take(configs.len() as int) =~= configs@);
        },
        None => {},
    }
    FormatPlan::Try { candidates, fallback: sw_pix_fmt }
}

/// What happened at the last step of pulling a frame out of the decoder.
#[derive(Debug, Clone, Copy, PartialEq, Eq, Structural)]
pub enum DecoderEvent {
    /// The decoder handed out a frame.
    FrameReady,
    /// The decoder needs more input first (`EAGAIN`).
    NeedsInput,
    /// The decoder is drained.
    EndOfStream,
    /// Receiving a frame failed with this error code.
    ReceiveFailed(i32),
    /// The demuxer read a packet of this stream.
    Packet { stream_index: usize },
    /// The demuxer has no more packets.
    NoMorePackets,
    /// The decoder took the packet.
    PacketSent,
    /// The decoder refused the packet: it has reached its end.
    SendEndOfStream,
    /// Sending the packet failed with this error code.
    SendFailed(i32),
    /// The decoder took the end-of-stream signal and now drains.
    EofSent,
    /// Signalling the end of the stream failed with this error code.
    EofSendFailed(i32),
}

/// What to do next while pulling a frame out of the decoder.
#[derive(Debug, Clone, Copy, PartialEq, Eq, Structural)]
pub enum DecoderAction {
    /// Hand out the decoded frame.
    ReturnFrame,
    /// The stream is over: hand out nothing.
    ReturnEnd,
    /// Hand out this error.
    ReturnError(i32),
    /// Read the next packet from the demuxer.
    ReadPacket,
    /// Send the packet just read to the decoder.
    SendPacket,
    /// Ask the decoder for a frame.
    ReceiveFrame,
    /// Tell the decoder that no more packets will come.
    SendEof,
}

/// Decides the decoding loop's next action after `event`: packets of other
/// streams are skipped, a decoder that needs input is fed, and the end of the
/// demuxer's packets puts the decoder into draining.
pub fn next_action(stream_index: usize, event: DecoderEvent) -> (r: DecoderAction)
    ensures
        event == DecoderEvent::FrameReady ==> r == DecoderAction::ReturnFrame,
        event == DecoderEvent::NeedsInput ==> r == DecoderAction::ReadPacket,
        event == DecoderEvent::EndOfStream ==> r == DecoderAction::ReturnEnd,
        event matches DecoderEvent::ReceiveFailed(e) ==> r == DecoderAction::ReturnError(e),
        event matches DecoderEvent::Packet { stream_index: s } ==> r == if s == stream_index {
            DecoderAction::SendPacket
        } else {
            DecoderAction::ReceiveFrame
        },
        event == DecoderEvent::NoMorePackets ==> r == DecoderAction::SendEof,
        event == DecoderEvent::PacketSent ==> r == DecoderAction::ReceiveFrame,
        event == DecoderEvent::SendEndOfStream ==> r == DecoderAction::ReturnEnd,
        event matches DecoderEvent::SendFailed(e) ==> r == DecoderAction::ReturnError(e),
        event == DecoderEvent::EofSent ==> r == DecoderAction::ReceiveFrame,
        event matches DecoderEvent::EofSendFailed(e) ==> r == DecoderAction::ReturnError(e),
{
    match event {
        DecoderEvent::FrameReady => DecoderAction::ReturnFrame,
        DecoderEvent::NeedsInput => DecoderAction::ReadPacket,
        DecoderEvent::EndOfStream => DecoderAction::ReturnEnd,
        DecoderEvent::ReceiveFailed(e) => DecoderAction::ReturnError(e),
        DecoderEvent::Packet { stream_index: s } => if s == stream_index {
            DecoderAction::SendPacket
        } else {
            DecoderAction::ReceiveFrame
        },
        DecoderEvent::NoMorePackets => DecoderAction::SendEof,
        DecoderEvent::PacketSent => DecoderAction::ReceiveFrame,
        DecoderEvent::SendEndOfStream => DecoderAction::ReturnEnd,
        DecoderEvent::SendFailed(e) => DecoderAction::ReturnError(e),
        DecoderEvent::EofSent => DecoderAction::ReceiveFrame,
        DecoderEvent::EofSendFailed(e) => DecoderAction::ReturnError(e),
    }
}

/// The candidates are exactly the preferred device types that the codec
/// supports, in order of preference, each once.
pub proof fn hw_decoder_candidates_are_supported_preferences(supported: Seq<HwDeviceType>)
    ensures
        forall|t: HwDeviceType| #[trigger]
            keep_supported(hw_decoders(), supported).contains(t) <==> (hw_decoders().contains(t)
                && supported.contains(t)),
        forall|i: int, j: int|
            0 <= i < j < keep_supported(hw_decoders(), supported).len() ==> #[trigger] keep_supported(
                hw_decoders(),
                supported,
            )[i] != #[trigger] keep_supported(hw_decoders(), supported)[j],
{
    lemma_keep_supported(hw_decoders(), supported);
}

proof fn lemma_keep_supported(order: Seq<HwDeviceType>, supported: Seq<HwDeviceType>)
    requires
        forall|i: int, j: int| 0 <= i < j < order.len() ==> order[i] != order[j],
    ensures
        forall|t: HwDeviceType| #[trigger]
            keep_supported(order, supported).contains(t) <==> (order.contains(t) && supported.contains(t)),
        forall|i: int, j: int|
            0 <= i < j < keep_supported(order, supported).len() ==> #[trigger] keep_supported(
                order,
                supported,
            )[i] != #[trigger] keep_supported(order, supported)[j],
    decreases order.len(),
{
    if order.len() > 0 {
        let init = order.drop_last();
        lemma_keep_supported(init, supported);
        let rest = keep_supported(init, supported);
        let x = order.last();
        assert(order =~= init.push(x));
        assert forall|t: HwDeviceType| #[trigger] order.contains(t) <==> (init.contains(t) || t == x) by {
            if order.contains(t) {
                let k = choose|k: int| 0 <= k < order.len() && order[k] == t;
                if k < init.len() {
                    assert(init[k] == t);
                }
            }
            if init.contains(t) {
                let k = choose|k: int| 0 <= k < init.len() && init[k] == t;
                assert(order[k] == t);
            }
            if t == x {
                assert(order[order.len() - 1] == t);
            }
        }
        if supported.contains(x) {
            let r = rest.push(x);
            assert(!init.contains(x)) by {
                if init.contains(x) {
                    let k = choose|k: int| 0 <= k < init.len() && init[k] == x;
                    assert(order[k] == order[order.len() - 1]);
                }
            }
            assert forall|t: HwDeviceType| #[trigger] r.contains(t) <==> (rest.contains(t) || t == x) by {
                if r.contains(t) {
                    let k = choose|k: int| 0 <= k < r.len() && r[k] == t;
                    if k < rest.len() {
                        assert(rest[k] == t);
                    }
                }
                if rest.contains(t) {
                    let k = choose|k: int| 0 <= k < rest.len() && rest[k] == t;
                    assert(r[k] == t);
                }
                if t == x {
                    assert(r[rest.len() as int] == t);
                }
            }
            assert forall|i: int, j: int| 0 <= i < j < r.len() implies #[trigger] r[i] != #[trigger] r[j] by {
                if j == rest.len() {
                    assert(rest.contains(r[i]));
                }
            }
        }
    }
}

/// Every pixel format the callback tries to set up is one the decoder offers
/// and the format of a hardware configuration that fits the device.
pub proof fn hw_format_candidates_are_offered(
    configs: Seq<HwConfig>,
    device: HwDeviceType,
    offered: Seq<i32>,
)
    ensures
        forall|k: int|
            0 <= k < hw_format_candidates_spec(configs, device, offered).len() ==> offered.contains(
                #[trigger] hw_format_candidates_spec(configs, device, offered)[k],
            ) && exists|c: int|
                0 <= c < configs.len() && config_fits(configs[c], device) && configs[c].pix_fmt
                    == hw_format_candidates_spec(configs, device, offered)[k],
    decreases configs.len(),
{
    if configs.len() > 0 {
        let init = configs.drop_last();
        hw_format_candidates_are_offered(init, device, offered);
        let rest = hw_format_candidates_spec(init, device, offered);
        let last = configs.last();
        let all = hw_format_candidates_spec(configs, device, offered);
        if config_fits(last, device) {
            lemma_occurrences(offered, last.pix_fmt);
        }
        assert forall|k: int| 0 <= k < all.len() implies offered.contains(#[trigger] all[k]) && exists|c: int|
            0 <= c < configs.len() && config_fits(configs[c], device) && configs[c].pix_fmt == all[k] by {
            if k < rest.len() {
                assert(all[k] == rest[k]);
                let c = choose|c: int|
                    0 <= c < init.len() && config_fits(init[c], device) && init[c].pix_fmt == rest[k];
                assert(configs[c] == init[c]);
            } else {
                assert(config_fits(last, device));
                assert(all[k] == occurrences(offered, last.pix_fmt)[k - rest.len()]);
                assert(configs[configs.len() - 1] == last);
            }
        }
    }
}

proof fn lemma_occurrences(fmts: Seq<i32>, fmt: i32)
    ensures
        forall|k: int| 0 <= k < occurrences(fmts, fmt).len() ==> #[trigger] occurrences(fmts, fmt)[k] == fmt,
        occurrences(fmts, fmt).len() > 0 ==> fmts.contains(fmt),
    decreases fmts.len(),
{
    if fmts.len() > 0 {
        lemma_occurrences(fmts.drop_last(), fmt);
        if occurrences(fmts.drop_last(), fmt).len() > 0 {
            let k = choose|k: int| 0 <= k < fmts.drop_last().len() && fmts.drop_last()[k] == fmt;
            assert(fmts[k] == fmt);
        }
        if fmts.last() == fmt {
            assert(fmts[fmts.len() - 1] == fmt);
        }
    }
}

proof fn lemma_keep_supported_is_filter(order: Seq<HwDeviceType>, supported: Seq<HwDeviceType>)
    ensures
        keep_supported(order, supported) == order.filter(|t: HwDeviceType| supported.contains(t)),
    decreases order.len(),
{
    reveal(Seq::filter);
    if order.len() > 0 {
        lemma_keep_supported_is_filter(order.drop_last(), supported);
    }
}

/// The decoder tries the supported device types in this fixed order of
/// preference: Vulkan, D3D12VA, D3D11VA, VAAPI, CUDA, AMF, QSV, leaving out
/// those the codec does not support; a supported Vulkan device always comes
/// first.
pub proof fn hw_decoder_candidates_preference_order(supported: Seq<HwDeviceType>)
    ensures
        keep_supported(hw_decoders(), supported) == seq![
            HwDeviceType::Vulkan,
            HwDeviceType::D3d12va,
            HwDeviceType::D3d11va,
            HwDeviceType::Vaapi,
            HwDeviceType::Cuda,
            HwDeviceType::Amf,
            HwDeviceType::Qsv,
        ].filter(|t: HwDeviceType| supported.contains(t)),
        supported.contains(HwDeviceType::Vulkan) ==> keep_supported(hw_decoders(), supported).len() > 0
            && keep_supported(hw_decoders(), supported)[0] == HwDeviceType::Vulkan,
{
    lemma_keep_supported_is_filter(hw_decoders(), supported);
    let l = seq![
        HwDeviceType::Vulkan,
        HwDeviceType::D3d12va,
        HwDeviceType::D3d11va,
        HwDeviceType::Vaapi,
        HwDeviceType::Cuda,
        HwDeviceType::Amf,
        HwDeviceType::Qsv,
    ];
    assert(hw_decoders() =~= l);
    if supported.contains(HwDeviceType::Vulkan) {
        lemma_filter_keeps_first(l, |t: HwDeviceType| supported.contains(t));
    }
}

proof fn lemma_filter_keeps_first(s: Seq<HwDeviceType>, pred: spec_fn(HwDeviceType) -> bool)
    requires
        s.len() > 0,
        pred(s[0]),
    ensures
        s.filter(pred).len() > 0,
        s.filter(pred)[0] == s[0],
    decreases s.len(),
{
    reveal(Seq::filter);
    let sub = s.drop_last().filter(pred);
    assert(s.filter(pred) == if pred(s.last()) {
        sub.push(s.last())
    } else {
        sub
    });
    if s.len() > 1 {
        lemma_filter_keeps_first(s.drop_last(), pred);
        assert(s.drop_last()[0] == s[0]);
    } else {
        assert(s.drop_last() =~= Seq::<HwDeviceType>::empty());
        assert(sub =~= Seq::<HwDeviceType>::empty());
        assert(s.last() == s[0]);
    }
}

} // verus!
