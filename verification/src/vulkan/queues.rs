//! Choosing the queue families that egui, FFmpeg and libplacebo share.
use vstd::prelude::*;
use crate::vulkan::errors::WgpuInitError;
use crate::libplacebo::vulkan::VkQueueFamily;

verus! {

/// `VK_QUEUE_GRAPHICS_BIT`
pub const QUEUE_GRAPHICS: u32 = 0x1;
/// `VK_QUEUE_COMPUTE_BIT`
pub const QUEUE_COMPUTE: u32 = 0x2;
/// `VK_QUEUE_TRANSFER_BIT`
pub const QUEUE_TRANSFER: u32 = 0x4;
/// `VK_QUEUE_VIDEO_DECODE_BIT_KHR`
pub const QUEUE_VIDEO_DECODE: u32 = 0x20;

/// A queue family as FFmpeg's Vulkan device context describes it
/// (`AVVulkanDeviceQueueFamily`).
#[derive(Debug, Clone, Copy, PartialEq, Eq, Structural)]
pub struct QueueFamily {
    /// Index of the family on the physical device.
    pub idx: i32,
    /// Number of queues the family offers.
    pub num: i32,
    /// `VkQueueFlags` of the family.
    pub flags: u32,
    /// `VkVideoCodecOperationFlagsKHR` the family supports.
    pub video_caps: i32,
}

/// Every bit of `wanted` is set in `flags`.
pub open spec fn has_flags(flags: u32, wanted: u32) -> bool {
    flags & wanted == wanted
}

/// Whether `ash::vk::QueueFlags::contains` holds of two raw flag sets.
///
/// Calls `ash::vk::QueueFlags::contains`, whose source is `self.0 & other.0 == other.0`;
/// the contract states exactly that.
#[verifier::external_body]
fn queue_flags_contain(flags: u32, wanted: u32) -> (r: bool)
    ensures
        r == has_flags(flags, wanted),
{
    ash::vk::QueueFlags::from_raw(flags).contains(ash::vk::QueueFlags::from_raw(wanted))
}

/// The family at `i` is not in `excluded` and supports `wanted`.
pub open spec fn is_candidate(
    fams: Seq<QueueFamily>,
    i: int,
    wanted: u32,
    excluded: Seq<QueueFamily>,
) -> bool {
    &&& 0 <= i < fams.len()
    &&& !excluded.contains(fams[i])
    &&& has_flags(fams[i].flags, wanted)
}

/// Index of the first family at or after `start` that is a candidate.
pub open spec fn first_candidate(
    fams: Seq<QueueFamily>,
    start: int,
    wanted: u32,
    excluded: Seq<QueueFamily>,
) -> Option<int>
    decreases fams.len() - start,
{
    if start < 0 || start >= fams.len() {
        None
    } else if is_candidate(fams, start, wanted, excluded) {
        Some(start)
    } else {
        first_candidate(fams, start + 1, wanted, excluded)
    }
}

/// `chosen` extended by the first family that supports `wanted` and is not
/// already chosen, if there is one.
pub open spec fn add_wanted(fams: Seq<QueueFamily>, chosen: Seq<QueueFamily>, wanted: u32) -> Seq<
    QueueFamily,
> {
    match first_candidate(fams, 0, wanted, chosen) {
        Some(i) => chosen.push(fams[i]),
        None => chosen,
    }
}

/// The families the shared device is created with: the first graphics family,
/// then, in this order, a further family for video decode, compute and transfer
/// where one exists; `None` when no family supports graphics.
pub open spec fn selected_queues(fams: Seq<QueueFamily>) -> Option<Seq<QueueFamily>> {
    match first_candidate(fams, 0, QUEUE_GRAPHICS, Seq::empty()) {
        None => None,
        Some(g) => Some(
            add_wanted(
                fams,
                add_wanted(fams, add_wanted(fams, seq![fams[g]], QUEUE_VIDEO_DECODE), QUEUE_COMPUTE),
                QUEUE_TRANSFER,
            ),
        ),
    }
}

proof fn lemma_first_candidate_props(
    fams: Seq<QueueFamily>,
    start: int,
    wanted: u32,
    excluded: Seq<QueueFamily>,
)
    requires
        0 <= start,
    ensures
        match first_candidate(fams, start, wanted, excluded) {
            Some(i) => start <= i && is_candidate(fams, i, wanted, excluded) && forall|j: int|
                start <= j < i ==> !is_candidate(fams, j, wanted, excluded),
            None => forall|j: int| start <= j < fams.len() ==> !is_candidate(fams, j, wanted, excluded),
        },
    decreases fams.len() - start,
{
    if start < fams.len() && !is_candidate(fams, start, wanted, excluded) {
        lemma_first_candidate_props(fams, start + 1, wanted, excluded);
    }
}

/// Finds the first family at or after `start` that supports `wanted` and is
/// not in `excluded`.
fn find_candidate(
    fams: &Vec<QueueFamily>,
    start: usize,
    wanted: u32,
    excluded: &Vec<QueueFamily>,
) -> (r: Option<usize>)
    ensures
        r matches Some(i) ==> start <= i < fams.len(),
        match r {
            Some(i) => first_candidate(fams@, start as int, wanted, excluded@) == Some(i as int),
            None => first_candidate(fams@, start as int, wanted, excluded@) is None,
        },
{
    let mut i = start;
    while i < fams.len()
        invariant
            start <= i,
            first_candidate(fams@, start as int, wanted, excluded@) == first_candidate(
                fams@,
                i as int,
                wanted,
                excluded@,
            ),
        decreases fams.len() - i,
    {
        let fam = fams[i];
        if !contains_family(excluded, &fam) && queue_flags_contain(fam.flags, wanted) {
            proof {
                lemma_first_candidate_props(fams@, i as int, wanted, excluded@);
            }
            return Some(i);
        }
        i = i + 1;
    }
    None
}

/// Whether `fam` occurs in `fams`.
fn contains_family(fams: &Vec<QueueFamily>, fam: &QueueFamily) -> (r: bool)
    ensures
        r == fams@.contains(*fam),
{
    let mut i: usize = 0;
    while i < fams.len()
        invariant
            i <= fams.len(),
            forall|j: int| 0 <= j < i ==> fams@[j] != *fam,
        decreases fams.len() - i,
    {
        if fams[i] == *fam {
            return true;
        }
        i = i + 1;
    }
    false
}

/// Selects the queue families that egui, FFmpeg and libplacebo need: the first
/// graphics family, then one further family each for video decode, compute and
/// transfer where one exists.
pub fn select_queues(queue_families: &Vec<QueueFamily>) -> (r: Result<
    Vec<QueueFamily>,
    WgpuInitError,
>)
    ensures
        match r {
            Ok(families) => selected_queues(queue_families@) == Some(families@),
            Err(e) => selected_queues(queue_families@) is None && e == WgpuInitError::DeviceGraphicsQueue,
        },
        r is Err <==> forall|i: int|
            0 <= i < queue_families@.len() ==> !has_flags(#[trigger] queue_families@[i].flags, QUEUE_GRAPHICS),
{
    let empty: Vec<QueueFamily> = Vec::new();
    proof {
        lemma_first_candidate_props(queue_families@, 0, QUEUE_GRAPHICS, empty@);
    }
    let graphics = match find_candidate(queue_families, 0, QUEUE_GRAPHICS, &empty) {
        Some(g) => g,
        None => {
            assert forall|i: int| 0 <= i < queue_families@.len() implies !has_flags(
                #[trigger] queue_families@[i].flags,
                QUEUE_GRAPHICS,
            ) by {
                assert(!is_candidate(queue_families@, i, QUEUE_GRAPHICS, empty@));
            }
            return Err(WgpuInitError::DeviceGraphicsQueue);
        },
    };
    let mut families: Vec<QueueFamily> = Vec::new();
    families.push(queue_families[graphics]);
    assert(families@ =~= seq![queue_families@[graphics as int]]);
    let wanted_queues: [u32; 3] = [QUEUE_VIDEO_DECODE, QUEUE_COMPUTE, QUEUE_TRANSFER];
    let ghost start = families@;
    let mut k: usize = 0;
    while k < 3
        invariant
            k <= 3,
            wanted_queues@ == seq![QUEUE_VIDEO_DECODE, QUEUE_COMPUTE, QUEUE_TRANSFER],
            k == 0 ==> families@ == start,
            k == 1 ==> families@ == add_wanted(queue_families@, start, QUEUE_VIDEO_DECODE),
            k == 2 ==> families@ == add_wanted(
                queue_families@,
                add_wanted(queue_families@, start, QUEUE_VIDEO_DECODE),
                QUEUE_COMPUTE,
            ),
            k == 3 ==> families@ == add_wanted(
                queue_families@,
                add_wanted(
                    queue_families@,
                    add_wanted(queue_families@, start, QUEUE_VIDEO_DECODE),
                    QUEUE_COMPUTE,
                ),
                QUEUE_TRANSFER,
            ),
        decreases 3 - k,
    {
        let wanted = wanted_queues[k];
        proof {
            lemma_first_candidate_props(queue_families@, 0, wanted, families@);
        }
        match find_candidate(queue_families, 0, wanted, &families) {
            Some(i) => {
                families.push(queue_families[i]);
            },
            None => {},
        }
        k = k + 1;
    }
    Ok(families)
}


impl QueueFamily {
    /// The family at `idx` of a physical device, from its queue count, its
    /// flags and, where the driver reported them, its video codec operations.
    pub fn from_properties(idx: usize, queue_count: u32, flags: u32, video_ops: Option<u32>) -> (r:
        QueueFamily)
        ensures
            r.idx == idx as i32,
            r.num == queue_count as i32,
            r.flags == flags,
            r.video_caps == match video_ops {
                Some(ops) => ops as i32,
                None => 0i32,
            },
    {
        let video_caps: i32 = match video_ops {
            Some(ops) => ops as i32,
            None => 0,
        };
        QueueFamily { idx: idx as i32, num: queue_count as i32, flags, video_caps }
    }
}

/// The first family of the selection that supports graphics, the one wgpu's
/// device runs on.
pub fn graphics_queue_of(selected: &Vec<QueueFamily>) -> (r: Result<QueueFamily, WgpuInitError>)
    ensures
        match first_candidate(selected@, 0, QUEUE_GRAPHICS, Seq::empty()) {
            Some(i) => r == Ok::<QueueFamily, WgpuInitError>(selected@[i]),
            None => r == Err::<QueueFamily, WgpuInitError>(WgpuInitError::DeviceGraphicsQueue),
        },
{
    let empty: Vec<QueueFamily> = Vec::new();
    proof {
        lemma_first_candidate_props(selected@, 0, QUEUE_GRAPHICS, empty@);
    }
    match find_candidate(selected, 0, QUEUE_GRAPHICS, &empty) {
        Some(i) => Ok(selected[i]),
        None => Err(WgpuInitError::DeviceGraphicsQueue),
    }
}

/// A family in libplacebo's terms.
pub open spec fn as_vk_queue_family(f: QueueFamily) -> VkQueueFamily {
    VkQueueFamily { index: f.idx as u32, count: f.num as u32 }
}

/// Indices of the families libplacebo is given, searching the device's
/// families in one pass: the first graphics family, then the first compute
/// family after it, then the first transfer family after that (none if no
/// compute family was found).
pub open spec fn placebo_queue_indices(fams: Seq<QueueFamily>) -> (int, Option<int>, Option<int>) {
    let g = first_candidate(fams, 0, QUEUE_GRAPHICS, Seq::empty()).unwrap();
    let c = first_candidate(fams, g + 1, QUEUE_COMPUTE, Seq::empty());
    let t = match c {
        Some(ci) => first_candidate(fams, ci + 1, QUEUE_TRANSFER, Seq::empty()),
        None => None,
    };
    (g, c, t)
}

/// The graphics, compute and transfer families that libplacebo is given out
/// of the device's families; a graphics family must exist.
pub fn placebo_queues(families: &Vec<QueueFamily>) -> (r: (
    VkQueueFamily,
    Option<VkQueueFamily>,
    Option<VkQueueFamily>,
))
    requires
        exists|i: int| 0 <= i < families@.len() && has_flags(#[trigger] families@[i].flags, QUEUE_GRAPHICS),
    ensures
        ({
            let (g, c, t) = placebo_queue_indices(families@);
            &&& r.0 == as_vk_queue_family(families@[g])
            &&& r.1 == match c {
                Some(ci) => Some(as_vk_queue_family(families@[ci])),
                None => None,
            }
            &&& r.2 == match t {
                Some(ti) => Some(as_vk_queue_family(families@[ti])),
                None => None,
            }
        }),
{
    let empty: Vec<QueueFamily> = Vec::new();
    proof {
        lemma_first_candidate_props(families@, 0, QUEUE_GRAPHICS, empty@);
        let i = choose|i: int| 0 <= i < families@.len() && has_flags(#[trigger] families@[i].flags, QUEUE_GRAPHICS);
        assert(is_candidate(families@, i, QUEUE_GRAPHICS, empty@));
    }
    let g = match find_candidate(families, 0, QUEUE_GRAPHICS, &empty) {
        Some(g) => g,
        None => {
            assert(false);
            0
        },
    };
    let gq = families[g];
    let graphics = VkQueueFamily { index: gq.idx as u32, count: gq.num as u32 };
    proof {
        lemma_first_candidate_props(families@, g + 1, QUEUE_COMPUTE, empty@);
    }
    let compute_index = find_candidate(families, g + 1, QUEUE_COMPUTE, &empty);
    match compute_index {
        Some(c) => {
            let cq = families[c];
            let compute = VkQueueFamily { index: cq.idx as u32, count: cq.num as u32 };
            proof {
                lemma_first_candidate_props(families@, c + 1, QUEUE_TRANSFER, empty@);
            }
            let transfer = match find_candidate(families, c + 1, QUEUE_TRANSFER, &empty) {
                Some(t) => {
                    let tq = families[t];
                    Some(VkQueueFamily { index: tq.idx as u32, count: tq.num as u32 })
                },
                None => None,
            };
            (graphics, Some(compute), transfer)
        },
        None => (graphics, None, None),
    }
}

/// What the selection holds: the first graphics family first, no family twice,
/// at most one family per purpose, and only families of the device.
pub proof fn selected_queues_are_distinct(fams: Seq<QueueFamily>)
    requires
        selected_queues(fams) is Some,
    ensures
        ({
            let s = selected_queues(fams).unwrap();
            &&& 1 <= s.len() <= 4
            &&& has_flags(s[0].flags, QUEUE_GRAPHICS)
            &&& forall|i: int, j: int| 0 <= i < j < s.len() ==> s[i] != s[j]
            &&& forall|i: int| 0 <= i < s.len() ==> fams.contains(#[trigger] s[i])
        }),
{
    let e = Seq::<QueueFamily>::empty();
    lemma_first_candidate_props(fams, 0, QUEUE_GRAPHICS, e);
    let g = first_candidate(fams, 0, QUEUE_GRAPHICS, e).unwrap();
    let s0 = seq![fams[g]];
    assert(fams.contains(fams[g]));
    lemma_add_wanted(fams, s0, QUEUE_VIDEO_DECODE);
    let s1 = add_wanted(fams, s0, QUEUE_VIDEO_DECODE);
    lemma_add_wanted(fams, s1, QUEUE_COMPUTE);
    let s2 = add_wanted(fams, s1, QUEUE_COMPUTE);
    lemma_add_wanted(fams, s2, QUEUE_TRANSFER);
}

proof fn lemma_add_wanted(fams: Seq<QueueFamily>, chosen: Seq<QueueFamily>, wanted: u32)
    requires
        chosen.len() >= 1,
        forall|i: int, j: int| 0 <= i < j < chosen.len() ==> chosen[i] != chosen[j],
        forall|i: int| 0 <= i < chosen.len() ==> fams.contains(#[trigger] chosen[i]),
    ensures
        ({
            let s = add_wanted(fams, chosen, wanted);
            &&& chosen.len() <= s.len() <= chosen.len() + 1
            &&& s.take(chosen.len() as int) == chosen
            &&& forall|i: int, j: int| 0 <= i < j < s.len() ==> s[i] != s[j]
            &&& forall|i: int| 0 <= i < s.len() ==> fams.contains(#[trigger] s[i])
        }),
{
    lemma_first_candidate_props(fams, 0, wanted, chosen);
    let s = add_wanted(fams, chosen, wanted);
    match first_candidate(fams, 0, wanted, chosen) {
        Some(k) => {
            assert(fams.contains(fams[k]));
            assert forall|i: int, j: int| 0 <= i < j < s.len() implies s[i] != s[j] by {
                if j == chosen.len() {
                    assert(chosen.contains(s[i]));
                }
            }
            assert(s.take(chosen.len() as int) =~= chosen);
        },
        None => {
            assert(s.take(chosen.len() as int) =~= chosen);
        },
    }
}
/// The selection starts with the first family that supports graphics (bit
/// `0x1`), and it exists exactly when some family does. When another family
/// supports video decode (bit `0x20`), the first such family comes second,
/// chosen on that bit alone.
pub proof fn selected_queues_graphics_then_decode(fams: Seq<QueueFamily>)
    ensures
        selected_queues(fams) is Some <==> exists|i: int| 0 <= i < fams.len() && #[trigger] fams[i].flags & 0x1u32 == 0x1u32,
        selected_queues(fams) matches Some(s) ==> exists|g: int|
            0 <= g < fams.len() && s.len() >= 1 && s[0] == fams[g] && fams[g].flags & 0x1u32 == 0x1u32
                && forall|j: int| 0 <= j < g ==> #[trigger] fams[j].flags & 0x1u32 != 0x1u32,
        selected_queues(fams) matches Some(s) ==> ((exists|v: int|
            0 <= v < fams.len() && #[trigger] fams[v].flags & 0x20u32 == 0x20u32 && fams[v] != s[0]) ==> (
        s.len() >= 2 && exists|v: int|
            0 <= v < fams.len() && s[1] == fams[v] && fams[v].flags & 0x20u32 == 0x20u32 && fams[v]
                != s[0] && forall|u: int|
                0 <= u < v ==> !(#[trigger] fams[u].flags & 0x20u32 == 0x20u32 && fams[u] != s[0]))),
{
    let e = Seq::<QueueFamily>::empty();
    lemma_first_candidate_props(fams, 0, QUEUE_GRAPHICS, e);
    match first_candidate(fams, 0, QUEUE_GRAPHICS, e) {
        None => {
            assert forall|i: int| 0 <= i < fams.len() implies !(#[trigger] fams[i].flags & 0x1u32 == 0x1u32) by {
                assert(!is_candidate(fams, i, QUEUE_GRAPHICS, e));
            }
        },
        Some(g) => {
            let s = selected_queues(fams).unwrap();
            assert(is_candidate(fams, g, QUEUE_GRAPHICS, e));
            assert forall|j: int| 0 <= j < g implies #[trigger] fams[j].flags & 0x1u32 != 0x1u32 by {
                assert(!is_candidate(fams, j, QUEUE_GRAPHICS, e));
            }
            let s0 = seq![fams[g]];
            assert(fams.contains(fams[g]));
            lemma_add_wanted(fams, s0, QUEUE_VIDEO_DECODE);
            let s1 = add_wanted(fams, s0, QUEUE_VIDEO_DECODE);
            lemma_add_wanted(fams, s1, QUEUE_COMPUTE);
            let s2 = add_wanted(fams, s1, QUEUE_COMPUTE);
            lemma_add_wanted(fams, s2, QUEUE_TRANSFER);
            assert(s == add_wanted(fams, s2, QUEUE_TRANSFER));
            assert(s.take(s2.len() as int) == s2);
            assert(s2.take(s1.len() as int) == s1);
            assert(s[0] == s0[0]) by {
                assert(s1.take(1) == s0);
                assert(s[0] == s.take(s2.len() as int)[0]);
                assert(s2[0] == s2.take(s1.len() as int)[0]);
                assert(s1[0] == s1.take(1)[0]);
            }
            lemma_first_candidate_props(fams, 0, QUEUE_VIDEO_DECODE, s0);
            assert forall|f: QueueFamily| s0.contains(f) <==> f == fams[g] by {
                if s0.contains(f) {
                    let k = choose|k: int| 0 <= k < s0.len() && s0[k] == f;
                }
                if f == fams[g] {
                    assert(s0[0] == f);
                }
            }
            if exists|v: int| 0 <= v < fams.len() && #[trigger] fams[v].flags & 0x20u32 == 0x20u32 && fams[v] != s[0] {
                let v = choose|v: int| 0 <= v < fams.len() && #[trigger] fams[v].flags & 0x20u32 == 0x20u32 && fams[v] != s[0];
                assert(is_candidate(fams, v, QUEUE_VIDEO_DECODE, s0));
                let d = first_candidate(fams, 0, QUEUE_VIDEO_DECODE, s0).unwrap();
                assert(s1 == s0.push(fams[d]));
                assert(s[1] == s1[1]) by {
                    assert(s[1] == s.take(s2.len() as int)[1]);
                    assert(s2[1] == s2.take(s1.len() as int)[1]);
                }
                assert forall|u: int|
                    0 <= u < d implies !(#[trigger] fams[u].flags & 0x20u32 == 0x20u32 && fams[u] != s[0]) by {
                    assert(!is_candidate(fams, u, QUEUE_VIDEO_DECODE, s0));
                }
            }
        },
    }
}

proof fn lemma_add_wanted_covers(fams: Seq<QueueFamily>, chosen: Seq<QueueFamily>, wanted: u32)
    ensures
        ({
            let s = add_wanted(fams, chosen, wanted);
            &&& chosen.len() <= s.len() <= chosen.len() + 1
            &&& forall|i: int| 0 <= i < chosen.len() ==> s[i] == chosen[i]
            &&& s.len() == chosen.len() + 1 ==> has_flags(s[chosen.len() as int].flags, wanted)
            &&& (exists|f: int| 0 <= f < fams.len() && has_flags(#[trigger] fams[f].flags, wanted))
                ==> exists|i: int| 0 <= i < s.len() && has_flags(#[trigger] s[i].flags, wanted)
        }),
{
    lemma_first_candidate_props(fams, 0, wanted, chosen);
    let s = add_wanted(fams, chosen, wanted);
    if exists|f: int| 0 <= f < fams.len() && has_flags(#[trigger] fams[f].flags, wanted) {
        let f = choose|f: int| 0 <= f < fams.len() && has_flags(#[trigger] fams[f].flags, wanted);
        match first_candidate(fams, 0, wanted, chosen) {
            Some(k) => {
                assert(has_flags(s[chosen.len() as int].flags, wanted));
            },
            None => {
                assert(!is_candidate(fams, f, wanted, chosen));
                let i = choose|i: int| 0 <= i < chosen.len() && chosen[i] == fams[f];
                assert(s[i] == chosen[i]);
            },
        }
    }
}

/// For each of video decode (`0x20`), compute (`0x2`) and transfer (`0x4`):
/// when some family of the device supports it, some chosen family does; and
/// every family chosen after the graphics family supports one of them.
pub proof fn selected_queues_cover_each_purpose(fams: Seq<QueueFamily>)
    ensures
        selected_queues(fams) matches Some(s) ==> forall|i: int|
            1 <= i < s.len() ==> (#[trigger] s[i].flags & 0x20u32 == 0x20u32 || s[i].flags & 0x2u32
                == 0x2u32 || s[i].flags & 0x4u32 == 0x4u32),
        selected_queues(fams) matches Some(s) ==> forall|f: int|
            0 <= f < fams.len() && #[trigger] fams[f].flags & 0x20u32 == 0x20u32 ==> exists|i: int|
                0 <= i < s.len() && #[trigger] s[i].flags & 0x20u32 == 0x20u32,
        selected_queues(fams) matches Some(s) ==> forall|f: int|
            0 <= f < fams.len() && #[trigger] fams[f].flags & 0x2u32 == 0x2u32 ==> exists|i: int|
                0 <= i < s.len() && #[trigger] s[i].flags & 0x2u32 == 0x2u32,
        selected_queues(fams) matches Some(s) ==> forall|f: int|
            0 <= f < fams.len() && #[trigger] fams[f].flags & 0x4u32 == 0x4u32 ==> exists|i: int|
                0 <= i < s.len() && #[trigger] s[i].flags & 0x4u32 == 0x4u32,
{
    let e = Seq::<QueueFamily>::empty();
    lemma_first_candidate_props(fams, 0, QUEUE_GRAPHICS, e);
    if let Some(g) = first_candidate(fams, 0, QUEUE_GRAPHICS, e) {
        let s0 = seq![fams[g]];
        lemma_add_wanted_covers(fams, s0, QUEUE_VIDEO_DECODE);
        let s1 = add_wanted(fams, s0, QUEUE_VIDEO_DECODE);
        lemma_add_wanted_covers(fams, s1, QUEUE_COMPUTE);
        let s2 = add_wanted(fams, s1, QUEUE_COMPUTE);
        lemma_add_wanted_covers(fams, s2, QUEUE_TRANSFER);
        let s = add_wanted(fams, s2, QUEUE_TRANSFER);
        assert(selected_queues(fams) == Some(s));
        assert forall|i: int| 1 <= i < s.len() implies (#[trigger] s[i].flags & 0x20u32 == 0x20u32
            || s[i].flags & 0x2u32 == 0x2u32 || s[i].flags & 0x4u32 == 0x4u32) by {
            if i < s1.len() {
                assert(s[i] == s2[i] && s2[i] == s1[i]);
                assert(has_flags(s1[i].flags, QUEUE_VIDEO_DECODE));
            } else if i < s2.len() {
                assert(s[i] == s2[i]);
                assert(has_flags(s2[i].flags, QUEUE_COMPUTE));
            } else {
                assert(has_flags(s[i].flags, QUEUE_TRANSFER));
            }
        }
        assert(forall|i: int|
                1 <= i < s.len() ==> (#[trigger] s[i].flags & 0x20u32 == 0x20u32 || s[i].flags & 0x2u32
                    == 0x2u32 || s[i].flags & 0x4u32 == 0x4u32));
        let t = selected_queues(fams).unwrap();
        assert(t == s);
        assert forall|f: int|
            0 <= f < fams.len() && #[trigger] fams[f].flags & 0x20u32 == 0x20u32 implies exists|i: int|
                0 <= i < t.len() && #[trigger] t[i].flags & 0x20u32 == 0x20u32 by {
            assert(has_flags(fams[f].flags, QUEUE_VIDEO_DECODE));
            let i = choose|i: int| 0 <= i < s1.len() && has_flags(#[trigger] s1[i].flags, 0x20u32);
            assert(t[i] == s[i] && s[i] == s2[i] && s2[i] == s1[i]);
            assert(t[i].flags & 0x20u32 == 0x20u32);
            assert(exists|i: int| 0 <= i < t.len() && #[trigger] t[i].flags & 0x20u32 == 0x20u32);
        }
        assert forall|f: int|
            0 <= f < fams.len() && #[trigger] fams[f].flags & 0x2u32 == 0x2u32 implies exists|i: int|
                0 <= i < t.len() && #[trigger] t[i].flags & 0x2u32 == 0x2u32 by {
            assert(has_flags(fams[f].flags, QUEUE_COMPUTE));
            let i = choose|i: int| 0 <= i < s2.len() && has_flags(#[trigger] s2[i].flags, 0x2u32);
            assert(t[i] == s[i] && s[i] == s2[i]);
            assert(t[i].flags & 0x2u32 == 0x2u32);
            assert(exists|i: int| 0 <= i < t.len() && #[trigger] t[i].flags & 0x2u32 == 0x2u32);
        }
        assert forall|f: int|
            0 <= f < fams.len() && #[trigger] fams[f].flags & 0x4u32 == 0x4u32 implies exists|i: int|
                0 <= i < t.len() && #[trigger] t[i].flags & 0x4u32 == 0x4u32 by {
            assert(has_flags(fams[f].flags, QUEUE_TRANSFER));
            let i = choose|i: int| 0 <= i < s.len() && has_flags(#[trigger] s[i].flags, 0x4u32);
            assert(t[i].flags & 0x4u32 == 0x4u32);
            assert(exists|i: int| 0 <= i < t.len() && #[trigger] t[i].flags & 0x4u32 == 0x4u32);
        }
    }
}

} // verus!
