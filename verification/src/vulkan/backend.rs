//! Decisions taken while setting up the shared Vulkan device: whether the
//! instance is recent enough and which adapter to use.
use vstd::prelude::*;
use crate::vulkan::errors::WgpuInitError;

verus! {

/// The major number of a packed Vulkan version.
pub open spec fn version_major(version: u32) -> u32 {
    (version >> 22u32) & 0x7fu32
}

/// The minor number of a packed Vulkan version.
pub open spec fn version_minor(version: u32) -> u32 {
    (version >> 12u32) & 0x3ffu32
}

/// The major number of a packed Vulkan version.
///
/// Calls `ash::vk::api_version_major`, whose source is
/// `(version >> 22) & 0x7f`; the contract states exactly that.
#[verifier::external_body]
fn api_version_major(version: u32) -> (r: u32)
    ensures
        r == version_major(version),
{
    ash::vk::api_version_major(version)
}

/// The minor number of a packed Vulkan version.
///
/// Calls `ash::vk::api_version_minor`, whose source is
/// `(version >> 12) & 0x3ff`; the contract states exactly that.
#[verifier::external_body]
fn api_version_minor(version: u32) -> (r: u32)
    ensures
        r == version_minor(version),
{
    ash::vk::api_version_minor(version)
}

/// Checks that the instance's Vulkan version is at least 1.3, which FFmpeg
/// needs; versions of another major number than 1 pass.
pub fn check_instance_version(version: u32) -> (r: Result<(), WgpuInitError>)
    ensures
        r is Err <==> (version_major(version) == 1 && version_minor(version) < 3),
        r matches Err(e) ==> e == (WgpuInitError::VulkanVersion {
            major: version_major(version),
            minor: version_minor(version),
        }),
{
    let major = api_version_major(version);
    let minor = api_version_minor(version);
    if major == 1 && minor < 3 {
        return Err(WgpuInitError::VulkanVersion { major, minor });
    }
    Ok(())
}

/// What the adapter choice needs to know of an adapter.
pub struct AdapterInfo {
    /// The adapter's name.
    pub name: String,
    /// The adapter can share memory with other APIs (it supports Vulkan
    /// external memory, as a file descriptor or a Win32 handle).
    pub external_memory: bool,
    /// The adapter is a discrete GPU.
    pub discrete: bool,
}

/// Index of the first adapter at or after `start` with this name.
pub open spec fn named_index_from(adapters: Seq<AdapterInfo>, name: Seq<char>, start: int) -> Option<
    int,
>
    decreases adapters.len() - start,
{
    if start < 0 || start >= adapters.len() {
        None
    } else if adapters[start].name@ == name {
        Some(start)
    } else {
        named_index_from(adapters, name, start + 1)
    }
}

/// The adapter used when none is asked for by name: the last discrete GPU that
/// can share memory, or else the first adapter.
pub open spec fn default_adapter(adapters: Seq<AdapterInfo>) -> int
    decreases adapters.len(),
{
    if adapters.len() == 0 {
        0
    } else if adapters.last().external_memory && adapters.last().discrete {
        adapters.len() - 1
    } else {
        default_adapter(adapters.drop_last())
    }
}

/// Chooses the adapter to create the device on: the first one with the
/// requested name, if a name is given (an error if none has it); otherwise
/// the last discrete GPU that can share memory, or the first adapter if there
/// is no such GPU.
pub fn select_adapter(adapters: &Vec<AdapterInfo>, requested: Option<String>) -> (r: Result<
    usize,
    WgpuInitError,
>)
    requires
        requested is Some || adapters.len() > 0,
    ensures
        match requested {
            Some(name) => match r {
                Ok(i) => named_index_from(adapters@, name@, 0) == Some(i as int),
                Err(e) => named_index_from(adapters@, name@, 0) is None
                    && e == WgpuInitError::RequestedPhysicalDevice(name),
            },
            None => r matches Ok(i) && i as int == default_adapter(adapters@),
        },
        r matches Ok(i) ==> i < adapters.len(),
        requested matches Some(name) ==> (r matches Ok(i) ==> adapters@[i as int].name@ == name@
            && forall|j: int| 0 <= j < i ==> adapters@[j].name@ != name@),
        requested matches Some(name) ==> (r is Err <==> forall|j: int|
            0 <= j < adapters.len() ==> adapters@[j].name@ != name@),
        requested is None ==> (r matches Ok(i) && ((exists|k: int|
            0 <= k < adapters.len() && adapters@[k].external_memory && adapters@[k].discrete) ==> (
        adapters@[i as int].external_memory && adapters@[i as int].discrete && forall|j: int|
            i < j < adapters.len() ==> !(adapters@[j].external_memory && adapters@[j].discrete)))
            && ((forall|k: int|
            0 <= k < adapters.len() ==> !(adapters@[k].external_memory && adapters@[k].discrete))
            ==> i == 0)),
{
    proof {
        default_adapter_is_last_sharing_discrete_gpu(adapters@);
        if requested is Some {
            requested_adapter_has_that_name(adapters@, requested->0@);
        }
    }
    match requested {
        Some(name) => {
            let mut i: usize = 0;
            while i < adapters.len()
                invariant
                    i <= adapters.len(),
                    requested == Some(name),
                    named_index_from(adapters@, name@, 0) == named_index_from(
                        adapters@,
                        name@,
                        i as int,
                    ),
                decreases adapters.len() - i,
            {
                if adapters[i].name == name {
                    proof {
                        requested_adapter_has_that_name(adapters@, name@);
                    }
                    return Ok(i);
                }
                i = i + 1;
            }
            Err(WgpuInitError::RequestedPhysicalDevice(name))
        },
        None => {
            let mut index: usize = 0;
            let mut i: usize = 0;
            while i < adapters.len()
                invariant
                    i <= adapters.len(),
                    adapters.len() > 0,
                    index < adapters.len(),
                    index as int == default_adapter(adapters@.take(i as int)),
                decreases adapters.len() - i,
            {
                assert(adapters@.take(i + 1).drop_last() =~= adapters@.take(i as int));
                if adapters[i].external_memory && adapters[i].discrete {
                    index = i;
                }
                i = i + 1;
            }
            assert(adapters@.take(adapters.len() as int) =~= adapters@);
            Ok(index)
        },
    }
}

proof fn lemma_named_index_from(adapters: Seq<AdapterInfo>, name: Seq<char>, start: int)
    requires
        0 <= start,
    ensures
        match named_index_from(adapters, name, start) {
            Some(i) => start <= i < adapters.len() && adapters[i].name@ == name && forall|j: int|
                start <= j < i ==> adapters[j].name@ != name,
            None => forall|j: int| start <= j < adapters.len() ==> adapters[j].name@ != name,
        },
    decreases adapters.len() - start,
{
    if start < adapters.len() && adapters[start].name@ != name {
        lemma_named_index_from(adapters, name, start + 1);
    }
}

/// An adapter asked for by name is the first one whose name equals the name
/// asked for exactly; there is none exactly when no adapter has that name.
pub proof fn requested_adapter_has_that_name(adapters: Seq<AdapterInfo>, name: Seq<char>)
    ensures
        named_index_from(adapters, name, 0) matches Some(i) ==> 0 <= i < adapters.len()
            && adapters[i].name@ == name && forall|j: int| 0 <= j < i ==> adapters[j].name@ != name,
        named_index_from(adapters, name, 0) is None <==> forall|j: int|
            0 <= j < adapters.len() ==> adapters[j].name@ != name,
{
    lemma_named_index_from(adapters, name, 0);
}

/// Without a name, the adapter is the last discrete GPU that can share
/// memory; with no such GPU it is the first adapter.
pub proof fn default_adapter_is_last_sharing_discrete_gpu(adapters: Seq<AdapterInfo>)
    ensures
        (exists|i: int| 0 <= i < adapters.len() && adapters[i].external_memory && adapters[i].discrete)
            ==> ({
            let d = default_adapter(adapters);
            &&& 0 <= d < adapters.len()
            &&& adapters[d].external_memory && adapters[d].discrete
            &&& forall|j: int|
                d < j < adapters.len() ==> !(adapters[j].external_memory && adapters[j].discrete)
        }),
        (forall|i: int| 0 <= i < adapters.len() ==> !(adapters[i].external_memory && adapters[i].discrete))
            ==> default_adapter(adapters) == 0,
    decreases adapters.len(),
{
    if adapters.len() > 0 {
        let init = adapters.drop_last();
        default_adapter_is_last_sharing_discrete_gpu(init);
        let last = adapters.last();
        if !(last.external_memory && last.discrete) {
            if exists|i: int| 0 <= i < adapters.len() && adapters[i].external_memory && adapters[i].discrete {
                let i = choose|i: int| 0 <= i < adapters.len() && adapters[i].external_memory && adapters[i].discrete;
                assert(init[i] == adapters[i]);
            }
            assert forall|i: int| 0 <= i < init.len() implies init[i] == adapters[i] by {}
        }
    }
}

} // verus!
