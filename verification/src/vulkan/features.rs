//! `VkPhysicalDeviceFeatures2` chains as plain values: each structure of the
//! `pNext` chain is its `sType` and its `VkBool32` entries in declaration order.
use vstd::prelude::*;
use crate::vulkan::errors::WgpuInitError;

verus! {

/// Number of `VkBool32` entries of `VkPhysicalDeviceFeatures`.
pub const BASE_FEATURE_COUNT: usize = 55;

/// Number of feature entries of each structure type the tool understands;
/// `None` for any other `sType`.
///
/// - `1000161001`: `PhysicalDeviceDescriptorIndexingFeaturesEXT` (20 fields)
/// - `1000207000`: `PhysicalDeviceTimelineSemaphoreFeaturesKHR` (1 fields)
/// - `1000335000`: `PhysicalDeviceImageRobustnessFeaturesEXT` (1 fields)
/// - `1000286000`: `PhysicalDeviceRobustness2FeaturesEXT` (3 fields)
/// - `1000053001`: `PhysicalDeviceMultiviewFeatures` (3 fields)
/// - `1000156004`: `PhysicalDeviceSamplerYcbcrConversionFeatures` (1 fields)
/// - `1000066000`: `PhysicalDeviceTextureCompressionASTCHDRFeaturesEXT` (1 fields)
/// - `1000082000`: `PhysicalDeviceShaderFloat16Int8Features` (2 fields)
/// - `1000083000`: `PhysicalDevice16BitStorageFeatures` (4 fields)
/// - `1000150013`: `PhysicalDeviceAccelerationStructureFeaturesKHR` (4 fields)
/// - `1000257000`: `PhysicalDeviceBufferDeviceAddressFeaturesKHR` (3 fields)
/// - `1000348013`: `PhysicalDeviceRayQueryFeaturesKHR` (1 fields)
/// - `1000347000`: `PhysicalDeviceRayTracingPipelineFeaturesKHR` (5 fields)
/// - `1000325000`: `PhysicalDeviceZeroInitializeWorkgroupMemoryFeatures` (1 fields)
/// - `1000481000`: `PhysicalDeviceRayTracingPositionFetchFeaturesKHR` (1 fields)
/// - `1000180000`: `PhysicalDeviceShaderAtomicInt64Features` (2 fields)
/// - `1000234000`: `PhysicalDeviceShaderImageAtomicInt64FeaturesEXT` (2 fields)
/// - `1000260000`: `PhysicalDeviceShaderAtomicFloatFeaturesEXT` (12 fields)
/// - `1000225002`: `PhysicalDeviceSubgroupSizeControlFeatures` (2 fields)
/// - `1000413000`: `PhysicalDeviceMaintenance4FeaturesKHR` (1 fields)
/// - `1000328000`: `PhysicalDeviceMeshShaderFeaturesEXT` (5 fields)
/// - `1000280000`: `PhysicalDeviceShaderIntegerDotProductFeaturesKHR` (1 fields)
/// - `1000203000`: `PhysicalDeviceFragmentShaderBarycentricFeaturesKHR` (1 fields)
/// - `1000163000`: `PhysicalDevicePortabilitySubsetFeaturesKHR` (15 fields)
/// - `1000506000`: `PhysicalDeviceCooperativeMatrixFeaturesKHR` (2 fields)
/// - `1000211000`: `PhysicalDeviceVulkanMemoryModelFeaturesKHR` (3 fields)
/// - `1000063000`: `PhysicalDeviceShaderDrawParametersFeatures` (1 fields)
/// - `49`: `PhysicalDeviceVulkan11Features` (12 fields)
/// - `51`: `PhysicalDeviceVulkan12Features` (47 fields)
/// - `53`: `PhysicalDeviceVulkan13Features` (15 fields)
/// - `55`: `PhysicalDeviceVulkan14Features` (21 fields)
/// - `1000275000`: `PhysicalDeviceSwapchainMaintenance1FeaturesEXT` (1 fields)
pub open spec fn field_count(s_type: i32) -> Option<nat> {
    match s_type {
        1000161001i32 => Some(20nat),
        1000207000i32 => Some(1nat),
        1000335000i32 => Some(1nat),
        1000286000i32 => Some(3nat),
        1000053001i32 => Some(3nat),
        1000156004i32 => Some(1nat),
        1000066000i32 => Some(1nat),
        1000082000i32 => Some(2nat),
        1000083000i32 => Some(4nat),
        1000150013i32 => Some(4nat),
        1000257000i32 => Some(3nat),
        1000348013i32 => Some(1nat),
        1000347000i32 => Some(5nat),
        1000325000i32 => Some(1nat),
        1000481000i32 => Some(1nat),
        1000180000i32 => Some(2nat),
        1000234000i32 => Some(2nat),
        1000260000i32 => Some(12nat),
        1000225002i32 => Some(2nat),
        1000413000i32 => Some(1nat),
        1000328000i32 => Some(5nat),
        1000280000i32 => Some(1nat),
        1000203000i32 => Some(1nat),
        1000163000i32 => Some(15nat),
        1000506000i32 => Some(2nat),
        1000211000i32 => Some(3nat),
        1000063000i32 => Some(1nat),
        49i32 => Some(12nat),
        51i32 => Some(47nat),
        53i32 => Some(15nat),
        55i32 => Some(21nat),
        1000275000i32 => Some(1nat),
        _ => None,
    }
}

/// The tool understands structures of this type.
pub open spec fn is_known(s_type: i32) -> bool {
    field_count(s_type) is Some
}

/// Looks up the number of feature entries of a structure type.
pub fn feature_field_count(s_type: i32) -> (r: Option<usize>)
    ensures
        match r {
            Some(n) => field_count(s_type) == Some(n as nat),
            None => field_count(s_type) is None,
        },
{
    match s_type {
        1000161001i32 => Some(20usize),
        1000207000i32 => Some(1usize),
        1000335000i32 => Some(1usize),
        1000286000i32 => Some(3usize),
        1000053001i32 => Some(3usize),
        1000156004i32 => Some(1usize),
        1000066000i32 => Some(1usize),
        1000082000i32 => Some(2usize),
        1000083000i32 => Some(4usize),
        1000150013i32 => Some(4usize),
        1000257000i32 => Some(3usize),
        1000348013i32 => Some(1usize),
        1000347000i32 => Some(5usize),
        1000325000i32 => Some(1usize),
        1000481000i32 => Some(1usize),
        1000180000i32 => Some(2usize),
        1000234000i32 => Some(2usize),
        1000260000i32 => Some(12usize),
        1000225002i32 => Some(2usize),
        1000413000i32 => Some(1usize),
        1000328000i32 => Some(5usize),
        1000280000i32 => Some(1usize),
        1000203000i32 => Some(1usize),
        1000163000i32 => Some(15usize),
        1000506000i32 => Some(2usize),
        1000211000i32 => Some(3usize),
        1000063000i32 => Some(1usize),
        49i32 => Some(12usize),
        51i32 => Some(47usize),
        53i32 => Some(15usize),
        55i32 => Some(21usize),
        1000275000i32 => Some(1usize),
        _ => None,
    }
}


/// One structure of a feature chain: its `sType` and its feature entries.
pub struct FeatureModel {
    pub s_type: i32,
    pub fields: Seq<u32>,
}

/// A whole `VkPhysicalDeviceFeatures2`: the core features and the `pNext` chain,
/// head first.
pub struct ChainModel {
    pub base: Seq<u32>,
    pub structs: Seq<FeatureModel>,
}

/// One structure of a `pNext` chain.
pub struct FeatureStruct {
    pub s_type: i32,
    pub fields: Vec<u32>,
}

impl View for FeatureStruct {
    type V = FeatureModel;

    open spec fn view(&self) -> FeatureModel {
        FeatureModel { s_type: self.s_type, fields: self.fields@ }
    }
}

/// A `VkPhysicalDeviceFeatures2`: the core feature entries and the structures of
/// its `pNext` chain, head first.
pub struct FeatureChain {
    pub base: Vec<u32>,
    pub structs: Vec<FeatureStruct>,
}

/// The models of a sequence of structures.
pub open spec fn models(v: Seq<FeatureStruct>) -> Seq<FeatureModel> {
    v.map_values(|f: FeatureStruct| f@)
}

impl View for FeatureChain {
    type V = ChainModel;

    open spec fn view(&self) -> ChainModel {
        ChainModel { base: self.base@, structs: models(self.structs@) }
    }
}

/// A structure of a known type carries exactly the entries of that type.
pub open spec fn struct_ok(f: FeatureModel) -> bool {
    is_known(f.s_type) ==> f.fields.len() == field_count(f.s_type).unwrap()
}

/// Every `sType` occurs at most once in the chain, as Vulkan requires of a
/// `pNext` chain, and every known structure has its full set of entries.
pub open spec fn structs_ok(s: Seq<FeatureModel>) -> bool {
    &&& forall|i: int| 0 <= i < s.len() ==> struct_ok(#[trigger] s[i])
    &&& forall|i: int, j: int|
        0 <= i < s.len() && 0 <= j < s.len() && i != j ==> #[trigger] s[i].s_type != #[trigger] s[j].s_type
}

/// A valid feature chain.
pub open spec fn chain_ok(c: ChainModel) -> bool {
    structs_ok(c.structs)
}

/// Every structure of the chain is of a known type.
pub open spec fn all_known(s: Seq<FeatureModel>) -> bool {
    forall|i: int| 0 <= i < s.len() ==> is_known(#[trigger] s[i].s_type)
}

/// Some structure of `s` has type `t`.
pub open spec fn has_type(s: Seq<FeatureModel>, t: i32) -> bool {
    exists|i: int| 0 <= i < s.len() && #[trigger] s[i].s_type == t
}

/// Index of the first structure of type `t` at or after `start`.
pub open spec fn type_index_from(s: Seq<FeatureModel>, t: i32, start: int) -> Option<int>
    decreases s.len() - start,
{
    if start < 0 || start >= s.len() {
        None
    } else if s[start].s_type == t {
        Some(start)
    } else {
        type_index_from(s, t, start + 1)
    }
}

/// Index of the structure of type `t` in `s`.
pub open spec fn type_index(s: Seq<FeatureModel>, t: i32) -> Option<int> {
    type_index_from(s, t, 0)
}

/// Entry-wise OR of two entry lists.
pub open spec fn or_fields(a: Seq<u32>, b: Seq<u32>) -> Seq<u32> {
    Seq::new(a.len(), |k: int| a[k] | b[k])
}

/// A target structure after merging in the structure of the same type from
/// `other`, if there is one.
pub open spec fn merged_struct(t: FeatureModel, other: Seq<FeatureModel>) -> FeatureModel {
    match type_index(other, t.s_type) {
        Some(j) => FeatureModel { s_type: t.s_type, fields: or_fields(t.fields, other[j].fields) },
        None => t,
    }
}

/// A structure of `other` that the merge adds to the target: known, and of a
/// type the target lacks.
pub open spec fn is_leftover(o: FeatureModel, target: Seq<FeatureModel>) -> bool {
    is_known(o.s_type) && !has_type(target, o.s_type)
}

/// Index of the first structure whose type is below `t`, or the length.
pub open spec fn first_below_from(s: Seq<FeatureModel>, t: i32, start: int) -> int
    decreases s.len() - start,
{
    if start < 0 || start >= s.len() {
        s.len() as int
    } else if s[start].s_type < t {
        start
    } else {
        first_below_from(s, t, start + 1)
    }
}

/// `s` with `x` placed before the first structure of lower type.
pub open spec fn insert_desc(s: Seq<FeatureModel>, x: FeatureModel) -> Seq<FeatureModel> {
    s.insert(first_below_from(s, x.s_type, 0), x)
}

/// The structures that a merge adds to the target, in descending `sType` order.
pub open spec fn sorted_leftovers(other: Seq<FeatureModel>, target: Seq<FeatureModel>) -> Seq<
    FeatureModel,
>
    decreases other.len(),
{
    if other.len() == 0 {
        Seq::empty()
    } else {
        let rest = sorted_leftovers(other.drop_last(), target);
        if is_leftover(other.last(), target) {
            insert_desc(rest, other.last())
        } else {
            rest
        }
    }
}

/// The chain `target` after `merge_features2(target, other)`: the structures
/// that only `other` has (of known types) in descending `sType` order, then
/// the target's structures, each ORed with the structure of the same type in
/// `other`. The core features are left alone.
pub open spec fn merge_spec(target: ChainModel, other: ChainModel) -> ChainModel {
    ChainModel {
        base: target.base,
        structs: sorted_leftovers(other.structs, target.structs) + target.structs.map_values(
            |t: FeatureModel| merged_struct(t, other.structs),
        ),
    }
}

/// Where `merge_features2` can run: a structure of the target that `other` also
/// has must be of a known type.
pub open spec fn shared_types_known(target: ChainModel, other: ChainModel) -> bool {
    forall|i: int|
        0 <= i < target.structs.len() && has_type(other.structs, #[trigger] target.structs[i].s_type)
            ==> is_known(target.structs[i].s_type)
}

/// The entries are strictly descending by type.
pub open spec fn strictly_descending(s: Seq<FeatureModel>) -> bool {
    forall|i: int, j: int| 0 <= i < j < s.len() ==> #[trigger] s[i].s_type > #[trigger] s[j].s_type
}

proof fn lemma_type_index_from(s: Seq<FeatureModel>, t: i32, start: int)
    requires
        0 <= start,
    ensures
        match type_index_from(s, t, start) {
            Some(i) => start <= i < s.len() && s[i].s_type == t && forall|j: int|
                start <= j < i ==> s[j].s_type != t,
            None => forall|j: int| start <= j < s.len() ==> s[j].s_type != t,
        },
    decreases s.len() - start,
{
    if start < s.len() && s[start].s_type != t {
        lemma_type_index_from(s, t, start + 1);
    }
}

/// `type_index` finds exactly the structures of the type.
pub proof fn lemma_type_index(s: Seq<FeatureModel>, t: i32)
    ensures
        match type_index(s, t) {
            Some(i) => 0 <= i < s.len() && s[i].s_type == t,
            None => !has_type(s, t),
        },
        type_index(s, t) is Some <==> has_type(s, t),
{
    lemma_type_index_from(s, t, 0);
}

proof fn lemma_first_below_from(s: Seq<FeatureModel>, t: i32, start: int)
    requires
        0 <= start <= s.len(),
    ensures
        start <= first_below_from(s, t, start) <= s.len(),
        forall|j: int| start <= j < first_below_from(s, t, start) ==> s[j].s_type >= t,
        first_below_from(s, t, start) < s.len() ==> s[first_below_from(s, t, start)].s_type < t,
    decreases s.len() - start,
{
    if start < s.len() && s[start].s_type >= t {
        lemma_first_below_from(s, t, start + 1);
    }
}

/// Inserting a structure of a new type keeps a chain strictly descending.
proof fn lemma_insert_desc(s: Seq<FeatureModel>, x: FeatureModel)
    requires
        strictly_descending(s),
        forall|i: int| 0 <= i < s.len() ==> #[trigger] s[i].s_type != x.s_type,
    ensures
        strictly_descending(insert_desc(s, x)),
        insert_desc(s, x).len() == s.len() + 1,
        forall|y: FeatureModel| #[trigger] insert_desc(s, x).contains(y) <==> (s.contains(y) || y == x),
{
    let k = first_below_from(s, x.s_type, 0);
    lemma_first_below_from(s, x.s_type, 0);
    let r = insert_desc(s, x);
    assert(r == s.insert(k, x));
    assert forall|i: int, j: int| 0 <= i < j < r.len() implies #[trigger] r[i].s_type
        > #[trigger] r[j].s_type by {
        if i < k {
            if j < k {
            } else if j == k {
                assert(s[i].s_type != x.s_type);
            } else {
                assert(r[j] == s[j - 1]);
            }
        } else if i == k {
            assert(r[j] == s[j - 1]);
            if k < s.len() {
                assert(s[k].s_type < x.s_type);
                if j - 1 > k {
                    assert(s[k].s_type > s[j - 1].s_type);
                }
            }
        } else {
            assert(r[i] == s[i - 1]);
            assert(r[j] == s[j - 1]);
        }
    }
    assert forall|y: FeatureModel| #[trigger] r.contains(y) <==> (s.contains(y) || y == x) by {
        if r.contains(y) {
            let i = choose|i: int| 0 <= i < r.len() && r[i] == y;
            if i < k {
                assert(s[i] == y);
            } else if i > k {
                assert(s[i - 1] == y);
            }
        }
        if s.contains(y) {
            let i = choose|i: int| 0 <= i < s.len() && s[i] == y;
            if i < k {
                assert(r[i] == y);
            } else {
                assert(r[i + 1] == y);
            }
        }
        if y == x {
            assert(r[k] == y);
        }
    }
}

/// What `sorted_leftovers` holds: exactly the leftovers of `other`, strictly
/// descending by type.
pub proof fn lemma_sorted_leftovers(other: Seq<FeatureModel>, target: Seq<FeatureModel>)
    requires
        structs_ok(other),
    ensures
        strictly_descending(sorted_leftovers(other, target)),
        forall|x: FeatureModel| #[trigger]
            sorted_leftovers(other, target).contains(x) <==> (other.contains(x) && is_leftover(
                x,
                target,
            )),
    decreases other.len(),
{
    if other.len() > 0 {
        let init = other.drop_last();
        assert(structs_ok(init)) by {
            assert forall|i: int, j: int|
                0 <= i < init.len() && 0 <= j < init.len() && i != j implies #[trigger] init[i].s_type
                != #[trigger] init[j].s_type by {
                assert(init[i] == other[i] && init[j] == other[j]);
            }
            assert forall|i: int| 0 <= i < init.len() implies struct_ok(#[trigger] init[i]) by {
                assert(init[i] == other[i]);
            }
        }
        lemma_sorted_leftovers(init, target);
        let rest = sorted_leftovers(init, target);
        let x = other.last();
        assert(other =~= init.push(x));
        if is_leftover(x, target) {
            assert forall|i: int| 0 <= i < rest.len() implies #[trigger] rest[i].s_type != x.s_type by {
                assert(rest.contains(rest[i]));
                let j = choose|j: int| 0 <= j < init.len() && init[j] == rest[i];
                assert(other[j] == init[j]);
                assert(other[other.len() - 1] == x);
            }
            lemma_insert_desc(rest, x);
        }
        assert forall|y: FeatureModel| #[trigger]
            sorted_leftovers(other, target).contains(y) <==> (other.contains(y) && is_leftover(
                y,
                target,
            )) by {
            if other.contains(y) {
                let j = choose|j: int| 0 <= j < other.len() && other[j] == y;
                if j < other.len() - 1 {
                    assert(init[j] == y);
                }
            }
            if init.contains(y) {
                let j = choose|j: int| 0 <= j < init.len() && init[j] == y;
                assert(other[j] == y);
            }
        }
    }
}


/// A copy of a list of entries.
fn copy_fields(f: &Vec<u32>) -> (r: Vec<u32>)
    ensures
        r@ == f@,
{
    let mut r: Vec<u32> = Vec::new();
    let mut k: usize = 0;
    while k < f.len()
        invariant
            k <= f.len(),
            r@ == f@.take(k as int),
        decreases f.len() - k,
    {
        r.push(f[k]);
        k = k + 1;
        assert(r@ =~= f@.take(k as int));
    }
    assert(f@.take(f.len() as int) =~= f@);
    r
}

/// A copy of a structure.
fn copy_struct(f: &FeatureStruct) -> (r: FeatureStruct)
    ensures
        r@ == f@,
{
    FeatureStruct { s_type: f.s_type, fields: copy_fields(&f.fields) }
}

/// Finds the structure of type `t`.
fn find_type(structs: &Vec<FeatureStruct>, t: i32) -> (r: Option<usize>)
    ensures
        match r {
            Some(i) => type_index(models(structs@), t) == Some(i as int),
            None => type_index(models(structs@), t) is None,
        },
{
    let ghost m = models(structs@);
    let mut i: usize = 0;
    while i < structs.len()
        invariant
            i <= structs.len(),
            m == models(structs@),
            type_index_from(m, t, 0) == type_index_from(m, t, i as int),
        decreases structs.len() - i,
    {
        if structs[i].s_type == t {
            return Some(i);
        }
        i = i + 1;
    }
    None
}

/// Finds where a structure of type `t` goes in a descending chain.
fn find_first_below(structs: &Vec<FeatureStruct>, t: i32) -> (r: usize)
    ensures
        r as int == first_below_from(models(structs@), t, 0),
{
    let ghost m = models(structs@);
    let mut i: usize = 0;
    while i < structs.len()
        invariant
            i <= structs.len(),
            m == models(structs@),
            first_below_from(m, t, 0) == first_below_from(m, t, i as int),
        decreases structs.len() - i,
    {
        if structs[i].s_type < t {
            return i;
        }
        i = i + 1;
    }
    i
}

/// `t` with every entry ORed with the entry of `o`.
fn or_struct(t: &FeatureStruct, o: &FeatureStruct) -> (r: FeatureStruct)
    requires
        o.fields.len() >= t.fields.len(),
    ensures
        r@ == (FeatureModel { s_type: t.s_type, fields: or_fields(t@.fields, o@.fields) }),
{
    let mut fields: Vec<u32> = Vec::new();
    let mut k: usize = 0;
    while k < t.fields.len()
        invariant
            k <= t.fields.len(),
            o.fields.len() >= t.fields.len(),
            fields@ == or_fields(t@.fields, o@.fields).take(k as int),
        decreases t.fields.len() - k,
    {
        fields.push(t.fields[k] | o.fields[k]);
        k = k + 1;
        assert(fields@ =~= or_fields(t@.fields, o@.fields).take(k as int));
    }
    assert(or_fields(t@.fields, o@.fields).take(k as int) =~= or_fields(t@.fields, o@.fields));
    FeatureStruct { s_type: t.s_type, fields }
}

/// Merges the feature chain `other` into `target`: each structure of the target
/// gains the features that the structure of the same type in `other` enables,
/// and the structures of known types that only `other` has are added at the
/// head of the chain, in descending `sType` order. Structures of unknown types
/// that only `other` has are skipped; the core features are not touched.
pub fn merge_features2(target: &mut FeatureChain, other: &FeatureChain)
    requires
        chain_ok(old(target)@),
        chain_ok(other@),
        shared_types_known(old(target)@, other@),
    ensures
        final(target)@ == merge_spec(old(target)@, other@),
{
    let ghost tm = models(target.structs@);
    let ghost om = models(other.structs@);
    let mut prefix: Vec<FeatureStruct> = Vec::new();
    let mut i: usize = 0;
    while i < other.structs.len()
        invariant
            i <= other.structs.len(),
            tm == models(target.structs@),
            om == models(other.structs@),
            models(prefix@) == sorted_leftovers(om.take(i as int), tm),
        decreases other.structs.len() - i,
    {
        let o = &other.structs[i];
        assert(om.take(i + 1).drop_last() =~= om.take(i as int));
        assert(om.take(i + 1).last() == o@);
        let known = feature_field_count(o.s_type).is_some();
        let found = find_type(&target.structs, o.s_type);
        proof {
            lemma_type_index(tm, o.s_type);
        }
        if known && found.is_none() {
            let k = find_first_below(&prefix, o.s_type);
            proof {
                lemma_first_below_from(models(prefix@), o.s_type, 0);
            }
            let ghost before = prefix@;
            prefix.insert(k, copy_struct(o));
            assert(models(prefix@) =~= models(before).insert(k as int, o@));
        }
        i = i + 1;
    }
    assert(om.take(other.structs.len() as int) =~= om);
    let mut merged: Vec<FeatureStruct> = Vec::new();
    let mut j: usize = 0;
    while j < target.structs.len()
        invariant
            j <= target.structs.len(),
            tm == models(target.structs@),
            om == models(other.structs@),
            chain_ok(ChainModel { base: target.base@, structs: tm }),
            chain_ok(ChainModel { base: other.base@, structs: om }),
            shared_types_known(ChainModel { base: target.base@, structs: tm }, ChainModel { base: other.base@, structs: om }),
            models(merged@) == tm.take(j as int).map_values(|t: FeatureModel| merged_struct(t, om)),
        decreases target.structs.len() - j,
    {
        let t = &target.structs[j];
        let found = find_type(&other.structs, t.s_type);
        proof {
            lemma_type_index(om, t.s_type);
        }
        let ghost before = merged@;
        assert(models(before).len() == j);
        assert(before.len() == j);
        match found {
            Some(oi) => {
                assert(tm[j as int] == t@);
                assert(om[oi as int] == other.structs@[oi as int]@);
                assert(struct_ok(tm[j as int]) && struct_ok(om[oi as int]));
                merged.push(or_struct(t, &other.structs[oi]));
                assert(merged@.len() == j + 1);
                assert(merged@[j as int]@ == merged_struct(tm[j as int], om));
            },
            None => {
                merged.push(copy_struct(t));
                assert(merged@.len() == j + 1);
                assert(merged@[j as int]@ == merged_struct(tm[j as int], om));
            },
        }
        assert(models(merged@) =~= models(before).push(merged_struct(tm[j as int], om)));
        assert(tm.take(j + 1) =~= tm.take(j as int).push(tm[j as int]));
        j = j + 1;
        assert(models(merged@) =~= tm.take(j as int).map_values(|t: FeatureModel| merged_struct(t, om)));
    }
    assert(tm.take(target.structs.len() as int) =~= tm);
    let ghost pm = models(prefix@);
    let ghost mm = models(merged@);
    prefix.append(&mut merged);
    assert(models(prefix@) =~= pm + mm);
    target.structs = prefix;
}


/// `l` has every feature that the structure of the same type in `rhs` has, if
/// `rhs` has one.
pub open spec fn covers_struct(l: FeatureModel, rhs: Seq<FeatureModel>) -> bool {
    match type_index(rhs, l.s_type) {
        Some(j) => forall|k: int| 0 <= k < l.fields.len() ==> #[trigger] l.fields[k] >= rhs[j].fields[k],
        None => true,
    }
}

/// What `all_features2(lhs, rhs)` answers: each structure of `lhs` enables at
/// least what the structure of the same type in `rhs` enables. Structures of
/// `rhs` whose type `lhs` lacks, and the core features, are not compared.
pub open spec fn all_spec(lhs: ChainModel, rhs: ChainModel) -> bool {
    forall|i: int| 0 <= i < lhs.structs.len() ==> covers_struct(#[trigger] lhs.structs[i], rhs.structs)
}

/// Whether `l` has every feature that `r` has.
fn covers_fields(l: &FeatureStruct, r: &FeatureStruct) -> (res: bool)
    requires
        r.fields.len() >= l.fields.len(),
    ensures
        res == forall|k: int| 0 <= k < l.fields.len() ==> #[trigger] l.fields@[k] >= r.fields@[k],
{
    let mut k: usize = 0;
    while k < l.fields.len()
        invariant
            k <= l.fields.len(),
            r.fields.len() >= l.fields.len(),
            forall|m: int| 0 <= m < k ==> #[trigger] l.fields@[m] >= r.fields@[m],
        decreases l.fields.len() - k,
    {
        if l.fields[k] < r.fields[k] {
            return false;
        }
        k = k + 1;
    }
    true
}

/// Whether each structure of `lhs` enables at least the features of the
/// structure of the same type in `rhs`.
pub fn all_features2(lhs: &FeatureChain, rhs: &FeatureChain) -> (r: bool)
    requires
        chain_ok(lhs@),
        chain_ok(rhs@),
        shared_types_known(lhs@, rhs@),
    ensures
        r == all_spec(lhs@, rhs@),
        r == entries_cover(lhs@.structs, rhs@.structs),
{
    proof {
        all_features2_compares_every_entry(lhs@, rhs@);
    }
    let ghost lm = models(lhs.structs@);
    let ghost rm = models(rhs.structs@);
    let mut i: usize = 0;
    while i < lhs.structs.len()
        invariant
            i <= lhs.structs.len(),
            lm == models(lhs.structs@),
            rm == models(rhs.structs@),
            chain_ok(lhs@),
            chain_ok(rhs@),
            shared_types_known(lhs@, rhs@),
            forall|m: int| 0 <= m < i ==> covers_struct(#[trigger] lm[m], rm),
        decreases lhs.structs.len() - i,
    {
        let l = &lhs.structs[i];
        let found = find_type(&rhs.structs, l.s_type);
        proof {
            lemma_type_index(rm, l.s_type);
        }
        match found {
            Some(j) => {
                assert(lm[i as int] == l@);
                assert(rm[j as int] == rhs.structs@[j as int]@);
                assert(struct_ok(lm[i as int]) && struct_ok(rm[j as int]));
                if !covers_fields(l, &rhs.structs[j]) {
                    assert(!covers_struct(lm[i as int], rm));
                    return false;
                }
            },
            None => {},
        }
        assert(covers_struct(lm[i as int], rm));
        i = i + 1;
    }
    true
}

/// A target structure after `select_features2`: an entry stays enabled only
/// where the structure of the same type in `select` enables it; with no such
/// structure every entry is cleared.
pub open spec fn selected_struct(t: FeatureModel, select: Seq<FeatureModel>) -> FeatureModel {
    FeatureModel {
        s_type: t.s_type,
        fields: Seq::new(
            t.fields.len(),
            |k: int|
                match type_index(select, t.s_type) {
                    Some(j) => if select[j].fields[k] == 0 {
                        0u32
                    } else {
                        t.fields[k]
                    },
                    None => 0u32,
                },
        ),
    }
}

/// The chain `target` after `select_features2(target, select)`.
pub open spec fn select_spec(target: ChainModel, select: ChainModel) -> ChainModel {
    ChainModel {
        base: target.base,
        structs: target.structs.map_values(|t: FeatureModel| selected_struct(t, select.structs)),
    }
}

/// `t` with each entry cleared where `s` has it cleared; all cleared without `s`.
fn select_struct(t: &FeatureStruct, s: Option<&FeatureStruct>) -> (r: FeatureStruct)
    requires
        s matches Some(s) ==> s.fields.len() >= t.fields.len(),
    ensures
        r.s_type == t.s_type,
        r.fields@.len() == t.fields@.len(),
        forall|k: int|
            0 <= k < t.fields@.len() ==> #[trigger] r.fields@[k] == match s {
                Some(s) => if s.fields@[k] == 0 {
                    0u32
                } else {
                    t.fields@[k]
                },
                None => 0u32,
            },
{
    let mut fields: Vec<u32> = Vec::new();
    let mut k: usize = 0;
    while k < t.fields.len()
        invariant
            k <= t.fields.len(),
            s matches Some(s) ==> s.fields.len() >= t.fields.len(),
            fields@.len() == k,
            forall|m: int|
                0 <= m < k ==> #[trigger] fields@[m] == match s {
                    Some(s) => if s.fields@[m] == 0 {
                        0u32
                    } else {
                        t.fields@[m]
                    },
                    None => 0u32,
                },
        decreases t.fields.len() - k,
    {
        let v = match s {
            Some(s) => if s.fields[k] == 0 {
                0
            } else {
                t.fields[k]
            },
            None => 0,
        };
        fields.push(v);
        k = k + 1;
    }
    FeatureStruct { s_type: t.s_type, fields }
}

/// Clears in `target` every feature that `select` does not enable. A structure
/// of `target` whose type `select` lacks loses all its features; the core
/// features are not touched.
pub fn select_features2(target: &mut FeatureChain, select: &FeatureChain)
    requires
        chain_ok(old(target)@),
        chain_ok(select@),
        all_known(old(target)@.structs),
    ensures
        final(target)@ == select_spec(old(target)@, select@),
{
    let ghost tm = models(target.structs@);
    let ghost sm = models(select.structs@);
    let mut out: Vec<FeatureStruct> = Vec::new();
    let mut i: usize = 0;
    while i < target.structs.len()
        invariant
            i <= target.structs.len(),
            tm == models(target.structs@),
            sm == models(select.structs@),
            chain_ok(ChainModel { base: target.base@, structs: tm }),
            chain_ok(select@),
            all_known(tm),
            models(out@) == tm.take(i as int).map_values(|t: FeatureModel| selected_struct(t, sm)),
        decreases target.structs.len() - i,
    {
        let t = &target.structs[i];
        assert(tm[i as int] == t@);
        assert(struct_ok(tm[i as int]) && is_known(tm[i as int].s_type));
        let found = find_type(&select.structs, t.s_type);
        proof {
            lemma_type_index(sm, t.s_type);
        }
        let ghost before = out@;
        assert(models(before).len() == i);
        let r = match found {
            Some(j) => {
                assert(sm[j as int] == select.structs@[j as int]@);
                assert(struct_ok(sm[j as int]));
                let r = select_struct(t, Some(&select.structs[j]));
                assert(r@.fields =~= selected_struct(tm[i as int], sm).fields);
                r
            },
            None => {
                let r = select_struct(t, None);
                assert(r@.fields =~= selected_struct(tm[i as int], sm).fields);
                r
            },
        };
        assert(r@ == selected_struct(tm[i as int], sm));
        out.push(r);
        assert(models(out@) =~= models(before).push(selected_struct(tm[i as int], sm)));
        assert(tm.take(i + 1) =~= tm.take(i as int).push(tm[i as int]));
        i = i + 1;
        assert(models(out@) =~= tm.take(i as int).map_values(|t: FeatureModel| selected_struct(t, sm)));
    }
    assert(tm.take(target.structs.len() as int) =~= tm);
    target.structs = out;
}

/// A structure of type `t` with every feature cleared.
pub open spec fn zero_struct(t: i32) -> FeatureModel {
    FeatureModel { s_type: t, fields: Seq::new(field_count(t).unwrap(), |k: int| 0u32) }
}

/// What `zeroed_features2(src)` builds: the core features of `src`, and a chain
/// with a structure of each type of `src`'s chain, in reverse order, with every
/// feature cleared; the template that a device query fills in.
pub open spec fn zeroed_spec(src: ChainModel) -> ChainModel {
    ChainModel {
        base: src.base,
        structs: Seq::new(
            src.structs.len(),
            |i: int| zero_struct(src.structs[src.structs.len() - 1 - i].s_type),
        ),
    }
}

/// A structure of type `t` with `n` cleared entries.
fn zero_struct_exec(t: i32, n: usize) -> (r: FeatureStruct)
    requires
        field_count(t) == Some(n as nat),
    ensures
        r@ == zero_struct(t),
{
    let mut fields: Vec<u32> = Vec::new();
    let mut k: usize = 0;
    while k < n
        invariant
            k <= n,
            fields@ == Seq::new(k as nat, |m: int| 0u32),
        decreases n - k,
    {
        fields.push(0);
        k = k + 1;
        assert(fields@ =~= Seq::new(k as nat, |m: int| 0u32));
    }
    FeatureStruct { s_type: t, fields }
}

/// Builds a chain with the structure types of `src`, every feature cleared,
/// ready to be filled in by a device query.
pub fn zeroed_features2(src: &FeatureChain) -> (r: FeatureChain)
    requires
        all_known(src@.structs),
    ensures
        r@ == zeroed_spec(src@),
{
    let ghost sm = models(src.structs@);
    let n = src.structs.len();
    let mut out: Vec<FeatureStruct> = Vec::new();
    let mut i: usize = 0;
    while i < n
        invariant
            i <= n,
            n == src.structs.len(),
            sm == models(src.structs@),
            all_known(sm),
            models(out@) =~= Seq::new(i as nat, |m: int| zero_struct(sm[n - 1 - m].s_type)),
        decreases n - i,
    {
        let t = src.structs[n - 1 - i].s_type;
        assert(sm[n - 1 - i] == src.structs@[n - 1 - i]@);
        assert(is_known(sm[n - 1 - i].s_type));
        let count = match feature_field_count(t) {
            Some(c) => c,
            None => {
                assert(false);
                0
            },
        };
        let ghost before = out@;
        out.push(zero_struct_exec(t, count));
        assert(models(out@) =~= models(before).push(zero_struct(sm[n - 1 - i].s_type)));
        i = i + 1;
        assert(models(out@) =~= Seq::new(i as nat, |m: int| zero_struct(sm[n - 1 - m].s_type)));
    }
    FeatureChain { base: copy_fields(&src.base), structs: out }
}


/// Facts about `type_index` in a chain whose types are unique.
proof fn lemma_type_index_unique(s: Seq<FeatureModel>, i: int)
    requires
        structs_ok(s),
        0 <= i < s.len(),
    ensures
        type_index(s, s[i].s_type) == Some(i),
{
    lemma_type_index(s, s[i].s_type);
    let j = type_index(s, s[i].s_type).unwrap();
    if j != i {
        assert(s[j].s_type != s[i].s_type);
    }
}

/// A merge of valid chains is valid, has the types of both (save unknown types
/// only `other` has), and keeps an all-known target all known.
pub proof fn lemma_merge_valid(target: ChainModel, other: ChainModel)
    requires
        chain_ok(target),
        chain_ok(other),
        shared_types_known(target, other),
    ensures
        chain_ok(merge_spec(target, other)),
        all_known(target.structs) ==> all_known(merge_spec(target, other).structs),
        forall|t: i32|
            has_type(merge_spec(target, other).structs, t) <==> (has_type(target.structs, t) || (
            has_type(other.structs, t) && is_known(t))),
{
    let l = sorted_leftovers(other.structs, target.structs);
    let m = target.structs.map_values(|t: FeatureModel| merged_struct(t, other.structs));
    let r = merge_spec(target, other).structs;
    lemma_sorted_leftovers(other.structs, target.structs);
    assert(r == l + m);
    assert forall|i: int| 0 <= i < m.len() implies #[trigger] m[i].s_type == target.structs[i].s_type
        && struct_ok(m[i]) by {
        lemma_type_index(other.structs, target.structs[i].s_type);
        assert(struct_ok(target.structs[i]));
        if has_type(other.structs, target.structs[i].s_type) {
            assert(is_known(target.structs[i].s_type));
        }
    }
    assert forall|i: int| 0 <= i < l.len() implies #[trigger] struct_ok(l[i]) && is_known(l[i].s_type)
        && !has_type(target.structs, l[i].s_type) && other.structs.contains(l[i]) by {
        assert(l.contains(l[i]));
    }
    assert forall|i: int| 0 <= i < r.len() implies struct_ok(#[trigger] r[i]) by {
        if i < l.len() {
            assert(r[i] == l[i]);
        } else {
            assert(r[i] == m[i - l.len()]);
        }
    }
    assert forall|i: int, j: int|
        0 <= i < r.len() && 0 <= j < r.len() && i != j implies #[trigger] r[i].s_type
        != #[trigger] r[j].s_type by {
        if i < l.len() && j < l.len() {
            assert(r[i] == l[i] && r[j] == l[j]);
        } else if i < l.len() {
            assert(r[i] == l[i] && r[j] == m[j - l.len()]);
            if r[i].s_type == r[j].s_type {
                assert(target.structs[j - l.len()].s_type == l[i].s_type);
            }
        } else if j < l.len() {
            assert(r[j] == l[j] && r[i] == m[i - l.len()]);
            if r[i].s_type == r[j].s_type {
                assert(target.structs[i - l.len()].s_type == l[j].s_type);
            }
        } else {
            assert(r[i] == m[i - l.len()] && r[j] == m[j - l.len()]);
            assert(target.structs[i - l.len()].s_type != target.structs[j - l.len()].s_type);
        }
    }
    if all_known(target.structs) {
        assert forall|i: int| 0 <= i < r.len() implies is_known(#[trigger] r[i].s_type) by {
            if i < l.len() {
                assert(r[i] == l[i]);
            } else {
                assert(r[i] == m[i - l.len()]);
            }
        }
    }
    assert forall|t: i32|
        has_type(r, t) <==> (has_type(target.structs, t) || (has_type(other.structs, t) && is_known(t))) by {
        if has_type(r, t) {
            let i = choose|i: int| 0 <= i < r.len() && #[trigger] r[i].s_type == t;
            if i < l.len() {
                assert(r[i] == l[i]);
                let j = choose|j: int| 0 <= j < other.structs.len() && other.structs[j] == l[i];
                assert(other.structs[j].s_type == t);
            } else {
                assert(r[i] == m[i - l.len()]);
                assert(target.structs[i - l.len()].s_type == t);
            }
        }
        if has_type(target.structs, t) {
            let i = choose|i: int| 0 <= i < target.structs.len() && #[trigger] target.structs[i].s_type == t;
            assert(r[i + l.len()] == m[i]);
            assert(r[i + l.len()].s_type == t);
        } else if has_type(other.structs, t) && is_known(t) {
            let j = choose|j: int| 0 <= j < other.structs.len() && #[trigger] other.structs[j].s_type == t;
            assert(other.structs.contains(other.structs[j]));
            assert(l.contains(other.structs[j]));
            let i = choose|i: int| 0 <= i < l.len() && l[i] == other.structs[j];
            assert(r[i] == l[i]);
        }
    }
}

/// After a merge the target covers both chains it was made from: every
/// structure enables at least the features of the structure of the same type
/// in the old target and in `other`.
pub proof fn merge_features2_covers_both(target: ChainModel, other: ChainModel)
    requires
        chain_ok(target),
        chain_ok(other),
        shared_types_known(target, other),
    ensures
        all_spec(merge_spec(target, other), other),
        all_spec(merge_spec(target, other), target),
{
    let l = sorted_leftovers(other.structs, target.structs);
    let m = target.structs.map_values(|t: FeatureModel| merged_struct(t, other.structs));
    let r = merge_spec(target, other).structs;
    lemma_sorted_leftovers(other.structs, target.structs);
    assert(r == l + m);
    assert forall|i: int| 0 <= i < r.len() implies covers_struct(#[trigger] r[i], other.structs)
        && covers_struct(r[i], target.structs) by {
        if i < l.len() {
            assert(r[i] == l[i]);
            assert(l.contains(l[i]));
            let j = choose|j: int| 0 <= j < other.structs.len() && other.structs[j] == l[i];
            lemma_type_index_unique(other.structs, j);
            lemma_type_index(target.structs, l[i].s_type);
        } else {
            let ti = i - l.len();
            let t = target.structs[ti];
            assert(r[i] == m[ti]);
            lemma_type_index_unique(target.structs, ti);
            lemma_type_index(other.structs, t.s_type);
            match type_index(other.structs, t.s_type) {
                Some(j) => {
                    assert forall|k: int| 0 <= k < r[i].fields.len() implies #[trigger] r[i].fields[k]
                        >= other.structs[j].fields[k] && r[i].fields[k] >= t.fields[k] by {
                        let a = t.fields[k];
                        let b = other.structs[j].fields[k];
                        assert(r[i].fields[k] == a | b);
                        assert(a | b >= b && a | b >= a) by (bit_vector);
                    }
                },
                None => {},
            }
        }
    }
}

/// A valid chain covers itself.
pub proof fn all_features2_reflexive(c: ChainModel)
    requires
        chain_ok(c),
    ensures
        all_spec(c, c),
{
    assert forall|i: int| 0 <= i < c.structs.len() implies covers_struct(#[trigger] c.structs[i], c.structs) by {
        lemma_type_index_unique(c.structs, i);
    }
}

/// Selection keeps a chain valid, and keeps a feature enabled only where it was
/// enabled before and the selecting chain enables it too.
pub proof fn select_features2_keeps_only_selected(target: ChainModel, select: ChainModel)
    requires
        chain_ok(target),
        chain_ok(select),
        all_known(target.structs),
    ensures
        chain_ok(select_spec(target, select)),
        all_known(select_spec(target, select).structs),
        select_spec(target, select).structs.len() == target.structs.len(),
        forall|i: int, k: int|
            0 <= i < target.structs.len() && 0 <= k < target.structs[i].fields.len()
                && #[trigger] select_spec(target, select).structs[i].fields[k] != 0 ==> target.structs[i].fields[k]
                != 0 && exists|j: int|
                0 <= j < select.structs.len() && select.structs[j].s_type == target.structs[i].s_type
                    && #[trigger] select.structs[j].fields[k] != 0,
{
    let r = select_spec(target, select).structs;
    assert forall|i: int| 0 <= i < r.len() implies struct_ok(#[trigger] r[i]) && r[i].s_type
        == target.structs[i].s_type by {
        assert(struct_ok(target.structs[i]));
    }
    assert forall|i: int, k: int|
        0 <= i < target.structs.len() && 0 <= k < target.structs[i].fields.len()
            && #[trigger] r[i].fields[k] != 0 implies target.structs[i].fields[k] != 0 && exists|j: int|
        0 <= j < select.structs.len() && select.structs[j].s_type == target.structs[i].s_type
            && #[trigger] select.structs[j].fields[k] != 0 by {
        lemma_type_index(select.structs, target.structs[i].s_type);
    }
}

/// The query template is a valid chain of the same types, all cleared.
pub proof fn zeroed_features2_is_cleared_copy(src: ChainModel)
    requires
        chain_ok(src),
        all_known(src.structs),
    ensures
        chain_ok(zeroed_spec(src)),
        all_known(zeroed_spec(src).structs),
        forall|t: i32| has_type(zeroed_spec(src).structs, t) <==> has_type(src.structs, t),
        forall|i: int, k: int|
            0 <= i < zeroed_spec(src).structs.len() && 0 <= k < zeroed_spec(src).structs[i].fields.len()
                ==> #[trigger] zeroed_spec(src).structs[i].fields[k] == 0,
{
    let z = zeroed_spec(src).structs;
    let n = src.structs.len();
    assert forall|i: int| 0 <= i < z.len() implies #[trigger] z[i].s_type == src.structs[n - 1 - i].s_type
        && struct_ok(z[i]) && is_known(z[i].s_type) by {
        assert(is_known(src.structs[n - 1 - i].s_type));
    }
    assert forall|i: int, j: int|
        0 <= i < z.len() && 0 <= j < z.len() && i != j implies #[trigger] z[i].s_type
        != #[trigger] z[j].s_type by {
        assert(src.structs[n - 1 - i].s_type != src.structs[n - 1 - j].s_type);
    }
    assert forall|t: i32| has_type(z, t) <==> has_type(src.structs, t) by {
        if has_type(z, t) {
            let i = choose|i: int| 0 <= i < z.len() && #[trigger] z[i].s_type == t;
            assert(src.structs[n - 1 - i].s_type == t);
        }
        if has_type(src.structs, t) {
            let i = choose|i: int| 0 <= i < n && #[trigger] src.structs[i].s_type == t;
            assert(z[n - 1 - i].s_type == t);
        }
    }
}

/// The empty `VkPhysicalDeviceFeatures2` that the device request starts from.
pub open spec fn empty_chain() -> ChainModel {
    ChainModel { base: Seq::new(BASE_FEATURE_COUNT as nat, |k: int| 0u32), structs: Seq::empty() }
}

/// The features the device is asked for: what wgpu requires, then what
/// libplacebo requires, then what it recommends, merged in that order into an
/// empty chain.
pub open spec fn requested_spec(
    wgpu_required: ChainModel,
    placebo_required: ChainModel,
    placebo_recommended: ChainModel,
) -> ChainModel {
    merge_spec(
        merge_spec(merge_spec(empty_chain(), wgpu_required), placebo_required),
        placebo_recommended,
    )
}

/// Merges the features that wgpu requires and that libplacebo requires and
/// recommends into one request.
pub fn merge_requested_features(
    wgpu_required: &FeatureChain,
    placebo_required: &FeatureChain,
    placebo_recommended: &FeatureChain,
) -> (r: FeatureChain)
    requires
        chain_ok(wgpu_required@),
        chain_ok(placebo_required@),
        chain_ok(placebo_recommended@),
    ensures
        r@ == requested_spec(wgpu_required@, placebo_required@, placebo_recommended@),
        chain_ok(r@),
        all_known(r@.structs),
        forall|i: int|
            0 <= i < wgpu_required@.structs.len() && is_known(#[trigger] wgpu_required@.structs[i].s_type) ==> exists|j: int|
                0 <= j < r@.structs.len() && r@.structs[j].s_type == wgpu_required@.structs[i].s_type
                    && r@.structs[j].fields.len() == wgpu_required@.structs[i].fields.len() && forall|k: int|
                    0 <= k < wgpu_required@.structs[i].fields.len() ==> #[trigger] r@.structs[j].fields[k]
                        >= wgpu_required@.structs[i].fields[k],
        forall|i: int|
            0 <= i < placebo_required@.structs.len() && is_known(#[trigger] placebo_required@.structs[i].s_type) ==> exists|j: int|
                0 <= j < r@.structs.len() && r@.structs[j].s_type == placebo_required@.structs[i].s_type
                    && r@.structs[j].fields.len() == placebo_required@.structs[i].fields.len() && forall|k: int|
                    0 <= k < placebo_required@.structs[i].fields.len() ==> #[trigger] r@.structs[j].fields[k]
                        >= placebo_required@.structs[i].fields[k],
        forall|i: int|
            0 <= i < placebo_recommended@.structs.len() && is_known(#[trigger] placebo_recommended@.structs[i].s_type) ==> exists|j: int|
                0 <= j < r@.structs.len() && r@.structs[j].s_type == placebo_recommended@.structs[i].s_type
                    && r@.structs[j].fields.len() == placebo_recommended@.structs[i].fields.len() && forall|k: int|
                    0 <= k < placebo_recommended@.structs[i].fields.len() ==> #[trigger] r@.structs[j].fields[k]
                        >= placebo_recommended@.structs[i].fields[k],
{
    let mut base: Vec<u32> = Vec::new();
    let mut k: usize = 0;
    while k < BASE_FEATURE_COUNT
        invariant
            k <= BASE_FEATURE_COUNT,
            base@ == Seq::new(k as nat, |m: int| 0u32),
        decreases BASE_FEATURE_COUNT - k,
    {
        base.push(0);
        k = k + 1;
        assert(base@ =~= Seq::new(k as nat, |m: int| 0u32));
    }
    let mut features = FeatureChain { base, structs: Vec::new() };
    assert(features@.structs =~= empty_chain().structs);
    assert(features@.base =~= empty_chain().base);
    assert(features@ == empty_chain());
    proof {
        lemma_merge_valid(features@, wgpu_required@);
    }
    merge_features2(&mut features, wgpu_required);
    proof {
        lemma_merge_valid(features@, placebo_required@);
    }
    merge_features2(&mut features, placebo_required);
    proof {
        lemma_merge_valid(features@, placebo_recommended@);
    }
    merge_features2(&mut features, placebo_recommended);
    proof {
        requested_features_cover_every_input(wgpu_required@, placebo_required@, placebo_recommended@);
    }
    features
}

/// Narrows the requested features to what the device offers (`available`, the
/// filled-in query template) and checks that what wgpu and libplacebo require
/// survived.
pub fn select_features(
    features: FeatureChain,
    available: &FeatureChain,
    wgpu_required: &FeatureChain,
    placebo_required: &FeatureChain,
) -> (r: Result<FeatureChain, WgpuInitError>)
    requires
        chain_ok(features@),
        all_known(features@.structs),
        chain_ok(available@),
        chain_ok(wgpu_required@),
        chain_ok(placebo_required@),
    ensures
        match r {
            Ok(f) => f@ == select_spec(features@, available@),
            Err(e) => e == WgpuInitError::PhysicalDeviceUnsupported,
        },
        r is Ok <==> (all_spec(select_spec(features@, available@), wgpu_required@) && all_spec(
            select_spec(features@, available@),
            placebo_required@,
        )),
        r is Ok <==> (entries_cover(select_spec(features@, available@).structs, wgpu_required@.structs)
            && entries_cover(select_spec(features@, available@).structs, placebo_required@.structs)),
{
    proof {
        all_features2_compares_every_entry(select_spec(features@, available@), wgpu_required@);
        all_features2_compares_every_entry(select_spec(features@, available@), placebo_required@);
    }
    let mut features = features;
    proof {
        select_features2_keeps_only_selected(features@, available@);
    }
    select_features2(&mut features, available);
    if !all_features2(&features, wgpu_required) {
        return Err(WgpuInitError::PhysicalDeviceUnsupported);
    }
    if !all_features2(&features, placebo_required) {
        return Err(WgpuInitError::PhysicalDeviceUnsupported);
    }
    Ok(features)
}

/// Every entry of `lhs` is at least the same entry of the structure of the
/// same type in `rhs`.
pub open spec fn entries_cover(lhs: Seq<FeatureModel>, rhs: Seq<FeatureModel>) -> bool {
    forall|i: int, j: int, k: int|
        0 <= i < lhs.len() && 0 <= j < rhs.len() && lhs[i].s_type == rhs[j].s_type && 0 <= k
            < lhs[i].fields.len() ==> #[trigger] lhs[i].fields[k] >= #[trigger] rhs[j].fields[k]
}

/// `all_features2` compares every entry of every pair of structures of the
/// same type: it holds exactly when no entry of `lhs` is below the same entry
/// of `rhs`.
pub proof fn all_features2_compares_every_entry(lhs: ChainModel, rhs: ChainModel)
    requires
        chain_ok(rhs),
    ensures
        all_spec(lhs, rhs) <==> forall|i: int, j: int, k: int|
            0 <= i < lhs.structs.len() && 0 <= j < rhs.structs.len() && lhs.structs[i].s_type
                == rhs.structs[j].s_type && 0 <= k < lhs.structs[i].fields.len()
                ==> #[trigger] lhs.structs[i].fields[k] >= #[trigger] rhs.structs[j].fields[k],
{
    let l = lhs.structs;
    let r = rhs.structs;
    if all_spec(lhs, rhs) {
        assert forall|i: int, j: int, k: int|
            0 <= i < l.len() && 0 <= j < r.len() && l[i].s_type == r[j].s_type && 0 <= k
                < l[i].fields.len() implies #[trigger] l[i].fields[k] >= #[trigger] r[j].fields[k] by {
            lemma_type_index_unique(r, j);
            assert(covers_struct(l[i], r));
        }
    }
    if forall|i: int, j: int, k: int|
        0 <= i < l.len() && 0 <= j < r.len() && l[i].s_type == r[j].s_type && 0 <= k
            < l[i].fields.len() ==> #[trigger] l[i].fields[k] >= #[trigger] r[j].fields[k] {
        assert forall|i: int| 0 <= i < l.len() implies covers_struct(#[trigger] l[i], r) by {
            lemma_type_index(r, l[i].s_type);
        }
    }
}

/// `y` is of the type of `x`, has as many entries, and enables at least what
/// `x` enables.
pub open spec fn dominates(y: FeatureModel, x: FeatureModel) -> bool {
    &&& y.s_type == x.s_type
    &&& y.fields.len() == x.fields.len()
    &&& forall|k: int| 0 <= k < x.fields.len() ==> #[trigger] y.fields[k] >= x.fields[k]
}

/// Some structure of `s` dominates `x`.
pub open spec fn dominated_in(x: FeatureModel, s: Seq<FeatureModel>) -> bool {
    exists|j: int| 0 <= j < s.len() && dominates(#[trigger] s[j], x)
}

proof fn lemma_dominates_trans(z: FeatureModel, y: FeatureModel, x: FeatureModel)
    requires
        dominates(z, y),
        dominates(y, x),
    ensures
        dominates(z, x),
{
    assert forall|k: int| 0 <= k < x.fields.len() implies #[trigger] z.fields[k] >= x.fields[k] by {
        assert(z.fields[k] >= y.fields[k]);
        assert(y.fields[k] >= x.fields[k]);
    }
}

proof fn lemma_or_fields_dominates(a: Seq<u32>, b: Seq<u32>)
    requires
        a.len() == b.len(),
    ensures
        forall|k: int| 0 <= k < a.len() ==> #[trigger] or_fields(a, b)[k] >= a[k] && or_fields(a, b)[k] >= b[k],
{
    assert forall|k: int| 0 <= k < a.len() implies #[trigger] or_fields(a, b)[k] >= a[k] && or_fields(a, b)[k]
        >= b[k] by {
        let x = a[k];
        let y = b[k];
        assert(or_fields(a, b)[k] == x | y);
        assert(x | y >= x && x | y >= y) by (bit_vector);
    }
}

/// A merge keeps, for every structure of the target and every known structure
/// of `other`, a structure that enables at least as much.
proof fn lemma_merge_dominates(target: ChainModel, other: ChainModel)
    requires
        chain_ok(target),
        chain_ok(other),
        shared_types_known(target, other),
    ensures
        forall|i: int| 0 <= i < target.structs.len() ==> dominated_in(#[trigger] target.structs[i], merge_spec(target, other).structs),
        forall|i: int|
            0 <= i < other.structs.len() && is_known(#[trigger] other.structs[i].s_type) ==> dominated_in(
                other.structs[i],
                merge_spec(target, other).structs,
            ),
{
    let ts = target.structs;
    let os = other.structs;
    let l = sorted_leftovers(os, ts);
    let m = ts.map_values(|t: FeatureModel| merged_struct(t, os));
    let r = merge_spec(target, other).structs;
    lemma_sorted_leftovers(os, ts);
    assert(r == l + m);
    assert forall|i: int| 0 <= i < ts.len() implies dominated_in(#[trigger] ts[i], r) by {
        let t = ts[i];
        assert(r[l.len() + i] == m[i]);
        lemma_type_index(os, t.s_type);
        match type_index(os, t.s_type) {
            Some(j) => {
                assert(has_type(os, t.s_type));
                assert(is_known(t.s_type));
                assert(struct_ok(t) && struct_ok(os[j]));
                lemma_or_fields_dominates(t.fields, os[j].fields);
            },
            None => {},
        }
        assert(dominates(r[l.len() + i], t));
    }
    assert forall|i: int|
        0 <= i < os.len() && is_known(#[trigger] os[i].s_type) implies dominated_in(os[i], r) by {
        let o = os[i];
        lemma_type_index(ts, o.s_type);
        match type_index(ts, o.s_type) {
            Some(ti) => {
                let t = ts[ti];
                assert(has_type(os, t.s_type));
                assert(struct_ok(t) && struct_ok(o));
                lemma_type_index_unique(os, i);
                assert(r[l.len() + ti] == m[ti]);
                lemma_or_fields_dominates(t.fields, o.fields);
                assert(dominates(r[l.len() + ti], o));
            },
            None => {
                assert(is_leftover(o, ts));
                assert(os.contains(o));
                assert(l.contains(o));
                let j = choose|j: int| 0 <= j < l.len() && l[j] == o;
                assert(r[j] == l[j]);
                assert(dominates(r[j], o));
            },
        }
    }
}

proof fn lemma_dominated_unfold(x: FeatureModel, s: Seq<FeatureModel>)
    requires
        dominated_in(x, s),
    ensures
        exists|j: int|
            0 <= j < s.len() && s[j].s_type == x.s_type && s[j].fields.len() == x.fields.len() && forall|k: int|
                0 <= k < x.fields.len() ==> #[trigger] s[j].fields[k] >= x.fields[k],
{
    let j = choose|j: int| 0 <= j < s.len() && dominates(#[trigger] s[j], x);
    assert(dominates(s[j], x));
}

/// Carries domination in a target through a merge.
proof fn lemma_dominated_through_merge(x: FeatureModel, target: ChainModel, other: ChainModel)
    requires
        chain_ok(target),
        chain_ok(other),
        shared_types_known(target, other),
        dominated_in(x, target.structs),
    ensures
        dominated_in(x, merge_spec(target, other).structs),
{
    lemma_merge_dominates(target, other);
    let j = choose|j: int| 0 <= j < target.structs.len() && dominates(#[trigger] target.structs[j], x);
    let y = target.structs[j];
    assert(dominated_in(y, merge_spec(target, other).structs));
    let r = merge_spec(target, other).structs;
    let h = choose|h: int| 0 <= h < r.len() && dominates(#[trigger] r[h], y);
    lemma_dominates_trans(r[h], y, x);
}

/// The device request covers each of the three chains it is made from: for
/// every structure of a known type in what wgpu requires, what libplacebo
/// requires or what it recommends, the request holds a structure of the same
/// `sType`, with as many entries, none of them below that structure's entry.
pub proof fn requested_features_cover_every_input(
    wgpu_required: ChainModel,
    placebo_required: ChainModel,
    placebo_recommended: ChainModel,
)
    requires
        chain_ok(wgpu_required),
        chain_ok(placebo_required),
        chain_ok(placebo_recommended),
    ensures
        forall|i: int|
            0 <= i < wgpu_required.structs.len() && is_known(#[trigger] wgpu_required.structs[i].s_type) ==> exists|j: int|
                0 <= j < requested_spec(wgpu_required, placebo_required, placebo_recommended).structs.len()
                    && requested_spec(wgpu_required, placebo_required, placebo_recommended).structs[j].s_type == wgpu_required.structs[i].s_type
                    && requested_spec(wgpu_required, placebo_required, placebo_recommended).structs[j].fields.len() == wgpu_required.structs[i].fields.len()
                    && forall|k: int|
                    0 <= k < wgpu_required.structs[i].fields.len() ==> #[trigger] requested_spec(wgpu_required, placebo_required, placebo_recommended).structs[j].fields[k]
                        >= wgpu_required.structs[i].fields[k],
        forall|i: int|
            0 <= i < placebo_required.structs.len() && is_known(#[trigger] placebo_required.structs[i].s_type) ==> exists|j: int|
                0 <= j < requested_spec(wgpu_required, placebo_required, placebo_recommended).structs.len()
                    && requested_spec(wgpu_required, placebo_required, placebo_recommended).structs[j].s_type == placebo_required.structs[i].s_type
                    && requested_spec(wgpu_required, placebo_required, placebo_recommended).structs[j].fields.len() == placebo_required.structs[i].fields.len()
                    && forall|k: int|
                    0 <= k < placebo_required.structs[i].fields.len() ==> #[trigger] requested_spec(wgpu_required, placebo_required, placebo_recommended).structs[j].fields[k]
                        >= placebo_required.structs[i].fields[k],
        forall|i: int|
            0 <= i < placebo_recommended.structs.len() && is_known(#[trigger] placebo_recommended.structs[i].s_type) ==> exists|j: int|
                0 <= j < requested_spec(wgpu_required, placebo_required, placebo_recommended).structs.len()
                    && requested_spec(wgpu_required, placebo_required, placebo_recommended).structs[j].s_type == placebo_recommended.structs[i].s_type
                    && requested_spec(wgpu_required, placebo_required, placebo_recommended).structs[j].fields.len() == placebo_recommended.structs[i].fields.len()
                    && forall|k: int|
                    0 <= k < placebo_recommended.structs[i].fields.len() ==> #[trigger] requested_spec(wgpu_required, placebo_required, placebo_recommended).structs[j].fields[k]
                        >= placebo_recommended.structs[i].fields[k],
{
    let e = empty_chain();
    let a = merge_spec(e, wgpu_required);
    let b = merge_spec(a, placebo_required);
    let r = merge_spec(b, placebo_recommended);
    assert(all_known(e.structs));
    lemma_merge_valid(e, wgpu_required);
    lemma_merge_valid(a, placebo_required);
    lemma_merge_valid(b, placebo_recommended);
    lemma_merge_dominates(e, wgpu_required);
    lemma_merge_dominates(a, placebo_required);
    lemma_merge_dominates(b, placebo_recommended);
    assert(r.structs == requested_spec(wgpu_required, placebo_required, placebo_recommended).structs);
    assert forall|i: int|
        0 <= i < wgpu_required.structs.len() && is_known(#[trigger] wgpu_required.structs[i].s_type) implies exists|j: int|
            0 <= j < requested_spec(wgpu_required, placebo_required, placebo_recommended).structs.len()
                && requested_spec(wgpu_required, placebo_required, placebo_recommended).structs[j].s_type == wgpu_required.structs[i].s_type
                && requested_spec(wgpu_required, placebo_required, placebo_recommended).structs[j].fields.len() == wgpu_required.structs[i].fields.len()
                && forall|k: int|
                0 <= k < wgpu_required.structs[i].fields.len() ==> #[trigger] requested_spec(wgpu_required, placebo_required, placebo_recommended).structs[j].fields[k]
                    >= wgpu_required.structs[i].fields[k] by {
        let x = wgpu_required.structs[i];
        lemma_dominated_through_merge(x, a, placebo_required);
        lemma_dominated_through_merge(x, b, placebo_recommended);
        lemma_dominated_unfold(x, requested_spec(wgpu_required, placebo_required, placebo_recommended).structs);
    }
    assert forall|i: int|
        0 <= i < placebo_required.structs.len() && is_known(#[trigger] placebo_required.structs[i].s_type) implies exists|j: int|
            0 <= j < requested_spec(wgpu_required, placebo_required, placebo_recommended).structs.len()
                && requested_spec(wgpu_required, placebo_required, placebo_recommended).structs[j].s_type == placebo_required.structs[i].s_type
                && requested_spec(wgpu_required, placebo_required, placebo_recommended).structs[j].fields.len() == placebo_required.structs[i].fields.len()
                && forall|k: int|
                0 <= k < placebo_required.structs[i].fields.len() ==> #[trigger] requested_spec(wgpu_required, placebo_required, placebo_recommended).structs[j].fields[k]
                    >= placebo_required.structs[i].fields[k] by {
        let x = placebo_required.structs[i];
        lemma_dominated_through_merge(x, b, placebo_recommended);
        lemma_dominated_unfold(x, requested_spec(wgpu_required, placebo_required, placebo_recommended).structs);
    }
    assert forall|i: int|
        0 <= i < placebo_recommended.structs.len() && is_known(#[trigger] placebo_recommended.structs[i].s_type) implies exists|j: int|
            0 <= j < requested_spec(wgpu_required, placebo_required, placebo_recommended).structs.len()
                && requested_spec(wgpu_required, placebo_required, placebo_recommended).structs[j].s_type == placebo_recommended.structs[i].s_type
                && requested_spec(wgpu_required, placebo_required, placebo_recommended).structs[j].fields.len() == placebo_recommended.structs[i].fields.len()
                && forall|k: int|
                0 <= k < placebo_recommended.structs[i].fields.len() ==> #[trigger] requested_spec(wgpu_required, placebo_required, placebo_recommended).structs[j].fields[k]
                    >= placebo_recommended.structs[i].fields[k] by {
        let x = placebo_recommended.structs[i];
        
        lemma_dominated_unfold(x, requested_spec(wgpu_required, placebo_required, placebo_recommended).structs);
    }
}

} // verus!
