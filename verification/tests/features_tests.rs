use lowpass_analysis::vulkan::errors::WgpuInitError;
use lowpass_analysis::vulkan::features::{
    all_features2, feature_field_count, merge_features2, merge_requested_features, select_features,
    select_features2, zeroed_features2, FeatureChain, FeatureStruct, BASE_FEATURE_COUNT,
};
use ash::vk::TaggedStructure;

const V11: i32 = 49;
const V12: i32 = 51;
const V13: i32 = 53;
const TIMELINE: i32 = 1000207000;

fn s(s_type: i32, fields: Vec<u32>) -> FeatureStruct {
    FeatureStruct { s_type, fields }
}

fn chain(structs: Vec<FeatureStruct>) -> FeatureChain {
    FeatureChain { base: vec![0; BASE_FEATURE_COUNT], structs }
}

fn ones(n: usize) -> Vec<u32> {
    vec![1; n]
}

fn types(c: &FeatureChain) -> Vec<i32> {
    c.structs.iter().map(|f| f.s_type).collect()
}

#[test]
fn feature_table_matches_vulkan_structure_types() {
    let table: [(ash::vk::StructureType, usize); 7] = [
        (ash::vk::PhysicalDeviceVulkan11Features::STRUCTURE_TYPE, 12),
        (ash::vk::PhysicalDeviceVulkan12Features::STRUCTURE_TYPE, 47),
        (ash::vk::PhysicalDeviceVulkan13Features::STRUCTURE_TYPE, 15),
        (ash::vk::PhysicalDeviceTimelineSemaphoreFeatures::STRUCTURE_TYPE, 1),
        (ash::vk::PhysicalDeviceDescriptorIndexingFeatures::STRUCTURE_TYPE, 20),
        (ash::vk::PhysicalDeviceShaderAtomicFloatFeaturesEXT::STRUCTURE_TYPE, 12),
        (ash::vk::PhysicalDeviceSwapchainMaintenance1FeaturesEXT::STRUCTURE_TYPE, 1),
    ];
    for (ty, count) in table {
        assert_eq!(feature_field_count(ty.as_raw()), Some(count));
    }
    assert_eq!(feature_field_count(55), Some(21));
    assert_eq!(feature_field_count(0), None);
    assert_eq!(feature_field_count(1000001000), None);
}

#[test]
fn merge_ors_shared_and_prepends_new_types_descending() {
    let mut target = chain(vec![s(V13, vec![1, 0, 0, 0, 0, 0, 0, 0, 0, 0, 0, 0, 0, 0, 0])]);
    let other = chain(vec![
        s(V11, ones(12)),
        s(V13, vec![0, 1, 0, 0, 0, 0, 0, 0, 0, 0, 0, 0, 0, 0, 1]),
        s(TIMELINE, vec![1]),
        s(77, vec![1, 1]),
        s(V12, vec![0; 47]),
    ]);
    merge_features2(&mut target, &other);
    assert_eq!(types(&target), vec![TIMELINE, V12, V11, V13]);
    assert_eq!(target.structs[3].fields, vec![1, 1, 0, 0, 0, 0, 0, 0, 0, 0, 0, 0, 0, 0, 1]);
    assert_eq!(target.structs[2].fields, ones(12));
    assert_eq!(target.base, vec![0; BASE_FEATURE_COUNT]);
    assert!(all_features2(&target, &other));
}

#[test]
fn merge_keeps_unmatched_unknown_target_structs() {
    let mut target = chain(vec![s(77, vec![5])]);
    let other = chain(vec![s(TIMELINE, vec![1])]);
    merge_features2(&mut target, &other);
    assert_eq!(types(&target), vec![TIMELINE, 77]);
    assert_eq!(target.structs[1].fields, vec![5]);
}

#[test]
fn all_features_compares_shared_types_only() {
    let lhs = chain(vec![s(TIMELINE, vec![1]), s(V11, vec![0; 12])]);
    let rhs = chain(vec![s(TIMELINE, vec![1]), s(V13, ones(15))]);
    assert!(all_features2(&lhs, &rhs));
    let rhs = chain(vec![s(V11, ones(12))]);
    assert!(!all_features2(&lhs, &rhs));
    assert!(all_features2(&lhs, &lhs));
}

#[test]
fn select_clears_what_is_not_selected() {
    let mut target = chain(vec![s(TIMELINE, vec![1]), s(V11, ones(12))]);
    let mut avail_v11 = ones(12);
    avail_v11[3] = 0;
    let select = chain(vec![s(V11, avail_v11.clone())]);
    select_features2(&mut target, &select);
    assert_eq!(types(&target), vec![TIMELINE, V11]);
    assert_eq!(target.structs[0].fields, vec![0]);
    assert_eq!(target.structs[1].fields, avail_v11);
}

#[test]
fn zeroed_reverses_and_clears() {
    let mut src = chain(vec![s(V11, ones(12)), s(TIMELINE, vec![1])]);
    src.base[0] = 1;
    let z = zeroed_features2(&src);
    assert_eq!(types(&z), vec![TIMELINE, V11]);
    assert_eq!(z.structs[0].fields, vec![0]);
    assert_eq!(z.structs[1].fields, vec![0; 12]);
    assert_eq!(z.base[0], 1);
}

#[test]
fn requested_features_then_selection() {
    let wgpu_required = chain(vec![s(TIMELINE, vec![1])]);
    let placebo_required = chain(vec![s(V11, vec![0, 0, 0, 0, 0, 0, 0, 0, 0, 0, 1, 0])]);
    let placebo_recommended = chain(vec![s(V13, ones(15)), s(V11, ones(12))]);
    let features = merge_requested_features(&wgpu_required, &placebo_required, &placebo_recommended);
    assert_eq!(types(&features), vec![V13, V11, TIMELINE]);
    assert_eq!(features.structs[1].fields, ones(12));
    let mut available = zeroed_features2(&features);
    assert_eq!(types(&available), vec![TIMELINE, V11, V13]);
    available.structs[0].fields = vec![1];
    available.structs[1].fields = vec![0, 0, 0, 0, 0, 0, 0, 0, 0, 0, 1, 0];
    let chosen = select_features(features, &available, &wgpu_required, &placebo_required).unwrap();
    assert_eq!(chosen.structs[0].fields, vec![0; 15]);
    assert_eq!(chosen.structs[1].fields, vec![0, 0, 0, 0, 0, 0, 0, 0, 0, 0, 1, 0]);
    assert_eq!(chosen.structs[2].fields, vec![1]);
}

#[test]
fn selection_without_required_feature_fails() {
    let wgpu_required = chain(vec![s(TIMELINE, vec![1])]);
    let placebo_required = chain(Vec::new());
    let placebo_recommended = chain(Vec::new());
    let features = merge_requested_features(&wgpu_required, &placebo_required, &placebo_recommended);
    let available = zeroed_features2(&features);
    assert_eq!(
        select_features(features, &available, &wgpu_required, &placebo_required).err(),
        Some(WgpuInitError::PhysicalDeviceUnsupported)
    );
}
