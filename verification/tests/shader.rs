use render_setup::shader::{
    merge_layout_bindings, ConstantsBuilder, DescriptorSetBindings, DescriptorSetLayoutBinding,
    MergeConflict, SetBinding, SpecializationMapEntry,
};

fn binding(set: u32, binding: u32, stage_flags: u32) -> SetBinding {
    SetBinding {
        set,
        binding: DescriptorSetLayoutBinding {
            binding,
            descriptor_type: 6,
            descriptor_count: 1,
            stage_flags,
        },
    }
}

#[test]
fn new_builder_is_empty() {
    let builder = ConstantsBuilder::new();
    assert!(builder.data().is_empty());
    assert!(builder.entry_map().is_empty());
}

#[test]
fn one_constant_little_endian() {
    let builder = ConstantsBuilder::new().add_u32(0x0102_0304);
    assert_eq!(builder.data(), &vec![0x04, 0x03, 0x02, 0x01]);
    assert_eq!(
        builder.entry_map(),
        &vec![SpecializationMapEntry {
            constant_id: 0,
            offset: 0,
            size: 4,
        }]
    );
}

#[test]
fn constants_are_laid_out_consecutively() {
    let builder = ConstantsBuilder::new().add_u32(1).add_u32(0xdead_beef);
    assert_eq!(
        builder.data(),
        &vec![0x01, 0x00, 0x00, 0x00, 0xef, 0xbe, 0xad, 0xde]
    );
    assert_eq!(
        builder.entry_map(),
        &vec![
            SpecializationMapEntry {
                constant_id: 0,
                offset: 0,
                size: 4,
            },
            SpecializationMapEntry {
                constant_id: 1,
                offset: 4,
                size: 4,
            },
        ]
    );
}

#[test]
fn merge_of_nothing_is_empty() {
    let merged = merge_layout_bindings(&vec![]).unwrap();
    assert!(merged.is_empty());
}

#[test]
fn merge_sorts_sets_and_bindings() {
    // a vertex shader declaring set 1 and a fragment shader declaring
    // set 0, bindings listed out of order
    let items = vec![
        binding(1, 2, 0x01),
        binding(1, 0, 0x01),
        binding(0, 1, 0x10),
        binding(1, 1, 0x10),
    ];
    let merged = merge_layout_bindings(&items).unwrap();
    assert_eq!(merged.len(), 2);

    assert_eq!(merged[0].set, 0);
    let set0: Vec<u32> = merged[0].bindings.iter().map(|b| b.binding).collect();
    assert_eq!(set0, vec![1]);

    assert_eq!(merged[1].set, 1);
    let set1: Vec<u32> = merged[1].bindings.iter().map(|b| b.binding).collect();
    assert_eq!(set1, vec![0, 1, 2]);
}

#[test]
fn merge_keeps_binding_descriptions() {
    let items = vec![binding(3, 7, 0x20)];
    let merged = merge_layout_bindings(&items).unwrap();
    assert_eq!(
        merged,
        vec![DescriptorSetBindings {
            set: 3,
            bindings: vec![DescriptorSetLayoutBinding {
                binding: 7,
                descriptor_type: 6,
                descriptor_count: 1,
                stage_flags: 0x20,
            }],
        }]
    );
}

#[test]
fn merge_rejects_duplicate_binding_in_same_set() {
    // two shaders both declare binding 1 of set 0
    let items = vec![binding(0, 1, 0x01), binding(0, 2, 0x01), binding(0, 1, 0x10)];
    let conflict = merge_layout_bindings(&items).unwrap_err();
    assert_eq!(conflict, MergeConflict { set: 0, binding: 1 });
}

#[test]
fn merge_allows_same_binding_in_different_sets() {
    let items = vec![binding(0, 1, 0x01), binding(1, 1, 0x01)];
    let merged = merge_layout_bindings(&items).unwrap();
    assert_eq!(merged.len(), 2);
    assert_eq!(merged[0].bindings[0].binding, 1);
    assert_eq!(merged[1].bindings[0].binding, 1);
}
