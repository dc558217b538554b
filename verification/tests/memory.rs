use render_setup::memory::{
    find_memory_type, MEMORY_PROPERTY_DEVICE_LOCAL, MEMORY_PROPERTY_HOST_COHERENT,
    MEMORY_PROPERTY_HOST_VISIBLE,
};

#[test]
fn first_suitable_type_wins() {
    let mem_types = vec![
        MEMORY_PROPERTY_DEVICE_LOCAL,
        MEMORY_PROPERTY_HOST_VISIBLE | MEMORY_PROPERTY_HOST_COHERENT,
        MEMORY_PROPERTY_HOST_VISIBLE,
    ];
    // all types admitted by the filter: the first host-visible one is type 1
    let chosen = find_memory_type(0b111, MEMORY_PROPERTY_HOST_VISIBLE, &mem_types);
    assert_eq!(chosen, 1);
}

#[test]
fn type_filter_excludes_types() {
    let mem_types = vec![
        MEMORY_PROPERTY_DEVICE_LOCAL,
        MEMORY_PROPERTY_HOST_VISIBLE | MEMORY_PROPERTY_HOST_COHERENT,
        MEMORY_PROPERTY_HOST_VISIBLE,
    ];
    // the filter rules type 1 out, so the search lands on type 2
    let chosen = find_memory_type(0b101, MEMORY_PROPERTY_HOST_VISIBLE, &mem_types);
    assert_eq!(chosen, 2);
}

#[test]
fn all_required_flags_must_be_present() {
    let mem_types = vec![
        MEMORY_PROPERTY_HOST_VISIBLE,
        MEMORY_PROPERTY_HOST_VISIBLE | MEMORY_PROPERTY_HOST_COHERENT,
    ];
    let required = MEMORY_PROPERTY_HOST_VISIBLE | MEMORY_PROPERTY_HOST_COHERENT;
    let chosen = find_memory_type(0b11, required, &mem_types);
    assert_eq!(chosen, 1);
}

#[test]
fn device_local_lookup() {
    let mem_types = vec![
        MEMORY_PROPERTY_HOST_VISIBLE | MEMORY_PROPERTY_HOST_COHERENT,
        MEMORY_PROPERTY_DEVICE_LOCAL,
    ];
    let chosen = find_memory_type(0b11, MEMORY_PROPERTY_DEVICE_LOCAL, &mem_types);
    assert_eq!(chosen, 1);
}
