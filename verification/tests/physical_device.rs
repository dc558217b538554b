use render_setup::physical_device::{
    check_device_extension_support, find_queue_family, is_phys_device_suitable,
    pick_physical_device, QueueFamilyIndices, QueueFamilyInfo,
};
use render_setup::swapchain::SurfaceFormat;

fn family(queue_count: u32, supports_graphics: bool, supports_present: bool) -> QueueFamilyInfo {
    QueueFamilyInfo {
        queue_count,
        supports_graphics,
        supports_present,
    }
}

#[test]
fn new_indices_are_empty() {
    let indices = QueueFamilyIndices::new();
    assert!(indices.graphics_family.is_none());
    assert!(indices.present_family.is_none());
    assert!(!indices.is_complete());
}

#[test]
fn is_complete_needs_both_families() {
    let only_graphics = QueueFamilyIndices {
        graphics_family: Some(0),
        present_family: None,
    };
    assert!(!only_graphics.is_complete());

    let only_present = QueueFamilyIndices {
        graphics_family: None,
        present_family: Some(1),
    };
    assert!(!only_present.is_complete());

    let both = QueueFamilyIndices {
        graphics_family: Some(0),
        present_family: Some(1),
    };
    assert!(both.is_complete());
}

#[test]
fn find_queue_family_empty() {
    let families: Vec<QueueFamilyInfo> = vec![];
    let indices = find_queue_family(&families);
    assert_eq!(indices.graphics_family, None);
    assert_eq!(indices.present_family, None);
}

#[test]
fn find_queue_family_single_universal_family() {
    let families = vec![family(4, true, true)];
    let indices = find_queue_family(&families);
    assert_eq!(indices.graphics_family, Some(0));
    assert_eq!(indices.present_family, Some(0));
}

#[test]
fn find_queue_family_split_families() {
    let families = vec![family(1, true, false), family(1, false, true)];
    let indices = find_queue_family(&families);
    assert_eq!(indices.graphics_family, Some(0));
    assert_eq!(indices.present_family, Some(1));
}

#[test]
fn find_queue_family_stops_once_complete() {
    // The scan stops after family 1, where one of each kind has been seen;
    // family 2 is never looked at.
    let families = vec![
        family(1, false, true),
        family(1, true, false),
        family(8, true, true),
    ];
    let indices = find_queue_family(&families);
    assert_eq!(indices.graphics_family, Some(1));
    assert_eq!(indices.present_family, Some(0));
}

#[test]
fn find_queue_family_keeps_last_qualifying_within_scan() {
    // Both family 0 and family 1 can run graphics; the scan only completes
    // at family 2, and by then the later graphics family has overwritten
    // the earlier one.
    let families = vec![
        family(1, true, false),
        family(1, true, false),
        family(1, false, true),
    ];
    let indices = find_queue_family(&families);
    assert_eq!(indices.graphics_family, Some(1));
    assert_eq!(indices.present_family, Some(2));
}

#[test]
fn find_queue_family_ignores_empty_families() {
    let families = vec![family(0, true, true), family(1, true, true)];
    let indices = find_queue_family(&families);
    assert_eq!(indices.graphics_family, Some(1));
    assert_eq!(indices.present_family, Some(1));
}

#[test]
fn extension_support_all_present() {
    let required = vec!["VK_KHR_swapchain".to_string()];
    let available = vec![
        "VK_KHR_surface".to_string(),
        "VK_KHR_swapchain".to_string(),
        "VK_EXT_debug_utils".to_string(),
    ];
    assert!(check_device_extension_support(&required, &available));
}

#[test]
fn extension_support_missing() {
    let required = vec!["VK_KHR_swapchain".to_string(), "VK_KHR_ray_tracing_pipeline".to_string()];
    let available = vec!["VK_KHR_surface".to_string(), "VK_KHR_swapchain".to_string()];
    assert!(!check_device_extension_support(&required, &available));
}

#[test]
fn extension_support_nothing_required() {
    let required: Vec<String> = vec![];
    let available: Vec<String> = vec![];
    assert!(check_device_extension_support(&required, &available));
}

#[test]
fn suitable_device() {
    let families = vec![family(2, true, true)];
    let available = vec!["VK_KHR_swapchain".to_string()];
    let formats = vec![SurfaceFormat {
        format: 50,
        color_space: 0,
    }];
    let present_modes = vec![2];
    assert!(is_phys_device_suitable(&families, &available, &formats, &present_modes));
}

#[test]
fn unsuitable_without_swapchain_extension() {
    let families = vec![family(2, true, true)];
    let available = vec!["VK_KHR_surface".to_string()];
    let formats = vec![SurfaceFormat {
        format: 50,
        color_space: 0,
    }];
    let present_modes = vec![2];
    assert!(!is_phys_device_suitable(&families, &available, &formats, &present_modes));
}

#[test]
fn unsuitable_without_formats_or_modes() {
    let families = vec![family(2, true, true)];
    let available = vec!["VK_KHR_swapchain".to_string()];
    let no_formats: Vec<SurfaceFormat> = vec![];
    let present_modes = vec![2];
    assert!(!is_phys_device_suitable(&families, &available, &no_formats, &present_modes));

    let formats = vec![SurfaceFormat {
        format: 50,
        color_space: 0,
    }];
    let no_modes: Vec<i32> = vec![];
    assert!(!is_phys_device_suitable(&families, &available, &formats, &no_modes));
}

#[test]
fn unsuitable_with_incomplete_queue_families() {
    let families = vec![family(2, true, false)];
    let available = vec!["VK_KHR_swapchain".to_string()];
    let formats = vec![SurfaceFormat {
        format: 50,
        color_space: 0,
    }];
    let present_modes = vec![2];
    assert!(!is_phys_device_suitable(&families, &available, &formats, &present_modes));
}

#[test]
fn pick_physical_device_takes_last_suitable() {
    let suitable = vec![false, true, true, false];
    assert_eq!(pick_physical_device(&suitable), Some(2));
}

#[test]
fn pick_physical_device_none_suitable() {
    let suitable = vec![false, false];
    assert_eq!(pick_physical_device(&suitable), None);
    let empty: Vec<bool> = vec![];
    assert_eq!(pick_physical_device(&empty), None);
}
