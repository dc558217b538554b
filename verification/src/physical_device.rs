//! Selection of a physical device and its queue families.
//!
//! The device queries themselves (enumerating devices, queue family
//! properties, surface support) are I/O against the graphics driver and live
//! outside this library; the functions here take the queried data as plain
//! values and make the selection decisions.

use vstd::prelude::*;

verus! {

/// Queue family indices chosen for a device: one family that can run
/// graphics work and one that can present to the surface.
pub struct QueueFamilyIndices {
    pub graphics_family: Option<u32>,
    pub present_family: Option<u32>,
}

impl QueueFamilyIndices {
    pub fn new() -> (r: QueueFamilyIndices)
        ensures
            r.graphics_family is None,
            r.present_family is None,
    {
        QueueFamilyIndices { graphics_family: None, present_family: None }
    }

    pub fn is_complete(&self) -> (r: bool)
        ensures
            r == (self.graphics_family is Some && self.present_family is Some),
    {
        self.graphics_family.is_some() && self.present_family.is_some()
    }
}

/// What the driver reported about one queue family, as far as the selection
/// reads it: how many queues it has, and whether it supports graphics work
/// and presentation to the surface.
#[derive(Clone, Copy, PartialEq, Eq, Structural, Debug)]
pub struct QueueFamilyInfo {
    pub queue_count: u32,
    pub supports_graphics: bool,
    pub supports_present: bool,
}

pub open spec fn graphics_ok(f: QueueFamilyInfo) -> bool {
    f.queue_count > 0 && f.supports_graphics
}

pub open spec fn present_ok(f: QueueFamilyInfo) -> bool {
    f.queue_count > 0 && f.supports_present
}

/// Whether some family among the first `n` can run graphics work.
pub open spec fn has_graphics_in(fs: Seq<QueueFamilyInfo>, n: int) -> bool {
    exists|i: int| 0 <= i < n && graphics_ok(fs[i])
}

/// Whether some family among the first `n` can present.
pub open spec fn has_present_in(fs: Seq<QueueFamilyInfo>, n: int) -> bool {
    exists|i: int| 0 <= i < n && present_ok(fs[i])
}

pub open spec fn scan_len_from(fs: Seq<QueueFamilyInfo>, i: int) -> int
    decreases fs.len() - i,
{
    if i < 0 || i >= fs.len() {
        fs.len() as int
    } else if has_graphics_in(fs, i + 1) && has_present_in(fs, i + 1) {
        i + 1
    } else {
        scan_len_from(fs, i + 1)
    }
}

/// How many families the scan examines: it stops early after the first
/// family at which both a graphics and a present family have been seen.
pub open spec fn scan_len(fs: Seq<QueueFamilyInfo>) -> int {
    scan_len_from(fs, 0)
}

/// The graphics family the scan reports: the last family among the first
/// `n` that can run graphics work.
pub open spec fn last_graphics_family(fs: Seq<QueueFamilyInfo>, n: int) -> Option<u32>
    decreases n,
{
    if n <= 0 {
        None
    } else if graphics_ok(fs[n - 1]) {
        Some((n - 1) as u32)
    } else {
        last_graphics_family(fs, n - 1)
    }
}

/// The present family the scan reports: the last family among the first `n`
/// that can present.
pub open spec fn last_present_family(fs: Seq<QueueFamilyInfo>, n: int) -> Option<u32>
    decreases n,
{
    if n <= 0 {
        None
    } else if present_ok(fs[n - 1]) {
        Some((n - 1) as u32)
    } else {
        last_present_family(fs, n - 1)
    }
}

/// Whether the device has both a graphics-capable and a present-capable
/// queue family.
pub open spec fn queue_families_complete(fs: Seq<QueueFamilyInfo>) -> bool {
    has_graphics_in(fs, fs.len() as int) && has_present_in(fs, fs.len() as int)
}

proof fn lemma_scan_len_prefix(fs: Seq<QueueFamilyInfo>, k: int)
    requires
        0 <= k <= fs.len(),
        forall|m: int| 0 < m <= k ==> !(has_graphics_in(fs, m) && has_present_in(fs, m)),
    ensures
        scan_len(fs) == scan_len_from(fs, k),
    decreases k,
{
    if k > 0 {
        lemma_scan_len_prefix(fs, k - 1);
        assert(scan_len_from(fs, k - 1) == scan_len_from(fs, k));
    }
}

proof fn lemma_scan_len_bounds(fs: Seq<QueueFamilyInfo>, i: int)
    requires
        0 <= i <= fs.len(),
    ensures
        i <= scan_len_from(fs, i) <= fs.len(),
        scan_len_from(fs, i) < fs.len() ==> has_graphics_in(fs, scan_len_from(fs, i))
            && has_present_in(fs, scan_len_from(fs, i)),
    decreases fs.len() - i,
{
    if i < fs.len() {
        if !(has_graphics_in(fs, i + 1) && has_present_in(fs, i + 1)) {
            lemma_scan_len_bounds(fs, i + 1);
        }
    }
}

proof fn lemma_last_graphics_some(fs: Seq<QueueFamilyInfo>, n: int)
    requires
        n <= fs.len(),
        fs.len() <= u32::MAX,
    ensures
        (last_graphics_family(fs, n) is Some) == has_graphics_in(fs, n),
        last_graphics_family(fs, n) matches Some(g) ==> 0 <= g < n && graphics_ok(fs[g as int]),
    decreases n,
{
    if n > 0 {
        lemma_last_graphics_some(fs, n - 1);
        if graphics_ok(fs[n - 1]) {
            assert(has_graphics_in(fs, n));
        } else {
            assert(has_graphics_in(fs, n) == has_graphics_in(fs, n - 1)) by {
                if has_graphics_in(fs, n) {
                    let i = choose|i: int| 0 <= i < n && graphics_ok(fs[i]);
                    assert(0 <= i < n - 1 && graphics_ok(fs[i]));
                }
            }
        }
    }
}

proof fn lemma_last_present_some(fs: Seq<QueueFamilyInfo>, n: int)
    requires
        n <= fs.len(),
        fs.len() <= u32::MAX,
    ensures
        (last_present_family(fs, n) is Some) == has_present_in(fs, n),
        last_present_family(fs, n) matches Some(p) ==> 0 <= p < n && present_ok(fs[p as int]),
    decreases n,
{
    if n > 0 {
        lemma_last_present_some(fs, n - 1);
        if present_ok(fs[n - 1]) {
            assert(has_present_in(fs, n));
        } else {
            assert(has_present_in(fs, n) == has_present_in(fs, n - 1)) by {
                if has_present_in(fs, n) {
                    let i = choose|i: int| 0 <= i < n && present_ok(fs[i]);
                    assert(0 <= i < n - 1 && present_ok(fs[i]));
                }
            }
        }
    }
}

/// Scan the queue families in order for a graphics family and a present
/// family. Later qualifying families overwrite earlier ones, and the scan
/// stops as soon as one of each kind has been seen; so each reported index
/// is the last qualifying one within the scanned prefix.
pub fn find_queue_family(families: &Vec<QueueFamilyInfo>) -> (r: QueueFamilyIndices)
    requires
        families@.len() <= u32::MAX,
    ensures
        r.graphics_family == last_graphics_family(families@, scan_len(families@)),
        r.present_family == last_present_family(families@, scan_len(families@)),
        (r.graphics_family is Some && r.present_family is Some) == queue_families_complete(
            families@,
        ),
{
    let ghost fs = families@;
    let n = families.len();
    let mut result = QueueFamilyIndices::new();
    let mut i: usize = 0;
    while i < n && !(result.graphics_family.is_some() && result.present_family.is_some())
        invariant
            n == fs.len() <= u32::MAX,
            fs == families@,
            0 <= i <= n,
            result.graphics_family == last_graphics_family(fs, i as int),
            result.present_family == last_present_family(fs, i as int),
            forall|m: int| 0 < m < i ==> !(has_graphics_in(fs, m) && has_present_in(fs, m)),
            (result.graphics_family is Some && result.present_family is Some) == (
            has_graphics_in(fs, i as int) && has_present_in(fs, i as int)),
        decreases n - i,
    {
        let f = families[i];
        if f.queue_count > 0 && f.supports_graphics {
            result.graphics_family = Some(i as u32);
        }
        if f.queue_count > 0 && f.supports_present {
            result.present_family = Some(i as u32);
        }
        proof {
            lemma_last_graphics_some(fs, i + 1);
            lemma_last_present_some(fs, i + 1);
        }
        i += 1;
    }
    proof {
        if result.graphics_family is Some && result.present_family is Some {
            // the scan stopped because the prefix of length i is complete
            lemma_scan_len_prefix(fs, i - 1);
            assert(scan_len_from(fs, i - 1) == i as int);
        } else {
            // the scan ran through every family without completing
            assert(i == n);
            lemma_scan_len_prefix(fs, n as int);
            assert(scan_len_from(fs, n as int) == n as int);
        }
        lemma_last_graphics_some(fs, scan_len(fs));
        lemma_last_present_some(fs, scan_len(fs));
        lemma_scan_len_bounds(fs, 0);
    }
    result
}

/// Whether an extension with the given name is among the available ones.
pub open spec fn extension_available(available: Seq<String>, name: Seq<char>) -> bool {
    exists|j: int| 0 <= j < available.len() && available[j]@ == name
}

/// Whether every required extension is among the available ones.
pub open spec fn all_extensions_available(required: Seq<String>, available: Seq<String>) -> bool {
    forall|i: int| 0 <= i < required.len() ==> extension_available(available, required[i]@)
}

/// Whether the device offers every required extension, going by the
/// extension names it advertises.
pub fn check_device_extension_support(required: &Vec<String>, available: &Vec<String>) -> (r:
    bool)
    ensures
        r == all_extensions_available(required@, available@),
{
    let n = required.len();
    let mut i: usize = 0;
    while i < n
        invariant
            n == required@.len(),
            0 <= i <= n,
            forall|k: int| 0 <= k < i ==> extension_available(available@, required@[k]@),
        decreases n - i,
    {
        let name = &required[i];
        let m = available.len();
        let mut j: usize = 0;
        let mut found = false;
        while j < m
            invariant
                m == available@.len(),
                0 <= j <= m,
                name == required@[i as int],
                i < required@.len(),
                found ==> extension_available(available@, required@[i as int]@),
                !found ==> forall|l: int| 0 <= l < j ==> available@[l]@ != required@[i as int]@,
            decreases m - j,
        {
            if available[j] == *name {
                found = true;
                assert(extension_available(available@, required@[i as int]@));
            }
            j += 1;
        }
        if !found {
            assert(!extension_available(available@, required@[i as int]@));
            return false;
        }
        i += 1;
    }
    true
}

/// The name of the swapchain device extension.
pub open spec fn swapchain_extension_name() -> Seq<char> {
    "VK_KHR_swapchain"@
}

/// Whether a device is suitable: it has a graphics and a present queue
/// family, advertises the swapchain extension, and supports at least one
/// surface format and one present mode.
pub fn is_phys_device_suitable(
    families: &Vec<QueueFamilyInfo>,
    available_extensions: &Vec<String>,
    formats: &Vec<crate::swapchain::SurfaceFormat>,
    present_modes: &Vec<i32>,
) -> (r: bool)
    requires
        families@.len() <= u32::MAX,
    ensures
        r == (queue_families_complete(families@) && extension_available(
            available_extensions@,
            swapchain_extension_name(),
        ) && formats@.len() > 0 && present_modes@.len() > 0),
{
    let indices = find_queue_family(families);

    let mut required: Vec<String> = Vec::new();
    required.push(String::from_str("VK_KHR_swapchain"));
    let is_device_extension_supported = check_device_extension_support(
        &required,
        available_extensions,
    );
    proof {
        assert(required@.len() == 1);
        assert(required@[0]@ == swapchain_extension_name());
        if all_extensions_available(required@, available_extensions@) {
            assert(extension_available(available_extensions@, required@[0]@));
        }
    }
    let is_swapchain_supported = if is_device_extension_supported {
        formats.len() > 0 && present_modes.len() > 0
    } else {
        false
    };

    indices.is_complete() && is_device_extension_supported && is_swapchain_supported
}

/// The device the selection returns, given each device's suitability
/// verdict in enumeration order: the last suitable device.
pub open spec fn last_suitable_device(suitable: Seq<bool>, n: int) -> Option<usize>
    decreases n,
{
    if n <= 0 {
        None
    } else if suitable[n - 1] {
        Some((n - 1) as usize)
    } else {
        last_suitable_device(suitable, n - 1)
    }
}

/// Pick a device from the suitability verdicts, one per enumerated device:
/// the scan keeps the last suitable one, and reports none when no device
/// is suitable.
pub fn pick_physical_device(suitable: &Vec<bool>) -> (r: Option<usize>)
    ensures
        r == last_suitable_device(suitable@, suitable@.len() as int),
        (r is Some) == (exists|i: int| 0 <= i < suitable@.len() && suitable@[i]),
{
    let n = suitable.len();
    let mut result: Option<usize> = None;
    let mut i: usize = 0;
    while i < n
        invariant
            n == suitable@.len(),
            0 <= i <= n,
            result == last_suitable_device(suitable@, i as int),
            (result is Some) == (exists|k: int| 0 <= k < i && suitable@[k]),
        decreases n - i,
    {
        if suitable[i] {
            result = Some(i);
        }
        proof {
            if !suitable@[i as int] {
                if exists|k: int| 0 <= k < i + 1 && suitable@[k] {
                    let k = choose|k: int| 0 <= k < i + 1 && suitable@[k];
                    assert(0 <= k < i && suitable@[k]);
                }
            }
        }
        i += 1;
    }
    result
}

} // verus!
