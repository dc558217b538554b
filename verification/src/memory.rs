//! Choosing a device memory type for an allocation.
//!
//! The device's memory properties are queried outside this library; each
//! memory type is handed in as its property flag mask, in the order the
//! device reports them.

use vstd::prelude::*;

verus! {

/// Property flag bit: memory local to the graphics device.
pub const MEMORY_PROPERTY_DEVICE_LOCAL: u32 = 1;

/// Property flag bit: memory the host can map.
pub const MEMORY_PROPERTY_HOST_VISIBLE: u32 = 2;

/// Property flag bit: host writes reach the device without explicit flushes.
pub const MEMORY_PROPERTY_HOST_COHERENT: u32 = 4;

/// Whether memory type `i` may back the allocation: the allocation's type
/// filter has bit `i` set and the type's flags contain all required
/// property flags.
pub open spec fn memory_type_suitable(
    type_filter: u32,
    required_properties: u32,
    mem_types: Seq<u32>,
    i: int,
) -> bool {
    &&& type_filter & (1u32 << (i as u32)) > 0
    &&& mem_types[i] & required_properties == required_properties
}

/// The index of the first memory type that the type filter admits and whose
/// property flags contain all required properties.
pub fn find_memory_type(type_filter: u32, required_properties: u32, mem_types: &Vec<u32>) -> (r:
    u32)
    requires
        mem_types@.len() <= 32,
        exists|i: int|
            0 <= i < mem_types@.len() && memory_type_suitable(
                type_filter,
                required_properties,
                mem_types@,
                i,
            ),
    ensures
        0 <= r < mem_types@.len(),
        memory_type_suitable(type_filter, required_properties, mem_types@, r as int),
        forall|j: int|
            0 <= j < r ==> !memory_type_suitable(
                type_filter,
                required_properties,
                mem_types@,
                j,
            ),
{
    let n = mem_types.len();
    let mut i: usize = 0;
    while i < n
        invariant
            n == mem_types@.len() <= 32,
            0 <= i <= n,
            forall|j: int|
                0 <= j < i ==> !memory_type_suitable(
                    type_filter,
                    required_properties,
                    mem_types@,
                    j,
                ),
            exists|k: int|
                0 <= k < mem_types@.len() && memory_type_suitable(
                    type_filter,
                    required_properties,
                    mem_types@,
                    k,
                ),
        decreases n - i,
    {
        let bit: u32 = 1u32 << (i as u32);
        if type_filter & bit > 0 && mem_types[i] & required_properties == required_properties {
            return i as u32;
        }
        i += 1;
    }
    proof {
        assert(false);
    }
    unreached()
}

} // verus!
