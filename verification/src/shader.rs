//! Specialization constants for shaders.
//!
//! A shader's specialization constants are handed to the driver as one blob
//! of bytes plus a map that says where each constant's bytes lie. The
//! builder here lays 32-bit constants out one after the other, in
//! little-endian byte order, numbering them from zero.

use vstd::prelude::*;

verus! {

/// One specialization constant entry: which constant it sets, and where its
/// bytes lie in the data blob.
#[derive(Clone, Copy, PartialEq, Eq, Structural, Debug)]
pub struct SpecializationMapEntry {
    pub constant_id: u32,
    pub offset: u32,
    pub size: usize,
}

/// The little-endian bytes of a 32-bit value.
pub open spec fn u32_le_bytes(v: u32) -> Seq<u8> {
    seq![
        (v & 0xff) as u8,
        ((v >> 8) & 0xff) as u8,
        ((v >> 16) & 0xff) as u8,
        ((v >> 24) & 0xff) as u8,
    ]
}

/// Builder of a specialization-constant blob: consecutive 32-bit constants,
/// each four little-endian bytes in the data with an entry describing them.
pub struct ConstantsBuilder {
    cur_constant: u32,
    cur_offset: u32,
    data: Vec<u8>,
    entry_map: Vec<SpecializationMapEntry>,
}

impl View for ConstantsBuilder {
    type V = (Seq<u8>, Seq<SpecializationMapEntry>);

    closed spec fn view(&self) -> (Seq<u8>, Seq<SpecializationMapEntry>) {
        (self.data@, self.entry_map@)
    }
}

impl ConstantsBuilder {
    /// The internal counters agree with the built vectors: one entry and
    /// four data bytes per constant added so far.
    pub closed spec fn wf(&self) -> bool {
        &&& self.cur_constant == self.entry_map@.len()
        &&& self.cur_offset == self.data@.len()
        &&& self.data@.len() == 4 * self.entry_map@.len()
    }

    pub fn new() -> (r: ConstantsBuilder)
        ensures
            r.wf(),
            r@.0 == Seq::<u8>::empty(),
            r@.1 == Seq::<SpecializationMapEntry>::empty(),
    {
        ConstantsBuilder { cur_constant: 0, cur_offset: 0, data: Vec::new(), entry_map: Vec::new() }
    }

    /// Append one 32-bit constant: an entry with the next constant id
    /// points at the four little-endian bytes laid at the end of the data.
    pub fn add_u32(self, val: u32) -> (r: ConstantsBuilder)
        requires
            self.wf(),
            self@.0.len() + 4 <= u32::MAX,
        ensures
            r.wf(),
            r@.0 == self@.0 + u32_le_bytes(val),
            r@.1 == self@.1.push(
                (SpecializationMapEntry {
                    constant_id: self@.1.len() as u32,
                    offset: self@.0.len() as u32,
                    size: 4,
                }),
            ),
    {
        let ghost d0 = self.data@;
        let mut r = self;
        r.entry_map.push(
            SpecializationMapEntry { constant_id: r.cur_constant, offset: r.cur_offset, size: 4 },
        );
        r.data.push((val & 0xff) as u8);
        r.data.push(((val >> 8) & 0xff) as u8);
        r.data.push(((val >> 16) & 0xff) as u8);
        r.data.push(((val >> 24) & 0xff) as u8);
        r.cur_constant = r.cur_constant + 1;
        r.cur_offset = r.cur_offset + 4;
        proof {
            assert(r.data@ =~= d0 + u32_le_bytes(val));
        }
        r
    }

    /// The specialization data blob built so far.
    pub fn data(&self) -> (r: &Vec<u8>)
        ensures
            r@ == self@.0,
    {
        &self.data
    }

    /// The entries built so far, one per constant.
    pub fn entry_map(&self) -> (r: &Vec<SpecializationMapEntry>)
        ensures
            r@ == self@.1,
    {
        &self.entry_map
    }
}

/// One descriptor binding as shader reflection reports it, reduced to the
/// plain values the merge reads.
#[derive(Clone, Copy, PartialEq, Eq, Structural, Debug)]
pub struct DescriptorSetLayoutBinding {
    pub binding: u32,
    pub descriptor_type: i32,
    pub descriptor_count: u32,
    pub stage_flags: u32,
}

/// A reflected binding together with the descriptor set it belongs to.
#[derive(Clone, Copy, PartialEq, Eq, Structural, Debug)]
pub struct SetBinding {
    pub set: u32,
    pub binding: DescriptorSetLayoutBinding,
}

/// The merged bindings of one descriptor set.
#[derive(Clone, PartialEq, Eq, Debug)]
pub struct DescriptorSetBindings {
    pub set: u32,
    pub bindings: Vec<DescriptorSetLayoutBinding>,
}

/// A merge conflict: the same binding of the same set is declared twice.
#[derive(Clone, Copy, PartialEq, Eq, Structural, Debug)]
pub struct MergeConflict {
    pub set: u32,
    pub binding: u32,
}

/// Whether two of the items name the same binding of the same set.
pub open spec fn has_conflict(items: Seq<SetBinding>) -> bool {
    exists|i: int, j: int|
        0 <= i < j < items.len() && items[i].set == items[j].set && items[i].binding.binding
            == items[j].binding.binding
}

/// Whether the item lies in the group of its set.
pub open spec fn item_in_groups(item: SetBinding, ret: Seq<DescriptorSetBindings>) -> bool {
    exists|g: int|
        0 <= g < ret.len() && (#[trigger] ret[g]).set == item.set && ret[g].bindings@.contains(
            item.binding,
        )
}

/// Every item lies in the group of its set.
pub open spec fn merged_covers(items: Seq<SetBinding>, ret: Seq<DescriptorSetBindings>) -> bool {
    forall|t: int| 0 <= t < items.len() ==> item_in_groups(#[trigger] items[t], ret)
}

/// Everything in the groups comes from the items.
pub open spec fn merged_from(items: Seq<SetBinding>, ret: Seq<DescriptorSetBindings>) -> bool {
    forall|g: int, k: int|
        0 <= g < ret.len() && 0 <= k < ret[g].bindings@.len() ==> items.contains(
            (SetBinding { set: ret[g].set, binding: #[trigger] ret[g].bindings@[k] }),
        )
}

/// The groups are sorted by set number, each group's bindings by binding
/// number, and no group is empty.
pub open spec fn merged_ordered(ret: Seq<DescriptorSetBindings>) -> bool {
    &&& forall|g1: int, g2: int| 0 <= g1 < g2 < ret.len() ==> ret[g1].set < ret[g2].set
    &&& forall|g: int, k1: int, k2: int|
        0 <= g < ret.len() && 0 <= k1 < k2 < ret[g].bindings@.len() ==> (#[trigger] ret[
        g].bindings@[k1]).binding < (#[trigger] ret[g].bindings@[k2]).binding
    &&& forall|g: int| 0 <= g < ret.len() ==> (#[trigger] ret[g]).bindings@.len() > 0
}

/// Merge the reflected bindings of all shaders, handed in one list, into
/// one group of bindings per descriptor set: groups ordered by set number,
/// bindings within a group by binding number. Two declarations of the same
/// binding of the same set are a conflict.
#[verifier::rlimit(40)]
pub fn merge_layout_bindings(items: &Vec<SetBinding>) -> (r: Result<
    Vec<DescriptorSetBindings>,
    MergeConflict,
>)
    ensures
        match r {
            Ok(ret) => {
                &&& !has_conflict(items@)
                &&& merged_ordered(ret@)
                &&& merged_covers(items@, ret@)
                &&& merged_from(items@, ret@)
            },
            Err(c) => {
                &&& has_conflict(items@)
                &&& exists|i: int, j: int|
                    0 <= i < j < items@.len() && items@[i].set == c.set
                        && items@[i].binding.binding == c.binding && items@[j].set == c.set
                        && items@[j].binding.binding == c.binding
            },
        },
{
    let mut ret: Vec<DescriptorSetBindings> = Vec::new();
    let n = items.len();
    let mut t: usize = 0;
    while t < n
        invariant
            n == items@.len(),
            0 <= t <= n,
            merged_ordered(ret@),
            merged_covers(items@.take(t as int), ret@),
            merged_from(items@.take(t as int), ret@),
            !has_conflict(items@.take(t as int)),
        decreases n - t,
    {
        let ghost processed = items@.take(t as int);
        let item = items[t];
        proof {
            assert(items@.take(t as int + 1) =~= processed.push(item));
        }

        // find where the item's set stands (or would stand) among the groups
        let mut g: usize = 0;
        while g < ret.len() && ret[g].set < item.set
            invariant
                0 <= g <= ret@.len(),
                forall|x: int| 0 <= x < g ==> ret@[x].set < item.set,
                merged_ordered(ret@),
                merged_covers(processed, ret@),
                merged_from(processed, ret@),
            decreases ret@.len() - g,
        {
            g += 1;
        }

        if g < ret.len() && ret[g].set == item.set {
            // find where the binding stands (or would stand) in the group
            let ghost b0 = ret@[g as int].bindings@;
            let m = ret[g].bindings.len();
            let mut k: usize = 0;
            while k < m && ret[g].bindings[k].binding < item.binding.binding
                invariant
                    g < ret@.len(),
                    m == ret@[g as int].bindings@.len(),
                    b0 == ret@[g as int].bindings@,
                    0 <= k <= m,
                    forall|x: int| 0 <= x < k ==> b0[x].binding < item.binding.binding,
                    merged_ordered(ret@),
                    merged_covers(processed, ret@),
                    merged_from(processed, ret@),
                decreases m - k,
            {
                k += 1;
            }

            if k < m && ret[g].bindings[k].binding == item.binding.binding {
                // the same binding of the same set was already declared
                proof {
                    assert(b0[k as int] == ret@[g as int].bindings@[k as int]);
                    assert(processed.contains(
                        (SetBinding { set: ret@[g as int].set, binding: b0[k as int] }),
                    ));
                    let j0 = choose|j0: int|
                        0 <= j0 < processed.len() && processed[j0] == (SetBinding {
                            set: ret@[g as int].set,
                            binding: b0[k as int],
                        });
                    assert(items@[j0] == processed[j0]);
                    assert(items@[t as int] == item);
                    assert(0 <= j0 < t < items@.len());
                    assert(items@[j0].set == item.set && items@[j0].binding.binding
                        == item.binding.binding);
                    assert(has_conflict(items@));
                }
                return Err(MergeConflict { set: item.set, binding: item.binding.binding });
            }

            // lay the binding into the group at its sorted place
            let ghost r0 = ret@;
            let mut grp = ret.remove(g);
            grp.bindings.insert(k, item.binding);
            ret.insert(g, grp);
            proof {
                let grp2 = ret@[g as int];
                assert(grp2.set == r0[g as int].set);
                assert(grp2.bindings@ == b0.insert(k as int, item.binding));
                r0.remove_ensures(g as int);
                r0.remove(g as int).insert_ensures(g as int, grp2);
                assert(ret@.len() == r0.len());
                assert forall|x: int| 0 <= x < ret@.len() && x != g implies ret@[x] == r0[x] by {
                    if x > g {
                        assert(r0.remove(g as int)[x - 1] == r0[x]);
                    }
                }
                b0.insert_ensures(k as int, item.binding);
                // the group's bindings stay strictly sorted
                assert(forall|x: int| k < x < b0.len() + 1 ==> grp2.bindings@[x].binding
                    > item.binding.binding) by {
                    assert(k < m ==> b0[k as int].binding > item.binding.binding);
                }
                assert forall|k1: int, k2: int|
                    0 <= k1 < k2 < grp2.bindings@.len() implies grp2.bindings@[k1].binding
                    < grp2.bindings@[k2].binding by {
                    if k2 < k {
                        assert(grp2.bindings@[k1] == b0[k1] && grp2.bindings@[k2] == b0[k2]);
                    } else if k1 > k {
                        assert(grp2.bindings@[k1] == b0[k1 - 1] && grp2.bindings@[k2] == b0[k2
                            - 1]);
                    } else if k1 == k {
                        assert(grp2.bindings@[k2] == b0[k2 - 1]);
                    } else if k2 == k {
                        assert(grp2.bindings@[k1] == b0[k1]);
                    } else {
                        // k1 < k < k2
                        assert(grp2.bindings@[k1] == b0[k1]);
                        assert(grp2.bindings@[k2] == b0[k2 - 1]);
                    }
                }
                assert(merged_ordered(ret@));
                // all old bindings of the group are still there, one place on
                assert forall|v: DescriptorSetLayoutBinding| b0.contains(v)
                    implies grp2.bindings@.contains(v) by {
                    let x = choose|x: int| 0 <= x < b0.len() && b0[x] == v;
                    if x < k {
                        assert(grp2.bindings@[x] == v);
                    } else {
                        assert(grp2.bindings@[x + 1] == v);
                    }
                }
                assert(grp2.bindings@[k as int] == item.binding);
                assert forall|t2: int| 0 <= t2 < processed.push(item).len() implies item_in_groups(
                    processed.push(item)[t2],
                    ret@,
                ) by {
                    if t2 < processed.len() {
                        assert(processed.push(item)[t2] == processed[t2]);
                        let g2 = choose|g2: int|
                            0 <= g2 < r0.len() && (#[trigger] r0[g2]).set == processed[t2].set
                                && r0[g2].bindings@.contains(processed[t2].binding);
                        if g2 == g {
                            assert(ret@[g2].set == processed[t2].set);
                            assert(ret@[g2].bindings@.contains(processed[t2].binding));
                        } else {
                            assert(ret@[g2] == r0[g2]);
                        }
                    } else {
                        assert(processed.push(item)[t2] == item);
                        assert(ret@[g as int].set == item.set);
                        assert(ret@[g as int].bindings@.contains(item.binding));
                    }
                }
                assert(merged_covers(processed.push(item), ret@));
                assert forall|g2: int, k2: int|
                    0 <= g2 < ret@.len() && 0 <= k2 < ret@[g2].bindings@.len()
                    implies processed.push(item).contains(
                    (SetBinding { set: ret@[g2].set, binding: #[trigger] ret@[g2].bindings@[k2] }),
                ) by {
                    if g2 == g {
                        if k2 == k {
                            assert(SetBinding { set: ret@[g2].set, binding: ret@[g2].bindings@[k2] }
                                == item);
                            assert(processed.push(item)[processed.len() as int] == item);
                        } else {
                            let x: int = if k2 < k {
                                k2
                            } else {
                                k2 - 1
                            };
                            assert(ret@[g2].bindings@[k2] == b0[x]);
                            assert(processed.contains(
                                (SetBinding { set: r0[g as int].set, binding: b0[x] }),
                            ));
                            let j = choose|j: int|
                                0 <= j < processed.len() && processed[j] == (SetBinding {
                                    set: r0[g as int].set,
                                    binding: b0[x],
                                });
                            assert(processed.push(item)[j] == processed[j]);
                        }
                    } else {
                        assert(ret@[g2] == r0[g2]);
                        assert(processed.contains(
                            (SetBinding { set: r0[g2].set, binding: r0[g2].bindings@[k2] }),
                        ));
                        let j = choose|j: int|
                            0 <= j < processed.len() && processed[j] == (SetBinding {
                                set: r0[g2].set,
                                binding: r0[g2].bindings@[k2],
                            });
                        assert(processed.push(item)[j] == processed[j]);
                    }
                }
                assert(merged_from(processed.push(item), ret@));
                // the new item conflicts with nothing processed before it
                assert(!has_conflict(processed.push(item))) by {
                    if has_conflict(processed.push(item)) {
                        let (i2, j2) = choose|i2: int, j2: int|
                            0 <= i2 < j2 < processed.push(item).len() && processed.push(item)[i2].set
                                == processed.push(item)[j2].set && processed.push(
                                item,
                            )[i2].binding.binding == processed.push(item)[j2].binding.binding;
                        if j2 < processed.len() {
                            assert(processed[i2] == processed.push(item)[i2]);
                            assert(processed[j2] == processed.push(item)[j2]);
                            assert(has_conflict(processed));
                        } else {
                            // the partner i2 lies in the processed prefix and
                            // so in some group, which can only be group g
                            assert(processed.push(item)[i2] == processed[i2]);
                            assert(processed.push(item)[j2] == item);
                            let g2 = choose|g2: int|
                                0 <= g2 < r0.len() && (#[trigger] r0[g2]).set == processed[i2].set
                                    && r0[g2].bindings@.contains(processed[i2].binding);
                            assert(g2 == g) by {
                                if g2 < g {
                                    assert(r0[g2].set < item.set);
                                } else if g2 > g {
                                    assert(r0[g as int].set < r0[g2].set);
                                }
                            }
                            let x = choose|x: int|
                                0 <= x < b0.len() && b0[x] == processed[i2].binding;
                            if x < k {
                                assert(b0[x].binding < item.binding.binding);
                            } else {
                                assert(b0[x].binding > item.binding.binding);
                            }
                        }
                    }
                }
            }
        } else {
            // no group of this set yet: open one at the sorted place
            let ghost r0 = ret@;
            let mut bindings: Vec<DescriptorSetLayoutBinding> = Vec::new();
            bindings.push(item.binding);
            let grp = DescriptorSetBindings { set: item.set, bindings };
            ret.insert(g, grp);
            proof {
                r0.insert_ensures(g as int, grp);
                assert(ret@[g as int] == grp);
                assert(grp.bindings@.len() == 1 && grp.bindings@[0] == item.binding);
                // no group of this set existed before
                assert forall|g2: int| 0 <= g2 < r0.len() implies r0[g2].set != item.set by {
                    if g2 >= g {
                        assert(g < r0.len() ==> r0[g as int].set > item.set);
                        assert(g2 > g ==> r0[g as int].set < r0[g2].set);
                    }
                }
                // the groups stay strictly sorted by set
                assert forall|g1: int, g2: int| 0 <= g1 < g2 < ret@.len() implies ret@[g1].set
                    < ret@[g2].set by {
                    if g1 < g && g2 > g {
                        assert(ret@[g1] == r0[g1] && ret@[g2] == r0[g2 - 1]);
                        assert(r0[g1].set < item.set);
                        assert(r0[g2 - 1].set > item.set);
                    } else if g2 == g {
                        assert(ret@[g1] == r0[g1]);
                    } else if g1 == g {
                        assert(ret@[g2] == r0[g2 - 1]);
                        assert(r0[g2 - 1].set > item.set);
                    } else if g2 < g {
                        assert(ret@[g1] == r0[g1] && ret@[g2] == r0[g2]);
                    } else {
                        assert(ret@[g1] == r0[g1 - 1] && ret@[g2] == r0[g2 - 1]);
                    }
                }
                assert(merged_ordered(ret@));
                assert forall|t2: int| 0 <= t2 < processed.push(item).len() implies item_in_groups(
                    processed.push(item)[t2],
                    ret@,
                ) by {
                    if t2 < processed.len() {
                        assert(processed.push(item)[t2] == processed[t2]);
                        let g2 = choose|g2: int|
                            0 <= g2 < r0.len() && (#[trigger] r0[g2]).set == processed[t2].set
                                && r0[g2].bindings@.contains(processed[t2].binding);
                        if g2 < g {
                            assert(ret@[g2] == r0[g2]);
                        } else {
                            assert(ret@[g2 + 1] == r0[g2]);
                        }
                    } else {
                        assert(processed.push(item)[t2] == item);
                        assert(ret@[g as int].set == item.set);
                        assert(ret@[g as int].bindings@[0] == item.binding);
                        assert(ret@[g as int].bindings@.contains(item.binding));
                    }
                }
                assert(merged_covers(processed.push(item), ret@));
                assert forall|g2: int, k2: int|
                    0 <= g2 < ret@.len() && 0 <= k2 < ret@[g2].bindings@.len()
                    implies processed.push(item).contains(
                    (SetBinding { set: ret@[g2].set, binding: #[trigger] ret@[g2].bindings@[k2] }),
                ) by {
                    if g2 == g {
                        assert(ret@[g2].bindings@[k2] == item.binding);
                        assert(SetBinding { set: ret@[g2].set, binding: ret@[g2].bindings@[k2] }
                            == item);
                        assert(processed.push(item)[processed.len() as int] == item);
                    } else {
                        let x: int = if g2 < g {
                            g2
                        } else {
                            g2 - 1
                        };
                        assert(ret@[g2] == r0[x]);
                        assert(processed.contains(
                            (SetBinding { set: r0[x].set, binding: r0[x].bindings@[k2] }),
                        ));
                        let j = choose|j: int|
                            0 <= j < processed.len() && processed[j] == (SetBinding {
                                set: r0[x].set,
                                binding: r0[x].bindings@[k2],
                            });
                        assert(processed.push(item)[j] == processed[j]);
                    }
                }
                assert(merged_from(processed.push(item), ret@));
                // nothing processed before shares the new item's set at all
                assert(!has_conflict(processed.push(item))) by {
                    if has_conflict(processed.push(item)) {
                        let (i2, j2) = choose|i2: int, j2: int|
                            0 <= i2 < j2 < processed.push(item).len() && processed.push(item)[i2].set
                                == processed.push(item)[j2].set && processed.push(
                                item,
                            )[i2].binding.binding == processed.push(item)[j2].binding.binding;
                        if j2 < processed.len() {
                            assert(processed[i2] == processed.push(item)[i2]);
                            assert(processed[j2] == processed.push(item)[j2]);
                            assert(has_conflict(processed));
                        } else {
                            assert(processed.push(item)[i2] == processed[i2]);
                            assert(processed.push(item)[j2] == item);
                            let g2 = choose|g2: int|
                                0 <= g2 < r0.len() && (#[trigger] r0[g2]).set == processed[i2].set
                                    && r0[g2].bindings@.contains(processed[i2].binding);
                        }
                    }
                }
            }
        }
        t += 1;
    }
    proof {
        assert(items@.take(n as int) =~= items@);
    }
    Ok(ret)
}

} // verus!
