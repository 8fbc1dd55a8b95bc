//! The stash only drains: an eviction takes blocks out of the stash and never
//! puts one in.
use crate::branch_model::{evict_slots, evicted, packed, vacated, BranchModel};
use crate::path_oram::BlockMeta;
use vstd::prelude::*;

verus! {

/// The number of slots that hold a block.
pub open spec fn occupied_slots(slots: Seq<BlockMeta>) -> nat
    decreases slots.len(),
{
    if slots.len() == 0 {
        0
    } else {
        occupied_slots(slots.drop_last()) + if slots.last().is_vacant() {
            0nat
        } else {
            1nat
        }
    }
}

/// Every slot is as it was before, or has given its block away and is vacant
/// now.
pub open spec fn is_drained(before: Seq<BlockMeta>, after: Seq<BlockMeta>) -> bool {
    &&& after.len() == before.len()
    &&& forall|slot: int|
        0 <= slot < before.len() ==> {
            ||| #[trigger] after[slot] == before[slot]
            ||| (!before[slot].is_vacant() && after[slot] == vacated(before[slot]))
        }
}

/// Slots that have only given blocks away hold no more blocks than before.
pub proof fn lemma_drained_slots_hold_fewer_blocks(before: Seq<BlockMeta>, after: Seq<BlockMeta>)
    requires
        is_drained(before, after),
    ensures
        occupied_slots(after) <= occupied_slots(before),
    decreases before.len(),
{
    if before.len() > 0 {
        assert(after.last() == after[after.len() - 1]);
        assert(is_drained(before.drop_last(), after.drop_last())) by {
            assert forall|slot: int| 0 <= slot < before.len() - 1 implies {
                ||| #[trigger] after.drop_last()[slot] == before.drop_last()[slot]
                ||| (!before.drop_last()[slot].is_vacant() && after.drop_last()[slot] == vacated(
                    before.drop_last()[slot],
                ))
            } by {
                assert(after[slot] == after.drop_last()[slot]);
            }
        }
        lemma_drained_slots_hold_fewer_blocks(before.drop_last(), after.drop_last());
    }
}

/// The part of the eviction that has gone through the first `count` slots of
/// the stash has only taken blocks out of it.
proof fn lemma_evict_slots_drains_stash<T>(
    branch: BranchModel<T>,
    leaf: u64,
    stash_meta: Seq<BlockMeta>,
    stash_data: Seq<T>,
    count: nat,
)
    requires
        count <= stash_meta.len(),
    ensures
        is_drained(stash_meta, evict_slots(branch, leaf, stash_meta, stash_data, count).1),
        evict_slots(branch, leaf, stash_meta, stash_data, count).0.meta.len() == branch.meta.len(),
    decreases count,
{
    if count > 0 {
        lemma_evict_slots_drains_stash(branch, leaf, stash_meta, stash_data, (count - 1) as nat);
    }
}

/// Stash drain: an eviction never adds a block to the stash. Every slot of
/// the stash is as before or has become vacant, so the stash holds no more
/// blocks after an eviction than before it, however often it is repeated.
pub proof fn lemma_eviction_drains_stash<T>(
    branch: BranchModel<T>,
    leaf: u64,
    stash_meta: Seq<BlockMeta>,
    stash_data: Seq<T>,
)
    requires
        stash_data.len() == stash_meta.len(),
    ensures
        is_drained(stash_meta, evicted(branch, leaf, stash_meta, stash_data).1),
        occupied_slots(evicted(branch, leaf, stash_meta, stash_data).1) <= occupied_slots(
            stash_meta,
        ),
{
    lemma_evict_slots_drains_stash(
        packed(branch, leaf),
        leaf,
        stash_meta,
        stash_data,
        stash_data.len(),
    );
    lemma_drained_slots_hold_fewer_blocks(
        stash_meta,
        evicted(branch, leaf, stash_meta, stash_data).1,
    );
}

proof fn lemma_evict_slots_of_vacant_stash<T>(
    branch: BranchModel<T>,
    leaf: u64,
    stash_meta: Seq<BlockMeta>,
    stash_data: Seq<T>,
    count: nat,
)
    requires
        count <= stash_meta.len(),
        forall|slot: int|
            0 <= slot < stash_meta.len() ==> (#[trigger] stash_meta[slot]).is_vacant(),
    ensures
        evict_slots(branch, leaf, stash_meta, stash_data, count) == (branch, stash_meta),
    decreases count,
{
    if count > 0 {
        lemma_evict_slots_of_vacant_stash(branch, leaf, stash_meta, stash_data, (count - 1) as nat);
        assert(stash_meta[count - 1].is_vacant());
        assert(stash_meta.update(count - 1, stash_meta[count - 1]) =~= stash_meta);
    }
}

/// Evicting a stash that holds no block leaves the stash as it is and does
/// nothing to the branch but pack it.
pub proof fn lemma_evicting_an_empty_stash<T>(
    branch: BranchModel<T>,
    leaf: u64,
    stash_meta: Seq<BlockMeta>,
    stash_data: Seq<T>,
)
    requires
        stash_data.len() == stash_meta.len(),
        forall|slot: int|
            0 <= slot < stash_meta.len() ==> (#[trigger] stash_meta[slot]).is_vacant(),
    ensures
        evicted(branch, leaf, stash_meta, stash_data) == (packed(branch, leaf), stash_meta),
{
    lemma_evict_slots_of_vacant_stash(
        packed(branch, leaf),
        leaf,
        stash_meta,
        stash_data,
        stash_data.len(),
    );
}

} // verus!
