//! Blocks are counted: inserting, packing and evicting move blocks, and neither
//! lose nor make one.
use crate::branch_model::{
    evict_slots, evicted, insert_block, insert_position, is_insert_position, is_rectangular,
    pack_buckets, pack_slot, pack_slots, packed, BranchModel,
};
use crate::path_oram::{lowest_legal_index, BlockMeta};
use vstd::prelude::*;

verus! {

/// 1 if the slot with this metadata and payload holds the block `block_meta`
/// with the payload `block_data`, else 0. A vacant slot holds no block.
pub open spec fn copies_in_slot<T>(
    meta: BlockMeta,
    data: T,
    block_meta: BlockMeta,
    block_data: T,
) -> nat {
    if !meta.is_vacant() && meta == block_meta && data == block_data {
        1
    } else {
        0
    }
}

/// In how many of the first `upto` slots the block sits.
pub open spec fn copies_in_slots<T>(
    meta: Seq<BlockMeta>,
    data: Seq<T>,
    block_meta: BlockMeta,
    block_data: T,
    upto: nat,
) -> nat
    decreases upto,
{
    if upto == 0 {
        0
    } else {
        copies_in_slots(meta, data, block_meta, block_data, (upto - 1) as nat) + copies_in_slot(
            meta[upto - 1],
            data[upto - 1],
            block_meta,
            block_data,
        )
    }
}

/// In how many slots of the first `upto` buckets the block sits.
pub open spec fn copies_in_buckets<T>(
    branch: BranchModel<T>,
    block_meta: BlockMeta,
    block_data: T,
    upto: nat,
) -> nat
    decreases upto,
{
    if upto == 0 {
        0
    } else {
        copies_in_buckets(branch, block_meta, block_data, (upto - 1) as nat) + copies_in_slots(
            branch.meta[upto - 1],
            branch.data[upto - 1],
            block_meta,
            block_data,
            branch.meta[upto - 1].len(),
        )
    }
}

/// In how many slots of the branch the block sits.
pub open spec fn copies_in_branch<T>(
    branch: BranchModel<T>,
    block_meta: BlockMeta,
    block_data: T,
) -> nat {
    copies_in_buckets(branch, block_meta, block_data, branch.meta.len())
}

/// In how many slots of the stash the block sits.
pub open spec fn copies_in_stash<T>(
    stash_meta: Seq<BlockMeta>,
    stash_data: Seq<T>,
    block_meta: BlockMeta,
    block_data: T,
) -> nat {
    copies_in_slots(stash_meta, stash_data, block_meta, block_data, stash_meta.len())
}

/// Writing one slot changes the count by what the slot held and what it holds
/// now.
proof fn lemma_copies_in_slots_update<T>(
    meta: Seq<BlockMeta>,
    data: Seq<T>,
    block_meta: BlockMeta,
    block_data: T,
    upto: nat,
    slot: int,
    new_meta: BlockMeta,
    new_data: T,
)
    requires
        upto <= meta.len(),
        meta.len() == data.len(),
        0 <= slot < meta.len(),
    ensures
        copies_in_slots(
            meta.update(slot, new_meta),
            data.update(slot, new_data),
            block_meta,
            block_data,
            upto,
        ) + (if slot < upto {
            copies_in_slot(meta[slot], data[slot], block_meta, block_data)
        } else {
            0
        }) == copies_in_slots(meta, data, block_meta, block_data, upto) + (if slot < upto {
            copies_in_slot(new_meta, new_data, block_meta, block_data)
        } else {
            0
        }),
    decreases upto,
{
    if upto > 0 {
        lemma_copies_in_slots_update(
            meta,
            data,
            block_meta,
            block_data,
            (upto - 1) as nat,
            slot,
            new_meta,
            new_data,
        );
    }
}

/// Replacing one bucket changes the count by what the bucket held and what it
/// holds now.
proof fn lemma_copies_in_buckets_update<T>(
    branch: BranchModel<T>,
    block_meta: BlockMeta,
    block_data: T,
    upto: nat,
    bucket: int,
    new_meta: Seq<BlockMeta>,
    new_data: Seq<T>,
)
    requires
        upto <= branch.meta.len(),
        branch.meta.len() == branch.data.len(),
        0 <= bucket < branch.meta.len(),
    ensures
        ({
            let after = BranchModel {
                meta: branch.meta.update(bucket, new_meta),
                data: branch.data.update(bucket, new_data),
            };
            copies_in_buckets(after, block_meta, block_data, upto) + (if bucket < upto {
                copies_in_slots(
                    branch.meta[bucket],
                    branch.data[bucket],
                    block_meta,
                    block_data,
                    branch.meta[bucket].len(),
                )
            } else {
                0
            }) == copies_in_buckets(branch, block_meta, block_data, upto) + (if bucket < upto {
                copies_in_slots(new_meta, new_data, block_meta, block_data, new_meta.len())
            } else {
                0
            })
        }),
    decreases upto,
{
    if upto > 0 {
        lemma_copies_in_buckets_update(
            branch,
            block_meta,
            block_data,
            (upto - 1) as nat,
            bucket,
            new_meta,
            new_data,
        );
    }
}

/// Writing one slot of the branch changes the count by what the slot held and
/// what it holds now.
proof fn lemma_copies_in_branch_update<T>(
    branch: BranchModel<T>,
    block_meta: BlockMeta,
    block_data: T,
    bucket: int,
    slot: int,
    new_meta: BlockMeta,
    new_data: T,
)
    requires
        is_rectangular(branch),
        0 <= bucket < branch.meta.len(),
        0 <= slot < branch.meta[bucket].len(),
    ensures
        ({
            let after = BranchModel {
                meta: branch.meta.update(bucket, branch.meta[bucket].update(slot, new_meta)),
                data: branch.data.update(bucket, branch.data[bucket].update(slot, new_data)),
            };
            &&& is_rectangular(after)
            &&& copies_in_branch(after, block_meta, block_data) + copies_in_slot(
                branch.meta[bucket][slot],
                branch.data[bucket][slot],
                block_meta,
                block_data,
            ) == copies_in_branch(branch, block_meta, block_data) + copies_in_slot(
                new_meta,
                new_data,
                block_meta,
                block_data,
            )
        }),
{
    assert(branch.data[bucket].len() == branch.meta[bucket].len());
    lemma_copies_in_slots_update(
        branch.meta[bucket],
        branch.data[bucket],
        block_meta,
        block_data,
        branch.meta[bucket].len(),
        slot,
        new_meta,
        new_data,
    );
    lemma_copies_in_buckets_update(
        branch,
        block_meta,
        block_data,
        branch.meta.len(),
        bucket,
        branch.meta[bucket].update(slot, new_meta),
        branch.data[bucket].update(slot, new_data),
    );
    let after = BranchModel {
        meta: branch.meta.update(bucket, branch.meta[bucket].update(slot, new_meta)),
        data: branch.data.update(bucket, branch.data[bucket].update(slot, new_data)),
    };
    assert forall|b: int| 0 <= b < after.meta.len() implies (#[trigger] after.data[b]).len()
        == after.meta[b].len() by {
        if b != bucket {
            assert(after.data[b] == branch.data[b]);
        }
    }
}

/// An insert neither loses nor makes a block: the block that it puts into the
/// branch is the one that its source gives away.
pub proof fn lemma_insert_block_keeps_blocks<T>(
    branch: BranchModel<T>,
    lowest: int,
    upto: int,
    wanted: bool,
    src_meta: BlockMeta,
    src_data: T,
    block_meta: BlockMeta,
    block_data: T,
)
    requires
        is_rectangular(branch),
    ensures
        ({
            let (after, left) = insert_block(branch, lowest, upto, wanted, src_meta, src_data);
            &&& is_rectangular(after)
            &&& after.meta.len() == branch.meta.len()
            &&& copies_in_branch(after, block_meta, block_data) + copies_in_slot(
                left,
                src_data,
                block_meta,
                block_data,
            ) == copies_in_branch(branch, block_meta, block_data) + copies_in_slot(
                src_meta,
                src_data,
                block_meta,
                block_data,
            )
        }),
{
    match insert_position(branch.meta, lowest, upto) {
        Some((to_bucket, to_slot)) => {
            assert(is_insert_position(branch.meta, lowest, upto, to_bucket, to_slot));
            if wanted && !src_meta.is_vacant() {
                lemma_copies_in_branch_update(
                    branch,
                    block_meta,
                    block_data,
                    to_bucket,
                    to_slot,
                    src_meta,
                    src_data,
                );
            }
        },
        None => {},
    }
}

proof fn lemma_pack_slot_keeps_blocks<T>(
    branch: BranchModel<T>,
    leaf: u64,
    bucket: int,
    slot: int,
    block_meta: BlockMeta,
    block_data: T,
)
    requires
        is_rectangular(branch),
        0 <= bucket < branch.meta.len(),
        0 <= slot < branch.meta[bucket].len(),
    ensures
        is_rectangular(pack_slot(branch, leaf, bucket, slot)),
        pack_slot(branch, leaf, bucket, slot).meta.len() == branch.meta.len(),
        pack_slot(branch, leaf, bucket, slot).meta[bucket].len() == branch.meta[bucket].len(),
        copies_in_branch(pack_slot(branch, leaf, bucket, slot), block_meta, block_data)
            == copies_in_branch(branch, block_meta, block_data),
{
    let src_meta = branch.meta[bucket][slot];
    let src_data = branch.data[bucket][slot];
    let lowest = lowest_legal_index(src_meta.leaf_num, leaf, branch.meta.len());
    lemma_insert_block_keeps_blocks(
        branch,
        lowest,
        bucket,
        true,
        src_meta,
        src_data,
        block_meta,
        block_data,
    );
    let (moved, left) = insert_block(branch, lowest, bucket, true, src_meta, src_data);
    match insert_position(branch.meta, lowest, bucket) {
        Some((to_bucket, to_slot)) => {
            assert(is_insert_position(branch.meta, lowest, bucket, to_bucket, to_slot));
        },
        None => {},
    }
    assert(moved.meta[bucket] == branch.meta[bucket]);
    assert(moved.data[bucket] == branch.data[bucket]);
    lemma_copies_in_branch_update(moved, block_meta, block_data, bucket, slot, left, src_data);
    let after = pack_slot(branch, leaf, bucket, slot);
    assert(moved.data[bucket].update(slot, src_data) =~= moved.data[bucket]);
    assert(moved.data.update(bucket, moved.data[bucket]) =~= moved.data);
    assert(after =~= BranchModel {
        meta: moved.meta.update(bucket, moved.meta[bucket].update(slot, left)),
        data: moved.data.update(bucket, moved.data[bucket].update(slot, src_data)),
    });
}

proof fn lemma_pack_slots_keeps_blocks<T>(
    branch: BranchModel<T>,
    leaf: u64,
    bucket: int,
    slots: nat,
    block_meta: BlockMeta,
    block_data: T,
)
    requires
        is_rectangular(branch),
        0 <= bucket < branch.meta.len(),
        slots <= branch.meta[bucket].len(),
    ensures
        is_rectangular(pack_slots(branch, leaf, bucket, slots)),
        pack_slots(branch, leaf, bucket, slots).meta.len() == branch.meta.len(),
        pack_slots(branch, leaf, bucket, slots).meta[bucket].len() == branch.meta[bucket].len(),
        copies_in_branch(pack_slots(branch, leaf, bucket, slots), block_meta, block_data)
            == copies_in_branch(branch, block_meta, block_data),
    decreases slots,
{
    if slots > 0 {
        lemma_pack_slots_keeps_blocks(
            branch,
            leaf,
            bucket,
            (slots - 1) as nat,
            block_meta,
            block_data,
        );
        lemma_pack_slot_keeps_blocks(
            pack_slots(branch, leaf, bucket, (slots - 1) as nat),
            leaf,
            bucket,
            slots - 1,
            block_meta,
            block_data,
        );
    }
}

proof fn lemma_pack_buckets_keeps_blocks<T>(
    branch: BranchModel<T>,
    leaf: u64,
    buckets: nat,
    block_meta: BlockMeta,
    block_data: T,
)
    requires
        is_rectangular(branch),
        buckets <= branch.meta.len(),
    ensures
        is_rectangular(pack_buckets(branch, leaf, buckets)),
        pack_buckets(branch, leaf, buckets).meta.len() == branch.meta.len(),
        copies_in_branch(pack_buckets(branch, leaf, buckets), block_meta, block_data)
            == copies_in_branch(branch, block_meta, block_data),
    decreases buckets,
{
    if buckets > 1 {
        let below = pack_buckets(branch, leaf, (buckets - 1) as nat);
        lemma_pack_buckets_keeps_blocks(
            branch,
            leaf,
            (buckets - 1) as nat,
            block_meta,
            block_data,
        );
        lemma_pack_slots_keeps_blocks(
            below,
            leaf,
            buckets - 1,
            below.meta[buckets - 1].len(),
            block_meta,
            block_data,
        );
    }
}

/// Packing neither loses nor makes a block: every block sits in the packed
/// branch as often as in the branch before.
pub proof fn lemma_packed_keeps_blocks<T>(
    branch: BranchModel<T>,
    leaf: u64,
    block_meta: BlockMeta,
    block_data: T,
)
    requires
        is_rectangular(branch),
    ensures
        is_rectangular(packed(branch, leaf)),
        copies_in_branch(packed(branch, leaf), block_meta, block_data) == copies_in_branch(
            branch,
            block_meta,
            block_data,
        ),
{
    lemma_pack_buckets_keeps_blocks(branch, leaf, branch.meta.len(), block_meta, block_data);
}

proof fn lemma_evict_slots_keeps_blocks<T>(
    branch: BranchModel<T>,
    leaf: u64,
    stash_meta: Seq<BlockMeta>,
    stash_data: Seq<T>,
    count: nat,
    block_meta: BlockMeta,
    block_data: T,
)
    requires
        is_rectangular(branch),
        count <= stash_meta.len(),
        stash_data.len() == stash_meta.len(),
    ensures
        ({
            let (after, stash_after) = evict_slots(branch, leaf, stash_meta, stash_data, count);
            &&& is_rectangular(after)
            &&& stash_after.len() == stash_meta.len()
            &&& copies_in_branch(after, block_meta, block_data) + copies_in_stash(
                stash_after,
                stash_data,
                block_meta,
                block_data,
            ) == copies_in_branch(branch, block_meta, block_data) + copies_in_stash(
                stash_meta,
                stash_data,
                block_meta,
                block_data,
            )
        }),
    decreases count,
{
    if count > 0 {
        let slot = count - 1;
        lemma_evict_slots_keeps_blocks(
            branch,
            leaf,
            stash_meta,
            stash_data,
            slot as nat,
            block_meta,
            block_data,
        );
        let (before, stash_before) = evict_slots(branch, leaf, stash_meta, stash_data, slot as nat);
        let lowest = lowest_legal_index(stash_before[slot].leaf_num, leaf, before.meta.len());
        lemma_insert_block_keeps_blocks(
            before,
            lowest,
            before.meta.len() as int,
            true,
            stash_before[slot],
            stash_data[slot],
            block_meta,
            block_data,
        );
        let (after, left) = insert_block(
            before,
            lowest,
            before.meta.len() as int,
            true,
            stash_before[slot],
            stash_data[slot],
        );
        lemma_copies_in_slots_update(
            stash_before,
            stash_data,
            block_meta,
            block_data,
            stash_before.len(),
            slot,
            left,
            stash_data[slot],
        );
        assert(stash_data.update(slot, stash_data[slot]) =~= stash_data);
    }
}

/// The eviction only relocates: every block sits in the branch and the stash
/// together as often after the eviction as before it. No block is lost and
/// none is made.
pub proof fn lemma_eviction_keeps_blocks<T>(
    branch: BranchModel<T>,
    leaf: u64,
    stash_meta: Seq<BlockMeta>,
    stash_data: Seq<T>,
    block_meta: BlockMeta,
    block_data: T,
)
    requires
        is_rectangular(branch),
        stash_data.len() == stash_meta.len(),
    ensures
        ({
            let (after, stash_after) = evicted(branch, leaf, stash_meta, stash_data);
            copies_in_branch(after, block_meta, block_data) + copies_in_stash(
                stash_after,
                stash_data,
                block_meta,
                block_data,
            ) == copies_in_branch(branch, block_meta, block_data) + copies_in_stash(
                stash_meta,
                stash_data,
                block_meta,
                block_data,
            )
        }),
{
    lemma_packed_keeps_blocks(branch, leaf, block_meta, block_data);
    lemma_evict_slots_keeps_blocks(
        packed(branch, leaf),
        leaf,
        stash_meta,
        stash_data,
        stash_data.len(),
        block_meta,
        block_data,
    );
}

} // verus!
