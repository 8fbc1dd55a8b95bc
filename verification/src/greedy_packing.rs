//! Packing and evicting are thorough: they leave no block that could still go
//! lower, and no block in the stash for which the branch has room.
use crate::branch_model::{
    evict_slots, evicted, has_vacant_slot, insert_block, insert_position, is_first_vacant_slot,
    is_insert_position, pack_buckets, pack_slots, packed, BranchModel,
};
use crate::path_oram::{lowest_legal_index, BlockMeta};
use vstd::prelude::*;

verus! {

/// None of the buckets from `from` up to, but without, `upto` has a vacant
/// slot.
pub open spec fn is_full_between(meta: Seq<Seq<BlockMeta>>, from: int, upto: int) -> bool {
    forall|bucket: int|
        0 <= bucket < meta.len() && from <= bucket < upto ==> !has_vacant_slot(
            #[trigger] meta[bucket],
        )
}

/// The slot is vacant, or its block can go no lower: every bucket below it in
/// which the block may sit is full.
pub open spec fn is_settled(meta: Seq<Seq<BlockMeta>>, leaf: u64, bucket: int, slot: int) -> bool {
    !meta[bucket][slot].is_vacant() ==> is_full_between(
        meta,
        lowest_legal_index(meta[bucket][slot].leaf_num, leaf, meta.len()),
        bucket,
    )
}

/// No block in the first `buckets` buckets of the branch can go lower.
pub open spec fn is_packed_upto(meta: Seq<Seq<BlockMeta>>, leaf: u64, buckets: int) -> bool {
    forall|bucket: int, slot: int|
        0 <= bucket < buckets && bucket < meta.len() && 0 <= slot < meta[bucket].len()
            ==> #[trigger] is_settled(meta, leaf, bucket, slot)
}

/// No block of the branch can go lower.
pub open spec fn is_packed(meta: Seq<Seq<BlockMeta>>, leaf: u64) -> bool {
    is_packed_upto(meta, leaf, meta.len() as int)
}

/// No block in the first `count` slots of the stash can go into the branch:
/// every bucket in which it may sit is full.
pub open spec fn is_blocked_stash(
    meta: Seq<Seq<BlockMeta>>,
    leaf: u64,
    stash_meta: Seq<BlockMeta>,
    count: int,
) -> bool {
    forall|slot: int|
        0 <= slot < count && slot < stash_meta.len() && !(#[trigger] stash_meta[slot]).is_vacant()
            ==> is_full_between(
            meta,
            lowest_legal_index(stash_meta[slot].leaf_num, leaf, meta.len()),
            meta.len() as int,
        )
}

/// A bucket with a vacant slot among its first `upto` has a first vacant slot.
proof fn lemma_first_vacant_slot_exists(bucket: Seq<BlockMeta>, upto: int)
    requires
        0 <= upto <= bucket.len(),
        exists|slot: int| 0 <= slot < upto && (#[trigger] bucket[slot]).is_vacant(),
    ensures
        exists|slot: int| is_first_vacant_slot(bucket, slot),
    decreases upto,
{
    if exists|slot: int| 0 <= slot < upto - 1 && (#[trigger] bucket[slot]).is_vacant() {
        lemma_first_vacant_slot_exists(bucket, upto - 1);
    } else {
        assert(is_first_vacant_slot(bucket, upto - 1));
    }
}

/// Where one of the buckets open to a block has a vacant slot, there is an
/// insert position.
proof fn lemma_insert_position_exists(meta: Seq<Seq<BlockMeta>>, lowest: int, upto: int, below: int)
    requires
        0 <= below <= upto,
        below <= meta.len(),
        exists|bucket: int|
            0 <= bucket < below && lowest <= bucket && has_vacant_slot(#[trigger] meta[bucket]),
    ensures
        exists|bucket: int, slot: int| is_insert_position(meta, lowest, upto, bucket, slot),
    decreases below,
{
    if exists|bucket: int|
        0 <= bucket < below - 1 && lowest <= bucket && has_vacant_slot(#[trigger] meta[bucket]) {
        lemma_insert_position_exists(meta, lowest, upto, below - 1);
    } else {
        let bucket = below - 1;
        assert(has_vacant_slot(meta[bucket]));
        lemma_first_vacant_slot_exists(meta[bucket], meta[bucket].len() as int);
        let slot = choose|slot: int| is_first_vacant_slot(meta[bucket], slot);
        assert(is_insert_position(meta, lowest, upto, bucket, slot));
    }
}

/// Where there is no insert position, every bucket open to the block is full.
proof fn lemma_no_insert_position(meta: Seq<Seq<BlockMeta>>, lowest: int, upto: int)
    requires
        0 <= upto <= meta.len(),
        insert_position(meta, lowest, upto) is None,
    ensures
        is_full_between(meta, lowest, upto),
{
    if !is_full_between(meta, lowest, upto) {
        lemma_insert_position_exists(meta, lowest, upto, upto);
    }
}

/// An insert takes no block out of the branch: a bucket that was full is
/// full afterwards.
proof fn lemma_insert_block_keeps_full<T>(
    branch: BranchModel<T>,
    lowest: int,
    upto: int,
    wanted: bool,
    src_meta: BlockMeta,
    src_data: T,
    from: int,
    below: int,
)
    requires
        is_full_between(branch.meta, from, below),
    ensures
        is_full_between(
            insert_block(branch, lowest, upto, wanted, src_meta, src_data).0.meta,
            from,
            below,
        ),
{
    let after = insert_block(branch, lowest, upto, wanted, src_meta, src_data).0.meta;
    match insert_position(branch.meta, lowest, upto) {
        Some((to_bucket, to_slot)) => {
            assert(is_insert_position(branch.meta, lowest, upto, to_bucket, to_slot));
            assert(branch.meta[to_bucket][to_slot].is_vacant());
            assert(has_vacant_slot(branch.meta[to_bucket]));
            assert forall|bucket: int|
                0 <= bucket < after.len() && from <= bucket < below implies !has_vacant_slot(
                #[trigger] after[bucket],
            ) by {
                assert(!has_vacant_slot(branch.meta[bucket]));
                assert(after[bucket] == branch.meta[bucket]);
            }
        },
        None => {},
    }
}

/// An insert of a block as low as the block may sit leaves the blocks of the
/// first `buckets` buckets where they can go no lower.
proof fn lemma_insert_block_keeps_packed<T>(
    branch: BranchModel<T>,
    leaf: u64,
    upto: int,
    wanted: bool,
    src_meta: BlockMeta,
    src_data: T,
    buckets: int,
)
    requires
        is_packed_upto(branch.meta, leaf, buckets),
    ensures
        ({
            let lowest = lowest_legal_index(src_meta.leaf_num, leaf, branch.meta.len());
            let after = insert_block(branch, lowest, upto, wanted, src_meta, src_data).0.meta;
            &&& after.len() == branch.meta.len()
            &&& is_packed_upto(after, leaf, buckets)
        }),
{
    let lowest = lowest_legal_index(src_meta.leaf_num, leaf, branch.meta.len());
    let after = insert_block(branch, lowest, upto, wanted, src_meta, src_data).0.meta;
    match insert_position(branch.meta, lowest, upto) {
        Some((to_bucket, to_slot)) => {
            assert(is_insert_position(branch.meta, lowest, upto, to_bucket, to_slot));
        },
        None => {},
    }
    assert forall|bucket: int, slot: int|
        0 <= bucket < buckets && bucket < after.len() && 0 <= slot < after[bucket].len()
        implies #[trigger] is_settled(after, leaf, bucket, slot) by {
        if !after[bucket][slot].is_vacant() {
            let reach = lowest_legal_index(after[bucket][slot].leaf_num, leaf, after.len());
            if after[bucket][slot] == branch.meta[bucket][slot] && slot < branch.meta[bucket].len() {
                assert(is_settled(branch.meta, leaf, bucket, slot));
            } else {
                // the block that has come in
                assert(is_full_between(branch.meta, lowest, bucket));
            }
            lemma_insert_block_keeps_full(
                branch,
                lowest,
                upto,
                wanted,
                src_meta,
                src_data,
                reach,
                bucket,
            );
        }
    }
}

proof fn lemma_pack_slots_is_packed<T>(branch: BranchModel<T>, leaf: u64, bucket: int, slots: nat)
    requires
        0 <= bucket < branch.meta.len(),
        slots <= branch.meta[bucket].len(),
        is_packed_upto(branch.meta, leaf, bucket),
    ensures
        ({
            let after = pack_slots(branch, leaf, bucket, slots).meta;
            &&& after.len() == branch.meta.len()
            &&& after[bucket].len() == branch.meta[bucket].len()
            &&& is_packed_upto(after, leaf, bucket)
            &&& forall|slot: int| 0 <= slot < slots ==> #[trigger] is_settled(after, leaf, bucket, slot)
        }),
    decreases slots,
{
    if slots > 0 {
        let slot = slots - 1;
        lemma_pack_slots_is_packed(branch, leaf, bucket, slot as nat);
        let before = pack_slots(branch, leaf, bucket, slot as nat);
        let src_meta = before.meta[bucket][slot];
        let src_data = before.data[bucket][slot];
        let lowest = lowest_legal_index(src_meta.leaf_num, leaf, before.meta.len());
        let (moved, left) = insert_block(before, lowest, bucket, true, src_meta, src_data);
        lemma_insert_block_keeps_packed(before, leaf, bucket, true, src_meta, src_data, bucket);
        match insert_position(before.meta, lowest, bucket) {
            Some((to_bucket, to_slot)) => {
                assert(is_insert_position(before.meta, lowest, bucket, to_bucket, to_slot));
            },
            None => {
                lemma_no_insert_position(before.meta, lowest, bucket);
            },
        }
        assert(moved.meta[bucket] == before.meta[bucket]);
        let after = pack_slots(branch, leaf, bucket, slots).meta;
        assert(after == moved.meta.update(bucket, moved.meta[bucket].update(slot, left)));
        // the buckets below are as the insert has left them
        assert forall|b: int| 0 <= b < bucket implies after[b] == moved.meta[b] by {}
        assert forall|from: int, below: int|
            below <= bucket && is_full_between(moved.meta, from, below) implies #[trigger] is_full_between(
            after,
            from,
            below,
        ) by {
            assert forall|b: int| 0 <= b < after.len() && from <= b < below implies !has_vacant_slot(
                #[trigger] after[b],
            ) by {
                assert(!has_vacant_slot(moved.meta[b]));
            }
        }
        assert forall|b: int, s: int|
            0 <= b < bucket && b < after.len() && 0 <= s < after[b].len() implies #[trigger] is_settled(
            after,
            leaf,
            b,
            s,
        ) by {
            assert(is_settled(moved.meta, leaf, b, s));
            if !after[b][s].is_vacant() {
                assert(is_full_between(
                    after,
                    lowest_legal_index(after[b][s].leaf_num, leaf, after.len()),
                    b,
                ));
            }
        }
        assert forall|s: int| 0 <= s < slots implies #[trigger] is_settled(after, leaf, bucket, s) by {
            if !after[bucket][s].is_vacant() {
                let reach = lowest_legal_index(after[bucket][s].leaf_num, leaf, after.len());
                if s < slot {
                    assert(after[bucket][s] == before.meta[bucket][s]);
                    assert(is_settled(before.meta, leaf, bucket, s));
                    lemma_insert_block_keeps_full(
                        before,
                        lowest,
                        bucket,
                        true,
                        src_meta,
                        src_data,
                        reach,
                        bucket,
                    );
                } else {
                    // the block has stayed, so there was no room for it below
                    assert(after[bucket][s] == left);
                    assert(left == src_meta);
                    assert(insert_position(before.meta, lowest, bucket) is None);
                    assert(moved.meta == before.meta);
                }
                assert(is_full_between(moved.meta, reach, bucket));
                assert(is_full_between(after, reach, bucket));
            }
        }
    }
}

proof fn lemma_pack_buckets_is_packed<T>(branch: BranchModel<T>, leaf: u64, buckets: nat)
    requires
        buckets <= branch.meta.len(),
    ensures
        pack_buckets(branch, leaf, buckets).meta.len() == branch.meta.len(),
        is_packed_upto(pack_buckets(branch, leaf, buckets).meta, leaf, buckets as int),
    decreases buckets,
{
    if buckets <= 1 {
        assert forall|bucket: int, slot: int|
            0 <= bucket < buckets && bucket < branch.meta.len() && 0 <= slot
                < branch.meta[bucket].len() implies #[trigger] is_settled(
            branch.meta,
            leaf,
            bucket,
            slot,
        ) by {}
    } else {
        let bucket = buckets - 1;
        let below = pack_buckets(branch, leaf, bucket as nat);
        lemma_pack_buckets_is_packed(branch, leaf, bucket as nat);
        lemma_pack_slots_is_packed(below, leaf, bucket, below.meta[bucket].len());
    }
}

/// Packing is thorough: in the packed branch no block can go lower. Every
/// block sits in the lowest bucket in which it may sit, or every bucket
/// between that one and its own is full.
pub proof fn lemma_packed_is_packed<T>(branch: BranchModel<T>, leaf: u64)
    ensures
        packed(branch, leaf).meta.len() == branch.meta.len(),
        is_packed(packed(branch, leaf).meta, leaf),
{
    lemma_pack_buckets_is_packed(branch, leaf, branch.meta.len());
}

proof fn lemma_evict_slots_is_greedy<T>(
    branch: BranchModel<T>,
    leaf: u64,
    stash_meta: Seq<BlockMeta>,
    stash_data: Seq<T>,
    count: nat,
)
    requires
        is_packed(branch.meta, leaf),
        count <= stash_meta.len(),
    ensures
        ({
            let (after, stash_after) = evict_slots(branch, leaf, stash_meta, stash_data, count);
            &&& after.meta.len() == branch.meta.len()
            &&& stash_after.len() == stash_meta.len()
            &&& is_packed(after.meta, leaf)
            &&& is_blocked_stash(after.meta, leaf, stash_after, count as int)
        }),
    decreases count,
{
    if count > 0 {
        let slot = count - 1;
        lemma_evict_slots_is_greedy(branch, leaf, stash_meta, stash_data, slot as nat);
        let (before, stash_before) = evict_slots(branch, leaf, stash_meta, stash_data, slot as nat);
        let len = before.meta.len() as int;
        let src_meta = stash_before[slot];
        let lowest = lowest_legal_index(src_meta.leaf_num, leaf, before.meta.len());
        lemma_insert_block_keeps_packed(before, leaf, len, true, src_meta, stash_data[slot], len);
        let (after, left) = insert_block(before, lowest, len, true, src_meta, stash_data[slot]);
        let stash_after = stash_before.update(slot, left);
        match insert_position(before.meta, lowest, len) {
            Some((to_bucket, to_slot)) => {},
            None => {
                lemma_no_insert_position(before.meta, lowest, len);
            },
        }
        assert forall|s: int|
            0 <= s < count && s < stash_after.len() && !(#[trigger] stash_after[s]).is_vacant()
            implies is_full_between(
            after.meta,
            lowest_legal_index(stash_after[s].leaf_num, leaf, after.meta.len()),
            after.meta.len() as int,
        ) by {
            let reach = lowest_legal_index(stash_after[s].leaf_num, leaf, after.meta.len());
            if s < slot {
                assert(stash_after[s] == stash_before[s]);
            } else {
                assert(left == src_meta);
            }
            assert(is_full_between(before.meta, reach, len));
            lemma_insert_block_keeps_full(
                before,
                lowest,
                len,
                true,
                src_meta,
                stash_data[slot],
                reach,
                len,
            );
        }
    }
}

/// The eviction is greedy: when it is done, no block of the branch can go
/// lower, and no block that is left in the stash can go into the branch at
/// all, because every bucket in which it may sit is full.
pub proof fn lemma_eviction_is_greedy<T>(
    branch: BranchModel<T>,
    leaf: u64,
    stash_meta: Seq<BlockMeta>,
    stash_data: Seq<T>,
)
    requires
        stash_data.len() == stash_meta.len(),
    ensures
        ({
            let (after, stash_after) = evicted(branch, leaf, stash_meta, stash_data);
            &&& is_packed(after.meta, leaf)
            &&& is_blocked_stash(after.meta, leaf, stash_after, stash_after.len() as int)
        }),
{
    lemma_packed_is_packed(branch, leaf);
    lemma_evict_slots_is_greedy(
        packed(branch, leaf),
        leaf,
        stash_meta,
        stash_data,
        stash_data.len(),
    );
}

} // verus!
