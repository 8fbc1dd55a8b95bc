//! The contents of a branch, and what inserting, packing and evicting do to
//! them.
//!
//! A branch is a grid of slots: one row for every bucket, from the leaf to the
//! root. A slot has its metadata and its payload. The functions of this module
//! say where a block goes when it is inserted, and what the branch and the
//! stash hold after a branch has been packed and after a stash has been
//! evicted into it.
use crate::path_oram::{lowest_legal_index, BlockMeta};
use vstd::prelude::*;

verus! {

/// The metadata of a slot after its block has been taken out.
pub open spec fn vacated(meta: BlockMeta) -> BlockMeta {
    BlockMeta { leaf_num: 0, block_num: meta.block_num }
}

/// The bucket has a vacant slot.
pub open spec fn has_vacant_slot(bucket: Seq<BlockMeta>) -> bool {
    exists|slot: int| 0 <= slot < bucket.len() && #[trigger] bucket[slot].is_vacant()
}

/// `slot` is the first vacant slot of the bucket.
pub open spec fn is_first_vacant_slot(bucket: Seq<BlockMeta>, slot: int) -> bool {
    &&& 0 <= slot < bucket.len()
    &&& bucket[slot].is_vacant()
    &&& forall|s: int| 0 <= s < slot ==> !(#[trigger] bucket[s]).is_vacant()
}

/// The rows of fixed width as sequences.
pub open spec fn grid<T, const N: usize>(rows: Seq<[T; N]>) -> Seq<Seq<T>> {
    Seq::new(rows.len(), |row: int| rows[row]@)
}

/// Where a block goes that may sit in bucket `lowest` and above, when only the
/// buckets below `upto` are open to it: into the first vacant slot of the
/// lowest such bucket that has one.
pub open spec fn is_insert_position(
    meta: Seq<Seq<BlockMeta>>,
    lowest: int,
    upto: int,
    bucket: int,
    slot: int,
) -> bool {
    &&& 0 <= bucket < meta.len()
    &&& lowest <= bucket < upto
    &&& is_first_vacant_slot(meta[bucket], slot)
    &&& forall|b: int| 0 <= b < bucket && lowest <= b ==> !has_vacant_slot(#[trigger] meta[b])
}

/// There is at most one insert position.
pub proof fn lemma_insert_position_is_unique(
    meta: Seq<Seq<BlockMeta>>,
    lowest: int,
    upto: int,
    bucket: int,
    slot: int,
    other_bucket: int,
    other_slot: int,
)
    requires
        is_insert_position(meta, lowest, upto, bucket, slot),
        is_insert_position(meta, lowest, upto, other_bucket, other_slot),
    ensures
        bucket == other_bucket,
        slot == other_slot,
{
    if bucket < other_bucket {
        assert(meta[bucket][slot].is_vacant());
        assert(has_vacant_slot(meta[bucket]));
    } else if other_bucket < bucket {
        assert(meta[other_bucket][other_slot].is_vacant());
        assert(has_vacant_slot(meta[other_bucket]));
    } else if slot < other_slot {
        assert(meta[bucket][slot].is_vacant());
    } else if other_slot < slot {
        assert(meta[bucket][other_slot].is_vacant());
    }
}

/// The insert position, if there is one.
pub open spec fn insert_position(
    meta: Seq<Seq<BlockMeta>>,
    lowest: int,
    upto: int,
) -> Option<(int, int)> {
    if exists|bucket: int, slot: int| is_insert_position(meta, lowest, upto, bucket, slot) {
        Some(choose|bucket: int, slot: int| is_insert_position(meta, lowest, upto, bucket, slot))
    } else {
        None
    }
}

/// The slots of a branch: for every bucket, from the leaf to the root, the
/// metadata and the payload of each of its slots.
#[verifier::ext_equal]
pub struct BranchModel<T> {
    pub meta: Seq<Seq<BlockMeta>>,
    pub data: Seq<Seq<T>>,
}

/// The branch has a payload for every slot that it has metadata for.
pub open spec fn is_rectangular<T>(branch: BranchModel<T>) -> bool {
    &&& branch.data.len() == branch.meta.len()
    &&& forall|bucket: int|
        0 <= bucket < branch.meta.len() ==> (#[trigger] branch.data[bucket]).len()
            == branch.meta[bucket].len()
}

/// Inserting a block into a branch. If the insert is wanted, the slot holds a
/// block and there is an insert position, the block goes there and its source
/// slot becomes vacant. Otherwise nothing changes. The result is the branch
/// and the metadata of the source slot afterwards.
pub open spec fn insert_block<T>(
    branch: BranchModel<T>,
    lowest: int,
    upto: int,
    wanted: bool,
    src_meta: BlockMeta,
    src_data: T,
) -> (BranchModel<T>, BlockMeta) {
    match insert_position(branch.meta, lowest, upto) {
        Some((bucket, slot)) => if wanted && !src_meta.is_vacant() {
            (
                BranchModel {
                    meta: branch.meta.update(bucket, branch.meta[bucket].update(slot, src_meta)),
                    data: branch.data.update(bucket, branch.data[bucket].update(slot, src_data)),
                },
                vacated(src_meta),
            )
        } else {
            (branch, src_meta)
        },
        None => (branch, src_meta),
    }
}

/// Packing one slot: the block in slot `slot` of bucket `bucket` moves to the
/// insert position among the buckets below it, if there is one and the slot
/// holds a block.
pub open spec fn pack_slot<T>(
    branch: BranchModel<T>,
    leaf: u64,
    bucket: int,
    slot: int,
) -> BranchModel<T> {
    let src_meta = branch.meta[bucket][slot];
    let lowest = lowest_legal_index(src_meta.leaf_num, leaf, branch.meta.len());
    let (moved, left) = insert_block(
        branch,
        lowest,
        bucket,
        true,
        src_meta,
        branch.data[bucket][slot],
    );
    BranchModel {
        meta: moved.meta.update(bucket, moved.meta[bucket].update(slot, left)),
        data: moved.data,
    }
}

/// Packing the first `slots` slots of bucket `bucket`, one after the other.
pub open spec fn pack_slots<T>(
    branch: BranchModel<T>,
    leaf: u64,
    bucket: int,
    slots: nat,
) -> BranchModel<T>
    decreases slots,
{
    if slots == 0 {
        branch
    } else {
        pack_slot(pack_slots(branch, leaf, bucket, (slots - 1) as nat), leaf, bucket, slots - 1)
    }
}

/// Packing the first `buckets` buckets, from the leaf towards the root. The
/// leaf bucket has nothing below it and stays as it is.
pub open spec fn pack_buckets<T>(branch: BranchModel<T>, leaf: u64, buckets: nat) -> BranchModel<T>
    decreases buckets,
{
    if buckets <= 1 {
        branch
    } else {
        let below = pack_buckets(branch, leaf, (buckets - 1) as nat);
        pack_slots(below, leaf, buckets - 1, below.meta[buckets - 1].len())
    }
}

/// The packed branch: every bucket in turn, from the one above the leaf to
/// the root, has sent each of its blocks as far down as it could go at that
/// time.
pub open spec fn packed<T>(branch: BranchModel<T>, leaf: u64) -> BranchModel<T> {
    pack_buckets(branch, leaf, branch.meta.len())
}

/// Evicting the first `count` slots of the stash into the branch, one after
/// the other: each block goes as low as it may and as there is room, and a
/// slot whose block has gone is vacant afterwards. The result is the branch
/// and the metadata of the stash.
pub open spec fn evict_slots<T>(
    branch: BranchModel<T>,
    leaf: u64,
    stash_meta: Seq<BlockMeta>,
    stash_data: Seq<T>,
    count: nat,
) -> (BranchModel<T>, Seq<BlockMeta>)
    decreases count,
{
    if count == 0 {
        (branch, stash_meta)
    } else {
        let slot = count - 1;
        let (branch, stash_meta) = evict_slots(branch, leaf, stash_meta, stash_data, slot as nat);
        let (branch, left) = insert_block(
            branch,
            lowest_legal_index(stash_meta[slot].leaf_num, leaf, branch.meta.len()),
            branch.meta.len() as int,
            true,
            stash_meta[slot],
            stash_data[slot],
        );
        (branch, stash_meta.update(slot, left))
    }
}

/// The greedy eviction of Path ORAM: the branch is packed, then every slot of
/// the stash is evicted into it in turn.
pub open spec fn evicted<T>(
    branch: BranchModel<T>,
    leaf: u64,
    stash_meta: Seq<BlockMeta>,
    stash_data: Seq<T>,
) -> (BranchModel<T>, Seq<BlockMeta>) {
    evict_slots(packed(branch, leaf), leaf, stash_meta, stash_data, stash_data.len())
}

} // verus!
