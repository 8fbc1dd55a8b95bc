//! Legal placement: a block may sit only in the buckets that the path to its
//! own leaf shares with the branch. Inserting, packing and evicting keep it so.
use crate::branch_model::{
    evict_slots, evicted, insert_block, insert_position, is_insert_position, pack_buckets,
    pack_slot, pack_slots, packed, BranchModel,
};
use crate::path_oram::{lowest_legal_index, BlockMeta};
use vstd::prelude::*;

verus! {

/// Every block of the branch sits in a bucket in which it may sit: none lies
/// closer to the leaf than the path to its own leaf allows.
pub open spec fn is_legal_branch(meta: Seq<Seq<BlockMeta>>, leaf: u64) -> bool {
    forall|bucket: int, slot: int|
        0 <= bucket < meta.len() && 0 <= slot < meta[bucket].len() && !(
        #[trigger] meta[bucket][slot]).is_vacant() ==> lowest_legal_index(
            meta[bucket][slot].leaf_num,
            leaf,
            meta.len(),
        ) <= bucket
}

/// Inserting a block no lower than it may sit keeps the branch legal.
pub proof fn lemma_insert_block_keeps_legal<T>(
    branch: BranchModel<T>,
    leaf: u64,
    lowest: int,
    upto: int,
    wanted: bool,
    src_meta: BlockMeta,
    src_data: T,
)
    requires
        is_legal_branch(branch.meta, leaf),
        lowest_legal_index(src_meta.leaf_num, leaf, branch.meta.len()) <= lowest,
    ensures
        is_legal_branch(insert_block(branch, lowest, upto, wanted, src_meta, src_data).0.meta, leaf),
        insert_block(branch, lowest, upto, wanted, src_meta, src_data).0.meta.len()
            == branch.meta.len(),
{
    let after = insert_block(branch, lowest, upto, wanted, src_meta, src_data).0.meta;
    match insert_position(branch.meta, lowest, upto) {
        Some((to_bucket, to_slot)) => {
            assert(is_insert_position(branch.meta, lowest, upto, to_bucket, to_slot));
            if wanted && !src_meta.is_vacant() {
                assert forall|bucket: int, slot: int|
                    0 <= bucket < after.len() && 0 <= slot < after[bucket].len() && !(
                    #[trigger] after[bucket][slot]).is_vacant() implies lowest_legal_index(
                    after[bucket][slot].leaf_num,
                    leaf,
                    after.len(),
                ) <= bucket by {
                    if bucket != to_bucket || slot != to_slot {
                        assert(after[bucket][slot] == branch.meta[bucket][slot]);
                    }
                }
            }
        },
        None => {},
    }
}

proof fn lemma_pack_slot_keeps_legal<T>(branch: BranchModel<T>, leaf: u64, bucket: int, slot: int)
    requires
        is_legal_branch(branch.meta, leaf),
        0 <= bucket < branch.meta.len(),
        0 <= slot < branch.meta[bucket].len(),
    ensures
        is_legal_branch(pack_slot(branch, leaf, bucket, slot).meta, leaf),
        pack_slot(branch, leaf, bucket, slot).meta.len() == branch.meta.len(),
        pack_slot(branch, leaf, bucket, slot).meta[bucket].len() == branch.meta[bucket].len(),
{
    let src_meta = branch.meta[bucket][slot];
    let lowest = lowest_legal_index(src_meta.leaf_num, leaf, branch.meta.len());
    let src_data = branch.data[bucket][slot];
    lemma_insert_block_keeps_legal(branch, leaf, lowest, bucket, true, src_meta, src_data);
    let (moved, left) = insert_block(branch, lowest, bucket, true, src_meta, src_data);
    let after = pack_slot(branch, leaf, bucket, slot).meta;
    match insert_position(branch.meta, lowest, bucket) {
        Some((to_bucket, to_slot)) => {
            assert(is_insert_position(branch.meta, lowest, bucket, to_bucket, to_slot));
        },
        None => {},
    }
    assert(moved.meta[bucket] == branch.meta[bucket]);
    assert forall|b: int, s: int|
        0 <= b < after.len() && 0 <= s < after[b].len() && !(#[trigger] after[b][s]).is_vacant()
        implies lowest_legal_index(after[b][s].leaf_num, leaf, after.len()) <= b by {
        if b != bucket || s != slot {
            assert(after[b][s] == moved.meta[b][s]);
        } else {
            assert(after[b][s] == left);
            assert(left == src_meta);
        }
    }
}

proof fn lemma_pack_slots_keeps_legal<T>(branch: BranchModel<T>, leaf: u64, bucket: int, slots: nat)
    requires
        is_legal_branch(branch.meta, leaf),
        0 <= bucket < branch.meta.len(),
        slots <= branch.meta[bucket].len(),
    ensures
        is_legal_branch(pack_slots(branch, leaf, bucket, slots).meta, leaf),
        pack_slots(branch, leaf, bucket, slots).meta.len() == branch.meta.len(),
        pack_slots(branch, leaf, bucket, slots).meta[bucket].len() == branch.meta[bucket].len(),
    decreases slots,
{
    if slots > 0 {
        lemma_pack_slots_keeps_legal(branch, leaf, bucket, (slots - 1) as nat);
        lemma_pack_slot_keeps_legal(
            pack_slots(branch, leaf, bucket, (slots - 1) as nat),
            leaf,
            bucket,
            slots - 1,
        );
    }
}

proof fn lemma_pack_buckets_keeps_legal<T>(branch: BranchModel<T>, leaf: u64, buckets: nat)
    requires
        is_legal_branch(branch.meta, leaf),
        buckets <= branch.meta.len(),
    ensures
        is_legal_branch(pack_buckets(branch, leaf, buckets).meta, leaf),
        pack_buckets(branch, leaf, buckets).meta.len() == branch.meta.len(),
    decreases buckets,
{
    if buckets > 1 {
        let below = pack_buckets(branch, leaf, (buckets - 1) as nat);
        lemma_pack_buckets_keeps_legal(branch, leaf, (buckets - 1) as nat);
        lemma_pack_slots_keeps_legal(below, leaf, buckets - 1, below.meta[buckets - 1].len());
    }
}

/// Packing keeps the branch legal.
pub proof fn lemma_packed_keeps_legal<T>(branch: BranchModel<T>, leaf: u64)
    requires
        is_legal_branch(branch.meta, leaf),
    ensures
        is_legal_branch(packed(branch, leaf).meta, leaf),
{
    lemma_pack_buckets_keeps_legal(branch, leaf, branch.meta.len());
}

proof fn lemma_evict_slots_keeps_legal<T>(
    branch: BranchModel<T>,
    leaf: u64,
    stash_meta: Seq<BlockMeta>,
    stash_data: Seq<T>,
    count: nat,
)
    requires
        is_legal_branch(branch.meta, leaf),
    ensures
        is_legal_branch(evict_slots(branch, leaf, stash_meta, stash_data, count).0.meta, leaf),
        evict_slots(branch, leaf, stash_meta, stash_data, count).0.meta.len() == branch.meta.len(),
    decreases count,
{
    if count > 0 {
        let slot = count - 1;
        lemma_evict_slots_keeps_legal(branch, leaf, stash_meta, stash_data, slot as nat);
        let (before, stash) = evict_slots(branch, leaf, stash_meta, stash_data, slot as nat);
        lemma_insert_block_keeps_legal(
            before,
            leaf,
            lowest_legal_index(stash[slot].leaf_num, leaf, before.meta.len()),
            before.meta.len() as int,
            true,
            stash[slot],
            stash_data[slot],
        );
    }
}

/// The eviction keeps the branch legal: it never puts a block into a bucket
/// in which the block may not sit.
pub proof fn lemma_eviction_keeps_legal<T>(
    branch: BranchModel<T>,
    leaf: u64,
    stash_meta: Seq<BlockMeta>,
    stash_data: Seq<T>,
)
    requires
        is_legal_branch(branch.meta, leaf),
    ensures
        is_legal_branch(evicted(branch, leaf, stash_meta, stash_data).0.meta, leaf),
{
    lemma_packed_keeps_legal(branch, leaf);
    lemma_evict_slots_keeps_legal(
        packed(branch, leaf),
        leaf,
        stash_meta,
        stash_data,
        stash_data.len(),
    );
}

} // verus!
