//! Blocks, buckets and the checked-out branch of a Path ORAM tree.
//!
//! A bucket is a fixed array of `Z` slots. Every slot exists at all times; a
//! slot without a block is marked vacant by a leaf number of zero. A block's
//! metadata names the leaf it is bound for, and the block may sit in any
//! bucket that the path to that leaf shares with the branch.
use crate::branch_model::{
    grid, has_vacant_slot, insert_block, is_first_vacant_slot, is_insert_position, is_rectangular,
    lemma_insert_position_is_unique, pack_buckets, pack_slot, pack_slots, packed, vacated,
    BranchModel,
};
use crate::constant_time::{
    choice_and, choice_bit, choice_from_u8, choice_not, cmov_u64, ct_eq_u64, ct_lt_u64,
};
use crate::greedy_packing::{is_packed, lemma_packed_is_packed};
use crate::legal_placement::{
    is_legal_branch, lemma_insert_block_keeps_legal, lemma_packed_keeps_legal,
};
use crate::tree_index::{
    common_ancestor_height, common_ancestor_height_u64, height_u64,
    lemma_common_ancestor_height_bound, node_height,
};
use aligned_cmov::subtle::Choice;
use vstd::prelude::*;

verus! {

/// Metadata of one slot: the leaf its block is bound for and the block's
/// number. A leaf number of zero marks the slot vacant.
#[derive(Clone, Copy, Debug, PartialEq, Eq, Structural)]
pub struct BlockMeta {
    pub leaf_num: u64,
    pub block_num: u64,
}

impl BlockMeta {
    /// The slot holds no block.
    pub open spec fn is_vacant(&self) -> bool {
        self.leaf_num == 0
    }
}

impl Default for BlockMeta {
    /// A vacant slot.
    fn default() -> (meta: Self)
        ensures
            meta == (BlockMeta { leaf_num: 0, block_num: 0 }),
    {
        BlockMeta { leaf_num: 0, block_num: 0 }
    }
}

/// The leaf that the block of this slot is bound for.
pub fn meta_leaf_num(src: &BlockMeta) -> (leaf_num: u64)
    ensures
        leaf_num == src.leaf_num,
{
    src.leaf_num
}

/// The number of the block in this slot.
pub fn meta_block_num(src: &BlockMeta) -> (block_num: u64)
    ensures
        block_num == src.block_num,
{
    src.block_num
}

/// Whether the slot is vacant, as a `Choice`.
pub fn meta_is_vacant(src: &BlockMeta) -> (vacant: Choice)
    ensures
        choice_bit(vacant) == src.is_vacant(),
{
    ct_eq_u64(src.leaf_num, 0)
}

/// Marks the slot vacant if the condition is set, and leaves it as it is
/// otherwise.
pub fn meta_set_vacant(condition: Choice, src: &mut BlockMeta)
    ensures
        final(src).block_num == old(src).block_num,
        final(src).leaf_num == if choice_bit(condition) { 0 } else { old(src).leaf_num },
{
    cmov_u64(&mut src.leaf_num, condition, 0);
}

/// The bucket closest to the leaf in which a block bound for `destination` may
/// sit, on the branch of `leaf` with `branch_len` buckets. Bucket 0 is the leaf
/// and bucket `branch_len - 1` the root. The block may sit in that bucket and
/// in every bucket above it: those are the buckets of the branch that the path
/// to `destination` passes too. A vacant slot counts as bound for the root.
pub open spec fn lowest_legal_index(destination: u64, leaf: u64, branch_len: nat) -> int {
    let query: nat = if destination == 0 { 1 } else { destination as nat };
    branch_len - 1 - common_ancestor_height(leaf as nat, query)
}

/// Computes the lowest legal index of a block bound for `query` on the branch
/// of `self_leaf`, without branching on either.
pub fn lowest_height_legal_index(query: u64, self_leaf: u64, data_len: usize) -> (index: usize)
    requires
        self_leaf != 0,
        node_height(self_leaf as nat) < data_len,
    ensures
        index == lowest_legal_index(query, self_leaf, data_len as nat),
        index < data_len,
{
    let mut query = query;
    // a vacant slot is treated as bound for the root
    let query_is_none = ct_eq_u64(query, 0);
    cmov_u64(&mut query, query_is_none, 1);
    proof {
        lemma_common_ancestor_height_bound(self_leaf as nat, query as nat);
    }
    let common_ancestor_height = common_ancestor_height_u64(self_leaf, query) as usize;
    data_len - 1 - common_ancestor_height
}

/// Moves the metadata of `src` into `dest` if the condition is set.
fn cmov_meta(dest: &mut BlockMeta, condition: Choice, src: &BlockMeta)
    ensures
        *final(dest) == if choice_bit(condition) { *src } else { *old(dest) },
{
    cmov_u64(&mut dest.leaf_num, condition, src.leaf_num);
    cmov_u64(&mut dest.block_num, condition, src.block_num);
}

/// Moves the payload of `src` into `dest` if the condition is set, word by
/// word.
fn cmov_data<const W: usize>(dest: &mut [u64; W], condition: Choice, src: &[u64; W])
    ensures
        *final(dest) == if choice_bit(condition) { *src } else { *old(dest) },
{
    let ghost before = *dest;
    for word in 0..W
        invariant
            forall|k: int|
                0 <= k < word ==> dest@[k] == if choice_bit(condition) {
                    src@[k]
                } else {
                    before@[k]
                },
            forall|k: int| word <= k < W ==> dest@[k] == before@[k],
    {
        cmov_u64(&mut dest[word], condition, src[word]);
    }
    assert(dest@ =~= if choice_bit(condition) { src@ } else { before@ });
}

/// Obliviously insert an item into a bucket if there is a vacant spot. If the
/// condition is set, the source holds a block and the bucket has a vacant
/// slot, the block goes into the first vacant slot and the source is marked
/// vacant. Every slot of the bucket is touched either way.
fn ct_insert_into_bucket<const W: usize, const Z: usize>(
    condition: Choice,
    src_data: &[u64; W],
    src_meta: &mut BlockMeta,
    dest_data: &mut [[u64; W]; Z],
    dest_meta: &mut [BlockMeta; Z],
)
    ensures
        ({
            let wanted = choice_bit(condition) && !old(src_meta).is_vacant();
            if wanted && has_vacant_slot(old(dest_meta)@) {
                exists|slot: int|
                    {
                        &&& #[trigger] is_first_vacant_slot(old(dest_meta)@, slot)
                        &&& final(dest_meta)@ == old(dest_meta)@.update(slot, *old(src_meta))
                        &&& final(dest_data)@ == old(dest_data)@.update(slot, *src_data)
                        &&& *final(src_meta) == vacated(*old(src_meta))
                    }
            } else {
                &&& *final(dest_meta) == *old(dest_meta)
                &&& *final(dest_data) == *old(dest_data)
                &&& *final(src_meta) == *old(src_meta)
            }
        }),
{
    let ghost meta_before = dest_meta@;
    let ghost data_before = dest_data@;
    let ghost src_before = *src_meta;
    let ghost wanted = choice_bit(condition) && !src_meta.is_vacant();
    let ghost placed_at: int = -1;
    let mut condition = choice_and(condition, choice_not(meta_is_vacant(src_meta)));
    for idx in 0..Z
        invariant
            -1 <= placed_at < idx,
            choice_bit(condition) == (wanted && placed_at == -1),
            placed_at == -1 ==> {
                &&& dest_meta@ == meta_before
                &&& dest_data@ == data_before
                &&& *src_meta == src_before
                &&& wanted ==> forall|s: int|
                    0 <= s < idx ==> !(#[trigger] meta_before[s]).is_vacant()
            },
            placed_at != -1 ==> {
                &&& wanted
                &&& is_first_vacant_slot(meta_before, placed_at)
                &&& dest_meta@ == meta_before.update(placed_at, src_before)
                &&& dest_data@ == data_before.update(placed_at, *src_data)
                &&& *src_meta == vacated(src_before)
            },
    {
        let ghost meta_so_far = dest_meta@;
        let ghost data_so_far = dest_data@;
        let test = choice_and(condition, meta_is_vacant(&dest_meta[idx]));
        cmov_meta(&mut dest_meta[idx], test, src_meta);
        cmov_data(&mut dest_data[idx], test, src_data);
        meta_set_vacant(test, src_meta);
        condition = choice_and(condition, choice_not(test));
        proof {
            if choice_bit(test) {
                placed_at = idx as int;
                assert(dest_meta@ =~= meta_before.update(placed_at, src_before));
                assert(dest_data@ =~= data_before.update(placed_at, *src_data));
            } else {
                assert(dest_meta@ =~= meta_so_far);
                assert(dest_data@ =~= data_so_far);
            }
        }
    }
    proof {
        if placed_at == -1 {
            if wanted && has_vacant_slot(meta_before) {
                let s = choose|s: int|
                    0 <= s < meta_before.len() && #[trigger] meta_before[s].is_vacant();
                assert(!meta_before[s].is_vacant());
            }
            assert(*dest_meta =~= *old(dest_meta));
            assert(*dest_data =~= *old(dest_data));
        } else {
            assert(meta_before[placed_at].is_vacant());
            assert(is_first_vacant_slot(old(dest_meta)@, placed_at));
        }
    }
}

/// The branch that the buckets `dest_meta` and `dest_data` make up.
pub open spec fn model_of_buckets<const W: usize, const Z: usize>(
    dest_meta: Seq<[BlockMeta; Z]>,
    dest_data: Seq<[[u64; W]; Z]>,
) -> BranchModel<[u64; W]> {
    BranchModel { meta: grid(dest_meta), data: grid(dest_data) }
}

/// Insert an item into the buckets below `upto`, packing it as low as
/// possible but not below `insert_after_index`. Every slot of every bucket
/// below `upto` is touched, whatever the outcome.
fn insert_into_branch_suffix<const W: usize, const Z: usize>(
    condition: Choice,
    src_data: &[u64; W],
    src_meta: &mut BlockMeta,
    insert_after_index: usize,
    dest_data: &mut Vec<[[u64; W]; Z]>,
    dest_meta: &mut Vec<[BlockMeta; Z]>,
    upto: usize,
)
    requires
        old(dest_data).len() == old(dest_meta).len(),
        upto <= old(dest_meta).len(),
    ensures
        final(dest_data).len() == old(dest_data).len(),
        final(dest_meta).len() == old(dest_meta).len(),
        (model_of_buckets(final(dest_meta)@, final(dest_data)@), *final(src_meta)) == insert_block(
            model_of_buckets(old(dest_meta)@, old(dest_data)@),
            insert_after_index as int,
            upto as int,
            choice_bit(condition),
            *old(src_meta),
            *src_data,
        ),
        forall|b: int|
            upto <= b < old(dest_meta).len() ==> final(dest_meta)[b] == old(dest_meta)[b],
        forall|b: int|
            upto <= b < old(dest_data).len() ==> final(dest_data)[b] == old(dest_data)[b],
{
    let ghost meta_before = grid(dest_meta@);
    let ghost data_before = grid(dest_data@);
    let ghost src_before = *src_meta;
    let ghost wanted = choice_bit(condition) && !src_meta.is_vacant();
    let ghost lowest = insert_after_index as int;
    let ghost placed_bucket: int = -1;
    let ghost placed_slot: int = -1;
    for idx in 0..upto
        invariant
            dest_data.len() == old(dest_data).len(),
            dest_meta.len() == old(dest_meta).len(),
            dest_data.len() == dest_meta.len(),
            upto <= dest_meta.len(),
            meta_before == grid(old(dest_meta)@),
            data_before == grid(old(dest_data)@),
            src_before == *old(src_meta),
            wanted == (choice_bit(condition) && !src_before.is_vacant()),
            lowest == insert_after_index,
            -1 <= placed_bucket < idx,
            forall|b: int| idx <= b < dest_meta.len() ==> dest_meta[b] == old(dest_meta)[b],
            forall|b: int| idx <= b < dest_data.len() ==> dest_data[b] == old(dest_data)[b],
            placed_bucket == -1 ==> {
                &&& grid(dest_meta@) == meta_before
                &&& grid(dest_data@) == data_before
                &&& *src_meta == src_before
                &&& wanted ==> forall|b: int|
                    0 <= b < idx && lowest <= b ==> !has_vacant_slot(#[trigger] meta_before[b])
            },
            placed_bucket != -1 ==> {
                &&& wanted
                &&& is_insert_position(meta_before, lowest, upto as int, placed_bucket, placed_slot)
                &&& grid(dest_meta@) == meta_before.update(
                    placed_bucket,
                    meta_before[placed_bucket].update(placed_slot, src_before),
                )
                &&& grid(dest_data@) == data_before.update(
                    placed_bucket,
                    data_before[placed_bucket].update(placed_slot, *src_data),
                )
                &&& *src_meta == vacated(src_before)
            },
    {
        let ghost meta_so_far = dest_meta@;
        let ghost data_so_far = dest_data@;
        let ghost src_so_far = *src_meta;
        let at_or_above = choice_not(ct_lt_u64(idx as u64, insert_after_index as u64));
        let condition_here = choice_and(condition, at_or_above);
        ct_insert_into_bucket(
            condition_here,
            src_data,
            src_meta,
            &mut dest_data[idx],
            &mut dest_meta[idx],
        );
        proof {
            let wanted_here = choice_bit(condition_here) && !src_so_far.is_vacant();
            assert(meta_so_far[idx as int]@ == meta_before[idx as int]);
            assert(data_so_far[idx as int]@ == data_before[idx as int]);
            if wanted_here && has_vacant_slot(meta_so_far[idx as int]@) {
                let slot = choose|slot: int|
                    {
                        &&& #[trigger] is_first_vacant_slot(meta_so_far[idx as int]@, slot)
                        &&& dest_meta@[idx as int]@ == meta_so_far[idx as int]@.update(
                            slot,
                            src_so_far,
                        )
                        &&& dest_data@[idx as int]@ == data_so_far[idx as int]@.update(
                            slot,
                            *src_data,
                        )
                        &&& *src_meta == vacated(src_so_far)
                    };
                placed_bucket = idx as int;
                placed_slot = slot;
                assert(grid(dest_meta@) =~= meta_before.update(
                    placed_bucket,
                    meta_before[placed_bucket].update(placed_slot, src_before),
                ));
                assert(grid(dest_data@) =~= data_before.update(
                    placed_bucket,
                    data_before[placed_bucket].update(placed_slot, *src_data),
                ));
            } else {
                assert(dest_meta@ =~= meta_so_far);
                assert(dest_data@ =~= data_so_far);
            }
        }
    }
    proof {
        let before = model_of_buckets(old(dest_meta)@, old(dest_data)@);
        let after = model_of_buckets(dest_meta@, dest_data@);
        if placed_bucket == -1 {
            if wanted {
                assert forall|bucket: int, slot: int|
                    !is_insert_position(meta_before, lowest, upto as int, bucket, slot) by {
                    if is_insert_position(meta_before, lowest, upto as int, bucket, slot) {
                        assert(meta_before[bucket][slot].is_vacant());
                        assert(has_vacant_slot(meta_before[bucket]));
                    }
                }
            }
            assert(after =~= before);
        } else {
            let (bucket, slot) = choose|bucket: int, slot: int|
                is_insert_position(meta_before, lowest, upto as int, bucket, slot);
            lemma_insert_position_is_unique(
                meta_before,
                lowest,
                upto as int,
                bucket,
                slot,
                placed_bucket,
                placed_slot,
            );
        }
    }
}

/// A branch that has been checked out of the tree: the buckets on the path
/// from a leaf to the root, with the payload and the metadata of every slot.
/// Bucket 0 is the leaf. A block of `W` words is the payload of a slot, and
/// `Z` slots make a bucket.
pub struct BranchCheckout<const W: usize, const Z: usize> {
    /// The leaf of branch that is currently checked-out. 0 if no existing
    /// checkout.
    pub leaf: u64,
    /// The scratch-space for checked-out branch data
    pub data: Vec<[[u64; W]; Z]>,
    /// The scratch-space for checked-out branch metadata
    pub meta: Vec<[BlockMeta; Z]>,
}

impl<const W: usize, const Z: usize> Default for BranchCheckout<W, Z> {
    /// No branch is checked out.
    fn default() -> (branch: Self)
        ensures
            branch.leaf == 0,
            branch.data@.len() == 0,
            branch.meta@.len() == 0,
    {
        BranchCheckout { leaf: 0, data: Vec::new(), meta: Vec::new() }
    }
}

impl<const W: usize, const Z: usize> View for BranchCheckout<W, Z> {
    type V = BranchModel<[u64; W]>;

    open spec fn view(&self) -> BranchModel<[u64; W]> {
        model_of_buckets(self.meta@, self.data@)
    }
}

impl<const W: usize, const Z: usize> BranchCheckout<W, Z> {
    /// A branch is checked out, and its buckets reach from the leaf to the
    /// root.
    pub open spec fn wf(&self) -> bool {
        &&& self.leaf != 0
        &&& self.data.len() == self.meta.len()
        &&& self.meta.len() == node_height(self.leaf as nat) + 1
    }

    /// Tests whether a branch is checked out and has a bucket for every node
    /// from the leaf to the root.
    pub fn is_well_formed(&self) -> (ok: bool)
        ensures
            ok == self.wf(),
    {
        self.leaf != 0 && self.data.len() == self.meta.len() && self.meta.len() >= 1
            && height_u64(self.leaf) as usize == self.meta.len() - 1
    }

    /// The slots of a checked-out branch come in payload and metadata pairs.
    pub proof fn lemma_view_is_rectangular(&self)
        requires
            self.data.len() == self.meta.len(),
        ensures
            is_rectangular(self@),
    {
        assert forall|bucket: int| 0 <= bucket < self@.meta.len() implies (
        #[trigger] self@.data[bucket]).len() == self@.meta[bucket].len() by {
            assert(self@.data[bucket] == self.data[bucket]@);
            assert(self@.meta[bucket] == self.meta[bucket]@);
        }
    }

    /// Given a tree-index value (a node in the tree), compute the lowest height
    /// (closest to the leaf) legal index of a bucket in this branch into which
    /// it can be placed. This depends on the common ancestor height of
    /// `query` and `self.leaf`.
    pub fn lowest_height_legal_index(&self, query: u64) -> (index: usize)
        requires
            self.wf(),
        ensures
            index == lowest_legal_index(query, self.leaf, self.meta.len() as nat),
            index < self.meta.len(),
    {
        lowest_height_legal_index(query, self.leaf, self.data.len())
    }

    /// Try to insert an item into the branch, as low as it can go, consistent
    /// with the invariant.
    pub fn ct_insert(&mut self, condition: Choice, src_data: &[u64; W], src_meta: &mut BlockMeta)
        requires
            old(self).wf(),
        ensures
            final(self).wf(),
            final(self).leaf == old(self).leaf,
            final(self).meta.len() == old(self).meta.len(),
            (final(self)@, *final(src_meta)) == insert_block(
                old(self)@,
                lowest_legal_index(
                    old(src_meta).leaf_num,
                    old(self).leaf,
                    old(self).meta.len() as nat,
                ),
                old(self).meta.len() as int,
                choice_bit(condition),
                *old(src_meta),
                *src_data,
            ),
            // no block lies where it may not
            is_legal_branch(old(self)@.meta, old(self).leaf) ==> is_legal_branch(
                final(self)@.meta,
                final(self).leaf,
            ),
    {
        proof {
            if is_legal_branch(self@.meta, self.leaf) {
                lemma_insert_block_keeps_legal(
                    self@,
                    self.leaf,
                    lowest_legal_index(src_meta.leaf_num, self.leaf, self.meta.len() as nat),
                    self.meta.len() as int,
                    choice_bit(condition),
                    *src_meta,
                    *src_data,
                );
            }
        }
        let condition = choice_and(condition, choice_not(meta_is_vacant(src_meta)));
        let lowest_height_legal_index = self.lowest_height_legal_index(meta_leaf_num(src_meta));
        let data_len = self.data.len();
        insert_into_branch_suffix(
            condition,
            src_data,
            src_meta,
            lowest_height_legal_index,
            &mut self.data,
            &mut self.meta,
            data_len,
        );
    }

    /// This is the Path ORAM branch packing procedure, which we implement
    /// obliviously in a naive way.
    pub fn pack(&mut self)
        requires
            old(self).wf(),
        ensures
            final(self).wf(),
            final(self).leaf == old(self).leaf,
            final(self).meta.len() == old(self).meta.len(),
            final(self)@ == packed(old(self)@, old(self).leaf),
            // no block can go lower
            is_packed(final(self)@.meta, final(self).leaf),
            // no block lies where it may not
            is_legal_branch(old(self)@.meta, old(self).leaf) ==> is_legal_branch(
                final(self)@.meta,
                final(self).leaf,
            ),
    {
        proof {
            lemma_packed_is_packed(self@, self.leaf);
            if is_legal_branch(self@.meta, self.leaf) {
                lemma_packed_keeps_legal(self@, self.leaf);
            }
        }
        let data_len = self.data.len();
        for bucket_num in 1..data_len
            invariant
                self.wf(),
                self.leaf == old(self).leaf,
                data_len == self.meta.len(),
                data_len == old(self).meta.len(),
                self@ == pack_buckets(old(self)@, self.leaf, bucket_num as nat),
        {
            let ghost below = self@;
            for idx in 0..Z
                invariant
                    self.wf(),
                    self.leaf == old(self).leaf,
                    data_len == self.meta.len(),
                    1 <= bucket_num < data_len,
                    below.meta.len() == data_len,
                    below.meta[bucket_num as int].len() == Z,
                    self@ == pack_slots(below, self.leaf, bucket_num as int, idx as nat),
            {
                let ghost before = self@;
                let src_data = self.data[bucket_num][idx];
                let mut src_meta = self.meta[bucket_num][idx];
                let lowest_height_legal_index = lowest_height_legal_index(
                    meta_leaf_num(&src_meta),
                    self.leaf,
                    data_len,
                );
                insert_into_branch_suffix(
                    choice_from_u8(1),
                    &src_data,
                    &mut src_meta,
                    lowest_height_legal_index,
                    &mut self.data,
                    &mut self.meta,
                    bucket_num,
                );
                let ghost moved = self@;
                self.meta[bucket_num][idx] = src_meta;
                proof {
                    assert(self@.meta =~= moved.meta.update(
                        bucket_num as int,
                        moved.meta[bucket_num as int].update(idx as int, src_meta),
                    ));
                    assert(self@.data =~= moved.data);
                    assert(self@ == pack_slot(before, self.leaf, bucket_num as int, idx as int));
                }
            }
        }
    }
}

} // verus!
