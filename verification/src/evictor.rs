//! Eviction strategies for tree based ORAMs: which branch to evict into next,
//! how the stash is emptied into a checked-out branch, and how Circuit ORAM
//! plans its moves along one branch.
use crate::block_count::{copies_in_branch, copies_in_stash, lemma_eviction_keeps_blocks};
use crate::branch_model::{evict_slots, evicted, has_vacant_slot, packed};
use crate::branch_order::{
    lemma_reverse_lexicographic_leaf_is_leaf, lemma_reverse_low_bits_bound,
    lemma_reverse_low_bits_shifted, reverse_lexicographic_leaf,
};
pub use crate::circuit_plan::FLOOR_INDEX;
use crate::circuit_plan::{
    branch_levels, bucket_vacancies, holds_block, is_deepest, is_deepest_entry,
    is_deepest_source, is_target, may_descend, pending_move, reach, target_entry,
};
use crate::constant_time::{
    choice_and, choice_bit, choice_from_u8, choice_not, choice_or, cmov_usize, ct_eq_usize,
    ct_lt_u64,
};
use crate::greedy_packing::{is_blocked_stash, is_packed, lemma_eviction_is_greedy};
use crate::legal_placement::{is_legal_branch, lemma_eviction_keeps_legal};
use crate::path_oram::{
    lowest_height_legal_index, meta_is_vacant, meta_leaf_num, BlockMeta, BranchCheckout,
};
use crate::stash_drain::{is_drained, lemma_eviction_drains_stash, occupied_slots};
use crate::tree_index::{
    is_leaf_at_height, lemma_node_height_range, lemma_node_height_u64, node_height,
    random_child_at_height,
};
use aligned_cmov::subtle::Choice;
use rand_core::{CryptoRng, RngCore};
use vstd::arithmetic::div_mod::lemma_small_mod;
use vstd::arithmetic::power2::{
    lemma2_to64, lemma2_to64_rest, lemma_pow2_strictly_increases, lemma_pow2_unfold, pow2,
};
use vstd::bits::{lemma_u64_pow2_no_overflow, lemma_u64_shl_is_mul, lemma_u64_shr_is_div};
use vstd::prelude::*;

verus! {

/// Selects branches in reverse lexicographic order, where the most significant
/// digit of the branch is always 1, corresponding to the leaf node that
/// represents that branch. Reverse lexicographic ordering only on the
/// `num_bits_to_be_reversed` E.g. for a depth of 3:
/// 100, 110, 101, 111
/// `num_bits_to_be_reversed` corresponds to the number of possible branches
/// that need to be explored, and is 1 less than the number of bits in the leaf
/// node. `iteration` i corresponds to the ith branch in reverse lexicographic
/// order.
pub fn deterministic_get_next_branch_to_evict(
    num_bits_to_be_reversed: u32,
    iteration: u64,
) -> (leaf: u64)
    requires
        num_bits_to_be_reversed < 64,
    ensures
        leaf == reverse_lexicographic_leaf(num_bits_to_be_reversed as nat, iteration as nat),
{
    // Return 1 if the number of bits needed is 0. Calculation furtherdown would
    // overflow, and shortcutting here does not leak information because the
    // number of bits is structural information rather than query specific.
    if num_bits_to_be_reversed == 0 {
        proof {
            lemma2_to64();
        }
        return 1;
    }
    // This is the first index at which leafs exist, the most significant digit
    // of all leafs is 1.
    let leaf_significant_index: u64 = 1u64 << num_bits_to_be_reversed;
    let reversed: u64 = iteration.reverse_bits();
    let shifted: u64 = reversed >> (64 - num_bits_to_be_reversed);
    proof {
        let bits = num_bits_to_be_reversed as nat;
        lemma_u64_pow2_no_overflow(bits);
        lemma_u64_shl_is_mul(1u64, num_bits_to_be_reversed as u64);
        lemma_u64_shr_is_div(reversed, (64 - num_bits_to_be_reversed) as u64);
        lemma_reverse_low_bits_shifted(iteration as nat, bits);
        lemma_reverse_low_bits_bound(iteration as nat, bits);
        lemma_small_mod(shifted as nat, leaf_significant_index as nat);
        lemma_pow2_unfold(bits + 1);
        if bits + 1 < 64 {
            lemma_pow2_strictly_increases(bits + 1, 64);
        }
        lemma2_to64_rest();
    }
    let test_position: u64 = shifted % leaf_significant_index;
    leaf_significant_index + test_position
}

/// The block in slot `slot` of level `level` can move towards the leaf, and
/// the first scan has looked at it by the time it stands before slot
/// `upto_slot` of level `at_level`.
spec fn seen_movable(
    levels: Seq<Seq<BlockMeta>>,
    leaf: u64,
    level: int,
    slot: int,
    at_level: int,
    upto_slot: int,
) -> bool {
    &&& holds_block(levels, level, slot)
    &&& reach(levels, leaf, level, slot) < level
    &&& (level > at_level || (level == at_level && slot < upto_slot))
}

/// What `goal` and `src` hold while the first scan stands before slot
/// `upto_slot` of level `at_level`: the reach of the best block seen so far
/// and the level it lies in, where the best block is the one that reaches
/// deepest and, among equals, the one seen first.
spec fn scan_state(
    levels: Seq<Seq<BlockMeta>>,
    leaf: u64,
    at_level: int,
    upto_slot: int,
    goal: usize,
    src: usize,
) -> bool {
    if goal == FLOOR_INDEX {
        &&& src == FLOOR_INDEX
        &&& forall|l: int, s: int| !seen_movable(levels, leaf, l, s, at_level, upto_slot)
    } else {
        &&& src < levels.len()
        &&& exists|s: int| #[trigger]
            seen_movable(levels, leaf, src as int, s, at_level, upto_slot) && reach(
                levels,
                leaf,
                src as int,
                s,
            ) == goal
        &&& forall|l: int, s: int| #[trigger]
            seen_movable(levels, leaf, l, s, at_level, upto_slot) ==> {
                ||| goal < reach(levels, leaf, l, s)
                ||| (goal == reach(levels, leaf, l, s) && l <= src)
            }
    }
}

/// Before the scan has looked at anything, there is no best block.
proof fn lemma_scan_start(levels: Seq<Seq<BlockMeta>>, leaf: u64)
    requires
        levels.len() > 0,
    ensures
        scan_state(levels, leaf, levels.len() - 1, 0, FLOOR_INDEX, FLOOR_INDEX),
{
}

/// When the scan arrives at level `floor`, the best block seen so far decides
/// the entry of `deepest` for that level.
proof fn lemma_scan_entry(
    levels: Seq<Seq<BlockMeta>>,
    leaf: u64,
    floor: int,
    goal: usize,
    src: usize,
)
    requires
        0 <= floor < levels.len() <= usize::MAX,
        scan_state(levels, leaf, floor, 0, goal, src),
    ensures
        is_deepest_entry(
            levels,
            leaf,
            floor,
            if floor >= goal {
                src
            } else {
                FLOOR_INDEX
            },
        ),
{
    if goal == FLOOR_INDEX {
        assert forall|l: int, s: int| !may_descend(levels, leaf, l, s, floor) by {
            if may_descend(levels, leaf, l, s, floor) {
                assert(seen_movable(levels, leaf, l, s, floor, 0));
            }
        }
    } else if floor >= goal {
        let slot = choose|s: int| #[trigger]
            seen_movable(levels, leaf, src as int, s, floor, 0) && reach(levels, leaf, src as int, s)
                == goal;
        assert forall|l: int, s: int| #[trigger]
            may_descend(levels, leaf, l, s, floor) implies reach(levels, leaf, src as int, slot)
            < reach(levels, leaf, l, s) || (reach(levels, leaf, src as int, slot) == reach(
            levels,
            leaf,
            l,
            s,
        ) && l <= src) by {
            assert(seen_movable(levels, leaf, l, s, floor, 0));
        }
        assert(is_deepest_source(levels, leaf, floor, src as int, slot));
    } else {
        assert forall|l: int, s: int| !may_descend(levels, leaf, l, s, floor) by {
            if may_descend(levels, leaf, l, s, floor) {
                assert(seen_movable(levels, leaf, l, s, floor, 0));
            }
        }
    }
}

/// Looking at one more slot: the block in it becomes the best one exactly if
/// it can move and reaches deeper than the best so far.
proof fn lemma_scan_slot(
    levels: Seq<Seq<BlockMeta>>,
    leaf: u64,
    level: int,
    slot: int,
    next: int,
    goal: usize,
    src: usize,
)
    requires
        next == slot + 1,
        0 <= level < levels.len() <= usize::MAX,
        0 <= slot < levels[level].len(),
        0 <= reach(levels, leaf, level, slot) < levels.len(),
        scan_state(levels, leaf, level, slot, goal, src),
    ensures
        ({
            let r = reach(levels, leaf, level, slot);
            let deeper = r < goal && r < level && !levels[level][slot].is_vacant();
            scan_state(
                levels,
                leaf,
                level,
                next,
                if deeper {
                    r as usize
                } else {
                    goal
                },
                if deeper {
                    level as usize
                } else {
                    src
                },
            )
        }),
{
    let r = reach(levels, leaf, level, slot);
    let deeper = r < goal && r < level && !levels[level][slot].is_vacant();
    let goal2 = if deeper { r as usize } else { goal };
    let src2 = if deeper { level as usize } else { src };
    assert forall|l: int, s: int| #[trigger]
        seen_movable(levels, leaf, l, s, level, next) implies (l == level && s == slot)
        || seen_movable(levels, leaf, l, s, level, slot) by {}
    if deeper {
        assert(seen_movable(levels, leaf, level, slot, level, next));
        assert forall|l: int, s: int| #[trigger]
            seen_movable(levels, leaf, l, s, level, next) implies goal2 < reach(
            levels,
            leaf,
            l,
            s,
        ) || (goal2 == reach(levels, leaf, l, s) && l <= src2) by {
            if !(l == level && s == slot) {
                assert(seen_movable(levels, leaf, l, s, level, slot));
            }
        }
    } else if goal == FLOOR_INDEX {
        assert forall|l: int, s: int| !seen_movable(levels, leaf, l, s, level, next) by {
            if seen_movable(levels, leaf, l, s, level, next) {
                assert(!seen_movable(levels, leaf, l, s, level, slot));
            }
        }
    } else {
        let witness = choose|s: int| #[trigger]
            seen_movable(levels, leaf, src as int, s, level, slot) && reach(
                levels,
                leaf,
                src as int,
                s,
            ) == goal;
        assert(seen_movable(levels, leaf, src as int, witness, level, next));
        assert forall|l: int, s: int| #[trigger]
            seen_movable(levels, leaf, l, s, level, next) implies goal < reach(
            levels,
            leaf,
            l,
            s,
        ) || (goal == reach(levels, leaf, l, s) && l <= src) by {
            if !(l == level && s == slot) {
                assert(seen_movable(levels, leaf, l, s, level, slot));
            }
        }
    }
}

/// Once every slot of a level has been looked at, the scan stands before the
/// first slot of the level below.
proof fn lemma_scan_level_done(
    levels: Seq<Seq<BlockMeta>>,
    leaf: u64,
    level: int,
    below: int,
    goal: usize,
    src: usize,
)
    requires
        below == level - 1,
        0 <= level < levels.len(),
        scan_state(levels, leaf, level, levels[level].len() as int, goal, src),
    ensures
        scan_state(levels, leaf, below, 0, goal, src),
{
    let len = levels[level].len() as int;
    assert forall|l: int, s: int|
        seen_movable(levels, leaf, l, s, below, 0) == seen_movable(
            levels,
            leaf,
            l,
            s,
            level,
            len,
        ) by {}
    if goal != FLOOR_INDEX {
        let witness = choose|s: int| #[trigger]
            seen_movable(levels, leaf, src as int, s, level, len) && reach(
                levels,
                leaf,
                src as int,
                s,
            ) == goal;
        assert(seen_movable(levels, leaf, src as int, witness, below, 0));
        assert forall|l: int, s: int| #[trigger]
            seen_movable(levels, leaf, l, s, below, 0) implies goal < reach(levels, leaf, l, s)
            || (goal == reach(levels, leaf, l, s) && l <= src) by {
            assert(seen_movable(levels, leaf, l, s, level, len));
        }
    } else {
        assert forall|l: int, s: int| !seen_movable(levels, leaf, l, s, below, 0) by {
            assert(!seen_movable(levels, leaf, l, s, level, len));
        }
    }
}

/// Makes the entry of `deepest` for level `bucket_num` from the best block
/// seen above it, then looks at every slot of that level and lets `goal` and
/// `src` follow the best block.
fn update_goal_and_deepest_for_a_single_bucket(
    src: &mut usize,
    goal: &mut usize,
    deepest_meta: &mut Vec<usize>,
    bucket_num: usize,
    src_meta: &[BlockMeta],
    leaf: u64,
    meta_len: usize,
    Ghost(levels): Ghost<Seq<Seq<BlockMeta>>>,
)
    requires
        leaf != 0,
        node_height(leaf as nat) < meta_len < usize::MAX,
        levels.len() == meta_len + 1,
        bucket_num <= meta_len,
        levels[bucket_num as int] == src_meta@,
        old(deepest_meta).len() == meta_len + 1,
        scan_state(levels, leaf, bucket_num as int, 0, *old(goal), *old(src)),
        forall|floor: int|
            bucket_num < floor <= meta_len ==> is_deepest_entry(
                levels,
                leaf,
                floor,
                #[trigger] old(deepest_meta)[floor],
            ),
        forall|floor: int| 0 <= floor <= bucket_num ==> old(deepest_meta)[floor] == FLOOR_INDEX,
    ensures
        final(deepest_meta).len() == meta_len + 1,
        scan_state(levels, leaf, bucket_num as int - 1, 0, *final(goal), *final(src)),
        forall|floor: int|
            bucket_num <= floor <= meta_len ==> is_deepest_entry(
                levels,
                leaf,
                floor,
                #[trigger] final(deepest_meta)[floor],
            ),
        forall|floor: int| 0 <= floor < bucket_num ==> final(deepest_meta)[floor] == FLOOR_INDEX,
{
    // Take the src and insert into deepest if our current bucket num is at the
    // same level as our goal or closer to the root.
    let bucket_num_64 = bucket_num as u64;
    let should_take_src_for_deepest = choice_not(ct_lt_u64(bucket_num_64, *goal as u64));
    proof {
        lemma_scan_entry(levels, leaf, bucket_num as int, *goal, *src);
    }
    cmov_usize(&mut deepest_meta[bucket_num], should_take_src_for_deepest, *src);
    for idx in 0..src_meta.len()
        invariant
            leaf != 0,
            node_height(leaf as nat) < meta_len < usize::MAX,
            levels.len() == meta_len + 1,
            bucket_num <= meta_len,
            bucket_num_64 == bucket_num,
            levels[bucket_num as int] == src_meta@,
            scan_state(levels, leaf, bucket_num as int, idx as int, *goal, *src),
    {
        let elem = &src_meta[idx];
        let elem_destination: usize = lowest_height_legal_index(
            meta_leaf_num(elem),
            leaf,
            meta_len,
        );
        let elem_destination_64 = elem_destination as u64;
        let is_elem_deeper = choice_and(
            choice_and(
                ct_lt_u64(elem_destination_64, *goal as u64),
                ct_lt_u64(elem_destination_64, bucket_num_64),
            ),
            choice_not(meta_is_vacant(elem)),
        );
        proof {
            lemma_scan_slot(levels, leaf, bucket_num as int, idx as int, idx + 1, *goal, *src);
        }
        cmov_usize(goal, is_elem_deeper, elem_destination);
        cmov_usize(src, is_elem_deeper, bucket_num);
    }
    proof {
        lemma_scan_level_done(levels, leaf, bucket_num as int, bucket_num as int - 1, *goal, *src);
    }
}

/// Make a root-to-leaf linear metadata scan to prepare the deepest array.
/// After this algorithm, `deepest[i]` stores the source level of the deepest
/// block in `path[len..i + 1]` that can legally reside in `path[i]`, where
/// `path[len]` corresponds to the stash.
pub fn prepare_deepest<const Z: usize>(
    stash_meta: &[BlockMeta],
    branch_meta: &[[BlockMeta; Z]],
    leaf: u64,
) -> (deepest_meta: Vec<usize>)
    requires
        leaf != 0,
        branch_meta.len() == node_height(leaf as nat) + 1,
    ensures
        is_deepest(branch_levels(stash_meta@, branch_meta@), leaf, deepest_meta@),
{
    proof {
        lemma_node_height_u64(leaf);
    }
    let meta_len = branch_meta.len();
    let meta_len_with_stash = meta_len + 1;
    let ghost levels = branch_levels(stash_meta@, branch_meta@);

    //Need one extra for the stash.
    let mut deepest_meta = vec![FLOOR_INDEX; meta_len_with_stash];
    //for each level, the goal should represent the lowest in the branch that
    // any element seen so far can go
    let mut goal: usize = FLOOR_INDEX;
    // For the element that can go the deepest that has been seen so far, what
    // is the src level of that element
    let mut src: usize = FLOOR_INDEX;
    proof {
        lemma_scan_start(levels, leaf);
    }
    update_goal_and_deepest_for_a_single_bucket(
        &mut src,
        &mut goal,
        &mut deepest_meta,
        meta_len,
        stash_meta,
        leaf,
        meta_len,
        Ghost(levels),
    );
    // Iterate over the branch from root to leaf to find the element that can go
    // the deepest. Noting that 0 is the leaf.
    let mut bucket_num = meta_len;
    while bucket_num > 0
        invariant
            leaf != 0,
            node_height(leaf as nat) < meta_len < usize::MAX,
            meta_len == branch_meta.len(),
            levels == branch_levels(stash_meta@, branch_meta@),
            bucket_num <= meta_len,
            deepest_meta.len() == meta_len + 1,
            scan_state(levels, leaf, bucket_num as int - 1, 0, goal, src),
            forall|floor: int|
                bucket_num <= floor <= meta_len ==> is_deepest_entry(
                    levels,
                    leaf,
                    floor,
                    #[trigger] deepest_meta[floor],
                ),
            forall|floor: int| 0 <= floor < bucket_num ==> deepest_meta[floor] == FLOOR_INDEX,
        decreases bucket_num,
    {
        bucket_num -= 1;
        update_goal_and_deepest_for_a_single_bucket(
            &mut src,
            &mut goal,
            &mut deepest_meta,
            bucket_num,
            branch_meta[bucket_num].as_slice(),
            leaf,
            meta_len,
            Ghost(levels),
        );
    }
    deepest_meta
}

/// Make a leaf-to-root linear metadata scan to prepare the target array.
/// This prepares the circuit ORAM such that if `target[i]` is not the
/// `FLOOR_INDEX`, then one block shall be moved from `path[i]` to
/// `path[target[i]]`.
pub fn prepare_target<const Z: usize>(
    deepest_meta: &[usize],
    branch_meta: &[[BlockMeta; Z]],
) -> (target_meta: Vec<usize>)
    requires
        deepest_meta.len() == branch_meta.len() + 1,
    ensures
        is_target(deepest_meta@, bucket_vacancies(branch_meta@), target_meta@),
{
    let meta_len = branch_meta.len();
    let meta_len_with_stash = meta_len + 1;
    let ghost vacancies = bucket_vacancies(branch_meta@);

    //Need one extra for the stash.
    let mut target_meta = vec![FLOOR_INDEX; meta_len_with_stash];
    // dest is the last found location which has a vacancy that an element
    // can be placed into, Floor_index means there is no vacancy found.
    let mut dest: usize = FLOOR_INDEX;
    // src represents the bucket num we looked up in deepest as the source
    // bucket for the element that can live in dest
    let mut src: usize = FLOOR_INDEX;
    // Iterate over the branch from leaf to root to find the elements that will
    // be moved from path[i] to path[target[i]]
    let data_len = branch_meta.len();
    for bucket_num in 0..data_len
        invariant
            data_len == branch_meta.len(),
            deepest_meta.len() == data_len + 1,
            target_meta.len() == data_len + 1,
            vacancies == bucket_vacancies(branch_meta@),
            (dest, src) == pending_move(deepest_meta@, vacancies, bucket_num as nat),
            forall|level: int|
                0 <= level < bucket_num ==> #[trigger] target_meta[level] == target_entry(
                    deepest_meta@,
                    vacancies,
                    level as nat,
                ),
            forall|level: int|
                bucket_num <= level <= data_len ==> target_meta[level] == FLOOR_INDEX,
    {
        let bucket_meta = branch_meta[bucket_num].as_slice();
        //If we encounter the src for the element, we save it to the target
        // array and floor out the dest and src.
        let should_set_target = ct_eq_usize(bucket_num, src);
        cmov_usize(&mut target_meta[bucket_num], should_set_target, dest);
        cmov_usize(&mut dest, should_set_target, FLOOR_INDEX);
        cmov_usize(&mut src, should_set_target, FLOOR_INDEX);
        // Check to see if there is an empty space in the bucket.
        let bucket_has_empty_slot = bucket_has_empty_slot(bucket_meta);
        // If we do not currently have a vacancy in mind and the bucket has a
        // vacancy, or if we know we just took an element, then there is a
        // vacancy in this bucket
        let is_there_a_vacancy = choice_or(
            choice_and(ct_eq_usize(dest, FLOOR_INDEX), bucket_has_empty_slot),
            should_set_target,
        );
        // If there is a vacancy in this bucket, and deepest_meta is not the
        // floor_index, then this is a future target.
        let is_this_a_future_target = choice_and(
            is_there_a_vacancy,
            choice_not(ct_eq_usize(deepest_meta[bucket_num], FLOOR_INDEX)),
        );
        cmov_usize(&mut src, is_this_a_future_target, deepest_meta[bucket_num]);
        cmov_usize(&mut dest, is_this_a_future_target, bucket_num);
    }
    // Treat the stash as an extension of the branch.
    let stash_is_source = ct_eq_usize(data_len, src);
    cmov_usize(&mut target_meta[data_len], stash_is_source, dest);
    target_meta
}

/// Obliviously look through the bucket to see if it has a vacancy which can
/// be inserted into.
pub fn bucket_has_empty_slot(bucket_meta: &[BlockMeta]) -> (has_empty_slot: Choice)
    ensures
        choice_bit(has_empty_slot) == has_vacant_slot(bucket_meta@),
{
    let mut bucket_has_empty_slot: Choice = choice_from_u8(0);
    for idx in 0..bucket_meta.len()
        invariant
            choice_bit(bucket_has_empty_slot) == exists|slot: int|
                0 <= slot < idx && #[trigger] bucket_meta@[slot].is_vacant(),
    {
        bucket_has_empty_slot = choice_or(bucket_has_empty_slot, meta_is_vacant(&bucket_meta[idx]));
    }
    bucket_has_empty_slot
}

/// Eviction algorithm defined in path oram. Packs the branch and greedily
/// tries to evict everything from the stash into the checked out branch
pub fn path_oram_eviction_strategy<const W: usize, const Z: usize>(
    stash_data: &mut [[u64; W]],
    stash_meta: &mut [BlockMeta],
    branch: &mut BranchCheckout<W, Z>,
)
    requires
        old(branch).wf(),
        old(stash_data).len() == old(stash_meta).len(),
    ensures
        final(branch).wf(),
        final(branch).leaf == old(branch).leaf,
        final(branch).meta.len() == old(branch).meta.len(),
        final(stash_data)@ == old(stash_data)@,
        final(stash_meta).len() == old(stash_meta).len(),
        (final(branch)@, final(stash_meta)@) == evicted(
            old(branch)@,
            old(branch).leaf,
            old(stash_meta)@,
            old(stash_data)@,
        ),
        // the stash has only given blocks away
        is_drained(old(stash_meta)@, final(stash_meta)@),
        occupied_slots(final(stash_meta)@) <= occupied_slots(old(stash_meta)@),
        // no block of the branch can go lower, and none of the stash can go into it
        is_packed(final(branch)@.meta, final(branch).leaf),
        is_blocked_stash(
            final(branch)@.meta,
            final(branch).leaf,
            final(stash_meta)@,
            final(stash_meta).len() as int,
        ),
        // no block lies where it may not
        is_legal_branch(old(branch)@.meta, old(branch).leaf) ==> is_legal_branch(
            final(branch)@.meta,
            final(branch).leaf,
        ),
        // no block is lost and none is made
        forall|block_meta: BlockMeta, block_data: [u64; W]|
            #[trigger] copies_in_branch(final(branch)@, block_meta, block_data) + copies_in_stash(
                final(stash_meta)@,
                final(stash_data)@,
                block_meta,
                block_data,
            ) == copies_in_branch(old(branch)@, block_meta, block_data) + copies_in_stash(
                old(stash_meta)@,
                old(stash_data)@,
                block_meta,
                block_data,
            ),
{
    branch.pack();
    //Greedily place elements of the stash into the branch as close to the leaf as
    // they can go.
    for idx in 0..stash_data.len()
        invariant
            branch.wf(),
            branch.leaf == old(branch).leaf,
            branch.meta.len() == old(branch).meta.len(),
            stash_data@ == old(stash_data)@,
            stash_data.len() == stash_meta.len(),
            stash_meta.len() == old(stash_meta).len(),
            (branch@, stash_meta@) == evict_slots(
                packed(old(branch)@, old(branch).leaf),
                old(branch).leaf,
                old(stash_meta)@,
                old(stash_data)@,
                idx as nat,
            ),
    {
        branch.ct_insert(choice_from_u8(1), &stash_data[idx], &mut stash_meta[idx]);
    }
    proof {
        let before = old(branch)@;
        let leaf = old(branch).leaf;
        lemma_eviction_drains_stash(before, leaf, old(stash_meta)@, old(stash_data)@);
        lemma_eviction_is_greedy(before, leaf, old(stash_meta)@, old(stash_data)@);
        if is_legal_branch(before.meta, leaf) {
            lemma_eviction_keeps_legal(before, leaf, old(stash_meta)@, old(stash_data)@);
        }
        old(branch).lemma_view_is_rectangular();
        assert forall|block_meta: BlockMeta, block_data: [u64; W]|
            #[trigger] copies_in_branch(branch@, block_meta, block_data) + copies_in_stash(
                stash_meta@,
                stash_data@,
                block_meta,
                block_data,
            ) == copies_in_branch(before, block_meta, block_data) + copies_in_stash(
                old(stash_meta)@,
                old(stash_data)@,
                block_meta,
                block_data,
            ) by {
            lemma_eviction_keeps_blocks(
                before,
                leaf,
                old(stash_meta)@,
                old(stash_data)@,
                block_meta,
                block_data,
            );
        }
    }
}

/// The policy that picks the branches to evict into.
pub trait BranchSelector {
    /// Height of the tree whose leaves are selected. An implementation says
    /// what it is.
    open spec fn tree_height(&self) -> nat {
        arbitrary()
    }

    /// The number of branches to evict into on every access, beyond the
    /// branch of the accessed element. An implementation says what it is.
    open spec fn number_of_additional_branches_to_evict(&self) -> usize {
        arbitrary()
    }

    /// Returns the leaf index of the next branch to call
    /// [EvictionStrategy::evict_from_stash_to_branch] on.
    fn get_next_branch_to_evict(&mut self) -> (leaf: u64)
        ensures
            is_leaf_at_height(leaf as nat, old(self).tree_height()),
            final(self).tree_height() == old(self).tree_height(),
            final(self).number_of_additional_branches_to_evict() == old(
                self,
            ).number_of_additional_branches_to_evict(),
    ;

    /// Returns the number of branches to call
    /// [EvictionStrategy::evict_from_stash_to_branch] on.
    fn get_number_of_additional_branches_to_evict(&self) -> (count: usize)
        ensures
            count == self.number_of_additional_branches_to_evict(),
    ;
}

/// Evictor trait conceptually is a mechanism for moving stash elements into
/// the oram.
pub trait EvictionStrategy<const W: usize, const Z: usize> {
    /// Method that takes a branch and a stash and moves elements from the
    /// stash into the branch.
    fn evict_from_stash_to_branch(
        &self,
        stash_data: &mut [[u64; W]],
        stash_meta: &mut [BlockMeta],
        branch: &mut BranchCheckout<W, Z>,
    )
        requires
            old(branch).wf(),
            old(stash_data).len() == old(stash_meta).len(),
        ensures
            final(branch).wf(),
            final(branch).leaf == old(branch).leaf,
            final(branch).meta.len() == old(branch).meta.len(),
            final(stash_data).len() == old(stash_data).len(),
            final(stash_meta).len() == old(stash_meta).len(),
            // the stash holds no more blocks than before
            occupied_slots(final(stash_meta)@) <= occupied_slots(old(stash_meta)@),
            // no block lies where it may not
            is_legal_branch(old(branch)@.meta, old(branch).leaf) ==> is_legal_branch(
                final(branch)@.meta,
                final(branch).leaf,
            ),
            // no block is lost and none is made
            forall|block_meta: BlockMeta, block_data: [u64; W]|
                #[trigger] copies_in_branch(final(branch)@, block_meta, block_data)
                    + copies_in_stash(
                    final(stash_meta)@,
                    final(stash_data)@,
                    block_meta,
                    block_data,
                ) == copies_in_branch(old(branch)@, block_meta, block_data) + copies_in_stash(
                    old(stash_meta)@,
                    old(stash_data)@,
                    block_meta,
                    block_data,
                ),
    ;
}

/// A factory which creates an Evictor
pub trait EvictorCreator<const W: usize, const Z: usize> {
    type Output: EvictionStrategy<W, Z> + BranchSelector + Send + Sync + 'static;

    /// The number of additional branches that the evictors of this factory
    /// evict into. An implementation says what it is.
    open spec fn number_of_additional_branches_to_evict(&self) -> usize {
        arbitrary()
    }

    /// What this factory promises of the evictor it has made for a tree of
    /// height `height`, beyond what every factory promises. An implementation
    /// says what it is.
    open spec fn creates(&self, height: u32, evictor: Self::Output) -> bool {
        true
    }

    /// Creates an eviction strategy
    /// `height`: height of the tree eviction will be called on, impacts branch
    /// selection.
    fn create(&self, height: u32) -> (evictor: Self::Output)
        requires
            height < 64,
        ensures
            evictor.tree_height() == height,
            evictor.number_of_additional_branches_to_evict()
                == self.number_of_additional_branches_to_evict(),
            self.creates(height, evictor),
    ;
}

/// An evictor that implements a random branch selection and the path oram
/// eviction strategy
pub struct PathOramRandomEvictor<RngType> {
    rng: RngType,
    number_of_additional_branches_to_evict: usize,
    branches_evicted: u64,
    tree_height: u32,
}

impl<RngType> PathOramRandomEvictor<RngType> {
    /// Height of the tree whose leaves are selected.
    pub closed spec fn tree_height(&self) -> nat {
        self.tree_height as nat
    }

    /// The number of branches to evict into on every access, beyond the
    /// branch of the accessed element.
    pub closed spec fn number_of_additional_branches_to_evict(&self) -> usize {
        self.number_of_additional_branches_to_evict
    }

    /// The number of branches selected so far. The count starts again at
    /// zero after `u64::MAX` branches.
    pub closed spec fn branches_evicted(&self) -> nat {
        self.branches_evicted as nat
    }

    /// Returns the number of branches to evict into on every access, beyond
    /// the branch of the accessed element.
    pub fn get_number_of_additional_branches_to_evict(&self) -> (count: usize)
        ensures
            count == self.number_of_additional_branches_to_evict(),
    {
        self.number_of_additional_branches_to_evict
    }
}

impl<RngType: RngCore + CryptoRng + Send + Sync + 'static> PathOramRandomEvictor<RngType> {
    /// Create a new random branch selector that draws its leaves with `rng`
    /// and selects `number_of_additional_branches_to_evict` branches per
    /// access in excess of the branch with the accessed element.
    pub fn new(
        rng: RngType,
        number_of_additional_branches_to_evict: usize,
        tree_height: u32,
    ) -> (evictor: Self)
        ensures
            evictor.tree_height() == tree_height,
            evictor.number_of_additional_branches_to_evict()
                == number_of_additional_branches_to_evict,
            evictor.branches_evicted() == 0,
    {
        Self { rng, number_of_additional_branches_to_evict, branches_evicted: 0, tree_height }
    }

    /// Returns the leaf index of the next branch to evict into: a leaf of the
    /// tree, drawn with the random number generator.
    pub fn get_next_branch_to_evict(&mut self) -> (leaf: u64)
        requires
            old(self).tree_height() < 64,
        ensures
            is_leaf_at_height(leaf as nat, old(self).tree_height()),
            final(self).tree_height() == old(self).tree_height(),
            final(self).number_of_additional_branches_to_evict() == old(
                self,
            ).number_of_additional_branches_to_evict(),
            final(self).branches_evicted() == (old(self).branches_evicted() + 1) % pow2(64),
    {
        proof {
            lemma2_to64();
            lemma2_to64_rest();
            if self.branches_evicted < u64::MAX {
                lemma_small_mod((self.branches_evicted + 1) as nat, pow2(64));
            }
        }
        self.branches_evicted = self.branches_evicted.wrapping_add(1);
        let leaf = random_child_at_height(1u64, self.tree_height, &mut self.rng);
        proof {
            lemma_node_height_range(leaf as nat);
        }
        leaf
    }
}

impl<RngType, const W: usize, const Z: usize> EvictionStrategy<W, Z> for PathOramRandomEvictor<
    RngType,
> {
    /// Method that takes a branch and a stash and moves elements from the
    /// stash into the branch.
    fn evict_from_stash_to_branch(
        &self,
        stash_data: &mut [[u64; W]],
        stash_meta: &mut [BlockMeta],
        branch: &mut BranchCheckout<W, Z>,
    )
        ensures
            final(stash_data)@ == old(stash_data)@,
            (final(branch)@, final(stash_meta)@) == evicted(
                old(branch)@,
                old(branch).leaf,
                old(stash_meta)@,
                old(stash_data)@,
            ),
            is_drained(old(stash_meta)@, final(stash_meta)@),
            is_packed(final(branch)@.meta, final(branch).leaf),
            is_blocked_stash(
                final(branch)@.meta,
                final(branch).leaf,
                final(stash_meta)@,
                final(stash_meta).len() as int,
            ),
    {
        path_oram_eviction_strategy::<W, Z>(stash_data, stash_meta, branch);
    }
}

/// An evictor that implements a deterministic branch selection in reverse
/// lexicographic order and using the path oram eviction strategy
pub struct PathOramDeterministicEvictor {
    number_of_additional_branches_to_evict: usize,
    branches_evicted: u64,
    tree_height: u32,
    tree_breadth: u64,
}

impl PathOramDeterministicEvictor {
    #[verifier::type_invariant]
    spec fn well_formed(self) -> bool {
        &&& self.tree_height < 64
        &&& self.tree_breadth == pow2(self.tree_height as nat)
        &&& self.branches_evicted < self.tree_breadth
    }

    /// The number of branches selected so far in the current sweep over the
    /// leaves.
    pub closed spec fn branches_evicted(&self) -> nat {
        self.branches_evicted as nat
    }

    /// Create a new deterministic branch selector that will select
    /// `number_of_additional_branches_to_evict`: branches per access in
    /// excess of branch with accessed element.
    /// `tree height`: corresponds to the height of tree
    pub fn new(number_of_additional_branches_to_evict: usize, tree_height: u32) -> (evictor: Self)
        requires
            tree_height < 64,
        ensures
            evictor.tree_height() == tree_height,
            evictor.number_of_additional_branches_to_evict()
                == number_of_additional_branches_to_evict,
            evictor.branches_evicted() == 0,
    {
        proof {
            lemma_u64_pow2_no_overflow(tree_height as nat);
            lemma_u64_shl_is_mul(1u64, tree_height as u64);
        }
        Self {
            number_of_additional_branches_to_evict,
            tree_height,
            tree_breadth: 1u64 << tree_height,
            branches_evicted: 0,
        }
    }
}

impl BranchSelector for PathOramDeterministicEvictor {
    closed spec fn tree_height(&self) -> nat {
        self.tree_height as nat
    }

    closed spec fn number_of_additional_branches_to_evict(&self) -> usize {
        self.number_of_additional_branches_to_evict
    }

    fn get_next_branch_to_evict(&mut self) -> (leaf: u64)
        ensures
            leaf == reverse_lexicographic_leaf(
                old(self).tree_height(),
                old(self).branches_evicted(),
            ),
            final(self).branches_evicted() == (old(self).branches_evicted() + 1) % pow2(
                old(self).tree_height(),
            ),
    {
        proof {
            use_type_invariant(&*self);
            lemma_reverse_lexicographic_leaf_is_leaf(
                self.tree_height as nat,
                self.branches_evicted as nat,
            );
        }
        //The height of the root is 0, so the number of bits needed for the leaves is
        // just the height
        let iteration = self.branches_evicted;
        self.branches_evicted = (self.branches_evicted + 1) % self.tree_breadth;
        deterministic_get_next_branch_to_evict(self.tree_height, iteration)
    }

    fn get_number_of_additional_branches_to_evict(&self) -> (count: usize) {
        self.number_of_additional_branches_to_evict
    }
}

impl<const W: usize, const Z: usize> EvictionStrategy<W, Z> for PathOramDeterministicEvictor {
    fn evict_from_stash_to_branch(
        &self,
        stash_data: &mut [[u64; W]],
        stash_meta: &mut [BlockMeta],
        branch: &mut BranchCheckout<W, Z>,
    )
        ensures
            final(stash_data)@ == old(stash_data)@,
            (final(branch)@, final(stash_meta)@) == evicted(
                old(branch)@,
                old(branch).leaf,
                old(stash_meta)@,
                old(stash_data)@,
            ),
            is_drained(old(stash_meta)@, final(stash_meta)@),
            is_packed(final(branch)@.meta, final(branch).leaf),
            is_blocked_stash(
                final(branch)@.meta,
                final(branch).leaf,
                final(stash_meta)@,
                final(stash_meta).len() as int,
            ),
    {
        path_oram_eviction_strategy::<W, Z>(stash_data, stash_meta, branch);
    }
}

/// A factory which creates an PathOramDeterministicEvictor that evicts from the
/// stash into an additional `number_of_additional_branches_to_evict` branches
/// in addition to the currently checked out branch in reverse lexicographic
/// order.
pub struct PathOramDeterministicEvictorCreator {
    number_of_additional_branches_to_evict: usize,
}

impl PathOramDeterministicEvictorCreator {
    /// The number of additional branches that the evictors of this factory
    /// evict into.
    pub closed spec fn configured_branches(&self) -> usize {
        self.number_of_additional_branches_to_evict
    }

    /// Create a factory for a deterministic branch selector that will evict
    /// `number_of_additional_branches_to_evict` branches per access
    pub fn new(number_of_additional_branches_to_evict: usize) -> (creator: Self)
        ensures
            creator.configured_branches() == number_of_additional_branches_to_evict,
    {
        Self { number_of_additional_branches_to_evict }
    }
}

impl<const W: usize, const Z: usize> EvictorCreator<W, Z> for PathOramDeterministicEvictorCreator {
    type Output = PathOramDeterministicEvictor;

    open spec fn number_of_additional_branches_to_evict(&self) -> usize {
        self.configured_branches()
    }

    /// The evictor starts its sweep at the first leaf.
    open spec fn creates(&self, height: u32, evictor: PathOramDeterministicEvictor) -> bool {
        evictor.branches_evicted() == 0
    }

    fn create(&self, height: u32) -> (evictor: Self::Output) {
        PathOramDeterministicEvictor::new(self.number_of_additional_branches_to_evict, height)
    }
}

} // verus!
