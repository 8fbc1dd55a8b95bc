use aligned_cmov::subtle::Choice;
use mc_oblivious_ram::evictor::{
    deterministic_get_next_branch_to_evict, path_oram_eviction_strategy, BranchSelector, EvictionStrategy, EvictorCreator,
    PathOramDeterministicEvictor, PathOramDeterministicEvictorCreator, PathOramRandomEvictor,
};
use mc_oblivious_ram::path_oram::{
    lowest_height_legal_index, meta_block_num, meta_is_vacant, meta_leaf_num, meta_set_vacant,
    BlockMeta, BranchCheckout,
};
use rand_core::SeedableRng;
use rand_hc::Hc128Rng;

const W: usize = 2;
const Z: usize = 2;

fn vacant_branch(leaf: u64, len: usize) -> BranchCheckout<W, Z> {
    BranchCheckout {
        leaf,
        data: vec![[[0u64; W]; Z]; len],
        meta: vec![[BlockMeta::default(); Z]; len],
    }
}

fn block(leaf_num: u64, block_num: u64) -> BlockMeta {
    BlockMeta { leaf_num, block_num }
}

fn occupied(slots: &[BlockMeta]) -> usize {
    slots.iter().filter(|meta| meta.leaf_num != 0).count()
}

// All blocks of the branch and the stash, as (leaf, block number, payload), in
// ascending order.
fn blocks_of(
    branch: &BranchCheckout<W, Z>,
    stash_data: &[[u64; W]],
    stash_meta: &[BlockMeta],
) -> Vec<(u64, u64, [u64; W])> {
    let mut blocks = Vec::new();
    for (bucket_meta, bucket_data) in branch.meta.iter().zip(branch.data.iter()) {
        for (meta, data) in bucket_meta.iter().zip(bucket_data.iter()) {
            if meta.leaf_num != 0 {
                blocks.push((meta.leaf_num, meta.block_num, *data));
            }
        }
    }
    for (meta, data) in stash_meta.iter().zip(stash_data.iter()) {
        if meta.leaf_num != 0 {
            blocks.push((meta.leaf_num, meta.block_num, *data));
        }
    }
    blocks.sort();
    blocks
}

fn is_legal(branch: &BranchCheckout<W, Z>) -> bool {
    let len = branch.meta.len();
    branch.meta.iter().enumerate().all(|(bucket, slots)| {
        slots.iter().all(|meta| {
            meta.leaf_num == 0
                || lowest_height_legal_index(meta.leaf_num, branch.leaf, len) <= bucket
        })
    })
}

fn is_full(bucket: &[BlockMeta; Z]) -> bool {
    bucket.iter().all(|meta| meta.leaf_num != 0)
}

// No block of the branch could sit in a lower bucket that has room.
fn is_packed(branch: &BranchCheckout<W, Z>) -> bool {
    let len = branch.meta.len();
    branch.meta.iter().enumerate().all(|(bucket, slots)| {
        slots.iter().all(|meta| {
            meta.leaf_num == 0
                || (lowest_height_legal_index(meta.leaf_num, branch.leaf, len)..bucket)
                    .all(|below| is_full(&branch.meta[below]))
        })
    })
}

// No block of the stash could sit in a bucket that has room.
fn is_blocked(branch: &BranchCheckout<W, Z>, stash_meta: &[BlockMeta]) -> bool {
    let len = branch.meta.len();
    stash_meta.iter().all(|meta| {
        meta.leaf_num == 0
            || (lowest_height_legal_index(meta.leaf_num, branch.leaf, len)..len)
                .all(|bucket| is_full(&branch.meta[bucket]))
    })
}

#[test]
fn lowest_legal_index_on_the_branch_of_leaf_16() {
    // the path to 21 leaves the branch of 16 below node 2, which is bucket 3
    assert_eq!(lowest_height_legal_index(21, 16, 5), 3);
    assert_eq!(lowest_height_legal_index(23, 16, 5), 3);
    assert_eq!(lowest_height_legal_index(20, 16, 5), 3);
    assert_eq!(lowest_height_legal_index(18, 16, 5), 2);
    assert_eq!(lowest_height_legal_index(19, 16, 5), 2);
    assert_eq!(lowest_height_legal_index(17, 16, 5), 1);
    assert_eq!(lowest_height_legal_index(16, 16, 5), 0);
    assert_eq!(lowest_height_legal_index(26, 16, 5), 4);
    assert_eq!(lowest_height_legal_index(31, 16, 5), 4);
    // a block bound for an inner node can sit no lower than that node
    assert_eq!(lowest_height_legal_index(4, 16, 5), 2);
    assert_eq!(lowest_height_legal_index(1, 16, 5), 4);
    // a vacant slot counts as bound for the root
    assert_eq!(lowest_height_legal_index(0, 16, 5), 4);
}

// The height of the deepest node on both the path to `a` and the path to `b`.
fn naive_common_ancestor_height(mut a: u64, mut b: u64) -> usize {
    while a != b {
        if a > b {
            a /= 2;
        } else {
            b /= 2;
        }
    }
    let mut height = 0;
    while a > 1 {
        a /= 2;
        height += 1;
    }
    height
}

#[test]
fn lowest_legal_index_counts_the_shared_path() {
    for leaf in 1..128u64 {
        let len = naive_common_ancestor_height(leaf, leaf) + 1;
        for destination in 1..256u64 {
            assert_eq!(
                lowest_height_legal_index(destination, leaf, len),
                len - 1 - naive_common_ancestor_height(leaf, destination)
            );
        }
        assert_eq!(lowest_height_legal_index(0, leaf, len), len - 1);
        assert_eq!(lowest_height_legal_index(leaf, leaf, len), 0);
    }
    let deep = 1u64 << 63;
    assert_eq!(lowest_height_legal_index(deep, deep, 64), 0);
    assert_eq!(lowest_height_legal_index(deep + 1, deep, 64), 1);
    assert_eq!(lowest_height_legal_index(u64::MAX, deep, 64), 63);
    assert_eq!(lowest_height_legal_index(u64::MAX, u64::MAX, 64), 0);
}

#[test]
fn lowest_legal_index_of_a_branch_method() {
    let branch = vacant_branch(5, 3);
    assert_eq!(branch.lowest_height_legal_index(5), 0);
    assert_eq!(branch.lowest_height_legal_index(4), 1);
    assert_eq!(branch.lowest_height_legal_index(7), 2);
    assert_eq!(branch.lowest_height_legal_index(0), 2);
}

#[test]
fn well_formed_branches_reach_from_the_leaf_to_the_root() {
    assert!(vacant_branch(4, 3).is_well_formed());
    assert!(vacant_branch(7, 3).is_well_formed());
    assert!(vacant_branch(1, 1).is_well_formed());
    assert!(vacant_branch(1 << 63, 64).is_well_formed());
    // no branch is checked out
    assert!(!vacant_branch(0, 0).is_well_formed());
    assert!(!vacant_branch(0, 1).is_well_formed());
    // too few and too many buckets
    assert!(!vacant_branch(4, 2).is_well_formed());
    assert!(!vacant_branch(4, 4).is_well_formed());
    assert!(!vacant_branch(1, 0).is_well_formed());
    // payload and metadata differ in length
    let mut branch = vacant_branch(4, 3);
    branch.data.pop();
    assert!(!branch.is_well_formed());
}

#[test]
fn metadata_accessors() {
    let mut meta = block(9, 4);
    assert_eq!(meta_leaf_num(&meta), 9);
    assert_eq!(meta_block_num(&meta), 4);
    assert!(!bool::from(meta_is_vacant(&meta)));
    meta_set_vacant(Choice::from(0), &mut meta);
    assert_eq!(meta, block(9, 4));
    meta_set_vacant(Choice::from(1), &mut meta);
    assert_eq!(meta, block(0, 4));
    assert!(bool::from(meta_is_vacant(&meta)));
    assert!(bool::from(meta_is_vacant(&BlockMeta::default())));
    assert_eq!(BlockMeta::default(), block(0, 0));
}

#[test]
fn ct_insert_puts_the_block_as_low_as_it_may_go() {
    let mut branch = vacant_branch(4, 3);
    let mut src = block(5, 7);
    branch.ct_insert(Choice::from(1), &[11, 12], &mut src);
    // the paths to 4 and 5 part below node 2, which is bucket 1
    assert_eq!(branch.meta[1][0], block(5, 7));
    assert_eq!(branch.data[1][0], [11, 12]);
    assert_eq!(src, block(0, 7));
    assert_eq!(occupied(&branch.meta[0]) + occupied(&branch.meta[2]), 0);
    assert_eq!(branch.meta[1][1], BlockMeta::default());
    assert_eq!(branch.leaf, 4);
}

#[test]
fn ct_insert_takes_the_first_vacant_slot_of_the_lowest_bucket_with_room() {
    let mut branch = vacant_branch(4, 3);
    for number in 0..5 {
        let mut src = block(4, number);
        branch.ct_insert(Choice::from(1), &[number, number], &mut src);
        assert_eq!(src, block(0, number));
    }
    assert_eq!(branch.meta[0], [block(4, 0), block(4, 1)]);
    assert_eq!(branch.meta[1], [block(4, 2), block(4, 3)]);
    assert_eq!(branch.meta[2], [block(4, 4), BlockMeta::default()]);
    assert_eq!(branch.data[2], [[4, 4], [0, 0]]);

    // a vacated slot in the middle is filled again
    branch.meta[1][0].leaf_num = 0;
    let mut src = block(5, 9);
    branch.ct_insert(Choice::from(1), &[9, 9], &mut src);
    assert_eq!(branch.meta[1], [block(5, 9), block(4, 3)]);
    assert_eq!(branch.data[1], [[9, 9], [3, 3]]);
}

#[test]
fn ct_insert_without_room_changes_nothing() {
    let mut branch = vacant_branch(4, 3);
    // the root is full, and a block bound for leaf 6 may sit nowhere else
    branch.meta[2] = [block(7, 1), block(7, 2)];
    let before_meta = branch.meta.clone();
    let before_data = branch.data.clone();
    let mut src = block(6, 3);
    branch.ct_insert(Choice::from(1), &[5, 5], &mut src);
    assert_eq!(src, block(6, 3));
    assert_eq!(branch.meta, before_meta);
    assert_eq!(branch.data, before_data);
}

#[test]
fn ct_insert_needs_the_condition_and_a_block() {
    let mut branch = vacant_branch(4, 3);
    let before_meta = branch.meta.clone();
    let before_data = branch.data.clone();

    let mut src = block(4, 3);
    branch.ct_insert(Choice::from(0), &[5, 5], &mut src);
    assert_eq!(src, block(4, 3));
    assert_eq!(branch.meta, before_meta);
    assert_eq!(branch.data, before_data);

    let mut src = block(0, 3);
    branch.ct_insert(Choice::from(1), &[5, 5], &mut src);
    assert_eq!(src, block(0, 3));
    assert_eq!(branch.meta, before_meta);
    assert_eq!(branch.data, before_data);
}

#[test]
fn pack_moves_blocks_towards_the_leaf() {
    let mut branch = vacant_branch(4, 3);
    branch.meta[2] = [block(4, 1), block(5, 2)];
    branch.data[2] = [[1, 1], [2, 2]];
    branch.meta[1] = [block(7, 3), block(4, 4)];
    branch.data[1] = [[3, 3], [4, 4]];
    branch.pack();
    // bucket 1 is packed first: block 4 goes to the leaf, block 3 stays where it
    // is, although it may not sit there. Then block 1 of the root goes to the leaf
    // and block 2 to the slot that block 4 has left.
    assert_eq!(branch.meta[0], [block(4, 4), block(4, 1)]);
    assert_eq!(branch.data[0], [[4, 4], [1, 1]]);
    assert_eq!(branch.meta[1], [block(7, 3), block(5, 2)]);
    assert_eq!(branch.data[1], [[3, 3], [2, 2]]);
    assert_eq!(branch.meta[2], [block(0, 1), block(0, 2)]);
    assert_eq!(branch.leaf, 4);
}

#[test]
fn pack_leaves_no_block_that_could_go_lower() {
    let mut state = 0x9e37_79b9_7f4a_7c15u64;
    let mut next = move || {
        state ^= state << 13;
        state ^= state >> 7;
        state ^= state << 17;
        state
    };
    for _ in 0..200 {
        let mut branch = vacant_branch(8 + next() % 8, 4);
        let mut number = 0;
        for bucket in 0..4 {
            for slot in 0..Z {
                // a third of the slots are vacant, and blocks may lie where they may not
                if next() % 3 != 0 {
                    number += 1;
                    branch.meta[bucket][slot] = block(8 + next() % 8, number);
                    branch.data[bucket][slot] = [number, number];
                }
            }
        }
        let legal_before = is_legal(&branch);
        let blocks_before = blocks_of(&branch, &[], &[]);
        branch.pack();
        assert!(is_packed(&branch));
        assert!(!legal_before || is_legal(&branch));
        assert_eq!(blocks_of(&branch, &[], &[]), blocks_before);
    }
}

#[test]
fn pack_of_a_packed_branch_changes_nothing() {
    let mut branch = vacant_branch(4, 3);
    branch.meta[0] = [block(4, 1), block(4, 2)];
    branch.meta[1] = [block(5, 3), BlockMeta::default()];
    branch.meta[2] = [block(6, 4), block(4, 5)];
    branch.pack();
    assert_eq!(branch.meta[0], [block(4, 1), block(4, 2)]);
    assert_eq!(branch.meta[1], [block(5, 3), block(4, 5)]);
    assert_eq!(branch.meta[2], [block(6, 4), block(0, 5)]);
    let packed_meta = branch.meta.clone();
    let packed_data = branch.data.clone();
    branch.pack();
    assert_eq!(branch.meta, packed_meta);
    assert_eq!(branch.data, packed_data);
}

#[test]
fn evicting_an_empty_stash_only_packs_the_branch() {
    let mut branch = vacant_branch(4, 3);
    branch.meta[2] = [block(4, 1), block(5, 2)];
    branch.data[2] = [[1, 1], [2, 2]];
    branch.meta[1] = [block(7, 3), block(4, 4)];
    branch.data[1] = [[3, 3], [4, 4]];
    let mut packed = vacant_branch(4, 3);
    packed.meta = branch.meta.clone();
    packed.data = branch.data.clone();
    packed.pack();

    // vacant slots keep their block number and their payload
    let mut stash_data = vec![[8u64, 8], [9, 9]];
    let mut stash_meta = vec![block(0, 6), block(0, 0)];
    path_oram_eviction_strategy::<W, Z>(&mut stash_data, &mut stash_meta, &mut branch);
    assert_eq!(branch.meta, packed.meta);
    assert_eq!(branch.data, packed.data);
    assert_eq!(branch.leaf, 4);
    assert_eq!(stash_meta, vec![block(0, 6), block(0, 0)]);
    assert_eq!(stash_data, vec![[8u64, 8], [9, 9]]);

    // a stash without slots
    let mut no_data: Vec<[u64; W]> = Vec::new();
    let mut no_meta: Vec<BlockMeta> = Vec::new();
    path_oram_eviction_strategy::<W, Z>(&mut no_data, &mut no_meta, &mut branch);
    assert_eq!(branch.meta, packed.meta);
    assert_eq!(branch.data, packed.data);
}

#[test]
fn eviction_places_the_stash_greedily() {
    let mut branch = vacant_branch(4, 3);
    let mut stash_data = vec![[1u64, 1], [2, 2], [3, 3], [4, 4], [5, 5], [6, 6]];
    let mut stash_meta =
        vec![block(7, 1), block(4, 2), block(6, 3), block(0, 4), block(4, 5), block(7, 6)];
    path_oram_eviction_strategy::<W, Z>(&mut stash_data, &mut stash_meta, &mut branch);
    assert_eq!(branch.meta[0], [block(4, 2), block(4, 5)]);
    assert_eq!(branch.data[0], [[2, 2], [5, 5]]);
    assert_eq!(branch.meta[1], [BlockMeta::default(), BlockMeta::default()]);
    assert_eq!(branch.meta[2], [block(7, 1), block(6, 3)]);
    assert_eq!(branch.data[2], [[1, 1], [3, 3]]);
    // the root was full when the last block came
    assert_eq!(
        stash_meta,
        vec![block(0, 1), block(0, 2), block(0, 3), block(0, 4), block(0, 5), block(7, 6)]
    );
    assert_eq!(stash_data, vec![[1u64, 1], [2, 2], [3, 3], [4, 4], [5, 5], [6, 6]]);
}

#[test]
fn repeated_eviction_never_fills_the_stash() {
    let mut rng_state = 0x2545_f491_4f6c_dd1du64;
    let mut next = move || {
        rng_state ^= rng_state << 13;
        rng_state ^= rng_state >> 7;
        rng_state ^= rng_state << 17;
        rng_state
    };
    let height = 3;
    let len = height + 1;
    let leaves = 1u64 << height;
    let mut stash_data: Vec<[u64; W]> = Vec::new();
    let mut stash_meta: Vec<BlockMeta> = Vec::new();
    for number in 0..40u64 {
        stash_data.push([number, !number]);
        stash_meta.push(block(leaves + next() % leaves, number));
    }
    // the tree, one bucket for each node
    let mut tree = vec![([[0u64; W]; Z], [BlockMeta::default(); Z]); 2 * leaves as usize];
    let mut evictor = PathOramDeterministicEvictor::new(1, height as u32);
    let mut branch = vacant_branch(0, 0);
    let all_blocks = blocks_of(&branch, &stash_data, &stash_meta);
    assert_eq!(all_blocks.len(), 40);
    let mut in_tree: Vec<(u64, u64, [u64; W])> = Vec::new();
    for _ in 0..(3 * leaves) {
        let leaf = evictor.get_next_branch_to_evict();
        branch.leaf = leaf;
        branch.data = (0..len).map(|i| tree[(leaf >> i) as usize].0).collect();
        branch.meta = (0..len).map(|i| tree[(leaf >> i) as usize].1).collect();
        assert!(is_legal(&branch));
        let on_branch = blocks_of(&branch, &[], &[]);

        let occupied_before = occupied(&stash_meta);
        let blocks_before = blocks_of(&branch, &stash_data, &stash_meta);
        let stash_before = stash_meta.clone();
        evictor.evict_from_stash_to_branch(&mut stash_data, &mut stash_meta, &mut branch);
        assert!(occupied(&stash_meta) <= occupied_before);
        assert_eq!(blocks_of(&branch, &stash_data, &stash_meta), blocks_before);
        assert!(is_legal(&branch));
        assert!(is_packed(&branch));
        assert!(is_blocked(&branch, &stash_meta));
        assert_eq!(branch.leaf, leaf);
        assert_eq!(branch.meta.len(), len);
        for (after, before) in stash_meta.iter().zip(stash_before.iter()) {
            assert!(after == before || *after == block(0, before.block_num));
        }

        in_tree.retain(|block| !on_branch.contains(block));
        in_tree.extend(blocks_of(&branch, &[], &[]));
        for i in 0..len {
            tree[(leaf >> i) as usize] = (branch.data[i], branch.meta[i]);
        }
    }
    // 15 buckets of 2 slots hold at most 30 blocks
    assert!(occupied(&stash_meta) >= 10);
    assert!(occupied(&stash_meta) < 40);
    in_tree.extend(blocks_of(&vacant_branch(1, 1), &stash_data, &stash_meta));
    in_tree.sort();
    assert_eq!(in_tree, all_blocks);
}

#[test]
fn deterministic_evictor_sweeps_the_leaves_of_a_tree_of_height_3() {
    let mut evictor = PathOramDeterministicEvictor::new(2, 3);
    let leaves: Vec<u64> = (0..9).map(|_| evictor.get_next_branch_to_evict()).collect();
    assert_eq!(leaves, vec![8, 12, 10, 14, 9, 13, 11, 15, 8]);
    assert_eq!(evictor.get_number_of_additional_branches_to_evict(), 2);
}

#[test]
fn deterministic_evictor_of_a_single_node_tree() {
    let mut evictor = PathOramDeterministicEvictor::new(0, 0);
    for _ in 0..5 {
        assert_eq!(evictor.get_next_branch_to_evict(), 1);
    }
    assert_eq!(evictor.get_number_of_additional_branches_to_evict(), 0);
}

#[test]
fn deterministic_evictor_visits_every_leaf_once_per_period() {
    for height in 1..8u32 {
        let leaves = 1u64 << height;
        let mut evictor = PathOramDeterministicEvictor::new(1, height);
        let first: Vec<u64> = (0..leaves).map(|_| evictor.get_next_branch_to_evict()).collect();
        let second: Vec<u64> = (0..leaves).map(|_| evictor.get_next_branch_to_evict()).collect();
        assert_eq!(first, second);
        let mut sorted = first.clone();
        sorted.sort();
        assert_eq!(sorted, (leaves..2 * leaves).collect::<Vec<u64>>());
        // leaves of the left and of the right half of the tree take turns
        for pair in first.chunks(2) {
            assert!(pair[0] < leaves + leaves / 2);
            assert!(pair[1] >= leaves + leaves / 2);
        }
    }
}

#[test]
fn deterministic_order_reverses_the_path_bits() {
    let mut state = 0x0123_4567_89ab_cdefu64;
    for height in 1..64u32 {
        for _ in 0..50 {
            state ^= state << 13;
            state ^= state >> 7;
            state ^= state << 17;
            let iteration = state;
            // the path bits of the leaf are the low bits of the iteration, read backwards
            let mut path = 0u64;
            for bit in 0..height {
                path |= ((iteration >> bit) & 1) << (height - 1 - bit);
            }
            assert_eq!(
                deterministic_get_next_branch_to_evict(height, iteration),
                (1u64 << height) + path
            );
        }
    }
    assert_eq!(deterministic_get_next_branch_to_evict(0, 77), 1);
    assert_eq!(deterministic_get_next_branch_to_evict(4, 1), 24);
    assert_eq!(deterministic_get_next_branch_to_evict(4, 17), 24);
    assert_eq!(deterministic_get_next_branch_to_evict(63, u64::MAX), u64::MAX);
}

#[test]
fn deterministic_evictor_of_the_tallest_tree() {
    let mut evictor = PathOramDeterministicEvictor::new(1, 63);
    assert_eq!(evictor.get_next_branch_to_evict(), 1 << 63);
    assert_eq!(evictor.get_next_branch_to_evict(), (1 << 63) + (1 << 62));
    assert_eq!(evictor.get_next_branch_to_evict(), (1 << 63) + (1 << 61));
}

#[test]
fn creator_makes_an_evictor_for_the_height() {
    let creator = PathOramDeterministicEvictorCreator::new(3);
    let mut evictor = <PathOramDeterministicEvictorCreator as EvictorCreator<W, Z>>::create(
        &creator, 2,
    );
    assert_eq!(evictor.get_number_of_additional_branches_to_evict(), 3);
    let leaves: Vec<u64> = (0..5).map(|_| evictor.get_next_branch_to_evict()).collect();
    assert_eq!(leaves, vec![4, 6, 5, 7, 4]);
}

#[test]
fn random_evictor_draws_leaves_of_the_tree() {
    for height in [0u32, 1, 5, 20, 63] {
        let rng = Hc128Rng::from_seed([7u8; 32]);
        let mut evictor = PathOramRandomEvictor::new(rng, 4, height);
        assert_eq!(evictor.get_number_of_additional_branches_to_evict(), 4);
        let mut seen = Vec::new();
        for _ in 0..50 {
            let leaf = evictor.get_next_branch_to_evict();
            assert_eq!(leaf >> height, 1);
            seen.push(leaf);
        }
        seen.sort();
        seen.dedup();
        if height >= 5 {
            assert!(seen.len() > 10);
        }
    }
}

#[test]
fn random_evictor_evicts_like_the_deterministic_one() {
    let random = PathOramRandomEvictor::new(Hc128Rng::from_seed([1u8; 32]), 1, 2);
    let deterministic = PathOramDeterministicEvictor::new(1, 2);
    let mut first = vacant_branch(5, 3);
    first.meta[2] = [block(5, 1), block(6, 2)];
    let mut second = vacant_branch(5, 3);
    second.meta[2] = [block(5, 1), block(6, 2)];
    let mut first_data = vec![[1u64, 2], [3, 4]];
    let mut first_meta = vec![block(4, 8), block(5, 9)];
    let mut second_data = first_data.clone();
    let mut second_meta = first_meta.clone();
    random.evict_from_stash_to_branch(&mut first_data, &mut first_meta, &mut first);
    deterministic.evict_from_stash_to_branch(&mut second_data, &mut second_meta, &mut second);
    assert_eq!(first.meta, second.meta);
    assert_eq!(first.data, second.data);
    assert_eq!(first_meta, second_meta);
    assert_eq!(first.meta[0], [block(5, 1), block(5, 9)]);
    assert_eq!(first.meta[1], [block(4, 8), BlockMeta::default()]);
    assert_eq!(first.meta[2], [block(0, 1), block(6, 2)]);
    assert_eq!(first_meta, vec![block(0, 8), block(0, 9)]);
}
