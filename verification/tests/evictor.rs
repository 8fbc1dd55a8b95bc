use aligned_cmov::subtle::Choice;
use balanced_tree_index::TreeIndex;
use mc_oblivious_ram::evictor::{
    bucket_has_empty_slot, deterministic_get_next_branch_to_evict, prepare_deepest,
    prepare_target, FLOOR_INDEX,
};
use mc_oblivious_ram::path_oram::{lowest_height_legal_index, BlockMeta, BranchCheckout};
use rand_core::{RngCore, SeedableRng};
use rand_hc::Hc128Rng;

type RngType = Hc128Rng;

const W: usize = 8;
const Z: usize = 4;

type Bucket = ([[u64; W]; Z], [BlockMeta; Z]);

// Runs the test once for each of a few fixed seeds.
fn run_with_several_seeds<F: FnMut(RngType)>(mut f: F) {
    for seed in [[7u8; 32], [30u8; 32], [103u8; 32]] {
        f(RngType::from_seed(seed));
    }
}

fn log2_ceil(arg: u64) -> u32 {
    if arg <= 1 {
        0
    } else {
        64 - (arg - 1).leading_zeros()
    }
}

fn vacant_bucket() -> Bucket {
    ([[0u64; W]; Z], [BlockMeta::default(); Z])
}

// A tree in memory: bucket `i` of the vector is node `i` of the tree.
fn create_storage(size: u64) -> Vec<Bucket> {
    vec![vacant_bucket(); size as usize]
}

fn checkout(branch: &mut BranchCheckout<W, Z>, storage: &[Bucket], leaf: u64) {
    assert_eq!(branch.leaf, 0);
    branch.data.clear();
    branch.meta.clear();
    let mut node = leaf;
    while node != 0 {
        let (data, meta) = storage[node as usize];
        branch.data.push(data);
        branch.meta.push(meta);
        node >>= 1;
    }
    branch.leaf = leaf;
}

fn checkin(branch: &mut BranchCheckout<W, Z>, storage: &mut [Bucket]) {
    assert_ne!(branch.leaf, 0);
    let mut node = branch.leaf;
    let mut idx = 0;
    while node != 0 {
        storage[node as usize] = (branch.data[idx], branch.meta[idx]);
        node >>= 1;
        idx += 1;
    }
    branch.leaf = 0;
}

struct LowestHeightAndSource {
    source_bucket: usize,
    destination_bucket: usize,
}

//find the source for the deepest element from test_level up to the stash.
fn find_source_for_deepest_elem_in_stash_non_oblivious_for_testing(
    stash_meta: &[BlockMeta],
    branch_meta: &[[BlockMeta; Z]],
    leaf: u64,
    test_level: usize,
) -> LowestHeightAndSource {
    let mut lowest_so_far = FLOOR_INDEX;
    let mut source_of_lowest_so_far = FLOOR_INDEX;
    let meta_len = branch_meta.len();

    for stash_elem in stash_meta {
        let elem_destination = lowest_height_legal_index(stash_elem.leaf_num, leaf, meta_len);
        if elem_destination < lowest_so_far {
            lowest_so_far = elem_destination;
            source_of_lowest_so_far = meta_len;
        }
    }
    // Iterate over the branch from root to the test_level to find the element that
    // can go the deepest. Noting that 0 is the leaf.
    for (bucket_num, bucket) in branch_meta.iter().enumerate().skip(test_level).rev() {
        for src_meta in bucket {
            let elem_destination = lowest_height_legal_index(src_meta.leaf_num, leaf, meta_len);
            if elem_destination < lowest_so_far {
                lowest_so_far = elem_destination;
                source_of_lowest_so_far = bucket_num;
            }
        }
    }
    LowestHeightAndSource {
        source_bucket: source_of_lowest_so_far,
        destination_bucket: lowest_so_far,
    }
}

/// Non obliviously prepare deepest by iterating over the array multiple
/// times to find the element that can go deepest for each index.
fn prepare_deepest_non_oblivious_for_testing(
    deepest_meta: &mut [usize],
    stash_meta: &[BlockMeta],
    branch_meta: &[[BlockMeta; Z]],
    leaf: u64,
) {
    //Need one extra for the stash.
    assert!(deepest_meta.len() == (branch_meta.len() + 1));
    for (i, deepest_at_i) in deepest_meta.iter_mut().enumerate() {
        let deepest_test = find_source_for_deepest_elem_in_stash_non_oblivious_for_testing(
            stash_meta,
            branch_meta,
            leaf,
            i + 1,
        );
        if deepest_test.destination_bucket <= i && deepest_test.source_bucket > i {
            *deepest_at_i = deepest_test.source_bucket;
        } else {
            *deepest_at_i = FLOOR_INDEX;
        }
    }
}

// Non oblivious prepare target s.t. the target array should be indices that
// would have elements moved into it. Scan from leaf to root skipping to the
// source from deepest when an element is taken
fn prepare_target_nonoblivious_for_testing(
    target_meta: &mut [usize],
    deepest_meta: &[usize],
    branch_meta: &[[BlockMeta; Z]],
) {
    let mut i = 0usize;
    let mut has_vacancy = false;
    while i < branch_meta.len() {
        has_vacancy |= bool::from(bucket_has_empty_slot(&branch_meta[i]));
        if deepest_meta[i] == FLOOR_INDEX {
            target_meta[i] = FLOOR_INDEX;
            has_vacancy = false;
            i += 1;
        } else if has_vacancy {
            let target = i;
            i = deepest_meta[i];
            target_meta[i] = target;
        } else {
            i += 1;
        }
    }
}

struct BranchDataConfig {
    leaf: u64,
    intended_leaves_for_data_to_insert: Vec<u64>,
}

/// Populate ORAM with specific test data and checks out the last branch to
/// have data added to it.
fn populate_branch_with_fixed_data(branch: &mut BranchCheckout<W, Z>) {
    let size = 64;
    let height = log2_ceil(size).saturating_sub(log2_ceil(Z as u64));
    let mut storage = create_storage(2u64 << height);

    let branch_20 = BranchDataConfig {
        leaf: 20,
        intended_leaves_for_data_to_insert: vec![24, 27, 18, 23],
    };
    let branch_16 = BranchDataConfig {
        leaf: 16,
        intended_leaves_for_data_to_insert: vec![31, 30, 20, 19],
    };
    for branch_to_insert in [branch_20, branch_16] {
        checkout(branch, &storage, branch_to_insert.leaf);
        for intended_leaf in branch_to_insert.intended_leaves_for_data_to_insert {
            let mut meta = BlockMeta::default();
            let data = [0u64; W];
            meta.block_num = intended_leaf;
            meta.leaf_num = intended_leaf;
            branch.ct_insert(Choice::from(1), &data, &mut meta);
        }
        checkin(branch, &mut storage);
    }
    checkout(branch, &storage, 16);
}

fn populate_branch_with_random_data(
    branch: &mut BranchCheckout<W, Z>,
    rng: &mut RngType,
    height: u32,
    amount_of_data_to_generate: u64,
) {
    for key in 0..amount_of_data_to_generate {
        let new_pos = 1u64.random_child_at_height(height, rng);
        let mut meta = BlockMeta::default();
        let data = [0u64; W];
        meta.block_num = key;
        meta.leaf_num = new_pos;
        branch.ct_insert(Choice::from(1), &data, &mut meta);
    }
}

fn leaves_of(bucket: &[BlockMeta; Z]) -> Vec<u64> {
    bucket.iter().map(|meta| meta.leaf_num).collect()
}

#[test]
// Check that deterministic oram correctly chooses leaf values
fn test_deterministic_oram_get_branches_to_evict() {
    let test_branch = deterministic_get_next_branch_to_evict(3, 0);
    assert_eq!(test_branch, 8);
    let test_branch = deterministic_get_next_branch_to_evict(3, 1);
    assert_eq!(test_branch, 12);
    let test_branch = deterministic_get_next_branch_to_evict(3, 2);
    assert_eq!(test_branch, 10);
    let test_branch = deterministic_get_next_branch_to_evict(3, 3);
    assert_eq!(test_branch, 14);
    let test_branch = deterministic_get_next_branch_to_evict(3, 4);
    assert_eq!(test_branch, 9);
    let test_branch = deterministic_get_next_branch_to_evict(3, 5);
    assert_eq!(test_branch, 13);
    let test_branch = deterministic_get_next_branch_to_evict(3, 6);
    assert_eq!(test_branch, 11);
    let test_branch = deterministic_get_next_branch_to_evict(3, 7);
    assert_eq!(test_branch, 15);
    let test_branch = deterministic_get_next_branch_to_evict(3, 8);
    assert_eq!(test_branch, 8);
}

#[test]
/// Compare prepare deepest with non oblivious prepare deepest and
/// prepare_target with non oblivious prepare target
fn test_prepare_deepest_and_target_with_random_comparison() {
    let size = 64;
    let height = log2_ceil(size).saturating_sub(log2_ceil(Z as u64));
    let stash_size = 4;
    // The first leaf in the tree
    let leaf = 1 << height;
    run_with_several_seeds(|mut rng| {
        let mut storage = create_storage(2u64 << height);
        let mut branch: BranchCheckout<W, Z> = Default::default();
        checkout(&mut branch, &storage, leaf + leaf / 4);

        populate_branch_with_random_data(&mut branch, &mut rng, height, 4);

        checkin(&mut branch, &mut storage);
        checkout(&mut branch, &storage, leaf);

        populate_branch_with_random_data(&mut branch, &mut rng, height, 4);

        let adjusted_data_len = branch.meta.len() + 1;

        let mut stash_meta = vec![BlockMeta::default(); stash_size];
        let mut deepest_meta_compare = vec![FLOOR_INDEX; adjusted_data_len];
        let mut key_value = 2;
        for src_meta in &mut stash_meta {
            src_meta.block_num = key_value;
            // Set the new leaf destination for the item
            src_meta.leaf_num = 1u64.random_child_at_height(height, &mut rng);
            key_value += 1;
        }
        let deepest_meta = prepare_deepest::<Z>(&stash_meta, &branch.meta, branch.leaf);

        prepare_deepest_non_oblivious_for_testing(
            &mut deepest_meta_compare,
            &stash_meta,
            &branch.meta,
            branch.leaf,
        );
        assert_eq!(deepest_meta, deepest_meta_compare);

        let mut test_target_meta = vec![FLOOR_INDEX; adjusted_data_len];

        prepare_target_nonoblivious_for_testing(&mut test_target_meta, &deepest_meta, &branch.meta);
        let target_meta = prepare_target::<Z>(&deepest_meta, &branch.meta);
        assert_eq!(target_meta, test_target_meta);
    })
}

#[test]
/// Compare prepare deepest and prepare_target with a fixed tree that was
/// manually constructed to compare with the Circuit ORAM paper.
/// In this tree the root, bucket 1, holds 24, 27, 31 and 30. Bucket 2 holds 18
/// and 20, bucket 4 holds 19 and bucket 5 holds 23. The buckets 8, 10, 16 and
/// 20 are empty.
/// The stash contents are: {26, 23, 21, 21}
/// We expect that the contents of prepare deepest for branch 16 to be: {⊥, ⊥, 3, 5, 5, ⊥}
/// Because the stash contains 21, which can go down to bucket index 2.
/// In bucket 2, we have 18, which can go in bucket 4.
/// We expect that the contents of prepare target for branch 16 to be: {⊥, ⊥, ⊥, 2, ⊥, 3}
/// This is because corresponding to deepest, we will want to take the block
/// from the stash and drop it off in bucket 2.
/// We will then take the block from bucket 2 and drop it in bucket 4.
fn test_prepare_deepest_and_target_with_fixed_tree() {
    run_with_several_seeds(|_rng| {
        let mut branch: BranchCheckout<W, Z> = Default::default();

        populate_branch_with_fixed_data(&mut branch);

        let intended_leaves_for_stash = vec![26, 23, 21, 21];
        let mut stash_meta = vec![BlockMeta::default(); intended_leaves_for_stash.len()];

        for (key_value, src_meta) in stash_meta.iter_mut().enumerate() {
            src_meta.block_num = key_value as u64;
            src_meta.leaf_num = intended_leaves_for_stash[key_value];
        }
        let deepest_meta = prepare_deepest::<Z>(&stash_meta, &branch.meta, branch.leaf);
        let deepest_meta_expected = vec![FLOOR_INDEX, FLOOR_INDEX, 3, 5, 5, FLOOR_INDEX];
        assert_eq!(deepest_meta, deepest_meta_expected);

        let target_meta_expected = vec![FLOOR_INDEX, FLOOR_INDEX, FLOOR_INDEX, 2, FLOOR_INDEX, 3];

        let target_meta = prepare_target::<Z>(&deepest_meta, &branch.meta);
        assert_eq!(target_meta, target_meta_expected);
    })
}

#[test]
fn test_bucket_has_vacancy() {
    //Test empty bucket returns true
    let mut bucket_meta = [BlockMeta::default(); Z];
    let bucket_has_vacancy: bool = bucket_has_empty_slot(&bucket_meta).into();
    assert!(bucket_has_vacancy);

    //Test partially full bucket returns true
    for i in 0..(bucket_meta.len() - 1) {
        bucket_meta[i].leaf_num = 3;
    }
    let bucket_has_vacancy: bool = bucket_has_empty_slot(&bucket_meta).into();
    assert!(bucket_has_vacancy);

    //Test full bucket returns false
    let mut bucket_meta = [BlockMeta::default(); Z];
    for meta in bucket_meta.iter_mut() {
        meta.leaf_num = 3;
    }
    let bucket_has_vacancy: bool = bucket_has_empty_slot(&bucket_meta).into();
    assert!(!bucket_has_vacancy);
}

#[test]
fn fixed_tree_has_the_expected_buckets() {
    let mut branch: BranchCheckout<W, Z> = Default::default();
    populate_branch_with_fixed_data(&mut branch);
    assert_eq!(branch.leaf, 16);
    assert_eq!(branch.meta.len(), 5);
    assert_eq!(leaves_of(&branch.meta[0]), vec![0, 0, 0, 0]);
    assert_eq!(leaves_of(&branch.meta[1]), vec![0, 0, 0, 0]);
    assert_eq!(leaves_of(&branch.meta[2]), vec![19, 0, 0, 0]);
    assert_eq!(leaves_of(&branch.meta[3]), vec![18, 20, 0, 0]);
    assert_eq!(leaves_of(&branch.meta[4]), vec![24, 27, 31, 30]);
}

#[test]
fn planned_moves_are_legal_on_random_branches() {
    let height = 4;
    let leaf = 1u64 << height;
    run_with_several_seeds(|mut rng| {
        for _ in 0..20 {
            let mut storage = create_storage(2u64 << height);
            let mut branch: BranchCheckout<W, Z> = Default::default();
            checkout(&mut branch, &storage, leaf + (rng.next_u64() % leaf));
            populate_branch_with_random_data(&mut branch, &mut rng, height, 12);
            checkin(&mut branch, &mut storage);
            checkout(&mut branch, &storage, leaf);
            let mut stash_meta = vec![BlockMeta::default(); 6];
            for (key, src_meta) in stash_meta.iter_mut().enumerate() {
                // every other slot of the stash stays vacant
                if key % 2 == 0 {
                    src_meta.block_num = 100 + key as u64;
                    src_meta.leaf_num = 1u64.random_child_at_height(height, &mut rng);
                }
            }
            let deepest = prepare_deepest::<Z>(&stash_meta, &branch.meta, branch.leaf);
            let target = prepare_target::<Z>(&deepest, &branch.meta);
            let len = branch.meta.len();
            assert_eq!(deepest.len(), len + 1);
            assert_eq!(target.len(), len + 1);
            for level in 0..=len {
                let dest = target[level];
                if dest == FLOOR_INDEX {
                    continue;
                }
                assert!(dest < level);
                assert_eq!(deepest[dest], level);
                let slots: &[BlockMeta] =
                    if level == len { &stash_meta } else { &branch.meta[level] };
                assert!(slots.iter().any(|meta| meta.leaf_num != 0
                    && lowest_height_legal_index(meta.leaf_num, leaf, len) <= dest));
                let has_room = bool::from(bucket_has_empty_slot(&branch.meta[dest]))
                    || target[dest] != FLOOR_INDEX;
                assert!(has_room);
                for other in 0..=len {
                    assert!(other == level || target[other] != dest);
                }
            }
        }
    })
}

#[test]
fn vacant_stash_slots_are_no_source() {
    // the only block of the stash could go to the leaf, but its slot is vacant
    let branch_meta = vec![[BlockMeta::default(); Z]; 3];
    let stash_meta = vec![BlockMeta { leaf_num: 0, block_num: 9 }];
    let deepest = prepare_deepest::<Z>(&stash_meta, &branch_meta, 4);
    assert_eq!(deepest, vec![FLOOR_INDEX; 4]);
    let target = prepare_target::<Z>(&deepest, &branch_meta);
    assert_eq!(target, vec![FLOOR_INDEX; 4]);
}

#[test]
fn stash_block_goes_to_the_leaf_of_an_empty_branch() {
    let branch_meta = vec![[BlockMeta::default(); Z]; 3];
    let stash_meta = vec![BlockMeta { leaf_num: 4, block_num: 9 }];
    let deepest = prepare_deepest::<Z>(&stash_meta, &branch_meta, 4);
    assert_eq!(deepest, vec![3, 3, 3, FLOOR_INDEX]);
    let target = prepare_target::<Z>(&deepest, &branch_meta);
    assert_eq!(target, vec![FLOOR_INDEX, FLOOR_INDEX, FLOOR_INDEX, 0]);
}

#[test]
fn full_buckets_are_no_target() {
    let full = [BlockMeta { leaf_num: 4, block_num: 1 }; Z];
    // the leaf is full, the bucket above it has room
    let branch_meta = vec![full, [BlockMeta::default(); Z], full];
    let stash_meta = vec![BlockMeta { leaf_num: 4, block_num: 9 }];
    let deepest = prepare_deepest::<Z>(&stash_meta, &branch_meta, 4);
    // the blocks of the root may sit in the leaf too, and were seen after the stash
    assert_eq!(deepest, vec![3, 3, 3, FLOOR_INDEX]);
    let target = prepare_target::<Z>(&deepest, &branch_meta);
    assert_eq!(target, vec![FLOOR_INDEX, FLOOR_INDEX, FLOOR_INDEX, 1]);
}

#[test]
fn deepest_prefers_the_block_seen_first_among_equals() {
    let mut root = [BlockMeta::default(); Z];
    root[2] = BlockMeta { leaf_num: 4, block_num: 1 };
    let branch_meta = vec![[BlockMeta::default(); Z], [BlockMeta::default(); Z], root];
    // a block of the stash and a block of the root both reach the leaf
    let stash_meta = vec![BlockMeta { leaf_num: 4, block_num: 9 }];
    let deepest = prepare_deepest::<Z>(&stash_meta, &branch_meta, 4);
    assert_eq!(deepest, vec![3, 3, 3, FLOOR_INDEX]);
    // without the block in the stash the root is the source
    let deepest = prepare_deepest::<Z>(&[], &branch_meta, 4);
    assert_eq!(deepest, vec![2, 2, FLOOR_INDEX, FLOOR_INDEX]);
    let target = prepare_target::<Z>(&deepest, &branch_meta);
    assert_eq!(target, vec![FLOOR_INDEX, FLOOR_INDEX, 0, FLOOR_INDEX]);
}

#[test]
fn target_chains_moves_through_a_full_bucket() {
    // leaf 4 of a tree of height 2; the bucket above the leaf is full of blocks
    // bound for leaf 4, the root holds a block bound for leaf 5
    let middle = [BlockMeta { leaf_num: 4, block_num: 1 }; Z];
    let mut root = [BlockMeta::default(); Z];
    root[0] = BlockMeta { leaf_num: 5, block_num: 2 };
    let branch_meta = vec![[BlockMeta::default(); Z], middle, root];
    let deepest = prepare_deepest::<Z>(&[], &branch_meta, 4);
    assert_eq!(deepest, vec![1, 2, FLOOR_INDEX, FLOOR_INDEX]);
    let target = prepare_target::<Z>(&deepest, &branch_meta);
    // a block leaves the full bucket for the leaf, and the block of the root takes its place
    assert_eq!(target, vec![FLOOR_INDEX, 0, 1, FLOOR_INDEX]);
}
