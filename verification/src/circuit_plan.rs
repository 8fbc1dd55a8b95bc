//! What the two metadata scans of Circuit ORAM compute for one branch.
//!
//! A branch of `n` buckets and the stash form `n + 1` levels: level `i < n` is
//! bucket `i` (level 0 the leaf, level `n - 1` the root) and level `n` is the
//! stash. The first scan fills `deepest`, which names for every level the
//! source of the block that can travel furthest towards the leaf from above
//! it. The second scan turns `deepest` and the vacancies of the buckets into
//! `target`, the plan of moves: a block leaves level `i` for level `target[i]`.
//! An entry equal to [`FLOOR_INDEX`] means "none".
use crate::branch_model::has_vacant_slot;
use crate::path_oram::{lowest_legal_index, BlockMeta};
use vstd::prelude::*;

verus! {

/// Stands for "no level" wherever a level is expected.
pub const FLOOR_INDEX: usize = usize::MAX;

/// The levels of a branch and its stash: the buckets from the leaf to the
/// root, then the stash.
pub open spec fn branch_levels<const Z: usize>(
    stash_meta: Seq<BlockMeta>,
    branch_meta: Seq<[BlockMeta; Z]>,
) -> Seq<Seq<BlockMeta>> {
    Seq::new(
        branch_meta.len() + 1,
        |level: int|
            if level < branch_meta.len() {
                branch_meta[level]@
            } else {
                stash_meta
            },
    )
}

/// Slot `slot` of level `level` holds a block.
pub open spec fn holds_block(levels: Seq<Seq<BlockMeta>>, level: int, slot: int) -> bool {
    &&& 0 <= level < levels.len()
    &&& 0 <= slot < levels[level].len()
    &&& !levels[level][slot].is_vacant()
}

/// The lowest bucket of the branch in which the block in slot `slot` of level
/// `level` may sit.
pub open spec fn reach(levels: Seq<Seq<BlockMeta>>, leaf: u64, level: int, slot: int) -> int {
    lowest_legal_index(levels[level][slot].leaf_num, leaf, (levels.len() - 1) as nat)
}

/// Slot `slot` of level `level` holds a block that lies above `floor` and may
/// sit in bucket `floor`.
pub open spec fn may_descend(
    levels: Seq<Seq<BlockMeta>>,
    leaf: u64,
    level: int,
    slot: int,
    floor: int,
) -> bool {
    &&& holds_block(levels, level, slot)
    &&& floor < level
    &&& reach(levels, leaf, level, slot) <= floor
}

/// The block in slot `slot` of level `source` is the one to bring down to
/// `floor`: of all blocks above `floor` that may sit there, none reaches
/// deeper, and none that reaches as deep lies at a higher level.
pub open spec fn is_deepest_source(
    levels: Seq<Seq<BlockMeta>>,
    leaf: u64,
    floor: int,
    source: int,
    slot: int,
) -> bool {
    &&& may_descend(levels, leaf, source, slot, floor)
    &&& forall|l: int, s: int| #[trigger]
        may_descend(levels, leaf, l, s, floor) ==> {
            ||| reach(levels, leaf, source, slot) < reach(levels, leaf, l, s)
            ||| (reach(levels, leaf, source, slot) == reach(levels, leaf, l, s) && l <= source)
        }
}

/// `entry` is what `deepest` holds for `floor`: the level of the block to
/// bring down to `floor`, or [`FLOOR_INDEX`] where no block above `floor` may
/// sit there.
pub open spec fn is_deepest_entry(
    levels: Seq<Seq<BlockMeta>>,
    leaf: u64,
    floor: int,
    entry: usize,
) -> bool {
    if entry == FLOOR_INDEX {
        forall|l: int, s: int| !may_descend(levels, leaf, l, s, floor)
    } else {
        exists|slot: int| is_deepest_source(levels, leaf, floor, entry as int, slot)
    }
}

/// `deepest` is the result of the first scan over `levels`.
pub open spec fn is_deepest(levels: Seq<Seq<BlockMeta>>, leaf: u64, deepest: Seq<usize>) -> bool {
    &&& deepest.len() == levels.len()
    &&& forall|floor: int|
        0 <= floor < levels.len() ==> is_deepest_entry(
            levels,
            leaf,
            floor,
            #[trigger] deepest[floor],
        )
}

/// For every level there is exactly one value that `deepest` can hold: two
/// entries that both meet [`is_deepest_entry`] are equal.
pub proof fn lemma_deepest_entry_is_unique(
    levels: Seq<Seq<BlockMeta>>,
    leaf: u64,
    floor: int,
    a: usize,
    b: usize,
)
    requires
        levels.len() <= usize::MAX,
        is_deepest_entry(levels, leaf, floor, a),
        is_deepest_entry(levels, leaf, floor, b),
    ensures
        a == b,
{
    if a != FLOOR_INDEX && b != FLOOR_INDEX {
        let sa = choose|slot: int| is_deepest_source(levels, leaf, floor, a as int, slot);
        let sb = choose|slot: int| is_deepest_source(levels, leaf, floor, b as int, slot);
        assert(may_descend(levels, leaf, a as int, sa, floor));
        assert(may_descend(levels, leaf, b as int, sb, floor));
    } else if a != FLOOR_INDEX {
        let sa = choose|slot: int| is_deepest_source(levels, leaf, floor, a as int, slot);
        assert(may_descend(levels, leaf, a as int, sa, floor));
    } else if b != FLOOR_INDEX {
        let sb = choose|slot: int| is_deepest_source(levels, leaf, floor, b as int, slot);
        assert(may_descend(levels, leaf, b as int, sb, floor));
    }
}

/// The first scan has one result: two sequences that both meet [`is_deepest`]
/// are equal.
pub proof fn lemma_deepest_is_unique(
    levels: Seq<Seq<BlockMeta>>,
    leaf: u64,
    a: Seq<usize>,
    b: Seq<usize>,
)
    requires
        levels.len() <= usize::MAX,
        is_deepest(levels, leaf, a),
        is_deepest(levels, leaf, b),
    ensures
        a == b,
{
    assert forall|floor: int| 0 <= floor < a.len() implies a[floor] == b[floor] by {
        lemma_deepest_entry_is_unique(levels, leaf, floor, a[floor], b[floor]);
    }
    assert(a =~= b);
}

/// For every bucket of the branch, whether it has a vacant slot.
pub open spec fn bucket_vacancies<const Z: usize>(branch_meta: Seq<[BlockMeta; Z]>) -> Seq<bool> {
    Seq::new(branch_meta.len(), |level: int| has_vacant_slot(branch_meta[level]@))
}

/// The move that is pending when the second scan arrives at `level`, as the
/// pair of its destination and its source: a vacancy found at the destination,
/// waiting for the block that `deepest` names for it. Both are
/// [`FLOOR_INDEX`] while no move is pending.
///
/// The scan climbs from the leaf. At each bucket it first lets the pending
/// move go if the bucket is its source. The bucket then offers a vacancy if a
/// block has just left it, or if it has a vacant slot and no move is pending.
/// A vacancy for which `deepest` names a source becomes the pending move.
pub open spec fn pending_move(
    deepest: Seq<usize>,
    vacancies: Seq<bool>,
    level: nat,
) -> (usize, usize)
    decreases level,
{
    if level == 0 {
        (FLOOR_INDEX, FLOOR_INDEX)
    } else {
        let below = (level - 1) as nat;
        let (dest, src) = pending_move(deepest, vacancies, below);
        let leaves = src == below;
        let (dest, src) = if leaves {
            (FLOOR_INDEX, FLOOR_INDEX)
        } else {
            (dest, src)
        };
        let vacancy = (dest == FLOOR_INDEX && vacancies[below as int]) || leaves;
        if vacancy && deepest[below as int] != FLOOR_INDEX {
            (below as usize, deepest[below as int])
        } else {
            (dest, src)
        }
    }
}

/// What `target` holds for `level`: the destination of the block that leaves
/// this level, or [`FLOOR_INDEX`] where none leaves. A block leaves the level
/// that is the source of the move pending on arrival.
pub open spec fn target_entry(deepest: Seq<usize>, vacancies: Seq<bool>, level: nat) -> usize {
    let (dest, src) = pending_move(deepest, vacancies, level);
    if src == level {
        dest
    } else {
        FLOOR_INDEX
    }
}

/// `target` is the result of the second scan, over `deepest` and the
/// vacancies of the buckets.
pub open spec fn is_target(deepest: Seq<usize>, vacancies: Seq<bool>, target: Seq<usize>) -> bool {
    &&& target.len() == deepest.len()
    &&& forall|level: int|
        0 <= level < target.len() ==> #[trigger] target[level] == target_entry(
            deepest,
            vacancies,
            level as nat,
        )
}

/// The second scan has one result: two sequences that both meet
/// [`is_target`] are equal.
pub proof fn lemma_target_is_unique(
    deepest: Seq<usize>,
    vacancies: Seq<bool>,
    a: Seq<usize>,
    b: Seq<usize>,
)
    requires
        is_target(deepest, vacancies, a),
        is_target(deepest, vacancies, b),
    ensures
        a == b,
{
    assert forall|level: int| 0 <= level < a.len() implies a[level] == b[level] by {
        assert(a[level] == target_entry(deepest, vacancies, level as nat));
        assert(b[level] == target_entry(deepest, vacancies, level as nat));
    }
    assert(a =~= b);
}

/// While the second scan runs, either no move is pending, or the pending
/// move leads to a level that the scan has passed, from the level that
/// `deepest` names for it.
pub proof fn lemma_pending_move(deepest: Seq<usize>, vacancies: Seq<bool>, level: nat)
    requires
        level <= usize::MAX,
    ensures
        ({
            let (dest, src) = pending_move(deepest, vacancies, level);
            ||| (dest == FLOOR_INDEX && src == FLOOR_INDEX)
            ||| (dest < level && src != FLOOR_INDEX && src == deepest[dest as int])
        }),
    decreases level,
{
    if level > 0 {
        lemma_pending_move(deepest, vacancies, (level - 1) as nat);
    }
}

/// Every planned move leads towards the leaf, and `deepest` at its
/// destination names the level it starts from: following `target` from a
/// level and then `deepest` from where it lands leads back to that level.
pub proof fn lemma_target_leads_back(deepest: Seq<usize>, vacancies: Seq<bool>, level: nat)
    requires
        level < usize::MAX,
        target_entry(deepest, vacancies, level) != FLOOR_INDEX,
    ensures
        target_entry(deepest, vacancies, level) < level,
        deepest[target_entry(deepest, vacancies, level) as int] == level,
{
    lemma_pending_move(deepest, vacancies, level);
}

/// No two planned moves lead to the same level.
pub proof fn lemma_targets_are_distinct(
    deepest: Seq<usize>,
    vacancies: Seq<bool>,
    first: nat,
    second: nat,
)
    requires
        first < usize::MAX,
        second < usize::MAX,
        target_entry(deepest, vacancies, first) != FLOOR_INDEX,
        target_entry(deepest, vacancies, first) == target_entry(deepest, vacancies, second),
    ensures
        first == second,
{
    lemma_target_leads_back(deepest, vacancies, first);
    lemma_target_leads_back(deepest, vacancies, second);
}

/// A move is pending only for a level that can take a block: one that has a
/// vacant slot, or one that a block leaves.
proof fn lemma_pending_move_has_room(deepest: Seq<usize>, vacancies: Seq<bool>, level: nat)
    requires
        level <= usize::MAX,
    ensures
        ({
            let (dest, src) = pending_move(deepest, vacancies, level);
            dest != FLOOR_INDEX ==> vacancies[dest as int] || target_entry(
                deepest,
                vacancies,
                dest as nat,
            ) != FLOOR_INDEX
        }),
    decreases level,
{
    if level > 0 {
        let below = (level - 1) as nat;
        lemma_pending_move_has_room(deepest, vacancies, below);
        lemma_pending_move(deepest, vacancies, below);
    }
}

/// The destination of every planned move can take the block: it has a vacant
/// slot, or a block leaves it in the same plan.
pub proof fn lemma_target_has_room(deepest: Seq<usize>, vacancies: Seq<bool>, level: nat)
    requires
        level < usize::MAX,
        target_entry(deepest, vacancies, level) != FLOOR_INDEX,
    ensures
        ({
            let dest = target_entry(deepest, vacancies, level);
            vacancies[dest as int] || target_entry(deepest, vacancies, dest as nat) != FLOOR_INDEX
        }),
{
    lemma_pending_move_has_room(deepest, vacancies, level);
}

/// Every move that the two scans plan is legal. Where `target` sends a block
/// from `level` to a destination, the destination is a bucket below `level`,
/// and `level` holds a block that may sit in that bucket: the one that
/// `deepest` chose for it.
pub proof fn lemma_planned_moves_are_legal(
    levels: Seq<Seq<BlockMeta>>,
    leaf: u64,
    deepest: Seq<usize>,
    vacancies: Seq<bool>,
    target: Seq<usize>,
    level: int,
)
    requires
        levels.len() <= usize::MAX,
        is_deepest(levels, leaf, deepest),
        is_target(deepest, vacancies, target),
        0 <= level < target.len(),
        target[level] != FLOOR_INDEX,
    ensures
        0 <= target[level] < level,
        deepest[target[level] as int] == level,
        exists|slot: int|
            {
                &&& #[trigger] is_deepest_source(levels, leaf, target[level] as int, level, slot)
                &&& holds_block(levels, level, slot)
                &&& reach(levels, leaf, level, slot) <= target[level]
            },
{
    lemma_target_leads_back(deepest, vacancies, level as nat);
    let dest = target[level];
    assert(is_deepest_entry(levels, leaf, dest as int, deepest[dest as int]));
    let slot = choose|slot: int| is_deepest_source(levels, leaf, dest as int, level, slot);
    assert(is_deepest_source(levels, leaf, target[level] as int, level, slot));
}

} // verus!
