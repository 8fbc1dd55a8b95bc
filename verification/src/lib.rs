//! Eviction for tree-structured oblivious RAM.
//!
//! The crate holds the branch selection policies, the greedy Path ORAM
//! eviction of a stash into a checked-out branch, and the two metadata scans
//! of Circuit ORAM that plan, for one branch, which block leaves which level
//! and where it goes.
//!
//! Secret values are compared and moved in constant time, with the operations
//! of `subtle` and `aligned_cmov`. What every function computes is stated in
//! its contract and proved; that it runs in constant time is not.
pub mod block_count;
pub mod branch_model;
pub mod branch_order;
pub mod circuit_plan;
pub mod constant_time;
pub mod evictor;
pub mod greedy_packing;
pub mod legal_placement;
pub mod path_oram;
pub mod stash_drain;
pub mod tree_index;
