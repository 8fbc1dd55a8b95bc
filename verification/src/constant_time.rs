//! Constant-time building blocks.
//!
//! Every decision that depends on secret block placements is carried in a
//! [`Choice`] and acted on with a conditional move, so that neither control flow
//! nor the memory access pattern depends on it. `Choice` is opaque here: the
//! only way to learn what it holds is [`choice_bit`], which exists in
//! specifications alone.
//!
//! The functions of this module are the trusted boundary towards `subtle` and
//! `aligned_cmov`: each one makes a single call, and its contract is believed,
//! not proved.
use aligned_cmov::subtle::{Choice, ConstantTimeEq, ConstantTimeLess};
use aligned_cmov::CMov;
use vstd::prelude::*;

verus! {

#[verifier::external_type_specification]
#[verifier::external_body]
pub struct ExChoice(Choice);

/// The truth value held by a `Choice`: `true` for `Choice(1)`, `false` for
/// `Choice(0)`.
pub uninterp spec fn choice_bit(c: Choice) -> bool;

/// `Choice::from(u8)` of `subtle`: wraps the bit without changing it. The
/// outside function only accepts `0` and `1`.
#[verifier::external_body]
pub(crate) fn choice_from_u8(bit: u8) -> (c: Choice)
    requires
        bit == 0 || bit == 1,
    ensures
        choice_bit(c) == (bit == 1),
{
    Choice::from(bit)
}

/// `Choice & Choice` (`BitAnd::bitand`) of `subtle`: the conjunction of both
/// choices, computed without short-circuiting.
#[verifier::external_body]
pub(crate) fn choice_and(a: Choice, b: Choice) -> (c: Choice)
    ensures
        choice_bit(c) == (choice_bit(a) && choice_bit(b)),
{
    a & b
}

/// `Choice | Choice` (`BitOr::bitor`) of `subtle`: the disjunction of both
/// choices, computed without short-circuiting.
#[verifier::external_body]
pub(crate) fn choice_or(a: Choice, b: Choice) -> (c: Choice)
    ensures
        choice_bit(c) == (choice_bit(a) || choice_bit(b)),
{
    a | b
}

/// `!Choice` (`Not::not`) of `subtle`: the negated choice.
#[verifier::external_body]
pub(crate) fn choice_not(a: Choice) -> (c: Choice)
    ensures
        choice_bit(c) == !choice_bit(a),
{
    !a
}

/// `ConstantTimeLess::ct_lt` of `subtle` on `u64`: set exactly when `a < b`.
#[verifier::external_body]
pub(crate) fn ct_lt_u64(a: u64, b: u64) -> (c: Choice)
    ensures
        choice_bit(c) == (a < b),
{
    a.ct_lt(&b)
}

/// `ConstantTimeEq::ct_eq` of `subtle` on `u64`: set exactly when `a == b`.
#[verifier::external_body]
pub(crate) fn ct_eq_u64(a: u64, b: u64) -> (c: Choice)
    ensures
        choice_bit(c) == (a == b),
{
    a.ct_eq(&b)
}

/// `ConstantTimeEq::ct_eq` of `subtle` on `usize`: set exactly when `a == b`.
#[verifier::external_body]
pub(crate) fn ct_eq_usize(a: usize, b: usize) -> (c: Choice)
    ensures
        choice_bit(c) == (a == b),
{
    a.ct_eq(&b)
}

/// `CMov::cmov` of `aligned_cmov` on `u64`: `dest` takes the value of `src`
/// if the condition is set and keeps its own otherwise.
#[verifier::external_body]
pub(crate) fn cmov_u64(dest: &mut u64, condition: Choice, src: u64)
    ensures
        *final(dest) == if choice_bit(condition) { src } else { *old(dest) },
{
    dest.cmov(condition, &src)
}

/// `CMov::cmov` of `aligned_cmov` on `usize`: `dest` takes the value of `src`
/// if the condition is set and keeps its own otherwise.
#[verifier::external_body]
pub(crate) fn cmov_usize(dest: &mut usize, condition: Choice, src: usize)
    ensures
        *final(dest) == if choice_bit(condition) { src } else { *old(dest) },
{
    dest.cmov(condition, &src)
}

} // verus!
