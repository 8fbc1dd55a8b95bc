//! The order in which the deterministic selector visits the leaves.
//!
//! The leaves of a tree of height `h` are the nodes `2^h .. 2^(h+1)`. Call
//! `t` visits the leaf whose `h` path bits are the low `h` binary digits of
//! `t`, read backwards. Successive calls therefore alternate between the two
//! halves of the tree, then between the quarters of each half, and so on, and
//! `2^h` successive calls visit every leaf once.
use crate::tree_index::is_leaf_at_height;
use vstd::arithmetic::div_mod::lemma_fundamental_div_mod_converse;
use vstd::arithmetic::power2::{
    lemma2_to64, lemma_pow2_adds, lemma_pow2_pos, lemma_pow2_unfold, pow2,
};
use vstd::prelude::*;

verus! {

/// The low `bits` binary digits of `value` in reverse order: digit `i` of the
/// result is digit `bits - 1 - i` of `value`.
pub open spec fn reverse_low_bits(value: nat, bits: nat) -> nat
    decreases bits,
{
    if bits == 0 {
        0
    } else {
        (value % 2) * pow2((bits - 1) as nat) + reverse_low_bits(value / 2, (bits - 1) as nat)
    }
}

/// The leaf that call number `iteration` visits in a tree of height `height`.
pub open spec fn reverse_lexicographic_leaf(height: nat, iteration: nat) -> nat {
    pow2(height) + reverse_low_bits(iteration, height)
}

/// `u64::reverse_bits` of std: the least significant bit becomes the most
/// significant one, the second least significant the second most significant,
/// and so on through all 64 bits.
pub assume_specification[ u64::reverse_bits ](x: u64) -> (r: u64)
    ensures
        r == reverse_low_bits(x as nat, 64),
;

/// Reversed digits of `bits` places stay below `2^bits`.
pub proof fn lemma_reverse_low_bits_bound(value: nat, bits: nat)
    ensures
        reverse_low_bits(value, bits) < pow2(bits),
    decreases bits,
{
    if bits == 0 {
        lemma2_to64();
    } else {
        let rest = (bits - 1) as nat;
        lemma_reverse_low_bits_bound(value / 2, rest);
        lemma_pow2_unfold(bits);
        let digit = value % 2;
        assert(digit * pow2(rest) <= pow2(rest)) by (nonlinear_arith)
            requires
                digit <= 1,
        ;
    }
}

/// Reversing `keep + drop` digits and dropping the low `drop` digits of the
/// result leaves the reversal of the first `keep` digits.
proof fn lemma_reverse_low_bits_prefix(value: nat, keep: nat, drop: nat)
    ensures
        reverse_low_bits(value, keep) * pow2(drop) <= reverse_low_bits(value, keep + drop),
        reverse_low_bits(value, keep + drop) < reverse_low_bits(value, keep) * pow2(drop) + pow2(
            drop,
        ),
    decreases keep,
{
    if keep == 0 {
        lemma_reverse_low_bits_bound(value, drop);
        assert(0 * pow2(drop) == 0) by (nonlinear_arith);
    } else {
        let rest = (keep - 1) as nat;
        lemma_reverse_low_bits_prefix(value / 2, rest, drop);
        lemma_pow2_adds(rest, drop);
        let digit = value % 2;
        let high = pow2(rest);
        let low = pow2(drop);
        let kept = reverse_low_bits(value / 2, rest);
        assert(rest + drop == keep + drop - 1);
        assert(reverse_low_bits(value, keep + drop) == digit * pow2((rest + drop) as nat)
            + reverse_low_bits(value / 2, (rest + drop) as nat));
        assert((digit * high + kept) * low == digit * (high * low) + kept * low)
            by (nonlinear_arith);
    }
}

/// Shifting the reversal of all 64 digits right until `bits` digits are left
/// gives the reversal of the low `bits` digits.
pub proof fn lemma_reverse_low_bits_shifted(value: nat, bits: nat)
    requires
        bits <= 64,
    ensures
        reverse_low_bits(value, 64) / pow2((64 - bits) as nat) == reverse_low_bits(value, bits),
{
    let drop = (64 - bits) as nat;
    lemma_reverse_low_bits_prefix(value, bits, drop);
    lemma_pow2_pos(drop);
    let q = reverse_low_bits(value, bits) as int;
    let x = reverse_low_bits(value, 64) as int;
    let d = pow2(drop) as int;
    lemma_fundamental_div_mod_converse(x, d, q, x - q * d);
}

/// Every call visits a leaf of the tree.
pub proof fn lemma_reverse_lexicographic_leaf_is_leaf(height: nat, iteration: nat)
    ensures
        is_leaf_at_height(reverse_lexicographic_leaf(height, iteration), height),
{
    lemma_reverse_low_bits_bound(iteration, height);
}

/// The order repeats with the number of leaves as its period.
pub proof fn lemma_reverse_lexicographic_period(height: nat, iteration: nat)
    ensures
        reverse_lexicographic_leaf(height, iteration + pow2(height)) == reverse_lexicographic_leaf(
            height,
            iteration,
        ),
    decreases height,
{
    if height > 0 {
        let rest = (height - 1) as nat;
        lemma_pow2_unfold(height);
        lemma_reverse_lexicographic_period(rest, iteration / 2);
        assert((iteration + 2 * pow2(rest)) % 2 == iteration % 2);
        assert((iteration + 2 * pow2(rest)) / 2 == iteration / 2 + pow2(rest));
    }
}

/// Reversing a number whose top digit is `high` and whose other digits form
/// `low` puts `high` last, behind the reversal of `low`.
proof fn lemma_reverse_low_bits_top_digit(high: nat, low: nat, bits: nat)
    requires
        bits > 0,
        high <= 1,
        low < pow2((bits - 1) as nat),
    ensures
        reverse_low_bits(high * pow2((bits - 1) as nat) + low, bits) == 2 * reverse_low_bits(
            low,
            (bits - 1) as nat,
        ) + high,
    decreases bits,
{
    let rest = (bits - 1) as nat;
    let value = high * pow2(rest) + low;
    if bits == 1 {
        lemma2_to64();
        assert(high * 1 == high) by (nonlinear_arith);
        assert(reverse_low_bits(value / 2, 0) == 0);
        assert(reverse_low_bits(low, 0) == 0);
    } else {
        let rest2 = (rest - 1) as nat;
        lemma_pow2_unfold(rest);
        assert(high * pow2(rest) == 2 * (high * pow2(rest2))) by (nonlinear_arith)
            requires
                pow2(rest) == 2 * pow2(rest2),
        ;
        assert(value % 2 == low % 2);
        assert(value / 2 == high * pow2(rest2) + low / 2);
        lemma_reverse_low_bits_top_digit(high, low / 2, rest);
        lemma_pow2_unfold(bits);
        let digit = low % 2;
        assert(reverse_low_bits(low, rest) == digit * pow2(rest2) + reverse_low_bits(
            low / 2,
            rest2,
        ));
        assert(digit * pow2(rest) == 2 * (digit * pow2(rest2))) by (nonlinear_arith)
            requires
                pow2(rest) == 2 * pow2(rest2),
        ;
    }
}

/// Reversing twice gives the number back.
pub proof fn lemma_reverse_low_bits_involution(value: nat, bits: nat)
    requires
        value < pow2(bits),
    ensures
        reverse_low_bits(reverse_low_bits(value, bits), bits) == value,
    decreases bits,
{
    if bits == 0 {
        lemma2_to64();
    } else {
        let rest = (bits - 1) as nat;
        lemma_pow2_unfold(bits);
        lemma_reverse_low_bits_involution(value / 2, rest);
        lemma_reverse_low_bits_bound(value / 2, rest);
        lemma_reverse_low_bits_top_digit(value % 2, reverse_low_bits(value / 2, rest), bits);
    }
}

/// Within one period no leaf is visited twice.
pub proof fn lemma_reverse_lexicographic_leaf_is_injective(height: nat, first: nat, second: nat)
    requires
        first < pow2(height),
        second < pow2(height),
        reverse_lexicographic_leaf(height, first) == reverse_lexicographic_leaf(height, second),
    ensures
        first == second,
{
    lemma_reverse_low_bits_involution(first, height);
    lemma_reverse_low_bits_involution(second, height);
}

/// Within one period every leaf is visited: leaf `leaf` is the one that call
/// number `reverse_low_bits(leaf - 2^height, height)` visits.
pub proof fn lemma_reverse_lexicographic_leaf_is_surjective(height: nat, leaf: nat)
    requires
        is_leaf_at_height(leaf, height),
    ensures
        reverse_low_bits((leaf - pow2(height)) as nat, height) < pow2(height),
        reverse_lexicographic_leaf(
            height,
            reverse_low_bits((leaf - pow2(height)) as nat, height),
        ) == leaf,
{
    let path = (leaf - pow2(height)) as nat;
    lemma_reverse_low_bits_bound(path, height);
    lemma_reverse_low_bits_involution(path, height);
}

} // verus!
