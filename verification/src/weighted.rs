//! Weighted choice over a sequence of integer weights.
//!
//! The weights are laid end to end on the number line; a target below their
//! total falls into exactly one item's stretch, and that stretch is as long as
//! the item's weight. An item of weight zero has an empty stretch.

use crate::random::below;
use crate::random::lemma_scaled_in_range;
use crate::random::scaled;
use vstd::prelude::*;

verus! {

/// The sum of all weights.
pub open spec fn total(w: Seq<u64>) -> nat
    decreases w.len(),
{
    if w.len() == 0 {
        0
    } else {
        total(w.drop_last()) + w.last() as nat
    }
}

/// The sum of the weights in front of index `i`.
pub open spec fn before(w: Seq<u64>, i: int) -> nat {
    total(w.take(i))
}

/// Whether `target` falls into the stretch of item `i`.
pub open spec fn holds(w: Seq<u64>, i: int, target: nat) -> bool {
    &&& 0 <= i < w.len()
    &&& before(w, i) <= target
    &&& target < before(w, i) + w[i] as nat
}

/// The target that a raw draw stands for among `sum` units of weight.
pub open spec fn target_for(sum: nat, draw: u64) -> nat {
    if sum == 0 {
        0
    } else if sum <= usize::MAX as nat {
        scaled(draw, sum as int) as nat
    } else {
        (draw as nat) % sum
    }
}

/// The stretch of item `i` ends where that of item `i + 1` begins.
pub proof fn lemma_before_step(w: Seq<u64>, i: int)
    requires
        0 <= i < w.len(),
    ensures
        before(w, i + 1) == before(w, i) + w[i] as nat,
{
    assert(w.take(i + 1).drop_last() =~= w.take(i));
    assert(w.take(i + 1).last() == w[i]);
}

/// The stretches together cover exactly the total.
pub proof fn lemma_before_all(w: Seq<u64>)
    ensures
        before(w, w.len() as int) == total(w),
        before(w, 0) == 0,
{
    assert(w.take(w.len() as int) =~= w);
    assert(w.take(0).len() == 0);
}

/// Stretches are laid out in index order.
pub proof fn lemma_before_monotone(w: Seq<u64>, i: int, j: int)
    requires
        0 <= i <= j <= w.len(),
    ensures
        before(w, i) <= before(w, j),
    decreases j - i,
{
    if i < j {
        lemma_before_monotone(w, i, j - 1);
        lemma_before_step(w, j - 1);
    }
}

/// No total exceeds what as many maximal weights would give.
pub proof fn lemma_total_bound(w: Seq<u64>)
    ensures
        total(w) <= w.len() * (u64::MAX as nat),
    decreases w.len(),
{
    if w.len() > 0 {
        lemma_total_bound(w.drop_last());
        assert((w.len() - 1) * (u64::MAX as nat) + (u64::MAX as nat) == w.len() * (u64::MAX as nat))
            by (nonlinear_arith);
    }
}

/// A target falls into at most one stretch.
pub proof fn lemma_holds_unique(w: Seq<u64>, i: int, j: int, target: nat)
    requires
        holds(w, i, target),
        holds(w, j, target),
    ensures
        i == j,
{
    if i < j {
        lemma_before_step(w, i);
        lemma_before_monotone(w, i + 1, j);
    } else if j < i {
        lemma_before_step(w, j);
        lemma_before_monotone(w, j + 1, i);
    }
}

/// Every target below the total falls into some stretch.
pub proof fn lemma_holds_exists(w: Seq<u64>, target: nat) -> (i: int)
    requires
        target < total(w),
    ensures
        holds(w, i, target),
    decreases w.len(),
{
    let last = w.len() - 1;
    lemma_before_all(w);
    lemma_before_step(w, last);
    if target >= before(w, last) {
        last
    } else {
        let front = w.drop_last();
        assert(front =~= w.take(last));
        let i = lemma_holds_exists(front, target);
        assert(front.take(i) =~= w.take(i));
        i
    }
}

/// The targets of item `i` are the `w[i]` values from `before(w, i)` on, and
/// all of them lie below the total.
pub proof fn lemma_stretch(w: Seq<u64>, i: int, offset: nat)
    requires
        0 <= i < w.len(),
        offset < w[i],
    ensures
        holds(w, i, before(w, i) + offset),
        before(w, i) + offset < total(w),
{
    lemma_before_step(w, i);
    lemma_before_monotone(w, i + 1, w.len() as int);
    lemma_before_all(w);
}

/// The target of a draw lies below the sum.
pub proof fn lemma_target_in_range(sum: nat, draw: u64)
    requires
        sum > 0,
    ensures
        target_for(sum, draw) < sum,
{
    if sum <= usize::MAX as nat {
        lemma_scaled_in_range(draw, sum as int);
    } else {
        assert((draw as nat) % sum < sum) by (nonlinear_arith)
            requires
                sum > 0,
        ;
    }
}

/// Adds up the weights.
pub fn sum_of(weights: &Vec<u64>) -> (sum: u128)
    ensures
        sum as nat == total(weights@),
{
    let mut sum: u128 = 0;
    let mut i: usize = 0;
    proof {
        lemma_before_all(weights@);
    }
    while i < weights.len()
        invariant
            i <= weights.len(),
            sum as nat == before(weights@, i as int),
        decreases weights.len() - i,
    {
        proof {
            lemma_before_step(weights@, i as int);
            lemma_total_bound(weights@.take(i as int + 1));
            assert((i + 1) * (u64::MAX as nat) <= (usize::MAX as nat) * (u64::MAX as nat))
                by (nonlinear_arith)
                requires
                    i + 1 <= usize::MAX as nat,
            ;
            assert((usize::MAX as nat) * (u64::MAX as nat) <= u128::MAX as nat) by (nonlinear_arith)
                requires
                    usize::MAX as nat <= u64::MAX as nat,
                    u64::MAX as nat * u64::MAX as nat <= u128::MAX as nat,
            ;
        }
        sum = sum + weights[i] as u128;
        i = i + 1;
    }
    sum
}

/// Turns a raw draw into a target below `sum`.
pub fn target_of(sum: u128, draw: u64) -> (target: u128)
    requires
        sum > 0,
    ensures
        target as nat == target_for(sum as nat, draw),
        target < sum,
{
    proof {
        lemma_target_in_range(sum as nat, draw);
    }
    if sum <= usize::MAX as u128 {
        below(draw, sum as usize) as u128
    } else {
        (draw as u128) % sum
    }
}

/// Finds the item whose stretch holds `target`.
pub fn pick(weights: &Vec<u64>, target: u128) -> (i: usize)
    requires
        target < total(weights@),
    ensures
        holds(weights@, i as int, target as nat),
        weights@[i as int] > 0,
{
    let mut i: usize = 0;
    let mut passed: u128 = 0;
    proof {
        lemma_before_all(weights@);
    }
    while i < weights.len()
        invariant
            i <= weights.len(),
            passed as nat == before(weights@, i as int),
            passed <= target,
            target < total(weights@),
        decreases weights.len() - i,
    {
        proof {
            lemma_before_step(weights@, i as int);
            lemma_before_monotone(weights@, i as int + 1, weights.len() as int);
            lemma_before_all(weights@);
        }
        let weight = weights[i] as u128;
        if target - passed < weight {
            return i;
        }
        passed = passed + weight;
        i = i + 1;
    }
    proof {
        lemma_before_all(weights@);
    }
    0
}

} // verus!
