//! The power schedule: how an entry's execution time and the rarity of its
//! coverage become its schedule score, and how a score becomes the number of
//! mutants tried when the entry is picked.
//!
//! The score is the product of a speed factor, which compares the entry's
//! time with the corpus average, and a rarity factor, which falls with the
//! number of entries that share the entry's rarest edge. Entries whose
//! coverage was seen to vary between runs are held back by a fixed divisor.

use vstd::prelude::*;

verus! {

/// The rarity factor of an entry that shares its rarest edge with nobody.
pub const RARITY_UNIT: u64 = 16;

/// What the score of a flaky entry is divided by.
pub const FLAKY_DIVISOR: u64 = 4;

/// The most mutants tried for one pick of an entry.
pub const MAX_ITERATIONS: u64 = 1024;

/// The speed factor, in percent: 100 for an entry about as fast as the
/// average, more for faster ones, less for slower ones.
pub open spec fn speed_factor(micros: nat, average: nat) -> nat {
    if micros > 10 * average {
        10
    } else if micros > 4 * average {
        25
    } else if micros > 2 * average {
        50
    } else if 3 * micros > 4 * average {
        75
    } else if 4 * micros < average {
        300
    } else if 3 * micros < average {
        200
    } else if 2 * micros < average {
        150
    } else {
        100
    }
}

/// The number of sharers used in the formula: at least one.
pub open spec fn at_least_one(sharers: nat) -> nat {
    if sharers == 0 {
        1
    } else {
        sharers
    }
}

/// The schedule score of an entry that ran for `micros` in a corpus whose
/// average is `average`, whose rarest edge is covered by `sharers` entries.
pub open spec fn power(micros: nat, average: nat, sharers: nat, flaky: bool) -> nat {
    let steady = speed_factor(micros, average) * (RARITY_UNIT as nat) / at_least_one(sharers);
    if flaky {
        steady / (FLAKY_DIVISOR as nat)
    } else {
        steady
    }
}

/// The number of mutants tried for one pick of an entry with this score: the
/// score itself, but at least one and at most `MAX_ITERATIONS`.
pub open spec fn rounds(score: u64) -> nat {
    if score == 0 {
        1
    } else if score > MAX_ITERATIONS {
        MAX_ITERATIONS as nat
    } else {
        score as nat
    }
}

/// No score exceeds 300 times the rarity unit.
pub proof fn lemma_power_bound(micros: nat, average: nat, sharers: nat, flaky: bool)
    ensures
        power(micros, average, sharers, flaky) <= 300 * RARITY_UNIT,
{
    let factor = speed_factor(micros, average);
    let by = at_least_one(sharers);
    let steady = factor * (RARITY_UNIT as nat) / by;
    assert(steady <= factor * (RARITY_UNIT as nat)) by (nonlinear_arith)
        requires
            steady == factor * (RARITY_UNIT as nat) / by,
            by >= 1,
    ;
    assert(steady / (FLAKY_DIVISOR as nat) <= steady) by (nonlinear_arith);
}

/// Of two entries that differ only in their time, the faster one scores at
/// least as high.
pub proof fn lemma_faster_scores_higher(
    quick: nat,
    slow: nat,
    average: nat,
    sharers: nat,
    flaky: bool,
)
    requires
        quick <= slow,
    ensures
        power(quick, average, sharers, flaky) >= power(slow, average, sharers, flaky),
{
    let by = at_least_one(sharers);
    let high = speed_factor(quick, average) * (RARITY_UNIT as nat);
    let low = speed_factor(slow, average) * (RARITY_UNIT as nat);
    assert(speed_factor(quick, average) >= speed_factor(slow, average));
    assert(high >= low);
    assert(high / by >= low / by) by (nonlinear_arith)
        requires
            high >= low,
            by >= 1,
    ;
    assert((high / by) / (FLAKY_DIVISOR as nat) >= (low / by) / (FLAKY_DIVISOR as nat))
        by (nonlinear_arith)
        requires
            high / by >= low / by,
    ;
}

/// Of two entries that differ only in how many entries share their rarest
/// edge, the one with fewer sharers scores at least as high.
pub proof fn lemma_rarer_scores_higher(
    micros: nat,
    average: nat,
    few: nat,
    many: nat,
    flaky: bool,
)
    requires
        few <= many,
    ensures
        power(micros, average, few, flaky) >= power(micros, average, many, flaky),
{
    let top = speed_factor(micros, average) * (RARITY_UNIT as nat);
    let small = at_least_one(few);
    let large = at_least_one(many);
    assert(top / small >= top / large) by (nonlinear_arith)
        requires
            1 <= small <= large,
    ;
    assert((top / small) / (FLAKY_DIVISOR as nat) >= (top / large) / (FLAKY_DIVISOR as nat))
        by (nonlinear_arith)
        requires
            top / small >= top / large,
    ;
}

/// A flaky entry never scores above the same entry without the flag.
pub proof fn lemma_flaky_scores_lower(micros: nat, average: nat, sharers: nat)
    ensures
        power(micros, average, sharers, true) <= power(micros, average, sharers, false),
{
    let steady = power(micros, average, sharers, false);
    assert(steady / (FLAKY_DIVISOR as nat) <= steady) by (nonlinear_arith);
}

/// A higher score never means fewer mutants.
pub proof fn lemma_rounds_monotone(low: u64, high: u64)
    requires
        low <= high,
    ensures
        rounds(low) <= rounds(high),
        1 <= rounds(low) <= MAX_ITERATIONS,
{
}

/// Computes the speed factor.
pub fn speed(micros: u64, average: u64) -> (factor: u64)
    ensures
        factor == speed_factor(micros as nat, average as nat),
{
    let m: u128 = micros as u128;
    let a: u128 = average as u128;
    if m > 10 * a {
        10
    } else if m > 4 * a {
        25
    } else if m > 2 * a {
        50
    } else if 3 * m > 4 * a {
        75
    } else if 4 * m < a {
        300
    } else if 3 * m < a {
        200
    } else if 2 * m < a {
        150
    } else {
        100
    }
}

/// Computes the schedule score.
pub fn power_score(micros: u64, average: u64, sharers: usize, flaky: bool) -> (score: u64)
    ensures
        score == power(micros as nat, average as nat, sharers as nat, flaky),
        score <= 300 * RARITY_UNIT,
{
    proof {
        lemma_power_bound(micros as nat, average as nat, sharers as nat, flaky);
    }
    let by: u64 = if sharers == 0 {
        1
    } else if sharers as u128 > u64::MAX as u128 {
        u64::MAX
    } else {
        sharers as u64
    };
    let top: u64 = speed(micros, average) * RARITY_UNIT;
    proof {
        if sharers as nat > u64::MAX as nat {
            assert(top as nat / (sharers as nat) == 0) by (nonlinear_arith)
                requires
                    top <= 4800,
                    sharers as nat > 4800,
            ;
            assert(top as nat / (by as nat) == 0) by (nonlinear_arith)
                requires
                    top <= 4800,
                    by as nat > 4800,
            ;
        }
    }
    let steady: u64 = top / by;
    if flaky {
        steady / FLAKY_DIVISOR
    } else {
        steady
    }
}

/// Computes the number of mutants to try for one pick.
pub fn iterations(score: u64) -> (n: u64)
    ensures
        n == rounds(score),
        1 <= n <= MAX_ITERATIONS,
{
    if score == 0 {
        1
    } else if score > MAX_ITERATIONS {
        MAX_ITERATIONS
    } else {
        score
    }
}

} // verus!
