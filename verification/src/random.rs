//! The random source of the engine, and how a raw draw is scaled to a range.
//!
//! Everything that is decided by chance in this crate is written as a function
//! of raw 64-bit draws, so that each decision has an exact contract; the draws
//! themselves come from the generator of `libafl_bolts`. A generator is a
//! state machine: what it will give is fixed by its state, and a source made
//! from a seed gives the same draws in every run.

use libafl_bolts::rands::fast_bound;
use libafl_bolts::rands::Rand;
use libafl_bolts::rands::RomuDuoJrRand;
use std::num::NonZeroUsize;
use vstd::prelude::*;

verus! {

/// The generator of `libafl_bolts` (its `StdRand`), carried as an opaque value.
#[verifier::external_type_specification]
#[verifier::external_body]
pub struct ExRomuDuoJrRand(RomuDuoJrRand);

/// Two to the power 64: the number of values a raw draw can take.
pub open spec fn draw_span() -> int {
    0x1_0000_0000_0000_0000
}

/// The value in `0..bound` that a raw draw is scaled to: the draw's share of
/// the whole 64-bit range, applied to `bound`.
pub open spec fn scaled(draw: u64, bound: int) -> int {
    (draw as int * bound) / draw_span()
}

/// A scaled draw lies in `0..bound`.
pub proof fn lemma_scaled_in_range(draw: u64, bound: int)
    requires
        bound > 0,
    ensures
        0 <= scaled(draw, bound) < bound,
{
    let span = draw_span();
    assert(0 <= draw as int * bound) by (nonlinear_arith)
        requires
            0 <= draw as int,
            0 < bound,
    ;
    assert(draw as int * bound < span * bound) by (nonlinear_arith)
        requires
            0 <= draw as int,
            (draw as int) < span,
            0 < bound,
    ;
    assert((draw as int * bound) / span < bound) by (nonlinear_arith)
        requires
            draw as int * bound < span * bound,
            span > 0,
    ;
    assert(0 <= (draw as int * bound) / span) by (nonlinear_arith)
        requires
            0 <= draw as int * bound,
            span > 0,
    ;
}

/// `libafl_bolts::rands::fast_bound`: the 128-bit product of the draw and the
/// bound, shifted right by 64 bits. The contract states that quotient.
#[verifier::external_body]
fn fast_bound_of(draw: u64, bound: usize) -> (r: usize)
    requires
        bound > 0,
    ensures
        r as int == scaled(draw, bound as int),
{
    fast_bound(draw, NonZeroUsize::new(bound).unwrap())
}

/// The draws that a generator has yet to give: number 0 is the next one,
/// number `k` the one after `k` others.
pub uninterp spec fn upcoming(generator: RomuDuoJrRand) -> Map<nat, u64>;

/// The draws of a generator that `RomuDuoJrRand::with_seed` made from `seed`.
pub uninterp spec fn seeded_draws(seed: u64) -> Map<nat, u64>;

/// What is left of a sequence of draws once the first `n` are taken.
pub open spec fn after(draws: Map<nat, u64>, n: nat) -> Map<nat, u64> {
    Map::new(|k: nat| true, |k: nat| draws[k + n])
}

/// What is left of a sequence of draws once the first is taken.
pub open spec fn after_one(draws: Map<nat, u64>) -> Map<nat, u64> {
    after(draws, 1)
}

/// Taking `m` draws and then `n` more leaves what taking `m + n` leaves, and
/// the first of what is left after `n` draws is draw number `n`.
pub proof fn lemma_after_adds_up(draws: Map<nat, u64>, m: nat, n: nat)
    ensures
        after(after(draws, m), n) == after(draws, m + n),
        after(draws, n)[0] == draws[n],
{
    assert(after(after(draws, m), n) =~= after(draws, m + n));
}

/// `RomuDuoJrRand::with_seed`: a generator whose state, and with it every
/// draw it will give, is computed from `seed` alone.
#[verifier::external_body]
fn generator_with_seed(seed: u64) -> (generator: RomuDuoJrRand)
    ensures
        upcoming(generator) == seeded_draws(seed),
{
    RomuDuoJrRand::with_seed(seed)
}

/// `RomuDuoJrRand::new`: a generator seeded by the process's own entropy.
/// Nothing is claimed of it.
#[verifier::external_body]
fn generator_from_entropy() -> RomuDuoJrRand {
    RomuDuoJrRand::new()
}

/// `Rand::next` on the generator: hands out the next draw and moves the
/// state on by one step. The draw and the new state are computed from the old
/// state alone, so what was second in line is now first.
#[verifier::external_body]
fn generator_next(generator: &mut RomuDuoJrRand) -> (draw: u64)
    ensures
        draw == upcoming(*old(generator))[0],
        upcoming(*final(generator)) == after_one(upcoming(*old(generator))),
{
    generator.next()
}

/// Scales a raw draw to `0..bound`.
pub fn below(draw: u64, bound: usize) -> (r: usize)
    requires
        bound > 0,
    ensures
        r as int == scaled(draw, bound as int),
        r < bound,
{
    proof {
        lemma_scaled_in_range(draw, bound as int);
    }
    fast_bound_of(draw, bound)
}

/// The source of the raw draws that every probabilistic decision consumes.
pub struct RandomSource {
    generator: RomuDuoJrRand,
}

impl RandomSource {
    /// The draws that the source has yet to give: number 0 is the next one.
    pub closed spec fn ahead(&self) -> Map<nat, u64> {
        upcoming(self.generator)
    }

    /// A source whose sequence of draws is fixed by `seed`: two sources made
    /// from the same seed give the same draws, in every run.
    pub fn seeded(seed: u64) -> (source: RandomSource)
        ensures
            source.ahead() == seeded_draws(seed),
    {
        RandomSource { generator: generator_with_seed(seed) }
    }

    /// A source seeded from the process's entropy: two runs differ.
    pub fn from_entropy() -> RandomSource {
        RandomSource { generator: generator_from_entropy() }
    }

    /// The next raw draw. It is the first of the draws that were ahead; the
    /// others move up by one.
    pub fn draw(&mut self) -> (raw: u64)
        ensures
            raw == old(self).ahead()[0],
            final(self).ahead() == after_one(old(self).ahead()),
    {
        generator_next(&mut self.generator)
    }

    /// The next draw, scaled to `0..bound`.
    pub fn draw_below(&mut self, bound: usize) -> (r: usize)
        requires
            bound > 0,
        ensures
            r as int == scaled(old(self).ahead()[0], bound as int),
            r < bound,
            final(self).ahead() == after_one(old(self).ahead()),
    {
        let raw = self.draw();
        below(raw, bound)
    }
}

/// Seeding is deterministic: the `k`-th draw of a source depends on nothing
/// but the seed it was made from and on `k`.
pub proof fn lemma_same_seed_same_draws(first: RandomSource, second: RandomSource, seed: u64, k: nat)
    requires
        first.ahead() == seeded_draws(seed),
        second.ahead() == seeded_draws(seed),
    ensures
        first.ahead()[k] == second.ahead()[k],
        after_one(first.ahead()) == after_one(second.ahead()),
{
}

} // verus!
