//! The adaptive stacked mutator: applies a random number of primitive
//! operators to an input, and learns which operators pay off.
//!
//! Work proceeds in cycles, one per mutant. Phases of a fixed number of
//! cycles alternate. In a pilot phase every operator is drawn with the same
//! odds while it is counted how often each was used and how often a mutant it
//! took part in turned out interesting. In the core phase that follows, the
//! operators are drawn with weights computed from those counts. No weight is
//! ever below one, so no operator is starved.

use crate::operators::applied;
use crate::operators::apply;
use crate::operators::number;
use crate::operators::number_of;
use crate::operators::operator;
use crate::operators::step;
use crate::operators::Operator;
use crate::operators::OPERATOR_COUNT;
use crate::random::after;
use crate::random::below;
use crate::random::lemma_after_adds_up;
use crate::random::scaled;
use crate::random::RandomSource;
use crate::tokens::TokenDictionary;
use crate::weighted::before;
use crate::weighted::holds;
use crate::weighted::lemma_stretch;
use crate::weighted::pick;
use crate::weighted::sum_of;
use crate::weighted::target_for;
use crate::weighted::target_of;
use crate::weighted::total;
use vstd::prelude::*;

verus! {

/// The number of cycles in a phase unless told otherwise.
pub const DEFAULT_PERIOD: u64 = 5;

/// The most operators stacked on one input unless told otherwise.
pub const DEFAULT_STACK: usize = 7;

/// The weight an operator gains if every mutant it took part in was
/// interesting.
pub const REWARD_SCALE: u64 = 100;

/// The two kinds of phase.
#[derive(Clone, Copy, Debug, PartialEq, Eq, Structural)]
pub enum Phase {
    /// Operators are drawn evenly, and their yield is counted.
    Pilot,
    /// Operators are drawn by the weights that the last pilot phase gave.
    Core,
}

/// The weight of an operator that was used `uses` times, `finds` of them in
/// a mutant that turned out interesting.
pub open spec fn adapted(uses: u64, finds: u64) -> nat {
    if uses == 0 {
        1
    } else {
        (1 + (REWARD_SCALE as nat * finds as nat) / (uses as nat)) as nat
    }
}

/// Even odds for all operators.
pub open spec fn even_odds() -> Seq<u64> {
    Seq::new(OPERATOR_COUNT as nat, |k: int| 1u64)
}

/// The mathematical content of an adaptive mutator.
pub ghost struct MutatorView {
    /// How often each operator was used since the counts were reset.
    pub uses: Seq<u64>,
    /// How often each operator took part in an interesting mutant since then.
    pub finds: Seq<u64>,
    /// The weight of each operator in a core phase.
    pub weights: Seq<u64>,
    /// The present phase.
    pub phase: Phase,
    /// The cycles left in the present phase, the running one included.
    pub cycles_left: u64,
    /// The number of cycles in a phase.
    pub period: u64,
    /// The most operators stacked on one input.
    pub max_stack: usize,
}

impl MutatorView {
    /// What holds of every adaptive mutator.
    pub open spec fn wf(self) -> bool {
        &&& self.uses.len() == OPERATOR_COUNT
        &&& self.finds.len() == OPERATOR_COUNT
        &&& self.weights.len() == OPERATOR_COUNT
        &&& forall|k: int| 0 <= k < OPERATOR_COUNT ==> (#[trigger] self.weights[k]) >= 1
        &&& forall|k: int| 0 <= k < OPERATOR_COUNT ==> (#[trigger] self.finds[k]) <= self.uses[k]
        &&& self.period >= 1
        &&& 1 <= self.cycles_left <= self.period
        &&& self.max_stack >= 1
    }

    /// The odds by which the next operator is drawn.
    pub open spec fn odds(self) -> Seq<u64> {
        if self.phase == Phase::Pilot {
            even_odds()
        } else {
            self.weights
        }
    }

    /// The operator that the raw draw `draw` selects.
    pub open spec fn draws(self, draw: u64, op: Operator) -> bool {
        holds(self.odds(), number_of(op), target_for(total(self.odds()), draw))
    }

    /// The counts after one use of operator number `k` is taken in. An
    /// operator whose count is full is not counted further.
    pub open spec fn credit_one(self, k: int, interesting: bool) -> MutatorView {
        if self.uses[k] == u64::MAX {
            self
        } else {
            MutatorView {
                uses: self.uses.update(k, (self.uses[k] + 1) as u64),
                finds: if interesting {
                    self.finds.update(k, (self.finds[k] + 1) as u64)
                } else {
                    self.finds
                },
                ..self
            }
        }
    }

    /// The counts after the operators of one mutant are taken in.
    pub open spec fn credited(self, used: Seq<Operator>, interesting: bool) -> MutatorView
        decreases used.len(),
    {
        if used.len() == 0 {
            self
        } else {
            self.credited(used.drop_last(), interesting).credit_one(
                number_of(used.last()),
                interesting,
            )
        }
    }

    /// The state after a cycle ends. Within a phase only the count of cycles
    /// goes down. At the end of a pilot phase the weights are computed from
    /// the counts; at the end of a core phase the counts are reset.
    pub open spec fn cycled(self) -> MutatorView {
        if self.cycles_left > 1 {
            MutatorView { cycles_left: (self.cycles_left - 1) as u64, ..self }
        } else if self.phase == Phase::Pilot {
            MutatorView {
                weights: Seq::new(
                    OPERATOR_COUNT as nat,
                    |k: int| adapted(self.uses[k], self.finds[k]) as u64,
                ),
                phase: Phase::Core,
                cycles_left: self.period,
                ..self
            }
        } else {
            MutatorView {
                uses: Seq::new(OPERATOR_COUNT as nat, |k: int| 0u64),
                finds: Seq::new(OPERATOR_COUNT as nat, |k: int| 0u64),
                phase: Phase::Pilot,
                cycles_left: self.period,
                ..self
            }
        }
    }
}

/// What a chain of operator applications can make of `a`.
pub open spec fn derives(a: Seq<u8>, ops: Seq<Operator>, b: Seq<u8>, tokens: Seq<Seq<u8>>) -> bool
    decreases ops.len(),
{
    if ops.len() == 0 {
        b == a
    } else {
        exists|mid: Seq<u8>|
            derives(a, ops.drop_last(), mid, tokens) && #[trigger] step(ops.last(), mid, b, tokens)
    }
}

/// What the first `n` operators of `used` make of `input`, one after the
/// other, when the random choices of operator number `k` are fixed by draw
/// number `2 * k + 2` of `draws`.
pub open spec fn stacked(
    input: Seq<u8>,
    used: Seq<Operator>,
    draws: Map<nat, u64>,
    tokens: Seq<Seq<u8>>,
    n: nat,
) -> Seq<u8>
    decreases n,
{
    if n == 0 {
        input
    } else {
        applied(
            used[n - 1],
            stacked(input, used, draws, tokens, (n - 1) as nat),
            tokens,
            draws[2 * n],
        )
    }
}

/// What the first `n` operators make of an input depends on no later
/// operator.
pub proof fn lemma_stacked_prefix(
    input: Seq<u8>,
    used: Seq<Operator>,
    longer: Seq<Operator>,
    draws: Map<nat, u64>,
    tokens: Seq<Seq<u8>>,
    n: nat,
)
    requires
        n <= used.len() <= longer.len(),
        forall|k: int| 0 <= k < n ==> used[k] == longer[k],
    ensures
        stacked(input, used, draws, tokens, n) == stacked(input, longer, draws, tokens, n),
    decreases n,
{
    if n > 0 {
        lemma_stacked_prefix(input, used, longer, draws, tokens, (n - 1) as nat);
    }
}

/// A mutant and the operators that made it, in the order they were applied.
#[derive(Clone, Debug)]
pub struct Mutant {
    /// The bytes of the mutant.
    pub bytes: Vec<u8>,
    /// The operators applied to the parent input.
    pub used: Vec<Operator>,
}

/// The adaptive stacked mutator.
pub struct AdaptiveMutator {
    uses: Vec<u64>,
    finds: Vec<u64>,
    weights: Vec<u64>,
    phase: Phase,
    cycles_left: u64,
    period: u64,
    max_stack: usize,
}

impl View for AdaptiveMutator {
    type V = MutatorView;

    closed spec fn view(&self) -> MutatorView {
        MutatorView {
            uses: self.uses@,
            finds: self.finds@,
            weights: self.weights@,
            phase: self.phase,
            cycles_left: self.cycles_left,
            period: self.period,
            max_stack: self.max_stack,
        }
    }
}

/// The weight never leaves the range from 1 to one more than the scale.
pub proof fn lemma_adapted_range(uses: u64, finds: u64)
    requires
        finds <= uses,
    ensures
        1 <= adapted(uses, finds) <= 1 + REWARD_SCALE,
{
    if uses > 0 {
        let top = REWARD_SCALE as nat * finds as nat;
        assert(top <= REWARD_SCALE as nat * uses as nat) by (nonlinear_arith)
            requires
                finds <= uses,
                top == REWARD_SCALE as nat * finds as nat,
        ;
        assert(top / (uses as nat) <= REWARD_SCALE as nat) by (nonlinear_arith)
            requires
                top <= REWARD_SCALE as nat * uses as nat,
                uses > 0,
        ;
    }
}

/// Reward is monotone: of two operators used equally often, the one with
/// more interesting mutants gets at least the weight of the other.
pub proof fn lemma_adapted_monotone(uses: u64, fewer: u64, more: u64)
    requires
        fewer <= more,
    ensures
        adapted(uses, fewer) <= adapted(uses, more),
{
    if uses > 0 {
        let low = REWARD_SCALE as nat * fewer as nat;
        let high = REWARD_SCALE as nat * more as nat;
        assert(low <= high) by (nonlinear_arith)
            requires
                fewer <= more,
                low == REWARD_SCALE as nat * fewer as nat,
                high == REWARD_SCALE as nat * more as nat,
        ;
        assert(low / (uses as nat) <= high / (uses as nat)) by (nonlinear_arith)
            requires
                low <= high,
                uses > 0,
        ;
    }
}

/// No operator is ever starved: in every state each operator is selected by
/// some draw target, because its odds are at least one.
pub proof fn lemma_never_starved(view: MutatorView, op: Operator)
    requires
        view.wf(),
    ensures
        view.odds()[number_of(op)] >= 1,
        holds(view.odds(), number_of(op), before(view.odds(), number_of(op))),
        before(view.odds(), number_of(op)) < total(view.odds()),
{
    lemma_stretch(view.odds(), number_of(op), 0);
}

/// Taking in counts and ending cycles keep the state well-formed.
pub proof fn lemma_steps_keep_wf(view: MutatorView, k: int, interesting: bool)
    requires
        view.wf(),
        0 <= k < OPERATOR_COUNT,
    ensures
        view.credit_one(k, interesting).wf(),
        view.cycled().wf(),
{
    let next = view.cycled();
    if view.cycles_left <= 1 && view.phase == Phase::Pilot {
        assert forall|j: int| 0 <= j < OPERATOR_COUNT implies (#[trigger] next.weights[j]) >= 1 by {
            lemma_adapted_range(view.uses[j], view.finds[j]);
        }
    }
}

impl AdaptiveMutator {
    /// The invariant of the mutator.
    pub open spec fn wf(&self) -> bool {
        self@.wf()
    }

    /// A mutator in its first pilot phase, with nothing counted yet. Neither
    /// the stack bound nor the period may be zero.
    pub fn new(max_stack: usize, period: u64) -> (made: Option<AdaptiveMutator>)
        ensures
            (max_stack == 0 || period == 0) ==> made is None,
            max_stack > 0 && period > 0 ==> made is Some && made->0.wf() && made->0@ == (
            MutatorView {
                uses: Seq::new(OPERATOR_COUNT as nat, |k: int| 0u64),
                finds: Seq::new(OPERATOR_COUNT as nat, |k: int| 0u64),
                weights: even_odds(),
                phase: Phase::Pilot,
                cycles_left: period,
                period,
                max_stack,
            }),
    {
        if max_stack == 0 || period == 0 {
            return None;
        }
        let mut zeros: Vec<u64> = Vec::new();
        let mut ones: Vec<u64> = Vec::new();
        let mut k: usize = 0;
        while k < OPERATOR_COUNT
            invariant
                k <= OPERATOR_COUNT,
                zeros@ == Seq::new(k as nat, |j: int| 0u64),
                ones@ == Seq::new(k as nat, |j: int| 1u64),
            decreases OPERATOR_COUNT - k,
        {
            zeros.push(0);
            ones.push(1);
            k = k + 1;
        }
        let uses = zeros.clone();
        assert(uses@ =~= zeros@);
        Some(
            AdaptiveMutator {
                uses,
                finds: zeros,
                weights: ones,
                phase: Phase::Pilot,
                cycles_left: period,
                period,
                max_stack,
            },
        )
    }

    /// The present phase.
    pub fn phase(&self) -> (phase: Phase)
        ensures
            phase == self@.phase,
    {
        self.phase
    }

    /// The weight that operator `op` has in a core phase.
    pub fn weight(&self, op: Operator) -> (weight: u64)
        requires
            self.wf(),
        ensures
            weight == self@.weights[number_of(op)],
            weight >= 1,
    {
        self.weights[number(op)]
    }

    /// Picks the operator to apply next; `draw` is the raw draw that decides.
    pub fn draw_operator(&self, draw: u64) -> (op: Operator)
        requires
            self.wf(),
        ensures
            self@.draws(draw, op),
    {
        proof {
            lemma_never_starved(self@, Operator::BitFlip);
        }
        match self.phase {
            Phase::Pilot => {
                let mut ones: Vec<u64> = Vec::new();
                let mut k: usize = 0;
                while k < OPERATOR_COUNT
                    invariant
                        k <= OPERATOR_COUNT,
                        ones@ == Seq::new(k as nat, |j: int| 1u64),
                    decreases OPERATOR_COUNT - k,
                {
                    ones.push(1);
                    k = k + 1;
                }
                assert(ones@ =~= even_odds());
                let sum = sum_of(&ones);
                let target = target_of(sum, draw);
                operator(pick(&ones, target))
            },
            Phase::Core => {
                let sum = sum_of(&self.weights);
                let target = target_of(sum, draw);
                operator(pick(&self.weights, target))
            },
        }
    }

    /// Makes one mutant of `input`. The first draw of the source fixes how
    /// many operators are stacked, between one and `max_stack`. Each operator
    /// then takes two draws: the first picks it by the present odds, the
    /// second fixes its random choices. Nothing is counted yet.
    pub fn mutate(
        &self,
        input: &Vec<u8>,
        dictionary: &TokenDictionary,
        source: &mut RandomSource,
    ) -> (mutant: Mutant)
        requires
            self.wf(),
            dictionary.wf(),
        ensures
            mutant.used@.len() == 1 + scaled(old(source).ahead()[0], self@.max_stack as int),
            1 <= mutant.used@.len() <= self@.max_stack,
            forall|k: int|
                0 <= k < mutant.used@.len() ==> self@.draws(
                    old(source).ahead()[(2 * k + 1) as nat],
                    #[trigger] mutant.used@[k],
                ),
            mutant.bytes@ == stacked(
                input@,
                mutant.used@,
                old(source).ahead(),
                dictionary@,
                mutant.used@.len(),
            ),
            derives(input@, mutant.used@, mutant.bytes@, dictionary@),
            final(source).ahead() == after(
                old(source).ahead(),
                (2 * mutant.used@.len() + 1) as nat,
            ),
    {
        let ghost draws = source.ahead();
        let depth = 1 + below(source.draw(), self.max_stack);
        let mut bytes = input.clone();
        assert(bytes@ =~= input@);
        let mut used: Vec<Operator> = Vec::new();
        let mut k: usize = 0;
        while k < depth
            invariant
                k <= depth,
                self.wf(),
                dictionary.wf(),
                used@.len() == k,
                source.ahead() == after(draws, (2 * k + 1) as nat),
                forall|j: int|
                    0 <= j < k ==> self@.draws(draws[(2 * j + 1) as nat], #[trigger] used@[j]),
                bytes@ == stacked(input@, used@, draws, dictionary@, k as nat),
                derives(input@, used@, bytes@, dictionary@),
            decreases depth - k,
        {
            let ghost here = source.ahead();
            proof {
                lemma_after_adds_up(draws, 0, (2 * k + 1) as nat);
                lemma_after_adds_up(draws, (2 * k + 1) as nat, 1);
                lemma_after_adds_up(draws, 0, (2 * k + 2) as nat);
                lemma_after_adds_up(draws, (2 * k + 2) as nat, 1);
            }
            let op = self.draw_operator(source.draw());
            let next = apply(op, &bytes, dictionary, source.draw());
            proof {
                assert(used@.push(op).drop_last() =~= used@);
                assert(step(used@.push(op).last(), bytes@, next@, dictionary@));
                lemma_stacked_prefix(input@, used@, used@.push(op), draws, dictionary@, k as nat);
            }
            used.push(op);
            bytes = next;
            k = k + 1;
        }
        Mutant { bytes, used }
    }

    /// Counts one use of an operator.
    fn credit(&mut self, op: Operator, interesting: bool)
        requires
            old(self).wf(),
        ensures
            final(self).wf(),
            final(self)@ == old(self)@.credit_one(number_of(op), interesting),
    {
        let k = number(op);
        let uses = self.uses[k];
        if uses < u64::MAX {
            self.uses.set(k, uses + 1);
            if interesting {
                let finds = self.finds[k];
                self.finds.set(k, finds + 1);
            }
        }
    }

    /// Ends the cycle of one mutant: counts the operators that made it, with
    /// the verdict on the mutant, and moves on in the phase, or to the next.
    pub fn reward(&mut self, used: &Vec<Operator>, interesting: bool)
        requires
            old(self).wf(),
        ensures
            final(self).wf(),
            final(self)@ == old(self)@.credited(used@, interesting).cycled(),
    {
        let mut k: usize = 0;
        assert(used@.take(0) =~= Seq::<Operator>::empty());
        while k < used.len()
            invariant
                k <= used.len(),
                self.wf(),
                self@ == old(self)@.credited(used@.take(k as int), interesting),
            decreases used.len() - k,
        {
            proof {
                assert(used@.take(k as int + 1).drop_last() =~= used@.take(k as int));
            }
            self.credit(used[k], interesting);
            k = k + 1;
        }
        assert(used@.take(used.len() as int) =~= used@);
        let ghost counted = self@;
        proof {
            lemma_steps_keep_wf(counted, 0, interesting);
        }
        if self.cycles_left > 1 {
            self.cycles_left = self.cycles_left - 1;
        } else {
            match self.phase {
                Phase::Pilot => {
                    let mut weights: Vec<u64> = Vec::new();
                    let mut j: usize = 0;
                    while j < OPERATOR_COUNT
                        invariant
                            j <= OPERATOR_COUNT,
                            self.wf(),
                            self@ == counted,
                            weights@.len() == j,
                            forall|l: int|
                                0 <= l < j ==> (#[trigger] weights@[l]) as nat == adapted(
                                    counted.uses[l],
                                    counted.finds[l],
                                ),
                        decreases OPERATOR_COUNT - j,
                    {
                        let uses = self.uses[j];
                        let finds = self.finds[j];
                        proof {
                            lemma_adapted_range(uses, finds);
                        }
                        if uses == 0 {
                            weights.push(1);
                        } else {
                            let top: u128 = REWARD_SCALE as u128 * finds as u128;
                            weights.push((1 + top / uses as u128) as u64);
                        }
                        j = j + 1;
                    }
                    self.weights = weights;
                    self.phase = Phase::Core;
                    self.cycles_left = self.period;
                    assert(self@.weights =~= counted.cycled().weights);
                },
                Phase::Core => {
                    let mut zeros: Vec<u64> = Vec::new();
                    let mut j: usize = 0;
                    while j < OPERATOR_COUNT
                        invariant
                            j <= OPERATOR_COUNT,
                            zeros@ == Seq::new(j as nat, |l: int| 0u64),
                        decreases OPERATOR_COUNT - j,
                    {
                        zeros.push(0);
                        j = j + 1;
                    }
                    self.uses = zeros.clone();
                    assert(self.uses@ =~= zeros@);
                    self.finds = zeros;
                    self.phase = Phase::Pilot;
                    self.cycles_left = self.period;
                },
            }
        }
    }
}

} // verus!
