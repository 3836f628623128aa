//! The stage pipeline: the order of work on one scheduled entry.
//!
//! A round on an entry is a fixed sequence of executions. First the entry
//! itself is executed a set number of times for calibration; then once more
//! with comparison logging, for the trace; then one mutant made by the
//! input-to-state replacement; then as many mutants of the stacked mutator
//! as the entry's score allows. The round keeps count of the executions and
//! what calibration and tracing found; nothing else passes between stages.

use crate::corpus::same_bytes;
use crate::power::iterations;
use crate::power::rounds;
use crate::replacement::LoggedComparison;
use crate::weighted::lemma_before_all;
use crate::weighted::lemma_before_step;
use crate::weighted::lemma_total_bound;
use crate::weighted::total;
use vstd::prelude::*;

verus! {

/// The number of times an entry is executed for calibration.
pub const CALIBRATION_RUNS: u64 = 4;

/// The stages of a round, in the order they run.
#[derive(Clone, Copy, Debug, PartialEq, Eq, Structural)]
pub enum Stage {
    /// The entry is executed unchanged, to measure it.
    Calibration,
    /// The entry is executed unchanged with comparison logging.
    Tracing,
    /// One mutant of the replacement mutator is executed.
    InputToState,
    /// Mutants of the stacked mutator are executed.
    Power,
    /// The round is over.
    Done,
}

/// The place of a stage in the order.
pub open spec fn rank(stage: Stage) -> int {
    match stage {
        Stage::Calibration => 0,
        Stage::Tracing => 1,
        Stage::InputToState => 2,
        Stage::Power => 3,
        Stage::Done => 4,
    }
}

/// The stage in which execution number `k` of a round runs, counting from
/// zero, when the power stage has a budget of `budget` mutants.
pub open spec fn stage_of(budget: u64, k: nat) -> Stage {
    if k < CALIBRATION_RUNS {
        Stage::Calibration
    } else if k == CALIBRATION_RUNS {
        Stage::Tracing
    } else if k == CALIBRATION_RUNS + 1 {
        Stage::InputToState
    } else if k < CALIBRATION_RUNS + 2 + budget {
        Stage::Power
    } else {
        Stage::Done
    }
}

/// The stages run strictly in order: a later execution never runs in an
/// earlier stage.
pub proof fn lemma_stages_in_order(budget: u64, earlier: nat, later: nat)
    requires
        earlier <= later,
    ensures
        rank(stage_of(budget, earlier)) <= rank(stage_of(budget, later)),
{
}

/// A round has as many executions as calibration asks for, one for the
/// trace, one for the replacement mutant and one for each mutant in the
/// budget; after them it is over, and not before.
pub proof fn lemma_round_length(budget: u64, k: nat)
    ensures
        stage_of(budget, k) == Stage::Done <==> k >= CALIBRATION_RUNS + 2 + budget,
{
}

/// The mathematical content of a round.
pub ghost struct RoundView {
    /// The corpus index of the entry the round works on.
    pub entry: usize,
    /// The number of mutants the power stage may try.
    pub budget: u64,
    /// The number of executions done.
    pub executed: nat,
    /// The coverage of the first calibration run, once there was one.
    pub first: Option<Seq<u8>>,
    /// Whether a later calibration run gave another coverage than the first.
    pub varied: bool,
    /// The times of the calibration runs so far.
    pub times: Seq<u64>,
    /// The comparison log of the tracing run; empty before it.
    pub log: Seq<LoggedComparison>,
}

impl RoundView {
    /// The stage of the next execution.
    pub open spec fn stage(self) -> Stage {
        stage_of(self.budget, self.executed)
    }

    /// What holds of every round.
    pub open spec fn wf(self) -> bool {
        &&& self.executed <= CALIBRATION_RUNS + 2 + self.budget
        &&& self.times.len() == if self.executed < CALIBRATION_RUNS {
            self.executed
        } else {
            CALIBRATION_RUNS as nat
        }
        &&& (self.first is Some) == (self.executed > 0)
        &&& self.executed <= CALIBRATION_RUNS ==> self.log.len() == 0
    }

    /// The baseline time that calibration established: the average of its
    /// runs, rounded down.
    pub open spec fn baseline(self) -> nat {
        total(self.times) / (CALIBRATION_RUNS as nat)
    }

    /// The round after a calibration run with this coverage and time.
    pub open spec fn calibrated(self, observed: Seq<u8>, micros: u64) -> RoundView {
        RoundView {
            executed: self.executed + 1,
            first: if self.first is Some {
                self.first
            } else {
                Some(observed)
            },
            varied: self.varied || (self.first is Some && self.first->0 != observed),
            times: self.times.push(micros),
            ..self
        }
    }

    /// The round after the tracing run produced this log.
    pub open spec fn traced(self, log: Seq<LoggedComparison>) -> RoundView {
        RoundView { executed: self.executed + 1, log, ..self }
    }

    /// The round after one mutant was executed.
    pub open spec fn advanced(self) -> RoundView {
        RoundView { executed: self.executed + 1, ..self }
    }
}

/// One round of work on a scheduled entry.
pub struct Round {
    entry: usize,
    budget: u64,
    executed: u64,
    first: Option<Vec<u8>>,
    varied: bool,
    times: Vec<u64>,
    sum: u128,
    log: Vec<LoggedComparison>,
}

impl View for Round {
    type V = RoundView;

    closed spec fn view(&self) -> RoundView {
        RoundView {
            entry: self.entry,
            budget: self.budget,
            executed: self.executed as nat,
            first: match self.first {
                Some(coverage) => Some(coverage@),
                None => None,
            },
            varied: self.varied,
            times: self.times@,
            log: self.log@,
        }
    }
}

impl Round {
    /// The invariant of a round.
    pub closed spec fn wf(&self) -> bool {
        &&& self@.wf()
        &&& self.sum as nat == total(self.times@)
        &&& self.budget <= crate::power::MAX_ITERATIONS
    }

    /// A well-formed round has a well-formed view.
    pub proof fn lemma_view_wf(&self)
        requires
            self.wf(),
        ensures
            self@.wf(),
            self@.budget <= crate::power::MAX_ITERATIONS,
    {
    }

    /// A round on entry `entry`, whose score is `score`, before its first
    /// execution.
    pub fn begin(entry: usize, score: u64) -> (round: Round)
        ensures
            round.wf(),
            round@ == (RoundView {
                entry,
                budget: rounds(score) as u64,
                executed: 0,
                first: None,
                varied: false,
                times: Seq::empty(),
                log: Seq::empty(),
            }),
    {
        let round = Round {
            entry,
            budget: iterations(score),
            executed: 0,
            first: None,
            varied: false,
            times: Vec::new(),
            sum: 0,
            log: Vec::new(),
        };
        proof {
            lemma_before_all(round.times@);
        }
        round
    }

    /// The entry the round works on.
    pub fn entry(&self) -> (index: usize)
        ensures
            index == self@.entry,
    {
        self.entry
    }

    /// The stage of the next execution.
    pub fn stage(&self) -> (stage: Stage)
        requires
            self.wf(),
        ensures
            stage == self@.stage(),
    {
        if self.executed < CALIBRATION_RUNS {
            Stage::Calibration
        } else if self.executed == CALIBRATION_RUNS {
            Stage::Tracing
        } else if self.executed == CALIBRATION_RUNS + 1 {
            Stage::InputToState
        } else if self.executed < CALIBRATION_RUNS + 2 + self.budget {
            Stage::Power
        } else {
            Stage::Done
        }
    }

    /// The comparison log that the tracing run left for the replacement
    /// mutator.
    pub fn log(&self) -> (log: &Vec<LoggedComparison>)
        ensures
            log@ == self@.log,
    {
        &self.log
    }

    /// Takes in one calibration run.
    pub fn note_calibration(&mut self, observed: &Vec<u8>, micros: u64)
        requires
            old(self).wf(),
            old(self)@.stage() == Stage::Calibration,
        ensures
            final(self).wf(),
            final(self)@ == old(self)@.calibrated(observed@, micros),
    {
        let ghost before = self@;
        let varies = match &self.first {
            Some(coverage) => !same_bytes(coverage, observed),
            None => false,
        };
        if self.first.is_none() {
            let copy = observed.clone();
            assert(copy@ =~= observed@);
            self.first = Some(copy);
        }
        if varies {
            self.varied = true;
        }
        proof {
            lemma_before_all(self.times@);
            lemma_before_all(self.times@.push(micros));
            lemma_before_step(self.times@.push(micros), self.times@.len() as int);
            assert(self.times@.push(micros).take(self.times@.len() as int) =~= self.times@);
            lemma_total_bound(self.times@);
            assert(self.times@.len() * (u64::MAX as nat) <= 4 * (u64::MAX as nat)) by (nonlinear_arith)
                requires
                    self.times@.len() <= 4,
            ;
        }
        self.sum = self.sum + micros as u128;
        self.times.push(micros);
        self.executed = self.executed + 1;
    }

    /// What calibration established, once all its runs are in: the baseline
    /// time, and whether the coverage varied between the runs.
    pub fn calibration(&self) -> (found: (u64, bool))
        requires
            self.wf(),
            self@.executed >= CALIBRATION_RUNS,
        ensures
            found.0 as nat == self@.baseline(),
            found.1 == self@.varied,
    {
        proof {
            lemma_total_bound(self.times@);
            assert(total(self.times@) / 4 <= u64::MAX as nat) by (nonlinear_arith)
                requires
                    total(self.times@) <= 4 * (u64::MAX as nat),
            ;
        }
        ((self.sum / (CALIBRATION_RUNS as u128)) as u64, self.varied)
    }

    /// Takes in the comparison log of the tracing run.
    pub fn note_trace(&mut self, log: Vec<LoggedComparison>)
        requires
            old(self).wf(),
            old(self)@.stage() == Stage::Tracing,
        ensures
            final(self).wf(),
            final(self)@ == old(self)@.traced(log@),
    {
        self.log = log;
        self.executed = self.executed + 1;
    }

    /// Counts the execution of one mutant.
    pub fn note_mutant(&mut self)
        requires
            old(self).wf(),
            old(self)@.stage() == Stage::InputToState || old(self)@.stage() == Stage::Power,
        ensures
            final(self).wf(),
            final(self)@ == old(self)@.advanced(),
    {
        self.executed = self.executed + 1;
    }
}

} // verus!
