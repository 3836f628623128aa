//! The fuzz loop of one client, as a machine that is asked for the next
//! thing to do and told how it went.
//!
//! The caller owns the target and the disk. It asks for an action, which is
//! to execute an input, to read back the bytes of a corpus entry, or to
//! stop for want of a corpus. After an execution it hands over what was
//! observed. Everything in between is decided here: which entry is worked
//! on, which stage the round is in, what is executed in that stage, and what
//! becomes of each executed input.

use crate::adaptive::derives;
use crate::adaptive::stacked;
use crate::adaptive::AdaptiveMutator;
use crate::adaptive::MutatorView;
use crate::adaptive::DEFAULT_PERIOD;
use crate::adaptive::DEFAULT_STACK;
use crate::corpus::Placement;
use crate::corpus::ReloadError;
use crate::corpus::DEFAULT_CACHE_CAPACITY;
use crate::coverage::ConfigError;
use crate::coverage::CoverageObserver;
use crate::engine::Engine;
use crate::engine::EngineView;
use crate::engine::Report;
use crate::operators::Operator;
use crate::outcome::ExitKind;
use crate::power::rounds;
use crate::random::after;
use crate::random::lemma_after_adds_up;
use crate::random::scaled;
use crate::random::RandomSource;
use crate::replacement::input_to_state;
use crate::replacement::operand_pairs;
use crate::replacement::replaced;
use crate::replacement::replacement_of;
use crate::replacement::LoggedComparison;
use crate::scheduler::chosen;
use crate::scheduler::score;
use crate::scheduler::EntryView;
use crate::stages::Round;
use crate::stages::RoundView;
use crate::stages::Stage;
use crate::stages::CALIBRATION_RUNS;
use crate::tokens::installed;
use crate::tokens::well_formed;
use crate::tokens::TokenDictionary;
use vstd::prelude::*;

verus! {

/// Why a fuzzer could not be set up.
#[derive(Clone, Copy, Debug, PartialEq, Eq, Structural)]
pub enum SetupError {
    /// The working set of the corpus needs room for at least one input.
    ZeroCapacity,
    /// The stacked mutator needs a stack bound and a period above zero.
    ZeroStackOrPeriod,
}

/// Why what was handed over after an execution was not taken.
#[derive(Clone, Copy, Debug, PartialEq, Eq, Structural)]
pub enum HandleError {
    /// No input was handed out for execution.
    NothingInFlight,
    /// The counters do not have the length fixed at start.
    Config(ConfigError),
}

/// What the caller is to do next.
#[derive(Clone, Debug)]
pub enum Action {
    /// Nothing: the corpus is empty, so there is nothing to mutate.
    Idle,
    /// Read the bytes stored under `name` and hand them to `reload` for
    /// entry `index`.
    Load { index: usize, name: String },
    /// Execute `input`, with comparison logging if `tracing` is set, and
    /// hand what was observed to `handle`.
    Execute { input: Vec<u8>, tracing: bool },
}

/// The input that is out for execution, and the operators that made it.
pub ghost struct CandidateView {
    /// The bytes handed out for execution.
    pub bytes: Seq<u8>,
    /// The operators of the stacked mutator that made them; none in the
    /// other stages.
    pub used: Seq<Operator>,
}

/// The mathematical content of a fuzzer.
pub ghost struct FuzzerView {
    /// The stores, the feedback state and the scheduler's records.
    pub engine: EngineView,
    /// The adaptive mutator.
    pub mutator: MutatorView,
    /// The token dictionary, if one was installed.
    pub tokens: Option<Seq<Seq<u8>>>,
    /// The round in progress, if any.
    pub round: Option<RoundView>,
    /// The input that is out for execution, if any.
    pub candidate: Option<CandidateView>,
}

impl FuzzerView {
    /// What holds of every fuzzer.
    pub open spec fn wf(self) -> bool {
        &&& self.mutator.wf()
        &&& self.tokens is Some ==> well_formed(self.tokens->0)
        &&& self.round is Some ==> self.round->0.wf() && self.round->0.entry
            < self.engine.entries.len()
        &&& self.candidate is Some ==> self.round is Some && self.round->0.stage() != Stage::Done
    }

    /// The tokens the dictionary mutation draws from.
    pub open spec fn dictionary(self) -> Seq<Seq<u8>> {
        match self.tokens {
            Some(tokens) => tokens,
            None => Seq::empty(),
        }
    }

    /// Whether a round is in progress and not yet over.
    pub open spec fn in_round(self) -> bool {
        self.round is Some && self.round->0.stage() != Stage::Done
    }

    /// The bytes in memory of the entry the round works on.
    pub open spec fn parent(self) -> Option<Seq<u8>> {
        self.engine.corpus.resident[self.round->0.entry as int]
    }

    /// Whether `candidate` is what the present stage executes.
    pub open spec fn fits(self, candidate: CandidateView) -> bool {
        let parent = self.parent()->0;
        match self.round->0.stage() {
            Stage::Calibration => candidate.bytes == parent && candidate.used.len() == 0,
            Stage::Tracing => candidate.bytes == parent && candidate.used.len() == 0,
            Stage::InputToState => candidate.used.len() == 0 && replacement_of(
                parent,
                candidate.bytes,
                operand_pairs(self.round->0.log),
            ) && exists|seed: u64|
                candidate.bytes == #[trigger] replaced(
                    parent,
                    operand_pairs(self.round->0.log),
                    seed,
                ),
            Stage::Power => 1 <= candidate.used.len() <= self.mutator.max_stack && derives(
                parent,
                candidate.used,
                candidate.bytes,
                self.dictionary(),
            ),
            Stage::Done => false,
        }
    }

    /// The number of draws that making `candidate` takes in the present
    /// stage: none for a run of the entry itself, one for the replacement,
    /// and for a stacked mutant one and two for each operator.
    pub open spec fn takes(self, candidate: CandidateView) -> nat {
        match self.round->0.stage() {
            Stage::InputToState => 1,
            Stage::Power => (2 * candidate.used.len() + 1) as nat,
            _ => 0,
        }
    }

    /// Whether `candidate` is what the present stage makes of the entry when
    /// the source gives `draws`.
    pub open spec fn made_by(self, candidate: CandidateView, draws: Map<nat, u64>) -> bool {
        let parent = self.parent()->0;
        match self.round->0.stage() {
            Stage::Calibration => candidate.bytes == parent && candidate.used.len() == 0,
            Stage::Tracing => candidate.bytes == parent && candidate.used.len() == 0,
            Stage::InputToState => candidate.used.len() == 0 && candidate.bytes == replaced(
                parent,
                operand_pairs(self.round->0.log),
                draws[0],
            ),
            Stage::Power => {
                &&& candidate.used.len() == 1 + scaled(draws[0], self.mutator.max_stack as int)
                &&& forall|k: int|
                    0 <= k < candidate.used.len() ==> self.mutator.draws(
                        draws[(2 * k + 1) as nat],
                        #[trigger] candidate.used[k],
                    )
                &&& candidate.bytes == stacked(
                    parent,
                    candidate.used,
                    draws,
                    self.dictionary(),
                    candidate.used.len(),
                )
            },
            Stage::Done => false,
        }
    }

    /// The round that starts on entry `entry`.
    pub open spec fn fresh_round(self, entry: usize) -> RoundView {
        RoundView {
            entry,
            budget: rounds(score(self.engine.entries, entry as int) as u64) as u64,
            executed: 0,
            first: None,
            varied: false,
            times: Seq::empty(),
            log: Seq::empty(),
        }
    }

    /// The engine after the calibration run that is handed over. The input
    /// is filed if the run crashed or timed out. The last run of the stage
    /// makes the scheduler record the baseline time and whether the runs
    /// varied.
    pub open spec fn calibration_result(
        self,
        observed: Seq<u8>,
        micros: u64,
        kind: ExitKind,
    ) -> EngineView {
        let after = self.round->0.calibrated(observed, micros);
        let filed = self.engine.filed(self.candidate->0.bytes, kind);
        if after.executed == CALIBRATION_RUNS as nat {
            let entry = after.entry as int;
            EngineView {
                entries: filed.entries.update(
                    entry,
                    EntryView {
                        micros: after.baseline() as u64,
                        flaky: after.varied,
                        ..filed.entries[entry]
                    },
                ),
                ..filed
            }
        } else {
            filed
        }
    }

    /// The fuzzer after what an execution of the candidate gave is taken in.
    /// Whatever the stage, an input whose execution crashed or timed out is
    /// filed.
    pub open spec fn handled(
        self,
        observed: Seq<u8>,
        micros: u64,
        kind: ExitKind,
        log: Seq<LoggedComparison>,
    ) -> FuzzerView {
        let round = self.round->0;
        let candidate = self.candidate->0;
        match round.stage() {
            Stage::Calibration => FuzzerView {
                engine: self.calibration_result(observed, micros, kind),
                round: Some(round.calibrated(observed, micros)),
                candidate: None,
                ..self
            },
            Stage::Tracing => FuzzerView {
                engine: self.engine.filed(candidate.bytes, kind),
                round: Some(round.traced(log)),
                candidate: None,
                ..self
            },
            Stage::InputToState => FuzzerView {
                engine: self.engine.processed(candidate.bytes, observed, micros, kind),
                round: Some(round.advanced()),
                candidate: None,
                ..self
            },
            Stage::Power => FuzzerView {
                engine: self.engine.processed(candidate.bytes, observed, micros, kind),
                mutator: self.mutator.credited(
                    candidate.used,
                    self.engine.finds_interesting(observed, micros),
                ).cycled(),
                round: Some(round.advanced()),
                candidate: None,
                ..self
            },
            Stage::Done => self,
        }
    }

    /// Whether the candidate's execution is judged by the feedback oracle.
    /// The runs of calibration and tracing re-execute a corpus entry and are
    /// not; the objective oracle judges every execution.
    pub open spec fn judges(self) -> bool {
        self.round->0.stage() == Stage::InputToState || self.round->0.stage() == Stage::Power
    }
}

/// What a source has yet to give after `n` draws were taken from `draws`.
pub open spec fn left_of(draws: Map<nat, u64>, n: nat) -> Map<nat, u64> {
    if n == 0 {
        draws
    } else {
        after(draws, n)
    }
}

/// The input that is out for execution.
struct Candidate {
    bytes: Vec<u8>,
    used: Vec<Operator>,
}

/// The fuzz loop of one client.
pub struct Fuzzer {
    observer: CoverageObserver,
    engine: Engine,
    mutator: AdaptiveMutator,
    dictionary: Option<TokenDictionary>,
    round: Option<Round>,
    candidate: Option<Candidate>,
}

impl View for Fuzzer {
    type V = FuzzerView;

    closed spec fn view(&self) -> FuzzerView {
        FuzzerView {
            engine: self.engine@,
            mutator: self.mutator@,
            tokens: match self.dictionary {
                Some(dictionary) => Some(dictionary@),
                None => None,
            },
            round: match self.round {
                Some(round) => Some(round@),
                None => None,
            },
            candidate: match self.candidate {
                Some(candidate) => Some(
                    CandidateView { bytes: candidate.bytes@, used: candidate.used@ },
                ),
                None => None,
            },
        }
    }
}

impl Fuzzer {
    /// The invariant of the fuzzer.
    pub closed spec fn wf(&self) -> bool {
        &&& self@.wf()
        &&& self.engine.wf()
        &&& self.observer.edge_count() == self.engine@.edge_count
        &&& self.round is Some ==> self.round->0.wf()
    }

    /// What a well-formed fuzzer guarantees of its content.
    pub proof fn lemma_view_wf(&self)
        requires
            self.wf(),
        ensures
            self@.wf(),
            self@.engine.corpus.wf(),
            self@.engine.entries.len() == self@.engine.corpus.contents.len(),
    {
        self.engine.lemma_view_wf();
    }

    /// A fuzzer for a target with `edges` instrumented edges. Its corpus
    /// keeps up to `capacity` inputs in memory; its mutator stacks up to
    /// `max_stack` operators and changes phase every `period` cycles.
    pub fn new(edges: usize, capacity: usize, max_stack: usize, period: u64) -> (made: Result<
        Fuzzer,
        SetupError,
    >)
        ensures
            capacity == 0 ==> made is Err && made->Err_0 == SetupError::ZeroCapacity,
            capacity > 0 && (max_stack == 0 || period == 0) ==> made is Err && made->Err_0
                == SetupError::ZeroStackOrPeriod,
            capacity > 0 && max_stack > 0 && period > 0 ==> made is Ok && made->Ok_0.wf() && {
                let view = made->Ok_0@;
                &&& view.engine.edge_count == edges
                &&& view.engine.corpus.contents.len() == 0
                &&& view.engine.corpus.limit == capacity
                &&& view.engine.solutions.len() == 0
                &&& view.engine.seen == Seq::new(edges as nat, |e: int| 0u8)
                &&& view.mutator.max_stack == max_stack
                &&& view.mutator.period == period
                &&& view.tokens is None
                &&& view.round is None
                &&& view.candidate is None
            },
    {
        let engine = match Engine::new(edges, capacity) {
            Ok(engine) => engine,
            Err(_) => {
                return Err(SetupError::ZeroCapacity);
            },
        };
        let mutator = match AdaptiveMutator::new(max_stack, period) {
            Some(mutator) => mutator,
            None => {
                return Err(SetupError::ZeroStackOrPeriod);
            },
        };
        Ok(
            Fuzzer {
                observer: CoverageObserver::new(edges),
                engine,
                mutator,
                dictionary: None,
                round: None,
                candidate: None,
            },
        )
    }

    /// A fuzzer with the usual settings: a working set of 4096 inputs, up to
    /// 7 stacked operators, phases of 5 cycles.
    pub fn with_defaults(edges: usize) -> (fuzzer: Fuzzer)
        ensures
            fuzzer.wf(),
            fuzzer@.engine.edge_count == edges,
            fuzzer@.engine.corpus.contents.len() == 0,
            fuzzer@.engine.corpus.limit == DEFAULT_CACHE_CAPACITY,
            fuzzer@.engine.solutions.len() == 0,
            fuzzer@.mutator.max_stack == DEFAULT_STACK,
            fuzzer@.mutator.period == DEFAULT_PERIOD,
            fuzzer@.tokens is None,
            fuzzer@.round is None,
            fuzzer@.candidate is None,
    {
        Fuzzer::new(edges, DEFAULT_CACHE_CAPACITY, DEFAULT_STACK, DEFAULT_PERIOD).unwrap()
    }

    /// The stores and the feedback state, to read.
    pub fn engine(&self) -> (engine: &Engine)
        requires
            self.wf(),
        ensures
            engine.wf(),
            engine@ == self@.engine,
    {
        &self.engine
    }

    /// Installs the tokens harvested at start, unless a dictionary is there
    /// already or nothing was harvested.
    pub fn install_tokens(&mut self, harvested: TokenDictionary)
        requires
            old(self).wf(),
            harvested.wf(),
        ensures
            final(self).wf(),
            final(self)@ == (FuzzerView {
                tokens: if old(self)@.tokens is Some {
                    old(self)@.tokens
                } else if harvested@.len() > 0 {
                    Some(harvested@)
                } else {
                    None
                },
                ..old(self)@
            }),
    {
        let present = self.dictionary.take();
        self.dictionary = installed(present, harvested);
    }

    /// Takes a seed that was executed at start into the stores.
    pub fn add_seed(&mut self, input: Vec<u8>, counters: &[u8], micros: u64, kind: ExitKind) -> (done:
        Result<Report, ConfigError>)
        requires
            old(self).wf(),
        ensures
            final(self).wf(),
            counters@.len() != old(self)@.engine.edge_count ==> done == Err::<Report, ConfigError>(
                ConfigError::LengthMismatch {
                    expected: old(self)@.engine.edge_count as usize,
                    found: counters@.len() as usize,
                },
            ) && final(self)@ == old(self)@,
            counters@.len() == old(self)@.engine.edge_count ==> done is Ok && final(self)@ == (
            FuzzerView {
                engine: old(self)@.engine.seeded(input@, counters@, micros, kind),
                ..old(self)@
            }) && done->Ok_0.stored is Some && final(self)@.engine.corpus.holds(input@) && (
            kind.is_finding() ==> final(self)@.engine.has_finding(input@)) && final(self)@.engine.extends(old(self)@.engine),
    {
        let observed = match self.observer.observe(counters) {
            Ok(observed) => observed,
            Err(error) => {
                return Err(error);
            },
        };
        proof {
            self.engine.lemma_view_wf();
        }
        let report = self.engine.add_seed(input, &observed, micros, kind);
        proof {
            self.engine.lemma_view_wf();
        }
        Ok(report)
    }

    /// Takes in an input that another client found interesting and that was
    /// executed here. It goes through the step of a mutant: it is judged
    /// against the feedback state of this client, which may have it
    /// already.
    pub fn import_input(&mut self, input: Vec<u8>, counters: &[u8], micros: u64, kind: ExitKind) -> (done:
        Result<Report, ConfigError>)
        requires
            old(self).wf(),
        ensures
            final(self).wf(),
            counters@.len() != old(self)@.engine.edge_count ==> done == Err::<Report, ConfigError>(
                ConfigError::LengthMismatch {
                    expected: old(self)@.engine.edge_count as usize,
                    found: counters@.len() as usize,
                },
            ) && final(self)@ == old(self)@,
            counters@.len() == old(self)@.engine.edge_count ==> done is Ok && final(self)@ == (
            FuzzerView {
                engine: old(self)@.engine.processed(input@, counters@, micros, kind),
                ..old(self)@
            }) && done->Ok_0.interesting == old(self)@.engine.finds_interesting(counters@, micros)
                && done->Ok_0.stored is Some == done->Ok_0.interesting && done->Ok_0.finding is Some
                == kind.is_finding() && (crate::feedback::novel(old(self)@.engine.seen, counters@)
                ==> final(self)@.engine.corpus.holds(input@)) && (kind.is_finding() ==> final(self)@.engine.has_finding(input@)) && final(self)@.engine.extends(old(self)@.engine),
    {
        let observed = match self.observer.observe(counters) {
            Ok(observed) => observed,
            Err(error) => {
                return Err(error);
            },
        };
        proof {
            self.engine.lemma_view_wf();
        }
        let report = self.engine.process_execution(input, &observed, micros, kind);
        proof {
            self.engine.lemma_view_wf();
        }
        Ok(report)
    }

    /// Takes in a finding that another client made, unless a finding on the
    /// same bytes is recorded here already.
    pub fn import_finding(&mut self, input: Vec<u8>, reason: crate::outcome::FindingReason) -> (added: bool)
        requires
            old(self).wf(),
        ensures
            final(self).wf(),
            added == !old(self)@.engine.has_finding(input@),
            final(self)@ == (FuzzerView {
                engine: EngineView {
                    solutions: crate::corpus::with_import(
                        old(self)@.engine.solutions,
                        (input@, reason),
                    ),
                    ..old(self)@.engine
                },
                ..old(self)@
            }),
            final(self)@.engine.has_finding(input@),
            final(self)@.engine.extends(old(self)@.engine),
    {
        proof {
            self.engine.lemma_view_wf();
        }
        let added = self.engine.import_finding(input, reason);
        proof {
            self.engine.lemma_view_wf();
        }
        added
    }

    /// Takes back the bytes of a corpus entry that is not in memory.
    pub fn reload(&mut self, index: usize, bytes: Vec<u8>) -> (done: Result<Placement, ReloadError>)
        requires
            old(self).wf(),
        ensures
            final(self).wf(),
            done is Err ==> final(self)@ == old(self)@,
            done is Ok ==> final(self)@ == (FuzzerView {
                engine: EngineView { corpus: final(self)@.engine.corpus, ..old(self)@.engine },
                ..old(self)@
            }),
            final(self)@.engine.corpus.contents == old(self)@.engine.corpus.contents,
            final(self)@.engine.extends(old(self)@.engine),
            index >= old(self)@.engine.corpus.contents.len() ==> done == Err::<
                Placement,
                ReloadError,
            >(ReloadError::UnknownIndex),
            index < old(self)@.engine.corpus.contents.len() && old(self)@.engine.corpus.resident[index as int] is Some ==> done == Ok::<Placement, ReloadError>(
                Placement { index, evicted: None },
            ) && final(self)@ == old(self)@,
            index < old(self)@.engine.corpus.contents.len() && old(self)@.engine.corpus.resident[index as int] is None && !old(self)@.engine.corpus.accepts(
                index as int,
                bytes@,
            ) ==> done == Err::<Placement, ReloadError>(ReloadError::Mismatch),
            index < old(self)@.engine.corpus.contents.len() && old(self)@.engine.corpus.resident[index as int] is None && old(self)@.engine.corpus.accepts(
                index as int,
                bytes@,
            ) ==> done == Ok::<Placement, ReloadError>(
                Placement { index, evicted: old(self)@.engine.corpus.leaver() },
            ) && final(self)@.engine.corpus == old(self)@.engine.corpus.placed(index, bytes@),
    {
        proof {
            self.engine.lemma_view_wf();
        }
        let done = self.engine.reload(index, bytes);
        proof {
            self.engine.lemma_view_wf();
        }
        done
    }
}

impl Fuzzer {
    /// Whether an input is out for execution.
    pub fn in_flight(&self) -> (busy: bool)
        ensures
            busy == (self@.candidate is Some),
    {
        self.candidate.is_some()
    }

    /// The stage of the round in progress, if there is one.
    pub fn stage(&self) -> (stage: Option<Stage>)
        requires
            self.wf(),
        ensures
            self@.round is None ==> stage is None,
            self@.round is Some ==> stage == Some(self@.round->0.stage()),
    {
        match &self.round {
            Some(round) => Some(round.stage()),
            None => None,
        }
    }

    /// Says what is to be done next. While an input is out for execution,
    /// that is to execute it. Else, if no round is in progress, an entry is
    /// picked and a round on it begins; if the bytes of the round's entry
    /// are not in memory they are asked for; if they are, the input of the
    /// present stage is made and handed out.
    ///
    /// The source is drawn from only as far as needed: once to pick the
    /// entry of a new round, then as often as making the input takes.
    pub fn next_action(&mut self, source: &mut RandomSource) -> (action: Action)
        requires
            old(self).wf(),
        ensures
            final(self).wf(),
            final(self)@.engine == old(self)@.engine,
            final(self)@.mutator == old(self)@.mutator,
            final(self)@.tokens == old(self)@.tokens,
            old(self)@.candidate is Some ==> final(source).ahead() == old(source).ahead(),
            old(self)@.candidate is None && !old(self)@.in_round() && old(self)@.engine.entries.len()
                > 0 ==> chosen(
                old(self)@.engine.entries,
                old(source).ahead()[0],
                final(self)@.round->0.entry as int,
            ),
            old(self)@.candidate is None ==> {
                let picks: nat = if old(self)@.in_round() {
                    0
                } else {
                    1
                };
                match action {
                    Action::Idle => final(source).ahead() == left_of(old(source).ahead(), picks),
                    Action::Load { index, name } => final(source).ahead() == left_of(
                        old(source).ahead(),
                        picks,
                    ),
                    Action::Execute { input, tracing } => {
                        let candidate = final(self)@.candidate->0;
                        &&& final(self)@.made_by(candidate, left_of(old(source).ahead(), picks))
                        &&& final(source).ahead() == left_of(
                            old(source).ahead(),
                            picks + final(self)@.takes(candidate),
                        )
                    },
                }
            },
            old(self)@.candidate is Some ==> final(self)@ == old(self)@ && (match action {
                Action::Execute { input, tracing } => input@ == old(self)@.candidate->0.bytes
                    && tracing == (old(self)@.round->0.stage() == Stage::Tracing),
                _ => false,
            }),
            old(self)@.candidate is None && old(self)@.in_round() ==> final(self)@.round == old(self)@.round,
            old(self)@.candidate is None && !old(self)@.in_round() && old(self)@.engine.entries.len()
                == 0 ==> (action is Idle) && final(self)@.round is None,
            old(self)@.candidate is None && !old(self)@.in_round() && old(self)@.engine.entries.len()
                > 0 ==> final(self)@.round is Some && final(self)@.round->0 == old(self)@.fresh_round(
                final(self)@.round->0.entry,
            ),
            old(self)@.candidate is None ==> match action {
                Action::Idle => final(self)@.candidate is None && old(self)@.engine.entries.len()
                    == 0,
                Action::Load { index, name } => {
                    &&& final(self)@.candidate is None
                    &&& final(self)@.in_round()
                    &&& index == final(self)@.round->0.entry
                    &&& final(self)@.parent() is None
                    &&& name@ == final(self)@.engine.corpus.names[index as int]
                },
                Action::Execute { input, tracing } => {
                    &&& final(self)@.candidate is Some
                    &&& final(self)@.candidate->0.bytes == input@
                    &&& final(self)@.in_round()
                    &&& final(self)@.parent() is Some
                    &&& final(self)@.fits(final(self)@.candidate->0)
                    &&& tracing == (final(self)@.round->0.stage() == Stage::Tracing)
                },
            },
    {
        proof {
            self.engine.lemma_view_wf();
        }
        if self.candidate.is_some() {
            let input = self.candidate.as_ref().unwrap().bytes.clone();
            assert(input@ =~= self.candidate->0.bytes@);
            let tracing = self.round.as_ref().unwrap().stage() == Stage::Tracing;
            return Action::Execute { input, tracing };
        }
        let ghost draws = source.ahead();
        let continuing = match &self.round {
            Some(round) => round.stage() != Stage::Done,
            None => false,
        };
        let ghost picks: nat = if continuing {
            0
        } else {
            1
        };
        if !continuing {
            let draw = source.draw();
            match self.engine.select(draw) {
                None => {
                    self.round = None;
                    return Action::Idle;
                },
                Some(entry) => {
                    let score = self.engine.score_of(entry);
                    let round = Round::begin(entry, score);
                    proof {
                        round.lemma_view_wf();
                        crate::power::lemma_power_bound(
                            self.engine@.entries[entry as int].micros as nat,
                            crate::scheduler::average(self.engine@.entries),
                            crate::scheduler::rarest(
                                self.engine@.entries,
                                self.engine@.entries[entry as int].edges,
                            ),
                            self.engine@.entries[entry as int].flaky,
                        );
                    }
                    self.round = Some(round);
                },
            }
        }
        proof {
            self.engine.lemma_view_wf();
        }
        let round = self.round.as_ref().unwrap();
        let entry = round.entry();
        let stage = round.stage();
        assert(source.ahead() == left_of(draws, picks));
        proof {
            lemma_after_adds_up(draws, 1, 1);
            lemma_after_adds_up(draws, 0, 1);
        }
        let parent = match self.engine.corpus().resident(entry) {
            Some(bytes) => bytes,
            None => {
                let name = self.engine.corpus().name(entry);
                return Action::Load { index: entry, name };
            },
        };
        let candidate = match stage {
            Stage::Calibration => {
                let bytes = parent.clone();
                assert(bytes@ =~= parent@);
                Candidate { bytes, used: Vec::new() }
            },
            Stage::Tracing => {
                let bytes = parent.clone();
                assert(bytes@ =~= parent@);
                Candidate { bytes, used: Vec::new() }
            },
            Stage::InputToState => {
                let seed = source.draw();
                Candidate { bytes: input_to_state(parent, round.log(), seed), used: Vec::new() }
            },
            Stage::Power => {
                let mutant = match &self.dictionary {
                    Some(dictionary) => self.mutator.mutate(parent, dictionary, source),
                    None => {
                        let empty = TokenDictionary::new();
                        self.mutator.mutate(parent, &empty, source)
                    },
                };
                proof {
                    lemma_after_adds_up(draws, 1, (2 * mutant.used@.len() + 1) as nat);
                }
                Candidate { bytes: mutant.bytes, used: mutant.used }
            },
            Stage::Done => {
                return Action::Idle;
            },
        };
        let input = candidate.bytes.clone();
        assert(input@ =~= candidate.bytes@);
        self.candidate = Some(candidate);
        Action::Execute { input, tracing: stage == Stage::Tracing }
    }

    /// Takes in what the execution of the input that is out gave: the
    /// counters, the time it took, the way it ended and, for the tracing
    /// run, the comparison log. In every stage the input is filed if its
    /// execution crashed or timed out. A run of calibration or tracing is
    /// noted in the round. A mutant goes through the step of the engine, and
    /// the operators that made it are credited with the verdict.
    pub fn handle(
        &mut self,
        counters: &[u8],
        micros: u64,
        kind: ExitKind,
        log: Vec<LoggedComparison>,
    ) -> (done: Result<Report, HandleError>)
        requires
            old(self).wf(),
        ensures
            final(self).wf(),
            old(self)@.candidate is None ==> done == Err::<Report, HandleError>(
                HandleError::NothingInFlight,
            ) && final(self)@ == old(self)@,
            old(self)@.candidate is Some && counters@.len() != old(self)@.engine.edge_count
                ==> done == Err::<Report, HandleError>(
                HandleError::Config(
                    ConfigError::LengthMismatch {
                        expected: old(self)@.engine.edge_count as usize,
                        found: counters@.len() as usize,
                    },
                ),
            ) && final(self)@ == old(self)@,
            old(self)@.candidate is Some && counters@.len() == old(self)@.engine.edge_count ==> {
                let before = old(self)@;
                let bytes = before.candidate->0.bytes;
                &&& done is Ok
                &&& final(self)@ == before.handled(counters@, micros, kind, log@)
                &&& final(self)@.engine.extends(before.engine)
                &&& done->Ok_0.finding is Some == kind.is_finding()
                &&& kind.is_finding() ==> done->Ok_0.finding == Some(
                    before.engine.solutions.len() as usize,
                ) && final(self)@.engine.has_finding(bytes)
                &&& !kind.is_finding() ==> final(self)@.engine.solutions
                    == before.engine.solutions
                &&& !before.judges() ==> !done->Ok_0.interesting && done->Ok_0.stored is None
                &&& before.judges() ==> {
                    &&& done->Ok_0.interesting == before.engine.finds_interesting(counters@, micros)
                    &&& done->Ok_0.stored is Some == done->Ok_0.interesting
                    &&& crate::feedback::novel(before.engine.seen, counters@)
                        ==> final(self)@.engine.corpus.holds(bytes)
                }
            },
    {
        proof {
            self.engine.lemma_view_wf();
        }
        if self.candidate.is_none() {
            return Err(HandleError::NothingInFlight);
        }
        let observed = match self.observer.observe(counters) {
            Ok(observed) => observed,
            Err(error) => {
                return Err(HandleError::Config(error));
            },
        };
        let ghost before = self@;
        let candidate = self.candidate.take().unwrap();
        let mut round = self.round.take().unwrap();
        let quiet = Report { interesting: false, stored: None, finding: None };
        let report = match round.stage() {
            Stage::Calibration => {
                let finding = self.engine.file_finding(&candidate.bytes, kind);
                round.note_calibration(&observed, micros);
                if round.stage() == Stage::Tracing {
                    let found = round.calibration();
                    self.engine.calibrate(round.entry(), found.0, found.1);
                }
                Report { interesting: false, stored: None, finding }
            },
            Stage::Tracing => {
                let finding = self.engine.file_finding(&candidate.bytes, kind);
                round.note_trace(log);
                Report { interesting: false, stored: None, finding }
            },
            Stage::InputToState => {
                let report = self.engine.process_execution(candidate.bytes, &observed, micros, kind);
                round.note_mutant();
                report
            },
            Stage::Power => {
                let report = self.engine.process_execution(candidate.bytes, &observed, micros, kind);
                self.mutator.reward(&candidate.used, report.interesting);
                round.note_mutant();
                report
            },
            Stage::Done => quiet,
        };
        proof {
            round.lemma_view_wf();
            self.engine.lemma_view_wf();
        }
        self.round = Some(round);
        Ok(report)
    }
}

} // verus!
