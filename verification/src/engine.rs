//! The core of one client: the feedback state, the two stores and the
//! scheduler's records, and the one step that every executed input goes
//! through.
//!
//! An executed input is judged twice, independently. The feedback oracle
//! decides whether it enters the active corpus; the objective oracle decides
//! whether it enters the solution store. An input can enter both.

use crate::corpus::ActiveCorpus;
use crate::corpus::CorpusView;
use crate::corpus::Placement;
use crate::corpus::ReloadError;
use crate::corpus::SolutionStore;
use crate::corpus::StoreError;
use crate::corpus::has_input;
use crate::corpus::lemma_entries_are_kept;
use crate::corpus::with_import;
use crate::feedback::faster;
use crate::feedback::merged_best;
use crate::feedback::merged_seen;
use crate::feedback::novel;
use crate::feedback::FeedbackState;
use crate::outcome::finding_reason;
use crate::outcome::ExitKind;
use crate::outcome::FindingReason;
use crate::scheduler::chosen;
use crate::scheduler::hit_edges;
use crate::scheduler::is_redundant;
use crate::scheduler::score;
use crate::scheduler::EntryView;
use crate::scheduler::Scheduler;
use vstd::prelude::*;

verus! {

/// What became of one executed input.
#[derive(Clone, Copy, Debug, PartialEq, Eq, Structural)]
pub struct Report {
    /// Whether the feedback oracle found the execution interesting.
    pub interesting: bool,
    /// Where the input was placed in the active corpus, if it entered it.
    pub stored: Option<Placement>,
    /// The position of the input in the solution store, if it entered it.
    pub finding: Option<usize>,
}

/// The mathematical content of an engine.
pub ghost struct EngineView {
    /// The number of instrumented edges.
    pub edge_count: nat,
    /// The highest counter recorded for each edge.
    pub seen: Seq<u8>,
    /// The shortest recorded execution time for each edge.
    pub best: Seq<Option<u64>>,
    /// The active corpus.
    pub corpus: CorpusView,
    /// The solution store.
    pub solutions: Seq<(Seq<u8>, FindingReason)>,
    /// What the scheduler has recorded of each corpus entry.
    pub entries: Seq<EntryView>,
}

impl EngineView {
    /// The record the scheduler makes of an input that enters the corpus.
    pub open spec fn entry_for(input: Seq<u8>, observed: Seq<u8>, micros: u64) -> EntryView {
        EntryView { length: input.len(), micros, edges: hit_edges(observed), flaky: false }
    }

    /// The engine after `input` entered the active corpus.
    pub open spec fn kept(self, input: Seq<u8>, observed: Seq<u8>, micros: u64) -> EngineView {
        EngineView {
            corpus: self.corpus.inserted(input),
            entries: self.entries.push(Self::entry_for(input, observed, micros)),
            ..self
        }
    }

    /// The engine after an execution was taken into the feedback state.
    pub open spec fn absorbed(self, observed: Seq<u8>, micros: u64) -> EngineView {
        EngineView {
            seen: merged_seen(self.seen, observed),
            best: merged_best(self.best, observed, micros),
            ..self
        }
    }

    /// The engine after the finding, if `kind` is one, was recorded.
    pub open spec fn filed(self, input: Seq<u8>, kind: ExitKind) -> EngineView {
        if kind.is_finding() {
            EngineView { solutions: self.solutions.push((input, kind.reason()->0)), ..self }
        } else {
            self
        }
    }

    /// Whether an execution is interesting to this engine.
    pub open spec fn finds_interesting(self, observed: Seq<u8>, micros: u64) -> bool {
        novel(self.seen, observed) || faster(self.best, observed, micros)
    }

    /// The engine after an executed mutant went through its step.
    pub open spec fn processed(self, input: Seq<u8>, observed: Seq<u8>, micros: u64, kind: ExitKind) -> EngineView {
        let judged = self.absorbed(observed, micros).filed(input, kind);
        if self.finds_interesting(observed, micros) {
            judged.kept(input, observed, micros)
        } else {
            judged
        }
    }

    /// The engine after an executed seed went through its step. A seed
    /// enters the corpus whatever the feedback oracle says of it.
    pub open spec fn seeded(self, input: Seq<u8>, observed: Seq<u8>, micros: u64, kind: ExitKind) -> EngineView {
        self.absorbed(observed, micros).filed(input, kind).kept(input, observed, micros)
    }

    /// Whether a finding on exactly these bytes is recorded.
    pub open spec fn has_finding(self, input: Seq<u8>) -> bool {
        has_input(self.solutions, input)
    }

    /// Whether `earlier` is a state that this one can have grown from:
    /// every corpus entry and every finding of `earlier` is still there, in
    /// its place, and no recorded counter has dropped.
    pub open spec fn extends(self, earlier: EngineView) -> bool {
        &&& earlier.corpus.contents.len() <= self.corpus.contents.len()
        &&& forall|i: int|
            0 <= i < earlier.corpus.contents.len() ==> #[trigger] self.corpus.contents[i]
                == earlier.corpus.contents[i]
        &&& earlier.solutions.len() <= self.solutions.len()
        &&& forall|i: int|
            0 <= i < earlier.solutions.len() ==> #[trigger] self.solutions[i]
                == earlier.solutions[i]
        &&& earlier.seen.len() == self.seen.len()
        &&& forall|e: int| 0 <= e < earlier.seen.len() ==> #[trigger] self.seen[e] >= earlier.seen[e]
    }
}

/// The core of one client.
pub struct Engine {
    feedback: FeedbackState,
    corpus: ActiveCorpus,
    solutions: SolutionStore,
    scheduler: Scheduler,
}

impl View for Engine {
    type V = EngineView;

    closed spec fn view(&self) -> EngineView {
        EngineView {
            edge_count: self.scheduler@.edge_count,
            seen: self.feedback.seen(),
            best: self.feedback.best(),
            corpus: self.corpus@,
            solutions: self.solutions@,
            entries: self.scheduler@.entries,
        }
    }
}

impl Engine {
    /// The invariant of the engine.
    pub closed spec fn wf(&self) -> bool {
        &&& self.feedback.wf()
        &&& self.corpus.wf()
        &&& self.scheduler.wf()
        &&& self.feedback.edge_count() == self.scheduler@.edge_count
        &&& self.scheduler@.entries.len() == self.corpus@.contents.len()
    }

    /// What a well-formed engine guarantees of its content.
    pub proof fn lemma_view_wf(&self)
        requires
            self.wf(),
        ensures
            self@.corpus.wf(),
            self@.entries.len() == self@.corpus.contents.len(),
            self@.seen.len() == self@.edge_count,
            self@.best.len() == self@.edge_count,
    {
        self.corpus.lemma_view_wf();
    }

    /// An engine for a target with `edges` instrumented edges, whose corpus
    /// keeps up to `capacity` inputs in memory. Nothing is seen, stored or
    /// found yet.
    pub fn new(edges: usize, capacity: usize) -> (made: Result<Engine, StoreError>)
        ensures
            capacity == 0 ==> made is Err && made->Err_0 == StoreError::ZeroCapacity,
            capacity > 0 ==> made is Ok && made->Ok_0.wf() && made->Ok_0@ == (EngineView {
                edge_count: edges as nat,
                seen: Seq::new(edges as nat, |e: int| 0u8),
                best: Seq::new(edges as nat, |e: int| None::<u64>),
                corpus: CorpusView {
                    contents: Seq::empty(),
                    names: Seq::empty(),
                    resident: Seq::empty(),
                    order: Seq::empty(),
                    limit: capacity as nat,
                },
                solutions: Seq::empty(),
                entries: Seq::empty(),
            }),
    {
        match ActiveCorpus::new(capacity) {
            Err(error) => Err(error),
            Ok(corpus) => Ok(
                Engine {
                    feedback: FeedbackState::new(edges),
                    corpus,
                    solutions: SolutionStore::new(),
                    scheduler: Scheduler::new(edges),
                },
            ),
        }
    }

    /// The number of instrumented edges.
    pub fn edges(&self) -> (n: usize)
        requires
            self.wf(),
        ensures
            n == self@.edge_count,
    {
        self.feedback.edges()
    }

    /// The number of entries in the active corpus.
    pub fn corpus_count(&self) -> (n: usize)
        requires
            self.wf(),
        ensures
            n == self@.corpus.contents.len(),
    {
        self.corpus.count()
    }

    /// The number of findings in the solution store.
    pub fn solution_count(&self) -> (n: usize)
        ensures
            n == self@.solutions.len(),
    {
        self.solutions.count()
    }

    /// The active corpus, to read.
    pub fn corpus(&self) -> (corpus: &ActiveCorpus)
        requires
            self.wf(),
        ensures
            corpus.wf(),
            corpus@ == self@.corpus,
    {
        &self.corpus
    }

    /// The solution store, to read.
    pub fn solutions(&self) -> (solutions: &SolutionStore)
        ensures
            solutions@ == self@.solutions,
    {
        &self.solutions
    }

    /// The feedback state, to read.
    pub fn feedback(&self) -> (feedback: &FeedbackState)
        requires
            self.wf(),
        ensures
            feedback.wf(),
            feedback.seen() == self@.seen,
            feedback.best() == self@.best,
    {
        &self.feedback
    }

    /// The step of the objective oracle alone, for the execution of an input
    /// that is in the corpus already: files the input if its execution
    /// crashed or timed out, and changes nothing else.
    pub fn file_finding(&mut self, input: &Vec<u8>, kind: ExitKind) -> (finding: Option<usize>)
        requires
            old(self).wf(),
        ensures
            final(self).wf(),
            final(self)@ == old(self)@.filed(input@, kind),
            kind.is_finding() ==> finding == Some(old(self)@.solutions.len() as usize),
            !kind.is_finding() ==> finding is None,
            kind.is_finding() ==> final(self)@.has_finding(input@),
            final(self)@.extends(old(self)@),
    {
        match finding_reason(kind) {
            Some(reason) => {
                let copy = input.clone();
                assert(copy@ =~= input@);
                let position = self.solutions.record(copy, reason);
                assert(self@.solutions[position as int].0 == input@);
                Some(position)
            },
            None => None,
        }
    }

    /// Enters an input into the active corpus and the scheduler's records.
    fn keep(&mut self, input: Vec<u8>, observed: &Vec<u8>, micros: u64) -> (placement: Placement)
        requires
            old(self).wf(),
            observed.len() == old(self)@.edge_count,
        ensures
            final(self).wf(),
            final(self)@ == old(self)@.kept(input@, observed@, micros),
            placement.index == old(self)@.corpus.contents.len(),
            placement.evicted == old(self)@.corpus.leaver(),
    {
        let length = input.len();
        let placement = self.corpus.insert(input);
        let index = self.scheduler.add(length, micros, observed);
        placement
    }

    /// The step of an executed mutant. The feedback oracle judges the
    /// execution against the feedback state as it stands, and takes it in;
    /// an interesting input enters the active corpus. The objective oracle
    /// judges the way the execution ended; a crash or a timeout enters the
    /// solution store.
    pub fn process_execution(
        &mut self,
        input: Vec<u8>,
        observed: &Vec<u8>,
        micros: u64,
        kind: ExitKind,
    ) -> (report: Report)
        requires
            old(self).wf(),
            observed.len() == old(self)@.edge_count,
        ensures
            final(self).wf(),
            final(self)@ == old(self)@.processed(input@, observed@, micros, kind),
            report.interesting == old(self)@.finds_interesting(observed@, micros),
            report.interesting ==> report.stored == Some(
                Placement {
                    index: old(self)@.corpus.contents.len() as usize,
                    evicted: old(self)@.corpus.leaver(),
                },
            ),
            !report.interesting ==> report.stored is None,
            kind.is_finding() ==> report.finding == Some(old(self)@.solutions.len() as usize),
            !kind.is_finding() ==> report.finding is None,
            novel(old(self)@.seen, observed@) ==> final(self)@.corpus.holds(input@),
            kind.is_finding() ==> final(self)@.has_finding(input@),
            final(self)@.extends(old(self)@),
    {
        let ghost before = self@;
        let interesting = self.feedback.evaluate(observed, micros);
        let finding = self.file_finding(&input, kind);
        let ghost bytes = input@;
        let stored = if interesting {
            Some(self.keep(input, observed, micros))
        } else {
            None
        };
        proof {
            lemma_step_extends(before, bytes, observed@, micros, kind);
        }
        Report { interesting, stored, finding }
    }

    /// The step of an executed seed. It is that of a mutant, except that a
    /// seed enters the active corpus whether or not the feedback oracle
    /// finds it interesting.
    pub fn add_seed(&mut self, input: Vec<u8>, observed: &Vec<u8>, micros: u64, kind: ExitKind) -> (report:
        Report)
        requires
            old(self).wf(),
            observed.len() == old(self)@.edge_count,
        ensures
            final(self).wf(),
            final(self)@ == old(self)@.seeded(input@, observed@, micros, kind),
            report.interesting == old(self)@.finds_interesting(observed@, micros),
            report.stored == Some(
                Placement {
                    index: old(self)@.corpus.contents.len() as usize,
                    evicted: old(self)@.corpus.leaver(),
                },
            ),
            kind.is_finding() ==> report.finding == Some(old(self)@.solutions.len() as usize),
            !kind.is_finding() ==> report.finding is None,
            final(self)@.corpus.holds(input@),
            kind.is_finding() ==> final(self)@.has_finding(input@),
            final(self)@.extends(old(self)@),
    {
        let ghost before = self@;
        let interesting = self.feedback.evaluate(observed, micros);
        let finding = self.file_finding(&input, kind);
        let ghost bytes = input@;
        let stored = Some(self.keep(input, observed, micros));
        proof {
            lemma_step_extends(before, bytes, observed@, micros, kind);
        }
        Report { interesting, stored, finding }
    }

    /// Takes back the bytes of a corpus entry that is not in memory.
    pub fn reload(&mut self, index: usize, bytes: Vec<u8>) -> (done: Result<Placement, ReloadError>)
        requires
            old(self).wf(),
        ensures
            final(self).wf(),
            done is Err ==> final(self)@ == old(self)@,
            done is Ok ==> final(self)@ == (EngineView {
                corpus: final(self)@.corpus,
                ..old(self)@
            }),
            final(self)@.corpus.contents == old(self)@.corpus.contents,
            final(self)@.corpus.names == old(self)@.corpus.names,
            final(self)@.extends(old(self)@),
            index >= old(self)@.corpus.contents.len() ==> done == Err::<Placement, ReloadError>(
                ReloadError::UnknownIndex,
            ),
            index < old(self)@.corpus.contents.len() && old(self)@.corpus.resident[index as int] is Some
                ==> done == Ok::<Placement, ReloadError>(Placement { index, evicted: None })
                && final(self)@ == old(self)@,
            index < old(self)@.corpus.contents.len() && old(self)@.corpus.resident[index as int] is None
                && !old(self)@.corpus.accepts(index as int, bytes@) ==> done == Err::<
                Placement,
                ReloadError,
            >(ReloadError::Mismatch),
            index < old(self)@.corpus.contents.len() && old(self)@.corpus.resident[index as int] is None
                && old(self)@.corpus.accepts(index as int, bytes@) ==> done == Ok::<
                Placement,
                ReloadError,
            >(Placement { index, evicted: old(self)@.corpus.leaver() }) && final(self)@.corpus
                == old(self)@.corpus.placed(index, bytes@),
    {
        self.corpus.reload(index, bytes)
    }

    /// Takes in a finding that another client made, unless a finding on the
    /// same bytes is recorded already.
    pub fn import_finding(&mut self, input: Vec<u8>, reason: FindingReason) -> (added: bool)
        requires
            old(self).wf(),
        ensures
            final(self).wf(),
            added == !old(self)@.has_finding(input@),
            final(self)@ == (EngineView {
                solutions: with_import(old(self)@.solutions, (input@, reason)),
                ..old(self)@
            }),
            final(self)@.has_finding(input@),
            final(self)@.extends(old(self)@),
    {
        let ghost bytes = input@;
        let added = self.solutions.import(input, reason);
        proof {
            if added {
                assert(self@.solutions[old(self)@.solutions.len() as int].0 == bytes);
            }
        }
        added
    }

    /// Picks the corpus entry to work on next; `draw` is the raw draw that
    /// decides. Nothing but cached values changes.
    pub fn select(&mut self, draw: u64) -> (picked: Option<usize>)
        requires
            old(self).wf(),
        ensures
            final(self).wf(),
            final(self)@ == old(self)@,
            old(self)@.entries.len() == 0 ==> picked is None,
            old(self)@.entries.len() > 0 ==> picked is Some && picked->0 < old(self)@.entries.len()
                && chosen(old(self)@.entries, draw, picked->0 as int),
    {
        self.scheduler.select(draw)
    }

    /// The schedule score of corpus entry `index`.
    pub fn score_of(&mut self, index: usize) -> (value: u64)
        requires
            old(self).wf(),
            index < old(self)@.entries.len(),
        ensures
            final(self).wf(),
            final(self)@ == old(self)@,
            value as nat == score(old(self)@.entries, index as int),
    {
        self.scheduler.score_of(index)
    }

    /// Whether corpus entry `index` is marked redundant.
    pub fn is_redundant(&mut self, index: usize) -> (marked: bool)
        requires
            old(self).wf(),
            index < old(self)@.entries.len(),
        ensures
            final(self).wf(),
            final(self)@ == old(self)@,
            marked == is_redundant(old(self)@.entries, index as int),
    {
        self.scheduler.redundant_at(index)
    }

    /// Records what calibration established of corpus entry `index`.
    pub fn calibrate(&mut self, index: usize, micros: u64, flaky: bool)
        requires
            old(self).wf(),
            index < old(self)@.entries.len(),
        ensures
            final(self).wf(),
            final(self)@ == (EngineView {
                entries: old(self)@.entries.update(
                    index as int,
                    EntryView { micros, flaky, ..old(self)@.entries[index as int] },
                ),
                ..old(self)@
            }),
            final(self)@.extends(old(self)@),
    {
        self.scheduler.calibrate(index, micros, flaky);
    }
}

/// Neither step ever loses anything: the corpus entries and the findings
/// that were there are still there, each in its place, and no recorded
/// counter has dropped. An input with novel coverage is in the corpus after
/// its step, and an input whose execution crashed or timed out is in the
/// solution store.
pub proof fn lemma_step_extends(
    before: EngineView,
    input: Seq<u8>,
    observed: Seq<u8>,
    micros: u64,
    kind: ExitKind,
)
    ensures
        before.processed(input, observed, micros, kind).extends(before),
        before.seeded(input, observed, micros, kind).extends(before),
        before.finds_interesting(observed, micros) ==> before.processed(
            input,
            observed,
            micros,
            kind,
        ).corpus.holds(input),
        before.seeded(input, observed, micros, kind).corpus.holds(input),
        kind.is_finding() ==> before.processed(input, observed, micros, kind).has_finding(input)
            && before.seeded(input, observed, micros, kind).has_finding(input),
{
    lemma_entries_are_kept(before.corpus, 0, input);
    let filed = before.absorbed(observed, micros).filed(input, kind);
    if kind.is_finding() {
        assert(filed.solutions[before.solutions.len() as int].0 == input);
    }
    let mutant = before.processed(input, observed, micros, kind);
    let seed = before.seeded(input, observed, micros, kind);
    assert(mutant.solutions == filed.solutions);
    assert(seed.solutions == filed.solutions);
}

} // verus!
