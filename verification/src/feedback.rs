//! The feedback oracle: decides whether an execution is interesting, and keeps
//! the all-time record of what has been observed.
//!
//! Two sub-feedbacks are joined by a short-circuiting "or". The map feedback
//! fires when some edge counter exceeds the highest value recorded for that
//! edge. The time feedback fires when the execution was faster than every
//! recorded execution through some edge it covered.

use libafl_bolts::simd::MaxReducer;
use libafl_bolts::simd::Reducer;
use vstd::prelude::*;

verus! {

/// The larger of two counters.
pub open spec fn higher(a: u8, b: u8) -> u8 {
    if a > b {
        a
    } else {
        b
    }
}

/// Whether `observed` exceeds the record `seen` on some edge.
pub open spec fn novel(seen: Seq<u8>, observed: Seq<u8>) -> bool {
    exists|e: int| 0 <= e < seen.len() && e < observed.len() && #[trigger] observed[e] > seen[e]
}

/// Whether an execution that took `micros` beats the recorded time of edge `e`.
pub open spec fn beats(best: Seq<Option<u64>>, e: int, micros: u64) -> bool {
    best[e] is None || micros < best[e]->0
}

/// Whether an execution with coverage `observed` that took `micros` sets a new
/// shortest time on some edge it covered.
pub open spec fn faster(best: Seq<Option<u64>>, observed: Seq<u8>, micros: u64) -> bool {
    exists|e: int|
        0 <= e < best.len() && e < observed.len() && #[trigger] observed[e] > 0 && beats(
            best,
            e,
            micros,
        )
}

/// The record of highest counters after `observed` is taken in.
pub open spec fn merged_seen(seen: Seq<u8>, observed: Seq<u8>) -> Seq<u8> {
    Seq::new(seen.len(), |e: int| if e < observed.len() { higher(seen[e], observed[e]) } else { seen[e] })
}

/// The record of shortest times after an execution is taken in.
pub open spec fn merged_best(best: Seq<Option<u64>>, observed: Seq<u8>, micros: u64) -> Seq<
    Option<u64>,
> {
    Seq::new(
        best.len(),
        |e: int|
            if e < observed.len() && observed[e] > 0 && beats(best, e, micros) {
                Some(micros)
            } else {
                best[e]
            },
    )
}

/// `MaxReducer::reduce` of `libafl_bolts`, the reducer of the maximising map
/// feedback: it hands back the first argument if that is greater, else the
/// second.
#[verifier::external_body]
fn max_reduce(recorded: u8, observed: u8) -> (kept: u8)
    ensures
        kept == higher(recorded, observed),
{
    MaxReducer::reduce(recorded, observed)
}

/// The global feedback state of one client: for every edge the highest
/// counter ever observed, and the shortest time of an execution through it.
/// Only the feedback oracle changes it.
pub struct FeedbackState {
    seen: Vec<u8>,
    best: Vec<Option<u64>>,
}

impl FeedbackState {
    /// The highest counter recorded for each edge; zero where the edge was
    /// never hit.
    pub closed spec fn seen(&self) -> Seq<u8> {
        self.seen@
    }

    /// The shortest recorded execution time for each edge, in microseconds.
    pub closed spec fn best(&self) -> Seq<Option<u64>> {
        self.best@
    }

    /// Both records cover the same edges.
    pub open spec fn wf(&self) -> bool {
        self.seen().len() == self.best().len()
    }

    /// The number of edges the state covers.
    pub open spec fn edge_count(&self) -> nat {
        self.seen().len()
    }

    /// Whether the edge was ever hit by a recorded execution.
    pub open spec fn covered(&self, e: int) -> bool {
        0 <= e < self.seen().len() && self.seen()[e] > 0
    }

    /// The state before any execution: nothing seen, no time recorded.
    pub fn new(edges: usize) -> (state: FeedbackState)
        ensures
            state.wf(),
            state.seen() == Seq::new(edges as nat, |e: int| 0u8),
            state.best() == Seq::new(edges as nat, |e: int| None::<u64>),
    {
        let mut seen: Vec<u8> = Vec::new();
        let mut best: Vec<Option<u64>> = Vec::new();
        let mut e: usize = 0;
        while e < edges
            invariant
                e <= edges,
                seen@ == Seq::new(e as nat, |k: int| 0u8),
                best@ == Seq::new(e as nat, |k: int| None::<u64>),
            decreases edges - e,
        {
            seen.push(0);
            best.push(None);
            e = e + 1;
        }
        FeedbackState { seen, best }
    }

    /// The number of edges the state covers.
    pub fn edges(&self) -> (n: usize)
        ensures
            n == self.edge_count(),
    {
        self.seen.len()
    }

    /// The highest counter recorded for edge `e`.
    pub fn seen_at(&self, e: usize) -> (counter: u8)
        requires
            e < self.edge_count(),
        ensures
            counter == self.seen()[e as int],
    {
        self.seen[e]
    }

    /// The shortest time recorded for edge `e`.
    pub fn best_at(&self, e: usize) -> (micros: Option<u64>)
        requires
            self.wf(),
            e < self.edge_count(),
        ensures
            micros == self.best()[e as int],
    {
        self.best[e]
    }

    /// The map feedback: whether `observed` exceeds the record on some edge.
    pub fn has_novelty(&self, observed: &Vec<u8>) -> (fires: bool)
        requires
            observed.len() == self.edge_count(),
        ensures
            fires == novel(self.seen(), observed@),
    {
        let mut e: usize = 0;
        while e < observed.len()
            invariant
                e <= observed.len(),
                observed.len() == self.seen@.len(),
                forall|k: int| 0 <= k < e ==> !(#[trigger] observed@[k] > self.seen@[k]),
            decreases observed.len() - e,
        {
            let recorded = self.seen[e];
            if max_reduce(recorded, observed[e]) != recorded {
                return true;
            }
            e = e + 1;
        }
        false
    }

    /// The time feedback: whether an execution with coverage `observed` that
    /// took `micros` sets a new shortest time on some edge it covered.
    pub fn has_faster(&self, observed: &Vec<u8>, micros: u64) -> (fires: bool)
        requires
            self.wf(),
            observed.len() == self.edge_count(),
        ensures
            fires == faster(self.best(), observed@, micros),
    {
        let mut e: usize = 0;
        while e < observed.len()
            invariant
                e <= observed.len(),
                observed.len() == self.best@.len(),
                forall|k: int|
                    0 <= k < e ==> !(#[trigger] observed@[k] > 0 && beats(self.best@, k, micros)),
            decreases observed.len() - e,
        {
            if observed[e] > 0 {
                let fires = match self.best[e] {
                    None => true,
                    Some(recorded) => micros < recorded,
                };
                if fires {
                    return true;
                }
            }
            e = e + 1;
        }
        false
    }

    /// Takes an execution into both records.
    fn absorb(&mut self, observed: &Vec<u8>, micros: u64)
        requires
            old(self).wf(),
            observed.len() == old(self).edge_count(),
        ensures
            final(self).wf(),
            final(self).seen() == merged_seen(old(self).seen(), observed@),
            final(self).best() == merged_best(old(self).best(), observed@, micros),
    {
        let ghost seen0 = self.seen@;
        let ghost best0 = self.best@;
        let mut e: usize = 0;
        while e < observed.len()
            invariant
                e <= observed.len(),
                observed.len() == seen0.len(),
                seen0.len() == best0.len(),
                self.seen@.len() == seen0.len(),
                self.best@.len() == best0.len(),
                forall|k: int| 0 <= k < e ==> self.seen@[k] == merged_seen(seen0, observed@)[k],
                forall|k: int| 0 <= k < e ==> self.best@[k] == merged_best(best0, observed@, micros)[k],
                forall|k: int| e <= k < seen0.len() ==> self.seen@[k] == seen0[k],
                forall|k: int| e <= k < best0.len() ==> self.best@[k] == best0[k],
            decreases observed.len() - e,
        {
            let kept = max_reduce(self.seen[e], observed[e]);
            self.seen.set(e, kept);
            if observed[e] > 0 {
                let fires = match self.best[e] {
                    None => true,
                    Some(recorded) => micros < recorded,
                };
                if fires {
                    self.best.set(e, Some(micros));
                }
            }
            e = e + 1;
        }
        assert(self.seen@ =~= merged_seen(seen0, observed@));
        assert(self.best@ =~= merged_best(best0, observed@, micros));
    }

    /// The feedback oracle. Asks the map feedback, and the time feedback only
    /// if the map feedback did not fire. An interesting execution is taken
    /// into the records; any other leaves the state as it was.
    pub fn evaluate(&mut self, observed: &Vec<u8>, micros: u64) -> (interesting: bool)
        requires
            old(self).wf(),
            observed.len() == old(self).edge_count(),
        ensures
            final(self).wf(),
            interesting == (novel(old(self).seen(), observed@) || faster(
                old(self).best(),
                observed@,
                micros,
            )),
            final(self).seen() == merged_seen(old(self).seen(), observed@),
            final(self).best() == merged_best(old(self).best(), observed@, micros),
            !interesting ==> final(self).seen() == old(self).seen() && final(self).best() == old(self).best(),
    {
        let interesting = self.has_novelty(observed) || self.has_faster(observed, micros);
        if interesting {
            self.absorb(observed, micros);
        } else {
            proof {
                lemma_dull_changes_nothing(self.seen@, self.best@, observed@, micros);
            }
        }
        interesting
    }
}

/// An execution that is not interesting would change neither record.
pub proof fn lemma_dull_changes_nothing(
    seen: Seq<u8>,
    best: Seq<Option<u64>>,
    observed: Seq<u8>,
    micros: u64,
)
    requires
        seen.len() == best.len(),
        !novel(seen, observed),
        !faster(best, observed, micros),
    ensures
        merged_seen(seen, observed) == seen,
        merged_best(best, observed, micros) == best,
{
    assert forall|e: int| 0 <= e < seen.len() implies merged_seen(seen, observed)[e] == seen[e] by {
        if e < observed.len() {
            assert(!(observed[e] > seen[e]));
        }
    }
    assert(merged_seen(seen, observed) =~= seen);
    assert forall|e: int| 0 <= e < best.len() implies merged_best(best, observed, micros)[e]
        == best[e] by {
        if e < observed.len() {
            assert(!(observed[e] > 0 && beats(best, e, micros)));
        }
    }
    assert(merged_best(best, observed, micros) =~= best);
}

/// The records only grow: no counter of `seen` ever drops, so coverage once
/// recorded stays recorded.
pub proof fn lemma_seen_never_drops(seen: Seq<u8>, observed: Seq<u8>, e: int)
    requires
        0 <= e < seen.len(),
    ensures
        merged_seen(seen, observed)[e] >= seen[e],
        e < observed.len() ==> merged_seen(seen, observed)[e] >= observed[e],
{
}

/// Once an execution is taken in, the same execution is no longer
/// interesting.
pub proof fn lemma_absorbed_is_dull(
    seen: Seq<u8>,
    best: Seq<Option<u64>>,
    observed: Seq<u8>,
    micros: u64,
)
    requires
        seen.len() == best.len(),
    ensures
        !novel(merged_seen(seen, observed), observed),
        !faster(merged_best(best, observed, micros), observed, micros),
{
    let seen1 = merged_seen(seen, observed);
    let best1 = merged_best(best, observed, micros);
    assert forall|e: int| 0 <= e < seen1.len() && e < observed.len() implies !(
    #[trigger] observed[e] > seen1[e]) by {}
    assert forall|e: int| 0 <= e < best1.len() && e < observed.len() implies !(
    #[trigger] observed[e] > 0 && beats(best1, e, micros)) by {}
}

} // verus!
