//! The scheduler: keeps what is recorded of every corpus entry, derives each
//! entry's schedule score and redundancy mark from it, and picks the entry to
//! mutate next.
//!
//! Scores and marks are derived values. They are computed afresh only when an
//! entry was added or changed since they were last computed, never on a
//! selection that follows another without such a change.

use crate::minimizer::edge_set;
use crate::minimizer::mark_redundant;
use crate::minimizer::redundant;
use crate::minimizer::traces;
use crate::minimizer::Trace;
use crate::power::power;
use crate::power::power_score;
use crate::minimizer::lemma_some_entry_is_kept;
use crate::power::lemma_power_bound;
use crate::weighted::before;
use crate::weighted::holds;
use crate::weighted::lemma_holds_exists;
use crate::weighted::lemma_holds_unique;
use crate::weighted::lemma_stretch;
use crate::weighted::lemma_target_in_range;
use crate::weighted::lemma_total_bound;
use crate::weighted::pick;
use crate::weighted::sum_of;
use crate::weighted::target_for;
use crate::weighted::target_of;
use crate::weighted::total;
use vstd::prelude::*;

verus! {

/// What is recorded of one corpus entry.
pub ghost struct EntryView {
    /// The length of the input in bytes.
    pub length: nat,
    /// The recorded execution time in microseconds.
    pub micros: u64,
    /// The edges the entry's execution covered, in increasing order.
    pub edges: Seq<usize>,
    /// Whether the entry's coverage was seen to vary between runs.
    pub flaky: bool,
}

/// The edges with a counter above zero in a coverage vector, in increasing
/// order.
pub open spec fn hit_edges(observed: Seq<u8>) -> Seq<usize>
    decreases observed.len(),
{
    if observed.len() == 0 {
        Seq::empty()
    } else if observed.last() > 0 {
        hit_edges(observed.drop_last()).push((observed.len() - 1) as usize)
    } else {
        hit_edges(observed.drop_last())
    }
}

/// Whether a list of edges is strictly increasing.
pub open spec fn increasing(list: Seq<usize>) -> bool {
    forall|k: int, l: int| 0 <= k < l < list.len() ==> list[k] < list[l]
}

/// The recorded times of all entries.
pub open spec fn all_micros(es: Seq<EntryView>) -> Seq<u64> {
    Seq::new(es.len(), |i: int| es[i].micros)
}

/// The average recorded time, rounded down; zero for an empty corpus.
pub open spec fn average(es: Seq<EntryView>) -> nat {
    if es.len() == 0 {
        0
    } else {
        total(all_micros(es)) / es.len()
    }
}

/// The number of entries that cover `edge`.
pub open spec fn sharers(es: Seq<EntryView>, edge: int) -> nat
    decreases es.len(),
{
    if es.len() == 0 {
        0
    } else {
        sharers(es.drop_last(), edge) + if edge_set(es.last().edges).contains(edge) {
            1nat
        } else {
            0nat
        }
    }
}

/// The least number of sharers over the edges in `list`; the number of
/// entries if the list is empty.
pub open spec fn rarest(es: Seq<EntryView>, list: Seq<usize>) -> nat
    decreases list.len(),
{
    if list.len() == 0 {
        es.len()
    } else {
        let rest = rarest(es, list.drop_last());
        let here = sharers(es, list.last() as int);
        if here < rest {
            here
        } else {
            rest
        }
    }
}

/// The schedule score of entry `i`.
pub open spec fn score(es: Seq<EntryView>, i: int) -> nat {
    power(es[i].micros as nat, average(es), rarest(es, es[i].edges), es[i].flaky)
}

/// What the minimizer reads of the entries.
pub open spec fn ranking(es: Seq<EntryView>) -> Seq<Trace> {
    Seq::new(
        es.len(),
        |i: int| Trace { cost: es[i].length * (es[i].micros as nat), edges: edge_set(es[i].edges) },
    )
}

/// Whether entry `i` is marked redundant.
pub open spec fn is_redundant(es: Seq<EntryView>, i: int) -> bool {
    redundant(ranking(es), i)
}

/// The selection weight of every entry: its score, or nothing if it is
/// redundant.
pub open spec fn weights(es: Seq<EntryView>) -> Seq<u64> {
    Seq::new(
        es.len(),
        |i: int|
            if is_redundant(es, i) {
                0u64
            } else {
                score(es, i) as u64
            },
    )
}

/// The weights used when no entry has a positive weight: the entries that
/// are not redundant share the choice evenly.
pub open spec fn even_weights(es: Seq<EntryView>) -> Seq<u64> {
    Seq::new(
        es.len(),
        |i: int|
            if is_redundant(es, i) {
                0u64
            } else {
                1u64
            },
    )
}

/// The weights a selection goes by.
pub open spec fn effective(es: Seq<EntryView>) -> Seq<u64> {
    if total(weights(es)) > 0 {
        weights(es)
    } else {
        even_weights(es)
    }
}

/// Whether the raw draw `draw` selects entry `i`.
pub open spec fn chosen(es: Seq<EntryView>, draw: u64, i: int) -> bool {
    holds(effective(es), i, target_for(total(effective(es)), draw))
}

/// The mathematical content of a scheduler.
pub ghost struct SchedulerView {
    /// The number of instrumented edges.
    pub edge_count: nat,
    /// The entries, by corpus index.
    pub entries: Seq<EntryView>,
}

impl SchedulerView {
    /// What holds of the entries of every scheduler.
    pub open spec fn wf(self) -> bool {
        forall|i: int|
            0 <= i < self.entries.len() ==> {
                &&& increasing((#[trigger] self.entries[i]).edges)
                &&& forall|k: int|
                    0 <= k < self.entries[i].edges.len() ==> (#[trigger] self.entries[i].edges[k])
                        < self.edge_count
            }
    }
}

/// The scheduler's records and the values derived from them.
pub struct Scheduler {
    edge_count: usize,
    lengths: Vec<usize>,
    micros: Vec<u64>,
    edges: Vec<Vec<usize>>,
    flaky: Vec<bool>,
    scores: Vec<u64>,
    marks: Vec<bool>,
    stale: bool,
}

impl View for Scheduler {
    type V = SchedulerView;

    closed spec fn view(&self) -> SchedulerView {
        SchedulerView {
            edge_count: self.edge_count as nat,
            entries: Seq::new(
                self.lengths@.len(),
                |i: int|
                    EntryView {
                        length: self.lengths@[i] as nat,
                        micros: self.micros@[i],
                        edges: self.edges@[i]@,
                        flaky: self.flaky@[i],
                    },
            ),
        }
    }
}

/// The hit edges of a coverage vector are increasing, lie within the vector,
/// and are exactly the edges with a counter above zero.
pub proof fn lemma_hit_edges(observed: Seq<u8>)
    requires
        observed.len() <= usize::MAX,
    ensures
        increasing(hit_edges(observed)),
        forall|k: int|
            0 <= k < hit_edges(observed).len() ==> (#[trigger] hit_edges(observed)[k])
                < observed.len(),
        forall|e: int|
            edge_set(hit_edges(observed)).contains(e) <==> (0 <= e < observed.len() && observed[e]
                > 0),
    decreases observed.len(),
{
    let list = hit_edges(observed);
    if observed.len() > 0 {
        let front = observed.drop_last();
        let shorter = hit_edges(front);
        lemma_hit_edges(front);
        let last = observed.len() - 1;
        assert forall|e: int| edge_set(list).contains(e) <==> (0 <= e < observed.len()
            && observed[e] > 0) by {
            if edge_set(list).contains(e) {
                let k = choose|k: int| 0 <= k < list.len() && #[trigger] list[k] as int == e;
                if k < shorter.len() {
                    assert(shorter[k] as int == e);
                    assert(edge_set(shorter).contains(e));
                    assert(front[e] == observed[e]);
                } else {
                    assert(observed.last() > 0);
                    assert(e == last);
                }
            }
            if 0 <= e < observed.len() && observed[e] > 0 {
                if e == last {
                    assert(list[list.len() - 1] as int == e);
                } else {
                    assert(front[e] == observed[e]);
                    assert(edge_set(shorter).contains(e));
                    let k = choose|k: int| 0 <= k < shorter.len() && #[trigger] shorter[k] as int == e;
                    assert(list[k] as int == e);
                }
            }
        }
    }
}

/// No edge has more sharers than there are entries.
pub proof fn lemma_sharers_bound(es: Seq<EntryView>, edge: int)
    ensures
        sharers(es, edge) <= es.len(),
    decreases es.len(),
{
    if es.len() > 0 {
        lemma_sharers_bound(es.drop_last(), edge);
    }
}

impl Scheduler {
    /// The invariant of the scheduler.
    pub closed spec fn wf(&self) -> bool {
        &&& self.records_wf()
        &&& !self.stale ==> self.fresh()
    }

    /// The part of the invariant that speaks of the records alone.
    closed spec fn records_wf(&self) -> bool {
        &&& self@.wf()
        &&& self.micros@.len() == self.lengths@.len()
        &&& self.edges@.len() == self.lengths@.len()
        &&& self.flaky@.len() == self.lengths@.len()
    }

    /// Whether the derived values are those of the present records.
    closed spec fn fresh(&self) -> bool {
        &&& self.scores@.len() == self.lengths@.len()
        &&& self.marks@.len() == self.lengths@.len()
        &&& forall|i: int|
            0 <= i < self.lengths@.len() ==> (#[trigger] self.scores@[i]) as nat == score(
                self@.entries,
                i,
            )
        &&& forall|i: int|
            0 <= i < self.lengths@.len() ==> (#[trigger] self.marks@[i]) == is_redundant(
                self@.entries,
                i,
            )
    }

    /// A well-formed scheduler has well-formed records.
    pub proof fn lemma_view_wf(&self)
        requires
            self.wf(),
        ensures
            self@.wf(),
    {
    }

    /// A scheduler without entries for a target with `edge_count` edges.
    pub fn new(edge_count: usize) -> (scheduler: Scheduler)
        ensures
            scheduler.wf(),
            scheduler@ == (SchedulerView { edge_count: edge_count as nat, entries: Seq::empty() }),
    {
        let scheduler = Scheduler {
            edge_count,
            lengths: Vec::new(),
            micros: Vec::new(),
            edges: Vec::new(),
            flaky: Vec::new(),
            scores: Vec::new(),
            marks: Vec::new(),
            stale: false,
        };
        assert(scheduler@.entries =~= Seq::<EntryView>::empty());
        scheduler
    }

    /// The number of entries.
    pub fn count(&self) -> (n: usize)
        ensures
            n == self@.entries.len(),
    {
        self.lengths.len()
    }

    /// Records a new entry: the length of its input, the time its execution
    /// took and the coverage it produced. The entry gets the next index.
    pub fn add(&mut self, length: usize, micros: u64, observed: &Vec<u8>) -> (index: usize)
        requires
            old(self).wf(),
            observed.len() == old(self)@.edge_count,
        ensures
            final(self).wf(),
            index == old(self)@.entries.len(),
            final(self)@ == (SchedulerView {
                edge_count: old(self)@.edge_count,
                entries: old(self)@.entries.push(
                    EntryView {
                        length: length as nat,
                        micros,
                        edges: hit_edges(observed@),
                        flaky: false,
                    },
                ),
            }),
    {
        let ghost before = self@;
        let mut list: Vec<usize> = Vec::new();
        let mut e: usize = 0;
        while e < observed.len()
            invariant
                e <= observed.len(),
                list@ == hit_edges(observed@.take(e as int)),
            decreases observed.len() - e,
        {
            proof {
                assert(observed@.take(e as int + 1).drop_last() =~= observed@.take(e as int));
            }
            if observed[e] > 0 {
                list.push(e);
            }
            e = e + 1;
        }
        proof {
            assert(observed@.take(observed.len() as int) =~= observed@);
            lemma_hit_edges(observed@);
        }
        let index = self.lengths.len();
        self.lengths.push(length);
        self.micros.push(micros);
        self.edges.push(list);
        self.flaky.push(false);
        self.stale = true;
        proof {
            let added = EntryView {
                length: length as nat,
                micros,
                edges: hit_edges(observed@),
                flaky: false,
            };
            assert(self@.entries =~= before.entries.push(added));
            assert forall|i: int| 0 <= i < self@.entries.len() implies {
                &&& increasing((#[trigger] self@.entries[i]).edges)
                &&& forall|k: int|
                    0 <= k < self@.entries[i].edges.len() ==> (#[trigger] self@.entries[i].edges[k])
                        < self@.edge_count
            } by {
                if i < index {
                    assert(self@.entries[i] == before.entries[i]);
                }
            }
        }
        index
    }

    /// Replaces what calibration established of entry `index`: its baseline
    /// time, and whether its coverage varied between runs.
    pub fn calibrate(&mut self, index: usize, micros: u64, flaky: bool)
        requires
            old(self).wf(),
            index < old(self)@.entries.len(),
        ensures
            final(self).wf(),
            final(self)@ == (SchedulerView {
                edge_count: old(self)@.edge_count,
                entries: old(self)@.entries.update(
                    index as int,
                    EntryView { micros, flaky, ..old(self)@.entries[index as int] },
                ),
            }),
    {
        let ghost before = self@;
        self.micros.set(index, micros);
        self.flaky.set(index, flaky);
        self.stale = true;
        proof {
            let changed = EntryView { micros, flaky, ..before.entries[index as int] };
            assert(self@.entries =~= before.entries.update(index as int, changed));
            assert forall|i: int| 0 <= i < self@.entries.len() implies {
                &&& increasing((#[trigger] self@.entries[i]).edges)
                &&& forall|k: int|
                    0 <= k < self@.entries[i].edges.len() ==> (#[trigger] self@.entries[i].edges[k])
                        < self@.edge_count
            } by {
                assert(self@.entries[i].edges == before.entries[i].edges);
            }
        }
    }
}

impl Scheduler {
    /// Counts for every edge the entries that cover it.
    fn count_sharers(&self) -> (table: Vec<usize>)
        requires
            self.records_wf(),
        ensures
            table.len() == self.edge_count,
            forall|e: int|
                0 <= e < table.len() ==> (#[trigger] table@[e]) as nat == sharers(self@.entries, e),
    {
        let ghost es = self@.entries;
        let mut table: Vec<usize> = Vec::new();
        let mut e: usize = 0;
        while e < self.edge_count
            invariant
                e <= self.edge_count,
                table.len() == e,
                forall|k: int| 0 <= k < e ==> (#[trigger] table@[k]) == 0,
            decreases self.edge_count - e,
        {
            table.push(0);
            e = e + 1;
        }
        let n = self.lengths.len();
        let mut i: usize = 0;
        assert(es.take(0).len() == 0);
        while i < n
            invariant
                i <= n,
                n == self.lengths@.len(),
                self.records_wf(),
                es == self@.entries,
                table.len() == self.edge_count,
                forall|e: int|
                    0 <= e < table.len() ==> (#[trigger] table@[e]) as nat == sharers(
                        es.take(i as int),
                        e,
                    ),
            decreases n - i,
        {
            let ghost list = es[i as int].edges;
            let ghost upto = es.take(i as int);
            let mut k: usize = 0;
            assert(list == self.edges@[i as int]@);
            while k < self.edges[i].len()
                invariant
                    i < n,
                    n == self.lengths@.len(),
                    self.records_wf(),
                    es == self@.entries,
                    upto == es.take(i as int),
                    list == self.edges@[i as int]@,
                    list == es[i as int].edges,
                    k <= list.len(),
                    table.len() == self.edge_count,
                    forall|e: int|
                        0 <= e < table.len() ==> (#[trigger] table@[e]) as nat == sharers(upto, e)
                            + if edge_set(list.take(k as int)).contains(e) {
                            1nat
                        } else {
                            0nat
                        },
                decreases list.len() - k,
            {
                let edge = self.edges[i][k];
                proof {
                    let shorter = list.take(k as int);
                    let longer = list.take(k as int + 1);
                    assert(list[k as int] == edge);
                    assert(edge < self@.edge_count);
                    if edge_set(shorter).contains(edge as int) {
                        let l = choose|l: int| 0 <= l < shorter.len() && #[trigger] shorter[l] as int == edge as int;
                        assert(list[l] < list[k as int]);
                    }
                    lemma_sharers_bound(upto, edge as int);
                    assert forall|e: int| 0 <= e < table.len() implies edge_set(longer).contains(e) == (
                    edge_set(shorter).contains(e) || e == edge as int) by {
                        if edge_set(shorter).contains(e) {
                            let l = choose|l: int| 0 <= l < shorter.len() && #[trigger] shorter[l] as int == e;
                            assert(longer[l] as int == e);
                        }
                        if e == edge as int {
                            assert(longer[k as int] as int == e);
                        }
                        if edge_set(longer).contains(e) && e != edge as int {
                            let l = choose|l: int| 0 <= l < longer.len() && #[trigger] longer[l] as int == e;
                            assert(shorter[l] as int == e);
                        }
                    }
                }
                let counted = table[edge];
                table.set(edge, counted + 1);
                k = k + 1;
            }
            proof {
                assert(list.take(list.len() as int) =~= list);
                assert(es.take(i as int + 1).drop_last() =~= upto);
                assert(es.take(i as int + 1).last() == es[i as int]);
            }
            i = i + 1;
        }
        assert(es.take(n as int) =~= es);
        table
    }

    /// The least number of sharers over the edges of entry `i`.
    fn rarest_of(&self, table: &Vec<usize>, i: usize) -> (least: usize)
        requires
            self.records_wf(),
            i < self@.entries.len(),
            table.len() == self.edge_count,
            forall|e: int|
                0 <= e < table.len() ==> (#[trigger] table@[e]) as nat == sharers(self@.entries, e),
        ensures
            least as nat == rarest(self@.entries, self@.entries[i as int].edges),
    {
        let ghost es = self@.entries;
        let ghost list = es[i as int].edges;
        let mut least: usize = self.lengths.len();
        let mut k: usize = 0;
        assert(list == self.edges@[i as int]@);
        assert(list.take(0).len() == 0);
        while k < self.edges[i].len()
            invariant
                self.records_wf(),
                i < es.len(),
                es == self@.entries,
                list == self.edges@[i as int]@,
                list == es[i as int].edges,
                k <= list.len(),
                table.len() == self.edge_count,
                forall|e: int|
                    0 <= e < table.len() ==> (#[trigger] table@[e]) as nat == sharers(es, e),
                least as nat == rarest(es, list.take(k as int)),
            decreases list.len() - k,
        {
            let edge = self.edges[i][k];
            proof {
                assert(list[k as int] == edge);
                assert(edge < self@.edge_count);
                assert(list.take(k as int + 1).drop_last() =~= list.take(k as int));
                assert(list.take(k as int + 1).last() == edge);
            }
            if table[edge] < least {
                least = table[edge];
            }
            k = k + 1;
        }
        assert(list.take(list.len() as int) =~= list);
        least
    }

    /// Brings the derived values up to date with the records.
    fn refresh(&mut self)
        requires
            old(self).wf(),
        ensures
            final(self).wf(),
            final(self).fresh(),
            !final(self).stale,
            final(self)@ == old(self)@,
    {
        if !self.stale {
            return;
        }
        let ghost es = self@.entries;
        let n = self.lengths.len();
        let table = self.count_sharers();
        let sum = sum_of(&self.micros);
        assert(all_micros(es) =~= self.micros@);
        let mean: u64 = if n == 0 {
            0
        } else {
            proof {
                lemma_total_bound(self.micros@);
                assert(total(self.micros@) / (n as nat) <= u64::MAX as nat) by (nonlinear_arith)
                    requires
                        total(self.micros@) <= (n as nat) * (u64::MAX as nat),
                        n > 0,
                ;
            }
            (sum / (n as u128)) as u64
        };
        let mut scores: Vec<u64> = Vec::new();
        let mut costs: Vec<u128> = Vec::new();
        let mut i: usize = 0;
        while i < n
            invariant
                i <= n,
                n == self.lengths@.len(),
                self.records_wf(),
                es == self@.entries,
                mean as nat == average(es),
                table.len() == self.edge_count,
                forall|e: int|
                    0 <= e < table.len() ==> (#[trigger] table@[e]) as nat == sharers(es, e),
                scores.len() == i,
                costs.len() == i,
                forall|k: int| 0 <= k < i ==> (#[trigger] scores@[k]) as nat == score(es, k),
                forall|k: int|
                    0 <= k < i ==> (#[trigger] costs@[k]) as nat == es[k].length * (
                    es[k].micros as nat),
            decreases n - i,
        {
            let least = self.rarest_of(&table, i);
            scores.push(power_score(self.micros[i], mean, least, self.flaky[i]));
            let length = self.lengths[i] as u128;
            let time = self.micros[i] as u128;
            assert(length * time <= u128::MAX) by (nonlinear_arith)
                requires
                    length <= u64::MAX,
                    time <= u64::MAX,
            ;
            costs.push(length * time);
            i = i + 1;
        }
        proof {
            assert forall|i: int, k: int|
                0 <= i < self.edges.len() && 0 <= k < self.edges@[i].len() implies (
            #[trigger] self.edges@[i]@[k]) < self.edge_count by {
                assert(es[i].edges == self.edges@[i]@);
                assert(es[i].edges[k] < self@.edge_count);
            }
        }
        let marks = mark_redundant(&costs, &self.edges, self.edge_count);
        proof {
            assert(traces(costs@, self.edges@) =~= ranking(es));
        }
        self.scores = scores;
        self.marks = marks;
        self.stale = false;
    }

    /// The schedule score of entry `index`.
    pub fn score_of(&mut self, index: usize) -> (value: u64)
        requires
            old(self).wf(),
            index < old(self)@.entries.len(),
        ensures
            final(self).wf(),
            final(self)@ == old(self)@,
            value as nat == score(old(self)@.entries, index as int),
    {
        self.refresh();
        self.scores[index]
    }

    /// Whether entry `index` is marked redundant.
    pub fn redundant_at(&mut self, index: usize) -> (marked: bool)
        requires
            old(self).wf(),
            index < old(self)@.entries.len(),
        ensures
            final(self).wf(),
            final(self)@ == old(self)@,
            marked == is_redundant(old(self)@.entries, index as int),
    {
        self.refresh();
        self.marks[index]
    }
}

impl Scheduler {
    /// Picks the entry to mutate next. The choice is weighted by score among
    /// the entries that are not redundant; `draw` is the raw random draw that
    /// decides it. What is recorded of the entries does not change.
    pub fn select(&mut self, draw: u64) -> (picked: Option<usize>)
        requires
            old(self).wf(),
        ensures
            final(self).wf(),
            final(self)@ == old(self)@,
            old(self)@.entries.len() == 0 ==> picked is None,
            old(self)@.entries.len() > 0 ==> picked is Some && chosen(
                old(self)@.entries,
                draw,
                picked->0 as int,
            ),
    {
        self.refresh();
        let ghost es = self@.entries;
        let n = self.lengths.len();
        if n == 0 {
            return None;
        }
        let mut by_score: Vec<u64> = Vec::new();
        let mut evenly: Vec<u64> = Vec::new();
        let mut i: usize = 0;
        while i < n
            invariant
                i <= n,
                n == self.lengths@.len(),
                self.wf(),
                self.fresh(),
                es == self@.entries,
                by_score.len() == i,
                evenly.len() == i,
                forall|k: int| 0 <= k < i ==> (#[trigger] by_score@[k]) == weights(es)[k],
                forall|k: int| 0 <= k < i ==> (#[trigger] evenly@[k]) == even_weights(es)[k],
            decreases n - i,
        {
            proof {
                lemma_power_bound(
                    es[i as int].micros as nat,
                    average(es),
                    rarest(es, es[i as int].edges),
                    es[i as int].flaky,
                );
            }
            if self.marks[i] {
                by_score.push(0);
                evenly.push(0);
            } else {
                by_score.push(self.scores[i]);
                evenly.push(1);
            }
            i = i + 1;
        }
        assert(by_score@ =~= weights(es));
        assert(evenly@ =~= even_weights(es));
        let sum = sum_of(&by_score);
        if sum > 0 {
            let target = target_of(sum, draw);
            Some(pick(&by_score, target))
        } else {
            proof {
                lemma_even_weights_positive(es);
            }
            let even_sum = sum_of(&evenly);
            let target = target_of(even_sum, draw);
            Some(pick(&evenly, target))
        }
    }
}

/// An item with a positive weight makes the total positive.
proof fn lemma_positive_item(w: Seq<u64>, i: int)
    requires
        0 <= i < w.len(),
        w[i] > 0,
    ensures
        total(w) > 0,
{
    lemma_stretch(w, i, 0);
}

/// A corpus that is not empty has a positive even total: some entry is kept.
proof fn lemma_even_weights_positive(es: Seq<EntryView>)
    requires
        es.len() > 0,
    ensures
        total(even_weights(es)) > 0,
        total(effective(es)) > 0,
{
    let kept = lemma_some_entry_is_kept(ranking(es));
    assert(even_weights(es)[kept] == 1);
    lemma_positive_item(even_weights(es), kept);
}

/// Selection is a proper distribution over the entries that are not
/// redundant. Every raw draw selects exactly one entry, and that entry is
/// not redundant.
pub proof fn lemma_selection_is_total_and_unique(es: Seq<EntryView>, draw: u64) -> (i: int)
    requires
        es.len() > 0,
    ensures
        chosen(es, draw, i),
        !is_redundant(es, i),
        forall|j: int| chosen(es, draw, j) ==> j == i,
{
    let w = effective(es);
    lemma_even_weights_positive(es);
    let target = target_for(total(w), draw);
    lemma_target_in_range(total(w), draw);
    let i = lemma_holds_exists(w, target);
    assert forall|j: int| chosen(es, draw, j) implies j == i by {
        lemma_holds_unique(w, i, j, target);
    }
    assert(w[i] > 0);
    i
}

/// The share of each entry is its weight: of the `total` targets a draw can
/// stand for, entry `i` is selected by the `effective(es)[i]` targets that
/// follow the shares of the entries before it, and by no other. A redundant
/// entry has no share, so the shares of the other entries add up to the
/// whole.
pub proof fn lemma_share_is_weight(es: Seq<EntryView>, i: int, target: nat)
    requires
        0 <= i < es.len(),
    ensures
        holds(effective(es), i, target) <==> before(effective(es), i) <= target < before(
            effective(es),
            i,
        ) + effective(es)[i],
        before(effective(es), i) + effective(es)[i] <= total(effective(es)),
        is_redundant(es, i) ==> effective(es)[i] == 0,
{
    let w = effective(es);
    if w[i] > 0 {
        lemma_stretch(w, i, (w[i] - 1) as nat);
    } else {
        crate::weighted::lemma_before_monotone(w, i, w.len() as int);
        crate::weighted::lemma_before_all(w);
    }
}

/// The shares add up to the whole: all the weight that a selection goes by
/// lies on entries that are not redundant, and for a corpus that is not
/// empty it is more than nothing. So the shares of those entries, each its
/// weight out of the total, add up to one.
pub proof fn lemma_shares_sum_to_the_whole(es: Seq<EntryView>)
    ensures
        total(
            Seq::new(
                es.len(),
                |i: int|
                    if is_redundant(es, i) {
                        0u64
                    } else {
                        effective(es)[i]
                    },
            ),
        ) == total(effective(es)),
        es.len() > 0 ==> total(effective(es)) > 0,
{
    let kept_only = Seq::new(
        es.len(),
        |i: int|
            if is_redundant(es, i) {
                0u64
            } else {
                effective(es)[i]
            },
    );
    assert(kept_only =~= effective(es));
    if es.len() > 0 {
        lemma_even_weights_positive(es);
    }
}

/// An entry with score zero is never selected while some entry that is not
/// redundant has a positive score.
pub proof fn lemma_zero_score_never_selected(es: Seq<EntryView>, draw: u64, i: int, j: int)
    requires
        chosen(es, draw, i),
        0 <= j < es.len(),
        !is_redundant(es, j),
        score(es, j) > 0,
    ensures
        score(es, i) > 0,
        !is_redundant(es, i),
{
    lemma_power_bound(
        es[j].micros as nat,
        average(es),
        rarest(es, es[j].edges),
        es[j].flaky,
    );
    assert(weights(es)[j] > 0);
    lemma_positive_item(weights(es), j);
    assert(effective(es) == weights(es));
    assert(weights(es)[i] > 0);
}

} // verus!
