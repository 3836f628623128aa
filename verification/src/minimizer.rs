//! The corpus minimizer: marks the entries whose coverage is subsumed by
//! entries that rank above them.
//!
//! Entries are ranked by cost, the product of input length and execution
//! time; of two entries with the same cost the one inserted first ranks
//! higher. An entry is redundant when some entry ranks above it and every
//! edge it covers is covered by an entry that ranks above it. Redundant
//! entries are only marked, never removed.

use vstd::prelude::*;

verus! {

/// What the minimizer reads of one entry.
pub ghost struct Trace {
    /// Input length times execution time: the lower, the better.
    pub cost: nat,
    /// The edges the entry covers.
    pub edges: Set<int>,
}

/// The set of edges in a list of edge indices.
pub open spec fn edge_set(list: Seq<usize>) -> Set<int> {
    Set::new(|e: int| exists|k: int| 0 <= k < list.len() && #[trigger] list[k] as int == e)
}

/// The traces of entries given by their costs and edge lists.
pub open spec fn traces(costs: Seq<u128>, edges: Seq<Vec<usize>>) -> Seq<Trace> {
    Seq::new(costs.len(), |i: int| Trace { cost: costs[i] as nat, edges: edge_set(edges[i]@) })
}

/// Whether entry `j` ranks above entry `i`.
pub open spec fn outranks(ts: Seq<Trace>, j: int, i: int) -> bool {
    &&& 0 <= j < ts.len()
    &&& 0 <= i < ts.len()
    &&& (ts[j].cost < ts[i].cost || (ts[j].cost == ts[i].cost && j < i))
}

/// Whether some entry that ranks above `i` covers `edge`.
pub open spec fn covered_by_better(ts: Seq<Trace>, i: int, edge: int) -> bool {
    exists|j: int| #[trigger] outranks(ts, j, i) && ts[j].edges.contains(edge)
}

/// Whether some entry ranks above `i`.
pub open spec fn is_outranked(ts: Seq<Trace>, i: int) -> bool {
    exists|j: int| #[trigger] outranks(ts, j, i)
}

/// Whether entry `i` is redundant.
pub open spec fn redundant(ts: Seq<Trace>, i: int) -> bool {
    &&& is_outranked(ts, i)
    &&& forall|edge: int| #[trigger] ts[i].edges.contains(edge) ==> covered_by_better(ts, i, edge)
}

/// Whether some entry covers `edge`.
pub open spec fn reached(ts: Seq<Trace>, edge: int) -> bool {
    exists|i: int| 0 <= i < ts.len() && #[trigger] ts[i].edges.contains(edge)
}

/// Whether some entry that is not redundant covers `edge`.
pub open spec fn reached_by_kept(ts: Seq<Trace>, edge: int) -> bool {
    exists|i: int| 0 <= i < ts.len() && !redundant(ts, i) && #[trigger] ts[i].edges.contains(edge)
}

/// Every edge of entry `i` is covered by an entry that is not redundant and
/// that is `i` itself or ranks above it.
pub proof fn lemma_edge_is_kept(ts: Seq<Trace>, i: int, edge: int) -> (k: int)
    requires
        0 <= i < ts.len(),
        ts[i].edges.contains(edge),
    ensures
        0 <= k < ts.len(),
        !redundant(ts, k),
        ts[k].edges.contains(edge),
        k == i || outranks(ts, k, i),
    decreases ts[i].cost, i,
{
    if !redundant(ts, i) {
        i
    } else {
        assert(covered_by_better(ts, i, edge));
        let j = choose|j: int| #[trigger] outranks(ts, j, i) && ts[j].edges.contains(edge);
        lemma_edge_is_kept(ts, j, edge)
    }
}

/// Minimization is sound: leaving out every redundant entry loses no edge.
/// The entries that are not redundant reach exactly the edges that the whole
/// corpus reaches.
pub proof fn lemma_minimization_sound(ts: Seq<Trace>, edge: int)
    ensures
        reached(ts, edge) == reached_by_kept(ts, edge),
{
    if reached(ts, edge) {
        let i = choose|i: int| 0 <= i < ts.len() && #[trigger] ts[i].edges.contains(edge);
        let k = lemma_edge_is_kept(ts, i, edge);
    }
    if reached_by_kept(ts, edge) {
        let i = choose|i: int|
            0 <= i < ts.len() && !redundant(ts, i) && #[trigger] ts[i].edges.contains(edge);
        assert(ts[i].edges.contains(edge));
    }
}

/// Leaving out one redundant entry loses no edge either: whatever the corpus
/// reaches is reached by an entry that is not redundant, and so by another
/// entry than the one left out.
pub proof fn lemma_removal_is_harmless(ts: Seq<Trace>, removed: int, edge: int) -> (keeper: int)
    requires
        0 <= removed < ts.len(),
        redundant(ts, removed),
        reached(ts, edge),
    ensures
        0 <= keeper < ts.len(),
        keeper != removed,
        !redundant(ts, keeper),
        ts[keeper].edges.contains(edge),
{
    let i = choose|i: int| 0 <= i < ts.len() && #[trigger] ts[i].edges.contains(edge);
    lemma_edge_is_kept(ts, i, edge)
}

/// The entry `i`, or one that ranks above it, is outranked by nobody.
pub proof fn lemma_top_exists(ts: Seq<Trace>, i: int) -> (top: int)
    requires
        0 <= i < ts.len(),
    ensures
        0 <= top < ts.len(),
        !is_outranked(ts, top),
    decreases ts[i].cost, i,
{
    if !is_outranked(ts, i) {
        i
    } else {
        let j = choose|j: int| #[trigger] outranks(ts, j, i);
        lemma_top_exists(ts, j)
    }
}

/// A corpus that is not empty always keeps an entry.
pub proof fn lemma_some_entry_is_kept(ts: Seq<Trace>) -> (kept: int)
    requires
        ts.len() > 0,
    ensures
        0 <= kept < ts.len(),
        !redundant(ts, kept),
{
    lemma_top_exists(ts, 0)
}

/// The number of entries not yet ranked.
spec fn pending(done: Seq<bool>) -> nat
    decreases done.len(),
{
    if done.len() == 0 {
        0
    } else {
        pending(done.drop_last()) + if done.last() {
            0nat
        } else {
            1nat
        }
    }
}

/// Ranking one more entry leaves fewer to rank.
proof fn lemma_pending_drops(done: Seq<bool>, i: int)
    requires
        0 <= i < done.len(),
        !done[i],
    ensures
        pending(done.update(i, true)) < pending(done),
    decreases done.len(),
{
    let after = done.update(i, true);
    if i == done.len() - 1 {
        assert(after.drop_last() =~= done.drop_last());
    } else {
        assert(after.drop_last() =~= done.drop_last().update(i, true));
        lemma_pending_drops(done.drop_last(), i);
    }
}

/// Finds the entry that ranks highest among those not yet ranked.
fn best_pending(costs: &Vec<u128>, edges: &Vec<Vec<usize>>, done: &Vec<bool>) -> (best: Option<
    usize,
>)
    requires
        costs.len() == edges.len(),
        done.len() == costs.len(),
    ensures
        best is None ==> forall|i: int| 0 <= i < done.len() ==> done@[i],
        best is Some ==> {
            let b = best->0 as int;
            &&& 0 <= b < done.len()
            &&& !done@[b]
            &&& forall|i: int|
                0 <= i < done.len() && !done@[i] && i != b ==> #[trigger] outranks(
                    traces(costs@, edges@),
                    b,
                    i,
                )
        },
{
    let ghost ts = traces(costs@, edges@);
    let mut best: Option<usize> = None;
    let mut i: usize = 0;
    while i < costs.len()
        invariant
            i <= costs.len(),
            costs.len() == edges.len(),
            done.len() == costs.len(),
            ts == traces(costs@, edges@),
            best is None ==> forall|k: int| 0 <= k < i ==> done@[k],
            best is Some ==> {
                let b = best->0 as int;
                &&& 0 <= b < i
                &&& !done@[b]
                &&& forall|k: int|
                    0 <= k < i && !done@[k] && k != b ==> #[trigger] outranks(ts, b, k)
            },
        decreases costs.len() - i,
    {
        proof {
            assert(ts.len() == costs.len());
            assert(ts[i as int].cost == costs@[i as int] as nat);
            if best is Some {
                assert(ts[best->0 as int].cost == costs@[best->0 as int] as nat);
            }
        }
        if !done[i] {
            match best {
                None => {
                    best = Some(i);
                },
                Some(b) => {
                    if costs[i] < costs[b] {
                        proof {
                            assert forall|k: int|
                                0 <= k < i + 1 && !done@[k] && k != i as int implies #[trigger] outranks(
                                ts,
                                i as int,
                                k,
                            ) by {
                                if k != b as int {
                                    assert(outranks(ts, b as int, k));
                                }
                            }
                        }
                        best = Some(i);
                    } else {
                        assert(outranks(ts, b as int, i as int));
                    }
                },
            }
        }
        i = i + 1;
    }
    best
}

/// Whether every edge in `list` is marked in `covered`.
fn all_covered(list: &Vec<usize>, covered: &Vec<bool>) -> (all: bool)
    requires
        forall|k: int| 0 <= k < list.len() ==> (#[trigger] list@[k]) < covered.len(),
    ensures
        all == forall|k: int| 0 <= k < list.len() ==> covered@[(#[trigger] list@[k]) as int],
{
    let mut k: usize = 0;
    while k < list.len()
        invariant
            k <= list.len(),
            forall|l: int| 0 <= l < list.len() ==> (#[trigger] list@[l]) < covered.len(),
            forall|l: int| 0 <= l < k ==> covered@[(#[trigger] list@[l]) as int],
        decreases list.len() - k,
    {
        if !covered[list[k]] {
            return false;
        }
        k = k + 1;
    }
    true
}

/// Marks every edge in `list` in `covered`.
fn cover(list: &Vec<usize>, covered: &mut Vec<bool>)
    requires
        forall|k: int| 0 <= k < list.len() ==> (#[trigger] list@[k]) < old(covered).len(),
    ensures
        final(covered).len() == old(covered).len(),
        forall|e: int|
            0 <= e < old(covered).len() ==> (#[trigger] final(covered)@[e]) == (old(covered)@[e]
                || edge_set(list@).contains(e)),
{
    let ghost before = covered@;
    let mut k: usize = 0;
    while k < list.len()
        invariant
            k <= list.len(),
            covered.len() == before.len(),
            forall|l: int| 0 <= l < list.len() ==> (#[trigger] list@[l]) < covered.len(),
            forall|e: int|
                0 <= e < before.len() ==> (#[trigger] covered@[e]) == (before[e] || edge_set(
                    list@.take(k as int),
                ).contains(e)),
        decreases list.len() - k,
    {
        let edge = list[k];
        covered.set(edge, true);
        proof {
            let shorter = list@.take(k as int);
            let longer = list@.take(k as int + 1);
            assert forall|e: int| 0 <= e < before.len() implies (#[trigger] covered@[e]) == (
            before[e] || edge_set(longer).contains(e)) by {
                if edge_set(shorter).contains(e) {
                    let l = choose|l: int| 0 <= l < shorter.len() && #[trigger] shorter[l] as int == e;
                    assert(longer[l] as int == e);
                }
                if e == edge as int {
                    assert(longer[k as int] as int == e);
                }
                if edge_set(longer).contains(e) && e != edge as int {
                    let l = choose|l: int| 0 <= l < longer.len() && #[trigger] longer[l] as int == e;
                    assert(shorter[l] as int == e);
                }
            }
        }
        k = k + 1;
    }
    assert(list@.take(list.len() as int) =~= list@);
}

/// Computes the redundancy mark of every entry.
pub fn mark_redundant(costs: &Vec<u128>, edges: &Vec<Vec<usize>>, edge_count: usize) -> (marks:
    Vec<bool>)
    requires
        costs.len() == edges.len(),
        forall|i: int, k: int|
            0 <= i < edges.len() && 0 <= k < edges@[i].len() ==> (#[trigger] edges@[i]@[k])
                < edge_count,
    ensures
        marks.len() == costs.len(),
        forall|i: int|
            0 <= i < marks.len() ==> (#[trigger] marks@[i]) == redundant(
                traces(costs@, edges@),
                i,
            ),
{
    let ghost ts = traces(costs@, edges@);
    let n = costs.len();
    let mut marks: Vec<bool> = Vec::new();
    let mut done: Vec<bool> = Vec::new();
    let mut i: usize = 0;
    while i < n
        invariant
            i <= n,
            marks.len() == i,
            done.len() == i,
            forall|k: int| 0 <= k < i ==> !done@[k],
        decreases n - i,
    {
        marks.push(false);
        done.push(false);
        i = i + 1;
    }
    let mut covered: Vec<bool> = Vec::new();
    let mut e: usize = 0;
    while e < edge_count
        invariant
            e <= edge_count,
            covered.len() == e,
            forall|k: int| 0 <= k < e ==> !covered@[k],
        decreases edge_count - e,
    {
        covered.push(false);
        e = e + 1;
    }
    let mut any_done = false;
    loop
        invariant
            n == costs.len(),
            costs.len() == edges.len(),
            marks.len() == n,
            done.len() == n,
            covered.len() == edge_count,
            ts == traces(costs@, edges@),
            forall|i: int, k: int|
                0 <= i < edges.len() && 0 <= k < edges@[i].len() ==> (#[trigger] edges@[i]@[k])
                    < edge_count,
            any_done == exists|j: int| 0 <= j < n && #[trigger] done@[j],
            forall|j: int, i: int|
                0 <= j < n && 0 <= i < n && done@[j] && !done@[i] ==> #[trigger] outranks(ts, j, i),
            forall|e: int|
                0 <= e < edge_count ==> (#[trigger] covered@[e]) == exists|j: int|
                    0 <= j < n && #[trigger] done@[j] && ts[j].edges.contains(e),
            forall|j: int| 0 <= j < n && done@[j] ==> (#[trigger] marks@[j]) == redundant(ts, j),
        ensures
            marks.len() == n,
            forall|j: int| 0 <= j < n ==> done@[j],
            forall|j: int| 0 <= j < n && done@[j] ==> (#[trigger] marks@[j]) == redundant(ts, j),
        decreases pending(done@),
    {
        let found = best_pending(costs, edges, &done);
        if found.is_none() {
            break;
        }
        let b = found.unwrap();
        let ghost done0 = done@;
        let ghost covered0 = covered@;
        assert(forall|k: int| 0 <= k < edges@[b as int].len() ==> (#[trigger] edges@[b as int]@[k]) < covered.len());
        let subsumed = any_done && all_covered(&edges[b], &covered);
        proof {
            // The entries ranked so far are exactly those that rank above `b`.
            assert forall|j: int| #[trigger] outranks(ts, j, b as int) implies done0[j] by {
                if !done0[j] {
                    assert(outranks(ts, b as int, j));
                }
            }
            if any_done {
                let j = choose|j: int| 0 <= j < n && #[trigger] done0[j];
                assert(outranks(ts, j, b as int));
            }
            assert(any_done == is_outranked(ts, b as int));
            let list = edges@[b as int]@;
            assert forall|edge: int| #[trigger] ts[b as int].edges.contains(edge) implies (
            covered_by_better(ts, b as int, edge) == covered0[edge]) by {
                let k = choose|k: int| 0 <= k < list.len() && #[trigger] list[k] as int == edge;
                assert(0 <= edge < edge_count);
                if covered0[edge] {
                    let j = choose|j: int| 0 <= j < n && #[trigger] done0[j] && ts[j].edges.contains(edge);
                    assert(outranks(ts, j, b as int));
                }
                if covered_by_better(ts, b as int, edge) {
                    let j = choose|j: int| #[trigger] outranks(ts, j, b as int) && ts[j].edges.contains(edge);
                    assert(done0[j]);
                }
            }
            if any_done {
                if all_of(list, covered0) {
                    assert forall|edge: int| #[trigger] ts[b as int].edges.contains(edge) implies covered_by_better(ts, b as int, edge) by {
                        let k = choose|k: int| 0 <= k < list.len() && #[trigger] list[k] as int == edge;
                        assert(covered0[list[k] as int]);
                    }
                } else {
                    let k = choose|k: int| 0 <= k < list.len() && !covered0[(#[trigger] list[k]) as int];
                    assert(ts[b as int].edges.contains(list[k] as int));
                }
            }
            assert(subsumed == redundant(ts, b as int));
        }
        marks.set(b, subsumed);
        cover(&edges[b], &mut covered);
        done.set(b, true);
        any_done = true;
        proof {
            lemma_pending_drops(done0, b as int);
            assert(done@[b as int]);
            assert forall|e: int| 0 <= e < edge_count implies (#[trigger] covered@[e]) == exists|j: int|
                0 <= j < n && #[trigger] done@[j] && ts[j].edges.contains(e) by {
                if covered@[e] {
                    if covered0[e] {
                        let j = choose|j: int| 0 <= j < n && #[trigger] done0[j] && ts[j].edges.contains(e);
                        assert(done@[j]);
                    } else {
                        assert(done@[b as int] && ts[b as int].edges.contains(e));
                    }
                }
                if exists|j: int| 0 <= j < n && #[trigger] done@[j] && ts[j].edges.contains(e) {
                    let j = choose|j: int| 0 <= j < n && #[trigger] done@[j] && ts[j].edges.contains(e);
                    if j != b as int {
                        assert(done0[j]);
                    }
                }
            }
        }
    }
    marks
}

/// Whether every edge in `list` is marked in `covered`.
spec fn all_of(list: Seq<usize>, covered: Seq<bool>) -> bool {
    forall|k: int| 0 <= k < list.len() ==> covered[(#[trigger] list[k]) as int]
}

} // verus!
