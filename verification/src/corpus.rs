//! The two stores of a client: the active corpus, whose inputs are scheduled
//! for mutation, and the solution store, which only ever grows.
//!
//! The active corpus keeps a bounded working set of inputs in memory. Every
//! input is durable under a stable name computed from its bytes; an input that
//! leaves the working set is read back under that name when it is next
//! needed. This module decides what stays in memory and checks what is handed
//! back; reading and writing the files is the caller's part.

use crate::outcome::FindingReason;
use crate::text::hex;
use crate::text::hexadecimal;
use libafl_bolts::hash_std;
use std::collections::VecDeque;
use vstd::prelude::*;

verus! {

/// The number of inputs the working set holds unless told otherwise.
pub const DEFAULT_CACHE_CAPACITY: usize = 4096;

/// The width of a stable name in characters.
pub const NAME_WIDTH: usize = 16;

/// The hash of an input: what `hash_std` of `libafl_bolts` returns for its
/// bytes.
pub uninterp spec fn content_hash(bytes: Seq<u8>) -> u64;

/// The stable name under which an input with these bytes is stored: its
/// hash in sixteen hexadecimal digits.
pub open spec fn stable_name(bytes: Seq<u8>) -> Seq<char> {
    hex(content_hash(bytes) as nat, NAME_WIDTH as nat)
}

/// `hash_std` of `libafl_bolts`: the 64-bit XXH3 hash of the bytes. It
/// depends on the bytes alone.
#[verifier::external_body]
fn hash_of(bytes: &Vec<u8>) -> (hash: u64)
    ensures
        hash == content_hash(bytes@),
{
    hash_std(bytes)
}

/// The stable name of an input.
pub fn input_name(bytes: &Vec<u8>) -> (name: String)
    ensures
        name@ == stable_name(bytes@),
{
    hexadecimal(hash_of(bytes), NAME_WIDTH)
}

/// Why a store could not be set up.
#[derive(Clone, Copy, Debug, PartialEq, Eq, Structural)]
pub enum StoreError {
    /// A working set needs room for at least one input.
    ZeroCapacity,
}

/// Why bytes handed back for an entry were not accepted.
#[derive(Clone, Copy, Debug, PartialEq, Eq, Structural)]
pub enum ReloadError {
    /// The corpus has no entry with that index.
    UnknownIndex,
    /// The bytes do not have the entry's length or its stable name.
    Mismatch,
}

/// What an insertion or a reload did to the working set.
#[derive(Clone, Copy, Debug, PartialEq, Eq, Structural)]
pub struct Placement {
    /// The index of the entry that was placed in memory.
    pub index: usize,
    /// The entry that lost its place in memory, if one had to.
    pub evicted: Option<usize>,
}

/// The mathematical content of an active corpus.
pub ghost struct CorpusView {
    /// The bytes each entry was inserted with, by index.
    pub contents: Seq<Seq<u8>>,
    /// The stable name of each entry.
    pub names: Seq<Seq<char>>,
    /// The bytes held in memory for each entry, if any.
    pub resident: Seq<Option<Seq<u8>>>,
    /// The entries held in memory, the longest-held first.
    pub order: Seq<usize>,
    /// The most entries that may be held in memory.
    pub limit: nat,
}

impl CorpusView {
    /// What holds of every active corpus.
    pub open spec fn wf(self) -> bool {
        &&& self.limit > 0
        &&& self.order.len() <= self.limit
        &&& self.names.len() == self.contents.len()
        &&& self.resident.len() == self.contents.len()
        &&& forall|i: int|
            0 <= i < self.contents.len() ==> #[trigger] self.names[i] == stable_name(
                self.contents[i],
            )
        &&& forall|i: int|
            0 <= i < self.contents.len() && (#[trigger] self.resident[i]) is Some ==> {
                &&& stable_name(self.resident[i]->0) == self.names[i]
                &&& self.resident[i]->0.len() == self.contents[i].len()
            }
        &&& forall|k: int|
            0 <= k < self.order.len() ==> (#[trigger] self.order[k]) < self.contents.len()
                && self.resident[self.order[k] as int] is Some
        &&& forall|k: int, l: int|
            0 <= k < l < self.order.len() ==> #[trigger] self.order[k] != #[trigger] self.order[l]
        &&& forall|i: int|
            0 <= i < self.contents.len() && (#[trigger] self.resident[i]) is Some
                ==> self.in_memory(i)
    }

    /// Whether entry `i` has a place in the working set.
    pub open spec fn in_memory(self, i: int) -> bool {
        exists|k: int| 0 <= k < self.order.len() && #[trigger] self.order[k] as int == i
    }

    /// Whether some entry was inserted with exactly these bytes.
    pub open spec fn holds(self, bytes: Seq<u8>) -> bool {
        self.contents.contains(bytes)
    }

    /// The view after room is made for one more resident entry.
    pub open spec fn with_room(self) -> CorpusView {
        if self.order.len() == self.limit {
            CorpusView {
                resident: self.resident.update(self.order[0] as int, None),
                order: self.order.subrange(1, self.order.len() as int),
                ..self
            }
        } else {
            self
        }
    }

    /// The entry that leaves memory when room is made, if any.
    pub open spec fn leaver(self) -> Option<usize> {
        if self.order.len() == self.limit {
            Some(self.order[0])
        } else {
            None
        }
    }

    /// The view after `bytes` are placed in memory for entry `index`.
    pub open spec fn placed(self, index: usize, bytes: Seq<u8>) -> CorpusView {
        let roomy = self.with_room();
        CorpusView {
            resident: roomy.resident.update(index as int, Some(bytes)),
            order: roomy.order.push(index),
            ..roomy
        }
    }

    /// The view after an input with `bytes` is appended and placed in memory.
    pub open spec fn inserted(self, bytes: Seq<u8>) -> CorpusView {
        let roomy = self.with_room();
        CorpusView {
            contents: self.contents.push(bytes),
            names: self.names.push(stable_name(bytes)),
            resident: roomy.resident.push(Some(bytes)),
            order: roomy.order.push(self.contents.len() as usize),
            limit: self.limit,
        }
    }

    /// Whether `bytes` pass for the bytes of entry `index`.
    pub open spec fn accepts(self, index: int, bytes: Seq<u8>) -> bool {
        &&& 0 <= index < self.contents.len()
        &&& bytes.len() == self.contents[index].len()
        &&& stable_name(bytes) == self.names[index]
    }
}

/// The active corpus: every input taken in so far, each under the index it
/// was given on insertion.
pub struct ActiveCorpus {
    names: Vec<String>,
    lengths: Vec<usize>,
    bytes: Vec<Option<Vec<u8>>>,
    queue: VecDeque<usize>,
    capacity: usize,
    contents: Ghost<Seq<Seq<u8>>>,
}

impl View for ActiveCorpus {
    type V = CorpusView;

    closed spec fn view(&self) -> CorpusView {
        CorpusView {
            contents: self.contents@,
            names: Seq::new(self.names@.len(), |i: int| self.names@[i]@),
            resident: Seq::new(
                self.bytes@.len(),
                |i: int|
                    match self.bytes@[i] {
                        Some(held) => Some(held@),
                        None => None,
                    },
            ),
            order: self.queue@,
            limit: self.capacity as nat,
        }
    }
}

impl ActiveCorpus {
    /// The invariant of the store.
    pub closed spec fn wf(&self) -> bool {
        &&& self@.wf()
        &&& self.lengths@.len() == self.contents@.len()
        &&& forall|i: int|
            0 <= i < self.contents@.len() ==> #[trigger] self.lengths@[i] == self.contents@[i].len()
    }

    /// A well-formed store has a well-formed view.
    pub proof fn lemma_view_wf(&self)
        requires
            self.wf(),
        ensures
            self@.wf(),
    {
    }

    /// An empty corpus whose working set holds up to `capacity` inputs.
    pub fn new(capacity: usize) -> (made: Result<ActiveCorpus, StoreError>)
        ensures
            capacity == 0 ==> made is Err && made->Err_0 == StoreError::ZeroCapacity,
            capacity > 0 ==> made is Ok && made->Ok_0.wf() && made->Ok_0@ == (CorpusView {
                contents: Seq::empty(),
                names: Seq::empty(),
                resident: Seq::empty(),
                order: Seq::empty(),
                limit: capacity as nat,
            }),
    {
        if capacity == 0 {
            return Err(StoreError::ZeroCapacity);
        }
        let corpus = ActiveCorpus {
            names: Vec::new(),
            lengths: Vec::new(),
            bytes: Vec::new(),
            queue: VecDeque::new(),
            capacity,
            contents: Ghost(Seq::empty()),
        };
        assert(corpus@.names =~= Seq::<Seq<char>>::empty());
        assert(corpus@.resident =~= Seq::<Option<Seq<u8>>>::empty());
        Ok(corpus)
    }

    /// The number of entries, resident or not.
    pub fn count(&self) -> (n: usize)
        requires
            self.wf(),
        ensures
            n == self@.contents.len(),
    {
        self.names.len()
    }

    /// The stable name of entry `index`: the name under which its bytes are
    /// durable.
    pub fn name(&self, index: usize) -> (name: String)
        requires
            self.wf(),
            index < self@.contents.len(),
        ensures
            name@ == self@.names[index as int],
            name@ == stable_name(self@.contents[index as int]),
    {
        assert(self@.names[index as int] == stable_name(self@.contents[index as int]));
        self.names[index].clone()
    }

    /// The length of entry `index` in bytes.
    pub fn length(&self, index: usize) -> (n: usize)
        requires
            self.wf(),
            index < self@.contents.len(),
        ensures
            n == self@.contents[index as int].len(),
    {
        self.lengths[index]
    }

    /// The bytes of entry `index`, if the entry exists and is in memory.
    pub fn resident(&self, index: usize) -> (held: Option<&Vec<u8>>)
        requires
            self.wf(),
        ensures
            index >= self@.contents.len() ==> held is None,
            index < self@.contents.len() ==> (held is Some) == (self@.resident[index as int] is Some),
            held is Some ==> held->0@ == self@.resident[index as int]->0,
    {
        if index < self.bytes.len() {
            self.bytes[index].as_ref()
        } else {
            None
        }
    }

    /// Frees one place in memory if all are taken, by dropping the bytes of
    /// the entry that has held its place the longest.
    fn make_room(&mut self) -> (evicted: Option<usize>)
        requires
            old(self).wf(),
        ensures
            final(self).wf(),
            final(self)@ == old(self)@.with_room(),
            evicted == old(self)@.leaver(),
            final(self)@.order.len() < final(self)@.limit,
            final(self).lengths == old(self).lengths,
    {
        if self.queue.len() < self.capacity {
            return None;
        }
        let ghost before = self@;
        let leaver = self.queue.pop_front().unwrap();
        self.bytes.set(leaver, None);
        proof {
            let after = self@;
            assert(after.resident =~= before.resident.update(leaver as int, None));
            assert(after.names =~= before.names);
            assert forall|k: int| 0 <= k < after.order.len() implies (#[trigger] after.order[k])
                < after.contents.len() && after.resident[after.order[k] as int] is Some by {
                assert(after.order[k] == before.order[k + 1]);
                assert(before.order[0] != before.order[k + 1]);
            }
            assert forall|i: int|
                0 <= i < after.contents.len() && (#[trigger] after.resident[i]) is Some implies after.in_memory(
                i,
            ) by {
                assert(before.resident[i] is Some);
                assert(before.in_memory(i));
                let k = choose|k: int| 0 <= k < before.order.len() && before.order[k] as int == i;
                assert(k != 0);
                assert(after.order[k - 1] as int == i);
            }
        }
        Some(leaver)
    }

    /// Appends an input and places it in memory. The entry keeps the index
    /// returned here for good.
    pub fn insert(&mut self, input: Vec<u8>) -> (placement: Placement)
        requires
            old(self).wf(),
        ensures
            final(self).wf(),
            final(self)@ == old(self)@.inserted(input@),
            placement.index == old(self)@.contents.len(),
            placement.evicted == old(self)@.leaver(),
    {
        let ghost before = self@;
        let evicted = self.make_room();
        let ghost roomy = self@;
        let index = self.names.len();
        let name = input_name(&input);
        self.names.push(name);
        self.lengths.push(input.len());
        proof {
            self.contents@ = self.contents@.push(input@);
        }
        self.bytes.push(Some(input));
        self.queue.push_back(index);
        proof {
            let after = self@;
            assert(after.names =~= before.names.push(stable_name(input@)));
            assert(after.resident =~= roomy.resident.push(Some(input@)));
            assert forall|k: int, l: int| 0 <= k < l < after.order.len() implies #[trigger] after.order[k]
                != #[trigger] after.order[l] by {
                if l == after.order.len() - 1 {
                    assert(after.order[k] == roomy.order[k]);
                }
            }
            assert forall|i: int|
                0 <= i < after.contents.len() && (#[trigger] after.resident[i]) is Some implies after.in_memory(
                i,
            ) by {
                if i == index {
                    assert(after.order[after.order.len() - 1] as int == i);
                } else {
                    assert(roomy.resident[i] is Some);
                    assert(roomy.in_memory(i));
                    let k = choose|k: int| 0 <= k < roomy.order.len() && roomy.order[k] as int == i;
                    assert(after.order[k] as int == i);
                }
            }
            assert forall|k: int| 0 <= k < after.order.len() implies (#[trigger] after.order[k])
                < after.contents.len() && after.resident[after.order[k] as int] is Some by {
                if k < roomy.order.len() {
                    assert(after.order[k] == roomy.order[k]);
                }
            }
        }
        Placement { index, evicted }
    }

    /// Takes back the bytes of an entry that is not in memory, as read from
    /// where they are durable. The bytes are accepted if they have the
    /// entry's length and stable name. For an entry that is in memory nothing
    /// changes, whatever is handed in.
    pub fn reload(&mut self, index: usize, bytes: Vec<u8>) -> (done: Result<Placement, ReloadError>)
        requires
            old(self).wf(),
        ensures
            final(self).wf(),
            index >= old(self)@.contents.len() ==> done == Err::<Placement, ReloadError>(
                ReloadError::UnknownIndex,
            ) && final(self)@ == old(self)@,
            index < old(self)@.contents.len() && old(self)@.resident[index as int] is Some ==> done
                == Ok::<Placement, ReloadError>(Placement { index, evicted: None }) && final(self)@
                == old(self)@,
            index < old(self)@.contents.len() && old(self)@.resident[index as int] is None
                && !old(self)@.accepts(index as int, bytes@) ==> done == Err::<
                Placement,
                ReloadError,
            >(ReloadError::Mismatch) && final(self)@ == old(self)@,
            index < old(self)@.contents.len() && old(self)@.resident[index as int] is None && old(self)@.accepts(index as int, bytes@) ==> done == Ok::<Placement, ReloadError>(
                Placement { index, evicted: old(self)@.leaver() },
            ) && final(self)@ == old(self)@.placed(index, bytes@),
    {
        if index >= self.names.len() {
            return Err(ReloadError::UnknownIndex);
        }
        if self.bytes[index].is_some() {
            return Ok(Placement { index, evicted: None });
        }
        if bytes.len() != self.lengths[index] {
            return Err(ReloadError::Mismatch);
        }
        let name = input_name(&bytes);
        if name != self.names[index] {
            return Err(ReloadError::Mismatch);
        }
        let ghost before = self@;
        let evicted = self.make_room();
        let ghost roomy = self@;
        let ghost handed = bytes@;
        self.bytes.set(index, Some(bytes));
        self.queue.push_back(index);
        proof {
            let after = self@;
            assert(after.resident =~= roomy.resident.update(index as int, Some(handed)));
            assert(after.names =~= roomy.names);
            assert(roomy.resident[index as int] is None);
            assert forall|k: int, l: int| 0 <= k < l < after.order.len() implies #[trigger] after.order[k]
                != #[trigger] after.order[l] by {
                if l == after.order.len() - 1 {
                    assert(after.order[k] == roomy.order[k]);
                    assert(roomy.resident[roomy.order[k] as int] is Some);
                }
            }
            assert forall|i: int|
                0 <= i < after.contents.len() && (#[trigger] after.resident[i]) is Some implies after.in_memory(
                i,
            ) by {
                if i == index {
                    assert(after.order[after.order.len() - 1] as int == i);
                } else {
                    assert(roomy.resident[i] is Some);
                    assert(roomy.in_memory(i));
                    let k = choose|k: int| 0 <= k < roomy.order.len() && roomy.order[k] as int == i;
                    assert(after.order[k] as int == i);
                }
            }
            assert forall|k: int| 0 <= k < after.order.len() implies (#[trigger] after.order[k])
                < after.contents.len() && after.resident[after.order[k] as int] is Some by {
                if k < roomy.order.len() {
                    assert(after.order[k] == roomy.order[k]);
                }
            }
        }
        Ok(Placement { index, evicted })
    }
}

/// Making room, placing and inserting never touch what the corpus holds:
/// every entry keeps its index, its bytes of record and its name.
pub proof fn lemma_entries_are_kept(view: CorpusView, index: usize, bytes: Seq<u8>)
    ensures
        view.with_room().contents == view.contents,
        view.with_room().names == view.names,
        view.placed(index, bytes).contents == view.contents,
        view.placed(index, bytes).names == view.names,
        view.inserted(bytes).contents.len() == view.contents.len() + 1,
        forall|i: int|
            0 <= i < view.contents.len() ==> #[trigger] view.inserted(bytes).contents[i]
                == view.contents[i],
        view.inserted(bytes).holds(bytes),
        forall|other: Seq<u8>| view.holds(other) ==> #[trigger] view.inserted(bytes).holds(other),
{
    let grown = view.inserted(bytes);
    assert(grown.contents[view.contents.len() as int] == bytes);
    assert forall|other: Seq<u8>| view.holds(other) implies #[trigger] grown.holds(other) by {
        let i = choose|i: int| 0 <= i < view.contents.len() && view.contents[i] == other;
        assert(grown.contents[i] == other);
    }
}

/// One finding: the input and why it was recorded.
#[derive(Clone, Debug)]
pub struct SolutionRecord {
    /// The input on which the target failed.
    pub input: Vec<u8>,
    /// How it failed.
    pub reason: FindingReason,
}

/// The solution store: the findings in the order they were made. Records are
/// only ever appended; none is changed, moved or dropped.
pub struct SolutionStore {
    records: Vec<SolutionRecord>,
}

impl View for SolutionStore {
    type V = Seq<(Seq<u8>, FindingReason)>;

    closed spec fn view(&self) -> Seq<(Seq<u8>, FindingReason)> {
        Seq::new(self.records@.len(), |i: int| (self.records@[i].input@, self.records@[i].reason))
    }
}

impl SolutionStore {
    /// Whether a finding on exactly these bytes is recorded.
    pub open spec fn holds(&self, bytes: Seq<u8>) -> bool {
        has_input(self@, bytes)
    }

    /// A store without findings.
    pub fn new() -> (store: SolutionStore)
        ensures
            store@ == Seq::<(Seq<u8>, FindingReason)>::empty(),
    {
        let store = SolutionStore { records: Vec::new() };
        assert(store@ =~= Seq::<(Seq<u8>, FindingReason)>::empty());
        store
    }

    /// The number of findings.
    pub fn count(&self) -> (n: usize)
        ensures
            n == self@.len(),
    {
        self.records.len()
    }

    /// The finding at `position` in order of discovery.
    pub fn get(&self, position: usize) -> (record: Option<&SolutionRecord>)
        ensures
            position >= self@.len() ==> record is None,
            position < self@.len() ==> record is Some && (record->0.input@, record->0.reason)
                == self@[position as int],
    {
        if position < self.records.len() {
            Some(&self.records[position])
        } else {
            None
        }
    }

    /// Appends a finding and returns its position. What was recorded before
    /// stays as it was.
    pub fn record(&mut self, input: Vec<u8>, reason: FindingReason) -> (position: usize)
        ensures
            final(self)@ == old(self)@.push((input@, reason)),
            position == old(self)@.len(),
            final(self).holds(input@),
    {
        let position = self.records.len();
        let ghost bytes = input@;
        self.records.push(SolutionRecord { input, reason });
        assert(self@ =~= old(self)@.push((bytes, reason)));
        assert(self@[position as int].0 == bytes);
        position
    }
}

/// Whether a sequence of findings has one on exactly these bytes.
pub open spec fn has_input(findings: Seq<(Seq<u8>, FindingReason)>, bytes: Seq<u8>) -> bool {
    exists|i: int| 0 <= i < findings.len() && (#[trigger] findings[i]).0 == bytes
}

/// The findings after one that another client made is taken in: it is
/// appended unless a finding on the same bytes is there already.
pub open spec fn with_import(
    findings: Seq<(Seq<u8>, FindingReason)>,
    incoming: (Seq<u8>, FindingReason),
) -> Seq<(Seq<u8>, FindingReason)> {
    if has_input(findings, incoming.0) {
        findings
    } else {
        findings.push(incoming)
    }
}

/// The findings after all those of another client are taken in, in order.
pub open spec fn with_imports(
    findings: Seq<(Seq<u8>, FindingReason)>,
    incoming: Seq<(Seq<u8>, FindingReason)>,
) -> Seq<(Seq<u8>, FindingReason)>
    decreases incoming.len(),
{
    if incoming.len() == 0 {
        findings
    } else {
        with_import(with_imports(findings, incoming.drop_last()), incoming.last())
    }
}

/// Taking in the findings of another client loses none and invents none:
/// afterwards the store has a finding on some bytes exactly if it had one
/// before or one came in, and what was there before is still in its place.
pub proof fn lemma_imports_are_a_union(
    findings: Seq<(Seq<u8>, FindingReason)>,
    incoming: Seq<(Seq<u8>, FindingReason)>,
    bytes: Seq<u8>,
)
    ensures
        has_input(with_imports(findings, incoming), bytes) <==> has_input(findings, bytes)
            || has_input(incoming, bytes),
        findings.len() <= with_imports(findings, incoming).len(),
        forall|i: int|
            0 <= i < findings.len() ==> #[trigger] with_imports(findings, incoming)[i]
                == findings[i],
    decreases incoming.len(),
{
    if incoming.len() > 0 {
        let front = incoming.drop_last();
        let last = incoming.last();
        let partly = with_imports(findings, front);
        let fully = with_import(partly, last);
        lemma_imports_are_a_union(findings, front, bytes);
        if has_input(incoming, bytes) {
            let i = choose|i: int| 0 <= i < incoming.len() && (#[trigger] incoming[i]).0 == bytes;
            if i < front.len() {
                assert(front[i].0 == bytes);
            }
        }
        if has_input(front, bytes) {
            let i = choose|i: int| 0 <= i < front.len() && (#[trigger] front[i]).0 == bytes;
            assert(incoming[i].0 == bytes);
        }
        if last.0 == bytes {
            assert(incoming[incoming.len() - 1].0 == bytes);
        }
        if has_input(partly, bytes) {
            let i = choose|i: int| 0 <= i < partly.len() && (#[trigger] partly[i]).0 == bytes;
            assert(fully[i].0 == bytes);
        }
        if has_input(fully, bytes) && !has_input(partly, bytes) {
            let i = choose|i: int| 0 <= i < fully.len() && (#[trigger] fully[i]).0 == bytes;
            if i < partly.len() {
                assert(partly[i].0 == bytes);
            }
        }
        if !has_input(partly, last.0) {
            assert(fully[partly.len() as int].0 == last.0);
        }
    }
}

/// Two clients that take in each other's findings end up with findings on
/// the same inputs: the union of what the two had.
pub proof fn lemma_exchange_converges(
    mine: Seq<(Seq<u8>, FindingReason)>,
    theirs: Seq<(Seq<u8>, FindingReason)>,
    bytes: Seq<u8>,
)
    ensures
        has_input(with_imports(mine, theirs), bytes) == has_input(
            with_imports(theirs, mine),
            bytes,
        ),
{
    lemma_imports_are_a_union(mine, theirs, bytes);
    lemma_imports_are_a_union(theirs, mine, bytes);
}

impl SolutionStore {
    /// Whether a finding on exactly these bytes is recorded.
    pub fn holds_input(&self, input: &Vec<u8>) -> (held: bool)
        ensures
            held == has_input(self@, input@),
    {
        let mut i: usize = 0;
        while i < self.records.len()
            invariant
                i <= self.records.len(),
                forall|k: int| 0 <= k < i ==> (#[trigger] self@[k]).0 != input@,
            decreases self.records.len() - i,
        {
            if same_bytes(&self.records[i].input, input) {
                assert(self@[i as int].0 == input@);
                return true;
            }
            assert(self@[i as int].0 == self.records@[i as int].input@);
            i = i + 1;
        }
        false
    }

    /// Takes in a finding that another client made. It is appended unless a
    /// finding on the same bytes is recorded already; what was recorded
    /// before stays as it was.
    pub fn import(&mut self, input: Vec<u8>, reason: FindingReason) -> (added: bool)
        ensures
            added == !has_input(old(self)@, input@),
            final(self)@ == with_import(old(self)@, (input@, reason)),
    {
        if self.holds_input(&input) {
            false
        } else {
            self.record(input, reason);
            true
        }
    }
}

/// Whether two byte vectors hold the same bytes.
pub fn same_bytes(a: &Vec<u8>, b: &Vec<u8>) -> (same: bool)
    ensures
        same == (a@ == b@),
{
    if a.len() != b.len() {
        return false;
    }
    let mut k: usize = 0;
    while k < a.len()
        invariant
            k <= a.len(),
            a.len() == b.len(),
            forall|j: int| 0 <= j < k ==> a@[j] == b@[j],
        decreases a.len() - k,
    {
        if a[k] != b[k] {
            return false;
        }
        k = k + 1;
    }
    assert(a@ =~= b@);
    true
}

} // verus!
