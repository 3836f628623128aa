//! The broker: the relay between the clients of one campaign.
//!
//! The broker has no corpus and decides nothing about inputs. It knows which
//! clients are registered, passes what one client reports on to the others,
//! and keeps for every client the statistics it reported last. What comes
//! from a client that is not registered is dropped.

use crate::outcome::FindingReason;
use vstd::prelude::*;

verus! {

/// The statistics a client reports.
#[derive(Clone, Copy, Debug, PartialEq, Eq, Structural)]
pub struct ClientStats {
    /// The number of executions so far.
    pub executions: u64,
    /// The number of entries in the client's active corpus.
    pub corpus_size: u64,
    /// The number of findings in its solution store.
    pub findings: u64,
}

/// What a client reports to the broker.
#[derive(Clone, Debug)]
pub enum Message {
    /// An input that entered the client's active corpus.
    NewInput(Vec<u8>),
    /// A finding that entered the client's solution store.
    Finding(Vec<u8>, FindingReason),
    /// The client's statistics.
    Statistics(ClientStats),
}

impl Message {
    /// Whether the message is passed on to other clients.
    pub open spec fn is_shared(&self) -> bool {
        !(self is Statistics)
    }
}

/// The clients in `clients` other than `from`, in the same order.
pub open spec fn without(clients: Seq<usize>, from: usize) -> Seq<usize>
    decreases clients.len(),
{
    if clients.len() == 0 {
        Seq::empty()
    } else if clients.last() == from {
        without(clients.drop_last(), from)
    } else {
        without(clients.drop_last(), from).push(clients.last())
    }
}

/// Whether no client occurs twice.
pub open spec fn distinct(clients: Seq<usize>) -> bool {
    forall|i: int, j: int|
        0 <= i < j < clients.len() ==> #[trigger] clients[i] != #[trigger] clients[j]
}

/// The mathematical content of a broker.
pub ghost struct BrokerView {
    /// The registered clients, in the order they registered.
    pub clients: Seq<usize>,
    /// For each registered client the statistics it reported last.
    pub stats: Seq<Option<ClientStats>>,
}

impl BrokerView {
    /// What holds of every broker.
    pub open spec fn wf(self) -> bool {
        &&& self.stats.len() == self.clients.len()
        &&& distinct(self.clients)
    }

    /// The clients a message from `from` is passed on to.
    pub open spec fn recipients(self, from: usize, message: &Message) -> Seq<usize> {
        if self.clients.contains(from) && message.is_shared() {
            without(self.clients, from)
        } else {
            Seq::empty()
        }
    }

    /// The broker after a message from `from` went through it. Only
    /// statistics of a registered client leave a trace: they replace what
    /// that client reported before.
    pub open spec fn relayed(self, from: usize, message: &Message) -> BrokerView {
        match message {
            Message::Statistics(stats) => {
                if self.clients.contains(from) {
                    BrokerView {
                        stats: self.stats.update(self.clients.index_of(from), Some(*stats)),
                        ..self
                    }
                } else {
                    self
                }
            },
            _ => self,
        }
    }

    /// The statistics that client `id` reported last.
    pub open spec fn latest(self, id: usize) -> Option<ClientStats> {
        if self.clients.contains(id) {
            self.stats[self.clients.index_of(id)]
        } else {
            None
        }
    }
}

/// The others are exactly the registered clients apart from the sender, none
/// of them twice.
pub proof fn lemma_without(clients: Seq<usize>, from: usize)
    requires
        distinct(clients),
    ensures
        !without(clients, from).contains(from),
        forall|c: usize| c != from ==> (without(clients, from).contains(c) <==> clients.contains(c)),
        distinct(without(clients, from)),
        without(clients, from).len() <= clients.len(),
    decreases clients.len(),
{
    let others = without(clients, from);
    if clients.len() > 0 {
        let front = clients.drop_last();
        let last = clients.last();
        let fewer = without(front, from);
        lemma_without(front, from);
        assert forall|c: usize| c != from implies (others.contains(c) <==> clients.contains(c)) by {
            if clients.contains(c) {
                let i = choose|i: int| 0 <= i < clients.len() && clients[i] == c;
                if i < front.len() {
                    assert(front[i] == c);
                    assert(front.contains(c));
                    assert(fewer.contains(c));
                    let k = choose|k: int| 0 <= k < fewer.len() && fewer[k] == c;
                    assert(others[k] == c);
                } else {
                    assert(last == c);
                    assert(others[others.len() - 1] == c);
                }
            }
            if others.contains(c) {
                let k = choose|k: int| 0 <= k < others.len() && others[k] == c;
                if k < fewer.len() {
                    assert(fewer[k] == c);
                    assert(fewer.contains(c));
                    assert(front.contains(c));
                    let i = choose|i: int| 0 <= i < front.len() && front[i] == c;
                    assert(clients[i] == c);
                } else {
                    assert(last != from);
                    assert(clients[clients.len() - 1] == c);
                }
            }
        }
        assert forall|i: int, j: int| 0 <= i < j < others.len() implies #[trigger] others[i]
            != #[trigger] others[j] by {
            if j < fewer.len() {
                assert(fewer[i] != fewer[j]);
            } else {
                assert(fewer[i] == others[i]);
                assert(fewer.contains(others[i]));
                if others[i] == last {
                    assert(front.contains(last));
                    let k = choose|k: int| 0 <= k < front.len() && front[k] == last;
                    assert(clients[k] == front[k]);
                    assert(clients[k] != clients[clients.len() - 1]);
                }
            }
        }
        if others.contains(from) {
            let k = choose|k: int| 0 <= k < others.len() && others[k] == from;
            assert(fewer[k] == from);
            assert(fewer.contains(from));
        }
    }
}

/// The relay of one campaign.
pub struct Broker {
    clients: Vec<usize>,
    stats: Vec<Option<ClientStats>>,
}

impl View for Broker {
    type V = BrokerView;

    closed spec fn view(&self) -> BrokerView {
        BrokerView { clients: self.clients@, stats: self.stats@ }
    }
}

impl Broker {
    /// The invariant of the broker.
    pub open spec fn wf(&self) -> bool {
        self@.wf()
    }

    /// A broker without clients.
    pub fn new() -> (broker: Broker)
        ensures
            broker.wf(),
            broker@.clients.len() == 0,
    {
        Broker { clients: Vec::new(), stats: Vec::new() }
    }

    /// The place of client `id` among the registered ones.
    fn position(&self, id: usize) -> (place: Option<usize>)
        requires
            self.wf(),
        ensures
            place is None ==> !self@.clients.contains(id),
            place is Some ==> self@.clients.contains(id) && place->0 == self@.clients.index_of(id)
                && place->0 < self@.clients.len(),
    {
        let mut i: usize = 0;
        while i < self.clients.len()
            invariant
                i <= self.clients.len(),
                self.wf(),
                forall|k: int| 0 <= k < i ==> self.clients@[k] != id,
            decreases self.clients.len() - i,
        {
            if self.clients[i] == id {
                proof {
                    let seen = self.clients@;
                    assert(seen[i as int] == id);
                    assert(seen.contains(id));
                    let found = seen.index_of(id);
                    assert(0 <= found < seen.len() && seen[found] == id);
                    if found > i as int {
                        assert(seen[i as int] != seen[found]);
                    }
                }
                return Some(i);
            }
            i = i + 1;
        }
        None
    }

    /// The number of registered clients.
    pub fn client_count(&self) -> (n: usize)
        ensures
            n == self@.clients.len(),
    {
        self.clients.len()
    }

    /// Registers a client. A client that is registered already stays as it
    /// is.
    pub fn register(&mut self, id: usize) -> (added: bool)
        requires
            old(self).wf(),
        ensures
            final(self).wf(),
            added == !old(self)@.clients.contains(id),
            added ==> final(self)@ == (BrokerView {
                clients: old(self)@.clients.push(id),
                stats: old(self)@.stats.push(None),
            }),
            !added ==> final(self)@ == old(self)@,
    {
        match self.position(id) {
            Some(_) => false,
            None => {
                self.clients.push(id);
                self.stats.push(None);
                true
            },
        }
    }

    /// Forgets a client that went away, with what it reported. The others
    /// keep their order.
    pub fn disconnect(&mut self, id: usize) -> (removed: bool)
        requires
            old(self).wf(),
        ensures
            final(self).wf(),
            removed == old(self)@.clients.contains(id),
            removed ==> final(self)@ == (BrokerView {
                clients: old(self)@.clients.remove(old(self)@.clients.index_of(id)),
                stats: old(self)@.stats.remove(old(self)@.clients.index_of(id)),
            }),
            !removed ==> final(self)@ == old(self)@,
            !final(self)@.clients.contains(id),
    {
        match self.position(id) {
            Some(place) => {
                let ghost before = self.clients@;
                self.clients.remove(place);
                self.stats.remove(place);
                proof {
                    let after = self.clients@;
                    assert forall|i: int, j: int| 0 <= i < j < after.len() implies after[i]
                        != after[j] by {
                        let a = if i < place { i } else { i + 1 };
                        let b = if j < place { j } else { j + 1 };
                        assert(after[i] == before[a] && after[j] == before[b]);
                    }
                    if after.contains(id) {
                        let k = choose|k: int| 0 <= k < after.len() && after[k] == id;
                        let a = if k < place { k } else { k + 1 };
                        assert(before[a] == id && before[place as int] == id);
                    }
                }
                true
            },
            None => false,
        }
    }

    /// The statistics that client `id` reported last.
    pub fn latest(&self, id: usize) -> (stats: Option<ClientStats>)
        requires
            self.wf(),
        ensures
            stats == self@.latest(id),
    {
        match self.position(id) {
            Some(place) => self.stats[place],
            None => None,
        }
    }

    /// Passes a message from client `from` through the broker and says to
    /// whom it goes on. An input or a finding goes to every other registered
    /// client, once, and changes nothing here. Statistics go to nobody and
    /// replace what the client reported before. A message from a client that
    /// is not registered goes nowhere.
    pub fn relay(&mut self, from: usize, message: &Message) -> (to: Vec<usize>)
        requires
            old(self).wf(),
        ensures
            final(self).wf(),
            to@ == old(self)@.recipients(from, message),
            final(self)@ == old(self)@.relayed(from, message),
            !to@.contains(from),
    {
        let place = match self.position(from) {
            Some(place) => place,
            None => {
                return Vec::new();
            },
        };
        proof {
            lemma_without(self.clients@, from);
        }
        match message {
            Message::Statistics(stats) => {
                self.stats.set(place, Some(*stats));
                Vec::new()
            },
            _ => {
                let mut to: Vec<usize> = Vec::new();
                let mut i: usize = 0;
                assert(self.clients@.take(0) =~= Seq::<usize>::empty());
                while i < self.clients.len()
                    invariant
                        i <= self.clients.len(),
                        to@ == without(self.clients@.take(i as int), from),
                    decreases self.clients.len() - i,
                {
                    proof {
                        assert(self.clients@.take(i as int + 1).drop_last() =~= self.clients@.take(
                            i as int,
                        ));
                    }
                    if self.clients[i] != from {
                        to.push(self.clients[i]);
                    }
                    i = i + 1;
                }
                assert(self.clients@.take(self.clients.len() as int) =~= self.clients@);
                to
            },
        }
    }
}

} // verus!
