//! The interfaces found stale in one cycle, each held once.

use crate::text::same_text;
use vstd::prelude::*;

verus! {

/// A stale peer: the interface it belongs to, and what was measured.
#[derive(Clone, Debug, PartialEq, Eq)]
pub struct StalePeer {
    /// Name of the interface.
    pub interface: String,
    /// The peer's keepalive interval, in seconds.
    pub keepalive: u64,
    /// Age of the peer's latest handshake, in seconds.
    pub age: u64,
}

/// The mathematical content of a [`StalePeer`].
pub struct StalePeerView {
    pub interface: Seq<char>,
    pub keepalive: u64,
    pub age: u64,
}

impl View for StalePeer {
    type V = StalePeerView;

    open spec fn view(&self) -> StalePeerView {
        StalePeerView { interface: self.interface@, keepalive: self.keepalive, age: self.age }
    }
}

/// Whether one of `peers` belongs to the interface `name`.
pub open spec fn names_interface(peers: Seq<StalePeerView>, name: Seq<char>) -> bool {
    exists|i: int| 0 <= i < peers.len() && (#[trigger] peers[i]).interface == name
}

/// Whether no two of `peers` belong to the same interface.
pub open spec fn distinct_interfaces(peers: Seq<StalePeerView>) -> bool {
    forall|i: int, j: int|
        #![trigger peers[i], peers[j]]
        0 <= i < j < peers.len() ==> peers[i].interface != peers[j].interface
}

/// The interface names of `peers`, in their order.
pub open spec fn interfaces_of(peers: Seq<StalePeerView>) -> Seq<Seq<char>> {
    Seq::new(peers.len(), |i: int| peers[i].interface)
}

/// How often `name` stands in `names`.
pub open spec fn occurrences(names: Seq<Seq<char>>, name: Seq<char>) -> nat
    decreases names.len(),
{
    if names.len() == 0 {
        0
    } else {
        occurrences(names.drop_last(), name) + if names.last() == name {
            1nat
        } else {
            0nat
        }
    }
}

/// Among peers of distinct interfaces a name stands once if one of them
/// belongs to it, and not at all otherwise.
pub proof fn lemma_occurrences(peers: Seq<StalePeerView>, name: Seq<char>)
    requires
        distinct_interfaces(peers),
    ensures
        occurrences(interfaces_of(peers), name) == if names_interface(peers, name) {
            1nat
        } else {
            0nat
        },
    decreases peers.len(),
{
    if peers.len() > 0 {
        let front = peers.drop_last();
        let last = peers.last();
        assert(interfaces_of(peers).drop_last() == interfaces_of(front));
        assert(distinct_interfaces(front)) by {
            assert(forall|i: int| 0 <= i < front.len() ==> front[i] == peers[i]);
        }
        lemma_occurrences(front, name);
        if names_interface(front, name) {
            // the last peer belongs to another interface
            let k = choose|k: int| 0 <= k < front.len() && (#[trigger] front[k]).interface == name;
            assert(peers[k].interface != last.interface);
        } else if last.interface != name && names_interface(peers, name) {
            let k = choose|k: int| 0 <= k < peers.len() && (#[trigger] peers[k]).interface == name;
            assert(front[k].interface == name);
        }
    }
}

/// `peers` with `peer` added at the end, unless its interface is already
/// named.
pub open spec fn with_peer(peers: Seq<StalePeerView>, peer: StalePeerView) -> Seq<StalePeerView> {
    if names_interface(peers, peer.interface) {
        peers
    } else {
        peers.push(peer)
    }
}

/// Adding a peer keeps the interfaces distinct.
pub proof fn lemma_with_peer_distinct(peers: Seq<StalePeerView>, peer: StalePeerView)
    requires
        distinct_interfaces(peers),
    ensures
        distinct_interfaces(with_peer(peers, peer)),
{
    let next = with_peer(peers, peer);
    if !names_interface(peers, peer.interface) {
        assert forall|i: int, j: int|
            #![trigger next[i], next[j]]
            0 <= i < j < next.len() implies next[i].interface != next[j].interface by {
            if j < peers.len() {
                assert(peers[i].interface != peers[j].interface);
            } else {
                assert(peers[i].interface != peer.interface);
            }
        }
    }
}

/// The stale interfaces of one cycle, in the order in which they were found.
/// No interface is held twice: of several stale peers on one interface the
/// set keeps the first.
#[derive(Clone, Debug)]
pub struct StaleInterfaceSet {
    entries: Vec<StalePeer>,
}

impl View for StaleInterfaceSet {
    type V = Seq<StalePeerView>;

    closed spec fn view(&self) -> Seq<StalePeerView> {
        Seq::new(self.entries@.len(), |i: int| self.entries@[i]@)
    }
}

impl StaleInterfaceSet {
    /// The set's invariant: no two entries belong to one interface. Every
    /// set that this module hands out satisfies it.
    pub open spec fn wf(&self) -> bool {
        distinct_interfaces(self@)
    }

    /// The empty set.
    pub fn new() -> (set: StaleInterfaceSet)
        ensures
            set.wf(),
            set@ == Seq::<StalePeerView>::empty(),
    {
        StaleInterfaceSet { entries: Vec::new() }
    }

    /// Number of stale interfaces.
    pub fn len(&self) -> (n: usize)
        ensures
            n == self@.len(),
    {
        self.entries.len()
    }

    /// Whether no interface is stale.
    pub fn is_empty(&self) -> (empty: bool)
        ensures
            empty == (self@.len() == 0),
    {
        self.entries.len() == 0
    }

    /// Whether the set holds the interface `name`.
    pub fn contains(&self, name: &str) -> (found: bool)
        ensures
            found == names_interface(self@, name@),
    {
        let mut i: usize = 0;
        while i < self.entries.len()
            invariant
                i <= self.entries.len(),
                forall|k: int| 0 <= k < i ==> (#[trigger] self@[k]).interface != name@,
            decreases self.entries.len() - i,
        {
            if same_text(self.entries[i].interface.as_str(), name) {
                assert(self@[i as int].interface == name@);
                return true;
            }
            i += 1;
        }
        false
    }

    /// Adds a stale peer, unless its interface is already held. Tells
    /// whether it was added.
    pub fn insert(&mut self, peer: StalePeer) -> (added: bool)
        requires
            old(self).wf(),
        ensures
            final(self).wf(),
            added == !names_interface(old(self)@, peer@.interface),
            final(self)@ == with_peer(old(self)@, peer@),
    {
        if self.contains(peer.interface.as_str()) {
            return false;
        }
        proof {
            lemma_with_peer_distinct(self@, peer@);
        }
        let ghost before = self@;
        self.entries.push(peer);
        assert(self@ == before.push(peer@));
        true
    }

    /// The stale peers, one for each interface, in the order found.
    pub fn entries(&self) -> (out: &Vec<StalePeer>)
        ensures
            out@.len() == self@.len(),
            forall|i: int| 0 <= i < out@.len() ==> (#[trigger] out@[i])@ == self@[i],
    {
        &self.entries
    }

    /// The names of the stale interfaces, in the order found.
    pub fn interfaces(&self) -> (names: Vec<String>)
        ensures
            names.deep_view() == interfaces_of(self@),
    {
        let mut names: Vec<String> = Vec::new();
        let mut i: usize = 0;
        while i < self.entries.len()
            invariant
                i <= self.entries.len(),
                names.deep_view() == interfaces_of(self@).take(i as int),
            decreases self.entries.len() - i,
        {
            names.push(self.entries[i].interface.clone());
            i += 1;
            proof {
                let all = interfaces_of(self@);
                assert(all.take(i as int) == all.take(i - 1).push(all[i - 1]));
            }
        }
        names
    }
}

} // verus!
