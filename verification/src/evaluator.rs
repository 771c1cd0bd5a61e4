//! The staleness evaluator: from the text of a status dump and the current
//! time to the interfaces that need recovery.

use crate::record::{record_of, PeerRecord};
use crate::stale_set::{
    distinct_interfaces, lemma_with_peer_distinct, names_interface, with_peer, StaleInterfaceSet,
    StalePeer, StalePeerView,
};
use crate::text::{lines, split_lines};
use vstd::prelude::*;

verus! {

/// What one line contributes at `now` under `threshold`: the stale peer that
/// it describes, or nothing where it describes no peer or one that is not
/// stale.
pub open spec fn stale_peer_of(
    line: Seq<char>,
    now: u64,
    threshold: u64,
) -> Option<StalePeerView> {
    match record_of(line, now) {
        Some(r) => if r.stale(now, threshold) {
            Some(r.as_stale(now))
        } else {
            None
        },
        None => None,
    }
}

/// The stale peers that a run of lines yields: each line's contribution in
/// turn, where its interface has not been named by an earlier line.
pub open spec fn stale_peers(all: Seq<Seq<char>>, now: u64, threshold: u64) -> Seq<StalePeerView>
    decreases all.len(),
{
    if all.len() == 0 {
        Seq::empty()
    } else {
        let earlier = stale_peers(all.drop_last(), now, threshold);
        match stale_peer_of(all.last(), now, threshold) {
            Some(p) => with_peer(earlier, p),
            None => earlier,
        }
    }
}

/// The stale peers of a whole dump.
pub open spec fn stale_in(dump: Seq<char>, now: u64, threshold: u64) -> Seq<StalePeerView> {
    stale_peers(lines(dump), now, threshold)
}

/// The stale peers of any run of lines belong to distinct interfaces.
pub proof fn lemma_stale_peers_distinct(all: Seq<Seq<char>>, now: u64, threshold: u64)
    ensures
        distinct_interfaces(stale_peers(all, now, threshold)),
    decreases all.len(),
{
    if all.len() > 0 {
        lemma_stale_peers_distinct(all.drop_last(), now, threshold);
        match stale_peer_of(all.last(), now, threshold) {
            Some(p) => lemma_with_peer_distinct(stale_peers(all.drop_last(), now, threshold), p),
            None => {},
        }
    }
}

/// Whether `line` describes a stale peer on the interface `name`.
pub open spec fn stale_on(line: Seq<char>, now: u64, threshold: u64, name: Seq<char>) -> bool {
    match stale_peer_of(line, now, threshold) {
        Some(p) => p.interface == name,
        None => false,
    }
}

/// An interface is among the stale peers of a run of lines exactly if one of
/// the lines describes a stale peer on it.
pub proof fn lemma_stale_peers_names(
    all: Seq<Seq<char>>,
    now: u64,
    threshold: u64,
    name: Seq<char>,
)
    ensures
        names_interface(stale_peers(all, now, threshold), name) <==> exists|i: int|
            0 <= i < all.len() && stale_on(#[trigger] all[i], now, threshold, name),
    decreases all.len(),
{
    if all.len() > 0 {
        let got = stale_peers(all, now, threshold);
        let front = all.drop_last();
        let earlier = stale_peers(front, now, threshold);
        let n = all.len() - 1;
        lemma_stale_peers_names(front, now, threshold, name);
        if names_interface(got, name) {
            let k = choose|k: int| 0 <= k < got.len() && (#[trigger] got[k]).interface == name;
            if k < earlier.len() {
                // named by an earlier line
                assert(earlier[k].interface == name);
                let i = choose|i: int|
                    0 <= i < front.len() && stale_on(#[trigger] front[i], now, threshold, name);
                assert(stale_on(all[i], now, threshold, name));
            } else {
                // named by the last line
                assert(stale_on(all[n], now, threshold, name));
            }
        }
        if exists|i: int| 0 <= i < all.len() && stale_on(#[trigger] all[i], now, threshold, name) {
            let i = choose|i: int|
                0 <= i < all.len() && stale_on(#[trigger] all[i], now, threshold, name);
            if i < n {
                assert(stale_on(front[i], now, threshold, name));
            }
            if names_interface(earlier, name) {
                let k = choose|k: int|
                    0 <= k < earlier.len() && (#[trigger] earlier[k]).interface == name;
                assert(got[k].interface == name);
            } else {
                assert(got[earlier.len() as int].interface == name);
            }
        }
    }
}

/// Each of the stale peers of a run of lines is what the first line that
/// describes a stale peer on its interface contributes.
pub proof fn lemma_stale_peers_first(all: Seq<Seq<char>>, now: u64, threshold: u64, k: int)
    requires
        0 <= k < stale_peers(all, now, threshold).len(),
    ensures
        exists|i: int|
            {
                &&& 0 <= i < all.len()
                &&& stale_peer_of(#[trigger] all[i], now, threshold) == Some(
                    stale_peers(all, now, threshold)[k],
                )
                &&& forall|j: int|
                    0 <= j < i ==> !stale_on(
                        #[trigger] all[j],
                        now,
                        threshold,
                        stale_peers(all, now, threshold)[k].interface,
                    )
            },
    decreases all.len(),
{
    let got = stale_peers(all, now, threshold);
    let front = all.drop_last();
    let earlier = stale_peers(front, now, threshold);
    let n = all.len() - 1;
    let name = got[k].interface;
    if k < earlier.len() {
        lemma_stale_peers_first(front, now, threshold, k);
        let i = choose|i: int|
            {
                &&& 0 <= i < front.len()
                &&& stale_peer_of(#[trigger] front[i], now, threshold) == Some(earlier[k])
                &&& forall|j: int|
                    0 <= j < i ==> !stale_on(#[trigger] front[j], now, threshold, name)
            };
        assert forall|j: int| 0 <= j < i implies !stale_on(
            #[trigger] all[j],
            now,
            threshold,
            name,
        ) by {
            assert(all[j] == front[j]);
        }
    } else {
        lemma_stale_peers_names(front, now, threshold, name);
        assert forall|j: int| 0 <= j < n implies !stale_on(
            #[trigger] all[j],
            now,
            threshold,
            name,
        ) by {
            assert(all[j] == front[j]);
        }
    }
}

/// A line that contributes nothing can be left out of a run of lines.
pub proof fn lemma_stale_peers_skip(
    before: Seq<Seq<char>>,
    line: Seq<char>,
    after: Seq<Seq<char>>,
    now: u64,
    threshold: u64,
)
    requires
        stale_peer_of(line, now, threshold) is None,
    ensures
        stale_peers(before.push(line) + after, now, threshold) == stale_peers(
            before + after,
            now,
            threshold,
        ),
    decreases after.len(),
{
    if after.len() == 0 {
        assert(before.push(line).drop_last() == before);
    } else {
        lemma_stale_peers_skip(before, line, after.drop_last(), now, threshold);
        assert((before.push(line) + after).drop_last() == before.push(line) + after.drop_last());
        assert((before + after).drop_last() == before + after.drop_last());
    }
}

/// Evaluates one line into the stale peer it describes, if any.
pub fn evaluate_line(line: &str, now: u64, threshold: u64) -> (found: Option<StalePeer>)
    ensures
        match found {
            Some(p) => stale_peer_of(line@, now, threshold) == Some(p@),
            None => stale_peer_of(line@, now, threshold) is None,
        },
{
    match PeerRecord::parse(line, now) {
        Some(record) => {
            if record.is_stale(now, threshold) {
                let age: u64 = record.handshake_age(now);
                Some(
                    StalePeer {
                        interface: record.interface,
                        keepalive: record.persistent_keepalive,
                        age,
                    },
                )
            } else {
                None
            }
        },
        None => None,
    }
}

/// Evaluates a status dump at time `now`: the interfaces with a peer that is
/// held to the policy and whose latest handshake is older than `threshold`
/// seconds, each once, in the order of their first stale peer.
pub fn evaluate(dump: &str, now: u64, threshold: u64) -> (set: StaleInterfaceSet)
    ensures
        set.wf(),
        set@ == stale_in(dump@, now, threshold),
{
    let all = split_lines(dump);
    let mut set = StaleInterfaceSet::new();
    let mut i: usize = 0;
    while i < all.len()
        invariant
            i <= all.len(),
            set.wf(),
            set@ == stale_peers(all.deep_view().take(i as int), now, threshold),
        decreases all.len() - i,
    {
        let found = evaluate_line(all[i].as_str(), now, threshold);
        proof {
            let upto = all.deep_view().take(i + 1);
            assert(upto.drop_last() == all.deep_view().take(i as int));
        }
        match found {
            Some(peer) => {
                set.insert(peer);
            },
            None => {},
        }
        i += 1;
    }
    assert(all.deep_view().take(i as int) == all.deep_view());
    set
}

} // verus!
