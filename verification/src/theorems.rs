//! What holds of every evaluation, proved from the definitions that the
//! contracts of this library are stated over.

use crate::cycle::{reading, Cycle};
use crate::evaluator::{
    lemma_stale_peers_distinct, lemma_stale_peers_first, lemma_stale_peers_names,
    lemma_stale_peers_skip, stale_in, stale_on, stale_peer_of, stale_peers,
};
use crate::number::{decimal_value, parsed_u64};
use crate::record::{record_of, PeerRecordView, PEER_COLUMNS};
use crate::stale_set::{
    distinct_interfaces, interfaces_of, lemma_occurrences, names_interface, occurrences,
    StalePeerView,
};
use crate::text::{
    fields, lemma_fields_strip_cr, lemma_lines_concat, lemma_lines_first, lemma_lines_last, lines,
    strip_cr,
};
use vstd::prelude::*;

verus! {

/// A peer without keepalive is never stale: a line whose keepalive column is
/// missing, is no number, or is zero marks no interface stale, whatever its
/// handshake time, the time of the check and the threshold.
pub proof fn keepalive_off_is_never_stale(line: Seq<char>, now: u64, threshold: u64)
    requires
        ({
            let f = fields(line);
            ||| f.len() < PEER_COLUMNS
            ||| f[8] == seq!['0']
            ||| parsed_u64(f[8]) is None
            ||| parsed_u64(f[8]) == Some(0u64)
        }),
    ensures
        stale_peer_of(line, now, threshold) is None,
{
    let zero = seq!['0'];
    assert(parsed_u64(zero) == Some(0u64)) by {
        assert(decimal_value(zero.drop_last()) == 0);
    }
}

/// An interface is never marked stale on account of peers without keepalive:
/// where every peer of the interface `name` in a dump has keepalive off, the
/// evaluation does not hold `name`.
pub proof fn interface_without_keepalive_is_never_stale(
    dump: Seq<char>,
    now: u64,
    threshold: u64,
    name: Seq<char>,
)
    requires
        forall|i: int|
            #![trigger lines(dump)[i]]
            0 <= i < lines(dump).len() ==> match record_of(lines(dump)[i], now) {
                Some(r) => r.interface == name ==> r.persistent_keepalive == 0,
                None => true,
            },
    ensures
        !names_interface(stale_in(dump, now, threshold), name),
{
    lemma_stale_peers_names(lines(dump), now, threshold, name);
}

/// The threshold decides: a peer whose handshake is no older than the
/// threshold is not stale, and a peer with keepalive on whose handshake is
/// older is stale. The age of a handshake that does not lie in the future is
/// the time since it.
pub proof fn staleness_follows_age(record: PeerRecordView, now: u64, threshold: u64)
    ensures
        record.latest_handshake <= now ==> record.age(now) == now - record.latest_handshake,
        record.age(now) <= threshold ==> !record.stale(now, threshold),
        record.age(now) > threshold && record.persistent_keepalive != 0 ==> record.stale(
            now,
            threshold,
        ),
{
}

/// An interface is marked stale exactly if the dump holds the line of a peer
/// on it that has keepalive on and a handshake older than the threshold.
pub proof fn interface_is_stale_iff_a_peer_is(
    dump: Seq<char>,
    now: u64,
    threshold: u64,
    name: Seq<char>,
)
    ensures
        names_interface(stale_in(dump, now, threshold), name) <==> exists|i: int|
            #![trigger lines(dump)[i]]
            0 <= i < lines(dump).len() && match record_of(lines(dump)[i], now) {
                Some(r) => r.interface == name && r.persistent_keepalive != 0 && r.age(now)
                    > threshold,
                None => false,
            },
{
    let all = lines(dump);
    lemma_stale_peers_names(all, now, threshold, name);
    if names_interface(stale_in(dump, now, threshold), name) {
        let i = choose|i: int|
            0 <= i < all.len() && stale_on(#[trigger] all[i], now, threshold, name);
        assert(record_of(all[i], now) is Some);
    }
}

/// One reset for each stale interface: however many stale peers an interface
/// has in a dump, the evaluation names it exactly once; an interface without
/// stale peer it does not name.
pub proof fn stale_interface_is_reset_once(
    dump: Seq<char>,
    now: u64,
    threshold: u64,
    name: Seq<char>,
)
    ensures
        distinct_interfaces(stale_in(dump, now, threshold)),
        occurrences(interfaces_of(stale_in(dump, now, threshold)), name) == if exists|i: int|
            0 <= i < lines(dump).len() && stale_on(#[trigger] lines(dump)[i], now, threshold, name) {
            1nat
        } else {
            0nat
        },
{
    let all = lines(dump);
    lemma_stale_peers_distinct(all, now, threshold);
    lemma_stale_peers_names(all, now, threshold, name);
    lemma_occurrences(stale_peers(all, now, threshold), name);
}

/// No interface is reset twice in one cycle, and none in a cycle that was
/// aborted.
pub proof fn cycle_resets_each_interface_once(cycle: Cycle, name: Seq<char>)
    requires
        cycle matches Cycle::Evaluated(set) ==> set.wf(),
    ensures
        occurrences(cycle.spec_resets(), name) <= 1,
        cycle is Aborted ==> occurrences(cycle.spec_resets(), name) == 0,
{
    match cycle {
        Cycle::Evaluated(set) => lemma_occurrences(set@, name),
        Cycle::Aborted(_) => {},
    }
}

/// What is reported of a stale interface is measured on the first of its
/// stale peers: each entry of the evaluation is what some line of the dump
/// contributes, and no earlier line describes a stale peer on that interface.
pub proof fn first_stale_peer_is_reported(dump: Seq<char>, now: u64, threshold: u64, k: int)
    requires
        0 <= k < stale_in(dump, now, threshold).len(),
    ensures
        exists|i: int|
            {
                &&& 0 <= i < lines(dump).len()
                &&& stale_peer_of(#[trigger] lines(dump)[i], now, threshold) == Some(
                    stale_in(dump, now, threshold)[k],
                )
                &&& forall|j: int|
                    0 <= j < i ==> !stale_on(
                        #[trigger] lines(dump)[j],
                        now,
                        threshold,
                        stale_in(dump, now, threshold)[k].interface,
                    )
            },
{
    lemma_stale_peers_first(lines(dump), now, threshold, k);
}

/// A malformed line is ignored: a line with fewer than nine fields can be
/// taken out of a dump, with its line ending, and the evaluation of the
/// other lines stays what it was.
pub proof fn malformed_line_is_ignored(
    head: Seq<char>,
    line: Seq<char>,
    tail: Seq<char>,
    now: u64,
    threshold: u64,
)
    requires
        head.len() == 0 || head.last() == '\n',
        !line.contains('\n'),
        fields(line).len() < PEER_COLUMNS,
    ensures
        stale_in(head + line.push('\n') + tail, now, threshold) == stale_in(
            head + tail,
            now,
            threshold,
        ),
        stale_in(head + line, now, threshold) == stale_in(head, now, threshold),
{
    let before = lines(head);
    let none = Seq::<Seq<char>>::empty();

    // the line contributes nothing, with or without a carriage return
    lemma_fields_strip_cr(line);
    assert(stale_peer_of(line, now, threshold) is None);
    assert(stale_peer_of(strip_cr(line), now, threshold) is None);

    // in the middle of the dump
    lemma_lines_first(line, tail);
    assert(head + line.push('\n') + tail == head + (line.push('\n') + tail));
    lemma_lines_concat(head, line.push('\n') + tail);
    lemma_lines_concat(head, tail);
    assert(before + (seq![strip_cr(line)] + lines(tail)) == before.push(strip_cr(line)) + lines(
        tail,
    ));
    lemma_stale_peers_skip(before, strip_cr(line), lines(tail), now, threshold);

    // at its end
    lemma_lines_last(line);
    lemma_lines_concat(head, line);
    if line.len() > 0 {
        lemma_stale_peers_skip(before, line, none, now, threshold);
    }
}

/// Clock skew harms nobody: a handshake that lies after the time of the
/// check has age zero, and its peer is not stale under any threshold.
pub proof fn future_handshake_is_never_stale(record: PeerRecordView, now: u64, threshold: u64)
    requires
        record.latest_handshake > now,
    ensures
        record.age(now) == 0,
        !record.stale(now, threshold),
{
}

/// A line whose handshake column names a time after the check marks no
/// interface stale.
pub proof fn line_with_future_handshake_is_never_stale(line: Seq<char>, now: u64, threshold: u64)
    requires
        fields(line).len() >= PEER_COLUMNS,
        parsed_u64(fields(line)[5]) matches Some(handshake) && handshake > now,
    ensures
        record_of(line, now) matches Some(r) && r.age(now) == 0,
        stale_peer_of(line, now, threshold) is None,
{
}

/// A handshake time that cannot be read counts as the time of the check: the
/// line's peer has age zero and marks no interface stale.
pub proof fn unreadable_handshake_is_never_stale(line: Seq<char>, now: u64, threshold: u64)
    requires
        fields(line).len() >= PEER_COLUMNS,
        parsed_u64(fields(line)[5]) is None,
    ensures
        record_of(line, now) matches Some(r) && r.latest_handshake == now && r.age(now) == 0,
        stale_peer_of(line, now, threshold) is None,
{
}

/// A reset that failed is tried again: an interface that is stale in a dump
/// is still stale when the same dump is evaluated at a later time, so as long
/// as no handshake completes, every later cycle asks for the reset anew.
pub proof fn stale_interface_stays_stale(
    dump: Seq<char>,
    now: u64,
    later: u64,
    threshold: u64,
    name: Seq<char>,
)
    requires
        now <= later,
        names_interface(stale_in(dump, now, threshold), name),
    ensures
        names_interface(stale_in(dump, later, threshold), name),
{
    let all = lines(dump);
    lemma_stale_peers_names(all, now, threshold, name);
    lemma_stale_peers_names(all, later, threshold, name);
    let i = choose|i: int| 0 <= i < all.len() && stale_on(#[trigger] all[i], now, threshold, name);
    // the line's handshake time was read, or its peer had age zero at `now`
    assert(parsed_u64(fields(all[i])[5]) is Some);
    assert(stale_on(all[i], later, threshold, name));
}

/// A run of lines evaluated at time zero yields no stale peer.
proof fn lemma_nothing_stale_at_zero(all: Seq<Seq<char>>, threshold: u64)
    ensures
        stale_peers(all, 0, threshold) == Seq::<StalePeerView>::empty(),
    decreases all.len(),
{
    if all.len() > 0 {
        lemma_nothing_stale_at_zero(all.drop_last(), threshold);
    }
}

/// A clock that gives no reading causes no reset: the cycle then evaluates
/// at time zero, where no handshake has any age.
pub proof fn no_reading_no_reset(dump: Seq<char>, threshold: u64)
    ensures
        stale_in(dump, reading(None), threshold) == Seq::<StalePeerView>::empty(),
{
    lemma_nothing_stale_at_zero(lines(dump), threshold);
}

} // verus!
