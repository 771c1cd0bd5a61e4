//! One peer of a status dump, as its line describes it.

use crate::number::{parse_u64_or, parsed_u64_or};
use crate::policy::{age_at, handshake_age, is_stale, is_stale_at};
use crate::stale_set::StalePeerView;
use crate::text::{fields, same_text, split_fields, split_list, split_on};
use vstd::prelude::*;

verus! {

/// Number of columns in a peer's line.
pub const PEER_COLUMNS: usize = 9;

/// What the dump writes in a column that has no value: `(none)`.
pub open spec fn absent() -> Seq<char> {
    seq!['(', 'n', 'o', 'n', 'e', ')']
}

/// One peer, as read from one line of a status dump.
#[derive(Clone, Debug, PartialEq, Eq)]
pub struct PeerRecord {
    /// Name of the interface that the peer belongs to.
    pub interface: String,
    /// The peer's public key. It plays no part in the policy.
    pub public_key: String,
    /// Whether the peer has a pre-shared key.
    pub has_preshared_key: bool,
    /// The peer's endpoint address, where it has one.
    pub endpoint: Option<String>,
    /// The address ranges routed to the peer.
    pub allowed_ips: Vec<String>,
    /// Time of the latest handshake, in seconds since the epoch.
    pub latest_handshake: u64,
    /// Bytes received from the peer.
    pub rx_bytes: u64,
    /// Bytes sent to the peer.
    pub tx_bytes: u64,
    /// Keepalive interval in seconds; zero where keepalive is off.
    pub persistent_keepalive: u64,
}

/// The mathematical content of a [`PeerRecord`].
pub struct PeerRecordView {
    pub interface: Seq<char>,
    pub public_key: Seq<char>,
    pub has_preshared_key: bool,
    pub endpoint: Option<Seq<char>>,
    pub allowed_ips: Seq<Seq<char>>,
    pub latest_handshake: u64,
    pub rx_bytes: u64,
    pub tx_bytes: u64,
    pub persistent_keepalive: u64,
}

impl View for PeerRecord {
    type V = PeerRecordView;

    open spec fn view(&self) -> PeerRecordView {
        PeerRecordView {
            interface: self.interface@,
            public_key: self.public_key@,
            has_preshared_key: self.has_preshared_key,
            endpoint: match self.endpoint {
                Some(e) => Some(e@),
                None => None,
            },
            allowed_ips: self.allowed_ips.deep_view(),
            latest_handshake: self.latest_handshake,
            rx_bytes: self.rx_bytes,
            tx_bytes: self.tx_bytes,
            persistent_keepalive: self.persistent_keepalive,
        }
    }
}

/// The value of an optional column: none where the column holds the marker.
pub open spec fn optional_column(field: Seq<char>) -> Option<Seq<char>> {
    if field == absent() {
        None
    } else {
        Some(field)
    }
}

/// The entries of a comma-separated column: none where the column holds the
/// marker.
pub open spec fn list_column(field: Seq<char>) -> Seq<Seq<char>> {
    if field == absent() {
        Seq::empty()
    } else {
        split_on(field, ',')
    }
}

/// The record that a line describes at time `now`. A line with fewer than
/// nine fields describes none. The columns are, in order: interface, public
/// key, pre-shared key, endpoint, allowed addresses, latest handshake, bytes
/// received, bytes sent, keepalive interval. A handshake time that is no
/// number counts as `now`; a counter or a keepalive interval that is no number
/// counts as zero.
pub open spec fn record_of(line: Seq<char>, now: u64) -> Option<PeerRecordView> {
    let f = fields(line);
    if f.len() < PEER_COLUMNS {
        None
    } else {
        Some(
            PeerRecordView {
                interface: f[0],
                public_key: f[1],
                has_preshared_key: f[2] != absent(),
                endpoint: optional_column(f[3]),
                allowed_ips: list_column(f[4]),
                latest_handshake: parsed_u64_or(f[5], now),
                rx_bytes: parsed_u64_or(f[6], 0),
                tx_bytes: parsed_u64_or(f[7], 0),
                persistent_keepalive: parsed_u64_or(f[8], 0),
            },
        )
    }
}

impl PeerRecordView {
    /// Age of the peer's latest handshake at `now`.
    pub open spec fn age(self, now: u64) -> u64 {
        age_at(now, self.latest_handshake)
    }

    /// Whether the peer is stale at `now` under `threshold`.
    pub open spec fn stale(self, now: u64, threshold: u64) -> bool {
        is_stale_at(self.persistent_keepalive, self.latest_handshake, now, threshold)
    }

    /// What is reported of the peer where it is stale at `now`: its
    /// interface, its keepalive interval and the age of its handshake.
    pub open spec fn as_stale(self, now: u64) -> StalePeerView {
        StalePeerView {
            interface: self.interface,
            keepalive: self.persistent_keepalive,
            age: self.age(now),
        }
    }
}

/// Tells whether a column holds the marker for "no value".
fn is_absent(field: &str) -> (b: bool)
    ensures
        b == (field@ == absent()),
{
    proof {
        reveal_strlit("(none)");
        assert("(none)"@ =~= absent());
    }
    same_text(field, "(none)")
}

impl PeerRecord {
    /// Reads one line of a status dump.
    pub fn parse(line: &str, now: u64) -> (record: Option<PeerRecord>)
        ensures
            match record {
                Some(r) => record_of(line@, now) == Some(r@),
                None => record_of(line@, now) is None,
            },
    {
        let f = split_fields(line);
        if f.len() < PEER_COLUMNS {
            return None;
        }
        assert(forall|i: int| 0 <= i < f.len() ==> f@[i]@ == #[trigger] f.deep_view()[i]);
        let interface = f[0].clone();
        let public_key = f[1].clone();
        let has_preshared_key = !is_absent(f[2].as_str());
        let endpoint = if is_absent(f[3].as_str()) {
            None
        } else {
            Some(f[3].clone())
        };
        let allowed_ips = if is_absent(f[4].as_str()) {
            Vec::new()
        } else {
            split_list(f[4].as_str(), ',')
        };
        let latest_handshake: u64 = parse_u64_or(f[5].as_str(), now);
        let rx_bytes: u64 = parse_u64_or(f[6].as_str(), 0);
        let tx_bytes: u64 = parse_u64_or(f[7].as_str(), 0);
        let persistent_keepalive: u64 = parse_u64_or(f[8].as_str(), 0);
        let record = PeerRecord {
            interface,
            public_key,
            has_preshared_key,
            endpoint,
            allowed_ips,
            latest_handshake,
            rx_bytes,
            tx_bytes,
            persistent_keepalive,
        };
        assert(record@.allowed_ips =~= list_column(fields(line@)[4]));
        Some(record)
    }

    /// Whether the peer is held to the staleness policy.
    pub fn keepalive_enabled(&self) -> (enabled: bool)
        ensures
            enabled == (self@.persistent_keepalive != 0),
    {
        self.persistent_keepalive != 0
    }

    /// Age of the peer's latest handshake at `now`, in seconds.
    pub fn handshake_age(&self, now: u64) -> (age: u64)
        ensures
            age == self@.age(now),
    {
        handshake_age(now, self.latest_handshake)
    }

    /// Whether the peer is stale at `now` under `threshold`.
    pub fn is_stale(&self, now: u64, threshold: u64) -> (stale: bool)
        ensures
            stale == self@.stale(now, threshold),
    {
        is_stale(self.persistent_keepalive, self.latest_handshake, now, threshold)
    }
}

} // verus!
