//! Staleness supervision for WireGuard tunnel interfaces.
//!
//! WireGuard is silent about a peer that has stopped answering. Where a peer
//! is configured with a persistent keepalive interval and its handshakes stop
//! all the same, resetting the listen port of its interface makes the next
//! handshake leave from a fresh socket. This library decides when that is
//! due.
//!
//! * [`text`] and [`number`] read the characters of a status dump: lines,
//!   fields and decimal numbers.
//! * [`record`] turns one line into a [`record::PeerRecord`].
//! * [`policy`] holds the staleness policy and its two periods.
//! * [`stale_set`] holds the interfaces found stale, each once.
//! * [`evaluator`] evaluates a whole dump.
//! * [`cycle`] decides one detect-and-recover cycle from what the status
//!   collector brought back.
//! * [`theorems`] states what holds of every evaluation.
//!
//! Running the status and reset commands, reading the clock and sleeping are
//! left to the program that uses the library.

pub mod cycle;
pub mod evaluator;
pub mod number;
pub mod policy;
pub mod record;
pub mod stale_set;
pub mod text;
pub mod theorems;
