//! One detect-and-recover cycle: what to do with what the status collector
//! brought back.
//!
//! The collector and the recovery commands run outside this library. A cycle
//! takes the collector's result and the clock's reading, and answers with the
//! interfaces whose listen port is to be reset.

use crate::evaluator::{evaluate, stale_in};
use crate::policy::Config;
use crate::stale_set::{interfaces_of, StaleInterfaceSet};
use vstd::prelude::*;

verus! {

/// Why the status collector brought no dump.
#[derive(Clone, Debug, PartialEq, Eq)]
pub enum CollectFailure {
    /// The status command could not be started; the text says why.
    Launch(String),
    /// The status command ran and reported failure.
    ExitStatus,
}

/// How a cycle ended.
#[derive(Clone, Debug)]
pub enum Cycle {
    /// There was no dump. Nothing was evaluated and nothing is to be reset.
    Aborted(CollectFailure),
    /// The dump was evaluated; these interfaces are stale.
    Evaluated(StaleInterfaceSet),
}

/// The time that a cycle measures ages against: the clock's reading in
/// seconds since the epoch, or zero where the clock gave none.
pub open spec fn reading(clock: Option<u64>) -> u64 {
    match clock {
        Some(seconds) => seconds,
        None => 0,
    }
}

impl Cycle {
    /// The interfaces to reset, in order: the stale ones of an evaluated
    /// cycle, none of an aborted one.
    pub open spec fn spec_resets(&self) -> Seq<Seq<char>> {
        match self {
            Cycle::Aborted(_) => Seq::empty(),
            Cycle::Evaluated(set) => interfaces_of(set@),
        }
    }

    /// The interfaces whose listen port is to be reset, each once.
    pub fn resets(&self) -> (names: Vec<String>)
        ensures
            names.deep_view() == self.spec_resets(),
    {
        match self {
            Cycle::Aborted(_) => Vec::new(),
            Cycle::Evaluated(set) => set.interfaces(),
        }
    }
}

/// Decides one cycle. Where the collector failed, the cycle is aborted with
/// that failure and asks for no reset. Where it brought a dump, the dump is
/// evaluated against the clock's reading and the configured timeout.
pub fn run_cycle(
    collected: Result<String, CollectFailure>,
    clock: Option<u64>,
    config: &Config,
) -> (cycle: Cycle)
    ensures
        match collected {
            Ok(dump) => cycle matches Cycle::Evaluated(set) && set.wf() && set@ == stale_in(
                dump@,
                reading(clock),
                config.timeout(),
            ),
            Err(failure) => cycle == Cycle::Aborted(failure),
        },
{
    match collected {
        Ok(dump) => {
            let now: u64 = match clock {
                Some(seconds) => seconds,
                None => 0,
            };
            Cycle::Evaluated(evaluate(dump.as_str(), now, config.handshake_timeout()))
        },
        Err(failure) => Cycle::Aborted(failure),
    }
}

} // verus!
