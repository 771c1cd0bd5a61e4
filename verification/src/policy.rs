//! The staleness policy: which peers are held to it, how a handshake's age
//! is measured, and when that age condemns an interface.

use vstd::prelude::*;

verus! {

/// Seconds without a completed handshake after which a peer counts as stale.
pub const HANDSHAKE_TIMEOUT_SEC: u64 = 180;

/// Seconds between two checks.
pub const CHECK_INTERVAL_SEC: u64 = 25;

/// Seconds elapsed at `now` since a handshake completed at `handshake`. A
/// handshake that lies in the future has age zero.
pub open spec fn age_at(now: u64, handshake: u64) -> u64 {
    if handshake >= now {
        0
    } else {
        (now - handshake) as u64
    }
}

/// Whether a peer is held to the policy: only one with a keepalive interval.
pub open spec fn holds_to_policy(keepalive: u64) -> bool {
    keepalive != 0
}

/// Whether a peer with this keepalive interval and this latest handshake is
/// stale at `now`: it is held to the policy and its handshake is older than
/// `threshold` seconds.
pub open spec fn is_stale_at(keepalive: u64, handshake: u64, now: u64, threshold: u64) -> bool {
    holds_to_policy(keepalive) && age_at(now, handshake) > threshold
}

/// Measures the age of a handshake, never below zero.
pub fn handshake_age(now: u64, handshake: u64) -> (age: u64)
    ensures
        age == age_at(now, handshake),
{
    now.saturating_sub(handshake)
}

/// Applies the staleness policy to one peer.
pub fn is_stale(keepalive: u64, handshake: u64, now: u64, threshold: u64) -> (stale: bool)
    ensures
        stale == is_stale_at(keepalive, handshake, now, threshold),
{
    keepalive != 0 && handshake_age(now, handshake) > threshold
}

/// The two periods that drive the supervisor.
#[derive(Clone, Copy, Debug, PartialEq, Eq)]
pub struct Config {
    handshake_timeout: u64,
    check_interval: u64,
}

impl Config {
    /// A configuration is sound when a check comes round more often than a
    /// handshake times out, so that a peer that has just crossed the
    /// threshold is caught at the next check.
    pub closed spec fn wf(&self) -> bool {
        self.check_interval < self.handshake_timeout
    }

    /// The staleness threshold, in seconds.
    pub closed spec fn timeout(&self) -> u64 {
        self.handshake_timeout
    }

    /// The pause between two checks, in seconds.
    pub closed spec fn interval(&self) -> u64 {
        self.check_interval
    }

    /// A configuration with the given periods, where they are sound.
    pub fn new(handshake_timeout: u64, check_interval: u64) -> (config: Option<Config>)
        ensures
            config is Some <==> check_interval < handshake_timeout,
            config matches Some(c) ==> c.wf() && c.timeout() == handshake_timeout && c.interval()
                == check_interval,
    {
        if check_interval < handshake_timeout {
            Some(Config { handshake_timeout, check_interval })
        } else {
            None
        }
    }

    /// The staleness threshold, in seconds.
    pub fn handshake_timeout(&self) -> (seconds: u64)
        ensures
            seconds == self.timeout(),
    {
        self.handshake_timeout
    }

    /// The pause between two checks, in seconds.
    pub fn check_interval(&self) -> (seconds: u64)
        ensures
            seconds == self.interval(),
    {
        self.check_interval
    }
}

/// Why a check must come round more often than a handshake times out: a
/// handshake that was within the timeout at one check is, at the next check
/// one interval later, less than two timeouts old.
pub proof fn next_check_comes_in_time(config: Config, handshake: u64, now: u64)
    requires
        config.wf(),
        now + config.interval() <= u64::MAX,
        age_at(now, handshake) <= config.timeout(),
    ensures
        age_at((now + config.interval()) as u64, handshake) <= config.timeout() + config.interval(),
        age_at((now + config.interval()) as u64, handshake) < 2 * config.timeout(),
{
}

impl Default for Config {
    /// The standard periods: a timeout of 180 seconds, checked every 25.
    fn default() -> (config: Config)
        ensures
            config.wf(),
            config.timeout() == HANDSHAKE_TIMEOUT_SEC,
            config.interval() == CHECK_INTERVAL_SEC,
    {
        Config { handshake_timeout: HANDSHAKE_TIMEOUT_SEC, check_interval: CHECK_INTERVAL_SEC }
    }
}

} // verus!
