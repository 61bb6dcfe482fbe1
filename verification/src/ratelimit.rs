//! A sliding-window rate limiter keyed by client identity.
//!
//! The limiter is a plain value: the caller owns one instance per
//! process, serializes access to it, and passes the current time in
//! whole seconds into every check. Eviction of expired entries is lazy,
//! on the next check for the same identity.

use vstd::prelude::*;
use std::collections::HashMap;

verus! {

/// The limiter's fixed configuration: the window length in seconds and
/// the number of requests allowed inside one window.
#[derive(Debug, Clone, Copy, PartialEq, Eq, Structural)]
pub struct RateLimitConfig {
    pub window_seconds: u64,
    pub max_requests: usize,
}

impl Default for RateLimitConfig {
    /// One minute and five requests per window.
    fn default() -> (r: Self)
        ensures
            r.window_seconds == 60,
            r.max_requests == 5,
    {
        RateLimitConfig { window_seconds: 60, max_requests: 5 }
    }
}

/// Whether a request recorded at `t` still counts against the window
/// ending at `now`; a recording from the future counts as age zero, as a
/// saturating clock difference would.
pub open spec fn spec_in_window(t: u64, now: u64, window: u64) -> bool {
    (if t >= now {
        0
    } else {
        now - t
    }) < window
}

/// The recorded request times of one identity, empty when none were
/// recorded yet.
pub open spec fn spec_entry(m: Map<u128, Vec<u64>>, identity: u128) -> Seq<u64> {
    if m.contains_key(identity) {
        m[identity]@
    } else {
        Seq::empty()
    }
}

/// The predicate keeping the recordings that still count at `now`.
pub open spec fn spec_live_pred(now: u64, window: u64) -> spec_fn(u64) -> bool {
    |t: u64| spec_in_window(t, now, window)
}

/// Per-identity sliding-window state: for each client identity the times
/// of its admitted requests.
pub struct RateLimiter {
    pub requests: HashMap<u128, Vec<u64>>,
    pub config: RateLimitConfig,
}

impl RateLimiter {
    /// A fresh limiter with no recorded requests.
    pub fn new(config: RateLimitConfig) -> (r: RateLimiter)
        ensures
            r.config == config,
            r.requests@ == Map::<u128, Vec<u64>>::empty(),
    {
        RateLimiter { requests: HashMap::new(), config }
    }

    /// Decides one request: drops this identity's recordings older than
    /// the window, rejects without recording when the remainder already
    /// fills the window, and otherwise records `now` and admits.
    ///
    /// Checking and recording happen in one step, and no other
    /// identity's state is touched.
    pub fn should_limit(&mut self, identity: u128, now: u64) -> (limited: bool)
        ensures
            ({
                let live = spec_entry(old(self).requests@, identity).filter(
                    spec_live_pred(now, old(self).config.window_seconds),
                );
                &&& limited == (live.len() >= old(self).config.max_requests)
                &&& final(self).requests@.contains_key(identity)
                &&& final(self).requests@[identity]@ == if limited {
                    live
                } else {
                    live.push(now)
                }
            }),
            final(self).config == old(self).config,
            forall|k: u128|
                k != identity ==> (final(self).requests@.contains_key(k) == old(
                    self,
                ).requests@.contains_key(k) && (old(self).requests@.contains_key(k)
                    ==> final(self).requests@[k] == old(self).requests@[k])),
    {
        let window = self.config.window_seconds;
        let max = self.config.max_requests;
        let ghost prior = spec_entry(self.requests@, identity);
        let recorded: Vec<u64> = match self.requests.get(&identity) {
            Some(v) => v.clone(),
            None => Vec::new(),
        };
        proof {
            assert(recorded@ == prior);
        }
        let mut live: Vec<u64> = Vec::new();
        let mut i: usize = 0;
        proof {
            reveal(Seq::filter);
        }
        while i < recorded.len()
            invariant
                i <= recorded@.len(),
                live@ == recorded@.take(i as int).filter(spec_live_pred(now, window)),
            decreases recorded@.len() - i,
        {
            proof {
                reveal(Seq::filter);
                assert(recorded@.take(i + 1 as int).drop_last() =~= recorded@.take(i as int));
                assert(recorded@.take(i + 1 as int).last() == recorded@[i as int]);
            }
            let t = recorded[i];
            let age = if t >= now {
                0
            } else {
                now - t
            };
            if age < window {
                live.push(t);
            }
            i = i + 1;
        }
        proof {
            assert(recorded@.take(recorded@.len() as int) =~= recorded@);
        }
        if live.len() >= max {
            self.requests.insert(identity, live);
            true
        } else {
            live.push(now);
            self.requests.insert(identity, live);
            false
        }
    }
}

/// The limiter configuration a request-handling layer installs; the
/// layer itself only carries the configuration the limiter is built
/// from.
#[derive(Debug, Clone, Copy, PartialEq, Eq, Structural)]
pub struct RateLimitLayer {
    pub config: RateLimitConfig,
}

impl RateLimitLayer {
    /// Wraps a configuration for installation.
    pub fn new(config: RateLimitConfig) -> (r: Self)
        ensures
            r.config == config,
    {
        RateLimitLayer { config }
    }
}

} // verus!
