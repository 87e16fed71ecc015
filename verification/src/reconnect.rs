//! When the event stream drops: reconnect with exponential backoff, and after
//! too many failures in a row, poll for a while before trying again.

use vstd::prelude::*;

verus! {

/// The first wait, in seconds.
pub const INITIAL_BACKOFF_SECS: u64 = 1;

/// The longest wait between reconnection attempts, in seconds.
pub const MAX_BACKOFF_SECS: u64 = 30;

/// How many failures in a row are retried before polling takes over.
pub const MAX_CONSECUTIVE_FAILURES: u32 = 5;

/// How many polls are made before the stream is tried again.
pub const POLL_ROUNDS: u32 = 10;

/// The time between two polls, in seconds.
pub const POLL_INTERVAL_SECS: u64 = 30;

/// The wait after `n` failures in a row: it starts at one second and doubles,
/// but never exceeds the maximum.
pub open spec fn backoff_after(n: nat) -> nat
    decreases n,
{
    if n == 0 {
        INITIAL_BACKOFF_SECS as nat
    } else {
        let doubled: nat = 2 * backoff_after((n - 1) as nat);
        if doubled < MAX_BACKOFF_SECS {
            doubled
        } else {
            MAX_BACKOFF_SECS as nat
        }
    }
}

/// What to do after a connection to the stream has ended.
#[derive(Debug, Clone, Copy, PartialEq, Eq, Structural)]
pub enum ReconnectAction {
    /// Connect again at once.
    Reconnect,
    /// Announce the wait, wait `delay_secs` seconds, then connect again.
    RetryAfter { failure: u32, delay_secs: u64 },
    /// Give up on the stream for a while: poll `rounds` times, waiting
    /// `interval_secs` seconds before each poll, then connect again.
    Poll { failure: u32, rounds: u32, interval_secs: u64 },
}

/// The abstract state of the reconnection policy.
pub struct ReconnectState {
    pub backoff_secs: nat,
    pub failures: nat,
}

/// Decides, connection after connection, how the client gets back to the
/// stream.
pub struct ReconnectPolicy {
    backoff_secs: u64,
    consecutive_failures: u32,
}

impl View for ReconnectPolicy {
    type V = ReconnectState;

    closed spec fn view(&self) -> ReconnectState {
        ReconnectState {
            backoff_secs: self.backoff_secs as nat,
            failures: self.consecutive_failures as nat,
        }
    }
}

/// The wait is always between one second and the maximum.
pub proof fn lemma_backoff_bounds(n: nat)
    ensures
        1 <= backoff_after(n) <= MAX_BACKOFF_SECS,
    decreases n,
{
    if n > 0 {
        lemma_backoff_bounds((n - 1) as nat);
    }
}

/// The waits after one, two, ... five failures in a row are 1, 2, 4, 8 and
/// 16 seconds; the next one would be capped at 30. Polling lasts five
/// minutes.
pub proof fn lemma_backoff_schedule()
    ensures
        POLL_ROUNDS * POLL_INTERVAL_SECS == 300,
        backoff_after(0) == 1,
        backoff_after(1) == 2,
        backoff_after(2) == 4,
        backoff_after(3) == 8,
        backoff_after(4) == 16,
        backoff_after(5) == 30,
{
    reveal_with_fuel(backoff_after, 6);
}

impl ReconnectPolicy {
    /// The policy's invariant: at most the allowed number of failures are
    /// pending, and the next wait is the one that their number calls for.
    pub open spec fn well_formed(&self) -> bool {
        &&& self@.failures <= MAX_CONSECUTIVE_FAILURES
        &&& self@.backoff_secs == backoff_after(self@.failures)
    }

    /// A policy with no failure behind it.
    pub fn new() -> (p: ReconnectPolicy)
        ensures
            p.well_formed(),
            p@.failures == 0,
            p@.backoff_secs == INITIAL_BACKOFF_SECS,
    {
        ReconnectPolicy { backoff_secs: INITIAL_BACKOFF_SECS, consecutive_failures: 0 }
    }

    /// Decides what follows a connection that ended cleanly (`clean`) or with
    /// an error. A clean end starts over and reconnects. A failure that keeps
    /// the count of failures in a row within the limit waits the current
    /// backoff, which then doubles up to the maximum. The failure after that
    /// switches to polling, and the policy starts over.
    pub fn on_connection_end(&mut self, clean: bool) -> (action: ReconnectAction)
        requires
            old(self).well_formed(),
        ensures
            final(self).well_formed(),
            clean ==> action == ReconnectAction::Reconnect && final(self)@.failures == 0,
            !clean && old(self)@.failures < MAX_CONSECUTIVE_FAILURES ==> {
                &&& action == ReconnectAction::RetryAfter {
                    failure: (old(self)@.failures + 1) as u32,
                    delay_secs: old(self)@.backoff_secs as u64,
                }
                &&& final(self)@.failures == old(self)@.failures + 1
            },
            !clean && old(self)@.failures == MAX_CONSECUTIVE_FAILURES ==> {
                &&& action == ReconnectAction::Poll {
                    failure: (MAX_CONSECUTIVE_FAILURES + 1) as u32,
                    rounds: POLL_ROUNDS,
                    interval_secs: POLL_INTERVAL_SECS,
                }
                &&& final(self)@.failures == 0
            },
    {
        if clean {
            self.backoff_secs = INITIAL_BACKOFF_SECS;
            self.consecutive_failures = 0;
            return ReconnectAction::Reconnect;
        }
        let failure: u32 = self.consecutive_failures + 1;
        if failure > MAX_CONSECUTIVE_FAILURES {
            self.backoff_secs = INITIAL_BACKOFF_SECS;
            self.consecutive_failures = 0;
            ReconnectAction::Poll {
                failure,
                rounds: POLL_ROUNDS,
                interval_secs: POLL_INTERVAL_SECS,
            }
        } else {
            let delay: u64 = self.backoff_secs;
            proof {
                lemma_backoff_bounds(self@.failures);
            }
            let doubled: u64 = delay * 2;
            self.backoff_secs = if doubled < MAX_BACKOFF_SECS {
                doubled
            } else {
                MAX_BACKOFF_SECS
            };
            self.consecutive_failures = failure;
            ReconnectAction::RetryAfter { failure, delay_secs: delay }
        }
    }
}

/// However the connections end, the client never waits longer than the
/// maximum before reconnecting, and never less than one second.
pub proof fn lemma_retry_delay_bounded(p: ReconnectPolicy)
    requires
        p.well_formed(),
    ensures
        1 <= p@.backoff_secs <= MAX_BACKOFF_SECS,
{
    lemma_backoff_bounds(p@.failures);
}

} // verus!
