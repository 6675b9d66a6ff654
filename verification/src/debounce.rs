//! Coalescing bursts of change notifications (network links, backlight, the
//! config file): a notification arms a deadline a quiet period away, later
//! notifications push it back, and the work runs once when it passes.
//! Times are milliseconds on a monotonic clock.
use vstd::prelude::*;

verus! {

/// How long to wait when nothing is pending (an hour).
pub const IDLE_WAIT_MS: u64 = 3_600_000;

/// A debouncer's state.
#[derive(Debug, Clone, Copy, PartialEq, Eq)]
pub struct Debouncer {
    /// When the pending work is due, if any is pending.
    pub pending_until: Option<u64>,
    /// Quiet period after the last notification.
    pub quiet_ms: u64,
}

/// `a + b`, saturating at `u64::MAX`.
pub open spec fn sat_add(a: u64, b: u64) -> u64 {
    if a + b > u64::MAX {
        u64::MAX
    } else {
        (a + b) as u64
    }
}

impl Debouncer {
    /// Nothing pending.
    pub fn new(quiet_ms: u64) -> (d: Self)
        ensures
            d.pending_until is None,
            d.quiet_ms == quiet_ms,
    {
        Debouncer { pending_until: None, quiet_ms }
    }

    /// How long to wait for the next notification at time `now`: until the
    /// deadline (zero once it passed), or `IDLE_WAIT_MS` when nothing is
    /// pending.
    pub fn wait_ms(&self, now: u64) -> (w: u64)
        ensures
            w == match self.pending_until {
                Some(until) => if until > now {
                    (until - now) as u64
                } else {
                    0
                },
                None => IDLE_WAIT_MS,
            },
    {
        match self.pending_until {
            Some(until) => if until > now {
                until - now
            } else {
                0
            },
            None => IDLE_WAIT_MS,
        }
    }

    /// A notification at `now`: the work is due a quiet period later.
    pub fn notify(&mut self, now: u64)
        ensures
            final(self).pending_until == Some(sat_add(now, old(self).quiet_ms)),
            final(self).quiet_ms == old(self).quiet_ms,
            *final(self) == notified(*old(self), now),
    {
        let until = if now > u64::MAX - self.quiet_ms {
            u64::MAX
        } else {
            now + self.quiet_ms
        };
        self.pending_until = Some(until);
    }

    /// The wait ended at `now` without a notification: says whether the
    /// pending work is due (it then is no longer pending).
    pub fn timeout(&mut self, now: u64) -> (fire: bool)
        ensures
            fire == (old(self).pending_until matches Some(until) && now >= until),
            fire ==> final(self).pending_until is None,
            !fire ==> final(self).pending_until == old(self).pending_until,
            final(self).quiet_ms == old(self).quiet_ms,
            (fire, *final(self)) == timed_out(*old(self), now),
    {
        match self.pending_until {
            Some(until) => if now >= until {
                self.pending_until = None;
                true
            } else {
                false
            },
            None => false,
        }
    }
}

/// The state after a notification at `now`.
pub open spec fn notified(d: Debouncer, now: u64) -> Debouncer {
    Debouncer { pending_until: Some(sat_add(now, d.quiet_ms)), quiet_ms: d.quiet_ms }
}

/// Whether a timeout at `now` fires, and the state after it.
pub open spec fn timed_out(d: Debouncer, now: u64) -> (bool, Debouncer) {
    match d.pending_until {
        Some(until) if now >= until => (true, Debouncer { pending_until: None, quiet_ms: d.quiet_ms }),
        _ => (false, d),
    }
}

/// Law: the work runs once per burst. After the last notification at `t`,
/// a timeout before `t + quiet` does not fire, the first one at or after it
/// fires, and a further timeout does not fire again.
pub proof fn lemma_fires_once_per_burst(d: Debouncer, t: u64, early: u64, late: u64, later: u64)
    requires
        t + d.quiet_ms <= u64::MAX,
        early < t + d.quiet_ms,
        late >= t + d.quiet_ms,
    ensures
        !timed_out(notified(d, t), early).0,
        timed_out(notified(d, t), early).1 == notified(d, t),
        timed_out(notified(d, t), late).0,
        !timed_out(timed_out(notified(d, t), late).1, later).0,
{
}

/// Law: a notification during the quiet period pushes the deadline back: it
/// never comes earlier than a quiet period after the latest notification.
pub proof fn lemma_notify_pushes_back(d: Debouncer, t1: u64, t2: u64, now: u64)
    requires
        t1 <= t2,
        t2 + d.quiet_ms <= u64::MAX,
        now < t2 + d.quiet_ms,
    ensures
        !timed_out(notified(notified(d, t1), t2), now).0,
{
}

} // verus!
