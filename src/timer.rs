//! The retransmission timer. Time is a count of milliseconds that the
//! caller supplies; the timer never reads a clock.
use vstd::prelude::*;

use crate::error::Error;

verus! {

/// The retransmission timeout, its bounds, the deadline when running, and
/// the expirations since the last acknowledged progress.
#[derive(Debug, Copy, Clone, PartialEq, Eq, Structural)]
pub struct RetransmitTimer {
    pub rto: u64,
    pub rto_min: u64,
    pub rto_max: u64,
    pub deadline: Option<u64>,
    pub expirations: u32,
    pub max_expirations: u32,
}

impl RetransmitTimer {
    /// The timeout stays within its bounds, which are positive.
    pub open spec fn wf(self) -> bool {
        0 < self.rto_min <= self.rto <= self.rto_max
    }

    /// A stopped timer whose timeout starts at `rto_min`. Bounds that are
    /// zero or inverted are refused.
    pub fn new(rto_min: u64, rto_max: u64, max_expirations: u32) -> (r: Result<RetransmitTimer, Error>)
        ensures
            0 < rto_min <= rto_max ==> r == Ok::<RetransmitTimer, Error>(
                RetransmitTimer { rto: rto_min, rto_min, rto_max, deadline: None, expirations: 0, max_expirations },
            ),
            !(0 < rto_min <= rto_max) ==> r == Err::<RetransmitTimer, Error>(Error::ErrInvalidRtoBounds),
            r is Ok ==> r->Ok_0.wf(),
    {
        if rto_min == 0 || rto_min > rto_max {
            return Err(Error::ErrInvalidRtoBounds);
        }
        Ok(RetransmitTimer { rto: rto_min, rto_min, rto_max, deadline: None, expirations: 0, max_expirations })
    }

    /// Starts (or restarts) the timer at `now`: it expires one timeout
    /// later, saturating at the largest time.
    pub fn start(&mut self, now: u64)
        ensures
            *final(self) == (RetransmitTimer {
                deadline: Some(if now + old(self).rto <= u64::MAX { (now + old(self).rto) as u64 } else { u64::MAX }),
                ..*old(self)
            }),
    {
        self.deadline = Some(now.saturating_add(self.rto));
    }

    /// Stops the timer.
    pub fn stop(&mut self)
        ensures
            *final(self) == (RetransmitTimer { deadline: None, ..*old(self) }),
    {
        self.deadline = None;
    }

    /// Whether the timer runs and its deadline has come at `now`.
    pub fn is_expired(&self, now: u64) -> (r: bool)
        ensures
            r == (self.deadline is Some && self.deadline->Some_0 <= now),
    {
        match self.deadline {
            Some(d) => d <= now,
            None => false,
        }
    }

    /// Records acknowledged progress: the count of expirations in a row
    /// starts again, and the timer restarts at `now`.
    pub fn on_progress(&mut self, now: u64)
        ensures
            final(self).expirations == 0,
            final(self).rto == old(self).rto,
            *final(self) == (RetransmitTimer {
                expirations: 0,
                deadline: Some(if now + old(self).rto <= u64::MAX { (now + old(self).rto) as u64 } else { u64::MAX }),
                ..*old(self)
            }),
    {
        self.expirations = 0;
        self.start(now);
    }

    /// Handles an expiry at `now`: the expiration is counted, and one more
    /// than `max_expirations` in a row stops the timer and reports the peer
    /// unreachable. Otherwise the timeout doubles, up to `rto_max`, and the
    /// timer restarts; the new timeout is returned.
    pub fn on_expiry(&mut self, now: u64) -> (r: Result<u64, Error>)
        requires
            old(self).wf(),
        ensures
            final(self).wf(),
            old(self).expirations >= old(self).max_expirations ==> r == Err::<u64, Error>(Error::ErrPeerUnreachable)
                && *final(self) == (RetransmitTimer {
                deadline: None,
                ..*old(self)
            }),
            old(self).expirations < old(self).max_expirations ==> {
                let rto = if 2 * old(self).rto <= old(self).rto_max { (2 * old(self).rto) as u64 } else { old(self).rto_max };
                &&& r == Ok::<u64, Error>(rto)
                &&& *final(self) == (RetransmitTimer {
                    rto,
                    expirations: (old(self).expirations + 1) as u32,
                    deadline: Some(if now + rto <= u64::MAX { (now + rto) as u64 } else { u64::MAX }),
                    ..*old(self)
                })
            },
    {
        if self.expirations >= self.max_expirations {
            self.deadline = None;
            return Err(Error::ErrPeerUnreachable);
        }
        self.expirations = self.expirations + 1;
        self.rto = if self.rto <= self.rto_max / 2 { 2 * self.rto } else { self.rto_max };
        self.start(now);
        Ok(self.rto)
    }
}

} // verus!
