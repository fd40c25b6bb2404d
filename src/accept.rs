//! The acceptor's rules: the connection cap and the backoff after failed accepts.

use vstd::prelude::*;

verus! {

/// How many connections are served at once; the next waits for a free place.
pub const MAX_CONNECTIONS: usize = 250;

/// The longest wait, in seconds, between two tries to accept a connection.
pub const BACKOFF_MAX: u64 = 64;

/// The wait before the next try to accept, doubling from one second.
pub struct Backoff {
    secs: u64,
}

impl Backoff {
    /// The wait, in seconds, that the next failure brings.
    pub closed spec fn seconds(&self) -> nat {
        self.secs as nat
    }

    pub closed spec fn wf(&self) -> bool {
        1 <= self.secs <= 2 * BACKOFF_MAX
    }

    pub fn new() -> (r: Backoff)
        ensures
            r.wf(),
            r.seconds() == 1,
    {
        Backoff { secs: 1 }
    }

    /// After a failed accept: the seconds to wait before trying again, or none
    /// once the wait would pass `BACKOFF_MAX`, when the failure is final.
    pub fn on_error(&mut self) -> (r: Option<u64>)
        requires
            old(self).wf(),
        ensures
            final(self).wf(),
            old(self).seconds() > BACKOFF_MAX ==> r is None
                && final(self).seconds() == old(self).seconds(),
            old(self).seconds() <= BACKOFF_MAX ==> r == Some(old(self).seconds() as u64)
                && final(self).seconds() == 2 * old(self).seconds(),
    {
        if self.secs > BACKOFF_MAX {
            return None;
        }
        let wait = self.secs;
        self.secs = self.secs * 2;
        Some(wait)
    }
}

} // verus!
