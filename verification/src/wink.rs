//! Time-boxed permission for the cosmetic wink animation: granted for a
//! fixed duration, read as granted only while the current time has not
//! passed its expiry, with wrapping comparisons so that a wrapping clock
//! can never re-grant it after long inactivity.

use vstd::prelude::*;

use crate::alarm_mux::has_elapsed;
use crate::alarm_mux::spec_elapsed;

verus! {

/// A grant for the wink pattern, valid until an expiry timestamp.
#[derive(Clone, Copy, Debug)]
pub struct WinkPermission {
    expiration: Option<u64>,
}

impl WinkPermission {
    /// The expiry timestamp, or `None` when nothing is granted.
    pub closed spec fn expiration(&self) -> Option<u64> {
        self.expiration
    }

    /// Whether the grant is active at `now`: an expiry exists and has not
    /// elapsed yet.
    pub open spec fn spec_granted(&self, now: u64) -> bool {
        self.expiration() matches Some(e) && !spec_elapsed(e, now)
    }

    /// No grant.
    pub fn denied() -> (p: Self)
        ensures
            p.expiration() is None,
    {
        WinkPermission { expiration: None }
    }

    /// A grant lasting `duration` counter ticks from `now` (wrapping).
    pub fn granted(now: u64, duration: u64) -> (p: Self)
        ensures
            p.expiration() == Some(now.wrapping_add(duration)),
    {
        WinkPermission { expiration: Some(now.wrapping_add(duration)) }
    }

    /// Whether the grant is still active at `now`.
    pub fn is_granted(&self, now: u64) -> (r: bool)
        ensures
            r == self.spec_granted(now),
    {
        match self.expiration {
            Some(e) => !has_elapsed(e, now),
            None => false,
        }
    }

    /// The grant with its expiry enforced: unchanged while active, cleared
    /// once the current time passes the expiry.
    pub fn check_expiration(&self, now: u64) -> (p: Self)
        ensures
            self.spec_granted(now) ==> p.expiration() == self.expiration(),
            !self.spec_granted(now) ==> p.expiration() is None,
    {
        if self.is_granted(now) {
            *self
        } else {
            Self::denied()
        }
    }
}

} // verus!
