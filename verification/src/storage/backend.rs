//! Retention of stored objects.
use crate::primitives::clock_shows;
use crate::primitives::read_clock;
use vstd::prelude::*;

verus! {

/// How strictly a lock is kept.
#[derive(Debug, Clone, Copy, PartialEq, Eq, Structural)]
pub enum RetentionMode {
    Governance,
    Compliance,
}

impl Default for RetentionMode {
    fn default() -> (out: Self)
        ensures
            out == RetentionMode::Governance,
    {
        RetentionMode::Governance
    }
}

/// A lock that keeps an object from being changed or removed.
#[derive(Debug, Clone, Copy, PartialEq, Eq, Structural)]
pub struct RetentionLock {
    pub mode: RetentionMode,
    /// When the lock ends, in seconds since the Unix epoch.
    pub retain_until: Option<u64>,
    pub legal_hold: bool,
    pub local_immutability: bool,
}

/// The time `duration` seconds after `now`; the last representable one where that is too late.
pub open spec fn later(now: u64, duration: u64) -> u64 {
    if now + duration > u64::MAX {
        u64::MAX
    } else {
        (now + duration) as u64
    }
}

impl RetentionLock {
    pub fn new(mode: RetentionMode) -> (out: Self)
        ensures
            out == (RetentionLock {
                mode,
                retain_until: None,
                legal_hold: false,
                local_immutability: false,
            }),
    {
        RetentionLock { mode, retain_until: None, legal_hold: false, local_immutability: false }
    }

    /// The lock with an end `duration` seconds after `now`.
    pub fn with_retain_duration_from(self, now: u64, duration: u64) -> (out: Self)
        ensures
            out == (RetentionLock { retain_until: Some(later(now, duration)), ..self }),
    {
        RetentionLock {
            mode: self.mode,
            retain_until: Some(now.saturating_add(duration)),
            legal_hold: self.legal_hold,
            local_immutability: self.local_immutability,
        }
    }

    /// The lock with an end `duration` seconds from now.
    pub fn with_retain_duration(self, duration: u64) -> (out: Self)
        ensures
            exists|now: u64|
                #[trigger] clock_shows(now) && out == (RetentionLock {
                    retain_until: Some(later(now, duration)),
                    ..self
                }),
    {
        let now = read_clock();
        let out = self.with_retain_duration_from(now, duration);
        assert(out.retain_until == Some(later(now, duration)));
        out
    }
}

/// A lock that is made for a duration ends that long after its start, or never where that is not
/// representable.
pub proof fn locks_end_after_their_duration(now: u64, duration: u64)
    ensures
        now + duration <= u64::MAX ==> later(now, duration) == now + duration,
        now + duration > u64::MAX ==> later(now, duration) == u64::MAX,
        later(now, duration) >= now,
        later(now, duration) >= duration,
{
}

} // verus!
