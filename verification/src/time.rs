//! Durations in seconds and the points in time at which something expires.

use crate::types::{BlockInfo, Timestamp, NANOS_PER_SECOND};
use vstd::prelude::*;

verus! {

/// An amount of time, in seconds.
#[derive(Clone, Copy, Debug, PartialEq, Eq)]
pub struct Duration {
    pub secs: u64,
}

/// The moment from which something counts as expired. It is always a point
/// in time, never a block height, so any two expirations can be compared and
/// claims can be kept in the order of their release.
#[derive(Clone, Copy, Debug, PartialEq, Eq)]
pub struct Expiration {
    pub at: Timestamp,
}

/// `Duration::after_time` of tg_utils, read through `Expiration::as_key`: the
/// nanoseconds of the time `secs` seconds after `now_nanos`. The outside
/// function panics where that exceeds 64 bits.
#[verifier::external_body]
fn nanos_after(secs: u64, now_nanos: u64) -> (r: u64)
    requires
        now_nanos + secs * NANOS_PER_SECOND <= u64::MAX,
    ensures
        r == now_nanos + secs * NANOS_PER_SECOND,
{
    tg_utils::Duration::new(secs).after_time(cosmwasm_std::Timestamp::from_nanos(now_nanos)).as_key()
}

/// `Expiration::is_expired_time` of tg_utils: whether the time `now_nanos`
/// has reached the expiration at `at_nanos`.
#[verifier::external_body]
fn nanos_expired(at_nanos: u64, now_nanos: u64) -> (r: bool)
    ensures
        r == (now_nanos >= at_nanos),
{
    tg_utils::Expiration::at_timestamp(cosmwasm_std::Timestamp::from_nanos(at_nanos)).is_expired_time(
        cosmwasm_std::Timestamp::from_nanos(now_nanos),
    )
}

impl Duration {
    pub fn new(secs: u64) -> (d: Duration)
        ensures
            d.secs == secs,
    {
        Duration { secs }
    }

    pub fn seconds(&self) -> (s: u64)
        ensures
            s == self.secs,
    {
        self.secs
    }

    /// The duration ends within the range of a timestamp when it starts at `time`.
    pub open spec fn fits_after(&self, time: Timestamp) -> bool {
        time.nanos + self.secs * NANOS_PER_SECOND <= u64::MAX
    }

    /// Whether the duration ends within the range of a timestamp when it starts at `time`.
    pub fn ends_in_range(&self, time: Timestamp) -> (r: bool)
        ensures
            r == self.fits_after(time),
    {
        match self.secs.checked_mul(NANOS_PER_SECOND) {
            Some(n) => time.nanos.checked_add(n).is_some(),
            None => {
                assert(self.secs * NANOS_PER_SECOND > u64::MAX);
                false
            },
        }
    }

    /// The expiration that lies this duration after `time`.
    pub fn after_time(&self, time: Timestamp) -> (e: Expiration)
        requires
            self.fits_after(time),
        ensures
            e.at.nanos == time.nanos + self.secs * NANOS_PER_SECOND,
    {
        Expiration { at: Timestamp { nanos: nanos_after(self.secs, time.nanos) } }
    }

    /// The expiration that lies this duration after the block's time.
    pub fn after(&self, block: &BlockInfo) -> (e: Expiration)
        requires
            self.fits_after(block.time),
        ensures
            e.at.nanos == block.time.nanos + self.secs * NANOS_PER_SECOND,
    {
        self.after_time(block.time)
    }
}

impl Expiration {
    /// The expiration that the block's time has just reached.
    pub fn now(block: &BlockInfo) -> (e: Expiration)
        ensures
            e.at == block.time,
    {
        Expiration { at: block.time }
    }

    pub fn at_timestamp(at: Timestamp) -> (e: Expiration)
        ensures
            e.at == at,
    {
        Expiration { at }
    }

    /// Whether the block's time has reached the expiration.
    pub fn is_expired(&self, block: &BlockInfo) -> (r: bool)
        ensures
            r == (block.time.nanos >= self.at.nanos),
    {
        nanos_expired(self.at.nanos, block.time.nanos)
    }

    pub fn time(&self) -> (t: Timestamp)
        ensures
            t == self.at,
    {
        self.at
    }

    /// The number by which expirations are ordered: the nanoseconds.
    pub fn as_key(&self) -> (k: u64)
        ensures
            k == self.at.nanos,
    {
        self.at.nanos
    }
}

} // verus!
