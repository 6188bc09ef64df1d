//! The fill levels of the upload throttle.
//!
//! Each address has a bucket: a level, and the time it was last filled up.
//! How a level changes is up to the caller, who keeps it as 64 bits.

use vstd::prelude::*;

use crate::ip::IpAddr;
use crate::ttl_cache;
use crate::ttl_cache::KeyedTtlCache;

verus! {

/// A bucket that is not used for so many nanoseconds is forgotten.
pub const IDLE_NANOS: u64 = 60_000_000_000;

/// The buckets of all addresses.
pub struct UploadThrottle {
    pub buckets: KeyedTtlCache<IpAddr, (u64, u64)>,
}

impl UploadThrottle {
    pub open spec fn wf(&self) -> bool {
        &&& self.buckets.wf()
        &&& self.buckets.ttl() == IDLE_NANOS
    }

    /// Without buckets.
    pub fn new() -> (r: UploadThrottle)
        ensures
            r.wf(),
            r.buckets@ == Map::<IpAddr, (u64, (u64, u64))>::empty(),
    {
        UploadThrottle { buckets: KeyedTtlCache::new(IDLE_NANOS) }
    }

    /// When the bucket of an address was last filled up, and its level then.
    /// None for an address without bucket or with one that is forgotten.
    pub fn bucket(&self, ip: IpAddr, now: u64) -> (r: Option<(u64, u64)>)
        requires
            self.wf(),
        ensures
            r == ttl_cache::lookup(self.buckets@, IDLE_NANOS, ip, now),
    {
        match self.buckets.get(&ip, now) {
            Some(b) => Some(*b),
            None => None,
        }
    }

    /// Notes the level of an address's bucket, and forgets the buckets that
    /// were not used for long.
    pub fn store(&mut self, ip: IpAddr, level: u64, now: u64)
        requires
            old(self).wf(),
        ensures
            final(self).wf(),
            final(self).buckets@ == ttl_cache::still_fresh(
                old(self).buckets@.insert(ip, (now, (now, level))),
                IDLE_NANOS,
                now,
            ),
    {
        self.buckets.refresh(ip, (now, level), now, now);
    }
}

/// A bucket is remembered for a minute from when its level was noted, and the
/// buckets of other addresses are not affected.
pub proof fn lemma_bucket_is_remembered(
    buckets: Map<IpAddr, (u64, (u64, u64))>,
    ip: IpAddr,
    level: u64,
    at: u64,
    other: IpAddr,
    now: u64,
)
    requires
        at <= now,
    ensures
        ({
            let after = ttl_cache::still_fresh(
                buckets.insert(ip, (at, (at, level))),
                IDLE_NANOS,
                at,
            );
            &&& now - at < 60_000_000_000 ==> ttl_cache::lookup(after, IDLE_NANOS, ip, now) == Some(
                (at, level),
            )
            &&& now - at >= 60_000_000_000 ==> ttl_cache::lookup(after, IDLE_NANOS, ip, now) is None
            &&& other != ip ==> ttl_cache::lookup(after, IDLE_NANOS, other, now)
                == ttl_cache::lookup(buckets, IDLE_NANOS, other, now)
        }),
{
    ttl_cache::lemma_refresh_then_lookup(
        buckets,
        IDLE_NANOS,
        ip,
        (at, level),
        at,
        at,
        other,
        now,
    );
}

} // verus!
