//! Which addresses have solved a proof-of-work challenge.

use vstd::prelude::*;

use crate::ip::IpAddr;
use crate::ttl_cache;
use crate::ttl_cache::KeyedTtlCache;

verus! {

/// The addresses that are known to have solved a challenge, or not to.
pub struct ChallengeCache {
    pub verified_ips: KeyedTtlCache<IpAddr, bool>,
}

impl ChallengeCache {
    pub open spec fn wf(&self) -> bool {
        self.verified_ips.wf()
    }

    /// With nothing known.
    pub fn new(ttl: u64) -> (r: ChallengeCache)
        ensures
            r.wf(),
            r.verified_ips.ttl() == ttl,
            r.verified_ips@ == Map::<IpAddr, (u64, bool)>::empty(),
    {
        ChallengeCache { verified_ips: KeyedTtlCache::new(ttl) }
    }

    /// Whether an address has solved a challenge, where that is known.
    pub fn is_ip_verified(&self, ip: IpAddr, now: u64) -> (r: Option<bool>)
        requires
            self.wf(),
        ensures
            r == ttl_cache::lookup(self.verified_ips@, self.verified_ips.ttl(), ip, now),
    {
        match self.verified_ips.get(&ip, now) {
            Some(v) => Some(*v),
            None => None,
        }
    }

    /// Takes in what came of asking the database of an address: its word is
    /// noted, and where asking failed nothing is.
    pub fn settle<E>(&mut self, ip: IpAddr, reply: Result<bool, E>, fetched: u64, now: u64) -> (r:
        Option<E>)
        requires
            old(self).wf(),
        ensures
            final(self).wf(),
            final(self).verified_ips.ttl() == old(self).verified_ips.ttl(),
            final(self).verified_ips@ == ttl_cache::after_fetch(
                old(self).verified_ips@,
                old(self).verified_ips.ttl(),
                ip,
                reply,
                fetched,
                now,
            ),
            r == (match reply {
                Ok(_) => None,
                Err(e) => Some(e),
            }),
    {
        self.verified_ips.settle(ip, reply, fetched, now)
    }

    /// Notes that an address has just solved a challenge, so that the upload
    /// right after it is let through: until the entry runs out, a lookup of
    /// the address says so.
    pub fn mark_ip_verified(&mut self, ip: IpAddr, now: u64)
        requires
            old(self).wf(),
        ensures
            final(self).wf(),
            final(self).verified_ips.ttl() == old(self).verified_ips.ttl(),
            final(self).verified_ips@ == old(self).verified_ips@.insert(ip, (now, true)),
            forall|then: u64|
                ttl_cache::age(now, then) < old(self).verified_ips.ttl()
                    ==> #[trigger] ttl_cache::lookup(
                    final(self).verified_ips@,
                    final(self).verified_ips.ttl(),
                    ip,
                    then,
                ) == Some(true),
    {
        self.verified_ips.set(ip, true, now);
    }
}

} // verus!
