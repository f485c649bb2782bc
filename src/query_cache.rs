//! The cache of the last upstream reply of one query kind, and the three
//! caches of an instance.
use crate::info::A2SInfoReply;
use crate::player::A2SPlayerReply;
use crate::rules::A2SRulesReply;
use crate::timed_map::expiry;
use vstd::prelude::*;

verus! {

/// How long a cached reply is served when no other time is given, in ms.
pub const DEFAULT_REFRESH_INTERVAL_MS: u64 = 5_000;

/// How long a server description is served from the cache, in ms.
pub const INFO_TTL_MS: u64 = 10_000;

/// How long a player list is served from the cache, in ms.
pub const PLAYER_TTL_MS: u64 = 5_000;

/// How long the server rules are served from the cache, in ms.
pub const RULES_TTL_MS: u64 = 60_000;

/// The last reply fetched for one query kind and the instant it goes stale.
///
/// A lookup that finds nothing fresh tells the owner to fetch; the owner then
/// stores what it fetched. A failed fetch stores nothing, so the stale reply
/// stays until a fetch succeeds.
pub struct QueryCache<R> {
    val: Option<(R, u64)>,
    refresh_interval: u64,
}

impl<R> QueryCache<R> {
    pub closed spec fn entry(&self) -> Option<(R, u64)> {
        self.val
    }

    pub closed spec fn ttl(&self) -> u64 {
        self.refresh_interval
    }

    /// The reply that a lookup at `now` serves, if any.
    pub open spec fn fresh_at(&self, now: u64) -> Option<R> {
        match self.entry() {
            Some((v, expires)) => if now < expires {
                Some(v)
            } else {
                None
            },
            None => None,
        }
    }

    /// An empty cache whose entries stay fresh for `refresh_interval` ms.
    pub fn new(refresh_interval: Option<u64>) -> (r: Self)
        ensures
            r.entry() is None,
            r.ttl() == match refresh_interval {
                Some(t) => t,
                None => DEFAULT_REFRESH_INTERVAL_MS,
            },
    {
        let ttl = match refresh_interval {
            Some(t) => t,
            None => DEFAULT_REFRESH_INTERVAL_MS,
        };
        QueryCache { val: None, refresh_interval: ttl }
    }

    pub fn refresh_interval(&self) -> (r: u64)
        ensures
            r == self.ttl(),
    {
        self.refresh_interval
    }

    /// The cached reply if it is still fresh at `now`.
    pub fn lookup(&self, now: u64) -> (r: Option<&R>)
        ensures
            r == match self.fresh_at(now) {
                Some(v) => Some(&v),
                None => None::<&R>,
            },
    {
        match &self.val {
            Some((v, expires)) => if now < *expires {
                Some(v)
            } else {
                None
            },
            None => None,
        }
    }

    /// Keeps `reply`, fetched at `now`, for the cache's time to live.
    pub fn store(&mut self, reply: R, now: u64)
        ensures
            final(self).entry() == Some((reply, expiry(now, old(self).ttl()))),
            final(self).ttl() == old(self).ttl(),
    {
        let expires = if now > u64::MAX - self.refresh_interval {
            u64::MAX
        } else {
            now + self.refresh_interval
        };
        self.val = Some((reply, expires));
    }
}

/// A reply stored at `t0` is served exactly until its time to live has
/// passed: a lookup at `t1` finds it when less than the time to live has
/// gone by, and finds nothing, so that the owner fetches again, otherwise.
pub proof fn lemma_cache_ttl<R>(c: QueryCache<R>, reply: R, t0: u64, t1: u64)
    requires
        c.entry() == Some((reply, expiry(t0, c.ttl()))),
        t0 <= t1,
        t0 + c.ttl() <= u64::MAX,
    ensures
        t1 - t0 < c.ttl() ==> c.fresh_at(t1) == Some(reply),
        t1 - t0 >= c.ttl() ==> c.fresh_at(t1) is None,
{
}

/// Server descriptions: two lookups three seconds after a fetch share that
/// fetch, and a lookup twelve seconds after it needs a new one. (At the very
/// end of the millisecond clock the expiry is held at the clock's end, so the
/// fetch time is taken at least twelve seconds before it.)
pub proof fn lemma_info_ttl(m: QueryCacheManager, reply: A2SInfoReply, t0: u64)
    requires
        m.a2s_info.ttl() == INFO_TTL_MS,
        m.a2s_info.entry() == Some((reply, expiry(t0, INFO_TTL_MS))),
        t0 + 12_000 <= u64::MAX,
    ensures
        m.a2s_info.fresh_at(t0) == Some(reply),
        m.a2s_info.fresh_at((t0 + 3_000) as u64) == Some(reply),
        m.a2s_info.fresh_at((t0 + 12_000) as u64) is None,
{
    lemma_cache_ttl(m.a2s_info, reply, t0, t0);
    lemma_cache_ttl(m.a2s_info, reply, t0, (t0 + 3_000) as u64);
    lemma_cache_ttl(m.a2s_info, reply, t0, (t0 + 12_000) as u64);
}

/// The three reply caches of an instance, one per cached query kind.
pub struct QueryCacheManager {
    pub a2s_info: QueryCache<A2SInfoReply>,
    pub a2s_player: QueryCache<A2SPlayerReply>,
    pub a2s_rules: QueryCache<A2SRulesReply>,
}

impl QueryCacheManager {
    pub fn new() -> (r: Self)
        ensures
            r.a2s_info.entry() is None,
            r.a2s_info.ttl() == INFO_TTL_MS,
            r.a2s_player.entry() is None,
            r.a2s_player.ttl() == PLAYER_TTL_MS,
            r.a2s_rules.entry() is None,
            r.a2s_rules.ttl() == RULES_TTL_MS,
    {
        QueryCacheManager {
            a2s_info: QueryCache::new(Some(INFO_TTL_MS)),
            a2s_player: QueryCache::new(Some(PLAYER_TTL_MS)),
            a2s_rules: QueryCache::new(Some(RULES_TTL_MS)),
        }
    }
}

} // verus!
