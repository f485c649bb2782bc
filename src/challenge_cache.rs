//! The server side of the anti-spoofing handshake: one challenge token per
//! peer address, issued on first sight and kept for a fixed time.
use crate::header::NO_CHALLENGE;
use crate::timed_map::{
    expiry, is_live, PeerKey, TimedEntries, TimedHashMap, DEFAULT_CLEANUP_INTERVAL_MS,
};
use vstd::prelude::*;

verus! {

/// How long a token stays valid, in ms.
pub const CHALLENGE_TTL_MS: u64 = 30_000;

/// Relies on `rand::random`: a value drawn from the thread-local generator.
/// Nothing is promised of which value it is. (It panics only when the
/// operating system's random source cannot seed that generator.)
pub assume_specification<T>[ rand::random::<T> ]() -> (r: T)
    where
        rand::distributions::Standard: rand::distributions::Distribution<T>,
;

/// The token issued from a random draw: `-1` is kept for clients that have
/// none, so a draw of `-1` is replaced.
pub open spec fn token_from_draw(draw: i32) -> i32 {
    if draw == NO_CHALLENGE {
        i32::MAX
    } else {
        draw
    }
}

/// What asking for the token of `addr` at `now` gives, and the entries after:
/// the live token if there is one, else a token from `draw`, stored.
pub open spec fn spec_get_challenge(m: TimedEntries, addr: PeerKey, now: u64, draw: i32) -> (
    i32,
    TimedEntries,
) {
    if is_live(m, addr, now) {
        (m[addr].0, m)
    } else {
        let t = token_from_draw(draw);
        (t, m.insert(addr, (t, expiry(now, CHALLENGE_TTL_MS), CHALLENGE_TTL_MS)))
    }
}

/// Every stored token can be told from the "no challenge" value.
pub open spec fn tokens_ok(m: TimedEntries) -> bool {
    forall|k: PeerKey| #[trigger] m.contains_key(k) ==> m[k].0 != NO_CHALLENGE
}

pub struct ChallengeCache {
    inner: TimedHashMap,
}

impl View for ChallengeCache {
    type V = TimedEntries;

    closed spec fn view(&self) -> TimedEntries {
        self.inner@
    }
}

impl ChallengeCache {
    pub closed spec fn wf(&self) -> bool {
        &&& !self.inner.refreshes()
        &&& self.inner.spec_cleanup_interval() == DEFAULT_CLEANUP_INTERVAL_MS
        &&& tokens_ok(self.inner@)
    }

    pub fn new() -> (r: Self)
        ensures
            r.wf(),
            r@ == TimedEntries::empty(),
    {
        ChallengeCache { inner: TimedHashMap::new(false, None) }
    }

    /// How often the owner should sweep expired tokens away, in ms.
    pub fn cleanup_interval(&self) -> (r: u64)
        ensures
            self.wf() ==> r == DEFAULT_CLEANUP_INTERVAL_MS,
    {
        self.inner.cleanup_interval()
    }

    /// Drops the tokens that have expired at `now`.
    pub fn cleanup(&mut self, now: u64)
        requires
            old(self).wf(),
        ensures
            final(self).wf(),
            forall|k: PeerKey| #[trigger] final(self)@.contains_key(k) <==> is_live(old(self)@, k, now),
            forall|k: PeerKey| #[trigger] final(self)@.contains_key(k) ==> final(self)@[k] == old(self)@[k],
    {
        self.inner.cleanup(now);
    }

    /// The token of `addr` at `now`, taking `draw` as the fresh token when
    /// there is no live one.
    pub fn get_challenge_with(&mut self, addr: PeerKey, now: u64, draw: i32) -> (r: i32)
        requires
            old(self).wf(),
        ensures
            final(self).wf(),
            (r, final(self)@) == spec_get_challenge(old(self)@, addr, now, draw),
            r != NO_CHALLENGE,
    {
        match self.inner.get(addr, now) {
            Some(token) => {
                assert(self@ =~= old(self)@);
                token
            },
            None => {
                let token = if draw == NO_CHALLENGE {
                    i32::MAX
                } else {
                    draw
                };
                self.inner.insert(addr, token, CHALLENGE_TTL_MS, now);
                assert(self@ =~= old(self)@.insert(
                    addr,
                    (token, expiry(now, CHALLENGE_TTL_MS), CHALLENGE_TTL_MS),
                ));
                token
            },
        }
    }

    /// The token of `addr` at `now`: the live one, or a freshly drawn random
    /// token, stored for the next thirty seconds.
    pub fn get_challenge(&mut self, addr: PeerKey, now: u64) -> (r: i32)
        requires
            old(self).wf(),
        ensures
            final(self).wf(),
            r != NO_CHALLENGE,
            is_live(old(self)@, addr, now) ==> r == old(self)@[addr].0 && final(self)@ == old(self)@,
            !is_live(old(self)@, addr, now) ==> final(self)@ == old(self)@.insert(
                addr,
                (r, expiry(now, CHALLENGE_TTL_MS), CHALLENGE_TTL_MS),
            ),
    {
        let draw: i32 = rand::random::<i32>();
        self.get_challenge_with(addr, now, draw)
    }
}

/// A token stays the same until it expires: asking again for the same
/// address before then gives the token issued first, whatever is drawn; and a
/// token issued at `t1` expires thirty seconds later.
pub proof fn lemma_token_stable(
    m: TimedEntries,
    addr: PeerKey,
    t1: u64,
    t2: u64,
    draw1: i32,
    draw2: i32,
)
    requires
        t1 <= t2,
        t1 + CHALLENGE_TTL_MS <= u64::MAX,
    ensures
        ({
            let (first, m1) = spec_get_challenge(m, addr, t1, draw1);
            let (second, m2) = spec_get_challenge(m1, addr, t2, draw2);
            &&& m1.contains_key(addr) && m1[addr].0 == first
            &&& !is_live(m, addr, t1) ==> m1[addr].1 == t1 + CHALLENGE_TTL_MS
            &&& t2 < m1[addr].1 ==> second == first && m2 == m1
        }),
{
}

/// Asking for one address changes no other address's token.
pub proof fn lemma_peers_isolated(m: TimedEntries, addr: PeerKey, other: PeerKey, now: u64, draw: i32)
    requires
        other != addr,
    ensures
        spec_get_challenge(m, addr, now, draw).1.contains_key(other) == m.contains_key(other),
        m.contains_key(other) ==> spec_get_challenge(m, addr, now, draw).1[other] == m[other],
{
}

} // verus!
