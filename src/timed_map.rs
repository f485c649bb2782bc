//! A map from peer address to challenge token in which every entry expires.
//!
//! Time is a count of milliseconds on a monotonic clock that the caller
//! reads; every operation takes the current time as an argument. The entries
//! live in a `DashMap`, reached through the trusted wrappers at the end.
use dashmap::DashMap;
use vstd::prelude::*;

verus! {

/// A peer's UDP address: the IP address in its 128-bit IPv6 form (IPv4
/// addresses mapped into it) and the port.
pub type PeerKey = (u128, u16);

/// What the map keeps for a key: the token, the instant it expires, and the
/// time to live it was inserted with.
pub type TimedEntry = (i32, u64, u64);

/// The entries of a timed map, by key.
pub type TimedEntries = Map<PeerKey, TimedEntry>;

/// How often expired entries are swept away unless told otherwise, in ms.
pub const DEFAULT_CLEANUP_INTERVAL_MS: u64 = 60_000;

#[verifier::external_type_specification]
#[verifier::external_body]
#[verifier::reject_recursive_types(K)]
#[verifier::reject_recursive_types(V)]
#[verifier::reject_recursive_types(S)]
pub struct ExDashMap<K, V, S>(DashMap<K, V, S>);

/// The entries of a `DashMap` of timed entries.
pub uninterp spec fn dash_entries(m: DashMap<PeerKey, TimedEntry>) -> Map<PeerKey, TimedEntry>;

/// The instant `ttl` after `now`, held at the end of the clock.
pub open spec fn expiry(now: u64, ttl: u64) -> u64 {
    if now + ttl > u64::MAX {
        u64::MAX
    } else {
        (now + ttl) as u64
    }
}

/// An entry is live strictly before its expiry instant.
pub open spec fn is_live(m: Map<PeerKey, TimedEntry>, key: PeerKey, now: u64) -> bool {
    m.contains_key(key) && now < m[key].1
}

/// The entries after a lookup of `key` at `now`: an expired entry is dropped;
/// a live one gets a new expiry when `refresh` is set.
pub open spec fn after_get(
    m: Map<PeerKey, TimedEntry>,
    key: PeerKey,
    now: u64,
    refresh: bool,
) -> Map<PeerKey, TimedEntry> {
    if is_live(m, key, now) {
        if refresh {
            m.insert(key, (m[key].0, expiry(now, m[key].2), m[key].2))
        } else {
            m
        }
    } else {
        m.remove(key)
    }
}

/// The entries after a sweep at `now`: exactly the live ones stay.
pub open spec fn swept(m: Map<PeerKey, TimedEntry>, now: u64) -> Map<PeerKey, TimedEntry> {
    m.restrict(m.dom().filter(|k: PeerKey| now < m[k].1))
}

pub struct TimedHashMap {
    inner: DashMap<PeerKey, TimedEntry>,
    refresh_on_access: bool,
    cleanup_interval: u64,
}

impl View for TimedHashMap {
    type V = Map<PeerKey, TimedEntry>;

    closed spec fn view(&self) -> Map<PeerKey, TimedEntry> {
        dash_entries(self.inner)
    }
}

impl TimedHashMap {
    pub closed spec fn refreshes(&self) -> bool {
        self.refresh_on_access
    }

    pub closed spec fn spec_cleanup_interval(&self) -> u64 {
        self.cleanup_interval
    }

    /// An empty map; a lookup renews an entry's expiry when
    /// `refresh_on_access` is set.
    pub fn new(refresh_on_access: bool, cleanup_interval: Option<u64>) -> (r: Self)
        ensures
            r@ == Map::<PeerKey, TimedEntry>::empty(),
            r.refreshes() == refresh_on_access,
            r.spec_cleanup_interval() == match cleanup_interval {
                Some(i) => i,
                None => DEFAULT_CLEANUP_INTERVAL_MS,
            },
    {
        let interval = match cleanup_interval {
            Some(i) => i,
            None => DEFAULT_CLEANUP_INTERVAL_MS,
        };
        TimedHashMap { inner: dash_new(), refresh_on_access, cleanup_interval: interval }
    }

    pub fn cleanup_interval(&self) -> (r: u64)
        ensures
            r == self.spec_cleanup_interval(),
    {
        self.cleanup_interval
    }

    /// Sets `key` to `value`, expiring `ttl` after `now`; replaces any entry.
    pub fn insert(&mut self, key: PeerKey, value: i32, ttl: u64, now: u64)
        ensures
            final(self)@ == old(self)@.insert(key, (value, expiry(now, ttl), ttl)),
            final(self).refreshes() == old(self).refreshes(),
            final(self).spec_cleanup_interval() == old(self).spec_cleanup_interval(),
    {
        let expires = if now > u64::MAX - ttl {
            u64::MAX
        } else {
            now + ttl
        };
        dash_insert(&mut self.inner, key, (value, expires, ttl));
    }

    /// The value of `key` if its entry is live at `now`.
    pub fn get(&mut self, key: PeerKey, now: u64) -> (r: Option<i32>)
        ensures
            r == (if is_live(old(self)@, key, now) {
                Some(old(self)@[key].0)
            } else {
                None
            }),
            final(self)@ == after_get(old(self)@, key, now, old(self).refreshes()),
            final(self).refreshes() == old(self).refreshes(),
            final(self).spec_cleanup_interval() == old(self).spec_cleanup_interval(),
    {
        match dash_get(&self.inner, &key) {
            Some((value, expires, ttl)) => {
                if now < expires {
                    if self.refresh_on_access {
                        let renewed = if now > u64::MAX - ttl {
                            u64::MAX
                        } else {
                            now + ttl
                        };
                        dash_insert(&mut self.inner, key, (value, renewed, ttl));
                    }
                    Some(value)
                } else {
                    dash_remove(&mut self.inner, &key);
                    None
                }
            },
            None => {
                dash_remove(&mut self.inner, &key);
                assert(self@ =~= old(self)@.remove(key));
                None
            },
        }
    }

    /// Drops every entry that has expired at `now`; the live ones stay as
    /// they were.
    pub fn cleanup(&mut self, now: u64)
        ensures
            final(self)@ == swept(old(self)@, now),
            forall|k: PeerKey| #[trigger] final(self)@.contains_key(k) ==> now < final(self)@[k].1,
            final(self).refreshes() == old(self).refreshes(),
            final(self).spec_cleanup_interval() == old(self).spec_cleanup_interval(),
    {
        dash_retain_live(&mut self.inner, now);
        assert(self@ =~= swept(old(self)@, now));
    }

    /// The number of entries, live or not.
    pub fn len(&self) -> (r: usize)
        ensures
            r as nat == self@.len(),
    {
        dash_len(&self.inner)
    }
}

/// Whether an entry is still live at `now`.
pub fn entry_is_live(entry: &TimedEntry, now: u64) -> (r: bool)
    ensures
        r == (now < entry.1),
{
    now < entry.1
}

/// Relies on `DashMap::new`: a new map holds no entry.
#[verifier::external_body]
fn dash_new() -> (r: DashMap<PeerKey, TimedEntry>)
    ensures
        dash_entries(r) == TimedEntries::empty(),
{
    DashMap::new()
}

/// Relies on `DashMap::insert`: the key maps to the value afterwards, and no
/// other entry changes.
#[verifier::external_body]
fn dash_insert(m: &mut DashMap<PeerKey, TimedEntry>, key: PeerKey, value: TimedEntry)
    ensures
        dash_entries(*final(m)) == dash_entries(*old(m)).insert(key, value),
{
    m.insert(key, value);
}

/// Relies on `DashMap::get`: the entry of the key, if there is one.
#[verifier::external_body]
fn dash_get(m: &DashMap<PeerKey, TimedEntry>, key: &PeerKey) -> (r: Option<TimedEntry>)
    ensures
        r == (if dash_entries(*m).contains_key(*key) {
            Some(dash_entries(*m)[*key])
        } else {
            None
        }),
{
    m.get(key).map(|e| *e)
}

/// Relies on `DashMap::remove`: the key has no entry afterwards, and no other
/// entry changes.
#[verifier::external_body]
fn dash_remove(m: &mut DashMap<PeerKey, TimedEntry>, key: &PeerKey)
    ensures
        dash_entries(*final(m)) == dash_entries(*old(m)).remove(*key),
{
    m.remove(key);
}

/// Relies on `DashMap::retain`: exactly the entries for which the predicate
/// holds stay, unchanged (the predicate here does not touch them).
#[verifier::external_body]
fn dash_retain_live(m: &mut DashMap<PeerKey, TimedEntry>, now: u64)
    ensures
        forall|k: PeerKey| #[trigger]
            dash_entries(*final(m)).contains_key(k) <==> dash_entries(*old(m)).contains_key(k)
                && now < dash_entries(*old(m))[k].1,
        forall|k: PeerKey| #[trigger]
            dash_entries(*final(m)).contains_key(k) ==> dash_entries(*final(m))[k] == dash_entries(
                *old(m),
            )[k],
{
    m.retain(|_, e| entry_is_live(e, now));
}

/// Relies on `DashMap::len`: the number of entries.
#[verifier::external_body]
fn dash_len(m: &DashMap<PeerKey, TimedEntry>) -> (r: usize)
    ensures
        r as nat == dash_entries(*m).len(),
{
    m.len()
}

} // verus!
