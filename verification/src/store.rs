//! A modelled key/value store: string entries with expiry, and sets of
//! strings, as the gateway uses them. Writes append; a lookup takes the
//! newest record for a key, so the newest write wins and deletion is a
//! tombstone. The cache-aside layer reads through it.
use vstd::prelude::*;

use crate::codec::bytes_eq;

verus! {

/// A string entry: the value and the second at which it expires.
pub struct KvEntry {
    pub key: Vec<u8>,
    pub value: Vec<u8>,
    pub expires_at: u64,
}

/// A set record: the members, or `None` for a deletion tombstone.
pub struct SetEntry {
    pub key: Vec<u8>,
    pub members: Option<Vec<Vec<u8>>>,
}

/// The modelled store, with a logical clock in seconds.
pub struct MemStore {
    pub entries: Vec<KvEntry>,
    pub sets: Vec<SetEntry>,
    pub now: u64,
}

/// The newest string record under `key`: its value and expiry.
pub open spec fn find_entry(entries: Seq<KvEntry>, key: Seq<u8>) -> Option<(Seq<u8>, u64)>
    decreases entries.len(),
{
    if entries.len() == 0 {
        None
    } else if entries.last().key@ == key {
        Some((entries.last().value@, entries.last().expires_at))
    } else {
        find_entry(entries.drop_last(), key)
    }
}

/// The newest set record under `key` (a tombstone reads as absent).
pub open spec fn find_set(sets: Seq<SetEntry>, key: Seq<u8>) -> Option<Seq<Seq<u8>>>
    decreases sets.len(),
{
    if sets.len() == 0 {
        None
    } else if sets.last().key@ == key {
        match sets.last().members {
            Some(m) => Some(m@.map_values(|v: Vec<u8>| v@)),
            None => None,
        }
    } else {
        find_set(sets.drop_last(), key)
    }
}

impl MemStore {
    /// The stored value and expiry under `key`, if any record exists.
    pub open spec fn lookup(self, key: Seq<u8>) -> Option<(Seq<u8>, u64)> {
        find_entry(self.entries@, key)
    }

    /// The value a read returns now: present and not yet expired.
    pub open spec fn live_value(self, key: Seq<u8>) -> Option<Seq<u8>> {
        match self.lookup(key) {
            Some((v, exp)) => if self.now < exp {
                Some(v)
            } else {
                None
            },
            None => None,
        }
    }

    /// The members a set read returns now.
    pub open spec fn set_view(self, key: Seq<u8>) -> Option<Seq<Seq<u8>>> {
        find_set(self.sets@, key)
    }

    /// An empty store at second zero.
    pub fn new() -> (r: MemStore)
        ensures
            r.entries@.len() == 0,
            r.sets@.len() == 0,
            r.now == 0,
            forall|k: Seq<u8>| r.live_value(k) is None,
            forall|k: Seq<u8>| r.set_view(k) is None,
    {
        MemStore { entries: Vec::new(), sets: Vec::new(), now: 0 }
    }

    /// Moves the logical clock forward.
    pub fn advance(&mut self, seconds: u64)
        requires
            old(self).now + seconds <= u64::MAX,
        ensures
            final(self).now == old(self).now + seconds,
            final(self).entries == old(self).entries,
            final(self).sets == old(self).sets,
    {
        self.now = self.now + seconds;
    }

    /// Reads the value under `key`, if present and not expired.
    #[verifier::loop_isolation(false)]
    pub fn kv_get(&self, key: &Vec<u8>) -> (r: Option<Vec<u8>>)
        ensures
            match r {
                Some(v) => self.live_value(key@) == Some(v@),
                None => self.live_value(key@) is None,
            },
    {
        let n = self.entries.len();
        proof {
            assert(self.entries@.subrange(0, n as int) =~= self.entries@);
        }
        let mut i: usize = n;
        while i > 0
            invariant
                i <= n,
                n == self.entries@.len(),
                find_entry(self.entries@, key@) == find_entry(
                    self.entries@.subrange(0, i as int),
                    key@,
                ),
            decreases i,
        {
            i = i - 1;
            let e = &self.entries[i];
            proof {
                assert(self.entries@.subrange(0, i + 1).last() == self.entries@[i as int]);
                assert(self.entries@.subrange(0, i + 1).drop_last() =~= self.entries@.subrange(
                    0,
                    i as int,
                ));
            }
            if bytes_eq(e.key.as_slice(), key.as_slice()) {
                if self.now < e.expires_at {
                    let v = crate::json::copy_bytes(&e.value);
                    return Some(v);
                } else {
                    return None;
                }
            }
        }
        proof {
            assert(self.entries@.subrange(0, 0) =~= Seq::<KvEntry>::empty());
        }
        None
    }

    /// Stores `value` under `key` with a time to live in seconds.
    pub fn kv_set_ex(&mut self, key: Vec<u8>, value: Vec<u8>, ttl_secs: u64)
        requires
            old(self).now + ttl_secs <= u64::MAX,
        ensures
            final(self).now == old(self).now,
            final(self).sets == old(self).sets,
            final(self).lookup(key@) == Some((value@, (old(self).now + ttl_secs) as u64)),
            forall|k: Seq<u8>| k != key@ ==> final(self).lookup(k) == old(self).lookup(k),
    {
        let exp = self.now + ttl_secs;
        let gkey = Ghost(key@);
        self.entries.push(KvEntry { key, value, expires_at: exp });
        proof {
            assert(self.entries@.last().key@ == gkey@);
            assert(self.entries@.drop_last() =~= old(self).entries@);
        }
    }

    /// Reads the members of the set under `key`.
    #[verifier::loop_isolation(false)]
    pub fn set_members(&self, key: &Vec<u8>) -> (r: Option<Vec<Vec<u8>>>)
        ensures
            match r {
                Some(m) => self.set_view(key@) == Some(m@.map_values(|v: Vec<u8>| v@)),
                None => self.set_view(key@) is None,
            },
    {
        let n = self.sets.len();
        proof {
            assert(self.sets@.subrange(0, n as int) =~= self.sets@);
        }
        let mut i: usize = n;
        while i > 0
            invariant
                i <= n,
                n == self.sets@.len(),
                find_set(self.sets@, key@) == find_set(self.sets@.subrange(0, i as int), key@),
            decreases i,
        {
            i = i - 1;
            let e = &self.sets[i];
            proof {
                assert(self.sets@.subrange(0, i + 1).last() == self.sets@[i as int]);
                assert(self.sets@.subrange(0, i + 1).drop_last() =~= self.sets@.subrange(
                    0,
                    i as int,
                ));
            }
            if bytes_eq(e.key.as_slice(), key.as_slice()) {
                match &e.members {
                    Some(m) => {
                        let copy = copy_string_list(m);
                        return Some(copy);
                    },
                    None => {
                        return None;
                    },
                }
            }
        }
        proof {
            assert(self.sets@.subrange(0, 0) =~= Seq::<SetEntry>::empty());
        }
        None
    }

    /// Records the full member list of the set under `key`.
    pub fn set_put(&mut self, key: Vec<u8>, members: Vec<Vec<u8>>)
        ensures
            final(self).now == old(self).now,
            final(self).entries == old(self).entries,
            final(self).set_view(key@) == Some(members@.map_values(|v: Vec<u8>| v@)),
            forall|k: Seq<u8>| k != key@ ==> final(self).set_view(k) == old(self).set_view(k),
    {
        let gkey = Ghost(key@);
        self.sets.push(SetEntry { key, members: Some(members) });
        proof {
            assert(self.sets@.last().key@ == gkey@);
            assert(self.sets@.drop_last() =~= old(self).sets@);
        }
    }

    /// Deletes the set under `key`.
    pub fn set_del(&mut self, key: Vec<u8>)
        ensures
            final(self).now == old(self).now,
            final(self).entries == old(self).entries,
            final(self).set_view(key@) is None,
            forall|k: Seq<u8>| k != key@ ==> final(self).set_view(k) == old(self).set_view(k),
    {
        let gkey = Ghost(key@);
        self.sets.push(SetEntry { key, members: None });
        proof {
            assert(self.sets@.last().key@ == gkey@);
            assert(self.sets@.drop_last() =~= old(self).sets@);
        }
    }
}

/// Copies a list of byte strings.
#[verifier::loop_isolation(false)]
pub fn copy_string_list(v: &Vec<Vec<u8>>) -> (r: Vec<Vec<u8>>)
    ensures
        r@.map_values(|x: Vec<u8>| x@) == v@.map_values(|x: Vec<u8>| x@),
        r@.len() == v@.len(),
        forall|i: int| 0 <= i < v@.len() ==> r@[i]@ == v@[i]@,
{
    let mut out: Vec<Vec<u8>> = Vec::new();
    let n = v.len();
    let mut i: usize = 0;
    while i < n
        invariant
            i <= n,
            n == v@.len(),
            out@.len() == i,
            forall|k: int| 0 <= k < i ==> out@[k]@ == v@[k]@,
        decreases n - i,
    {
        out.push(crate::json::copy_bytes(&v[i]));
        i = i + 1;
    }
    proof {
        assert(out@.map_values(|x: Vec<u8>| x@) =~= v@.map_values(|x: Vec<u8>| x@));
    }
    out
}

// ------------------------------------------------------------------
// The cache-aside layer
// ------------------------------------------------------------------
/// What a cache read found.
pub enum CacheOutcome {
    Hit(Vec<u8>),
    Miss,
}

/// Reads the cache under `key`. On `Miss` the caller runs the producer once
/// and hands its result to `cache_fill`; a hit never runs the producer.
/// Known limitation: there is no stampede protection, so concurrent callers
/// of one key may each miss and recompute; nothing is ever cached as a
/// stand-in for a failed producer.
pub fn cache_lookup(store: &MemStore, key: &Vec<u8>) -> (r: CacheOutcome)
    ensures
        match r {
            CacheOutcome::Hit(v) => store.live_value(key@) == Some(v@),
            CacheOutcome::Miss => store.live_value(key@) is None,
        },
{
    match store.kv_get(key) {
        Some(v) => CacheOutcome::Hit(v),
        None => CacheOutcome::Miss,
    }
}

/// Stores a produced value under `key` with the given time to live.
pub fn cache_fill(store: &mut MemStore, key: Vec<u8>, value: Vec<u8>, ttl_secs: u64)
    requires
        old(store).now + ttl_secs <= u64::MAX,
    ensures
        final(store).now == old(store).now,
        final(store).sets == old(store).sets,
        final(store).lookup(key@) == Some((value@, (old(store).now + ttl_secs) as u64)),
        forall|k: Seq<u8>| k != key@ ==> final(store).lookup(k) == old(store).lookup(k),
{
    store.kv_set_ex(key, value, ttl_secs);
}

/// Cache-aside: once a produced value is stored under a key, every read of
/// that key before the expiry returns exactly that value, so the producer is
/// not consulted again.
pub proof fn lemma_cache_hit_after_fill(st: MemStore, key: Seq<u8>, value: Seq<u8>, exp: u64)
    requires
        st.lookup(key) == Some((value, exp)),
        st.now < exp,
    ensures
        st.live_value(key) == Some(value),
{
}

} // verus!
