//! The content-addressed payload cache.
//!
//! Artifacts (album art, notification icons) are stored under caller-chosen
//! names. An in-memory least-recently-used layer of bounded capacity sits in
//! front of an unbounded backing store; the store is modelled here as the
//! association of names to bytes that the cache directory holds, and the
//! caller persists the writes this type reports. The cache is write-once per
//! name: a `put` for a name that is already held changes nothing.
//!
//! The in-memory layer is the `lru_cache` crate's `LruCache`; its contents
//! and capacity are named below and every method the cache calls carries a
//! contract over those names.

use vstd::prelude::*;

use crate::bytes::{bytes_eq, clone_bytes};

verus! {

#[verifier::external_type_specification]
#[verifier::external_body]
#[verifier::reject_recursive_types(K)]
#[verifier::reject_recursive_types(V)]
#[verifier::reject_recursive_types(S)]
pub struct ExLruCache<K: core::cmp::Eq + core::hash::Hash, V, S: core::hash::BuildHasher>(
    lru_cache::LruCache<K, V, S>,
);

/// The entries the in-memory layer holds, least-recently-used first.
pub uninterp spec fn lru_state(c: lru_cache::LruCache<Vec<u8>, Vec<u8>>) -> Seq<(Seq<u8>, Seq<u8>)>;

/// The capacity the in-memory layer was made with.
pub uninterp spec fn lru_capacity(c: lru_cache::LruCache<Vec<u8>, Vec<u8>>) -> nat;

/// Whether an association list holds `key`.
pub open spec fn alist_has(s: Seq<(Seq<u8>, Seq<u8>)>, key: Seq<u8>) -> bool {
    exists|i: int| 0 <= i < s.len() && s[i].0 == key
}

/// An index of `key` in an association list (the index, when keys are
/// distinct).
pub open spec fn alist_index(s: Seq<(Seq<u8>, Seq<u8>)>, key: Seq<u8>) -> int {
    choose|i: int| 0 <= i < s.len() && s[i].0 == key
}

/// Appending an entry to a full list drops the least-recently-used one.
pub open spec fn push_evict(
    s: Seq<(Seq<u8>, Seq<u8>)>,
    key: Seq<u8>,
    data: Seq<u8>,
    cap: nat,
) -> Seq<(Seq<u8>, Seq<u8>)> {
    if s.len() + 1 > cap {
        s.push((key, data)).drop_first()
    } else {
        s.push((key, data))
    }
}

/// Relies on `lru_cache::LruCache::new`: an empty cache with the given
/// capacity.
#[verifier::external_body]
fn lru_new(cap: usize) -> (r: lru_cache::LruCache<Vec<u8>, Vec<u8>>)
    requires
        cap >= 1,
    ensures
        lru_state(r) == Seq::<(Seq<u8>, Seq<u8>)>::empty(),
        lru_capacity(r) == cap,
{
    lru_cache::LruCache::new(cap)
}

/// Relies on `lru_cache::LruCache::get_mut` (`get_refresh` underneath): a
/// hit hands the entry back and moves it to most-recently-used; a miss
/// changes nothing.
#[verifier::external_body]
fn lru_get(c: &mut lru_cache::LruCache<Vec<u8>, Vec<u8>>, key: &Vec<u8>) -> (r: Option<Vec<u8>>)
    ensures
        lru_capacity(*final(c)) == lru_capacity(*old(c)),
        match r {
            Some(data) => {
                &&& alist_has(lru_state(*old(c)), key@)
                &&& data@ == lru_state(*old(c))[alist_index(lru_state(*old(c)), key@)].1
                &&& lru_state(*final(c)) == lru_state(*old(c)).remove(
                    alist_index(lru_state(*old(c)), key@),
                ).push((key@, data@))
            },
            None => {
                &&& !alist_has(lru_state(*old(c)), key@)
                &&& lru_state(*final(c)) == lru_state(*old(c))
            },
        },
{
    match c.get_mut(key) {
        Some(v) => Some(v.clone()),
        None => None,
    }
}

/// Relies on `lru_cache::LruCache::insert`: a key that is not yet held is
/// attached most-recently-used and, past capacity, the least-recently-used
/// entry leaves.
#[verifier::external_body]
fn lru_insert(c: &mut lru_cache::LruCache<Vec<u8>, Vec<u8>>, key: Vec<u8>, data: Vec<u8>)
    requires
        !alist_has(lru_state(*old(c)), key@),
    ensures
        lru_capacity(*final(c)) == lru_capacity(*old(c)),
        lru_state(*final(c)) == push_evict(
            lru_state(*old(c)),
            key@,
            data@,
            lru_capacity(*old(c)),
        ),
{
    let _ = c.insert(key, data);
}

/// Mathematical image of the cache: the in-memory entries in recency order,
/// the backing store, and the memory capacity.
#[verifier::ext_equal]
pub struct CacheView {
    pub mem: Seq<(Seq<u8>, Seq<u8>)>,
    pub disk: Map<Seq<u8>, Seq<u8>>,
    pub cap: nat,
}

impl CacheView {
    /// Distinct keys everywhere, bounded memory, and every in-memory entry
    /// backed by the store with the same bytes.
    pub open spec fn wf(&self) -> bool {
        &&& forall|i: int, j: int| 0 <= i < j < self.mem.len() ==> self.mem[i].0 != self.mem[j].0
        &&& self.mem.len() <= self.cap
        &&& self.cap >= 1
        &&& forall|i: int|
            0 <= i < self.mem.len() ==> self.disk.dom().contains(self.mem[i].0)
                && self.disk[self.mem[i].0] == self.mem[i].1
    }
}

/// The transition performed by `get`: a memory hit refreshes the entry, a
/// store hit repopulates memory, a miss changes nothing.
pub open spec fn spec_cache_get(v: CacheView, name: Seq<u8>) -> (CacheView, Option<Seq<u8>>) {
    if alist_has(v.mem, name) {
        let i = alist_index(v.mem, name);
        let data = v.mem[i].1;
        (CacheView { mem: v.mem.remove(i).push((name, data)), ..v }, Some(data))
    } else if v.disk.dom().contains(name) {
        let data = v.disk[name];
        (CacheView { mem: push_evict(v.mem, name, data, v.cap), ..v }, Some(data))
    } else {
        (v, None)
    }
}

/// The transition performed by `put`: nothing on a hit, memory insertion
/// plus a store write on a miss.
pub open spec fn spec_cache_put(v: CacheView, name: Seq<u8>, data: Seq<u8>) -> CacheView {
    let (v1, r) = spec_cache_get(v, name);
    if r is Some {
        v1
    } else {
        CacheView {
            mem: push_evict(v1.mem, name, data, v1.cap),
            disk: v1.disk.insert(name, data),
            cap: v1.cap,
        }
    }
}

/// The content-addressed artifact store.
pub struct PayloadCache {
    /// The bounded in-memory layer.
    pub mem: lru_cache::LruCache<Vec<u8>, Vec<u8>>,
    /// The names and bytes the cache directory holds.
    pub disk: Vec<(Vec<u8>, Vec<u8>)>,
}

impl PayloadCache {
    pub open spec fn view(&self) -> CacheView {
        CacheView {
            mem: lru_state(self.mem),
            disk: alist_map(self.disk@.map(|i: int, e: (Vec<u8>, Vec<u8>)| (e.0@, e.1@))),
            cap: lru_capacity(self.mem),
        }
    }

    /// Distinct store names, and a well-formed view.
    pub open spec fn wf(&self) -> bool {
        &&& self@.wf()
        &&& forall|i: int, j: int|
            0 <= i < j < self.disk@.len() ==> self.disk@[i].0@ != self.disk@[j].0@
    }

    /// An empty cache whose memory layer holds at most `cap` entries.
    pub fn new(cap: usize) -> (r: Self)
        requires
            cap >= 1,
        ensures
            r.wf(),
            r@.mem == Seq::<(Seq<u8>, Seq<u8>)>::empty(),
            r@.disk =~= Map::<Seq<u8>, Seq<u8>>::empty(),
            r@.cap == cap,
    {
        let r = PayloadCache { mem: lru_new(cap), disk: Vec::new() };
        proof {
            assert(r.disk@.map(|i: int, e: (Vec<u8>, Vec<u8>)| (e.0@, e.1@))
                =~= Seq::<(Seq<u8>, Seq<u8>)>::empty());
            assert(r@.disk =~= Map::<Seq<u8>, Seq<u8>>::empty());
        }
        r
    }

    /// Record a file that already sits in the cache directory (used when a
    /// process starts over an existing directory). A name that is already
    /// known is left as it is.
    pub fn seed_disk(&mut self, name: Vec<u8>, data: Vec<u8>)
        requires
            old(self).wf(),
        ensures
            final(self).wf(),
            final(self)@.mem == old(self)@.mem,
            final(self)@.cap == old(self)@.cap,
            final(self)@.disk =~= if old(self)@.disk.dom().contains(name@) {
                old(self)@.disk
            } else {
                old(self)@.disk.insert(name@, data@)
            },
    {
        let ghost pairs0 = self.disk@.map(|i: int, e: (Vec<u8>, Vec<u8>)| (e.0@, e.1@));
        let ghost name_view = name@;
        if self.disk_index(&name).is_none() {
            self.disk.push((name, data));
            proof {
                let pairs = self.disk@.map(|i: int, e: (Vec<u8>, Vec<u8>)| (e.0@, e.1@));
                assert(pairs =~= pairs0.push((name_view, data@)));
                lemma_alist_map_push(pairs0, name_view, data@);
                assert forall|i: int, j: int| 0 <= i < j < self.disk@.len()
                    implies self.disk@[i].0@ != self.disk@[j].0@ by {
                    if j < self.disk@.len() - 1 {
                        assert(old(self).disk@[i].0@ != old(self).disk@[j].0@);
                    } else {
                        assert(pairs0[i].0 == self.disk@[i].0@);
                        if self.disk@[i].0@ == name_view {
                            assert(alist_has(pairs0, name_view));
                        }
                    }
                }
                lemma_alist_map_dom(pairs0, name_view);
            }
        }
    }

    /// First store index holding `name`, if any.
    fn disk_index(&self, name: &Vec<u8>) -> (r: Option<usize>)
        ensures
            ({
                let pairs = self.disk@.map(|i: int, e: (Vec<u8>, Vec<u8>)| (e.0@, e.1@));
                match r {
                    Some(i) => 0 <= i < pairs.len() && pairs[i as int].0 == name@,
                    None => !alist_has(pairs, name@),
                }
            }),
    {
        let ghost pairs = self.disk@.map(|i: int, e: (Vec<u8>, Vec<u8>)| (e.0@, e.1@));
        let n: usize = self.disk.len();
        let mut i: usize = 0;
        while i < n
            invariant
                n == self.disk@.len(),
                0 <= i <= n,
                pairs == self.disk@.map(|k: int, e: (Vec<u8>, Vec<u8>)| (e.0@, e.1@)),
                forall|j: int| 0 <= j < i ==> pairs[j].0 != name@,
            decreases n - i,
        {
            if bytes_eq(self.disk[i].0.as_slice(), name.as_slice()) {
                assert(pairs[i as int].0 == name@);
                return Some(i);
            }
            i = i + 1;
        }
        None
    }

    /// Look a name up: memory first, then the backing store; a store hit is
    /// brought back into memory.
    pub fn get(&mut self, name: &Vec<u8>) -> (r: Option<Vec<u8>>)
        requires
            old(self).wf(),
        ensures
            final(self).wf(),
            final(self).disk@ == old(self).disk@,
            final(self)@ =~= spec_cache_get(old(self)@, name@).0,
            match r {
                Some(data) => spec_cache_get(old(self)@, name@).1 == Some(data@),
                None => spec_cache_get(old(self)@, name@).1 is None,
            },
    {
        let ghost v0 = self@;
        let hit = lru_get(&mut self.mem, name);
        match hit {
            Some(data) => {
                proof {
                    let i = alist_index(v0.mem, name@);
                    lemma_alist_key_unique(v0.mem, name@, i);
                    lemma_remove_push_wf(v0.mem, i, name@, data@);
                }
                Some(data)
            }
            None => {
                match self.disk_index(name) {
                    Some(i) => {
                        let data = clone_bytes(self.disk[i].1.as_slice());
                        proof {
                            let pairs = self.disk@.map(
                                |k: int, e: (Vec<u8>, Vec<u8>)| (e.0@, e.1@),
                            );
                            lemma_alist_key_unique(pairs, name@, i as int);
                            lemma_alist_map_agrees(pairs, name@, i as int);
                            assert(self@.disk[name@] == data@);
                        }
                        let key = clone_bytes(name.as_slice());
                        lru_insert(&mut self.mem, key, clone_bytes(data.as_slice()));
                        proof {
                            lemma_push_evict_wf(v0, name@, data@);
                        }
                        Some(data)
                    }
                    None => {
                        proof {
                            lemma_alist_map_dom(
                                self.disk@.map(|k: int, e: (Vec<u8>, Vec<u8>)| (e.0@, e.1@)),
                                name@,
                            );
                        }
                        None
                    }
                }
            }
        }
    }

    /// Whether the backing store holds a file for `name` (the cache
    /// directory path joined with the name is then a valid path).
    pub fn get_path(&self, name: &Vec<u8>) -> (r: bool)
        requires
            self.wf(),
        ensures
            r == self@.disk.dom().contains(name@),
    {
        let r = self.disk_index(name);
        proof {
            let pairs = self.disk@.map(|k: int, e: (Vec<u8>, Vec<u8>)| (e.0@, e.1@));
            lemma_alist_map_dom(pairs, name@);
        }
        r.is_some()
    }

    /// Store bytes under a name, once: when the name is already held (in
    /// memory or on the store) nothing changes and no write is reported.
    /// Returns whether the caller must persist `name` to the directory.
    pub fn put(&mut self, name: &Vec<u8>, data: Vec<u8>) -> (wrote: bool)
        requires
            old(self).wf(),
        ensures
            final(self).wf(),
            final(self)@ =~= spec_cache_put(old(self)@, name@, data@),
            wrote == spec_cache_get(old(self)@, name@).1 is None,
    {
        let ghost v0 = self@;
        let existing = self.get(name);
        match existing {
            Some(_) => false,
            None => {
                proof {
                    assert(self@ =~= v0);
                }
                let key = clone_bytes(name.as_slice());
                lru_insert(&mut self.mem, key, clone_bytes(data.as_slice()));
                self.disk.push((clone_bytes(name.as_slice()), data));
                proof {
                    let pairs0 = old(self).disk@.map(
                        |k: int, e: (Vec<u8>, Vec<u8>)| (e.0@, e.1@),
                    );
                    let pairs = self.disk@.map(|k: int, e: (Vec<u8>, Vec<u8>)| (e.0@, e.1@));
                    assert(pairs =~= pairs0.push((name@, data@)));
                    lemma_alist_map_dom(pairs0, name@);
                    assert(!alist_has(pairs0, name@));
                    lemma_alist_map_push(pairs0, name@, data@);
                    assert forall|i: int, j: int| 0 <= i < j < self.disk@.len()
                        implies self.disk@[i].0@ != self.disk@[j].0@ by {
                        if j < self.disk@.len() - 1 {
                            assert(old(self).disk@[i].0@ != old(self).disk@[j].0@);
                        } else {
                            assert(pairs0[i].0 == self.disk@[i].0@);
                            if self.disk@[i].0@ == name@ {
                                assert(alist_has(pairs0, name@));
                            }
                        }
                    }
                    lemma_push_evict_wf_fresh(v0, name@, data@);
                }
                true
            }
        }
    }
}

/// The backing store as a map from names to bytes.
pub open spec fn alist_map(s: Seq<(Seq<u8>, Seq<u8>)>) -> Map<Seq<u8>, Seq<u8>> {
    Map::new(|k: Seq<u8>| alist_has(s, k), |k: Seq<u8>| s[alist_index(s, k)].1)
}

/// With distinct keys, the chosen index for a present key is the only one.
proof fn lemma_alist_key_unique(s: Seq<(Seq<u8>, Seq<u8>)>, key: Seq<u8>, i: int)
    requires
        forall|p: int, q: int| 0 <= p < q < s.len() ==> s[p].0 != s[q].0,
        0 <= i < s.len(),
        s[i].0 == key,
    ensures
        alist_index(s, key) == i,
{
    assert(alist_has(s, key));
    let j = alist_index(s, key);
    if i < j {
        assert(s[i].0 != s[j].0);
    } else if j < i {
        assert(s[j].0 != s[i].0);
    }
}

/// The map agrees with the list at a present key.
proof fn lemma_alist_map_agrees(s: Seq<(Seq<u8>, Seq<u8>)>, key: Seq<u8>, i: int)
    requires
        forall|p: int, q: int| 0 <= p < q < s.len() ==> s[p].0 != s[q].0,
        0 <= i < s.len(),
        s[i].0 == key,
    ensures
        alist_map(s).dom().contains(key),
        alist_map(s)[key] == s[i].1,
{
    lemma_alist_key_unique(s, key, i);
}

/// The map's domain is exactly the keys of the list.
proof fn lemma_alist_map_dom(s: Seq<(Seq<u8>, Seq<u8>)>, key: Seq<u8>)
    ensures
        alist_map(s).dom().contains(key) == alist_has(s, key),
{
}

/// Appending a fresh key inserts exactly that key into the map.
proof fn lemma_alist_map_push(s: Seq<(Seq<u8>, Seq<u8>)>, key: Seq<u8>, data: Seq<u8>)
    requires
        forall|p: int, q: int| 0 <= p < q < s.len() ==> s[p].0 != s[q].0,
        !alist_has(s, key),
    ensures
        alist_map(s.push((key, data))) =~= alist_map(s).insert(key, data),
{
    let s2 = s.push((key, data));
    assert(forall|p: int, q: int| 0 <= p < q < s2.len() ==> s2[p].0 != s2[q].0);
    assert forall|k: Seq<u8>| alist_has(s2, k) == alist_map(s).insert(key, data)
        .dom().contains(k) by {
        if alist_has(s2, k) {
            let p = choose|p: int| 0 <= p < s2.len() && s2[p].0 == k;
            if p < s.len() {
                assert(alist_has(s, k));
            } else {
                assert(k == key);
            }
        }
        if alist_map(s).insert(key, data).dom().contains(k) {
            if k == key {
                assert(s2[s.len() as int].0 == k);
                assert(alist_has(s2, k));
            } else {
                let p = choose|p: int| 0 <= p < s.len() && s[p].0 == k;
                assert(s2[p].0 == k);
                assert(alist_has(s2, k));
            }
        }
    }
    assert forall|k: Seq<u8>| #[trigger] alist_has(s2, k)
        implies alist_map(s2)[k] == alist_map(s).insert(key, data)[k] by {
        let p = choose|p: int| 0 <= p < s2.len() && s2[p].0 == k;
        lemma_alist_key_unique(s2, k, p);
        if p == s.len() {
            assert(k == key);
        } else {
            assert(s[p].0 == k);
            lemma_alist_key_unique(s, k, p);
            assert(k != key);
        }
    }
}

/// Refreshing one entry keeps keys distinct and keeps every entry backed.
proof fn lemma_remove_push_wf(mem: Seq<(Seq<u8>, Seq<u8>)>, i: int, key: Seq<u8>, data: Seq<u8>)
    requires
        forall|p: int, q: int| 0 <= p < q < mem.len() ==> mem[p].0 != mem[q].0,
        0 <= i < mem.len(),
        mem[i].0 == key,
        mem[i].1 == data,
    ensures
        ({
            let mem2 = mem.remove(i).push((key, data));
            &&& mem2.len() == mem.len()
            &&& forall|p: int, q: int| 0 <= p < q < mem2.len() ==> mem2[p].0 != mem2[q].0
            &&& forall|p: int|
                0 <= p < mem2.len() ==> exists|p0: int|
                    0 <= p0 < mem.len() && #[trigger] mem[p0] == #[trigger] mem2[p]
        }),
{
    let mem1 = mem.remove(i);
    let mem2 = mem1.push((key, data));
    assert forall|p: int| 0 <= p < mem2.len() implies exists|p0: int|
        0 <= p0 < mem.len() && #[trigger] mem[p0] == #[trigger] mem2[p] by {
        if p < mem1.len() {
            let p0 = if p < i { p } else { p + 1 };
            assert(mem[p0] == mem2[p]);
        } else {
            assert(mem[i] == mem2[p]);
        }
    }
    assert forall|p: int, q: int| 0 <= p < q < mem2.len() implies mem2[p].0 != mem2[q].0 by {
        if q < mem1.len() {
            let p0 = if p < i { p } else { p + 1 };
            let q0 = if q < i { q } else { q + 1 };
            assert(mem2[p] == mem[p0]);
            assert(mem2[q] == mem[q0]);
        } else {
            let p0 = if p < i { p } else { p + 1 };
            assert(mem2[p] == mem[p0]);
            assert(mem2[q].0 == mem[i].0);
            assert(p0 != i);
            if p0 < i {
                assert(mem[p0].0 != mem[i].0);
            } else {
                assert(mem[i].0 != mem[p0].0);
            }
        }
    }
}

/// Inserting a fresh backed entry keeps the memory layer well formed.
proof fn lemma_push_evict_wf(v: CacheView, key: Seq<u8>, data: Seq<u8>)
    requires
        v.wf(),
        !alist_has(v.mem, key),
        v.disk.dom().contains(key),
        v.disk[key] == data,
    ensures
        ({
            let mem2 = push_evict(v.mem, key, data, v.cap);
            &&& mem2.len() <= v.cap
            &&& forall|p: int, q: int| 0 <= p < q < mem2.len() ==> mem2[p].0 != mem2[q].0
            &&& forall|p: int|
                0 <= p < mem2.len() ==> v.disk.dom().contains(mem2[p].0)
                    && v.disk[mem2[p].0] == mem2[p].1
        }),
{
    let pushed = v.mem.push((key, data));
    assert forall|p: int, q: int| 0 <= p < q < pushed.len() implies pushed[p].0 != pushed[q].0 by {
        if q < v.mem.len() {
        } else {
            assert(pushed[q].0 == key);
            assert(pushed[p] == v.mem[p]);
            if pushed[p].0 == key {
                assert(alist_has(v.mem, key));
            }
        }
    }
}

/// Inserting a fresh entry together with its store write keeps the cache
/// well formed.
proof fn lemma_push_evict_wf_fresh(v: CacheView, key: Seq<u8>, data: Seq<u8>)
    requires
        v.wf(),
        !alist_has(v.mem, key),
        !v.disk.dom().contains(key),
    ensures
        ({
            let mem2 = push_evict(v.mem, key, data, v.cap);
            let disk2 = v.disk.insert(key, data);
            &&& mem2.len() <= v.cap
            &&& forall|p: int, q: int| 0 <= p < q < mem2.len() ==> mem2[p].0 != mem2[q].0
            &&& forall|p: int|
                0 <= p < mem2.len() ==> disk2.dom().contains(mem2[p].0)
                    && disk2[mem2[p].0] == mem2[p].1
        }),
{
    let pushed = v.mem.push((key, data));
    assert forall|p: int, q: int| 0 <= p < q < pushed.len() implies pushed[p].0 != pushed[q].0 by {
        if q < v.mem.len() {
        } else {
            assert(pushed[q].0 == key);
            assert(pushed[p] == v.mem[p]);
            if pushed[p].0 == key {
                assert(alist_has(v.mem, key));
            }
        }
    }
}

/// Write-once by name: after a first `put` of fresh bytes, `get` hands the
/// stored bytes back, and a second `put` under the same name with different
/// bytes changes nothing that `get` can see.
pub proof fn lemma_cache_write_once(v: CacheView, name: Seq<u8>, b1: Seq<u8>, b2: Seq<u8>)
    requires
        v.wf(),
        !alist_has(v.mem, name),
        !v.disk.dom().contains(name),
    ensures
        ({
            let v1 = spec_cache_put(v, name, b1);
            let v2 = spec_cache_put(v1, name, b2);
            &&& spec_cache_get(v1, name).1 == Some(b1)
            &&& spec_cache_get(v2, name).1 == Some(b1)
            &&& v2.disk == v1.disk
        }),
{
    let v1 = spec_cache_put(v, name, b1);
    let mem1 = push_evict(v.mem, name, b1, v.cap);
    assert(v1.mem == mem1);
    assert(mem1[mem1.len() - 1] == (name, b1));
    assert(alist_has(mem1, name));
    lemma_push_evict_wf_fresh(v, name, b1);
    let i = alist_index(mem1, name);
    lemma_alist_key_unique(mem1, name, mem1.len() - 1);
    assert(spec_cache_get(v1, name).1 == Some(b1));
    let v1g = spec_cache_get(v1, name).0;
    let v2 = spec_cache_put(v1, name, b2);
    assert(v2 == v1g);
    assert(v2.disk == v1.disk);
    let mem2 = v2.mem;
    assert(mem2 == mem1.remove(mem1.len() - 1).push((name, b1)));
    lemma_remove_push_wf(mem1, mem1.len() - 1, name, b1);
    assert(mem2[mem2.len() - 1] == (name, b1));
    lemma_alist_key_unique(mem2, name, mem2.len() - 1);
    assert(spec_cache_get(v2, name).1 == Some(b1));
}

} // verus!
