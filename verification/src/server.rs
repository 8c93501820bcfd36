//! Server-side state and decisions: the time-limited caches of gallery
//! layouts and of the all-photos list, how a gallery is arranged for display
//! and for how long that arrangement may be cached, and which file-system
//! events invalidate what.

use vstd::prelude::*;
use crate::types::{copy_photo, same_photo, GalleryConfig, PhotoInfo};
use crate::text::{char_vecs, split_chars, split_on, to_chars};
use crate::gallery::{join_slash, string_views};
use crate::image_cache::{cache_needle, contains_str, contains_string, matches_any_needle, relative_cache_needle};
use crate::text::starts_with;

verus! {

/// Reads the system clock through `std::time::SystemTime::elapsed` on the
/// Unix epoch: whole seconds since the epoch, 0 when the clock reads earlier.
/// Nothing is claimed of the value: it is the time.
#[verifier::external_body]
fn now_unix_secs() -> u64 {
    match std::time::UNIX_EPOCH.elapsed() {
        Ok(d) => d.as_secs(),
        Err(_) => 0,
    }
}

/// The expiry time of an entry stored at `now` for `duration` seconds
/// (the latest representable time when the sum does not fit).
pub open spec fn expiry(now: u64, duration: u64) -> u64 {
    now.saturating_add(duration)
}

/// Whether `key` holds a value in `m` that is still fresh at time `now`.
pub open spec fn fresh_in<T>(m: Map<Seq<char>, (T, u64)>, key: Seq<char>, now: u64) -> bool {
    m.dom().contains(key) && m[key].1 > now
}

/// The contents after a lookup of `key` at time `now`: an expired entry for
/// the key is dropped, everything else stays.
pub open spec fn after_get<T>(m: Map<Seq<char>, (T, u64)>, key: Seq<char>, now: u64) -> Map<
    Seq<char>,
    (T, u64),
> {
    if m.dom().contains(key) && m[key].1 <= now {
        m.remove(key)
    } else {
        m
    }
}

/// The contents after storing `data` under `key` at time `now` for
/// `duration` seconds.
pub open spec fn after_set<T>(
    m: Map<Seq<char>, (T, u64)>,
    key: Seq<char>,
    data: T,
    duration: u64,
    now: u64,
) -> Map<Seq<char>, (T, u64)> {
    m.insert(key, (data, expiry(now, duration)))
}

/// The contents after sweeping at time `now`: only the fresh entries stay.
pub open spec fn after_sweep<T>(m: Map<Seq<char>, (T, u64)>, now: u64) -> Map<
    Seq<char>,
    (T, u64),
> {
    m.restrict(m.dom().filter(|k: Seq<char>| m[k].1 > now))
}

/// `r` and `after` are what a lookup of `key` at time `now` in `before`
/// gives: a clone of the value when it is fresh, else nothing.
pub open spec fn lookup_result<T: Clone>(
    before: Map<Seq<char>, (T, u64)>,
    key: Seq<char>,
    now: u64,
    r: Option<T>,
    after: Map<Seq<char>, (T, u64)>,
) -> bool {
    &&& after == after_get(before, key, now)
    &&& fresh_in(before, key, now) ==> (r matches Some(v) && cloned(before[key].0, v))
    &&& !fresh_in(before, key, now) ==> r is None
}

/// One cached value, under its key, with the time (Unix seconds) from which
/// it is stale.
pub struct CachedEntry<T> {
    pub key: String,
    pub data: T,
    pub expires_at: u64,
}

/// Cached gallery layouts by key, each valid until its expiry time.
pub struct MosaicCache<T> {
    entries: Vec<CachedEntry<T>>,
}

impl<T> MosaicCache<T> {
    /// No two entries share a key.
    #[verifier::type_invariant]
    spec fn keys_distinct(self) -> bool {
        forall|i: int, j: int|
            0 <= i < j < self.entries@.len() ==> #[trigger] self.entries@[i].key@
                != #[trigger] self.entries@[j].key@
    }

    /// Whether some entry has the key `k`.
    spec fn has_key(self, k: Seq<char>) -> bool {
        exists|i: int| 0 <= i < self.entries@.len() && #[trigger] self.entries@[i].key@ == k
    }

    /// The position of the entry with key `k`.
    spec fn index_of(self, k: Seq<char>) -> int {
        choose|i: int| 0 <= i < self.entries@.len() && #[trigger] self.entries@[i].key@ == k
    }

    /// The cache's contents.
    pub closed spec fn contents(self) -> Map<Seq<char>, (T, u64)> {
        Map::new(
            |k: Seq<char>| self.has_key(k),
            |k: Seq<char>|
                (self.entries@[self.index_of(k)].data, self.entries@[self.index_of(k)].expires_at),
        )
    }

    /// The entry at position `i` is the one the contents give for its key.
    proof fn lemma_entry_is_content(self, i: int)
        requires
            self.keys_distinct(),
            0 <= i < self.entries@.len(),
        ensures
            self.contents().dom().contains(self.entries@[i].key@),
            self.index_of(self.entries@[i].key@) == i,
            self.contents()[self.entries@[i].key@] == (
                self.entries@[i].data,
                self.entries@[i].expires_at,
            ),
    {
        let k = self.entries@[i].key@;
        assert(self.has_key(k));
        let j = self.index_of(k);
        if j != i {
            if j < i {
                assert(self.entries@[j].key@ != self.entries@[i].key@);
            } else {
                assert(self.entries@[i].key@ != self.entries@[j].key@);
            }
        }
    }

    /// An empty cache.
    pub fn new() -> (r: Self)
        ensures
            r.contents() == Map::<Seq<char>, (T, u64)>::empty(),
    {
        let r = MosaicCache { entries: Vec::new() };
        assert(r.contents() =~= Map::<Seq<char>, (T, u64)>::empty());
        r
    }

    /// The position of the entry with key `key`, if any.
    fn find(&self, key: &str) -> (r: Option<usize>)
        ensures
            r matches Some(i) ==> i < self.entries@.len() && self.entries@[i as int].key@ == key@,
            r is None ==> !self.has_key(key@),
    {
        let mut i: usize = 0;
        while i < self.entries.len()
            invariant
                i <= self.entries@.len(),
                forall|j: int| 0 <= j < i ==> #[trigger] self.entries@[j].key@ != key@,
            decreases self.entries@.len() - i,
        {
            if crate::text::str_eq(self.entries[i].key.as_str(), key) {
                return Some(i);
            }
            i = i + 1;
        }
        None
    }

    /// Stores `data` under `key` at time `now`, valid for `duration` seconds,
    /// replacing any entry with that key.
    pub fn set_at(&mut self, key: String, data: T, duration: u64, now: u64)
        ensures
            final(self).contents() == after_set(old(self).contents(), key@, data, duration, now),
    {
        proof {
            use_type_invariant(&*self);
        }
        let ghost before = *self;
        let expires_at = now.saturating_add(duration);
        let ghost k = key@;
        match self.find(key.as_str()) {
            Some(i) => {
                let entry = CachedEntry { key, data, expires_at };
                let mut entries: Vec<CachedEntry<T>> = Vec::new();
                std::mem::swap(&mut entries, &mut self.entries);
                entries.set(i, entry);
                proof {
                    assert forall|a: int, b: int| 0 <= a < b < entries@.len() implies #[trigger] entries@[a].key@
                        != #[trigger] entries@[b].key@ by {
                        assert(before.entries@[a].key@ != before.entries@[b].key@);
                    }
                }
                self.entries = entries;
                proof {
                    use_type_invariant(&*self);
                    let m = after_set(before.contents(), k, data, duration, now);
                    assert forall|x: Seq<char>| #[trigger] self.contents().dom().contains(x) <==> m.dom().contains(x) by {
                        if self.has_key(x) {
                            let j = choose|j: int| 0 <= j < self.entries@.len() && #[trigger] self.entries@[j].key@ == x;
                            if j != i {
                                assert(before.entries@[j].key@ == x);
                                assert(before.has_key(x));
                            }
                        }
                        if before.has_key(x) {
                            let j = choose|j: int| 0 <= j < before.entries@.len() && #[trigger] before.entries@[j].key@ == x;
                            assert(self.entries@[j].key@ == x);
                        }
                    }
                    assert forall|x: Seq<char>| #[trigger] self.contents().dom().contains(x) implies self.contents()[x] == m[x] by {
                        let j = choose|j: int| 0 <= j < self.entries@.len() && #[trigger] self.entries@[j].key@ == x;
                        self.lemma_entry_is_content(j);
                        if j != i {
                            before.lemma_entry_is_content(j);
                        }
                    }
                    assert(self.contents() =~= m);
                }
            },
            None => {
                let entry = CachedEntry { key, data, expires_at };
                let mut entries: Vec<CachedEntry<T>> = Vec::new();
                std::mem::swap(&mut entries, &mut self.entries);
                entries.push(entry);
                proof {
                    assert forall|a: int, b: int| 0 <= a < b < entries@.len() implies #[trigger] entries@[a].key@
                        != #[trigger] entries@[b].key@ by {
                        if b == entries@.len() - 1 {
                            assert(!before.has_key(k));
                            assert(before.entries@[a].key@ != k);
                        } else {
                            assert(before.entries@[a].key@ != before.entries@[b].key@);
                        }
                    }
                }
                self.entries = entries;
                proof {
                    use_type_invariant(&*self);
                    let n = before.entries@.len() as int;
                    let m = after_set(before.contents(), k, data, duration, now);
                    assert forall|x: Seq<char>| #[trigger] self.contents().dom().contains(x) <==> m.dom().contains(x) by {
                        if self.has_key(x) {
                            let j = choose|j: int| 0 <= j < self.entries@.len() && #[trigger] self.entries@[j].key@ == x;
                            if j != n {
                                assert(before.entries@[j].key@ == x);
                                assert(before.has_key(x));
                            }
                        }
                        if before.has_key(x) {
                            let j = choose|j: int| 0 <= j < before.entries@.len() && #[trigger] before.entries@[j].key@ == x;
                            assert(self.entries@[j].key@ == x);
                        }
                        if x == k {
                            assert(self.entries@[n].key@ == k);
                        }
                    }
                    assert forall|x: Seq<char>| #[trigger] self.contents().dom().contains(x) implies self.contents()[x] == m[x] by {
                        let j = choose|j: int| 0 <= j < self.entries@.len() && #[trigger] self.entries@[j].key@ == x;
                        self.lemma_entry_is_content(j);
                        if j != n {
                            before.lemma_entry_is_content(j);
                        }
                    }
                    assert(self.contents() =~= m);
                }
            },
        }
    }

    /// Stores `data` under `key`, valid for `duration` seconds from now.
    pub fn set(&mut self, key: String, data: T, duration: u64)
        ensures
            exists|now: u64|
                final(self).contents() == #[trigger] after_set(
                    old(self).contents(),
                    key@,
                    data,
                    duration,
                    now,
                ),
    {
        let now = now_unix_secs();
        self.set_at(key, data, duration, now);
    }

    /// Whether the cache holds an entry (fresh or stale) under `key`.
    pub fn contains_key(&self, key: &str) -> (r: bool)
        ensures
            r == self.contents().dom().contains(key@),
    {
        self.find(key).is_some()
    }

    /// Empties the cache.
    pub fn clear_all(&mut self)
        ensures
            final(self).contents() == Map::<Seq<char>, (T, u64)>::empty(),
    {
        self.entries = Vec::new();
        assert(self.contents() =~= Map::<Seq<char>, (T, u64)>::empty());
    }
}


impl<T: Clone> MosaicCache<T> {
    /// Looks `key` up at time `now`: a clone of its value while fresh; an
    /// expired entry is dropped and gives nothing.
    pub fn get_at(&mut self, key: &str, now: u64) -> (r: Option<T>)
        ensures
            lookup_result(old(self).contents(), key@, now, r, final(self).contents()),
    {
        proof {
            use_type_invariant(&*self);
        }
        let ghost before = *self;
        match self.find(key) {
            None => {
                assert(!before.contents().dom().contains(key@));
                assert(after_get(before.contents(), key@, now) == before.contents());
                None
            },
            Some(i) => {
                proof {
                    before.lemma_entry_is_content(i as int);
                }
                if self.entries[i].expires_at > now {
                    let v = self.entries[i].data.clone();
                    Some(v)
                } else {
                    let mut entries: Vec<CachedEntry<T>> = Vec::new();
                    std::mem::swap(&mut entries, &mut self.entries);
                    let _gone = entries.remove(i);
                    proof {
                        assert forall|a: int, b: int| 0 <= a < b < entries@.len() implies #[trigger] entries@[a].key@
                            != #[trigger] entries@[b].key@ by {
                            let pa = if a < i { a } else { a + 1 };
                            let pb = if b < i { b } else { b + 1 };
                            assert(entries@[a] == before.entries@[pa]);
                            assert(entries@[b] == before.entries@[pb]);
                            assert(before.entries@[pa].key@ != before.entries@[pb].key@);
                        }
                    }
                    self.entries = entries;
                    proof {
                        use_type_invariant(&*self);
                        let k = key@;
                        let m = before.contents().remove(k);
                        assert forall|x: Seq<char>| #[trigger] self.contents().dom().contains(x) <==> m.dom().contains(x) by {
                            if self.has_key(x) {
                                let j = choose|j: int| 0 <= j < self.entries@.len() && #[trigger] self.entries@[j].key@ == x;
                                let p = if j < i { j } else { j + 1 };
                                assert(self.entries@[j] == before.entries@[p]);
                                assert(before.has_key(x));
                                assert(before.entries@[p].key@ != before.entries@[i as int].key@);
                            }
                            if before.has_key(x) && x != k {
                                let p = choose|p: int| 0 <= p < before.entries@.len() && #[trigger] before.entries@[p].key@ == x;
                                assert(p != i);
                                let j = if p < i { p } else { p - 1 };
                                assert(self.entries@[j] == before.entries@[p]);
                            }
                        }
                        assert forall|x: Seq<char>| #[trigger] self.contents().dom().contains(x) implies self.contents()[x] == m[x] by {
                            let j = choose|j: int| 0 <= j < self.entries@.len() && #[trigger] self.entries@[j].key@ == x;
                            self.lemma_entry_is_content(j);
                            let p = if j < i { j } else { j + 1 };
                            assert(self.entries@[j] == before.entries@[p]);
                            before.lemma_entry_is_content(p);
                        }
                        assert(self.contents() =~= m);
                    }
                    None
                }
            },
        }
    }

    /// Looks `key` up now: a clone of its value while fresh; an expired entry
    /// is dropped and gives nothing.
    pub fn get(&mut self, key: &str) -> (r: Option<T>)
        ensures
            exists|now: u64| #[trigger] lookup_result(old(self).contents(), key@, now, r, final(self).contents()),
    {
        let now = now_unix_secs();
        self.get_at(key, now)
    }
}

impl<T> MosaicCache<T> {
    /// Drops every entry that is stale at time `now`.
    pub fn clear_expired_at(&mut self, now: u64)
        ensures
            final(self).contents() == after_sweep(old(self).contents(), now),
    {
        proof {
            use_type_invariant(&*self);
        }
        let ghost before = *self;
        let ghost n = before.entries@.len() as int;
        let ghost pred = |e: CachedEntry<T>| e.expires_at > now;
        let mut rest: Vec<CachedEntry<T>> = Vec::new();
        std::mem::swap(&mut rest, &mut self.entries);
        let mut kept: Vec<CachedEntry<T>> = Vec::new();
        proof {
            assert(rest@ =~= before.entries@.skip(0));
            assert(before.entries@.take(0) =~= Seq::<CachedEntry<T>>::empty());
            reveal(Seq::filter);
        }
        while rest.len() > 0
            invariant
                n == before.entries@.len(),
                before.keys_distinct(),
                rest@.len() <= n,
                rest@ == before.entries@.skip(n - rest@.len()),
                kept@ == before.entries@.take(n - rest@.len()).filter(pred),
                pred == (|e: CachedEntry<T>| e.expires_at > now),
                forall|a: int, b: int|
                    0 <= a < b < kept@.len() ==> #[trigger] kept@[a].key@ != #[trigger] kept@[b].key@,
            decreases rest@.len(),
        {
            let ghost i = n - rest@.len();
            let ghost old_kept = kept@;
            let e = rest.remove(0);
            proof {
                assert(e == before.entries@[i]);
                assert(rest@ =~= before.entries@.skip(i + 1));
                assert(before.entries@.take(i + 1) =~= before.entries@.take(i).push(e));
                before.entries@.take(i).lemma_filter_push(e, pred);
            }
            if e.expires_at > now {
                kept.push(e);
                proof {
                    assert forall|a: int, b: int| 0 <= a < b < kept@.len() implies #[trigger] kept@[a].key@
                        != #[trigger] kept@[b].key@ by {
                        assert(kept@[a] == old_kept[a]);
                        if b == kept@.len() - 1 {
                            assert(old_kept.contains(old_kept[a]));
                            before.entries@.take(i).lemma_filter_contains_rev(pred, old_kept[a]);
                            let p = choose|p: int| 0 <= p < i && before.entries@.take(i)[p] == old_kept[a];
                            assert(before.entries@[p] == old_kept[a]);
                            assert(before.entries@[p].key@ != before.entries@[i].key@);
                        } else {
                            assert(kept@[b] == old_kept[b]);
                        }
                    }
                }
            }
        }
        proof {
            assert(before.entries@.take(n) =~= before.entries@);
        }
        self.entries = kept;
        proof {
            use_type_invariant(&*self);
            Self::lemma_filtered_is_sweep(before, *self, now);
        }
    }

    /// A cache that holds the fresh entries of `before` holds the sweep of
    /// its contents.
    proof fn lemma_filtered_is_sweep(before: Self, after: Self, now: u64)
        requires
            before.keys_distinct(),
            after.keys_distinct(),
            after.entries@ == before.entries@.filter(|e: CachedEntry<T>| e.expires_at > now),
        ensures
            after.contents() == after_sweep(before.contents(), now),
    {
        let pred = |e: CachedEntry<T>| e.expires_at > now;
        let bm = before.contents();
        let m = after_sweep(bm, now);
        assert forall|x: Seq<char>| #[trigger] after.contents().dom().contains(x) <==> m.dom().contains(x) by {
            if after.has_key(x) {
                let j = choose|j: int| 0 <= j < after.entries@.len() && #[trigger] after.entries@[j].key@ == x;
                before.entries@.lemma_filter_pred(pred, j);
                assert(after.entries@.contains(after.entries@[j]));
                before.entries@.lemma_filter_contains_rev(pred, after.entries@[j]);
                let p = choose|p: int| 0 <= p < before.entries@.len() && before.entries@[p] == after.entries@[j];
                before.lemma_entry_is_content(p);
            }
            if m.dom().contains(x) {
                let p = choose|p: int| 0 <= p < before.entries@.len() && #[trigger] before.entries@[p].key@ == x;
                before.lemma_entry_is_content(p);
                before.entries@.lemma_filter_contains(pred, p);
                let j = choose|j: int| 0 <= j < after.entries@.len() && after.entries@[j] == before.entries@[p];
                assert(after.entries@[j].key@ == x);
            }
        }
        assert forall|x: Seq<char>| #[trigger] after.contents().dom().contains(x) implies after.contents()[x] == m[x] by {
            let j = choose|j: int| 0 <= j < after.entries@.len() && #[trigger] after.entries@[j].key@ == x;
            after.lemma_entry_is_content(j);
            assert(after.entries@.contains(after.entries@[j]));
            before.entries@.lemma_filter_contains_rev(pred, after.entries@[j]);
            let p = choose|p: int| 0 <= p < before.entries@.len() && before.entries@[p] == after.entries@[j];
            before.lemma_entry_is_content(p);
        }
        assert(after.contents() =~= m);
    }

    /// Drops every entry that is stale now.
    pub fn clear_expired(&mut self)
        ensures
            exists|now: u64| final(self).contents() == #[trigger] after_sweep(old(self).contents(), now),
    {
        let now = now_unix_secs();
        self.clear_expired_at(now);
    }
}


/// A value read back before its expiry time is the value stored: after
/// `set` at time `now`, a lookup of the same key at any `later` time before
/// the expiry finds the entry fresh, holding `data`, and leaves the cache as
/// it is.
pub proof fn lemma_read_before_expiry<T>(
    m: Map<Seq<char>, (T, u64)>,
    key: Seq<char>,
    data: T,
    duration: u64,
    now: u64,
    later: u64,
)
    requires
        later < expiry(now, duration),
    ensures
        fresh_in(after_set(m, key, data, duration, now), key, later),
        after_set(m, key, data, duration, now)[key].0 == data,
        after_get(after_set(m, key, data, duration, now), key, later) == after_set(
            m,
            key,
            data,
            duration,
            now,
        ),
{
}

/// Once its expiry time has come, a stored value is no longer returned, and
/// the lookup drops it.
pub proof fn lemma_read_after_expiry<T>(
    m: Map<Seq<char>, (T, u64)>,
    key: Seq<char>,
    data: T,
    duration: u64,
    now: u64,
    later: u64,
)
    requires
        later >= expiry(now, duration),
    ensures
        !fresh_in(after_set(m, key, data, duration, now), key, later),
        !after_get(after_set(m, key, data, duration, now), key, later).dom().contains(key),
{
}

/// Storing under one key leaves every other key as it was.
pub proof fn lemma_set_keeps_other_keys<T>(
    m: Map<Seq<char>, (T, u64)>,
    key: Seq<char>,
    other: Seq<char>,
    data: T,
    duration: u64,
    now: u64,
)
    requires
        other != key,
    ensures
        after_set(m, key, data, duration, now).dom().contains(other) == m.dom().contains(other),
        m.dom().contains(other) ==> after_set(m, key, data, duration, now)[other] == m[other],
{
}

/// A sweep keeps exactly the entries that are fresh at its time, unchanged,
/// so a lookup at that time gives what it gave before the sweep.
pub proof fn lemma_sweep_keeps_fresh<T>(m: Map<Seq<char>, (T, u64)>, now: u64, key: Seq<char>)
    ensures
        after_sweep(m, now).dom().contains(key) == fresh_in(m, key, now),
        fresh_in(after_sweep(m, now), key, now) == fresh_in(m, key, now),
        fresh_in(m, key, now) ==> after_sweep(m, now)[key] == m[key],
{
}

/// A lookup changes nothing but dropping the looked-up key once it is
/// stale: every other key keeps its entry.
pub proof fn lemma_get_keeps_other_keys<T>(
    m: Map<Seq<char>, (T, u64)>,
    key: Seq<char>,
    other: Seq<char>,
    now: u64,
)
    requires
        other != key,
    ensures
        after_get(m, key, now).dom().contains(other) == m.dom().contains(other),
        m.dom().contains(other) ==> after_get(m, key, now)[other] == m[other],
{
}

/// The cached list of all photos with the time (Unix seconds) from which it
/// is stale.
pub struct CachedAllPhotos<T> {
    pub photos: T,
    pub expires_at: u64,
}

/// The single-slot cache of the list of all photos.
pub struct AllPhotosCache<T> {
    pub cached_data: Option<CachedAllPhotos<T>>,
}

/// The slot's contents: the value and its expiry time, if any.
pub open spec fn slot<T>(c: Option<CachedAllPhotos<T>>) -> Option<(T, u64)> {
    match c {
        Some(e) => Some((e.photos, e.expires_at)),
        None => None,
    }
}

impl<T> AllPhotosCache<T> {
    /// An empty cache.
    pub fn new() -> (r: Self)
        ensures
            r.cached_data is None,
    {
        AllPhotosCache { cached_data: None }
    }

    /// Stores `photos` at time `now`, valid for `duration` seconds.
    pub fn set_at(&mut self, photos: T, duration: u64, now: u64)
        ensures
            slot(final(self).cached_data) == Some((photos, expiry(now, duration))),
    {
        self.cached_data = Some(CachedAllPhotos { photos, expires_at: now.saturating_add(duration) });
    }

    /// Stores `photos`, valid for `duration` seconds from now.
    pub fn set(&mut self, photos: T, duration: u64)
        ensures
            exists|now: u64| slot(final(self).cached_data) == Some((photos, #[trigger] expiry(now, duration))),
    {
        let now = now_unix_secs();
        self.set_at(photos, duration, now);
    }

    /// Empties the cache.
    pub fn clear_all(&mut self)
        ensures
            final(self).cached_data is None,
    {
        self.cached_data = None;
    }
}

/// `r` and `after` are what a lookup at time `now` of the slot `before`
/// gives: a clone of the list while fresh; a stale list is dropped.
pub open spec fn slot_lookup<T: Clone>(
    before: Option<(T, u64)>,
    now: u64,
    r: Option<T>,
    after: Option<(T, u64)>,
) -> bool {
    match before {
        Some((v, t)) => if t > now {
            after == before && (r matches Some(c) && cloned(v, c))
        } else {
            after is None && r is None
        },
        None => after is None && r is None,
    }
}

impl<T: Clone> AllPhotosCache<T> {
    /// The list at time `now`: a clone while fresh; a stale list is dropped
    /// and gives nothing.
    pub fn get_at(&mut self, now: u64) -> (r: Option<T>)
        ensures
            slot_lookup(slot(old(self).cached_data), now, r, slot(final(self).cached_data)),
    {
        match &self.cached_data {
            Some(c) => {
                if c.expires_at > now {
                    return Some(c.photos.clone());
                }
            },
            None => {
                return None;
            },
        }
        self.cached_data = None;
        None
    }

    /// The list now: a clone while fresh; a stale list is dropped and gives
    /// nothing.
    pub fn get(&mut self) -> (r: Option<T>)
        ensures
            exists|now: u64|
                #[trigger] slot_lookup(slot(old(self).cached_data), now, r, slot(final(self).cached_data)),
    {
        let now = now_unix_secs();
        self.get_at(now)
    }
}


/// How long a mosaic arrangement is cached when the gallery does not say.
pub const MOSAIC_DEFAULT_TTL: u64 = 3600;

/// How long a plain grid arrangement is cached.
pub const NON_MOSAIC_TTL: u64 = 300;

/// How a gallery's photos are shown, and for how many seconds that
/// arrangement may be cached.
pub struct GalleryArrangement {
    pub photos: Vec<PhotoInfo>,
    /// Whether the photos follow the mosaic layout (else a plain grid).
    pub mosaic: bool,
    pub ttl: u64,
}

/// Whether the gallery's settings ask for a mosaic and there are photos to
/// lay out.
pub open spec fn mosaic_requested(photo_count: int, config: Option<GalleryConfig>) -> bool {
    &&& config matches Some(c) && c.use_mosaic == Some(true)
    &&& photo_count > 0
}

/// The cache time of a mosaic arrangement: the gallery's setting, else the
/// default.
pub open spec fn mosaic_ttl(config: Option<GalleryConfig>) -> u64 {
    match config {
        Some(c) => match c.mosaic_cache_duration {
            Some(d) => d,
            None => MOSAIC_DEFAULT_TTL,
        },
        None => MOSAIC_DEFAULT_TTL,
    }
}

/// `o` names each of `n` photos exactly once: it has `n` entries, each below
/// `n`, none repeated.
pub open spec fn names_each_once(o: Seq<usize>, n: int) -> bool {
    &&& o.len() == n
    &&& forall|k: int| 0 <= k < n ==> #[trigger] o[k] < n
    &&& o.no_duplicates()
}

/// Whether the mosaic order is used: a mosaic was asked for and the layout
/// placed every photo, each in one cell.
pub open spec fn uses_mosaic_order(
    photo_count: int,
    config: Option<GalleryConfig>,
    image_order: Option<Vec<usize>>,
) -> bool {
    &&& mosaic_requested(photo_count, config)
    &&& image_order matches Some(o) && names_each_once(o@, photo_count)
}

/// Whether `order` names each of `n` photos exactly once.
pub fn order_names_each_once(order: &Vec<usize>, n: usize) -> (r: bool)
    ensures
        r == names_each_once(order@, n as int),
{
    if order.len() != n {
        return false;
    }
    let mut seen: Vec<bool> = Vec::new();
    let mut j: usize = 0;
    while j < n
        invariant
            j <= n,
            seen@.len() == j,
            forall|t: int| 0 <= t < j ==> !#[trigger] seen@[t],
        decreases n - j,
    {
        seen.push(false);
        j = j + 1;
    }
    let mut i: usize = 0;
    while i < n
        invariant
            order@.len() == n,
            i <= n,
            seen@.len() == n,
            forall|k: int| 0 <= k < i ==> #[trigger] order@[k] < n,
            forall|t: int|
                0 <= t < n ==> (#[trigger] seen@[t] <==> exists|k: int| 0 <= k < i && order@[k] == t),
            forall|a: int, b: int| 0 <= a < i && 0 <= b < i && a != b ==> order@[a] != order@[b],
        decreases n - i,
    {
        let idx = order[i];
        if idx >= n {
            return false;
        }
        if seen[idx] {
            proof {
                let k = choose|k: int| 0 <= k < i && order@[k] == idx;
                assert(order@[k] == order@[i as int]);
            }
            return false;
        }
        seen.set(idx, true);
        proof {
            assert forall|t: int| 0 <= t < n implies (#[trigger] seen@[t] <==> exists|k: int|
                0 <= k < i + 1 && order@[k] == t) by {
                if t == idx {
                    assert(order@[i as int] == t);
                } else {
                    if exists|k: int| 0 <= k < i + 1 && order@[k] == t {
                        let k = choose|k: int| 0 <= k < i + 1 && order@[k] == t;
                        assert(k < i);
                    }
                }
            }
            assert forall|a: int, b: int| 0 <= a < i + 1 && 0 <= b < i + 1 && a != b implies order@[a]
                != order@[b] by {
                if a == i && b < i {
                    assert(seen@.len() == n);
                } else if b == i && a < i {
                }
            }
        }
        i = i + 1;
    }
    true
}

/// Whether a mosaic layout should be computed for a gallery.
pub fn wants_mosaic(photo_count: usize, config: Option<GalleryConfig>) -> (r: bool)
    ensures
        r == mosaic_requested(photo_count as int, config),
{
    match config {
        Some(c) => match c.use_mosaic {
            Some(b) => b && photo_count > 0,
            None => false,
        },
        None => false,
    }
}

/// Some entry of `order` is `j`.
pub open spec fn names_index(order: Seq<usize>, j: int) -> bool {
    exists|k: int| 0 <= k < order.len() && order[k] == j
}

/// Some photo of `rs` is `p`.
pub open spec fn shows_photo(rs: Seq<PhotoInfo>, p: PhotoInfo) -> bool {
    exists|k: int| 0 <= k < rs.len() && same_photo(#[trigger] rs[k], p)
}

/// An order of `n` distinct indices below `n` names every index.
pub proof fn lemma_distinct_order_covers(order: Seq<usize>, n: nat)
    requires
        order.len() == n,
        order.no_duplicates(),
        forall|k: int| 0 <= k < n ==> #[trigger] order[k] < n,
    ensures
        forall|j: int| 0 <= j < n ==> #[trigger] names_index(order, j),
{
    broadcast use vstd::seq_lib::seq_to_set_is_finite;

    let s = order.map_values(|x: usize| x as int);
    assert(s.no_duplicates()) by {
        assert forall|a: int, b: int| 0 <= a < s.len() && 0 <= b < s.len() && a != b implies s[a] != s[b] by {
            assert(order[a] != order[b]);
        }
    }
    s.unique_seq_to_set();
    vstd::set_lib::lemma_int_range(0, n as int);
    assert(s.to_set().subset_of(vstd::set_lib::set_int_range(0, n as int))) by {
        assert forall|x: int| s.to_set().contains(x) implies vstd::set_lib::set_int_range(0, n as int).contains(x) by {
            let k = choose|k: int| 0 <= k < s.len() && s[k] == x;
            assert(order[k] < n);
        }
    }
    vstd::set_lib::lemma_subset_equality(s.to_set(), vstd::set_lib::set_int_range(0, n as int));
    assert forall|j: int| 0 <= j < n implies #[trigger] names_index(order, j) by {
        assert(vstd::set_lib::set_int_range(0, n as int).contains(j));
        assert(s.to_set().contains(j));
        let k = choose|k: int| 0 <= k < s.len() && s[k] == j;
        assert(order[k] == j);
    }
}

/// Arranges a gallery given the photo order of its mosaic layout, if one was
/// computed. The mosaic order is used only when it places every photo in
/// exactly one cell; otherwise the photos keep their order in a plain grid.
/// Either way every photo is shown exactly once.
pub fn build_gallery_data(
    photos: Vec<PhotoInfo>,
    config: Option<GalleryConfig>,
    image_order: Option<Vec<usize>>,
) -> (r: GalleryArrangement)
    ensures
        r.photos@.len() == photos@.len(),
        uses_mosaic_order(photos@.len() as int, config, image_order) ==> {
            &&& r.mosaic
            &&& r.ttl == mosaic_ttl(config)
            &&& forall|k: int|
                0 <= k < photos@.len() ==> same_photo(
                    #[trigger] r.photos@[k],
                    photos@[image_order->0@[k] as int],
                )
        },
        !uses_mosaic_order(photos@.len() as int, config, image_order) ==> {
            &&& !r.mosaic
            &&& r.ttl == NON_MOSAIC_TTL
            &&& r.photos@ == photos@
        },
        uses_mosaic_order(photos@.len() as int, config, image_order) ==> forall|j: int|
            0 <= j < photos@.len() ==> shows_photo(r.photos@, #[trigger] photos@[j]),
{
    if wants_mosaic(photos.len(), config) {
        if let Some(order) = &image_order {
            if order_names_each_once(order, photos.len()) {
                let mut reordered: Vec<PhotoInfo> = Vec::new();
                let mut k: usize = 0;
                while k < order.len()
                    invariant
                        k <= order@.len(),
                        order@.len() == photos@.len(),
                        image_order == Some(*order),
                        forall|j: int| 0 <= j < photos@.len() ==> #[trigger] order@[j] < photos@.len(),
                        reordered@.len() == k,
                        forall|j: int|
                            0 <= j < k ==> same_photo(
                                #[trigger] reordered@[j],
                                photos@[order@[j] as int],
                            ),
                    decreases order@.len() - k,
                {
                    let idx = order[k];
                    reordered.push(copy_photo(&photos[idx]));
                    k = k + 1;
                }
                proof {
                    {
                        lemma_distinct_order_covers(order@, photos@.len());
                        assert forall|j: int| 0 <= j < photos@.len() implies shows_photo(
                            reordered@,
                            #[trigger] photos@[j],
                        ) by {
                            assert(names_index(order@, j));
                            let k = choose|k: int| 0 <= k < order@.len() && order@[k] == j;
                            assert(same_photo(reordered@[k], photos@[order@[k] as int]));
                        }
                    }
                }
                let ttl = match config {
                    Some(c) => match c.mosaic_cache_duration {
                        Some(d) => d,
                        None => MOSAIC_DEFAULT_TTL,
                    },
                    None => MOSAIC_DEFAULT_TTL,
                };
                return GalleryArrangement { photos: reordered, mosaic: true, ttl };
            }
        }
    }
    GalleryArrangement { photos, mosaic: false, ttl: NON_MOSAIC_TTL }
}

/// The kind of a file-system event, as the image watcher classes them.
#[derive(Clone, Copy, Debug, PartialEq, Eq)]
pub enum WatchEventKind {
    /// An event of unknown kind.
    Any,
    /// A file was read, opened or closed.
    Access,
    Create,
    Remove,
    /// A change of unknown kind.
    ModifyAny,
    /// The contents changed.
    ModifyData,
    /// Permissions, times or other metadata changed.
    ModifyMetadata,
    /// A rename.
    ModifyName,
    /// Another kind of change.
    ModifyOther,
    /// Another kind of event.
    Other,
}

/// The events that change what is on disk: creations, removals, and content
/// changes or renames (or changes of unknown kind). Reads, metadata changes
/// and unclassified events are not.
pub open spec fn is_relevant(kind: WatchEventKind) -> bool {
    match kind {
        WatchEventKind::Create | WatchEventKind::Remove | WatchEventKind::ModifyData
        | WatchEventKind::ModifyName | WatchEventKind::ModifyAny | WatchEventKind::ModifyOther => true,
        _ => false,
    }
}

/// Whether an event is a content change worth invalidating the caches for.
pub fn watch_event_is_relevant(kind: &WatchEventKind) -> (r: bool)
    ensures
        r == is_relevant(*kind),
{
    match kind {
        WatchEventKind::Create | WatchEventKind::Remove | WatchEventKind::ModifyData
        | WatchEventKind::ModifyName | WatchEventKind::ModifyAny | WatchEventKind::ModifyOther => true,
        _ => false,
    }
}


/// Whether a path piece names a component: not empty and not `.`.
pub open spec fn is_component(piece: Seq<char>) -> bool {
    piece.len() > 0 && piece != seq!['.']
}

/// The components of a `/`-separated path, as `Path::components` yields the
/// named ones: empty pieces and `.` are skipped.
pub open spec fn path_components(p: Seq<char>) -> Seq<Seq<char>> {
    split_on(p, '/').filter(|c: Seq<char>| is_component(c))
}

/// Whether the path starts at the root directory.
pub open spec fn is_absolute_path(p: Seq<char>) -> bool {
    p.len() > 0 && p[0] == '/'
}

/// `path` relative to `root`, when `root`'s components begin `path`'s (both
/// absolute or both relative): the remaining components joined with `/`.
pub open spec fn strip_path_prefix(path: Seq<char>, root: Seq<char>) -> Option<Seq<char>> {
    let pc = path_components(path);
    let rc = path_components(root);
    if is_absolute_path(path) == is_absolute_path(root) && rc.len() <= pc.len() && pc.take(
        rc.len() as int,
    ) == rc {
        Some(join_slash(pc.skip(rc.len() as int)))
    } else {
        None
    }
}

/// The needle of cache file names made stale by a change at `source`, a
/// path below `images_root`.
pub open spec fn root_needle(images_root: Seq<char>, source: Seq<char>) -> Option<Seq<char>> {
    match strip_path_prefix(source, images_root) {
        Some(rel) => cache_needle(rel),
        None => None,
    }
}

/// The components of a path.
fn components(p: &str) -> (r: Vec<Vec<char>>)
    ensures
        char_vecs(r@) == path_components(p@),
{
    broadcast use Seq::lemma_filter_push;

    let ghost pred = |c: Seq<char>| is_component(c);
    let chars = to_chars(p);
    let pieces = split_chars(&chars, '/');
    let mut r: Vec<Vec<char>> = Vec::new();
    let mut i: usize = 0;
    proof {
        assert(char_vecs(pieces@).take(0) =~= Seq::<Seq<char>>::empty());
        reveal(Seq::filter);
        assert(char_vecs(r@) =~= Seq::<Seq<char>>::empty().filter(pred));
    }
    while i < pieces.len()
        invariant
            i <= pieces@.len(),
            char_vecs(pieces@) == split_on(p@, '/'),
            char_vecs(r@) == char_vecs(pieces@).take(i as int).filter(pred),
            pred == (|c: Seq<char>| is_component(c)),
        decreases pieces@.len() - i,
    {
        let piece = &pieces[i];
        proof {
            assert(char_vecs(pieces@).take(i + 1) =~= char_vecs(pieces@).take(i as int).push(
                piece@,
            ));
            char_vecs(pieces@).take(i as int).lemma_filter_push(piece@, pred);
        }
        let is_dot = piece.len() == 1 && piece[0] == '.';
        proof {
            if piece@ == seq!['.'] {
                assert(piece@.len() == 1 && piece@[0] == '.');
            }
            if is_dot {
                assert(piece@ =~= seq!['.']);
            }
        }
        if piece.len() > 0 && !is_dot {
            let ghost before = r@;
            r.push(piece.clone());
            assert(char_vecs(r@) =~= char_vecs(before).push(piece@));
        }
        i = i + 1;
    }
    assert(char_vecs(pieces@).take(pieces@.len() as int) =~= char_vecs(pieces@));
    r
}

/// Whether two character vectors hold the same characters.
fn chars_equal(a: &Vec<char>, b: &Vec<char>) -> (r: bool)
    ensures
        r == (a@ == b@),
{
    if a.len() != b.len() {
        return false;
    }
    let mut i: usize = 0;
    while i < a.len()
        invariant
            a@.len() == b@.len(),
            i <= a@.len(),
            forall|k: int| 0 <= k < i ==> a@[k] == b@[k],
        decreases a@.len() - i,
    {
        if a[i] != b[i] {
            return false;
        }
        i = i + 1;
    }
    assert(a@ =~= b@);
    true
}

/// The pieces from position `from` on, joined with `/`.
fn join_from(pieces: &Vec<Vec<char>>, from: usize) -> (r: String)
    requires
        from <= pieces@.len(),
    ensures
        r@ == join_slash(char_vecs(pieces@).skip(from as int)),
{
    let ghost all = char_vecs(pieces@).skip(from as int);
    let mut out = String::new();
    let mut i: usize = from;
    proof {
        assert(all.take(0) =~= Seq::<Seq<char>>::empty());
    }
    while i < pieces.len()
        invariant
            from <= i <= pieces@.len(),
            all == char_vecs(pieces@).skip(from as int),
            out@ == join_slash(all.take(i - from)),
        decreases pieces@.len() - i,
    {
        let ghost before = out@;
        if i > from {
            out.push('/');
        }
        let piece = &pieces[i];
        let mut j: usize = 0;
        let ghost mid = out@;
        while j < piece.len()
            invariant
                j <= piece@.len(),
                out@ == mid + piece@.take(j as int),
            decreases piece@.len() - j,
        {
            out.push(piece[j]);
            assert(out@ =~= mid + piece@.take(j + 1));
            j = j + 1;
        }
        proof {
            assert(piece@.take(piece@.len() as int) =~= piece@);
            assert(all.take(i + 1 - from).drop_last() =~= all.take(i - from));
            assert(all[i - from] == piece@);
            if i == from {
                assert(out@ =~= join_slash(all.take(1)));
            } else {
                assert(out@ =~= join_slash(all.take(i + 1 - from)));
            }
        }
        i = i + 1;
    }
    assert(all.take(pieces@.len() - from) =~= all);
    out
}

/// `path` relative to `root` (as `Path::strip_prefix` gives it), or `None`
/// when `path` does not lie below `root`.
pub fn relative_path(path: &str, root: &str) -> (r: Option<String>)
    ensures
        r matches Some(s) ==> strip_path_prefix(path@, root@) == Some(s@),
        r is None ==> strip_path_prefix(path@, root@) is None,
{
    let path_abs = path.unicode_len() > 0 && path.get_char(0) == '/';
    let root_abs = root.unicode_len() > 0 && root.get_char(0) == '/';
    if path_abs != root_abs {
        return None;
    }
    let pc = components(path);
    let rc = components(root);
    if rc.len() > pc.len() {
        return None;
    }
    let mut k: usize = 0;
    while k < rc.len()
        invariant
            k <= rc@.len() <= pc@.len(),
            forall|j: int| 0 <= j < k ==> rc@[j]@ == pc@[j]@,
            char_vecs(pc@) == path_components(path@),
            char_vecs(rc@) == path_components(root@),
            is_absolute_path(path@) == is_absolute_path(root@),
        decreases rc@.len() - k,
    {
        if !chars_equal(&rc[k], &pc[k]) {
            proof {
                assert(char_vecs(pc@).take(rc@.len() as int)[k as int] != char_vecs(rc@)[k as int]);
            }
            return None;
        }
        k = k + 1;
    }
    proof {
        assert(char_vecs(pc@).take(rc@.len() as int) =~= char_vecs(rc@));
        assert(path_components(root@).len() == rc@.len());
    }
    Some(join_from(&pc, rc.len()))
}

/// The start of the cache file names made stale by a change at `source`, a
/// path below `images_root`: `None` outside the root or for the root itself.
pub fn cache_filename_needle(images_root: &str, source: &str) -> (r: Option<String>)
    ensures
        r matches Some(n) ==> root_needle(images_root@, source@) == Some(n@),
        r is None ==> root_needle(images_root@, source@) is None,
{
    match relative_path(source, images_root) {
        Some(rel) => relative_cache_needle(rel.as_str()),
        None => None,
    }
}


/// A file-system event: its kind and the paths it concerns.
#[derive(Clone, Debug)]
pub struct WatchEvent {
    pub kind: WatchEventKind,
    pub paths: Vec<String>,
}

/// Whether some event of the batch changes what is on disk.
pub open spec fn any_relevant(events: Seq<WatchEvent>) -> bool {
    exists|i: int| 0 <= i < events.len() && is_relevant(#[trigger] events[i].kind)
}

/// Whether `n` is the needle of some path of a relevant event of the batch.
pub open spec fn needed(images_root: Seq<char>, events: Seq<WatchEvent>, n: Seq<char>) -> bool {
    exists|i: int, j: int|
        0 <= i < events.len() && is_relevant(events[i].kind) && 0 <= j < events[i].paths@.len()
            && #[trigger] root_needle(images_root, events[i].paths@[j]@) == Some(n)
}

/// No two strings of `s` are equal.
pub open spec fn no_duplicates(s: Seq<String>) -> bool {
    forall|a: int, b: int| 0 <= a < b < s.len() ==> #[trigger] s[a]@ != #[trigger] s[b]@
}

/// What a batch of file-system events asks for: `None` when none of them
/// changes what is on disk; otherwise the needles of the cache files to
/// delete (each once), after which the in-memory caches are invalidated.
pub fn plan_invalidation(images_root: &str, events: &Vec<WatchEvent>) -> (r: Option<Vec<String>>)
    ensures
        r is None <==> !any_relevant(events@),
        r matches Some(ns) ==> no_duplicates(ns@) && forall|n: Seq<char>|
            contains_str(ns@, n) <==> needed(images_root@, events@, n),
{
    let mut relevant = false;
    let mut needles: Vec<String> = Vec::new();
    let mut i: usize = 0;
    while i < events.len()
        invariant
            i <= events@.len(),
            relevant == any_relevant(events@.take(i as int)),
            no_duplicates(needles@),
            forall|n: Seq<char>|
                contains_str(needles@, n) <==> needed(images_root@, events@.take(i as int), n),
        decreases events@.len() - i,
    {
        let ev = &events[i];
        let ghost prefix = events@.take(i as int);
        let ghost next = events@.take(i + 1);
        proof {
            assert(next =~= prefix.push(*ev));
        }
        if watch_event_is_relevant(&ev.kind) {
            relevant = true;
            let mut j: usize = 0;
            while j < ev.paths.len()
                invariant
                    j <= ev.paths@.len(),
                    next == prefix.push(*ev),
                    is_relevant(ev.kind),
                    no_duplicates(needles@),
                    forall|n: Seq<char>|
                        contains_str(needles@, n) <==> (needed(images_root@, prefix, n) || exists|
                            q: int,
                        |
                            0 <= q < j && #[trigger] root_needle(images_root@, ev.paths@[q]@)
                                == Some(n)),
                decreases ev.paths@.len() - j,
            {
                let ghost before = needles@;
                match cache_filename_needle(images_root, ev.paths[j].as_str()) {
                    Some(n) => {
                        if !contains_string(&needles, n.as_str()) {
                            needles.push(n);
                            proof {
                                assert forall|a: int, b: int| 0 <= a < b < needles@.len() implies #[trigger] needles@[a]@
                                    != #[trigger] needles@[b]@ by {
                                    if b == needles@.len() - 1 {
                                        assert(needles@[a] == before[a]);
                                    } else {
                                        assert(needles@[a] == before[a]);
                                        assert(needles@[b] == before[b]);
                                    }
                                }
                                assert forall|m: Seq<char>| contains_str(needles@, m) <==> (needed(
                                    images_root@,
                                    prefix,
                                    m,
                                ) || exists|q: int|
                                    0 <= q < j + 1 && #[trigger] root_needle(
                                        images_root@,
                                        ev.paths@[q]@,
                                    ) == Some(m)) by {
                                    if contains_str(needles@, m) {
                                        let a = choose|a: int| 0 <= a < needles@.len() && #[trigger] needles@[a]@ == m;
                                        if a < before.len() {
                                            assert(before[a] == needles@[a]);
                                            assert(contains_str(before, m));
                                        } else {
                                            assert(root_needle(images_root@, ev.paths@[j as int]@) == Some(m));
                                        }
                                    }
                                    if exists|q: int| 0 <= q < j + 1 && #[trigger] root_needle(
                                        images_root@,
                                        ev.paths@[q]@,
                                    ) == Some(m) {
                                        let q = choose|q: int| 0 <= q < j + 1 && #[trigger] root_needle(
                                            images_root@,
                                            ev.paths@[q]@,
                                        ) == Some(m);
                                        if q == j {
                                            assert(needles@[needles@.len() - 1]@ == m);
                                        } else {
                                            assert(contains_str(before, m));
                                            let a = choose|a: int| 0 <= a < before.len() && #[trigger] before[a]@ == m;
                                            assert(needles@[a] == before[a]);
                                        }
                                    }
                                    if needed(images_root@, prefix, m) {
                                        assert(contains_str(before, m));
                                        let a = choose|a: int| 0 <= a < before.len() && #[trigger] before[a]@ == m;
                                        assert(needles@[a] == before[a]);
                                    }
                                }
                            }
                        } else {
                            proof {
                                assert forall|m: Seq<char>| contains_str(needles@, m) <==> (needed(
                                    images_root@,
                                    prefix,
                                    m,
                                ) || exists|q: int|
                                    0 <= q < j + 1 && #[trigger] root_needle(
                                        images_root@,
                                        ev.paths@[q]@,
                                    ) == Some(m)) by {
                                    if exists|q: int| 0 <= q < j + 1 && #[trigger] root_needle(
                                        images_root@,
                                        ev.paths@[q]@,
                                    ) == Some(m) {
                                        let q = choose|q: int| 0 <= q < j + 1 && #[trigger] root_needle(
                                            images_root@,
                                            ev.paths@[q]@,
                                        ) == Some(m);
                                        if q < j {
                                            assert(contains_str(needles@, m));
                                        }
                                    }
                                }
                            }
                        }
                    },
                    None => {
                        proof {
                            assert forall|m: Seq<char>| contains_str(needles@, m) <==> (needed(
                                images_root@,
                                prefix,
                                m,
                            ) || exists|q: int|
                                0 <= q < j + 1 && #[trigger] root_needle(
                                    images_root@,
                                    ev.paths@[q]@,
                                ) == Some(m)) by {
                                if exists|q: int| 0 <= q < j + 1 && #[trigger] root_needle(
                                    images_root@,
                                    ev.paths@[q]@,
                                ) == Some(m) {
                                    let q = choose|q: int| 0 <= q < j + 1 && #[trigger] root_needle(
                                        images_root@,
                                        ev.paths@[q]@,
                                    ) == Some(m);
                                    if q < j {
                                        assert(contains_str(needles@, m));
                                    }
                                }
                            }
                        }
                    },
                }
                j = j + 1;
            }
            proof {
                assert(next[i as int] == *ev);
                assert(any_relevant(next));
                assert forall|m: Seq<char>| contains_str(needles@, m) <==> needed(images_root@, next, m) by {
                    if needed(images_root@, next, m) {
                        let (a, b) = choose|a: int, b: int|
                            0 <= a < next.len() && is_relevant(next[a].kind) && 0 <= b < next[a].paths@.len()
                                && #[trigger] root_needle(images_root@, next[a].paths@[b]@) == Some(m);
                        if a < i {
                            assert(next[a] == prefix[a]);
                            assert(needed(images_root@, prefix, m));
                        } else {
                            assert(next[a] == *ev);
                            assert(root_needle(images_root@, ev.paths@[b]@) == Some(m));
                        }
                    }
                    if needed(images_root@, prefix, m) {
                        let (a, b) = choose|a: int, b: int|
                            0 <= a < prefix.len() && is_relevant(prefix[a].kind) && 0 <= b < prefix[a].paths@.len()
                                && #[trigger] root_needle(images_root@, prefix[a].paths@[b]@) == Some(m);
                        assert(next[a] == prefix[a]);
                        assert(root_needle(images_root@, next[a].paths@[b]@) == Some(m));
                    }
                    if exists|q: int| 0 <= q < ev.paths@.len() && #[trigger] root_needle(
                        images_root@,
                        ev.paths@[q]@,
                    ) == Some(m) {
                        let q = choose|q: int| 0 <= q < ev.paths@.len() && #[trigger] root_needle(
                            images_root@,
                            ev.paths@[q]@,
                        ) == Some(m);
                        assert(root_needle(images_root@, next[i as int].paths@[q]@) == Some(m));
                    }
                }
            }
        } else {
            proof {
                assert(next[i as int] == *ev);
                assert(any_relevant(next) == any_relevant(prefix)) by {
                    if any_relevant(next) {
                        let a = choose|a: int| 0 <= a < next.len() && is_relevant(#[trigger] next[a].kind);
                        assert(a < i);
                        assert(next[a] == prefix[a]);
                    }
                    if any_relevant(prefix) {
                        let a = choose|a: int| 0 <= a < prefix.len() && is_relevant(#[trigger] prefix[a].kind);
                        assert(next[a] == prefix[a]);
                    }
                }
                assert forall|m: Seq<char>| contains_str(needles@, m) <==> needed(images_root@, next, m) by {
                    if needed(images_root@, next, m) {
                        let (a, b) = choose|a: int, b: int|
                            0 <= a < next.len() && is_relevant(next[a].kind) && 0 <= b < next[a].paths@.len()
                                && #[trigger] root_needle(images_root@, next[a].paths@[b]@) == Some(m);
                        assert(a < i);
                        assert(next[a] == prefix[a]);
                        assert(needed(images_root@, prefix, m));
                    }
                    if needed(images_root@, prefix, m) {
                        let (a, b) = choose|a: int, b: int|
                            0 <= a < prefix.len() && is_relevant(prefix[a].kind) && 0 <= b < prefix[a].paths@.len()
                                && #[trigger] root_needle(images_root@, prefix[a].paths@[b]@) == Some(m);
                        assert(next[a] == prefix[a]);
                        assert(root_needle(images_root@, next[a].paths@[b]@) == Some(m));
                    }
                }
            }
        }
        i = i + 1;
    }
    assert(events@.take(events@.len() as int) =~= events@);
    if relevant {
        Some(needles)
    } else {
        None
    }
}

/// The cache file names that start with one of the needles, in order.
pub fn cache_files_matching(names: &Vec<String>, needles: &Vec<String>) -> (r: Vec<String>)
    ensures
        string_views(r@) == string_views(names@).filter(
            |nm: Seq<char>|
                exists|i: int| 0 <= i < needles@.len() && starts_with(nm, #[trigger] needles@[i]@),
        ),
{
    broadcast use Seq::lemma_filter_push;

    let ghost pred = |nm: Seq<char>|
        exists|i: int| 0 <= i < needles@.len() && starts_with(nm, #[trigger] needles@[i]@);
    let mut r: Vec<String> = Vec::new();
    let mut i: usize = 0;
    proof {
        assert(string_views(names@).take(0) =~= Seq::<Seq<char>>::empty());
        reveal(Seq::filter);
        assert(string_views(r@) =~= Seq::<Seq<char>>::empty().filter(pred));
    }
    while i < names.len()
        invariant
            i <= names@.len(),
            string_views(r@) == string_views(names@).take(i as int).filter(pred),
            pred == (|nm: Seq<char>|
                exists|i: int| 0 <= i < needles@.len() && starts_with(nm, #[trigger] needles@[i]@)),
        decreases names@.len() - i,
    {
        proof {
            assert(string_views(names@).take(i + 1) =~= string_views(names@).take(i as int).push(
                names@[i as int]@,
            ));
            string_views(names@).take(i as int).lemma_filter_push(names@[i as int]@, pred);
        }
        if matches_any_needle(names[i].as_str(), needles) {
            let ghost before = r@;
            r.push(names[i].clone());
            assert(string_views(r@) =~= string_views(before).push(names@[i as int]@));
        }
        i = i + 1;
    }
    assert(string_views(names@).take(names@.len() as int) =~= string_views(names@));
    r
}


/// The position of the first `true` of `s` from position `from` on.
pub open spec fn first_true(s: Seq<bool>, from: int) -> Option<int>
    decreases s.len() - from,
{
    if from < 0 || from >= s.len() {
        None
    } else if s[from] {
        Some(from)
    } else {
        first_true(s, from + 1)
    }
}

/// The directory a setting names: its value when set, else the first of
/// the fallbacks that exists, else the last fallback (`.` when there are
/// none).
pub open spec fn chosen_dir(env: Option<Seq<char>>, fallbacks: Seq<Seq<char>>, exists: Seq<bool>) -> Seq<char> {
    match env {
        Some(v) => v,
        None => match first_true(exists, 0) {
            Some(i) => fallbacks[i],
            None => if fallbacks.len() > 0 {
                fallbacks.last()
            } else {
                seq!['.']
            },
        },
    }
}

/// The directory a setting names, given its value in the environment (if
/// set), the fallback paths and whether each of them exists.
pub fn resolve_dir(env: Option<&str>, fallbacks: &Vec<&str>, exists: &Vec<bool>) -> (r: String)
    requires
        exists@.len() == fallbacks@.len(),
    ensures
        r@ == chosen_dir(
            match env {
                Some(v) => Some(v@),
                None => None,
            },
            fallbacks@.map_values(|f: &str| f@),
            exists@,
        ),
{
    if let Some(v) = env {
        return v.to_owned();
    }
    let ghost views = fallbacks@.map_values(|f: &str| f@);
    let mut i: usize = 0;
    while i < fallbacks.len()
        invariant
            i <= fallbacks@.len(),
            exists@.len() == fallbacks@.len(),
            first_true(exists@, 0) == first_true(exists@, i as int),
            env is None,
            views == fallbacks@.map_values(|f: &str| f@),
        decreases fallbacks@.len() - i,
    {
        if exists[i] {
            assert(views[i as int] == fallbacks@[i as int]@);
            return fallbacks[i].to_owned();
        }
        i = i + 1;
    }
    if fallbacks.len() > 0 {
        assert(views.last() == fallbacks@[fallbacks@.len() - 1]@);
        fallbacks[fallbacks.len() - 1].to_owned()
    } else {
        proof {
            reveal_strlit(".");
            assert("."@ =~= seq!['.']);
        }
        ".".to_owned()
    }
}

} // verus!
