//! A bounded cache keyed by text: entries expire a fixed time after they were
//! stored, and a full cache makes room by dropping its least recently used
//! entry. Times are nanoseconds since the cache was made.

use vstd::prelude::*;

verus! {

broadcast use vstd::string::group_string_axioms;

#[verifier::external_type_specification]
#[verifier::external_body]
pub struct ExInstant(std::time::Instant);

/// Relies on `Instant::now`.
#[verifier::external_body]
fn instant_now() -> std::time::Instant {
    std::time::Instant::now()
}

/// Relies on `Instant::elapsed`: the nanoseconds since `origin`, which never
/// go backwards. Nothing is promised of the value.
#[verifier::external_body]
fn nanos_since(origin: &std::time::Instant) -> u64 {
    origin.elapsed().as_nanos() as u64
}

pub const NANOS_PER_SEC: u64 = 1_000_000_000;

pub struct CachedItem<V> {
    pub value: V,
    pub inserted_at: u64,
    pub last_accessed: u64,
    pub access_count: u32,
}

pub struct BoundedCache<V> {
    entries: Vec<(String, CachedItem<V>)>,
    max_size: usize,
    ttl_nanos: u64,
    origin: std::time::Instant,
}

pub struct CacheStats {
    pub size: usize,
    pub max_size: usize,
    pub total_accesses: u32,
    pub avg_age_seconds: u64,
}

/// An entry as the contracts see it: key, value, insertion time, last access
/// time and access count.
pub struct EntryView<V> {
    pub key: Seq<char>,
    pub value: V,
    pub inserted_at: u64,
    pub last_accessed: u64,
    pub access_count: u32,
}

pub open spec fn entry_view<V>(e: (String, CachedItem<V>)) -> EntryView<V> {
    EntryView {
        key: e.0@,
        value: e.1.value,
        inserted_at: e.1.inserted_at,
        last_accessed: e.1.last_accessed,
        access_count: e.1.access_count,
    }
}

pub open spec fn age(now: u64, inserted_at: u64) -> int {
    if now >= inserted_at {
        now - inserted_at
    } else {
        0
    }
}

pub open spec fn live<V>(e: EntryView<V>, now: u64, ttl: u64) -> bool {
    age(now, e.inserted_at) < ttl
}

/// The entries still live at `now`, in order.
pub open spec fn live_entries<V>(s: Seq<EntryView<V>>, now: u64, ttl: u64) -> Seq<EntryView<V>>
    decreases s.len(),
{
    if s.len() == 0 {
        s
    } else if live(s.last(), now, ttl) {
        live_entries(s.drop_last(), now, ttl).push(s.last())
    } else {
        live_entries(s.drop_last(), now, ttl)
    }
}

pub open spec fn position_of<V>(s: Seq<EntryView<V>>, k: Seq<char>) -> Option<int> {
    if exists|i: int| 0 <= i < s.len() && s[i].key == k {
        Some(choose|i: int| 0 <= i < s.len() && s[i].key == k)
    } else {
        None
    }
}

/// `p` is the least recently used entry, the first such where several tie.
pub open spec fn is_lru<V>(s: Seq<EntryView<V>>, p: int) -> bool {
    &&& 0 <= p < s.len()
    &&& forall|j: int| 0 <= j < s.len() ==> s[p].last_accessed <= #[trigger] s[j].last_accessed
    &&& forall|j: int| 0 <= j < p ==> s[p].last_accessed < #[trigger] s[j].last_accessed
}

pub open spec fn unique_keys<V>(s: Seq<EntryView<V>>) -> bool {
    forall|i: int, j: int| 0 <= i < j < s.len() ==> (#[trigger] s[i]).key != (#[trigger] s[j]).key
}

pub open spec fn fresh_entry<V>(k: Seq<char>, v: V, now: u64) -> EntryView<V> {
    EntryView { key: k, value: v, inserted_at: now, last_accessed: now, access_count: 0 }
}

pub open spec fn touched<V>(e: EntryView<V>, now: u64) -> EntryView<V> {
    EntryView {
        last_accessed: now,
        access_count: if e.access_count < u32::MAX { (e.access_count + 1) as u32 } else { u32::MAX },
        ..e
    }
}

pub open spec fn access_sum<V>(s: Seq<EntryView<V>>) -> nat
    decreases s.len(),
{
    if s.len() == 0 {
        0
    } else {
        access_sum(s.drop_last()) + s.last().access_count as nat
    }
}

pub open spec fn age_sum<V>(s: Seq<EntryView<V>>, now: u64) -> nat
    decreases s.len(),
{
    if s.len() == 0 {
        0
    } else {
        age_sum(s.drop_last(), now) + age(now, s.last().inserted_at) as nat
    }
}

/// `f` is what storing `v` under `k` at `now` makes of `s`: an existing entry
/// is replaced in place; otherwise the new entry goes last, after the least
/// recently used one is dropped from a full cache.
pub open spec fn set_outcome<V>(s: Seq<EntryView<V>>, f: Seq<EntryView<V>>, k: Seq<char>, v: V, now: u64, max: usize) -> bool {
    let e = fresh_entry(k, v, now);
    match position_of(s, k) {
        Some(p) => f == s.update(p, e),
        None => if s.len() >= max && s.len() > 0 {
            exists|p: int| is_lru(s, p) && f == s.remove(p).push(e)
        } else {
            f == s.push(e)
        },
    }
}

impl<V> BoundedCache<V> {
    pub closed spec fn entries(&self) -> Seq<EntryView<V>> {
        self.entries@.map_values(|e: (String, CachedItem<V>)| entry_view(e))
    }

    pub closed spec fn max_size_spec(&self) -> usize {
        self.max_size
    }

    pub closed spec fn ttl(&self) -> u64 {
        self.ttl_nanos
    }

    pub open spec fn wf(&self) -> bool {
        unique_keys(self.entries())
    }

    /// An empty cache holding at most `max_size` entries (once full), each
    /// for `ttl_seconds`.
    pub fn new(max_size: usize, ttl_seconds: u64) -> (r: Self)
        ensures
            r.wf(),
            r.entries() == Seq::<EntryView<V>>::empty(),
            r.max_size_spec() == max_size,
            r.ttl() as int == if ttl_seconds <= u64::MAX / NANOS_PER_SEC { ttl_seconds * NANOS_PER_SEC } else { u64::MAX as int },
    {
        let ttl_nanos = if ttl_seconds <= u64::MAX / NANOS_PER_SEC {
            ttl_seconds * NANOS_PER_SEC
        } else {
            u64::MAX
        };
        let r = BoundedCache { entries: Vec::new(), max_size, ttl_nanos, origin: instant_now() };
        assert(r.entries() =~= Seq::<EntryView<V>>::empty());
        r
    }

    fn find(&self, key: &String) -> (r: Option<usize>)
        ensures
            r matches Some(i) ==> i < self.entries().len() && self.entries()[i as int].key == key@,
            r is None ==> forall|i: int| 0 <= i < self.entries().len() ==> self.entries()[i].key != key@,
    {
        let mut i: usize = 0;
        while i < self.entries.len()
            invariant
                i <= self.entries@.len(),
                forall|k: int| 0 <= k < i ==> self.entries()[k].key != key@,
            decreases self.entries@.len() - i,
        {
            if self.entries[i].0.eq(key) {
                return Some(i);
            }
            i = i + 1;
        }
        None
    }

    /// Drops the entries that are no longer live at `now`.
    pub fn evict_expired_at(&mut self, now: u64)
        requires
            old(self).wf(),
        ensures
            final(self).wf(),
            final(self).entries() == live_entries(old(self).entries(), now, old(self).ttl()),
            final(self).max_size_spec() == old(self).max_size_spec(),
            final(self).ttl() == old(self).ttl(),
    {
        let ghost before = self.entries();
        let mut i: usize = 0;
        let mut j: usize = 0;
        assert(before.take(0) =~= Seq::<EntryView<V>>::empty());
        assert(self.entries() =~= live_entries(before.take(0), now, self.ttl_nanos) + before.skip(0));
        let n0 = self.entries.len();
        assert(before.len() == n0);
        while j < self.entries.len()
            invariant
                i <= before.len(),
                j == live_entries(before.take(i as int), now, self.ttl_nanos).len(),
                self.entries() == live_entries(before.take(i as int), now, self.ttl_nanos) + before.skip(i as int),
                self.entries@.len() == j + (before.len() - i),
                self.wf(),
                self.ttl_nanos == old(self).ttl_nanos,
                self.max_size == old(self).max_size,
                before == old(self).entries(),
                before.len() <= usize::MAX,
            decreases self.entries@.len() - j,
        {
            let ghost cur = self.entries();
            let ghost l = live_entries(before.take(i as int), now, self.ttl_nanos);
            assert(before.take(i + 1).drop_last() == before.take(i as int));
            assert(before.take(i + 1).last() == before[i as int]);
            assert(cur[j as int] == before[i as int]);
            let inserted = self.entries[j].1.inserted_at;
            let expired = if now >= inserted { now - inserted >= self.ttl_nanos } else { 0 >= self.ttl_nanos };
            if expired {
                let _gone = self.entries.remove(j);
                assert(self.entries() =~= cur.remove(j as int));
                assert(cur.remove(j as int) =~= l + before.skip(i + 1));
                assert(unique_keys(self.entries())) by {
                    assert forall|a: int, b: int| 0 <= a < b < self.entries().len() implies (#[trigger] self.entries()[a]).key != (#[trigger] self.entries()[b]).key by {
                        let a2 = if a < j { a } else { a + 1 };
                        let b2 = if b < j { b } else { b + 1 };
                        assert(self.entries()[a] == cur[a2]);
                        assert(self.entries()[b] == cur[b2]);
                    }
                }
            } else {
                assert(self.entries() =~= live_entries(before.take(i + 1), now, self.ttl_nanos) + before.skip(i + 1));
                j = j + 1;
            }
            i = i + 1;
        }
        assert(before.take(i as int) == before);
        assert(self.entries() =~= live_entries(before, now, self.ttl_nanos));
    }

    proof fn lemma_position(&self, i: int)
        requires
            self.wf(),
            0 <= i < self.entries().len(),
        ensures
            position_of(self.entries(), self.entries()[i].key) == Some(i),
    {
        let k = self.entries()[i].key;
        let c = choose|c: int| 0 <= c < self.entries().len() && self.entries()[c].key == k;
        if c != i {
            if c < i {
                assert(self.entries()[c].key != self.entries()[i].key);
            } else {
                assert(self.entries()[i].key != self.entries()[c].key);
            }
        }
    }

    /// The value stored under `key` at `now`, expired entries dropped first;
    /// a hit counts as an access.
    pub fn get_at(&mut self, key: &String, now: u64) -> (r: Option<&V>)
        requires
            old(self).wf(),
        ensures
            final(self).wf(),
            final(self).max_size_spec() == old(self).max_size_spec(),
            final(self).ttl() == old(self).ttl(),
            ({
                let l = live_entries(old(self).entries(), now, old(self).ttl());
                match position_of(l, key@) {
                    Some(p) => (r matches Some(v) && *v == l[p].value
                        && final(self).entries() == l.update(p, touched(l[p], now))),
                    None => r is None && final(self).entries() == l,
                }
            }),
    {
        self.evict_expired_at(now);
        let ghost l = self.entries();
        match self.find(key) {
            Some(i) => {
                proof {
                    self.lemma_position(i as int);
                }
                let count = self.entries[i].1.access_count;
                let next = if count < u32::MAX { count + 1 } else { u32::MAX };
                self.entries[i].1.last_accessed = now;
                self.entries[i].1.access_count = next;
                assert(self.entries() =~= l.update(i as int, touched(l[i as int], now)));
                assert(unique_keys(self.entries())) by {
                    assert forall|a: int, b: int| 0 <= a < b < self.entries().len() implies (#[trigger] self.entries()[a]).key != (#[trigger] self.entries()[b]).key by {
                        assert(self.entries()[a].key == l[a].key);
                        assert(self.entries()[b].key == l[b].key);
                    }
                }
                Some(&self.entries[i].1.value)
            },
            None => {
                assert(position_of(l, key@) is None);
                None
            },
        }
    }

    /// The position of the least recently used entry.
    fn lru_index(&self) -> (r: usize)
        requires
            self.entries().len() > 0,
        ensures
            is_lru(self.entries(), r as int),
    {
        let mut best: usize = 0;
        let mut i: usize = 1;
        while i < self.entries.len()
            invariant
                1 <= i <= self.entries@.len(),
                best < i,
                forall|j: int| 0 <= j < i ==> self.entries()[best as int].last_accessed <= #[trigger] self.entries()[j].last_accessed,
                forall|j: int| 0 <= j < best ==> self.entries()[best as int].last_accessed < #[trigger] self.entries()[j].last_accessed,
            decreases self.entries@.len() - i,
        {
            if self.entries[i].1.last_accessed < self.entries[best].1.last_accessed {
                best = i;
            }
            i = i + 1;
        }
        best
    }

    /// Stores `value` under `key` at `now`. A new key in a full cache first
    /// drops the least recently used entry.
    pub fn set_at(&mut self, key: String, value: V, now: u64)
        requires
            old(self).wf(),
        ensures
            final(self).wf(),
            final(self).max_size_spec() == old(self).max_size_spec(),
            final(self).ttl() == old(self).ttl(),
            set_outcome(old(self).entries(), final(self).entries(), key@, value, now, old(self).max_size_spec()),
    {
        let ghost s = self.entries();
        let ghost e = fresh_entry(key@, value, now);
        let item = CachedItem { value, inserted_at: now, last_accessed: now, access_count: 0 };
        match self.find(&key) {
            Some(i) => {
                proof {
                    self.lemma_position(i as int);
                }
                self.entries.set(i, (key, item));
                assert(self.entries() =~= s.update(i as int, e));
                assert(unique_keys(self.entries())) by {
                    assert forall|a: int, b: int| 0 <= a < b < self.entries().len() implies (#[trigger] self.entries()[a]).key != (#[trigger] self.entries()[b]).key by {
                        assert(self.entries()[a].key == s[a].key);
                        assert(self.entries()[b].key == s[b].key);
                    }
                }
            },
            None => {
                assert(position_of(s, key@) is None);
                if self.entries.len() >= self.max_size && self.entries.len() > 0 {
                    let p = self.lru_index();
                    let _dropped = self.entries.remove(p);
                    let ghost mid = self.entries();
                    assert(mid =~= s.remove(p as int));
                    self.entries.push((key, item));
                    assert(self.entries() =~= s.remove(p as int).push(e));
                    assert(unique_keys(self.entries())) by {
                        assert forall|a: int, b: int| 0 <= a < b < self.entries().len() implies (#[trigger] self.entries()[a]).key != (#[trigger] self.entries()[b]).key by {
                            if b < mid.len() {
                                let a2 = if a < p { a } else { a + 1 };
                                let b2 = if b < p { b } else { b + 1 };
                                assert(mid[a] == s[a2]);
                                assert(mid[b] == s[b2]);
                            } else {
                                let a2 = if a < p { a } else { a + 1 };
                                assert(mid[a] == s[a2]);
                            }
                        }
                    }
                } else {
                    self.entries.push((key, item));
                    assert(self.entries() =~= s.push(e));
                }
            },
        }
    }

    /// Takes the entry under `key` out of the cache.
    pub fn remove(&mut self, key: &String) -> (r: Option<V>)
        requires
            old(self).wf(),
        ensures
            final(self).wf(),
            final(self).max_size_spec() == old(self).max_size_spec(),
            final(self).ttl() == old(self).ttl(),
            match position_of(old(self).entries(), key@) {
                Some(p) => r == Some(old(self).entries()[p].value)
                    && final(self).entries() == old(self).entries().remove(p),
                None => r is None && final(self).entries() == old(self).entries(),
            },
    {
        let ghost s = self.entries();
        match self.find(key) {
            Some(i) => {
                proof {
                    self.lemma_position(i as int);
                }
                let (_k, item) = self.entries.remove(i);
                assert(self.entries() =~= s.remove(i as int));
                assert(unique_keys(self.entries())) by {
                    assert forall|a: int, b: int| 0 <= a < b < self.entries().len() implies (#[trigger] self.entries()[a]).key != (#[trigger] self.entries()[b]).key by {
                        let a2 = if a < i { a } else { a + 1 };
                        let b2 = if b < i { b } else { b + 1 };
                        assert(self.entries()[a] == s[a2]);
                        assert(self.entries()[b] == s[b2]);
                    }
                }
                Some(item.value)
            },
            None => {
                assert(position_of(s, key@) is None);
                None
            },
        }
    }

    pub fn clear(&mut self)
        ensures
            final(self).wf(),
            final(self).entries() == Seq::<EntryView<V>>::empty(),
            final(self).max_size_spec() == old(self).max_size_spec(),
            final(self).ttl() == old(self).ttl(),
    {
        self.entries.clear();
        assert(self.entries() =~= Seq::<EntryView<V>>::empty());
    }

    pub fn len(&self) -> (r: usize)
        ensures
            r == self.entries().len(),
    {
        self.entries.len()
    }

    pub fn is_empty(&self) -> (r: bool)
        ensures
            r == (self.entries().len() == 0),
    {
        self.entries.len() == 0
    }

    /// Size, capacity, accesses (capped at the largest `u32`) and the mean
    /// age in whole seconds, at `now`.
    pub fn get_stats_at(&self, now: u64) -> (r: CacheStats)
        ensures
            r.size == self.entries().len(),
            r.max_size == self.max_size_spec(),
            r.total_accesses as nat == if access_sum(self.entries()) <= u32::MAX { access_sum(self.entries()) } else { u32::MAX as nat },
            r.avg_age_seconds as nat == if self.entries().len() > 0 {
                (age_sum(self.entries(), now) / (NANOS_PER_SEC as nat)) / self.entries().len()
            } else {
                0
            },
    {
        let ghost s = self.entries();
        let n = self.entries.len();
        let mut accesses: u128 = 0;
        let mut ages: u128 = 0;
        let mut i: usize = 0;
        assert(s.take(0) =~= Seq::<EntryView<V>>::empty());
        while i < n
            invariant
                n == s.len(),
                s == self.entries(),
                i <= n,
                accesses as nat == access_sum(s.take(i as int)),
                accesses <= i * (u32::MAX as int),
                ages as nat == age_sum(s.take(i as int), now),
                ages <= i * (u64::MAX as int),
            decreases n - i,
        {
            assert(s.take(i + 1).drop_last() == s.take(i as int));
            assert(s.take(i + 1).last() == s[i as int]);
            let item = &self.entries[i].1;
            assert(accesses + item.access_count <= (i + 1) * (u32::MAX as int)) by (nonlinear_arith)
                requires accesses <= i * (u32::MAX as int), item.access_count <= u32::MAX;
            assert((i + 1) * (u32::MAX as int) <= u128::MAX) by (nonlinear_arith)
                requires i < n, n <= usize::MAX;
            accesses = accesses + item.access_count as u128;
            let a: u64 = if now >= item.inserted_at { now - item.inserted_at } else { 0 };
            assert(ages + a <= (i + 1) * (u64::MAX as int)) by (nonlinear_arith)
                requires ages <= i * (u64::MAX as int), a <= u64::MAX;
            assert((i + 1) * (u64::MAX as int) <= u128::MAX) by (nonlinear_arith)
                requires i < n, n <= usize::MAX;
            ages = ages + a as u128;
            i = i + 1;
        }
        assert(s.take(i as int) == s);
        let total_accesses: u32 = if accesses <= u32::MAX as u128 { accesses as u32 } else { u32::MAX };
        let avg_age_seconds: u64 = if n > 0 {
            let secs = ages / (NANOS_PER_SEC as u128);
            let avg = secs / (n as u128);
            assert(avg <= u64::MAX) by (nonlinear_arith)
                requires ages <= n * (u64::MAX as int), secs == ages / 1_000_000_000, avg == secs / (n as u128), n > 0;
            avg as u64
        } else {
            0
        };
        CacheStats { size: n, max_size: self.max_size, total_accesses, avg_age_seconds }
    }

    fn now(&self) -> u64 {
        nanos_since(&self.origin)
    }

    /// The value under `key` now; see `get_at`.
    pub fn get(&mut self, key: &String) -> (r: Option<&V>)
        requires
            old(self).wf(),
        ensures
            final(self).wf(),
            final(self).max_size_spec() == old(self).max_size_spec(),
            final(self).ttl() == old(self).ttl(),
            r matches Some(v) ==> exists|p: int| 0 <= p < old(self).entries().len()
                && old(self).entries()[p].key == key@ && old(self).entries()[p].value == *v,
    {
        let now = self.now();
        let ghost s = self.entries();
        let ghost ttl = self.ttl();
        proof {
            let l = live_entries(s, now, ttl);
            if let Some(p) = position_of(l, key@) {
                lemma_live_from(s, now, ttl, p);
            }
        }
        self.get_at(key, now)
    }

    /// Stores `value` under `key` now; see `set_at`.
    pub fn set(&mut self, key: String, value: V)
        requires
            old(self).wf(),
        ensures
            final(self).wf(),
            final(self).max_size_spec() == old(self).max_size_spec(),
            final(self).ttl() == old(self).ttl(),
            exists|now: u64| #[trigger] set_outcome(old(self).entries(), final(self).entries(), key@, value, now, old(self).max_size_spec()),
    {
        let now = self.now();
        self.set_at(key, value, now);
    }

    /// Drops the entries expired now.
    pub fn evict_expired(&mut self)
        requires
            old(self).wf(),
        ensures
            final(self).wf(),
            final(self).max_size_spec() == old(self).max_size_spec(),
            final(self).ttl() == old(self).ttl(),
            exists|now: u64| final(self).entries() == live_entries(old(self).entries(), now, old(self).ttl()),
    {
        let now = self.now();
        self.evict_expired_at(now);
    }

    /// The statistics now; see `get_stats_at`.
    pub fn get_stats(&self) -> (r: CacheStats)
        ensures
            r.size == self.entries().len(),
            r.max_size == self.max_size_spec(),
            r.total_accesses as nat == if access_sum(self.entries()) <= u32::MAX { access_sum(self.entries()) } else { u32::MAX as nat },
    {
        let now = self.now();
        self.get_stats_at(now)
    }
}

/// Every live entry is an entry of the cache.
proof fn lemma_live_from<V>(s: Seq<EntryView<V>>, now: u64, ttl: u64, p: int)
    requires
        0 <= p < live_entries(s, now, ttl).len(),
    ensures
        exists|q: int| 0 <= q < s.len() && s[q] == live_entries(s, now, ttl)[p],
    decreases s.len(),
{
    if s.len() > 0 {
        let l0 = live_entries(s.drop_last(), now, ttl);
        if p < l0.len() {
            lemma_live_from(s.drop_last(), now, ttl, p);
            let q = choose|q: int| 0 <= q < s.drop_last().len() && s.drop_last()[q] == l0[p];
            assert(s[q] == l0[p]);
        } else {
            assert(s[s.len() - 1] == live_entries(s, now, ttl)[p]);
        }
    }
}

} // verus!
