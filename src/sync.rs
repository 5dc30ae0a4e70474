//! The decisions of a sync run: the diff between the store's snapshot and the
//! disk's, the favorite carried over on re-ingestion, and the run's counters
//! and progress, updated once per finished file.

use std::collections::HashMap;
use vstd::prelude::*;
use vstd::utf8::encode_utf8;
use crate::container::be_u32_at;
use crate::record::{sha256, sha256_of, FileEntry, Mtime};
use crate::scanner::views;
use crate::text::{nat_text, usize_to_text};

verus! {

broadcast use {vstd::string::group_string_axioms, vstd::std_specs::hash::group_hash_axioms};

/// The last position of path `p` in a snapshot list.
pub open spec fn path_pos(v: Seq<(String, Mtime)>, p: Seq<char>) -> Option<int>
    decreases v.len(),
{
    if v.len() == 0 {
        None
    } else if v.last().0@ == p {
        Some(v.len() - 1)
    } else {
        path_pos(v.drop_last(), p)
    }
}

/// A snapshot list as a map from path to whole seconds; a later entry for a
/// path wins.
pub open spec fn snapshot(v: Seq<(String, Mtime)>) -> Map<Seq<char>, i64>
    decreases v.len(),
{
    if v.len() == 0 {
        Map::empty()
    } else {
        snapshot(v.drop_last()).insert(v.last().0@, v.last().1.secs)
    }
}

pub proof fn lemma_snapshot(v: Seq<(String, Mtime)>, p: Seq<char>)
    ensures
        path_pos(v, p) matches Some(i) ==> 0 <= i < v.len() && v[i].0@ == p
            && snapshot(v).contains_key(p) && snapshot(v)[p] == v[i].1.secs,
        path_pos(v, p) is None ==> !snapshot(v).contains_key(p),
    decreases v.len(),
{
    if v.len() > 0 {
        lemma_snapshot(v.drop_last(), p);
    }
}

/// The three path sets of a run.
pub struct DeltaSets {
    pub to_add: Set<Seq<char>>,
    pub to_update: Set<Seq<char>>,
    pub to_delete: Set<Seq<char>>,
}

/// New paths are added, vanished ones deleted, and a path on both sides is
/// updated when its disk time is strictly later in whole seconds.
pub open spec fn delta_of(stored: Map<Seq<char>, i64>, disk: Map<Seq<char>, i64>) -> DeltaSets {
    DeltaSets {
        to_add: disk.dom().difference(stored.dom()),
        to_update: Set::new(|p: Seq<char>| disk.contains_key(p) && stored.contains_key(p) && disk[p] > stored[p]),
        to_delete: stored.dom().difference(disk.dom()),
    }
}

/// The paths a sync run adds, updates and deletes, each once.
pub struct ScanDelta {
    pub to_add: Vec<String>,
    pub to_update: Vec<String>,
    pub to_delete: Vec<String>,
}

impl ScanDelta {
    pub open spec fn matches(self, d: DeltaSets) -> bool {
        &&& views(self.to_add@).no_duplicates()
        &&& views(self.to_update@).no_duplicates()
        &&& views(self.to_delete@).no_duplicates()
        &&& views(self.to_add@).to_set() == d.to_add
        &&& views(self.to_update@).to_set() == d.to_update
        &&& views(self.to_delete@).to_set() == d.to_delete
    }
}

proof fn lemma_path_pos_last(v: Seq<(String, Mtime)>, p: Seq<char>, i: int)
    requires
        0 <= i < v.len(),
        v[i].0@ == p,
        forall|j: int| i < j < v.len() ==> (#[trigger] v[j]).0@ != p,
    ensures
        path_pos(v, p) == Some(i),
    decreases v.len(),
{
    if i < v.len() - 1 {
        assert(v.last() == v[v.len() - 1]);
        assert(forall|j: int| i < j < v.len() - 1 ==> (#[trigger] v.drop_last()[j]) == v[j]);
        lemma_path_pos_last(v.drop_last(), p, i);
    }
}

proof fn lemma_path_pos_absent(v: Seq<(String, Mtime)>, p: Seq<char>)
    requires
        forall|j: int| 0 <= j < v.len() ==> (#[trigger] v[j]).0@ != p,
    ensures
        path_pos(v, p) is None,
    decreases v.len(),
{
    if v.len() > 0 {
        assert(v.last() == v[v.len() - 1]);
        assert(forall|j: int| 0 <= j < v.len() - 1 ==> (#[trigger] v.drop_last()[j]) == v[j]);
        lemma_path_pos_absent(v.drop_last(), p);
    }
}

/// The bucket of a path in a path index: the first four bytes of the SHA-256
/// digest of its encoding, read big-endian.
pub open spec fn bucket_of(p: Seq<char>) -> u64 {
    be_u32_at(sha256_of(encode_utf8(p)), 0) as u64
}

fn bucket_key(p: &String) -> (r: u64)
    ensures
        r == bucket_of(p@),
{
    let d = sha256(p.as_str().as_bytes());
    (d[0] as u64) * 16777216 + (d[1] as u64) * 65536 + (d[2] as u64) * 256 + (d[3] as u64)
}

/// `m` lists, under each bucket, positions of `v` whose paths fall in it,
/// and every position of `v` is listed under its path's bucket.
#[verifier::opaque]
pub open spec fn indexes(v: Seq<(String, Mtime)>, m: Map<u64, Vec<usize>>) -> bool {
    &&& forall|h: u64, k: int| #[trigger] m.contains_key(h) && 0 <= k < m[h]@.len() ==> {
        let x = #[trigger] m[h]@[k];
        x < v.len() && bucket_of(v[x as int].0@) == h
    }
    &&& forall|j: int| 0 <= j < v.len() ==> m.contains_key(bucket_of((#[trigger] v[j]).0@))
        && m[bucket_of(v[j].0@)]@.contains(j as usize)
}

fn index_paths(v: &Vec<(String, Mtime)>) -> (r: HashMap<u64, Vec<usize>>)
    ensures
        indexes(v@, r@),
{
    let mut m: HashMap<u64, Vec<usize>> = HashMap::new();
    let mut i: usize = 0;
    while i < v.len()
        invariant
            i <= v@.len(),
            forall|h: u64, k: int| #[trigger] m@.contains_key(h) && 0 <= k < m@[h]@.len() ==> {
                let x = #[trigger] m@[h]@[k];
                x < i && bucket_of(v@[x as int].0@) == h
            },
            forall|j: int| 0 <= j < i ==> m@.contains_key(bucket_of((#[trigger] v@[j]).0@))
                && m@[bucket_of(v@[j].0@)]@.contains(j as usize),
        decreases v@.len() - i,
    {
        let h = bucket_key(&v[i].0);
        let ghost before = m@;
        let mut bucket: Vec<usize> = match m.remove(&h) {
            Some(b) => b,
            None => Vec::new(),
        };
        let ghost old_bucket = bucket@;
        assert(before.contains_key(h) ==> old_bucket == before[h]@);
        assert(!before.contains_key(h) ==> old_bucket.len() == 0);
        bucket.push(i);
        m.insert(h, bucket);
        assert forall|h2: u64, k: int| #[trigger] m@.contains_key(h2) && 0 <= k < m@[h2]@.len() implies {
            let x = #[trigger] m@[h2]@[k];
            x < i + 1 && bucket_of(v@[x as int].0@) == h2
        } by {
            if h2 != h {
                assert(before.contains_key(h2) && m@[h2] == before[h2]);
            } else if k < old_bucket.len() {
                assert(m@[h2]@[k] == before[h]@[k]);
            }
        }
        assert forall|j: int| 0 <= j < i + 1 implies m@.contains_key(bucket_of((#[trigger] v@[j]).0@))
            && m@[bucket_of(v@[j].0@)]@.contains(j as usize) by {
            let hj = bucket_of(v@[j].0@);
            if j == i as int {
                assert(m@[h]@[old_bucket.len() as int] == i);
            } else if hj != h {
                assert(m@[hj] == before[hj]);
            } else {
                let k = choose|k: int| 0 <= k < before[h]@.len() && before[h]@[k] == j as usize;
                assert(m@[h]@[k] == j as usize);
            }
        }
        i = i + 1;
    }
    proof {
        reveal(indexes);
    }
    m
}

proof fn lemma_bucket_covers(v: Seq<(String, Mtime)>, m: Map<u64, Vec<usize>>, p: Seq<char>, j: int)
    requires
        indexes(v, m),
        0 <= j < v.len(),
        v.len() <= usize::MAX,
        v[j].0@ == p,
    ensures
        m.contains_key(bucket_of(p)),
        exists|k: int| 0 <= k < m[bucket_of(p)]@.len() && m[bucket_of(p)]@[k] as int == j,
{
    reveal(indexes);
    assert(m.contains_key(bucket_of(v[j].0@)));
    let b = m[bucket_of(p)]@;
    assert(b.contains(j as usize));
    let k = choose|k: int| 0 <= k < b.len() && b[k] == j as usize;
    assert(b[k] as int == j);
}

proof fn lemma_bucket_bounded(v: Seq<(String, Mtime)>, m: Map<u64, Vec<usize>>, h: u64)
    requires
        indexes(v, m),
        m.contains_key(h),
    ensures
        forall|k: int| 0 <= k < m[h]@.len() ==> #[trigger] m[h]@[k] < v.len(),
{
    reveal(indexes);
    assert forall|k: int| 0 <= k < m[h]@.len() implies #[trigger] m[h]@[k] < v.len() by {
        assert(m.contains_key(h) && 0 <= k < m[h]@.len());
    }
}

/// The largest position listed in `bucket` whose path in `v` is `p`.
fn last_in_bucket(v: &Vec<(String, Mtime)>, bucket: &Vec<usize>, p: &String) -> (r: Option<usize>)
    requires
        forall|k: int| 0 <= k < bucket@.len() ==> #[trigger] bucket@[k] < v@.len(),
    ensures
        r matches Some(x) ==> x < v@.len() && v@[x as int].0@ == p@
            && forall|k: int| 0 <= k < bucket@.len() && v@[#[trigger] bucket@[k] as int].0@ == p@ ==> bucket@[k] <= x,
        r is None ==> forall|k: int| 0 <= k < bucket@.len() ==> v@[#[trigger] bucket@[k] as int].0@ != p@,
{
    let mut best: Option<usize> = None;
    let mut k: usize = 0;
    while k < bucket.len()
        invariant
            forall|k2: int| 0 <= k2 < bucket@.len() ==> #[trigger] bucket@[k2] < v@.len(),
            k <= bucket@.len(),
            best matches Some(x) ==> x < v@.len() && v@[x as int].0@ == p@
                && forall|k2: int| 0 <= k2 < k && v@[#[trigger] bucket@[k2] as int].0@ == p@ ==> bucket@[k2] <= x,
            best is None ==> forall|k2: int| 0 <= k2 < k ==> v@[#[trigger] bucket@[k2] as int].0@ != p@,
        decreases bucket@.len() - k,
    {
        let idx = bucket[k];
        if v[idx].0.eq(p) {
            match best {
                Some(x) => {
                    if idx > x {
                        best = Some(idx);
                    }
                },
                None => {
                    best = Some(idx);
                },
            }
        }
        k = k + 1;
    }
    best
}

/// The last position of `p` in `v`, found through `v`'s path index.
fn last_index_in(v: &Vec<(String, Mtime)>, m: &HashMap<u64, Vec<usize>>, p: &String) -> (r: Option<usize>)
    requires
        indexes(v@, m@),
    ensures
        r matches Some(i) ==> path_pos(v@, p@) == Some(i as int),
        r is None ==> path_pos(v@, p@) is None,
{
    let h = bucket_key(p);
    let n = v.len();
    match m.get(&h) {
        None => {
            proof {
                assert forall|j: int| 0 <= j < v@.len() implies (#[trigger] v@[j]).0@ != p@ by {
                    if v@[j].0@ == p@ {
                        lemma_bucket_covers(v@, m@, p@, j);
                    }
                }
                lemma_path_pos_absent(v@, p@);
            }
            None
        },
        Some(b) => {
            assert(m@.contains_key(h) && m@[h] == *b);
            proof {
                lemma_bucket_bounded(v@, m@, h);
            }
            let best = last_in_bucket(v, b, p);
            proof {
                let bs = b@;
                assert(bs == m@[bucket_of(p@)]@);
                match best {
                    Some(x) => {
                        assert forall|j: int| x < j < v@.len() implies (#[trigger] v@[j]).0@ != p@ by {
                            if v@[j].0@ == p@ {
                                lemma_bucket_covers(v@, m@, p@, j);
                                let k2 = choose|k2: int| 0 <= k2 < bs.len() && bs[k2] as int == j;
                                assert(v@[bs[k2] as int].0@ == p@);
                            }
                        }
                        lemma_path_pos_last(v@, p@, x as int);
                    },
                    None => {
                        assert forall|j: int| 0 <= j < v@.len() implies (#[trigger] v@[j]).0@ != p@ by {
                            if v@[j].0@ == p@ {
                                lemma_bucket_covers(v@, m@, p@, j);
                                let k2 = choose|k2: int| 0 <= k2 < bs.len() && bs[k2] as int == j;
                                assert(v@[bs[k2] as int].0@ != p@);
                            }
                        }
                        lemma_path_pos_absent(v@, p@);
                    },
                }
            }
            best
        },
    }
}

pub open spec fn seen_before(v: Seq<(String, Mtime)>, q: Seq<char>, i: int) -> bool {
    path_pos(v, q) matches Some(k) && k < i
}

proof fn lemma_seen_all(v: Seq<(String, Mtime)>, q: Seq<char>)
    ensures
        seen_before(v, q, v.len() as int) == snapshot(v).contains_key(q),
{
    lemma_snapshot(v, q);
}

/// The paths of `a`'s snapshot, each once, in order of their last entries:
/// with `newer`, those also in `b`'s snapshot with a later time in `a`;
/// without, those not in `b`'s snapshot.
fn collect_paths(
    a: &Vec<(String, Mtime)>,
    a_index: &HashMap<u64, Vec<usize>>,
    b: &Vec<(String, Mtime)>,
    b_index: &HashMap<u64, Vec<usize>>,
    newer: bool,
) -> (r: Vec<String>)
    requires
        indexes(a@, a_index@),
        indexes(b@, b_index@),
    ensures
        views(r@).no_duplicates(),
        newer ==> views(r@).to_set() == Set::new(|q: Seq<char>| snapshot(a@).contains_key(q)
            && snapshot(b@).contains_key(q) && snapshot(a@)[q] > snapshot(b@)[q]),
        !newer ==> views(r@).to_set() == snapshot(a@).dom().difference(snapshot(b@).dom()),
{
    let ghost sa = snapshot(a@);
    let ghost sb = snapshot(b@);
    let ghost keep = |q: Seq<char>| if newer {
        sb.contains_key(q) && sa[q] > sb[q]
    } else {
        !sb.contains_key(q)
    };
    let mut r: Vec<String> = Vec::new();
    let mut i: usize = 0;
    assert forall|x: Seq<char>| !seen_before(a@, x, 0) by {
        lemma_snapshot(a@, x);
    }
    assert(views(r@).to_set() =~= Set::new(|q: Seq<char>| seen_before(a@, q, 0) && keep(q)));
    while i < a.len()
        invariant
            i <= a@.len(),
            indexes(a@, a_index@),
            indexes(b@, b_index@),
            sa == snapshot(a@),
            sb == snapshot(b@),
            keep == (|q: Seq<char>| if newer {
                sb.contains_key(q) && sa[q] > sb[q]
            } else {
                !sb.contains_key(q)
            }),
            views(r@).no_duplicates(),
            forall|k: int| 0 <= k < r@.len() ==> seen_before(a@, #[trigger] views(r@)[k], i as int),
            views(r@).to_set() == Set::new(|q: Seq<char>| seen_before(a@, q, i as int) && keep(q)),
        decreases a@.len() - i,
    {
        let p = &a[i].0;
        let ghost q = p@;
        let ghost old_r = views(r@);
        proof {
            lemma_snapshot(a@, q);
            lemma_snapshot(b@, q);
        }
        let mut take = false;
        if let Some(last) = last_index_in(a, a_index, p) {
            if last == i {
                match last_index_in(b, b_index, p) {
                    None => {
                        take = !newer;
                    },
                    Some(j) => {
                        take = newer && a[i].1.secs > b[j].1.secs;
                    },
                }
            }
        }
        assert(take == (path_pos(a@, q) == Some(i as int) && keep(q)));
        if take {
            r.push(p.clone());
            assert(views(r@) == old_r.push(q));
            assert(!old_r.contains(q)) by {
                if old_r.contains(q) {
                    let k = choose|k: int| 0 <= k < old_r.len() && old_r[k] == q;
                    assert(seen_before(a@, old_r[k], i as int));
                }
            }
        }
        assert forall|k: int| 0 <= k < r@.len() implies seen_before(a@, #[trigger] views(r@)[k], i + 1) by {
            if k < old_r.len() {
                assert(views(r@)[k] == old_r[k]);
            }
        }
        assert forall|x: Seq<char>| #[trigger] seen_before(a@, x, i + 1) == (seen_before(a@, x, i as int) || path_pos(a@, x) == Some(i as int)) by {}
        assert forall|x: Seq<char>| path_pos(a@, x) == Some(i as int) implies x == q by {
            lemma_snapshot(a@, x);
        }
        assert forall|x: Seq<char>| views(r@).to_set().contains(x) == (seen_before(a@, x, i + 1) && keep(x)) by {
            lemma_snapshot(a@, x);
            assert(old_r.to_set().contains(x) == (seen_before(a@, x, i as int) && keep(x)));
            if take {
                if old_r.contains(x) {
                    let k = choose|k: int| 0 <= k < old_r.len() && old_r[k] == x;
                    assert(views(r@)[k] == x);
                }
                if x == q {
                    assert(views(r@)[old_r.len() as int] == x);
                }
                if views(r@).contains(x) {
                    let k = choose|k: int| 0 <= k < views(r@).len() && views(r@)[k] == x;
                    if k < old_r.len() {
                        assert(old_r[k] == x);
                    }
                }
            } else {
                assert(views(r@) == old_r);
            }
        }
        assert(views(r@).to_set() =~= Set::new(|x: Seq<char>| seen_before(a@, x, i + 1) && keep(x)));
        i = i + 1;
    }
    assert forall|x: Seq<char>| #[trigger] seen_before(a@, x, a@.len() as int) == sa.contains_key(x) by {
        lemma_seen_all(a@, x);
    }
    if newer {
        assert(views(r@).to_set() =~= Set::new(|q: Seq<char>| sa.contains_key(q) && sb.contains_key(q) && sa[q] > sb[q]));
    } else {
        assert(views(r@).to_set() =~= sa.dom().difference(sb.dom()));
    }
    r
}

/// The delta between the store's snapshot and the disk's.
pub fn compute_delta(stored: &Vec<(String, Mtime)>, disk: &Vec<(String, Mtime)>) -> (r: ScanDelta)
    ensures
        r.matches(delta_of(snapshot(stored@), snapshot(disk@))),
{
    let stored_index = index_paths(stored);
    let disk_index = index_paths(disk);
    let to_add = collect_paths(disk, &disk_index, stored, &stored_index, false);
    let to_update = collect_paths(disk, &disk_index, stored, &stored_index, true);
    let to_delete = collect_paths(stored, &stored_index, disk, &disk_index, false);
    let r = ScanDelta { to_add, to_update, to_delete };
    assert(views(r.to_update@).to_set() =~= delta_of(snapshot(stored@), snapshot(disk@)).to_update);
    r
}

/// The paths a run processes: the added ones, then the updated ones.
pub fn files_to_process(delta: &ScanDelta) -> (r: Vec<String>)
    ensures
        views(r@) == views(delta.to_add@) + views(delta.to_update@),
{
    let mut r: Vec<String> = Vec::new();
    let mut i: usize = 0;
    while i < delta.to_add.len()
        invariant
            i <= delta.to_add@.len(),
            r@.len() == i,
            forall|k: int| 0 <= k < i ==> (#[trigger] r@[k])@ == delta.to_add@[k]@,
        decreases delta.to_add@.len() - i,
    {
        r.push(delta.to_add[i].clone());
        i = i + 1;
    }
    let n = delta.to_add.len();
    let mut j: usize = 0;
    while j < delta.to_update.len()
        invariant
            n == delta.to_add@.len(),
            j <= delta.to_update@.len(),
            r@.len() == n + j,
            forall|k: int| 0 <= k < n ==> (#[trigger] r@[k])@ == delta.to_add@[k]@,
            forall|k: int| 0 <= k < j ==> (#[trigger] r@[n + k])@ == delta.to_update@[k]@,
        decreases delta.to_update@.len() - j,
    {
        r.push(delta.to_update[j].clone());
        assert(r@[n + j as int] == delta.to_update@[j as int]);
        j = j + 1;
    }
    assert forall|k: int| 0 <= k < r@.len() implies #[trigger] views(r@)[k] == (views(delta.to_add@) + views(delta.to_update@))[k] by {
        if k >= n {
            assert(r@[n + (k - n)] == r@[k]);
        }
    }
    assert(views(r@) =~= views(delta.to_add@) + views(delta.to_update@));
    r
}

// ---------------------------------------------------------------------------
// Favorites.

/// The favorite flag a re-ingested record ends with.
pub open spec fn favorite_after(fresh: FileEntry, existing: Option<FileEntry>) -> bool {
    match existing {
        Some(x) => x.is_favorite,
        None => fresh.is_favorite,
    }
}

/// Copies the favorite flag of the record already stored under the same
/// identity into a freshly built one; nothing else changes.
pub fn carry_favorite(entry: &mut FileEntry, existing: Option<&FileEntry>)
    ensures
        *final(entry) == (FileEntry {
            is_favorite: favorite_after(*old(entry), match existing { Some(x) => Some(*x), None => None }),
            ..*old(entry)
        }),
{
    if let Some(x) = existing {
        entry.is_favorite = x.is_favorite;
    }
}

// ---------------------------------------------------------------------------
// Counters and progress.

/// What became of one file of a run.
#[derive(PartialEq, Eq, Structural, Clone, Copy, Debug)]
pub enum FileOutcome {
    Stored { has_workflow: bool, metadata_count: usize },
    Failed,
}

/// The counters of a run.
#[derive(PartialEq, Eq, Structural, Clone, Copy, Debug)]
pub struct ScanStats {
    pub total_processed: usize,
    pub files_with_workflows: usize,
    pub workflows_extracted: usize,
    pub metadata_extracted: usize,
    pub failed_files: usize,
}

impl ScanStats {
    pub fn new() -> (r: Self)
        ensures
            r == stats_after(Seq::empty()),
    {
        ScanStats {
            total_processed: 0,
            files_with_workflows: 0,
            workflows_extracted: 0,
            metadata_extracted: 0,
            failed_files: 0,
        }
    }
}

pub open spec fn stored_count(o: Seq<FileOutcome>) -> nat
    decreases o.len(),
{
    if o.len() == 0 {
        0
    } else {
        stored_count(o.drop_last()) + if o.last() is Stored { 1nat } else { 0nat }
    }
}

pub open spec fn failed_count(o: Seq<FileOutcome>) -> nat
    decreases o.len(),
{
    if o.len() == 0 {
        0
    } else {
        failed_count(o.drop_last()) + if o.last() is Failed { 1nat } else { 0nat }
    }
}

pub open spec fn with_workflow_count(o: Seq<FileOutcome>) -> nat
    decreases o.len(),
{
    if o.len() == 0 {
        0
    } else {
        with_workflow_count(o.drop_last()) + match o.last() {
            FileOutcome::Stored { has_workflow: true, .. } => 1nat,
            _ => 0nat,
        }
    }
}

pub open spec fn metadata_sum(o: Seq<FileOutcome>) -> nat
    decreases o.len(),
{
    if o.len() == 0 {
        0
    } else {
        metadata_sum(o.drop_last()) + match o.last() {
            FileOutcome::Stored { has_workflow: true, metadata_count } => metadata_count as nat,
            _ => 0nat,
        }
    }
}

pub open spec fn capped(n: nat) -> usize {
    if n <= usize::MAX {
        n as usize
    } else {
        usize::MAX
    }
}

/// The counters after the given outcomes, in any order: stored files, those
/// of them with a graph, the parameter records of those (capped at the
/// largest `usize`), and failed files.
pub open spec fn stats_after(o: Seq<FileOutcome>) -> ScanStats {
    ScanStats {
        total_processed: capped(stored_count(o)),
        files_with_workflows: capped(with_workflow_count(o)),
        workflows_extracted: 0,
        metadata_extracted: capped(metadata_sum(o)),
        failed_files: capped(failed_count(o)),
    }
}

/// One report of progress.
pub struct SyncProgress {
    pub status: String,
    pub current: usize,
    pub total: usize,
    pub message: Option<String>,
}

/// The shared state of one run: its outcomes so far, folded into counters.
/// Each finished file is recorded once, in one step.
pub struct SyncRun {
    total: usize,
    processed: usize,
    stats: ScanStats,
    outcomes: Ghost<Seq<FileOutcome>>,
}

proof fn lemma_counts_bounded(o: Seq<FileOutcome>)
    ensures
        stored_count(o) + failed_count(o) == o.len(),
        with_workflow_count(o) <= stored_count(o),
    decreases o.len(),
{
    if o.len() > 0 {
        lemma_counts_bounded(o.drop_last());
    }
}

fn add_capped(a: usize, b: usize) -> (r: usize)
    ensures
        r == capped(a as nat + b as nat),
{
    if a > usize::MAX - b {
        usize::MAX
    } else {
        a + b
    }
}

impl SyncRun {
    pub closed spec fn outcomes(&self) -> Seq<FileOutcome> {
        self.outcomes@
    }

    pub closed spec fn total_spec(&self) -> usize {
        self.total
    }

    pub closed spec fn wf(&self) -> bool {
        &&& self.processed == self.outcomes@.len()
        &&& self.processed <= self.total
        &&& self.stats == stats_after(self.outcomes@)
    }

    /// A run that will process `total` files.
    pub fn new(total: usize) -> (r: Self)
        ensures
            r.wf(),
            r.outcomes() == Seq::<FileOutcome>::empty(),
            r.total_spec() == total,
    {
        SyncRun { total, processed: 0, stats: ScanStats::new(), outcomes: Ghost(Seq::empty()) }
    }

    pub fn total(&self) -> (r: usize)
        ensures
            r == self.total_spec(),
    {
        self.total
    }

    pub fn processed(&self) -> (r: usize)
        requires
            self.wf(),
        ensures
            r == self.outcomes().len(),
    {
        self.processed
    }

    /// Records the outcome of one finished file and reports progress.
    pub fn complete(&mut self, outcome: FileOutcome) -> (r: SyncProgress)
        requires
            old(self).wf(),
            old(self).outcomes().len() < old(self).total_spec(),
        ensures
            final(self).wf(),
            final(self).outcomes() == old(self).outcomes().push(outcome),
            final(self).total_spec() == old(self).total_spec(),
            r.status@ == "processing"@,
            r.current == final(self).outcomes().len(),
            r.total == final(self).total_spec(),
            r.message matches Some(m) && m@ == "Processing "@ + nat_text(r.current as nat) + "/"@
                + nat_text(r.total as nat),
    {
        let ghost before = self.outcomes@;
        let ghost after = before.push(outcome);
        assert(after.drop_last() == before);
        proof {
            lemma_counts_bounded(before);
        }
        match outcome {
            FileOutcome::Stored { has_workflow, metadata_count } => {
                self.stats.total_processed = self.stats.total_processed + 1;
                if has_workflow {
                    self.stats.files_with_workflows = self.stats.files_with_workflows + 1;
                    self.stats.metadata_extracted = add_capped(self.stats.metadata_extracted, metadata_count);
                }
            },
            FileOutcome::Failed => {
                self.stats.failed_files = self.stats.failed_files + 1;
            },
        }
        self.processed = self.processed + 1;
        self.outcomes = Ghost(after);
        let mut message = "Processing ".to_string();
        let current = usize_to_text(self.processed);
        message.append(current.as_str());
        message.append("/");
        let total = usize_to_text(self.total);
        message.append(total.as_str());
        SyncProgress {
            status: "processing".to_string(),
            current: self.processed,
            total: self.total,
            message: Some(message),
        }
    }

    /// The counters of the run.
    pub fn stats(&self) -> (r: ScanStats)
        requires
            self.wf(),
        ensures
            r == stats_after(self.outcomes()),
    {
        self.stats
    }
}

// ---------------------------------------------------------------------------
// Laws of a run.

/// The store's snapshot after a run in which every processed file was
/// stored: vanished paths are gone, added and updated paths carry their disk
/// time, and the others keep the stored one.
pub open spec fn store_after_run(stored: Map<Seq<char>, i64>, disk: Map<Seq<char>, i64>) -> Map<Seq<char>, i64> {
    let d = delta_of(stored, disk);
    Map::new(
        |p: Seq<char>| disk.contains_key(p),
        |p: Seq<char>| if d.to_add.contains(p) || d.to_update.contains(p) { disk[p] } else { stored[p] },
    )
}

/// A second run over an unchanged disk finds nothing to add, update or
/// delete, so it writes nothing.
pub proof fn lemma_second_run_is_empty(stored: Map<Seq<char>, i64>, disk: Map<Seq<char>, i64>)
    ensures
        delta_of(store_after_run(stored, disk), disk).to_add == Set::<Seq<char>>::empty(),
        delta_of(store_after_run(stored, disk), disk).to_update == Set::<Seq<char>>::empty(),
        delta_of(store_after_run(stored, disk), disk).to_delete == Set::<Seq<char>>::empty(),
{
    let after = store_after_run(stored, disk);
    let d2 = delta_of(after, disk);
    assert(d2.to_add =~= Set::<Seq<char>>::empty());
    assert(d2.to_delete =~= Set::<Seq<char>>::empty());
    assert(d2.to_update =~= Set::<Seq<char>>::empty());
}

/// A file whose disk time advanced past the stored one is re-ingested, and
/// the record it gets keeps the favorite flag of the stored record.
pub proof fn lemma_favorite_survives_update(
    stored: Map<Seq<char>, i64>,
    disk: Map<Seq<char>, i64>,
    existing: FileEntry,
    fresh: FileEntry,
)
    requires
        existing.is_favorite,
        stored.contains_key(fresh.path@),
        disk.contains_key(fresh.path@),
        disk[fresh.path@] > stored[fresh.path@],
    ensures
        delta_of(stored, disk).to_update.contains(fresh.path@),
        favorite_after(fresh, Some(existing)),
{
}

/// A run's failure count is the number of failed files, and the files that
/// did not fail are all counted as stored.
pub proof fn lemma_failures_are_isolated(o: Seq<FileOutcome>)
    ensures
        stored_count(o) + failed_count(o) == o.len(),
        o.len() <= usize::MAX ==> stats_after(o).failed_files == failed_count(o)
            && stats_after(o).total_processed == o.len() - failed_count(o),
{
    lemma_counts_bounded(o);
}

/// One failed file among many leaves a failure count of one.
pub proof fn lemma_single_failure(o: Seq<FileOutcome>, x: int)
    requires
        0 <= x < o.len(),
        o.len() <= usize::MAX,
        o[x] is Failed,
        forall|i: int| 0 <= i < o.len() && i != x ==> o[i] is Stored,
    ensures
        stats_after(o).failed_files == 1,
        stats_after(o).total_processed == o.len() - 1,
{
    lemma_single_failure_count(o, x);
    lemma_counts_bounded(o);
}

proof fn lemma_single_failure_count(o: Seq<FileOutcome>, x: int)
    requires
        0 <= x < o.len(),
        o[x] is Failed,
        forall|i: int| 0 <= i < o.len() && i != x ==> o[i] is Stored,
    ensures
        failed_count(o) == 1,
    decreases o.len(),
{
    if x == o.len() - 1 {
        lemma_no_failures(o.drop_last());
    } else {
        lemma_single_failure_count(o.drop_last(), x);
    }
}

proof fn lemma_no_failures(o: Seq<FileOutcome>)
    requires
        forall|i: int| 0 <= i < o.len() ==> o[i] is Stored,
    ensures
        failed_count(o) == 0,
    decreases o.len(),
{
    if o.len() > 0 {
        lemma_no_failures(o.drop_last());
    }
}

} // verus!
