//! Disposable accelerators: the retained-memory tier of derived rasters and the cache budgets.
//! Keys derive only from authoritative assets and semantic operations.
use crate::document::RevisionId;
use crate::limits::ResourceLimits;
use std::collections::VecDeque;
use std::path::PathBuf;
use vstd::prelude::*;

verus! {

/// Serialized snapshot overhead: magic, key, four dimensions and SHA-256.
pub const OVERHEAD: u64 = 120;

/// Which derived artifact a cache entry holds.
#[derive(Debug, Clone, Copy, PartialEq, Eq, Structural)]
pub enum DerivedKind {
    Checkpoint,
    Preview,
}

#[derive(Debug, Clone, Copy, PartialEq, Eq)]
pub struct ImageSize {
    pub width: u32,
    pub height: u32,
}

#[derive(Debug)]
pub struct CacheHit {
    pub kind: &'static str,
    pub tier: &'static str,
    pub key: String,
    pub revision: RevisionId,
}

#[derive(Debug, Default)]
pub struct ReplayReport {
    pub cache_hit: Option<CacheHit>,
    pub reused_steps: usize,
    /// Actual logical steps executed in order, including newly committed suffixes.
    pub recomputed_revisions: Vec<RevisionId>,
}

#[derive(Debug)]
pub struct CheckpointResult {
    pub project: PathBuf,
    pub revision: RevisionId,
    pub key: String,
    pub canvas: ImageSize,
    pub disk_stored: bool,
    pub memory_stored: bool,
    pub replay: ReplayReport,
}

#[derive(Debug)]
pub struct CacheClearResult {
    pub project: PathBuf,
    pub removed_bytes: u64,
}

/// The largest snapshot file that a disk-cache read may load: half the retained memory, half
/// the buffer budget (encoded and decoded copies coexist) and the disk budget.
pub fn snapshot_read_limit(limits: &ResourceLimits) -> (n: u64)
    ensures
        n <= limits.max_cache_memory_bytes / 2,
        n <= limits.max_buffer_bytes / 2,
        n <= limits.max_cache_disk_bytes,
        n == limits.max_cache_memory_bytes / 2 || n == limits.max_buffer_bytes / 2 || n
            == limits.max_cache_disk_bytes,
{
    let mut n = limits.max_cache_memory_bytes / 2;
    if limits.max_buffer_bytes / 2 < n {
        n = limits.max_buffer_bytes / 2;
    }
    if limits.max_cache_disk_bytes < n {
        n = limits.max_cache_disk_bytes;
    }
    n
}

/// Whether a snapshot of `size` bytes may be serialized: it fits the disk budget and its
/// doubled scratch fits both the retained-memory and buffer budgets.
pub fn can_serialize(size: u64, limits: &ResourceLimits) -> (r: bool)
    ensures
        r == (size <= limits.max_cache_disk_bytes && 2 * size <= limits.max_cache_memory_bytes && 2 * size
            <= limits.max_buffer_bytes),
{
    size <= limits.max_cache_disk_bytes && size <= limits.max_cache_memory_bytes / 2 && size
        <= limits.max_buffer_bytes / 2
}

/// Whether a checkpoint can resume a prefix: it holds the complete canvas (never a preview
/// region), it is a layered document exactly when the prefix is layered, and it carries no
/// single-layer mapping.
pub fn checkpoint_usable(
    canvas: ImageSize,
    raster: ImageSize,
    has_document: bool,
    prefix_layered: bool,
    has_layer_mapping: bool,
) -> (r: bool)
    ensures
        r == (canvas == raster && has_document == prefix_layered && !has_layer_mapping),
{
    canvas.width == raster.width && canvas.height == raster.height && has_document == prefix_layered
        && !has_layer_mapping
}

/// Whether each prefix of a history is layered: the initial canvas is not, and a prefix is
/// from the first step that targets a layer or edits the layer stack on (`layer_steps`).
pub fn layered_prefixes(layer_steps: &Vec<bool>) -> (r: Vec<bool>)
    ensures
        r@.len() == layer_steps@.len() + 1,
        forall|i: int|
            0 <= i < r@.len() ==> (#[trigger] r@[i] <==> exists|j: int| 0 <= j < i && #[trigger] layer_steps@[j]),
{
    let mut r: Vec<bool> = Vec::new();
    r.push(false);
    let mut i: usize = 0;
    while i < layer_steps.len()
        invariant
            i <= layer_steps@.len(),
            r@.len() == i + 1,
            forall|k: int|
                0 <= k < r@.len() ==> (#[trigger] r@[k] <==> exists|j: int| 0 <= j < k && #[trigger] layer_steps@[j]),
        decreases layer_steps@.len() - i,
    {
        let next = r[i] || layer_steps[i];
        proof {
            if next {
                if !layer_steps@[i as int] {
                    let j = choose|j: int| 0 <= j < i && #[trigger] layer_steps@[j];
                    assert(0 <= j < i + 1 && layer_steps@[j]);
                }
            } else {
                assert forall|j: int| 0 <= j < i + 1 implies !#[trigger] layer_steps@[j] by {
                    if j < i {
                        assert(!r@[i as int]);
                    }
                }
            }
        }
        r.push(next);
        i += 1;
    }
    r
}

/// The batches in which the steps after the first `reused` of `total` are replayed: each a
/// pipeline of at most `max(1, max_operations)` steps, consecutive and in order.
pub fn replay_batches(reused: usize, total: usize, max_operations: usize) -> (r: Vec<(usize, usize)>)
    requires
        reused <= total,
    ensures
        r@.len() > 0 ==> r@[0].0 == reused && r@.last().1 == total,
        r@.len() == 0 <==> reused == total,
        forall|i: int|
            0 <= i < r@.len() ==> (#[trigger] r@[i]).0 < r@[i].1 && r@[i].1 - r@[i].0 <= if max_operations
                == 0 {
                1
            } else {
                max_operations as int
            } && (r@[i].1 < total ==> r@[i].1 - r@[i].0 == if max_operations == 0 {
                1
            } else {
                max_operations as int
            }),
        forall|i: int| 0 < i < r@.len() ==> (#[trigger] r@[i]).0 == r@[i - 1].1,
{
    let size = if max_operations == 0 {
        1
    } else {
        max_operations
    };
    let mut r: Vec<(usize, usize)> = Vec::new();
    let mut start = reused;
    while start < total
        invariant
            reused <= start <= total,
            size >= 1,
            size == if max_operations == 0 {
                1
            } else {
                max_operations
            },
            r@.len() == 0 <==> start == reused,
            r@.len() > 0 ==> r@[0].0 == reused && r@.last().1 == start,
            forall|i: int|
                0 <= i < r@.len() ==> (#[trigger] r@[i]).0 < r@[i].1 && r@[i].1 - r@[i].0 <= size && (
                r@[i].1 < total ==> r@[i].1 - r@[i].0 == size),
            forall|i: int| 0 < i < r@.len() ==> (#[trigger] r@[i]).0 == r@[i - 1].1,
        decreases total - start,
    {
        let end = if total - start > size {
            start + size
        } else {
            total
        };
        r.push((start, end));
        start = end;
    }
    r
}

/// One retained derived value and the bytes it holds.
pub struct CacheEntry<V> {
    pub kind: DerivedKind,
    pub key: String,
    pub value: V,
    pub size: u64,
}

pub open spec fn total<V>(s: Seq<CacheEntry<V>>) -> int
    decreases s.len(),
{
    if s.len() == 0 {
        0
    } else {
        s[0].size + total(s.drop_first())
    }
}

pub open spec fn is_entry<V>(e: CacheEntry<V>, kind: DerivedKind, key: Seq<char>) -> bool {
    e.kind == kind && e.key@ == key
}

/// No two entries share a kind and key.
pub open spec fn unique_keys<V>(s: Seq<CacheEntry<V>>) -> bool {
    forall|i: int, j: int|
        #![trigger s[i], s[j]]
        0 <= i < j < s.len() ==> !is_entry(s[j], s[i].kind, s[i].key@)
}

proof fn lemma_position_unique<V>(s: Seq<CacheEntry<V>>, kind: DerivedKind, key: Seq<char>, i: int)
    requires
        unique_keys(s),
        0 <= i < s.len(),
        is_entry(s[i], kind, key),
    ensures
        position(s, kind, key) == Some(i),
{
    let c = choose|j: int| 0 <= j < s.len() && is_entry(#[trigger] s[j], kind, key);
    assert(0 <= c < s.len() && is_entry(s[c], kind, key));
    if c < i {
        assert(!is_entry(s[i], s[c].kind, s[c].key@));
    } else if c > i {
        assert(!is_entry(s[c], s[i].kind, s[i].key@));
    }
}

/// The position of the entry for `kind` and `key`, if there is one.
pub open spec fn position<V>(s: Seq<CacheEntry<V>>, kind: DerivedKind, key: Seq<char>) -> Option<int> {
    if exists|i: int| 0 <= i < s.len() && is_entry(#[trigger] s[i], kind, key) {
        Some(choose|i: int| 0 <= i < s.len() && is_entry(#[trigger] s[i], kind, key))
    } else {
        None
    }
}

/// Evict the oldest entries until the rest fit `budget`.
pub open spec fn drop_oldest<V>(s: Seq<CacheEntry<V>>, budget: int) -> Seq<CacheEntry<V>>
    decreases s.len(),
{
    if s.len() == 0 || total(s) <= budget {
        s
    } else {
        drop_oldest(s.drop_first(), budget)
    }
}

/// The entries after retaining `e` under `budget`: an earlier entry for the same key is
/// replaced, the oldest entries are evicted until `e` fits, and `e` becomes the newest.
pub open spec fn after_put<V>(s: Seq<CacheEntry<V>>, e: CacheEntry<V>, budget: int) -> Seq<CacheEntry<V>> {
    let without = match position(s, e.kind, e.key@) {
        Some(i) => s.remove(i),
        None => s,
    };
    drop_oldest(without, budget - e.size).push(e)
}

proof fn lemma_total_nonneg<V>(s: Seq<CacheEntry<V>>)
    ensures
        total(s) >= 0,
    decreases s.len(),
{
    if s.len() > 0 {
        lemma_total_nonneg(s.drop_first());
    }
}

proof fn lemma_total_push<V>(s: Seq<CacheEntry<V>>, e: CacheEntry<V>)
    ensures
        total(s.push(e)) == total(s) + e.size,
    decreases s.len(),
{
    let t = s.push(e);
    if s.len() > 0 {
        assert(t.drop_first() =~= s.drop_first().push(e));
        lemma_total_push(s.drop_first(), e);
        assert(t[0] == s[0]);
    } else {
        assert(t.drop_first() =~= Seq::<CacheEntry<V>>::empty());
        assert(total(t.drop_first()) == 0);
        assert(t[0] == e);
    }
}

proof fn lemma_total_remove<V>(s: Seq<CacheEntry<V>>, i: int)
    requires
        0 <= i < s.len(),
    ensures
        total(s.remove(i)) == total(s) - s[i].size,
    decreases s.len(),
{
    if i > 0 {
        assert(s.remove(i).drop_first() =~= s.drop_first().remove(i - 1));
        lemma_total_remove(s.drop_first(), i - 1);
    } else {
        assert(s.remove(0) =~= s.drop_first());
    }
}

proof fn lemma_drop_oldest<V>(s: Seq<CacheEntry<V>>, budget: int)
    requires
        budget >= 0,
    ensures
        total(drop_oldest(s, budget)) <= budget,
        exists|k: int| 0 <= k <= s.len() && #[trigger] s.skip(k) == drop_oldest(s, budget),
    decreases s.len(),
{
    if s.len() == 0 || total(s) <= budget {
        assert(s.skip(0) =~= s);
    } else {
        lemma_drop_oldest(s.drop_first(), budget);
        let k = choose|k: int| 0 <= k <= s.drop_first().len() && #[trigger] s.drop_first().skip(k) == drop_oldest(s.drop_first(), budget);
        assert(s.skip(k + 1) =~= s.drop_first().skip(k));
    }
}

/// Retained derived values in a queue, oldest first, with the bytes they hold.
pub struct MemoryCache<V> {
    entries: VecDeque<CacheEntry<V>>,
    bytes: u64,
}

impl<V: Clone> MemoryCache<V> {
    pub closed spec fn entries(&self) -> Seq<CacheEntry<V>> {
        self.entries@
    }

    pub closed spec fn bytes(&self) -> nat {
        self.bytes as nat
    }

    pub open spec fn wf(&self) -> bool {
        self.bytes() == total(self.entries()) && unique_keys(self.entries())
    }

    pub fn new() -> (c: Self)
        ensures
            c.wf(),
            c.entries().len() == 0,
    {
        MemoryCache { entries: VecDeque::new(), bytes: 0 }
    }

    /// Bytes retained.
    pub fn retained_bytes(&self) -> (n: u64)
        ensures
            n == self.bytes(),
    {
        self.bytes
    }

    fn find(&self, kind: DerivedKind, key: &str) -> (r: Option<usize>)
        requires
            self.wf(),
        ensures
            match r {
                Some(i) => position(self.entries(), kind, key@) == Some(i as int),
                None => position(self.entries(), kind, key@) is None,
            },
    {
        let wanted = String::from_str(key);
        let mut i: usize = 0;
        while i < self.entries.len()
            invariant
                self.wf(),
                wanted@ == key@,
                i <= self.entries@.len(),
                forall|j: int| 0 <= j < i ==> !is_entry(#[trigger] self.entries@[j], kind, key@),
            decreases self.entries@.len() - i,
        {
            if self.entries[i].kind == kind && self.entries[i].key == wanted {
                proof {
                    lemma_position_unique(self.entries@, kind, key@, i as int);
                }
                return Some(i);
            }
            i += 1;
        }
        None
    }

    /// Evict the oldest entries until at most `budget` bytes are retained.
    pub fn trim(&mut self, budget: u64)
        requires
            old(self).wf(),
        ensures
            final(self).wf(),
            final(self).entries() == drop_oldest(old(self).entries(), budget as int),
    {
        while self.bytes > budget
            invariant
                self.wf(),
                drop_oldest(old(self).entries(), budget as int) == drop_oldest(self.entries(), budget as int),
            decreases self.entries@.len(),
        {
            let ghost before = self.entries@;
            assert(before.len() > 0);
            let e = self.entries.pop_front().unwrap();
            proof {
                assert(self.entries@ =~= before.remove(0));
                lemma_total_remove(before, 0);
                lemma_total_nonneg(before.remove(0));
                assert(before.remove(0) =~= before.drop_first());
                let t = self.entries@;
                assert forall|i: int, j: int| #![trigger t[i], t[j]] 0 <= i < j < t.len() implies !is_entry(t[j], t[i].kind, t[i].key@) by {
                    assert(t[i] == before[i + 1] && t[j] == before[j + 1]);
                }
            }
            self.bytes = self.bytes - e.size;
        }
    }

    /// The value retained for `kind` and `key`, which becomes the newest entry.
    pub fn get(&mut self, kind: DerivedKind, key: &str) -> (r: Option<V>)
        requires
            old(self).wf(),
        ensures
            final(self).wf(),
            match position(old(self).entries(), kind, key@) {
                Some(i) => r matches Some(v) && cloned(old(self).entries()[i].value, v) && final(self).entries()
                    == old(self).entries().remove(i).push(old(self).entries()[i]),
                None => r is None && final(self).entries() == old(self).entries(),
            },
    {
        match self.find(kind, key) {
            None => None,
            Some(i) => {
                let ghost before = self.entries@;
                let entry = self.entries.remove(i).unwrap();
                let value = entry.value.clone();
                self.entries.push_back(entry);
                proof {
                    lemma_total_remove(before, i as int);
                    lemma_total_push(before.remove(i as int), before[i as int]);
                    let t = self.entries@;
                    assert(t =~= before.remove(i as int).push(before[i as int]));
                    assert forall|a: int, b: int| #![trigger t[a], t[b]] 0 <= a < b < t.len() implies !is_entry(t[b], t[a].kind, t[a].key@) by {
                        let oa = if a < i { a } else { a + 1 };
                        if b == t.len() - 1 {
                            assert(t[b] == before[i as int]);
                            assert(t[a] == before[oa]);
                            if oa < i {
                                assert(!is_entry(before[i as int], before[oa].kind, before[oa].key@));
                            } else {
                                assert(!is_entry(before[oa], before[i as int].kind, before[i as int].key@));
                            }
                        } else {
                            let ob = if b < i { b } else { b + 1 };
                            assert(t[a] == before[oa] && t[b] == before[ob]);
                        }
                    }
                }
                Some(value)
            },
        }
    }

    /// Retain `value` (holding `size` bytes) for `kind` and `key` within `budget`. A value
    /// larger than the budget is not retained and nothing changes.
    pub fn put(&mut self, kind: DerivedKind, key: String, value: V, size: u64, budget: u64) -> (r: bool)
        requires
            old(self).wf(),
        ensures
            final(self).wf(),
            r == (size <= budget),
            r ==> final(self).entries() == after_put(
                old(self).entries(),
                CacheEntry { kind, key, value, size },
                budget as int,
            ),
            !r ==> final(self).entries() == old(self).entries(),
    {
        if size > budget {
            return false;
        }
        let ghost entry = CacheEntry { kind, key, value, size };
        let ghost start = self.entries@;
        match self.find(kind, key.as_str()) {
            Some(i) => {
                let ghost before = self.entries@;
                let old_entry = self.entries.remove(i).unwrap();
                proof {
                    lemma_total_remove(before, i as int);
                    lemma_total_nonneg(before.remove(i as int));
                    let t = self.entries@;
                    assert forall|a: int, b: int| #![trigger t[a], t[b]] 0 <= a < b < t.len() implies !is_entry(t[b], t[a].kind, t[a].key@) by {
                        let oa = if a < i { a } else { a + 1 };
                        let ob = if b < i { b } else { b + 1 };
                        assert(t[a] == before[oa] && t[b] == before[ob]);
                    }
                }
                self.bytes = self.bytes - old_entry.size;
            },
            None => {},
        }
        let ghost without = self.entries@;
        assert(without == match position(start, kind, key@) {
            Some(i) => start.remove(i),
            None => start,
        });
        self.trim(budget - size);
        proof {
            lemma_drop_oldest(without, (budget - size) as int);
            lemma_total_nonneg(self.entries@);
            let k = choose|k: int| 0 <= k <= without.len() && #[trigger] without.skip(k) == drop_oldest(without, (budget - size) as int);
            let t = self.entries@;
            assert(t == without.skip(k));
            assert forall|i: int| 0 <= i < t.len() implies !is_entry(#[trigger] t[i], kind, key@) by {
                assert(t[i] == without[i + k]);
                match position(start, kind, key@) {
                    Some(p) => {
                        lemma_position_unique(start, kind, key@, p);
                        let oi = if i + k < p { i + k } else { i + k + 1 };
                        assert(without[i + k] == start[oi]);
                        if oi < p {
                            assert(!is_entry(start[p], start[oi].kind, start[oi].key@));
                        } else {
                            assert(!is_entry(start[oi], start[p].kind, start[p].key@));
                        }
                    },
                    None => {
                        assert(without[i + k] == start[i + k]);
                    },
                }
            }
        }
        let ghost trimmed = self.entries@;
        self.entries.push_back(CacheEntry { kind, key, value, size });
        proof {
            lemma_total_push(trimmed, entry);
            let t = self.entries@;
            assert forall|a: int, b: int| #![trigger t[a], t[b]] 0 <= a < b < t.len() implies !is_entry(t[b], t[a].kind, t[a].key@) by {
                if b == t.len() - 1 {
                    assert(t[b] == entry);
                    assert(t[a] == trimmed[a]);
                } else {
                    assert(t[a] == trimmed[a] && t[b] == trimmed[b]);
                }
            }
        }
        self.bytes = self.bytes + size;
        true
    }
}

/// A value that the memory tier retained is what a later lookup of its key finds, and the
/// retained bytes never exceed the budget it was stored under.
pub proof fn put_then_get_finds_value<V>(s: Seq<CacheEntry<V>>, e: CacheEntry<V>, budget: int)
    requires
        unique_keys(s),
        e.size <= budget,
    ensures
        position(after_put(s, e, budget), e.kind, e.key@) == Some(after_put(s, e, budget).len() - 1),
        after_put(s, e, budget).last() == e,
        total(after_put(s, e, budget)) <= budget,
{
    let without = match position(s, e.kind, e.key@) {
        Some(i) => s.remove(i),
        None => s,
    };
    lemma_drop_oldest(without, budget - e.size);
    let kept = drop_oldest(without, budget - e.size);
    lemma_total_push(kept, e);
    let k = choose|k: int| 0 <= k <= without.len() && #[trigger] without.skip(k) == kept;
    let t = kept.push(e);
    assert forall|i: int| 0 <= i < kept.len() implies !is_entry(#[trigger] kept[i], e.kind, e.key@) by {
        assert(kept[i] == without[i + k]);
        match position(s, e.kind, e.key@) {
            Some(p) => {
                lemma_position_unique(s, e.kind, e.key@, p);
                let oi = if i + k < p { i + k } else { i + k + 1 };
                assert(without[i + k] == s[oi]);
                if oi < p {
                    assert(!is_entry(s[p], s[oi].kind, s[oi].key@));
                } else {
                    assert(!is_entry(s[oi], s[p].kind, s[p].key@));
                }
            },
            None => {},
        }
    }
    assert forall|a: int, b: int| #![trigger t[a], t[b]] 0 <= a < b < t.len() implies !is_entry(t[b], t[a].kind, t[a].key@) by {
        if b == t.len() - 1 {
            assert(t[a] == kept[a]);
        } else {
            assert(t[a] == kept[a] && t[b] == kept[b]);
            assert(kept[a] == without[a + k] && kept[b] == without[b + k]);
            match position(s, e.kind, e.key@) {
                Some(p) => {
                    let oa = if a + k < p { a + k } else { a + k + 1 };
                    let ob = if b + k < p { b + k } else { b + k + 1 };
                    assert(without[a + k] == s[oa] && without[b + k] == s[ob]);
                },
                None => {
                    assert(without[a + k] == s[a + k] && without[b + k] == s[b + k]);
                },
            }
        }
    }
    lemma_position_unique(t, e.kind, e.key@, t.len() - 1);
}

} // verus!
