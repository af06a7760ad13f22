//! The cache of image data the preview shows: at most `MAX_CACHED_ASSETS`
//! entries and `MAX_CACHED_ASSET_BYTES` bytes, evicting the least recently
//! used entry first.
use vstd::prelude::*;
use crate::text::str_eq;
use crate::workspace::EntryId;

verus! {

/// How many assets the cache holds at most.
pub const MAX_CACHED_ASSETS: usize = 64;

/// How many bytes of data URLs the cache holds at most (32 MiB).
pub const MAX_CACHED_ASSET_BYTES: usize = 33_554_432;

/// An asset of a workspace: the workspace's identity and the entry id.
#[derive(Clone, Debug, PartialEq, Eq)]
pub struct AssetCacheKey {
    pub workspace: String,
    pub id: EntryId,
}

/// A cached asset: its data URL, the URL's size in bytes, and the tick of
/// its last use.
pub struct CachedAsset {
    key: AssetCacheKey,
    data_url: String,
    size: usize,
    last_used: u64,
}

/// The asset cache.
pub struct AssetCache {
    entries: Vec<CachedAsset>,
    used_bytes: usize,
    clock: u64,
}

/// A cached asset as the specifications see it: workspace, id, data URL,
/// size and tick of last use.
pub type AssetModel = (Seq<char>, Seq<char>, Seq<char>, nat, u64);

/// The cache as the specifications see it.
pub struct CacheView {
    pub entries: Seq<AssetModel>,
    pub used: nat,
    pub clock: u64,
}

impl CachedAsset {
    pub closed spec fn model(self) -> AssetModel {
        (self.key.workspace@, self.key.id@, self.data_url@, self.size as nat, self.last_used)
    }
}

/// The models of a list of cached assets.
pub closed spec fn asset_models(v: Seq<CachedAsset>) -> Seq<AssetModel> {
    v.map_values(|a: CachedAsset| a.model())
}

/// The total size of the assets.
pub open spec fn size_sum(entries: Seq<AssetModel>) -> nat
    decreases entries.len(),
{
    if entries.len() == 0 {
        0
    } else {
        size_sum(entries.drop_last()) + entries.last().3
    }
}

/// The index of the asset with key `(workspace, id)` among the first `k`.
pub open spec fn index_of_key(entries: Seq<AssetModel>, workspace: Seq<char>, id: Seq<char>, k: int) -> Option<int>
    decreases k,
{
    if k <= 0 || k > entries.len() {
        None
    } else if entries[k - 1].0 == workspace && entries[k - 1].1 == id {
        Some(k - 1)
    } else {
        index_of_key(entries, workspace, id, k - 1)
    }
}

/// The index of the asset with key `(workspace, id)`.
pub open spec fn find_key(entries: Seq<AssetModel>, workspace: Seq<char>, id: Seq<char>) -> Option<int> {
    index_of_key(entries, workspace, id, entries.len() as int)
}

/// The first of the least recently used among the first `k >= 1` assets.
pub open spec fn oldest_in(entries: Seq<AssetModel>, k: int) -> int
    decreases k,
{
    if k <= 1 {
        0
    } else {
        let j = oldest_in(entries, k - 1);
        if entries[k - 1].4 < entries[j].4 {
            k - 1
        } else {
            j
        }
    }
}

/// The least recently used asset is one of the assets.
pub proof fn lemma_oldest_in_range(entries: Seq<AssetModel>, k: int)
    requires
        1 <= k <= entries.len(),
    ensures
        0 <= oldest_in(entries, k) < k,
    decreases k,
{
    if k > 1 {
        lemma_oldest_in_range(entries, k - 1);
    }
}

/// `a - b`, or zero when `b` is larger.
pub open spec fn saturating_sub(a: nat, b: nat) -> nat {
    if a >= b {
        (a - b) as nat
    } else {
        0
    }
}

/// The assets left, and the bytes counted, after evicting the least
/// recently used asset while there are too many assets or bytes.
pub open spec fn evicted(entries: Seq<AssetModel>, used: nat) -> (Seq<AssetModel>, nat)
    decreases entries.len(),
{
    if (entries.len() > MAX_CACHED_ASSETS || used > MAX_CACHED_ASSET_BYTES) && entries.len() > 0 {
        let i = oldest_in(entries, entries.len() as int);
        proof {
            lemma_oldest_in_range(entries, entries.len() as int);
        }
        evicted(entries.remove(i), saturating_sub(used, entries[i].3))
    } else {
        (entries, used)
    }
}

/// The cache after `data` (of `size` bytes) is stored under
/// `(workspace, id)`: an asset larger than the byte limit is not stored;
/// otherwise it replaces any asset under that key, is used at the next tick,
/// and the least recently used assets are evicted while the cache is over a
/// limit.
pub open spec fn cache_inserted(
    c: CacheView,
    workspace: Seq<char>,
    id: Seq<char>,
    data: Seq<char>,
    size: nat,
) -> CacheView {
    if size > MAX_CACHED_ASSET_BYTES {
        c
    } else {
        let (base, used) = match find_key(c.entries, workspace, id) {
            Some(i) => (c.entries.remove(i), saturating_sub(c.used, c.entries[i].3)),
            None => (c.entries, c.used),
        };
        let clock = vstd::wrapping::u64_specs::wrapping_add(c.clock, 1);
        let (entries, used) = evicted(base.push((workspace, id, data, size, clock)), used + size);
        CacheView { entries, used, clock }
    }
}

/// The cache after a lookup of `(workspace, id)`: a hit is used at the next
/// tick; a miss changes nothing.
pub open spec fn cache_looked_up(c: CacheView, workspace: Seq<char>, id: Seq<char>) -> CacheView {
    match find_key(c.entries, workspace, id) {
        Some(i) => {
            let clock = vstd::wrapping::u64_specs::wrapping_add(c.clock, 1);
            let a = c.entries[i];
            CacheView { entries: c.entries.update(i, (a.0, a.1, a.2, a.3, clock)), used: c.used, clock }
        },
        None => c,
    }
}

/// The data a lookup of `(workspace, id)` finds.
pub open spec fn cached_data(c: CacheView, workspace: Seq<char>, id: Seq<char>) -> Option<Seq<char>> {
    match find_key(c.entries, workspace, id) {
        Some(i) => Some(c.entries[i].2),
        None => None,
    }
}

impl AssetCache {
    pub closed spec fn view(&self) -> CacheView {
        CacheView {
            entries: asset_models(self.entries@),
            used: self.used_bytes as nat,
            clock: self.clock,
        }
    }

    /// The bytes counted are the sizes of the assets held, and the cache is
    /// within its limits.
    pub open spec fn well_formed(&self) -> bool {
        &&& self.view().used == size_sum(self.view().entries)
        &&& self.view().entries.len() <= MAX_CACHED_ASSETS
        &&& self.view().used <= MAX_CACHED_ASSET_BYTES
    }

    /// An empty cache.
    pub fn new() -> (c: Self)
        ensures
            c.view().entries.len() == 0,
            c.view().used == 0,
            c.view().clock == 0,
            c.well_formed(),
    {
        let c = AssetCache { entries: Vec::new(), used_bytes: 0, clock: 0 };
        proof {
            assert(c.view().entries =~= Seq::<AssetModel>::empty());
        }
        c
    }

    /// How many assets the cache holds.
    pub fn len(&self) -> (r: usize)
        ensures
            r == self.view().entries.len(),
    {
        proof {
            assert(asset_models(self.entries@).len() == self.entries@.len());
        }
        self.entries.len()
    }

    /// How many bytes of data URLs the cache holds.
    pub fn used_bytes(&self) -> (r: usize)
        ensures
            r == self.view().used,
    {
        self.used_bytes
    }

    fn position(&self, key: &AssetCacheKey) -> (r: Option<usize>)
        ensures
            r matches Some(i) ==> i < self.entries@.len(),
            match r {
                Some(i) => find_key(self.view().entries, key.workspace@, key.id@) == Some(i as int),
                None => find_key(self.view().entries, key.workspace@, key.id@) is None,
            },
    {
        let ghost models = self.view().entries;
        let mut k = self.entries.len();
        proof {
            assert(models.len() == self.entries@.len());
        }
        while k > 0
            invariant
                k <= self.entries@.len(),
                models == asset_models(self.entries@),
                models.len() == self.entries@.len(),
                find_key(models, key.workspace@, key.id@) == index_of_key(
                    models,
                    key.workspace@,
                    key.id@,
                    k as int,
                ),
            decreases k,
        {
            let e = &self.entries[k - 1];
            proof {
                assert(models[k - 1] == e.model());
            }
            if str_eq(e.key.workspace.as_str(), key.workspace.as_str()) && str_eq(
                e.key.id.as_str(),
                key.id.as_str(),
            ) {
                return Some(k - 1);
            }
            k = k - 1;
        }
        None
    }

    /// The data URL cached for `key`, marking it as just used.
    pub fn get(&mut self, key: &AssetCacheKey) -> (r: Option<String>)
        ensures
            final(self).view() == cache_looked_up(old(self).view(), key.workspace@, key.id@),
            old(self).well_formed() ==> final(self).well_formed(),
            match r {
                Some(d) => cached_data(old(self).view(), key.workspace@, key.id@) == Some(d@),
                None => cached_data(old(self).view(), key.workspace@, key.id@) is None,
            },
    {
        match self.position(key) {
            Some(i) => {
                let ghost before = self.entries@;
                self.clock = self.clock.wrapping_add(1);
                let data = crate::text::owned(self.entries[i].data_url.as_str());
                let old_entry = self.entries.remove(i);
                let updated = CachedAsset {
                    key: old_entry.key,
                    data_url: old_entry.data_url,
                    size: old_entry.size,
                    last_used: self.clock,
                };
                self.entries.insert(i, updated);
                proof {
                    assert(asset_models(self.entries@) =~= asset_models(before).update(
                        i as int,
                        (
                            before[i as int].model().0,
                            before[i as int].model().1,
                            before[i as int].model().2,
                            before[i as int].model().3,
                            self.clock,
                        ),
                    ));
                    lemma_size_sum_update(asset_models(before), i as int, self.clock);
                }
                Some(data)
            },
            None => None,
        }
    }

    /// The first of the least recently used assets; the cache is not empty.
    fn oldest(&self) -> (r: usize)
        requires
            self.entries@.len() > 0,
        ensures
            r == oldest_in(self.view().entries, self.view().entries.len() as int),
            r < self.entries@.len(),
    {
        let ghost models = self.view().entries;
        let mut best: usize = 0;
        let mut k: usize = 1;
        while k < self.entries.len()
            invariant
                1 <= k <= self.entries@.len(),
                models == asset_models(self.entries@),
                models.len() == self.entries@.len(),
                best < k,
                best == oldest_in(models, k as int),
            decreases self.entries@.len() - k,
        {
            proof {
                assert(models[k as int] == self.entries@[k as int].model());
                assert(models[best as int] == self.entries@[best as int].model());
            }
            if self.entries[k].last_used < self.entries[best].last_used {
                best = k;
            }
            k = k + 1;
        }
        best
    }

    /// Stores `data_url` under `key`, unless it is larger than the byte
    /// limit; then evicts the least recently used assets while the cache is
    /// over a limit.
    pub fn insert(&mut self, key: AssetCacheKey, data_url: String)
        requires
            old(self).well_formed(),
        ensures
            final(self).view() == cache_inserted(
                old(self).view(),
                key.workspace@,
                key.id@,
                data_url@,
                vstd::utf8::encode_utf8(data_url@).len(),
            ),
            final(self).well_formed(),
    {
        let ghost ws0 = key.workspace@;
        let ghost id0 = key.id@;
        let ghost data0 = data_url@;
        let size = data_url.as_str().as_bytes().len();
        proof {
            assert(size as nat == vstd::utf8::encode_utf8(data0).len());
        }
        if size > MAX_CACHED_ASSET_BYTES {
            return;
        }
        let ghost start = self.view();
        match self.position(&key) {
            Some(i) => {
                let ghost before = self.entries@;
                let previous = self.entries.remove(i);
                self.used_bytes = self.used_bytes.saturating_sub(previous.size);
                proof {
                    assert(asset_models(self.entries@) =~= asset_models(before).remove(i as int));
                    lemma_size_sum_remove(asset_models(before), i as int);
                }
            },
            None => {},
        }
        let ghost base = asset_models(self.entries@);
        let ghost base_used = self.used_bytes as nat;
        proof {
            assert(base == match find_key(start.entries, key.workspace@, key.id@) {
                Some(i) => start.entries.remove(i),
                None => start.entries,
            });
            assert(base_used == match find_key(start.entries, key.workspace@, key.id@) {
                Some(i) => saturating_sub(start.used, start.entries[i].3),
                None => start.used,
            });
        }
        self.clock = self.clock.wrapping_add(1);
        self.used_bytes = self.used_bytes + size;
        let ghost before_push = self.entries@;
        let ghost key_ws = ws0;
        let ghost key_id = id0;
        let ghost data = data0;
        proof {
            assert(key.workspace@ == ws0);
            assert(key.id@ == id0);
            assert(data_url@ == data0);
        }
        let asset = CachedAsset { key, data_url, size, last_used: self.clock };
        proof {
            assert(asset.model() == (key_ws, key_id, data, size as nat, self.clock));
        }
        self.entries.push(asset);
        proof {
            assert(base == asset_models(before_push));
            assert(asset_models(self.entries@) =~= base.push((key_ws, key_id, data, size as nat, self.clock)));
            assert(asset_models(self.entries@) =~= asset_models(before_push).push(
                self.entries@.last().model(),
            ));
            assert(asset_models(self.entries@).drop_last() =~= asset_models(before_push));
        }
        let ghost new_clock = self.clock;
        let ghost pushed = base.push((ws0, id0, data0, size as nat, new_clock));
        let ghost target = evicted(pushed, (base_used + size) as nat);
        proof {
            assert(asset_models(self.entries@) =~= pushed);
            assert(self.used_bytes as nat == (base_used + size) as nat);
        }
        while self.entries.len() > MAX_CACHED_ASSETS || self.used_bytes > MAX_CACHED_ASSET_BYTES
            invariant
                evicted(asset_models(self.entries@), self.used_bytes as nat) == target,
                self.used_bytes as nat == size_sum(asset_models(self.entries@)),
                self.clock == new_clock,
            ensures
                self.clock == new_clock,
                target == (asset_models(self.entries@), self.used_bytes as nat),
                self.used_bytes as nat == size_sum(asset_models(self.entries@)),
                self.entries@.len() == 0 || (self.entries@.len() <= MAX_CACHED_ASSETS
                    && self.used_bytes <= MAX_CACHED_ASSET_BYTES),
            decreases self.entries@.len(),
        {
            if self.entries.len() == 0 {
                proof {
                    assert(asset_models(self.entries@).len() == 0);
                }
                break;
            }
            let i = self.oldest();
            let ghost before = self.entries@;
            let removed = self.entries.remove(i);
            self.used_bytes = self.used_bytes.saturating_sub(removed.size);
            proof {
                assert(asset_models(self.entries@) =~= asset_models(before).remove(i as int));
                lemma_size_sum_remove(asset_models(before), i as int);
            }
        }
        proof {
            if self.entries@.len() == 0 {
                assert(asset_models(self.entries@) =~= Seq::<AssetModel>::empty());
            }
            let expected = cache_inserted(start, ws0, id0, data0, vstd::utf8::encode_utf8(data0).len());
            assert(self.view().entries == expected.entries);
            assert(self.view().used == expected.used);
            assert(self.view().clock == expected.clock);
            assert(self.view() == expected);
        }
    }

    /// Forgets every asset.
    pub fn clear(&mut self)
        ensures
            final(self).view().entries.len() == 0,
            final(self).view().used == 0,
            final(self).view().clock == old(self).view().clock,
            final(self).well_formed(),
    {
        self.entries.clear();
        self.used_bytes = 0;
        proof {
            assert(asset_models(self.entries@) =~= Seq::<AssetModel>::empty());
        }
    }
}

/// Changing the tick of an asset leaves the total size as it was.
proof fn lemma_size_sum_update(entries: Seq<AssetModel>, i: int, tick: u64)
    requires
        0 <= i < entries.len(),
    ensures
        size_sum(entries.update(i, (entries[i].0, entries[i].1, entries[i].2, entries[i].3, tick))) == size_sum(entries),
    decreases entries.len(),
{
    let a = entries[i];
    let u = entries.update(i, (a.0, a.1, a.2, a.3, tick));
    if i == entries.len() - 1 {
        assert(u.drop_last() =~= entries.drop_last());
    } else {
        lemma_size_sum_update(entries.drop_last(), i, tick);
        assert(u.drop_last() =~= entries.drop_last().update(i, (a.0, a.1, a.2, a.3, tick)));
    }
}

/// Removing an asset takes its size off the total.
proof fn lemma_size_sum_remove(entries: Seq<AssetModel>, i: int)
    requires
        0 <= i < entries.len(),
    ensures
        size_sum(entries.remove(i)) + entries[i].3 == size_sum(entries),
    decreases entries.len(),
{
    if i == entries.len() - 1 {
        assert(entries.remove(i) =~= entries.drop_last());
    } else {
        lemma_size_sum_remove(entries.drop_last(), i);
        assert(entries.remove(i).drop_last() =~= entries.drop_last().remove(i));
    }
}

impl Default for AssetCache {
    fn default() -> (c: Self)
        ensures
            c.view().entries.len() == 0,
            c.view().used == 0,
            c.well_formed(),
    {
        Self::new()
    }
}

/// The cache counts the bytes of the assets it holds and keeps within its
/// limits.
pub open spec fn within_limits(c: CacheView) -> bool {
    &&& c.used == size_sum(c.entries)
    &&& c.entries.len() <= MAX_CACHED_ASSETS
    &&& c.used <= MAX_CACHED_ASSET_BYTES
}

/// Every asset was last used at or before the cache's current tick.
pub open spec fn ticks_behind_clock(c: CacheView) -> bool {
    forall|i: int| 0 <= i < c.entries.len() ==> #[trigger] c.entries[i].4 <= c.clock
}

proof fn lemma_evicted_within_limits(entries: Seq<AssetModel>, used: nat)
    requires
        used == size_sum(entries),
    ensures
        evicted(entries, used).1 == size_sum(evicted(entries, used).0),
        evicted(entries, used).0.len() <= MAX_CACHED_ASSETS,
        evicted(entries, used).1 <= MAX_CACHED_ASSET_BYTES,
    decreases entries.len(),
{
    if (entries.len() > MAX_CACHED_ASSETS || used > MAX_CACHED_ASSET_BYTES) && entries.len() > 0 {
        let i = oldest_in(entries, entries.len() as int);
        lemma_oldest_in_range(entries, entries.len() as int);
        lemma_size_sum_remove(entries, i);
        lemma_evicted_within_limits(entries.remove(i), saturating_sub(used, entries[i].3));
    } else if entries.len() == 0 {
        assert(size_sum(entries) == 0);
    }
}

proof fn lemma_oldest_is_not_newest(entries: Seq<AssetModel>, k: int)
    requires
        2 <= k <= entries.len(),
        forall|j: int| 0 <= j < k - 1 ==> #[trigger] entries[j].4 < entries[k - 1].4,
    ensures
        0 <= oldest_in(entries, k) < k - 1,
{
    lemma_oldest_in_range(entries, k - 1);
    let j = oldest_in(entries, k - 1);
    assert(entries[j].4 < entries[k - 1].4);
}

proof fn lemma_newest_survives(entries: Seq<AssetModel>, used: nat)
    requires
        entries.len() > 0,
        used == size_sum(entries),
        entries.last().3 <= MAX_CACHED_ASSET_BYTES,
        forall|j: int| 0 <= j < entries.len() - 1 ==> #[trigger] entries[j].4 < entries.last().4,
    ensures
        evicted(entries, used).0.len() > 0,
        evicted(entries, used).0.last() == entries.last(),
    decreases entries.len(),
{
    if (entries.len() > MAX_CACHED_ASSETS || used > MAX_CACHED_ASSET_BYTES) && entries.len() > 0 {
        if entries.len() == 1 {
            assert(entries.drop_last() =~= Seq::<AssetModel>::empty());
            assert(size_sum(entries.drop_last()) == 0);
            assert(size_sum(entries) == entries.last().3);
            assert(false);
        }
        let n = entries.len() as int;
        lemma_oldest_is_not_newest(entries, n);
        let i = oldest_in(entries, n);
        let rest = entries.remove(i);
        lemma_size_sum_remove(entries, i);
        assert(rest.last() == entries.last());
        assert forall|j: int| 0 <= j < rest.len() - 1 implies #[trigger] rest[j].4 < rest.last().4 by {
            if j < i {
                assert(rest[j] == entries[j]);
            } else {
                assert(rest[j] == entries[j + 1]);
            }
        }
        lemma_newest_survives(rest, saturating_sub(used, entries[i].3));
    }
}

proof fn lemma_find_key_last(entries: Seq<AssetModel>, workspace: Seq<char>, id: Seq<char>)
    requires
        entries.len() > 0,
        entries.last().0 == workspace,
        entries.last().1 == id,
    ensures
        find_key(entries, workspace, id) == Some(entries.len() - 1),
{
}

/// Storing an asset keeps the cache within its limits.
pub proof fn law_insert_keeps_limits(c: CacheView, workspace: Seq<char>, id: Seq<char>, data: Seq<char>, size: nat)
    requires
        within_limits(c),
    ensures
        within_limits(cache_inserted(c, workspace, id, data, size)),
{
    if size <= MAX_CACHED_ASSET_BYTES {
        let (base, used) = match find_key(c.entries, workspace, id) {
            Some(i) => (c.entries.remove(i), saturating_sub(c.used, c.entries[i].3)),
            None => (c.entries, c.used),
        };
        match find_key(c.entries, workspace, id) {
            Some(i) => {
                lemma_find_key_range(c.entries, workspace, id, c.entries.len() as int);
                lemma_size_sum_remove(c.entries, i);
            },
            None => {},
        }
        let clock = vstd::wrapping::u64_specs::wrapping_add(c.clock, 1);
        let pushed = base.push((workspace, id, data, size, clock));
        assert(pushed.drop_last() =~= base);
        lemma_evicted_within_limits(pushed, used + size);
    }
}

proof fn lemma_find_key_range(entries: Seq<AssetModel>, workspace: Seq<char>, id: Seq<char>, k: int)
    ensures
        index_of_key(entries, workspace, id, k) matches Some(i) ==> 0 <= i < k && i < entries.len(),
    decreases k,
{
    if k > 0 && k <= entries.len() {
        lemma_find_key_range(entries, workspace, id, k - 1);
    }
}

/// A lookup right after an asset is stored finds it, as long as it fits the
/// byte limit and the cache's tick has not wrapped around.
pub proof fn law_get_after_insert(c: CacheView, workspace: Seq<char>, id: Seq<char>, data: Seq<char>, size: nat)
    requires
        within_limits(c),
        ticks_behind_clock(c),
        c.clock < u64::MAX,
        size <= MAX_CACHED_ASSET_BYTES,
    ensures
        cached_data(cache_inserted(c, workspace, id, data, size), workspace, id) == Some(data),
{
    let (base, used) = match find_key(c.entries, workspace, id) {
        Some(i) => (c.entries.remove(i), saturating_sub(c.used, c.entries[i].3)),
        None => (c.entries, c.used),
    };
    match find_key(c.entries, workspace, id) {
        Some(i) => {
            lemma_find_key_range(c.entries, workspace, id, c.entries.len() as int);
            lemma_size_sum_remove(c.entries, i);
            assert forall|j: int| 0 <= j < base.len() implies #[trigger] base[j].4 <= c.clock by {
                if j < i {
                    assert(base[j] == c.entries[j]);
                } else {
                    assert(base[j] == c.entries[j + 1]);
                }
            }
        },
        None => {},
    }
    let clock = vstd::wrapping::u64_specs::wrapping_add(c.clock, 1);
    assert(clock == c.clock + 1);
    let pushed = base.push((workspace, id, data, size, clock));
    assert(pushed.drop_last() =~= base);
    assert(size_sum(pushed) == used + size);
    assert forall|j: int| 0 <= j < pushed.len() - 1 implies #[trigger] pushed[j].4 < pushed.last().4 by {
        assert(pushed[j] == base[j]);
    }
    lemma_newest_survives(pushed, used + size);
    lemma_find_key_last(evicted(pushed, used + size).0, workspace, id);
}


proof fn lemma_index_of_key_sound(entries: Seq<AssetModel>, workspace: Seq<char>, id: Seq<char>, k: int)
    ensures
        index_of_key(entries, workspace, id, k) matches Some(i) ==> {
            &&& 0 <= i < k && i < entries.len()
            &&& entries[i].0 == workspace
            &&& entries[i].1 == id
        },
        k <= entries.len() && index_of_key(entries, workspace, id, k) is None ==> forall|j: int|
            0 <= j < k ==> !(entries[j].0 == workspace && entries[j].1 == id),
    decreases k,
{
    if k > 0 && k <= entries.len() {
        lemma_index_of_key_sound(entries, workspace, id, k - 1);
    }
}

/// A lookup finds an asset exactly when one is stored under the whole key:
/// what it finds was stored under that workspace and that id, and an asset
/// stored under that workspace and id is always found.
pub proof fn law_lookup_matches_the_whole_key(c: CacheView, workspace: Seq<char>, id: Seq<char>)
    ensures
        cached_data(c, workspace, id) matches Some(d) ==> exists|j: int|
            0 <= j < c.entries.len() && #[trigger] c.entries[j].0 == workspace && c.entries[j].1 == id
                && c.entries[j].2 == d,
        (exists|j: int|
            0 <= j < c.entries.len() && #[trigger] c.entries[j].0 == workspace && c.entries[j].1 == id)
            ==> cached_data(c, workspace, id) is Some,
{
    lemma_index_of_key_sound(c.entries, workspace, id, c.entries.len() as int);
    match find_key(c.entries, workspace, id) {
        Some(i) => {
            assert(c.entries[i].0 == workspace);
        },
        None => {},
    }
}

/// An asset stored for one workspace is not found for another: after storing
/// `(w1, id)` in an empty cache, a lookup of `(w2, id)` with `w2 != w1`
/// misses.
pub proof fn law_other_workspaces_miss(
    c: CacheView,
    w1: Seq<char>,
    w2: Seq<char>,
    id: Seq<char>,
    data: Seq<char>,
    size: nat,
)
    requires
        c.entries.len() == 0,
        c.used == 0,
        w1 != w2,
    ensures
        cached_data(cache_inserted(c, w1, id, data, size), w2, id) is None,
{
    let after = cache_inserted(c, w1, id, data, size);
    if size <= MAX_CACHED_ASSET_BYTES {
        let clock = vstd::wrapping::u64_specs::wrapping_add(c.clock, 1);
        let pushed = c.entries.push((w1, id, data, size, clock));
        assert(pushed.len() == 1);
        assert(evicted(pushed, size) == (pushed, size));
        assert(after.entries == pushed);
    }
    lemma_index_of_key_sound(after.entries, w2, id, after.entries.len() as int);
}
} // verus!
