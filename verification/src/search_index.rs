//! The index behind workspace search: the notes of one workspace with their
//! lower-cased paths, and a first-in, first-out cache of lower-cased note
//! contents bounded in bytes. The caller reads the notes that the index asks
//! for.
use vstd::prelude::*;
use crate::backend_state::{EntryModel, entries_model, entry_model, note_ids};
use crate::text::{contains, lowercase, owned, str_eq, trim};
use crate::workspace::{EntryId, EntryKind, WorkspaceEntry};

verus! {

/// The most bytes of note contents the cache holds.
pub const SEARCH_CACHE_LIMIT: usize = 4194304;

/// The number of UTF-8 bytes of a text.
pub open spec fn text_size(t: Seq<char>) -> nat {
    vstd::utf8::encode_utf8(t).len()
}

/// A cached note: its id and its lower-cased contents.
pub type CachedNote = (Seq<char>, Seq<char>);

/// The bytes a cache holds.
pub open spec fn cache_total(c: Seq<CachedNote>) -> nat
    decreases c.len(),
{
    if c.len() == 0 {
        0
    } else {
        text_size(c[0].1) + cache_total(c.drop_first())
    }
}

/// The cache after the oldest entries leave until `size` more bytes fit.
pub open spec fn evicted(c: Seq<CachedNote>, size: nat) -> Seq<CachedNote>
    decreases c.len(),
{
    if c.len() == 0 || cache_total(c) + size <= SEARCH_CACHE_LIMIT {
        c
    } else {
        evicted(c.drop_first(), size)
    }
}

/// The cache after `content` is cached for `id`: contents larger than the
/// whole cache are not cached; otherwise the oldest entries leave until it
/// fits, and it is added as the newest.
pub open spec fn cached(c: Seq<CachedNote>, id: Seq<char>, content: Seq<char>) -> Seq<CachedNote> {
    if text_size(content) > SEARCH_CACHE_LIMIT {
        c
    } else {
        evicted(c, text_size(content)).push((id, content))
    }
}

/// The contents cached for `id`, if any.
pub open spec fn cache_lookup(c: Seq<CachedNote>, id: Seq<char>) -> Option<Seq<char>> {
    if exists|i: int| 0 <= i < c.len() && c[i].0 == id {
        Some(c[choose|i: int| 0 <= i < c.len() && c[i].0 == id].1)
    } else {
        None
    }
}

/// No id is cached twice.
pub open spec fn distinct_ids(c: Seq<CachedNote>) -> bool {
    forall|i: int, j: int| 0 <= i < c.len() && 0 <= j < c.len() && i != j ==> c[i].0 != c[j].0
}

/// The index as the specifications see it.
pub struct IndexModel {
    pub identity: Seq<char>,
    /// Each note's id and lower-cased id.
    pub notes: Seq<(Seq<char>, Seq<char>)>,
    pub cache: Seq<CachedNote>,
}

impl IndexModel {
    /// The byte count of the cache stays within its limit, and no note is
    /// cached twice.
    pub open spec fn wf(self) -> bool {
        &&& cache_total(self.cache) <= SEARCH_CACHE_LIMIT
        &&& distinct_ids(self.cache)
    }
}

/// What the index knows of a note for a query.
#[derive(Clone, Copy, PartialEq, Eq, Debug, Structural)]
pub enum Lookup {
    /// Its path holds the query.
    PathMatch,
    /// Its cached contents hold the query, or not.
    Cached(bool),
    /// Its contents must be read.
    NeedsContent,
}

/// What the index knows of note `i` for `query`.
pub open spec fn lookup_of(m: IndexModel, i: int, query: Seq<char>) -> Lookup {
    if contains(m.notes[i].1, query) {
        Lookup::PathMatch
    } else {
        match cache_lookup(m.cache, m.notes[i].0) {
            Some(c) => Lookup::Cached(contains(c, query)),
            None => Lookup::NeedsContent,
        }
    }
}

/// The index of one workspace's notes.
pub struct SearchIndex {
    identity: String,
    notes: Vec<(EntryId, String)>,
    cache: Vec<(EntryId, String)>,
    cache_bytes: usize,
}

pub open spec fn pair_views(v: Seq<(String, String)>) -> Seq<(Seq<char>, Seq<char>)> {
    v.map_values(|p: (String, String)| (p.0@, p.1@))
}

impl View for SearchIndex {
    type V = IndexModel;

    closed spec fn view(&self) -> IndexModel {
        IndexModel { identity: self.identity@, notes: pair_views(self.notes@), cache: pair_views(self.cache@) }
    }
}

/// The notes of a scanned tree with their lower-cased ids.
pub open spec fn indexed_notes(entries: Seq<EntryModel>) -> Seq<(Seq<char>, Seq<char>)> {
    note_ids(entries).map_values(|id: Seq<char>| (id, lowercase(id)))
}

proof fn lemma_total_push(c: Seq<CachedNote>, x: CachedNote)
    ensures
        cache_total(c.push(x)) == cache_total(c) + text_size(x.1),
    decreases c.len(),
{
    if c.len() > 0 {
        assert(c.push(x).drop_first() =~= c.drop_first().push(x));
        assert(c.push(x)[0] == c[0]);
        lemma_total_push(c.drop_first(), x);
        assert(cache_total(c.push(x)) == text_size(c.push(x)[0].1) + cache_total(c.push(x).drop_first()));
        assert(cache_total(c) == text_size(c[0].1) + cache_total(c.drop_first()));
    } else {
        assert(c.push(x).drop_first() =~= Seq::<CachedNote>::empty());
        assert(c.push(x)[0] == x);
        assert(cache_total(Seq::<CachedNote>::empty()) == 0);
        assert(cache_total(c.push(x)) == text_size(c.push(x)[0].1) + cache_total(c.push(x).drop_first()));
    }
}

proof fn lemma_evicted_fits(c: Seq<CachedNote>, size: nat)
    requires
        size <= SEARCH_CACHE_LIMIT,
    ensures
        cache_total(evicted(c, size)) + size <= SEARCH_CACHE_LIMIT,
        exists|k: int| 0 <= k <= c.len() && evicted(c, size) == c.skip(k),
    decreases c.len(),
{
    if c.len() == 0 || cache_total(c) + size <= SEARCH_CACHE_LIMIT {
        assert(c.skip(0) =~= c);
    } else {
        lemma_evicted_fits(c.drop_first(), size);
        let k = choose|k: int| 0 <= k <= c.drop_first().len() && evicted(c.drop_first(), size) == c.drop_first().skip(k);
        assert(c.drop_first().skip(k) =~= c.skip(k + 1));
    }
}

impl SearchIndex {
    /// The index is well formed and its byte count is that of its cache.
    pub closed spec fn well_formed(&self) -> bool {
        self@.wf() && self.cache_bytes == cache_total(self@.cache)
    }

    /// Indexes the notes of a scanned tree of the workspace `identity`, with
    /// nothing cached.
    pub fn build(identity: String, entries: &Vec<WorkspaceEntry>) -> (r: Self)
        ensures
            r@.identity == identity@,
            r@.notes == indexed_notes(entries_model(entries@)),
            r@.cache == Seq::<CachedNote>::empty(),
            r@.wf(),
            r.well_formed(),
    {
        let mut notes: Vec<(EntryId, String)> = Vec::new();
        let mut i: usize = 0;
        while i < entries.len()
            invariant
                i <= entries.len(),
                pair_views(notes@) == indexed_notes(entries_model(entries@.take(i as int))),
            decreases entries.len() - i,
        {
            let ghost prefix = entries_model(entries@.take(i as int));
            proof {
                assert(entries_model(entries@.take(i + 1)).drop_last() =~= prefix);
                assert(entries_model(entries@.take(i + 1)).last() == entry_model(entries@[i as int]));
            }
            if entries[i].kind == EntryKind::File {
                let id = owned(entries[i].id.as_str());
                let lower = crate::text::to_lowercase(id.as_str());
                let ghost prev = notes@;
                notes.push((id, lower));
                proof {
                    assert(pair_views(notes@) =~= pair_views(prev).push((id@, lowercase(id@))));
                    assert(indexed_notes(entries_model(entries@.take(i + 1))) =~= indexed_notes(prefix).push((id@, lowercase(id@))));
                }
            } else {
                proof {
                    assert(indexed_notes(entries_model(entries@.take(i + 1))) =~= indexed_notes(prefix));
                }
            }
            i += 1;
        }
        proof {
            assert(entries@.take(entries@.len() as int) =~= entries@);
        }
        let r = SearchIndex { identity, notes, cache: Vec::new(), cache_bytes: 0 };
        proof {
            assert(r@.cache =~= Seq::<CachedNote>::empty());
        }
        r
    }

    /// Whether the index serves a search of `query` in the workspace
    /// `identity`: it indexes that workspace and the query is not blank.
    pub fn serves(&self, identity: &str, query: &str) -> (r: bool)
        ensures
            r == (self@.identity == identity@ && trim(query@).len() > 0),
    {
        if !str_eq(self.identity.as_str(), identity) {
            return false;
        }
        let v = crate::text::chars_of(query);
        let (a, b) = crate::text::trim_bounds(v.as_slice());
        a < b
    }

    /// The number of notes indexed.
    pub fn len(&self) -> (r: usize)
        ensures
            r == self@.notes.len(),
    {
        self.notes.len()
    }

    /// The id of note `i`.
    pub fn note_id(&self, i: usize) -> (r: EntryId)
        requires
            i < self@.notes.len(),
        ensures
            r@ == self@.notes[i as int].0,
    {
        owned(self.notes[i].0.as_str())
    }

    fn cached_content(&self, id: &str) -> (r: Option<usize>)
        ensures
            match r {
                Some(k) => k < self@.cache.len() && self@.cache[k as int].0 == id@,
                None => forall|j: int| 0 <= j < self@.cache.len() ==> self@.cache[j].0 != id@,
            },
    {
        let mut k: usize = 0;
        while k < self.cache.len()
            invariant
                k <= self.cache.len(),
                forall|j: int| 0 <= j < k ==> self@.cache[j].0 != id@,
            decreases self.cache.len() - k,
        {
            if str_eq(self.cache[k].0.as_str(), id) {
                return Some(k);
            }
            k += 1;
        }
        None
    }

    /// What the index knows of note `i` for the (trimmed, lower-cased) `query`;
    /// see [`lookup_of`].
    pub fn lookup(&self, i: usize, query: &str) -> (r: Lookup)
        requires
            i < self@.notes.len(),
            self.well_formed(),
        ensures
            r == lookup_of(self@, i as int, query@),
    {
        let path = crate::text::chars_of(self.notes[i].1.as_str());
        let q = crate::text::chars_of(query);
        if crate::text::find_in(path.as_slice(), q.as_slice(), 0).is_some() {
            proof {
                lemma_found_contains(path@, q@);
            }
            return Lookup::PathMatch;
        }
        proof {
            lemma_found_contains(path@, q@);
        }
        match self.cached_content(self.notes[i].0.as_str()) {
            Some(k) => {
                proof {
                    lemma_cache_lookup(self@.cache, self@.notes[i as int].0, k as int);
                }
                let c = crate::text::chars_of(self.cache[k].1.as_str());
                let hit = crate::text::find_in(c.as_slice(), q.as_slice(), 0).is_some();
                proof {
                    lemma_found_contains(c@, q@);
                }
                Lookup::Cached(hit)
            },
            None => Lookup::NeedsContent,
        }
    }

    /// Takes in the text of note `i`, which was not cached, as read (an
    /// unreadable note counts as empty): its lower-cased contents are cached
    /// (see [`cached`]) and the result says whether they hold `query`.
    pub fn take_content(&mut self, i: usize, text: Option<String>, query: &str) -> (r: bool)
        requires
            i < old(self)@.notes.len(),
            old(self).well_formed(),
            cache_lookup(old(self)@.cache, old(self)@.notes[i as int].0) is None,
        ensures
            ({
                let content = match text {
                    Some(t) => lowercase(t@),
                    None => lowercase(Seq::<char>::empty()),
                };
                &&& r == contains(content, query@)
                &&& final(self)@ == (IndexModel { cache: cached(old(self)@.cache, old(self)@.notes[i as int].0, content), ..old(self)@ })
            }),
            final(self).well_formed(),
    {
        let raw = match text {
            Some(t) => t,
            None => String::new(),
        };
        let content = crate::text::to_lowercase(raw.as_str());
        let c = crate::text::chars_of(content.as_str());
        let q = crate::text::chars_of(query);
        let hit = crate::text::find_in(c.as_slice(), q.as_slice(), 0).is_some();
        proof {
            lemma_found_contains(c@, q@);
            reveal_strlit("");
        }
        let id = owned(self.notes[i].0.as_str());
        self.cache_content(id, content);
        hit
    }

    fn cache_content(&mut self, id: EntryId, content: String)
        requires
            old(self)@.wf(),
            old(self).cache_bytes == cache_total(old(self)@.cache),
            cache_lookup(old(self)@.cache, id@) is None,
        ensures
            final(self)@ == (IndexModel { cache: cached(old(self)@.cache, id@, content@), ..old(self)@ }),
            final(self)@.wf(),
            final(self).cache_bytes == cache_total(final(self)@.cache),
    {
        let size = content.as_str().as_bytes().len();
        proof {
            assert(size == text_size(content@));
        }
        if size > SEARCH_CACHE_LIMIT {
            return;
        }
        proof {
            lemma_evicted_fits(old(self)@.cache, size as nat);
            assert(old(self)@.cache.skip(0) =~= old(self)@.cache);
        }
        while self.cache_bytes + size > SEARCH_CACHE_LIMIT
            invariant
                size <= SEARCH_CACHE_LIMIT,
                self.cache_bytes == cache_total(self@.cache),
                cache_total(self@.cache) <= SEARCH_CACHE_LIMIT,
                evicted(self@.cache, size as nat) == evicted(old(self)@.cache, size as nat),
                exists|k: int| 0 <= k <= old(self)@.cache.len() && self@.cache == old(self)@.cache.skip(k),
                self@.identity == old(self)@.identity,
                self@.notes == old(self)@.notes,
            decreases self.cache.len(),
        {
            proof {
                if self@.cache.len() == 0 {
                    assert(cache_total(self@.cache) == 0);
                }
            }
            let ghost prev = self@.cache;
            let oldest = self.cache.remove(0);
            proof {
                assert(self@.cache =~= prev.drop_first());
                let k = choose|k: int| 0 <= k <= old(self)@.cache.len() && prev == old(self)@.cache.skip(k);
                assert(prev.drop_first() =~= old(self)@.cache.skip(k + 1));
            }
            let removed = oldest.1.as_str().as_bytes().len();
            proof {
                assert(prev[0] == (oldest.0@, oldest.1@));
                assert(removed == text_size(prev[0].1));
                assert(cache_total(prev) == text_size(prev[0].1) + cache_total(prev.drop_first()));
            }
            self.cache_bytes = self.cache_bytes - removed;
        }
        let ghost before = self@.cache;
        proof {
            assert(evicted(before, size as nat) == before);
        }
        self.cache.push((id, content));
        self.cache_bytes = self.cache_bytes + size;
        proof {
            assert(self@.cache =~= before.push((id@, content@)));
            lemma_total_push(before, (id@, content@));
            let k = choose|k: int| 0 <= k <= old(self)@.cache.len() && before == old(self)@.cache.skip(k);
            assert forall|a: int, b: int| 0 <= a < self@.cache.len() && 0 <= b < self@.cache.len() && a != b
                implies self@.cache[a].0 != self@.cache[b].0 by {
                if a < before.len() && b < before.len() {
                    assert(before[a] == old(self)@.cache[a + k]);
                    assert(before[b] == old(self)@.cache[b + k]);
                } else if a < before.len() {
                    assert(before[a] == old(self)@.cache[a + k]);
                    assert(old(self)@.cache[a + k].0 != id@);
                } else if b < before.len() {
                    assert(before[b] == old(self)@.cache[b + k]);
                    assert(old(self)@.cache[b + k].0 != id@);
                }
            }
        }
    }
}

proof fn lemma_cache_lookup(c: Seq<CachedNote>, id: Seq<char>, k: int)
    requires
        0 <= k < c.len(),
        c[k].0 == id,
        distinct_ids(c),
    ensures
        cache_lookup(c, id) == Some(c[k].1),
{
    let j = choose|i: int| 0 <= i < c.len() && c[i].0 == id;
    assert(j == k);
}

proof fn lemma_found_contains(s: Seq<char>, p: Seq<char>)
    ensures
        crate::text::find_from(s, p, 0) is Some <==> contains(s, p),
{
}

/// Caching never takes the cache past its byte limit.
pub proof fn law_cache_stays_within_limit(c: Seq<CachedNote>, id: Seq<char>, content: Seq<char>)
    requires
        cache_total(c) <= SEARCH_CACHE_LIMIT,
    ensures
        cache_total(cached(c, id, content)) <= SEARCH_CACHE_LIMIT,
{
    if text_size(content) <= SEARCH_CACHE_LIMIT {
        lemma_evicted_fits(c, text_size(content));
        lemma_total_push(evicted(c, text_size(content)), (id, content));
    }
}

/// Contents that fit in the cache are found there right after they are
/// cached, and only the oldest entries made room for them.
pub proof fn law_cached_content_is_found(c: Seq<CachedNote>, id: Seq<char>, content: Seq<char>)
    requires
        distinct_ids(c),
        cache_lookup(c, id) is None,
        text_size(content) <= SEARCH_CACHE_LIMIT,
    ensures
        cache_lookup(cached(c, id, content), id) == Some(content),
        exists|k: int| 0 <= k <= c.len() && cached(c, id, content) == c.skip(k).push((id, content)),
{
    lemma_evicted_fits(c, text_size(content));
    let k = choose|k: int| 0 <= k <= c.len() && evicted(c, text_size(content)) == c.skip(k);
    let n = cached(c, id, content);
    assert(n == c.skip(k).push((id, content)));
    assert forall|j: int| 0 <= j < n.len() - 1 implies n[j].0 != id by {
        assert(n[j] == c[j + k]);
        if c[j + k].0 == id {
            assert(cache_lookup(c, id) is Some);
        }
    }
    assert(n[n.len() - 1].0 == id);
    let j = choose|i: int| 0 <= i < n.len() && n[i].0 == id;
    assert(j == n.len() - 1);
}

} // verus!
