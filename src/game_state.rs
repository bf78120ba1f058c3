//! The keyed state store: per page, a map from 64-bit keys to 64-bit values.
use vstd::prelude::*;

use crate::action::InternalKey;
use crate::idmap::{id_entries_view, IdMap};
use crate::page::{PageId, PageKey};

verus! {

broadcast use vstd::std_specs::hash::group_hash_axioms;

/// The state of one page: its keys and their values.
#[derive(Debug, Default, Clone)]
pub struct PageMap {
    inner: std::collections::HashMap<PageKey, u64>,
}

impl View for PageMap {
    type V = Map<PageKey, u64>;

    closed spec fn view(&self) -> Map<PageKey, u64> {
        self.inner@
    }
}

impl PageMap {
    pub fn new() -> (r: PageMap)
        ensures
            r@ == Map::<PageKey, u64>::empty(),
    {
        PageMap { inner: std::collections::HashMap::new() }
    }

    pub fn get(&self, key: PageKey) -> (r: Option<u64>)
        ensures
            r == (if self@.contains_key(key) { Some(self@[key]) } else { None::<u64> }),
    {
        match self.inner.get(&key) {
            Some(v) => Some(*v),
            None => None,
        }
    }

    /// Sets the value of a key; returns the value it had.
    pub fn insert(&mut self, key: PageKey, value: u64) -> (r: Option<u64>)
        ensures
            final(self)@ == old(self)@.insert(key, value),
            r == (if old(self)@.contains_key(key) { Some(old(self)@[key]) } else { None::<u64> }),
    {
        self.inner.insert(key, value)
    }

    /// Removes a key; returns the value it had.
    pub fn remove(&mut self, key: PageKey) -> (r: Option<u64>)
        ensures
            final(self)@ == old(self)@.remove(key),
            r == (if old(self)@.contains_key(key) { Some(old(self)@[key]) } else { None::<u64> }),
    {
        self.inner.remove(&key)
    }

    /// An identical copy.
    pub fn duplicate(&self) -> (r: PageMap)
        ensures
            r@ == self@,
    {
        PageMap { inner: self.inner.clone() }
    }

    pub fn is_empty(&self) -> (r: bool)
        ensures
            r == (self@.dom() =~= Set::<PageKey>::empty()),
    {
        proof {
            assert(self.inner@.dom().finite());
        }
        let r = self.inner.is_empty();
        proof {
            if !r {
                let k = self.inner@.dom().choose();
                assert(self@.dom().contains(k));
            }
        }
        r
    }
}

/// The state of every page that has any, keyed by the page's resolved id.
///
/// A page's entry is created on its first write and dropped when its last key
/// is removed; an absent key reads as 0.
#[derive(Debug, Default, Clone)]
pub struct GameState {
    inner: IdMap<PageMap>,
}

/// The contents of each page's state.
pub open spec fn contents(m: Map<Seq<char>, PageMap>) -> Map<Seq<char>, Map<PageKey, u64>> {
    m.map_values(|p: PageMap| p@)
}

/// One more, wrapping around to 0 after the largest value.
pub open spec fn wrapping_inc(x: u64) -> u64 {
    if x == u64::MAX {
        0
    } else {
        (x + 1) as u64
    }
}

/// The mathematical content of a [`GameState`]: for each page that has
/// state, its keys and their values.
pub type StateMap = Map<Seq<char>, Map<PageKey, u64>>;

/// The state of a page, empty where it has none.
pub open spec fn page_of(m: StateMap, id: Seq<char>) -> Map<PageKey, u64> {
    if m.contains_key(id) {
        m[id]
    } else {
        Map::empty()
    }
}

/// The value stored under a key, if any.
pub open spec fn value_of(m: StateMap, key: (Seq<char>, PageKey)) -> Option<u64> {
    if m.contains_key(key.0) && m[key.0].contains_key(key.1) {
        Some(m[key.0][key.1])
    } else {
        None
    }
}

/// The value stored under a key, 0 where there is none.
pub open spec fn value_or_zero(m: StateMap, key: (Seq<char>, PageKey)) -> u64 {
    match value_of(m, key) {
        Some(v) => v,
        None => 0,
    }
}

/// The store with `value` under `key`.
pub open spec fn insert_spec(m: StateMap, key: (Seq<char>, PageKey), value: u64) -> StateMap {
    m.insert(key.0, page_of(m, key.0).insert(key.1, value))
}

/// The store with bit `pos` of the mask under `key` set.
pub open spec fn set_bit_spec(m: StateMap, key: (Seq<char>, PageKey), pos: u8) -> StateMap {
    insert_spec(m, key, value_or_zero(m, key) | (1u64 << pos))
}

/// The store with the counter under `key` incremented.
pub open spec fn inc_spec(m: StateMap, key: (Seq<char>, PageKey)) -> StateMap {
    insert_spec(m, key, wrapping_inc(value_or_zero(m, key)))
}

/// The store without `key`; a page left without keys is dropped.
pub open spec fn remove_spec(m: StateMap, key: (Seq<char>, PageKey)) -> StateMap {
    if m.contains_key(key.0) {
        let rest = m[key.0].remove(key.1);
        if rest.dom().is_empty() {
            m.remove(key.0)
        } else {
            m.insert(key.0, rest)
        }
    } else {
        m
    }
}

impl View for GameState {
    type V = Map<Seq<char>, Map<PageKey, u64>>;

    closed spec fn view(&self) -> Map<Seq<char>, Map<PageKey, u64>> {
        contents(self.inner@)
    }
}

impl GameState {
    /// No page appears twice.
    pub closed spec fn wf(&self) -> bool {
        self.inner.wf()
    }

    /// The value stored under a key, if any.
    pub open spec fn value(&self, key: (Seq<char>, PageKey)) -> Option<u64> {
        value_of(self@, key)
    }

    pub fn new() -> (r: GameState)
        ensures
            r.wf(),
            r@ == Map::<Seq<char>, Map<PageKey, u64>>::empty(),
    {
        let r = GameState { inner: IdMap::new() };
        assert(r@ =~= Map::<Seq<char>, Map<PageKey, u64>>::empty());
        r
    }

    /// An identical copy.
    pub fn duplicate(&self) -> (r: GameState)
        requires
            self.wf(),
        ensures
            r.wf(),
            r@ == self@,
    {
        let ghost entries = self.inner.entries();
        proof {
            self.inner.lemma_view_of_entries();
        }
        let n = self.inner.entry_count();
        let mut out: IdMap<PageMap> = IdMap::new();
        let mut i: usize = 0;
        assert(entries.take(0) =~= Seq::<(PageId, PageMap)>::empty());
        assert(contents(out@) =~= contents(id_entries_view(entries.take(0))));
        while i < n
            invariant
                n == entries.len(),
                entries == self.inner.entries(),
                i <= n,
                out.wf(),
                contents(out@) == contents(id_entries_view(entries.take(i as int))),
            decreases n - i,
        {
            let (id, map) = self.inner.entry_at(i);
            let ghost before = out@;
            out.put(id.clone(), map.duplicate());
            proof {
                let prev = entries.take(i as int);
                let next = entries.take(i + 1);
                assert(next.drop_last() =~= prev);
                assert(next.last() == entries[i as int]);
                assert(id_entries_view(next) == id_entries_view(prev).insert(entries[i as int].0@, entries[i as int].1));
                assert(contents(out@) =~= contents(before).insert(id@, map@));
                assert(contents(id_entries_view(next)) =~= contents(id_entries_view(prev)).insert(id@, map@));
            }
            i = i + 1;
        }
        assert(entries.take(n as int) =~= entries);
        GameState { inner: out }
    }

    /// The state of a page, if it has any.
    pub fn page(&self, id: &PageId) -> (r: Option<&PageMap>)
        requires
            self.wf(),
        ensures
            match r {
                Some(m) => self@.contains_key(id@) && m@ == self@[id@],
                None => !self@.contains_key(id@),
            },
    {
        self.inner.get(id)
    }

    /// Replaces (or creates) the state of a page.
    pub fn set_page(&mut self, id: PageId, map: PageMap)
        requires
            old(self).wf(),
        ensures
            final(self).wf(),
            final(self)@ == old(self)@.insert(id@, map@),
    {
        let ghost k = id@;
        let ghost v = map@;
        self.inner.put(id, map);
        assert(self@ =~= old(self)@.insert(k, v));
    }

    /// Takes the state of a page out of the store.
    pub fn take_page(&mut self, id: &PageId) -> (r: PageMap)
        requires
            old(self).wf(),
        ensures
            final(self).wf(),
            final(self)@ == old(self)@.remove(id@),
            r@ == page_of(old(self)@, id@),
    {
        let r = match self.inner.take(id) {
            Some(m) => m,
            None => PageMap::new(),
        };
        assert(self@ =~= old(self)@.remove(id@));
        r
    }

    /// Increments the value at the given key by 1 (wrapping around at
    /// 2^64), creating the page's state or the entry if missing.
    pub fn inc(&mut self, key: &InternalKey)
        requires
            old(self).wf(),
        ensures
            final(self).wf(),
            final(self)@ == inc_spec(old(self)@, (key.0@, key.1)),
    {
        let (chapter_id, entry_key) = key;
        let mut chapter = self.take_page(chapter_id);
        let current = match chapter.get(*entry_key) {
            Some(v) => v,
            None => 0,
        };
        let next = if current == u64::MAX {
            0
        } else {
            current + 1
        };
        chapter.insert(*entry_key, next);
        self.set_page(chapter_id.clone(), chapter);
    }

    /// Sets the value at the given key, creating the page's state if missing.
    pub fn insert(&mut self, key: InternalKey, value: u64)
        requires
            old(self).wf(),
        ensures
            final(self).wf(),
            final(self)@ == insert_spec(old(self)@, (key.0@, key.1), value),
    {
        let (chapter_id, entry_key) = key;
        let mut chapter = self.take_page(&chapter_id);
        chapter.insert(entry_key, value);
        self.set_page(chapter_id, chapter);
    }

    /// Removes the value at the given key; a page left without keys is
    /// dropped from the store.
    pub fn remove(&mut self, key: &InternalKey)
        requires
            old(self).wf(),
        ensures
            final(self).wf(),
            final(self)@ == remove_spec(old(self)@, (key.0@, key.1)),
    {
        let (chapter_id, entry_key) = key;
        if self.page(chapter_id).is_some() {
            let mut chapter = self.take_page(chapter_id);
            chapter.remove(*entry_key);
            if !chapter.is_empty() {
                self.set_page(chapter_id.clone(), chapter);
            } else {
                assert(chapter@.dom().is_empty());
            }
        }
    }

    /// Treating the value as a bitmask, sets bit `pos`, creating the page's
    /// state or the entry if missing.
    pub fn set_bit(&mut self, key: InternalKey, pos: u8)
        requires
            old(self).wf(),
            pos < 64,
        ensures
            final(self).wf(),
            final(self)@ == set_bit_spec(old(self)@, (key.0@, key.1), pos),
    {
        let (chapter_id, entry_key) = key;
        let mut chapter = self.take_page(&chapter_id);
        let current = match chapter.get(entry_key) {
            Some(v) => v,
            None => 0,
        };
        chapter.insert(entry_key, current | (1u64 << pos));
        self.set_page(chapter_id, chapter);
    }

    /// The state of a page, created empty if missing, to be changed in place.
    pub fn get_chapter_mut(&mut self, chapter_id: &PageId) -> (r: &mut PageMap)
        requires
            old(self).wf(),
        ensures
            r@ == page_of(old(self)@, chapter_id@),
            final(self).wf(),
            final(self)@ == old(self)@.insert(chapter_id@, final(r)@),
    {
        let chapter = self.take_page(chapter_id);
        let ghost rest = self.inner@;
        proof {
            assert(contents(rest) == old(self)@.remove(chapter_id@));
            assert(!self@.contains_key(chapter_id@));
            assert(!rest.contains_key(chapter_id@)) by {
                if rest.contains_key(chapter_id@) {
                    assert(contents(rest).contains_key(chapter_id@));
                }
            }
            assert forall|m: PageMap| #![trigger rest.insert(chapter_id@, m)]
                contents(rest.insert(chapter_id@, m)) == old(self)@.insert(chapter_id@, m@) by {
                assert(contents(rest.insert(chapter_id@, m)) =~= contents(rest).insert(chapter_id@, m@));
                assert(old(self)@.remove(chapter_id@).insert(chapter_id@, m@) =~= old(self)@.insert(chapter_id@, m@));
            }
        }
        self.inner.insert_new(chapter_id.clone(), chapter)
    }

    /// The state of a page, created empty if missing.
    pub fn get_chapter(&mut self, chapter_id: &PageId) -> (r: &PageMap)
        requires
            old(self).wf(),
        ensures
            final(self).wf(),
            final(self)@ == old(self)@.insert(chapter_id@, page_of(old(self)@, chapter_id@)),
            r@ == page_of(old(self)@, chapter_id@),
    {
        let chapter = self.take_page(chapter_id);
        self.set_page(chapter_id.clone(), chapter);
        self.page(chapter_id).unwrap()
    }
}

} // verus!
