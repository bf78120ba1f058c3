//! Sets of page ids used as free-form markers.
use vstd::prelude::*;

use crate::page::PageId;

verus! {

/// A set of tags, each held once.
#[derive(Debug, Default, Clone)]
pub struct GameTags {
    inner: Vec<PageId>,
}

impl View for GameTags {
    type V = Set<Seq<char>>;

    closed spec fn view(&self) -> Set<Seq<char>> {
        self.inner@.map_values(|t: PageId| t@).to_set()
    }
}

impl GameTags {
    /// No tag is held twice.
    pub closed spec fn wf(&self) -> bool {
        forall|i: int, j: int|
            0 <= i < self.inner@.len() && 0 <= j < self.inner@.len() && i != j
                ==> #[trigger] self.inner@[i]@ != #[trigger] self.inner@[j]@
    }

    /// The tags in the order they were added.
    pub closed spec fn items(&self) -> Seq<Seq<char>> {
        self.inner@.map_values(|t: PageId| t@)
    }

    proof fn lemma_items(&self)
        ensures
            self@ == self.items().to_set(),
            self.items().len() == self.inner@.len(),
            forall|i: int| 0 <= i < self.inner@.len() ==> #[trigger] self.items()[i] == self.inner@[i]@,
    {
    }

    pub fn new() -> (r: GameTags)
        ensures
            r.wf(),
            r@ == Set::<Seq<char>>::empty(),
    {
        let r = GameTags { inner: Vec::new() };
        assert(r.items() =~= Seq::<Seq<char>>::empty());
        r
    }

    fn position(&self, tag: &PageId) -> (r: Option<usize>)
        ensures
            match r {
                Some(i) => i < self.inner@.len() && self.inner@[i as int]@ == tag@,
                None => !self@.contains(tag@),
            },
    {
        let mut i: usize = 0;
        while i < self.inner.len()
            invariant
                i <= self.inner@.len(),
                forall|j: int| 0 <= j < i ==> #[trigger] self.inner@[j]@ != tag@,
            decreases self.inner@.len() - i,
        {
            if self.inner[i] == *tag {
                return Some(i);
            }
            i = i + 1;
        }
        proof {
            self.lemma_items();
            if self@.contains(tag@) {
                let k = choose|k: int| 0 <= k < self.items().len() && self.items()[k] == tag@;
                assert(self.inner@[k]@ == tag@);
            }
        }
        None
    }

    pub fn contains(&self, tag: &str) -> (r: bool)
        ensures
            r == self@.contains(tag@),
    {
        let owned = tag.to_owned();
        match self.position(&owned) {
            Some(i) => {
                proof {
                    self.lemma_items();
                    assert(self.items()[i as int] == tag@);
                }
                true
            },
            None => false,
        }
    }

    /// Adds a tag; returns whether it was new.
    pub fn insert(&mut self, tag: PageId) -> (r: bool)
        requires
            old(self).wf(),
        ensures
            final(self).wf(),
            final(self)@ == old(self)@.insert(tag@),
            r == !old(self)@.contains(tag@),
    {
        if self.contains(tag.as_str()) {
            assert(old(self)@.insert(tag@) =~= old(self)@);
            false
        } else {
            let ghost t = tag@;
            proof {
                self.lemma_items();
                assert forall|j: int| 0 <= j < self.inner@.len() implies #[trigger] self.inner@[j]@ != t by {
                    assert(self.items()[j] == self.inner@[j]@);
                }
            }
            let ghost before = self.inner@;
            self.inner.push(tag);
            proof {
                assert(self.items() =~= old(self).items().push(t));
                assert(self@ =~= old(self)@.insert(t)) by {
                    assert forall|x: Seq<char>| self@.contains(x) <==> old(self)@.insert(t).contains(x) by {
                        if self@.contains(x) {
                            let k = choose|k: int| 0 <= k < self.items().len() && self.items()[k] == x;
                            if k < before.len() {
                                assert(old(self).items()[k] == x);
                            }
                        }
                        if old(self)@.contains(x) {
                            let k = choose|k: int| 0 <= k < old(self).items().len() && old(self).items()[k] == x;
                            assert(self.items()[k] == x);
                        }
                        if x == t {
                            assert(self.items()[before.len() as int] == x);
                        }
                    }
                }
            }
            true
        }
    }

    /// Removes a tag; returns whether it was present.
    pub fn remove(&mut self, tag: &str) -> (r: bool)
        requires
            old(self).wf(),
        ensures
            final(self).wf(),
            final(self)@ == old(self)@.remove(tag@),
            r == old(self)@.contains(tag@),
    {
        let owned = tag.to_owned();
        match self.position(&owned) {
            Some(i) => {
                let ghost before = self.inner@;
                self.inner.remove(i);
                proof {
                    let t = tag@;
                    assert forall|a: int, b: int|
                        0 <= a < self.inner@.len() && 0 <= b < self.inner@.len() && a != b
                            implies #[trigger] self.inner@[a]@ != #[trigger] self.inner@[b]@ by {
                        let a2 = if a < i { a } else { a + 1 };
                        let b2 = if b < i { b } else { b + 1 };
                        assert(self.inner@[a] == before[a2] && self.inner@[b] == before[b2]);
                    }
                    assert(self@ =~= old(self)@.remove(t)) by {
                        assert forall|x: Seq<char>| self@.contains(x) <==> old(self)@.remove(t).contains(x) by {
                            if self@.contains(x) {
                                let k = choose|k: int| 0 <= k < self.items().len() && self.items()[k] == x;
                                let k2 = if k < i { k } else { k + 1 };
                                assert(self.inner@[k] == before[k2]);
                                assert(old(self).items()[k2] == x);
                                assert(k2 != i);
                            }
                            if old(self)@.remove(t).contains(x) {
                                let k = choose|k: int| 0 <= k < old(self).items().len() && old(self).items()[k] == x;
                                assert(k != i);
                                let k1 = if k < i { k } else { k - 1 };
                                assert(self.inner@[k1] == before[k]);
                                assert(self.items()[k1] == x);
                            }
                        }
                    }
                    assert(old(self).items()[i as int] == t);
                }
                true
            },
            None => {
                assert(old(self)@.remove(tag@) =~= old(self)@);
                false
            },
        }
    }

    /// An identical copy.
    pub fn duplicate(&self) -> (r: GameTags)
        requires
            self.wf(),
        ensures
            r.wf(),
            r@ == self@,
    {
        let r = GameTags { inner: self.to_vec() };
        proof {
            assert(r.items() == self.items());
            assert forall|i: int, j: int|
                0 <= i < r.inner@.len() && 0 <= j < r.inner@.len() && i != j
                    implies #[trigger] r.inner@[i]@ != #[trigger] r.inner@[j]@ by {
                assert(r.items()[i] == r.inner@[i]@);
                assert(r.items()[j] == r.inner@[j]@);
                assert(self.items()[i] == self.inner@[i]@);
                assert(self.items()[j] == self.inner@[j]@);
            }
        }
        r
    }

    /// The number of tags.
    pub fn len(&self) -> (r: usize)
        requires
            self.wf(),
        ensures
            r == self@.len(),
    {
        proof {
            self.lemma_items();
            assert(self.items().no_duplicates()) by {
                assert forall|i: int, j: int| 0 <= i < self.items().len() && 0 <= j < self.items().len() && i != j implies self.items()[i] != self.items()[j] by {
                    assert(self.inner@[i]@ != self.inner@[j]@);
                }
            }
            self.items().unique_seq_to_set();
        }
        self.inner.len()
    }

    pub fn is_empty(&self) -> (r: bool)
        ensures
            r == self@.is_empty(),
    {
        proof {
            self.lemma_items();
            if self.inner@.len() > 0 {
                assert(self@.contains(self.items()[0]));
            } else {
                assert(self.items() =~= Seq::<Seq<char>>::empty());
                assert(self@ =~= Set::<Seq<char>>::empty());
            }
        }
        self.inner.len() == 0
    }

    /// The tags, in the order they were added.
    pub fn to_vec(&self) -> (r: Vec<PageId>)
        ensures
            r@.map_values(|t: PageId| t@) == self.items(),
            r@.map_values(|t: PageId| t@).to_set() == self@,
    {
        let mut out: Vec<PageId> = Vec::new();
        let mut i: usize = 0;
        while i < self.inner.len()
            invariant
                i <= self.inner@.len(),
                out@.map_values(|t: PageId| t@) == self.items().take(i as int),
            decreases self.inner@.len() - i,
        {
            let ghost before = out@;
            out.push(self.inner[i].clone());
            proof {
                self.lemma_items();
                assert(out@ == before.push(self.inner@[i as int]));
                assert(out@.map_values(|t: PageId| t@) =~= before.map_values(|t: PageId| t@).push(self.inner@[i as int]@));
                assert(self.items().take(i + 1) =~= self.items().take(i as int).push(self.items()[i as int]));
            }
            i = i + 1;
        }
        assert(self.items().take(i as int) =~= self.items());
        out
    }
}

} // verus!
