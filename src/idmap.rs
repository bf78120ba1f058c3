//! A small map from page ids to values, kept as a list of entries with
//! distinct ids. vstd specifies `std::collections::HashMap` through a key
//! model that it provides for integer keys only, so a map keyed by `String`
//! page ids is kept here as a list whose contents are proved.
use vstd::prelude::*;

use crate::page::PageId;

verus! {

/// Values keyed by page id; each id appears at most once.
#[derive(Debug, Default, Clone)]
pub struct IdMap<V> {
    inner: Vec<(PageId, V)>,
}

/// The mapping held by a list of entries, later entries taking precedence.
pub open spec fn id_entries_view<V>(s: Seq<(PageId, V)>) -> Map<Seq<char>, V>
    decreases s.len(),
{
    if s.len() == 0 {
        Map::empty()
    } else {
        id_entries_view(s.drop_last()).insert(s.last().0@, s.last().1)
    }
}

/// No two entries share an id.
pub open spec fn ids_unique<V>(s: Seq<(PageId, V)>) -> bool {
    forall|i: int, j: int| 0 <= i < s.len() && 0 <= j < s.len() && i != j ==> #[trigger] s[i].0@ != #[trigger] s[j].0@
}

proof fn lemma_absent<V>(s: Seq<(PageId, V)>, k: Seq<char>)
    requires
        forall|i: int| 0 <= i < s.len() ==> #[trigger] s[i].0@ != k,
    ensures
        !id_entries_view(s).contains_key(k),
    decreases s.len(),
{
    if s.len() > 0 {
        lemma_absent(s.drop_last(), k);
    }
}

proof fn lemma_lookup<V>(s: Seq<(PageId, V)>, i: int)
    requires
        ids_unique(s),
        0 <= i < s.len(),
    ensures
        id_entries_view(s).contains_key(s[i].0@),
        id_entries_view(s)[s[i].0@] == s[i].1,
    decreases s.len(),
{
    if i < s.len() - 1 {
        lemma_lookup(s.drop_last(), i);
        assert(s[s.len() - 1].0@ != s[i].0@);
    }
}

proof fn lemma_update<V>(s: Seq<(PageId, V)>, i: int, e: (PageId, V))
    requires
        ids_unique(s),
        0 <= i < s.len(),
        e.0@ == s[i].0@,
    ensures
        id_entries_view(s.update(i, e)) =~= id_entries_view(s).insert(e.0@, e.1),
        ids_unique(s.update(i, e)),
    decreases s.len(),
{
    let t = s.update(i, e);
    assert(ids_unique(t)) by {
        assert forall|a: int, b: int| 0 <= a < t.len() && 0 <= b < t.len() && a != b implies #[trigger] t[a].0@ != #[trigger] t[b].0@ by {
            assert(s[a].0@ != s[b].0@);
        }
    }
    if i == s.len() - 1 {
        assert(t.drop_last() =~= s.drop_last());
    } else {
        assert(t.drop_last() =~= s.drop_last().update(i, e));
        lemma_update(s.drop_last(), i, e);
        assert(s[s.len() - 1].0@ != s[i].0@);
    }
}

proof fn lemma_remove<V>(s: Seq<(PageId, V)>, i: int)
    requires
        ids_unique(s),
        0 <= i < s.len(),
    ensures
        id_entries_view(s.remove(i)) =~= id_entries_view(s).remove(s[i].0@),
        ids_unique(s.remove(i)),
    decreases s.len(),
{
    let t = s.remove(i);
    let k = s[i].0@;
    assert(ids_unique(t)) by {
        assert forall|a: int, b: int| 0 <= a < t.len() && 0 <= b < t.len() && a != b implies #[trigger] t[a].0@ != #[trigger] t[b].0@ by {
            let a2 = if a < i { a } else { a + 1 };
            let b2 = if b < i { b } else { b + 1 };
            assert(t[a] == s[a2] && t[b] == s[b2]);
            assert(s[a2].0@ != s[b2].0@);
        }
    }
    if i == s.len() - 1 {
        assert(t =~= s.drop_last());
        assert forall|j: int| 0 <= j < t.len() implies #[trigger] t[j].0@ != k by {
            assert(s[j].0@ != s[i].0@);
        }
        lemma_absent(t, k);
    } else {
        assert(t.drop_last() =~= s.drop_last().remove(i));
        lemma_remove(s.drop_last(), i);
        assert(t.last() == s.last());
        assert(s[s.len() - 1].0@ != k);
    }
}

proof fn lemma_push_fresh<V>(s: Seq<(PageId, V)>, e: (PageId, V))
    requires
        ids_unique(s),
        forall|i: int| 0 <= i < s.len() ==> #[trigger] s[i].0@ != e.0@,
    ensures
        ids_unique(s.push(e)),
        id_entries_view(s.push(e)) == id_entries_view(s).insert(e.0@, e.1),
{
    assert(s.push(e).drop_last() =~= s);
    let t = s.push(e);
    assert forall|a: int, b: int| 0 <= a < t.len() && 0 <= b < t.len() && a != b implies #[trigger] t[a].0@ != #[trigger] t[b].0@ by {
        if a < s.len() && b < s.len() {
            assert(s[a].0@ != s[b].0@);
        } else if a < s.len() {
            assert(s[a].0@ != e.0@);
        } else if b < s.len() {
            assert(s[b].0@ != e.0@);
        }
    }
}

/// In a list with distinct ids, the ids are exactly the map's keys and each
/// entry's value is the map's value there.
proof fn lemma_entries<V>(s: Seq<(PageId, V)>)
    requires
        ids_unique(s),
    ensures
        forall|i: int| 0 <= i < s.len() ==> id_entries_view(s).contains_key(#[trigger] s[i].0@) && id_entries_view(s)[s[i].0@] == s[i].1,
        forall|k: Seq<char>| #[trigger] id_entries_view(s).contains_key(k) ==> exists|i: int| 0 <= i < s.len() && s[i].0@ == k,
        id_entries_view(s).dom().finite(),
        id_entries_view(s).dom().len() == s.len(),
    decreases s.len(),
{
    assert forall|i: int| 0 <= i < s.len() implies id_entries_view(s).contains_key(#[trigger] s[i].0@) && id_entries_view(s)[s[i].0@] == s[i].1 by {
        lemma_lookup(s, i);
    }
    if s.len() > 0 {
        let p = s.drop_last();
        assert(ids_unique(p)) by {
            assert forall|a: int, b: int| 0 <= a < p.len() && 0 <= b < p.len() && a != b implies #[trigger] p[a].0@ != #[trigger] p[b].0@ by {
                assert(s[a].0@ != s[b].0@);
            }
        }
        lemma_entries(p);
        assert forall|j: int| 0 <= j < p.len() implies #[trigger] p[j].0@ != s.last().0@ by {
            assert(s[j].0@ != s[s.len() - 1].0@);
        }
        lemma_absent(p, s.last().0@);
        assert forall|k: Seq<char>| #[trigger] id_entries_view(s).contains_key(k) implies exists|i: int| 0 <= i < s.len() && s[i].0@ == k by {
            if k != s.last().0@ {
                assert(id_entries_view(p).contains_key(k));
                let i = choose|i: int| 0 <= i < p.len() && p[i].0@ == k;
                assert(s[i].0@ == k);
            } else {
                assert(s[s.len() - 1].0@ == k);
            }
        }
    }
}

impl<V> View for IdMap<V> {
    type V = Map<Seq<char>, V>;

    closed spec fn view(&self) -> Map<Seq<char>, V> {
        id_entries_view(self.inner@)
    }
}

impl<V> IdMap<V> {
    /// No id appears twice.
    pub closed spec fn wf(&self) -> bool {
        ids_unique(self.inner@)
    }

    /// The entries, in the order they were added.
    pub closed spec fn entries(&self) -> Seq<(PageId, V)> {
        self.inner@
    }

    /// The entries list exactly the ids of the map with their values.
    pub proof fn lemma_entries(&self)
        requires
            self.wf(),
        ensures
            forall|i: int|
                0 <= i < self.entries().len() ==> self@.contains_key(#[trigger] self.entries()[i].0@)
                    && self@[self.entries()[i].0@] == self.entries()[i].1,
            forall|k: Seq<char>|
                #[trigger] self@.contains_key(k) ==> exists|i: int| 0 <= i < self.entries().len() && self.entries()[i].0@ == k,
            self@.dom().finite(),
            self@.dom().len() == self.entries().len(),
    {
        lemma_entries(self.inner@);
        assert forall|k: Seq<char>| #[trigger] self@.contains_key(k) implies exists|i: int|
            0 <= i < self.entries().len() && self.entries()[i].0@ == k by {
            assert(id_entries_view(self.inner@).contains_key(k));
            let i = choose|i: int| 0 <= i < self.inner@.len() && self.inner@[i].0@ == k;
            assert(self.entries()[i].0@ == k);
        }
    }

    pub fn new() -> (r: IdMap<V>)
        ensures
            r.wf(),
            r@ == Map::<Seq<char>, V>::empty(),
    {
        IdMap { inner: Vec::new() }
    }

    fn find(&self, id: &PageId) -> (r: Option<usize>)
        requires
            self.wf(),
        ensures
            match r {
                Some(i) => i < self.inner@.len() && self.inner@[i as int].0@ == id@,
                None => !self@.contains_key(id@),
            },
    {
        let mut i: usize = 0;
        while i < self.inner.len()
            invariant
                i <= self.inner@.len(),
                forall|j: int| 0 <= j < i ==> #[trigger] self.inner@[j].0@ != id@,
            decreases self.inner@.len() - i,
        {
            if self.inner[i].0 == *id {
                return Some(i);
            }
            i = i + 1;
        }
        proof {
            lemma_absent(self.inner@, id@);
        }
        None
    }

    /// The value under an id, if any.
    pub fn get(&self, id: &PageId) -> (r: Option<&V>)
        requires
            self.wf(),
        ensures
            match r {
                Some(v) => self@.contains_key(id@) && *v == self@[id@],
                None => !self@.contains_key(id@),
            },
    {
        match self.find(id) {
            Some(i) => {
                proof {
                    lemma_lookup(self.inner@, i as int);
                }
                Some(&self.inner[i].1)
            },
            None => None,
        }
    }

    /// Sets the value under an id, replacing any earlier one.
    pub fn put(&mut self, id: PageId, value: V)
        requires
            old(self).wf(),
        ensures
            final(self).wf(),
            final(self)@ == old(self)@.insert(id@, value),
    {
        match self.find(&id) {
            Some(i) => {
                proof {
                    lemma_update(self.inner@, i as int, (id, value));
                }
                self.inner.set(i, (id, value));
            },
            None => {
                proof {
                    assert forall|j: int| 0 <= j < self.inner@.len() implies #[trigger] self.inner@[j].0@ != id@ by {
                        if self.inner@[j].0@ == id@ {
                            lemma_lookup(self.inner@, j);
                        }
                    }
                    lemma_push_fresh(self.inner@, (id, value));
                }
                self.inner.push((id, value));
            },
        }
    }

    /// Removes the value under an id and returns it.
    pub fn take(&mut self, id: &PageId) -> (r: Option<V>)
        requires
            old(self).wf(),
        ensures
            final(self).wf(),
            final(self)@ == old(self)@.remove(id@),
            r == (if old(self)@.contains_key(id@) { Some(old(self)@[id@]) } else { None::<V> }),
    {
        match self.find(id) {
            Some(i) => {
                proof {
                    lemma_lookup(self.inner@, i as int);
                    lemma_remove(self.inner@, i as int);
                }
                let (_, v) = self.inner.remove(i);
                Some(v)
            },
            None => {
                assert(old(self)@.remove(id@) =~= old(self)@);
                None
            },
        }
    }

    /// The number of ids.
    pub fn len(&self) -> (r: usize)
        requires
            self.wf(),
        ensures
            r == self@.dom().len(),
    {
        proof {
            lemma_entries(self.inner@);
        }
        self.inner.len()
    }

    /// The map is what its entries give, in order.
    pub proof fn lemma_view_of_entries(&self)
        ensures
            self@ == id_entries_view(self.entries()),
    {
    }

    /// Adds a value under an id the map does not hold yet, and hands it out
    /// to be changed in place.
    pub fn insert_new(&mut self, id: PageId, value: V) -> (r: &mut V)
        requires
            old(self).wf(),
            !old(self)@.contains_key(id@),
        ensures
            *r == value,
            final(self).wf(),
            final(self)@ == old(self)@.insert(id@, *final(r)),
    {
        let ghost rest = self.inner@;
        proof {
            assert forall|j: int| 0 <= j < rest.len() implies #[trigger] rest[j].0@ != id@ by {
                if rest[j].0@ == id@ {
                    lemma_lookup(rest, j);
                }
            }
        }
        let ghost pushed = rest.push((id, value));
        proof {
            assert forall|t: (PageId, V)| #![trigger pushed.update(rest.len() as int, t)]
                t.0 == id ==> ids_unique(pushed.update(rest.len() as int, t)) && id_entries_view(
                    pushed.update(rest.len() as int, t),
                ) == id_entries_view(rest).insert(id@, t.1) by {
                if t.0 == id {
                    assert(pushed.update(rest.len() as int, t) =~= rest.push(t));
                    lemma_push_fresh(rest, t);
                }
            }
        }
        self.inner.push((id, value));
        let last = self.inner.last_mut().unwrap();
        &mut last.1
    }

    /// The entry at a position of the entry list.
    pub fn entry_at(&self, i: usize) -> (r: (&PageId, &V))
        requires
            i < self.entries().len(),
        ensures
            *r.0 == self.entries()[i as int].0,
            *r.1 == self.entries()[i as int].1,
    {
        (&self.inner[i].0, &self.inner[i].1)
    }

    /// The number of entries.
    pub fn entry_count(&self) -> (r: usize)
        ensures
            r == self.entries().len(),
    {
        self.inner.len()
    }
}

} // verus!
