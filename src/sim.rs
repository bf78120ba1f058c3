//! Exhaustive exploration of a game: every combination of interactions is
//! tried from a starting page, and what is reached is recorded per run.
use vstd::prelude::*;
use vstd::view::View as Model;

use crate::action::Action;
use crate::errors::{GameError, SimEnd, SimEndView};
use crate::game::{action_spec, top_of, Game, PageStack};
use crate::game_state::set_bit_spec;
use crate::idmap::IdMap;
use crate::interact::{flat_items, views_of, Interactable, InteractableView};
use crate::page::{PageHandle, PageId, Response};
use crate::tags::GameTags;
use crate::text::{chars_of, string_from};
use crate::view::View;

verus! {

/// The length of the text that `{:?}` gives for an outcome.
pub uninterp spec fn debug_len_of(e: SimEndView) -> nat;

/// Relies on the `Debug` formatting of [`SimEnd`] through `format!`: the
/// byte length of its text, which depends on the value alone.
#[verifier::external_body]
fn debug_len(e: &SimEnd) -> (r: usize)
    ensures
        r == debug_len_of(e@),
{
    format!("{:?}", e).len()
}

/// The part of a declared page id after its last `::`, or the whole id.
pub open spec fn basename(s: Seq<char>) -> Seq<char>
    decreases s.len(),
{
    if s.len() == 0 {
        s
    } else if s.len() >= 2 && s[s.len() - 2] == ':' && s[s.len() - 1] == ':' {
        Seq::empty()
    } else {
        basename(s.drop_last()).push(s.last())
    }
}

/// The part of a declared page id after its last `::`, or the whole id;
/// runs are named by it.
pub fn run_name(id: &str) -> (r: String)
    ensures
        r@ == basename(id@),
{
    let cs = chars_of(id);
    let mut i: usize = cs.len();
    assert(cs@.take(i as int) =~= cs@);
    assert(cs@.subrange(i as int, cs@.len() as int) =~= Seq::<char>::empty());
    while i > 0 && !(i >= 2 && cs[i - 2] == ':' && cs[i - 1] == ':')
        invariant
            i <= cs@.len(),
            basename(cs@) == basename(cs@.take(i as int)) + cs@.subrange(i as int, cs@.len() as int),
        decreases i,
    {
        let ghost t = cs@.take(i as int);
        assert(t.drop_last() =~= cs@.take(i - 1));
        assert(t.last() == cs@[i - 1]);
        assert(cs@.subrange(i - 1, cs@.len() as int) =~= seq![cs@[i - 1]] + cs@.subrange(i as int, cs@.len() as int));
        i = i - 1;
    }
    assert(basename(cs@.take(i as int)) =~= Seq::<char>::empty());
    let mut tail: Vec<char> = Vec::new();
    let mut j: usize = i;
    while j < cs.len()
        invariant
            i <= j <= cs@.len(),
            tail@ == cs@.subrange(i as int, j as int),
        decreases cs@.len() - j,
    {
        tail.push(cs[j]);
        j = j + 1;
        assert(tail@ =~= cs@.subrange(i as int, j as int));
    }
    string_from(&tail)
}

/// What a record holds, as sets.
pub struct RecordView {
    pub id: Seq<char>,
    pub ends: Set<SimEndView>,
    pub tags: Set<Seq<char>>,
    pub incoming: Set<Seq<char>>,
    pub min_depth: usize,
}

/// What the simulation learned of one page: the outcomes reached from it,
/// the tags seen on it, the pages it was reached from, and the smallest
/// depth at which it was reached.
#[derive(Debug, Clone)]
pub struct PageRecord {
    pub id: PageId,
    pub ends: Vec<SimEnd>,
    pub tags: GameTags,
    pub incoming: GameTags,
    pub min_depth: usize,
    pub outgoing_tunnels: GameTags,
}

impl Model for PageRecord {
    type V = RecordView;

    open spec fn view(&self) -> RecordView {
        RecordView {
            id: self.id@,
            ends: self.ends@.map_values(|e: SimEnd| e@).to_set(),
            tags: self.tags@,
            incoming: self.incoming@,
            min_depth: self.min_depth,
        }
    }
}

/// A record of `id` with nothing in it yet.
pub open spec fn fresh_record(id: Seq<char>) -> RecordView {
    RecordView { id, ends: Set::empty(), tags: Set::empty(), incoming: Set::empty(), min_depth: usize::MAX }
}

/// A record after one more visit: from `prev` (if any), at `depth`, with
/// the view's `tags`.
pub open spec fn visit(r: RecordView, tags: Set<Seq<char>>, prev: Option<Seq<char>>, depth: usize) -> RecordView {
    RecordView {
        tags: r.tags.union(tags),
        incoming: match prev {
            Some(p) => r.incoming.insert(p),
            None => r.incoming,
        },
        min_depth: if depth < r.min_depth { depth } else { r.min_depth },
        ..r
    }
}

impl PageRecord {
    pub open spec fn wf(&self) -> bool {
        self.tags.wf() && self.incoming.wf() && self.outgoing_tunnels.wf()
    }

    pub fn new(id: PageId) -> (r: PageRecord)
        ensures
            r.wf(),
            r@ == fresh_record(id@),
            r.outgoing_tunnels@ == Set::<Seq<char>>::empty(),
    {
        let r = PageRecord {
            id,
            ends: Vec::new(),
            tags: GameTags::new(),
            incoming: GameTags::new(),
            min_depth: usize::MAX,
            outgoing_tunnels: GameTags::new(),
        };
        assert(r.ends@.map_values(|e: SimEnd| e@) =~= Seq::<SimEndView>::empty());
        assert(r@.ends =~= Set::<SimEndView>::empty());
        r
    }

    /// The record without its incoming edges, and those edges.
    pub fn split(self) -> (r: (PageRecord, GameTags))
        requires
            self.wf(),
        ensures
            r.0.wf(),
            r.0@ == (RecordView { incoming: Set::empty(), ..self@ }),
            r.1.wf(),
            r.1@ == self@.incoming,
            r.0.outgoing_tunnels == self.outgoing_tunnels,
    {
        let PageRecord { id, ends, tags, incoming, min_depth, outgoing_tunnels } = self;
        let rec = PageRecord { id, ends, tags, incoming: GameTags::new(), min_depth, outgoing_tunnels };
        (rec, incoming)
    }

    /// Neither outcomes nor tags were recorded.
    pub fn is_empty(&self) -> (r: bool)
        requires
            self.wf(),
        ensures
            r == (self@.ends.is_empty() && self@.tags.is_empty()),
    {
        let r = self.ends.len() == 0 && self.tags.is_empty();
        proof {
            if self.ends@.len() > 0 {
                assert(self@.ends.contains(self.ends@[0]@)) by {
                    assert(self.ends@.map_values(|e: SimEnd| e@)[0] == self.ends@[0]@);
                }
            } else {
                assert(self.ends@.map_values(|e: SimEnd| e@) =~= Seq::<SimEndView>::empty());
                assert(self@.ends =~= Set::<SimEndView>::empty());
            }
        }
        r
    }

    /// Adds an outcome, unless it is there already.
    pub fn add_end(&mut self, e: SimEnd)
        ensures
            final(self)@ == (RecordView { ends: old(self)@.ends.insert(e@), ..old(self)@ }),
            final(self).tags == old(self).tags,
            final(self).incoming == old(self).incoming,
            final(self).outgoing_tunnels == old(self).outgoing_tunnels,
    {
        let mut i: usize = 0;
        while i < self.ends.len()
            invariant
                i <= self.ends@.len(),
                forall|j: int| 0 <= j < i ==> #[trigger] self.ends@[j]@ != e@,
            decreases self.ends@.len() - i,
        {
            if self.ends[i] == e {
                proof {
                    assert(self.ends@.map_values(|x: SimEnd| x@)[i as int] == e@);
                    assert(old(self)@.ends.insert(e@) =~= old(self)@.ends);
                }
                return;
            }
            i = i + 1;
        }
        let ghost before = self.ends@;
        let ghost ev = e@;
        self.ends.push(e);
        proof {
            let a = before.map_values(|x: SimEnd| x@);
            let b = self.ends@.map_values(|x: SimEnd| x@);
            assert(b =~= a.push(ev));
            assert forall|x: SimEndView| b.to_set().contains(x) <==> a.to_set().insert(ev).contains(x) by {
                if b.to_set().contains(x) {
                    let j = choose|j: int| 0 <= j < b.len() && #[trigger] b[j] == x;
                    if j < a.len() {
                        assert(a[j] == x);
                    }
                }
                if a.to_set().contains(x) {
                    let j = choose|j: int| 0 <= j < a.len() && #[trigger] a[j] == x;
                    assert(b[j] == x);
                }
                if x == ev {
                    assert(b[a.len() as int] == x);
                }
            }
            assert(self@.ends =~= old(self)@.ends.insert(ev));
        }
    }

    /// The widest label of the record: its outcomes' debug texts and its
    /// tags, and at least 6.
    pub fn compute_display_width(&self) -> (r: usize)
        ensures
            r == display_width(
                self.ends@.map_values(|e: SimEnd| debug_len_of(e@) as int),
                self.tags.items().map_values(|t: Seq<char>| utf8_len(t) as int),
            ),
    {
        let mut ends: Vec<usize> = Vec::new();
        let mut i: usize = 0;
        while i < self.ends.len()
            invariant
                i <= self.ends@.len(),
                ends@.len() == i,
                forall|j: int| 0 <= j < i ==> #[trigger] ends@[j] == debug_len_of(self.ends@[j]@),
            decreases self.ends@.len() - i,
        {
            ends.push(debug_len(&self.ends[i]));
            i = i + 1;
        }
        let tags = self.tags.to_vec();
        let mut widths: Vec<usize> = Vec::new();
        let mut k: usize = 0;
        while k < tags.len()
            invariant
                k <= tags@.len(),
                widths@.len() == k,
                tags@.map_values(|t: PageId| t@) == self.tags.items(),
                forall|j: int| 0 <= j < k ==> #[trigger] widths@[j] == utf8_len(tags@[j]@),
            decreases tags@.len() - k,
        {
            widths.push(tags[k].as_str().len());
            k = k + 1;
        }
        proof {
            assert(ends@.map_values(|w: usize| w as int) =~= self.ends@.map_values(|e: SimEnd| debug_len_of(e@) as int));
            assert forall|j: int| 0 <= j < widths@.len() implies self.tags.items()[j] == tags@[j]@ by {
                assert(tags@.map_values(|t: PageId| t@)[j] == tags@[j]@);
            }
            assert(widths@.map_values(|w: usize| w as int) =~= self.tags.items().map_values(|t: Seq<char>| utf8_len(t) as int));
        }
        widest(&ends, &widths)
    }
}

/// The largest of 6 and the given widths.
pub open spec fn display_width(a: Seq<int>, b: Seq<int>) -> int {
    seq_max(a + b, 6)
}

/// The largest of `floor` and the values of `s`.
pub open spec fn seq_max(s: Seq<int>, floor: int) -> int
    decreases s.len(),
{
    if s.len() == 0 {
        floor
    } else {
        let m = seq_max(s.drop_last(), floor);
        if s.last() > m {
            s.last()
        } else {
            m
        }
    }
}

/// The largest of 6 and the widths in `a` and `b`.
pub fn widest(a: &Vec<usize>, b: &Vec<usize>) -> (r: usize)
    ensures
        r == display_width(a@.map_values(|w: usize| w as int), b@.map_values(|w: usize| w as int)),
{
    let ghost all = a@.map_values(|w: usize| w as int) + b@.map_values(|w: usize| w as int);
    let mut max: usize = 6;
    let mut i: usize = 0;
    while i < a.len()
        invariant
            i <= a@.len(),
            all == a@.map_values(|w: usize| w as int) + b@.map_values(|w: usize| w as int),
            max == seq_max(all.take(i as int), 6),
        decreases a@.len() - i,
    {
        assert(all.take(i + 1).drop_last() =~= all.take(i as int));
        assert(all.take(i + 1).last() == a@[i as int] as int);
        if a[i] > max {
            max = a[i];
        }
        i = i + 1;
    }
    let mut k: usize = 0;
    while k < b.len()
        invariant
            k <= b@.len(),
            i == a@.len(),
            all == a@.map_values(|w: usize| w as int) + b@.map_values(|w: usize| w as int),
            max == seq_max(all.take(i + k), 6),
        decreases b@.len() - k,
    {
        assert(all.take(i + k + 1).drop_last() =~= all.take(i + k));
        assert(all.take(i + k + 1).last() == b@[k as int] as int);
        if b[k] > max {
            max = b[k];
        }
        k = k + 1;
    }
    assert(all.take(i + k) =~= all);
    max
}

/// The number of bytes of the UTF-8 encoding of a text, as `str::len`
/// gives it.
pub open spec fn utf8_len(t: Seq<char>) -> usize {
    vstd::utf8::encode_utf8(t).len() as usize
}

} // verus!

verus! {

/// A record is filed under its id.
impl iddqd::IdHashItem for PageRecord {
    type Key<'a> = &'a PageId;

    fn key(&self) -> Self::Key<'_> {
        &self.id
    }

    fn upcast_key<'short, 'long: 'short>(long: Self::Key<'long>) -> Self::Key<'short>
        where
            Self: 'long,
    {
        long
    }
}

/// The records of one run, keyed by resolved page id.
#[verifier::external_body]
#[derive(Debug)]
pub struct PageRecords {
    inner: iddqd::IdHashMap<PageRecord>,
}

impl Clone for PageRecords {
    /// Relies on `Clone` for `iddqd::IdHashMap`: a copy of the map.
    #[verifier::external_body]
    fn clone(&self) -> Self {
        PageRecords { inner: self.inner.clone() }
    }
}

/// The records a collection holds, each under its key.
pub uninterp spec fn records_of(r: PageRecords) -> Map<Seq<char>, PageRecord>;

/// The record of `id` in `m`, or a fresh one.
pub open spec fn record_or_fresh(m: Map<Seq<char>, RecordView>, id: Seq<char>) -> RecordView {
    if m.contains_key(id) {
        m[id]
    } else {
        fresh_record(id)
    }
}

/// The records after a visit of page `id` from `prev` at `depth`, with the
/// view's `tags`.
pub open spec fn visit_spec(
    m: Map<Seq<char>, RecordView>,
    id: Seq<char>,
    tags: Set<Seq<char>>,
    prev: Option<Seq<char>>,
    depth: usize,
) -> Map<Seq<char>, RecordView> {
    m.insert(id, visit(record_or_fresh(m, id), tags, prev, depth))
}

/// The records after the outcome `e` was reached from page `id`: nothing
/// changes unless `id` has a record.
pub open spec fn end_spec(m: Map<Seq<char>, RecordView>, id: Seq<char>, e: SimEndView) -> Map<
    Seq<char>,
    RecordView,
> {
    if m.contains_key(id) {
        m.insert(id, RecordView { ends: m[id].ends.insert(e), ..m[id] })
    } else {
        m
    }
}

/// The ids of a list of page ids, as a set.
pub open spec fn id_set(v: Seq<PageId>) -> Set<Seq<char>> {
    v.map_values(|t: PageId| t@).to_set()
}

/// The id of a page, if any, as a sequence of characters.
pub open spec fn opt_id(o: Option<PageId>) -> Option<Seq<char>> {
    match o {
        Some(p) => Some(p@),
        None => None,
    }
}

impl Model for PageRecords {
    type V = Map<Seq<char>, RecordView>;

    open spec fn view(&self) -> Map<Seq<char>, RecordView> {
        records_of(*self).map_values(|r: PageRecord| r@)
    }
}

impl PageRecords {
    /// Relies on `iddqd::IdHashMap::new`: an empty map.
    #[verifier::external_body]
    fn empty_map() -> (r: PageRecords)
        ensures
            records_of(r).is_empty(),
    {
        PageRecords { inner: iddqd::IdHashMap::new() }
    }

    /// Relies on `iddqd::IdHashMap::get`: the item whose key is `id`, if any.
    #[verifier::external_body]
    fn get_record<'a>(&'a self, id: &PageId) -> (r: Option<&'a PageRecord>)
        ensures
            match r {
                Some(x) => records_of(*self).contains_key(id@) && *x == records_of(*self)[id@],
                None => !records_of(*self).contains_key(id@),
            },
    {
        self.inner.get(id)
    }

    /// Relies on `iddqd::IdHashMap::remove`: the item whose key is `id` leaves
    /// the map and is returned.
    #[verifier::external_body]
    fn take_record(&mut self, id: &PageId) -> (r: Option<PageRecord>)
        ensures
            records_of(*final(self)) == records_of(*old(self)).remove(id@),
            r == (if records_of(*old(self)).contains_key(id@) {
                Some(records_of(*old(self))[id@])
            } else {
                None::<PageRecord>
            }),
    {
        self.inner.remove(id)
    }

    /// Relies on `iddqd::IdHashMap::insert_overwrite`: the record is filed
    /// under its id, replacing any record with the same id.
    #[verifier::external_body]
    fn put_record(&mut self, record: PageRecord)
        ensures
            records_of(*final(self)) == records_of(*old(self)).insert(record.id@, record),
    {
        self.inner.insert_overwrite(record);
    }

    /// Relies on `iddqd::IdHashMap::len`: the number of items.
    #[verifier::external_body]
    fn count(&self) -> (r: usize)
        ensures
            r == records_of(*self).len(),
    {
        self.inner.len()
    }

    /// Relies on `iddqd::IdHashMap::iter`, which yields every item once in
    /// some order: the minimum depth of each record.
    #[verifier::external_body]
    fn min_depths(&self) -> (r: Vec<usize>)
        ensures
            forall|i: int|
                0 <= i < r@.len() ==> exists|k: Seq<char>|
                    #[trigger] records_of(*self).contains_key(k) && records_of(*self)[k].min_depth == #[trigger] r@[i],
            forall|k: Seq<char>|
                #[trigger] records_of(*self).contains_key(k) ==> exists|i: int|
                    0 <= i < r@.len() && r@[i] == records_of(*self)[k].min_depth,
    {
        self.inner.iter().map(|r| r.min_depth).collect()
    }

    /// Each record is well formed and filed under its own id.
    pub open spec fn wf(&self) -> bool {
        forall|k: Seq<char>| #[trigger] records_of(*self).contains_key(k) ==> records_of(*self)[k].wf() && records_of(*self)[k].id@ == k
    }

    pub fn new() -> (r: PageRecords)
        ensures
            r.wf(),
            r@ == Map::<Seq<char>, RecordView>::empty(),
    {
        let r = PageRecords::empty_map();
        assert(r@ =~= Map::<Seq<char>, RecordView>::empty());
        r
    }

    /// The record of a page, if it has one.
    pub fn get(&self, id: &PageId) -> (r: Option<&PageRecord>)
        ensures
            match r {
                Some(x) => records_of(*self).contains_key(id@) && *x == records_of(*self)[id@] && self@[id@] == x@,
                None => !self@.contains_key(id@),
            },
    {
        self.get_record(id)
    }

    /// The number of records.
    pub fn len(&self) -> (r: usize)
        ensures
            r == records_of(*self).len(),
    {
        self.count()
    }

    /// Merges a visit of the view's page into its record: the view's tags
    /// are moved into the record, the state's previous page becomes an
    /// incoming edge, and the smaller depth is kept.
    pub fn insert_view<C, P>(&mut self, s: &SimulationState<C, P>, v: &mut View<P>)
        requires
            old(self).wf(),
        ensures
            final(self).wf(),
            final(self)@ == visit_spec(old(self)@, old(v).pageid@, id_set(old(v).tags@), opt_id(s.last), s.depth),
            final(v).tags@.len() == 0,
            final(v).pageid == old(v).pageid,
            final(v).inner == old(v).inner,
    {
        let pageid = v.pageid.clone();
        let mut record = match self.take_record(&pageid) {
            Some(r) => r,
            None => PageRecord::new(pageid.clone()),
        };
        let ghost start = record@;
        let ghost all_tags = id_set(v.tags@);
        proof {
            assert(record.wf());
            assert(start == record_or_fresh(old(self)@, pageid@));
        }
        while v.tags.len() > 0
            invariant
                record.wf(),
                record.tags@.union(id_set(v.tags@)) == start.tags.union(all_tags),
                record@ == (RecordView { tags: record@.tags, ..start }),
                v.pageid == old(v).pageid,
                v.inner == old(v).inner,
            decreases v.tags@.len(),
        {
            let ghost before = v.tags@;
            let ghost before_tags = record.tags@;
            let t = v.tags.pop().unwrap();
            let ghost tv = t@;
            record.tags.insert(t);
            proof {
                let names_before = before.map_values(|x: PageId| x@);
                let names_after = v.tags@.map_values(|x: PageId| x@);
                assert(names_before =~= names_after.push(tv));
                assert forall|x: Seq<char>| record.tags@.union(id_set(v.tags@)).contains(x) <==> before_tags.union(id_set(before)).contains(x) by {
                    if names_after.to_set().contains(x) {
                        let j = choose|j: int| 0 <= j < names_after.len() && #[trigger] names_after[j] == x;
                        assert(names_before[j] == x);
                    }
                    if names_before.to_set().contains(x) && x != tv {
                        let j = choose|j: int| 0 <= j < names_before.len() && #[trigger] names_before[j] == x;
                        assert(j < names_after.len());
                        assert(names_after[j] == x);
                    }
                    if x == tv {
                        assert(names_before[names_after.len() as int] == x);
                    }
                }
                assert(record.tags@.union(id_set(v.tags@)) =~= before_tags.union(id_set(before)));
            }
        }
        proof {
            assert(v.tags@.map_values(|x: PageId| x@) =~= Seq::<Seq<char>>::empty());
            assert(record.tags@ =~= record.tags@.union(id_set(v.tags@)));
        }
        match &s.last {
            Some(prev) => {
                record.incoming.insert(prev.clone());
            },
            None => {},
        }
        if s.depth < record.min_depth {
            record.min_depth = s.depth;
        }
        let ghost done = record@;
        assert(record.id@ == pageid@);
        self.put_record(record);
        proof {
            assert(done == visit(start, all_tags, opt_id(s.last), s.depth));
            assert(self@ =~= visit_spec(old(self)@, old(v).pageid@, all_tags, opt_id(s.last), s.depth));
            assert forall|k: Seq<char>| #[trigger] records_of(*self).contains_key(k) implies records_of(*self)[k].wf()
                && records_of(*self)[k].id@ == k by {
                if k != pageid@ {
                    assert(records_of(*old(self)).contains_key(k));
                }
            }
        }
    }

    /// Records that the outcome `e` was reached from page `pageid`, if the
    /// page has a record.
    pub fn push_sim_end(&mut self, pageid: &PageId, e: SimEnd)
        requires
            old(self).wf(),
        ensures
            final(self).wf(),
            final(self)@ == end_spec(old(self)@, pageid@, e@),
    {
        match self.take_record(pageid) {
            Some(mut record) => {
                let ghost ev = e@;
                assert(records_of(*old(self)).contains_key(pageid@));
                record.add_end(e);
                let ghost done = record@;
                self.put_record(record);
                proof {
                    assert(self@ =~= end_spec(old(self)@, pageid@, ev));
                    assert forall|k: Seq<char>| #[trigger] records_of(*self).contains_key(k) implies records_of(*self)[k].wf()
                        && records_of(*self)[k].id@ == k by {
                        if k != pageid@ {
                            assert(records_of(*old(self)).contains_key(k));
                        }
                    }
                }
            },
            None => {
                assert(records_of(*old(self)) =~= records_of(*self));
                assert(old(self)@ =~= self@);
            },
        }
    }

    /// The largest minimum depth over all records; 0 when there is none.
    pub fn depth(&self) -> (r: usize)
        requires
            self.wf(),
        ensures
            forall|k: Seq<char>| #[trigger] self@.contains_key(k) ==> self@[k].min_depth <= r,
            self@.dom().is_empty() ==> r == 0,
            !self@.dom().is_empty() ==> exists|k: Seq<char>| #[trigger] self@.contains_key(k) && self@[k].min_depth == r,
    {
        let depths = self.min_depths();
        let mut best: usize = 0;
        let mut i: usize = 0;
        while i < depths.len()
            invariant
                i <= depths@.len(),
                forall|j: int| 0 <= j < i ==> #[trigger] depths@[j] <= best,
                i > 0 ==> exists|j: int| 0 <= j < i && #[trigger] depths@[j] == best,
                i == 0 ==> best == 0,
            decreases depths@.len() - i,
        {
            if i == 0 || depths[i] > best {
                best = depths[i];
            }
            i = i + 1;
        }
        proof {
            assert forall|k: Seq<char>| #[trigger] self@.contains_key(k) implies self@[k].min_depth <= best by {
                assert(records_of(*self).contains_key(k));
                let j = choose|j: int| 0 <= j < depths@.len() && depths@[j] == records_of(*self)[k].min_depth;
                assert(depths@[j] <= best);
            }
            if !self@.dom().is_empty() {
                let k0 = self@.dom().choose();
                assert(records_of(*self).contains_key(k0));
                let j0 = choose|j: int| 0 <= j < depths@.len() && depths@[j] == records_of(*self)[k0].min_depth;
                assert(depths@.len() > 0);
                let j = choose|j: int| 0 <= j < depths@.len() && #[trigger] depths@[j] == best;
                let k = choose|k: Seq<char>| #[trigger] records_of(*self).contains_key(k) && records_of(*self)[k].min_depth == depths@[j];
                assert(self@.contains_key(k));
            } else {
                if depths@.len() > 0 {
                    let k = choose|k: Seq<char>| #[trigger] records_of(*self).contains_key(k) && records_of(*self)[k].min_depth == depths@[0];
                    assert(self@.dom().contains(k));
                }
            }
        }
        best
    }
}

/// The result of a simulation: the records of each run, keyed by run name.
/// Runs start at the game's start and at every tunnel entrance.
#[derive(Debug, Clone)]
pub struct Simulation {
    pub runs: IdMap<PageRecords>,
}

impl Simulation {
    pub fn new() -> (r: Simulation)
        ensures
            r.runs.wf(),
            r.runs@ == Map::<Seq<char>, PageRecords>::empty(),
    {
        Simulation { runs: IdMap::new() }
    }
}

/// One branch of a simulation: a copy of the game, the number of
/// interactions since the run's start, and the page the branch came from.
#[derive(Debug, Clone)]
pub struct SimulationState<C, P> {
    pub game: Game<C, P>,
    pub depth: usize,
    pub last: Option<PageId>,
}

impl<C, P: Copy> SimulationState<C, P> {
    pub fn new(game: Game<C, P>) -> (r: SimulationState<C, P>)
        ensures
            r.game == game,
            r.depth == 0,
            r.last is None,
    {
        SimulationState { game, depth: 0, last: None }
    }

    /// The next branch: a copy one interaction deeper, coming from
    /// `curr_id`.
    pub fn next(&self, curr_id: PageId) -> (r: SimulationState<C, P>)
        where
            C: Clone,
        requires
            self.game.wf(),
            self.depth < usize::MAX,
        ensures
            r.game.wf(),
            r.game.inner.state@ == self.game.inner.state@,
            r.game.inner.pages@ == self.game.inner.pages@,
            r.game.tags@ == self.game.tags@,
            r.game.simulating == self.game.simulating,
            r.game.inner.fresh == self.game.inner.fresh,
            r.game.inner.iterations == self.game.inner.iterations,
            r.depth == self.depth + 1,
            r.last == Some(curr_id),
    {
        SimulationState { game: self.game.fork(), depth: self.depth + 1, last: Some(curr_id) }
    }
}

} // verus!

verus! {

impl<C, P: Copy> Game<C, P> {
    /// Applies an interactable during simulation. A tunnel entrance does not
    /// enter the tunnel: the game is reset to a history holding only the
    /// tunnel's first page, as a placeholder, and the branch ends with the
    /// tunnel named after that page; an exit ends the branch; everything
    /// else is applied as in play.
    pub fn interact_sim(&mut self, e: Interactable<'_, P>, pageid: &PageId) -> (r: Result<(), SimEnd>)
        requires
            old(self).wf(),
            e.applicable(),
        ensures
            final(self).wf(),
            final(self).tags == old(self).tags,
            final(self).simulating == old(self).simulating,
            final(self).inner.fresh == old(self).inner.fresh,
            final(self).inner.iterations == old(self).inner.iterations,
            final(self).context == old(self).context,
            sim_applied(old(self), e@, pageid@, final(self), r),
    {
        match e {
            Interactable::Choice(key, _, index) => {
                self.inner.handle_choice((pageid.clone(), *key), index);
                Ok(())
            },
            Interactable::Span(_, s) => {
                let action = s.action.as_ref().unwrap();
                match action {
                    Action::Tunnel(next) => {
                        let fork_name = run_name(next.id.as_str());
                        let next = PageHandle { widget: next.widget, id: String::new() };
                        self.inner.pages = PageStack::new_with_page(next);
                        Err(SimEnd::Tunnel(fork_name))
                    },
                    Action::Exit => Err(SimEnd::TunnelExit),
                    _ => match self.inner.handle_action(action.copied()) {
                        Ok(()) => Ok(()),
                        Err(err) => Err(SimEnd::GameError(err)),
                    },
                }
            },
        }
    }
}

/// What applying the interactable `e` during simulation does to `before`,
/// yielding `after` and `r`.
pub open spec fn sim_applied<C, P>(
    before: &Game<C, P>,
    e: InteractableView<P>,
    pageid: Seq<char>,
    after: &Game<C, P>,
    r: Result<(), SimEnd>,
) -> bool {
    match e {
        InteractableView::Choice(key, index) => r is Ok && after.inner.pages@ == before.inner.pages@
            && after.inner.state@ == set_bit_spec(before.inner.state@, (pageid, key), index),
        InteractableView::Span(_, s) => match s.action.unwrap() {
            Action::Tunnel(next) => {
                &&& r matches Err(SimEnd::Tunnel(name)) && name@ == basename(next.id@)
                &&& after.inner.state@ == before.inner.state@
                &&& after.inner.pages@.len() == 1
                &&& after.inner.pages@[0].len() == 1
                &&& after.inner.pages@[0][0].widget == next.widget
                &&& after.inner.pages@[0][0].id@.len() == 0
            },
            Action::Exit => r == Err::<(), SimEnd>(SimEnd::TunnelExit) && after.inner.state@ == before.inner.state@
                && after.inner.pages@ == before.inner.pages@,
            a => match r {
                Ok(()) => action_spec(before.inner.state@, before.inner.pages@, a, after.inner.state@, after.inner.pages@, Ok(())),
                Err(SimEnd::GameError(g)) => action_spec(
                    before.inner.state@,
                    before.inner.pages@,
                    a,
                    after.inner.state@,
                    after.inner.pages@,
                    Err(g),
                ),
                _ => false,
            },
        },
    }
}

} // verus!

verus! {

/// The simulator's decisions, step by step. A driver invokes pages and the
/// visitor; everything else happens here.
///
/// Each run explores its branches from a work stack (the last queued branch
/// is explored first); runs wait on a second stack, seeded with the game's
/// start and grown by every tunnel entrance reached.
pub struct Simulator<C, P> {
    ret: Simulation,
    tunnels: Vec<(String, Game<C, P>)>,
    seen: Vec<(Option<PageId>, String)>,
    queue: Vec<SimulationState<C, P>>,
    run: String,
    records: PageRecords,
    active: bool,
    started: Ghost<nat>,
}

/// The outcome a branch ended with while its page was being resolved, or
/// the view it produced.
pub enum SimStep<P> {
    Continue(PageHandle<P>),
    Viewed(View<P>),
    Ended(SimEnd),
}

impl<C, P: Copy> Simulator<C, P> {
    pub closed spec fn spec_queue(&self) -> Seq<SimulationState<C, P>> {
        self.queue@
    }

    pub closed spec fn spec_tunnels(&self) -> Seq<(String, Game<C, P>)> {
        self.tunnels@
    }

    pub closed spec fn spec_records(&self) -> Map<Seq<char>, RecordView> {
        self.records@
    }

    pub closed spec fn spec_seen(&self) -> Seq<(Option<Seq<char>>, Seq<char>)> {
        seen_view(self.seen@)
    }

    pub closed spec fn records_value(&self) -> PageRecords {
        self.records
    }

    /// A run is being explored.
    pub closed spec fn spec_active(&self) -> bool {
        self.active
    }

    pub closed spec fn spec_run(&self) -> Seq<char> {
        self.run@
    }

    pub closed spec fn spec_result(&self) -> Simulation {
        self.ret
    }

    pub closed spec fn wf(&self) -> bool {
        &&& self.ret.runs.wf()
        &&& forall|k: Seq<char>| #[trigger] self.ret.runs@.contains_key(k) ==> self.ret.runs@[k].wf()
        &&& self.records.wf()
        &&& forall|i: int| 0 <= i < self.queue@.len() ==> (#[trigger] self.queue@[i]).game.wf()
        &&& forall|i: int| 0 <= i < self.tunnels@.len() ==> (#[trigger] self.tunnels@[i]).1.wf()
        &&& self.spec_seen().no_duplicates()
        &&& self.started@ + self.tunnels@.len() == self.seen@.len() + 1
    }

    /// The number of runs started so far.
    pub closed spec fn spec_started(&self) -> nat {
        self.started@
    }

    /// Runs come from the game's start and from tunnel entrances (a page
    /// together with the tunnel entered from it), each entrance counted once:
    /// the runs started and those waiting are exactly one more than the
    /// distinct entrances seen. A story with finitely many reachable tunnel
    /// entrances therefore has finitely many runs.
    pub proof fn lemma_runs_bounded(&self)
        requires
            self.wf(),
        ensures
            self.spec_seen().no_duplicates(),
            self.spec_started() + self.spec_tunnels().len() == self.spec_seen().len() + 1,
    {
    }

    /// A simulator that starts at the game's current page, in a run named
    /// after that page's declared id.
    pub fn new(game: &Game<C, P>) -> (r: Simulator<C, P>)
        where
            C: Clone,
        requires
            game.wf(),
            top_of(game.inner.pages@) is Some,
        ensures
            r.wf(),
            r.spec_queue().len() == 0,
            r.spec_records() == Map::<Seq<char>, RecordView>::empty(),
            r.spec_result().runs@ == Map::<Seq<char>, PageRecords>::empty(),
            !r.spec_active(),
            r.spec_tunnels().len() == 1,
            r.spec_tunnels()[0].0@ == basename(top_of(game.inner.pages@).unwrap().id@),
            r.spec_tunnels()[0].1.inner.state@ == game.inner.state@,
            r.spec_tunnels()[0].1.inner.pages@ == game.inner.pages@,
            r.spec_tunnels()[0].1.tags@ == game.tags@,
            r.spec_tunnels()[0].1.simulating,
    {
        let top = game.inner.pages.current().unwrap();
        let name = run_name(top.id.as_str());
        let mut start = game.fork();
        start.simulating = true;
        let mut tunnels: Vec<(String, Game<C, P>)> = Vec::new();
        tunnels.push((name, start));
        Simulator {
            ret: Simulation::new(),
            tunnels,
            seen: Vec::new(),
            queue: Vec::new(),
            run: String::new(),
            records: PageRecords::new(),
            active: false,
            started: Ghost(0),
        }
    }

    /// The next branch to explore: the last queued branch of the current
    /// run; when the run has none left, its records are filed under its name
    /// and the next run starts from the last waiting tunnel entrance, taking
    /// up the records already filed under that name. `None` once no run is
    /// left.
    pub fn next_state(&mut self) -> (r: Option<SimulationState<C, P>>)
        requires
            old(self).wf(),
        ensures
            final(self).wf(),
            old(self).spec_queue().len() > 0 ==> {
                &&& r == Some(old(self).spec_queue().last())
                &&& final(self).spec_queue() == old(self).spec_queue().drop_last()
                &&& final(self).spec_tunnels() == old(self).spec_tunnels()
                &&& final(self).spec_records() == old(self).spec_records()
                &&& final(self).spec_run() == old(self).spec_run()
            },
            old(self).spec_queue().len() == 0 ==> {
                let filed = if old(self).spec_active() {
                    old(self).spec_result().runs@.insert(old(self).spec_run(), old(self).records_value())
                } else {
                    old(self).spec_result().runs@
                };
                &&& final(self).spec_queue().len() == 0
                &&& old(self).spec_tunnels().len() == 0 ==> r is None && final(self).spec_result().runs@ == filed
                    && !final(self).spec_active()
                &&& old(self).spec_tunnels().len() > 0 ==> {
                    let (name, game) = old(self).spec_tunnels().last();
                    &&& final(self).spec_tunnels() == old(self).spec_tunnels().drop_last()
                    &&& final(self).spec_run() == name@
                    &&& final(self).spec_active()
                    &&& final(self).spec_result().runs@ == filed.remove(name@)
                    &&& final(self).spec_records() == if filed.contains_key(name@) { filed[name@]@ } else { Map::empty() }
                    &&& r matches Some(st) && st.game == game && st.depth == 0 && st.last is None
                }
            },
    {
        match self.queue.pop() {
            Some(s) => {
                proof {
                    assert(self.queue@ == old(self).queue@.drop_last());
                    assert forall|i: int| 0 <= i < self.queue@.len() implies (#[trigger] self.queue@[i]).game.wf() by {
                        assert(self.queue@[i] == old(self).queue@[i]);
                    }
                }
                return Some(s);
            },
            None => {},
        }
        if self.active {
            let mut finished = PageRecords::new();
            std::mem::swap(&mut finished, &mut self.records);
            let current = self.run.clone();
            self.ret.runs.put(current, finished);
            self.active = false;
            proof {
                assert forall|k: Seq<char>| #[trigger] self.ret.runs@.contains_key(k) implies self.ret.runs@[k].wf() by {
                    if k != old(self).run@ {
                        assert(old(self).ret.runs@.contains_key(k));
                    }
                }
            }
        }
        match self.tunnels.pop() {
            None => None,
            Some((name, game)) => {
                proof {
                    assert(old(self).tunnels@.last() == (name, game));
                    assert(old(self).tunnels@[old(self).tunnels@.len() - 1].1.wf());
                }
                let ghost filed = self.ret.runs@;
                self.records = match self.ret.runs.take(&name) {
                    Some(r) => r,
                    None => PageRecords::new(),
                };
                proof {
                    assert forall|k: Seq<char>| #[trigger] self.ret.runs@.contains_key(k) implies self.ret.runs@[k].wf() by {
                        assert(filed.contains_key(k));
                    }
                    assert forall|i: int| 0 <= i < self.tunnels@.len() implies (#[trigger] self.tunnels@[i]).1.wf() by {
                        assert(self.tunnels@[i] == old(self).tunnels@[i]);
                    }
                }
                self.run = name;
                self.active = true;
                self.started = Ghost(self.started@ + 1);
                Some(SimulationState::new(game))
            },
        }
    }
}


/// The view of a list of tunnel entrances.
pub open spec fn seen_view(v: Seq<(Option<PageId>, String)>) -> Seq<(Option<Seq<char>>, Seq<char>)> {
    v.map_values(|e: (Option<PageId>, String)| (opt_id(e.0), e.1@))
}

fn seen_contains(seen: &Vec<(Option<PageId>, String)>, location: &Option<PageId>, name: &String) -> (r: bool)
    ensures
        r == seen_view(seen@).contains((opt_id(*location), name@)),
{
    let mut i: usize = 0;
    while i < seen.len()
        invariant
            i <= seen@.len(),
            forall|j: int| 0 <= j < i ==> #[trigger] seen_view(seen@)[j] != (opt_id(*location), name@),
        decreases seen@.len() - i,
    {
        let entry = &seen[i];
        assert(seen_view(seen@)[i as int] == (opt_id(entry.0), entry.1@));
        let same_place = match &entry.0 {
            Some(a) => match location {
                Some(b) => *a == *b,
                None => false,
            },
            None => location.is_none(),
        };
        assert(same_place == (opt_id(entry.0) == opt_id(*location)));
        if same_place && entry.1 == *name {
            assert(seen_view(seen@)[i as int].0 == opt_id(*location));
            assert(seen_view(seen@)[i as int].1 == name@);
            assert(seen_view(seen@)[i as int] == (opt_id(*location), name@));
            return true;
        }
        assert(seen_view(seen@)[i as int].0 != opt_id(*location) || seen_view(seen@)[i as int].1 != name@);
        i = i + 1;
    }
    proof {
        if seen_view(seen@).contains((opt_id(*location), name@)) {
            let j = choose|j: int| 0 <= j < seen_view(seen@).len() && seen_view(seen@)[j] == (opt_id(*location), name@);
            assert(seen_view(seen@)[j] != (opt_id(*location), name@));
        }
    }
    false
}

/// A tunnel entrance to `name` reached from `location` starts a run only
/// the first time: then the run waits with a game whose state is `state` and
/// whose history holds only the tunnel's first page, as a placeholder.
pub open spec fn tunnel_waits<C, P>(
    tunnels: Seq<(String, Game<C, P>)>,
    seen: Seq<(Option<Seq<char>>, Seq<char>)>,
    tunnels_after: Seq<(String, Game<C, P>)>,
    seen_after: Seq<(Option<Seq<char>>, Seq<char>)>,
    location: Option<Seq<char>>,
    name: Seq<char>,
    widget: P,
    state: crate::game_state::StateMap,
) -> bool {
    if seen.contains((location, name)) {
        tunnels_after == tunnels && seen_after == seen
    } else {
        &&& seen_after == seen.push((location, name))
        &&& tunnels_after.len() == tunnels.len() + 1
        &&& tunnels_after.drop_last() == tunnels
        &&& tunnels_after.last().0@ == name
        &&& tunnels_after.last().1.inner.state@ == state
        &&& tunnels_after.last().1.inner.pages@.len() == 1
        &&& tunnels_after.last().1.inner.pages@[0].len() == 1
        &&& tunnels_after.last().1.inner.pages@[0][0].widget == widget
        &&& tunnels_after.last().1.inner.pages@[0][0].id@.len() == 0
    }
}

impl<C, P: Copy> Simulator<C, P> {
    /// Lets a tunnel's run wait, unless the same tunnel was already entered
    /// from the same page.
    fn wait_tunnel(&mut self, location: &Option<PageId>, name: String, game: Game<C, P>)
        requires
            old(self).wf(),
            game.wf(),
        ensures
            final(self).wf(),
            final(self).spec_queue() == old(self).spec_queue(),
            final(self).spec_records() == old(self).spec_records(),
            final(self).spec_run() == old(self).spec_run(),
            final(self).spec_seen().contains((opt_id(*location), name@)),
            if old(self).spec_seen().contains((opt_id(*location), name@)) {
                final(self).spec_tunnels() == old(self).spec_tunnels() && final(self).spec_seen() == old(self).spec_seen()
            } else {
                &&& final(self).spec_seen() == old(self).spec_seen().push((opt_id(*location), name@))
                &&& final(self).spec_tunnels() == old(self).spec_tunnels().push((name, game))
            },
    {
        let ghost key = (opt_id(*location), name@);
        if seen_contains(&self.seen, location, &name) {
            return;
        }
        let ghost seen_before = self.spec_seen();
        let ghost tunnels_before = self.tunnels@;
        self.seen.push((location.clone(), name.clone()));
        self.tunnels.push((name, game));
        proof {
            assert(self.spec_seen() =~= seen_before.push(key));
            assert(self.spec_seen()[seen_before.len() as int] == key);
            assert forall|a: int, b: int| 0 <= a < self.spec_seen().len() && 0 <= b < self.spec_seen().len() && a != b
                implies self.spec_seen()[a] != self.spec_seen()[b] by {
                if a < seen_before.len() && b < seen_before.len() {
                    assert(seen_before[a] != seen_before[b]);
                } else if a < seen_before.len() {
                    assert(seen_before.contains(seen_before[a]));
                } else if b < seen_before.len() {
                    assert(seen_before.contains(seen_before[b]));
                }
            }
            assert forall|j: int| 0 <= j < self.tunnels@.len() implies (#[trigger] self.tunnels@[j]).1.wf() by {
                if j < tunnels_before.len() {
                    assert(self.tunnels@[j] == tunnels_before[j]);
                }
            }
        }
    }

    /// Applies a page's response to a branch. A view names the page and
    /// pushes it; a switch or a step back continues with another page; a
    /// tunnel entrance ends the branch and waits as a new run whose history
    /// holds only the tunnel's first page, as a placeholder; an exit or an
    /// end ends the branch.
    pub fn step(&mut self, s: &mut SimulationState<C, P>, page: PageHandle<P>, response: Response<P>) -> (r: SimStep<P>)
        where
            C: Clone,
        requires
            old(self).wf(),
            old(s).game.wf(),
        ensures
            final(self).wf(),
            final(s).game.wf(),
            final(s).depth == old(s).depth,
            final(s).last == old(s).last,
            final(s).game.inner.state@ == old(s).game.inner.state@,
            final(self).spec_queue() == old(self).spec_queue(),
            final(self).spec_records() == old(self).spec_records(),
            final(self).spec_run() == old(self).spec_run(),
            !(response is Tunnel) ==> final(self).spec_tunnels() == old(self).spec_tunnels() && final(self).spec_seen()
                == old(self).spec_seen(),
            match response {
                Response::View(v) => {
                    let before = old(s).game.inner.pages@;
                    let after = final(s).game.inner.pages@;
                    if before.len() == 0 {
                        r == SimStep::<P>::Ended(SimEnd::GameError(GameError::NoStack)) && after == before
                    } else {
                        &&& r == SimStep::Viewed(v)
                        &&& after == crate::game::with_top(
                            before,
                            crate::game::frame_push(before.last(), PageHandle { widget: page.widget, id: v.pageid }),
                        )
                        &&& after.len() == before.len()
                        &&& after.drop_last() == before.drop_last()
                        &&& after.last().len() > 0
                        &&& after.last().last().id@ == v.pageid@
                    }
                },
                Response::Switch(next) => r == SimStep::Continue(next) && final(s).game.inner.pages@
                    == old(s).game.inner.pages@,
                Response::Back(n) => {
                    let before = old(s).game.inner.pages@;
                    let after = final(s).game.inner.pages@;
                    if before.len() == 0 {
                        r == SimStep::<P>::Ended(SimEnd::GameError(GameError::NoStack)) && after == before
                    } else if n >= before.last().len() {
                        r == SimStep::<P>::Ended(SimEnd::GameError(GameError::NoPage)) && after == before
                    } else {
                        let kept = before.last().take(before.last().len() - n);
                        r == SimStep::Continue(kept.last()) && after == crate::game::with_top(before, kept)
                    }
                },
                Response::Tunnel(next) => {
                    &&& r matches SimStep::Ended(SimEnd::Tunnel(name)) && name@ == basename(next.id@)
                    &&& final(s).game.inner.pages@ == old(s).game.inner.pages@
                    &&& tunnel_waits(
                        old(self).spec_tunnels(),
                        old(self).spec_seen(),
                        final(self).spec_tunnels(),
                        final(self).spec_seen(),
                        opt_id(old(s).last),
                        basename(next.id@),
                        next.widget,
                        old(s).game.inner.state@,
                    )
                },
                Response::Exit => r == SimStep::<P>::Ended(SimEnd::TunnelExit) && final(s).game.inner.pages@
                    == old(s).game.inner.pages@,
                Response::End => r == SimStep::<P>::Ended(SimEnd::GameError(GameError::End))
                    && final(s).game.inner.pages@ == old(s).game.inner.pages@,
            },
    {
        match response {
            Response::View(view) => {
                let named = PageHandle { widget: page.widget, id: view.pageid.clone() };
                let ghost before = s.game.inner.pages@;
                match s.game.inner.pages.push(named) {
                    Ok(()) => {
                        proof {
                            crate::game::lemma_with_top(before, crate::game::frame_push(before.last(), named));
                        }
                        SimStep::Viewed(view)
                    },
                    Err(e) => SimStep::Ended(SimEnd::GameError(e)),
                }
            },
            Response::Switch(next) => SimStep::Continue(next),
            Response::Back(n) => match s.game.inner.pages.pop_n(n) {
                Ok(p) => SimStep::Continue(p),
                Err(e) => SimStep::Ended(SimEnd::GameError(e)),
            },
            Response::Tunnel(next) => {
                let mut fork = s.game.fork();
                let fork_name = run_name(next.id.as_str());
                let first = PageHandle { widget: next.widget, id: String::new() };
                fork.inner.pages = PageStack::new_with_page(first);
                self.wait_tunnel(&s.last, fork_name.clone(), fork);
                proof {
                    if !old(self).spec_seen().contains((opt_id(s.last), fork_name@)) {
                        assert(self.spec_tunnels().drop_last() =~= old(self).spec_tunnels());
                    }
                }
                SimStep::Ended(SimEnd::Tunnel(fork_name))
            },
            Response::Exit => SimStep::Ended(SimEnd::TunnelExit),
            Response::End => SimStep::Ended(SimEnd::GameError(GameError::End)),
        }
    }
}


fn action_applicable<P>(a: &Action<P>) -> (r: bool)
    ensures
        r == crate::game::action_ok(*a),
{
    match a {
        Action::SetBit(_, b) => *b < 64,
        _ => true,
    }
}

fn applicable<P>(e: &Interactable<'_, P>) -> (r: bool)
    ensures
        r == e.applicable(),
{
    match *e {
        Interactable::Choice(_, _, i) => i < 64,
        Interactable::Span(_, s) => match &s.action {
            Some(a) => action_applicable(a),
            None => false,
        },
    }
}

/// What exploring the interactables of a view has produced so far: the
/// branches that go on, in the order of their interactables, the records,
/// and the waiting runs with the tunnel entrances seen.
pub struct Explored<C, P> {
    pub queued: Seq<SimulationState<C, P>>,
    pub records: Map<Seq<char>, RecordView>,
    pub tunnels: Seq<(String, Game<C, P>)>,
    pub seen: Seq<(Option<Seq<char>>, Seq<char>)>,
}

/// `g` is a copy of `game` as far as everything but the history and the
/// state store goes (the context is cloned).
pub open spec fn forked_from<C, P: Copy>(game: Game<C, P>, g: Game<C, P>) -> bool {
    &&& g.wf()
    &&& g.tags@ == game.tags@
    &&& g.simulating == game.simulating
    &&& g.inner.fresh == game.inner.fresh
    &&& g.inner.iterations == game.inner.iterations
}

/// A tunnel entrance to `name` from `location` lets the run of `game` wait
/// unless the entrance was seen before.
pub open spec fn entrance_waits<C, P>(
    tunnels: Seq<(String, Game<C, P>)>,
    seen: Seq<(Option<Seq<char>>, Seq<char>)>,
    tunnels_after: Seq<(String, Game<C, P>)>,
    seen_after: Seq<(Option<Seq<char>>, Seq<char>)>,
    location: Option<Seq<char>>,
    name: String,
    game: Game<C, P>,
) -> bool {
    if seen.contains((location, name@)) {
        tunnels_after == tunnels && seen_after == seen
    } else {
        seen_after == seen.push((location, name@)) && tunnels_after == tunnels.push((name, game))
    }
}

/// Exploring one interactable `e` of the view of page `pageid`, reached by
/// branch `s`: an interactable that cannot be applied, or a branch at the
/// largest depth, changes nothing; otherwise a copy of the branch one
/// interaction deeper gets it applied, and either goes on (it is queued) or
/// ends (its outcome is recorded on the page, and a tunnel entrance lets the
/// tunnel's run wait).
pub open spec fn branch_step<C, P: Copy>(
    s: SimulationState<C, P>,
    pageid: PageId,
    e: InteractableView<P>,
    pre: Explored<C, P>,
    post: Explored<C, P>,
) -> bool {
    if !(s.depth < usize::MAX && e.applicable()) {
        post == pre
    } else {
        exists|g: Game<C, P>, r: Result<(), SimEnd>|
            #[trigger] sim_applied(&s.game, e, pageid@, &g, r) && forked_from(s.game, g) && match r {
                Ok(()) => post == Explored {
                    queued: pre.queued.push(SimulationState { game: g, depth: (s.depth + 1) as usize, last: Some(pageid) }),
                    ..pre
                },
                Err(end) => {
                    &&& post.queued == pre.queued
                    &&& post.records == end_spec(pre.records, pageid@, end@)
                    &&& match end {
                        SimEnd::Tunnel(name) => entrance_waits(
                            pre.tunnels,
                            pre.seen,
                            post.tunnels,
                            post.seen,
                            Some(pageid@),
                            name,
                            g,
                        ),
                        _ => post.tunnels == pre.tunnels && post.seen == pre.seen,
                    }
                },
            }
    }
}

/// Exploring the interactables `items` in order goes through the states of
/// `trace`: one more than there are interactables, each step as
/// [`branch_step`] says.
pub open spec fn explored_all<C, P: Copy>(
    s: SimulationState<C, P>,
    pageid: PageId,
    items: Seq<InteractableView<P>>,
    trace: Seq<Explored<C, P>>,
) -> bool {
    &&& trace.len() == items.len() + 1
    &&& forall|i: int| 0 <= i < items.len() ==> #[trigger] branch_step(s, pageid, items[i], trace[i], trace[i + 1])
}

/// A sequence in reverse order.
pub open spec fn reversed<T>(q: Seq<T>) -> Seq<T> {
    Seq::new(q.len(), |i: int| q[q.len() - 1 - i])
}

/// The simulator went from `before` to `after` by recording `view`, which
/// branch `s` produced, and exploring every live interactable of it: the
/// branches that go on are queued so that the first interactable's branch is
/// explored first.
pub open spec fn explores<C, P: Copy>(before: Simulator<C, P>, after: Simulator<C, P>, s: SimulationState<C, P>, view: View<P>) -> bool {
    exists|trace: Seq<Explored<C, P>>|
        #[trigger] explored_all(s, view.pageid, flat_items(view.inner@), trace) && trace[0] == Explored {
            queued: Seq::empty(),
            records: visit_spec(before.spec_records(), view.pageid@, id_set(view.tags@), opt_id(s.last), s.depth),
            tunnels: before.spec_tunnels(),
            seen: before.spec_seen(),
        } && after.spec_records() == trace.last().records && after.spec_tunnels() == trace.last().tunnels
            && after.spec_seen() == trace.last().seen && after.spec_queue() == before.spec_queue() + reversed(
            trace.last().queued,
        )
}

/// `after` is `visited` with outcomes possibly added to the record of `id`.
pub open spec fn ends_added(visited: Map<Seq<char>, RecordView>, id: Seq<char>, after: Map<Seq<char>, RecordView>) -> bool {
    &&& after.dom() == visited.dom()
    &&& visited.contains_key(id)
    &&& forall|k: Seq<char>| #[trigger] after.contains_key(k) && k != id ==> after[k] == visited[k]
    &&& after[id] == (RecordView { ends: after[id].ends, ..visited[id] })
    &&& visited[id].ends.subset_of(after[id].ends)
}

impl<C, P: Copy> Simulator<C, P> {
    /// Records a view a branch produced, then branches: for every live
    /// interactable of the view that can be applied, a copy of the branch one
    /// interaction deeper gets it applied. A copy that goes on is queued, so
    /// that the first interactable is explored first; one that ends has its
    /// outcome recorded on the view's page, and a tunnel entrance also waits
    /// as a new run. At the largest depth nothing is branched.
    pub fn record_view(&mut self, s: &SimulationState<C, P>, view: View<P>)
        where
            C: Clone,
        requires
            old(self).wf(),
            s.game.wf(),
        ensures
            final(self).wf(),
            final(self).spec_run() == old(self).spec_run(),
            explores(*old(self), *final(self), *s, view),
    {
        let ghost view0 = view;
        let mut v = view;
        let ghost id = v.pageid@;
        self.records.insert_view(s, &mut v);
        let curr_id = v.pageid.clone();
        let items = v.interactables_flat();
        let ghost all = flat_items(view0.inner@);
        let ghost start = Explored::<C, P> {
            queued: Seq::empty(),
            records: self.records@,
            tunnels: self.tunnels@,
            seen: self.spec_seen(),
        };
        let mut to_queue: Vec<SimulationState<C, P>> = Vec::new();
        let mut i: usize = 0;
        let ghost mut trace = seq![start];
        proof {
            assert(to_queue@ =~= Seq::<SimulationState<C, P>>::empty());
        }
        while i < items.len()
            invariant
                self.wf(),
                s.game.wf(),
                curr_id@ == id,
                curr_id == view0.pageid,
                views_of(items@) == all,
                i <= items@.len(),
                self.run@ == old(self).run@,
                self.queue@ == old(self).queue@,
                forall|j: int| 0 <= j < to_queue@.len() ==> (#[trigger] to_queue@[j]).game.wf(),
                trace.len() == i + 1,
                trace[0] == start,
                forall|j: int| 0 <= j < i ==> #[trigger] branch_step(*s, view0.pageid, all[j], trace[j], trace[j + 1]),
                trace.last() == (Explored { queued: to_queue@, records: self.records@, tunnels: self.tunnels@, seen: self.spec_seen() }),
            decreases items@.len() - i,
        {
            let e = items[i];
            let ghost pre = Explored::<C, P> {
                queued: to_queue@,
                records: self.records@,
                tunnels: self.tunnels@,
                seen: self.spec_seen(),
            };
            proof {
                assert(views_of(items@)[i as int] == e@);
                assert(all[i as int] == e@);
            }
            if s.depth < usize::MAX && applicable(&e) {
                let mut next = s.next(curr_id.clone());
                let ghost forked = next.game;
                let res = next.game.interact_sim(e, &curr_id);
                let ghost g = next.game;
                proof {
                    assert(sim_applied(&s.game, e@, view0.pageid@, &g, res));
                    assert(forked_from(s.game, g));
                }
                match res {
                    Ok(()) => {
                        to_queue.push(next);
                        proof {
                            assert(to_queue@ == pre.queued.push(SimulationState { game: g, depth: (s.depth + 1) as usize, last: Some(view0.pageid) }));
                            assert(branch_step(*s, view0.pageid, e@, pre, Explored { queued: to_queue@, records: self.records@, tunnels: self.tunnels@, seen: self.spec_seen() }));
                            assert forall|j: int| 0 <= j < to_queue@.len() implies (#[trigger] to_queue@[j]).game.wf() by {
                                if j < pre.queued.len() {
                                    assert(to_queue@[j] == pre.queued[j]);
                                }
                            }
                        }
                    },
                    Err(end) => {
                        let ghost end_v = end;
                        match &end {
                            SimEnd::Tunnel(name) => {
                                let here = Some(curr_id.clone());
                                self.wait_tunnel(&here, name.clone(), next.game);
                            },
                            _ => {},
                        }
                        self.records.push_sim_end(&curr_id, end);
                        proof {
                            let post = Explored::<C, P> { queued: to_queue@, records: self.records@, tunnels: self.tunnels@, seen: self.spec_seen() };
                            assert(post.records == end_spec(pre.records, view0.pageid@, end_v@));
                            assert(branch_step(*s, view0.pageid, e@, pre, post));
                        }
                    },
                }
            }
            proof {
                let post = Explored::<C, P> { queued: to_queue@, records: self.records@, tunnels: self.tunnels@, seen: self.spec_seen() };
                assert(branch_step(*s, view0.pageid, e@, pre, post));
                let old_trace = trace;
                trace = trace.push(post);
                assert forall|j: int| 0 <= j < i + 1 implies #[trigger] branch_step(*s, view0.pageid, all[j], trace[j], trace[j + 1]) by {
                    if j < i {
                        assert(trace[j] == old_trace[j] && trace[j + 1] == old_trace[j + 1]);
                    } else {
                        assert(trace[j] == pre);
                    }
                }
            }
            i = i + 1;
        }
        let ghost ex = Explored::<C, P> { queued: to_queue@, records: self.records@, tunnels: self.tunnels@, seen: self.spec_seen() };
        proof {
            assert(explored_all(*s, view0.pageid, all, trace));
        }
        let ghost qn = to_queue@.len();
        while to_queue.len() > 0
            invariant
                self.wf(),
                self.run@ == old(self).run@,
                ex.records == self.records@,
                ex.tunnels == self.tunnels@,
                ex.seen == self.spec_seen(),
                qn == ex.queued.len(),
                to_queue@ == ex.queued.take(to_queue@.len() as int),
                to_queue@.len() <= qn,
                forall|j: int| 0 <= j < to_queue@.len() ==> (#[trigger] to_queue@[j]).game.wf(),
                self.queue@ == old(self).queue@ + reversed(ex.queued).take(qn - to_queue@.len()),
            decreases to_queue@.len(),
        {
            let ghost queue_before = self.queue@;
            let ghost tq = to_queue@;
            let st = to_queue.pop().unwrap();
            assert(st == tq[tq.len() - 1]);
            self.queue.push(st);
            proof {
                assert(to_queue@ =~= ex.queued.take(to_queue@.len() as int));
                assert(reversed(ex.queued)[qn - tq.len()] == ex.queued[tq.len() - 1]);
                assert(self.queue@ =~= old(self).queue@ + reversed(ex.queued).take(qn - to_queue@.len()));
                assert forall|j: int| 0 <= j < self.queue@.len() implies (#[trigger] self.queue@[j]).game.wf() by {
                    if j < queue_before.len() {
                        assert(self.queue@[j] == queue_before[j]);
                    }
                }
                assert forall|j: int| 0 <= j < to_queue@.len() implies (#[trigger] to_queue@[j]).game.wf() by {
                    assert(to_queue@[j] == tq[j]);
                }
            }
        }
        proof {
            assert(reversed(ex.queued).take(qn as int) =~= reversed(ex.queued));
            assert(start.records == visit_spec(old(self).spec_records(), view0.pageid@, id_set(view0.tags@), opt_id(s.last), s.depth));
            assert(explored_all(*s, view0.pageid, flat_items(view0.inner@), trace));
            assert(trace.last() == ex);
        }
    }

    /// Records that a branch ended with `e` on the page it came from, if any.
    pub fn record_end(&mut self, s: &SimulationState<C, P>, e: SimEnd)
        requires
            old(self).wf(),
        ensures
            final(self).wf(),
            final(self).spec_queue() == old(self).spec_queue(),
            final(self).spec_tunnels() == old(self).spec_tunnels(),
            final(self).spec_seen() == old(self).spec_seen(),
            final(self).spec_run() == old(self).spec_run(),
            final(self).spec_records() == match s.last {
                Some(l) => end_spec(old(self).spec_records(), l@, e@),
                None => old(self).spec_records(),
            },
    {
        match &s.last {
            Some(last) => self.records.push_sim_end(last, e),
            None => {},
        }
    }

    /// Applies a page's response to a branch (see [`Simulator::step`]); a
    /// view is recorded and branched on, an ending is recorded. Returns the
    /// page to invoke next, if the branch goes on.
    pub fn resolve(&mut self, s: &mut SimulationState<C, P>, page: PageHandle<P>, response: Response<P>) -> (r: Option<
        PageHandle<P>,
    >)
        where
            C: Clone,
        requires
            old(self).wf(),
            old(s).game.wf(),
        ensures
            final(self).wf(),
            final(s).game.wf(),
            final(s).depth == old(s).depth,
            final(s).last == old(s).last,
            final(s).game.inner.state@ == old(s).game.inner.state@,
            final(self).spec_run() == old(self).spec_run(),
            !(response is View) ==> final(self).spec_queue() == old(self).spec_queue(),
            !(response is View) && !(response is Tunnel) ==> final(self).spec_tunnels() == old(self).spec_tunnels()
                && final(self).spec_seen() == old(self).spec_seen(),
            response matches Response::Tunnel(next) ==> tunnel_waits(
                old(self).spec_tunnels(),
                old(self).spec_seen(),
                final(self).spec_tunnels(),
                final(self).spec_seen(),
                opt_id(old(s).last),
                basename(next.id@),
                next.widget,
                old(s).game.inner.state@,
            ),
            response is View && old(s).game.inner.pages@.len() == 0 ==> final(self).spec_queue() == old(self).spec_queue()
                && final(self).spec_tunnels() == old(self).spec_tunnels() && final(self).spec_seen() == old(self).spec_seen(),
            match response {
                Response::Switch(next) => r == Some(next) && final(s).game.inner.pages@ == old(s).game.inner.pages@
                    && final(self).spec_records() == old(self).spec_records(),
                Response::Back(n) => {
                    let before = old(s).game.inner.pages@;
                    if before.len() > 0 && n < before.last().len() {
                        let kept = before.last().take(before.last().len() - n);
                        &&& r == Some(kept.last())
                        &&& final(s).game.inner.pages@ == crate::game::with_top(before, kept)
                        &&& final(self).spec_records() == old(self).spec_records()
                    } else {
                        let e = if before.len() == 0 { GameError::NoStack } else { GameError::NoPage };
                        &&& r is None
                        &&& final(self).spec_records() == match old(s).last {
                            Some(l) => end_spec(old(self).spec_records(), l@, SimEnd::GameError(e)@),
                            None => old(self).spec_records(),
                        }
                    }
                },
                Response::View(v) => {
                    let before = old(s).game.inner.pages@;
                    let after = final(s).game.inner.pages@;
                    &&& r is None
                    &&& if before.len() == 0 {
                        &&& after == before
                        &&& final(self).spec_records() == match old(s).last {
                            Some(l) => end_spec(old(self).spec_records(), l@, SimEndView::GameError(GameError::NoStack)),
                            None => old(self).spec_records(),
                        }
                    } else {
                        &&& after == crate::game::with_top(
                            before,
                            crate::game::frame_push(before.last(), PageHandle { widget: page.widget, id: v.pageid }),
                        )
                        &&& explores(*old(self), *final(self), *final(s), v)
                    }
                },
                Response::Tunnel(next) => {
                    let name = basename(next.id@);
                    &&& r is None
                    &&& final(self).spec_records() == match old(s).last {
                        Some(l) => end_spec(old(self).spec_records(), l@, SimEndView::Tunnel(name)),
                        None => old(self).spec_records(),
                    }
                },
                Response::Exit => r is None && final(self).spec_records() == match old(s).last {
                    Some(l) => end_spec(old(self).spec_records(), l@, SimEndView::TunnelExit),
                    None => old(self).spec_records(),
                },
                Response::End => r is None && final(self).spec_records() == match old(s).last {
                    Some(l) => end_spec(old(self).spec_records(), l@, SimEndView::GameError(GameError::End)),
                    None => old(self).spec_records(),
                },
            },
    {
        match self.step(s, page, response) {
            SimStep::Continue(p) => Some(p),
            SimStep::Viewed(v) => {
                self.record_view(s, v);
                None
            },
            SimStep::Ended(e) => {
                self.record_end(s, e);
                None
            },
        }
    }

    /// The records of all runs.
    pub fn finish(self) -> (r: Simulation)
        ensures
            r == self.spec_result(),
    {
        self.ret
    }
}

} // verus!
