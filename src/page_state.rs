//! What a page body works with while it runs: the view under construction,
//! the page's own state and the game's tags.
use vstd::prelude::*;
use vstd::view::View as Model;
use rand::seq::IndexedRandom;
use rand::SeedableRng;

use crate::game_state::PageMap;
use crate::page::{PageId, PageKey, Response};
use crate::tags::GameTags;
use crate::view::{Object, View};

verus! {

/// Bit `b` of `v` is set.
pub open spec fn bit_set(v: u64, b: u64) -> bool {
    (v >> b) & 1u64 == 1u64
}

/// Relies on rand's `IndexedRandom::choose` over a `StdRng` made by
/// `SeedableRng::seed_from_u64`: one element of a non-empty slice.
#[verifier::external_body]
fn choose_seeded(pool: &Vec<usize>, seed: u64) -> (r: usize)
    requires
        pool@.len() > 0,
    ensures
        pool@.contains(r),
{
    *pool.choose(&mut rand::rngs::StdRng::seed_from_u64(seed)).unwrap()
}

/// Relies on rand's `IndexedRandom::choose` over the thread-local generator
/// `rand::rng`: one element of a non-empty slice.
#[verifier::external_body]
fn choose_any(pool: &Vec<usize>) -> (r: usize)
    requires
        pool@.len() > 0,
    ensures
        pool@.contains(r),
{
    *pool.choose(&mut rand::rng()).unwrap()
}

/// The working state of one page invocation.
///
/// It owns the page's state and the game's tags while the page runs;
/// [`PageState::into_parts`] hands them back.
#[derive(Debug)]
pub struct PageState<P> {
    view: View<P>,
    page_state: PageMap,
    pub seed: Option<u64>,
    fresh: bool,
    game_tags: GameTags,
    pub simulating: bool,
}

impl<P> PageState<P> {
    pub closed spec fn spec_view(&self) -> View<P> {
        self.view
    }

    pub closed spec fn spec_state(&self) -> Map<PageKey, u64> {
        self.page_state@
    }

    pub closed spec fn spec_tags(&self) -> Set<Seq<char>> {
        self.game_tags@
    }

    pub closed spec fn spec_simulating(&self) -> bool {
        self.simulating
    }

    pub closed spec fn spec_seed(&self) -> Option<u64> {
        self.seed
    }

    pub closed spec fn spec_fresh(&self) -> bool {
        self.fresh
    }

    pub closed spec fn wf(&self) -> bool {
        self.game_tags.wf()
    }

    pub fn new(name: PageId, page_state: PageMap, game_tags: GameTags, fresh: bool, simulating: bool) -> (r: PageState<P>)
        requires
            game_tags.wf(),
        ensures
            r.wf(),
            r.spec_view().pageid == name,
            r.spec_view().inner@.len() == 0,
            r.spec_view().tags@.len() == 0,
            r.spec_state() == page_state@,
            r.spec_tags() == game_tags@,
            r.spec_fresh() == fresh,
            r.spec_simulating() == simulating,
            r.spec_seed() is None,
    {
        PageState { view: View::new(name), page_state, seed: None, fresh, game_tags, simulating }
    }

    /// Appends an object to the view.
    pub fn push(&mut self, object: Object<P>)
        ensures
            final(self).spec_view().inner@ == old(self).spec_view().inner@.push(object),
            final(self).spec_view().pageid == old(self).spec_view().pageid,
            final(self).spec_view().tags == old(self).spec_view().tags,
            final(self).spec_state() == old(self).spec_state(),
            final(self).spec_tags() == old(self).spec_tags(),
            final(self).wf() == old(self).wf(),
    {
        self.view.push(object);
    }

    pub fn id(&self) -> (r: PageId)
        ensures
            r == self.spec_view().pageid,
    {
        self.view.pageid.clone()
    }

    pub fn into_response(self) -> (r: Response<P>)
        ensures
            r == Response::View(self.spec_view()),
    {
        Response::View(self.view)
    }

    /// The response, the page's state and the tags, to be handed back to
    /// the game.
    pub fn into_parts(self) -> (r: (Response<P>, PageMap, GameTags))
        ensures
            r.0 == Response::View(self.spec_view()),
            r.1@ == self.spec_state(),
            r.2@ == self.spec_tags(),
            self.wf() ==> r.2.wf(),
    {
        (Response::View(self.view), self.page_state, self.game_tags)
    }

    pub fn fresh(&self) -> (r: bool)
        ensures
            r == self.spec_fresh(),
    {
        self.fresh
    }

    pub fn get(&self, key: PageKey) -> (r: Option<u64>)
        ensures
            r == (if self.spec_state().contains_key(key) { Some(self.spec_state()[key]) } else { None::<u64> }),
    {
        self.page_state.get(key)
    }

    /// The positions of the set bits of the mask at `key`, ascending.
    pub fn get_mask_indices(&self, key: PageKey) -> (r: Vec<usize>)
        ensures
            r@ == (if self.spec_state().contains_key(key) { set_bits_below(self.spec_state()[key], 64) } else { Seq::<usize>::empty() }),
    {
        let val = match self.page_state.get(key) {
            Some(v) => v,
            None => {
                return Vec::new();
            },
        };
        let mut bits: Vec<usize> = Vec::new();
        let mut i: usize = 0;
        while i < 64
            invariant
                i <= 64,
                bits@ == set_bits_below(val, i as nat),
            decreases 64 - i,
        {
            if (val >> (i as u64)) & 1 == 1 {
                bits.push(i);
            }
            i = i + 1;
            assert(bits@ =~= set_bits_below(val, i as nat));
        }
        bits
    }

    /// The mask at `key` as `N` flags; flags past 64 are false.
    pub fn get_mask<const N: usize>(&self, key: PageKey) -> (r: [bool; N])
        ensures
            forall|i: int|
                0 <= i < N ==> #[trigger] r@[i] == (i < 64 && self.spec_state().contains_key(key) && bit_set(
                    self.spec_state()[key],
                    i as u64,
                )),
    {
        let mut out: [bool; N] = [false; N];
        let val = match self.page_state.get(key) {
            Some(v) => v,
            None => {
                return out;
            },
        };
        let mut i: usize = 0;
        while i < N
            invariant
                i <= N,
                self.spec_state().contains_key(key) && self.spec_state()[key] == val,
                forall|j: int| 0 <= j < i ==> #[trigger] out@[j] == (j < 64 && bit_set(val, j as u64)),
                forall|j: int| i <= j < N ==> #[trigger] out@[j] == false,
            decreases N - i,
        {
            let flag = i < 64 && (val >> (i as u64)) & 1 == 1;
            out[i] = flag;
            i = i + 1;
        }
        out
    }

    /// The position of the lowest set bit of the mask at `key`.
    pub fn get_mask_last(&self, key: PageKey) -> (r: Option<u8>)
        ensures
            r == lowest_bit(if self.spec_state().contains_key(key) { Some(self.spec_state()[key]) } else { None::<u64> }),
    {
        let val = match self.page_state.get(key) {
            Some(v) => v,
            None => {
                return None;
            },
        };
        lowest_set_bit(val)
    }

    /// Removes the mask at `key`; returns the position of its lowest set
    /// bit.
    pub fn remove_mask_last(&mut self, key: PageKey) -> (r: Option<u8>)
        ensures
            r == lowest_bit(if old(self).spec_state().contains_key(key) { Some(old(self).spec_state()[key]) } else { None::<u64> }),
            final(self).spec_state() == old(self).spec_state().remove(key),
            final(self).spec_view() == old(self).spec_view(),
            final(self).spec_tags() == old(self).spec_tags(),
            final(self).wf() == old(self).wf(),
    {
        let val = match self.page_state.remove(key) {
            Some(v) => v,
            None => {
                return None;
            },
        };
        lowest_set_bit(val)
    }

    /// A number below `range` that is not excluded, drawn from the seeded
    /// generator when a seed is set.
    pub fn rand(&self, range: usize, exclude: &Vec<usize>) -> (r: usize)
        requires
            exists|i: usize| i < range && !exclude@.contains(i),
        ensures
            r < range,
            !exclude@.contains(r),
    {
        let mut pool: Vec<usize> = Vec::new();
        let mut i: usize = 0;
        while i < range
            invariant
                i <= range,
                pool@ == allowed_below(exclude@, i as nat),
            decreases range - i,
        {
            let mut excluded = false;
            let mut j: usize = 0;
            while j < exclude.len()
                invariant
                    j <= exclude@.len(),
                    excluded <==> exclude@.take(j as int).contains(i),
                decreases exclude@.len() - j,
            {
                let ghost prefix = exclude@.take(j as int);
                let ghost next = exclude@.take(j + 1);
                proof {
                    assert(next =~= prefix.push(exclude@[j as int]));
                    if prefix.contains(i) {
                        let k = choose|k: int| 0 <= k < prefix.len() && prefix[k] == i;
                        assert(next[k] == i);
                    }
                    if next.contains(i) && exclude@[j as int] != i {
                        let k = choose|k: int| 0 <= k < next.len() && next[k] == i;
                        assert(prefix[k] == i);
                    }
                    if exclude@[j as int] == i {
                        assert(next[j as int] == i);
                    }
                }
                if exclude[j] == i {
                    excluded = true;
                }
                j = j + 1;
            }
            assert(exclude@.take(j as int) =~= exclude@);
            if !excluded {
                pool.push(i);
            }
            i = i + 1;
            assert(pool@ =~= allowed_below(exclude@, i as nat));
        }
        proof {
            let w = choose|w: usize| w < range && !exclude@.contains(w);
            lemma_allowed_below(exclude@, range as nat, w);
        }
        proof {
            assert forall|x: usize| pool@.contains(x) implies x < range && !exclude@.contains(x) by {
                lemma_allowed_below(exclude@, range as nat, x);
            }
        }
        match self.seed {
            Some(seed) => choose_seeded(&pool, seed),
            None => choose_any(&pool),
        }
    }

    pub fn insert(&mut self, key: PageKey, value: u64)
        ensures
            final(self).spec_state() == old(self).spec_state().insert(key, value),
            final(self).spec_view() == old(self).spec_view(),
            final(self).spec_tags() == old(self).spec_tags(),
            final(self).wf() == old(self).wf(),
    {
        self.page_state.insert(key, value);
    }

    pub fn remove(&mut self, key: PageKey) -> (r: Option<u64>)
        ensures
            r == (if old(self).spec_state().contains_key(key) { Some(old(self).spec_state()[key]) } else { None::<u64> }),
            final(self).spec_state() == old(self).spec_state().remove(key),
            final(self).spec_view() == old(self).spec_view(),
            final(self).spec_tags() == old(self).spec_tags(),
            final(self).wf() == old(self).wf(),
    {
        self.page_state.remove(key)
    }

    /// Attaches a tag to the view and to the game; returns whether the game
    /// did not have it yet.
    pub fn tag(&mut self, s: &str) -> (r: bool)
        requires
            old(self).wf(),
        ensures
            final(self).wf(),
            r == !old(self).spec_tags().contains(s@),
            final(self).spec_tags() == old(self).spec_tags().insert(s@),
            final(self).spec_view().tags@.len() == old(self).spec_view().tags@.len() + 1,
            final(self).spec_view().tags@.drop_last() == old(self).spec_view().tags@,
            final(self).spec_view().tags@.last()@ == s@,
            final(self).spec_view().inner == old(self).spec_view().inner,
            final(self).spec_view().pageid == old(self).spec_view().pageid,
            final(self).spec_state() == old(self).spec_state(),
    {
        let q: PageId = s.to_owned();
        self.view.tags.push(q.clone());
        assert(self.view.tags@.drop_last() =~= old(self).view.tags@);
        self.game_tags.insert(q)
    }

    /// Removes a tag from the game; returns whether it was there.
    pub fn untag(&mut self, s: &str) -> (r: bool)
        requires
            old(self).wf(),
        ensures
            final(self).wf(),
            r == old(self).spec_tags().contains(s@),
            final(self).spec_tags() == old(self).spec_tags().remove(s@),
            final(self).spec_view() == old(self).spec_view(),
            final(self).spec_state() == old(self).spec_state(),
    {
        self.game_tags.remove(s)
    }
}

/// The positions below `n` of the set bits of `v`, ascending.
pub open spec fn set_bits_below(v: u64, n: nat) -> Seq<usize>
    decreases n,
{
    if n == 0 {
        Seq::empty()
    } else if bit_set(v, (n - 1) as u64) {
        set_bits_below(v, (n - 1) as nat).push((n - 1) as usize)
    } else {
        set_bits_below(v, (n - 1) as nat)
    }
}

/// The numbers below `n` that `exclude` does not hold, ascending.
pub open spec fn allowed_below(exclude: Seq<usize>, n: nat) -> Seq<usize>
    decreases n,
{
    if n == 0 {
        Seq::empty()
    } else if exclude.contains((n - 1) as usize) {
        allowed_below(exclude, (n - 1) as nat)
    } else {
        allowed_below(exclude, (n - 1) as nat).push((n - 1) as usize)
    }
}

proof fn lemma_allowed_below(exclude: Seq<usize>, n: nat, x: usize)
    requires
        n <= usize::MAX + 1,
    ensures
        allowed_below(exclude, n).contains(x) <==> x < n && !exclude.contains(x),
    decreases n,
{
    if n > 0 {
        lemma_allowed_below(exclude, (n - 1) as nat, x);
        let prev = allowed_below(exclude, (n - 1) as nat);
        if !exclude.contains((n - 1) as usize) {
            let cur = prev.push((n - 1) as usize);
            if x == n - 1 {
                assert(cur[prev.len() as int] == x);
            }
            if cur.contains(x) && x != n - 1 {
                let k = choose|k: int| 0 <= k < cur.len() && cur[k] == x;
                assert(prev[k] == x);
            }
            if prev.contains(x) {
                let k = choose|k: int| 0 <= k < prev.len() && prev[k] == x;
                assert(cur[k] == x);
            }
        }
    }
}

/// The position of the lowest set bit of a mask, if it has one.
pub open spec fn lowest_bit(mask: Option<u64>) -> Option<u8> {
    match mask {
        Some(v) => if v == 0 {
            None
        } else {
            Some(choose|b: u8| b < 64 && #[trigger] bit_set(v, b as u64) && forall|c: u64| c < b ==> !#[trigger] bit_set(v, c))
        },
        None => None,
    }
}

fn lowest_set_bit(val: u64) -> (r: Option<u8>)
    ensures
        r == lowest_bit(Some(val)),
{
    if val == 0 {
        None
    } else {
        let t = val.trailing_zeros();
        proof {
            vstd::std_specs::bits::axiom_u64_trailing_zeros(val);
            let b = t as u8;
            assert(b < 64 && bit_set(val, b as u64) && forall|c: u64| c < b ==> !#[trigger] bit_set(val, c));
            let w = choose|w: u8| w < 64 && #[trigger] bit_set(val, w as u64) && forall|c: u64| c < w ==> !#[trigger] bit_set(val, c);
            if w < b {
                assert(!bit_set(val, w as u64));
            }
            if b < w {
                assert(!bit_set(val, b as u64));
            }
        }
        Some(t as u8)
    }
}

} // verus!
