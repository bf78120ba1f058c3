//! Properties that relate several operations of the page stack and of the
//! state store.
use vstd::prelude::*;
use vstd::view::View as Model;

use crate::errors::GameError;
use crate::game::{frame_push, resolve_spec, top_of, with_top, Frame, Resolution};
use crate::page::Response;
use crate::view::View;
use crate::game_state::{inc_spec, set_bit_spec, value_of, StateMap};
use crate::page::PageHandle;
use crate::sim::{record_or_fresh, visit_spec, RecordView};

verus! {

/// Pushing a handle whose id equals the current page's id leaves the history
/// unchanged.
pub proof fn lemma_push_same_id_is_noop<P>(frames: Seq<Frame<P>>, page: PageHandle<P>)
    requires
        top_of(frames) matches Some(h) && h.id@ == page.id@,
    ensures
        with_top(frames, frame_push(frames.last(), page)) == frames,
{
    assert(with_top(frames, frames.last()) =~= frames);
}

/// The frame after pushing each of `pages`, in order.
pub open spec fn push_all<P>(frame: Frame<P>, pages: Seq<PageHandle<P>>) -> Frame<P>
    decreases pages.len(),
{
    if pages.len() == 0 {
        frame
    } else {
        push_all(frame_push(frame, pages[0]), pages.skip(1))
    }
}

/// No two neighbouring entries of the frame share an id, as in every frame
/// built by pushing.
pub open spec fn neighbours_distinct<P>(frame: Frame<P>) -> bool {
    forall|i: int| 0 < i < frame.len() ==> #[trigger] frame[i].id@ != frame[i - 1].id@
}

proof fn lemma_push_back_from<P>(frame: Frame<P>, j: int)
    requires
        neighbours_distinct(frame),
        1 <= j <= frame.len(),
    ensures
        push_all(frame.take(j), frame.skip(j)) == frame,
    decreases frame.len() - j,
{
    if j == frame.len() {
        assert(frame.take(j) =~= frame);
    } else {
        assert(frame.take(j).last() == frame[j - 1]);
        assert(frame[j].id@ != frame[j - 1].id@);
        assert(frame_push(frame.take(j), frame.skip(j)[0]) =~= frame.take(j + 1));
        assert(frame.skip(j).skip(1) =~= frame.skip(j + 1));
        lemma_push_back_from(frame, j + 1);
    }
}

/// Going back `k` entries and then pushing the removed entries again, in
/// their original order, restores the history.
pub proof fn lemma_pop_push_round_trip<P>(frames: Seq<Frame<P>>, k: int)
    requires
        frames.len() > 0,
        neighbours_distinct(frames.last()),
        0 <= k < frames.last().len(),
    ensures
        ({
            let f = frames.last();
            let kept = f.take(f.len() - k);
            let removed = f.skip(f.len() - k);
            with_top(with_top(frames, kept), push_all(kept, removed)) == frames
        }),
{
    let f = frames.last();
    lemma_push_back_from(f, f.len() - k);
    assert(with_top(with_top(frames, f.take(f.len() - k)), f) =~= frames);
}

/// The history after pushing each of `pages`, in order, onto the top frame.
pub open spec fn push_each<P>(frames: Seq<Frame<P>>, pages: Seq<PageHandle<P>>) -> Seq<Frame<P>>
    decreases pages.len(),
{
    if pages.len() == 0 {
        frames
    } else {
        push_each(with_top(frames, frame_push(frames.last(), pages[0])), pages.skip(1))
    }
}

proof fn lemma_push_each_top<P>(frames: Seq<Frame<P>>, base: Frame<P>, pages: Seq<PageHandle<P>>)
    requires
        frames.len() > 0,
    ensures
        push_each(with_top(frames, base), pages) == with_top(frames, push_all(base, pages)),
    decreases pages.len(),
{
    crate::game::lemma_with_top(frames, base);
    if pages.len() > 0 {
        let next = frame_push(base, pages[0]);
        assert(with_top(with_top(frames, base), next) =~= with_top(frames, next));
        lemma_push_each_top(frames, next, pages.skip(1));
    }
}

/// Going back `k` entries with `pop_n` and then pushing the removed entries
/// one by one with `push`, in their original order, restores the history.
pub proof fn lemma_pop_then_push_each<P>(frames: Seq<Frame<P>>, k: int)
    requires
        frames.len() > 0,
        neighbours_distinct(frames.last()),
        0 <= k < frames.last().len(),
    ensures
        ({
            let f = frames.last();
            let kept = f.take(f.len() - k);
            push_each(with_top(frames, kept), f.skip(f.len() - k)) == frames
        }),
{
    let f = frames.last();
    lemma_push_each_top(frames, f.take(f.len() - k), f.skip(f.len() - k));
    lemma_pop_push_round_trip(frames, k);
    crate::game::lemma_with_top(frames, f.take(f.len() - k));
    assert(with_top(with_top(frames, f.take(f.len() - k)), push_all(f.take(f.len() - k), f.skip(f.len() - k)))
        =~= with_top(frames, push_all(f.take(f.len() - k), f.skip(f.len() - k))));
}

/// After entering a tunnel, the current page and going back see only the new
/// empty frame: there is no current page, and going back any number of
/// entries fails; leaving the tunnel restores the history as it was.
pub proof fn lemma_tunnel_isolation<P>(frames: Seq<Frame<P>>)
    requires
        frames.len() > 0,
    ensures
        ({
            let entered = frames.push(Seq::<PageHandle<P>>::empty());
            &&& top_of(entered) is None
            &&& entered.last().len() == 0
            &&& entered.len() > 1
            &&& entered.drop_last() == frames
        }),
{
    let entered = frames.push(Seq::<PageHandle<P>>::empty());
    assert(entered.drop_last() =~= frames);
}

/// Setting the same bit twice stores what setting it once stores.
pub proof fn lemma_set_bit_idempotent(m: StateMap, key: (Seq<char>, u64), pos: u8)
    requires
        pos < 64,
    ensures
        set_bit_spec(set_bit_spec(m, key, pos), key, pos) == set_bit_spec(m, key, pos),
{
    let once = set_bit_spec(m, key, pos);
    let v = crate::game_state::value_or_zero(m, key);
    let b = 1u64 << pos;
    assert((v | b) | b == v | b) by (bit_vector);
    assert(once[key.0] =~= once[key.0].insert(key.1, (v | b) | b));
    assert(set_bit_spec(once, key, pos) =~= once);
}

/// The store after `n` increments of the counter at `key`.
pub open spec fn inc_n(m: StateMap, key: (Seq<char>, u64), n: nat) -> StateMap
    decreases n,
{
    if n == 0 {
        m
    } else {
        inc_spec(inc_n(m, key, (n - 1) as nat), key)
    }
}

/// Incrementing an absent counter `n` times stores `n`.
pub proof fn lemma_inc_accumulates(m: StateMap, key: (Seq<char>, u64), n: nat)
    requires
        value_of(m, key) is None,
        1 <= n <= u64::MAX,
    ensures
        value_of(inc_n(m, key, n), key) == Some(n as u64),
        forall|other: (Seq<char>, u64)| other != key ==> #[trigger] value_of(inc_n(m, key, n), other) == value_of(m, other),
    decreases n,
{
    let prev = inc_n(m, key, (n - 1) as nat);
    if n > 1 {
        lemma_inc_accumulates(m, key, (n - 1) as nat);
        assert(crate::game_state::value_or_zero(prev, key) == (n - 1) as u64);
    } else {
        assert(crate::game_state::value_or_zero(prev, key) == 0);
    }
    assert(crate::game_state::wrapping_inc(crate::game_state::value_or_zero(prev, key)) == n as u64);
    assert forall|other: (Seq<char>, u64)| other != key implies #[trigger] value_of(inc_n(m, key, n), other) == value_of(m, other) by {
        if n > 1 {
            assert(value_of(prev, other) == value_of(m, other));
        }
        assert(value_of(inc_spec(prev, key), other) == value_of(prev, other));
    }
}

/// A page that goes back one entry while the frame holds only the current
/// page fails with `NoPage`, and the history stays as it was.
pub proof fn lemma_back_from_single_entry<P>(
    before: Seq<Frame<P>>,
    page: PageHandle<P>,
    after: Seq<Frame<P>>,
    r: Result<Resolution<P>, GameError>,
)
    requires
        before.len() > 0,
        before.last().len() == 1,
        resolve_spec(before, page, Response::Back(1), after, r),
    ensures
        r == Err::<Resolution<P>, GameError>(GameError::NoPage),
        after == before,
{
}

/// A page whose response enters a tunnel to `y`, followed by `y` producing a
/// view: `y` runs with a new empty frame on top, and once rendered it is the
/// only entry of that frame, under the view's id; the frames beneath are
/// untouched.
pub proof fn lemma_tunnel_then_view<P>(
    before: Seq<Frame<P>>,
    x: PageHandle<P>,
    y: PageHandle<P>,
    mid: Seq<Frame<P>>,
    r1: Result<Resolution<P>, GameError>,
    v: View<P>,
    after: Seq<Frame<P>>,
    r2: Result<Resolution<P>, GameError>,
)
    requires
        resolve_spec(before, x, Response::Tunnel(y), mid, r1),
        resolve_spec(mid, y, Response::View(v), after, r2),
    ensures
        r1 == Ok::<Resolution<P>, GameError>(Resolution::Continue(y)),
        mid == before.push(Seq::<PageHandle<P>>::empty()),
        r2 matches Ok(Resolution::Viewed(w)) && w == v,
        after == before.push(seq![PageHandle { widget: y.widget, id: v.pageid }]),
{
    let named = PageHandle { widget: y.widget, id: v.pageid };
    assert(mid.last() =~= Seq::<PageHandle<P>>::empty());
    assert(frame_push(mid.last(), named) =~= seq![named]);
    assert(with_top(mid, seq![named]) =~= before.push(seq![named]));
}

/// Visiting the same page from two predecessors leaves one record for it,
/// whose incoming edges hold both predecessors and whose minimum depth is
/// the smaller of the two visit depths (and of any earlier one).
pub proof fn lemma_record_merge(
    m: Map<Seq<char>, RecordView>,
    id: Seq<char>,
    tags1: Set<Seq<char>>,
    tags2: Set<Seq<char>>,
    a: Seq<char>,
    b: Seq<char>,
    d1: usize,
    d2: usize,
)
    ensures
        ({
            let m2 = visit_spec(visit_spec(m, id, tags1, Some(a), d1), id, tags2, Some(b), d2);
            let smaller = if d1 < d2 { d1 } else { d2 };
            &&& m2.dom() == m.dom().insert(id)
            &&& m2[id].incoming == record_or_fresh(m, id).incoming.insert(a).insert(b)
            &&& m2[id].tags == record_or_fresh(m, id).tags.union(tags1).union(tags2)
            &&& m2[id].min_depth == if record_or_fresh(m, id).min_depth < smaller {
                record_or_fresh(m, id).min_depth
            } else {
                smaller
            }
            &&& !m.contains_key(id) ==> m2[id].min_depth == smaller
        }),
{
    let m1 = visit_spec(m, id, tags1, Some(a), d1);
    let m2 = visit_spec(m1, id, tags2, Some(b), d2);
    assert(m2.dom() =~= m.dom().insert(id));
    assert(record_or_fresh(m1, id) == m1[id]);
}

} // verus!
