//! Finding the clickable elements of a view and applying what they do.
use vstd::prelude::*;
use vstd::view::View as Model;

use crate::action::Action;
use crate::errors::GameError;
use crate::game::{action_ok, action_spec, Game};
use crate::game::Frame;
use crate::game_state::{set_bit_spec, StateMap};
use crate::page::{PageId, PageKey};
use crate::view::{spans_text, Line, Object, Span, View};

verus! {

/// A clickable element of a view.
#[derive(Debug)]
pub enum Interactable<'a, P> {
    /// Option `index` of a choice list with the given key and options.
    Choice(&'a PageKey, &'a Vec<(u8, Line<P>)>, u8),
    /// A span with an action, and the object that holds it.
    Span(&'a Object<P>, &'a Span<P>),
}

impl<'a, P> Clone for Interactable<'a, P> {
    fn clone(&self) -> (r: Self)
        ensures
            r == *self,
    {
        match self {
            Interactable::Choice(k, o, i) => Interactable::Choice(k, o, *i),
            Interactable::Span(o, s) => Interactable::Span(o, s),
        }
    }
}

impl<'a, P> Copy for Interactable<'a, P> {}

/// What an interactable stands for.
pub enum InteractableView<P> {
    Choice(PageKey, u8),
    Span(Object<P>, Span<P>),
}

impl<'a, P> Model for Interactable<'a, P> {
    type V = InteractableView<P>;

    open spec fn view(&self) -> InteractableView<P> {
        match *self {
            Interactable::Choice(k, _, i) => InteractableView::Choice(*k, i),
            Interactable::Span(o, s) => InteractableView::Span(*o, *s),
        }
    }
}

/// The line of the first option with the given index.
pub open spec fn option_line<P>(options: Seq<(u8, Line<P>)>, index: u8) -> Option<Line<P>>
    decreases options.len(),
{
    if options.len() == 0 {
        None
    } else if options[0].0 == index {
        Some(options[0].1)
    } else {
        option_line(options.skip(1), index)
    }
}

impl<'a, P> Interactable<'a, P> {
    /// The interactable can be applied: a choice option fits a 64-bit mask,
    /// a span carries an action that can be applied.
    pub open spec fn applicable(&self) -> bool {
        match *self {
            Interactable::Choice(_, _, i) => i < 64,
            Interactable::Span(_, s) => s.action matches Some(a) && action_ok(a),
        }
    }

    /// The text shown for the interactable.
    pub fn content(&self) -> (r: String)
        requires
            *self matches Interactable::Choice(_, options, i) ==> option_line(options@, i) is Some,
        ensures
            *self matches Interactable::Choice(_, options, i) ==> r@ == spans_text(option_line(options@, i).unwrap().spans@),
            *self matches Interactable::Span(_, s) ==> r@ == s.content@,
    {
        match *self {
            Interactable::Choice(key, lines, idx) => {
                let mut k: usize = 0;
                assert(lines@.skip(0) =~= lines@);
                while k < lines.len()
                    invariant
                        *self == Interactable::Choice(key, lines, idx),
                        k <= lines@.len(),
                        option_line(lines@, idx) == option_line(lines@.skip(k as int), idx),
                        option_line(lines@, idx) is Some,
                    decreases lines@.len() - k,
                {
                    assert(lines@.skip(k as int)[0] == lines@[k as int]);
                    if lines[k].0 == idx {
                        assert(option_line(lines@.skip(k as int), idx) == Some(lines@[k as int].1));
                        let r = lines[k].1.content();
                        assert(r@ == spans_text(option_line(lines@, idx).unwrap().spans@));
                        return r;
                    }
                    assert(lines@.skip(k as int).skip(1) =~= lines@.skip(k + 1));
                    k = k + 1;
                }
                proof {
                    assert(lines@.skip(k as int) =~= Seq::<(u8, Line<P>)>::empty());
                }
                String::new()
            },
            Interactable::Span(_, s) => s.content.clone(),
        }
    }
}

/// The spans of `spans` that carry an action, as interactables of `obj`.
pub open spec fn action_spans<P>(obj: Object<P>, spans: Seq<Span<P>>) -> Seq<InteractableView<P>>
    decreases spans.len(),
{
    if spans.len() == 0 {
        Seq::empty()
    } else {
        let rest = action_spans(obj, spans.drop_last());
        if spans.last().action is Some {
            rest.push(InteractableView::Span(obj, spans.last()))
        } else {
            rest
        }
    }
}

/// Every span of the line carries an action.
pub open spec fn all_spans_act<P>(line: Line<P>) -> bool {
    forall|i: int| 0 <= i < line.spans@.len() ==> (#[trigger] line.spans@[i]).action is Some
}

/// The interactables of the options of a choice list: for each option, the
/// option itself unless all its spans act, then its spans that act.
pub open spec fn choice_items<P>(obj: Object<P>, key: PageKey, options: Seq<(u8, Line<P>)>) -> Seq<InteractableView<P>>
    decreases options.len(),
{
    if options.len() == 0 {
        Seq::empty()
    } else {
        let rest = choice_items(obj, key, options.drop_last());
        let (i, line) = options.last();
        let own = if all_spans_act(line) {
            Seq::empty()
        } else {
            seq![InteractableView::Choice(key, i)]
        };
        rest + own + action_spans(obj, line.spans@)
    }
}

/// The interactables of one object, in document order.
pub open spec fn object_items<P>(obj: Object<P>) -> Seq<InteractableView<P>> {
    match obj {
        Object::Text(l) => action_spans(obj, l.spans@),
        Object::Paragraph(l) => action_spans(obj, l.spans@),
        Object::Note(l, _) => action_spans(obj, l.spans@),
        Object::Quote(l, _) => action_spans(obj, l.spans@),
        Object::Heading(s, _) => if s.action is Some {
            seq![InteractableView::Span(obj, s)]
        } else {
            Seq::empty()
        },
        Object::Choice(key, options) => choice_items(obj, key, options@),
        _ => Seq::empty(),
    }
}

/// An interactable that does something when clicked: not a span whose
/// action is `Noop`.
pub open spec fn is_live<P>(e: InteractableView<P>) -> bool {
    !(e matches InteractableView::Span(_, s) && s.action matches Some(Action::Noop))
}

/// The live interactables among `items`, in order.
pub open spec fn live_items<P>(items: Seq<InteractableView<P>>) -> Seq<InteractableView<P>>
    decreases items.len(),
{
    if items.len() == 0 {
        Seq::empty()
    } else if is_live(items.last()) {
        live_items(items.drop_last()).push(items.last())
    } else {
        live_items(items.drop_last())
    }
}

/// The live interactables of all objects, in document order.
pub open spec fn flat_items<P>(objects: Seq<Object<P>>) -> Seq<InteractableView<P>>
    decreases objects.len(),
{
    if objects.len() == 0 {
        Seq::empty()
    } else {
        flat_items(objects.drop_last()) + live_items(object_items(objects.last()))
    }
}

/// The views of a list of interactables.
pub open spec fn views_of<'a, P>(items: Seq<Interactable<'a, P>>) -> Seq<InteractableView<P>> {
    items.map_values(|e: Interactable<'a, P>| e@)
}

fn push_action_spans<'a, P>(obj: &'a Object<P>, spans: &'a Vec<Span<P>>, out: &mut Vec<Interactable<'a, P>>)
    ensures
        views_of(final(out)@) == views_of(old(out)@) + action_spans(*obj, spans@),
{
    let ghost start = views_of(out@);
    let mut i: usize = 0;
    while i < spans.len()
        invariant
            i <= spans@.len(),
            views_of(out@) == start + action_spans(*obj, spans@.take(i as int)),
        decreases spans@.len() - i,
    {
        let ghost before = out@;
        assert(spans@.take(i + 1).drop_last() =~= spans@.take(i as int));
        if spans[i].action.is_some() {
            out.push(Interactable::Span(obj, &spans[i]));
            assert(views_of(out@) =~= views_of(before).push(InteractableView::Span(*obj, spans@[i as int])));
        }
        i = i + 1;
        assert(views_of(out@) =~= start + action_spans(*obj, spans@.take(i as int)));
    }
    assert(spans@.take(i as int) =~= spans@);
}

fn all_act<P>(line: &Line<P>) -> (r: bool)
    ensures
        r == all_spans_act(*line),
{
    let mut i: usize = 0;
    while i < line.spans.len()
        invariant
            i <= line.spans@.len(),
            forall|j: int| 0 <= j < i ==> (#[trigger] line.spans@[j]).action is Some,
        decreases line.spans@.len() - i,
    {
        if line.spans[i].action.is_none() {
            return false;
        }
        i = i + 1;
    }
    true
}

fn object_interactables<'a, P>(obj: &'a Object<P>) -> (r: Vec<Interactable<'a, P>>)
    ensures
        views_of(r@) == object_items(*obj),
{
    let mut bucket: Vec<Interactable<'a, P>> = Vec::new();
    assert(views_of(bucket@) =~= Seq::<InteractableView<P>>::empty());
    match obj {
        Object::Text(line) | Object::Paragraph(line) | Object::Note(line, _) | Object::Quote(line, _) => {
            push_action_spans(obj, &line.spans, &mut bucket);
        },
        Object::Heading(span, _) => {
            if span.action.is_some() {
                bucket.push(Interactable::Span(obj, span));
                assert(views_of(bucket@) =~= seq![InteractableView::Span(*obj, *span)]);
            }
        },
        Object::Choice(key, choices) => {
            let mut k: usize = 0;
            while k < choices.len()
                invariant
                    k <= choices@.len(),
                    views_of(bucket@) == choice_items(*obj, *key, choices@.take(k as int)),
                decreases choices@.len() - k,
            {
                assert(choices@.take(k + 1).drop_last() =~= choices@.take(k as int));
                let option = &choices[k];
                let ghost before = views_of(bucket@);
                if !all_act(&option.1) {
                    bucket.push(Interactable::Choice(key, choices, option.0));
                }
                let ghost mid = views_of(bucket@);
                assert(mid =~= before + if all_spans_act(option.1) {
                    Seq::<InteractableView<P>>::empty()
                } else {
                    seq![InteractableView::Choice(*key, option.0)]
                });
                push_action_spans(obj, &option.1.spans, &mut bucket);
                k = k + 1;
                assert(choices@.take(k as int).last() == *option);
            }
            assert(choices@.take(k as int) =~= choices@);
        },
        _ => {},
    }
    bucket
}

fn push_live<'a, P>(items: &Vec<Interactable<'a, P>>, out: &mut Vec<Interactable<'a, P>>)
    ensures
        views_of(final(out)@) == views_of(old(out)@) + live_items(views_of(items@)),
{
    let ghost start = views_of(out@);
    let mut i: usize = 0;
    while i < items.len()
        invariant
            i <= items@.len(),
            views_of(out@) == start + live_items(views_of(items@.take(i as int))),
        decreases items@.len() - i,
    {
        let ghost before = out@;
        assert(views_of(items@.take(i + 1)).drop_last() =~= views_of(items@.take(i as int)));
        assert(views_of(items@.take(i + 1)).last() == items@[i as int]@);
        let e = items[i];
        let live = match e {
            Interactable::Span(_, s) => match &s.action {
                Some(Action::Noop) => false,
                _ => true,
            },
            _ => true,
        };
        if live {
            out.push(e);
            assert(views_of(out@) =~= views_of(before).push(e@));
        }
        i = i + 1;
        assert(views_of(out@) =~= start + live_items(views_of(items@.take(i as int))));
    }
    assert(items@.take(i as int) =~= items@);
}

impl<P> View<P> {
    /// The interactables of each object, one bucket per object, in document
    /// order.
    pub fn interactables<'a>(&'a self) -> (r: Vec<Vec<Interactable<'a, P>>>)
        ensures
            r@.len() == self.inner@.len(),
            forall|i: int| 0 <= i < r@.len() ==> views_of(#[trigger] r@[i]@) == object_items(self.inner@[i]),
    {
        let mut out: Vec<Vec<Interactable<'a, P>>> = Vec::new();
        let mut i: usize = 0;
        while i < self.inner.len()
            invariant
                i <= self.inner@.len(),
                out@.len() == i,
                forall|j: int| 0 <= j < i ==> views_of(#[trigger] out@[j]@) == object_items(self.inner@[j]),
            decreases self.inner@.len() - i,
        {
            out.push(object_interactables(&self.inner[i]));
            i = i + 1;
        }
        out
    }

    /// All interactables in document order, without spans whose action is
    /// `Noop`.
    pub fn interactables_flat<'a>(&'a self) -> (r: Vec<Interactable<'a, P>>)
        ensures
            views_of(r@) == flat_items(self.inner@),
    {
        let mut out: Vec<Interactable<'a, P>> = Vec::new();
        assert(views_of(out@) =~= Seq::<InteractableView<P>>::empty());
        let mut i: usize = 0;
        while i < self.inner.len()
            invariant
                i <= self.inner@.len(),
                views_of(out@) == flat_items(self.inner@.take(i as int)),
            decreases self.inner@.len() - i,
        {
            assert(self.inner@.take(i + 1).drop_last() =~= self.inner@.take(i as int));
            let bucket = object_interactables(&self.inner[i]);
            push_live(&bucket, &mut out);
            i = i + 1;
        }
        assert(self.inner@.take(i as int) =~= self.inner@);
        out
    }
}

} // verus!

verus! {

impl<C, P: Copy> Game<C, P> {
    /// Applies what an interactable does, on behalf of the page `pageid`: a
    /// choice option sets its bit in the page's mask under the choice's key;
    /// a span's action is dispatched.
    pub fn interact(&mut self, e: Interactable<'_, P>, pageid: &PageId) -> (r: Result<(), GameError>)
        requires
            old(self).wf(),
            e.applicable(),
        ensures
            final(self).wf(),
            final(self).tags == old(self).tags,
            final(self).simulating == old(self).simulating,
            final(self).inner.fresh == old(self).inner.fresh,
            final(self).inner.iterations == old(self).inner.iterations,
            final(self).context == old(self).context,
            match e {
                Interactable::Choice(key, _, index) => r is Ok && final(self).inner.pages == old(self).inner.pages
                    && final(self).inner.state@ == set_bit_spec(old(self).inner.state@, (pageid@, *key), index),
                Interactable::Span(_, s) => action_spec(
                    old(self).inner.state@,
                    old(self).inner.pages@,
                    s.action.unwrap(),
                    final(self).inner.state@,
                    final(self).inner.pages@,
                    r,
                ),
            },
    {
        match e {
            Interactable::Choice(key, _, index) => {
                self.inner.handle_choice((pageid.clone(), *key), index);
                Ok(())
            },
            Interactable::Span(_, s) => {
                let action = s.action.as_ref().unwrap().copied();
                self.inner.handle_action(action)
            },
        }
    }

    /// For each live interactable of the view, a copy of this game with it
    /// applied, or the error that applying it gave.
    pub fn interact_all(&self, view: &View<P>) -> (r: Vec<Result<Game<C, P>, GameError>>)
        where
            C: Clone,
        requires
            self.wf(),
            forall|i: int| 0 <= i < flat_items(view.inner@).len() ==> #[trigger] flat_items(view.inner@)[i].applicable(),
        ensures
            r@.len() == flat_items(view.inner@).len(),
            forall|i: int|
                0 <= i < r@.len() ==> {
                    let e = flat_items(view.inner@)[i];
                    match #[trigger] r@[i] {
                        Ok(g) => g.wf() && g.tags@ == self.tags@ && g.simulating == self.simulating && g.inner.fresh
                            == self.inner.fresh && g.inner.iterations == self.inner.iterations && applied(self, e, view.pageid@, g.inner.state@, g.inner.pages@, Ok(())),
                        Err(err) => exists|store_after: StateMap, hist_after: Seq<Frame<P>>| applied(self, e, view.pageid@, store_after, hist_after, Err(err)),
                    }
                },
    {
        let items = view.interactables_flat();
        let mut out: Vec<Result<Game<C, P>, GameError>> = Vec::new();
        let mut i: usize = 0;
        while i < items.len()
            invariant
                self.wf(),
                views_of(items@) == flat_items(view.inner@),
                forall|j: int| 0 <= j < flat_items(view.inner@).len() ==> #[trigger] flat_items(view.inner@)[j].applicable(),
                i <= items@.len(),
                out@.len() == i,
                forall|j: int|
                    0 <= j < i ==> {
                        let e = flat_items(view.inner@)[j];
                        match #[trigger] out@[j] {
                            Ok(g) => g.wf() && g.tags@ == self.tags@ && g.simulating == self.simulating && g.inner.fresh
                            == self.inner.fresh && g.inner.iterations == self.inner.iterations && applied(self, e, view.pageid@, g.inner.state@, g.inner.pages@, Ok(())),
                            Err(err) => exists|store_after: StateMap, hist_after: Seq<Frame<P>>| applied(self, e, view.pageid@, store_after, hist_after, Err(err)),
                        }
                    },
            decreases items@.len() - i,
        {
            let e = items[i];
            assert(views_of(items@)[i as int] == e@);
            assert(e@.applicable());
            let mut g = self.fork();
            let res = g.interact(e, &view.pageid);
            let ghost store_after = g.inner.state@;
            let ghost hist_after = g.inner.pages@;
            match res {
                Ok(()) => out.push(Ok(g)),
                Err(err) => {
                    assert(applied(self, e@, view.pageid@, store_after, hist_after, Err(err)));
                    out.push(Err(err));
                },
            }
            i = i + 1;
        }
        out
    }
}

/// Applying the interactable `e` to `game` on behalf of page `pageid` can
/// yield the store `store_after`, the history `hist_after` and the result `r`.
pub open spec fn applied<C, P>(
    game: &Game<C, P>,
    e: InteractableView<P>,
    pageid: Seq<char>,
    store_after: StateMap,
    hist_after: Seq<Frame<P>>,
    r: Result<(), GameError>,
) -> bool {
    match e {
        InteractableView::Choice(key, index) => r is Ok && hist_after == game.inner.pages@ && store_after == set_bit_spec(
            game.inner.state@,
            (pageid, key),
            index,
        ),
        InteractableView::Span(_, s) => action_spec(game.inner.state@, game.inner.pages@, s.action.unwrap(), store_after, hist_after, r),
    }
}

impl<P> InteractableView<P> {
    /// The interactable can be applied.
    pub open spec fn applicable(&self) -> bool {
        match *self {
            InteractableView::Choice(_, i) => i < 64,
            InteractableView::Span(_, s) => s.action matches Some(a) && action_ok(a),
        }
    }
}

} // verus!
