//! The page stack with its tunnels, the session around it, and the
//! dispatch of actions and page responses.
use vstd::prelude::*;
use vstd::view::View as Model;

use crate::action::{Action, InternalKey};
use crate::errors::GameError;
use crate::game_state::{inc_spec, insert_spec, remove_spec, set_bit_spec, GameState, StateMap};
use crate::page::{PageErased, PageHandle, PageId, Response};
use crate::tags::GameTags;
use crate::view::View;

verus! {

/// The history of the game: one frame per tunnel level, each frame a stack of
/// the pages visited in it, the current page last.
#[derive(Debug, Default, Clone)]
pub struct PageStack<P>(Vec<Vec<PageHandle<P>>>);

/// The handles of a frame, the current page last.
pub type Frame<P> = Seq<PageHandle<P>>;

/// The page on top of the top frame, if any.
pub open spec fn top_of<P>(frames: Seq<Frame<P>>) -> Option<PageHandle<P>> {
    if frames.len() > 0 && frames.last().len() > 0 {
        Some(frames.last().last())
    } else {
        None
    }
}

/// Pushing `page` onto the top frame: nothing happens when the frame's
/// current page already has the same id.
pub open spec fn frame_push<P>(frame: Frame<P>, page: PageHandle<P>) -> Frame<P> {
    if frame.len() > 0 && frame.last().id@ == page.id@ {
        frame
    } else {
        frame.push(page)
    }
}

/// The frames with the top one replaced.
pub open spec fn with_top<P>(frames: Seq<Frame<P>>, top: Frame<P>) -> Seq<Frame<P>> {
    frames.drop_last().push(top)
}

/// Replacing the top frame keeps the other frames and the number of frames.
pub(crate) proof fn lemma_with_top<P>(frames: Seq<Frame<P>>, top: Frame<P>)
    requires
        frames.len() > 0,
    ensures
        with_top(frames, top).len() == frames.len(),
        with_top(frames, top).last() == top,
        with_top(frames, top).drop_last() == frames.drop_last(),
{
    assert(with_top(frames, top).drop_last() =~= frames.drop_last());
}

impl<P> Model for PageStack<P> {
    type V = Seq<Frame<P>>;

    closed spec fn view(&self) -> Seq<Frame<P>> {
        self.0@.map_values(|f: Vec<PageHandle<P>>| f@)
    }
}

impl<P: Copy> PageStack<P> {
    pub fn new_with_page(page: PageHandle<P>) -> (r: PageStack<P>)
        ensures
            r@ == seq![seq![page]],
    {
        let frame = vec![page];
        let r = PageStack(vec![frame]);
        assert(frame@ =~= seq![page]);
        assert(r.0@.len() == 1 && r.0@[0] == frame);
        assert(r@ =~= seq![seq![page]]);
        r
    }

    /// An identical copy.
    pub fn duplicate(&self) -> (r: PageStack<P>)
        ensures
            r@ == self@,
    {
        let mut frames: Vec<Vec<PageHandle<P>>> = Vec::new();
        let mut i: usize = 0;
        while i < self.0.len()
            invariant
                i <= self.0@.len(),
                frames@.len() == i,
                forall|j: int| 0 <= j < i ==> #[trigger] frames@[j]@ == self.0@[j]@,
            decreases self.0@.len() - i,
        {
            let frame = &self.0[i];
            let mut copy: Vec<PageHandle<P>> = Vec::new();
            let mut k: usize = 0;
            while k < frame.len()
                invariant
                    k <= frame@.len(),
                    copy@ == frame@.take(k as int),
                decreases frame@.len() - k,
            {
                copy.push(frame[k].copied());
                k = k + 1;
                assert(copy@ =~= frame@.take(k as int));
            }
            assert(frame@.take(k as int) =~= frame@);
            frames.push(copy);
            i = i + 1;
        }
        let r = PageStack(frames);
        assert(r@ =~= self@);
        r
    }

    /// The current page: the last handle of the top frame.
    pub fn current(&self) -> (r: Option<PageHandle<P>>)
        ensures
            r == top_of(self@),
    {
        let n = self.0.len();
        if n == 0 {
            return None;
        }
        let top = &self.0[n - 1];
        assert(top@ == self@.last());
        let m = top.len();
        if m == 0 {
            return None;
        }
        Some(top[m - 1].copied())
    }

    /// The current page, to be changed in place.
    pub fn current_mut(&mut self) -> (r: Option<&mut PageHandle<P>>)
        ensures
            top_of(old(self)@) is None ==> r is None && final(self)@ == old(self)@,
            top_of(old(self)@) is Some ==> r is Some && *r.unwrap() == top_of(old(self)@).unwrap() && final(self)@
                == with_top(
                old(self)@,
                old(self)@.last().update(old(self)@.last().len() - 1, *final(r.unwrap())),
            ),
    {
        let n = self.0.len();
        if n == 0 || self.0[n - 1].len() == 0 {
            return None;
        }
        let top = self.0.last_mut().unwrap();
        top.last_mut()
    }

    /// Appends a page to the top frame, unless that frame's current page has
    /// the same id.
    pub fn push(&mut self, page: PageHandle<P>) -> (r: Result<(), GameError>)
        ensures
            old(self)@.len() == 0 ==> r == Err::<(), GameError>(GameError::NoStack) && final(self)@ == old(self)@,
            old(self)@.len() > 0 ==> r is Ok && final(self)@ == with_top(old(self)@, frame_push(old(self)@.last(), page)),
    {
        match self.0.pop() {
            None => Err(GameError::NoStack),
            Some(mut stack) => {
                proof {
                    assert(stack@ == old(self)@.last());
                }
                let fresh = match stack.last() {
                    Some(last) => last.id != page.id,
                    None => true,
                };
                if fresh {
                    stack.push(page);
                }
                self.0.push(stack);
                proof {
                    assert(self@ =~= with_top(old(self)@, frame_push(old(self)@.last(), page)));
                }
                Ok(())
            },
        }
    }

    /// Empties the top frame.
    pub fn clear(&mut self)
        ensures
            old(self)@.len() == 0 ==> final(self)@ == old(self)@,
            old(self)@.len() > 0 ==> final(self)@ == with_top(old(self)@, Seq::<PageHandle<P>>::empty()),
    {
        match self.0.pop() {
            None => {},
            Some(_) => {
                self.0.push(Vec::new());
                assert(self@ =~= with_top(old(self)@, Seq::<PageHandle<P>>::empty()));
            },
        }
    }

    /// The number of handles in the top frame.
    pub fn len(&self) -> (r: usize)
        ensures
            r == (if self@.len() == 0 { 0 } else { self@.last().len() }),
    {
        let n = self.0.len();
        if n == 0 {
            0
        } else {
            self.0[n - 1].len()
        }
    }

    pub fn is_empty(&self) -> (r: bool)
        ensures
            r == (self@.len() == 0 || self@.last().len() == 0),
    {
        self.len() == 0
    }

    /// Removes and returns the current page.
    pub fn pop(&mut self) -> (r: Option<PageHandle<P>>)
        ensures
            r == top_of(old(self)@),
            r is None ==> final(self)@ == old(self)@,
            r is Some ==> final(self)@ == with_top(old(self)@, old(self)@.last().drop_last()),
    {
        match self.0.pop() {
            None => None,
            Some(mut stack) => {
                proof {
                    assert(stack@ == old(self)@.last());
                }
                let r = stack.pop();
                self.0.push(stack);
                proof {
                    if r is None {
                        assert(self@ =~= old(self)@);
                    } else {
                        assert(self@ =~= with_top(old(self)@, old(self)@.last().drop_last()));
                    }
                }
                r
            },
        }
    }

    /// Goes back `n` entries in the top frame, which must keep at least one;
    /// returns the new current page.
    pub fn pop_n(&mut self, n: usize) -> (r: Result<PageHandle<P>, GameError>)
        ensures
            old(self)@.len() == 0 ==> r == Err::<PageHandle<P>, GameError>(GameError::NoStack)
                && final(self)@ == old(self)@,
            old(self)@.len() > 0 && n >= old(self)@.last().len() ==> r == Err::<PageHandle<P>, GameError>(
                GameError::NoPage,
            ) && final(self)@ == old(self)@,
            old(self)@.len() > 0 && n < old(self)@.last().len() ==> {
                let kept = old(self)@.last().take(old(self)@.last().len() - n);
                &&& final(self)@ == with_top(old(self)@, kept)
                &&& r == Ok::<PageHandle<P>, GameError>(kept.last())
            },
    {
        match self.0.pop() {
            None => Err(GameError::NoStack),
            Some(mut stack) => {
                proof {
                    assert(stack@ == old(self)@.last());
                }
                if n < stack.len() {
                    let keep = stack.len() - n;
                    stack.truncate(keep);
                    let top = stack[keep - 1].copied();
                    self.0.push(stack);
                    proof {
                        assert(self@ =~= with_top(old(self)@, old(self)@.last().take(keep as int)));
                    }
                    Ok(top)
                } else {
                    self.0.push(stack);
                    proof {
                        assert(self@ =~= old(self)@);
                    }
                    Err(GameError::NoPage)
                }
            },
        }
    }

    /// Enters a tunnel: pushes an empty frame.
    pub fn adv_stack(&mut self)
        ensures
            final(self)@ == old(self)@.push(Seq::<PageHandle<P>>::empty()),
    {
        self.0.push(Vec::new());
        assert(self@ =~= old(self)@.push(Seq::<PageHandle<P>>::empty()));
    }

    /// Leaves a tunnel: removes and returns the top frame, unless it is the
    /// only one left.
    pub fn pop_stack(&mut self) -> (r: Option<Vec<PageHandle<P>>>)
        ensures
            old(self)@.len() <= 1 ==> r is None && final(self)@ == old(self)@,
            old(self)@.len() > 1 ==> (r matches Some(f) && f@ == old(self)@.last()) && final(self)@
                == old(self)@.drop_last(),
    {
        if self.0.len() <= 1 {
            return None;
        }
        let r = self.0.pop();
        assert(self@ =~= old(self)@.drop_last());
        r
    }
}

/// The state of a game that does not depend on its context type.
#[derive(Debug, Clone)]
pub struct GameInner<P> {
    pub state: GameState,
    pub pages: PageStack<P>,
    pub fresh: bool,
    pub iterations: usize,
}

/// What `handle_action` does to the state store.
pub open spec fn action_state_effect<P>(m: StateMap, action: Action<P>) -> StateMap {
    match action {
        Action::SetBit(k, b) => set_bit_spec(m, (k.0@, k.1), b),
        Action::SetValue(k, v) => insert_spec(m, (k.0@, k.1), v),
        Action::Inc(k) => inc_spec(m, (k.0@, k.1)),
        Action::Reset(k) => remove_spec(m, (k.0@, k.1)),
        _ => m,
    }
}

/// What applying `action` to the store `store` and the history `hist` yields:
/// the store `store_after`, the history `hist_after` and the result `r`.
pub open spec fn action_spec<P>(
    store: StateMap,
    hist: Seq<Frame<P>>,
    action: Action<P>,
    store_after: StateMap,
    hist_after: Seq<Frame<P>>,
    r: Result<(), GameError>,
) -> bool {
    &&& store_after == action_state_effect(store, action)
    &&& match action {
        Action::Next(h) => {
            &&& hist.len() == 0 ==> r == Err::<(), GameError>(GameError::NoStack) && hist_after == hist
            &&& hist.len() > 0 ==> r is Ok && exists|nid: String|
                nid@.len() == 0 && hist_after == #[trigger] with_top(
                    hist,
                    frame_push(hist.last(), PageHandle { widget: h.widget, id: nid }),
                )
        },
        Action::Back(n) => {
            &&& hist.len() == 0 ==> r == Err::<(), GameError>(GameError::NoStack) && hist_after == hist
            &&& hist.len() > 0 && n >= hist.last().len() ==> r == Err::<(), GameError>(GameError::NoPage) && hist_after == hist
            &&& hist.len() > 0 && n < hist.last().len() ==> r is Ok && hist_after == with_top(
                hist,
                hist.last().take(hist.last().len() - n),
            )
        },
        Action::Tunnel(h) => {
            &&& r is Ok
            &&& hist_after.len() == hist.len() + 1
            &&& hist_after.drop_last() == hist
            &&& hist_after.last().len() == 1
            &&& hist_after.last()[0].widget == h.widget
            &&& hist_after.last()[0].id@ == Seq::<char>::empty()
        },
        Action::Exit => {
            &&& hist.len() <= 1 ==> r == Err::<(), GameError>(GameError::End) && hist_after == hist
            &&& hist.len() > 1 ==> r is Ok && hist_after == hist.drop_last()
        },
        _ => r is Ok && hist_after == hist,
    }
}

/// A bit index that fits a 64-bit mask.
pub open spec fn action_ok<P>(action: Action<P>) -> bool {
    action matches Action::SetBit(_, b) ==> b < 64
}

impl<P: Copy> GameInner<P> {
    pub open spec fn wf(&self) -> bool {
        self.state.wf()
    }

    /// Records the choice of option `index` as a bit of the mask at `key`.
    pub fn handle_choice(&mut self, key: InternalKey, index: u8)
        requires
            old(self).wf(),
            index < 64,
        ensures
            final(self).wf(),
            final(self).pages == old(self).pages,
            final(self).fresh == old(self).fresh,
            final(self).iterations == old(self).iterations,
            final(self).state@ == set_bit_spec(old(self).state@, (key.0@, key.1), index),
    {
        self.state.set_bit(key, index)
    }

    /// Applies one action to the state store or to the page stack.
    ///
    /// Navigation only adjusts the stack; a page pushed by `Next` or `Tunnel`
    /// gets an empty id, to be replaced by its resolved id once it renders.
    pub fn handle_action(&mut self, action: Action<P>) -> (r: Result<(), GameError>)
        requires
            old(self).wf(),
            action_ok(action),
        ensures
            final(self).wf(),
            final(self).fresh == old(self).fresh,
            final(self).iterations == old(self).iterations,
            action_spec(old(self).state@, old(self).pages@, action, final(self).state@, final(self).pages@, r),
    {
        match action {
            Action::Noop => {},
            Action::SetBit(k, v) => {
                self.state.set_bit(k, v);
            },
            Action::SetValue(k, v) => {
                self.state.insert(k, v);
            },
            Action::Inc(k) => {
                self.state.inc(&k);
            },
            Action::Reset(k) => {
                self.state.remove(&k);
            },
            Action::Next(page) => {
                let page = PageHandle { widget: page.widget, id: String::new() };
                return self.pages.push(page);
            },
            Action::Back(n) => {
                return match self.pages.pop_n(n) {
                    Ok(_) => Ok(()),
                    Err(e) => Err(e),
                };
            },
            Action::Tunnel(page) => {
                self.pages.adv_stack();
                let page = PageHandle { widget: page.widget, id: String::new() };
                let r = self.pages.push(page);
                assert(self.pages@.last() =~= seq![page]);
                assert(self.pages@.drop_last() =~= old(self).pages@);
                return r;
            },
            Action::Exit => {
                return match self.pages.pop_stack() {
                    Some(_) => Ok(()),
                    None => Err(GameError::End),
                };
            },
        }
        Ok(())
    }
}

/// A game: the state store, the page stack, a context of type `C` that
/// pages use as they like, and the tags attached so far.
#[derive(Debug, Clone)]
pub struct Game<C, P> {
    pub inner: GameInner<P>,
    pub context: C,
    pub tags: GameTags,
    pub simulating: bool,
}

/// What became of a page's response.
pub enum Resolution<P> {
    /// The page produced a view; it is now the current page.
    Viewed(View<P>),
    /// Resolution goes on with this page.
    Continue(PageHandle<P>),
}

impl<C, P: Copy> Game<C, P> {
    pub open spec fn wf(&self) -> bool {
        self.inner.wf() && self.tags.wf()
    }

    /// A new game whose only page is `page`, with empty state and tags and
    /// the default context.
    pub fn new_with_page(page_name: PageId, page: P) -> (r: Game<C, P>)
        where
            C: Default,
        ensures
            r.wf(),
            r.inner.state@ == Map::<Seq<char>, Map<u64, u64>>::empty(),
            r.inner.pages@ == seq![seq![PageHandle { widget: page, id: page_name }]],
            r.inner.fresh,
            r.inner.iterations == 0,
            r.tags@ == Set::<Seq<char>>::empty(),
            !r.simulating,
    {
        let widget = PageHandle::new(page_name, page);
        let inner = GameInner {
            state: GameState::new(),
            pages: PageStack::new_with_page(widget),
            fresh: true,
            iterations: 0,
        };
        Game { context: C::default(), tags: GameTags::new(), inner, simulating: false }
    }

    /// A copy of the game: the same state, history, tags and flags, and a
    /// clone of the context.
    pub fn fork(&self) -> (r: Game<C, P>)
        where
            C: Clone,
        requires
            self.wf(),
        ensures
            r.wf(),
            r.inner.state@ == self.inner.state@,
            r.inner.pages@ == self.inner.pages@,
            r.inner.fresh == self.inner.fresh,
            r.inner.iterations == self.inner.iterations,
            r.tags@ == self.tags@,
            r.simulating == self.simulating,
    {
        Game {
            inner: GameInner {
                state: self.inner.state.duplicate(),
                pages: self.inner.pages.duplicate(),
                fresh: self.inner.fresh,
                iterations: self.inner.iterations,
            },
            context: self.context.clone(),
            tags: self.tags.duplicate(),
            simulating: self.simulating,
        }
    }

    /// Whether this game is being simulated.
    pub fn simulating(&self) -> (r: bool)
        ensures
            r == self.simulating,
    {
        self.simulating
    }

    /// The first step of resolving a view: the current page to invoke.
    ///
    /// A current page with an empty id is a placeholder pushed by navigation;
    /// it leaves the history here, and its resolved id replaces it once the
    /// page renders.
    pub fn begin_view(&mut self) -> (r: Result<PageHandle<P>, GameError>)
        ensures
            final(self).inner.state == old(self).inner.state,
            final(self).tags == old(self).tags,
            final(self).context == old(self).context,
            final(self).simulating == old(self).simulating,
            final(self).inner.fresh == old(self).inner.fresh,
            final(self).inner.iterations == old(self).inner.iterations,
            top_of(old(self).inner.pages@) is None ==> r == Err::<PageHandle<P>, GameError>(GameError::NoPage)
                && final(self).inner.pages@ == old(self).inner.pages@,
            top_of(old(self).inner.pages@) matches Some(h) ==> r == Ok::<PageHandle<P>, GameError>(h) && (
            if h.id@.len() == 0 {
                final(self).inner.pages@ == with_top(old(self).inner.pages@, old(self).inner.pages@.last().drop_last())
            } else {
                final(self).inner.pages@ == old(self).inner.pages@
            }),
    {
        match self.inner.pages.current() {
            None => Err(GameError::NoPage),
            Some(page) => {
                if page.id.as_str().is_empty() {
                    self.inner.pages.pop();
                }
                Ok(page)
            },
        }
    }

    /// One step of resolving a view: what the invoked `page` responded with
    /// is applied to the history.
    ///
    /// A view renames the page by the view's id and pushes it (an identical
    /// current page is not pushed twice); a switch continues with its target
    /// without touching the history; going back continues with the page that
    /// becomes current; a tunnel opens a new frame and continues with its
    /// target; an exit drops the top frame and continues with the current
    /// page beneath, or ends the game when that frame was the last one.
    pub fn resolve(&mut self, page: PageHandle<P>, response: Response<P>) -> (r: Result<Resolution<P>, GameError>)
        ensures
            final(self).inner.state == old(self).inner.state,
            final(self).tags == old(self).tags,
            final(self).context == old(self).context,
            resolve_spec(old(self).inner.pages@, page, response, final(self).inner.pages@, r),
    {
        match response {
            Response::View(view) => {
                let page = PageHandle { widget: page.widget, id: view.pageid.clone() };
                let ghost before = self.inner.pages@;
                let pushed = self.inner.pages.push(page);
                proof {
                    if before.len() > 0 {
                        lemma_with_top(before, frame_push(before.last(), page));
                        let after = self.inner.pages@;
                        assert(after.last() == frame_push(before.last(), page));
                        if before.last().len() > 0 && before.last().last().id@ == page.id@ {
                            assert(after.last() == before.last());
                            assert(frame_push(before.last(), after.last().last()) == before.last());
                        } else {
                            assert(after.last().last() == page);
                        }
                    }
                }
                match pushed {
                    Ok(()) => Ok(Resolution::Viewed(view)),
                    Err(e) => Err(e),
                }
            },
            Response::Switch(next) => Ok(Resolution::Continue(next)),
            Response::Back(n) => match self.inner.pages.pop_n(n) {
                Ok(p) => {
                    proof {
                        lemma_with_top(old(self).inner.pages@, old(self).inner.pages@.last().take(old(self).inner.pages@.last().len() - n));
                    }
                    Ok(Resolution::Continue(p))
                },
                Err(e) => Err(e),
            },
            Response::Tunnel(next) => {
                self.inner.pages.adv_stack();
                Ok(Resolution::Continue(next))
            },
            Response::Exit => match self.inner.pages.pop_stack() {
                None => Err(GameError::End),
                Some(_) => match self.inner.pages.current() {
                    None => Err(GameError::NoPage),
                    Some(p) => Ok(Resolution::Continue(p)),
                },
            },
            Response::End => Err(GameError::End),
        }
    }
}

/// How one response changes the history (`before` to `after`) and what
/// resolution yields.
pub open spec fn resolve_spec<P>(
    before: Seq<Frame<P>>,
    page: PageHandle<P>,
    response: Response<P>,
    after: Seq<Frame<P>>,
    r: Result<Resolution<P>, GameError>,
) -> bool {
    match response {
        Response::View(v) => {
            let named = PageHandle { widget: page.widget, id: v.pageid };
            if before.len() == 0 {
                r == Err::<Resolution<P>, GameError>(GameError::NoStack) && after == before
            } else {
                &&& r matches Ok(Resolution::Viewed(w)) && w == v
                &&& after == with_top(before, frame_push(before.last(), named))
                &&& after.len() == before.len()
                &&& after.drop_last() == before.drop_last()
                &&& after.last().len() > 0
                &&& after.last().last().id@ == v.pageid@
            }
        },
        Response::Switch(next) => r == Ok::<Resolution<P>, GameError>(Resolution::Continue(next)) && after == before,
        Response::Back(n) => if before.len() == 0 {
            r == Err::<Resolution<P>, GameError>(GameError::NoStack) && after == before
        } else if n >= before.last().len() {
            r == Err::<Resolution<P>, GameError>(GameError::NoPage) && after == before
        } else {
            let kept = before.last().take(before.last().len() - n);
            r == Ok::<Resolution<P>, GameError>(Resolution::Continue(kept.last())) && after == with_top(before, kept)
        },
        Response::Tunnel(next) => r == Ok::<Resolution<P>, GameError>(Resolution::Continue(next)) && after
            == before.push(Seq::<PageHandle<P>>::empty()),
        Response::Exit => if before.len() <= 1 {
            r == Err::<Resolution<P>, GameError>(GameError::End) && after == before
        } else {
            &&& after == before.drop_last()
            &&& match top_of(after) {
                None => r == Err::<Resolution<P>, GameError>(GameError::NoPage),
                Some(h) => r == Ok::<Resolution<P>, GameError>(Resolution::Continue(h)),
            }
        },
        Response::End => r == Err::<Resolution<P>, GameError>(GameError::End) && after == before,
    }
}

impl<C: Clone, P: Copy + PageErased<C>> Game<C, P> {
    /// The resolved id of the current page: the page is invoked once on a
    /// copy of the game, and the id of its view is returned if it produced
    /// one (see [`response_id`]). The game itself is left untouched.
    pub fn id(&self) -> (r: Option<PageId>)
        requires
            self.wf(),
        ensures
            top_of(self.inner.pages@) is None ==> r is None,
    {
        let mut test = self.fork();
        match self.inner.pages.current() {
            None => None,
            Some(page) => response_id(page.call(&mut test)),
        }
    }
}

/// The id of the view a response carries, if it is a view.
pub open spec fn response_id_spec<P>(r: Response<P>) -> Option<PageId> {
    match r {
        Response::View(v) => Some(v.pageid),
        _ => None,
    }
}

/// The id of the view a response carries, if it is a view.
pub fn response_id<P>(r: Response<P>) -> (o: Option<PageId>)
    ensures
        o == response_id_spec(r),
{
    match r {
        Response::View(view) => Some(view.pageid),
        _ => None,
    }
}

impl<P> PageHandle<P> {
    /// Invokes the page on the game.
    pub fn call<C>(&self, game: &mut Game<C, P>) -> Response<P>
        where
            P: PageErased<C>,
    {
        self.widget.call(game)
    }
}

} // verus!
