//! Page identities, handles and the responses a page gives when invoked.
use vstd::prelude::*;

use crate::game::Game;
use crate::view::View;

verus! {

/// The resolved (or declared) name of a page.
pub type PageId = String;

/// A key scoped to one page's state.
pub type PageKey = u64;

/// A page paired with its identity.
///
/// `widget` is the callable that runs the page; the engine never looks inside
/// it and only copies it around.
#[derive(Debug, Clone)]
pub struct PageHandle<P> {
    pub widget: P,
    pub id: PageId,
}

impl<P: Copy> PageHandle<P> {
    pub fn new(name: PageId, widget: P) -> (r: PageHandle<P>)
        ensures
            r.id == name,
            r.widget == widget,
    {
        PageHandle { widget, id: name }
    }

    /// An identical handle: the widget is copied, the id cloned.
    pub fn copied(&self) -> (r: PageHandle<P>)
        ensures
            r == *self,
    {
        PageHandle { widget: self.widget, id: self.id.clone() }
    }
}

/// What a page hands back when it is invoked.
pub enum Response<P> {
    /// The page produced a view.
    View(View<P>),
    /// Continue invisibly with another page.
    Switch(PageHandle<P>),
    /// Go back this many entries in the current frame.
    Back(usize),
    /// Enter a tunnel whose first page is the given one.
    Tunnel(PageHandle<P>),
    /// Leave the current tunnel.
    Exit,
    /// End the game.
    End,
}

/// A page of a game whose context has type `C`: invoking it with the session
/// yields a [`Response`].
pub trait PageErased<C>: Sized {
    fn call(&self, game: &mut Game<C, Self>) -> Response<Self>;
}

} // verus!
