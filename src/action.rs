//! The commands that interactive elements trigger.
use vstd::prelude::*;

use crate::page::{PageHandle, PageKey, PageId};

verus! {

/// A key into the state store: the owning page and the key within it.
pub type InternalKey = (PageId, PageKey);

/// An effect attached to a span; spans with an action occlude their
/// containing object.
#[derive(Debug)]
pub enum Action<P> {
    Noop,
    SetBit(InternalKey, u8),
    SetValue(InternalKey, u64),
    Inc(InternalKey),
    Reset(InternalKey),
    /// The handle's id is only the declared name, not the resolved one.
    Next(PageHandle<P>),
    Back(usize),
    Tunnel(PageHandle<P>),
    Exit,
}

impl<P: Clone> Clone for Action<P> {
    fn clone(&self) -> Self {
        match self {
            Action::Noop => Action::Noop,
            Action::SetBit(k, b) => Action::SetBit((k.0.clone(), k.1), *b),
            Action::SetValue(k, v) => Action::SetValue((k.0.clone(), k.1), *v),
            Action::Inc(k) => Action::Inc((k.0.clone(), k.1)),
            Action::Reset(k) => Action::Reset((k.0.clone(), k.1)),
            Action::Next(h) => Action::Next(h.clone()),
            Action::Back(n) => Action::Back(*n),
            Action::Tunnel(h) => Action::Tunnel(h.clone()),
            Action::Exit => Action::Exit,
        }
    }
}

impl<P: Copy> Action<P> {
    /// An identical action.
    pub fn copied(&self) -> (r: Action<P>)
        ensures
            r == *self,
    {
        match self {
            Action::Noop => Action::Noop,
            Action::SetBit(k, b) => Action::SetBit((k.0.clone(), k.1), *b),
            Action::SetValue(k, v) => Action::SetValue((k.0.clone(), k.1), *v),
            Action::Inc(k) => Action::Inc((k.0.clone(), k.1)),
            Action::Reset(k) => Action::Reset((k.0.clone(), k.1)),
            Action::Next(h) => Action::Next(h.copied()),
            Action::Back(n) => Action::Back(*n),
            Action::Tunnel(h) => Action::Tunnel(h.copied()),
            Action::Exit => Action::Exit,
        }
    }
}

impl<P> Default for Action<P> {
    fn default() -> (r: Action<P>)
        ensures
            r is Noop,
    {
        Action::Noop
    }
}

} // verus!
