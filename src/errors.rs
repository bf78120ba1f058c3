//! Error kinds of the navigation runtime and terminal outcomes of simulation.
use vstd::prelude::*;

verus! {

/// Failures of the page stack and of view resolution.
#[derive(Debug, Clone, Copy, Hash, PartialEq, Eq, Structural)]
pub enum GameError {
    /// An operation needed at least one frame on the page stack.
    NoStack,
    /// A frame-local operation had no valid target.
    NoPage,
    /// The game ended on purpose.
    End,
}

/// How a simulated branch came to an end.
#[derive(Debug, Clone, Hash, Eq)]
pub enum SimEnd {
    GameError(GameError),
    Tunnel(String),
    TunnelExit,
    Custom(String),
}

/// The mathematical value of a [`SimEnd`].
pub enum SimEndView {
    GameError(GameError),
    Tunnel(Seq<char>),
    TunnelExit,
    Custom(Seq<char>),
}

impl View for SimEnd {
    type V = SimEndView;

    open spec fn view(&self) -> SimEndView {
        match self {
            SimEnd::GameError(e) => SimEndView::GameError(*e),
            SimEnd::Tunnel(s) => SimEndView::Tunnel(s@),
            SimEnd::TunnelExit => SimEndView::TunnelExit,
            SimEnd::Custom(s) => SimEndView::Custom(s@),
        }
    }
}

impl PartialEq for SimEnd {
    fn eq(&self, o: &SimEnd) -> (r: bool)
        ensures
            r == (self@ == o@),
    {
        match (self, o) {
            (SimEnd::GameError(a), SimEnd::GameError(b)) => *a == *b,
            (SimEnd::Tunnel(a), SimEnd::Tunnel(b)) => *a == *b,
            (SimEnd::TunnelExit, SimEnd::TunnelExit) => true,
            (SimEnd::Custom(a), SimEnd::Custom(b)) => *a == *b,
            _ => false,
        }
    }
}

impl vstd::std_specs::cmp::PartialEqSpecImpl for SimEnd {
    open spec fn obeys_eq_spec() -> bool {
        true
    }

    open spec fn eq_spec(&self, o: &SimEnd) -> bool {
        self@ == o@
    }
}

impl From<GameError> for SimEnd {
    fn from(e: GameError) -> (r: SimEnd)
        ensures
            r == SimEnd::GameError(e),
    {
        SimEnd::GameError(e)
    }
}

impl vstd::std_specs::convert::FromSpecImpl<GameError> for SimEnd {
    open spec fn obeys_from_spec() -> bool {
        true
    }

    open spec fn from_spec(e: GameError) -> SimEnd {
        SimEnd::GameError(e)
    }
}

} // verus!
