//! Building blocks that page bodies use to assemble choices.
use vstd::prelude::*;

use crate::view::Line;

verus! {

/// How an option of a choice list is shown.
#[derive(Debug)]
pub enum ChoiceVariant<P> {
    /// Shown until it has been chosen once.
    Once(Line<P>),
    /// Not shown.
    Hidden,
    /// Always shown.
    Always(Line<P>),
}

impl<P> ChoiceVariant<P> {
    /// The line to show, given whether the option was already chosen.
    pub fn as_line(self, seen: bool) -> (r: Option<Line<P>>)
        ensures
            r == match self {
                ChoiceVariant::Hidden => None,
                ChoiceVariant::Once(l) => if seen { None } else { Some(l) },
                ChoiceVariant::Always(l) => Some(l),
            },
    {
        match self {
            ChoiceVariant::Hidden => None,
            ChoiceVariant::Once(l) => {
                if seen {
                    None
                } else {
                    Some(l)
                }
            },
            ChoiceVariant::Always(l) => Some(l),
        }
    }

    /// An option shown until chosen.
    pub fn once(line: Line<P>) -> (r: ChoiceVariant<P>)
        ensures
            r == ChoiceVariant::Once(line),
    {
        ChoiceVariant::Once(line)
    }

    /// An option always shown when present, hidden when absent.
    pub fn from_option(line: Option<Line<P>>) -> (r: ChoiceVariant<P>)
        ensures
            r == match line {
                Some(l) => ChoiceVariant::Always(l),
                None => ChoiceVariant::Hidden,
            },
    {
        match line {
            Some(l) => ChoiceVariant::Always(l),
            None => ChoiceVariant::Hidden,
        }
    }
}

} // verus!
