//! Queries on arrays of flags.
use vstd::prelude::*;

verus! {

/// Whether all or any of a set of flags hold.
pub trait MaskExt {
    spec fn flags(&self) -> Seq<bool>;

    fn all(&self) -> (r: bool)
        ensures
            r == (forall|i: int| 0 <= i < self.flags().len() ==> #[trigger] self.flags()[i]);

    fn any(&self) -> (r: bool)
        ensures
            r == (exists|i: int| 0 <= i < self.flags().len() && #[trigger] self.flags()[i]);
}

impl<const N: usize> MaskExt for [bool; N] {
    open spec fn flags(&self) -> Seq<bool> {
        self@
    }

    fn all(&self) -> (r: bool) {
        let mut i: usize = 0;
        while i < N
            invariant
                i <= N,
                self@.len() == N,
                forall|j: int| 0 <= j < i ==> #[trigger] self@[j],
            decreases N - i,
        {
            if !self[i] {
                assert(!self.flags()[i as int]);
                return false;
            }
            i = i + 1;
        }
        true
    }

    fn any(&self) -> (r: bool) {
        let mut i: usize = 0;
        while i < N
            invariant
                i <= N,
                self@.len() == N,
                forall|j: int| 0 <= j < i ==> !#[trigger] self@[j],
            decreases N - i,
        {
            if self[i] {
                assert(self.flags()[i as int]);
                return true;
            }
            i = i + 1;
        }
        false
    }
}

} // verus!
