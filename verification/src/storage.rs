//! The storage of the ledger, as far as it is decided here: what is staged
//! for the next commit, and between which keys an iteration runs. The
//! persistent store itself is the caller's.

pub mod merk;

use vstd::prelude::*;

verus! {

/// The direction of an iteration over the keys.
#[derive(Clone, Copy, Debug, PartialEq, Eq, Structural)]
pub enum Direction {
    Forward,
    Backward,
}

/// One end of a range of keys.
#[derive(Debug)]
pub enum Bound {
    /// The range reaches the key and holds it.
    Included(Vec<u8>),
    /// The range reaches the key and does not hold it.
    Excluded(Vec<u8>),
    /// The range has no end on this side.
    Unbounded,
}

/// A bound as a mathematical value.
pub ghost enum BoundView {
    Included(Seq<u8>),
    Excluded(Seq<u8>),
    Unbounded,
}

impl View for Bound {
    type V = BoundView;

    open spec fn view(&self) -> BoundView {
        match self {
            Bound::Included(k) => BoundView::Included(k@),
            Bound::Excluded(k) => BoundView::Excluded(k@),
            Bound::Unbounded => BoundView::Unbounded,
        }
    }
}

/// Where the persistent store starts and stops an iteration.
#[derive(Debug)]
pub struct IterOptions {
    /// The first key that the iteration may yield, if it has one.
    pub lower_bound: Option<Vec<u8>>,
    /// The first key that the iteration may not reach, if it has one.
    pub upper_bound: Option<Vec<u8>>,
    /// Whether the iteration starts at the last key and runs backward.
    pub from_end: bool,
}

} // verus!
