//! Layout choices of a two-column view.

use vstd::prelude::*;

verus! {

/// The column of a two-column view whose width is fixed.
#[derive(Debug, Clone, Copy, PartialEq, Eq, Structural)]
pub enum FixedSide {
    Left,
}

} // verus!
