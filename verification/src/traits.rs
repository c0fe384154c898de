use vstd::prelude::*;

use crate::common::Position;

verus! {

/// Anything with a rectangular extent: a map, or a whole game state.
/// `spec_width`/`spec_height` are the mathematical dimensions; the exec
/// getters are required to agree with them. `dims_wf` is whatever the
/// implementor needs for the getters to be callable (a map being
/// well-formed); callers establish it once and pass it along.
pub trait HasDimensions {
    spec fn dims_wf(&self) -> bool;

    spec fn spec_width(&self) -> u32;

    spec fn spec_height(&self) -> u32;

    fn width(&self) -> (w: u32)
        requires
            self.dims_wf(),
        ensures
            w == self.spec_width(),
    ;

    fn height(&self) -> (h: u32)
        requires
            self.dims_wf(),
        ensures
            h == self.spec_height(),
    ;
}

/// Anything that occupies a tile on the grid.
pub trait HasPosition {
    spec fn spec_position(&self) -> Position;

    fn position(&self) -> (p: Position)
        ensures
            p == self.spec_position(),
    ;
}

} // verus!
