//! Draw-call bookkeeping shared by both emission modes.

use vstd::prelude::*;

verus! {

/// Triangle winding a renderer culls by.
#[derive(Clone, Copy, Debug, PartialEq, Eq, Structural)]
pub enum CullDirection {
    Clockwise,
    CounterClockwise,
}

/// How a batch is composited over the frame.
#[derive(Clone, Copy, Debug, PartialEq, Eq, Structural)]
pub enum BlendMode {
    Normal,
    Additive,
    Multiply,
    Screen,
}

} // verus!
