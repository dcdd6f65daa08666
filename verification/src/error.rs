//! Failure results surfaced to the caller.
//!
//! Malformed authoring data and dangling references are reported, never
//! silently defaulted; missing optional data (an empty slot, no active
//! clip) is normal and is not an error.

use vstd::prelude::*;

verus! {

/// Why an engine operation was refused.
#[derive(Clone, Copy, Debug, PartialEq, Eq, Structural)]
pub enum EngineError {
    /// Authoring data is malformed: a bone's parent does not precede it,
    /// or a scalar lies outside the storable range.
    Load,
    /// A reference could not be resolved: an attachment names a slot,
    /// bone or region that the data does not hold.
    Resolution,
    /// An operation named a track, slot or animation outside the valid
    /// range; prior state is left unchanged.
    State,
}

} // verus!
