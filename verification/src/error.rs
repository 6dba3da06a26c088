use vstd::prelude::*;

verus! {

/// Why a lookup or a placement was refused.
#[derive(Debug, Clone, Copy, PartialEq, Eq, Structural)]
pub enum WorldError {
    /// No record is stored under the entity id.
    NotFound,
    /// A record is stored under the id, but it holds another type than the one asked for.
    TypeMismatch,
    /// The entity has no coordinate on the grid.
    NotPlaced,
    /// Another entity already holds the coordinate.
    Occupied,
    /// The coordinate lies outside the rows of the grid.
    OutOfBounds,
}

} // verus!
