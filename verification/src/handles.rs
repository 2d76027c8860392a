//! Dense integer handles into the unit's arenas.
//!
//! Every cross-reference between values, instructions, blocks, arguments, and
//! external units is such a handle, never an owning link. Each handle kind has
//! a distinguished invalid sentinel, used as a tombstone for removed referents.

use vstd::prelude::*;

verus! {

/// Index reserved for the invalid sentinel of every handle kind.
pub const INVALID_IDX: usize = usize::MAX;

/// Upper bound on the number of slots an arena may hold, so that a live
/// handle can never collide with the invalid sentinel.
pub const MAX_HANDLES: usize = 0xFFFF_FFFF;

/// An SSA value handle.
#[derive(Clone, Copy, PartialEq, Eq, Hash, Debug, Structural)]
pub struct Value(pub usize);

impl Value {
    /// The invalid value sentinel, written as a tombstone where a referent
    /// was removed.
    pub fn invalid() -> (r: Self)
        ensures
            r.0 == INVALID_IDX,
    {
        Value(INVALID_IDX)
    }
}

/// An instruction handle.
#[derive(Clone, Copy, PartialEq, Eq, Hash, Debug, Structural)]
pub struct Inst(pub usize);

impl Inst {
    /// The invalid instruction sentinel.
    pub fn invalid() -> (r: Self)
        ensures
            r.0 == INVALID_IDX,
    {
        Inst(INVALID_IDX)
    }
}

/// A basic-block handle.
#[derive(Clone, Copy, PartialEq, Eq, Hash, Debug, Structural)]
pub struct Block(pub usize);

impl Block {
    /// The invalid block sentinel, written as a tombstone where a block
    /// was removed.
    pub fn invalid() -> (r: Self)
        ensures
            r.0 == INVALID_IDX,
    {
        Block(INVALID_IDX)
    }
}

/// A signature-argument slot handle; inputs come first, then outputs.
#[derive(Clone, Copy, PartialEq, Eq, Hash, Debug, Structural)]
pub struct Arg(pub usize);

/// A handle for an external unit imported into a unit's data-flow graph.
#[derive(Clone, Copy, PartialEq, Eq, Hash, Debug, Structural)]
pub struct ExtUnit(pub usize);

/// A unit identifier assigned by a surrounding module.
#[derive(Clone, Copy, PartialEq, Eq, Hash, Debug, Structural)]
pub struct UnitId(pub usize);

impl UnitId {
    /// The id of a unit that has not been attached to a module yet.
    pub fn invalid() -> (r: Self)
        ensures
            r.0 == INVALID_IDX,
    {
        UnitId(INVALID_IDX)
    }
}

} // verus!
