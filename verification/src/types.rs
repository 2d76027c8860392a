//! The types a value or an instruction may carry.
//!
//! The container never interprets a type beyond the void test that decides
//! whether an instruction produces a result; the variants here cover the
//! shapes the scenarios and constants need.

use vstd::prelude::*;

verus! {

/// A value type. `Int(n)` is an `n`-bit integer, `Signal(n)` a signal of an
/// `n`-bit integer, `Pointer(n)` a pointer to one.
#[derive(Clone, Copy, PartialEq, Eq, Hash, Debug, Structural)]
pub enum Ty {
    /// The void type; an instruction of this type produces no result.
    Void,
    /// The time type.
    Time,
    /// An integer type of the given bit width.
    Int(u64),
    /// A signal carrying an integer of the given bit width.
    Signal(u64),
    /// A pointer to an integer of the given bit width.
    Pointer(u64),
}

impl Ty {
    /// Whether this is the void type.
    pub fn is_void(&self) -> (r: bool)
        ensures
            r == (*self == Ty::Void),
    {
        match self {
            Ty::Void => true,
            _ => false,
        }
    }
}

} // verus!
