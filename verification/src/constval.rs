//! Immediate constant payloads carried by constant-constructor instructions.
//!
//! The container performs no constant folding; these payloads are only stored
//! with the defining instruction and handed back by the constant queries.

use vstd::prelude::*;

verus! {

/// A constant integer: a bit width and its value.
#[derive(Clone, Copy, PartialEq, Eq, Hash, Debug, Structural)]
pub struct IntValue {
    /// Bit width of the constant.
    pub width: u64,
    /// The constant's numeric value.
    pub value: u64,
}

/// A constant time: physical time plus delta and epsilon steps.
#[derive(Clone, Copy, PartialEq, Eq, Hash, Debug, Structural)]
pub struct TimeValue {
    /// Physical time in attoseconds.
    pub time: u64,
    /// Delta step count.
    pub delta: u64,
    /// Epsilon step count.
    pub epsilon: u64,
}

/// A constant array of integer constants.
#[derive(Debug)]
pub struct ArrayValue {
    /// The array's elements in order.
    pub elems: Vec<IntValue>,
}

/// A constant struct of integer constants.
#[derive(Debug)]
pub struct StructValue {
    /// The struct's fields in order.
    pub fields: Vec<IntValue>,
}

/// A constant payload of any kind.
#[derive(Debug)]
pub enum ConstValue {
    /// A constant integer.
    Int(IntValue),
    /// A constant time.
    Time(TimeValue),
    /// A constant array.
    Array(ArrayValue),
    /// A constant struct.
    Struct(StructValue),
}

} // verus!
