//! Unit signatures: ordered input arguments, ordered output arguments, and an
//! optional return type.
//!
//! Per-kind conformity (a function has a return type and no outputs; processes
//! and entities have no return type) is enforced where units are created and
//! stated as part of the unit's well-formedness.

use vstd::prelude::*;
use crate::types::Ty;

verus! {

/// A unit signature.
#[derive(Debug)]
pub struct Signature {
    /// Types of the input arguments, in order.
    pub inputs: Vec<Ty>,
    /// Types of the output arguments, in order.
    pub outputs: Vec<Ty>,
    /// The return type, if any.
    pub retty: Option<Ty>,
}

impl Signature {
    /// Total number of argument slots; inputs come first, then outputs.
    pub open spec fn spec_num_args(&self) -> int {
        self.inputs@.len() + self.outputs@.len() as int
    }

    /// The type of argument slot `k`, counting inputs first, then outputs.
    pub open spec fn spec_arg_ty(&self, k: int) -> Ty {
        if k < self.inputs@.len() {
            self.inputs@[k]
        } else {
            self.outputs@[k - self.inputs@.len()]
        }
    }

    /// Create a signature from its parts.
    pub fn new(inputs: Vec<Ty>, outputs: Vec<Ty>, retty: Option<Ty>) -> (r: Self)
        ensures
            r.inputs@ == inputs@,
            r.outputs@ == outputs@,
            r.retty == retty,
    {
        Signature { inputs, outputs, retty }
    }

    /// Whether the signature has any output arguments.
    pub fn has_outputs(&self) -> (r: bool)
        ensures
            r == (self.outputs@.len() > 0),
    {
        self.outputs.len() > 0
    }

    /// Whether the signature has a return type.
    pub fn has_return_type(&self) -> (r: bool)
        ensures
            r == (self.retty is Some),
    {
        self.retty.is_some()
    }

    /// Number of input arguments.
    pub fn num_inputs(&self) -> (r: usize)
        ensures
            r == self.inputs@.len(),
    {
        self.inputs.len()
    }

    /// Number of output arguments.
    pub fn num_outputs(&self) -> (r: usize)
        ensures
            r == self.outputs@.len(),
    {
        self.outputs.len()
    }

    /// Total number of argument slots.
    pub fn num_args(&self) -> (r: usize)
        requires
            self.inputs@.len() + self.outputs@.len() <= usize::MAX,
        ensures
            r == self.spec_num_args(),
    {
        self.inputs.len() + self.outputs.len()
    }

    /// The type of argument slot `k`, counting inputs first, then outputs.
    pub fn arg_ty(&self, k: usize) -> (r: Ty)
        requires
            0 <= k < self.spec_num_args(),
        ensures
            r == self.spec_arg_ty(k as int),
    {
        if k < self.inputs.len() {
            self.inputs[k]
        } else {
            self.outputs[k - self.inputs.len()]
        }
    }

    /// The return type; panics are excluded by requiring one to exist.
    pub fn return_type(&self) -> (r: Ty)
        requires
            self.retty is Some,
        ensures
            self.retty == Some(r),
    {
        self.retty.unwrap()
    }
}

} // verus!
