//! In-memory IR unit container for an LLHD-style hardware IR.
//!
//! A unit (function, process, or entity) couples three subgraphs: a data-flow
//! graph of SSA values and instructions, a control-flow graph of basic blocks,
//! and a layout that orders blocks within the unit and instructions within
//! blocks. The mutation protocol keeps use-lists, block-user lists, argument
//! bindings, and placeholder semantics consistent across every edit.

pub mod handles;
pub mod types;
pub mod constval;
pub mod signature;
pub mod text;
pub mod unit_name;
pub mod cfg;
pub mod dfg;
pub mod layout;
pub mod unit;

pub use handles::{Arg, Block, ExtUnit, Inst, UnitId, Value, INVALID_IDX, MAX_HANDLES};
pub use types::Ty;
pub use constval::{ArrayValue, ConstValue, IntValue, StructValue, TimeValue};
pub use signature::Signature;
pub use unit_name::{UnitKind, UnitName};
pub use cfg::ControlFlowGraph;
