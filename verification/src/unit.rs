//! Units: the owning record of kind, name, signature, data-flow graph,
//! control-flow graph and layout; the immutable read view; and the mutable
//! builder that coordinates all three subgraphs.
//!
//! The unit's well-formedness couples the subgraphs: the layout lists exactly
//! the live blocks, everything placed is live, every block reference of a
//! live instruction is a live block or the invalid sentinel, the signature
//! conforms to the kind, and an entity has exactly one block.

use vstd::prelude::*;
use crate::handles::{Arg, Block, ExtUnit, Inst, UnitId, Value, INVALID_IDX, MAX_HANDLES};
use crate::types::Ty;
use crate::constval::{ConstValue, IntValue, TimeValue, ArrayValue, StructValue};
use crate::signature::Signature;
use crate::unit_name::{UnitKind, UnitName};
use crate::cfg::ControlFlowGraph;
use crate::dfg::{DataFlowGraph, ExtUnitData, InstData, Opcode, ValueData, copy_insts, copy_values};
use crate::layout::{InsertPos, Layout};

verus! {

/// A signature conforms to a unit kind: a function has a return type and no
/// outputs; a process or entity has outputs but no return type.
pub open spec fn sig_conforms(kind: UnitKind, sig: &Signature) -> bool {
    match kind {
        UnitKind::Function => sig.outputs@.len() == 0 && sig.retty is Some,
        UnitKind::Process => sig.retty is None,
        UnitKind::Entity => sig.retty is None,
    }
}

/// A function, process, or entity: the owning record.
#[derive(Debug)]
pub struct UnitData {
    /// The unit's kind; fixed at creation.
    pub kind: UnitKind,
    /// The unit's name.
    pub name: UnitName,
    /// The unit's signature.
    pub sig: Signature,
    /// The data-flow graph.
    pub dfg: DataFlowGraph,
    /// The control-flow graph.
    pub cfg: ControlFlowGraph,
    /// The layout of blocks and instructions.
    pub layout: Layout,
}

impl UnitData {
    /// Well-formedness of the whole unit.
    pub open spec fn wf(&self) -> bool {
        &&& self.dfg.wf()
        &&& self.cfg.wf()
        &&& self.layout.wf()
        &&& sig_conforms(self.kind, &self.sig)
        &&& (self.kind == UnitKind::Entity ==> self.layout.blocks_seq().len() == 1)
        &&& (forall|b: Block|
            #[trigger] self.layout.block_placed(b) == self.cfg.spec_block_live(b))
        &&& (forall|i: Inst| #[trigger] self.layout.inst_placed(i) ==> self.dfg.spec_inst_live(i))
        &&& (forall|ii: int, j: int|
            0 <= ii < self.dfg.n_insts() && self.dfg.inst_live@[ii] && 0 <= j
                < self.dfg.inst_bbs@[ii]@.len() ==> ((#[trigger] self.dfg.bb_at(ii, j)).0
                == INVALID_IDX || self.cfg.spec_block_live(self.dfg.bb_at(ii, j))))
        &&& self.dfg.arg_values@.len() == self.sig.spec_num_args()
        &&& (forall|k: int|
            0 <= k < self.sig.spec_num_args() ==> self.dfg.value_data@[(
            #[trigger] self.dfg.arg_values@[k]).0 as int] == (ValueData::Arg {
                ty: self.sig.spec_arg_ty(k),
                arg: Arg(k as usize),
            }))
    }

    /// Layout coverage for instructions: every live instruction is placed in
    /// some block. Creating an instruction without placing it (staging)
    /// suspends this until the instruction is placed or removed.
    pub open spec fn fully_placed(&self) -> bool {
        forall|i: Inst| #[trigger] self.dfg.spec_inst_live(i) ==> self.layout.inst_placed(i)
    }

    /// Create a new unit. The signature must conform to the kind; an entity
    /// receives its single body block eagerly, and the argument values are
    /// materialized from the signature.
    pub fn new(kind: UnitKind, name: UnitName, sig: Signature) -> (r: Self)
        requires
            sig_conforms(kind, &sig),
            sig.spec_num_args() <= MAX_HANDLES,
        ensures
            r.wf(),
            r.fully_placed(),
            r.kind == kind,
            r.name == name,
            r.sig == sig,
            r.dfg.n_insts() == 0,
            r.dfg.n_values() == sig.spec_num_args(),
            r.dfg.n_live_insts() == 0,
            r.dfg.total_ops() == 0,
            r.dfg.ext_units@.len() == 0,
            r.dfg.arg_values@.len() == sig.spec_num_args(),
            kind == UnitKind::Entity ==> r.layout.blocks_seq().len() == 1,
            kind == UnitKind::Entity ==> r.cfg.n_blocks() == 1,
            kind != UnitKind::Entity ==> r.cfg.n_blocks() == 0,
            kind != UnitKind::Entity ==> r.layout.blocks_seq().len() == 0,
            forall|k: int|
                0 <= k < sig.spec_num_args() ==> r.dfg.uses_of(
                    #[trigger] r.dfg.arg_values@[k],
                ).len() == 0,
    {
        let mut dfg = DataFlowGraph::new();
        let mut cfg = ControlFlowGraph::new();
        let mut layout = Layout::new();
        let is_entity = match kind {
            UnitKind::Entity => true,
            _ => false,
        };
        if is_entity {
            let bb = cfg.add_block();
            layout.append_block(bb);
        }
        dfg.make_args_for_signature(&sig);
        let r = UnitData { kind, name, sig, dfg, cfg, layout };
        proof {
            assert forall|b: Block| #[trigger] r.layout.block_placed(b)
                == r.cfg.spec_block_live(b) by {
                if r.layout.block_placed(b) {
                    let k = choose|k: int|
                        0 <= k < r.layout.blocks_seq().len() && r.layout.blocks_seq()[k] == b;
                    assert(b == Block(0));
                }
                if is_entity {
                    if r.cfg.spec_block_live(b) {
                        assert(b == Block(0));
                        assert(r.layout.blocks_seq()[0] == b);
                        assert(r.layout.blocks_seq().contains(b));
                    }
                }
            }
        }
        r
    }
}

/// Signature/kind conformity: a well-formed function has no outputs and a
/// return type; a well-formed process or entity has no return type; a
/// well-formed entity has exactly one block.
pub proof fn lemma_signature_kind_conformity(u: &UnitData)
    requires
        u.wf(),
    ensures
        u.kind == UnitKind::Function ==> u.sig.outputs@.len() == 0 && u.sig.retty is Some,
        u.kind == UnitKind::Process ==> u.sig.retty is None,
        u.kind == UnitKind::Entity ==> u.sig.retty is None && u.layout.blocks_seq().len() == 1,
{
}

/// Layout coverage: in a well-formed unit the layout lists exactly the live
/// blocks, and when every staged instruction has been placed, the placed
/// instructions are exactly the live instructions.
pub proof fn lemma_layout_coverage(u: &UnitData)
    requires
        u.wf(),
    ensures
        forall|b: Block| #[trigger] u.layout.block_placed(b) == u.cfg.spec_block_live(b),
        forall|i: Inst| #[trigger] u.layout.inst_placed(i) ==> u.dfg.spec_inst_live(i),
        u.fully_placed() ==> forall|i: Inst|
            #[trigger] u.layout.inst_placed(i) == u.dfg.spec_inst_live(i),
{
}

/// An immutable function, process, or entity: the read view over the unit's
/// record and its assigned id.
#[derive(Debug)]
pub struct Unit {
    /// The unit's id; the invalid sentinel when not attached to a module.
    pub unit: UnitId,
    /// The unit's record.
    pub data: UnitData,
}

impl Unit {
    /// Create a new unit view around raw unit data.
    pub fn new(unit: UnitId, data: UnitData) -> (r: Self)
        ensures
            r.unit == unit,
            r.data == data,
    {
        Unit { unit, data }
    }

    /// Create a new unit view around raw unit data that has not been added
    /// to a module yet.
    pub fn new_anonymous(data: UnitData) -> (r: Self)
        ensures
            r.unit.0 == INVALID_IDX,
            r.data == data,
    {
        Unit { unit: UnitId::invalid(), data }
    }

    /// The unit's id.
    pub fn id(&self) -> (r: UnitId)
        ensures
            r == self.unit,
    {
        self.unit
    }

    /// The unit's data.
    pub fn data(&self) -> (r: &UnitData)
        ensures
            r == &self.data,
    {
        &self.data
    }

    /// The kind of this unit.
    pub fn kind(&self) -> (r: UnitKind)
        ensures
            r == self.data.kind,
    {
        self.data.kind
    }

    /// The unit's data-flow graph.
    pub fn dfg(&self) -> (r: &DataFlowGraph)
        ensures
            r == &self.data.dfg,
    {
        &self.data.dfg
    }

    /// The unit's control-flow graph.
    pub fn cfg(&self) -> (r: &ControlFlowGraph)
        ensures
            r == &self.data.cfg,
    {
        &self.data.cfg
    }

    /// The unit's control-flow graph; always available here.
    pub fn try_cfg(&self) -> (r: Option<&ControlFlowGraph>)
        ensures
            r matches Some(c) && c == &self.data.cfg,
    {
        Some(&self.data.cfg)
    }

    /// The unit's layout.
    pub fn func_layout(&self) -> (r: &Layout)
        ensures
            r == &self.data.layout,
    {
        &self.data.layout
    }

    /// The unit's signature.
    pub fn sig(&self) -> (r: &Signature)
        ensures
            r == &self.data.sig,
    {
        &self.data.sig
    }

    /// The unit's name.
    pub fn name(&self) -> (r: &UnitName)
        ensures
            r == &self.data.name,
    {
        &self.data.name
    }

    /// The unit itself; kept for callers that chained this after edits.
    pub fn dump(self) -> (r: Self)
        ensures
            r == self,
    {
        self
    }

    /// Whether this unit is a function.
    pub fn is_function(&self) -> (r: bool)
        ensures
            r == (self.data.kind == UnitKind::Function),
    {
        match self.data.kind {
            UnitKind::Function => true,
            _ => false,
        }
    }

    /// Whether this unit is a process.
    pub fn is_process(&self) -> (r: bool)
        ensures
            r == (self.data.kind == UnitKind::Process),
    {
        match self.data.kind {
            UnitKind::Process => true,
            _ => false,
        }
    }

    /// Whether this unit is an entity.
    pub fn is_entity(&self) -> (r: bool)
        ensures
            r == (self.data.kind == UnitKind::Entity),
    {
        match self.data.kind {
            UnitKind::Entity => true,
            _ => false,
        }
    }

    /// The values bound to the input arguments, in order.
    pub fn input_args(&self) -> (r: Vec<Value>)
        requires
            self.data.wf(),
        ensures
            r@.len() == self.data.sig.inputs@.len(),
            forall|k: int| 0 <= k < r@.len() ==> r@[k] == self.data.dfg.arg_values@[k],
    {
        let n = self.data.sig.num_inputs();
        let mut out: Vec<Value> = Vec::new();
        let mut k: usize = 0;
        while k < n
            invariant
                k <= n,
                n == self.data.sig.inputs@.len(),
                self.data.wf(),
                out@.len() == k,
                forall|m: int| 0 <= m < k ==> out@[m] == self.data.dfg.arg_values@[m],
            decreases n - k,
        {
            out.push(self.data.dfg.arg_value(Arg(k)));
            k = k + 1;
        }
        out
    }

    /// The values bound to the output arguments, in order.
    pub fn output_args(&self) -> (r: Vec<Value>)
        requires
            self.data.wf(),
        ensures
            r@.len() == self.data.sig.outputs@.len(),
            forall|k: int|
                0 <= k < r@.len() ==> r@[k] == self.data.dfg.arg_values@[self.data.sig.inputs@.len()
                    + k],
    {
        let base = self.data.sig.num_inputs();
        let n = self.data.sig.num_outputs();
        let mut out: Vec<Value> = Vec::new();
        let mut k: usize = 0;
        while k < n
            invariant
                k <= n,
                base == self.data.sig.inputs@.len(),
                n == self.data.sig.outputs@.len(),
                base + n <= MAX_HANDLES,
                self.data.wf(),
                out@.len() == k,
                forall|m: int| 0 <= m < k ==> out@[m] == self.data.dfg.arg_values@[base + m],
            decreases n - k,
        {
            out.push(self.data.dfg.arg_value(Arg(base + k)));
            k = k + 1;
        }
        out
    }

    /// The values bound to all arguments, inputs first.
    pub fn args(&self) -> (r: Vec<Value>)
        requires
            self.data.wf(),
        ensures
            r@ == self.data.dfg.arg_values@,
    {
        let r = copy_values(&self.data.dfg.arg_values);
        r
    }

    /// The value of the input argument at `pos`. Panics are excluded by
    /// requiring the position to be in bounds.
    pub fn input_arg(&self, pos: usize) -> (v: Value)
        requires
            self.data.wf(),
            pos < self.data.sig.inputs@.len(),
        ensures
            v == self.data.dfg.arg_values@[pos as int],
            self.data.dfg.spec_value_live(v),
    {
        self.data.dfg.arg_value(Arg(pos))
    }

    /// The value of the output argument at `pos`. Panics are excluded by
    /// requiring the position to be in bounds.
    pub fn output_arg(&self, pos: usize) -> (v: Value)
        requires
            self.data.wf(),
            pos < self.data.sig.outputs@.len(),
        ensures
            v == self.data.dfg.arg_values@[self.data.sig.inputs@.len() + pos],
            self.data.dfg.spec_value_live(v),
    {
        self.data.dfg.arg_value(Arg(self.data.sig.num_inputs() + pos))
    }

    /// The name of an external unit.
    pub fn extern_name(&self, ext: ExtUnit) -> (r: &UnitName)
        requires
            0 <= ext.0 < self.data.dfg.ext_units@.len(),
        ensures
            *r == self.data.dfg.ext_units@[ext.0 as int].name,
    {
        self.data.dfg.ext_name(ext)
    }

    /// The signature of an external unit.
    pub fn extern_sig(&self, ext: ExtUnit) -> (r: &Signature)
        requires
            0 <= ext.0 < self.data.dfg.ext_units@.len(),
        ensures
            *r == self.data.dfg.ext_units@[ext.0 as int].sig,
    {
        self.data.dfg.ext_sig(ext)
    }

    /// The name of a block.
    pub fn get_block_name(&self, bb: Block) -> (r: Option<&str>)
        requires
            self.data.wf(),
            self.data.cfg.spec_block_live(bb),
        ensures
            match r {
                Some(s) => self.data.cfg.block_name@[bb.0 as int] matches Some(n) && n@ == s@,
                None => self.data.cfg.block_name@[bb.0 as int] is None,
            },
    {
        self.data.cfg.get_name(bb)
    }

    /// The anonymous-name hint of a block.
    pub fn get_anonymous_block_hint(&self, bb: Block) -> (r: Option<u32>)
        requires
            self.data.wf(),
            self.data.cfg.spec_block_live(bb),
        ensures
            r == self.data.cfg.block_hint@[bb.0 as int],
    {
        self.data.cfg.get_anonymous_hint(bb)
    }

    /// Whether a value is a placeholder.
    pub fn is_placeholder(&self, value: Value) -> (r: bool)
        ensures
            r == (self.data.dfg.value_in_range(value) && self.data.dfg.value_data@[
                value.0 as int] matches ValueData::Placeholder { .. }),
    {
        self.data.dfg.is_placeholder(value)
    }

    /// Whether an instruction produces a result.
    pub fn has_result(&self, inst: Inst) -> (r: bool)
        requires
            self.data.wf(),
            self.data.dfg.spec_inst_live(inst),
        ensures
            r == (self.data.dfg.inst_result@[inst.0 as int] is Some),
    {
        self.data.dfg.has_result(inst)
    }

    /// The result of an instruction; panics are excluded by requiring one
    /// to exist.
    pub fn inst_result(&self, inst: Inst) -> (v: Value)
        requires
            self.data.wf(),
            self.data.dfg.spec_inst_live(inst),
            self.data.dfg.inst_result@[inst.0 as int] is Some,
        ensures
            self.data.dfg.inst_result@[inst.0 as int] == Some(v),
            self.data.dfg.spec_value_live(v),
    {
        self.data.dfg.inst_result(inst)
    }

    /// The result of an instruction, if it has one.
    pub fn get_inst_result(&self, inst: Inst) -> (r: Option<Value>)
        requires
            self.data.wf(),
            self.data.dfg.spec_inst_live(inst),
        ensures
            r == self.data.dfg.inst_result@[inst.0 as int],
    {
        self.data.dfg.get_inst_result(inst)
    }

    /// The value bound to a signature-argument slot.
    pub fn arg_value(&self, arg: Arg) -> (v: Value)
        requires
            self.data.wf(),
            0 <= arg.0 < self.data.dfg.arg_values@.len(),
        ensures
            v == self.data.dfg.arg_values@[arg.0 as int],
            self.data.dfg.spec_value_live(v),
    {
        self.data.dfg.arg_value(arg)
    }

    /// The type of a value.
    pub fn value_type(&self, value: Value) -> (r: Ty)
        requires
            self.data.wf(),
            self.data.dfg.spec_value_live(value),
        ensures
            r == self.data.dfg.spec_value_ty(value),
    {
        self.data.dfg.value_type(value)
    }

    /// The type of an instruction.
    pub fn inst_type(&self, inst: Inst) -> (r: Ty)
        requires
            self.data.wf(),
            self.data.dfg.spec_inst_live(inst),
        ensures
            r == self.data.dfg.inst_ty@[inst.0 as int],
    {
        self.data.dfg.inst_type(inst)
    }

    /// The argument slot that binds a value, if any.
    pub fn get_value_arg(&self, value: Value) -> (r: Option<Arg>)
        requires
            self.data.wf(),
            self.data.dfg.spec_value_live(value),
        ensures
            match r {
                Some(a) => self.data.dfg.value_data@[value.0 as int] matches ValueData::Arg {
                    arg,
                    ..
                } && arg == a,
                None => !(self.data.dfg.value_data@[value.0 as int] matches ValueData::Arg { .. }),
            },
    {
        self.data.dfg.get_value_arg(value)
    }

    /// The argument slot that binds a value; panics are excluded by
    /// requiring one to exist.
    pub fn value_arg(&self, value: Value) -> (r: Arg)
        requires
            self.data.wf(),
            self.data.dfg.spec_value_live(value),
            self.data.dfg.value_data@[value.0 as int] matches ValueData::Arg { .. },
        ensures
            self.data.dfg.value_data@[value.0 as int] matches ValueData::Arg { arg, .. } && arg
                == r,
    {
        self.data.dfg.value_arg(value)
    }

    /// The instruction that produces a value, if any.
    pub fn get_value_inst(&self, value: Value) -> (r: Option<Inst>)
        requires
            self.data.wf(),
            self.data.dfg.spec_value_live(value),
        ensures
            match r {
                Some(i) => self.data.dfg.value_data@[value.0 as int] matches ValueData::Inst {
                    inst,
                    ..
                } && inst == i && self.data.dfg.spec_inst_live(i),
                None => !(self.data.dfg.value_data@[value.0 as int] matches ValueData::Inst {
                    ..
                }),
            },
    {
        self.data.dfg.get_value_inst(value)
    }

    /// The instruction that produces a value; panics are excluded by
    /// requiring one to exist.
    pub fn value_inst(&self, value: Value) -> (r: Inst)
        requires
            self.data.wf(),
            self.data.dfg.spec_value_live(value),
            self.data.dfg.value_data@[value.0 as int] matches ValueData::Inst { .. },
        ensures
            self.data.dfg.value_data@[value.0 as int] matches ValueData::Inst { inst, .. } && inst
                == r,
            self.data.dfg.spec_inst_live(r),
    {
        self.data.dfg.value_inst(value)
    }

    /// The name of a value.
    pub fn get_name(&self, value: Value) -> (r: Option<&str>)
        requires
            self.data.wf(),
            self.data.dfg.spec_value_live(value),
        ensures
            match r {
                Some(s) => self.data.dfg.value_name@[value.0 as int] matches Some(n) && n@ == s@,
                None => self.data.dfg.value_name@[value.0 as int] is None,
            },
    {
        self.data.dfg.get_name(value)
    }

    /// The anonymous-name hint of a value.
    pub fn get_anonymous_hint(&self, value: Value) -> (r: Option<u32>)
        requires
            self.data.wf(),
            self.data.dfg.spec_value_live(value),
        ensures
            r == self.data.dfg.value_hint@[value.0 as int],
    {
        self.data.dfg.get_anonymous_hint(value)
    }

    /// The instructions using a value, each listed once.
    pub fn uses(&self, value: Value) -> (r: &Vec<Inst>)
        requires
            self.data.wf(),
            self.data.dfg.spec_value_live(value),
        ensures
            r@ == self.data.dfg.uses_of(value),
    {
        self.data.dfg.uses(value)
    }

    /// Whether a value is used.
    pub fn has_uses(&self, value: Value) -> (r: bool)
        requires
            self.data.wf(),
            self.data.dfg.spec_value_live(value),
        ensures
            r == (self.data.dfg.uses_of(value).len() > 0),
    {
        self.data.dfg.has_uses(value)
    }

    /// Whether a value has exactly one use.
    pub fn has_one_use(&self, value: Value) -> (r: bool)
        requires
            self.data.wf(),
            self.data.dfg.spec_value_live(value),
        ensures
            r == (self.data.dfg.uses_of(value).len() == 1),
    {
        self.data.dfg.has_one_use(value)
    }

    /// Resolve a constant value; `None` when the value is not the result of
    /// a constant constructor. No constant folding is performed.
    pub fn get_const(&self, value: Value) -> (r: Option<&ConstValue>)
        requires
            self.data.wf(),
            self.data.dfg.spec_value_live(value),
        ensures
            match r {
                Some(c) => self.data.dfg.spec_get_const(value) == Some(*c),
                None => self.data.dfg.spec_get_const(value) is None,
            },
    {
        self.data.dfg.get_const(value)
    }

    /// Resolve a constant time value.
    pub fn get_const_time(&self, value: Value) -> (r: Option<&TimeValue>)
        requires
            self.data.wf(),
            self.data.dfg.spec_value_live(value),
        ensures
            match r {
                Some(c) => self.data.dfg.spec_get_const(value) == Some(ConstValue::Time(*c)),
                None => !(self.data.dfg.spec_get_const(value) matches Some(ConstValue::Time(_))),
            },
    {
        self.data.dfg.get_const_time(value)
    }

    /// Resolve a constant integer value.
    pub fn get_const_int(&self, value: Value) -> (r: Option<&IntValue>)
        requires
            self.data.wf(),
            self.data.dfg.spec_value_live(value),
        ensures
            match r {
                Some(c) => self.data.dfg.spec_get_const(value) == Some(ConstValue::Int(*c)),
                None => !(self.data.dfg.spec_get_const(value) matches Some(ConstValue::Int(_))),
            },
    {
        self.data.dfg.get_const_int(value)
    }

    /// Resolve a constant array value.
    pub fn get_const_array(&self, value: Value) -> (r: Option<&ArrayValue>)
        requires
            self.data.wf(),
            self.data.dfg.spec_value_live(value),
        ensures
            match r {
                Some(c) => self.data.dfg.spec_get_const(value) == Some(ConstValue::Array(*c)),
                None => !(self.data.dfg.spec_get_const(value) matches Some(ConstValue::Array(_))),
            },
    {
        self.data.dfg.get_const_array(value)
    }

    /// Resolve a constant struct value.
    pub fn get_const_struct(&self, value: Value) -> (r: Option<&StructValue>)
        requires
            self.data.wf(),
            self.data.dfg.spec_value_live(value),
        ensures
            match r {
                Some(c) => self.data.dfg.spec_get_const(value) == Some(ConstValue::Struct(*c)),
                None => !(self.data.dfg.spec_get_const(value) matches Some(ConstValue::Struct(_))),
            },
    {
        self.data.dfg.get_const_struct(value)
    }

    /// The location hint of an instruction: the byte offset of the
    /// instruction in the source text, if recorded.
    pub fn location_hint(&self, inst: Inst) -> (r: Option<usize>)
        requires
            self.data.wf(),
            self.data.dfg.spec_inst_live(inst),
        ensures
            r == self.data.dfg.inst_loc@[inst.0 as int],
    {
        self.data.dfg.location_hint(inst)
    }
}

/// A unit stays well-formed when only its data-flow graph changes, provided
/// liveness, origins, and argument bindings are untouched and every block
/// reference of a live instruction is still a live block or the invalid
/// sentinel.
proof fn lemma_unit_wf_dfg_change(pre: &UnitData, post: &UnitData)
    requires
        pre.wf(),
        post.cfg == pre.cfg,
        post.layout == pre.layout,
        post.kind == pre.kind,
        post.sig == pre.sig,
        post.dfg.wf(),
        post.dfg.inst_live == pre.dfg.inst_live,
        post.dfg.value_data == pre.dfg.value_data,
        post.dfg.arg_values == pre.dfg.arg_values,
        forall|ii: int, j: int|
            0 <= ii < post.dfg.n_insts() && post.dfg.inst_live@[ii] && 0 <= j
                < post.dfg.inst_bbs@[ii]@.len() ==> ((#[trigger] post.dfg.bb_at(ii, j)).0
                == INVALID_IDX || pre.cfg.spec_block_live(post.dfg.bb_at(ii, j))),
    ensures
        post.wf(),
{
    assert forall|i: Inst| #[trigger] post.layout.inst_placed(i) implies post.dfg.spec_inst_live(
        i,
    ) by {
        assert(pre.dfg.spec_inst_live(i));
    }
}

/// A duplicate-free sequence of blocks whose indexes lie below `n` has at
/// most `n` entries.
proof fn lemma_block_order_bound(s: Seq<Block>, n: int)
    requires
        s.no_duplicates(),
        forall|k: int| 0 <= k < s.len() ==> 0 <= (#[trigger] s[k]).0 < n,
        0 <= n,
    ensures
        s.len() <= n,
{
    let f = |b: Block| b.0 as int;
    let m = s.map_values(f);
    s.lemma_no_duplicates_injective(f);
    m.unique_seq_to_set();
    m.lemma_cardinality_of_set();
    assert(m.to_set().subset_of(vstd::set_lib::set_int_range(0, n))) by {
        assert forall|x: int| m.to_set().contains(x) implies vstd::set_lib::set_int_range(
            0,
            n,
        ).contains(x) by {
            let k = choose|k: int| 0 <= k < m.len() && m[k] == x;
            assert(s[k].0 as int == x);
        }
    }
    vstd::set_lib::lemma_int_range(0, n);
    vstd::set_lib::lemma_len_subset(m.to_set(), vstd::set_lib::set_int_range(0, n));
}

/// A unit stays well-formed when only side tables of its data-flow graph
/// change: block references are untouched.
proof fn lemma_unit_wf_dfg_tables(pre: &UnitData, post: &UnitData)
    requires
        pre.wf(),
        post.cfg == pre.cfg,
        post.layout == pre.layout,
        post.kind == pre.kind,
        post.sig == pre.sig,
        post.dfg.wf(),
        post.dfg.inst_live == pre.dfg.inst_live,
        post.dfg.inst_bbs == pre.dfg.inst_bbs,
        post.dfg.value_data == pre.dfg.value_data,
        post.dfg.arg_values == pre.dfg.arg_values,
    ensures
        post.wf(),
{
    assert forall|ii: int, j: int|
        0 <= ii < post.dfg.n_insts() && post.dfg.inst_live@[ii] && 0 <= j
            < post.dfg.inst_bbs@[ii]@.len() implies ((#[trigger] post.dfg.bb_at(ii, j)).0
        == INVALID_IDX || pre.cfg.spec_block_live(post.dfg.bb_at(ii, j))) by {
        assert(post.dfg.bb_at(ii, j) == pre.dfg.bb_at(ii, j));
    }
    lemma_unit_wf_dfg_change(pre, post);
}

/// Placement coverage is untouched when neither the layout nor instruction
/// liveness changes.
proof fn lemma_fully_placed_same(pre: &UnitData, post: &UnitData)
    requires
        post.layout == pre.layout,
        post.dfg.inst_live == pre.dfg.inst_live,
    ensures
        post.fully_placed() == pre.fully_placed(),
{
    assert forall|i: Inst| post.dfg.spec_inst_live(i) == pre.dfg.spec_inst_live(i) by {}
    if pre.fully_placed() {
        assert forall|i: Inst| #[trigger] post.dfg.spec_inst_live(i)
            implies post.layout.inst_placed(i) by {
            assert(pre.dfg.spec_inst_live(i));
            assert(pre.layout.inst_placed(i));
        }
    }
    if post.fully_placed() {
        assert forall|i: Inst| #[trigger] pre.dfg.spec_inst_live(i)
            implies pre.layout.inst_placed(i) by {
            assert(post.dfg.spec_inst_live(i));
            assert(post.layout.inst_placed(i));
        }
    }
}

/// A mutable function, process, or entity: the edit surface that routes
/// every change through the data-flow graph, control-flow graph and layout
/// in an order that keeps the unit well-formed.
#[derive(Debug)]
pub struct UnitBuilder {
    /// The unit's id; the invalid sentinel when not attached to a module.
    pub unit: UnitId,
    /// The unit's record.
    pub data: UnitData,
    /// The position where instructions are currently inserted.
    pub pos: InsertPos,
}

impl UnitBuilder {
    /// The cursor points at a block in the layout or a placed instruction,
    /// or is unset.
    pub open spec fn cursor_ok(&self) -> bool {
        match self.pos {
            InsertPos::Unset => true,
            InsertPos::Append(b) => self.data.layout.block_placed(b),
            InsertPos::Prepend(b) => self.data.layout.block_placed(b),
            InsertPos::After(i) => self.data.layout.inst_placed(i),
            InsertPos::Before(i) => self.data.layout.inst_placed(i),
        }
    }

    /// The builder's invariant: a well-formed unit and a valid cursor.
    pub open spec fn inv(&self) -> bool {
        self.data.wf() && self.cursor_ok()
    }

    /// Create a new builder for a unit. For an entity the cursor starts
    /// appending to the single body block; otherwise it starts unset.
    pub fn new(unit: UnitId, data: UnitData) -> (r: Self)
        requires
            data.wf(),
        ensures
            r.inv(),
            r.unit == unit,
            r.data == data,
            data.kind == UnitKind::Entity ==> r.pos == InsertPos::Append(
                data.layout.blocks_seq()[0],
            ),
            data.kind != UnitKind::Entity ==> r.pos == InsertPos::Unset,
    {
        let is_entity = match data.kind {
            UnitKind::Entity => true,
            _ => false,
        };
        let pos = if is_entity {
            let entry = data.layout.entry();
            proof {
                assert(data.layout.blocks_seq().contains(entry));
            }
            InsertPos::Append(entry)
        } else {
            InsertPos::Unset
        };
        UnitBuilder { unit, data, pos }
    }

    /// Create a new builder for a unit that has not been added to a module
    /// yet.
    pub fn new_anonymous(data: UnitData) -> (r: Self)
        requires
            data.wf(),
        ensures
            r.inv(),
            r.unit.0 == INVALID_IDX,
            r.data == data,
    {
        Self::new(UnitId::invalid(), data)
    }

    /// Finish building and make the unit immutable again.
    pub fn finish(self) -> (r: Unit)
        ensures
            r.unit == self.unit,
            r.data == self.data,
    {
        Unit { unit: self.unit, data: self.data }
    }

    /// The unit's data, for reading; every write goes through the builder's
    /// typed operations.
    pub fn data(&self) -> (r: &UnitData)
        ensures
            r == &self.data,
    {
        &self.data
    }

    /// The unit being built, for reading.
    pub fn unit(&self) -> (r: &UnitData)
        ensures
            r == &self.data,
    {
        &self.data
    }

    /// The unit's signature, for reading.
    pub fn sig(&self) -> (r: &Signature)
        ensures
            r == &self.data.sig,
    {
        &self.data.sig
    }

    /// The unit's name, for reading.
    pub fn name(&self) -> (r: &UnitName)
        ensures
            r == &self.data.name,
    {
        &self.data.name
    }

    /// Replace the unit's name.
    pub fn set_unit_name(&mut self, name: UnitName)
        requires
            old(self).inv(),
        ensures
            final(self).inv(),
            final(self).data.name == name,
            final(self).data.kind == old(self).data.kind,
            final(self).data.sig == old(self).data.sig,
            final(self).data.dfg == old(self).data.dfg,
            final(self).data.cfg == old(self).data.cfg,
            final(self).data.layout == old(self).data.layout,
            final(self).pos == old(self).pos,
    {
        self.data.name = name;
    }

    /// Replace the unit's signature. The new signature must conform to the
    /// kind and bind the same number of argument slots, so the existing
    /// argument values stay valid.
    pub fn set_sig(&mut self, sig: Signature)
        requires
            old(self).inv(),
            sig_conforms(old(self).data.kind, &sig),
            sig.spec_num_args() == old(self).data.sig.spec_num_args(),
            forall|k: int|
                0 <= k < sig.spec_num_args() ==> sig.spec_arg_ty(k) == old(self).data.sig.spec_arg_ty(k),
        ensures
            final(self).inv(),
            final(self).data.sig == sig,
            final(self).data.kind == old(self).data.kind,
            final(self).data.dfg == old(self).data.dfg,
            final(self).data.cfg == old(self).data.cfg,
            final(self).data.layout == old(self).data.layout,
            final(self).pos == old(self).pos,
    {
        self.data.sig = sig;
    }

    /// Create a new block and append it to the unit. An entity keeps its
    /// single body block, so this is for functions and processes.
    pub fn block(&mut self) -> (bb: Block)
        requires
            old(self).inv(),
            old(self).data.kind != UnitKind::Entity,
            old(self).data.cfg.n_blocks() < MAX_HANDLES,
        ensures
            final(self).inv(),
            final(self).data.cfg.spec_block_live(bb),
            final(self).data.layout.block_placed(bb),
            !old(self).data.cfg.spec_block_live(bb),
            bb.0 == old(self).data.cfg.n_blocks(),
            final(self).data.layout.blocks_seq() == old(self).data.layout.blocks_seq().push(bb),
            forall|b2: Block| b2 != bb ==> final(self).data.cfg.spec_block_live(b2) == old(self).data.cfg.spec_block_live(b2),
            forall|b2: Block| final(self).data.layout.insts_of(b2) == old(self).data.layout.insts_of(b2),
            final(self).data.layout.insts_of(bb).len() == 0,
            final(self).data.dfg == old(self).data.dfg,
            final(self).data.kind == old(self).data.kind,
            final(self).data.sig == old(self).data.sig,
            final(self).data.name == old(self).data.name,
            final(self).pos == old(self).pos,
            forall|i: Inst| final(self).data.layout.placed_in(i) == old(self).data.layout.placed_in(i),
            forall|k: int|
                0 <= k < old(self).data.cfg.n_blocks() ==> final(self).data.cfg.block_name@[k]
                    == old(self).data.cfg.block_name@[k] && final(self).data.cfg.block_hint@[k]
                    == old(self).data.cfg.block_hint@[k],
            final(self).data.cfg.block_name@[bb.0 as int] is None,
            final(self).data.cfg.block_hint@[bb.0 as int] is None,
            final(self).data.fully_placed() == old(self).data.fully_placed(),
    {
        let bb = self.data.cfg.add_block();
        proof {
            if self.data.layout.block_placed(bb) {
                assert(old(self).data.layout.block_placed(bb));
                assert(old(self).data.cfg.spec_block_live(bb));
                assert(false);
            }
            assert forall|k: int|
                0 <= k < old(self).data.layout.blocks_seq().len() implies 0 <= (#[trigger] old(self).data.layout.blocks_seq()[k]).0 < old(self).data.cfg.n_blocks() by {
                let b2 = old(self).data.layout.blocks_seq()[k];
                assert(old(self).data.layout.block_placed(b2));
                assert(old(self).data.cfg.spec_block_live(b2));
            }
            lemma_block_order_bound(
                old(self).data.layout.blocks_seq(),
                old(self).data.cfg.n_blocks(),
            );
        }
        let ghost mid = *self;
        self.data.layout.append_block(bb);
        proof {
            crate::dfg::lemma_seq_push_set(mid.data.layout.blocks_seq(), bb);
            assert forall|b2: Block| #[trigger] self.data.layout.block_placed(b2)
                == self.data.cfg.spec_block_live(b2) by {
                if b2 != bb {
                    assert(mid.data.layout.block_placed(b2) == old(self).data.layout.block_placed(b2));
                }
            }
            assert forall|i: Inst| #[trigger] self.data.layout.inst_placed(i)
                implies self.data.dfg.spec_inst_live(i) by {
                assert(old(self).data.layout.inst_placed(i));
            }
        }
        bb
    }

    /// Create a new block with a textual name and append it to the unit.
    pub fn named_block(&mut self, name: String) -> (bb: Block)
        requires
            old(self).inv(),
            old(self).data.kind != UnitKind::Entity,
            old(self).data.cfg.n_blocks() < MAX_HANDLES,
        ensures
            final(self).inv(),
            final(self).data.cfg.spec_block_live(bb),
            final(self).data.layout.block_placed(bb),
            bb.0 == old(self).data.cfg.n_blocks(),
            final(self).data.layout.blocks_seq() == old(self).data.layout.blocks_seq().push(bb),
            final(self).data.cfg.block_name@[bb.0 as int] == Some(name),
            final(self).data.cfg.block_hint@[bb.0 as int] is None,
            forall|k: int|
                0 <= k < old(self).data.cfg.n_blocks() ==> final(self).data.cfg.block_name@[k]
                    == old(self).data.cfg.block_name@[k] && final(self).data.cfg.block_hint@[k]
                    == old(self).data.cfg.block_hint@[k],
            forall|b2: Block| b2 != bb ==> final(self).data.cfg.spec_block_live(b2) == old(self).data.cfg.spec_block_live(b2),
            forall|b2: Block| final(self).data.layout.insts_of(b2) == old(self).data.layout.insts_of(b2),
            forall|i: Inst| final(self).data.layout.placed_in(i) == old(self).data.layout.placed_in(i),
            final(self).data.dfg == old(self).data.dfg,
            final(self).data.kind == old(self).data.kind,
            final(self).data.sig == old(self).data.sig,
            final(self).data.name == old(self).data.name,
            final(self).pos == old(self).pos,
            final(self).data.fully_placed() == old(self).data.fully_placed(),
    {
        let bb = self.block();
        let ghost mid = *self;
        self.data.cfg.set_name(bb, name);
        proof {
            assert forall|b2: Block| #[trigger] self.data.layout.block_placed(b2)
                == self.data.cfg.spec_block_live(b2) by {
                assert(mid.data.layout.block_placed(b2) == mid.data.cfg.spec_block_live(b2));
                assert(self.data.cfg.spec_block_live(b2) == mid.data.cfg.spec_block_live(b2));
            }
        }
        bb
    }

    /// Append all following instructions at the end of the entry block.
    /// Panics are excluded by requiring the unit to have a block.
    pub fn insert_at_end(&mut self)
        requires
            old(self).inv(),
            old(self).data.layout.blocks_seq().len() > 0,
        ensures
            final(self).inv(),
            final(self).data == old(self).data,
            final(self).pos == InsertPos::Append(old(self).data.layout.blocks_seq()[0]),
    {
        let entry = self.data.layout.entry();
        proof {
            assert(self.data.layout.blocks_seq().contains(entry));
        }
        self.pos = InsertPos::Append(entry);
    }

    /// Prepend all following instructions at the beginning of the entry
    /// block. Panics are excluded by requiring the unit to have a block.
    pub fn insert_at_beginning(&mut self)
        requires
            old(self).inv(),
            old(self).data.layout.blocks_seq().len() > 0,
        ensures
            final(self).inv(),
            final(self).data == old(self).data,
            final(self).pos == InsertPos::Prepend(old(self).data.layout.blocks_seq()[0]),
    {
        let entry = self.data.layout.entry();
        proof {
            assert(self.data.layout.blocks_seq().contains(entry));
        }
        self.pos = InsertPos::Prepend(entry);
    }

    /// Append all following instructions to the end of `bb`.
    pub fn append_to(&mut self, bb: Block)
        requires
            old(self).inv(),
            old(self).data.layout.block_placed(bb),
        ensures
            final(self).inv(),
            final(self).data == old(self).data,
            final(self).pos == InsertPos::Append(bb),
    {
        self.pos = InsertPos::Append(bb);
    }

    /// Prepend all following instructions to the beginning of `bb`.
    pub fn prepend_to(&mut self, bb: Block)
        requires
            old(self).inv(),
            old(self).data.layout.block_placed(bb),
        ensures
            final(self).inv(),
            final(self).data == old(self).data,
            final(self).pos == InsertPos::Prepend(bb),
    {
        self.pos = InsertPos::Prepend(bb);
    }

    /// Insert all following instructions after `inst`.
    pub fn insert_after(&mut self, inst: Inst)
        requires
            old(self).inv(),
            old(self).data.layout.inst_placed(inst),
        ensures
            final(self).inv(),
            final(self).data == old(self).data,
            final(self).pos == InsertPos::After(inst),
    {
        self.pos = InsertPos::After(inst);
    }

    /// Insert all following instructions before `inst`.
    pub fn insert_before(&mut self, inst: Inst)
        requires
            old(self).inv(),
            old(self).data.layout.inst_placed(inst),
        ensures
            final(self).inv(),
            final(self).data == old(self).data,
            final(self).pos == InsertPos::Before(inst),
    {
        self.pos = InsertPos::Before(inst);
    }
}

impl UnitBuilder {
    /// Add a new instruction without placing it in the layout. The staging
    /// entry point for instruction assembly; `build_inst` places as well.
    /// Until the instruction is placed or removed the unit is not fully
    /// placed.
    pub fn add_inst(&mut self, data: InstData, ty: Ty) -> (i: Inst)
        requires
            old(self).inv(),
            data.wf(),
            old(self).data.dfg.n_insts() < MAX_HANDLES,
            ty != Ty::Void ==> old(self).data.dfg.n_values() < MAX_HANDLES,
            forall|j: int|
                0 <= j < data.args@.len() ==> old(self).data.dfg.value_ok(#[trigger] data.args@[j]),
            forall|j: int|
                0 <= j < data.bbs@.len() ==> ((#[trigger] data.bbs@[j]).0 == INVALID_IDX || old(self).data.cfg.spec_block_live(data.bbs@[j])),
            old(self).data.dfg.total_ops() + data.args@.len() + data.bbs@.len() <= MAX_HANDLES,
        ensures
            final(self).inv(),
            i.0 == old(self).data.dfg.n_insts(),
            final(self).data.dfg.spec_inst_live(i),
            !old(self).data.dfg.inst_in_range(i),
            !final(self).data.layout.inst_placed(i),
            final(self).data.dfg.args_of(i) == data.args@,
            final(self).data.dfg.bbs_of(i) == data.bbs@,
            final(self).data.dfg.inst_op@[i.0 as int] == data.opcode,
            final(self).data.dfg.inst_ty@[i.0 as int] == ty,
            ty == Ty::Void ==> final(self).data.dfg.inst_result@[i.0 as int] is None,
            ty != Ty::Void ==> final(self).data.dfg.inst_result@[i.0 as int] == Some(
                Value(old(self).data.dfg.n_values() as usize),
            ) && final(self).data.dfg.spec_value_live(Value(old(self).data.dfg.n_values() as usize))
                && final(self).data.dfg.uses_of(
                Value(old(self).data.dfg.n_values() as usize),
            ).len() == 0,
            forall|x: Inst| x != i ==> final(self).data.dfg.spec_inst_live(x) == old(self).data.dfg.spec_inst_live(x),
            crate::dfg::uses_registered_for(
                &old(self).data.dfg,
                &final(self).data.dfg,
                i,
                data.args@,
            ),
            crate::dfg::block_users_registered_for(
                &old(self).data.dfg,
                &final(self).data.dfg,
                i,
                data.bbs@,
            ),
            crate::dfg::old_insts_preserved(&old(self).data.dfg, &final(self).data.dfg),
            crate::dfg::old_values_preserved(&old(self).data.dfg, &final(self).data.dfg),
            forall|v: Value| old(self).data.dfg.spec_value_live(v) ==> final(self).data.dfg.spec_value_live(v),
            final(self).data.dfg.n_insts() == old(self).data.dfg.n_insts() + 1,
            final(self).data.dfg.n_values() == old(self).data.dfg.n_values() + (if ty == Ty::Void {
                0int
            } else {
                1int
            }),
            final(self).data.dfg.total_ops() == old(self).data.dfg.total_ops() + data.args@.len()
                + data.bbs@.len(),
            final(self).data.dfg.n_live_insts() == old(self).data.dfg.n_live_insts() + 1,
            final(self).data.dfg.arg_values == old(self).data.dfg.arg_values,
            final(self).data.dfg.ext_units == old(self).data.dfg.ext_units,
            final(self).data.cfg == old(self).data.cfg,
            final(self).data.layout == old(self).data.layout,
            final(self).data.kind == old(self).data.kind,
            final(self).data.sig == old(self).data.sig,
            final(self).data.name == old(self).data.name,
            final(self).pos == old(self).pos,
    {
        proof {
            assert forall|j: int|
                0 <= j < data.bbs@.len() implies (#[trigger] data.bbs@[j]).0 == INVALID_IDX
                || data.bbs@[j].0 < MAX_HANDLES by {
                if data.bbs@[j].0 != INVALID_IDX {
                    assert(old(self).data.cfg.spec_block_live(data.bbs@[j]));
                    assert(old(self).data.cfg.n_blocks() <= MAX_HANDLES);
                }
            }
        }
        let ghost gargs = data.args@;
        let ghost gbbs = data.bbs@;
        let i = self.data.dfg.add_inst(data, ty);
        proof {
            let fin = &self.data;
            let pre = &old(self).data;
            if fin.layout.inst_placed(i) {
                assert(pre.dfg.spec_inst_live(i));
                assert(false);
            }
            assert forall|ii: int, j: int|
                0 <= ii < fin.dfg.n_insts() && fin.dfg.inst_live@[ii] && 0 <= j
                    < fin.dfg.inst_bbs@[ii]@.len() implies ((#[trigger] fin.dfg.bb_at(ii, j)).0
                == INVALID_IDX || fin.cfg.spec_block_live(fin.dfg.bb_at(ii, j))) by {
                if ii == i.0 as int {
                    assert(fin.dfg.bb_at(ii, j) == gbbs[j]);
                } else {
                    assert(pre.dfg.inst_in_range(Inst(ii as usize)));
                    assert(fin.dfg.bb_at(ii, j) == pre.dfg.bb_at(ii, j));
                }
            }
            assert forall|x: Inst| #[trigger] fin.layout.inst_placed(x)
                implies fin.dfg.spec_inst_live(x) by {
                assert(pre.dfg.spec_inst_live(x));
                assert(x != i);
            }
            assert forall|k: int|
                0 <= k < fin.sig.spec_num_args() implies fin.dfg.value_data@[(
            #[trigger] fin.dfg.arg_values@[k]).0 as int] == (ValueData::Arg {
                ty: fin.sig.spec_arg_ty(k),
                arg: Arg(k as usize),
            }) by {
                assert(pre.dfg.args_ok());
                assert(pre.dfg.spec_value_live(pre.dfg.arg_values@[k]));
            }
            assert(crate::dfg::uses_registered_for(&pre.dfg, &fin.dfg, i, gargs)) by {
                assert forall|v: Value| #[trigger] fin.dfg.is_use(v, i) == (
                pre.dfg.spec_value_live(v) && gargs.contains(v)) by {
                    assert(fin.dfg.is_use(v, i) == (pre.dfg.spec_value_live(v) && gargs.contains(
                        v,
                    )));
                }
                assert forall|v: Value, x: Inst| x != i implies #[trigger] fin.dfg.is_use(v, x)
                    == pre.dfg.is_use(v, x) by {
                    assert(fin.dfg.is_use(v, x) == pre.dfg.is_use(v, x));
                }
            }
        }
        i
    }

    /// Add a new instruction and place it at the cursor. The cursor must be
    /// set; after inserting after an anchor the cursor advances past the new
    /// instruction, so a run of insertions lands in source order.
    #[verifier::rlimit(60)]
    pub fn build_inst(&mut self, data: InstData, ty: Ty) -> (i: Inst)
        requires
            old(self).inv(),
            old(self).pos != InsertPos::Unset,
            data.wf(),
            old(self).data.dfg.n_insts() < MAX_HANDLES,
            ty != Ty::Void ==> old(self).data.dfg.n_values() < MAX_HANDLES,
            forall|j: int|
                0 <= j < data.args@.len() ==> old(self).data.dfg.value_ok(#[trigger] data.args@[j]),
            forall|j: int|
                0 <= j < data.bbs@.len() ==> ((#[trigger] data.bbs@[j]).0 == INVALID_IDX || old(self).data.cfg.spec_block_live(data.bbs@[j])),
            old(self).data.dfg.total_ops() + data.args@.len() + data.bbs@.len() <= MAX_HANDLES,
        ensures
            final(self).inv(),
            i.0 == old(self).data.dfg.n_insts(),
            final(self).data.dfg.spec_inst_live(i),
            !old(self).data.dfg.inst_in_range(i),
            final(self).data.layout.inst_placed(i),
            final(self).data.dfg.args_of(i) == data.args@,
            final(self).data.dfg.bbs_of(i) == data.bbs@,
            final(self).data.dfg.inst_op@[i.0 as int] == data.opcode,
            final(self).data.dfg.inst_ty@[i.0 as int] == ty,
            ty == Ty::Void ==> final(self).data.dfg.inst_result@[i.0 as int] is None,
            ty != Ty::Void ==> final(self).data.dfg.inst_result@[i.0 as int] == Some(
                Value(old(self).data.dfg.n_values() as usize),
            ) && final(self).data.dfg.spec_value_live(Value(old(self).data.dfg.n_values() as usize))
                && final(self).data.dfg.uses_of(
                Value(old(self).data.dfg.n_values() as usize),
            ).len() == 0,
            forall|x: Inst| x != i ==> final(self).data.dfg.spec_inst_live(x) == old(self).data.dfg.spec_inst_live(x),
            crate::dfg::uses_registered_for(
                &old(self).data.dfg,
                &final(self).data.dfg,
                i,
                data.args@,
            ),
            crate::dfg::block_users_registered_for(
                &old(self).data.dfg,
                &final(self).data.dfg,
                i,
                data.bbs@,
            ),
            crate::dfg::old_insts_preserved(&old(self).data.dfg, &final(self).data.dfg),
            crate::dfg::old_values_preserved(&old(self).data.dfg, &final(self).data.dfg),
            forall|v: Value| old(self).data.dfg.spec_value_live(v) ==> final(self).data.dfg.spec_value_live(v),
            final(self).data.dfg.n_insts() == old(self).data.dfg.n_insts() + 1,
            final(self).data.dfg.n_values() == old(self).data.dfg.n_values() + (if ty == Ty::Void {
                0int
            } else {
                1int
            }),
            final(self).data.dfg.total_ops() == old(self).data.dfg.total_ops() + data.args@.len()
                + data.bbs@.len(),
            final(self).data.dfg.n_live_insts() == old(self).data.dfg.n_live_insts() + 1,
            final(self).data.dfg.arg_values == old(self).data.dfg.arg_values,
            final(self).data.dfg.ext_units == old(self).data.dfg.ext_units,
            old(self).data.fully_placed() ==> final(self).data.fully_placed(),
            final(self).data.cfg == old(self).data.cfg,
            final(self).data.kind == old(self).data.kind,
            final(self).data.sig == old(self).data.sig,
            final(self).data.name == old(self).data.name,
            forall|x: Inst| x != i ==> final(self).data.layout.placed_in(x) == old(self).data.layout.placed_in(x),
            old(self).pos matches InsertPos::Append(b) ==> final(self).data.layout.insts_of(b)
                == old(self).data.layout.insts_of(b).push(i) && final(self).pos == old(self).pos
                && (forall|b2: Block|
                b2 != b ==> final(self).data.layout.insts_of(b2) == old(self).data.layout.insts_of(b2)),
            old(self).pos matches InsertPos::Prepend(b) ==> final(self).data.layout.insts_of(b)
                == old(self).data.layout.insts_of(b).insert(0, i) && final(self).pos == old(self).pos && (forall|b2: Block|
                b2 != b ==> final(self).data.layout.insts_of(b2) == old(self).data.layout.insts_of(b2)),
            old(self).pos matches InsertPos::After(a) ==> final(self).pos == InsertPos::After(i)
                && (old(self).data.layout.placed_in(a) matches Some(bb) && final(self).data.layout.placed_in(i) == Some(bb) && (exists|k: int|
                0 <= k < old(self).data.layout.insts_of(bb).len() && old(self).data.layout.insts_of(bb)[k] == a && final(self).data.layout.insts_of(bb) == old(self).data.layout.insts_of(bb).insert(k + 1, i))),
            old(self).pos matches InsertPos::Before(a) ==> final(self).pos == old(self).pos && (
            old(self).data.layout.placed_in(a) matches Some(bb) && final(self).data.layout.placed_in(i) == Some(bb) && (exists|k: int|
                0 <= k < old(self).data.layout.insts_of(bb).len() && old(self).data.layout.insts_of(bb)[k] == a && final(self).data.layout.insts_of(bb) == old(self).data.layout.insts_of(bb).insert(k, i))),
            final(self).data.layout.blocks_seq() == old(self).data.layout.blocks_seq(),
    {
        let i = self.add_inst(data, ty);
        let ghost mid = *self;
        match self.pos {
            InsertPos::Unset => {
                proof {
                    assert(false);
                }
            },
            InsertPos::Append(b) => {
                self.data.layout.append_inst(i, b);
            },
            InsertPos::Prepend(b) => {
                self.data.layout.prepend_inst(i, b);
            },
            InsertPos::After(a) => {
                self.data.layout.insert_inst_after(i, a);
                self.pos = InsertPos::After(i);
            },
            InsertPos::Before(a) => {
                self.data.layout.insert_inst_before(i, a);
            },
        }
        proof {
            let fin = &self.data;
            assert(fin.dfg == mid.data.dfg);
            assert(crate::dfg::uses_registered_for(
                &old(self).data.dfg,
                &fin.dfg,
                i,
                data.args@,
            ));
            assert(crate::dfg::block_users_registered_for(
                &old(self).data.dfg,
                &fin.dfg,
                i,
                data.bbs@,
            ));
            assert(crate::dfg::old_insts_preserved(&old(self).data.dfg, &fin.dfg));
            assert(crate::dfg::old_values_preserved(&old(self).data.dfg, &fin.dfg));
            assert forall|x: Inst| #[trigger] fin.layout.inst_placed(x)
                implies fin.dfg.spec_inst_live(x) by {
                if x != i {
                    assert(mid.data.layout.inst_placed(x));
                    assert(mid.data.dfg.spec_inst_live(x));
                }
            }
            assert forall|b2: Block| #[trigger] fin.layout.block_placed(b2)
                == fin.cfg.spec_block_live(b2) by {
                assert(mid.data.layout.block_placed(b2) == mid.data.cfg.spec_block_live(b2));
            }
            if old(self).data.fully_placed() {
                assert forall|x: Inst| #[trigger] fin.dfg.spec_inst_live(x)
                    implies fin.layout.inst_placed(x) by {
                    if x != i {
                        assert(old(self).data.dfg.spec_inst_live(x));
                        assert(old(self).data.layout.inst_placed(x));
                        assert(mid.data.layout.placed_in(x) == old(self).data.layout.placed_in(x));
                    }
                }
            }
        }
        i
    }

    /// Remove an instruction: detach the cursor from it, unplace it, and
    /// deregister it from the data-flow graph. Callers must first rewrite
    /// any remaining uses of its result.
    #[verifier::rlimit(60)]
    pub fn remove_inst(&mut self, inst: Inst)
        requires
            old(self).inv(),
            old(self).data.dfg.spec_inst_live(inst),
            old(self).data.layout.inst_placed(inst),
            old(self).data.dfg.inst_result@[inst.0 as int] matches Some(v) ==> old(self).data.dfg.uses_of(v).len() == 0,
        ensures
            final(self).inv(),
            !final(self).data.dfg.spec_inst_live(inst),
            !final(self).data.layout.inst_placed(inst),
            forall|x: Inst| x != inst ==> final(self).data.dfg.spec_inst_live(x) == old(self).data.dfg.spec_inst_live(x),
            forall|x: Inst| x != inst ==> final(self).data.layout.placed_in(x) == old(self).data.layout.placed_in(x),
            forall|v: Value|
                final(self).data.dfg.spec_value_live(v) == (old(self).data.dfg.spec_value_live(v)
                    && old(self).data.dfg.inst_result@[inst.0 as int] != Some(v)),
            forall|v: Value, x: Inst|
                x != inst ==> final(self).data.dfg.is_use(v, x) == old(self).data.dfg.is_use(v, x),
            forall|v: Value| !final(self).data.dfg.is_use(v, inst),
            forall|b: Block, x: Inst|
                x != inst ==> final(self).data.dfg.is_block_user(b, x) == old(self).data.dfg.is_block_user(b, x),
            forall|b: Block| !final(self).data.dfg.is_block_user(b, inst),
            forall|x: Inst|
                x != inst && old(self).data.dfg.inst_in_range(x) ==> final(self).data.dfg.args_of(
                    x,
                ) == old(self).data.dfg.args_of(x) && final(self).data.dfg.bbs_of(x) == old(self).data.dfg.bbs_of(x) && final(self).data.dfg.inst_result@[x.0 as int] == old(self).data.dfg.inst_result@[x.0 as int],
            final(self).data.dfg.inst_op == old(self).data.dfg.inst_op,
            final(self).data.dfg.inst_ty == old(self).data.dfg.inst_ty,
            final(self).data.dfg.inst_imm == old(self).data.dfg.inst_imm,
            final(self).data.dfg.inst_loc == old(self).data.dfg.inst_loc,
            final(self).data.dfg.arg_values == old(self).data.dfg.arg_values,
            final(self).data.dfg.ext_units == old(self).data.dfg.ext_units,
            forall|v: Value|
                old(self).data.dfg.spec_value_live(v) && old(self).data.dfg.inst_result@[
                    inst.0 as int] != Some(v) ==> final(self).data.dfg.value_data@[v.0 as int]
                    == old(self).data.dfg.value_data@[v.0 as int] && final(self).data.dfg.value_name@[v.0 as int] == old(self).data.dfg.value_name@[v.0 as int]
                    && final(self).data.dfg.value_hint@[v.0 as int] == old(self).data.dfg.value_hint@[v.0 as int],
            old(self).data.layout.placed_in(inst) matches Some(bb) ==> final(self).data.layout.insts_of(bb) == old(self).data.layout.insts_of(bb).remove_value(inst)
                && (forall|b2: Block|
                b2 != bb ==> final(self).data.layout.insts_of(b2) == old(self).data.layout.insts_of(b2)),
            old(self).data.fully_placed() ==> final(self).data.fully_placed(),
            final(self).data.cfg == old(self).data.cfg,
            final(self).data.kind == old(self).data.kind,
            final(self).data.sig == old(self).data.sig,
            final(self).data.name == old(self).data.name,
            final(self).data.layout.blocks_seq() == old(self).data.layout.blocks_seq(),
            final(self).data.dfg.n_live_insts() == old(self).data.dfg.n_live_insts() - 1,
    {
        // Detach the cursor if it anchors this instruction.
        let fix_after = match self.pos {
            InsertPos::After(x) => x == inst,
            _ => false,
        };
        let fix_before = match self.pos {
            InsertPos::Before(x) => x == inst,
            _ => false,
        };
        if fix_after {
            match self.data.layout.prev_inst(inst) {
                Some(p) => {
                    self.pos = InsertPos::After(p);
                },
                None => {
                    match self.data.layout.inst_block_of(inst) {
                        Some(b) => {
                            proof {
                                assert(self.data.layout.placement_ok());
                                assert(self.data.layout.block_order@.contains(b));
                            }
                            self.pos = InsertPos::Prepend(b);
                        },
                        None => {
                            proof {
                                assert(false);
                            }
                        },
                    }
                },
            }
        } else if fix_before {
            match self.data.layout.next_inst(inst) {
                Some(nx) => {
                    self.pos = InsertPos::Before(nx);
                },
                None => {
                    match self.data.layout.inst_block_of(inst) {
                        Some(b) => {
                            proof {
                                assert(self.data.layout.placement_ok());
                                assert(self.data.layout.block_order@.contains(b));
                            }
                            self.pos = InsertPos::Append(b);
                        },
                        None => {
                            proof {
                                assert(false);
                            }
                        },
                    }
                },
            }
        }
        let ghost mid1 = *self;
        self.data.layout.remove_inst(inst);
        let ghost mid2 = *self;
        self.data.dfg.remove_inst(inst);
        proof {
            let fin = &self.data;
            assert forall|x: Inst| #[trigger] fin.layout.inst_placed(x)
                implies fin.dfg.spec_inst_live(x) by {
                assert(mid2.data.layout.placed_in(x) == fin.layout.placed_in(x));
                assert(x != inst);
                assert(mid1.data.layout.placed_in(x) == mid2.data.layout.placed_in(x));
                assert(old(self).data.layout.placed_in(x) == mid1.data.layout.placed_in(x));
                assert(old(self).data.layout.inst_placed(x));
                assert(old(self).data.dfg.spec_inst_live(x));
            }
            assert forall|b2: Block| #[trigger] fin.layout.block_placed(b2)
                == fin.cfg.spec_block_live(b2) by {
                assert(old(self).data.layout.block_placed(b2) == old(self).data.cfg.spec_block_live(b2));
            }
            assert forall|ii: int, j: int|
                0 <= ii < fin.dfg.n_insts() && fin.dfg.inst_live@[ii] && 0 <= j
                    < fin.dfg.inst_bbs@[ii]@.len() implies ((#[trigger] fin.dfg.bb_at(ii, j)).0
                == INVALID_IDX || fin.cfg.spec_block_live(fin.dfg.bb_at(ii, j))) by {
                assert(Inst(ii as usize) != inst);
                assert(fin.dfg.args_of(Inst(ii as usize)) == old(self).data.dfg.args_of(
                    Inst(ii as usize),
                ));
                assert(fin.dfg.bbs_of(Inst(ii as usize)) == old(self).data.dfg.bbs_of(
                    Inst(ii as usize),
                ));
                assert(old(self).data.dfg.bb_at(ii, j) == fin.dfg.bb_at(ii, j));
                assert(old(self).data.dfg.inst_live@[ii]);
            }
            assert forall|k: int|
                0 <= k < fin.sig.spec_num_args() implies fin.dfg.value_data@[(
            #[trigger] fin.dfg.arg_values@[k]).0 as int] == (ValueData::Arg {
                ty: fin.sig.spec_arg_ty(k),
                arg: Arg(k as usize),
            }) by {
                let av = old(self).data.dfg.arg_values@[k];
                assert(old(self).data.dfg.args_ok());
                assert(old(self).data.dfg.spec_value_live(av));
                assert(old(self).data.dfg.value_data@[av.0 as int] matches ValueData::Arg { .. });
                if old(self).data.dfg.inst_result@[inst.0 as int] == Some(av) {
                    assert(old(self).data.dfg.results_ok());
                    assert(old(self).data.dfg.value_data@[av.0 as int] matches ValueData::Inst {
                        ..
                    });
                    assert(false);
                }
                assert(fin.dfg.spec_value_live(av));
            }
            // Cursor validity.
            match self.pos {
                InsertPos::Unset => {},
                InsertPos::Append(b) => {
                    assert(mid1.data.layout.block_placed(b));
                },
                InsertPos::Prepend(b) => {
                    assert(mid1.data.layout.block_placed(b));
                },
                InsertPos::After(x) => {
                    assert(mid1.data.layout.inst_placed(x) && x != inst);
                },
                InsertPos::Before(x) => {
                    assert(mid1.data.layout.inst_placed(x) && x != inst);
                },
            }
            if old(self).data.fully_placed() {
                assert forall|x: Inst| #[trigger] fin.dfg.spec_inst_live(x)
                    implies fin.layout.inst_placed(x) by {
                    assert(x != inst);
                    assert(old(self).data.dfg.spec_inst_live(x));
                    assert(old(self).data.layout.inst_placed(x));
                }
            }
        }
    }
}

impl UnitBuilder {
    /// Remove a block: scrub every reference to it (branch targets become
    /// the invalid sentinel, phi entries for it are dropped), take it out of
    /// the layout and the control-flow graph, and remove its instructions,
    /// rewriting any remaining uses of their results to the invalid-value
    /// sentinel. An entity keeps its single body block, so this is for
    /// functions and processes.
    #[verifier::loop_isolation(false)]
    #[verifier::rlimit(90)]
    pub fn remove_block(&mut self, bb: Block)
        requires
            old(self).inv(),
            old(self).data.kind != UnitKind::Entity,
            old(self).data.layout.block_placed(bb),
        ensures
            final(self).inv(),
            !final(self).data.cfg.spec_block_live(bb),
            !final(self).data.layout.block_placed(bb),
            forall|b2: Block| b2 != bb ==> final(self).data.cfg.spec_block_live(b2) == old(self).data.cfg.spec_block_live(b2),
            final(self).data.layout.blocks_seq() == old(self).data.layout.blocks_seq().remove_value(
                bb,
            ),
            // No live instruction references the removed block any more.
            forall|x: Inst|
                final(self).data.dfg.spec_inst_live(x) ==> !final(self).data.dfg.bbs_of(
                    x,
                ).contains(bb),
            forall|x: Inst| !final(self).data.dfg.is_block_user(bb, x),
            // The block's instructions are gone.
            forall|x: Inst|
                old(self).data.layout.placed_in(x) == Some(bb) ==> !final(self).data.dfg.spec_inst_live(x),
            // Everything else stays.
            forall|x: Inst|
                old(self).data.layout.placed_in(x) != Some(bb) && old(self).data.dfg.spec_inst_live(
                    x,
                ) ==> final(self).data.dfg.spec_inst_live(x),
            // Tombstone policy on survivors: plain references to the removed
            // block become the invalid-block sentinel, phi entries for it are
            // dropped together with their paired operands, and any operand
            // that named a result defined in the removed block becomes the
            // invalid-value sentinel; all other slots are unchanged.
            forall|x: Inst|
                #![trigger final(self).data.dfg.spec_inst_live(x)]
                final(self).data.dfg.spec_inst_live(x) && old(self).data.dfg.inst_op@[x.0 as int]
                    != Opcode::Phi ==> {
                    &&& final(self).data.dfg.bbs_of(x).len() == old(self).data.dfg.bbs_of(x).len()
                    &&& (forall|j: int|
                        0 <= j < old(self).data.dfg.bbs_of(x).len() ==> final(self).data.dfg.bbs_of(x)[j] == (if old(self).data.dfg.bbs_of(x)[j] == bb {
                            Block(INVALID_IDX)
                        } else {
                            old(self).data.dfg.bbs_of(x)[j]
                        }))
                    &&& final(self).data.dfg.args_of(x).len() == old(self).data.dfg.args_of(
                        x,
                    ).len()
                    &&& (forall|j: int|
                        0 <= j < old(self).data.dfg.args_of(x).len() ==> final(self).data.dfg.args_of(x)[j] == (if crate::dfg::listed_result(
                            &old(self).data.dfg,
                            old(self).data.layout.insts_of(bb),
                            old(self).data.dfg.args_of(x)[j],
                        ) {
                            Value(INVALID_IDX)
                        } else {
                            old(self).data.dfg.args_of(x)[j]
                        }))
                },
            forall|x: Inst|
                #![trigger final(self).data.dfg.spec_inst_live(x)]
                final(self).data.dfg.spec_inst_live(x) && old(self).data.dfg.inst_op@[x.0 as int]
                    == Opcode::Phi ==> {
                    &&& final(self).data.dfg.bbs_of(x) == crate::dfg::blocks_without(
                        old(self).data.dfg.bbs_of(x),
                        bb,
                    )
                    &&& final(self).data.dfg.args_of(x).len() == crate::dfg::phi_args_without(
                        old(self).data.dfg.args_of(x),
                        old(self).data.dfg.bbs_of(x),
                        bb,
                    ).len()
                    &&& (forall|j: int|
                        0 <= j < final(self).data.dfg.args_of(x).len() ==> final(self).data.dfg.args_of(x)[j] == {
                            let fa = crate::dfg::phi_args_without(
                                old(self).data.dfg.args_of(x),
                                old(self).data.dfg.bbs_of(x),
                                bb,
                            );
                            if crate::dfg::listed_result(
                                &old(self).data.dfg,
                                old(self).data.layout.insts_of(bb),
                                fa[j],
                            ) {
                                Value(INVALID_IDX)
                            } else {
                                fa[j]
                            }
                        })
                },
            forall|b2: Block| b2 != bb ==> final(self).data.layout.insts_of(b2) == old(self).data.layout.insts_of(b2),
            old(self).data.fully_placed() ==> final(self).data.fully_placed(),
            // Surviving values keep their origin and type, and the argument
            // bindings are untouched.
            forall|v: Value|
                #![trigger final(self).data.dfg.spec_value_live(v)]
                final(self).data.dfg.spec_value_live(v) ==> old(self).data.dfg.spec_value_live(v)
                    && final(self).data.dfg.value_data@[v.0 as int] == old(self).data.dfg.value_data@[v.0 as int],
            final(self).data.dfg.arg_values == old(self).data.dfg.arg_values,
            final(self).data.dfg.ext_units == old(self).data.dfg.ext_units,
            final(self).data.kind == old(self).data.kind,
            final(self).data.sig == old(self).data.sig,
            final(self).data.name == old(self).data.name,
    {
        proof {
            assert(old(self).data.cfg.spec_block_live(bb));
        }
        // Snapshot the block's instructions; they are placed, hence live.
        let insts = copy_insts(self.data.layout.insts(bb));
        let ghost row = insts@;
        proof {
            assert forall|m: int| 0 <= m < row.len() implies self.data.dfg.spec_inst_live(
                #[trigger] row[m],
            ) && self.data.layout.placed_in(row[m]) == Some(bb) by {
                let k = choose|k: int|
                    0 <= k < self.data.layout.blocks_seq().len() && self.data.layout.blocks_seq()[k]
                        == bb;
                assert(self.data.layout.row_ok(bb.0 as int));
                assert(self.data.layout.inst_placed(row[m]));
            }
            assert(row.no_duplicates()) by {
                let k = choose|k: int|
                    0 <= k < self.data.layout.blocks_seq().len() && self.data.layout.blocks_seq()[k]
                        == bb;
                assert(self.data.layout.row_ok(bb.0 as int));
            }
        }
        // Scrub references to the block across the data-flow graph.
        let _scrubbed = self.data.dfg.remove_block_use(bb);
        let ghost s1 = *self;
        // Detach the cursor if it points into the block.
        let scrub_cursor = match self.pos {
            InsertPos::Unset => false,
            InsertPos::Append(b) => b == bb,
            InsertPos::Prepend(b) => b == bb,
            InsertPos::After(x) => {
                match self.data.layout.inst_block_of(x) {
                    Some(b) => b == bb,
                    None => false,
                }
            },
            InsertPos::Before(x) => {
                match self.data.layout.inst_block_of(x) {
                    Some(b) => b == bb,
                    None => false,
                }
            },
        };
        if scrub_cursor {
            self.pos = InsertPos::Unset;
        }
        // Take the block out of the layout and the control-flow graph.
        self.data.layout.remove_block(bb);
        self.data.cfg.remove_block(bb);
        let ghost s2 = *self;
        proof {
            // The unit is well-formed again before the instructions go.
            assert forall|b2: Block| #[trigger] s2.data.layout.block_placed(b2)
                == s2.data.cfg.spec_block_live(b2) by {
                assert(old(self).data.layout.block_placed(b2) == old(self).data.cfg.spec_block_live(b2));
            }
            assert forall|x: Inst| #[trigger] s2.data.layout.inst_placed(x)
                implies s2.data.dfg.spec_inst_live(x) by {
                assert(old(self).data.layout.inst_placed(x));
                assert(old(self).data.dfg.spec_inst_live(x));
            }
            assert forall|ii: int, j: int|
                0 <= ii < s2.data.dfg.n_insts() && s2.data.dfg.inst_live@[ii] && 0 <= j
                    < s2.data.dfg.inst_bbs@[ii]@.len() implies ((#[trigger] s2.data.dfg.bb_at(
                ii,
                j,
            )).0 == INVALID_IDX || s2.data.cfg.spec_block_live(s2.data.dfg.bb_at(ii, j))) by {
                let x = Inst(ii as usize);
                assert(old(self).data.dfg.spec_inst_live(x));
                let b2 = s2.data.dfg.bb_at(ii, j);
                assert(s2.data.dfg.bbs_of(x)[j] == b2);
                assert(!s2.data.dfg.bbs_of(x).contains(bb) || bb.0 == INVALID_IDX) by {
                    if bb.0 != INVALID_IDX {
                        assert(!s1.data.dfg.bbs_of(x).contains(bb));
                    }
                }
                if b2.0 != INVALID_IDX {
                    assert(s2.data.dfg.bbs_of(x).contains(b2));
                    assert(b2 != bb);
                    // the reference existed before the scrub or is an old one
                    if old(self).data.dfg.inst_op@[ii] == crate::dfg::Opcode::Phi {
                        crate::dfg::lemma_without_shape(
                            old(self).data.dfg.args_of(x),
                            old(self).data.dfg.bbs_of(x),
                            bb,
                        );
                        assert(old(self).data.dfg.bbs_of(x).contains(b2));
                        let m = choose|m: int|
                            0 <= m < old(self).data.dfg.bbs_of(x).len() && old(
                            self).data.dfg.bbs_of(x)[m] == b2;
                        assert(old(self).data.dfg.bb_at(ii, m) == b2);
                        assert(old(self).data.cfg.spec_block_live(b2));
                    } else {
                        assert(s2.data.dfg.bbs_of(x)[j] == (if old(self).data.dfg.bbs_of(x)[j]
                            == bb {
                            Block(INVALID_IDX)
                        } else {
                            old(self).data.dfg.bbs_of(x)[j]
                        }));
                        assert(old(self).data.dfg.bb_at(ii, j) == b2);
                        assert(old(self).data.cfg.spec_block_live(b2));
                    }
                }
            }
            assert forall|k: int|
                0 <= k < s2.data.sig.spec_num_args() implies s2.data.dfg.value_data@[(
            #[trigger] s2.data.dfg.arg_values@[k]).0 as int] == (ValueData::Arg {
                ty: s2.data.sig.spec_arg_ty(k),
                arg: Arg(k as usize),
            }) by {
                assert(old(self).data.dfg.args_ok());
                assert(old(self).data.dfg.spec_value_live(old(self).data.dfg.arg_values@[k]));
            }
            assert(s2.data.wf());
            match s2.pos {
                InsertPos::Unset => {},
                InsertPos::Append(b) => {
                    assert(b != bb);
                },
                InsertPos::Prepend(b) => {
                    assert(b != bb);
                },
                InsertPos::After(x) => {
                    assert(s1.data.layout.placed_in(x) != Some(bb));
                },
                InsertPos::Before(x) => {
                    assert(s1.data.layout.placed_in(x) != Some(bb));
                },
            }
            assert(s2.cursor_ok());
        }
        // Remove the block's instructions, rewriting any remaining uses of
        // their results to the invalid-value sentinel.
        proof {
            assert(bb.0 != INVALID_IDX);
            assert forall|x: Inst|
                self.data.dfg.spec_inst_live(x) implies !self.data.dfg.bbs_of(x).contains(
                bb,
            ) by {
                assert(old(self).data.dfg.spec_inst_live(x));
                assert(!s1.data.dfg.bbs_of(x).contains(bb));
            }
            assert forall|x: Inst| !self.data.dfg.is_block_user(bb, x) by {
                assert(s1.data.dfg.block_users_of(bb).len() == 0);
                if self.data.dfg.block_users_of(bb).contains(x) {
                    assert(false);
                }
            }
            assert forall|m: int| 0 <= m < row.len() implies !s2.data.layout.inst_placed(
                #[trigger] row[m],
            ) by {
                assert(old(self).data.layout.placed_in(row[m]) == Some(bb));
            }
        }
        self.data.dfg.purge_insts(&insts);
        proof {
            let fin = &self.data;
            // The removed block's instructions are dead; everything else as
            // live as before.
            assert forall|x: Inst|
                old(self).data.layout.placed_in(x) == Some(bb) implies !fin.dfg.spec_inst_live(
                x,
            ) by {
                assert(old(self).data.layout.placement_ok());
                assert(old(self).data.layout.block_insts@[bb.0 as int]@.contains(x));
                let m = choose|m: int| 0 <= m < row.len() && row[m] == x;
                assert(!fin.dfg.spec_inst_live(row[m]));
            }
            // Placed instructions survive: nothing placed sits in the list.
            assert forall|x: Inst| #[trigger] fin.layout.inst_placed(x)
                implies fin.dfg.spec_inst_live(x) by {
                assert(s2.data.layout.inst_placed(x));
                if row.contains(x) {
                    let m = choose|m: int| 0 <= m < row.len() && row[m] == x;
                    assert(!s2.data.layout.inst_placed(row[m]));
                    assert(false);
                }
                assert(s2.data.dfg.spec_inst_live(x));
            }
            // Surviving block references are live blocks or tombstones, and
            // never the removed block.
            assert forall|x: Inst|
                fin.dfg.spec_inst_live(x) implies !fin.dfg.bbs_of(x).contains(bb) by {
                assert(fin.dfg.bbs_of(x) == s2.data.dfg.bbs_of(x));
                assert(s2.data.dfg.spec_inst_live(x));
            }
            assert forall|ii: int, j: int|
                0 <= ii < fin.dfg.n_insts() && fin.dfg.inst_live@[ii] && 0 <= j
                    < fin.dfg.inst_bbs@[ii]@.len() implies ((#[trigger] fin.dfg.bb_at(ii, j)).0
                == INVALID_IDX || fin.cfg.spec_block_live(fin.dfg.bb_at(ii, j))) by {
                let x = Inst(ii as usize);
                assert(fin.dfg.spec_inst_live(x));
                assert(fin.dfg.bbs_of(x) == s2.data.dfg.bbs_of(x));
                assert(s2.data.dfg.spec_inst_live(x));
                assert(s2.data.dfg.bb_at(ii, j) == fin.dfg.bb_at(ii, j));
            }
            // No block-user row lists anything for the removed block.
            assert forall|x: Inst| !fin.dfg.is_block_user(bb, x) by {
                if fin.dfg.is_block_user(bb, x) {
                    assert(s2.data.dfg.is_block_user(bb, x));
                    assert(false);
                }
            }
            // Argument bindings survive: argument values are not results.
            assert forall|k2: int|
                0 <= k2 < fin.sig.spec_num_args() implies fin.dfg.value_data@[(
            #[trigger] fin.dfg.arg_values@[k2]).0 as int] == (ValueData::Arg {
                ty: fin.sig.spec_arg_ty(k2),
                arg: Arg(k2 as usize),
            }) by {
                let av = s2.data.dfg.arg_values@[k2];
                assert(s2.data.dfg.args_ok());
                assert(s2.data.dfg.spec_value_live(av));
                assert(s2.data.dfg.value_data@[av.0 as int] matches ValueData::Arg { .. });
                assert(fin.dfg.spec_value_live(av) && fin.dfg.value_data@[av.0 as int]
                    == s2.data.dfg.value_data@[av.0 as int]);
            }
            // Coverage of blocks is untouched by the purge.
            assert forall|b2: Block| #[trigger] fin.layout.block_placed(b2)
                == fin.cfg.spec_block_live(b2) by {
                assert(s2.data.layout.block_placed(b2) == s2.data.cfg.spec_block_live(b2));
            }
            assert(fin.wf());
            if old(self).data.fully_placed() {
                assert forall|x: Inst| #[trigger] fin.dfg.spec_inst_live(x)
                    implies fin.layout.inst_placed(x) by {
                    if row.contains(x) {
                        let m = choose|m: int| 0 <= m < row.len() && row[m] == x;
                        assert(!fin.dfg.spec_inst_live(row[m]));
                        assert(false);
                    }
                    assert(s2.data.dfg.spec_inst_live(x));
                    assert(old(self).data.dfg.spec_inst_live(x));
                    assert(old(self).data.layout.inst_placed(x));
                    if old(self).data.layout.placed_in(x) == Some(bb) {
                        assert(old(self).data.layout.placement_ok());
                        assert(old(self).data.layout.block_insts@[bb.0 as int]@.contains(x));
                        assert(row.contains(x));
                        assert(false);
                    }
                    assert(s2.data.layout.placed_in(x) == old(self).data.layout.placed_in(x));
                }
            }
        }
    }

    /// Whether pruning would remove this instruction: it is live, produces a
    /// result, and nothing reads the result.
    pub open spec fn prune_applies(&self, inst: Inst) -> bool {
        &&& self.data.dfg.spec_inst_live(inst)
        &&& self.data.dfg.inst_result@[inst.0 as int] is Some
        &&& (self.data.dfg.inst_result@[inst.0 as int] matches Some(v) && self.data.dfg.uses_of(
            v,
        ).len() == 0)
    }

    /// Remove an instruction if its result is not being read, then
    /// recursively prune the instructions that defined its operands. Returns
    /// whether the instruction was removed. Pruning never applies twice: when
    /// it returns false the unit is unchanged, and when it removes the
    /// instruction the handle is dead, so a repeated call has no additional
    /// effect.
    #[verifier::loop_isolation(false)]
    #[verifier::rlimit(60)]
    pub fn prune_if_unused(&mut self, inst: Inst) -> (r: bool)
        requires
            old(self).inv(),
            old(self).data.fully_placed(),
        ensures
            final(self).inv(),
            final(self).data.fully_placed(),
            r == old(self).prune_applies(inst),
            !r ==> *final(self) == *old(self),
            r ==> !final(self).data.dfg.spec_inst_live(inst),
            !final(self).prune_applies(inst),
            forall|x: Inst|
                final(self).data.dfg.spec_inst_live(x) ==> old(self).data.dfg.spec_inst_live(x),
            // Pruning touches nothing that survives: a live instruction keeps
            // its operands, references, result, opcode, type, location and
            // placement, and only instructions with an unread result die.
            forall|x: Inst|
                #![trigger final(self).data.dfg.spec_inst_live(x)]
                final(self).data.dfg.spec_inst_live(x) ==> {
                    &&& final(self).data.dfg.args_of(x) == old(self).data.dfg.args_of(x)
                    &&& final(self).data.dfg.bbs_of(x) == old(self).data.dfg.bbs_of(x)
                    &&& final(self).data.dfg.inst_result@[x.0 as int] == old(self).data.dfg.inst_result@[x.0 as int]
                    &&& final(self).data.dfg.inst_op@[x.0 as int] == old(self).data.dfg.inst_op@[
                        x.0 as int]
                    &&& final(self).data.dfg.inst_ty@[x.0 as int] == old(self).data.dfg.inst_ty@[
                        x.0 as int]
                    &&& final(self).data.layout.placed_in(x) == old(self).data.layout.placed_in(x)
                },
            forall|v: Value|
                #![trigger final(self).data.dfg.spec_value_live(v)]
                final(self).data.dfg.spec_value_live(v) ==> old(self).data.dfg.spec_value_live(v)
                    && final(self).data.dfg.value_data@[v.0 as int] == old(self).data.dfg.value_data@[v.0 as int],
            forall|v: Value, x: Inst|
                final(self).data.dfg.spec_value_live(v) && final(self).data.dfg.spec_inst_live(x)
                    ==> final(self).data.dfg.is_use(v, x) == old(self).data.dfg.is_use(v, x),
            forall|x: Inst|
                old(self).data.dfg.spec_inst_live(x) && !final(self).data.dfg.spec_inst_live(x)
                    ==> old(self).data.dfg.inst_result@[x.0 as int] is Some,
            final(self).data.cfg == old(self).data.cfg,
            final(self).data.layout.blocks_seq() == old(self).data.layout.blocks_seq(),
            final(self).data.dfg.arg_values == old(self).data.dfg.arg_values,
            final(self).data.dfg.ext_units == old(self).data.dfg.ext_units,
            final(self).data.dfg.n_live_insts() <= old(self).data.dfg.n_live_insts(),
            r ==> final(self).data.dfg.n_live_insts() < old(self).data.dfg.n_live_insts(),
            final(self).data.kind == old(self).data.kind,
            final(self).data.sig == old(self).data.sig,
            final(self).data.name == old(self).data.name,
        decreases old(self).data.dfg.n_live_insts(),
    {
        if !self.data.dfg.is_inst_live(inst) {
            return false;
        }
        let prune = self.data.dfg.has_result(inst) && {
            let v = self.data.dfg.inst_result(inst);
            !self.data.dfg.has_uses(v)
        };
        if !prune {
            return false;
        }
        let args = copy_values(self.data.dfg.inst_args(inst));
        let ghost row = args@;
        proof {
            assert(self.data.layout.inst_placed(inst));
        }
        self.remove_inst(inst);
        let ghost after_rm = *self;
        let n = args.len();
        let mut k: usize = 0;
        while k < n
            invariant
                k <= n,
                n == row.len(),
                args@ == row,
                self.inv(),
                self.data.fully_placed(),
                self.data.dfg.n_live_insts() < old(self).data.dfg.n_live_insts(),
                forall|x: Inst|
                    self.data.dfg.spec_inst_live(x) ==> old(self).data.dfg.spec_inst_live(x),
                forall|x: Inst|
                    #![trigger self.data.dfg.spec_inst_live(x)]
                    self.data.dfg.spec_inst_live(x) ==> {
                        &&& self.data.dfg.args_of(x) == old(self).data.dfg.args_of(x)
                        &&& self.data.dfg.bbs_of(x) == old(self).data.dfg.bbs_of(x)
                        &&& self.data.dfg.inst_result@[x.0 as int] == old(self).data.dfg.inst_result@[x.0 as int]
                        &&& self.data.dfg.inst_op@[x.0 as int] == old(self).data.dfg.inst_op@[
                            x.0 as int]
                        &&& self.data.dfg.inst_ty@[x.0 as int] == old(self).data.dfg.inst_ty@[
                            x.0 as int]
                        &&& self.data.layout.placed_in(x) == old(self).data.layout.placed_in(x)
                    },
                forall|v: Value|
                    #![trigger self.data.dfg.spec_value_live(v)]
                    self.data.dfg.spec_value_live(v) ==> old(self).data.dfg.spec_value_live(v)
                        && self.data.dfg.value_data@[v.0 as int] == old(self).data.dfg.value_data@[
                        v.0 as int],
                forall|v: Value, x: Inst|
                    self.data.dfg.spec_value_live(v) && self.data.dfg.spec_inst_live(x)
                        ==> self.data.dfg.is_use(v, x) == old(self).data.dfg.is_use(v, x),
                forall|x: Inst|
                    old(self).data.dfg.spec_inst_live(x) && !self.data.dfg.spec_inst_live(x)
                        ==> old(self).data.dfg.inst_result@[x.0 as int] is Some,
                !self.data.dfg.spec_inst_live(inst),
                self.data.cfg == old(self).data.cfg,
                self.data.layout.blocks_seq() == old(self).data.layout.blocks_seq(),
                self.data.dfg.arg_values == old(self).data.dfg.arg_values,
                self.data.dfg.ext_units == old(self).data.dfg.ext_units,
                self.data.kind == old(self).data.kind,
                self.data.sig == old(self).data.sig,
                self.data.name == old(self).data.name,
            decreases n - k,
        {
            let a = args[k];
            if self.data.dfg.is_value_live(a) {
                match self.data.dfg.get_value_inst(a) {
                    Some(di) => {
                        let _pruned = self.prune_if_unused(di);
                    },
                    None => {},
                }
            }
            k = k + 1;
        }
        proof {
            assert(!self.prune_applies(inst));
        }
        true
    }
}

impl UnitBuilder {
    /// Rewrite every use of a value with another, returning how many operand
    /// slots changed. Afterwards nothing uses `from`, and every prior user
    /// of `from` uses `to`.
    pub fn replace_use(&mut self, from: Value, to: Value) -> (r: usize)
        requires
            old(self).inv(),
            old(self).data.dfg.value_ok(to),
        ensures
            final(self).inv(),
            old(self).data.dfg.spec_value_live(from) ==> r == old(self).data.dfg.total_val_count(from),
            !old(self).data.dfg.spec_value_live(from) ==> r == 0,
            from != to && old(self).data.dfg.spec_value_live(from) ==> final(self).data.dfg.uses_of(from).len() == 0,
            from != to && old(self).data.dfg.spec_value_live(to) ==> forall|x: Inst|
                final(self).data.dfg.is_use(to, x) == (old(self).data.dfg.is_use(to, x) || old(self).data.dfg.is_use(from, x)),
            forall|v: Value, x: Inst|
                v != from && v != to ==> final(self).data.dfg.is_use(v, x) == old(self).data.dfg.is_use(v, x),
            forall|x: Inst| final(self).data.dfg.spec_inst_live(x) == old(self).data.dfg.spec_inst_live(x),
            !old(self).data.dfg.spec_value_live(from) ==> final(self).data.dfg == old(self).data.dfg,
            forall|x: Inst|
                old(self).data.dfg.spec_inst_live(x) ==> final(self).data.dfg.args_of(x).len()
                    == old(self).data.dfg.args_of(x).len(),
            old(self).data.dfg.spec_value_live(from) ==> forall|x: Inst, j: int|
                old(self).data.dfg.spec_inst_live(x) && 0 <= j < old(self).data.dfg.args_of(
                    x,
                ).len() ==> final(self).data.dfg.args_of(x)[j] == (if old(self).data.dfg.args_of(
                    x,
                )[j] == from {
                    to
                } else {
                    old(self).data.dfg.args_of(x)[j]
                }),
            forall|x: Inst|
                old(self).data.dfg.inst_in_range(x) ==> final(self).data.dfg.bbs_of(x) == old(self).data.dfg.bbs_of(x),
            forall|b: Block, x: Inst|
                final(self).data.dfg.is_block_user(b, x) == old(self).data.dfg.is_block_user(b, x),
            DataFlowGraph::same_core(&old(self).data.dfg, &final(self).data.dfg),
            final(self).data.cfg == old(self).data.cfg,
            final(self).data.layout == old(self).data.layout,
            final(self).data.kind == old(self).data.kind,
            final(self).data.sig == old(self).data.sig,
            final(self).data.name == old(self).data.name,
            final(self).pos == old(self).pos,
            final(self).data.fully_placed() == old(self).data.fully_placed(),
    {
        let r = self.data.dfg.replace_use(from, to);
        proof {
            assert forall|ii: int, j: int|
                0 <= ii < self.data.dfg.n_insts() && self.data.dfg.inst_live@[ii] && 0 <= j
                    < self.data.dfg.inst_bbs@[ii]@.len() implies ((
            #[trigger] self.data.dfg.bb_at(ii, j)).0 == INVALID_IDX
                || old(self).data.cfg.spec_block_live(self.data.dfg.bb_at(ii, j))) by {
                let x = Inst(ii as usize);
                assert(old(self).data.dfg.spec_inst_live(x));
                assert(self.data.dfg.bbs_of(x) == old(self).data.dfg.bbs_of(x));
                assert(old(self).data.dfg.bb_at(ii, j) == self.data.dfg.bb_at(ii, j));
            }
            lemma_unit_wf_dfg_change(&old(self).data, &self.data);
            lemma_fully_placed_same(&old(self).data, &self.data);
        }
        r
    }

    /// Rewrite the uses of a value with another within one instruction,
    /// returning how many operand slots changed.
    pub fn replace_value_within_inst(&mut self, from: Value, to: Value, inst: Inst) -> (r: usize)
        requires
            old(self).inv(),
            old(self).data.dfg.spec_inst_live(inst),
            old(self).data.dfg.value_ok(to),
        ensures
            final(self).inv(),
            r == crate::dfg::count_val(old(self).data.dfg.args_of(inst), from),
            final(self).data.dfg.args_of(inst).len() == old(self).data.dfg.args_of(inst).len(),
            forall|j: int|
                0 <= j < old(self).data.dfg.args_of(inst).len() ==> final(self).data.dfg.args_of(
                    inst,
                )[j] == (if old(self).data.dfg.args_of(inst)[j] == from {
                    to
                } else {
                    old(self).data.dfg.args_of(inst)[j]
                }),
            forall|x: Inst| final(self).data.dfg.spec_inst_live(x) == old(self).data.dfg.spec_inst_live(x),
            forall|x: Inst|
                x != inst && old(self).data.dfg.inst_in_range(x) ==> final(self).data.dfg.args_of(
                    x,
                ) == old(self).data.dfg.args_of(x),
            forall|x: Inst|
                old(self).data.dfg.inst_in_range(x) ==> final(self).data.dfg.bbs_of(x) == old(self).data.dfg.bbs_of(x),
            forall|v: Value, x: Inst|
                x != inst ==> final(self).data.dfg.is_use(v, x) == old(self).data.dfg.is_use(v, x),
            forall|b: Block, x: Inst|
                final(self).data.dfg.is_block_user(b, x) == old(self).data.dfg.is_block_user(b, x),
            DataFlowGraph::same_core(&old(self).data.dfg, &final(self).data.dfg),
            final(self).data.cfg == old(self).data.cfg,
            final(self).data.layout == old(self).data.layout,
            final(self).data.kind == old(self).data.kind,
            final(self).data.sig == old(self).data.sig,
            final(self).pos == old(self).pos,
            final(self).data.fully_placed() == old(self).data.fully_placed(),
    {
        let r = self.data.dfg.replace_value_within_inst(from, to, inst);
        proof {
            assert forall|ii: int, j: int|
                0 <= ii < self.data.dfg.n_insts() && self.data.dfg.inst_live@[ii] && 0 <= j
                    < self.data.dfg.inst_bbs@[ii]@.len() implies ((
            #[trigger] self.data.dfg.bb_at(ii, j)).0 == INVALID_IDX
                || old(self).data.cfg.spec_block_live(self.data.dfg.bb_at(ii, j))) by {
                let x = Inst(ii as usize);
                assert(old(self).data.dfg.spec_inst_live(x));
                assert(self.data.dfg.bbs_of(x) == old(self).data.dfg.bbs_of(x));
                assert(old(self).data.dfg.bb_at(ii, j) == self.data.dfg.bb_at(ii, j));
            }
            lemma_unit_wf_dfg_change(&old(self).data, &self.data);
            lemma_fully_placed_same(&old(self).data, &self.data);
        }
        r
    }

    /// Rewrite every reference to a block with another, returning how many
    /// references changed.
    pub fn replace_block_use(&mut self, from: Block, to: Block) -> (r: usize)
        requires
            old(self).inv(),
            to.0 == INVALID_IDX || old(self).data.cfg.spec_block_live(to),
        ensures
            final(self).inv(),
            from.0 != INVALID_IDX ==> r == old(self).data.dfg.total_blk_count(from),
            from.0 == INVALID_IDX ==> r == 0,
            from != to && from.0 != INVALID_IDX ==> final(self).data.dfg.block_users_of(
                from,
            ).len() == 0,
            forall|x: Inst| final(self).data.dfg.spec_inst_live(x) == old(self).data.dfg.spec_inst_live(x),
            forall|v: Value, x: Inst|
                final(self).data.dfg.is_use(v, x) == old(self).data.dfg.is_use(v, x),
            from.0 == INVALID_IDX ==> final(self).data.dfg == old(self).data.dfg,
            from.0 != INVALID_IDX ==> forall|x: Inst|
                old(self).data.dfg.spec_inst_live(x) ==> final(self).data.dfg.bbs_of(x).len()
                    == old(self).data.dfg.bbs_of(x).len() && (forall|j: int|
                    0 <= j < old(self).data.dfg.bbs_of(x).len() ==> final(self).data.dfg.bbs_of(
                        x,
                    )[j] == (if old(self).data.dfg.bbs_of(x)[j] == from {
                        to
                    } else {
                        old(self).data.dfg.bbs_of(x)[j]
                    })),
            forall|x: Inst|
                old(self).data.dfg.inst_in_range(x) ==> final(self).data.dfg.args_of(x) == old(self).data.dfg.args_of(x),
            DataFlowGraph::same_core(&old(self).data.dfg, &final(self).data.dfg),
            final(self).data.cfg == old(self).data.cfg,
            final(self).data.layout == old(self).data.layout,
            final(self).data.kind == old(self).data.kind,
            final(self).data.sig == old(self).data.sig,
            final(self).pos == old(self).pos,
            final(self).data.fully_placed() == old(self).data.fully_placed(),
    {
        proof {
            if to.0 != INVALID_IDX {
                assert(to.0 < MAX_HANDLES);
            }
        }
        let r = self.data.dfg.replace_block_use(from, to);
        proof {
            let fin = &self.data;
            let pre = &old(self).data;
            assert forall|ii: int, j: int|
                0 <= ii < fin.dfg.n_insts() && fin.dfg.inst_live@[ii] && 0 <= j
                    < fin.dfg.inst_bbs@[ii]@.len() implies ((#[trigger] fin.dfg.bb_at(ii, j)).0
                == INVALID_IDX || pre.cfg.spec_block_live(fin.dfg.bb_at(ii, j))) by {
                let x = Inst(ii as usize);
                assert(pre.dfg.spec_inst_live(x));
                if from.0 == INVALID_IDX {
                    assert(fin.dfg.bb_at(ii, j) == pre.dfg.bb_at(ii, j));
                } else {
                    assert(fin.dfg.bbs_of(x)[j] == (if pre.dfg.bbs_of(x)[j] == from {
                        to
                    } else {
                        pre.dfg.bbs_of(x)[j]
                    }));
                    if fin.dfg.bb_at(ii, j) != to {
                        assert(fin.dfg.bb_at(ii, j) == pre.dfg.bb_at(ii, j));
                    }
                }
            }
            lemma_unit_wf_dfg_change(pre, fin);
            lemma_fully_placed_same(pre, fin);
        }
        r
    }

    /// Rewrite every reference to a block with another within one
    /// instruction, returning how many references changed.
    pub fn replace_block_within_inst(&mut self, from: Block, to: Block, inst: Inst) -> (r: usize)
        requires
            old(self).inv(),
            old(self).data.dfg.spec_inst_live(inst),
            to.0 == INVALID_IDX || old(self).data.cfg.spec_block_live(to),
        ensures
            final(self).inv(),
            r == crate::dfg::count_blk(old(self).data.dfg.bbs_of(inst), from),
            final(self).data.dfg.bbs_of(inst).len() == old(self).data.dfg.bbs_of(inst).len(),
            forall|j: int|
                0 <= j < old(self).data.dfg.bbs_of(inst).len() ==> final(self).data.dfg.bbs_of(
                    inst,
                )[j] == (if old(self).data.dfg.bbs_of(inst)[j] == from {
                    to
                } else {
                    old(self).data.dfg.bbs_of(inst)[j]
                }),
            forall|x: Inst| final(self).data.dfg.spec_inst_live(x) == old(self).data.dfg.spec_inst_live(x),
            forall|x: Inst|
                x != inst && old(self).data.dfg.inst_in_range(x) ==> final(self).data.dfg.bbs_of(
                    x,
                ) == old(self).data.dfg.bbs_of(x),
            forall|x: Inst|
                old(self).data.dfg.inst_in_range(x) ==> final(self).data.dfg.args_of(x) == old(self).data.dfg.args_of(x),
            forall|v: Value, x: Inst|
                final(self).data.dfg.is_use(v, x) == old(self).data.dfg.is_use(v, x),
            forall|b2: Block, x: Inst|
                x != inst ==> final(self).data.dfg.is_block_user(b2, x) == old(self).data.dfg.is_block_user(b2, x),
            forall|b2: Block|
                final(self).data.dfg.is_block_user(b2, inst) == (b2.0 != INVALID_IDX && final(self).data.dfg.bbs_of(inst).contains(b2)),
            DataFlowGraph::same_core(&old(self).data.dfg, &final(self).data.dfg),
            final(self).data.cfg == old(self).data.cfg,
            final(self).data.layout == old(self).data.layout,
            final(self).pos == old(self).pos,
            final(self).data.kind == old(self).data.kind,
            final(self).data.sig == old(self).data.sig,
            final(self).data.fully_placed() == old(self).data.fully_placed(),
    {
        proof {
            if to.0 != INVALID_IDX {
                assert(to.0 < MAX_HANDLES);
            }
        }
        let r = self.data.dfg.replace_block_within_inst(from, to, inst);
        proof {
            let fin = &self.data;
            let pre = &old(self).data;
            assert forall|ii: int, j: int|
                0 <= ii < fin.dfg.n_insts() && fin.dfg.inst_live@[ii] && 0 <= j
                    < fin.dfg.inst_bbs@[ii]@.len() implies ((#[trigger] fin.dfg.bb_at(ii, j)).0
                == INVALID_IDX || pre.cfg.spec_block_live(fin.dfg.bb_at(ii, j))) by {
                let x = Inst(ii as usize);
                assert(pre.dfg.spec_inst_live(x));
                if ii == inst.0 as int {
                    assert(fin.dfg.bbs_of(inst)[j] == (if pre.dfg.bbs_of(inst)[j] == from {
                        to
                    } else {
                        pre.dfg.bbs_of(inst)[j]
                    }));
                    if fin.dfg.bb_at(ii, j) != to {
                        assert(fin.dfg.bb_at(ii, j) == pre.dfg.bb_at(ii, j));
                    }
                } else {
                    assert(fin.dfg.bbs_of(x) == pre.dfg.bbs_of(x));
                    assert(fin.dfg.bb_at(ii, j) == pre.dfg.bb_at(ii, j));
                }
            }
            lemma_unit_wf_dfg_change(pre, fin);
            lemma_fully_placed_same(pre, fin);
        }
        r
    }

    /// Remove every reference to a block: plain references become the
    /// invalid-block sentinel and phi entries for the block are dropped
    /// together with their paired operands. Returns how many references went
    /// away.
    pub fn remove_block_use(&mut self, block: Block) -> (r: usize)
        requires
            old(self).inv(),
        ensures
            final(self).inv(),
            r == old(self).data.dfg.total_blk_count(block),
            block.0 != INVALID_IDX ==> forall|x: Inst|
                final(self).data.dfg.spec_inst_live(x) ==> !final(self).data.dfg.bbs_of(
                    x,
                ).contains(block),
            block.0 != INVALID_IDX ==> final(self).data.dfg.block_users_of(block).len() == 0,
            forall|x: Inst| final(self).data.dfg.spec_inst_live(x) == old(self).data.dfg.spec_inst_live(x),
            forall|x: Inst|
                old(self).data.dfg.spec_inst_live(x) && old(self).data.dfg.inst_op@[x.0 as int]
                    == Opcode::Phi ==> final(self).data.dfg.args_of(x)
                    == crate::dfg::phi_args_without(
                    old(self).data.dfg.args_of(x),
                    old(self).data.dfg.bbs_of(x),
                    block,
                ) && final(self).data.dfg.bbs_of(x) == crate::dfg::blocks_without(
                    old(self).data.dfg.bbs_of(x),
                    block,
                ),
            forall|x: Inst|
                old(self).data.dfg.spec_inst_live(x) && old(self).data.dfg.inst_op@[x.0 as int]
                    != Opcode::Phi ==> final(self).data.dfg.args_of(x) == old(self).data.dfg.args_of(x) && final(self).data.dfg.bbs_of(x).len() == old(self).data.dfg.bbs_of(x).len() && (forall|j: int|
                    0 <= j < old(self).data.dfg.bbs_of(x).len() ==> final(self).data.dfg.bbs_of(
                        x,
                    )[j] == (if old(self).data.dfg.bbs_of(x)[j] == block {
                        Block(INVALID_IDX)
                    } else {
                        old(self).data.dfg.bbs_of(x)[j]
                    })),
            DataFlowGraph::same_core(&old(self).data.dfg, &final(self).data.dfg),
            final(self).data.cfg == old(self).data.cfg,
            final(self).data.layout == old(self).data.layout,
            final(self).pos == old(self).pos,
            final(self).data.kind == old(self).data.kind,
            final(self).data.sig == old(self).data.sig,
            final(self).data.fully_placed() == old(self).data.fully_placed(),
    {
        let r = self.data.dfg.remove_block_use(block);
        proof {
            let fin = &self.data;
            let pre = &old(self).data;
            assert forall|ii: int, j: int|
                0 <= ii < fin.dfg.n_insts() && fin.dfg.inst_live@[ii] && 0 <= j
                    < fin.dfg.inst_bbs@[ii]@.len() implies ((#[trigger] fin.dfg.bb_at(ii, j)).0
                == INVALID_IDX || pre.cfg.spec_block_live(fin.dfg.bb_at(ii, j))) by {
                let x = Inst(ii as usize);
                assert(pre.dfg.spec_inst_live(x));
                let b2 = fin.dfg.bb_at(ii, j);
                if b2.0 != INVALID_IDX {
                    if pre.dfg.inst_op@[ii] == crate::dfg::Opcode::Phi {
                        crate::dfg::lemma_without_shape(
                            pre.dfg.args_of(x),
                            pre.dfg.bbs_of(x),
                            block,
                        );
                        assert(fin.dfg.bbs_of(x).contains(b2)) by {
                            assert(fin.dfg.bbs_of(x)[j] == b2);
                        }
                        assert(pre.dfg.bbs_of(x).contains(b2));
                        let m = choose|m: int|
                            0 <= m < pre.dfg.bbs_of(x).len() && pre.dfg.bbs_of(x)[m] == b2;
                        assert(pre.dfg.bb_at(ii, m) == b2);
                    } else {
                        assert(fin.dfg.bbs_of(x)[j] == (if pre.dfg.bbs_of(x)[j] == block {
                            Block(INVALID_IDX)
                        } else {
                            pre.dfg.bbs_of(x)[j]
                        }));
                        assert(pre.dfg.bb_at(ii, j) == b2);
                    }
                }
            }
            lemma_unit_wf_dfg_change(pre, fin);
            lemma_fully_placed_same(pre, fin);
            if block.0 != INVALID_IDX {
                assert forall|x: Inst|
                    fin.dfg.spec_inst_live(x) implies !fin.dfg.bbs_of(x).contains(block) by {
                    assert(pre.dfg.spec_inst_live(x));
                }
            }
        }
        r
    }

    /// Remove every reference to a block from one instruction. Returns how
    /// many references went away.
    pub fn remove_block_from_inst(&mut self, block: Block, inst: Inst) -> (r: usize)
        requires
            old(self).inv(),
            old(self).data.dfg.spec_inst_live(inst),
        ensures
            final(self).inv(),
            r == crate::dfg::count_blk(old(self).data.dfg.bbs_of(inst), block),
            block.0 != INVALID_IDX ==> !final(self).data.dfg.bbs_of(inst).contains(block),
            old(self).data.dfg.inst_op@[inst.0 as int] == Opcode::Phi ==> final(self).data.dfg.args_of(inst) == crate::dfg::phi_args_without(
                old(self).data.dfg.args_of(inst),
                old(self).data.dfg.bbs_of(inst),
                block,
            ) && final(self).data.dfg.bbs_of(inst) == crate::dfg::blocks_without(
                old(self).data.dfg.bbs_of(inst),
                block,
            ),
            old(self).data.dfg.inst_op@[inst.0 as int] != Opcode::Phi ==> final(self).data.dfg.args_of(inst) == old(self).data.dfg.args_of(inst) && final(self).data.dfg.bbs_of(inst).len() == old(self).data.dfg.bbs_of(inst).len() && (forall|
                j: int,
            |
                0 <= j < old(self).data.dfg.bbs_of(inst).len() ==> final(self).data.dfg.bbs_of(
                    inst,
                )[j] == (if old(self).data.dfg.bbs_of(inst)[j] == block {
                    Block(INVALID_IDX)
                } else {
                    old(self).data.dfg.bbs_of(inst)[j]
                })),
            forall|x: Inst|
                x != inst && old(self).data.dfg.inst_in_range(x) ==> final(self).data.dfg.args_of(
                    x,
                ) == old(self).data.dfg.args_of(x) && final(self).data.dfg.bbs_of(x) == old(self).data.dfg.bbs_of(x),
            forall|v: Value, x: Inst|
                x != inst ==> final(self).data.dfg.is_use(v, x) == old(self).data.dfg.is_use(v, x),
            forall|b2: Block, x: Inst|
                x != inst ==> final(self).data.dfg.is_block_user(b2, x) == old(self).data.dfg.is_block_user(b2, x),
            DataFlowGraph::same_core(&old(self).data.dfg, &final(self).data.dfg),
            forall|x: Inst| final(self).data.dfg.spec_inst_live(x) == old(self).data.dfg.spec_inst_live(x),
            final(self).data.cfg == old(self).data.cfg,
            final(self).data.layout == old(self).data.layout,
            final(self).pos == old(self).pos,
            final(self).data.kind == old(self).data.kind,
            final(self).data.sig == old(self).data.sig,
            final(self).data.fully_placed() == old(self).data.fully_placed(),
    {
        let r = self.data.dfg.remove_block_from_inst(block, inst);
        proof {
            let fin = &self.data;
            let pre = &old(self).data;
            assert forall|ii: int, j: int|
                0 <= ii < fin.dfg.n_insts() && fin.dfg.inst_live@[ii] && 0 <= j
                    < fin.dfg.inst_bbs@[ii]@.len() implies ((#[trigger] fin.dfg.bb_at(ii, j)).0
                == INVALID_IDX || pre.cfg.spec_block_live(fin.dfg.bb_at(ii, j))) by {
                let x = Inst(ii as usize);
                assert(pre.dfg.spec_inst_live(x));
                let b2 = fin.dfg.bb_at(ii, j);
                if b2.0 != INVALID_IDX {
                    if ii != inst.0 as int {
                        assert(fin.dfg.bbs_of(x) == pre.dfg.bbs_of(x));
                        assert(pre.dfg.bb_at(ii, j) == b2);
                    } else {
                        if pre.dfg.inst_op@[ii] == crate::dfg::Opcode::Phi {
                            crate::dfg::lemma_without_shape(
                                pre.dfg.args_of(x),
                                pre.dfg.bbs_of(x),
                                block,
                            );
                            assert(fin.dfg.bbs_of(x).contains(b2)) by {
                                assert(fin.dfg.bbs_of(x)[j] == b2);
                            }
                            assert(pre.dfg.bbs_of(x).contains(b2));
                            let m = choose|m: int|
                                0 <= m < pre.dfg.bbs_of(x).len() && pre.dfg.bbs_of(x)[m] == b2;
                            assert(pre.dfg.bb_at(ii, m) == b2);
                        } else {
                            assert(fin.dfg.bbs_of(x)[j] == (if pre.dfg.bbs_of(x)[j] == block {
                                Block(INVALID_IDX)
                            } else {
                                pre.dfg.bbs_of(x)[j]
                            }));
                            assert(pre.dfg.bb_at(ii, j) == b2);
                        }
                    }
                }
            }
            lemma_unit_wf_dfg_change(pre, fin);
            lemma_fully_placed_same(pre, fin);
        }
        r
    }
}

impl UnitBuilder {
    /// Add a placeholder value for constructing phi-style forward
    /// references; retire it with `remove_placeholder` once resolved.
    pub fn add_placeholder(&mut self, ty: Ty) -> (v: Value)
        requires
            old(self).inv(),
            old(self).data.dfg.n_values() < MAX_HANDLES,
        ensures
            final(self).inv(),
            v.0 == old(self).data.dfg.n_values(),
            final(self).data.dfg.spec_value_live(v),
            final(self).data.dfg.value_data@[v.0 as int] == (ValueData::Placeholder { ty }),
            final(self).data.dfg.uses_of(v).len() == 0,
            forall|w: Value| w != v ==> final(self).data.dfg.spec_value_live(w) == old(self).data.dfg.spec_value_live(w),
            forall|w: Value|
                old(self).data.dfg.value_in_range(w) ==> final(self).data.dfg.value_data@[
                    w.0 as int] == old(self).data.dfg.value_data@[w.0 as int] && final(self).data.dfg.value_name@[w.0 as int] == old(self).data.dfg.value_name@[w.0 as int]
                    && final(self).data.dfg.value_hint@[w.0 as int] == old(self).data.dfg.value_hint@[w.0 as int] && final(self).data.dfg.uses_of(w) == old(self).data.dfg.uses_of(w),
            final(self).data.dfg.n_values() == old(self).data.dfg.n_values() + 1,
            final(self).data.dfg.inst_live == old(self).data.dfg.inst_live,
            final(self).data.dfg.inst_op == old(self).data.dfg.inst_op,
            final(self).data.dfg.inst_args == old(self).data.dfg.inst_args,
            final(self).data.dfg.inst_bbs == old(self).data.dfg.inst_bbs,
            final(self).data.dfg.inst_imm == old(self).data.dfg.inst_imm,
            final(self).data.dfg.inst_ty == old(self).data.dfg.inst_ty,
            final(self).data.dfg.inst_result == old(self).data.dfg.inst_result,
            final(self).data.dfg.inst_loc == old(self).data.dfg.inst_loc,
            final(self).data.dfg.block_users == old(self).data.dfg.block_users,
            final(self).data.dfg.arg_values == old(self).data.dfg.arg_values,
            final(self).data.dfg.ext_units == old(self).data.dfg.ext_units,
            final(self).data.cfg == old(self).data.cfg,
            final(self).data.layout == old(self).data.layout,
            final(self).data.kind == old(self).data.kind,
            final(self).data.sig == old(self).data.sig,
            final(self).pos == old(self).pos,
            final(self).data.fully_placed() == old(self).data.fully_placed(),
    {
        let v = self.data.dfg.add_placeholder(ty);
        proof {
            let fin = &self.data;
            let pre = &old(self).data;
            assert forall|x: Inst| #[trigger] fin.layout.inst_placed(x)
                implies fin.dfg.spec_inst_live(x) by {
                assert(pre.dfg.spec_inst_live(x));
            }
            assert forall|ii: int, j: int|
                0 <= ii < fin.dfg.n_insts() && fin.dfg.inst_live@[ii] && 0 <= j
                    < fin.dfg.inst_bbs@[ii]@.len() implies ((#[trigger] fin.dfg.bb_at(ii, j)).0
                == INVALID_IDX || fin.cfg.spec_block_live(fin.dfg.bb_at(ii, j))) by {
                assert(fin.dfg.bb_at(ii, j) == pre.dfg.bb_at(ii, j));
            }
            assert forall|k: int|
                0 <= k < fin.sig.spec_num_args() implies fin.dfg.value_data@[(
            #[trigger] fin.dfg.arg_values@[k]).0 as int] == (ValueData::Arg {
                ty: fin.sig.spec_arg_ty(k),
                arg: Arg(k as usize),
            }) by {
                assert(pre.dfg.args_ok());
                assert(pre.dfg.spec_value_live(pre.dfg.arg_values@[k]));
            }
            lemma_fully_placed_same(pre, fin);
        }
        v
    }

    /// Retire a placeholder value; its uses must already be rewritten to the
    /// resolved value. Retiring succeeds exactly because nothing uses the
    /// placeholder: a remaining use is excluded here.
    pub fn remove_placeholder(&mut self, value: Value)
        requires
            old(self).inv(),
            old(self).data.dfg.value_in_range(value),
            old(self).data.dfg.value_data@[value.0 as int] matches ValueData::Placeholder { .. },
            old(self).data.dfg.uses_of(value).len() == 0,
        ensures
            final(self).inv(),
            !final(self).data.dfg.spec_value_live(value),
            forall|w: Value| w != value ==> final(self).data.dfg.spec_value_live(w) == old(self).data.dfg.spec_value_live(w),
            forall|w: Value, x: Inst|
                w != value ==> final(self).data.dfg.is_use(w, x) == old(self).data.dfg.is_use(
                    w,
                    x,
                ),
            forall|w: Value|
                old(self).data.dfg.value_in_range(w) && w != value ==> final(self).data.dfg.value_data@[w.0 as int] == old(self).data.dfg.value_data@[w.0 as int]
                    && final(self).data.dfg.value_name@[w.0 as int] == old(self).data.dfg.value_name@[w.0 as int] && final(self).data.dfg.value_hint@[w.0 as int]
                    == old(self).data.dfg.value_hint@[w.0 as int],
            final(self).data.dfg.inst_live == old(self).data.dfg.inst_live,
            final(self).data.dfg.inst_op == old(self).data.dfg.inst_op,
            final(self).data.dfg.inst_args == old(self).data.dfg.inst_args,
            final(self).data.dfg.inst_bbs == old(self).data.dfg.inst_bbs,
            final(self).data.dfg.inst_ty == old(self).data.dfg.inst_ty,
            final(self).data.dfg.inst_result == old(self).data.dfg.inst_result,
            final(self).data.dfg.block_users == old(self).data.dfg.block_users,
            final(self).data.dfg.arg_values == old(self).data.dfg.arg_values,
            final(self).data.dfg.ext_units == old(self).data.dfg.ext_units,
            final(self).data.cfg == old(self).data.cfg,
            final(self).data.layout == old(self).data.layout,
            final(self).data.kind == old(self).data.kind,
            final(self).data.sig == old(self).data.sig,
            final(self).pos == old(self).pos,
            final(self).data.fully_placed() == old(self).data.fully_placed(),
    {
        self.data.dfg.remove_placeholder(value);
        proof {
            let fin = &self.data;
            let pre = &old(self).data;
            assert forall|x: Inst| #[trigger] fin.layout.inst_placed(x)
                implies fin.dfg.spec_inst_live(x) by {
                assert(pre.dfg.spec_inst_live(x));
            }
            assert forall|ii: int, j: int|
                0 <= ii < fin.dfg.n_insts() && fin.dfg.inst_live@[ii] && 0 <= j
                    < fin.dfg.inst_bbs@[ii]@.len() implies ((#[trigger] fin.dfg.bb_at(ii, j)).0
                == INVALID_IDX || fin.cfg.spec_block_live(fin.dfg.bb_at(ii, j))) by {
                let x = Inst(ii as usize);
                assert(pre.dfg.spec_inst_live(x));
                assert(fin.dfg.bbs_of(x) == pre.dfg.bbs_of(x));
                assert(pre.dfg.bb_at(ii, j) == fin.dfg.bb_at(ii, j));
            }
            assert forall|k: int|
                0 <= k < fin.sig.spec_num_args() implies fin.dfg.value_data@[(
            #[trigger] fin.dfg.arg_values@[k]).0 as int] == (ValueData::Arg {
                ty: fin.sig.spec_arg_ty(k),
                arg: Arg(k as usize),
            }) by {
                let av = pre.dfg.arg_values@[k];
                assert(pre.dfg.args_ok());
                assert(pre.dfg.spec_value_live(av));
                assert(pre.dfg.value_data@[av.0 as int] matches ValueData::Arg { .. });
                assert(av != value);
            }
            lemma_fully_placed_same(pre, fin);
        }
    }

    /// Set the name of a value.
    pub fn set_name(&mut self, value: Value, name: String)
        requires
            old(self).inv(),
            old(self).data.dfg.spec_value_live(value),
        ensures
            final(self).inv(),
            final(self).data.dfg.value_name@ == old(self).data.dfg.value_name@.update(
                value.0 as int,
                Some(name),
            ),
            final(self).data.dfg.inst_live == old(self).data.dfg.inst_live,
            final(self).data.dfg.inst_op == old(self).data.dfg.inst_op,
            final(self).data.dfg.inst_args == old(self).data.dfg.inst_args,
            final(self).data.dfg.inst_bbs == old(self).data.dfg.inst_bbs,
            final(self).data.dfg.inst_imm == old(self).data.dfg.inst_imm,
            final(self).data.dfg.inst_ty == old(self).data.dfg.inst_ty,
            final(self).data.dfg.inst_result == old(self).data.dfg.inst_result,
            final(self).data.dfg.value_data == old(self).data.dfg.value_data,
            final(self).data.dfg.value_uses == old(self).data.dfg.value_uses,
            final(self).data.dfg.block_users == old(self).data.dfg.block_users,
            final(self).data.dfg.arg_values == old(self).data.dfg.arg_values,
            final(self).data.dfg.ext_units == old(self).data.dfg.ext_units,
            final(self).data.cfg == old(self).data.cfg,
            final(self).data.layout == old(self).data.layout,
            final(self).data.kind == old(self).data.kind,
            final(self).data.sig == old(self).data.sig,
            final(self).data.name == old(self).data.name,
            final(self).data.dfg.value_hint == old(self).data.dfg.value_hint,
            final(self).data.dfg.inst_loc == old(self).data.dfg.inst_loc,
            final(self).pos == old(self).pos,
            final(self).data.fully_placed() == old(self).data.fully_placed(),
    {
        self.data.dfg.set_name(value, name);
        proof {
            lemma_unit_wf_dfg_tables(&old(self).data, &self.data);
            lemma_fully_placed_same(&old(self).data, &self.data);
        }
    }

    /// Clear and return the name of a value.
    pub fn clear_name(&mut self, value: Value) -> (r: Option<String>)
        requires
            old(self).inv(),
            old(self).data.dfg.spec_value_live(value),
        ensures
            final(self).inv(),
            r == old(self).data.dfg.value_name@[value.0 as int],
            final(self).data.dfg.value_name@ == old(self).data.dfg.value_name@.update(
                value.0 as int,
                None::<String>,
            ),
            final(self).data.dfg.inst_live == old(self).data.dfg.inst_live,
            final(self).data.dfg.inst_op == old(self).data.dfg.inst_op,
            final(self).data.dfg.inst_args == old(self).data.dfg.inst_args,
            final(self).data.dfg.inst_bbs == old(self).data.dfg.inst_bbs,
            final(self).data.dfg.inst_imm == old(self).data.dfg.inst_imm,
            final(self).data.dfg.inst_ty == old(self).data.dfg.inst_ty,
            final(self).data.dfg.inst_result == old(self).data.dfg.inst_result,
            final(self).data.dfg.value_data == old(self).data.dfg.value_data,
            final(self).data.dfg.value_uses == old(self).data.dfg.value_uses,
            final(self).data.dfg.block_users == old(self).data.dfg.block_users,
            final(self).data.dfg.arg_values == old(self).data.dfg.arg_values,
            final(self).data.dfg.ext_units == old(self).data.dfg.ext_units,
            final(self).data.cfg == old(self).data.cfg,
            final(self).data.layout == old(self).data.layout,
            final(self).data.kind == old(self).data.kind,
            final(self).data.sig == old(self).data.sig,
            final(self).data.name == old(self).data.name,
            final(self).data.dfg.value_hint == old(self).data.dfg.value_hint,
            final(self).data.dfg.inst_loc == old(self).data.dfg.inst_loc,
            final(self).pos == old(self).pos,
            final(self).data.fully_placed() == old(self).data.fully_placed(),
    {
        let r = self.data.dfg.clear_name(value);
        proof {
            lemma_unit_wf_dfg_tables(&old(self).data, &self.data);
            lemma_fully_placed_same(&old(self).data, &self.data);
        }
        r
    }

    /// Set the anonymous-name hint of a value.
    pub fn set_anonymous_hint(&mut self, value: Value, hint: u32)
        requires
            old(self).inv(),
            old(self).data.dfg.spec_value_live(value),
        ensures
            final(self).inv(),
            final(self).data.dfg.value_hint@ == old(self).data.dfg.value_hint@.update(
                value.0 as int,
                Some(hint),
            ),
            final(self).data.dfg.inst_live == old(self).data.dfg.inst_live,
            final(self).data.dfg.inst_op == old(self).data.dfg.inst_op,
            final(self).data.dfg.inst_args == old(self).data.dfg.inst_args,
            final(self).data.dfg.inst_bbs == old(self).data.dfg.inst_bbs,
            final(self).data.dfg.inst_imm == old(self).data.dfg.inst_imm,
            final(self).data.dfg.inst_ty == old(self).data.dfg.inst_ty,
            final(self).data.dfg.inst_result == old(self).data.dfg.inst_result,
            final(self).data.dfg.value_data == old(self).data.dfg.value_data,
            final(self).data.dfg.value_uses == old(self).data.dfg.value_uses,
            final(self).data.dfg.block_users == old(self).data.dfg.block_users,
            final(self).data.dfg.arg_values == old(self).data.dfg.arg_values,
            final(self).data.dfg.ext_units == old(self).data.dfg.ext_units,
            final(self).data.cfg == old(self).data.cfg,
            final(self).data.layout == old(self).data.layout,
            final(self).data.kind == old(self).data.kind,
            final(self).data.sig == old(self).data.sig,
            final(self).data.name == old(self).data.name,
            final(self).data.dfg.value_name == old(self).data.dfg.value_name,
            final(self).data.dfg.inst_loc == old(self).data.dfg.inst_loc,
            final(self).pos == old(self).pos,
            final(self).data.fully_placed() == old(self).data.fully_placed(),
    {
        self.data.dfg.set_anonymous_hint(value, hint);
        proof {
            lemma_unit_wf_dfg_tables(&old(self).data, &self.data);
            lemma_fully_placed_same(&old(self).data, &self.data);
        }
    }

    /// Clear and return the anonymous-name hint of a value.
    pub fn clear_anonymous_hint(&mut self, value: Value) -> (r: Option<u32>)
        requires
            old(self).inv(),
            old(self).data.dfg.spec_value_live(value),
        ensures
            final(self).inv(),
            r == old(self).data.dfg.value_hint@[value.0 as int],
            final(self).data.dfg.value_hint@ == old(self).data.dfg.value_hint@.update(
                value.0 as int,
                None::<u32>,
            ),
            final(self).data.dfg.inst_live == old(self).data.dfg.inst_live,
            final(self).data.dfg.inst_op == old(self).data.dfg.inst_op,
            final(self).data.dfg.inst_args == old(self).data.dfg.inst_args,
            final(self).data.dfg.inst_bbs == old(self).data.dfg.inst_bbs,
            final(self).data.dfg.inst_imm == old(self).data.dfg.inst_imm,
            final(self).data.dfg.inst_ty == old(self).data.dfg.inst_ty,
            final(self).data.dfg.inst_result == old(self).data.dfg.inst_result,
            final(self).data.dfg.value_data == old(self).data.dfg.value_data,
            final(self).data.dfg.value_uses == old(self).data.dfg.value_uses,
            final(self).data.dfg.block_users == old(self).data.dfg.block_users,
            final(self).data.dfg.arg_values == old(self).data.dfg.arg_values,
            final(self).data.dfg.ext_units == old(self).data.dfg.ext_units,
            final(self).data.cfg == old(self).data.cfg,
            final(self).data.layout == old(self).data.layout,
            final(self).data.kind == old(self).data.kind,
            final(self).data.sig == old(self).data.sig,
            final(self).data.name == old(self).data.name,
            final(self).data.dfg.value_name == old(self).data.dfg.value_name,
            final(self).data.dfg.inst_loc == old(self).data.dfg.inst_loc,
            final(self).pos == old(self).pos,
            final(self).data.fully_placed() == old(self).data.fully_placed(),
    {
        let r = self.data.dfg.clear_anonymous_hint(value);
        proof {
            lemma_unit_wf_dfg_tables(&old(self).data, &self.data);
            lemma_fully_placed_same(&old(self).data, &self.data);
        }
        r
    }

    /// Annotate an instruction with the byte offset of its source text.
    pub fn set_location_hint(&mut self, inst: Inst, loc: usize)
        requires
            old(self).inv(),
            old(self).data.dfg.spec_inst_live(inst),
        ensures
            final(self).inv(),
            final(self).data.dfg.inst_loc@ == old(self).data.dfg.inst_loc@.update(
                inst.0 as int,
                Some(loc),
            ),
            final(self).data.dfg.inst_live == old(self).data.dfg.inst_live,
            final(self).data.dfg.inst_op == old(self).data.dfg.inst_op,
            final(self).data.dfg.inst_args == old(self).data.dfg.inst_args,
            final(self).data.dfg.inst_bbs == old(self).data.dfg.inst_bbs,
            final(self).data.dfg.inst_imm == old(self).data.dfg.inst_imm,
            final(self).data.dfg.inst_ty == old(self).data.dfg.inst_ty,
            final(self).data.dfg.inst_result == old(self).data.dfg.inst_result,
            final(self).data.dfg.value_data == old(self).data.dfg.value_data,
            final(self).data.dfg.value_uses == old(self).data.dfg.value_uses,
            final(self).data.dfg.block_users == old(self).data.dfg.block_users,
            final(self).data.dfg.arg_values == old(self).data.dfg.arg_values,
            final(self).data.dfg.ext_units == old(self).data.dfg.ext_units,
            final(self).data.cfg == old(self).data.cfg,
            final(self).data.layout == old(self).data.layout,
            final(self).data.kind == old(self).data.kind,
            final(self).data.sig == old(self).data.sig,
            final(self).data.name == old(self).data.name,
            final(self).data.dfg.value_name == old(self).data.dfg.value_name,
            final(self).data.dfg.value_hint == old(self).data.dfg.value_hint,
            final(self).pos == old(self).pos,
            final(self).data.fully_placed() == old(self).data.fully_placed(),
    {
        self.data.dfg.set_location_hint(inst, loc);
        proof {
            lemma_unit_wf_dfg_tables(&old(self).data, &self.data);
            lemma_fully_placed_same(&old(self).data, &self.data);
        }
    }

    /// Import an external unit for use within this unit.
    pub fn add_extern(&mut self, name: UnitName, sig: Signature) -> (e: ExtUnit)
        requires
            old(self).inv(),
            old(self).data.dfg.ext_units@.len() < MAX_HANDLES,
        ensures
            final(self).inv(),
            e.0 == old(self).data.dfg.ext_units@.len(),
            final(self).data.dfg.ext_units@.len() == old(self).data.dfg.ext_units@.len() + 1,
            final(self).data.dfg.ext_units@[e.0 as int].name == name,
            final(self).data.dfg.ext_units@[e.0 as int].sig == sig,
            forall|k: int|
                0 <= k < old(self).data.dfg.ext_units@.len() ==> final(self).data.dfg.ext_units@[k]
                    == old(self).data.dfg.ext_units@[k],
            final(self).data.dfg.inst_live == old(self).data.dfg.inst_live,
            final(self).data.dfg.inst_op == old(self).data.dfg.inst_op,
            final(self).data.dfg.inst_args == old(self).data.dfg.inst_args,
            final(self).data.dfg.inst_bbs == old(self).data.dfg.inst_bbs,
            final(self).data.dfg.inst_imm == old(self).data.dfg.inst_imm,
            final(self).data.dfg.inst_ty == old(self).data.dfg.inst_ty,
            final(self).data.dfg.inst_result == old(self).data.dfg.inst_result,
            final(self).data.dfg.inst_loc == old(self).data.dfg.inst_loc,
            final(self).data.dfg.value_data == old(self).data.dfg.value_data,
            final(self).data.dfg.value_uses == old(self).data.dfg.value_uses,
            final(self).data.dfg.value_name == old(self).data.dfg.value_name,
            final(self).data.dfg.value_hint == old(self).data.dfg.value_hint,
            final(self).data.dfg.block_users == old(self).data.dfg.block_users,
            final(self).data.dfg.arg_values == old(self).data.dfg.arg_values,
            final(self).data.cfg == old(self).data.cfg,
            final(self).data.layout == old(self).data.layout,
            final(self).data.kind == old(self).data.kind,
            final(self).data.sig == old(self).data.sig,
            final(self).data.name == old(self).data.name,
            final(self).pos == old(self).pos,
            final(self).data.fully_placed() == old(self).data.fully_placed(),
    {
        let e = self.data.dfg.add_ext_unit(ExtUnitData { name, sig });
        proof {
            lemma_unit_wf_dfg_tables(&old(self).data, &self.data);
            lemma_fully_placed_same(&old(self).data, &self.data);
        }
        e
    }

    /// Set the name of a block.
    pub fn set_block_name(&mut self, bb: Block, name: String)
        requires
            old(self).inv(),
            old(self).data.cfg.spec_block_live(bb),
        ensures
            final(self).inv(),
            final(self).data.cfg.block_name@ == old(self).data.cfg.block_name@.update(
                bb.0 as int,
                Some(name),
            ),
            final(self).pos == old(self).pos,
            final(self).data.fully_placed() == old(self).data.fully_placed(),
    {
        self.data.cfg.set_name(bb, name);
        proof {
            self.lemma_wf_after_cfg_side_tables(&old(self).data);
        }
    }

    /// Clear and return the name of a block.
    pub fn clear_block_name(&mut self, bb: Block) -> (r: Option<String>)
        requires
            old(self).inv(),
            old(self).data.cfg.spec_block_live(bb),
        ensures
            final(self).inv(),
            r == old(self).data.cfg.block_name@[bb.0 as int],
            final(self).data.cfg.block_name@ == old(self).data.cfg.block_name@.update(
                bb.0 as int,
                None::<String>,
            ),
            final(self).pos == old(self).pos,
            final(self).data.fully_placed() == old(self).data.fully_placed(),
    {
        let r = self.data.cfg.clear_name(bb);
        proof {
            self.lemma_wf_after_cfg_side_tables(&old(self).data);
        }
        r
    }

    /// Set the anonymous-name hint of a block.
    pub fn set_anonymous_block_hint(&mut self, bb: Block, hint: u32)
        requires
            old(self).inv(),
            old(self).data.cfg.spec_block_live(bb),
        ensures
            final(self).inv(),
            final(self).data.cfg.block_hint@ == old(self).data.cfg.block_hint@.update(
                bb.0 as int,
                Some(hint),
            ),
            final(self).pos == old(self).pos,
            final(self).data.fully_placed() == old(self).data.fully_placed(),
    {
        self.data.cfg.set_anonymous_hint(bb, hint);
        proof {
            self.lemma_wf_after_cfg_side_tables(&old(self).data);
        }
    }

    /// Clear and return the anonymous-name hint of a block.
    pub fn clear_anonymous_block_hint(&mut self, bb: Block) -> (r: Option<u32>)
        requires
            old(self).inv(),
            old(self).data.cfg.spec_block_live(bb),
        ensures
            final(self).inv(),
            r == old(self).data.cfg.block_hint@[bb.0 as int],
            final(self).data.cfg.block_hint@ == old(self).data.cfg.block_hint@.update(
                bb.0 as int,
                None::<u32>,
            ),
            final(self).pos == old(self).pos,
            final(self).data.fully_placed() == old(self).data.fully_placed(),
    {
        let r = self.data.cfg.clear_anonymous_hint(bb);
        proof {
            self.lemma_wf_after_cfg_side_tables(&old(self).data);
        }
        r
    }

    /// Changing only a block's name or hint keeps the unit well-formed:
    /// liveness is untouched.
    proof fn lemma_wf_after_cfg_side_tables(&self, pre: &UnitData)
        requires
            pre.wf(),
            self.data.dfg == pre.dfg,
            self.data.layout == pre.layout,
            self.data.kind == pre.kind,
            self.data.sig == pre.sig,
            self.data.cfg.wf(),
            self.data.cfg.block_live@ == pre.cfg.block_live@,
            match self.pos {
                InsertPos::Unset => true,
                InsertPos::Append(b) => self.data.layout.block_placed(b),
                InsertPos::Prepend(b) => self.data.layout.block_placed(b),
                InsertPos::After(i) => self.data.layout.inst_placed(i),
                InsertPos::Before(i) => self.data.layout.inst_placed(i),
            },
        ensures
            self.inv(),
            self.data.fully_placed() == pre.fully_placed(),
    {
        assert forall|b: Block| #[trigger] self.data.layout.block_placed(b)
            == self.data.cfg.spec_block_live(b) by {
            assert(pre.layout.block_placed(b) == pre.cfg.spec_block_live(b));
            assert(self.data.cfg.spec_block_live(b) == pre.cfg.spec_block_live(b));
        }
        assert forall|ii: int, j: int|
            0 <= ii < self.data.dfg.n_insts() && self.data.dfg.inst_live@[ii] && 0 <= j
                < self.data.dfg.inst_bbs@[ii]@.len() implies ((
        #[trigger] self.data.dfg.bb_at(ii, j)).0 == INVALID_IDX
            || self.data.cfg.spec_block_live(self.data.dfg.bb_at(ii, j))) by {
            assert(self.data.dfg.bb_at(ii, j).0 == INVALID_IDX || pre.cfg.spec_block_live(
                self.data.dfg.bb_at(ii, j),
            ));
            assert(self.data.cfg.spec_block_live(self.data.dfg.bb_at(ii, j))
                == pre.cfg.spec_block_live(self.data.dfg.bb_at(ii, j)));
        }
        lemma_fully_placed_same(pre, &self.data);
    }
}

} // verus!
