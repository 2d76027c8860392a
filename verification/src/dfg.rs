//! The data-flow graph: arenas of SSA values and instructions, use-lists,
//! block-user lists, argument bindings, placeholders, names, location hints,
//! constant queries, and external-unit imports.
//!
//! Well-formedness ties the arenas together: every use-list matches the
//! operand lists exactly, every block-user list matches the block-reference
//! lists exactly, results and defining instructions form a bijection, and
//! argument slots bind to their values. Every mutation here preserves it.

use vstd::prelude::*;
use vstd::pervasive::VecAdditionalExecFns;
use crate::handles::{Arg, Block, ExtUnit, Inst, Value, INVALID_IDX, MAX_HANDLES};
use crate::types::Ty;
use crate::constval::{ConstValue, IntValue, TimeValue, ArrayValue, StructValue};
use crate::signature::Signature;
use crate::unit_name::UnitName;

verus! {

/// The operation an instruction performs. The container assumes nothing about
/// opcode semantics beyond which opcodes construct constants and which one is
/// the phi-style merge whose operands pair with predecessor blocks.
#[derive(Clone, Copy, PartialEq, Eq, Hash, Debug, Structural)]
pub enum Opcode {
    /// Constant integer constructor.
    ConstInt,
    /// Constant time constructor.
    ConstTime,
    /// Constant array constructor.
    ConstArray,
    /// Constant struct constructor.
    ConstStruct,
    /// Value alias.
    Alias,
    /// Bitwise not.
    Not,
    /// Arithmetic negation.
    Neg,
    /// Addition.
    Add,
    /// Subtraction.
    Sub,
    /// Bitwise and.
    And,
    /// Bitwise or.
    Or,
    /// Bitwise xor.
    Xor,
    /// Multiplication.
    Mul,
    /// Equality comparison.
    Eq,
    /// Inequality comparison.
    Neq,
    /// Phi-style merge node; operands pair with predecessor blocks.
    Phi,
    /// Unconditional branch.
    Br,
    /// Conditional branch.
    BrCond,
    /// Suspend until an observed signal changes.
    Wait,
    /// Return without a value.
    Ret,
    /// Return a value.
    RetValue,
    /// Halt the process.
    Halt,
    /// Call an external unit.
    Call,
    /// Instantiate an external entity.
    Instantiate,
    /// Create a signal.
    Sig,
    /// Probe a signal.
    Prb,
    /// Drive a signal.
    Drv,
}

/// Where a value comes from: an instruction result, a signature-argument
/// binding, a placeholder for a forward reference, or a dead slot.
#[derive(Clone, Copy, PartialEq, Eq, Debug, Structural)]
pub enum ValueData {
    /// The result of an instruction.
    Inst {
        /// The value's type.
        ty: Ty,
        /// The defining instruction.
        inst: Inst,
    },
    /// The binding of a signature argument.
    Arg {
        /// The value's type.
        ty: Ty,
        /// The bound argument slot.
        arg: Arg,
    },
    /// A placeholder created for a forward reference; it must be resolved and
    /// retired before the unit is finished.
    Placeholder {
        /// The value's type.
        ty: Ty,
    },
    /// A dead slot left behind by a removed value.
    Invalid,
}

/// The payload an instruction is created from: opcode, operand values, block
/// references, an optional immediate constant, and an optional external-unit
/// reference.
#[derive(Debug)]
pub struct InstData {
    /// The operation performed.
    pub opcode: Opcode,
    /// Operand values, in order. For a phi these pair with `bbs`.
    pub args: Vec<Value>,
    /// Referenced blocks: branch targets or phi predecessors.
    pub bbs: Vec<Block>,
    /// Immediate constant payload of a constant constructor.
    pub imm: Option<ConstValue>,
    /// The external unit a call or instantiation refers to.
    pub ext: Option<ExtUnit>,
}

impl InstData {
    /// A phi's operands pair with its predecessor blocks.
    pub open spec fn wf(&self) -> bool {
        self.opcode == Opcode::Phi ==> self.args@.len() == self.bbs@.len()
    }
}

/// An external unit imported by name and signature.
#[derive(Debug)]
pub struct ExtUnitData {
    /// The external unit's name.
    pub name: UnitName,
    /// The external unit's signature.
    pub sig: Signature,
}

/// Number of occurrences of `x` in `s`.
pub open spec fn count_val(s: Seq<Value>, x: Value) -> nat
    decreases s.len(),
{
    if s.len() == 0 {
        0
    } else {
        count_val(s.drop_last(), x) + if s.last() == x {
            1nat
        } else {
            0nat
        }
    }
}

/// Number of occurrences of `x` in `s`.
pub open spec fn count_blk(s: Seq<Block>, x: Block) -> nat
    decreases s.len(),
{
    if s.len() == 0 {
        0
    } else {
        count_blk(s.drop_last(), x) + if s.last() == x {
            1nat
        } else {
            0nat
        }
    }
}

/// The data-flow graph of a unit.
#[derive(Debug)]
pub struct DataFlowGraph {
    /// Whether each instruction slot is live.
    pub inst_live: Vec<bool>,
    /// Opcode of each instruction.
    pub inst_op: Vec<Opcode>,
    /// Operand values of each instruction.
    pub inst_args: Vec<Vec<Value>>,
    /// Block references of each instruction.
    pub inst_bbs: Vec<Vec<Block>>,
    /// Immediate constant payload of each instruction, if any.
    pub inst_imm: Vec<Option<ConstValue>>,
    /// External-unit reference of each instruction, if any.
    pub inst_ext: Vec<Option<ExtUnit>>,
    /// Type of each instruction.
    pub inst_ty: Vec<Ty>,
    /// Result value of each instruction; present exactly when the type is
    /// not void.
    pub inst_result: Vec<Option<Value>>,
    /// Location hint of each instruction: a byte offset into the source text.
    pub inst_loc: Vec<Option<usize>>,
    /// Origin of each value.
    pub value_data: Vec<ValueData>,
    /// Use-list of each value: the instructions whose operand list holds it,
    /// each listed once.
    pub value_uses: Vec<Vec<Inst>>,
    /// Optional textual name of each value.
    pub value_name: Vec<Option<String>>,
    /// Optional anonymous-name hint of each value.
    pub value_hint: Vec<Option<u32>>,
    /// Reverse index from a block to the instructions referencing it, each
    /// listed once; grown on demand.
    pub block_users: Vec<Vec<Inst>>,
    /// The value bound to each signature-argument slot.
    pub arg_values: Vec<Value>,
    /// External units imported into this unit.
    pub ext_units: Vec<ExtUnitData>,
}

impl DataFlowGraph {
    /// Number of instruction slots ever allocated.
    pub open spec fn n_insts(&self) -> int {
        self.inst_live@.len() as int
    }

    /// Number of value slots ever allocated.
    pub open spec fn n_values(&self) -> int {
        self.value_data@.len() as int
    }

    /// Whether `i` indexes an instruction slot.
    pub open spec fn inst_in_range(&self, i: Inst) -> bool {
        0 <= i.0 < self.n_insts()
    }

    /// Whether `i` is a live instruction.
    pub open spec fn spec_inst_live(&self, i: Inst) -> bool {
        self.inst_in_range(i) && self.inst_live@[i.0 as int]
    }

    /// Whether `v` indexes a value slot.
    pub open spec fn value_in_range(&self, v: Value) -> bool {
        0 <= v.0 < self.n_values()
    }

    /// Whether `v` is a live value (instruction result, argument binding, or
    /// placeholder).
    pub open spec fn spec_value_live(&self, v: Value) -> bool {
        self.value_in_range(v) && !(self.value_data@[v.0 as int] is Invalid)
    }

    /// The operand list of instruction `i`.
    pub open spec fn args_of(&self, i: Inst) -> Seq<Value> {
        self.inst_args@[i.0 as int]@
    }

    /// The block-reference list of instruction `i`.
    pub open spec fn bbs_of(&self, i: Inst) -> Seq<Block> {
        self.inst_bbs@[i.0 as int]@
    }

    /// The operand at slot `j` of the instruction in slot `ii`.
    pub open spec fn arg_at(&self, ii: int, j: int) -> Value {
        self.inst_args@[ii]@[j]
    }

    /// The block reference at slot `j` of the instruction in slot `ii`.
    pub open spec fn bb_at(&self, ii: int, j: int) -> Block {
        self.inst_bbs@[ii]@[j]
    }

    /// The use-list of value `v`.
    pub open spec fn uses_of(&self, v: Value) -> Seq<Inst> {
        self.value_uses@[v.0 as int]@
    }

    /// Whether instruction `x` is registered as a user of value `v`.
    pub open spec fn is_use(&self, v: Value, x: Inst) -> bool {
        self.value_in_range(v) && self.uses_of(v).contains(x)
    }

    /// The user list of block `b`; empty when no row was ever grown for it.
    pub open spec fn block_users_of(&self, b: Block) -> Seq<Inst> {
        if 0 <= b.0 < self.block_users@.len() {
            self.block_users@[b.0 as int]@
        } else {
            Seq::empty()
        }
    }

    /// Whether instruction `x` is registered as a user of block `b`.
    pub open spec fn is_block_user(&self, b: Block, x: Inst) -> bool {
        self.block_users_of(b).contains(x)
    }

    /// A legal operand: a live value or the invalid sentinel.
    pub open spec fn value_ok(&self, v: Value) -> bool {
        v.0 == INVALID_IDX || self.spec_value_live(v)
    }

    /// Total number of operand and block-reference slots in the first `n`
    /// instruction slots.
    pub open spec fn ops_count_upto(&self, n: int) -> nat
        decreases n,
    {
        if n <= 0 {
            0
        } else {
            self.ops_count_upto(n - 1) + self.inst_args@[n - 1]@.len() + self.inst_bbs@[n
                - 1]@.len()
        }
    }

    /// Total number of operand and block-reference slots.
    pub open spec fn total_ops(&self) -> nat {
        self.ops_count_upto(self.n_insts())
    }

    /// Number of live instructions among the first `n` slots.
    pub open spec fn live_insts_upto(&self, n: int) -> nat
        decreases n,
    {
        if n <= 0 {
            0
        } else {
            self.live_insts_upto(n - 1) + if self.inst_live@[n - 1] {
                1nat
            } else {
                0nat
            }
        }
    }

    /// Number of live instructions.
    pub open spec fn n_live_insts(&self) -> nat {
        self.live_insts_upto(self.n_insts())
    }

    /// The parallel arenas agree in length and stay below the handle bound.
    pub open spec fn lens_ok(&self) -> bool {
        &&& self.inst_op@.len() == self.inst_live@.len()
        &&& self.inst_args@.len() == self.inst_live@.len()
        &&& self.inst_bbs@.len() == self.inst_live@.len()
        &&& self.inst_imm@.len() == self.inst_live@.len()
        &&& self.inst_ext@.len() == self.inst_live@.len()
        &&& self.inst_ty@.len() == self.inst_live@.len()
        &&& self.inst_result@.len() == self.inst_live@.len()
        &&& self.inst_loc@.len() == self.inst_live@.len()
        &&& self.value_uses@.len() == self.value_data@.len()
        &&& self.value_name@.len() == self.value_data@.len()
        &&& self.value_hint@.len() == self.value_data@.len()
        &&& self.n_insts() <= MAX_HANDLES
        &&& self.n_values() <= MAX_HANDLES
        &&& self.block_users@.len() <= MAX_HANDLES
        &&& self.arg_values@.len() <= MAX_HANDLES
        &&& self.total_ops() <= MAX_HANDLES
    }

    /// Use-list soundness for one value slot: a dead value has no uses; every
    /// listed user is live, really holds the value as an operand, and is
    /// listed once.
    pub open spec fn use_row_wf(&self, vi: int) -> bool {
        let row = self.value_uses@[vi]@;
        &&& (!self.spec_value_live(Value(vi as usize)) ==> row.len() == 0)
        &&& (forall|k: int|
            0 <= k < row.len() ==> self.spec_inst_live(#[trigger] row[k]) && self.args_of(
                row[k],
            ).contains(Value(vi as usize)))
        &&& row.no_duplicates()
    }

    /// Every use-list row is sound.
    pub open spec fn uses_sound(&self) -> bool {
        forall|vi: int| 0 <= vi < self.n_values() ==> #[trigger] self.use_row_wf(vi)
    }

    /// Use-list completeness: every operand of every live instruction is
    /// listed in that value's use-list.
    pub open spec fn uses_complete(&self) -> bool {
        forall|ii: int, j: int|
            0 <= ii < self.n_insts() && self.inst_live@[ii] && 0 <= j < self.inst_args@[ii]@.len()
                && (#[trigger] self.arg_at(ii, j)).0 != INVALID_IDX ==> self.uses_of(
                self.arg_at(ii, j),
            ).contains(Inst(ii as usize))
    }

    /// Every operand of every live instruction is a live value or the
    /// invalid sentinel.
    pub open spec fn operands_ok(&self) -> bool {
        forall|ii: int, j: int|
            0 <= ii < self.n_insts() && self.inst_live@[ii] && 0 <= j < self.inst_args@[ii]@.len()
                ==> self.value_ok(#[trigger] self.arg_at(ii, j))
    }

    /// Block-user soundness for one block slot: every listed user is live,
    /// really references the block, and is listed once.
    pub open spec fn block_row_wf(&self, bi: int) -> bool {
        let row = self.block_users@[bi]@;
        &&& (forall|k: int|
            0 <= k < row.len() ==> self.spec_inst_live(#[trigger] row[k]) && self.bbs_of(
                row[k],
            ).contains(Block(bi as usize)))
        &&& row.no_duplicates()
    }

    /// Every block-user row is sound.
    pub open spec fn block_users_sound(&self) -> bool {
        forall|bi: int| 0 <= bi < self.block_users@.len() ==> #[trigger] self.block_row_wf(bi)
    }

    /// Block-user completeness: every non-invalid block reference of every
    /// live instruction has a grown row that lists the instruction.
    pub open spec fn block_users_complete(&self) -> bool {
        forall|ii: int, j: int|
            0 <= ii < self.n_insts() && self.inst_live@[ii] && 0 <= j < self.inst_bbs@[ii]@.len()
                && (#[trigger] self.bb_at(ii, j)).0 != INVALID_IDX ==> self.bb_at(ii, j).0
                < self.block_users@.len() && self.block_users_of(self.bb_at(ii, j)).contains(
                Inst(ii as usize),
            )
    }

    /// Dead instruction slots hold no operands, no block references, and no
    /// result.
    pub open spec fn dead_insts_clear(&self) -> bool {
        forall|ii: int|
            0 <= ii < self.n_insts() && !(#[trigger] self.inst_live@[ii]) ==> self.inst_args@[
                ii
            ]@.len() == 0 && self.inst_bbs@[ii]@.len() == 0 && self.inst_result@[ii] is None
    }

    /// Results: a live instruction has a result exactly when its type is not
    /// void, and the result value records the defining instruction.
    pub open spec fn results_ok(&self) -> bool {
        forall|ii: int|
            0 <= ii < self.n_insts() && self.inst_live@[ii] ==> {
                &&& ((self.inst_ty@[ii] == Ty::Void) <==> (#[trigger] self.inst_result@[
                    ii
                ]) is None)
                &&& (self.inst_result@[ii] matches Some(v) ==> self.spec_value_live(v)
                    && self.value_data@[v.0 as int] == (ValueData::Inst {
                    ty: self.inst_ty@[ii],
                    inst: Inst(ii as usize),
                }))
            }
    }

    /// Origins: an instruction-origin value is the recorded result of a live
    /// defining instruction; an argument-origin value is bound to its slot.
    /// Together with `results_ok` this makes defining sites unique.
    pub open spec fn origins_ok(&self) -> bool {
        forall|vi: int|
            0 <= vi < self.n_values() ==> match #[trigger] self.value_data@[vi] {
                ValueData::Inst { ty, inst } => self.spec_inst_live(inst) && self.inst_ty@[
                    inst.0 as int
                ] == ty && self.inst_result@[inst.0 as int] == Some(Value(vi as usize)),
                ValueData::Arg { ty, arg } => 0 <= arg.0 < self.arg_values@.len()
                    && self.arg_values@[arg.0 as int] == Value(vi as usize),
                ValueData::Placeholder { ty } => true,
                ValueData::Invalid => true,
            }
    }

    /// Argument bindings: every slot binds a live argument-origin value that
    /// points back at the slot.
    pub open spec fn args_ok(&self) -> bool {
        forall|k: int|
            0 <= k < self.arg_values@.len() ==> {
                let v = #[trigger] self.arg_values@[k];
                &&& self.spec_value_live(v)
                &&& (self.value_data@[v.0 as int] matches ValueData::Arg { ty, arg } && arg.0 == k)
            }
    }

    /// Phi pairing: a live phi has as many operands as predecessor blocks.
    pub open spec fn phis_ok(&self) -> bool {
        forall|ii: int|
            0 <= ii < self.n_insts() && self.inst_live@[ii] && (#[trigger] self.inst_op@[ii])
                == Opcode::Phi ==> self.inst_args@[ii]@.len() == self.inst_bbs@[ii]@.len()
    }

    /// Well-formedness of the whole graph.
    pub open spec fn wf(&self) -> bool {
        &&& self.lens_ok()
        &&& self.uses_sound()
        &&& self.uses_complete()
        &&& self.operands_ok()
        &&& self.block_users_sound()
        &&& self.block_users_complete()
        &&& self.dead_insts_clear()
        &&& self.results_ok()
        &&& self.origins_ok()
        &&& self.args_ok()
        &&& self.phis_ok()
    }

    /// Create an empty data-flow graph.
    pub fn new() -> (r: Self)
        ensures
            r.wf(),
            r.n_insts() == 0,
            r.n_values() == 0,
            r.arg_values@.len() == 0,
            r.block_users@.len() == 0,
            r.ext_units@.len() == 0,
            r.total_ops() == 0,
    {
        DataFlowGraph {
            inst_live: Vec::new(),
            inst_op: Vec::new(),
            inst_args: Vec::new(),
            inst_bbs: Vec::new(),
            inst_imm: Vec::new(),
            inst_ext: Vec::new(),
            inst_ty: Vec::new(),
            inst_result: Vec::new(),
            inst_loc: Vec::new(),
            value_data: Vec::new(),
            value_uses: Vec::new(),
            value_name: Vec::new(),
            value_hint: Vec::new(),
            block_users: Vec::new(),
            arg_values: Vec::new(),
            ext_units: Vec::new(),
        }
    }
}

/// A row relates to its old state by possibly changing only whether it lists
/// `i`: duplicates stay absent, membership of everything else is unchanged,
/// and membership of `i` is exactly `has_i`.
pub open spec fn row_set_rel(orow: Seq<Inst>, nr: Seq<Inst>, i: Inst, has_i: bool) -> bool {
    &&& nr.no_duplicates()
    &&& (forall|y: Inst| y != i ==> nr.contains(y) == orow.contains(y))
    &&& nr.contains(i) == has_i
}

/// Use-lists after registering instruction `i` with operand list `args`:
/// `i` is listed exactly by the live values among `args`, and membership of
/// every other instruction is unchanged.
pub open spec fn uses_registered_for(
    d_old: &DataFlowGraph,
    d_new: &DataFlowGraph,
    i: Inst,
    args: Seq<Value>,
) -> bool {
    &&& (forall|v: Value|
        #[trigger] d_new.is_use(v, i) == (d_old.spec_value_live(v) && args.contains(v)))
    &&& (forall|v: Value, x: Inst| x != i ==> #[trigger] d_new.is_use(v, x) == d_old.is_use(v, x))
}

/// Block-user lists after registering instruction `i` with block-reference
/// list `bbs`: `i` is listed exactly by the non-sentinel blocks among `bbs`,
/// and membership of every other instruction is unchanged.
pub open spec fn block_users_registered_for(
    d_old: &DataFlowGraph,
    d_new: &DataFlowGraph,
    i: Inst,
    bbs: Seq<Block>,
) -> bool {
    &&& (forall|b: Block|
        #[trigger] d_new.is_block_user(b, i) == (b.0 != INVALID_IDX && bbs.contains(b)))
    &&& (forall|b: Block, x: Inst|
        x != i ==> #[trigger] d_new.is_block_user(b, x) == d_old.is_block_user(b, x))
}

/// Every instruction slot that existed before is unchanged: liveness,
/// operands, block references, result, opcode, immediate, type, and
/// location hint.
pub open spec fn old_insts_preserved(d_old: &DataFlowGraph, d_new: &DataFlowGraph) -> bool {
    forall|x: Inst|
        #![trigger d_old.inst_in_range(x)]
        d_old.inst_in_range(x) ==> {
            &&& d_new.spec_inst_live(x) == d_old.spec_inst_live(x)
            &&& d_new.args_of(x) == d_old.args_of(x)
            &&& d_new.bbs_of(x) == d_old.bbs_of(x)
            &&& d_new.inst_result@[x.0 as int] == d_old.inst_result@[x.0 as int]
            &&& d_new.inst_op@[x.0 as int] == d_old.inst_op@[x.0 as int]
            &&& d_new.inst_imm@[x.0 as int] == d_old.inst_imm@[x.0 as int]
            &&& d_new.inst_ty@[x.0 as int] == d_old.inst_ty@[x.0 as int]
            &&& d_new.inst_loc@[x.0 as int] == d_old.inst_loc@[x.0 as int]
        }
}

/// Every value slot that existed before keeps its liveness, origin, name,
/// and hint.
pub open spec fn old_values_preserved(d_old: &DataFlowGraph, d_new: &DataFlowGraph) -> bool {
    forall|v: Value|
        #![trigger d_old.value_in_range(v)]
        d_old.value_in_range(v) ==> {
            &&& d_new.spec_value_live(v) == d_old.spec_value_live(v)
            &&& d_new.value_data@[v.0 as int] == d_old.value_data@[v.0 as int]
            &&& d_new.value_name@[v.0 as int] == d_old.value_name@[v.0 as int]
            &&& d_new.value_hint@[v.0 as int] == d_old.value_hint@[v.0 as int]
        }
}

/// Membership in a pushed sequence.
pub proof fn lemma_push_contains<T>(s: Seq<T>, x: T, y: T)
    ensures
        s.push(x).contains(y) == (s.contains(y) || y == x),
{
    if s.contains(y) {
        let k = choose|k: int| 0 <= k < s.len() && s[k] == y;
        assert(s.push(x)[k] == y);
    }
    assert(s.push(x)[s.len() as int] == x);
    if s.push(x).contains(y) && y != x {
        let k = choose|k: int| 0 <= k < s.push(x).len() && s.push(x)[k] == y;
        assert(k < s.len());
        assert(s[k] == y);
    }
}

/// Removing position `p` from a duplicate-free sequence removes exactly the
/// element at `p` from its set of members.
pub proof fn lemma_seq_remove_set<T>(s: Seq<T>, p: int)
    requires
        0 <= p < s.len(),
        s.no_duplicates(),
    ensures
        s.remove(p).no_duplicates(),
        !s.remove(p).contains(s[p]),
        forall|x: T| x != s[p] ==> s.remove(p).contains(x) == s.contains(x),
        s.remove(p).len() == s.len() - 1,
{
    s.remove_ensures(p);
    let r = s.remove(p);
    assert forall|i: int, j: int| 0 <= i < j < r.len() implies r[i] != r[j] by {
        let si: int = if i < p {
            i
        } else {
            i + 1
        };
        let sj: int = if j < p {
            j
        } else {
            j + 1
        };
        assert(r[i] == s[si]);
        assert(r[j] == s[sj]);
    }
    assert forall|k: int| 0 <= k < r.len() implies r[k] != s[p] by {
        let sk: int = if k < p {
            k
        } else {
            k + 1
        };
        assert(r[k] == s[sk]);
    }
    if r.contains(s[p]) {
        let k = choose|k: int| 0 <= k < r.len() && r[k] == s[p];
        assert(false);
    }
    assert forall|x: T| x != s[p] implies r.contains(x) == s.contains(x) by {
        if s.contains(x) {
            let k = choose|k: int| 0 <= k < s.len() && s[k] == x;
            let rk: int = if k < p {
                k
            } else {
                k - 1
            };
            assert(r[rk] == x);
        }
        if r.contains(x) {
            let k = choose|k: int| 0 <= k < r.len() && r[k] == x;
            let sk: int = if k < p {
                k
            } else {
                k + 1
            };
            assert(s[sk] == x);
        }
    }
}

/// Pushing onto a duplicate-free sequence that lacks the element keeps it
/// duplicate-free and adds exactly that element to its set of members.
pub proof fn lemma_seq_push_set<T>(s: Seq<T>, x: T)
    requires
        s.no_duplicates(),
        !s.contains(x),
    ensures
        s.push(x).no_duplicates(),
        s.push(x).contains(x),
        forall|y: T| y != x ==> s.push(x).contains(y) == s.contains(y),
{
    let r = s.push(x);
    assert(r[s.len() as int] == x);
    assert forall|i: int, j: int| 0 <= i < j < r.len() implies r[i] != r[j] by {
        if j < s.len() {
            assert(r[i] == s[i] && r[j] == s[j]);
        } else {
            assert(r[i] == s[i] && r[j] == x);
            assert(s.contains(s[i]));
        }
    }
    assert forall|y: T| y != x implies r.contains(y) == s.contains(y) by {
        if s.contains(y) {
            let k = choose|k: int| 0 <= k < s.len() && s[k] == y;
            assert(r[k] == y);
        }
        if r.contains(y) {
            let k = choose|k: int| 0 <= k < r.len() && r[k] == y;
            assert(k < s.len());
            assert(s[k] == y);
        }
    }
}

/// A sequence with no members is empty.
pub proof fn lemma_seq_no_members_empty<T>(s: Seq<T>)
    requires
        forall|x: T| !s.contains(x),
    ensures
        s.len() == 0,
{
    if s.len() > 0 {
        assert(s.contains(s[0]));
    }
}

/// The number of occurrences of an element never exceeds the length.
pub proof fn lemma_count_val_le_len(s: Seq<Value>, x: Value)
    ensures
        count_val(s, x) <= s.len(),
    decreases s.len(),
{
    if s.len() > 0 {
        lemma_count_val_le_len(s.drop_last(), x);
    }
}

/// The number of occurrences of an element never exceeds the length.
pub proof fn lemma_count_blk_le_len(s: Seq<Block>, x: Block)
    ensures
        count_blk(s, x) <= s.len(),
    decreases s.len(),
{
    if s.len() > 0 {
        lemma_count_blk_le_len(s.drop_last(), x);
    }
}

/// Two graphs whose operand and block-reference rows agree below `n` have the
/// same operand-slot count below `n`.
pub proof fn lemma_ops_same(a: &DataFlowGraph, b: &DataFlowGraph, n: int)
    requires
        n <= a.inst_args@.len(),
        n <= a.inst_bbs@.len(),
        n <= b.inst_args@.len(),
        n <= b.inst_bbs@.len(),
        forall|k: int|
            0 <= k < n ==> a.inst_args@[k]@.len() == (#[trigger] b.inst_args@[k])@.len(),
        forall|k: int| 0 <= k < n ==> a.inst_bbs@[k]@.len() == (#[trigger] b.inst_bbs@[k])@.len(),
    ensures
        a.ops_count_upto(n) == b.ops_count_upto(n),
    decreases n,
{
    if n > 0 {
        lemma_ops_same(a, b, n - 1);
    }
}

/// Two graphs whose operand and block-reference rows agree below `n` except
/// in slot `i` have operand-slot counts that differ by that slot alone.
pub proof fn lemma_ops_except(a: &DataFlowGraph, b: &DataFlowGraph, n: int, i: int)
    requires
        0 <= i < n,
        n <= a.inst_args@.len(),
        n <= a.inst_bbs@.len(),
        n <= b.inst_args@.len(),
        n <= b.inst_bbs@.len(),
        forall|k: int|
            0 <= k < n && k != i ==> a.inst_args@[k]@.len() == (#[trigger] b.inst_args@[k])@.len(),
        forall|k: int|
            0 <= k < n && k != i ==> a.inst_bbs@[k]@.len() == (#[trigger] b.inst_bbs@[k])@.len(),
    ensures
        a.ops_count_upto(n) + b.inst_args@[i]@.len() + b.inst_bbs@[i]@.len() == b.ops_count_upto(n)
            + a.inst_args@[i]@.len() + a.inst_bbs@[i]@.len(),
    decreases n,
{
    if i == n - 1 {
        lemma_ops_same(a, b, n - 1);
    } else {
        lemma_ops_except(a, b, n - 1, i);
    }
}

/// Two graphs whose liveness bits agree below `n` have the same live count
/// below `n`.
pub proof fn lemma_live_same(a: &DataFlowGraph, b: &DataFlowGraph, n: int)
    requires
        n <= a.inst_live@.len(),
        n <= b.inst_live@.len(),
        forall|k: int| 0 <= k < n ==> a.inst_live@[k] == b.inst_live@[k],
    ensures
        a.live_insts_upto(n) == b.live_insts_upto(n),
    decreases n,
{
    if n > 0 {
        lemma_live_same(a, b, n - 1);
    }
}

/// Two graphs whose liveness bits agree below `n` except in slot `i` have
/// live counts that differ by that bit alone.
pub proof fn lemma_live_except(a: &DataFlowGraph, b: &DataFlowGraph, n: int, i: int)
    requires
        0 <= i < n,
        n <= a.inst_live@.len(),
        n <= b.inst_live@.len(),
        forall|k: int| 0 <= k < n && k != i ==> a.inst_live@[k] == b.inst_live@[k],
    ensures
        a.live_insts_upto(n) + (if b.inst_live@[i] {
            1nat
        } else {
            0nat
        }) == b.live_insts_upto(n) + (if a.inst_live@[i] {
            1nat
        } else {
            0nat
        }),
    decreases n,
{
    if i == n - 1 {
        lemma_live_same(a, b, n - 1);
    } else {
        lemma_live_except(a, b, n - 1, i);
    }
}

/// Copy a vector of value handles element by element.
pub(crate) fn copy_values(src: &Vec<Value>) -> (r: Vec<Value>)
    ensures
        r@ == src@,
{
    let mut out: Vec<Value> = Vec::new();
    let n = src.len();
    let mut k: usize = 0;
    while k < n
        invariant
            k <= n,
            n == src@.len(),
            out@ == src@.take(k as int),
        decreases n - k,
    {
        out.push(src[k]);
        proof {
            assert(out@ =~= src@.take(k + 1 as int));
        }
        k = k + 1;
    }
    proof {
        assert(out@ =~= src@);
    }
    out
}

/// Copy a vector of block handles element by element.
pub(crate) fn copy_blocks(src: &Vec<Block>) -> (r: Vec<Block>)
    ensures
        r@ == src@,
{
    let mut out: Vec<Block> = Vec::new();
    let n = src.len();
    let mut k: usize = 0;
    while k < n
        invariant
            k <= n,
            n == src@.len(),
            out@ == src@.take(k as int),
        decreases n - k,
    {
        out.push(src[k]);
        proof {
            assert(out@ =~= src@.take(k + 1 as int));
        }
        k = k + 1;
    }
    proof {
        assert(out@ =~= src@);
    }
    out
}

/// Copy a vector of instruction handles element by element.
pub(crate) fn copy_insts(src: &Vec<Inst>) -> (r: Vec<Inst>)
    ensures
        r@ == src@,
{
    let mut out: Vec<Inst> = Vec::new();
    let n = src.len();
    let mut k: usize = 0;
    while k < n
        invariant
            k <= n,
            n == src@.len(),
            out@ == src@.take(k as int),
        decreases n - k,
    {
        out.push(src[k]);
        proof {
            assert(out@ =~= src@.take(k + 1 as int));
        }
        k = k + 1;
    }
    proof {
        assert(out@ =~= src@);
    }
    out
}

/// Find the position of an instruction handle in a row.
pub(crate) fn inst_pos(row: &Vec<Inst>, x: Inst) -> (r: Option<usize>)
    ensures
        match r {
            Some(p) => p < row@.len() && row@[p as int] == x,
            None => !row@.contains(x),
        },
{
    let n = row.len();
    let mut k: usize = 0;
    while k < n
        invariant
            k <= n,
            n == row@.len(),
            forall|m: int| 0 <= m < k ==> row@[m] != x,
        decreases n - k,
    {
        if row[k] == x {
            return Some(k);
        }
        k = k + 1;
    }
    proof {
        if row@.contains(x) {
            let m = choose|m: int| 0 <= m < row@.len() && row@[m] == x;
            assert(false);
        }
    }
    None
}

/// Whether a row holds an instruction handle.
pub(crate) fn insts_contain(row: &Vec<Inst>, x: Inst) -> (r: bool)
    ensures
        r == row@.contains(x),
{
    match inst_pos(row, x) {
        Some(_) => {
            true
        },
        None => false,
    }
}

impl DataFlowGraph {
    /// All fields other than the operand rows, block-reference rows,
    /// use-lists, and block-user lists agree.
    pub open spec fn same_core(a: &Self, b: &Self) -> bool {
        &&& b.inst_live == a.inst_live
        &&& b.inst_op == a.inst_op
        &&& b.inst_imm == a.inst_imm
        &&& b.inst_ext == a.inst_ext
        &&& b.inst_ty == a.inst_ty
        &&& b.inst_result == a.inst_result
        &&& b.inst_loc == a.inst_loc
        &&& b.value_data == a.value_data
        &&& b.value_name == a.value_name
        &&& b.value_hint == a.value_hint
        &&& b.arg_values == a.arg_values
        &&& b.ext_units == a.ext_units
    }

    /// Remove `x` from the use-list of `v`, if listed.
    fn unlink_use(&mut self, v: Value, x: Inst)
        requires
            0 <= v.0 < old(self).n_values(),
            old(self).value_uses@.len() == old(self).n_values(),
            old(self).uses_of(v).no_duplicates(),
        ensures
            Self::same_core(old(self), final(self)),
            final(self).inst_args == old(self).inst_args,
            final(self).inst_bbs == old(self).inst_bbs,
            final(self).block_users == old(self).block_users,
            final(self).value_uses@.len() == old(self).value_uses@.len(),
            forall|w: int|
                0 <= w < old(self).value_uses@.len() && w != v.0 ==> final(self).value_uses@[w]
                    == old(self).value_uses@[w],
            final(self).uses_of(v).no_duplicates(),
            !final(self).uses_of(v).contains(x),
            forall|y: Inst|
                y != x ==> final(self).uses_of(v).contains(y) == old(self).uses_of(v).contains(y),
    {
        let pos = inst_pos(&self.value_uses[v.0], x);
        match pos {
            Some(p) => {
                let ghost oldrow = self.value_uses@[v.0 as int]@;
                let row = &mut self.value_uses[v.0];
                let _removed = row.remove(p);
                proof {
                    lemma_seq_remove_set(oldrow, p as int);
                }
            },
            None => {},
        }
    }

    /// Add `x` to the use-list of `v`, if not listed yet.
    fn link_use(&mut self, v: Value, x: Inst)
        requires
            0 <= v.0 < old(self).n_values(),
            old(self).value_uses@.len() == old(self).n_values(),
            old(self).uses_of(v).no_duplicates(),
        ensures
            Self::same_core(old(self), final(self)),
            final(self).inst_args == old(self).inst_args,
            final(self).inst_bbs == old(self).inst_bbs,
            final(self).block_users == old(self).block_users,
            final(self).value_uses@.len() == old(self).value_uses@.len(),
            forall|w: int|
                0 <= w < old(self).value_uses@.len() && w != v.0 ==> final(self).value_uses@[w]
                    == old(self).value_uses@[w],
            final(self).uses_of(v).no_duplicates(),
            final(self).uses_of(v).contains(x),
            forall|y: Inst|
                y != x ==> final(self).uses_of(v).contains(y) == old(self).uses_of(v).contains(y),
    {
        let present = insts_contain(&self.value_uses[v.0], x);
        if !present {
            let ghost oldrow = self.value_uses@[v.0 as int]@;
            let row = &mut self.value_uses[v.0];
            row.push(x);
            proof {
                lemma_seq_push_set(oldrow, x);
            }
        }
    }

    /// Remove `x` from the user list of block `b`, if a row exists and
    /// lists it.
    fn unlink_block_user(&mut self, b: Block, x: Inst)
        requires
            forall|w: int|
                0 <= w < old(self).block_users@.len() ==> (#[trigger] old(self).block_users@[w])@.no_duplicates(),
        ensures
            Self::same_core(old(self), final(self)),
            final(self).inst_args == old(self).inst_args,
            final(self).inst_bbs == old(self).inst_bbs,
            final(self).value_uses == old(self).value_uses,
            final(self).block_users@.len() == old(self).block_users@.len(),
            forall|w: int|
                0 <= w < old(self).block_users@.len() && w != b.0 ==> final(self).block_users@[w]
                    == old(self).block_users@[w],
            forall|w: int|
                0 <= w < final(self).block_users@.len() ==> (#[trigger] final(self).block_users@[w])@.no_duplicates(),
            !final(self).block_users_of(b).contains(x),
            forall|y: Inst|
                y != x ==> final(self).block_users_of(b).contains(y) == old(self).block_users_of(b).contains(y),
    {
        if b.0 < self.block_users.len() {
            let pos = inst_pos(&self.block_users[b.0], x);
            match pos {
                Some(p) => {
                    let ghost oldrow = self.block_users@[b.0 as int]@;
                    let row = &mut self.block_users[b.0];
                    let _removed = row.remove(p);
                    proof {
                        lemma_seq_remove_set(oldrow, p as int);
                    }
                },
                None => {},
            }
        }
    }

    /// Add `x` to the user list of block `b`, growing the reverse index on
    /// demand.
    fn link_block_user(&mut self, b: Block, x: Inst)
        requires
            b.0 < MAX_HANDLES,
            old(self).block_users@.len() <= MAX_HANDLES,
            forall|w: int|
                0 <= w < old(self).block_users@.len() ==> (#[trigger] old(self).block_users@[w])@.no_duplicates(),
        ensures
            Self::same_core(old(self), final(self)),
            final(self).inst_args == old(self).inst_args,
            final(self).inst_bbs == old(self).inst_bbs,
            final(self).value_uses == old(self).value_uses,
            final(self).block_users@.len() <= MAX_HANDLES,
            final(self).block_users@.len() >= old(self).block_users@.len(),
            forall|w: int|
                0 <= w < old(self).block_users@.len() && w != b.0 ==> final(self).block_users@[w]
                    == old(self).block_users@[w],
            forall|w: int|
                old(self).block_users@.len() <= w < final(self).block_users@.len() && w != b.0
                    ==> (#[trigger] final(self).block_users@[w])@.len() == 0,
            forall|w: int|
                0 <= w < final(self).block_users@.len() ==> (#[trigger] final(self).block_users@[w])@.no_duplicates(),
            final(self).block_users_of(b).contains(x),
            forall|y: Inst|
                y != x ==> final(self).block_users_of(b).contains(y) == old(self).block_users_of(b).contains(y),
            forall|b2: Block, y: Inst|
                b2 != b ==> final(self).block_users_of(b2).contains(y) == old(self).block_users_of(b2).contains(y),
    {
        while self.block_users.len() <= b.0
            invariant
                b.0 < MAX_HANDLES,
                Self::same_core(old(self), self),
                self.inst_args == old(self).inst_args,
                self.inst_bbs == old(self).inst_bbs,
                self.value_uses == old(self).value_uses,
                self.block_users@.len() >= old(self).block_users@.len(),
                self.block_users@.len() <= b.0 + 1 || self.block_users@.len() == old(self).block_users@.len(),
                forall|w: int|
                    0 <= w < old(self).block_users@.len() ==> self.block_users@[w] == old(self).block_users@[w],
                forall|w: int|
                    old(self).block_users@.len() <= w < self.block_users@.len() ==> (
                    #[trigger] self.block_users@[w])@.len() == 0,
            decreases b.0 + 1 - self.block_users@.len(),
        {
            self.block_users.push(Vec::new());
        }
        let present = insts_contain(&self.block_users[b.0], x);
        if !present {
            let ghost oldrow = self.block_users@[b.0 as int]@;
            let row = &mut self.block_users[b.0];
            row.push(x);
            proof {
                lemma_seq_push_set(oldrow, x);
            }
        }
    }
}

impl DataFlowGraph {
    /// Replace the operand list and block-reference list of a live
    /// instruction in one step, keeping every use-list and block-user list
    /// consistent.
    #[verifier::loop_isolation(false)]
    #[verifier::rlimit(60)]
    pub(crate) fn set_inst_operands(&mut self, i: Inst, new_args: Vec<Value>, new_bbs: Vec<Block>)
        requires
            old(self).wf(),
            old(self).spec_inst_live(i),
            forall|j: int| 0 <= j < new_args@.len() ==> old(self).value_ok(#[trigger] new_args@[j]),
            forall|j: int|
                0 <= j < new_bbs@.len() ==> (#[trigger] new_bbs@[j]).0 == INVALID_IDX
                    || new_bbs@[j].0 < MAX_HANDLES,
            old(self).inst_op@[i.0 as int] == Opcode::Phi ==> new_args@.len() == new_bbs@.len(),
            old(self).total_ops() - old(self).args_of(i).len() - old(self).bbs_of(i).len()
                + new_args@.len() + new_bbs@.len() <= MAX_HANDLES,
        ensures
            final(self).wf(),
            Self::same_core(old(self), final(self)),
            final(self).inst_args@ == old(self).inst_args@.update(i.0 as int, new_args),
            final(self).inst_bbs@ == old(self).inst_bbs@.update(i.0 as int, new_bbs),
            forall|v: Value, x: Inst|
                x != i ==> final(self).is_use(v, x) == old(self).is_use(v, x),
            forall|v: Value|
                final(self).is_use(v, i) == (old(self).spec_value_live(v) && new_args@.contains(
                    v,
                )),
            forall|b: Block, x: Inst|
                x != i ==> final(self).is_block_user(b, x) == old(self).is_block_user(b, x),
            forall|b: Block|
                final(self).is_block_user(b, i) == (b.0 != INVALID_IDX && new_bbs@.contains(b)),
            final(self).total_ops() == old(self).total_ops() - old(self).args_of(i).len() - old(self).bbs_of(i).len() + new_args@.len() + new_bbs@.len(),
            final(self).n_live_insts() == old(self).n_live_insts(),
    {
        let ghost nv = self.n_values();
        let ii = i.0;
        let old_args = copy_values(&self.inst_args[ii]);
        let old_bbs = copy_blocks(&self.inst_bbs[ii]);

        // Deregister the old operands from their use-lists.
        proof {
            assert forall|vi: int| 0 <= vi < nv implies row_set_rel(
                old(self).value_uses@[vi]@,
                (#[trigger] self.value_uses@[vi])@,
                i,
                if old_args@.take(0int).contains(Value(vi as usize)) {
                    false
                } else {
                    old(self).value_uses@[vi]@.contains(i)
                },
            ) by {
                assert(old(self).use_row_wf(vi));
                assert(old_args@.take(0int).len() == 0);
            }
        }
        let n1 = old_args.len();
        let mut j: usize = 0;
        while j < n1
            invariant
                j <= n1,
                Self::same_core(old(self), self),
                self.inst_args == old(self).inst_args,
                self.inst_bbs == old(self).inst_bbs,
                self.block_users == old(self).block_users,
                self.value_uses@.len() == old(self).value_uses@.len(),
                forall|vi: int|
                    0 <= vi < nv ==> row_set_rel(
                        old(self).value_uses@[vi]@,
                        (#[trigger] self.value_uses@[vi])@,
                        i,
                        if old_args@.take(j as int).contains(Value(vi as usize)) {
                            false
                        } else {
                            old(self).value_uses@[vi]@.contains(i)
                        },
                    ),
            decreases n1 - j,
        {
            let a = old_args[j];
            proof {
                assert(old(self).arg_at(ii as int, j as int) == a);
                assert(old(self).value_ok(a));
            }
            if a.0 != INVALID_IDX {
                self.unlink_use(a, i);
            }
            proof {
                assert forall|vi: int| 0 <= vi < nv implies row_set_rel(
                    old(self).value_uses@[vi]@,
                    (#[trigger] self.value_uses@[vi])@,
                    i,
                    if old_args@.take(j + 1int).contains(Value(vi as usize)) {
                        false
                    } else {
                        old(self).value_uses@[vi]@.contains(i)
                    },
                ) by {
                    assert(old_args@.take(j + 1int) =~= old_args@.take(j as int).push(a));
                    lemma_push_contains(old_args@.take(j as int), a, Value(vi as usize));
                }
            }
            j = j + 1;
        }
        proof {
            // No use-list lists the instruction any more.
            assert forall|vi: int| 0 <= vi < nv implies !(#[trigger] self.value_uses@[vi])@.contains(
                i,
            ) by {
                assert(old_args@.take(n1 as int) =~= old_args@);
                if !old_args@.contains(Value(vi as usize)) {
                    if old(self).value_uses@[vi]@.contains(i) {
                        assert(old(self).use_row_wf(vi));
                        let k = choose|k: int|
                            0 <= k < old(self).value_uses@[vi]@.len() && old(self).value_uses@[vi]@[k] == i;
                        assert(old(self).args_of(i).contains(Value(vi as usize)));
                    }
                }
            }
        }

        // Deregister the old block references from their user lists.
        proof {
            assert forall|bi: int| 0 <= bi < self.block_users@.len() implies row_set_rel(
                old(self).block_users@[bi]@,
                (#[trigger] self.block_users@[bi])@,
                i,
                if old_bbs@.take(0int).contains(Block(bi as usize)) {
                    false
                } else {
                    old(self).block_users@[bi]@.contains(i)
                },
            ) by {
                assert(old(self).block_row_wf(bi));
                assert(old_bbs@.take(0int).len() == 0);
            }
        }
        let n2 = old_bbs.len();
        let mut j2: usize = 0;
        while j2 < n2
            invariant
                j2 <= n2,
                Self::same_core(old(self), self),
                self.inst_args == old(self).inst_args,
                self.inst_bbs == old(self).inst_bbs,
                self.value_uses@.len() == old(self).value_uses@.len(),
                forall|vi: int|
                    0 <= vi < nv ==> row_set_rel(
                        old(self).value_uses@[vi]@,
                        (#[trigger] self.value_uses@[vi])@,
                        i,
                        false,
                    ),
                self.block_users@.len() == old(self).block_users@.len(),
                forall|bi: int|
                    0 <= bi < self.block_users@.len() ==> row_set_rel(
                        old(self).block_users@[bi]@,
                        (#[trigger] self.block_users@[bi])@,
                        i,
                        if old_bbs@.take(j2 as int).contains(Block(bi as usize)) {
                            false
                        } else {
                            old(self).block_users@[bi]@.contains(i)
                        },
                    ),
            decreases n2 - j2,
        {
            let b = old_bbs[j2];
            proof {
                assert(old(self).bb_at(ii as int, j2 as int) == b);
            }
            if b.0 != INVALID_IDX {
                self.unlink_block_user(b, i);
            }
            proof {
                assert forall|bi: int| 0 <= bi < self.block_users@.len() implies row_set_rel(
                    old(self).block_users@[bi]@,
                    (#[trigger] self.block_users@[bi])@,
                    i,
                    if old_bbs@.take(j2 + 1int).contains(Block(bi as usize)) {
                        false
                    } else {
                        old(self).block_users@[bi]@.contains(i)
                    },
                ) by {
                    assert(old_bbs@.take(j2 + 1int) =~= old_bbs@.take(j2 as int).push(b));
                    lemma_push_contains(old_bbs@.take(j2 as int), b, Block(bi as usize));
                }
            }
            j2 = j2 + 1;
        }
        proof {
            // No block-user list lists the instruction any more.
            assert forall|bi: int|
                0 <= bi < self.block_users@.len() implies !(
            #[trigger] self.block_users@[bi])@.contains(i) by {
                assert(old_bbs@.take(n2 as int) =~= old_bbs@);
                if !old_bbs@.contains(Block(bi as usize)) {
                    if old(self).block_users@[bi]@.contains(i) {
                        assert(old(self).block_row_wf(bi));
                        let k = choose|k: int|
                            0 <= k < old(self).block_users@[bi]@.len() && old(
                            self).block_users@[bi]@[k] == i;
                        assert(old(self).bbs_of(i).contains(Block(bi as usize)));
                    }
                }
            }
        }

        // Install the new rows.
        self.inst_args.set(ii, new_args);
        self.inst_bbs.set(ii, new_bbs);

        // Register the new operands.
        let n3 = self.inst_args[ii].len();
        let mut k: usize = 0;
        while k < n3
            invariant
                k <= n3,
                n3 == new_args@.len(),
                Self::same_core(old(self), self),
                self.inst_args@ == old(self).inst_args@.update(ii as int, new_args),
                self.inst_bbs@ == old(self).inst_bbs@.update(ii as int, new_bbs),
                self.value_uses@.len() == old(self).value_uses@.len(),
                self.block_users@.len() == old(self).block_users@.len(),
                forall|bi: int|
                    0 <= bi < self.block_users@.len() ==> row_set_rel(
                        old(self).block_users@[bi]@,
                        (#[trigger] self.block_users@[bi])@,
                        i,
                        false,
                    ),
                forall|vi: int|
                    0 <= vi < nv ==> row_set_rel(
                        old(self).value_uses@[vi]@,
                        (#[trigger] self.value_uses@[vi])@,
                        i,
                        new_args@.take(k as int).contains(Value(vi as usize)),
                    ),
            decreases n3 - k,
        {
            let a = self.inst_args[ii][k];
            proof {
                assert(a == new_args@[k as int]);
                assert(old(self).value_ok(a));
            }
            if a.0 != INVALID_IDX {
                self.link_use(a, i);
            }
            proof {
                assert forall|vi: int| 0 <= vi < nv implies row_set_rel(
                    old(self).value_uses@[vi]@,
                    (#[trigger] self.value_uses@[vi])@,
                    i,
                    new_args@.take(k + 1int).contains(Value(vi as usize)),
                ) by {
                    assert(new_args@.take(k + 1int) =~= new_args@.take(k as int).push(a));
                    lemma_push_contains(new_args@.take(k as int), a, Value(vi as usize));
                }
            }
            k = k + 1;
        }

        // Register the new block references.
        proof {
            assert forall|vi: int| 0 <= vi < nv implies row_set_rel(
                old(self).value_uses@[vi]@,
                (#[trigger] self.value_uses@[vi])@,
                i,
                new_args@.contains(Value(vi as usize)),
            ) by {
                assert(new_args@.take(n3 as int) =~= new_args@);
            }
            assert forall|b2: Block|
                #![trigger self.block_users_of(b2)]
                self.block_users_of(b2).contains(i) == (b2.0 != INVALID_IDX
                    && new_bbs@.take(0int).contains(b2)) by {
                assert(new_bbs@.take(0int).len() == 0);
                if 0 <= b2.0 < self.block_users@.len() {
                    assert(row_set_rel(
                        old(self).block_users@[b2.0 as int]@,
                        self.block_users@[b2.0 as int]@,
                        i,
                        false,
                    ));
                }
            }
        }
        let n4 = self.inst_bbs[ii].len();
        let mut k2: usize = 0;
        while k2 < n4
            invariant
                k2 <= n4,
                n4 == new_bbs@.len(),
                Self::same_core(old(self), self),
                self.inst_args@ == old(self).inst_args@.update(ii as int, new_args),
                self.inst_bbs@ == old(self).inst_bbs@.update(ii as int, new_bbs),
                self.value_uses@.len() == old(self).value_uses@.len(),
                forall|vi: int|
                    0 <= vi < nv ==> row_set_rel(
                        old(self).value_uses@[vi]@,
                        (#[trigger] self.value_uses@[vi])@,
                        i,
                        new_args@.contains(Value(vi as usize)),
                    ),
                self.block_users@.len() >= old(self).block_users@.len(),
                self.block_users@.len() <= MAX_HANDLES,
                forall|w: int|
                    0 <= w < self.block_users@.len() ==> (#[trigger] self.block_users@[w])@.no_duplicates(),
                forall|b: Block, y: Inst|
                    y != i ==> self.block_users_of(b).contains(y) == old(self).block_users_of(
                        b,
                    ).contains(y),
                forall|b: Block|
                    #![trigger self.block_users_of(b)]
                    self.block_users_of(b).contains(i) == (b.0 != INVALID_IDX
                        && new_bbs@.take(k2 as int).contains(b)),
            decreases n4 - k2,
        {
            let b = self.inst_bbs[ii][k2];
            proof {
                assert(b == new_bbs@[k2 as int]);
            }
            if b.0 != INVALID_IDX {
                self.link_block_user(b, i);
            }
            proof {
                assert forall|b2: Block|
                    self.block_users_of(b2).contains(i) == (b2.0 != INVALID_IDX
                        && new_bbs@.take(k2 + 1int).contains(b2)) by {
                    assert(new_bbs@.take(k2 + 1int) =~= new_bbs@.take(k2 as int).push(b));
                    lemma_push_contains(new_bbs@.take(k2 as int), b, b2);
                }
            }
            k2 = k2 + 1;
        }

        proof {
            let fin = self;
            assert(new_args@.take(n3 as int) =~= new_args@);
            assert(new_bbs@.take(n4 as int) =~= new_bbs@);

            // Use-lists are sound again.
            assert forall|vi: int| 0 <= vi < fin.n_values() implies #[trigger] fin.use_row_wf(
                vi,
            ) by {
                let row = fin.value_uses@[vi]@;
                let v = Value(vi as usize);
                assert(old(self).use_row_wf(vi));
                assert forall|m: int| 0 <= m < row.len() implies fin.spec_inst_live(
                    #[trigger] row[m],
                ) && fin.args_of(row[m]).contains(v) by {
                    let y = row[m];
                    assert(row.contains(y));
                    if y == i {
                        assert(new_args@.contains(v));
                        assert(fin.args_of(i) == new_args@);
                    } else {
                        assert(old(self).value_uses@[vi]@.contains(y));
                        let m2 = choose|m2: int|
                            0 <= m2 < old(self).value_uses@[vi]@.len() && old(
                            self).value_uses@[vi]@[m2] == y;
                        assert(old(self).spec_inst_live(y));
                        assert(old(self).args_of(y).contains(v));
                        assert(fin.args_of(y) == old(self).args_of(y));
                    }
                }
                if !fin.spec_value_live(v) {
                    assert forall|y: Inst| !row.contains(y) by {
                        if y == i {
                            if new_args@.contains(v) {
                                let m2 = choose|m2: int|
                                    0 <= m2 < new_args@.len() && new_args@[m2] == v;
                                assert(old(self).value_ok(new_args@[m2]));
                            }
                        } else {
                            if old(self).value_uses@[vi]@.contains(y) {
                                assert(old(self).value_uses@[vi]@.len() == 0);
                            }
                        }
                    }
                    lemma_seq_no_members_empty(row);
                }
            }

            // Use-lists are complete again.
            assert forall|i2: int, j3: int|
                0 <= i2 < fin.n_insts() && fin.inst_live@[i2] && 0 <= j3 < fin.inst_args@[i2]@.len()
                    && (#[trigger] fin.arg_at(i2, j3)).0 != INVALID_IDX implies fin.uses_of(
                fin.arg_at(i2, j3),
            ).contains(Inst(i2 as usize)) by {
                let a = fin.arg_at(i2, j3);
                if i2 == ii as int {
                    assert(fin.args_of(i).contains(a));
                    assert(old(self).value_ok(a));
                } else {
                    assert(old(self).arg_at(i2, j3) == a);
                    assert(old(self).uses_of(a).contains(Inst(i2 as usize)));
                    assert(old(self).value_ok(a));
                    assert(Inst(i2 as usize) != i);
                }
            }

            // Block-user lists are sound again.
            assert forall|bi: int| 0 <= bi < fin.block_users@.len() implies #[trigger] fin.block_row_wf(
                bi,
            ) by {
                let row = fin.block_users@[bi]@;
                let b = Block(bi as usize);
                assert(fin.block_users_of(b) == row);
                assert forall|m: int| 0 <= m < row.len() implies fin.spec_inst_live(
                    #[trigger] row[m],
                ) && fin.bbs_of(row[m]).contains(b) by {
                    let y = row[m];
                    assert(row.contains(y));
                    if y == i {
                        assert(b.0 != INVALID_IDX && new_bbs@.contains(b));
                        assert(fin.bbs_of(i) == new_bbs@);
                    } else {
                        assert(old(self).block_users_of(b).contains(y));
                        assert(0 <= bi < old(self).block_users@.len());
                        let m2 = choose|m2: int|
                            0 <= m2 < old(self).block_users@[bi]@.len() && old(
                            self).block_users@[bi]@[m2] == y;
                        assert(old(self).block_row_wf(bi));
                        assert(old(self).spec_inst_live(y));
                        assert(old(self).bbs_of(y).contains(b));
                        assert(fin.bbs_of(y) == old(self).bbs_of(y));
                    }
                }
            }

            // Block-user lists are complete again.
            assert forall|i2: int, j3: int|
                0 <= i2 < fin.n_insts() && fin.inst_live@[i2] && 0 <= j3 < fin.inst_bbs@[i2]@.len()
                    && (#[trigger] fin.bb_at(i2, j3)).0 != INVALID_IDX implies fin.bb_at(i2, j3).0
                < fin.block_users@.len() && fin.block_users_of(fin.bb_at(i2, j3)).contains(
                Inst(i2 as usize),
            ) by {
                let b = fin.bb_at(i2, j3);
                if i2 == ii as int {
                    assert(fin.bbs_of(i).contains(b));
                    assert(fin.block_users_of(b).contains(i));
                    assert(0 <= b.0 < fin.block_users@.len());
                } else {
                    assert(old(self).bb_at(i2, j3) == b);
                    assert(old(self).block_users_of(b).contains(Inst(i2 as usize)));
                    assert(b.0 < old(self).block_users@.len());
                    assert(Inst(i2 as usize) != i);
                    assert(fin.block_users_of(b).contains(Inst(i2 as usize)));
                    assert(fin.block_users@.len() >= old(self).block_users@.len());
                }
            }

            // Counts.
            lemma_ops_except(old(self), fin, fin.n_insts(), ii as int);
            lemma_live_same(old(self), fin, fin.n_insts());

            assert(fin.lens_ok());
            assert(fin.operands_ok()) by {
                assert forall|i2: int, j3: int|
                    0 <= i2 < fin.n_insts() && fin.inst_live@[i2] && 0 <= j3 < fin.inst_args@[
                    i2]@.len() implies fin.value_ok(#[trigger] fin.arg_at(i2, j3)) by {
                    if i2 == ii as int {
                        assert(old(self).value_ok(new_args@[j3]));
                        assert(fin.value_data == old(self).value_data);
                    } else {
                        assert(old(self).arg_at(i2, j3) == fin.arg_at(i2, j3));
                        assert(old(self).value_ok(old(self).arg_at(i2, j3)));
                    }
                }
            }
            assert(fin.dead_insts_clear());
            assert(fin.results_ok());
            assert(fin.origins_ok());
            assert(fin.args_ok());
            assert(fin.phis_ok()) by {
                assert forall|i2: int|
                    0 <= i2 < fin.n_insts() && fin.inst_live@[i2] && (#[trigger] fin.inst_op@[i2])
                        == Opcode::Phi implies fin.inst_args@[i2]@.len() == fin.inst_bbs@[
                    i2]@.len() by {
                    if i2 != ii as int {
                        assert(old(self).inst_args@[i2] == fin.inst_args@[i2]);
                        assert(old(self).inst_bbs@[i2] == fin.inst_bbs@[i2]);
                    }
                }
            }
        }
    }
}

/// Use-list consistency: in a well-formed graph the use-list of a live value
/// lists exactly the live instructions whose operand list holds the value.
pub proof fn lemma_use_list_consistency(d: &DataFlowGraph, v: Value, x: Inst)
    requires
        d.wf(),
        d.spec_value_live(v),
    ensures
        d.is_use(v, x) == (d.spec_inst_live(x) && d.args_of(x).contains(v)),
{
    assert(d.use_row_wf(v.0 as int));
    if d.is_use(v, x) {
        let row = d.value_uses@[v.0 as int]@;
        let k = choose|k: int| 0 <= k < row.len() && row[k] == x;
        assert(d.spec_inst_live(x) && d.args_of(x).contains(v));
    }
    if d.spec_inst_live(x) && d.args_of(x).contains(v) {
        let j = choose|j: int| 0 <= j < d.args_of(x).len() && d.args_of(x)[j] == v;
        assert(d.arg_at(x.0 as int, j) == v);
        assert(v.0 < MAX_HANDLES);
        assert(d.uses_of(d.arg_at(x.0 as int, j)).contains(Inst(x.0)));
        assert(Inst(x.0) == x);
    }
}

/// Block-user consistency: in a well-formed graph the user list of a block
/// lists exactly the live instructions whose block-reference list holds it.
pub proof fn lemma_block_user_consistency(d: &DataFlowGraph, b: Block, x: Inst)
    requires
        d.wf(),
        b.0 != INVALID_IDX,
    ensures
        d.is_block_user(b, x) == (d.spec_inst_live(x) && d.bbs_of(x).contains(b)),
{
    if d.is_block_user(b, x) {
        assert(0 <= b.0 < d.block_users@.len());
        assert(d.block_row_wf(b.0 as int));
        let row = d.block_users@[b.0 as int]@;
        let k = choose|k: int| 0 <= k < row.len() && row[k] == x;
        assert(d.spec_inst_live(x) && d.bbs_of(x).contains(b));
    }
    if d.spec_inst_live(x) && d.bbs_of(x).contains(b) {
        let j = choose|j: int| 0 <= j < d.bbs_of(x).len() && d.bbs_of(x)[j] == b;
        assert(d.bb_at(x.0 as int, j) == b);
        assert(d.block_users_of(d.bb_at(x.0 as int, j)).contains(Inst(x.0)));
        assert(Inst(x.0) == x);
    }
}

impl DataFlowGraph {
    /// Allocate a fresh instruction from its payload; when the type is not
    /// void, allocate its result value bound to this instruction. The new
    /// instruction is registered as a user of each operand value and of each
    /// referenced block.
    #[verifier::loop_isolation(false)]
    #[verifier::rlimit(60)]
    pub fn add_inst(&mut self, data: InstData, ty: Ty) -> (i: Inst)
        requires
            old(self).wf(),
            data.wf(),
            old(self).n_insts() < MAX_HANDLES,
            ty != Ty::Void ==> old(self).n_values() < MAX_HANDLES,
            forall|j: int| 0 <= j < data.args@.len() ==> old(self).value_ok(#[trigger] data.args@[j]),
            forall|j: int|
                0 <= j < data.bbs@.len() ==> (#[trigger] data.bbs@[j]).0 == INVALID_IDX
                    || data.bbs@[j].0 < MAX_HANDLES,
            old(self).total_ops() + data.args@.len() + data.bbs@.len() <= MAX_HANDLES,
        ensures
            final(self).wf(),
            i.0 == old(self).n_insts(),
            final(self).n_insts() == old(self).n_insts() + 1,
            final(self).spec_inst_live(i),
            !old(self).inst_in_range(i),
            forall|x: Inst| x != i ==> final(self).spec_inst_live(x) == old(self).spec_inst_live(x),
            final(self).args_of(i) == data.args@,
            final(self).bbs_of(i) == data.bbs@,
            final(self).inst_op@[i.0 as int] == data.opcode,
            final(self).inst_imm@[i.0 as int] == data.imm,
            final(self).inst_ext@[i.0 as int] == data.ext,
            final(self).inst_ty@[i.0 as int] == ty,
            final(self).inst_loc@[i.0 as int] is None,
            forall|x: Inst|
                x != i && old(self).inst_in_range(x) ==> final(self).args_of(x) == old(self).args_of(x) && final(self).bbs_of(x) == old(self).bbs_of(x),
            forall|x: Inst|
                old(self).inst_in_range(x) ==> final(self).inst_result@[x.0 as int] == old(self).inst_result@[x.0 as int] && final(self).inst_op@[x.0 as int] == old(self).inst_op@[x.0 as int] && final(self).inst_imm@[x.0 as int] == old(self).inst_imm@[x.0 as int] && final(self).inst_ty@[x.0 as int] == old(self).inst_ty@[x.0 as int] && final(self).inst_loc@[x.0 as int] == old(self).inst_loc@[x.0 as int],
            // The result value.
            ty == Ty::Void ==> final(self).inst_result@[i.0 as int] is None && final(self).n_values()
                == old(self).n_values() && final(self).value_data == old(self).value_data,
            ty != Ty::Void ==> final(self).inst_result@[i.0 as int] == Some(
                Value(old(self).n_values() as usize),
            ) && final(self).n_values() == old(self).n_values() + 1 && final(self).spec_value_live(
                Value(old(self).n_values() as usize),
            ) && final(self).value_data@[old(self).n_values()] == (ValueData::Inst { ty, inst: i })
                && final(self).uses_of(Value(old(self).n_values() as usize)).len() == 0,
            forall|v: Value|
                old(self).value_in_range(v) ==> final(self).value_data@[v.0 as int] == old(self).value_data@[v.0 as int] && final(self).value_name@[v.0 as int] == old(self).value_name@[v.0 as int] && final(self).value_hint@[v.0 as int] == old(self).value_hint@[v.0 as int],
            forall|v: Value| final(self).spec_value_live(v) == (old(self).spec_value_live(v) || (ty
                != Ty::Void && v == Value(old(self).n_values() as usize))),
            // Use and block-user registration.
            forall|v: Value, x: Inst|
                x != i ==> final(self).is_use(v, x) == old(self).is_use(v, x),
            forall|v: Value|
                final(self).is_use(v, i) == (old(self).spec_value_live(v) && data.args@.contains(
                    v,
                )),
            forall|b: Block, x: Inst|
                x != i ==> final(self).is_block_user(b, x) == old(self).is_block_user(b, x),
            forall|b: Block|
                final(self).is_block_user(b, i) == (b.0 != INVALID_IDX && data.bbs@.contains(b)),
            final(self).arg_values == old(self).arg_values,
            final(self).ext_units == old(self).ext_units,
            final(self).total_ops() == old(self).total_ops() + data.args@.len() + data.bbs@.len(),
            final(self).n_live_insts() == old(self).n_live_insts() + 1,
            old_insts_preserved(old(self), final(self)),
            old_values_preserved(old(self), final(self)),
            uses_registered_for(old(self), final(self), i, data.args@),
            block_users_registered_for(old(self), final(self), i, data.bbs@),
    {
        let InstData { opcode, args, bbs, imm, ext } = data;
        let i = Inst(self.inst_live.len());
        let ghost before = *self;
        self.inst_live.push(true);
        self.inst_op.push(opcode);
        self.inst_args.push(Vec::new());
        self.inst_bbs.push(Vec::new());
        self.inst_imm.push(imm);
        self.inst_ext.push(ext);
        self.inst_ty.push(ty);
        self.inst_loc.push(None);
        if ty.is_void() {
            self.inst_result.push(None);
        } else {
            let v = Value(self.value_data.len());
            self.value_data.push(ValueData::Inst { ty, inst: i });
            self.value_uses.push(Vec::new());
            self.value_name.push(None);
            self.value_hint.push(None);
            self.inst_result.push(Some(v));
        }
        proof {
            let mid = self;
            assert(mid.n_insts() == before.n_insts() + 1);
            assert forall|vi: int| 0 <= vi < mid.n_values() implies #[trigger] mid.use_row_wf(
                vi,
            ) by {
                if vi < before.n_values() {
                    assert(before.use_row_wf(vi));
                    assert(mid.value_uses@[vi] == before.value_uses@[vi]);
                    assert forall|k: int| 0 <= k < mid.value_uses@[vi]@.len() implies mid.spec_inst_live(
                        #[trigger] mid.value_uses@[vi]@[k],
                    ) && mid.args_of(mid.value_uses@[vi]@[k]).contains(Value(vi as usize)) by {
                        let y = mid.value_uses@[vi]@[k];
                        assert(before.spec_inst_live(y));
                        assert(mid.inst_args@[y.0 as int] == before.inst_args@[y.0 as int]);
                    }
                }
            }
            assert(mid.uses_complete()) by {
                assert forall|i2: int, j3: int|
                    0 <= i2 < mid.n_insts() && mid.inst_live@[i2] && 0 <= j3 < mid.inst_args@[
                    i2]@.len() && (#[trigger] mid.arg_at(i2, j3)).0 != INVALID_IDX implies mid.uses_of(
                    mid.arg_at(i2, j3),
                ).contains(Inst(i2 as usize)) by {
                    assert(i2 != i.0 as int);
                    assert(before.arg_at(i2, j3) == mid.arg_at(i2, j3));
                    assert(before.uses_of(before.arg_at(i2, j3)).contains(Inst(i2 as usize)));
                }
            }
            assert(mid.operands_ok()) by {
                assert forall|i2: int, j3: int|
                    0 <= i2 < mid.n_insts() && mid.inst_live@[i2] && 0 <= j3 < mid.inst_args@[
                    i2]@.len() implies mid.value_ok(#[trigger] mid.arg_at(i2, j3)) by {
                    assert(i2 != i.0 as int);
                    assert(before.arg_at(i2, j3) == mid.arg_at(i2, j3));
                    assert(before.value_ok(before.arg_at(i2, j3)));
                }
            }
            assert forall|bi: int| 0 <= bi < mid.block_users@.len() implies #[trigger] mid.block_row_wf(
                bi,
            ) by {
                assert(before.block_row_wf(bi));
                assert forall|k: int| 0 <= k < mid.block_users@[bi]@.len() implies mid.spec_inst_live(
                    #[trigger] mid.block_users@[bi]@[k],
                ) && mid.bbs_of(mid.block_users@[bi]@[k]).contains(Block(bi as usize)) by {
                    let y = mid.block_users@[bi]@[k];
                    assert(before.spec_inst_live(y));
                    assert(mid.inst_bbs@[y.0 as int] == before.inst_bbs@[y.0 as int]);
                }
            }
            assert(mid.block_users_complete()) by {
                assert forall|i2: int, j3: int|
                    0 <= i2 < mid.n_insts() && mid.inst_live@[i2] && 0 <= j3 < mid.inst_bbs@[
                    i2]@.len() && (#[trigger] mid.bb_at(i2, j3)).0 != INVALID_IDX implies mid.bb_at(
                    i2,
                    j3,
                ).0 < mid.block_users@.len() && mid.block_users_of(mid.bb_at(i2, j3)).contains(
                    Inst(i2 as usize),
                ) by {
                    assert(i2 != i.0 as int);
                    assert(before.bb_at(i2, j3) == mid.bb_at(i2, j3));
                }
            }
            lemma_ops_same(&before, mid, before.n_insts());
            assert(mid.total_ops() == before.total_ops());
            lemma_live_same(&before, mid, before.n_insts());
            assert(mid.n_live_insts() == before.n_live_insts() + 1);
            assert(mid.wf());
        }
        let ghost mid = *self;
        self.set_inst_operands(i, args, bbs);
        proof {
            assert(self.args_of(i) =~= args@);
            assert(self.bbs_of(i) =~= bbs@);
            assert forall|v: Value, x: Inst| x != i implies self.is_use(v, x) == old(self).is_use(
                v,
                x,
            ) by {
                assert(self.is_use(v, x) == mid.is_use(v, x));
                if old(self).value_in_range(v) {
                    assert(mid.uses_of(v) == old(self).uses_of(v));
                }
                if !old(self).value_in_range(v) && self.value_in_range(v) {
                    assert(mid.uses_of(v).len() == 0);
                    assert(!mid.is_use(v, x));
                }
            }
            assert forall|v: Value| self.is_use(v, i) == (old(self).spec_value_live(v)
                && args@.contains(v)) by {
                assert(self.is_use(v, i) == (mid.spec_value_live(v) && args@.contains(v)));
                if mid.spec_value_live(v) != old(self).spec_value_live(v) {
                    // only the fresh result value changed liveness, and the
                    // operands cannot name it
                    if args@.contains(v) {
                        let j = choose|j: int| 0 <= j < args@.len() && args@[j] == v;
                        assert(old(self).value_ok(args@[j]));
                        assert(false);
                    }
                }
            }
            if ty != Ty::Void {
                let fresh = Value(old(self).n_values() as usize);
                assert forall|y: Inst| !self.uses_of(fresh).contains(y) by {
                    assert(self.is_use(fresh, y) == self.uses_of(fresh).contains(y));
                    if y != i {
                        assert(self.is_use(fresh, y) == mid.is_use(fresh, y));
                        assert(mid.uses_of(fresh).len() == 0);
                    } else {
                        assert(self.is_use(fresh, i) == (mid.spec_value_live(fresh)
                            && args@.contains(fresh)));
                        if args@.contains(fresh) {
                            let j = choose|j: int| 0 <= j < args@.len() && args@[j] == fresh;
                            assert(old(self).value_ok(args@[j]));
                            assert(false);
                        }
                    }
                }
                lemma_seq_no_members_empty(self.uses_of(fresh));
            }
            lemma_live_same(&mid, self, mid.n_insts());
            assert(old_insts_preserved(old(self), self)) by {
                assert forall|x: Inst| #![trigger old(self).inst_in_range(x)]
                    old(self).inst_in_range(x) implies {
                    &&& self.spec_inst_live(x) == old(self).spec_inst_live(x)
                    &&& self.args_of(x) == old(self).args_of(x)
                    &&& self.bbs_of(x) == old(self).bbs_of(x)
                    &&& self.inst_result@[x.0 as int] == old(self).inst_result@[x.0 as int]
                    &&& self.inst_op@[x.0 as int] == old(self).inst_op@[x.0 as int]
                    &&& self.inst_imm@[x.0 as int] == old(self).inst_imm@[x.0 as int]
                    &&& self.inst_ty@[x.0 as int] == old(self).inst_ty@[x.0 as int]
                    &&& self.inst_loc@[x.0 as int] == old(self).inst_loc@[x.0 as int]
                } by {
                    assert(x != i);
                }
            }
            assert(old_values_preserved(old(self), self)) by {
                assert forall|v: Value| #![trigger old(self).value_in_range(v)]
                    old(self).value_in_range(v) implies {
                    &&& self.spec_value_live(v) == old(self).spec_value_live(v)
                    &&& self.value_data@[v.0 as int] == old(self).value_data@[v.0 as int]
                    &&& self.value_name@[v.0 as int] == old(self).value_name@[v.0 as int]
                    &&& self.value_hint@[v.0 as int] == old(self).value_hint@[v.0 as int]
                } by {
                    if ty != Ty::Void {
                        assert(v != Value(old(self).n_values() as usize));
                    }
                }
            }
            assert(uses_registered_for(old(self), self, i, args@)) by {
                assert forall|v: Value| #[trigger] self.is_use(v, i) == (
                old(self).spec_value_live(v) && args@.contains(v)) by {}
                assert forall|v: Value, x: Inst| x != i implies #[trigger] self.is_use(v, x)
                    == old(self).is_use(v, x) by {
                    assert(self.is_use(v, x) == mid.is_use(v, x));
                    if old(self).value_in_range(v) {
                        assert(mid.uses_of(v) == old(self).uses_of(v));
                    }
                    if !old(self).value_in_range(v) && self.value_in_range(v) {
                        assert(mid.uses_of(v).len() == 0);
                        assert(!mid.is_use(v, x));
                    }
                }
            }
            assert(block_users_registered_for(old(self), self, i, bbs@)) by {
                assert forall|b: Block| #[trigger] self.is_block_user(b, i) == (b.0 != INVALID_IDX
                    && bbs@.contains(b)) by {}
                assert forall|b: Block, x: Inst| x != i implies #[trigger] self.is_block_user(b, x)
                    == old(self).is_block_user(b, x) by {
                    assert(self.is_block_user(b, x) == mid.is_block_user(b, x));
                    assert(mid.block_users == old(self).block_users);
                }
            }
        }
        i
    }

    /// Remove an instruction: deregister it from all operand use-lists and
    /// block-user lists, and drop its result value. Callers must first
    /// rewrite any remaining uses of the result.
    #[verifier::rlimit(60)]
    pub fn remove_inst(&mut self, inst: Inst)
        requires
            old(self).wf(),
            old(self).spec_inst_live(inst),
            old(self).inst_result@[inst.0 as int] matches Some(v) ==> old(self).uses_of(v).len()
                == 0,
        ensures
            final(self).wf(),
            final(self).n_insts() == old(self).n_insts(),
            final(self).n_values() == old(self).n_values(),
            !final(self).spec_inst_live(inst),
            forall|x: Inst| x != inst ==> final(self).spec_inst_live(x) == old(self).spec_inst_live(x),
            forall|x: Inst|
                x != inst && old(self).inst_in_range(x) ==> final(self).args_of(x) == old(self).args_of(x) && final(self).bbs_of(x) == old(self).bbs_of(x) && final(self).inst_result@[x.0 as int] == old(self).inst_result@[x.0 as int],
            forall|v: Value|
                final(self).spec_value_live(v) == (old(self).spec_value_live(v) && old(self).inst_result@[inst.0 as int] != Some(v)),
            forall|v: Value, x: Inst|
                x != inst ==> final(self).is_use(v, x) == old(self).is_use(v, x),
            forall|v: Value| !final(self).is_use(v, inst),
            forall|b: Block, x: Inst|
                x != inst ==> final(self).is_block_user(b, x) == old(self).is_block_user(b, x),
            forall|b: Block| !final(self).is_block_user(b, inst),
            forall|v: Value|
                old(self).spec_value_live(v) && old(self).inst_result@[inst.0 as int] != Some(v)
                    ==> final(self).value_data@[v.0 as int] == old(self).value_data@[v.0 as int]
                    && final(self).value_name@[v.0 as int] == old(self).value_name@[v.0 as int]
                    && final(self).value_hint@[v.0 as int] == old(self).value_hint@[v.0 as int],
            final(self).inst_op == old(self).inst_op,
            final(self).inst_ty == old(self).inst_ty,
            final(self).inst_imm == old(self).inst_imm,
            final(self).inst_ext == old(self).inst_ext,
            final(self).inst_loc == old(self).inst_loc,
            final(self).arg_values == old(self).arg_values,
            final(self).ext_units == old(self).ext_units,
            final(self).total_ops() == old(self).total_ops() - old(self).args_of(inst).len() - old(self).bbs_of(inst).len(),
            final(self).n_live_insts() == old(self).n_live_insts() - 1,
    {
        let empty_args: Vec<Value> = Vec::new();
        let empty_bbs: Vec<Block> = Vec::new();
        self.set_inst_operands(inst, empty_args, empty_bbs);
        proof {
            assert forall|v: Value| !self.is_use(v, inst) by {
                assert(self.is_use(v, inst) == (old(self).spec_value_live(v)
                    && empty_args@.contains(v)));
                assert(empty_args@.len() == 0);
            }
            assert forall|b: Block| !self.is_block_user(b, inst) by {
                assert(self.is_block_user(b, inst) == (b.0 != INVALID_IDX && empty_bbs@.contains(
                    b,
                )));
                assert(empty_bbs@.len() == 0);
            }
            match old(self).inst_result@[inst.0 as int] {
                Some(rv) => {
                    assert forall|y: Inst| !self.uses_of(rv).contains(y) by {
                        assert(old(self).spec_value_live(rv));
                        assert(self.is_use(rv, y) == self.uses_of(rv).contains(y));
                        if y != inst {
                            assert(self.is_use(rv, y) == old(self).is_use(rv, y));
                            assert(old(self).uses_of(rv).len() == 0);
                        } else {
                            assert(!self.is_use(rv, inst));
                        }
                    }
                    lemma_seq_no_members_empty(self.uses_of(rv));
                    assert(self.uses_of(rv).len() == 0);
                },
                None => {},
            }
        }
        let ghost mid = *self;
        let res = self.inst_result[inst.0];
        match res {
            Some(v) => {
                self.value_data.set(v.0, ValueData::Invalid);
                self.value_name.set(v.0, None);
                self.value_hint.set(v.0, None);
            },
            None => {},
        }
        self.inst_result.set(inst.0, None);
        self.inst_live.set(inst.0, false);
        proof {
            let fin = self;
            let ghost resv = mid.inst_result@[inst.0 as int];
            // Uses rows are untouched here; their entries never named `inst`
            // after the operand scrub, and the result value had none.
            assert forall|vi: int| 0 <= vi < fin.n_values() implies #[trigger] fin.use_row_wf(
                vi,
            ) by {
                assert(mid.use_row_wf(vi));
                let row = fin.value_uses@[vi]@;
                assert(row == mid.value_uses@[vi]@);
                assert forall|k: int| 0 <= k < row.len() implies fin.spec_inst_live(
                    #[trigger] row[k],
                ) && fin.args_of(row[k]).contains(Value(vi as usize)) by {
                    let y = row[k];
                    assert(mid.spec_inst_live(y));
                    assert(row.contains(y));
                    assert(mid.is_use(Value(vi as usize), y));
                    assert(y != inst);
                }
                if !fin.spec_value_live(Value(vi as usize)) {
                    if mid.spec_value_live(Value(vi as usize)) {
                        assert(resv == Some(Value(vi as usize)));
                        assert(mid.uses_of(Value(vi as usize)).len() == 0);
                    }
                }
            }
            assert(fin.uses_complete()) by {
                assert forall|i2: int, j3: int|
                    0 <= i2 < fin.n_insts() && fin.inst_live@[i2] && 0 <= j3 < fin.inst_args@[
                    i2]@.len() && (#[trigger] fin.arg_at(i2, j3)).0 != INVALID_IDX implies fin.uses_of(
                    fin.arg_at(i2, j3),
                ).contains(Inst(i2 as usize)) by {
                    assert(mid.arg_at(i2, j3) == fin.arg_at(i2, j3));
                    assert(mid.inst_live@[i2]);
                }
            }
            assert(fin.operands_ok()) by {
                assert forall|i2: int, j3: int|
                    0 <= i2 < fin.n_insts() && fin.inst_live@[i2] && 0 <= j3 < fin.inst_args@[
                    i2]@.len() implies fin.value_ok(#[trigger] fin.arg_at(i2, j3)) by {
                    assert(mid.value_ok(mid.arg_at(i2, j3)));
                    let a = mid.arg_at(i2, j3);
                    if a.0 != INVALID_IDX && resv == Some(a) {
                        assert(mid.is_use(a, Inst(i2 as usize)));
                        assert(old(self).is_use(a, Inst(i2 as usize)));
                        assert(old(self).uses_of(a).len() == 0);
                    }
                }
            }
            assert forall|bi: int| 0 <= bi < fin.block_users@.len() implies #[trigger] fin.block_row_wf(
                bi,
            ) by {
                assert(mid.block_row_wf(bi));
                let row = fin.block_users@[bi]@;
                assert forall|k: int| 0 <= k < row.len() implies fin.spec_inst_live(
                    #[trigger] row[k],
                ) && fin.bbs_of(row[k]).contains(Block(bi as usize)) by {
                    let y = row[k];
                    assert(mid.spec_inst_live(y));
                    assert(row.contains(y));
                    assert(mid.is_block_user(Block(bi as usize), y));
                    assert(y != inst);
                }
            }
            assert(fin.block_users_complete()) by {
                assert forall|i2: int, j3: int|
                    0 <= i2 < fin.n_insts() && fin.inst_live@[i2] && 0 <= j3 < fin.inst_bbs@[
                    i2]@.len() && (#[trigger] fin.bb_at(i2, j3)).0 != INVALID_IDX implies fin.bb_at(
                    i2,
                    j3,
                ).0 < fin.block_users@.len() && fin.block_users_of(fin.bb_at(i2, j3)).contains(
                    Inst(i2 as usize),
                ) by {
                    assert(mid.bb_at(i2, j3) == fin.bb_at(i2, j3));
                    assert(mid.inst_live@[i2]);
                }
            }
            assert(fin.results_ok()) by {
                assert forall|i2: int| 0 <= i2 < fin.n_insts() && fin.inst_live@[i2] implies {
                    &&& ((fin.inst_ty@[i2] == Ty::Void) <==> (#[trigger] fin.inst_result@[
                        i2]) is None)
                    &&& (fin.inst_result@[i2] matches Some(v) ==> fin.spec_value_live(v)
                        && fin.value_data@[v.0 as int] == (ValueData::Inst {
                        ty: fin.inst_ty@[i2],
                        inst: Inst(i2 as usize),
                    }))
                } by {
                    assert(i2 != inst.0 as int);
                    assert(mid.inst_live@[i2]);
                    assert(mid.inst_result@[i2] == fin.inst_result@[i2]);
                    match fin.inst_result@[i2] {
                        Some(v) => {
                            assert(mid.spec_value_live(v));
                            assert(mid.value_data@[v.0 as int] == (ValueData::Inst {
                                ty: mid.inst_ty@[i2],
                                inst: Inst(i2 as usize),
                            }));
                            if resv == Some(v) {
                                assert(mid.value_data@[v.0 as int] == (ValueData::Inst {
                                    ty: mid.inst_ty@[inst.0 as int],
                                    inst,
                                }));
                                assert(false);
                            }
                        },
                        None => {},
                    }
                }
            }
            assert(fin.origins_ok()) by {
                assert forall|vi: int| 0 <= vi < fin.n_values() implies match #[trigger] fin.value_data@[vi] {
                    ValueData::Inst { ty, inst: i2 } => fin.spec_inst_live(i2) && fin.inst_ty@[
                        i2.0 as int
                    ] == ty && fin.inst_result@[i2.0 as int] == Some(Value(vi as usize)),
                    ValueData::Arg { ty, arg } => 0 <= arg.0 < fin.arg_values@.len()
                        && fin.arg_values@[arg.0 as int] == Value(vi as usize),
                    ValueData::Placeholder { ty } => true,
                    ValueData::Invalid => true,
                } by {
                    match fin.value_data@[vi] {
                        ValueData::Inst { ty, inst: i2 } => {
                            assert(fin.value_data@[vi] == mid.value_data@[vi]);
                            assert(mid.spec_inst_live(i2));
                            assert(mid.inst_result@[i2.0 as int] == Some(Value(vi as usize)));
                            assert(i2 != inst);
                        },
                        _ => {},
                    }
                }
            }
            assert(fin.args_ok()) by {
                assert forall|k: int| 0 <= k < fin.arg_values@.len() implies {
                    let v = #[trigger] fin.arg_values@[k];
                    &&& fin.spec_value_live(v)
                    &&& (fin.value_data@[v.0 as int] matches ValueData::Arg { ty, arg } && arg.0
                        == k)
                } by {
                    let v = fin.arg_values@[k];
                    assert(mid.spec_value_live(v));
                    assert(mid.value_data@[v.0 as int] matches ValueData::Arg { ty, arg });
                    if resv == Some(v) {
                        assert(mid.value_data@[v.0 as int] matches ValueData::Inst { .. });
                        assert(false);
                    }
                }
            }
            lemma_ops_same(&mid, fin, fin.n_insts());
            lemma_live_except(&mid, fin, fin.n_insts(), inst.0 as int);
            assert(fin.wf());
            assert forall|v: Value| !fin.is_use(v, inst) by {
                if fin.value_in_range(v) {
                    assert(!mid.is_use(v, inst));
                }
            }
            assert forall|b: Block| !fin.is_block_user(b, inst) by {
                assert(fin.block_users_of(b) == mid.block_users_of(b));
                assert(!mid.is_block_user(b, inst));
            }
            assert forall|b: Block, x: Inst| x != inst implies fin.is_block_user(b, x) == old(self).is_block_user(b, x) by {
                assert(fin.block_users_of(b) == mid.block_users_of(b));
                assert(mid.is_block_user(b, x) == old(self).is_block_user(b, x));
            }
            assert forall|v: Value, x: Inst| x != inst implies fin.is_use(v, x) == old(self).is_use(
                v,
                x,
            ) by {
                if fin.value_in_range(v) {
                    assert(mid.is_use(v, x) == old(self).is_use(v, x));
                }
            }
        }
    }
}

/// Counting occurrences in a prefix advances one slot at a time.
pub proof fn lemma_count_val_take_step(s: Seq<Value>, x: Value, j: int)
    requires
        0 <= j < s.len(),
    ensures
        count_val(s.take(j + 1), x) == count_val(s.take(j), x) + if s[j] == x {
            1nat
        } else {
            0nat
        },
{
    assert(s.take(j + 1).drop_last() =~= s.take(j));
    assert(s.take(j + 1).last() == s[j]);
}

/// Counting occurrences in a prefix advances one slot at a time.
pub proof fn lemma_count_blk_take_step(s: Seq<Block>, x: Block, j: int)
    requires
        0 <= j < s.len(),
    ensures
        count_blk(s.take(j + 1), x) == count_blk(s.take(j), x) + if s[j] == x {
            1nat
        } else {
            0nat
        },
{
    assert(s.take(j + 1).drop_last() =~= s.take(j));
    assert(s.take(j + 1).last() == s[j]);
}

impl DataFlowGraph {
    /// Occurrences of value `v` in the operand lists of the live
    /// instructions among the first `n` slots.
    pub open spec fn val_count_upto(&self, v: Value, n: int) -> nat
        decreases n,
    {
        if n <= 0 {
            0
        } else {
            self.val_count_upto(v, n - 1) + if self.inst_live@[n - 1] {
                count_val(self.inst_args@[n - 1]@, v)
            } else {
                0nat
            }
        }
    }

    /// Occurrences of value `v` in the operand lists of all live
    /// instructions.
    pub open spec fn total_val_count(&self, v: Value) -> nat {
        self.val_count_upto(v, self.n_insts())
    }

    /// Occurrences of block `b` in the block-reference lists of the live
    /// instructions among the first `n` slots.
    pub open spec fn blk_count_upto(&self, b: Block, n: int) -> nat
        decreases n,
    {
        if n <= 0 {
            0
        } else {
            self.blk_count_upto(b, n - 1) + if self.inst_live@[n - 1] {
                count_blk(self.inst_bbs@[n - 1]@, b)
            } else {
                0nat
            }
        }
    }

    /// Occurrences of block `b` in the block-reference lists of all live
    /// instructions.
    pub open spec fn total_blk_count(&self, b: Block) -> nat {
        self.blk_count_upto(b, self.n_insts())
    }
}

/// Value occurrences are bounded by the operand-slot count.
pub proof fn lemma_val_count_le_ops(d: &DataFlowGraph, v: Value, n: int)
    requires
        n <= d.inst_args@.len(),
        n <= d.inst_bbs@.len(),
        n <= d.inst_live@.len(),
    ensures
        d.val_count_upto(v, n) <= d.ops_count_upto(n),
    decreases n,
{
    if n > 0 {
        lemma_val_count_le_ops(d, v, n - 1);
        lemma_count_val_le_len(d.inst_args@[n - 1]@, v);
    }
}

/// Block occurrences are bounded by the operand-slot count.
pub proof fn lemma_blk_count_le_ops(d: &DataFlowGraph, b: Block, n: int)
    requires
        n <= d.inst_args@.len(),
        n <= d.inst_bbs@.len(),
        n <= d.inst_live@.len(),
    ensures
        d.blk_count_upto(b, n) <= d.ops_count_upto(n),
    decreases n,
{
    if n > 0 {
        lemma_blk_count_le_ops(d, b, n - 1);
        lemma_count_blk_le_len(d.inst_bbs@[n - 1]@, b);
    }
}

/// The operand-slot count grows with the prefix.
pub proof fn lemma_ops_mono(d: &DataFlowGraph, n: int, m: int)
    requires
        n <= m,
    ensures
        d.ops_count_upto(n) <= d.ops_count_upto(m),
    decreases m - n,
{
    if n < m {
        lemma_ops_mono(d, n, m - 1);
    }
}

impl DataFlowGraph {
    /// Rewrite every occurrence of `from` among the operands of one live
    /// instruction to `to`, returning how many operand slots changed.
    #[verifier::loop_isolation(false)]
    #[verifier::rlimit(60)]
    pub fn replace_value_within_inst(&mut self, from: Value, to: Value, inst: Inst) -> (r: usize)
        requires
            old(self).wf(),
            old(self).spec_inst_live(inst),
            old(self).value_ok(to),
        ensures
            final(self).wf(),
            r == count_val(old(self).args_of(inst), from),
            final(self).args_of(inst).len() == old(self).args_of(inst).len(),
            forall|j: int|
                0 <= j < old(self).args_of(inst).len() ==> final(self).args_of(inst)[j] == (
                if old(self).args_of(inst)[j] == from {
                    to
                } else {
                    old(self).args_of(inst)[j]
                }),
            forall|x: Inst|
                x != inst && old(self).inst_in_range(x) ==> final(self).args_of(x) == old(self).args_of(x),
            forall|x: Inst|
                old(self).inst_in_range(x) ==> final(self).bbs_of(x) == old(self).bbs_of(x),
            Self::same_core(old(self), final(self)),
            forall|v: Value, x: Inst|
                x != inst ==> final(self).is_use(v, x) == old(self).is_use(v, x),
            forall|b: Block, x: Inst|
                final(self).is_block_user(b, x) == old(self).is_block_user(b, x),
            final(self).total_ops() == old(self).total_ops(),
            final(self).n_live_insts() == old(self).n_live_insts(),
    {
        let ii = inst.0;
        let ghost oldrow = self.args_of(inst);
        let n = self.inst_args[ii].len();
        let mut new_args: Vec<Value> = Vec::new();
        let mut c: usize = 0;
        let mut j: usize = 0;
        while j < n
            invariant
                j <= n,
                new_args@.len() == j,
                c <= j,
                c == count_val(oldrow.take(j as int), from),
                forall|m: int|
                    0 <= m < j ==> new_args@[m] == (if oldrow[m] == from {
                        to
                    } else {
                        oldrow[m]
                    }),
            decreases n - j,
        {
            let a = self.inst_args[ii][j];
            proof {
                lemma_count_val_take_step(oldrow, from, j as int);
                lemma_count_val_le_len(oldrow.take(j + 1int), from);
            }
            if a == from {
                new_args.push(to);
                c = c + 1;
            } else {
                new_args.push(a);
            }
            j = j + 1;
        }
        proof {
            assert(oldrow.take(n as int) =~= oldrow);
        }
        let new_bbs = copy_blocks(&self.inst_bbs[ii]);
        proof {
            assert forall|j2: int| 0 <= j2 < new_args@.len() implies old(self).value_ok(
                #[trigger] new_args@[j2],
            ) by {
                if new_args@[j2] != to {
                    assert(old(self).arg_at(ii as int, j2) == new_args@[j2]);
                }
            }
            assert forall|j2: int|
                0 <= j2 < new_bbs@.len() implies (#[trigger] new_bbs@[j2]).0 == INVALID_IDX
                || new_bbs@[j2].0 < MAX_HANDLES by {
                assert(old(self).bb_at(ii as int, j2) == new_bbs@[j2]);
                if new_bbs@[j2].0 != INVALID_IDX {
                    assert(old(self).block_users_complete());
                    assert(new_bbs@[j2].0 < old(self).block_users@.len());
                }
            }
        }
        let ghost pre = *self;
        self.set_inst_operands(inst, new_args, new_bbs);
        proof {
            assert forall|b: Block, x: Inst| self.is_block_user(b, x) == old(self).is_block_user(
                b,
                x,
            ) by {
                if x == inst {
                    if b.0 != INVALID_IDX {
                        assert(self.is_block_user(b, inst) == new_bbs@.contains(b));
                        assert(new_bbs@ == old(self).bbs_of(inst));
                        lemma_block_user_consistency(old(self), b, inst);
                    } else {
                        assert(self.block_users_of(b).len() == 0) by {
                            assert(b.0 >= self.block_users@.len());
                        }
                        assert(old(self).block_users_of(b).len() == 0) by {
                            assert(b.0 >= old(self).block_users@.len());
                        }
                    }
                }
            }
            assert forall|x: Inst|
                old(self).inst_in_range(x) implies self.bbs_of(x) == old(self).bbs_of(x) by {
                if x.0 == ii {
                    assert(self.bbs_of(inst) == new_bbs@);
                }
            }
        }
        c
    }

    /// Whether `v` is a live value.
    pub fn is_value_live(&self, v: Value) -> (r: bool)
        ensures
            r == self.spec_value_live(v),
    {
        v.0 < self.value_data.len() && match self.value_data[v.0] {
            ValueData::Invalid => false,
            _ => true,
        }
    }

    /// Rewrite every occurrence of `from` across all users of `from` to
    /// `to`, returning how many operand slots changed. A value that is not
    /// live has no users, so nothing changes then. Afterwards nothing uses
    /// `from`, and everything that used `from` uses `to`.
    #[verifier::loop_isolation(false)]
    #[verifier::rlimit(60)]
    pub fn replace_use(&mut self, from: Value, to: Value) -> (r: usize)
        requires
            old(self).wf(),
            old(self).value_ok(to),
        ensures
            final(self).wf(),
            old(self).spec_value_live(from) ==> r == old(self).total_val_count(from),
            !old(self).spec_value_live(from) ==> r == 0 && *final(self) == *old(self),
            forall|x: Inst|
                old(self).spec_inst_live(x) ==> final(self).args_of(x).len() == old(self).args_of(
                    x,
                ).len(),
            old(self).spec_value_live(from) ==> forall|x: Inst, j: int|
                old(self).spec_inst_live(x) && 0 <= j < old(self).args_of(x).len() ==> final(self).args_of(x)[j] == (if old(self).args_of(x)[j] == from {
                    to
                } else {
                    old(self).args_of(x)[j]
                }),
            forall|x: Inst|
                old(self).inst_in_range(x) ==> final(self).bbs_of(x) == old(self).bbs_of(x),
            Self::same_core(old(self), final(self)),
            forall|b: Block, x: Inst|
                final(self).is_block_user(b, x) == old(self).is_block_user(b, x),
            from != to && old(self).spec_value_live(from) ==> final(self).uses_of(from).len() == 0,
            from != to && old(self).spec_value_live(to) ==> forall|x: Inst|
                final(self).is_use(to, x) == (old(self).is_use(to, x) || old(self).is_use(
                    from,
                    x,
                )),
            forall|v: Value, x: Inst|
                v != from && v != to ==> final(self).is_use(v, x) == old(self).is_use(v, x),
            final(self).total_ops() == old(self).total_ops(),
            final(self).n_live_insts() == old(self).n_live_insts(),
    {
        if !self.is_value_live(from) {
            proof {
                assert forall|x: Inst| !self.is_use(from, x) by {
                    if self.value_in_range(from) {
                        assert(self.use_row_wf(from.0 as int));
                        assert(self.uses_of(from).len() == 0);
                    }
                }
            }
            return 0;
        }
        let n = self.inst_live.len();
        let mut c: usize = 0;
        let mut ii: usize = 0;
        while ii < n
            invariant
                ii <= n,
                self.wf(),
                self.n_insts() == n,
                c == old(self).val_count_upto(from, ii as int),
                Self::same_core(old(self), self),
                forall|x: Inst|
                    x.0 >= ii && old(self).inst_in_range(x) ==> self.args_of(x) == old(self).args_of(x),
                forall|x: Inst|
                    old(self).spec_inst_live(x) && x.0 < ii ==> self.args_of(x).len() == old(self).args_of(x).len(),
                forall|x: Inst, j: int|
                    old(self).spec_inst_live(x) && x.0 < ii && 0 <= j < old(self).args_of(x).len()
                        ==> self.args_of(x)[j] == (if old(self).args_of(x)[j] == from {
                        to
                    } else {
                        old(self).args_of(x)[j]
                    }),
                forall|x: Inst|
                    old(self).inst_in_range(x) ==> self.bbs_of(x) == old(self).bbs_of(x),
                forall|b: Block, x: Inst|
                    self.is_block_user(b, x) == old(self).is_block_user(b, x),
                self.total_ops() == old(self).total_ops(),
                self.n_live_insts() == old(self).n_live_insts(),
            decreases n - ii,
        {
            proof {
                lemma_val_count_le_ops(old(self), from, ii + 1int);
                lemma_ops_mono(old(self), ii + 1int, n as int);
            }
            if self.inst_live[ii] {
                let c2 = self.replace_value_within_inst(from, to, Inst(ii));
                proof {
                    assert(old(self).val_count_upto(from, ii + 1int) == old(self).val_count_upto(
                        from,
                        ii as int,
                    ) + count_val(old(self).inst_args@[ii as int]@, from));
                }
                c = c + c2;
            } else {
                proof {
                    assert(old(self).val_count_upto(from, ii + 1int) == old(self).val_count_upto(
                        from,
                        ii as int,
                    ));
                }
            }
            ii = ii + 1;
        }
        proof {
            let fin = self;
            if from != to && old(self).spec_value_live(from) {
                assert forall|y: Inst| !fin.uses_of(from).contains(y) by {
                    lemma_use_list_consistency(fin, from, y);
                    if fin.spec_inst_live(y) && fin.args_of(y).contains(from) {
                        let j = choose|j: int|
                            0 <= j < fin.args_of(y).len() && fin.args_of(y)[j] == from;
                        assert(old(self).spec_inst_live(y));
                        assert(fin.args_of(y)[j] == (if old(self).args_of(y)[j] == from {
                            to
                        } else {
                            old(self).args_of(y)[j]
                        }));
                        assert(false);
                    }
                }
                lemma_seq_no_members_empty(fin.uses_of(from));
            }
            if from != to && old(self).spec_value_live(to) {
                assert forall|x: Inst| fin.is_use(to, x) == (old(self).is_use(to, x) || old(self).is_use(from, x)) by {
                    assert(old(self).spec_inst_live(x) == fin.spec_inst_live(x));
                    lemma_use_list_consistency(fin, to, x);
                    lemma_use_list_consistency(old(self), to, x);
                    if old(self).spec_value_live(from) {
                        lemma_use_list_consistency(old(self), from, x);
                    } else {
                        if old(self).value_in_range(from) {
                            assert(old(self).use_row_wf(from.0 as int));
                            assert(old(self).uses_of(from).len() == 0);
                            if old(self).uses_of(from).contains(x) {
                                let k = choose|k: int|
                                    0 <= k < old(self).uses_of(from).len() && old(self).uses_of(
                                        from,
                                    )[k] == x;
                                assert(false);
                            }
                        }
                        assert(!old(self).is_use(from, x));
                    }
                    if fin.spec_inst_live(x) {
                        assert(old(self).spec_inst_live(x));
                        assert(fin.args_of(x).len() == old(self).args_of(x).len());
                        if old(self).args_of(x).contains(to) {
                            let j = choose|j: int|
                                0 <= j < old(self).args_of(x).len() && old(self).args_of(x)[j]
                                    == to;
                            assert(fin.args_of(x)[j] == (if old(self).args_of(x)[j] == from {
                                to
                            } else {
                                old(self).args_of(x)[j]
                            }));
                            assert(fin.args_of(x)[j] == to);
                            assert(fin.args_of(x).contains(to));
                        }
                        if old(self).args_of(x).contains(from) {
                            let j = choose|j: int|
                                0 <= j < old(self).args_of(x).len() && old(self).args_of(x)[j]
                                    == from;
                            assert(fin.args_of(x)[j] == (if old(self).args_of(x)[j] == from {
                                to
                            } else {
                                old(self).args_of(x)[j]
                            }));
                            assert(fin.args_of(x)[j] == to);
                            assert(fin.args_of(x).contains(to));
                        }
                        if fin.args_of(x).contains(to) {
                            let j = choose|j: int|
                                0 <= j < fin.args_of(x).len() && fin.args_of(x)[j] == to;
                            assert(fin.args_of(x)[j] == (if old(self).args_of(x)[j] == from {
                                to
                            } else {
                                old(self).args_of(x)[j]
                            }));
                            assert(old(self).args_of(x)[j] == to || old(self).args_of(x)[j]
                                == from);
                            assert(old(self).args_of(x).contains(to) || old(self).args_of(
                                x,
                            ).contains(from));
                        }
                    }
                }
            }
            assert forall|v: Value, x: Inst| v != from && v != to implies fin.is_use(v, x) == old(self).is_use(v, x) by {
                if fin.spec_value_live(v) {
                    lemma_use_list_consistency(fin, v, x);
                    lemma_use_list_consistency(old(self), v, x);
                    if fin.spec_inst_live(x) {
                        assert(old(self).spec_inst_live(x));
                        assert(fin.args_of(x).len() == old(self).args_of(x).len());
                        if old(self).args_of(x).contains(v) {
                            let j = choose|j: int|
                                0 <= j < old(self).args_of(x).len() && old(self).args_of(x)[j]
                                    == v;
                            assert(fin.args_of(x)[j] == (if old(self).args_of(x)[j] == from {
                                to
                            } else {
                                old(self).args_of(x)[j]
                            }));
                            assert(fin.args_of(x)[j] == v);
                            assert(fin.args_of(x).contains(v));
                        }
                        if fin.args_of(x).contains(v) {
                            let j = choose|j: int|
                                0 <= j < fin.args_of(x).len() && fin.args_of(x)[j] == v;
                            assert(fin.args_of(x)[j] == (if old(self).args_of(x)[j] == from {
                                to
                            } else {
                                old(self).args_of(x)[j]
                            }));
                            assert(old(self).args_of(x)[j] == v);
                            assert(old(self).args_of(x).contains(v));
                        }
                    }
                } else {
                    if fin.value_in_range(v) {
                        assert(fin.use_row_wf(v.0 as int));
                        assert(old(self).use_row_wf(v.0 as int));
                        assert(fin.uses_of(v).len() == 0);
                        assert(old(self).uses_of(v).len() == 0);
                        if fin.uses_of(v).contains(x) {
                            assert(false);
                        }
                        if old(self).uses_of(v).contains(x) {
                            assert(false);
                        }
                    }
                }
            }
        }
        c
    }
}

/// The operands of a phi after dropping every pair whose predecessor label
/// is `b`.
pub open spec fn phi_args_without(args: Seq<Value>, bbs: Seq<Block>, b: Block) -> Seq<Value>
    recommends
        args.len() == bbs.len(),
    decreases bbs.len(),
{
    if bbs.len() == 0 || args.len() != bbs.len() {
        Seq::empty()
    } else if bbs.last() == b {
        phi_args_without(args.drop_last(), bbs.drop_last(), b)
    } else {
        phi_args_without(args.drop_last(), bbs.drop_last(), b).push(args.last())
    }
}

/// The block labels of a phi after dropping every entry equal to `b`.
pub open spec fn blocks_without(bbs: Seq<Block>, b: Block) -> Seq<Block>
    decreases bbs.len(),
{
    if bbs.len() == 0 {
        Seq::empty()
    } else if bbs.last() == b {
        blocks_without(bbs.drop_last(), b)
    } else {
        blocks_without(bbs.drop_last(), b).push(bbs.last())
    }
}

/// Dropping pairs advances one slot at a time, and the two filtered lists
/// stay paired and never keep `b`.
pub proof fn lemma_without_step(args: Seq<Value>, bbs: Seq<Block>, b: Block, j: int)
    requires
        args.len() == bbs.len(),
        0 <= j < bbs.len(),
    ensures
        phi_args_without(args.take(j + 1), bbs.take(j + 1), b) == if bbs[j] == b {
            phi_args_without(args.take(j), bbs.take(j), b)
        } else {
            phi_args_without(args.take(j), bbs.take(j), b).push(args[j])
        },
        blocks_without(bbs.take(j + 1), b) == if bbs[j] == b {
            blocks_without(bbs.take(j), b)
        } else {
            blocks_without(bbs.take(j), b).push(bbs[j])
        },
{
    assert(args.take(j + 1).drop_last() =~= args.take(j));
    assert(bbs.take(j + 1).drop_last() =~= bbs.take(j));
    assert(args.take(j + 1).last() == args[j]);
    assert(bbs.take(j + 1).last() == bbs[j]);
}

/// The filtered lists are no longer than the originals, stay paired, keep
/// only original operands, and drop `b` entirely.
pub proof fn lemma_without_shape(args: Seq<Value>, bbs: Seq<Block>, b: Block)
    requires
        args.len() == bbs.len(),
    ensures
        phi_args_without(args, bbs, b).len() == blocks_without(bbs, b).len(),
        phi_args_without(args, bbs, b).len() <= args.len(),
        !blocks_without(bbs, b).contains(b),
        forall|x: Value|
            phi_args_without(args, bbs, b).contains(x) ==> args.contains(x),
        forall|x: Block|
            blocks_without(bbs, b).contains(x) ==> bbs.contains(x),
    decreases bbs.len(),
{
    if bbs.len() > 0 {
        lemma_without_shape(args.drop_last(), bbs.drop_last(), b);
        let fa = phi_args_without(args, bbs, b);
        let fb = blocks_without(bbs, b);
        let ra = phi_args_without(args.drop_last(), bbs.drop_last(), b);
        let rb = blocks_without(bbs.drop_last(), b);
        assert forall|x: Value| fa.contains(x) implies args.contains(x) by {
            let k = choose|k: int| 0 <= k < fa.len() && fa[k] == x;
            if bbs.last() == b {
                assert(ra[k] == x);
                assert(ra.contains(x));
            } else {
                assert(fa == ra.push(args.last()));
                if k < ra.len() {
                    assert(ra[k] == x);
                    assert(ra.contains(x));
                } else {
                    assert(x == args.last());
                    assert(args[args.len() - 1] == x);
                    assert(args.contains(x));
                }
            }
            if ra.contains(x) {
                assert(args.drop_last().contains(x));
                let m = choose|m: int|
                    0 <= m < args.drop_last().len() && args.drop_last()[m] == x;
                assert(args.drop_last()[m] == args[m]);
                assert(args.contains(x));
            }
        }
        assert forall|x: Block| fb.contains(x) implies bbs.contains(x) by {
            let k = choose|k: int| 0 <= k < fb.len() && fb[k] == x;
            if bbs.last() == b {
                assert(rb[k] == x);
                assert(rb.contains(x));
            } else {
                assert(fb == rb.push(bbs.last()));
                if k < rb.len() {
                    assert(rb[k] == x);
                    assert(rb.contains(x));
                } else {
                    assert(x == bbs.last());
                    assert(bbs[bbs.len() - 1] == x);
                    assert(bbs.contains(x));
                }
            }
            if rb.contains(x) {
                assert(bbs.drop_last().contains(x));
                let m = choose|m: int| 0 <= m < bbs.drop_last().len() && bbs.drop_last()[m] == x;
                assert(bbs.drop_last()[m] == bbs[m]);
                assert(bbs.contains(x));
            }
        }
        if fb.contains(b) {
            let k = choose|k: int| 0 <= k < fb.len() && fb[k] == b;
            if bbs.last() == b {
                assert(rb[k] == b);
                assert(rb.contains(b));
            } else {
                assert(fb == rb.push(bbs.last()));
                if k < rb.len() {
                    assert(rb[k] == b);
                    assert(rb.contains(b));
                } else {
                    assert(fb[k] == bbs.last());
                }
            }
            assert(false);
        }
    }
}

impl DataFlowGraph {
    /// Remove every reference to `block` from one live instruction. For a
    /// phi this drops the predecessor entries for `block` together with
    /// their paired operands; for any other instruction the references are
    /// replaced with the invalid-block sentinel. Returns how many references
    /// went away.
    #[verifier::loop_isolation(false)]
    #[verifier::rlimit(60)]
    pub fn remove_block_from_inst(&mut self, block: Block, inst: Inst) -> (r: usize)
        requires
            old(self).wf(),
            old(self).spec_inst_live(inst),
        ensures
            final(self).wf(),
            r == count_blk(old(self).bbs_of(inst), block),
            block.0 != INVALID_IDX ==> !final(self).bbs_of(inst).contains(block),
            old(self).inst_op@[inst.0 as int] == Opcode::Phi ==> final(self).args_of(inst)
                == phi_args_without(old(self).args_of(inst), old(self).bbs_of(inst), block)
                && final(self).bbs_of(inst) == blocks_without(old(self).bbs_of(inst), block),
            old(self).inst_op@[inst.0 as int] != Opcode::Phi ==> final(self).args_of(inst) == old(self).args_of(inst) && final(self).bbs_of(inst).len() == old(self).bbs_of(inst).len()
                && (forall|j: int|
                0 <= j < old(self).bbs_of(inst).len() ==> final(self).bbs_of(inst)[j] == (if old(self).bbs_of(inst)[j] == block {
                    Block(INVALID_IDX)
                } else {
                    old(self).bbs_of(inst)[j]
                })),
            forall|x: Inst|
                x != inst && old(self).inst_in_range(x) ==> final(self).args_of(x) == old(self).args_of(x) && final(self).bbs_of(x) == old(self).bbs_of(x),
            Self::same_core(old(self), final(self)),
            forall|v: Value, x: Inst|
                x != inst ==> final(self).is_use(v, x) == old(self).is_use(v, x),
            forall|v: Value|
                final(self).is_use(v, inst) == (old(self).spec_value_live(v) && final(self).args_of(
                    inst,
                ).contains(v)),
            forall|b2: Block, x: Inst|
                x != inst ==> final(self).is_block_user(b2, x) == old(self).is_block_user(b2, x),
            forall|b2: Block|
                final(self).is_block_user(b2, inst) == (b2.0 != INVALID_IDX && final(self).bbs_of(
                    inst,
                ).contains(b2)),
            final(self).total_ops() <= old(self).total_ops(),
            final(self).n_live_insts() == old(self).n_live_insts(),
    {
        let ii = inst.0;
        let ghost oldargs = self.args_of(inst);
        let ghost oldbbs = self.bbs_of(inst);
        let is_phi = match self.inst_op[ii] {
            Opcode::Phi => true,
            _ => false,
        };
        let n = self.inst_bbs[ii].len();
        let mut c: usize = 0;
        let mut new_args: Vec<Value> = Vec::new();
        let mut new_bbs: Vec<Block> = Vec::new();
        if is_phi {
            let mut j: usize = 0;
            while j < n
                invariant
                    j <= n,
                    c <= j,
                    c == count_blk(oldbbs.take(j as int), block),
                    oldargs.len() == oldbbs.len(),
                    new_args@ == phi_args_without(
                        oldargs.take(j as int),
                        oldbbs.take(j as int),
                        block,
                    ),
                    new_bbs@ == blocks_without(oldbbs.take(j as int), block),
                    new_args@.len() == new_bbs@.len(),
                    new_args@.len() <= j,
                decreases n - j,
            {
                let a = self.inst_args[ii][j];
                let b = self.inst_bbs[ii][j];
                proof {
                    lemma_count_blk_take_step(oldbbs, block, j as int);
                    lemma_count_blk_le_len(oldbbs.take(j + 1int), block);
                    lemma_without_step(oldargs, oldbbs, block, j as int);
                    assert(oldargs.take(j as int).len() == oldbbs.take(j as int).len());
                }
                if b == block {
                    c = c + 1;
                } else {
                    new_args.push(a);
                    new_bbs.push(b);
                }
                j = j + 1;
            }
            proof {
                assert(oldbbs.take(n as int) =~= oldbbs);
                assert(oldargs.take(n as int) =~= oldargs);
            }
        } else {
            new_args = copy_values(&self.inst_args[ii]);
            let mut j: usize = 0;
            while j < n
                invariant
                    j <= n,
                    c <= j,
                    c == count_blk(oldbbs.take(j as int), block),
                    new_bbs@.len() == j,
                    forall|m: int|
                        0 <= m < j ==> new_bbs@[m] == (if oldbbs[m] == block {
                            Block(INVALID_IDX)
                        } else {
                            oldbbs[m]
                        }),
                decreases n - j,
            {
                let b = self.inst_bbs[ii][j];
                proof {
                    lemma_count_blk_take_step(oldbbs, block, j as int);
                    lemma_count_blk_le_len(oldbbs.take(j + 1int), block);
                }
                if b == block {
                    new_bbs.push(Block(INVALID_IDX));
                    c = c + 1;
                } else {
                    new_bbs.push(b);
                }
                j = j + 1;
            }
            proof {
                assert(oldbbs.take(n as int) =~= oldbbs);
            }
        }
        proof {
            if is_phi {
                lemma_without_shape(oldargs, oldbbs, block);
            }
            assert forall|j2: int| 0 <= j2 < new_args@.len() implies old(self).value_ok(
                #[trigger] new_args@[j2],
            ) by {
                if is_phi {
                    assert(new_args@.contains(new_args@[j2]));
                    assert(oldargs.contains(new_args@[j2]));
                    let m = choose|m: int| 0 <= m < oldargs.len() && oldargs[m] == new_args@[j2];
                    assert(old(self).arg_at(ii as int, m) == new_args@[j2]);
                } else {
                    assert(old(self).arg_at(ii as int, j2) == new_args@[j2]);
                }
            }
            assert forall|j2: int|
                0 <= j2 < new_bbs@.len() implies (#[trigger] new_bbs@[j2]).0 == INVALID_IDX
                || new_bbs@[j2].0 < MAX_HANDLES by {
                if is_phi {
                    assert(new_bbs@.contains(new_bbs@[j2]));
                    assert(oldbbs.contains(new_bbs@[j2]));
                    let m = choose|m: int| 0 <= m < oldbbs.len() && oldbbs[m] == new_bbs@[j2];
                    assert(old(self).bb_at(ii as int, m) == new_bbs@[j2]);
                    if new_bbs@[j2].0 != INVALID_IDX {
                        assert(new_bbs@[j2].0 < old(self).block_users@.len());
                    }
                } else {
                    if new_bbs@[j2] != Block(INVALID_IDX) {
                        assert(old(self).bb_at(ii as int, j2) == new_bbs@[j2]);
                        if new_bbs@[j2].0 != INVALID_IDX {
                            assert(new_bbs@[j2].0 < old(self).block_users@.len());
                        }
                    }
                }
            }
        }
        let ghost gargs = new_args@;
        let ghost gbbs = new_bbs@;
        self.set_inst_operands(inst, new_args, new_bbs);
        proof {
            assert(self.args_of(inst) == gargs);
            assert(self.bbs_of(inst) == gbbs);
            if block.0 != INVALID_IDX && self.bbs_of(inst).contains(block) {
                let k = choose|k: int| 0 <= k < gbbs.len() && gbbs[k] == block;
                if !is_phi {
                    assert(gbbs[k] == (if oldbbs[k] == block {
                        Block(INVALID_IDX)
                    } else {
                        oldbbs[k]
                    }));
                    assert(false);
                }
            }
            assert forall|v: Value| self.is_use(v, inst) == (old(self).spec_value_live(v)
                && self.args_of(inst).contains(v)) by {
                assert(self.is_use(v, inst) == (old(self).spec_value_live(v) && gargs.contains(
                    v,
                )));
            }
            assert forall|b2: Block| self.is_block_user(b2, inst) == (b2.0 != INVALID_IDX
                && self.bbs_of(inst).contains(b2)) by {
                assert(self.is_block_user(b2, inst) == (b2.0 != INVALID_IDX && gbbs.contains(
                    b2,
                )));
            }
        }
        c
    }

    /// Remove every reference to `block` across all live instructions,
    /// replacing plain references with the invalid-block sentinel and
    /// dropping phi predecessor entries together with their paired operands.
    /// Returns how many references went away.
    #[verifier::loop_isolation(false)]
    #[verifier::rlimit(60)]
    pub fn remove_block_use(&mut self, block: Block) -> (r: usize)
        requires
            old(self).wf(),
        ensures
            final(self).wf(),
            r == old(self).total_blk_count(block),
            forall|x: Inst|
                old(self).spec_inst_live(x) && old(self).inst_op@[x.0 as int] == Opcode::Phi
                    ==> final(self).args_of(x) == phi_args_without(
                    old(self).args_of(x),
                    old(self).bbs_of(x),
                    block,
                ) && final(self).bbs_of(x) == blocks_without(old(self).bbs_of(x), block),
            forall|x: Inst|
                old(self).spec_inst_live(x) && old(self).inst_op@[x.0 as int] != Opcode::Phi
                    ==> final(self).args_of(x) == old(self).args_of(x) && final(self).bbs_of(
                    x,
                ).len() == old(self).bbs_of(x).len() && (forall|j: int|
                    0 <= j < old(self).bbs_of(x).len() ==> final(self).bbs_of(x)[j] == (if old(self).bbs_of(x)[j] == block {
                        Block(INVALID_IDX)
                    } else {
                        old(self).bbs_of(x)[j]
                    })),
            block.0 != INVALID_IDX ==> forall|x: Inst|
                old(self).spec_inst_live(x) ==> !final(self).bbs_of(x).contains(block),
            block.0 != INVALID_IDX ==> final(self).block_users_of(block).len() == 0,
            Self::same_core(old(self), final(self)),
            final(self).total_ops() <= old(self).total_ops(),
            final(self).n_live_insts() == old(self).n_live_insts(),
    {
        let n = self.inst_live.len();
        let mut c: usize = 0;
        let mut ii: usize = 0;
        while ii < n
            invariant
                ii <= n,
                self.wf(),
                self.n_insts() == n,
                c == old(self).blk_count_upto(block, ii as int),
                Self::same_core(old(self), self),
                forall|x: Inst|
                    x.0 >= ii && old(self).inst_in_range(x) ==> self.args_of(x) == old(self).args_of(x) && self.bbs_of(x) == old(self).bbs_of(x),
                forall|x: Inst|
                    old(self).spec_inst_live(x) && x.0 < ii && old(self).inst_op@[x.0 as int]
                        == Opcode::Phi ==> self.args_of(x) == phi_args_without(
                        old(self).args_of(x),
                        old(self).bbs_of(x),
                        block,
                    ) && self.bbs_of(x) == blocks_without(old(self).bbs_of(x), block),
                forall|x: Inst|
                    old(self).spec_inst_live(x) && x.0 < ii && old(self).inst_op@[x.0 as int]
                        != Opcode::Phi ==> self.args_of(x) == old(self).args_of(x) && self.bbs_of(
                        x,
                    ).len() == old(self).bbs_of(x).len() && (forall|j: int|
                        0 <= j < old(self).bbs_of(x).len() ==> self.bbs_of(x)[j] == (if old(self).bbs_of(x)[j] == block {
                            Block(INVALID_IDX)
                        } else {
                            old(self).bbs_of(x)[j]
                        })),
                block.0 != INVALID_IDX ==> forall|x: Inst|
                    old(self).spec_inst_live(x) && x.0 < ii ==> !self.bbs_of(x).contains(block),
                self.total_ops() <= old(self).total_ops(),
                self.n_live_insts() == old(self).n_live_insts(),
            decreases n - ii,
        {
            proof {
                lemma_blk_count_le_ops(old(self), block, ii + 1int);
                lemma_ops_mono(old(self), ii + 1int, n as int);
            }
            if self.inst_live[ii] {
                let c2 = self.remove_block_from_inst(block, Inst(ii));
                proof {
                    assert(old(self).blk_count_upto(block, ii + 1int) == old(self).blk_count_upto(
                        block,
                        ii as int,
                    ) + count_blk(old(self).inst_bbs@[ii as int]@, block));
                }
                c = c + c2;
            } else {
                proof {
                    assert(old(self).blk_count_upto(block, ii + 1int) == old(self).blk_count_upto(
                        block,
                        ii as int,
                    ));
                }
            }
            ii = ii + 1;
        }
        proof {
            if block.0 != INVALID_IDX {
                assert forall|y: Inst| !self.block_users_of(block).contains(y) by {
                    lemma_block_user_consistency(self, block, y);
                    if self.spec_inst_live(y) && self.bbs_of(y).contains(block) {
                        assert(old(self).spec_inst_live(y));
                    }
                }
                lemma_seq_no_members_empty(self.block_users_of(block));
            }
        }
        c
    }
}

impl DataFlowGraph {
    /// Rewrite every reference to block `from` within one live instruction
    /// to `to`, returning how many references changed. For a phi the
    /// predecessor labels are rewritten in place, so the pairing with the
    /// operands is kept.
    #[verifier::loop_isolation(false)]
    #[verifier::rlimit(60)]
    pub fn replace_block_within_inst(&mut self, from: Block, to: Block, inst: Inst) -> (r: usize)
        requires
            old(self).wf(),
            old(self).spec_inst_live(inst),
            to.0 == INVALID_IDX || to.0 < MAX_HANDLES,
        ensures
            final(self).wf(),
            r == count_blk(old(self).bbs_of(inst), from),
            final(self).bbs_of(inst).len() == old(self).bbs_of(inst).len(),
            forall|j: int|
                0 <= j < old(self).bbs_of(inst).len() ==> final(self).bbs_of(inst)[j] == (if old(self).bbs_of(inst)[j] == from {
                    to
                } else {
                    old(self).bbs_of(inst)[j]
                }),
            forall|x: Inst|
                x != inst && old(self).inst_in_range(x) ==> final(self).bbs_of(x) == old(self).bbs_of(x),
            forall|x: Inst|
                old(self).inst_in_range(x) ==> final(self).args_of(x) == old(self).args_of(x),
            Self::same_core(old(self), final(self)),
            forall|v: Value, x: Inst| final(self).is_use(v, x) == old(self).is_use(v, x),
            forall|b2: Block, x: Inst|
                x != inst ==> final(self).is_block_user(b2, x) == old(self).is_block_user(b2, x),
            forall|b2: Block|
                final(self).is_block_user(b2, inst) == (b2.0 != INVALID_IDX && final(self).bbs_of(
                    inst,
                ).contains(b2)),
            final(self).total_ops() == old(self).total_ops(),
            final(self).n_live_insts() == old(self).n_live_insts(),
    {
        let ii = inst.0;
        let ghost oldrow = self.bbs_of(inst);
        let n = self.inst_bbs[ii].len();
        let mut new_bbs: Vec<Block> = Vec::new();
        let mut c: usize = 0;
        let mut j: usize = 0;
        while j < n
            invariant
                j <= n,
                new_bbs@.len() == j,
                c <= j,
                c == count_blk(oldrow.take(j as int), from),
                forall|m: int|
                    0 <= m < j ==> new_bbs@[m] == (if oldrow[m] == from {
                        to
                    } else {
                        oldrow[m]
                    }),
            decreases n - j,
        {
            let b = self.inst_bbs[ii][j];
            proof {
                lemma_count_blk_take_step(oldrow, from, j as int);
                lemma_count_blk_le_len(oldrow.take(j + 1int), from);
            }
            if b == from {
                new_bbs.push(to);
                c = c + 1;
            } else {
                new_bbs.push(b);
            }
            j = j + 1;
        }
        proof {
            assert(oldrow.take(n as int) =~= oldrow);
        }
        let new_args = copy_values(&self.inst_args[ii]);
        proof {
            assert forall|j2: int| 0 <= j2 < new_args@.len() implies old(self).value_ok(
                #[trigger] new_args@[j2],
            ) by {
                assert(old(self).arg_at(ii as int, j2) == new_args@[j2]);
            }
            assert forall|j2: int|
                0 <= j2 < new_bbs@.len() implies (#[trigger] new_bbs@[j2]).0 == INVALID_IDX
                || new_bbs@[j2].0 < MAX_HANDLES by {
                if new_bbs@[j2] != to {
                    assert(old(self).bb_at(ii as int, j2) == new_bbs@[j2]);
                    if new_bbs@[j2].0 != INVALID_IDX {
                        assert(new_bbs@[j2].0 < old(self).block_users@.len());
                    }
                }
            }
        }
        let ghost gargs = new_args@;
        let ghost gbbs = new_bbs@;
        self.set_inst_operands(inst, new_args, new_bbs);
        proof {
            assert forall|v: Value, x: Inst| self.is_use(v, x) == old(self).is_use(v, x) by {
                if x == inst {
                    assert(self.is_use(v, inst) == (old(self).spec_value_live(v) && gargs.contains(
                        v,
                    )));
                    assert(gargs == old(self).args_of(inst));
                    if old(self).spec_value_live(v) {
                        lemma_use_list_consistency(old(self), v, inst);
                    } else {
                        if old(self).value_in_range(v) {
                            assert(old(self).use_row_wf(v.0 as int));
                            assert(old(self).uses_of(v).len() == 0);
                        }
                        assert(!old(self).is_use(v, inst));
                    }
                }
            }
            assert forall|b2: Block| self.is_block_user(b2, inst) == (b2.0 != INVALID_IDX
                && self.bbs_of(inst).contains(b2)) by {
                assert(self.is_block_user(b2, inst) == (b2.0 != INVALID_IDX && gbbs.contains(b2)));
            }
        }
        c
    }

    /// Rewrite every reference to block `from` across all live instructions
    /// to `to`, returning how many references changed.
    #[verifier::loop_isolation(false)]
    #[verifier::rlimit(60)]
    pub fn replace_block_use(&mut self, from: Block, to: Block) -> (r: usize)
        requires
            old(self).wf(),
            to.0 == INVALID_IDX || to.0 < MAX_HANDLES,
        ensures
            final(self).wf(),
            from.0 != INVALID_IDX ==> r == old(self).total_blk_count(from),
            from.0 == INVALID_IDX ==> r == 0 && *final(self) == *old(self),
            from.0 != INVALID_IDX ==> forall|x: Inst|
                old(self).spec_inst_live(x) ==> final(self).bbs_of(x).len() == old(self).bbs_of(
                    x,
                ).len() && (forall|j: int|
                    0 <= j < old(self).bbs_of(x).len() ==> final(self).bbs_of(x)[j] == (if old(self).bbs_of(x)[j] == from {
                        to
                    } else {
                        old(self).bbs_of(x)[j]
                    })),
            forall|x: Inst|
                old(self).inst_in_range(x) ==> final(self).args_of(x) == old(self).args_of(x),
            Self::same_core(old(self), final(self)),
            forall|v: Value, x: Inst| final(self).is_use(v, x) == old(self).is_use(v, x),
            from != to && from.0 != INVALID_IDX ==> final(self).block_users_of(from).len() == 0,
            final(self).total_ops() == old(self).total_ops(),
            final(self).n_live_insts() == old(self).n_live_insts(),
    {
        if from.0 == INVALID_IDX {
            return 0;
        }
        let n = self.inst_live.len();
        let mut c: usize = 0;
        let mut ii: usize = 0;
        while ii < n
            invariant
                ii <= n,
                self.wf(),
                self.n_insts() == n,
                c == old(self).blk_count_upto(from, ii as int),
                Self::same_core(old(self), self),
                forall|x: Inst|
                    x.0 >= ii && old(self).inst_in_range(x) ==> self.bbs_of(x) == old(self).bbs_of(
                        x,
                    ),
                forall|x: Inst|
                    old(self).spec_inst_live(x) && x.0 < ii ==> self.bbs_of(x).len() == old(self).bbs_of(x).len() && (forall|j: int|
                        0 <= j < old(self).bbs_of(x).len() ==> self.bbs_of(x)[j] == (if old(self).bbs_of(x)[j] == from {
                            to
                        } else {
                            old(self).bbs_of(x)[j]
                        })),
                forall|x: Inst|
                    old(self).inst_in_range(x) ==> self.args_of(x) == old(self).args_of(x),
                forall|v: Value, x: Inst| self.is_use(v, x) == old(self).is_use(v, x),
                self.total_ops() == old(self).total_ops(),
                self.n_live_insts() == old(self).n_live_insts(),
            decreases n - ii,
        {
            proof {
                lemma_blk_count_le_ops(old(self), from, ii + 1int);
                lemma_ops_mono(old(self), ii + 1int, n as int);
            }
            if self.inst_live[ii] {
                let c2 = self.replace_block_within_inst(from, to, Inst(ii));
                proof {
                    assert(old(self).blk_count_upto(from, ii + 1int) == old(self).blk_count_upto(
                        from,
                        ii as int,
                    ) + count_blk(old(self).inst_bbs@[ii as int]@, from));
                }
                c = c + c2;
            } else {
                proof {
                    assert(old(self).blk_count_upto(from, ii + 1int) == old(self).blk_count_upto(
                        from,
                        ii as int,
                    ));
                }
            }
            ii = ii + 1;
        }
        proof {
            if from != to {
                assert forall|y: Inst| !self.block_users_of(from).contains(y) by {
                    lemma_block_user_consistency(self, from, y);
                    if self.spec_inst_live(y) && self.bbs_of(y).contains(from) {
                        assert(old(self).spec_inst_live(y));
                        let j = choose|j: int|
                            0 <= j < self.bbs_of(y).len() && self.bbs_of(y)[j] == from;
                        assert(self.bbs_of(y)[j] == (if old(self).bbs_of(y)[j] == from {
                            to
                        } else {
                            old(self).bbs_of(y)[j]
                        }));
                        assert(false);
                    }
                }
                lemma_seq_no_members_empty(self.block_users_of(from));
            }
        }
        c
    }

    /// Add a placeholder value for a forward reference; it must be retired
    /// with `remove_placeholder` once resolved.
    pub fn add_placeholder(&mut self, ty: Ty) -> (v: Value)
        requires
            old(self).wf(),
            old(self).n_values() < MAX_HANDLES,
        ensures
            final(self).wf(),
            v.0 == old(self).n_values(),
            final(self).n_values() == old(self).n_values() + 1,
            final(self).spec_value_live(v),
            final(self).value_data@[v.0 as int] == (ValueData::Placeholder { ty }),
            final(self).uses_of(v).len() == 0,
            forall|w: Value| w != v ==> final(self).spec_value_live(w) == old(self).spec_value_live(w),
            forall|w: Value|
                old(self).value_in_range(w) ==> final(self).value_data@[w.0 as int] == old(self).value_data@[w.0 as int] && final(self).value_name@[w.0 as int] == old(self).value_name@[w.0 as int] && final(self).value_hint@[w.0 as int] == old(self).value_hint@[w.0 as int] && final(self).uses_of(w) == old(self).uses_of(w),
            final(self).inst_live == old(self).inst_live,
            final(self).inst_op == old(self).inst_op,
            final(self).inst_args == old(self).inst_args,
            final(self).inst_bbs == old(self).inst_bbs,
            final(self).inst_imm == old(self).inst_imm,
            final(self).inst_ext == old(self).inst_ext,
            final(self).inst_ty == old(self).inst_ty,
            final(self).inst_result == old(self).inst_result,
            final(self).inst_loc == old(self).inst_loc,
            final(self).block_users == old(self).block_users,
            final(self).arg_values == old(self).arg_values,
            final(self).ext_units == old(self).ext_units,
            final(self).total_ops() == old(self).total_ops(),
            final(self).n_live_insts() == old(self).n_live_insts(),
    {
        let v = Value(self.value_data.len());
        self.value_data.push(ValueData::Placeholder { ty });
        self.value_uses.push(Vec::new());
        self.value_name.push(None);
        self.value_hint.push(None);
        proof {
            let fin = self;
            assert forall|vi: int| 0 <= vi < fin.n_values() implies #[trigger] fin.use_row_wf(
                vi,
            ) by {
                if vi < old(self).n_values() {
                    assert(old(self).use_row_wf(vi));
                    assert(fin.value_uses@[vi] == old(self).value_uses@[vi]);
                }
            }
            assert(fin.uses_complete()) by {
                assert forall|i2: int, j3: int|
                    0 <= i2 < fin.n_insts() && fin.inst_live@[i2] && 0 <= j3 < fin.inst_args@[
                    i2]@.len() && (#[trigger] fin.arg_at(i2, j3)).0 != INVALID_IDX implies fin.uses_of(
                    fin.arg_at(i2, j3),
                ).contains(Inst(i2 as usize)) by {
                    assert(old(self).arg_at(i2, j3) == fin.arg_at(i2, j3));
                    assert(old(self).uses_of(old(self).arg_at(i2, j3)).contains(Inst(i2 as usize)));
                    assert(old(self).value_ok(old(self).arg_at(i2, j3)));
                }
            }
            assert(fin.operands_ok()) by {
                assert forall|i2: int, j3: int|
                    0 <= i2 < fin.n_insts() && fin.inst_live@[i2] && 0 <= j3 < fin.inst_args@[
                    i2]@.len() implies fin.value_ok(#[trigger] fin.arg_at(i2, j3)) by {
                    assert(old(self).value_ok(old(self).arg_at(i2, j3)));
                }
            }
            assert forall|bi: int|
                0 <= bi < fin.block_users@.len() implies #[trigger] fin.block_row_wf(bi) by {
                assert(old(self).block_row_wf(bi));
                assert(fin.block_users@[bi] == old(self).block_users@[bi]);
            }
            assert(fin.block_users_complete()) by {
                assert forall|i2: int, j3: int|
                    0 <= i2 < fin.n_insts() && fin.inst_live@[i2] && 0 <= j3 < fin.inst_bbs@[
                    i2]@.len() && (#[trigger] fin.bb_at(i2, j3)).0 != INVALID_IDX implies fin.bb_at(
                    i2,
                    j3,
                ).0 < fin.block_users@.len() && fin.block_users_of(fin.bb_at(i2, j3)).contains(
                    Inst(i2 as usize),
                ) by {
                    assert(fin.bb_at(i2, j3) == old(self).bb_at(i2, j3));
                }
            }
            assert(fin.results_ok()) by {
                assert forall|i2: int| 0 <= i2 < fin.n_insts() && fin.inst_live@[i2] implies {
                    &&& ((fin.inst_ty@[i2] == Ty::Void) <==> (#[trigger] fin.inst_result@[
                        i2]) is None)
                    &&& (fin.inst_result@[i2] matches Some(w) ==> fin.spec_value_live(w)
                        && fin.value_data@[w.0 as int] == (ValueData::Inst {
                        ty: fin.inst_ty@[i2],
                        inst: Inst(i2 as usize),
                    }))
                } by {
                    match fin.inst_result@[i2] {
                        Some(w) => {
                            assert(old(self).spec_value_live(w));
                        },
                        None => {},
                    }
                }
            }
            lemma_ops_same(old(self), fin, fin.n_insts());
            lemma_live_same(old(self), fin, fin.n_insts());
        }
        v
    }

    /// Whether a value is a placeholder.
    pub fn is_placeholder(&self, v: Value) -> (r: bool)
        ensures
            r == (self.value_in_range(v) && self.value_data@[v.0 as int] matches
                ValueData::Placeholder { .. }),
    {
        v.0 < self.value_data.len() && match self.value_data[v.0] {
            ValueData::Placeholder { .. } => true,
            _ => false,
        }
    }

    /// Retire a placeholder value. It must have no remaining uses: callers
    /// rewrite its uses to the resolved value first.
    pub fn remove_placeholder(&mut self, v: Value)
        requires
            old(self).wf(),
            old(self).value_in_range(v),
            old(self).value_data@[v.0 as int] matches ValueData::Placeholder { .. },
            old(self).uses_of(v).len() == 0,
        ensures
            final(self).wf(),
            final(self).n_values() == old(self).n_values(),
            !final(self).spec_value_live(v),
            forall|w: Value| w != v ==> final(self).spec_value_live(w) == old(self).spec_value_live(w),
            forall|w: Value, x: Inst| w != v ==> final(self).is_use(w, x) == old(self).is_use(w, x),
            forall|w: Value|
                old(self).value_in_range(w) && w != v ==> final(self).value_data@[w.0 as int]
                    == old(self).value_data@[w.0 as int] && final(self).value_name@[w.0 as int]
                    == old(self).value_name@[w.0 as int] && final(self).value_hint@[w.0 as int]
                    == old(self).value_hint@[w.0 as int],
            final(self).inst_live == old(self).inst_live,
            final(self).inst_op == old(self).inst_op,
            final(self).inst_args == old(self).inst_args,
            final(self).inst_bbs == old(self).inst_bbs,
            final(self).inst_ty == old(self).inst_ty,
            final(self).inst_result == old(self).inst_result,
            final(self).block_users == old(self).block_users,
            final(self).arg_values == old(self).arg_values,
            final(self).ext_units == old(self).ext_units,
            final(self).total_ops() == old(self).total_ops(),
            final(self).n_live_insts() == old(self).n_live_insts(),
    {
        self.value_data.set(v.0, ValueData::Invalid);
        self.value_name.set(v.0, None);
        self.value_hint.set(v.0, None);
        proof {
            let fin = self;
            assert forall|vi: int| 0 <= vi < fin.n_values() implies #[trigger] fin.use_row_wf(
                vi,
            ) by {
                assert(old(self).use_row_wf(vi));
                assert(fin.value_uses@[vi] == old(self).value_uses@[vi]);
            }
            assert(fin.operands_ok()) by {
                assert forall|i2: int, j3: int|
                    0 <= i2 < fin.n_insts() && fin.inst_live@[i2] && 0 <= j3 < fin.inst_args@[
                    i2]@.len() implies fin.value_ok(#[trigger] fin.arg_at(i2, j3)) by {
                    let a = fin.arg_at(i2, j3);
                    assert(a == old(self).arg_at(i2, j3));
                    assert(old(self).value_ok(old(self).arg_at(i2, j3)));
                    if a == v {
                        assert(old(self).uses_of(old(self).arg_at(i2, j3)).contains(
                            Inst(i2 as usize),
                        ));
                        assert(false);
                    }
                }
            }
            assert(fin.uses_complete()) by {
                assert forall|i2: int, j3: int|
                    0 <= i2 < fin.n_insts() && fin.inst_live@[i2] && 0 <= j3 < fin.inst_args@[
                    i2]@.len() && (#[trigger] fin.arg_at(i2, j3)).0 != INVALID_IDX implies fin.uses_of(
                    fin.arg_at(i2, j3),
                ).contains(Inst(i2 as usize)) by {
                    assert(fin.arg_at(i2, j3) == old(self).arg_at(i2, j3));
                    assert(old(self).uses_of(old(self).arg_at(i2, j3)).contains(Inst(i2 as usize)));
                }
            }
            assert forall|bi: int|
                0 <= bi < fin.block_users@.len() implies #[trigger] fin.block_row_wf(bi) by {
                assert(old(self).block_row_wf(bi));
                assert(fin.block_users@[bi] == old(self).block_users@[bi]);
            }
            assert(fin.block_users_complete()) by {
                assert forall|i2: int, j3: int|
                    0 <= i2 < fin.n_insts() && fin.inst_live@[i2] && 0 <= j3 < fin.inst_bbs@[
                    i2]@.len() && (#[trigger] fin.bb_at(i2, j3)).0 != INVALID_IDX implies fin.bb_at(
                    i2,
                    j3,
                ).0 < fin.block_users@.len() && fin.block_users_of(fin.bb_at(i2, j3)).contains(
                    Inst(i2 as usize),
                ) by {
                    assert(fin.bb_at(i2, j3) == old(self).bb_at(i2, j3));
                }
            }
            assert(fin.origins_ok()) by {
                assert forall|vi: int| 0 <= vi < fin.n_values() implies match #[trigger] fin.value_data@[vi] {
                    ValueData::Inst { ty, inst: i2 } => fin.spec_inst_live(i2) && fin.inst_ty@[
                        i2.0 as int
                    ] == ty && fin.inst_result@[i2.0 as int] == Some(Value(vi as usize)),
                    ValueData::Arg { ty, arg } => 0 <= arg.0 < fin.arg_values@.len()
                        && fin.arg_values@[arg.0 as int] == Value(vi as usize),
                    ValueData::Placeholder { ty } => true,
                    ValueData::Invalid => true,
                } by {
                    if vi != v.0 as int {
                        assert(fin.value_data@[vi] == old(self).value_data@[vi]);
                    }
                }
            }
            assert(fin.results_ok()) by {
                assert forall|i2: int| 0 <= i2 < fin.n_insts() && fin.inst_live@[i2] implies {
                    &&& ((fin.inst_ty@[i2] == Ty::Void) <==> (#[trigger] fin.inst_result@[
                        i2]) is None)
                    &&& (fin.inst_result@[i2] matches Some(w) ==> fin.spec_value_live(w)
                        && fin.value_data@[w.0 as int] == (ValueData::Inst {
                        ty: fin.inst_ty@[i2],
                        inst: Inst(i2 as usize),
                    }))
                } by {
                    match fin.inst_result@[i2] {
                        Some(w) => {
                            assert(old(self).value_data@[w.0 as int] == (ValueData::Inst {
                                ty: old(self).inst_ty@[i2],
                                inst: Inst(i2 as usize),
                            }));
                            assert(w != v);
                        },
                        None => {},
                    }
                }
            }
            assert(fin.args_ok()) by {
                assert forall|k: int| 0 <= k < fin.arg_values@.len() implies {
                    let w = #[trigger] fin.arg_values@[k];
                    &&& fin.spec_value_live(w)
                    &&& (fin.value_data@[w.0 as int] matches ValueData::Arg { ty, arg } && arg.0
                        == k)
                } by {
                    let w = fin.arg_values@[k];
                    assert(old(self).spec_value_live(w));
                    assert(old(self).value_data@[w.0 as int] matches ValueData::Arg { .. });
                    assert(w != v);
                }
            }
            lemma_ops_same(old(self), fin, fin.n_insts());
            lemma_live_same(old(self), fin, fin.n_insts());
        }
    }

    /// Materialize the argument-value bindings for a signature. Inputs come
    /// first, then outputs; slot `k` binds a fresh value of the slot's type.
    #[verifier::loop_isolation(false)]
    pub fn make_args_for_signature(&mut self, sig: &Signature)
        requires
            old(self).wf(),
            old(self).arg_values@.len() == 0,
            old(self).n_values() + sig.spec_num_args() <= MAX_HANDLES,
            sig.spec_num_args() <= usize::MAX,
        ensures
            final(self).wf(),
            final(self).arg_values@.len() == sig.spec_num_args(),
            forall|k: int|
                0 <= k < sig.spec_num_args() ==> {
                    let v = #[trigger] final(self).arg_values@[k];
                    &&& final(self).spec_value_live(v)
                    &&& final(self).value_data@[v.0 as int] == (ValueData::Arg {
                        ty: sig.spec_arg_ty(k),
                        arg: Arg(k as usize),
                    })
                    &&& final(self).uses_of(v).len() == 0
                },
            final(self).n_insts() == old(self).n_insts(),
            final(self).n_values() == old(self).n_values() + sig.spec_num_args(),
            forall|w: Value| old(self).value_in_range(w) ==> final(self).spec_value_live(w) == old(self).spec_value_live(w),
            final(self).inst_live == old(self).inst_live,
            final(self).block_users == old(self).block_users,
            final(self).ext_units == old(self).ext_units,
            final(self).total_ops() == old(self).total_ops(),
            final(self).n_live_insts() == old(self).n_live_insts(),
    {
        let total = sig.num_args();
        let mut k: usize = 0;
        while k < total
            invariant
                k <= total,
                total == sig.spec_num_args(),
                self.wf(),
                self.arg_values@.len() == k,
                self.n_values() == old(self).n_values() + k,
                forall|m: int|
                    0 <= m < k ==> {
                        let v = #[trigger] self.arg_values@[m];
                        &&& self.spec_value_live(v)
                        &&& self.value_data@[v.0 as int] == (ValueData::Arg {
                            ty: sig.spec_arg_ty(m),
                            arg: Arg(m as usize),
                        })
                        &&& self.uses_of(v).len() == 0
                    },
                forall|w: Value|
                    old(self).value_in_range(w) ==> self.spec_value_live(w) == old(self).spec_value_live(w) && self.value_data@[w.0 as int] == old(self).value_data@[w.0 as int],
                self.n_insts() == old(self).n_insts(),
                self.inst_live == old(self).inst_live,
                self.inst_op == old(self).inst_op,
                self.inst_args == old(self).inst_args,
                self.inst_bbs == old(self).inst_bbs,
                self.inst_imm == old(self).inst_imm,
                self.inst_ext == old(self).inst_ext,
                self.inst_ty == old(self).inst_ty,
                self.inst_result == old(self).inst_result,
                self.inst_loc == old(self).inst_loc,
                self.block_users == old(self).block_users,
                self.ext_units == old(self).ext_units,
                self.total_ops() == old(self).total_ops(),
                self.n_live_insts() == old(self).n_live_insts(),
            decreases total - k,
        {
            let ghost pre = *self;
            let ty = sig.arg_ty(k);
            let v = Value(self.value_data.len());
            self.value_data.push(ValueData::Arg { ty, arg: Arg(k) });
            self.value_uses.push(Vec::new());
            self.value_name.push(None);
            self.value_hint.push(None);
            self.arg_values.push(v);
            proof {
                let fin = self;
                assert forall|vi: int| 0 <= vi < fin.n_values() implies #[trigger] fin.use_row_wf(
                    vi,
                ) by {
                    if vi < pre.n_values() {
                        assert(pre.use_row_wf(vi));
                        assert(fin.value_uses@[vi] == pre.value_uses@[vi]);
                    }
                }
                assert(fin.uses_complete()) by {
                    assert forall|i2: int, j3: int|
                        0 <= i2 < fin.n_insts() && fin.inst_live@[i2] && 0 <= j3 < fin.inst_args@[
                        i2]@.len() && (#[trigger] fin.arg_at(i2, j3)).0 != INVALID_IDX implies fin.uses_of(
                        fin.arg_at(i2, j3),
                    ).contains(Inst(i2 as usize)) by {
                        assert(pre.arg_at(i2, j3) == fin.arg_at(i2, j3));
                        assert(pre.uses_of(pre.arg_at(i2, j3)).contains(Inst(i2 as usize)));
                        assert(pre.value_ok(pre.arg_at(i2, j3)));
                    }
                }
                assert(fin.operands_ok()) by {
                    assert forall|i2: int, j3: int|
                        0 <= i2 < fin.n_insts() && fin.inst_live@[i2] && 0 <= j3 < fin.inst_args@[
                        i2]@.len() implies fin.value_ok(#[trigger] fin.arg_at(i2, j3)) by {
                        assert(pre.value_ok(pre.arg_at(i2, j3)));
                    }
                }
                assert forall|bi: int|
                    0 <= bi < fin.block_users@.len() implies #[trigger] fin.block_row_wf(bi) by {
                    assert(pre.block_row_wf(bi));
                    assert(fin.block_users@[bi] == pre.block_users@[bi]);
                }
                assert(fin.block_users_complete()) by {
                    assert forall|i2: int, j3: int|
                        0 <= i2 < fin.n_insts() && fin.inst_live@[i2] && 0 <= j3 < fin.inst_bbs@[
                        i2]@.len() && (#[trigger] fin.bb_at(i2, j3)).0 != INVALID_IDX implies fin.bb_at(
                        i2,
                        j3,
                    ).0 < fin.block_users@.len() && fin.block_users_of(fin.bb_at(i2, j3)).contains(
                        Inst(i2 as usize),
                    ) by {
                        assert(fin.bb_at(i2, j3) == pre.bb_at(i2, j3));
                    }
                }
                assert(fin.results_ok()) by {
                    assert forall|i2: int| 0 <= i2 < fin.n_insts() && fin.inst_live@[i2] implies {
                        &&& ((fin.inst_ty@[i2] == Ty::Void) <==> (#[trigger] fin.inst_result@[
                            i2]) is None)
                        &&& (fin.inst_result@[i2] matches Some(w) ==> fin.spec_value_live(w)
                            && fin.value_data@[w.0 as int] == (ValueData::Inst {
                            ty: fin.inst_ty@[i2],
                            inst: Inst(i2 as usize),
                        }))
                    } by {
                        match fin.inst_result@[i2] {
                            Some(w) => {
                                assert(pre.spec_value_live(w));
                            },
                            None => {},
                        }
                    }
                }
                assert(fin.origins_ok()) by {
                    assert forall|vi: int| 0 <= vi < fin.n_values() implies match #[trigger] fin.value_data@[vi] {
                        ValueData::Inst { ty, inst: i2 } => fin.spec_inst_live(i2) && fin.inst_ty@[
                            i2.0 as int
                        ] == ty && fin.inst_result@[i2.0 as int] == Some(Value(vi as usize)),
                        ValueData::Arg { ty, arg } => 0 <= arg.0 < fin.arg_values@.len()
                            && fin.arg_values@[arg.0 as int] == Value(vi as usize),
                        ValueData::Placeholder { ty } => true,
                        ValueData::Invalid => true,
                    } by {
                        if vi < pre.n_values() {
                            assert(fin.value_data@[vi] == pre.value_data@[vi]);
                            match fin.value_data@[vi] {
                                ValueData::Arg { ty, arg } => {
                                    assert(pre.arg_values@[arg.0 as int] == Value(vi as usize));
                                    assert(fin.arg_values@[arg.0 as int] == Value(vi as usize));
                                },
                                _ => {},
                            }
                        }
                    }
                }
                assert(fin.args_ok()) by {
                    assert forall|m: int| 0 <= m < fin.arg_values@.len() implies {
                        let w = #[trigger] fin.arg_values@[m];
                        &&& fin.spec_value_live(w)
                        &&& (fin.value_data@[w.0 as int] matches ValueData::Arg { ty, arg }
                            && arg.0 == m)
                    } by {
                        if m < k {
                            assert(pre.arg_values@[m] == fin.arg_values@[m]);
                            assert(pre.spec_value_live(pre.arg_values@[m]));
                        }
                    }
                }
                lemma_ops_same(&pre, fin, fin.n_insts());
                lemma_live_same(&pre, fin, fin.n_insts());
            }
            k = k + 1;
        }
    }
}

/// Whether `v` is the recorded result of one of the listed instructions.
pub open spec fn listed_result(d: &DataFlowGraph, list: Seq<Inst>, v: Value) -> bool {
    exists|m: int|
        0 <= m < list.len() && d.inst_result@[(#[trigger] list[m]).0 as int] == Some(v)
}

/// Listing one more instruction adds exactly its result to the listed set.
proof fn lemma_listed_result_step(d: &DataFlowGraph, list: Seq<Inst>, k: int, v: Value)
    requires
        0 <= k < list.len(),
    ensures
        listed_result(d, list.take(k + 1), v) == (listed_result(d, list.take(k), v)
            || d.inst_result@[list[k].0 as int] == Some(v)),
{
    if listed_result(d, list.take(k + 1), v) {
        let m = choose|m: int|
            0 <= m < list.take(k + 1).len() && d.inst_result@[(#[trigger] list.take(k + 1)[m]).0
                as int] == Some(v);
        if m < k {
            assert(list.take(k)[m] == list.take(k + 1)[m]);
            assert(listed_result(d, list.take(k), v));
        } else {
            assert(list.take(k + 1)[k] == list[k]);
        }
    }
    if listed_result(d, list.take(k), v) {
        let m = choose|m: int|
            0 <= m < list.take(k).len() && d.inst_result@[(#[trigger] list.take(k)[m]).0 as int]
                == Some(v);
        assert(list.take(k + 1)[m] == list.take(k)[m]);
        assert(listed_result(d, list.take(k + 1), v));
    }
    if d.inst_result@[list[k].0 as int] == Some(v) {
        assert(list.take(k + 1)[k] == list[k]);
        assert(listed_result(d, list.take(k + 1), v));
    }
}

/// Which values are listed results depends only on the result table.
pub proof fn lemma_listed_result_same(
    d1: &DataFlowGraph,
    d2: &DataFlowGraph,
    list: Seq<Inst>,
    v: Value,
)
    requires
        d1.inst_result == d2.inst_result,
    ensures
        listed_result(d1, list, v) == listed_result(d2, list, v),
{
    if listed_result(d1, list, v) {
        let m = choose|m: int|
            0 <= m < list.len() && d1.inst_result@[(#[trigger] list[m]).0 as int] == Some(v);
        assert(d2.inst_result@[list[m].0 as int] == Some(v));
    }
    if listed_result(d2, list, v) {
        let m = choose|m: int|
            0 <= m < list.len() && d2.inst_result@[(#[trigger] list[m]).0 as int] == Some(v);
        assert(d1.inst_result@[list[m].0 as int] == Some(v));
    }
}

impl DataFlowGraph {
    /// Remove a list of distinct live instructions. Before each removal any
    /// remaining uses of the instruction's result are rewritten to the
    /// invalid-value sentinel, so dangling references from instructions that
    /// outlive the list become tombstones.
    #[verifier::loop_isolation(false)]
    #[verifier::rlimit(60)]
    pub fn purge_insts(&mut self, insts: &Vec<Inst>)
        requires
            old(self).wf(),
            insts@.no_duplicates(),
            forall|m: int| 0 <= m < insts@.len() ==> old(self).spec_inst_live(#[trigger] insts@[m]),
        ensures
            final(self).wf(),
            forall|m: int|
                0 <= m < insts@.len() ==> !final(self).spec_inst_live(#[trigger] insts@[m]),
            forall|x: Inst|
                !insts@.contains(x) ==> final(self).spec_inst_live(x) == old(self).spec_inst_live(
                    x,
                ),
            forall|x: Inst|
                final(self).spec_inst_live(x) ==> final(self).bbs_of(x) == old(self).bbs_of(x),
            forall|x: Inst|
                #![trigger final(self).spec_inst_live(x)]
                final(self).spec_inst_live(x) ==> final(self).inst_result@[x.0 as int] == old(self).inst_result@[x.0 as int] && final(self).args_of(x).len() == old(self).args_of(
                    x,
                ).len() && (forall|j: int|
                    0 <= j < old(self).args_of(x).len() ==> final(self).args_of(x)[j] == (
                    if listed_result(old(self), insts@, old(self).args_of(x)[j]) {
                        Value(INVALID_IDX)
                    } else {
                        old(self).args_of(x)[j]
                    })),
            forall|b: Block, x: Inst|
                final(self).is_block_user(b, x) ==> old(self).is_block_user(b, x),
            final(self).arg_values == old(self).arg_values,
            final(self).ext_units == old(self).ext_units,
            forall|v: Value|
                old(self).spec_value_live(v) && !(old(self).value_data@[v.0 as int] matches
                    ValueData::Inst { .. }) ==> final(self).spec_value_live(v) && final(self).value_data@[v.0 as int] == old(self).value_data@[v.0 as int],
            forall|v: Value|
                #![trigger final(self).spec_value_live(v)]
                final(self).spec_value_live(v) ==> old(self).spec_value_live(v) && final(self).value_data@[v.0 as int] == old(self).value_data@[v.0 as int],
    {
        let n = insts.len();
        let mut k: usize = 0;
        while k < n
            invariant
                k <= n,
                self.wf(),
                forall|m: int| 0 <= m < k ==> !self.spec_inst_live(#[trigger] insts@[m]),
                forall|m: int| k <= m < insts@.len() ==> self.spec_inst_live(#[trigger] insts@[m]),
                forall|x: Inst|
                    !insts@.contains(x) ==> self.spec_inst_live(x) == old(self).spec_inst_live(x),
                forall|x: Inst|
                    self.spec_inst_live(x) ==> self.bbs_of(x) == old(self).bbs_of(x),
                forall|x: Inst|
                    #![trigger self.spec_inst_live(x)]
                    self.spec_inst_live(x) ==> self.inst_result@[x.0 as int] == old(self).inst_result@[x.0 as int] && self.args_of(x).len() == old(self).args_of(
                        x,
                    ).len() && (forall|j: int|
                        0 <= j < old(self).args_of(x).len() ==> self.args_of(x)[j] == (
                        if listed_result(old(self), insts@.take(k as int), old(self).args_of(x)[j]) {
                            Value(INVALID_IDX)
                        } else {
                            old(self).args_of(x)[j]
                        })),
                forall|b: Block, x: Inst|
                    self.is_block_user(b, x) ==> old(self).is_block_user(b, x),
                self.arg_values == old(self).arg_values,
                self.ext_units == old(self).ext_units,
                forall|v: Value|
                    old(self).spec_value_live(v) && !(old(self).value_data@[v.0 as int] matches
                        ValueData::Inst { .. }) ==> self.spec_value_live(v)
                        && self.value_data@[v.0 as int] == old(self).value_data@[v.0 as int],
                forall|v: Value|
                    #![trigger self.spec_value_live(v)]
                    self.spec_value_live(v) ==> old(self).spec_value_live(v)
                        && self.value_data@[v.0 as int] == old(self).value_data@[v.0 as int],
            decreases n - k,
        {
            let i = insts[k];
            let ghost head = *self;
            proof {
                assert(self.spec_inst_live(insts@[k as int]));
            }
            if self.has_result(i) {
                let v = self.inst_result(i);
                let _c = self.replace_use(v, Value::invalid());
                proof {
                    assert(!self.spec_value_live(Value(INVALID_IDX)));
                    assert(self.uses_of(v).len() == 0);
                }
            }
            let ghost mid = *self;
            proof {
                match self.inst_result@[i.0 as int] {
                    Some(rv) => {
                        assert(self.uses_of(rv).len() == 0);
                    },
                    None => {},
                }
            }
            self.remove_inst(i);
            proof {
                assert forall|m: int| 0 <= m < k + 1 implies !self.spec_inst_live(
                    #[trigger] insts@[m],
                ) by {
                    if m < k {
                        if insts@[m] == i {
                            assert(insts@[m] == insts@[k as int]);
                            assert(false);
                        }
                    }
                }
                assert forall|m: int|
                    k + 1 <= m < insts@.len() implies self.spec_inst_live(
                    #[trigger] insts@[m],
                ) by {
                    if insts@[m] == i {
                        assert(insts@[m] == insts@[k as int]);
                        assert(false);
                    }
                }
                assert forall|x: Inst|
                    !insts@.contains(x) implies self.spec_inst_live(x) == old(self).spec_inst_live(x) by {
                    assert(insts@[k as int] == i);
                    assert(insts@.contains(i));
                    assert(x != i);
                }
                assert forall|x: Inst|
                    self.spec_inst_live(x) implies self.bbs_of(x) == old(self).bbs_of(x) by {
                    assert(x != i);
                }
                assert forall|b: Block, x: Inst|
                    self.is_block_user(b, x) implies old(self).is_block_user(b, x) by {
                    assert(x != i);
                }
                assert forall|v: Value|
                    #![trigger self.spec_value_live(v)]
                    self.spec_value_live(v) implies old(self).spec_value_live(v)
                    && self.value_data@[v.0 as int] == old(self).value_data@[v.0 as int] by {
                    assert(mid.spec_value_live(v));
                    assert(mid.inst_result@[i.0 as int] != Some(v));
                    assert(self.value_data@[v.0 as int] == mid.value_data@[v.0 as int]);
                    assert(mid.value_data == head.value_data);
                    assert(head.spec_value_live(v));
                    assert(head.value_data@[v.0 as int] == old(self).value_data@[v.0 as int]);
                }
                assert forall|x: Inst|
                    #![trigger self.spec_inst_live(x)]
                    self.spec_inst_live(x) implies self.inst_result@[x.0 as int] == old(
                    self).inst_result@[x.0 as int] && self.args_of(x).len() == old(self).args_of(
                    x).len() && (forall|j: int|
                    0 <= j < old(self).args_of(x).len() ==> self.args_of(x)[j] == (
                    if listed_result(old(self), insts@.take(k + 1int), old(self).args_of(x)[j]) {
                        Value(INVALID_IDX)
                    } else {
                        old(self).args_of(x)[j]
                    })) by {
                    assert(x != i);
                    assert forall|j: int| 0 <= j < old(self).args_of(x).len() implies self.args_of(
                        x,
                    )[j] == (if listed_result(
                        old(self),
                        insts@.take(k + 1int),
                        old(self).args_of(x)[j],
                    ) {
                        Value(INVALID_IDX)
                    } else {
                        old(self).args_of(x)[j]
                    }) by {
                        let w = old(self).args_of(x)[j];
                        lemma_listed_result_step(old(self), insts@, k as int, w);
                        assert(insts@[k as int] == i);
                    }
                }
            }
            k = k + 1;
        }
        proof {
            assert(insts@.take(insts@.len() as int) =~= insts@);
        }
    }

    /// Whether `i` is a live instruction.
    pub fn is_inst_live(&self, i: Inst) -> (r: bool)
        ensures
            r == self.spec_inst_live(i),
    {
        i.0 < self.inst_live.len() && self.inst_live[i.0]
    }

    /// Whether an instruction produces a result.
    pub fn has_result(&self, inst: Inst) -> (r: bool)
        requires
            self.wf(),
            self.spec_inst_live(inst),
        ensures
            r == (self.inst_result@[inst.0 as int] is Some),
    {
        self.inst_result[inst.0].is_some()
    }

    /// The result of an instruction; panics are excluded by requiring one
    /// to exist.
    pub fn inst_result(&self, inst: Inst) -> (v: Value)
        requires
            self.wf(),
            self.spec_inst_live(inst),
            self.inst_result@[inst.0 as int] is Some,
        ensures
            self.inst_result@[inst.0 as int] == Some(v),
            self.spec_value_live(v),
    {
        self.inst_result[inst.0].unwrap()
    }

    /// The result of an instruction, if it has one.
    pub fn get_inst_result(&self, inst: Inst) -> (r: Option<Value>)
        requires
            self.wf(),
            self.spec_inst_live(inst),
        ensures
            r == self.inst_result@[inst.0 as int],
    {
        self.inst_result[inst.0]
    }

    /// The value bound to a signature-argument slot.
    pub fn arg_value(&self, arg: Arg) -> (v: Value)
        requires
            self.wf(),
            0 <= arg.0 < self.arg_values@.len(),
        ensures
            v == self.arg_values@[arg.0 as int],
            self.spec_value_live(v),
    {
        self.arg_values[arg.0]
    }

    /// Number of argument slots bound in this graph.
    pub fn num_arg_values(&self) -> (r: usize)
        ensures
            r == self.arg_values@.len(),
    {
        self.arg_values.len()
    }

    /// The type a value carries.
    pub open spec fn spec_value_ty(&self, v: Value) -> Ty {
        match self.value_data@[v.0 as int] {
            ValueData::Inst { ty, .. } => ty,
            ValueData::Arg { ty, .. } => ty,
            ValueData::Placeholder { ty } => ty,
            ValueData::Invalid => Ty::Void,
        }
    }

    /// The type of a value.
    pub fn value_type(&self, v: Value) -> (r: Ty)
        requires
            self.wf(),
            self.spec_value_live(v),
        ensures
            r == self.spec_value_ty(v),
    {
        match self.value_data[v.0] {
            ValueData::Inst { ty, .. } => ty,
            ValueData::Arg { ty, .. } => ty,
            ValueData::Placeholder { ty } => ty,
            ValueData::Invalid => Ty::Void,
        }
    }

    /// The type of an instruction.
    pub fn inst_type(&self, inst: Inst) -> (r: Ty)
        requires
            self.wf(),
            self.spec_inst_live(inst),
        ensures
            r == self.inst_ty@[inst.0 as int],
    {
        self.inst_ty[inst.0]
    }

    /// The opcode of an instruction.
    pub fn inst_opcode(&self, inst: Inst) -> (r: Opcode)
        requires
            self.wf(),
            self.spec_inst_live(inst),
        ensures
            r == self.inst_op@[inst.0 as int],
    {
        self.inst_op[inst.0]
    }

    /// The operand list of an instruction.
    pub fn inst_args(&self, inst: Inst) -> (r: &Vec<Value>)
        requires
            self.wf(),
            self.spec_inst_live(inst),
        ensures
            r@ == self.args_of(inst),
    {
        &self.inst_args[inst.0]
    }

    /// The block-reference list of an instruction.
    pub fn inst_blocks(&self, inst: Inst) -> (r: &Vec<Block>)
        requires
            self.wf(),
            self.spec_inst_live(inst),
        ensures
            r@ == self.bbs_of(inst),
    {
        &self.inst_bbs[inst.0]
    }

    /// The instruction that produces a value, if any.
    pub fn get_value_inst(&self, v: Value) -> (r: Option<Inst>)
        requires
            self.wf(),
            self.spec_value_live(v),
        ensures
            match r {
                Some(i) => self.value_data@[v.0 as int] matches ValueData::Inst { inst, .. }
                    && inst == i && self.spec_inst_live(i),
                None => !(self.value_data@[v.0 as int] matches ValueData::Inst { .. }),
            },
    {
        match self.value_data[v.0] {
            ValueData::Inst { inst, .. } => Some(inst),
            _ => None,
        }
    }

    /// The instruction that produces a value; panics are excluded by
    /// requiring one to exist.
    pub fn value_inst(&self, v: Value) -> (r: Inst)
        requires
            self.wf(),
            self.spec_value_live(v),
            self.value_data@[v.0 as int] matches ValueData::Inst { .. },
        ensures
            self.value_data@[v.0 as int] matches ValueData::Inst { inst, .. } && inst == r,
            self.spec_inst_live(r),
    {
        match self.value_data[v.0] {
            ValueData::Inst { inst, .. } => inst,
            _ => Inst(INVALID_IDX),
        }
    }

    /// The argument slot that binds a value, if any.
    pub fn get_value_arg(&self, v: Value) -> (r: Option<Arg>)
        requires
            self.wf(),
            self.spec_value_live(v),
        ensures
            match r {
                Some(a) => self.value_data@[v.0 as int] matches ValueData::Arg { arg, .. } && arg
                    == a,
                None => !(self.value_data@[v.0 as int] matches ValueData::Arg { .. }),
            },
    {
        match self.value_data[v.0] {
            ValueData::Arg { arg, .. } => Some(arg),
            _ => None,
        }
    }

    /// The argument slot that binds a value; panics are excluded by
    /// requiring one to exist.
    pub fn value_arg(&self, v: Value) -> (r: Arg)
        requires
            self.wf(),
            self.spec_value_live(v),
            self.value_data@[v.0 as int] matches ValueData::Arg { .. },
        ensures
            self.value_data@[v.0 as int] matches ValueData::Arg { arg, .. } && arg == r,
    {
        match self.value_data[v.0] {
            ValueData::Arg { arg, .. } => arg,
            _ => Arg(0),
        }
    }

    /// The use-list of a value: the instructions reading it, each once.
    pub fn uses(&self, v: Value) -> (r: &Vec<Inst>)
        requires
            self.wf(),
            self.spec_value_live(v),
        ensures
            r@ == self.uses_of(v),
    {
        &self.value_uses[v.0]
    }

    /// Whether a value is used by any instruction.
    pub fn has_uses(&self, v: Value) -> (r: bool)
        requires
            self.wf(),
            self.spec_value_live(v),
        ensures
            r == (self.uses_of(v).len() > 0),
    {
        self.value_uses[v.0].len() > 0
    }

    /// Whether a value has exactly one using instruction.
    pub fn has_one_use(&self, v: Value) -> (r: bool)
        requires
            self.wf(),
            self.spec_value_live(v),
        ensures
            r == (self.uses_of(v).len() == 1),
    {
        self.value_uses[v.0].len() == 1
    }

    /// Set the name of a value.
    pub fn set_name(&mut self, v: Value, name: String)
        requires
            old(self).wf(),
            old(self).spec_value_live(v),
        ensures
            final(self).wf(),
            final(self).value_name@ == old(self).value_name@.update(v.0 as int, Some(name)),
            final(self).value_data == old(self).value_data,
            final(self).value_uses == old(self).value_uses,
            final(self).value_hint == old(self).value_hint,
            final(self).inst_live == old(self).inst_live,
            final(self).inst_args == old(self).inst_args,
            final(self).inst_bbs == old(self).inst_bbs,
            final(self).inst_result == old(self).inst_result,
            final(self).inst_op == old(self).inst_op,
            final(self).inst_imm == old(self).inst_imm,
            final(self).inst_ext == old(self).inst_ext,
            final(self).inst_ty == old(self).inst_ty,
            final(self).inst_loc == old(self).inst_loc,
            final(self).block_users == old(self).block_users,
            final(self).arg_values == old(self).arg_values,
            final(self).ext_units == old(self).ext_units,
    {
        self.value_name.set(v.0, Some(name));
        proof {
            self.lemma_wf_after_side_tables(old(self));
        }
    }

    /// Clear and return the name of a value.
    pub fn clear_name(&mut self, v: Value) -> (r: Option<String>)
        requires
            old(self).wf(),
            old(self).spec_value_live(v),
        ensures
            final(self).wf(),
            r == old(self).value_name@[v.0 as int],
            final(self).value_name@ == old(self).value_name@.update(v.0 as int, None::<String>),
            final(self).value_data == old(self).value_data,
            final(self).value_uses == old(self).value_uses,
            final(self).value_hint == old(self).value_hint,
            final(self).inst_live == old(self).inst_live,
            final(self).inst_args == old(self).inst_args,
            final(self).inst_bbs == old(self).inst_bbs,
            final(self).inst_result == old(self).inst_result,
            final(self).inst_op == old(self).inst_op,
            final(self).inst_imm == old(self).inst_imm,
            final(self).inst_ext == old(self).inst_ext,
            final(self).inst_ty == old(self).inst_ty,
            final(self).inst_loc == old(self).inst_loc,
            final(self).block_users == old(self).block_users,
            final(self).arg_values == old(self).arg_values,
            final(self).ext_units == old(self).ext_units,
    {
        let mut taken: Option<String> = None;
        self.value_name.set_and_swap(v.0, &mut taken);
        proof {
            self.lemma_wf_after_side_tables(old(self));
        }
        taken
    }

    /// Look up the name of a value.
    pub fn get_name(&self, v: Value) -> (r: Option<&str>)
        requires
            self.wf(),
            self.spec_value_live(v),
        ensures
            match r {
                Some(s) => self.value_name@[v.0 as int] matches Some(n) && n@ == s@,
                None => self.value_name@[v.0 as int] is None,
            },
    {
        match &self.value_name[v.0] {
            Some(n) => Some(n.as_str()),
            None => None,
        }
    }

    /// Set the anonymous-name hint of a value.
    pub fn set_anonymous_hint(&mut self, v: Value, hint: u32)
        requires
            old(self).wf(),
            old(self).spec_value_live(v),
        ensures
            final(self).wf(),
            final(self).value_hint@ == old(self).value_hint@.update(v.0 as int, Some(hint)),
            final(self).value_data == old(self).value_data,
            final(self).value_uses == old(self).value_uses,
            final(self).value_name == old(self).value_name,
            final(self).inst_live == old(self).inst_live,
            final(self).inst_args == old(self).inst_args,
            final(self).inst_bbs == old(self).inst_bbs,
            final(self).inst_result == old(self).inst_result,
            final(self).inst_op == old(self).inst_op,
            final(self).inst_imm == old(self).inst_imm,
            final(self).inst_ext == old(self).inst_ext,
            final(self).inst_ty == old(self).inst_ty,
            final(self).inst_loc == old(self).inst_loc,
            final(self).block_users == old(self).block_users,
            final(self).arg_values == old(self).arg_values,
            final(self).ext_units == old(self).ext_units,
    {
        self.value_hint.set(v.0, Some(hint));
        proof {
            self.lemma_wf_after_side_tables(old(self));
        }
    }

    /// Clear and return the anonymous-name hint of a value.
    pub fn clear_anonymous_hint(&mut self, v: Value) -> (r: Option<u32>)
        requires
            old(self).wf(),
            old(self).spec_value_live(v),
        ensures
            final(self).wf(),
            r == old(self).value_hint@[v.0 as int],
            final(self).value_hint@ == old(self).value_hint@.update(v.0 as int, None::<u32>),
            final(self).value_data == old(self).value_data,
            final(self).value_uses == old(self).value_uses,
            final(self).value_name == old(self).value_name,
            final(self).inst_live == old(self).inst_live,
            final(self).inst_args == old(self).inst_args,
            final(self).inst_bbs == old(self).inst_bbs,
            final(self).inst_result == old(self).inst_result,
            final(self).inst_op == old(self).inst_op,
            final(self).inst_imm == old(self).inst_imm,
            final(self).inst_ext == old(self).inst_ext,
            final(self).inst_ty == old(self).inst_ty,
            final(self).inst_loc == old(self).inst_loc,
            final(self).block_users == old(self).block_users,
            final(self).arg_values == old(self).arg_values,
            final(self).ext_units == old(self).ext_units,
    {
        let r = self.value_hint[v.0];
        self.value_hint.set(v.0, None);
        proof {
            self.lemma_wf_after_side_tables(old(self));
        }
        r
    }

    /// Look up the anonymous-name hint of a value.
    pub fn get_anonymous_hint(&self, v: Value) -> (r: Option<u32>)
        requires
            self.wf(),
            self.spec_value_live(v),
        ensures
            r == self.value_hint@[v.0 as int],
    {
        self.value_hint[v.0]
    }

    /// Annotate an instruction with the byte offset of its source text.
    pub fn set_location_hint(&mut self, inst: Inst, loc: usize)
        requires
            old(self).wf(),
            old(self).spec_inst_live(inst),
        ensures
            final(self).wf(),
            final(self).inst_loc@ == old(self).inst_loc@.update(inst.0 as int, Some(loc)),
            final(self).value_data == old(self).value_data,
            final(self).value_uses == old(self).value_uses,
            final(self).value_name == old(self).value_name,
            final(self).value_hint == old(self).value_hint,
            final(self).inst_live == old(self).inst_live,
            final(self).inst_args == old(self).inst_args,
            final(self).inst_bbs == old(self).inst_bbs,
            final(self).inst_result == old(self).inst_result,
            final(self).inst_op == old(self).inst_op,
            final(self).inst_imm == old(self).inst_imm,
            final(self).inst_ext == old(self).inst_ext,
            final(self).inst_ty == old(self).inst_ty,
            final(self).block_users == old(self).block_users,
            final(self).arg_values == old(self).arg_values,
            final(self).ext_units == old(self).ext_units,
    {
        self.inst_loc.set(inst.0, Some(loc));
        proof {
            self.lemma_wf_after_side_tables(old(self));
        }
    }

    /// The location hint of an instruction, if any.
    pub fn location_hint(&self, inst: Inst) -> (r: Option<usize>)
        requires
            self.wf(),
            self.spec_inst_live(inst),
        ensures
            r == self.inst_loc@[inst.0 as int],
    {
        self.inst_loc[inst.0]
    }

    /// The immediate constant payload that the defining instruction of `v`
    /// carries, when its opcode is a constant constructor.
    pub open spec fn spec_get_const(&self, v: Value) -> Option<ConstValue> {
        match self.value_data@[v.0 as int] {
            ValueData::Inst { inst, .. } => {
                match self.inst_op@[inst.0 as int] {
                    Opcode::ConstInt | Opcode::ConstTime | Opcode::ConstArray
                        | Opcode::ConstStruct => self.inst_imm@[inst.0 as int],
                    _ => None,
                }
            },
            _ => None,
        }
    }

    /// Resolve a constant value: the immediate payload of the defining
    /// instruction when its opcode is a constant constructor, and `None`
    /// otherwise. No constant folding is performed.
    pub fn get_const(&self, v: Value) -> (r: Option<&ConstValue>)
        requires
            self.wf(),
            self.spec_value_live(v),
        ensures
            match r {
                Some(c) => self.spec_get_const(v) == Some(*c),
                None => self.spec_get_const(v) is None,
            },
    {
        match self.value_data[v.0] {
            ValueData::Inst { inst, .. } => {
                let is_const = match self.inst_op[inst.0] {
                    Opcode::ConstInt => true,
                    Opcode::ConstTime => true,
                    Opcode::ConstArray => true,
                    Opcode::ConstStruct => true,
                    _ => false,
                };
                if is_const {
                    match &self.inst_imm[inst.0] {
                        Some(c) => Some(c),
                        None => None,
                    }
                } else {
                    None
                }
            },
            _ => None,
        }
    }

    /// Resolve a constant integer value, when the defining instruction is a
    /// constant integer constructor.
    pub fn get_const_int(&self, v: Value) -> (r: Option<&IntValue>)
        requires
            self.wf(),
            self.spec_value_live(v),
        ensures
            match r {
                Some(c) => self.spec_get_const(v) == Some(ConstValue::Int(*c)),
                None => !(self.spec_get_const(v) matches Some(ConstValue::Int(_))),
            },
    {
        match self.get_const(v) {
            Some(c) => match c {
                ConstValue::Int(iv) => Some(iv),
                _ => None,
            },
            None => None,
        }
    }

    /// Resolve a constant time value, when the defining instruction is a
    /// constant time constructor.
    pub fn get_const_time(&self, v: Value) -> (r: Option<&TimeValue>)
        requires
            self.wf(),
            self.spec_value_live(v),
        ensures
            match r {
                Some(c) => self.spec_get_const(v) == Some(ConstValue::Time(*c)),
                None => !(self.spec_get_const(v) matches Some(ConstValue::Time(_))),
            },
    {
        match self.get_const(v) {
            Some(c) => match c {
                ConstValue::Time(tv) => Some(tv),
                _ => None,
            },
            None => None,
        }
    }

    /// Resolve a constant array value, when the defining instruction is a
    /// constant array constructor.
    pub fn get_const_array(&self, v: Value) -> (r: Option<&ArrayValue>)
        requires
            self.wf(),
            self.spec_value_live(v),
        ensures
            match r {
                Some(c) => self.spec_get_const(v) == Some(ConstValue::Array(*c)),
                None => !(self.spec_get_const(v) matches Some(ConstValue::Array(_))),
            },
    {
        match self.get_const(v) {
            Some(c) => match c {
                ConstValue::Array(av) => Some(av),
                _ => None,
            },
            None => None,
        }
    }

    /// Resolve a constant struct value, when the defining instruction is a
    /// constant struct constructor.
    pub fn get_const_struct(&self, v: Value) -> (r: Option<&StructValue>)
        requires
            self.wf(),
            self.spec_value_live(v),
        ensures
            match r {
                Some(c) => self.spec_get_const(v) == Some(ConstValue::Struct(*c)),
                None => !(self.spec_get_const(v) matches Some(ConstValue::Struct(_))),
            },
    {
        match self.get_const(v) {
            Some(c) => match c {
                ConstValue::Struct(sv) => Some(sv),
                _ => None,
            },
            None => None,
        }
    }

    /// Import an external unit by name and signature.
    pub fn add_ext_unit(&mut self, data: ExtUnitData) -> (e: ExtUnit)
        requires
            old(self).wf(),
            old(self).ext_units@.len() < MAX_HANDLES,
        ensures
            final(self).wf(),
            e.0 == old(self).ext_units@.len(),
            final(self).ext_units@.len() == old(self).ext_units@.len() + 1,
            final(self).ext_units@ == old(self).ext_units@.push(data),
            final(self).value_data == old(self).value_data,
            final(self).value_uses == old(self).value_uses,
            final(self).value_name == old(self).value_name,
            final(self).value_hint == old(self).value_hint,
            final(self).inst_live == old(self).inst_live,
            final(self).inst_op == old(self).inst_op,
            final(self).inst_args == old(self).inst_args,
            final(self).inst_bbs == old(self).inst_bbs,
            final(self).inst_imm == old(self).inst_imm,
            final(self).inst_ext == old(self).inst_ext,
            final(self).inst_ty == old(self).inst_ty,
            final(self).inst_result == old(self).inst_result,
            final(self).inst_loc == old(self).inst_loc,
            final(self).block_users == old(self).block_users,
            final(self).arg_values == old(self).arg_values,
    {
        let e = ExtUnit(self.ext_units.len());
        self.ext_units.push(data);
        proof {
            self.lemma_wf_after_side_tables(old(self));
        }
        e
    }

    /// The instructions referencing a block, each listed once.
    pub fn block_users_of_block(&self, b: Block) -> (r: Vec<Inst>)
        ensures
            r@ == self.block_users_of(b),
    {
        if b.0 < self.block_users.len() {
            copy_insts(&self.block_users[b.0])
        } else {
            Vec::new()
        }
    }

    /// The name of an imported external unit.
    pub fn ext_name(&self, e: ExtUnit) -> (r: &UnitName)
        requires
            0 <= e.0 < self.ext_units@.len(),
        ensures
            *r == self.ext_units@[e.0 as int].name,
    {
        &self.ext_units[e.0].name
    }

    /// The signature of an imported external unit.
    pub fn ext_sig(&self, e: ExtUnit) -> (r: &Signature)
        requires
            0 <= e.0 < self.ext_units@.len(),
        ensures
            *r == self.ext_units@[e.0 as int].sig,
    {
        &self.ext_units[e.0].sig
    }

    /// Changing only the side tables (names, hints, locations, externals)
    /// keeps the graph well-formed: no well-formedness conjunct reads them.
    proof fn lemma_wf_after_side_tables(&self, pre: &Self)
        requires
            pre.wf(),
            self.inst_live == pre.inst_live,
            self.inst_op == pre.inst_op,
            self.inst_args == pre.inst_args,
            self.inst_bbs == pre.inst_bbs,
            self.inst_ty == pre.inst_ty,
            self.inst_result == pre.inst_result,
            self.value_data == pre.value_data,
            self.value_uses == pre.value_uses,
            self.block_users == pre.block_users,
            self.arg_values == pre.arg_values,
            self.value_name@.len() == pre.value_name@.len(),
            self.value_hint@.len() == pre.value_hint@.len(),
            self.inst_imm@.len() == pre.inst_imm@.len(),
            self.inst_ext@.len() == pre.inst_ext@.len(),
            self.inst_loc@.len() == pre.inst_loc@.len(),
        ensures
            self.wf(),
            self.total_ops() == pre.total_ops(),
            self.n_live_insts() == pre.n_live_insts(),
    {
        assert forall|vi: int| 0 <= vi < self.n_values() implies #[trigger] self.use_row_wf(
            vi,
        ) by {
            assert(pre.use_row_wf(vi));
            assert(self.value_uses@[vi] == pre.value_uses@[vi]);
        }
        assert(self.uses_complete()) by {
            assert forall|i2: int, j3: int|
                0 <= i2 < self.n_insts() && self.inst_live@[i2] && 0 <= j3 < self.inst_args@[
                i2]@.len() && (#[trigger] self.arg_at(i2, j3)).0 != INVALID_IDX implies self.uses_of(
                self.arg_at(i2, j3),
            ).contains(Inst(i2 as usize)) by {
                assert(self.arg_at(i2, j3) == pre.arg_at(i2, j3));
                assert(pre.uses_of(pre.arg_at(i2, j3)).contains(Inst(i2 as usize)));
            }
        }
        assert(self.operands_ok()) by {
            assert forall|i2: int, j3: int|
                0 <= i2 < self.n_insts() && self.inst_live@[i2] && 0 <= j3 < self.inst_args@[
                i2]@.len() implies self.value_ok(#[trigger] self.arg_at(i2, j3)) by {
                assert(self.arg_at(i2, j3) == pre.arg_at(i2, j3));
                assert(pre.value_ok(pre.arg_at(i2, j3)));
            }
        }
        assert forall|bi: int| 0 <= bi < self.block_users@.len() implies #[trigger] self.block_row_wf(
            bi,
        ) by {
            assert(pre.block_row_wf(bi));
            assert(self.block_users@[bi] == pre.block_users@[bi]);
        }
        assert(self.block_users_complete()) by {
            assert forall|i2: int, j3: int|
                0 <= i2 < self.n_insts() && self.inst_live@[i2] && 0 <= j3 < self.inst_bbs@[
                i2]@.len() && (#[trigger] self.bb_at(i2, j3)).0 != INVALID_IDX implies self.bb_at(
                i2,
                j3,
            ).0 < self.block_users@.len() && self.block_users_of(self.bb_at(i2, j3)).contains(
                Inst(i2 as usize),
            ) by {
                assert(self.bb_at(i2, j3) == pre.bb_at(i2, j3));
            }
        }
        lemma_ops_same(pre, self, self.n_insts());
        lemma_live_same(pre, self, self.n_insts());
    }
}

} // verus!
