//! End-to-end scenarios for the unit container: building functions,
//! processes and entities, rewriting uses, removing blocks, and pruning.

use llhd_unit::constval::{ArrayValue, ConstValue, IntValue, StructValue, TimeValue};
use llhd_unit::dfg::{InstData, Opcode};
use llhd_unit::handles::{Arg, Block, Inst, Value, INVALID_IDX};
use llhd_unit::signature::Signature;
use llhd_unit::types::Ty;
use llhd_unit::layout::Layout;
use llhd_unit::unit::{Unit, UnitBuilder, UnitData};
use llhd_unit::unit_name::{UnitKind, UnitName};

fn const_i32(value: u64) -> InstData {
    InstData {
        opcode: Opcode::ConstInt,
        args: Vec::new(),
        bbs: Vec::new(),
        imm: Some(ConstValue::Int(IntValue { width: 32, value })),
        ext: None,
    }
}

fn add(a: Value, b: Value) -> InstData {
    InstData { opcode: Opcode::Add, args: vec![a, b], bbs: Vec::new(), imm: None, ext: None }
}

fn ret_value(v: Value) -> InstData {
    InstData { opcode: Opcode::RetValue, args: vec![v], bbs: Vec::new(), imm: None, ext: None }
}

fn jump(bb: Block) -> InstData {
    InstData { opcode: Opcode::Br, args: Vec::new(), bbs: vec![bb], imm: None, ext: None }
}

fn phi(args: Vec<Value>, bbs: Vec<Block>) -> InstData {
    InstData { opcode: Opcode::Phi, args, bbs, imm: None, ext: None }
}

fn empty_function(name: &str) -> UnitBuilder {
    let sig = Signature::new(Vec::new(), Vec::new(), Some(Ty::Int(32)));
    let data = UnitData::new(UnitKind::Function, UnitName::global(name.to_string()), sig);
    UnitBuilder::new_anonymous(data)
}

/// The S1 state: `@foo` with one block holding c1 = 1, c2 = 2, s = c1 + c2,
/// and a value return of s.
fn build_s1() -> (UnitBuilder, Block, Inst, Inst, Inst, Inst) {
    let mut b = empty_function("foo");
    let bb0 = b.block();
    b.append_to(bb0);
    let c1i = b.build_inst(const_i32(1), Ty::Int(32));
    let c2i = b.build_inst(const_i32(2), Ty::Int(32));
    let c1 = b.data().dfg.inst_result(c1i);
    let c2 = b.data().dfg.inst_result(c2i);
    let si = b.build_inst(add(c1, c2), Ty::Int(32));
    let s = b.data().dfg.inst_result(si);
    let reti = b.build_inst(ret_value(s), Ty::Void);
    (b, bb0, c1i, c2i, si, reti)
}

#[test]
fn empty_function_s1() {
    let (b, bb0, c1i, c2i, si, reti) = build_s1();
    let unit = b.finish();
    // Three instructions in bb0 plus the return.
    let insts = unit.func_layout().insts(bb0);
    assert_eq!(insts.len(), 4);
    assert_eq!(insts[0], c1i);
    assert_eq!(insts[1], c2i);
    assert_eq!(insts[2], si);
    assert_eq!(insts[3], reti);
    // uses(c1) = uses(c2) = {s}.
    let c1 = unit.inst_result(c1i);
    let c2 = unit.inst_result(c2i);
    let uses_c1 = unit.uses(c1);
    assert_eq!(uses_c1.len(), 1);
    assert_eq!(uses_c1[0], si);
    let uses_c2 = unit.uses(c2);
    assert_eq!(uses_c2.len(), 1);
    assert_eq!(uses_c2[0], si);
    // The return has no result.
    assert!(!unit.has_result(reti));
    assert_eq!(unit.get_inst_result(reti), None);
    // The constants resolve.
    assert_eq!(unit.get_const_int(c1), Some(&IntValue { width: 32, value: 1 }));
    assert_eq!(unit.get_const_int(c2), Some(&IntValue { width: 32, value: 2 }));
    let s = unit.inst_result(si);
    assert!(unit.get_const(s).is_none());
}

#[test]
fn replace_use_s2() {
    let (mut b, _bb0, c1i, c2i, si, _reti) = build_s1();
    let c1 = b.data().dfg.inst_result(c1i);
    let c2 = b.data().dfg.inst_result(c2i);
    // Replacing c1 by c2 changes exactly one operand slot.
    let n = b.replace_use(c1, c2);
    assert_eq!(n, 1);
    // uses(c1) is empty; uses(c2) = {s} (a set, even though s reads it twice).
    assert!(!b.data().dfg.has_uses(c1));
    let uses_c2 = b.data().dfg.uses(c2);
    assert_eq!(uses_c2.len(), 1);
    assert_eq!(uses_c2[0], si);
    assert_eq!(b.data().dfg.inst_args(si).as_slice(), &[c2, c2]);
    // Pruning the defining instruction of c1 removes it.
    let removed = b.prune_if_unused(c1i);
    assert!(removed);
    assert!(!b.data().dfg.is_inst_live(c1i));
    assert!(b.data().dfg.is_inst_live(c2i));
    assert!(b.data().dfg.is_inst_live(si));
}

#[test]
fn entity_shape_s3() {
    let sig = Signature::new(vec![Ty::Int(1)], vec![Ty::Int(1)], None);
    let data = UnitData::new(UnitKind::Entity, UnitName::global("top".to_string()), sig);
    let unit = Unit::new_anonymous(data);
    // Exactly one block exists immediately after construction.
    assert_eq!(unit.func_layout().num_blocks(), 1);
    assert!(unit.is_entity());
    assert!(!unit.is_function());
    assert!(!unit.is_process());
    // Two argument values are bound.
    let args = unit.args();
    assert_eq!(args.len(), 2);
    let a0 = unit.input_arg(0);
    let a1 = unit.output_arg(0);
    assert_eq!(a0, args[0]);
    assert_eq!(a1, args[1]);
    assert_eq!(unit.value_type(a0), Ty::Int(1));
    assert_eq!(unit.value_type(a1), Ty::Int(1));
    assert_eq!(unit.get_value_arg(a0), Some(Arg(0)));
    assert_eq!(unit.value_arg(a1), Arg(1));
    assert!(unit.get_value_inst(a0).is_none());
}

#[test]
fn block_removal_s4() {
    let sig = Signature::new(Vec::new(), Vec::new(), None);
    let data = UnitData::new(UnitKind::Process, UnitName::local("p".to_string()), sig);
    let mut b = UnitBuilder::new_anonymous(data);
    let ba = b.block();
    let bb = b.block();
    let bc = b.block();
    // An instruction in `a` branches to `b`.
    b.append_to(ba);
    let c0i = b.build_inst(const_i32(0), Ty::Int(32));
    let c0 = b.data().dfg.inst_result(c0i);
    let br_a = b.build_inst(jump(bb), Ty::Void);
    // `b` holds a phi with predecessor `a`, and branches on to `c`.
    b.append_to(bb);
    let phii = b.build_inst(phi(vec![c0], vec![ba]), Ty::Int(32));
    let br_b = b.build_inst(jump(bc), Ty::Void);
    b.append_to(bc);
    let _last = b.build_inst(const_i32(9), Ty::Int(32));
    // Sanity: the phi is registered as a user of `a`.
    assert_eq!(b.data().dfg.block_users_of_block(ba), vec![phii]);
    b.append_to(ba);
    b.remove_block(bb);
    // `b` is gone from CFG and layout.
    assert!(!b.data().cfg.is_block_live(bb));
    assert!(!b.data().layout.is_block_placed(bb));
    assert_eq!(b.data().layout.blocks().as_slice(), &[ba, bc]);
    // The branch in `a` now references the invalid-block sentinel.
    assert_eq!(b.data().dfg.inst_blocks(br_a).as_slice(), &[Block(INVALID_IDX)]);
    // The instructions of `b` are removed from the DFG.
    assert!(!b.data().dfg.is_inst_live(phii));
    assert!(!b.data().dfg.is_inst_live(br_b));
    assert!(b.data().dfg.is_inst_live(br_a));
    assert!(b.data().dfg.is_inst_live(c0i));
}

#[test]
fn phi_entry_scrub_on_remove_block() {
    let sig = Signature::new(Vec::new(), Vec::new(), None);
    let data = UnitData::new(UnitKind::Process, UnitName::local("q".to_string()), sig);
    let mut b = UnitBuilder::new_anonymous(data);
    let ba = b.block();
    let bb = b.block();
    let bc = b.block();
    b.append_to(ba);
    let cai = b.build_inst(const_i32(1), Ty::Int(32));
    let ca = b.data().dfg.inst_result(cai);
    b.append_to(bb);
    let cbi = b.build_inst(const_i32(2), Ty::Int(32));
    let cb = b.data().dfg.inst_result(cbi);
    // The phi in `c` merges values from both predecessors.
    b.append_to(bc);
    let phii = b.build_inst(phi(vec![ca, cb], vec![ba, bb]), Ty::Int(32));
    b.append_to(ba);
    b.remove_block(bb);
    // The phi entry for `b` is gone: only the `a` pair remains.
    assert_eq!(b.data().dfg.inst_args(phii).as_slice(), &[ca]);
    assert_eq!(b.data().dfg.inst_blocks(phii).as_slice(), &[ba]);
    // The value defined in `b` is dead, and the phi no longer uses it.
    assert!(!b.data().dfg.is_value_live(cb));
}

#[test]
fn prune_cascade_s5() {
    let mut b = empty_function("f");
    let bb0 = b.block();
    b.append_to(bb0);
    // x = const 7; y = add x, x; z = add y, 1 with nothing using z.
    let xi = b.build_inst(const_i32(7), Ty::Int(32));
    let x = b.data().dfg.inst_result(xi);
    let yi = b.build_inst(add(x, x), Ty::Int(32));
    let y = b.data().dfg.inst_result(yi);
    let c1i = b.build_inst(const_i32(1), Ty::Int(32));
    let c1 = b.data().dfg.inst_result(c1i);
    let zi = b.build_inst(add(y, c1), Ty::Int(32));
    let removed = b.prune_if_unused(zi);
    assert!(removed);
    // The cascade removes z, then y and the const 1, then x.
    assert!(!b.data().dfg.is_inst_live(zi));
    assert!(!b.data().dfg.is_inst_live(yi));
    assert!(!b.data().dfg.is_inst_live(c1i));
    assert!(!b.data().dfg.is_inst_live(xi));
    assert_eq!(b.data().layout.insts(bb0).len(), 0);
}

#[test]
fn prune_without_effect_is_idempotent() {
    let (mut b, _bb0, _c1i, _c2i, si, _reti) = build_s1();
    // s is read by the return, so pruning does not apply, twice in a row.
    let first = b.prune_if_unused(si);
    assert!(!first);
    let second = b.prune_if_unused(si);
    assert!(!second);
    assert!(b.data().dfg.is_inst_live(si));
    // After a successful prune the handle is dead and pruning again does
    // nothing.
    let (mut b2, _bb, c1i, c2i, _si, _reti) = build_s1();
    let c1 = b2.data().dfg.inst_result(c1i);
    let c2 = b2.data().dfg.inst_result(c2i);
    b2.replace_use(c1, c2);
    assert!(b2.prune_if_unused(c1i));
    assert!(!b2.prune_if_unused(c1i));
    assert!(!b2.data().dfg.is_inst_live(c1i));
}

#[test]
fn name_display_s6() {
    assert_eq!(UnitName::Anonymous(42).display(), "%42");
    assert_eq!(UnitName::Local("foo".to_string()).display(), "%foo");
    assert_eq!(UnitName::Global("foo".to_string()).display(), "@foo");
    assert!(UnitName::Anonymous(42).is_local());
    assert!(UnitName::Local("foo".to_string()).is_local());
    assert!(!UnitName::Global("foo".to_string()).is_local());
    assert!(!UnitName::Anonymous(42).is_global());
    assert!(!UnitName::Local("foo".to_string()).is_global());
    assert!(UnitName::Global("foo".to_string()).is_global());
    assert_eq!(UnitName::anonymous(0).display(), "%0");
    assert_eq!(UnitName::Anonymous(1234567890).display(), "%1234567890");
    assert_eq!(UnitName::global("g".to_string()).get_name(), Some("g"));
    assert_eq!(UnitName::local("l".to_string()).get_name(), Some("l"));
    assert_eq!(UnitName::anonymous(7).get_name(), None);
    assert_eq!(UnitKind::Function.display(), "func");
    assert_eq!(UnitKind::Process.display(), "proc");
    assert_eq!(UnitKind::Entity.display(), "entity");
}

#[test]
fn placeholder_lifecycle() {
    let mut b = empty_function("g");
    let bb0 = b.block();
    b.append_to(bb0);
    let p = b.add_placeholder(Ty::Int(8));
    assert!(b.data().dfg.is_placeholder(p));
    // A phi reads the placeholder until the real value exists.
    let phii = b.build_inst(phi(vec![p], vec![bb0]), Ty::Int(8));
    assert!(b.data().dfg.has_uses(p));
    let ci = b.build_inst(const_i32(3), Ty::Int(8));
    let c = b.data().dfg.inst_result(ci);
    let n = b.replace_use(p, c);
    assert_eq!(n, 1);
    assert!(!b.data().dfg.has_uses(p));
    // Retiring succeeds exactly when nothing uses the placeholder.
    b.remove_placeholder(p);
    assert!(!b.data().dfg.is_value_live(p));
    assert!(!b.data().dfg.is_placeholder(p));
    assert_eq!(b.data().dfg.inst_args(phii).as_slice(), &[c]);
}

#[test]
fn cursor_insertion_order() {
    let mut b = empty_function("h");
    let bb0 = b.block();
    // Prepending emits in reverse; appending and inserting after an anchor
    // emit in source order.
    b.append_to(bb0);
    let i1 = b.build_inst(const_i32(1), Ty::Int(32));
    let i4 = b.build_inst(const_i32(4), Ty::Int(32));
    b.insert_after(i1);
    let i2 = b.build_inst(const_i32(2), Ty::Int(32));
    let i3 = b.build_inst(const_i32(3), Ty::Int(32));
    assert_eq!(b.data().layout.insts(bb0).as_slice(), &[i1, i2, i3, i4]);
    b.insert_before(i1);
    let i0 = b.build_inst(const_i32(0), Ty::Int(32));
    assert_eq!(b.data().layout.insts(bb0).as_slice(), &[i0, i1, i2, i3, i4]);
    b.prepend_to(bb0);
    let im1 = b.build_inst(const_i32(9), Ty::Int(32));
    assert_eq!(b.data().layout.insts(bb0).as_slice(), &[im1, i0, i1, i2, i3, i4]);
}

#[test]
fn remove_inst_detaches_cursor() {
    let mut b = empty_function("k");
    let bb0 = b.block();
    b.append_to(bb0);
    let i1 = b.build_inst(const_i32(1), Ty::Int(32));
    let i2 = b.build_inst(const_i32(2), Ty::Int(32));
    b.insert_after(i2);
    b.remove_inst(i2);
    // The cursor fell back to the previous instruction; new instructions
    // land after it.
    let i3 = b.build_inst(const_i32(3), Ty::Int(32));
    assert_eq!(b.data().layout.insts(bb0).as_slice(), &[i1, i3]);
}

#[test]
fn use_list_consistency_on_small_graph() {
    let (b, _bb0, c1i, c2i, si, reti) = build_s1();
    let u = b.finish();
    // For every value, the use-list holds exactly the instructions whose
    // operand list holds the value.
    let c1 = u.inst_result(c1i);
    let c2 = u.inst_result(c2i);
    let s = u.inst_result(si);
    for (v, expected) in [(c1, vec![si]), (c2, vec![si]), (s, vec![reti])] {
        let mut got = u.uses(v).clone();
        got.sort_by_key(|i| i.0);
        assert_eq!(got, expected);
    }
    assert!(u.has_one_use(c1));
    assert!(u.has_one_use(s));
}

#[test]
fn layout_coverage_on_small_graph() {
    let sig = Signature::new(Vec::new(), Vec::new(), None);
    let data = UnitData::new(UnitKind::Process, UnitName::anonymous(3), sig);
    let mut b = UnitBuilder::new_anonymous(data);
    let b0 = b.block();
    let b1 = b.named_block("loop_head".to_string());
    let u = b.finish();
    // The blocks in the layout are exactly the live blocks of the CFG.
    assert_eq!(u.func_layout().blocks().as_slice(), &[b0, b1]);
    assert!(u.cfg().is_block_live(b0));
    assert!(u.cfg().is_block_live(b1));
    assert_eq!(u.get_block_name(b1), Some("loop_head"));
    assert_eq!(u.get_block_name(b0), None);
}

#[test]
fn signature_kind_conformity_checks() {
    let fsig = Signature::new(vec![Ty::Int(32)], Vec::new(), Some(Ty::Int(32)));
    let f = UnitData::new(UnitKind::Function, UnitName::global("sq".to_string()), fsig);
    assert!(f.sig.has_return_type());
    assert!(!f.sig.has_outputs());
    assert_eq!(f.sig.return_type(), Ty::Int(32));
    let psig = Signature::new(vec![Ty::Signal(8)], vec![Ty::Signal(8)], None);
    let p = UnitData::new(UnitKind::Process, UnitName::local("pp".to_string()), psig);
    assert!(!p.sig.has_return_type());
    assert!(p.sig.has_outputs());
    assert_eq!(p.sig.num_args(), 2);
    assert_eq!(p.sig.arg_ty(1), Ty::Signal(8));
}

#[test]
fn value_names_hints_and_locations() {
    let mut b = empty_function("named");
    let bb0 = b.block();
    b.append_to(bb0);
    let ci = b.build_inst(const_i32(5), Ty::Int(32));
    let c = b.data().dfg.inst_result(ci);
    b.set_name(c, "five".to_string());
    assert_eq!(b.data().dfg.get_name(c), Some("five"));
    let taken = b.clear_name(c);
    assert_eq!(taken, Some("five".to_string()));
    assert_eq!(b.data().dfg.get_name(c), None);
    b.set_anonymous_hint(c, 12);
    assert_eq!(b.data().dfg.get_anonymous_hint(c), Some(12));
    assert_eq!(b.clear_anonymous_hint(c), Some(12));
    b.set_location_hint(ci, 77);
    assert_eq!(b.data().dfg.location_hint(ci), Some(77));
    b.set_block_name(bb0, "entry".to_string());
    assert_eq!(b.clear_block_name(bb0), Some("entry".to_string()));
    b.set_anonymous_block_hint(bb0, 4);
    assert_eq!(b.clear_anonymous_block_hint(bb0), Some(4));
}

#[test]
fn extern_units() {
    let mut b = empty_function("caller");
    let esig = Signature::new(vec![Ty::Int(16)], Vec::new(), Some(Ty::Int(16)));
    let e = b.add_extern(UnitName::global("callee".to_string()), esig);
    let u = b.finish();
    assert_eq!(u.extern_name(e).display(), "@callee");
    assert_eq!(u.extern_sig(e).num_inputs(), 1);
    assert_eq!(u.extern_sig(e).return_type(), Ty::Int(16));
}

#[test]
fn replace_block_use_rewrites_targets() {
    let sig = Signature::new(Vec::new(), Vec::new(), None);
    let data = UnitData::new(UnitKind::Process, UnitName::anonymous(8), sig);
    let mut b = UnitBuilder::new_anonymous(data);
    let b0 = b.block();
    let b1 = b.block();
    let b2 = b.block();
    b.append_to(b0);
    let br = b.build_inst(jump(b1), Ty::Void);
    let n = b.replace_block_use(b1, b2);
    assert_eq!(n, 1);
    assert_eq!(b.data().dfg.inst_blocks(br).as_slice(), &[b2]);
    // Nothing referenced b0, so rewriting it reports zero.
    assert_eq!(b.replace_block_use(b0, b2), 0);
}

#[test]
fn unit_name_and_signature_mutation() {
    let mut b = empty_function("before_rename");
    b.set_unit_name(UnitName::global("after_rename".to_string()));
    assert_eq!(b.name().display(), "@after_rename");
    let u = b.finish();
    assert_eq!(u.name().display(), "@after_rename");
    assert_eq!(u.kind(), UnitKind::Function);
}

#[test]
fn constant_queries_by_kind() {
    let mut b = empty_function("consts");
    let bb0 = b.block();
    b.append_to(bb0);
    let ti = b.build_inst(
        InstData {
            opcode: Opcode::ConstTime,
            args: Vec::new(),
            bbs: Vec::new(),
            imm: Some(ConstValue::Time(TimeValue { time: 1000, delta: 2, epsilon: 3 })),
            ext: None,
        },
        Ty::Time,
    );
    let ai = b.build_inst(
        InstData {
            opcode: Opcode::ConstArray,
            args: Vec::new(),
            bbs: Vec::new(),
            imm: Some(ConstValue::Array(ArrayValue {
                elems: vec![IntValue { width: 8, value: 1 }, IntValue { width: 8, value: 2 }],
            })),
            ext: None,
        },
        Ty::Int(16),
    );
    let si = b.build_inst(
        InstData {
            opcode: Opcode::ConstStruct,
            args: Vec::new(),
            bbs: Vec::new(),
            imm: Some(ConstValue::Struct(StructValue {
                fields: vec![IntValue { width: 4, value: 9 }],
            })),
            ext: None,
        },
        Ty::Int(4),
    );
    let u = b.finish();
    let tv = u.inst_result(ti);
    let av = u.inst_result(ai);
    let sv = u.inst_result(si);
    assert_eq!(u.get_const_time(tv), Some(&TimeValue { time: 1000, delta: 2, epsilon: 3 }));
    assert!(u.get_const_int(tv).is_none());
    let arr = u.get_const_array(av).unwrap();
    assert_eq!(arr.elems.len(), 2);
    assert_eq!(arr.elems[1], IntValue { width: 8, value: 2 });
    let st = u.get_const_struct(sv).unwrap();
    assert_eq!(st.fields[0].value, 9);
    assert!(u.get_const(tv).is_some());
}

#[test]
fn decimal_rendering_extremes() {
    assert_eq!(UnitName::Anonymous(0).display(), "%0");
    assert_eq!(UnitName::Anonymous(9).display(), "%9");
    assert_eq!(UnitName::Anonymous(10).display(), "%10");
    assert_eq!(UnitName::Anonymous(4294967295).display(), "%4294967295");
}

#[test]
fn argument_iteration_orders() {
    let sig = Signature::new(vec![Ty::Int(8), Ty::Int(16)], vec![Ty::Int(32)], None);
    let data = UnitData::new(UnitKind::Process, UnitName::anonymous(1), sig);
    let u = Unit::new_anonymous(data);
    let ins = u.input_args();
    let outs = u.output_args();
    let all = u.args();
    assert_eq!(ins.len(), 2);
    assert_eq!(outs.len(), 1);
    assert_eq!(all.len(), 3);
    assert_eq!(all[0], ins[0]);
    assert_eq!(all[1], ins[1]);
    assert_eq!(all[2], outs[0]);
    assert_eq!(u.value_type(ins[1]), Ty::Int(16));
    assert_eq!(u.value_type(outs[0]), Ty::Int(32));
    assert_eq!(u.arg_value(Arg(2)), outs[0]);
}

#[test]
fn staged_instruction_then_manual_placement() {
    let mut b = empty_function("staged");
    let bb0 = b.block();
    b.append_to(bb0);
    let anchor = b.build_inst(const_i32(1), Ty::Int(32));
    // Staging allocates without placing; the builder's typed cursor moves
    // place later insertions around the anchor.
    let staged = b.add_inst(const_i32(2), Ty::Int(32));
    assert!(b.data().dfg.is_inst_live(staged));
    assert!(!b.data().layout.is_inst_placed(staged));
    assert_eq!(b.data().layout.insts(bb0).as_slice(), &[anchor]);
}

#[test]
fn block_insertion_positions() {
    let mut layout = Layout::new();
    let b0 = Block(0);
    let b1 = Block(1);
    let b2 = Block(2);
    let b3 = Block(3);
    layout.append_block(b0);
    layout.append_block(b2);
    layout.insert_block_after(b1, b0);
    layout.insert_block_before(b3, b0);
    assert_eq!(layout.blocks().as_slice(), &[b3, b0, b1, b2]);
    layout.remove_block(b0);
    assert_eq!(layout.blocks().as_slice(), &[b3, b1, b2]);
    assert_eq!(layout.entry(), b3);
}
