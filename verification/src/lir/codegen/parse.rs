//! The first stage: three-address code to LIR over virtual registers. The
//! prologue and epilogue stay placeholders until the frame is known.

use vstd::prelude::*;
use crate::assembly::{Register, spec_x};
use crate::common::{Constant, DataType, FuncType, InitVal, StrDescriptor, bool_value, trunc_div, trunc_rem};
use crate::tac::{TacInsn, TacOperand, TacUnaryOp, TacBinaryOp, TacLabelOperand, TacFunction, TacTopLevel, TacParam, TacStaticVar};
use super::super::lir::{Operand, Insn, IntermediateInsn, LabelOperand, LabelSignature, Function, StaticVar,
    DataSegment, BssSegment, TopLevel};
use super::{CodeGen, FuncContext, Parse, RegAlloc, lookup, find};

verus! {

/// Whether an operand already has its place: a temporary or a local
/// variable its virtual register.
pub open spec fn operand_mapped(cx: FuncContext, o: TacOperand) -> bool {
    match o {
        TacOperand::Temp(id, _) => lookup(cx.tmap@, id) is Some,
        TacOperand::Var { local_id: Some(id), .. } => lookup(cx.vmap@, id) is Some,
        _ => true,
    }
}

/// The temporaries map, the variables map and the next free virtual register.
pub type VregState = (Seq<(usize, usize)>, Seq<(usize, usize)>, int);

/// The virtual-register state of a function context.
pub open spec fn cx_state(cx: FuncContext) -> VregState {
    (cx.tmap@, cx.vmap@, cx.next_v_reg as int)
}

/// Maps one operand: a temporary or local variable seen for the first time
/// gets the next free virtual register.
pub open spec fn map_step(st: VregState, o: TacOperand) -> VregState {
    match o {
        TacOperand::Temp(id, _) => if lookup(st.0, id) is Some { st } else { (st.0.push((id, st.2 as usize)), st.1, st.2 + 1) },
        TacOperand::Var { local_id: Some(id), .. } =>
            if lookup(st.1, id) is Some { st } else { (st.0, st.1.push((id, st.2 as usize)), st.2 + 1) },
        _ => st,
    }
}

/// Maps the operands in order.
pub open spec fn map_all(st: VregState, ops: Seq<TacOperand>) -> VregState
    decreases ops.len(),
{
    if ops.len() == 0 { st } else { map_step(map_all(st, ops.drop_last()), ops.last()) }
}

proof fn lemma_map_all_prefix(st: VregState, ops: Seq<TacOperand>, j: int)
    requires 0 <= j < ops.len(),
    ensures map_all(st, ops.subrange(0, j + 1)) == map_step(map_all(st, ops.subrange(0, j)), ops[j]),
{
    assert(ops.subrange(0, j + 1).drop_last() =~= ops.subrange(0, j));
}

/// The LIR operand of a three-address operand under the maps of `cx`.
pub open spec fn lir_operand(cx: FuncContext, o: TacOperand) -> Operand {
    match o {
        TacOperand::Imm(c) => Operand::Imm(c.spec_value()),
        TacOperand::Temp(id, _) => Operand::VirtReg(lookup(cx.tmap@, id)->0),
        TacOperand::Var { local_id: Some(id), .. } => Operand::VirtReg(lookup(cx.vmap@, id)->0),
        TacOperand::Var { name, local_id: None, .. } => Operand::Static(name),
    }
}

/// `new` is `old` with perhaps more temporaries and variables mapped; what
/// was mapped stays.
pub open spec fn cx_extends(new: FuncContext, old: FuncContext) -> bool {
    &&& new.name == old.name && new.type_ == old.type_
    &&& new.frame_size == old.frame_size && new.mmap == old.mmap && new.callee_saved == old.callee_saved
    &&& new.next_v_reg >= old.next_v_reg
    &&& forall|k: usize| #[trigger] lookup(old.tmap@, k) is Some ==> lookup(new.tmap@, k) == lookup(old.tmap@, k)
    &&& forall|k: usize| #[trigger] lookup(old.vmap@, k) is Some ==> lookup(new.vmap@, k) == lookup(old.vmap@, k)
}

/// The number given to a label signature, the last entry winning.
pub open spec fn label_lookup(t: Seq<(LabelSignature, usize)>, s: LabelSignature) -> Option<usize>
    decreases t.len(),
{
    if t.len() == 0 {
        None
    } else if t.last().0 == s {
        Some(t.last().1)
    } else {
        label_lookup(t.drop_last(), s)
    }
}

/// The LIR label of a label of function `func`, under the label map `lm`.
pub open spec fn lir_label(lm: Seq<(LabelSignature, usize)>, func: StrDescriptor, l: TacLabelOperand) -> LabelOperand {
    LabelOperand::AutoGen(label_lookup(lm, LabelSignature::Tac { func, label: l })->0)
}

/// The size in bytes of a value of a sized type.
pub open spec fn size_of(t: DataType) -> usize {
    t.spec_size()
}

/// The bytes the arguments past the eighth take on the stack, rounded up to 16.
pub open spec fn padded_size(n: int) -> int {
    ((n - 8) * 8 + 15) / 16 * 16
}

/// Stores an outgoing argument to its stack slot.
pub open spec fn store_arg(o: Operand, t: DataType, offset: int) -> Insn {
    if size_of(t) == 4 { Insn::Sw(o, Operand::spec_stack(offset as isize, 4)) } else { Insn::Sd(o, Operand::spec_stack(offset as isize, 8)) }
}

/// The lowering of a call: arguments to `a0`..`a7`, the rest to the stack.
pub open spec fn lower_call(cx: FuncContext, target: StrDescriptor, args: Seq<TacOperand>, dst: TacOperand) -> Seq<Insn> {
    let n = args.len() as int;
    let regs = Seq::new(if n < 8 { n as nat } else { 8 }, |i: int| Insn::Mv(Operand::PhysReg(spec_x(10 + i)), lir_operand(cx, args[i])));
    let sp = Operand::PhysReg(Register::Sp);
    let stores = Seq::new(if n > 8 { (n - 8) as nat } else { 0 },
        |k: int| store_arg(lir_operand(cx, args[8 + k]), args[8 + k].spec_data_type(), k * 8));
    if n > 8 {
        regs + seq![Insn::Addi(sp, sp, -padded_size(n) as i64)] + stores
            + seq![Insn::Call(target), Insn::Mv(lir_operand(cx, dst), Operand::PhysReg(Register::A0))]
            + seq![Insn::Addi(sp, sp, padded_size(n) as i64)]
    } else {
        regs + seq![Insn::Call(target), Insn::Mv(lir_operand(cx, dst), Operand::PhysReg(Register::A0))]
    }
}

/// The lowering of a binary operation on operands of `size` bytes.
pub open spec fn lower_binary(op: TacBinaryOp, size: usize, d: Operand, l: Operand, r: Operand) -> Seq<Insn> {
    let w = size == 4;
    let ext = if w { seq![Insn::Sextw(l, l), Insn::Sextw(r, r)] } else { Seq::empty() };
    match op {
        TacBinaryOp::Add => seq![if w { Insn::Addw(d, l, r) } else { Insn::Add(d, l, r) }],
        TacBinaryOp::Sub => seq![if w { Insn::Subw(d, l, r) } else { Insn::Sub(d, l, r) }],
        TacBinaryOp::Mul => seq![if w { Insn::Mulw(d, l, r) } else { Insn::Mul(d, l, r) }],
        TacBinaryOp::Div => seq![if w { Insn::Divw(d, l, r) } else { Insn::Div(d, l, r) }],
        TacBinaryOp::Rem => seq![if w { Insn::Remw(d, l, r) } else { Insn::Rem(d, l, r) }],
        TacBinaryOp::Eq => ext + seq![Insn::Sub(d, l, r), Insn::Seqz(d, d)],
        TacBinaryOp::NotEq => ext + seq![Insn::Sub(d, l, r), Insn::Snez(d, d)],
        TacBinaryOp::Ls => ext + seq![Insn::Slt(d, l, r)],
        TacBinaryOp::Gt => ext + seq![Insn::Sgt(d, l, r)],
        TacBinaryOp::LsEq => ext + seq![Insn::Sgt(d, l, r), Insn::Seqz(d, d)],
        TacBinaryOp::GtEq => ext + seq![Insn::Slt(d, l, r), Insn::Seqz(d, d)],
        _ => Seq::empty(),
    }
}

/// The LIR instructions of one instruction of function `func`, under the
/// maps `cx` and labels `lm` in force after it.
pub open spec fn lower_insn(i: TacInsn, cx: FuncContext, lm: Seq<(LabelSignature, usize)>, func: StrDescriptor) -> Seq<Insn> {
    match i {
        TacInsn::Move { src, dst } => seq![Insn::Mv(lir_operand(cx, dst), lir_operand(cx, src))],
        TacInsn::Return(v) => seq![Insn::Mv(Operand::PhysReg(Register::A0), lir_operand(cx, v)), Insn::Intermediate(IntermediateInsn::Epilogue)],
        TacInsn::Unary { op, src, dst } => {
            let d = lir_operand(cx, dst);
            let s = lir_operand(cx, src);
            let w = size_of(dst.spec_data_type()) == 4;
            match op {
                TacUnaryOp::Pos => Seq::empty(),
                TacUnaryOp::Not => if w { seq![Insn::Sextw(d, s), Insn::Seqz(d, d)] } else { seq![Insn::Seqz(d, s)] },
                TacUnaryOp::Complement => seq![Insn::Not(d, s)],
                TacUnaryOp::Negate => if w { seq![Insn::Negw(d, s)] } else { seq![Insn::Neg(d, s)] },
            }
        },
        TacInsn::Binary { op, left, right, dst } =>
            lower_binary(op, size_of(left.spec_data_type()), lir_operand(cx, dst), lir_operand(cx, left), lir_operand(cx, right)),
        TacInsn::Jump(l) => seq![Insn::J(lir_label(lm, func, l))],
        TacInsn::BranchIfZero { src, label } =>
            seq![Insn::Beq(lir_operand(cx, src), Operand::PhysReg(Register::Zero), lir_label(lm, func, label))],
        TacInsn::BranchNotZero { src, label } =>
            seq![Insn::Bne(lir_operand(cx, src), Operand::PhysReg(Register::Zero), lir_label(lm, func, label))],
        TacInsn::Label(l) => seq![Insn::Label(lir_label(lm, func, l))],
        TacInsn::SignExt { src, dst } => seq![Insn::Sextw(lir_operand(cx, dst), lir_operand(cx, src))],
        TacInsn::Truncate { src, dst } => seq![Insn::Mv(lir_operand(cx, dst), lir_operand(cx, src))],
        TacInsn::FuncCall { target, args, dst } => lower_call(cx, target, args@, dst),
    }
}

/// The operands of an instruction.
pub open spec fn insn_operands(i: TacInsn) -> Seq<TacOperand> {
    match i {
        TacInsn::Move { src, dst } => seq![src, dst],
        TacInsn::Return(v) => seq![v],
        TacInsn::Unary { op, src, dst } => if op is Pos { Seq::empty() } else { seq![src, dst] },
        TacInsn::Binary { left, right, dst, .. } => seq![left, right, dst],
        TacInsn::BranchIfZero { src, .. } => seq![src],
        TacInsn::BranchNotZero { src, .. } => seq![src],
        TacInsn::SignExt { src, dst } => seq![src, dst],
        TacInsn::Truncate { src, dst } => seq![src, dst],
        TacInsn::FuncCall { args, dst, .. } => seq![dst] + args@,
        _ => Seq::empty(),
    }
}

/// An instruction the lowering accepts: sized operand types that agree
/// where an operation needs them to, and no short-circuit operator left.
pub open spec fn lowerable(i: TacInsn) -> bool {
    match i {
        TacInsn::Unary { op, src, dst } => op is Pos || (dst.spec_data_type().is_sized() && src.spec_data_type() == dst.spec_data_type()),
        TacInsn::Binary { op, left, right, dst } => !(op is And || op is Or) && left.spec_data_type().is_sized()
            && left.spec_data_type() == right.spec_data_type() && left.spec_data_type() == dst.spec_data_type(),
        TacInsn::FuncCall { args, .. } => args@.len() <= 0x1000_0000
            && forall|k: int| 8 <= k < args@.len() ==> (#[trigger] args@[k]).spec_data_type().is_sized(),
        _ => true,
    }
}


/// The label an instruction refers to, if any.
pub open spec fn insn_label(i: TacInsn) -> Option<TacLabelOperand> {
    match i {
        TacInsn::Jump(l) => Some(l),
        TacInsn::Label(l) => Some(l),
        TacInsn::BranchIfZero { label, .. } => Some(label),
        TacInsn::BranchNotZero { label, .. } => Some(label),
        _ => None,
    }
}

/// The lowering of a body, instruction by instruction, under the final maps.
pub open spec fn body_lowered(body: Seq<TacInsn>, cx: FuncContext, lm: Seq<(LabelSignature, usize)>, func: StrDescriptor) -> Seq<Insn>
    decreases body.len(),
{
    if body.len() == 0 {
        Seq::empty()
    } else {
        body_lowered(body.drop_last(), cx, lm, func) + lower_insn(body.last(), cx, lm, func)
    }
}

/// The number of operands of a body.
pub open spec fn body_operands(body: Seq<TacInsn>) -> nat
    decreases body.len(),
{
    if body.len() == 0 { 0 } else { body_operands(body.drop_last()) + insn_operands(body.last()).len() }
}

/// Loads a parameter passed on the stack into its virtual register.
pub open spec fn load_param(v: Operand, t: DataType, offset: int) -> Insn {
    if size_of(t) == 4 { Insn::Lw(v, Operand::spec_frame(offset as isize, 4)) } else { Insn::Ld(v, Operand::spec_frame(offset as isize, 8)) }
}

/// The code that moves the parameters into their virtual registers.
pub open spec fn params_code(params: Seq<TacParam>, cx: FuncContext) -> Seq<Insn> {
    Seq::new(params.len(), |i: int| {
        let v = Operand::VirtReg(lookup(cx.vmap@, params[i].local_id)->0);
        if i < 8 { Insn::Mv(v, Operand::PhysReg(spec_x(10 + i))) } else { load_param(v, params[i].data_type, 8 * (i - 8)) }
    })
}

/// The lowering of an instruction depends only on the places of its
/// operands and the number of its label.
proof fn lemma_lower_stable(i: TacInsn, a: FuncContext, b: FuncContext, la: Seq<(LabelSignature, usize)>,
    lb: Seq<(LabelSignature, usize)>, func: StrDescriptor)
    requires
        cx_extends(b, a), lm_extends(lb, la),
        forall|k: int| 0 <= k < insn_operands(i).len() ==> operand_mapped(a, #[trigger] insn_operands(i)[k]),
        insn_label(i) matches Some(l) ==> label_lookup(la, LabelSignature::Tac { func, label: l }) is Some,
    ensures lower_insn(i, b, lb, func) == lower_insn(i, a, la, func),
{
    let ops = insn_operands(i);
    assert forall|k: int| 0 <= k < ops.len() implies lir_operand(b, #[trigger] ops[k]) == lir_operand(a, ops[k]) by {
        lemma_operand_stable(a, b, ops[k]);
    }
    match i {
        TacInsn::Move { src, dst } => { assert(ops[0] == src && ops[1] == dst); },
        TacInsn::Return(v) => { assert(ops[0] == v); },
        TacInsn::Unary { op, src, dst } => { if !(op is Pos) { assert(ops[0] == src && ops[1] == dst); } },
        TacInsn::Binary { left, right, dst, .. } => { assert(ops[0] == left && ops[1] == right && ops[2] == dst); },
        TacInsn::BranchIfZero { src, label } => { assert(ops[0] == src); },
        TacInsn::BranchNotZero { src, label } => { assert(ops[0] == src); },
        TacInsn::SignExt { src, dst } => { assert(ops[0] == src && ops[1] == dst); },
        TacInsn::Truncate { src, dst } => { assert(ops[0] == src && ops[1] == dst); },
        TacInsn::FuncCall { target, args, dst } => {
            assert(ops[0] == dst);
            assert forall|k: int| 0 <= k < args@.len() implies lir_operand(b, #[trigger] args@[k]) == lir_operand(a, args@[k]) by {
                assert(ops[k + 1] == args@[k]);
            }
            assert(lower_call(b, target, args@, dst) =~= lower_call(a, target, args@, dst));
        },
        _ => {},
    }
}

/// A whole body keeps its lowering as the maps grow.
proof fn lemma_body_stable(body: Seq<TacInsn>, a: FuncContext, b: FuncContext, la: Seq<(LabelSignature, usize)>,
    lb: Seq<(LabelSignature, usize)>, func: StrDescriptor)
    requires
        cx_extends(b, a), lm_extends(lb, la),
        forall|j: int, k: int| 0 <= j < body.len() && 0 <= k < insn_operands(body[j]).len()
            ==> operand_mapped(a, #[trigger] insn_operands(body[j])[k]),
        forall|j: int| 0 <= j < body.len() ==> (#[trigger] insn_label(body[j]) matches Some(l)
            ==> label_lookup(la, LabelSignature::Tac { func, label: l }) is Some),
    ensures body_lowered(body, b, lb, func) == body_lowered(body, a, la, func),
    decreases body.len(),
{
    if body.len() > 0 {
        let p = body.drop_last();
        assert forall|j: int, k: int| 0 <= j < p.len() && 0 <= k < insn_operands(p[j]).len()
            implies operand_mapped(a, #[trigger] insn_operands(p[j])[k]) by {
            assert(p[j] == body[j]);
        }
        assert forall|j: int| 0 <= j < p.len() implies (#[trigger] insn_label(p[j]) matches Some(l)
            ==> label_lookup(la, LabelSignature::Tac { func, label: l }) is Some) by {
            assert(p[j] == body[j]);
        }
        lemma_body_stable(p, a, b, la, lb, func);
        assert(body.last() == body[body.len() - 1]);
        lemma_lower_stable(body.last(), a, b, la, lb, func);
    }
}

proof fn lemma_extends_refl(cx: FuncContext)
    ensures cx_extends(cx, cx),
{
}

proof fn lemma_extends_trans(a: FuncContext, b: FuncContext, c: FuncContext)
    requires cx_extends(b, a), cx_extends(c, b),
    ensures cx_extends(c, a),
{
    assert forall|k: usize| #[trigger] lookup(a.tmap@, k) is Some implies lookup(c.tmap@, k) == lookup(a.tmap@, k) by {
        assert(lookup(b.tmap@, k) == lookup(a.tmap@, k));
    }
    assert forall|k: usize| #[trigger] lookup(a.vmap@, k) is Some implies lookup(c.vmap@, k) == lookup(a.vmap@, k) by {
        assert(lookup(b.vmap@, k) == lookup(a.vmap@, k));
    }
}

/// A mapped operand keeps its LIR operand as the maps grow.
proof fn lemma_operand_stable(a: FuncContext, b: FuncContext, o: TacOperand)
    requires cx_extends(b, a), operand_mapped(a, o),
    ensures operand_mapped(b, o), lir_operand(b, o) == lir_operand(a, o),
{
    match o {
        TacOperand::Temp(id, _) => { assert(lookup(a.tmap@, id) is Some); },
        TacOperand::Var { local_id: Some(id), .. } => { assert(lookup(a.vmap@, id) is Some); },
        _ => {},
    }
}

/// A label keeps its number as more labels are numbered.
pub open spec fn lm_extends(new: Seq<(LabelSignature, usize)>, old: Seq<(LabelSignature, usize)>) -> bool {
    forall|s: LabelSignature| #[trigger] label_lookup(old, s) is Some ==> label_lookup(new, s) == label_lookup(old, s)
}

impl CodeGen<Parse> {
    /// The number of a label, given a fresh one the first time.
    fn map_label(&mut self, sig: LabelSignature) -> (r: usize)
        requires old(self).next_label < usize::MAX,
        ensures
            label_lookup(final(self).lmap@, sig) == Some(r),
            lm_extends(final(self).lmap@, old(self).lmap@),
            final(self).next_label <= old(self).next_label + 1,
            final(self).func_cxs == old(self).func_cxs,
            final(self).cur_func == old(self).cur_func,
    {
        let mut i: usize = self.lmap.len();
        proof { assert(self.lmap@.subrange(0, i as int) =~= self.lmap@); }
        while i > 0
            invariant
                i <= self.lmap@.len(),
                label_lookup(self.lmap@, sig) == label_lookup(self.lmap@.subrange(0, i as int), sig),
            decreases i,
        {
            proof { assert(self.lmap@.subrange(0, i as int).drop_last() =~= self.lmap@.subrange(0, i as int - 1)); }
            if self.lmap[i - 1].0 == sig {
                let id = self.lmap[i - 1].1;
                proof { assert(lm_extends(self.lmap@, self.lmap@)); }
                return id;
            }
            i = i - 1;
        }
        proof { assert(self.lmap@.subrange(0, 0) =~= Seq::<(LabelSignature, usize)>::empty()); }
        let id = self.next_label;
        self.next_label = self.next_label + 1;
        let ghost before = self.lmap@;
        self.lmap.push((sig, id));
        proof {
            assert(self.lmap@.drop_last() =~= before);
            assert forall|s: LabelSignature| #[trigger] label_lookup(before, s) is Some
                implies label_lookup(self.lmap@, s) == label_lookup(before, s) by {
                if s == sig { assert(false); }
            }
        }
        id
    }
}


impl CodeGen<Parse> {
    /// Lowers a call.
    #[verifier::rlimit(40)]
    fn parse_call(&mut self, cx: &mut FuncContext, target: StrDescriptor, args: Vec<TacOperand>, dst: TacOperand) -> (r: Vec<Insn>)
        requires
            args@.len() <= 0x1000_0000,
            forall|k: int| 8 <= k < args@.len() ==> (#[trigger] args@[k]).spec_data_type().is_sized(),
            old(cx).next_v_reg + args@.len() + 1 < usize::MAX,
        ensures
            cx_extends(*final(cx), *old(cx)),
            final(cx).next_v_reg <= old(cx).next_v_reg + args@.len() + 1,
            r@ == lower_call(*final(cx), target, args@, dst),
            operand_mapped(*final(cx), dst),
            forall|k: int| 0 <= k < args@.len() ==> operand_mapped(*final(cx), #[trigger] args@[k]),
            *final(self) == *old(self),
            cx_state(*final(cx)) == map_all(cx_state(*old(cx)), seq![dst] + args@),
    {
        let (dst_op, _) = parse_operand(cx, dst);
        let ghost cx1 = *cx;
        proof {
            lemma_map_all_prefix(cx_state(*old(cx)), seq![dst] + args@, 0);
            assert((seq![dst] + args@).subrange(0, 0) =~= Seq::<TacOperand>::empty());
        }
        let n = args.len();
        let mut arg_ops: Vec<(Operand, DataType)> = Vec::new();
        let mut j: usize = 0;
        while j < n
            invariant
                j <= n, n == args@.len(),
                cx_extends(*cx, *old(cx)),
                cx.next_v_reg <= old(cx).next_v_reg + 1 + j,
                old(cx).next_v_reg + args@.len() + 1 < usize::MAX,
                operand_mapped(*cx, dst) && lir_operand(*cx, dst) == dst_op,
                arg_ops@.len() == j,
                forall|k: int| 0 <= k < j ==> operand_mapped(*cx, args@[k]) && (#[trigger] arg_ops@[k]).0 == lir_operand(*cx, args@[k])
                    && arg_ops@[k].1 == args@[k].spec_data_type(),
                cx_state(*cx) == map_all(cx_state(*old(cx)), (seq![dst] + args@).subrange(0, j + 1)),
            decreases n - j,
        {
            let ghost before = *cx;
            let op = parse_operand(cx, args[j]);
            proof {
                lemma_map_all_prefix(cx_state(*old(cx)), seq![dst] + args@, j + 1);
                assert((seq![dst] + args@)[j + 1] == args@[j as int]);
                lemma_extends_trans(*old(cx), before, *cx);
                lemma_operand_stable(before, *cx, dst);
                assert forall|k: int| 0 <= k < j implies operand_mapped(*cx, args@[k]) && (#[trigger] arg_ops@[k]).0 == lir_operand(*cx, args@[k]) by {
                    lemma_operand_stable(before, *cx, args@[k]);
                }
            }
            arg_ops.push(op);
            j = j + 1;
        }
        let ghost fcx = *cx;
        proof {
            assert((seq![dst] + args@).subrange(0, n + 1) =~= seq![dst] + args@);
            assert forall|k: int| 0 <= k < n implies operand_mapped(*cx, #[trigger] args@[k]) by {
                assert(arg_ops@[k].0 == lir_operand(*cx, args@[k]));
            }
        }
        let mut insns: Vec<Insn> = Vec::new();
        let nregs: usize = if n < 8 { n } else { 8 };
        let mut i: usize = 0;
        while i < nregs
            invariant
                i <= nregs, nregs == (if n < 8 { n } else { 8 }), n == args@.len(), arg_ops@.len() == n,
                forall|k: int| 0 <= k < n ==> (#[trigger] arg_ops@[k]).0 == lir_operand(fcx, args@[k]),
                insns@ == Seq::new(i as nat, |m: int| Insn::Mv(Operand::PhysReg(spec_x(10 + m)), lir_operand(fcx, args@[m]))),
            decreases nregs - i,
        {
            let ghost before = insns@;
            insns.push(Insn::Mv(Operand::PhysReg(Register::a(i)), arg_ops[i].0));
            proof {
                assert(insns@ =~= Seq::new(i as nat + 1, |m: int| Insn::Mv(Operand::PhysReg(spec_x(10 + m)), lir_operand(fcx, args@[m]))));
            }
            i = i + 1;
        }
        let ghost regs = insns@;
        let sp = Operand::PhysReg(Register::Sp);
        if n > 8 {
            let padded: usize = ((n - 8) * 8 + 15) / 16 * 16;
            insns.push(Insn::Addi(sp, sp, -(padded as i64)));
            let ghost head = insns@;
            let mut k: usize = 8;
            while k < n
                invariant
                    8 <= k <= n, n == args@.len(), arg_ops@.len() == n, n <= 0x1000_0000,
                    forall|m: int| 0 <= m < n ==> (#[trigger] arg_ops@[m]).0 == lir_operand(fcx, args@[m])
                        && arg_ops@[m].1 == args@[m].spec_data_type(),
                    forall|m: int| 8 <= m < args@.len() ==> (#[trigger] args@[m]).spec_data_type().is_sized(),
                    insns@ == head + Seq::new((k - 8) as nat,
                        |m: int| store_arg(lir_operand(fcx, args@[8 + m]), args@[8 + m].spec_data_type(), m * 8)),
                decreases n - k,
            {
                let (op, t) = arg_ops[k];
                let offset = ((k - 8) * 8) as isize;
                let insn = if t.size() == 4 {
                    Insn::Sw(op, Operand::stack(offset, 4))
                } else {
                    Insn::Sd(op, Operand::stack(offset, 8))
                };
                insns.push(insn);
                proof {
                    assert(args@[8 + (k - 8)] == args@[k as int]);
                    assert(insns@ =~= head + Seq::new((k + 1 - 8) as nat,
                        |m: int| store_arg(lir_operand(fcx, args@[8 + m]), args@[8 + m].spec_data_type(), m * 8)));
                }
                k = k + 1;
            }
            insns.push(Insn::Call(target));
            insns.push(Insn::Mv(dst_op, Operand::PhysReg(Register::A0)));
            insns.push(Insn::Addi(sp, sp, padded as i64));
        } else {
            insns.push(Insn::Call(target));
            insns.push(Insn::Mv(dst_op, Operand::PhysReg(Register::A0)));
        }
        proof {
            assert(insns@ =~= lower_call(fcx, target, args@, dst));
        }
        insns
    }

    /// Lowers one instruction of function `func`.
    #[verifier::rlimit(60)]
    fn parse_insn(&mut self, cx: &mut FuncContext, func: StrDescriptor, insn: TacInsn) -> (r: Vec<Insn>)
        requires
            lowerable(insn),
            old(cx).next_v_reg + insn_operands(insn).len() < usize::MAX,
            old(self).next_label < usize::MAX,
        ensures
            cx_extends(*final(cx), *old(cx)),
            final(cx).next_v_reg <= old(cx).next_v_reg + insn_operands(insn).len(),
            lm_extends(final(self).lmap@, old(self).lmap@),
            final(self).next_label <= old(self).next_label + 1,
            final(self).func_cxs == old(self).func_cxs,
            final(self).cur_func == old(self).cur_func,
            r@ == lower_insn(insn, *final(cx), final(self).lmap@, func),
            forall|k: int| 0 <= k < insn_operands(insn).len() ==> operand_mapped(*final(cx), #[trigger] insn_operands(insn)[k]),
            insn_label(insn) matches Some(l) ==> label_lookup(final(self).lmap@, LabelSignature::Tac { func, label: l }) is Some,
            cx_state(*final(cx)) == map_all(cx_state(*old(cx)), insn_operands(insn)),
    {
        let ghost cx0 = *cx;
        proof {
            let ops = insn_operands(insn);
            let st = cx_state(*cx);
            reveal_with_fuel(map_all, 4);
            if ops.len() >= 1 { assert(ops.subrange(0, 1).drop_last() =~= Seq::<TacOperand>::empty()); }
            if ops.len() == 1 { assert(ops.drop_last() =~= Seq::<TacOperand>::empty()); }
            if ops.len() == 2 { assert(ops.drop_last() =~= seq![ops[0]]); assert(seq![ops[0]].drop_last() =~= Seq::<TacOperand>::empty()); }
            if ops.len() == 3 {
                assert(ops.drop_last() =~= seq![ops[0], ops[1]]);
                assert(seq![ops[0], ops[1]].drop_last() =~= seq![ops[0]]);
                assert(seq![ops[0]].drop_last() =~= Seq::<TacOperand>::empty());
            }
        }
        proof { lemma_extends_refl(*cx); assert(lm_extends(self.lmap@, self.lmap@)); }
        match insn {
            TacInsn::Move { src, dst } => {
                let (s, _) = parse_operand(cx, src);
                let ghost c1 = *cx;
                let (d, _) = parse_operand(cx, dst);
                proof { lemma_operand_stable(c1, *cx, src); lemma_extends_trans(cx0, c1, *cx); }
                vec![Insn::Mv(d, s)]
            },
            TacInsn::Return(v) => {
                let (o, _) = parse_operand(cx, v);
                vec![Insn::Mv(Operand::PhysReg(Register::A0), o), Insn::Intermediate(IntermediateInsn::Epilogue)]
            },
            TacInsn::Unary { op, src, dst } => {
                match op {
                    TacUnaryOp::Pos => return Vec::new(),
                    _ => {},
                }
                let (s, _) = parse_operand(cx, src);
                let ghost c1 = *cx;
                let (d, t) = parse_operand(cx, dst);
                proof { lemma_operand_stable(c1, *cx, src); lemma_extends_trans(cx0, c1, *cx); }
                let w = t.size() == 4;
                match op {
                    TacUnaryOp::Not => if w { vec![Insn::Sextw(d, s), Insn::Seqz(d, d)] } else { vec![Insn::Seqz(d, s)] },
                    TacUnaryOp::Complement => vec![Insn::Not(d, s)],
                    _ => if w { vec![Insn::Negw(d, s)] } else { vec![Insn::Neg(d, s)] },
                }
            },
            TacInsn::Binary { op, left, right, dst } => {
                let (l, t) = parse_operand(cx, left);
                let ghost c1 = *cx;
                let (r, _) = parse_operand(cx, right);
                let ghost c2 = *cx;
                let (d, _) = parse_operand(cx, dst);
                proof {
                    lemma_operand_stable(c1, c2, left);
                    lemma_operand_stable(c2, *cx, left);
                    lemma_operand_stable(c2, *cx, right);
                    lemma_extends_trans(cx0, c1, c2);
                    lemma_extends_trans(cx0, c2, *cx);
                }
                let w = t.size() == 4;
                let v = match op {
                    TacBinaryOp::Add => vec![if w { Insn::Addw(d, l, r) } else { Insn::Add(d, l, r) }],
                    TacBinaryOp::Sub => vec![if w { Insn::Subw(d, l, r) } else { Insn::Sub(d, l, r) }],
                    TacBinaryOp::Mul => vec![if w { Insn::Mulw(d, l, r) } else { Insn::Mul(d, l, r) }],
                    TacBinaryOp::Div => vec![if w { Insn::Divw(d, l, r) } else { Insn::Div(d, l, r) }],
                    TacBinaryOp::Rem => vec![if w { Insn::Remw(d, l, r) } else { Insn::Rem(d, l, r) }],
                    TacBinaryOp::Eq => if w {
                        vec![Insn::Sextw(l, l), Insn::Sextw(r, r), Insn::Sub(d, l, r), Insn::Seqz(d, d)]
                    } else {
                        vec![Insn::Sub(d, l, r), Insn::Seqz(d, d)]
                    },
                    TacBinaryOp::NotEq => if w {
                        vec![Insn::Sextw(l, l), Insn::Sextw(r, r), Insn::Sub(d, l, r), Insn::Snez(d, d)]
                    } else {
                        vec![Insn::Sub(d, l, r), Insn::Snez(d, d)]
                    },
                    TacBinaryOp::Ls => if w {
                        vec![Insn::Sextw(l, l), Insn::Sextw(r, r), Insn::Slt(d, l, r)]
                    } else {
                        vec![Insn::Slt(d, l, r)]
                    },
                    TacBinaryOp::Gt => if w {
                        vec![Insn::Sextw(l, l), Insn::Sextw(r, r), Insn::Sgt(d, l, r)]
                    } else {
                        vec![Insn::Sgt(d, l, r)]
                    },
                    TacBinaryOp::LsEq => if w {
                        vec![Insn::Sextw(l, l), Insn::Sextw(r, r), Insn::Sgt(d, l, r), Insn::Seqz(d, d)]
                    } else {
                        vec![Insn::Sgt(d, l, r), Insn::Seqz(d, d)]
                    },
                    TacBinaryOp::GtEq => if w {
                        vec![Insn::Sextw(l, l), Insn::Sextw(r, r), Insn::Slt(d, l, r), Insn::Seqz(d, d)]
                    } else {
                        vec![Insn::Slt(d, l, r), Insn::Seqz(d, d)]
                    },
                    _ => Vec::new(),
                };
                proof { assert(v@ =~= lower_binary(op, size_of(left.spec_data_type()), d, l, r)); }
                v
            },
            TacInsn::Jump(label) => {
                let id = self.map_label(LabelSignature::from_tac(func, label));
                vec![Insn::J(LabelOperand::AutoGen(id))]
            },
            TacInsn::BranchIfZero { src, label } => {
                let (s, _) = parse_operand(cx, src);
                let id = self.map_label(LabelSignature::from_tac(func, label));
                vec![Insn::Beq(s, Operand::PhysReg(Register::Zero), LabelOperand::AutoGen(id))]
            },
            TacInsn::BranchNotZero { src, label } => {
                let (s, _) = parse_operand(cx, src);
                let id = self.map_label(LabelSignature::from_tac(func, label));
                vec![Insn::Bne(s, Operand::PhysReg(Register::Zero), LabelOperand::AutoGen(id))]
            },
            TacInsn::Label(label) => {
                let id = self.map_label(LabelSignature::from_tac(func, label));
                vec![Insn::Label(LabelOperand::AutoGen(id))]
            },
            TacInsn::SignExt { src, dst } => {
                let (s, _) = parse_operand(cx, src);
                let ghost c1 = *cx;
                let (d, _) = parse_operand(cx, dst);
                proof { lemma_operand_stable(c1, *cx, src); lemma_extends_trans(cx0, c1, *cx); }
                vec![Insn::Sextw(d, s)]
            },
            TacInsn::Truncate { src, dst } => {
                // a move stands for it: the operations of the smaller type read the low bits.
                let (s, _) = parse_operand(cx, src);
                let ghost c1 = *cx;
                let (d, _) = parse_operand(cx, dst);
                proof { lemma_operand_stable(c1, *cx, src); lemma_extends_trans(cx0, c1, *cx); }
                vec![Insn::Mv(d, s)]
            },
            TacInsn::FuncCall { target, args, dst } => {
                let r = self.parse_call(cx, target, args, dst);
                proof {
                    assert forall|k: int| 0 <= k < insn_operands(insn).len() implies operand_mapped(*cx, #[trigger] insn_operands(insn)[k]) by {
                        if k > 0 { assert(insn_operands(insn)[k] == args@[k - 1]); }
                    }
                }
                r
            },
        }
    }
}


/// The frame offset of a parameter passed on the stack: every slot takes
/// eight bytes.
fn get_param_offset(params: &Vec<TacParam>, param_id: usize) -> (r: isize)
    requires
        8 <= param_id < params@.len(), params@.len() <= 0x1000_0000,
        forall|k: int| 0 <= k < params@.len() ==> (#[trigger] params@[k]).data_type.is_sized(),
    ensures r == 8 * (param_id - 8),
{
    let mut cur_offset: usize = 0;
    let mut i: usize = 8;
    while i < param_id
        invariant 8 <= i <= param_id, param_id < params@.len(), params@.len() <= 0x1000_0000,
            forall|k: int| 0 <= k < params@.len() ==> (#[trigger] params@[k]).data_type.is_sized(),
            cur_offset == 8 * (i - 8),
        decreases param_id - i,
    {
        let size = params[i - 1].data_type.size();
        let slot = (size + 7) / 8 * 8;
        cur_offset = cur_offset + slot;
        i = i + 1;
    }
    cur_offset as isize
}

/// Every label the body refers to has its number in `lm`.
pub open spec fn labels_numbered(body: Seq<TacInsn>, lm: Seq<(LabelSignature, usize)>, func: StrDescriptor) -> bool {
    forall|j: int| 0 <= j < body.len() ==> (#[trigger] insn_label(body[j]) matches Some(l)
        ==> label_lookup(lm, LabelSignature::Tac { func, label: l }) is Some)
}

/// A function body the lowering accepts.
pub open spec fn body_lowerable(params: Seq<TacParam>, body: Seq<TacInsn>) -> bool {
    &&& params.len() <= 0x1000_0000
    &&& forall|k: int| 0 <= k < params.len() ==> (#[trigger] params[k]).data_type.is_sized()
    &&& forall|i: int, j: int| 0 <= i < j < params.len() ==> params[i].local_id != params[j].local_id
    &&& forall|k: int| 0 <= k < body.len() ==> lowerable(#[trigger] body[k])
    &&& params.len() + body_operands(body) < 0x8000_0000
    &&& body.len() < 0x8000_0000
}

proof fn lemma_body_prefix(body: Seq<TacInsn>, j: int, cx: FuncContext, lm: Seq<(LabelSignature, usize)>, func: StrDescriptor)
    requires 0 <= j < body.len(),
    ensures
        body.subrange(0, j + 1).drop_last() == body.subrange(0, j),
        body_lowered(body.subrange(0, j + 1), cx, lm, func) == body_lowered(body.subrange(0, j), cx, lm, func) + lower_insn(body[j], cx, lm, func),
        body_operands(body.subrange(0, j + 1)) == body_operands(body.subrange(0, j)) + insn_operands(body[j]).len(),
{
    assert(body.subrange(0, j + 1).drop_last() =~= body.subrange(0, j));
}

proof fn lemma_body_operands_mono(body: Seq<TacInsn>, j: int)
    requires 0 <= j <= body.len(),
    ensures body_operands(body.subrange(0, j)) <= body_operands(body),
    decreases body.len() - j,
{
    if j < body.len() {
        lemma_body_operands_mono(body, j + 1);
        lemma_body_prefix(body, j, arbitrary(), Seq::empty(), StrDescriptor(0));
    } else {
        assert(body.subrange(0, j) =~= body);
    }
}

impl CodeGen<Parse> {
    /// Lowers the body of a function: the prologue placeholder, the
    /// parameters into virtual registers, then each instruction.
    #[verifier::rlimit(60)]
    fn parse_body(&mut self, cx: &mut FuncContext, func: StrDescriptor, params: &Vec<TacParam>, body: Vec<TacInsn>)
        -> (r: Vec<Insn>)
        requires
            body_lowerable(params@, body@),
            old(cx).next_v_reg == 0, old(cx).vmap@.len() == 0,
            old(self).next_label + body@.len() < usize::MAX,
        ensures
            cx_extends(*final(cx), *old(cx)),
            final(cx).next_v_reg <= params@.len() + body_operands(body@),
            lm_extends(final(self).lmap@, old(self).lmap@),
            final(self).next_label <= old(self).next_label + body@.len(),
            final(self).func_cxs == old(self).func_cxs,
            r@ == seq![Insn::Intermediate(IntermediateInsn::Prologue)] + params_code(params@, *final(cx))
                + body_lowered(body@, *final(cx), final(self).lmap@, func),
            labels_numbered(body@, final(self).lmap@, func),
    {
        let mut insns: Vec<Insn> = Vec::new();
        insns.push(Insn::Intermediate(IntermediateInsn::Prologue));
        proof { lemma_extends_refl(*cx); }
        let mut i: usize = 0;
        while i < params.len()
            invariant
                i <= params@.len(), body_lowerable(params@, body@),
                cx_extends(*cx, *old(cx)), old(cx).next_v_reg == 0, old(cx).vmap@.len() == 0,
                cx.next_v_reg == i,
                forall|k: int| 0 <= k < i ==> lookup(cx.vmap@, (#[trigger] params@[k]).local_id) == Some(k as usize),
                forall|k: int| i <= k < params@.len() ==> lookup(cx.vmap@, (#[trigger] params@[k]).local_id) is None,
                insns@ == seq![Insn::Intermediate(IntermediateInsn::Prologue)] + Seq::new(i as nat, |k: int| {
                    let v = Operand::VirtReg(k as usize);
                    if k < 8 { Insn::Mv(v, Operand::PhysReg(spec_x(10 + k))) } else { load_param(v, params@[k].data_type, 8 * (k - 8)) }
                }),
            decreases params@.len() - i,
        {
            let ghost before = *cx;
            let ghost ins0 = insns@;
            let v = cx.alloc_v_reg();
            let param = params[i];
            if i < 8 {
                insns.push(Insn::Mv(Operand::VirtReg(v), Operand::PhysReg(Register::a(i))));
            } else {
                let offset = get_param_offset(params, i);
                if param.data_type.size() == 4 {
                    insns.push(Insn::Lw(Operand::VirtReg(v), Operand::frame(offset, 4)));
                } else {
                    insns.push(Insn::Ld(Operand::VirtReg(v), Operand::frame(offset, 8)));
                }
            }
            let ghost vm0 = cx.vmap@;
            cx.map_var2vreg(param.local_id, v);
            proof {
                assert(cx.vmap@.drop_last() =~= vm0);
                assert forall|k: usize| #[trigger] lookup(before.vmap@, k) is Some implies lookup(cx.vmap@, k) == lookup(before.vmap@, k) by {
                    if k == param.local_id { assert(false); }
                }
                lemma_extends_trans(*old(cx), before, *cx);
                assert forall|k: int| i + 1 <= k < params@.len() implies lookup(cx.vmap@, (#[trigger] params@[k]).local_id) is None by {
                    assert(params@[k].local_id != params@[i as int].local_id);
                }
                assert forall|k: int| 0 <= k < i + 1 implies lookup(cx.vmap@, (#[trigger] params@[k]).local_id) == Some(k as usize) by {
                    if k < i { assert(params@[k].local_id != params@[i as int].local_id); }
                }
                assert(insns@ =~= seq![Insn::Intermediate(IntermediateInsn::Prologue)] + Seq::new(i as nat + 1, |k: int| {
                    let v = Operand::VirtReg(k as usize);
                    if k < 8 { Insn::Mv(v, Operand::PhysReg(spec_x(10 + k))) } else { load_param(v, params@[k].data_type, 8 * (k - 8)) }
                }));
            }
            i = i + 1;
        }
        let ghost head = insns@;
        let ghost pcx = *cx;
        let ghost lm0 = self.lmap@;
        let ghost orig = body@;
        let n = body.len();
        let mut rest = body;
        let mut j: usize = 0;
        proof {
            assert(orig.subrange(0, 0) =~= Seq::<TacInsn>::empty());
            assert(insns@ =~= head + body_lowered(orig.subrange(0, 0), *cx, self.lmap@, func));
            assert(lm_extends(self.lmap@, self.lmap@));
        }
        while j < n
            invariant
                j <= n, n == orig.len(), orig == body@,
                rest@ == orig.subrange(j as int, n as int),
                body_lowerable(params@, orig),
                old(self).next_label + n < usize::MAX,
                cx_extends(*cx, pcx), cx_extends(pcx, *old(cx)),
                forall|k: int| 0 <= k < params@.len() ==> lookup(pcx.vmap@, (#[trigger] params@[k]).local_id) == Some(k as usize),
                pcx.next_v_reg == params@.len(),
                cx.next_v_reg <= params@.len() + body_operands(orig.subrange(0, j as int)),
                lm_extends(self.lmap@, lm0), lm0 == old(self).lmap@,
                self.next_label <= old(self).next_label + j,
                self.func_cxs == old(self).func_cxs,
                forall|a: int, k: int| 0 <= a < j && 0 <= k < insn_operands(orig[a]).len()
                    ==> operand_mapped(*cx, #[trigger] insn_operands(orig[a])[k]),
                forall|a: int| 0 <= a < j ==> (#[trigger] insn_label(orig[a]) matches Some(l)
                    ==> label_lookup(self.lmap@, LabelSignature::Tac { func, label: l }) is Some),
                insns@ == head + body_lowered(orig.subrange(0, j as int), *cx, self.lmap@, func),
            decreases n - j,
        {
            let insn = rest.remove(0);
            proof {
                assert(insn == orig[j as int]);
                assert(rest@ =~= orig.subrange(j as int + 1, n as int));
                lemma_body_prefix(orig, j as int, *cx, self.lmap@, func);
                lemma_body_operands_mono(orig, j as int + 1);
            }
            let ghost c0 = *cx;
            let ghost l0 = self.lmap@;
            let lowered = self.parse_insn(cx, func, insn);
            proof {
                lemma_extends_trans(pcx, c0, *cx);
                let p = orig.subrange(0, j as int);
                assert forall|a: int, k: int| 0 <= a < p.len() && 0 <= k < insn_operands(p[a]).len()
                    implies operand_mapped(c0, #[trigger] insn_operands(p[a])[k]) by {
                    assert(p[a] == orig[a]);
                }
                assert forall|a: int| 0 <= a < p.len() implies (#[trigger] insn_label(p[a]) matches Some(l)
                    ==> label_lookup(l0, LabelSignature::Tac { func, label: l }) is Some) by {
                    assert(p[a] == orig[a]);
                }
                lemma_body_stable(p, c0, *cx, l0, self.lmap@, func);
                assert forall|a: int, k: int| 0 <= a < j + 1 && 0 <= k < insn_operands(orig[a]).len()
                    implies operand_mapped(*cx, #[trigger] insn_operands(orig[a])[k]) by {
                    if a < j { lemma_operand_stable(c0, *cx, insn_operands(orig[a])[k]); }
                }
                assert forall|a: int| 0 <= a < j + 1 implies (#[trigger] insn_label(orig[a]) matches Some(l)
                    ==> label_lookup(self.lmap@, LabelSignature::Tac { func, label: l }) is Some) by {
                    if a < j {
                        if let Some(l) = insn_label(orig[a]) {
                            assert(label_lookup(l0, LabelSignature::Tac { func, label: l }) is Some);
                        }
                    }
                }
                assert forall|s: LabelSignature| #[trigger] label_lookup(lm0, s) is Some implies label_lookup(self.lmap@, s) == label_lookup(lm0, s) by {
                    assert(label_lookup(l0, s) == label_lookup(lm0, s));
                }
            }
            let ghost ins0 = insns@;
            let mut lowered = lowered;
            insns.append(&mut lowered);
            j = j + 1;
        }
        proof {
            assert(orig.subrange(0, n as int) =~= orig);
            assert(params_code(params@, *cx) =~= Seq::new(params@.len(), |k: int| {
                let v = Operand::VirtReg(k as usize);
                if k < 8 { Insn::Mv(v, Operand::PhysReg(spec_x(10 + k))) } else { load_param(v, params@[k].data_type, 8 * (k - 8)) }
            })) by {
                assert forall|k: int| 0 <= k < params@.len() implies lookup(cx.vmap@, (#[trigger] params@[k]).local_id) == Some(k as usize) by {
                    assert(lookup(pcx.vmap@, params@[k].local_id) == Some(k as usize));
                }
            }
        }
        insns
    }
}


/// Whether a static variable is initialized to a value other than zero.
pub open spec fn in_data(v: TacStaticVar) -> bool {
    v.initializer matches InitVal::Const(c) && !c.spec_is_zero()
}

/// Whether a static variable starts as zero: tentative, or initialized to zero.
pub open spec fn in_bss(v: TacStaticVar) -> bool {
    v.initializer is Tentative || (v.initializer matches InitVal::Const(c) && c.spec_is_zero())
}

pub open spec fn lir_static(v: TacStaticVar) -> StaticVar {
    StaticVar { name: v.name, data_type: v.data_type, linkage: v.linkage, initializer: v.initializer }
}

pub open spec fn data_items(vars: Seq<TacStaticVar>) -> Seq<StaticVar> {
    vars.filter_map(|v: TacStaticVar| if in_data(v) { Some(lir_static(v)) } else { None })
}

pub open spec fn bss_items(vars: Seq<TacStaticVar>) -> Seq<StaticVar> {
    vars.filter_map(|v: TacStaticVar| if in_bss(v) { Some(lir_static(v)) } else { None })
}

/// The number of instructions of the defined functions.
pub open spec fn total_body_len(fs: Seq<TacFunction>) -> nat
    decreases fs.len(),
{
    if fs.len() == 0 {
        0
    } else {
        total_body_len(fs.drop_last()) + match fs.last() {
            TacFunction::Defined { body, .. } => body@.len(),
            TacFunction::Declared { .. } => 0,
        }
    }
}

/// A program the lowering accepts.
pub open spec fn program_lowerable(fs: Seq<TacFunction>) -> bool {
    &&& total_body_len(fs) < 0x8000_0000
    &&& forall|i: int| 0 <= i < fs.len() ==> ((#[trigger] fs[i]) matches TacFunction::Defined { params, body, .. }
        ==> body_lowerable(params@, body@))
}

/// `f` is the lowering of the defined function `t`, its context `cx` and the labels `lm`.
pub open spec fn function_lowered(t: TacFunction, f: Function, cx: FuncContext, lm: Seq<(LabelSignature, usize)>) -> bool {
    t matches TacFunction::Defined { name, linkage, params, body, return_type, .. }
        && f.name == name && f.linkage == linkage && f.frame_size == 0 && f.callee_saved@.len() == 0
        && f.func_type.return_type == return_type
        && f.func_type.param_types@ == params@.map_values(|p: TacParam| p.data_type)
        && f.body@ == seq![Insn::Intermediate(IntermediateInsn::Prologue)] + params_code(params@, cx)
            + body_lowered(body@, cx, lm, name)
}

proof fn lemma_total_prefix(fs: Seq<TacFunction>, j: int)
    requires 0 <= j < fs.len(),
    ensures
        fs.subrange(0, j + 1).drop_last() == fs.subrange(0, j),
        total_body_len(fs.subrange(0, j + 1)) == total_body_len(fs.subrange(0, j)) + match fs[j] {
            TacFunction::Defined { body, .. } => body@.len(),
            TacFunction::Declared { .. } => 0,
        },
{
    assert(fs.subrange(0, j + 1).drop_last() =~= fs.subrange(0, j));
}

proof fn lemma_total_mono(fs: Seq<TacFunction>, j: int)
    requires 0 <= j <= fs.len(),
    ensures total_body_len(fs.subrange(0, j)) <= total_body_len(fs),
    decreases fs.len() - j,
{
    if j < fs.len() {
        lemma_total_mono(fs, j + 1);
        lemma_total_prefix(fs, j);
    } else {
        assert(fs.subrange(0, j) =~= fs);
    }
}

/// The positions of the functions with a body among the first `j` of `fs`, in order.
pub open spec fn defined_upto(fs: Seq<TacFunction>, j: int) -> Seq<int>
    decreases j,
{
    if j <= 0 {
        Seq::empty()
    } else if fs[j - 1] is Defined {
        defined_upto(fs, j - 1).push(j - 1)
    } else {
        defined_upto(fs, j - 1)
    }
}

impl CodeGen<Parse> {
    /// Lowers a program; the next stage gets the contexts of all functions
    /// and the labels.
    #[verifier::rlimit(80)]
    pub fn parse(self, tac: TacTopLevel) -> (r: (TopLevel, CodeGen<RegAlloc>))
        requires
            self.next_label == 0, self.lmap@.len() == 0, self.func_cxs@.len() == 0,
            program_lowerable(tac.functions@),
        ensures
            r.0.strtb == tac.strtb,
            r.0.data_seg.items@ == data_items(tac.static_vars@),
            r.0.bss_seg.items@ == bss_items(tac.static_vars@),
            r.1.func_cxs@.len() == tac.functions@.len(),
            forall|i: int| 0 <= i < tac.functions@.len() ==> (#[trigger] r.1.func_cxs@[i]).0 == tac.functions@[i].spec_name(),
            forall|k: int| 0 <= k < r.0.functions@.len() ==> exists|i: int| 0 <= i < tac.functions@.len()
                && function_lowered(tac.functions@[i], #[trigger] r.0.functions@[k], r.1.func_cxs@[i].1, r.1.lmap@),
            r.0.functions@.len() == defined_upto(tac.functions@, tac.functions@.len() as int).len(),
            forall|k: int| 0 <= k < r.0.functions@.len() ==> {
                let i = #[trigger] defined_upto(tac.functions@, tac.functions@.len() as int)[k];
                &&& 0 <= i < tac.functions@.len()
                &&& function_lowered(tac.functions@[i], r.0.functions@[k], r.1.func_cxs@[i].1, r.1.lmap@)
            },
    {
        let mut this = self;
        let TacTopLevel { functions: tac_functions, static_vars, strtb } = tac;

        let mut data_seg = DataSegment::new();
        let mut bss_seg = BssSegment::new();
        let mut i: usize = 0;
        while i < static_vars.len()
            invariant
                i <= static_vars@.len(),
                data_seg.items@ == data_items(static_vars@.subrange(0, i as int)),
                bss_seg.items@ == bss_items(static_vars@.subrange(0, i as int)),
            decreases static_vars@.len() - i,
        {
            proof { assert(static_vars@.subrange(0, i as int + 1).drop_last() =~= static_vars@.subrange(0, i as int)); }
            let var = static_vars[i];
            let lir_var = StaticVar { name: var.name, data_type: var.data_type, linkage: var.linkage, initializer: var.initializer };
            match var.initializer {
                InitVal::Tentative => bss_seg.add(lir_var),
                InitVal::Const(c) => if c.is_zero() { bss_seg.add(lir_var) } else { data_seg.add(lir_var) },
                InitVal::Absent => {},
            }
            proof {
                let p = static_vars@.subrange(0, i as int + 1);
                assert(p.last() == var);
                assert(data_seg.items@ =~= data_items(p));
                assert(bss_seg.items@ =~= bss_items(p));
            }
            i = i + 1;
        }
        proof { assert(static_vars@.subrange(0, i as int) =~= static_vars@); }

        let ghost orig = tac_functions@;
        let n = tac_functions.len();
        let mut rest = tac_functions;
        let mut functions: Vec<Function> = Vec::new();
        let ghost mut owners: Seq<int> = Seq::empty();
        let mut j: usize = 0;
        while j < n
            invariant
                j <= n, n == orig.len(),
                rest@ == orig.subrange(j as int, n as int),
                program_lowerable(orig),
                this.next_label <= total_body_len(orig.subrange(0, j as int)),
                this.func_cxs@.len() == j,
                forall|a: int| 0 <= a < j ==> (#[trigger] this.func_cxs@[a]).0 == orig[a].spec_name(),
                owners.len() == functions@.len(),
                owners == defined_upto(orig, j as int),
                forall|k: int| 0 <= k < functions@.len() ==> 0 <= #[trigger] owners[k] < j
                    && function_lowered(orig[owners[k]], functions@[k], this.func_cxs@[owners[k]].1, this.lmap@)
                    && (orig[owners[k]] matches TacFunction::Defined { name: nm, body, .. } && labels_numbered(body@, this.lmap@, nm)),
            decreases n - j,
        {
            let func = rest.remove(0);
            proof {
                assert(func == orig[j as int]);
                assert(rest@ =~= orig.subrange(j as int + 1, n as int));
                lemma_total_prefix(orig, j as int);
                lemma_total_mono(orig, j as int + 1);
            }
            let name = func.name();
            let type_ = func.type_();
            let mut cx = FuncContext::new(name, type_);
            let ghost lm0 = this.lmap@;
            let ghost cxs0 = this.func_cxs@;
            match func {
                TacFunction::Defined { return_type, linkage, name, params, body, .. } => {
                    this.cur_func = Some(name);
                    let lowered = this.parse_body(&mut cx, name, &params, body);
                    let f = Function {
                        name,
                        linkage,
                        func_type: cx.type_.duplicate(),
                        body: lowered,
                        frame_size: 0,
                        callee_saved: Vec::new(),
                    };
                    functions.push(f);
                    proof { owners = owners.push(j as int); }
                    this.cur_func = None;
                },
                TacFunction::Declared { .. } => {
                    proof { assert(lm_extends(this.lmap@, this.lmap@)); }
                },
            }
            this.func_cxs.push((name, cx));
            proof {
                assert forall|k: int| 0 <= k < functions@.len() implies 0 <= #[trigger] owners[k] < j + 1
                    && function_lowered(orig[owners[k]], functions@[k], this.func_cxs@[owners[k]].1, this.lmap@)
                    && (orig[owners[k]] matches TacFunction::Defined { name: nm, body, .. } && labels_numbered(body@, this.lmap@, nm)) by {
                    if owners[k] < j {
                        let t = orig[owners[k]];
                        assert(this.func_cxs@[owners[k]] == cxs0[owners[k]]);
                        if let TacFunction::Defined { name: nm, params, body, .. } = t {
                            lemma_body_stable_labels(body@, this.func_cxs@[owners[k]].1, lm0, this.lmap@, nm);
                            assert forall|a: int| 0 <= a < body@.len() implies (#[trigger] insn_label(body@[a]) matches Some(l)
                                ==> label_lookup(this.lmap@, LabelSignature::Tac { func: nm, label: l }) is Some) by {
                                if let Some(l) = insn_label(body@[a]) {
                                    assert(label_lookup(lm0, LabelSignature::Tac { func: nm, label: l }) is Some);
                                }
                            }
                        }
                    }
                }
            }
            j = j + 1;
        }
        proof {
            assert forall|k: int| 0 <= k < functions@.len() implies exists|i: int| 0 <= i < orig.len()
                && function_lowered(orig[i], #[trigger] functions@[k], this.func_cxs@[i].1, this.lmap@) by {
                assert(function_lowered(orig[owners[k]], functions@[k], this.func_cxs@[owners[k]].1, this.lmap@));
            }
        }
        (TopLevel { functions, data_seg, bss_seg, strtb },
         CodeGen { func_cxs: this.func_cxs, cur_func: None, next_label: this.next_label, lmap: this.lmap,
            _stage: core::marker::PhantomData })
    }
}

/// A body keeps its lowering when labels of other places are numbered: the
/// labels it uses are numbered already.
proof fn lemma_body_stable_labels(body: Seq<TacInsn>, cx: FuncContext, la: Seq<(LabelSignature, usize)>,
    lb: Seq<(LabelSignature, usize)>, func: StrDescriptor)
    requires
        lm_extends(lb, la),
        forall|j: int| 0 <= j < body.len() ==> (#[trigger] insn_label(body[j]) matches Some(l)
            ==> label_lookup(la, LabelSignature::Tac { func, label: l }) is Some),
    ensures body_lowered(body, cx, lb, func) == body_lowered(body, cx, la, func),
    decreases body.len(),
{
    if body.len() > 0 {
        let p = body.drop_last();
        assert forall|j: int| 0 <= j < p.len() implies (#[trigger] insn_label(p[j]) matches Some(l)
            ==> label_lookup(la, LabelSignature::Tac { func, label: l }) is Some) by {
            assert(p[j] == body[j]);
        }
        lemma_body_stable_labels(p, cx, la, lb, func);
        assert(body.last() == body[body.len() - 1]);
        if let Some(l) = insn_label(body.last()) {
            assert(label_lookup(lb, LabelSignature::Tac { func, label: l }) == label_lookup(la, LabelSignature::Tac { func, label: l }));
        }
        assert(lower_insn(body.last(), cx, lb, func) == lower_insn(body.last(), cx, la, func));
    }
}

/// The LIR operand of a three-address operand and its type; a temporary or
/// local variable seen for the first time gets a fresh virtual register.
fn parse_operand(cx: &mut FuncContext, operand: TacOperand) -> (r: (Operand, DataType))
    requires old(cx).next_v_reg < usize::MAX,
    ensures
        cx_extends(*final(cx), *old(cx)),
        final(cx).next_v_reg <= old(cx).next_v_reg + 1,
        operand_mapped(*final(cx), operand),
        r.0 == lir_operand(*final(cx), operand),
        r.1 == operand.spec_data_type(),
        cx_state(*final(cx)) == map_step(cx_state(*old(cx)), operand),
{
    let op = match operand {
        TacOperand::Imm(val) => Operand::Imm(val.value()),
        TacOperand::Temp(temp_id, _) => {
            match cx.temp_vreg(temp_id) {
                Some(v) => Operand::VirtReg(v),
                None => {
                    let ghost before = cx.tmap@;
                    let v = cx.alloc_v_reg();
                    cx.map_temp2vreg(temp_id, v);
                    proof {
                        assert(cx.tmap@.drop_last() =~= before);
                        assert forall|k: usize| #[trigger] lookup(before, k) is Some implies lookup(cx.tmap@, k) == lookup(before, k) by {
                            if k == temp_id { assert(false); }
                        }
                    }
                    Operand::VirtReg(v)
                },
            }
        },
        TacOperand::Var { name, local_id, .. } => {
            match local_id {
                Some(id) => match cx.var_vreg(id) {
                    Some(v) => Operand::VirtReg(v),
                    None => {
                        let ghost before = cx.vmap@;
                        let v = cx.alloc_v_reg();
                        cx.map_var2vreg(id, v);
                        proof {
                            assert(cx.vmap@.drop_last() =~= before);
                            assert forall|k: usize| #[trigger] lookup(before, k) is Some implies lookup(cx.vmap@, k) == lookup(before, k) by {
                                if k == id { assert(false); }
                            }
                        }
                        Operand::VirtReg(v)
                    },
                },
                None => Operand::Static(name),
            }
        },
    };
    (op, operand.data_type())
}


/// The value of `x` kept in the low `2^bits` (a power of two, given as `m`)
/// and read as a signed number of that width.
pub open spec fn wrap_to(x: int, m: int) -> int {
    let k = x % m;
    if k >= m / 2 { k - m } else { k }
}

pub open spec fn wrap32(x: int) -> int {
    wrap_to(x, 0x1_0000_0000)
}

pub open spec fn wrap64(x: int) -> int {
    wrap_to(x, 0x1_0000_0000_0000_0000)
}

/// Whether a value fits the signed width of an operand of `size` bytes.
pub open spec fn fits_size(v: int, size: usize) -> bool {
    if size == 4 { -0x8000_0000 <= v < 0x8000_0000 } else { -0x8000_0000_0000_0000 <= v < 0x8000_0000_0000_0000 }
}

/// RISC-V division: by zero gives -1, the overflowing quotient wraps.
pub open spec fn rv_div(a: int, b: int, min: int) -> int {
    if b == 0 { -1 } else if a == min && b == -1 { min } else { trunc_div(a, b) }
}

/// RISC-V remainder: by zero gives the dividend, the overflowing case 0.
pub open spec fn rv_rem(a: int, b: int, min: int) -> int {
    if b == 0 { a } else if a == min && b == -1 { 0 } else { trunc_rem(a, b) }
}

/// The machine state an instruction sequence works on: the value held by
/// each register and frame slot, as a signed 64-bit number.
pub type RvState = spec_fn(Operand) -> int;

pub open spec fn rv_set(st: RvState, d: Operand, v: int) -> RvState {
    |o: Operand| if o == d { v } else { st(o) }
}

/// What one RISC-V instruction does to the values of its operands.
pub open spec fn rv_step(st: RvState, i: Insn) -> RvState {
    match i {
        Insn::Add(d, l, r) => rv_set(st, d, wrap64(st(l) + st(r))),
        Insn::Addw(d, l, r) => rv_set(st, d, wrap32(st(l) + st(r))),
        Insn::Sub(d, l, r) => rv_set(st, d, wrap64(st(l) - st(r))),
        Insn::Subw(d, l, r) => rv_set(st, d, wrap32(st(l) - st(r))),
        Insn::Mul(d, l, r) => rv_set(st, d, wrap64(st(l) * st(r))),
        Insn::Mulw(d, l, r) => rv_set(st, d, wrap32(st(l) * st(r))),
        Insn::Div(d, l, r) => rv_set(st, d, rv_div(st(l), st(r), -0x8000_0000_0000_0000)),
        Insn::Divw(d, l, r) => rv_set(st, d, wrap32(rv_div(wrap32(st(l)), wrap32(st(r)), -0x8000_0000))),
        Insn::Rem(d, l, r) => rv_set(st, d, rv_rem(st(l), st(r), -0x8000_0000_0000_0000)),
        Insn::Remw(d, l, r) => rv_set(st, d, wrap32(rv_rem(wrap32(st(l)), wrap32(st(r)), -0x8000_0000))),
        Insn::Slt(d, l, r) => rv_set(st, d, bool_value(st(l) < st(r))),
        Insn::Sgt(d, l, r) => rv_set(st, d, bool_value(st(l) > st(r))),
        Insn::Seqz(d, s) => rv_set(st, d, bool_value(st(s) == 0)),
        Insn::Snez(d, s) => rv_set(st, d, bool_value(st(s) != 0)),
        Insn::Sextw(d, s) => rv_set(st, d, wrap32(st(s))),
        Insn::Mv(d, s) => rv_set(st, d, st(s)),
        Insn::Neg(d, s) => rv_set(st, d, wrap64(-st(s))),
        Insn::Negw(d, s) => rv_set(st, d, wrap32(-st(s))),
        Insn::Not(d, s) => rv_set(st, d, -st(s) - 1),
        Insn::Li(d, v) => rv_set(st, d, v as int),
        Insn::Addi(d, s, k) => rv_set(st, d, wrap64(st(s) + k)),
        Insn::Addiw(d, s, k) => rv_set(st, d, wrap32(st(s) + k)),
        _ => st,
    }
}

/// What a sequence of instructions does, one after the other.
pub open spec fn rv_run(st: RvState, s: Seq<Insn>) -> RvState
    decreases s.len(),
{
    if s.len() == 0 { st } else { rv_step(rv_run(st, s.drop_last()), s.last()) }
}

/// A value that fits the width keeps its value when wrapped to it.
proof fn lemma_wrap_fits(x: int, m: int)
    requires m == 0x1_0000_0000 || m == 0x1_0000_0000_0000_0000, -(m / 2) <= x < m / 2,
    ensures wrap_to(x, m) == x,
{
    if x >= 0 {
        assert(x % m == x) by (nonlinear_arith) requires 0 <= x < m;
    } else {
        assert(x % m == x + m) by (nonlinear_arith) requires -m <= x < 0, m > 0;
    }
}

/// A difference of two values of one width is zero once wrapped exactly when it is zero.
proof fn lemma_wrap_zero(x: int, m: int)
    requires m == 0x1_0000_0000_0000_0000, -m < x < m,
    ensures (wrap_to(x, m) == 0) == (x == 0),
{
    if x > 0 {
        assert(x % m == x) by (nonlinear_arith) requires 0 < x < m;
    } else if x < 0 {
        assert(x % m == x + m) by (nonlinear_arith) requires -m < x < 0, m > 0;
    }
}

/// The instructions selected for a binary operation compute, on the machine,
/// what the three-address operator computes: a comparison the value 1 exactly
/// when it holds and 0 otherwise, and arithmetic its exact result whenever the
/// operand width holds it (division and remainder by a non-zero divisor).
pub proof fn lemma_lower_binary_meaning(op: TacBinaryOp, size: usize, d: Operand, l: Operand, r: Operand, st: RvState)
    requires
        size == 4 || size == 8,
        fits_size(st(l), size), fits_size(st(r), size),
    ensures ({
        let v = op.meaning(st(l), st(r));
        let out = rv_run(st, lower_binary(op, size, d, l, r))(d);
        &&& (op is Eq || op is NotEq || op is Ls || op is Gt || op is LsEq || op is GtEq) ==> out == v
        &&& (op is Add || op is Sub || op is Mul || ((op is Div || op is Rem) && st(r) != 0)) && fits_size(v, size)
            ==> out == v
    }),
{
    let a = st(l);
    let b = st(r);
    let v = op.meaning(a, b);
    let s = lower_binary(op, size, d, l, r);
    reveal_with_fuel(rv_run, 5);
    let m32: int = 0x1_0000_0000;
    let m64: int = 0x1_0000_0000_0000_0000;
    if size == 4 {
        lemma_wrap_fits(a, m32);
        lemma_wrap_fits(b, m32);
    }
    lemma_wrap_zero(a - b, m64);
    if fits_size(v, size) {
        if size == 4 { lemma_wrap_fits(v, m32); }
        lemma_wrap_fits(v, m64);
        if b == -1 {
            let ua = if a >= 0 { a } else { -a };
            assert(ua / 1 == ua);
            assert(trunc_div(a, b) == -a);
        }
    }
    if s.len() >= 1 { assert(s.drop_last().len() == s.len() - 1); }
    if s.len() == 1 { assert(s.drop_last() =~= Seq::<Insn>::empty()); }
    if s.len() == 2 { assert(s.drop_last() =~= seq![s[0]]); assert(seq![s[0]].drop_last() =~= Seq::<Insn>::empty()); }
    if s.len() == 3 {
        assert(s.drop_last() =~= seq![s[0], s[1]]);
        assert(seq![s[0], s[1]].drop_last() =~= seq![s[0]]);
        assert(seq![s[0]].drop_last() =~= Seq::<Insn>::empty());
    }
    if s.len() == 4 {
        assert(s.drop_last() =~= seq![s[0], s[1], s[2]]);
        assert(seq![s[0], s[1], s[2]].drop_last() =~= seq![s[0], s[1]]);
        assert(seq![s[0], s[1]].drop_last() =~= seq![s[0]]);
        assert(seq![s[0]].drop_last() =~= Seq::<Insn>::empty());
    }
}


/// The instructions selected for a unary operation compute, on the machine,
/// what the three-address operator computes: `!` gives 1 exactly when the
/// operand is 0, `~` minus the operand minus one, and negation the exact
/// negative whenever the width holds it.
pub proof fn lemma_lower_unary_meaning(op: TacUnaryOp, src: TacOperand, dst: TacOperand, cx: FuncContext,
    lm: Seq<(LabelSignature, usize)>, func: StrDescriptor, st: RvState)
    requires
        size_of(dst.spec_data_type()) == 4 || size_of(dst.spec_data_type()) == 8,
        fits_size(st(lir_operand(cx, src)), size_of(dst.spec_data_type())),
    ensures ({
        let s = lir_operand(cx, src);
        let d = lir_operand(cx, dst);
        let v = op.meaning(st(s));
        let out = rv_run(st, lower_insn(TacInsn::Unary { op, src, dst }, cx, lm, func))(d);
        (op is Not || op is Complement || (op is Negate && fits_size(v, size_of(dst.spec_data_type())))) ==> out == v
    }),
{
    let size = size_of(dst.spec_data_type());
    let s = lir_operand(cx, src);
    let a = st(s);
    let seqi = lower_insn(TacInsn::Unary { op, src, dst }, cx, lm, func);
    reveal_with_fuel(rv_run, 3);
    if size == 4 { lemma_wrap_fits(a, 0x1_0000_0000); }
    if op is Negate && fits_size(-a, size) {
        if size == 4 { lemma_wrap_fits(-a, 0x1_0000_0000); }
        lemma_wrap_fits(-a, 0x1_0000_0000_0000_0000);
    }
    if seqi.len() == 1 { assert(seqi.drop_last() =~= Seq::<Insn>::empty()); }
    if seqi.len() == 2 { assert(seqi.drop_last() =~= seq![seqi[0]]); assert(seq![seqi[0]].drop_last() =~= Seq::<Insn>::empty()); }
}

} // verus!
