//! Lowering of canonical LIR to assembly: every operand is a physical
//! register or a memory slot by now, and the prologue and epilogue are
//! expanded with the frame size and the saved registers of the function.

use vstd::prelude::*;
use core::marker::PhantomData;
use crate::lir::{IntermediateInsn, LirBssSegment, LirDataSegment, LirFunction, LirInsn, LirOperand, LirTopLevel};
use super::riscv::{BssSegment, DataSegment, Function, Insn, LabelOperand, Register, StaticVar, TopLevel};
use super::{CodeGen, FuncContext, Opt, Parse};
use crate::lir::codegen::parse::{wrap32, wrap64, rv_div, rv_rem};

verus! {

/// The register of an operand that must be one.
pub open spec fn reg_of(o: LirOperand) -> Register {
    o->PhysReg_0
}

pub open spec fn is_reg(o: LirOperand) -> bool {
    o is PhysReg
}

/// A memory operand of `size` bytes.
pub open spec fn is_mem(o: LirOperand, size: usize) -> bool {
    o matches LirOperand::Mem { size: s, .. } && s == size
}

/// An instruction that has a counterpart in assembly: its register operands
/// are physical registers, its memory operands have the width of the access,
/// and it is no bare `ret` (returns go through the epilogue).
pub open spec fn insn_lowerable(i: LirInsn) -> bool {
    match i {
        LirInsn::Add(a, b, c) | LirInsn::Addw(a, b, c) | LirInsn::Sub(a, b, c) | LirInsn::Subw(a, b, c)
        | LirInsn::Mul(a, b, c) | LirInsn::Mulw(a, b, c) | LirInsn::Div(a, b, c) | LirInsn::Divw(a, b, c)
        | LirInsn::Rem(a, b, c) | LirInsn::Remw(a, b, c) | LirInsn::Slt(a, b, c) | LirInsn::Sgt(a, b, c) =>
            is_reg(a) && is_reg(b) && is_reg(c),
        LirInsn::Ld(a, m) | LirInsn::Sd(a, m) => is_reg(a) && is_mem(m, 8),
        LirInsn::Lw(a, m) | LirInsn::Sw(a, m) => is_reg(a) && is_mem(m, 4),
        LirInsn::Li(a, _) | LirInsn::La(a, _) | LirInsn::LoadStatic(a, _) | LirInsn::StoreStatic(a, _) => is_reg(a),
        LirInsn::Addi(a, b, _) => is_reg(a) && is_reg(b),
        LirInsn::Addiw(a, b, _) => is_reg(a) && is_reg(b),
        LirInsn::Mv(a, b) | LirInsn::Neg(a, b) | LirInsn::Negw(a, b) | LirInsn::Not(a, b)
        | LirInsn::Seqz(a, b) | LirInsn::Snez(a, b) | LirInsn::Sextw(a, b) => is_reg(a) && is_reg(b),
        LirInsn::Beq(a, b, _) | LirInsn::Bne(a, b, _) => is_reg(a) && is_reg(b),
        LirInsn::Ret => false,
        _ => true,
    }
}

/// Grows the frame and saves the registers the function uses.
pub open spec fn prologue(cx: FuncContext) -> Seq<Insn> {
    let fs = cx.frame_size as i64;
    let saved = cx.callee_saved@;
    seq![Insn::Addi(Register::Sp, Register::Sp, fs), Insn::Addi(Register::S0, Register::Sp, (-fs) as i64)]
        + Seq::new(saved.len(), |k: int| Insn::Sd(saved[k].0, Register::S0, saved[k].1))
}

/// Restores the saved registers in reverse order, shrinks the frame and returns.
pub open spec fn epilogue(cx: FuncContext) -> Seq<Insn> {
    let fs = cx.frame_size as i64;
    let saved = cx.callee_saved@;
    let n = saved.len();
    Seq::new(n, |k: int| Insn::Ld(saved[n - 1 - k].0, Register::S0, saved[n - 1 - k].1))
        + seq![Insn::Addi(Register::Sp, Register::Sp, (-fs) as i64), Insn::Ret]
}

/// The assembly for one instruction of LIR.
pub open spec fn lower_insn(i: LirInsn, cx: FuncContext) -> Seq<Insn> {
    match i {
        LirInsn::Add(a, b, c) => seq![Insn::Add(reg_of(a), reg_of(b), reg_of(c))],
        LirInsn::Addw(a, b, c) => seq![Insn::Addw(reg_of(a), reg_of(b), reg_of(c))],
        LirInsn::Sub(a, b, c) => seq![Insn::Sub(reg_of(a), reg_of(b), reg_of(c))],
        LirInsn::Subw(a, b, c) => seq![Insn::Subw(reg_of(a), reg_of(b), reg_of(c))],
        LirInsn::Mul(a, b, c) => seq![Insn::Mul(reg_of(a), reg_of(b), reg_of(c))],
        LirInsn::Mulw(a, b, c) => seq![Insn::Mulw(reg_of(a), reg_of(b), reg_of(c))],
        LirInsn::Div(a, b, c) => seq![Insn::Div(reg_of(a), reg_of(b), reg_of(c))],
        LirInsn::Divw(a, b, c) => seq![Insn::Divw(reg_of(a), reg_of(b), reg_of(c))],
        LirInsn::Rem(a, b, c) => seq![Insn::Rem(reg_of(a), reg_of(b), reg_of(c))],
        LirInsn::Remw(a, b, c) => seq![Insn::Remw(reg_of(a), reg_of(b), reg_of(c))],
        LirInsn::Slt(a, b, c) => seq![Insn::Slt(reg_of(a), reg_of(b), reg_of(c))],
        LirInsn::Sgt(a, b, c) => seq![Insn::Sgt(reg_of(a), reg_of(b), reg_of(c))],
        LirInsn::Ld(a, m) => seq![Insn::Ld(reg_of(a), m->Mem_base, m->Mem_offset)],
        LirInsn::Lw(a, m) => seq![Insn::Lw(reg_of(a), m->Mem_base, m->Mem_offset)],
        LirInsn::Sd(a, m) => seq![Insn::Sd(reg_of(a), m->Mem_base, m->Mem_offset)],
        LirInsn::Sw(a, m) => seq![Insn::Sw(reg_of(a), m->Mem_base, m->Mem_offset)],
        LirInsn::Li(a, imm) => seq![Insn::Li(reg_of(a), imm)],
        LirInsn::La(a, n) => seq![Insn::La(reg_of(a), n)],
        LirInsn::Addi(a, b, imm) => seq![Insn::Addi(reg_of(a), reg_of(b), imm)],
        LirInsn::Addiw(a, b, imm) => seq![Insn::Addiw(reg_of(a), reg_of(b), imm)],
        LirInsn::Mv(a, b) => seq![Insn::Mv(reg_of(a), reg_of(b))],
        LirInsn::Neg(a, b) => seq![Insn::Neg(reg_of(a), reg_of(b))],
        LirInsn::Negw(a, b) => seq![Insn::Negw(reg_of(a), reg_of(b))],
        LirInsn::Not(a, b) => seq![Insn::Not(reg_of(a), reg_of(b))],
        LirInsn::Seqz(a, b) => seq![Insn::Seqz(reg_of(a), reg_of(b))],
        LirInsn::Snez(a, b) => seq![Insn::Snez(reg_of(a), reg_of(b))],
        LirInsn::Sextw(a, b) => seq![Insn::Sextw(reg_of(a), reg_of(b))],
        LirInsn::Beq(a, b, l) => seq![Insn::Beq(reg_of(a), reg_of(b), LabelOperand::spec_from_lir(l))],
        LirInsn::Bne(a, b, l) => seq![Insn::Bne(reg_of(a), reg_of(b), LabelOperand::spec_from_lir(l))],
        LirInsn::J(l) => seq![Insn::J(LabelOperand::spec_from_lir(l))],
        LirInsn::Label(l) => seq![Insn::Label(LabelOperand::spec_from_lir(l))],
        LirInsn::LoadStatic(a, n) => seq![Insn::LoadStatic(reg_of(a), n)],
        LirInsn::StoreStatic(a, n) => seq![Insn::StoreStatic(reg_of(a), n)],
        LirInsn::Call(n) => seq![Insn::Call(n)],
        LirInsn::Intermediate(IntermediateInsn::Prologue) => prologue(cx),
        LirInsn::Intermediate(IntermediateInsn::Epilogue) => epilogue(cx),
        LirInsn::Ret => Seq::empty(),
    }
}

/// The assembly for a body, instruction by instruction.
pub open spec fn body_lowered(body: Seq<LirInsn>, cx: FuncContext) -> Seq<Insn>
    decreases body.len(),
{
    if body.len() == 0 { Seq::empty() } else { body_lowered(body.drop_last(), cx) + lower_insn(body.last(), cx) }
}

/// What the lowering keeps of a function: its name, frame and saved registers.
pub open spec fn context_of(f: LirFunction) -> FuncContext {
    FuncContext { name: f.name, callee_saved: f.callee_saved, frame_size: f.frame_size }
}

/// A function that can be lowered: a frame size that fits an immediate of
/// 64 bits, and every instruction lowerable.
pub open spec fn func_lowerable(f: LirFunction) -> bool {
    &&& f.frame_size <= i64::MAX
    &&& forall|k: int| 0 <= k < f.body@.len() ==> insn_lowerable(#[trigger] f.body@[k])
}

/// `a` is the assembly function for the LIR function `f`.
pub open spec fn func_lowered(f: LirFunction, a: Function) -> bool {
    &&& a.name == f.name
    &&& a.func_type == f.func_type
    &&& a.linkage == f.linkage
    &&& a.body@ == body_lowered(f.body@, context_of(f))
}

fn reg(o: LirOperand) -> (r: Register)
    requires is_reg(o),
    ensures r == reg_of(o),
{
    match o {
        LirOperand::PhysReg(r) => r,
        _ => Register::Zero,
    }
}

/// The base and offset of a memory operand.
fn mem(o: LirOperand) -> (r: (Register, isize))
    requires o is Mem,
    ensures r == (o->Mem_base, o->Mem_offset),
{
    match o {
        LirOperand::Mem { base, offset, .. } => (base, offset),
        _ => (Register::Zero, 0),
    }
}

impl CodeGen<Parse> {
    pub fn new() -> (r: Self)
        ensures r.cur_cx is None,
    {
        CodeGen { cur_cx: None, _stage: PhantomData }
    }

    /// Lowers every function and carries the static variables over.
    pub fn parse(self, lir: LirTopLevel) -> (r: (TopLevel, CodeGen<Opt>))
        requires
            forall|k: int| 0 <= k < lir.functions@.len() ==> func_lowerable(#[trigger] lir.functions@[k]),
        ensures
            r.0.functions@.len() == lir.functions@.len(),
            forall|k: int| 0 <= k < lir.functions@.len() ==> func_lowered(#[trigger] lir.functions@[k], r.0.functions@[k]),
            r.0.data_seg.items@ == lir.data_seg.items@.map_values(|v| StaticVar::spec_from_lir(v)),
            r.0.bss_seg.items@ == lir.bss_seg.items@.map_values(|v| StaticVar::spec_from_lir(v)),
            r.0.strtb == lir.strtb,
            r.1.cur_cx is None,
    {
        let mut this = self;
        let LirTopLevel { functions, data_seg, bss_seg, strtb } = lir;
        let data_items = data_seg.items;
        let bss_items = bss_seg.items;
        let mut data = DataSegment::new();
        let mut i: usize = 0;
        while i < data_items.len()
            invariant
                i <= data_items@.len(),
                data.items@ == data_items@.subrange(0, i as int).map_values(|v| StaticVar::spec_from_lir(v)),
            decreases data_items@.len() - i,
        {
            data.add(StaticVar::from_lir(data_items[i]));
            i = i + 1;
            proof { assert(data.items@ =~= data_items@.subrange(0, i as int).map_values(|v| StaticVar::spec_from_lir(v))); }
        }
        proof { assert(data_items@.subrange(0, i as int) =~= data_items@); }
        let mut bss = BssSegment::new();
        let mut i: usize = 0;
        while i < bss_items.len()
            invariant
                i <= bss_items@.len(),
                bss.items@ == bss_items@.subrange(0, i as int).map_values(|v| StaticVar::spec_from_lir(v)),
            decreases bss_items@.len() - i,
        {
            bss.add(StaticVar::from_lir(bss_items[i]));
            i = i + 1;
            proof { assert(bss.items@ =~= bss_items@.subrange(0, i as int).map_values(|v| StaticVar::spec_from_lir(v))); }
        }
        proof { assert(bss_items@.subrange(0, i as int) =~= bss_items@); }
        let ghost fs0 = functions@;
        let mut rest = functions;
        let mut out: Vec<Function> = Vec::new();
        while rest.len() > 0
            invariant
                fs0.len() == out@.len() + rest@.len(),
                rest@ == fs0.subrange(out@.len() as int, fs0.len() as int),
                forall|k: int| 0 <= k < fs0.len() ==> func_lowerable(#[trigger] fs0[k]),
                forall|k: int| 0 <= k < out@.len() ==> func_lowered(#[trigger] fs0[k], out@[k]),
            decreases rest@.len(),
        {
            let f = rest.remove(0);
            proof { assert(f == fs0[out@.len() as int]); }
            let a = this.parse_func(f);
            out.push(a);
            proof { assert(rest@ =~= fs0.subrange(out@.len() as int, fs0.len() as int)); }
        }
        (TopLevel { functions: out, data_seg: data, bss_seg: bss, strtb }, CodeGen { cur_cx: None, _stage: PhantomData })
    }

    fn parse_func(&mut self, func: LirFunction) -> (r: Function)
        requires func_lowerable(func),
        ensures func_lowered(func, r),
    {
        let LirFunction { name, linkage, func_type, body, frame_size, callee_saved } = func;
        let cx = FuncContext { name, callee_saved, frame_size };
        proof { assert(cx == context_of(func)); }
        let mut out: Vec<Insn> = Vec::new();
        let mut i: usize = 0;
        while i < body.len()
            invariant
                i <= body@.len(),
                body@ == func.body@,
                cx == context_of(func),
                func_lowerable(func),
                out@ == body_lowered(body@.subrange(0, i as int), cx),
            decreases body@.len() - i,
        {
            proof { assert(body@.subrange(0, i as int + 1).drop_last() =~= body@.subrange(0, i as int)); }
            let mut insns = parse_insn(body[i], &cx);
            out.append(&mut insns);
            i = i + 1;
        }
        proof { assert(body@.subrange(0, i as int) =~= body@); }
        self.cur_cx = None;
        Function { name, func_type, body: out, linkage }
    }
}

/// The assembly for one instruction of LIR.
#[verifier::rlimit(40)]
fn parse_insn(insn: LirInsn, cx: &FuncContext) -> (r: Vec<Insn>)
    requires insn_lowerable(insn), cx.frame_size <= i64::MAX,
    ensures r@ == lower_insn(insn, *cx),
{
    let one = match insn {
        LirInsn::Add(a, b, c) => Insn::Add(reg(a), reg(b), reg(c)),
        LirInsn::Addw(a, b, c) => Insn::Addw(reg(a), reg(b), reg(c)),
        LirInsn::Sub(a, b, c) => Insn::Sub(reg(a), reg(b), reg(c)),
        LirInsn::Subw(a, b, c) => Insn::Subw(reg(a), reg(b), reg(c)),
        LirInsn::Mul(a, b, c) => Insn::Mul(reg(a), reg(b), reg(c)),
        LirInsn::Mulw(a, b, c) => Insn::Mulw(reg(a), reg(b), reg(c)),
        LirInsn::Div(a, b, c) => Insn::Div(reg(a), reg(b), reg(c)),
        LirInsn::Divw(a, b, c) => Insn::Divw(reg(a), reg(b), reg(c)),
        LirInsn::Rem(a, b, c) => Insn::Rem(reg(a), reg(b), reg(c)),
        LirInsn::Remw(a, b, c) => Insn::Remw(reg(a), reg(b), reg(c)),
        LirInsn::Slt(a, b, c) => Insn::Slt(reg(a), reg(b), reg(c)),
        LirInsn::Sgt(a, b, c) => Insn::Sgt(reg(a), reg(b), reg(c)),
        LirInsn::Ld(a, m) => { let (base, offset) = mem(m); Insn::Ld(reg(a), base, offset) },
        LirInsn::Lw(a, m) => { let (base, offset) = mem(m); Insn::Lw(reg(a), base, offset) },
        LirInsn::Sd(a, m) => { let (base, offset) = mem(m); Insn::Sd(reg(a), base, offset) },
        LirInsn::Sw(a, m) => { let (base, offset) = mem(m); Insn::Sw(reg(a), base, offset) },
        LirInsn::Li(a, imm) => Insn::Li(reg(a), imm),
        LirInsn::La(a, n) => Insn::La(reg(a), n),
        LirInsn::Addi(a, b, imm) => Insn::Addi(reg(a), reg(b), imm),
        LirInsn::Addiw(a, b, imm) => Insn::Addiw(reg(a), reg(b), imm),
        LirInsn::Mv(a, b) => Insn::Mv(reg(a), reg(b)),
        LirInsn::Neg(a, b) => Insn::Neg(reg(a), reg(b)),
        LirInsn::Negw(a, b) => Insn::Negw(reg(a), reg(b)),
        LirInsn::Not(a, b) => Insn::Not(reg(a), reg(b)),
        LirInsn::Seqz(a, b) => Insn::Seqz(reg(a), reg(b)),
        LirInsn::Snez(a, b) => Insn::Snez(reg(a), reg(b)),
        LirInsn::Sextw(a, b) => Insn::Sextw(reg(a), reg(b)),
        LirInsn::Beq(a, b, l) => Insn::Beq(reg(a), reg(b), LabelOperand::from_lir(l)),
        LirInsn::Bne(a, b, l) => Insn::Bne(reg(a), reg(b), LabelOperand::from_lir(l)),
        LirInsn::J(l) => Insn::J(LabelOperand::from_lir(l)),
        LirInsn::Label(l) => Insn::Label(LabelOperand::from_lir(l)),
        LirInsn::LoadStatic(a, n) => Insn::LoadStatic(reg(a), n),
        LirInsn::StoreStatic(a, n) => Insn::StoreStatic(reg(a), n),
        LirInsn::Call(n) => Insn::Call(n),
        LirInsn::Intermediate(i) => return parse_intermediate(i, cx),
        LirInsn::Ret => Insn::Ret,
    };
    let mut r: Vec<Insn> = Vec::new();
    r.push(one);
    proof { assert(r@ =~= lower_insn(insn, *cx)); }
    r
}

/// The expansion of the prologue or the epilogue.
fn parse_intermediate(insn: IntermediateInsn, cx: &FuncContext) -> (r: Vec<Insn>)
    requires cx.frame_size <= i64::MAX,
    ensures r@ == lower_insn(LirInsn::Intermediate(insn), *cx),
{
    let fs = cx.frame_size as i64;
    let saved = &cx.callee_saved;
    let mut insns: Vec<Insn> = Vec::new();
    match insn {
        IntermediateInsn::Prologue => {
            insns.push(Insn::Addi(Register::Sp, Register::Sp, fs));
            insns.push(Insn::Addi(Register::S0, Register::Sp, -fs));
            let mut k: usize = 0;
            while k < saved.len()
                invariant
                    k <= saved@.len(),
                    saved == &cx.callee_saved,
                    insns@ == seq![Insn::Addi(Register::Sp, Register::Sp, fs), Insn::Addi(Register::S0, Register::Sp, (-fs) as i64)]
                        + Seq::new(k as nat, |j: int| Insn::Sd(saved@[j].0, Register::S0, saved@[j].1)),
                decreases saved@.len() - k,
            {
                let (r, offset) = saved[k];
                insns.push(Insn::Sd(r, Register::S0, offset));
                k = k + 1;
                proof {
                    assert(insns@ =~= seq![Insn::Addi(Register::Sp, Register::Sp, fs), Insn::Addi(Register::S0, Register::Sp, (-fs) as i64)]
                        + Seq::new(k as nat, |j: int| Insn::Sd(saved@[j].0, Register::S0, saved@[j].1)));
                }
            }
            proof { assert(insns@ =~= prologue(*cx)); }
        },
        IntermediateInsn::Epilogue => {
            let n = saved.len();
            let mut k: usize = 0;
            while k < n
                invariant
                    k <= n,
                    n == saved@.len(),
                    saved == &cx.callee_saved,
                    insns@ == Seq::new(k as nat, |j: int| Insn::Ld(saved@[n - 1 - j].0, Register::S0, saved@[n - 1 - j].1)),
                decreases n - k,
            {
                let (r, offset) = saved[n - 1 - k];
                insns.push(Insn::Ld(r, Register::S0, offset));
                k = k + 1;
                proof {
                    assert(insns@ =~= Seq::new(k as nat, |j: int| Insn::Ld(saved@[n - 1 - j].0, Register::S0, saved@[n - 1 - j].1)));
                }
            }
            insns.push(Insn::Addi(Register::Sp, Register::Sp, -fs));
            insns.push(Insn::Ret);
            proof { assert(insns@ =~= epilogue(*cx)); }
        },
    }
    insns
}


/// The values held by the machine's registers, as signed 64-bit numbers.
pub type RegState = spec_fn(Register) -> int;

pub open spec fn reg_set(st: RegState, d: Register, v: int) -> RegState {
    |x: Register| if x == d { v } else { st(x) }
}

/// What one assembly instruction does to the registers it names.
pub open spec fn asm_step(st: RegState, i: Insn) -> RegState {
    match i {
        Insn::Add(d, l, r) => reg_set(st, d, wrap64(st(l) + st(r))),
        Insn::Addw(d, l, r) => reg_set(st, d, wrap32(st(l) + st(r))),
        Insn::Sub(d, l, r) => reg_set(st, d, wrap64(st(l) - st(r))),
        Insn::Subw(d, l, r) => reg_set(st, d, wrap32(st(l) - st(r))),
        Insn::Mul(d, l, r) => reg_set(st, d, wrap64(st(l) * st(r))),
        Insn::Mulw(d, l, r) => reg_set(st, d, wrap32(st(l) * st(r))),
        Insn::Div(d, l, r) => reg_set(st, d, rv_div(st(l), st(r), -0x8000_0000_0000_0000)),
        Insn::Divw(d, l, r) => reg_set(st, d, wrap32(rv_div(wrap32(st(l)), wrap32(st(r)), -0x8000_0000))),
        Insn::Rem(d, l, r) => reg_set(st, d, rv_rem(st(l), st(r), -0x8000_0000_0000_0000)),
        Insn::Remw(d, l, r) => reg_set(st, d, wrap32(rv_rem(wrap32(st(l)), wrap32(st(r)), -0x8000_0000))),
        Insn::Slt(d, l, r) => reg_set(st, d, crate::common::bool_value(st(l) < st(r))),
        Insn::Sgt(d, l, r) => reg_set(st, d, crate::common::bool_value(st(l) > st(r))),
        Insn::Seqz(d, s) => reg_set(st, d, crate::common::bool_value(st(s) == 0)),
        Insn::Snez(d, s) => reg_set(st, d, crate::common::bool_value(st(s) != 0)),
        Insn::Sextw(d, s) => reg_set(st, d, wrap32(st(s))),
        Insn::Mv(d, s) => reg_set(st, d, st(s)),
        Insn::Neg(d, s) => reg_set(st, d, wrap64(-st(s))),
        Insn::Negw(d, s) => reg_set(st, d, wrap32(-st(s))),
        Insn::Not(d, s) => reg_set(st, d, -st(s) - 1),
        Insn::Li(d, v) => reg_set(st, d, v as int),
        Insn::Addi(d, s, k) => reg_set(st, d, wrap64(st(s) + k)),
        Insn::Addiw(d, s, k) => reg_set(st, d, wrap32(st(s) + k)),
        _ => st,
    }
}

/// Every operand of the instruction is a physical register.
pub open spec fn regs_only(i: LirInsn) -> bool {
    match i {
        LirInsn::Add(a, b, c) | LirInsn::Addw(a, b, c) | LirInsn::Sub(a, b, c) | LirInsn::Subw(a, b, c)
        | LirInsn::Mul(a, b, c) | LirInsn::Mulw(a, b, c) | LirInsn::Div(a, b, c) | LirInsn::Divw(a, b, c)
        | LirInsn::Rem(a, b, c) | LirInsn::Remw(a, b, c) | LirInsn::Slt(a, b, c) | LirInsn::Sgt(a, b, c) =>
            a is PhysReg && b is PhysReg && c is PhysReg,
        LirInsn::Mv(a, b) | LirInsn::Neg(a, b) | LirInsn::Negw(a, b) | LirInsn::Not(a, b)
        | LirInsn::Seqz(a, b) | LirInsn::Snez(a, b) | LirInsn::Sextw(a, b) | LirInsn::Addi(a, b, _)
        | LirInsn::Addiw(a, b, _) => a is PhysReg && b is PhysReg,
        LirInsn::Li(a, _) => a is PhysReg,
        _ => false,
    }
}

/// The register an arithmetic or move instruction writes.
pub open spec fn lir_dest(i: LirInsn) -> LirOperand {
    match i {
        LirInsn::Add(d, ..) | LirInsn::Addw(d, ..) | LirInsn::Sub(d, ..) | LirInsn::Subw(d, ..) | LirInsn::Mul(d, ..)
        | LirInsn::Mulw(d, ..) | LirInsn::Div(d, ..) | LirInsn::Divw(d, ..) | LirInsn::Rem(d, ..) | LirInsn::Remw(d, ..)
        | LirInsn::Slt(d, ..) | LirInsn::Sgt(d, ..) | LirInsn::Mv(d, _) | LirInsn::Neg(d, _) | LirInsn::Negw(d, _)
        | LirInsn::Not(d, _) | LirInsn::Seqz(d, _) | LirInsn::Snez(d, _) | LirInsn::Sextw(d, _)
        | LirInsn::Addi(d, ..) | LirInsn::Addiw(d, ..) | LirInsn::Li(d, _) => d,
        _ => LirOperand::Imm(0),
    }
}

/// Lowering to assembly keeps what an arithmetic or move instruction on
/// registers computes: the assembly instruction leaves in the destination
/// register what the LIR instruction leaves there.
pub proof fn lemma_lower_insn_keeps_value(i: LirInsn, cx: FuncContext, st: RegState)
    requires regs_only(i),
    ensures ({
        let s = lower_insn(i, cx);
        let lst = |o: LirOperand| st(reg_of(o));
        s.len() == 1 && asm_step(st, s[0])(reg_of(lir_dest(i)))
            == crate::lir::codegen::parse::rv_step(lst, i)(lir_dest(i))
    }),
{
}

} // verus!
