//! Memory canonicalization: an operand in memory or in a static variable is
//! loaded into t5 or t6 before the instruction and a result bound there is
//! stored after it.

use vstd::prelude::*;
use crate::assembly::Register;
use super::super::super::lir::{Operand, Insn};
use super::super::{CodeGen, Canonic};

verus! {

/// Whether a memory operand has a size a load or store can move.
pub open spec fn mem_ok(o: Operand) -> bool {
    o matches Operand::Mem { size, .. } ==> (size == 4 || size == 8)
}

/// The register that stands for an operand read from memory, and the load.
pub open spec fn read_via(o: Operand, r: Register) -> (Operand, Seq<Insn>) {
    match o {
        Operand::Mem { size, .. } => (Operand::PhysReg(r),
            seq![if size == 4 { Insn::Lw(Operand::PhysReg(r), o) } else { Insn::Ld(Operand::PhysReg(r), o) }]),
        Operand::Static(name) => (Operand::PhysReg(r), seq![Insn::LoadStatic(Operand::PhysReg(r), name)]),
        _ => (o, Seq::empty()),
    }
}

/// The register that stands for a destination in memory, and the store.
pub open spec fn write_via_t5(o: Operand) -> (Operand, Seq<Insn>) {
    let t5 = Operand::PhysReg(Register::T5);
    match o {
        Operand::Mem { size, .. } => (t5, seq![if size == 4 { Insn::Sw(t5, o) } else { Insn::Sd(t5, o) }]),
        Operand::Static(name) => (t5, seq![Insn::StoreStatic(t5, name)]),
        _ => (o, Seq::empty()),
    }
}

/// An instruction that memory canonicalization accepts.
pub open spec fn mem_canonable(i: Insn) -> bool {
    match i {
        Insn::Li(..) | Insn::La(..) => false,
        Insn::Ld(d, m) | Insn::Lw(d, m) => m is Mem && mem_ok(d),
        Insn::Sd(s, m) | Insn::Sw(s, m) => m is Mem && mem_ok(s),
        Insn::Add(a, b, c) | Insn::Addw(a, b, c) | Insn::Sub(a, b, c) | Insn::Subw(a, b, c)
        | Insn::Mul(a, b, c) | Insn::Mulw(a, b, c) | Insn::Div(a, b, c) | Insn::Divw(a, b, c)
        | Insn::Rem(a, b, c) | Insn::Remw(a, b, c) | Insn::Slt(a, b, c) | Insn::Sgt(a, b, c) => mem_ok(a) && mem_ok(b) && mem_ok(c),
        Insn::Beq(a, b, _) | Insn::Bne(a, b, _) => mem_ok(a) && mem_ok(b),
        Insn::Mv(a, b) | Insn::Neg(a, b) | Insn::Negw(a, b) | Insn::Not(a, b) | Insn::Seqz(a, b)
        | Insn::Snez(a, b) | Insn::Sextw(a, b) => mem_ok(a) && mem_ok(b),
        Insn::LoadStatic(a, _) | Insn::StoreStatic(a, _) => mem_ok(a),
        _ => true,
    }
}

/// An operation on three operands with new operands.
pub open spec fn with3(i: Insn, d: Operand, l: Operand, r: Operand) -> Insn {
    match i {
        Insn::Add(..) => Insn::Add(d, l, r),
        Insn::Addw(..) => Insn::Addw(d, l, r),
        Insn::Sub(..) => Insn::Sub(d, l, r),
        Insn::Subw(..) => Insn::Subw(d, l, r),
        Insn::Mul(..) => Insn::Mul(d, l, r),
        Insn::Mulw(..) => Insn::Mulw(d, l, r),
        Insn::Div(..) => Insn::Div(d, l, r),
        Insn::Divw(..) => Insn::Divw(d, l, r),
        Insn::Rem(..) => Insn::Rem(d, l, r),
        Insn::Remw(..) => Insn::Remw(d, l, r),
        Insn::Slt(..) => Insn::Slt(d, l, r),
        _ => Insn::Sgt(d, l, r),
    }
}

/// An operation on a destination and a source with new operands.
pub open spec fn with2(i: Insn, d: Operand, s: Operand) -> Insn {
    match i {
        Insn::Neg(..) => Insn::Neg(d, s),
        Insn::Negw(..) => Insn::Negw(d, s),
        Insn::Not(..) => Insn::Not(d, s),
        Insn::Seqz(..) => Insn::Seqz(d, s),
        Insn::Snez(..) => Insn::Snez(d, s),
        _ => Insn::Sextw(d, s),
    }
}

/// The instructions memory canonicalization makes of one instruction.
pub open spec fn mem_canon(i: Insn) -> Seq<Insn> {
    match i {
        Insn::Add(d, l, r) | Insn::Addw(d, l, r) | Insn::Sub(d, l, r) | Insn::Subw(d, l, r)
        | Insn::Mul(d, l, r) | Insn::Mulw(d, l, r) | Insn::Div(d, l, r) | Insn::Divw(d, l, r)
        | Insn::Rem(d, l, r) | Insn::Remw(d, l, r) | Insn::Slt(d, l, r) | Insn::Sgt(d, l, r) => {
            let (l2, li) = read_via(l, Register::T5);
            let (r2, ri) = read_via(r, Register::T6);
            let (d2, di) = write_via_t5(d);
            li + ri + seq![with3(i, d2, l2, r2)] + di
        },
        Insn::Beq(l, r, label) | Insn::Bne(l, r, label) => {
            let (l2, li) = read_via(l, Register::T5);
            let (r2, ri) = read_via(r, Register::T6);
            li + ri + seq![if i is Beq { Insn::Beq(l2, r2, label) } else { Insn::Bne(l2, r2, label) }]
        },
        Insn::Mv(d, s) => {
            let (s2, si) = read_via(s, Register::T5);
            let (d2, di) = write_via_t5(d);
            si + (if si.len() == 0 || di.len() == 0 { seq![Insn::Mv(d2, s2)] } else { Seq::empty() }) + di
        },
        Insn::LoadStatic(d, name) => {
            let (d2, di) = write_via_t5(d);
            seq![Insn::LoadStatic(d2, name)] + di
        },
        Insn::StoreStatic(s, name) => {
            let (s2, si) = read_via(s, Register::T5);
            si + seq![Insn::StoreStatic(s2, name)]
        },
        Insn::Ld(d, m) | Insn::Lw(d, m) => {
            let (d2, di) = write_via_t5(d);
            seq![if i is Ld { Insn::Ld(d2, m) } else { Insn::Lw(d2, m) }] + di
        },
        Insn::Sd(s, m) | Insn::Sw(s, m) => {
            let (s2, si) = read_via(s, Register::T5);
            si + seq![if i is Sd { Insn::Sd(s2, m) } else { Insn::Sw(s2, m) }]
        },
        Insn::Neg(d, s) | Insn::Negw(d, s) | Insn::Not(d, s) | Insn::Seqz(d, s) | Insn::Snez(d, s) | Insn::Sextw(d, s) => {
            let (s2, si) = read_via(s, Register::T5);
            let (d2, di) = write_via_t5(d);
            si + seq![with2(i, d2, s2)] + di
        },
        _ => seq![i],
    }
}

fn cmem_read(operand: Operand, r: Register) -> (res: (Operand, Option<Insn>))
    requires mem_ok(operand),
    ensures
        res.0 == read_via(operand, r).0,
        read_via(operand, r).1 == (match res.1 { Some(i) => seq![i], None => Seq::empty() }),
{
    match operand {
        Operand::Mem { size, .. } => {
            let insn = if size == 4 { Insn::Lw(Operand::PhysReg(r), operand) } else { Insn::Ld(Operand::PhysReg(r), operand) };
            (Operand::PhysReg(r), Some(insn))
        },
        Operand::Static(name) => (Operand::PhysReg(r), Some(Insn::LoadStatic(Operand::PhysReg(r), name))),
        _ => (operand, None),
    }
}

/// The operand read through t5.
pub fn cmem_r_t5(operand: Operand) -> (res: (Operand, Option<Insn>))
    requires mem_ok(operand),
    ensures
        res.0 == read_via(operand, Register::T5).0,
        read_via(operand, Register::T5).1 == (match res.1 { Some(i) => seq![i], None => Seq::empty() }),
{
    cmem_read(operand, Register::T5)
}

/// The operand read through t6.
pub fn cmem_r_t6(operand: Operand) -> (res: (Operand, Option<Insn>))
    requires mem_ok(operand),
    ensures
        res.0 == read_via(operand, Register::T6).0,
        read_via(operand, Register::T6).1 == (match res.1 { Some(i) => seq![i], None => Seq::empty() }),
{
    cmem_read(operand, Register::T6)
}

/// The destination written through t5.
pub fn cmem_w_t5(operand: Operand) -> (res: (Operand, Option<Insn>))
    requires mem_ok(operand),
    ensures
        res.0 == write_via_t5(operand).0,
        write_via_t5(operand).1 == (match res.1 { Some(i) => seq![i], None => Seq::empty() }),
{
    let t5 = Operand::PhysReg(Register::T5);
    match operand {
        Operand::Mem { size, .. } => (t5, Some(if size == 4 { Insn::Sw(t5, operand) } else { Insn::Sd(t5, operand) })),
        Operand::Static(name) => (t5, Some(Insn::StoreStatic(t5, name))),
        _ => (operand, None),
    }
}

/// Appends the instruction, if any.
fn push_opt(insns: &mut Vec<Insn>, i: Option<Insn>)
    ensures final(insns)@ == old(insns)@ + (match i { Some(x) => seq![x], None => Seq::empty() }),
{
    match i {
        Some(x) => insns.push(x),
        None => {},
    }
    proof { assert(final(insns)@ =~= old(insns)@ + (match i { Some(x) => seq![x], None => Seq::<Insn>::empty() })); }
}

impl CodeGen<Canonic> {
    /// Rewrites an instruction so that only loads and stores touch memory.
    #[verifier::rlimit(60)]
    pub fn canonic_mem(&mut self, insn: Insn) -> (r: Vec<Insn>)
        requires mem_canonable(insn),
        ensures r@ == mem_canon(insn), *final(self) == *old(self),
    {
        let mut insns: Vec<Insn> = Vec::new();
        match insn {
            Insn::Add(d, l, r) | Insn::Addw(d, l, r) | Insn::Sub(d, l, r) | Insn::Subw(d, l, r)
            | Insn::Mul(d, l, r) | Insn::Mulw(d, l, r) | Insn::Div(d, l, r) | Insn::Divw(d, l, r)
            | Insn::Rem(d, l, r) | Insn::Remw(d, l, r) | Insn::Slt(d, l, r) | Insn::Sgt(d, l, r) => {
                let (l2, li) = cmem_r_t5(l);
                let (r2, ri) = cmem_r_t6(r);
                let (d2, di) = cmem_w_t5(d);
                push_opt(&mut insns, li);
                push_opt(&mut insns, ri);
                let op = match insn {
                    Insn::Add(..) => Insn::Add(d2, l2, r2),
                    Insn::Addw(..) => Insn::Addw(d2, l2, r2),
                    Insn::Sub(..) => Insn::Sub(d2, l2, r2),
                    Insn::Subw(..) => Insn::Subw(d2, l2, r2),
                    Insn::Mul(..) => Insn::Mul(d2, l2, r2),
                    Insn::Mulw(..) => Insn::Mulw(d2, l2, r2),
                    Insn::Div(..) => Insn::Div(d2, l2, r2),
                    Insn::Divw(..) => Insn::Divw(d2, l2, r2),
                    Insn::Rem(..) => Insn::Rem(d2, l2, r2),
                    Insn::Remw(..) => Insn::Remw(d2, l2, r2),
                    Insn::Slt(..) => Insn::Slt(d2, l2, r2),
                    _ => Insn::Sgt(d2, l2, r2),
                };
                insns.push(op);
                push_opt(&mut insns, di);
            },
            Insn::Beq(l, r, label) | Insn::Bne(l, r, label) => {
                let (l2, li) = cmem_r_t5(l);
                let (r2, ri) = cmem_r_t6(r);
                push_opt(&mut insns, li);
                push_opt(&mut insns, ri);
                let b = match insn {
                    Insn::Beq(..) => Insn::Beq(l2, r2, label),
                    _ => Insn::Bne(l2, r2, label),
                };
                insns.push(b);
            },
            Insn::Mv(d, s) => {
                let (s2, si) = cmem_r_t5(s);
                let (d2, di) = cmem_w_t5(d);
                let both = si.is_some() && di.is_some();
                push_opt(&mut insns, si);
                if !both {
                    insns.push(Insn::Mv(d2, s2));
                }
                push_opt(&mut insns, di);
            },
            Insn::LoadStatic(d, name) => {
                let (d2, di) = cmem_w_t5(d);
                insns.push(Insn::LoadStatic(d2, name));
                push_opt(&mut insns, di);
            },
            Insn::StoreStatic(s, name) => {
                let (s2, si) = cmem_r_t5(s);
                push_opt(&mut insns, si);
                insns.push(Insn::StoreStatic(s2, name));
            },
            Insn::Ld(d, m) | Insn::Lw(d, m) => {
                let (d2, di) = cmem_w_t5(d);
                let l = match insn {
                    Insn::Ld(..) => Insn::Ld(d2, m),
                    _ => Insn::Lw(d2, m),
                };
                insns.push(l);
                push_opt(&mut insns, di);
            },
            Insn::Sd(s, m) | Insn::Sw(s, m) => {
                let (s2, si) = cmem_r_t5(s);
                push_opt(&mut insns, si);
                let st = match insn {
                    Insn::Sd(..) => Insn::Sd(s2, m),
                    _ => Insn::Sw(s2, m),
                };
                insns.push(st);
            },
            Insn::Neg(d, s) | Insn::Negw(d, s) | Insn::Not(d, s) | Insn::Seqz(d, s) | Insn::Snez(d, s) | Insn::Sextw(d, s) => {
                let (s2, si) = cmem_r_t5(s);
                let (d2, di) = cmem_w_t5(d);
                push_opt(&mut insns, si);
                let op = match insn {
                    Insn::Neg(..) => Insn::Neg(d2, s2),
                    Insn::Negw(..) => Insn::Negw(d2, s2),
                    Insn::Not(..) => Insn::Not(d2, s2),
                    Insn::Seqz(..) => Insn::Seqz(d2, s2),
                    Insn::Snez(..) => Insn::Snez(d2, s2),
                    _ => Insn::Sextw(d2, s2),
                };
                insns.push(op);
                push_opt(&mut insns, di);
            },
            _ => insns.push(insn),
        }
        proof { assert(insns@ =~= mem_canon(insn)); }
        insns
    }
}

} // verus!
