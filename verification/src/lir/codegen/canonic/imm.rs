//! Immediate canonicalization: an addition of a register and an immediate
//! that fits twelve bits becomes `addi`; any other immediate operand is
//! loaded with `li` into t5 or t6, and a move of an immediate becomes `li`.

use vstd::prelude::*;
use crate::assembly::Register;
use super::super::super::lir::{Operand, Insn};
use super::super::{CodeGen, Canonic};
use super::mem::{with2, with3};
use super::super::parse::{RvState, rv_step, rv_run};

verus! {

/// The register that stands for an immediate operand, and the load.
pub open spec fn imm_via(o: Operand, r: Register) -> (Operand, Seq<Insn>) {
    match o {
        Operand::Imm(v) => (Operand::PhysReg(r), seq![Insn::Li(Operand::PhysReg(r), v)]),
        _ => (o, Seq::empty()),
    }
}

/// An instruction that immediate canonicalization accepts.
pub open spec fn imm_canonable(i: Insn) -> bool {
    match i {
        Insn::Li(..) | Insn::La(..) => false,
        Insn::Sd(_, m) | Insn::Sw(_, m) => m is Mem,
        _ => true,
    }
}

/// An immediate that the 12 bits of an `addi` hold.
pub open spec fn fits_addi(v: i64) -> bool {
    -2048 <= v <= 2047
}

/// An addition of a register and a small immediate as an `addi` or `addiw`.
pub open spec fn addi_form(i: Insn) -> Option<Insn> {
    match i {
        Insn::Add(d, l, Operand::Imm(r)) => if !(l is Imm) && fits_addi(r) { Some(Insn::Addi(d, l, r)) } else { None },
        Insn::Addw(d, l, Operand::Imm(r)) => if !(l is Imm) && fits_addi(r) { Some(Insn::Addiw(d, l, r as i32)) } else { None },
        _ => None,
    }
}

/// The instructions immediate canonicalization makes of one instruction.
pub open spec fn imm_canon(i: Insn) -> Seq<Insn> {
    if let Some(x) = addi_form(i) { seq![x] } else { imm_canon_general(i) }
}

/// Immediate canonicalization where no `addi` form applies.
pub open spec fn imm_canon_general(i: Insn) -> Seq<Insn> {
    let t5 = Operand::PhysReg(Register::T5);
    match i {
        Insn::Sextw(Operand::Imm(_), Operand::Imm(_)) => Seq::empty(),
        Insn::Mv(d, Operand::Imm(v)) => seq![Insn::Li(d, v)],
        Insn::Sextw(d, Operand::Imm(v)) => seq![Insn::Li(d, v)],
        Insn::Add(d, Operand::Imm(l), Operand::Imm(r)) => seq![Insn::Li(t5, l), Insn::Addi(d, t5, r)],
        Insn::Addw(d, Operand::Imm(l), Operand::Imm(r)) => seq![Insn::Li(t5, l), Insn::Addiw(d, t5, r as i32)],
        Insn::Add(d, l, r) | Insn::Addw(d, l, r) | Insn::Sub(d, l, r) | Insn::Subw(d, l, r)
        | Insn::Mul(d, l, r) | Insn::Mulw(d, l, r) | Insn::Div(d, l, r) | Insn::Divw(d, l, r)
        | Insn::Rem(d, l, r) | Insn::Remw(d, l, r) | Insn::Slt(d, l, r) | Insn::Sgt(d, l, r) => {
            let (l2, li) = imm_via(l, Register::T5);
            let (r2, ri) = imm_via(r, Register::T6);
            li + ri + seq![with3(i, d, l2, r2)]
        },
        Insn::Not(d, s) | Insn::Neg(d, s) | Insn::Negw(d, s) | Insn::Seqz(d, s) | Insn::Snez(d, s) => {
            let (s2, si) = imm_via(s, Register::T5);
            si + seq![with2(i, d, s2)]
        },
        Insn::Beq(l, r, label) | Insn::Bne(l, r, label) => {
            let (l2, li) = imm_via(l, Register::T5);
            let (r2, ri) = imm_via(r, Register::T6);
            li + ri + seq![if i is Beq { Insn::Beq(l2, r2, label) } else { Insn::Bne(l2, r2, label) }]
        },
        Insn::Sd(s, m) | Insn::Sw(s, m) => {
            let (s2, si) = imm_via(s, Register::T5);
            si + seq![if i is Sd { Insn::Sd(s2, m) } else { Insn::Sw(s2, m) }]
        },
        _ => seq![i],
    }
}

/// The operand loaded into t5 where it is an immediate.
pub fn cimm_t5(operand: Operand) -> (res: (Operand, Option<Insn>))
    ensures
        res.0 == imm_via(operand, Register::T5).0,
        imm_via(operand, Register::T5).1 == (match res.1 { Some(i) => seq![i], None => Seq::empty() }),
{
    match operand {
        Operand::Imm(v) => (Operand::PhysReg(Register::T5), Some(Insn::Li(Operand::PhysReg(Register::T5), v))),
        _ => (operand, None),
    }
}

/// The operand loaded into t6 where it is an immediate.
pub fn cimm_t6(operand: Operand) -> (res: (Operand, Option<Insn>))
    ensures
        res.0 == imm_via(operand, Register::T6).0,
        imm_via(operand, Register::T6).1 == (match res.1 { Some(i) => seq![i], None => Seq::empty() }),
{
    match operand {
        Operand::Imm(v) => (Operand::PhysReg(Register::T6), Some(Insn::Li(Operand::PhysReg(Register::T6), v))),
        _ => (operand, None),
    }
}

fn push_opt(insns: &mut Vec<Insn>, i: Option<Insn>)
    ensures final(insns)@ == old(insns)@ + (match i { Some(x) => seq![x], None => Seq::empty() }),
{
    match i {
        Some(x) => insns.push(x),
        None => {},
    }
    proof { assert(final(insns)@ =~= old(insns)@ + (match i { Some(x) => seq![x], None => Seq::<Insn>::empty() })); }
}

impl CodeGen<Canonic> {
    /// Rewrites an instruction so that no immediate stands where a register must.
    #[verifier::rlimit(60)]
    pub fn canonic_imm(&mut self, insn: Insn) -> (r: Vec<Insn>)
        requires imm_canonable(insn),
        ensures r@ == imm_canon(insn), *final(self) == *old(self),
    {
        let mut insns: Vec<Insn> = Vec::new();
        let t5 = Operand::PhysReg(Register::T5);
        let addi = match insn {
            Insn::Add(d, l, Operand::Imm(r)) => match l {
                Operand::Imm(_) => None,
                _ => if -2048 <= r && r <= 2047 { Some(Insn::Addi(d, l, r)) } else { None },
            },
            Insn::Addw(d, l, Operand::Imm(r)) => match l {
                Operand::Imm(_) => None,
                _ => if -2048 <= r && r <= 2047 { Some(Insn::Addiw(d, l, r as i32)) } else { None },
            },
            _ => None,
        };
        if let Some(x) = addi {
            insns.push(x);
            return insns;
        }
        match insn {
            Insn::Sextw(Operand::Imm(_), Operand::Imm(_)) => {},
            Insn::Mv(d, Operand::Imm(v)) => insns.push(Insn::Li(d, v)),
            Insn::Sextw(d, Operand::Imm(v)) => insns.push(Insn::Li(d, v)),
            Insn::Add(d, Operand::Imm(l), Operand::Imm(r)) => {
                insns.push(Insn::Li(t5, l));
                insns.push(Insn::Addi(d, t5, r));
            },
            Insn::Addw(d, Operand::Imm(l), Operand::Imm(r)) => {
                insns.push(Insn::Li(t5, l));
                insns.push(Insn::Addiw(d, t5, r as i32));
            },
            Insn::Add(d, l, r) | Insn::Addw(d, l, r) | Insn::Sub(d, l, r) | Insn::Subw(d, l, r)
            | Insn::Mul(d, l, r) | Insn::Mulw(d, l, r) | Insn::Div(d, l, r) | Insn::Divw(d, l, r)
            | Insn::Rem(d, l, r) | Insn::Remw(d, l, r) | Insn::Slt(d, l, r) | Insn::Sgt(d, l, r) => {
                let (l2, li) = cimm_t5(l);
                let (r2, ri) = cimm_t6(r);
                push_opt(&mut insns, li);
                push_opt(&mut insns, ri);
                let op = match insn {
                    Insn::Add(..) => Insn::Add(d, l2, r2),
                    Insn::Addw(..) => Insn::Addw(d, l2, r2),
                    Insn::Sub(..) => Insn::Sub(d, l2, r2),
                    Insn::Subw(..) => Insn::Subw(d, l2, r2),
                    Insn::Mul(..) => Insn::Mul(d, l2, r2),
                    Insn::Mulw(..) => Insn::Mulw(d, l2, r2),
                    Insn::Div(..) => Insn::Div(d, l2, r2),
                    Insn::Divw(..) => Insn::Divw(d, l2, r2),
                    Insn::Rem(..) => Insn::Rem(d, l2, r2),
                    Insn::Remw(..) => Insn::Remw(d, l2, r2),
                    Insn::Slt(..) => Insn::Slt(d, l2, r2),
                    _ => Insn::Sgt(d, l2, r2),
                };
                insns.push(op);
            },
            Insn::Not(d, s) | Insn::Neg(d, s) | Insn::Negw(d, s) | Insn::Seqz(d, s) | Insn::Snez(d, s) => {
                let (s2, si) = cimm_t5(s);
                push_opt(&mut insns, si);
                let op = match insn {
                    Insn::Neg(..) => Insn::Neg(d, s2),
                    Insn::Negw(..) => Insn::Negw(d, s2),
                    Insn::Not(..) => Insn::Not(d, s2),
                    Insn::Seqz(..) => Insn::Seqz(d, s2),
                    _ => Insn::Snez(d, s2),
                };
                insns.push(op);
            },
            Insn::Beq(l, r, label) | Insn::Bne(l, r, label) => {
                let (l2, li) = cimm_t5(l);
                let (r2, ri) = cimm_t6(r);
                push_opt(&mut insns, li);
                push_opt(&mut insns, ri);
                let b = match insn {
                    Insn::Beq(..) => Insn::Beq(l2, r2, label),
                    _ => Insn::Bne(l2, r2, label),
                };
                insns.push(b);
            },
            Insn::Sd(s, m) | Insn::Sw(s, m) => {
                let (s2, si) = cimm_t5(s);
                push_opt(&mut insns, si);
                let st = match insn {
                    Insn::Sd(..) => Insn::Sd(s2, m),
                    _ => Insn::Sw(s2, m),
                };
                insns.push(st);
            },
            _ => insns.push(insn),
        }
        proof { assert(insns@ =~= imm_canon(insn)); }
        insns
    }
}


/// The register or slot an arithmetic or move instruction writes.
pub open spec fn dest_of(i: Insn) -> Operand {
    match i {
        Insn::Add(d, ..) | Insn::Addw(d, ..) | Insn::Sub(d, ..) | Insn::Subw(d, ..) | Insn::Mul(d, ..)
        | Insn::Mulw(d, ..) | Insn::Div(d, ..) | Insn::Divw(d, ..) | Insn::Rem(d, ..) | Insn::Remw(d, ..)
        | Insn::Slt(d, ..) | Insn::Sgt(d, ..) | Insn::Mv(d, _) | Insn::Neg(d, _) | Insn::Negw(d, _)
        | Insn::Not(d, _) | Insn::Seqz(d, _) | Insn::Snez(d, _) => d,
        _ => Operand::Imm(0),
    }
}

/// The operands of such an instruction: none of them is t5 or t6, the
/// scratch registers canonicalization loads immediates into, and the
/// destination is no immediate.
pub open spec fn scratch_free(i: Insn) -> bool {
    let t5 = Operand::PhysReg(Register::T5);
    let t6 = Operand::PhysReg(Register::T6);
    match i {
        Insn::Add(d, l, r) | Insn::Addw(d, l, r) | Insn::Sub(d, l, r) | Insn::Subw(d, l, r) | Insn::Mul(d, l, r)
        | Insn::Mulw(d, l, r) | Insn::Div(d, l, r) | Insn::Divw(d, l, r) | Insn::Rem(d, l, r) | Insn::Remw(d, l, r)
        | Insn::Slt(d, l, r) | Insn::Sgt(d, l, r) =>
            !(d is Imm) && d != t5 && d != t6 && l != t5 && l != t6 && r != t5 && r != t6,
        Insn::Mv(d, s) | Insn::Neg(d, s) | Insn::Negw(d, s) | Insn::Not(d, s) | Insn::Seqz(d, s) | Insn::Snez(d, s) =>
            !(d is Imm) && d != t5 && d != t6 && s != t5 && s != t6,
        _ => false,
    }
}

/// A machine state in which every immediate operand stands for its own value.
pub open spec fn imms_hold(st: RvState) -> bool {
    forall|v: i64| #[trigger] st(Operand::Imm(v)) == v as int
}

/// Immediate canonicalization keeps what an arithmetic or move instruction
/// computes: on the machine, the instructions it makes leave in the
/// destination what the instruction itself would (a word addition's
/// immediate being a word).
pub proof fn lemma_imm_canon_keeps_value(i: Insn, st: RvState)
    requires imms_hold(st), scratch_free(i),
        i matches Insn::Addw(_, _, Operand::Imm(r)) ==> -0x8000_0000 <= r < 0x8000_0000,
    ensures rv_run(st, imm_canon(i))(dest_of(i)) == rv_step(st, i)(dest_of(i)),
{
    let s = imm_canon(i);
    reveal_with_fuel(rv_run, 4);
    if s.len() >= 1 { assert(s.drop_last().len() == s.len() - 1); }
    if s.len() == 1 { assert(s.drop_last() =~= Seq::<Insn>::empty()); }
    if s.len() == 2 { assert(s.drop_last() =~= seq![s[0]]); assert(seq![s[0]].drop_last() =~= Seq::<Insn>::empty()); }
    if s.len() == 3 {
        assert(s.drop_last() =~= seq![s[0], s[1]]);
        assert(seq![s[0], s[1]].drop_last() =~= seq![s[0]]);
        assert(seq![s[0]].drop_last() =~= Seq::<Insn>::empty());
    }
    match i {
        Insn::Addw(d, l, Operand::Imm(r)) => {
            assert((r as i32) as int == r as int);
        },
        _ => {},
    }
}

} // verus!
