//! Constant folding: operations on immediate values are computed, and
//! branches on immediate values become jumps or disappear.

use vstd::prelude::*;
use crate::common::{Constant, fits};
use crate::tac::tac::{Insn, Operand, UnaryOp, BinaryOp, Function};
use crate::tac::codegen::{CodeGen, Opt};

verus! {

/// 1 where the condition holds, 0 otherwise, as an `int` constant.
pub open spec fn truth(b: bool) -> Constant {
    Constant::Int(if b { 1 } else { 0 })
}

/// What folding makes of one instruction: `None` where it disappears.
pub open spec fn fold_insn(i: Insn) -> Option<Insn> {
    match i {
        Insn::Unary { op: UnaryOp::Pos, .. } => None,
        Insn::Unary { op: UnaryOp::Negate, src: Operand::Imm(c), dst } => Some(Insn::Move { src: Operand::Imm(c.spec_neg()), dst }),
        Insn::Unary { op: UnaryOp::Complement, src: Operand::Imm(c), dst } => Some(Insn::Move { src: Operand::Imm(c.spec_complement()), dst }),
        Insn::Unary { op: UnaryOp::Not, src: Operand::Imm(c), dst } => Some(Insn::Move { src: Operand::Imm(c.spec_not()), dst }),
        Insn::Binary { op, left: Operand::Imm(l), right: Operand::Imm(r), dst } => match op {
            BinaryOp::Add => Some(Insn::Move { src: Operand::Imm(l.spec_plus(r)), dst }),
            BinaryOp::Sub => Some(Insn::Move { src: Operand::Imm(l.spec_minus(r)), dst }),
            BinaryOp::Mul => Some(Insn::Move { src: Operand::Imm(l.spec_times(r)), dst }),
            BinaryOp::Div => if r.spec_is_zero() { Some(i) } else { Some(Insn::Move { src: Operand::Imm(l.spec_quotient(r)), dst }) },
            BinaryOp::Rem => if r.spec_is_zero() { Some(i) } else { Some(Insn::Move { src: Operand::Imm(l.spec_remainder(r)), dst }) },
            BinaryOp::Eq => Some(Insn::Move { src: Operand::Imm(truth(l == r)), dst }),
            BinaryOp::NotEq => Some(Insn::Move { src: Operand::Imm(truth(l != r)), dst }),
            BinaryOp::Ls => Some(Insn::Move { src: Operand::Imm(truth(l.spec_lt(r))), dst }),
            BinaryOp::LsEq => Some(Insn::Move { src: Operand::Imm(truth(l.spec_le(r))), dst }),
            BinaryOp::Gt => Some(Insn::Move { src: Operand::Imm(truth(r.spec_lt(l))), dst }),
            BinaryOp::GtEq => Some(Insn::Move { src: Operand::Imm(truth(r.spec_le(l))), dst }),
            BinaryOp::And => Some(Insn::Move { src: Operand::Imm(truth(!(l.spec_is_zero() || r.spec_is_zero()))), dst }),
            BinaryOp::Or => Some(Insn::Move { src: Operand::Imm(truth(!(l.spec_is_zero() && r.spec_is_zero()))), dst }),
        },
        Insn::BranchIfZero { src: Operand::Imm(c), label } => if c.spec_is_zero() { Some(Insn::Jump(label)) } else { None },
        Insn::BranchNotZero { src: Operand::Imm(c), label } => if c.spec_is_zero() { None } else { Some(Insn::Jump(label)) },
        _ => Some(i),
    }
}

/// Folding an instruction does not fail: arithmetic on two immediates has
/// operands of one type (a division by zero is left alone).
pub open spec fn foldable(i: Insn) -> bool {
    match i {
        Insn::Binary { op, left: Operand::Imm(l), right: Operand::Imm(r), .. } =>
            (op is Add || op is Sub || op is Mul || ((op is Div || op is Rem) && !r.spec_is_zero())) ==> l.same_type(r),
        _ => true,
    }
}

/// The instructions after folding, in order.
pub open spec fn folded(s: Seq<Insn>) -> Seq<Insn>
    decreases s.len(),
{
    if s.len() == 0 {
        Seq::empty()
    } else {
        folded(s.drop_last()) + match fold_insn(s.last()) {
            Some(i) => seq![i],
            None => Seq::empty(),
        }
    }
}

/// Folding keeps an instruction that it already folded.
pub proof fn lemma_fold_insn_stable(i: Insn)
    ensures fold_insn(i) matches Some(j) ==> fold_insn(j) == Some(j),
{
}

/// Folding twice is folding once.
pub proof fn lemma_folding_idempotent(s: Seq<Insn>)
    ensures folded(folded(s)) == folded(s),
    decreases s.len(),
{
    if s.len() > 0 {
        lemma_folding_idempotent(s.drop_last());
        lemma_fold_insn_stable(s.last());
        lemma_folded_concat(folded(s.drop_last()), match fold_insn(s.last()) { Some(i) => seq![i], None => Seq::empty() });
        match fold_insn(s.last()) {
            Some(i) => {
                let one = seq![i];
                assert(one.drop_last() =~= Seq::<Insn>::empty());
                assert(one.last() == i);
                assert(folded(one.drop_last()) =~= Seq::<Insn>::empty());
                assert(folded(one) =~= one);
            },
            None => {
                assert(folded(Seq::<Insn>::empty()) =~= Seq::<Insn>::empty());
            },
        }
    }
}

/// Folding works instruction by instruction.
pub proof fn lemma_folded_concat(a: Seq<Insn>, b: Seq<Insn>)
    ensures folded(a + b) == folded(a) + folded(b),
    decreases b.len(),
{
    if b.len() == 0 {
        assert(a + b =~= a);
        assert(folded(a) + folded(b) =~= folded(a));
    } else {
        lemma_folded_concat(a, b.drop_last());
        assert((a + b).drop_last() =~= a + b.drop_last());
        assert((a + b).last() == b.last());
        assert(folded(a + b) =~= folded(a) + folded(b));
    }
}

/// Folding never makes the code longer.
pub proof fn lemma_folding_shrinks(s: Seq<Insn>)
    ensures folded(s).len() <= s.len(),
    decreases s.len(),
{
    if s.len() > 0 {
        lemma_folding_shrinks(s.drop_last());
    }
}

/// Folds one instruction.
fn fold(insn: Insn) -> (r: Option<Insn>)
    requires foldable(insn),
    ensures r == fold_insn(insn),
{
    match insn {
        Insn::Unary { op, src, dst } => match (op, src) {
            (UnaryOp::Pos, _) => None,
            (UnaryOp::Negate, Operand::Imm(c)) => Some(Insn::Move { src: Operand::Imm(c.neg()), dst }),
            (UnaryOp::Complement, Operand::Imm(c)) => Some(Insn::Move { src: Operand::Imm(c.complement()), dst }),
            (UnaryOp::Not, Operand::Imm(c)) => Some(Insn::Move { src: Operand::Imm(c.not()), dst }),
            _ => Some(Insn::Unary { op, src, dst }),
        },
        Insn::Binary { op, left, right, dst } => match (left, right) {
            (Operand::Imm(l), Operand::Imm(r)) => match op {
                BinaryOp::Add => Some(Insn::Move { src: Operand::Imm(l.plus(&r)), dst }),
                BinaryOp::Sub => Some(Insn::Move { src: Operand::Imm(l.minus(&r)), dst }),
                BinaryOp::Mul => Some(Insn::Move { src: Operand::Imm(l.times(&r)), dst }),
                BinaryOp::Div => if r.is_zero() {
                    Some(Insn::Binary { op, left, right, dst })
                } else {
                    Some(Insn::Move { src: Operand::Imm(l.quotient(&r)), dst })
                },
                BinaryOp::Rem => if r.is_zero() {
                    Some(Insn::Binary { op, left, right, dst })
                } else {
                    Some(Insn::Move { src: Operand::Imm(l.remainder(&r)), dst })
                },
                BinaryOp::Eq => Some(Insn::Move { src: Operand::Imm(Constant::Int(if l.equals(&r) { 1 } else { 0 })), dst }),
                BinaryOp::NotEq => Some(Insn::Move { src: Operand::Imm(Constant::Int(if !l.equals(&r) { 1 } else { 0 })), dst }),
                BinaryOp::Ls => Some(Insn::Move { src: Operand::Imm(Constant::Int(if l.lt(&r) { 1 } else { 0 })), dst }),
                BinaryOp::LsEq => Some(Insn::Move { src: Operand::Imm(Constant::Int(if l.le(&r) { 1 } else { 0 })), dst }),
                BinaryOp::Gt => Some(Insn::Move { src: Operand::Imm(Constant::Int(if r.lt(&l) { 1 } else { 0 })), dst }),
                BinaryOp::GtEq => Some(Insn::Move { src: Operand::Imm(Constant::Int(if r.le(&l) { 1 } else { 0 })), dst }),
                BinaryOp::And => Some(Insn::Move {
                    src: Operand::Imm(Constant::Int(if l.is_zero() || r.is_zero() { 0 } else { 1 })), dst }),
                BinaryOp::Or => Some(Insn::Move {
                    src: Operand::Imm(Constant::Int(if l.is_zero() && r.is_zero() { 0 } else { 1 })), dst }),
            },
            _ => Some(Insn::Binary { op, left, right, dst }),
        },
        Insn::BranchIfZero { src, label } => match src {
            Operand::Imm(c) => if c.is_zero() { Some(Insn::Jump(label)) } else { None },
            _ => Some(Insn::BranchIfZero { src, label }),
        },
        Insn::BranchNotZero { src, label } => match src {
            Operand::Imm(c) => if c.is_zero() { None } else { Some(Insn::Jump(label)) },
            _ => Some(Insn::BranchNotZero { src, label }),
        },
        other => Some(other),
    }
}

impl CodeGen<Opt> {
    /// Folds the constants of a function's body; a declaration is unchanged.
    pub fn constant_folding(&mut self, func: Function) -> (r: Function)
        requires
            func matches Function::Defined { body, .. } ==> forall|i: int| 0 <= i < body@.len() ==> foldable(#[trigger] body@[i]),
        ensures
            match func {
                Function::Declared { .. } => r == func,
                Function::Defined { return_type, linkage, name, params, local_vars, body } =>
                    r matches Function::Defined { return_type: rt, linkage: lk, name: nm, params: ps, local_vars: lv, body: b }
                    && rt == return_type && lk == linkage && nm == name && ps == params && lv == local_vars
                    && b@ == folded(body@),
            },
            final(self).static_vars == old(self).static_vars,
    {
        match func {
            Function::Declared { linkage, name, type_ } => Function::Declared { linkage, name, type_ },
            Function::Defined { return_type, linkage, name, params, local_vars, body } => {
                let ghost orig = body@;
                let n = body.len();
                let mut rest = body;
                let mut opted_body: Vec<Insn> = Vec::new();
                let mut j: usize = 0;
                while j < n
                    invariant
                        j <= n, n == orig.len(),
                        rest@ == orig.subrange(j as int, n as int),
                        forall|i: int| 0 <= i < orig.len() ==> foldable(#[trigger] orig[i]),
                        opted_body@ == folded(orig.subrange(0, j as int)),
                    decreases n - j,
                {
                    let insn = rest.remove(0);
                    proof {
                        assert(insn == orig[j as int]);
                        assert(rest@ =~= orig.subrange(j as int + 1, n as int));
                        assert(orig.subrange(0, j as int + 1).drop_last() =~= orig.subrange(0, j as int));
                    }
                    match fold(insn) {
                        Some(i) => opted_body.push(i),
                        None => {},
                    }
                    proof {
                        assert(opted_body@ =~= folded(orig.subrange(0, j as int + 1)));
                    }
                    j = j + 1;
                }
                proof { assert(orig.subrange(0, n as int) =~= orig); }
                Function::Defined { return_type, linkage, name, params, local_vars, body: opted_body }
            },
        }
    }
}


/// Folding an operation on two immediates of one type gives what C computes:
/// a comparison or logical operator gives the `int` 1 exactly when it holds
/// and 0 otherwise; arithmetic gives a constant of the operands' type with the
/// exact result whenever the type holds it; a division by zero is left alone.
pub proof fn lemma_fold_binary_meaning(op: BinaryOp, l: Constant, r: Constant, dst: Operand)
    requires l.same_type(r),
    ensures ({
        let a = l.int_value();
        let b = r.int_value();
        let v = op.meaning(a, b);
        let i = Insn::Binary { op, left: Operand::Imm(l), right: Operand::Imm(r), dst };
        let f = fold_insn(i);
        &&& (op is Eq || op is NotEq || op is Ls || op is Gt || op is LsEq || op is GtEq || op is And || op is Or)
            ==> f == Some(Insn::Move { src: Operand::Imm(Constant::Int(v as i32)), dst }) && (v == 0 || v == 1)
        &&& (op is Add || op is Sub || op is Mul || ((op is Div || op is Rem) && b != 0)) && fits(v, l.spec_data_type())
            ==> (f matches Some(Insn::Move { src: Operand::Imm(c), dst: d2 })
                && d2 == dst && c.spec_data_type() == l.spec_data_type() && c.int_value() == v)
        &&& (op is Div || op is Rem) && b == 0 ==> f == Some(i)
    }),
{
    let a = l.int_value();
    let b = r.int_value();
    let v = op.meaning(a, b);
    if op is Mul && fits(v, l.spec_data_type()) {
        if l is Int {
            if v >= 0 {
                assert(v % 0x1_0000_0000 == v) by (nonlinear_arith) requires 0 <= v < 0x8000_0000;
            } else {
                assert(v % 0x1_0000_0000 == v + 0x1_0000_0000) by (nonlinear_arith) requires -0x8000_0000 <= v < 0;
            }
        } else {
            if v >= 0 {
                assert(v % 0x1_0000_0000_0000_0000 == v) by (nonlinear_arith) requires 0 <= v < 0x8000_0000_0000_0000;
            } else {
                assert(v % 0x1_0000_0000_0000_0000 == v + 0x1_0000_0000_0000_0000) by (nonlinear_arith)
                    requires -0x8000_0000_0000_0000 <= v < 0;
            }
        }
    }
    if fits(v, l.spec_data_type()) {
        if op is Add { assert(l.spec_plus(r).int_value() == v); }
        if op is Sub { assert(l.spec_minus(r).int_value() == v); }
        if op is Mul { assert(l.spec_times(r).int_value() == v); }
        if op is Div && b != 0 { assert(l.spec_quotient(r).int_value() == v); }
        if op is Rem && b != 0 {
            if b == -1 {
                let ua = if a >= 0 { a } else { -a };
                assert(ua / 1 == ua);
                assert(crate::common::trunc_div(a, b) == -a);
                assert(v == 0);
            }
            assert(l.spec_remainder(r).int_value() == v);
        }
    }
    if op is Eq {
        assert(l == r <==> a == b);
    }
    if op is NotEq {
        assert(l == r <==> a == b);
    }

}


/// Folding an operation on one immediate gives what C computes, as a constant
/// of the operand's type: `!` gives 1 exactly when the operand is 0, `~`
/// gives minus the operand minus one, and negation the exact negative
/// whenever the type holds it.
pub proof fn lemma_fold_unary_meaning(op: UnaryOp, c: Constant, dst: Operand)
    ensures ({
        let a = c.int_value();
        let v = op.meaning(a);
        let f = fold_insn(Insn::Unary { op, src: Operand::Imm(c), dst });
        (op is Not || op is Complement || (op is Negate && fits(v, c.spec_data_type())))
            ==> (f matches Some(Insn::Move { src: Operand::Imm(k), dst: d2 })
                && d2 == dst && k.spec_data_type() == c.spec_data_type() && k.int_value() == v)
    }),
{
    match c {
        Constant::Int(x) => {
            assert((!x) as int == -(x as int) - 1) by (bit_vector);
        },
        Constant::Long(x) => {
            assert((!x) as int == -(x as int) - 1) by (bit_vector);
        },
    }
}

} // verus!
