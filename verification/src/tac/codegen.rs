//! Code generation from the typed HIR into three-address code.

use vstd::prelude::*;
use crate::common::{Constant, DataType, StrDescriptor};
use crate::sem::{HirTypedExpr, HirExpr, HirVariable, HirBinaryOp, HirStmt, HirBlockItem, HirForInit, HirLocalVarDecl};
use super::tac::{Operand, Insn, UnaryOp, BinaryOp, LabelOperand, AutoGenLabel, LocalVar, Function, StaticVar, TopLevel, Param};
use crate::sem::{HirTopLevel, HirFunction, HirStaticVar};
use super::spec::{expr_size, args_size, operand_type, casts_ok, args_casts_ok, expr_temps, args_temps, expr_labels, args_labels, code_len, args_code_len, expr_operand, args_operands, expr_statics, args_statics, expr_code, args_code, branch, is_logical, var_operand,
    local_operand, decl_var, opt_size, opt_temps, opt_labels, opt_statics, opt_casts_ok, decl_code_len, decl_code,
    init_expr, init_code_len, init_code, init_decls, opt_init_expr, unbox, stmt_size, item_size, items_size,
    stmt_casts_ok, item_casts_ok, items_casts_ok, stmt_decls, item_decls, items_decls, stmt_statics, item_statics,
    items_statics, stmt_temps, item_temps, items_temps, stmt_labels, item_labels, items_labels, continue_label,
    break_label, opt_code, else_decls, opt_init_decls, stmt_code, item_code, items_code, entry_of, fresh_decls, lemma_fresh_split, lemma_table_concat};

verus! {

/// The stage that generates code from the HIR.
#[derive(Debug)]
pub struct Parse;

/// The stage of optimization.
#[derive(Debug)]
pub struct Opt;

/// What code generation for one function keeps: its local variables by id.
#[derive(Debug)]
pub struct FuncContext {
    pub local_vars: Vec<(usize, LocalVar)>,
}

/// The code generator; `static_vars` gathers the static variables that the code
/// refers to.
#[derive(Debug)]
pub struct CodeGen<Stage> {
    pub cur_cx: Option<FuncContext>,
    pub static_vars: Vec<(StrDescriptor, DataType)>,
    pub _stage: core::marker::PhantomData<Stage>,
}

/// `s` with the instructions of `v` appended.
fn append_insns(s: &mut Vec<Insn>, v: Vec<Insn>)
    ensures final(s)@ == old(s)@ + v@,
{
    let mut v = v;
    s.append(&mut v);
}

proof fn lemma_args_prefix(a: Seq<HirTypedExpr>, j: int)
    requires 0 <= j < a.len(),
    ensures
        a.subrange(0, j + 1).subrange(0, j) == a.subrange(0, j),
        a.subrange(0, j + 1)[j] == a[j],
        args_size(a.subrange(0, j + 1)) == args_size(a.subrange(0, j)) + expr_size(a[j]),
        args_temps(a.subrange(0, j + 1)) == args_temps(a.subrange(0, j)) + expr_temps(a[j]),
        args_labels(a.subrange(0, j + 1)) == args_labels(a.subrange(0, j)) + expr_labels(a[j]),
        args_code_len(a.subrange(0, j + 1)) == args_code_len(a.subrange(0, j)) + code_len(a[j]),
        args_casts_ok(a.subrange(0, j + 1)) == (args_casts_ok(a.subrange(0, j)) && casts_ok(a[j])),
        args_statics(a.subrange(0, j + 1)) == args_statics(a.subrange(0, j)) + expr_statics(a[j]),
        forall|t: int| #[trigger] args_operands(a.subrange(0, j + 1), t)
            == args_operands(a.subrange(0, j), t).push(expr_operand(a[j], t + args_temps(a.subrange(0, j)))),
{
    assert(a.subrange(0, j + 1).subrange(0, j) =~= a.subrange(0, j));
}

proof fn lemma_args_whole(a: Seq<HirTypedExpr>)
    ensures a.subrange(0, a.len() as int) == a,
{
    assert(a.subrange(0, a.len() as int) =~= a);
}

/// The counts of an expression are bounded by its size.
proof fn lemma_expr_bounds(e: HirTypedExpr)
    ensures expr_temps(e) <= expr_size(e), expr_labels(e) <= 2 * expr_size(e), expr_size(e) >= 1,
    decreases e,
{
    match e.untyped {
        HirExpr::Cast { expr, .. } => lemma_expr_bounds(*expr),
        HirExpr::Group(inner) => lemma_expr_bounds(*inner),
        HirExpr::Unary(_, inner) => lemma_expr_bounds(*inner),
        HirExpr::Binary { left, right, .. } => { lemma_expr_bounds(*left); lemma_expr_bounds(*right); },
        HirExpr::Assignment { left, right, .. } => { lemma_expr_bounds(*left); lemma_expr_bounds(*right); },
        HirExpr::Ternary { condition, then_expr, else_expr, .. } => {
            lemma_expr_bounds(*condition); lemma_expr_bounds(*then_expr); lemma_expr_bounds(*else_expr);
        },
        HirExpr::FuncCall { args, .. } => lemma_args_bounds(args@),
        _ => {},
    }
}

proof fn lemma_args_bounds(a: Seq<HirTypedExpr>)
    ensures args_temps(a) <= args_size(a), args_labels(a) <= 2 * args_size(a),
    decreases a,
{
    if a.len() > 0 {
        lemma_args_bounds(a.subrange(0, a.len() - 1));
        lemma_expr_bounds(a[a.len() - 1]);
    }
}

impl CodeGen<Parse> {
    /// Notes that the code refers to a static variable.
    fn note_static(&mut self, name: StrDescriptor, data_type: DataType)
        ensures
            final(self).static_vars@.to_set() == old(self).static_vars@.to_set().insert((name, data_type)),
            final(self).cur_cx == old(self).cur_cx,
    {
        let mut i: usize = 0;
        while i < self.static_vars.len()
            invariant i <= self.static_vars@.len(),
                forall|k: int| 0 <= k < i ==> self.static_vars@[k] != (name, data_type),
            decreases self.static_vars@.len() - i,
        {
            if self.static_vars[i].0 == name && self.static_vars[i].1 == data_type {
                proof {
                    assert(self.static_vars@.to_set().contains((name, data_type)));
                    assert(self.static_vars@.to_set().insert((name, data_type)) =~= self.static_vars@.to_set());
                }
                return;
            }
            i = i + 1;
        }
        let ghost before = self.static_vars@;
        self.static_vars.push((name, data_type));
        proof {
            assert(self.static_vars@.to_set() =~= before.to_set().insert((name, data_type))) by {
                assert forall|x| #[trigger] self.static_vars@.to_set().contains(x) <==> before.to_set().insert((name, data_type)).contains(x) by {
                    if self.static_vars@.to_set().contains(x) {
                        let k = choose|k: int| 0 <= k < self.static_vars@.len() && self.static_vars@[k] == x;
                        if k < before.len() { assert(before[k] == x); }
                    }
                    if before.to_set().contains(x) {
                        let k = choose|k: int| 0 <= k < before.len() && before[k] == x;
                        assert(self.static_vars@[k] == x);
                    }
                    if x == (name, data_type) {
                        assert(self.static_vars@[before.len() as int] == x);
                    }
                }
            }
        }
    }

    /// Generates code for an expression: the operand that holds its value and the
    /// instructions that compute it.
    #[verifier::rlimit(80)]
    pub fn parse_expr(&mut self, expr: HirTypedExpr, next_temp_id: &mut usize, next_branch_label: &mut usize)
        -> (r: (Operand, Vec<Insn>))
        requires
            casts_ok(expr),
            *old(next_temp_id) + expr_size(expr) <= usize::MAX,
            *old(next_branch_label) + 2 * expr_size(expr) <= usize::MAX,
        ensures
            r.0 == expr_operand(expr, *old(next_temp_id) as int),
            expr_code(expr, *old(next_temp_id) as int, *old(next_branch_label) as int, r.1@),
            *final(next_temp_id) == *old(next_temp_id) + expr_temps(expr),
            *final(next_branch_label) == *old(next_branch_label) + expr_labels(expr),
            final(self).static_vars@.to_set() == old(self).static_vars@.to_set() + expr_statics(expr),
            final(self).cur_cx == old(self).cur_cx,
        decreases expr,
    {
        proof { lemma_expr_bounds(expr); }
        let ghost e0 = expr;
        let ghost t0 = *next_temp_id as int;
        let ghost l0 = *next_branch_label as int;
        let type_ = expr.type_;
        let dst = Operand::Temp(*next_temp_id, type_);
        *next_temp_id = *next_temp_id + 1;

        match expr.untyped {
            HirExpr::Cast { target, expr: inner, .. } => {
                proof { lemma_expr_bounds(*inner); }
                let (src, mut insns) = self.parse_expr(*inner, next_temp_id, next_branch_label);
                let src_type = src.data_type();
                proof { lemma_operand_type(*e0.untyped->Cast_expr, t0 + 1); }
                if src_type == target {
                    *next_temp_id = *next_temp_id - 1;
                    proof { assert(insns@ =~= insns@.subrange(0, insns@.len() as int)); }
                    return (src, insns);
                }
                let ghost before = insns@;
                if target == DataType::Long {
                    insns.push(Insn::SignExt { src, dst });
                } else {
                    insns.push(Insn::Truncate { src, dst });
                }
                proof { assert(insns@.subrange(0, before.len() as int) =~= before); }
                (dst, insns)
            },
            HirExpr::IntegerLiteral(val) => (Operand::Imm(val), Vec::new()),
            HirExpr::Unary((op, _), inner) => {
                let (src, mut insns) = self.parse_expr(*inner, next_temp_id, next_branch_label);
                let ghost before = insns@;
                insns.push(Insn::Unary { op: UnaryOp::from_hir(op), src, dst });
                proof { assert(insns@.subrange(0, before.len() as int) =~= before); }
                (dst, insns)
            },
            HirExpr::Group(inner) => self.parse_expr(*inner, next_temp_id, next_branch_label),
            HirExpr::FuncCall { name, args, .. } => {
                let ghost orig = args@;
                let n = args.len();
                let mut rest = args;
                let mut top_insns: Vec<Insn> = Vec::new();
                let mut arg_operands: Vec<Operand> = Vec::new();
                let mut j: usize = 0;
                proof {
                    assert(orig.subrange(0, 0) =~= Seq::<HirTypedExpr>::empty());
                    assert(top_insns@.subrange(0, 0) =~= top_insns@);
                }
                while j < n
                    invariant
                        j <= n, n == orig.len(),
                        e0.untyped is FuncCall && e0.untyped->FuncCall_args@ == orig,
                        e0 == expr,
                        rest@ == orig.subrange(j as int, n as int),
                        args_casts_ok(orig),
                        t0 + expr_size(e0) <= usize::MAX,
                        l0 + 2 * expr_size(e0) <= usize::MAX,
                        expr_size(e0) == 1 + args_size(orig),
                        *next_temp_id == t0 + 1 + args_temps(orig.subrange(0, j as int)),
                        *next_branch_label == l0 + args_labels(orig.subrange(0, j as int)),
                        args_code(orig.subrange(0, j as int), t0 + 1, l0, top_insns@),
                        arg_operands@ == args_operands(orig.subrange(0, j as int), t0 + 1),
                        self.static_vars@.to_set() == old(self).static_vars@.to_set() + args_statics(orig.subrange(0, j as int)),
                        self.cur_cx == old(self).cur_cx,
                    decreases n - j,
                {
                    let arg = rest.remove(0);
                    proof {
                        assert(arg == orig[j as int]);
                        assert(decreases_to!(e0 => e0.untyped));
                        assert(decreases_to!(e0.untyped => e0.untyped->FuncCall_args));
                        assert(decreases_to!(e0.untyped->FuncCall_args => e0.untyped->FuncCall_args@));
                        assert(decreases_to!(e0.untyped->FuncCall_args@ => e0.untyped->FuncCall_args@[j as int]));
                        assert(rest@ =~= orig.subrange(j as int + 1, n as int));
                        lemma_args_prefix(orig, j as int);
                        lemma_args_casts_all(orig, j as int);
                        lemma_args_size_mono(orig, j as int + 1);
                        lemma_args_bounds(orig.subrange(0, j as int));
                    }
                    let ghost before = top_insns@;
                    let (operand, insns) = self.parse_expr(arg, next_temp_id, next_branch_label);
                    let ghost s_arg = insns@;
                    append_insns(&mut top_insns, insns);
                    arg_operands.push(operand);
                    proof {
                        assert(top_insns@.subrange(0, before.len() as int) =~= before);
                        assert(top_insns@.subrange(before.len() as int, top_insns@.len() as int) =~= s_arg);
                        assert(orig.subrange(0, j as int + 1)[j as int] == orig[j as int]);
                        assert(orig.subrange(0, j as int + 1).subrange(0, j as int) =~= orig.subrange(0, j as int));
                    }
                    j = j + 1;
                }
                proof {
                    lemma_args_whole(orig);
                    assert(top_insns@.subrange(0, top_insns@.len() as int) =~= top_insns@);
                }
                let ghost before = top_insns@;
                top_insns.push(Insn::FuncCall { target: name, args: arg_operands, dst });
                proof { assert(top_insns@.subrange(0, before.len() as int) =~= before); }
                (dst, top_insns)
            },
            HirExpr::Binary { op: (op, _), left, right } => {
                proof { lemma_expr_bounds(*left); lemma_expr_bounds(*right); }
                let op = BinaryOp::from_hir(op);
                match op {
                    BinaryOp::And | BinaryOp::Or => {
                        let is_and = match op { BinaryOp::And => true, _ => false };
                        let short_label = LabelOperand::AutoGen(AutoGenLabel::Branch(*next_branch_label));
                        let end_label = LabelOperand::AutoGen(AutoGenLabel::Branch(*next_branch_label + 1));
                        *next_branch_label = *next_branch_label + 2;

                        let (left_operand, left_insns) = self.parse_expr(*left, next_temp_id, next_branch_label);
                        let mut top_insns = left_insns;
                        let ghost s_left = top_insns@;
                        if is_and {
                            top_insns.push(Insn::BranchIfZero { src: left_operand, label: short_label });
                        } else {
                            top_insns.push(Insn::BranchNotZero { src: left_operand, label: short_label });
                        }
                        let ghost s1 = top_insns@;
                        let (right_operand, right_insns) = self.parse_expr(*right, next_temp_id, next_branch_label);
                        let ghost s_right = right_insns@;
                        append_insns(&mut top_insns, right_insns);
                        if is_and {
                            top_insns.push(Insn::BranchIfZero { src: right_operand, label: short_label });
                            top_insns.push(Insn::Move { src: Operand::Imm(Constant::Int(1)), dst });
                        } else {
                            top_insns.push(Insn::BranchNotZero { src: right_operand, label: short_label });
                            top_insns.push(Insn::Move { src: Operand::Imm(Constant::Int(0)), dst });
                        }
                        top_insns.push(Insn::Jump(end_label));
                        top_insns.push(Insn::Label(short_label));
                        if is_and {
                            top_insns.push(Insn::Move { src: Operand::Imm(Constant::Int(0)), dst });
                        } else {
                            top_insns.push(Insn::Move { src: Operand::Imm(Constant::Int(1)), dst });
                        }
                        top_insns.push(Insn::Label(end_label));
                        proof {
                            let a = s_left.len() as int;
                            assert(top_insns@.subrange(0, a) =~= s_left);
                            assert(top_insns@.subrange(a + 1, a + 1 + s_right.len()) =~= s_right);
                        }
                        (dst, top_insns)
                    },
                    _ => {
                        let (left_operand, left_insns) = self.parse_expr(*left, next_temp_id, next_branch_label);
                        let (right_operand, right_insns) = self.parse_expr(*right, next_temp_id, next_branch_label);
                        let ghost s_left = left_insns@;
                        let ghost s_right = right_insns@;
                        let mut insns = left_insns;
                        append_insns(&mut insns, right_insns);
                        insns.push(Insn::Binary { op, left: left_operand, right: right_operand, dst });
                        proof {
                            let a = s_left.len() as int;
                            assert(insns@.subrange(0, a) =~= s_left);
                            assert(insns@.subrange(a, a + s_right.len()) =~= s_right);
                        }
                        (dst, insns)
                    },
                }
            },
            HirExpr::Var(var) => {
                // a variable needs no temporary.
                *next_temp_id = *next_temp_id - 1;
                match var {
                    HirVariable::Local { name, local_id, data_type } =>
                        (Operand::Var { name, local_id: Some(local_id), data_type }, Vec::new()),
                    HirVariable::Static { name, data_type } => {
                        self.note_static(name, data_type);
                        proof { assert(set![(name, data_type)] =~= Set::empty().insert((name, data_type))); }
                        (Operand::Var { name, local_id: None, data_type }, Vec::new())
                    },
                }
            },
            HirExpr::Assignment { left, right, .. } => {
                proof { lemma_expr_bounds(*left); lemma_expr_bounds(*right); }
                *next_temp_id = *next_temp_id - 1;
                let (left_operand, left_insns) = self.parse_expr(*left, next_temp_id, next_branch_label);
                let (right_operand, right_insns) = self.parse_expr(*right, next_temp_id, next_branch_label);
                let ghost s_left = left_insns@;
                let ghost s_right = right_insns@;
                let mut insns = right_insns;
                append_insns(&mut insns, left_insns);
                insns.push(Insn::Move { src: right_operand, dst: left_operand });
                proof {
                    let a = s_right.len() as int;
                    assert(insns@.subrange(0, a) =~= s_right);
                    assert(insns@.subrange(a, a + s_left.len()) =~= s_left);
                }
                (left_operand, insns)
            },
            HirExpr::Ternary { condition, then_expr, else_expr, .. } => {
                proof { lemma_expr_bounds(*condition); lemma_expr_bounds(*then_expr); lemma_expr_bounds(*else_expr); }
                let (cond_operand, cond_insns) = self.parse_expr(*condition, next_temp_id, next_branch_label);
                let mut top_insns = cond_insns;
                let ghost s_cond = top_insns@;
                let else_label = LabelOperand::AutoGen(AutoGenLabel::Branch(*next_branch_label));
                let end_label = LabelOperand::AutoGen(AutoGenLabel::Branch(*next_branch_label + 1));
                *next_branch_label = *next_branch_label + 2;
                top_insns.push(Insn::BranchIfZero { src: cond_operand, label: else_label });
                let (then_operand, then_insns) = self.parse_expr(*then_expr, next_temp_id, next_branch_label);
                let ghost s_then = then_insns@;
                append_insns(&mut top_insns, then_insns);
                top_insns.push(Insn::Move { src: then_operand, dst });
                top_insns.push(Insn::Jump(end_label));
                top_insns.push(Insn::Label(else_label));
                let (else_operand, else_insns) = self.parse_expr(*else_expr, next_temp_id, next_branch_label);
                let ghost s_else = else_insns@;
                append_insns(&mut top_insns, else_insns);
                top_insns.push(Insn::Move { src: else_operand, dst });
                top_insns.push(Insn::Label(end_label));
                proof {
                    let c = s_cond.len() as int;
                    let th = c + 1 + s_then.len();
                    assert(top_insns@.subrange(0, c) =~= s_cond);
                    assert(top_insns@.subrange(c + 1, th) =~= s_then);
                    assert(top_insns@.subrange(th + 3, th + 3 + s_else.len()) =~= s_else);
                }
                (dst, top_insns)
            },
        }
    }
}

/// The operand of an expression has the type `operand_type` names.
proof fn lemma_operand_type(e: HirTypedExpr, t: int)
    ensures expr_operand(e, t).spec_data_type() == operand_type(e),
    decreases e,
{
    match e.untyped {
        HirExpr::Cast { target, expr, .. } => lemma_operand_type(*expr, t + 1),
        HirExpr::Group(inner) => lemma_operand_type(*inner, t + 1),
        HirExpr::Assignment { left, .. } => lemma_operand_type(*left, t),
        HirExpr::Var(v) => {},
        _ => {},
    }
}


/// The local variables recorded for the function being generated.
pub open spec fn cx_table(cx: Option<FuncContext>) -> Seq<(usize, LocalVar)> {
    match cx { Some(c) => c.local_vars@, None => Seq::empty() }
}

/// The counts of a statement are bounded by its size.
proof fn lemma_stmt_bounds(s: HirStmt)
    ensures stmt_temps(s) <= stmt_size(s), stmt_labels(s) + 2 <= 2 * stmt_size(s),
    decreases s,
{
    match s {
        HirStmt::Return { expr, .. } => lemma_expr_bounds(*expr),
        HirStmt::Expr(e) => lemma_expr_bounds(*e),
        HirStmt::If { condition, then_branch, else_branch } => {
            lemma_expr_bounds(*condition);
            lemma_stmt_bounds(*then_branch);
            match else_branch { Some(e) => lemma_stmt_bounds(*e), None => {} }
        },
        HirStmt::Compound(items) => lemma_items_bounds(items@),
        HirStmt::While { controller, body, .. } => { lemma_expr_bounds(*controller); lemma_stmt_bounds(*body); },
        HirStmt::DoWhile { controller, body, .. } => { lemma_expr_bounds(*controller); lemma_stmt_bounds(*body); },
        HirStmt::For { initializer, controller, post, body, .. } => {
            lemma_opt_bounds(opt_init_expr(initializer));
            lemma_opt_bounds(unbox(controller));
            lemma_opt_bounds(unbox(post));
            lemma_stmt_bounds(*body);
        },
        _ => {},
    }
}

proof fn lemma_opt_bounds(e: Option<HirTypedExpr>)
    ensures opt_temps(e) <= opt_size(e), opt_labels(e) <= 2 * opt_size(e),
{
    match e { Some(e) => lemma_expr_bounds(e), None => {} }
}

proof fn lemma_item_bounds(i: HirBlockItem)
    ensures item_temps(i) <= item_size(i), item_labels(i) <= 2 * item_size(i),
    decreases i,
{
    match i {
        HirBlockItem::Declaration(d) => lemma_opt_bounds(d.initializer),
        HirBlockItem::Statement(s) => lemma_stmt_bounds(s),
    }
}

proof fn lemma_items_bounds(a: Seq<HirBlockItem>)
    ensures items_temps(a) <= items_size(a), items_labels(a) <= 2 * items_size(a),
    decreases a,
{
    if a.len() > 0 {
        lemma_items_bounds(a.subrange(0, a.len() - 1));
        lemma_item_bounds(a[a.len() - 1]);
    }
}

proof fn lemma_items_prefix(a: Seq<HirBlockItem>, j: int)
    requires 0 <= j < a.len(),
    ensures
        a.subrange(0, j + 1).subrange(0, j) == a.subrange(0, j),
        a.subrange(0, j + 1)[j] == a[j],
        items_size(a.subrange(0, j + 1)) == items_size(a.subrange(0, j)) + item_size(a[j]),
        items_temps(a.subrange(0, j + 1)) == items_temps(a.subrange(0, j)) + item_temps(a[j]),
        items_labels(a.subrange(0, j + 1)) == items_labels(a.subrange(0, j)) + item_labels(a[j]),
        items_casts_ok(a.subrange(0, j + 1)) == (items_casts_ok(a.subrange(0, j)) && item_casts_ok(a[j])),
        items_statics(a.subrange(0, j + 1)) == items_statics(a.subrange(0, j)) + item_statics(a[j]),
        items_decls(a.subrange(0, j + 1)) == items_decls(a.subrange(0, j)) + item_decls(a[j]),
{
    assert(a.subrange(0, j + 1).subrange(0, j) =~= a.subrange(0, j));
}

proof fn lemma_items_mono(a: Seq<HirBlockItem>, j: int, table: Seq<(usize, LocalVar)>)
    requires 0 <= j <= a.len(), items_casts_ok(a), fresh_decls(table, items_decls(a)),
    ensures
        items_size(a.subrange(0, j)) <= items_size(a),
        items_casts_ok(a.subrange(0, j)),
        forall|k: int| j <= k < a.len() ==> item_casts_ok(#[trigger] a[k]),
        items_decls(a) == items_decls(a.subrange(0, j))
            + items_decls(a).subrange(items_decls(a.subrange(0, j)).len() as int, items_decls(a).len() as int),
    decreases a.len() - j,
{
    let whole = items_decls(a);
    if j < a.len() {
        lemma_items_mono(a, j + 1, table);
        lemma_items_prefix(a, j);
        let d1 = items_decls(a.subrange(0, j + 1));
        let d0 = items_decls(a.subrange(0, j));
        assert(whole =~= d0 + whole.subrange(d0.len() as int, whole.len() as int)) by {
            assert(d1 == d0 + item_decls(a[j]));
            assert(whole == d1 + whole.subrange(d1.len() as int, whole.len() as int));
        }
    } else {
        assert(a.subrange(0, j) =~= a);
        assert(whole =~= items_decls(a.subrange(0, j)) + whole.subrange(whole.len() as int, whole.len() as int));
    }
}

impl CodeGen<Parse> {
    /// Records a local variable of the function being generated.
    fn record_local(&mut self, var: LocalVar)
        requires old(self).cur_cx is Some,
        ensures
            final(self).cur_cx is Some,
            cx_table(final(self).cur_cx) == cx_table(old(self).cur_cx).push(entry_of(var)),
            final(self).static_vars == old(self).static_vars,
    {
        match &mut self.cur_cx {
            Some(cx) => cx.local_vars.push((var.local_id, var)),
            None => {},
        }
    }

    /// Generates code for a block item.
    pub fn parse_block_item(&mut self, item: HirBlockItem, next_temp_id: &mut usize, next_branch_label: &mut usize)
        -> (r: Vec<Insn>)
        requires
            item_casts_ok(item),
            *old(next_temp_id) + item_size(item) <= usize::MAX,
            *old(next_branch_label) + 2 * item_size(item) <= usize::MAX,
            old(self).cur_cx is Some,
            fresh_decls(cx_table(old(self).cur_cx), item_decls(item)),
        ensures
            item_code(item, *old(next_temp_id) as int, *old(next_branch_label) as int, r@),
            *final(next_temp_id) == *old(next_temp_id) + item_temps(item),
            *final(next_branch_label) == *old(next_branch_label) + item_labels(item),
            final(self).static_vars@.to_set() == old(self).static_vars@.to_set() + item_statics(item),
            final(self).cur_cx is Some,
            cx_table(final(self).cur_cx) == cx_table(old(self).cur_cx) + item_decls(item).map_values(|v: LocalVar| entry_of(v)),
        decreases item, 0nat,
    {
        match item {
            HirBlockItem::Declaration(decl) => self.parse_decl(decl, next_temp_id, next_branch_label),
            HirBlockItem::Statement(stmt) => self.parse_stmt(stmt, next_temp_id, next_branch_label),
        }
    }

    /// Generates code for a declaration: the initial value is moved into the variable.
    fn parse_decl(&mut self, decl: HirLocalVarDecl, next_temp_id: &mut usize, next_branch_label: &mut usize)
        -> (r: Vec<Insn>)
        requires
            opt_casts_ok(decl.initializer),
            *old(next_temp_id) + 1 + opt_size(decl.initializer) <= usize::MAX,
            *old(next_branch_label) + 2 * (1 + opt_size(decl.initializer)) <= usize::MAX,
            old(self).cur_cx is Some,
            fresh_decls(cx_table(old(self).cur_cx), seq![decl_var(decl)]),
        ensures
            decl_code(decl, *old(next_temp_id) as int, *old(next_branch_label) as int, r@),
            *final(next_temp_id) == *old(next_temp_id) + opt_temps(decl.initializer),
            *final(next_branch_label) == *old(next_branch_label) + opt_labels(decl.initializer),
            final(self).static_vars@.to_set() == old(self).static_vars@.to_set() + opt_statics(decl.initializer),
            final(self).cur_cx is Some,
            cx_table(final(self).cur_cx) == cx_table(old(self).cur_cx) + seq![decl_var(decl)].map_values(|v: LocalVar| entry_of(v)),
    {
        let HirLocalVarDecl { name, data_type, local_id, initializer, .. } = decl;
        let var = Operand::Var { name, local_id: Some(local_id), data_type };
        let mut insns: Vec<Insn> = Vec::new();
        match initializer {
            Some(expr) => {
                let (src, expr_insns) = self.parse_expr(expr, next_temp_id, next_branch_label);
                insns = expr_insns;
                let ghost before = insns@;
                insns.push(Insn::Move { src, dst: var });
                proof {
                    assert(insns@.subrange(0, before.len() as int) =~= before);
                    assert(Set::<(StrDescriptor, DataType)>::empty() + expr_statics(decl.initializer->0) =~= expr_statics(decl.initializer->0));
                }
            },
            None => {
                proof { assert(self.static_vars@.to_set() + Set::empty() =~= self.static_vars@.to_set()); }
            },
        }
        self.record_local(LocalVar { name, local_id, data_type });
        proof {
            assert(seq![decl_var(decl)].map_values(|v: LocalVar| entry_of(v)) =~= seq![entry_of(decl_var(decl))]);
        }
        insns
    }


    /// Generates code for a statement.
    #[verifier::rlimit(100)]
    pub fn parse_stmt(&mut self, stmt: HirStmt, next_temp_id: &mut usize, next_branch_label: &mut usize)
        -> (r: Vec<Insn>)
        requires
            stmt_casts_ok(stmt),
            *old(next_temp_id) + stmt_size(stmt) <= usize::MAX,
            *old(next_branch_label) + 2 * stmt_size(stmt) <= usize::MAX,
            old(self).cur_cx is Some,
            fresh_decls(cx_table(old(self).cur_cx), stmt_decls(stmt)),
        ensures
            stmt_code(stmt, *old(next_temp_id) as int, *old(next_branch_label) as int, r@),
            *final(next_temp_id) == *old(next_temp_id) + stmt_temps(stmt),
            *final(next_branch_label) == *old(next_branch_label) + stmt_labels(stmt),
            final(self).static_vars@.to_set() == old(self).static_vars@.to_set() + stmt_statics(stmt),
            final(self).cur_cx is Some,
            cx_table(final(self).cur_cx) == cx_table(old(self).cur_cx) + stmt_decls(stmt).map_values(|v: LocalVar| entry_of(v)),
        decreases stmt, 2nat,
    {
        proof { lemma_stmt_bounds(stmt); }
        let ghost s0 = stmt;
        let ghost t0 = *next_temp_id as int;
        let ghost l0 = *next_branch_label as int;
        let ghost table0 = cx_table(self.cur_cx);
        let ghost st0 = self.static_vars@.to_set();
        let mut top_insns: Vec<Insn> = Vec::new();
        match &stmt {
            HirStmt::If { .. } => return self.parse_if(stmt, next_temp_id, next_branch_label),
            HirStmt::While { .. } => return self.parse_while(stmt, next_temp_id, next_branch_label),
            HirStmt::DoWhile { .. } => return self.parse_do_while(stmt, next_temp_id, next_branch_label),
            HirStmt::For { .. } => return self.parse_for(stmt, next_temp_id, next_branch_label),
            _ => {},
        }
        match stmt {
            HirStmt::Return { expr, .. } => {
                proof { lemma_expr_bounds(*expr); }
                let (operand, insns) = self.parse_expr(*expr, next_temp_id, next_branch_label);
                top_insns = insns;
                let ghost before = top_insns@;
                top_insns.push(Insn::Return(operand));
                proof {
                    assert(top_insns@.subrange(0, before.len() as int) =~= before);
                    assert(table0 + Seq::<LocalVar>::empty().map_values(|v: LocalVar| entry_of(v)) =~= table0);
                }
            },
            HirStmt::Expr(expr) => {
                let (_, insns) = self.parse_expr(*expr, next_temp_id, next_branch_label);
                top_insns = insns;
                proof { assert(table0 + Seq::<LocalVar>::empty().map_values(|v: LocalVar| entry_of(v)) =~= table0); }
            },
            HirStmt::Compound(items) => {
                top_insns = self.parse_items(items, next_temp_id, next_branch_label);
            },
            HirStmt::Nil => {
                proof {
                    assert(table0 + Seq::<LocalVar>::empty().map_values(|v: LocalVar| entry_of(v)) =~= table0);
                    assert(st0 + Set::empty() =~= st0);
                }
            },
            HirStmt::Break { loop_label, .. } => {
                top_insns.push(Insn::Jump(LabelOperand::AutoGen(AutoGenLabel::Break(loop_label))));
                proof {
                    assert(top_insns@ =~= seq![Insn::Jump(break_label(loop_label))]);
                    assert(table0 + Seq::<LocalVar>::empty().map_values(|v: LocalVar| entry_of(v)) =~= table0);
                    assert(st0 + Set::empty() =~= st0);
                }
            },
            HirStmt::Continue { loop_label, .. } => {
                top_insns.push(Insn::Jump(LabelOperand::AutoGen(AutoGenLabel::Continue(loop_label))));
                proof {
                    assert(top_insns@ =~= seq![Insn::Jump(continue_label(loop_label))]);
                    assert(table0 + Seq::<LocalVar>::empty().map_values(|v: LocalVar| entry_of(v)) =~= table0);
                    assert(st0 + Set::empty() =~= st0);
                }
            },
            _ => {},
        }
        top_insns
    }


    /// Generates code for a statement of the `If` kind.
    #[verifier::rlimit(90)]
    fn parse_if(&mut self, stmt: HirStmt, next_temp_id: &mut usize, next_branch_label: &mut usize)
        -> (r: Vec<Insn>)
        requires
            stmt is If,
            stmt_casts_ok(stmt),
            *old(next_temp_id) + stmt_size(stmt) <= usize::MAX,
            *old(next_branch_label) + 2 * stmt_size(stmt) <= usize::MAX,
            old(self).cur_cx is Some,
            fresh_decls(cx_table(old(self).cur_cx), stmt_decls(stmt)),
        ensures
            stmt_code(stmt, *old(next_temp_id) as int, *old(next_branch_label) as int, r@),
            *final(next_temp_id) == *old(next_temp_id) + stmt_temps(stmt),
            *final(next_branch_label) == *old(next_branch_label) + stmt_labels(stmt),
            final(self).static_vars@.to_set() == old(self).static_vars@.to_set() + stmt_statics(stmt),
            final(self).cur_cx is Some,
            cx_table(final(self).cur_cx) == cx_table(old(self).cur_cx) + stmt_decls(stmt).map_values(|v: LocalVar| entry_of(v)),
        decreases stmt, 1nat,
    {
        proof { lemma_stmt_bounds(stmt); }
        let ghost s0 = stmt;
        let ghost t0 = *next_temp_id as int;
        let ghost l0 = *next_branch_label as int;
        let ghost table0 = cx_table(self.cur_cx);
        let ghost st0 = self.static_vars@.to_set();
        let mut top_insns: Vec<Insn> = Vec::new();
        match stmt {
            HirStmt::If { condition, then_branch, else_branch } => {
                proof { lemma_expr_bounds(*condition); lemma_stmt_bounds(*then_branch); }
                let (cond_operand, cond_insns) = self.parse_expr(*condition, next_temp_id, next_branch_label);
                top_insns = cond_insns;
                let ghost s_cond = top_insns@;
                let ghost t1 = *next_temp_id as int;
                let ghost l1 = *next_branch_label as int;
                proof {
                    lemma_fresh_split(table0, stmt_decls(*then_branch), else_decls(else_branch));
                    lemma_table_concat(table0, stmt_decls(*then_branch), else_decls(else_branch));
                }
                match else_branch {
                    Some(else_branch) => {
                        proof { lemma_stmt_bounds(*else_branch); }
                        let else_label = LabelOperand::AutoGen(AutoGenLabel::Branch(*next_branch_label));
                        let end_label = LabelOperand::AutoGen(AutoGenLabel::Branch(*next_branch_label + 1));
                        *next_branch_label = *next_branch_label + 2;
                        top_insns.push(Insn::BranchIfZero { src: cond_operand, label: else_label });
                        let ghost m0 = top_insns@.len();
                        let then_insns = self.parse_stmt(*then_branch, next_temp_id, next_branch_label);
                        let ghost s_then = then_insns@;
                        append_insns(&mut top_insns, then_insns);
                        let ghost m = top_insns@.len() as int;
                        top_insns.push(Insn::Jump(end_label));
                        top_insns.push(Insn::Label(else_label));
                        let else_insns = self.parse_stmt(*else_branch, next_temp_id, next_branch_label);
                        let ghost s_else = else_insns@;
                        append_insns(&mut top_insns, else_insns);
                        top_insns.push(Insn::Label(end_label));
                        proof {
                            let c = s_cond.len() as int;
                            let k = top_insns@.len() - 1;
                            assert(top_insns@.subrange(0, c) =~= s_cond);
                            assert(top_insns@.subrange(c + 1, m) =~= s_then);
                            assert(top_insns@.subrange(m + 2, k) =~= s_else);
                        }
                    },
                    None => {
                        let end_label = LabelOperand::AutoGen(AutoGenLabel::Branch(*next_branch_label));
                        *next_branch_label = *next_branch_label + 1;
                        top_insns.push(Insn::BranchIfZero { src: cond_operand, label: end_label });
                        let then_insns = self.parse_stmt(*then_branch, next_temp_id, next_branch_label);
                        let ghost s_then = then_insns@;
                        append_insns(&mut top_insns, then_insns);
                        top_insns.push(Insn::Label(end_label));
                        proof {
                            let c = s_cond.len() as int;
                            let k = top_insns@.len() - 1;
                            assert(top_insns@.subrange(0, c) =~= s_cond);
                            assert(top_insns@.subrange(c + 1, k) =~= s_then);
                            assert(stmt_decls(*then_branch) + Seq::<LocalVar>::empty() =~= stmt_decls(*then_branch));
                            assert(self.static_vars@.to_set() =~= st0 + stmt_statics(s0));
                        }
                    },
                }
            },
            _ => {},
        }
        top_insns
    }


    /// Generates code for a statement of the `While` kind.
    #[verifier::rlimit(90)]
    fn parse_while(&mut self, stmt: HirStmt, next_temp_id: &mut usize, next_branch_label: &mut usize)
        -> (r: Vec<Insn>)
        requires
            stmt is While,
            stmt_casts_ok(stmt),
            *old(next_temp_id) + stmt_size(stmt) <= usize::MAX,
            *old(next_branch_label) + 2 * stmt_size(stmt) <= usize::MAX,
            old(self).cur_cx is Some,
            fresh_decls(cx_table(old(self).cur_cx), stmt_decls(stmt)),
        ensures
            stmt_code(stmt, *old(next_temp_id) as int, *old(next_branch_label) as int, r@),
            *final(next_temp_id) == *old(next_temp_id) + stmt_temps(stmt),
            *final(next_branch_label) == *old(next_branch_label) + stmt_labels(stmt),
            final(self).static_vars@.to_set() == old(self).static_vars@.to_set() + stmt_statics(stmt),
            final(self).cur_cx is Some,
            cx_table(final(self).cur_cx) == cx_table(old(self).cur_cx) + stmt_decls(stmt).map_values(|v: LocalVar| entry_of(v)),
        decreases stmt, 1nat,
    {
        proof { lemma_stmt_bounds(stmt); }
        let ghost s0 = stmt;
        let ghost t0 = *next_temp_id as int;
        let ghost l0 = *next_branch_label as int;
        let ghost table0 = cx_table(self.cur_cx);
        let ghost st0 = self.static_vars@.to_set();
        let mut top_insns: Vec<Insn> = Vec::new();
        match stmt {
            HirStmt::While { controller, body, loop_label, .. } => {
                proof { lemma_expr_bounds(*controller); lemma_stmt_bounds(*body); }
                let con_label = LabelOperand::AutoGen(AutoGenLabel::Continue(loop_label));
                let brk_label = LabelOperand::AutoGen(AutoGenLabel::Break(loop_label));
                top_insns.push(Insn::Label(con_label));
                let (ctrl_operand, ctrl_insns) = self.parse_expr(*controller, next_temp_id, next_branch_label);
                let ghost s_ctrl = ctrl_insns@;
                append_insns(&mut top_insns, ctrl_insns);
                top_insns.push(Insn::BranchIfZero { src: ctrl_operand, label: brk_label });
                let body_insns = self.parse_stmt(*body, next_temp_id, next_branch_label);
                let ghost s_body = body_insns@;
                append_insns(&mut top_insns, body_insns);
                top_insns.push(Insn::Jump(con_label));
                top_insns.push(Insn::Label(brk_label));
                proof {
                    let c = s_ctrl.len() as int;
                    let k = top_insns@.len() - 2;
                    assert(top_insns@.subrange(1, c + 1) =~= s_ctrl);
                    assert(top_insns@.subrange(c + 2, k) =~= s_body);
                }
            },
            _ => {},
        }
        top_insns
    }


    /// Generates code for a statement of the `DoWhile` kind.
    #[verifier::rlimit(90)]
    fn parse_do_while(&mut self, stmt: HirStmt, next_temp_id: &mut usize, next_branch_label: &mut usize)
        -> (r: Vec<Insn>)
        requires
            stmt is DoWhile,
            stmt_casts_ok(stmt),
            *old(next_temp_id) + stmt_size(stmt) <= usize::MAX,
            *old(next_branch_label) + 2 * stmt_size(stmt) <= usize::MAX,
            old(self).cur_cx is Some,
            fresh_decls(cx_table(old(self).cur_cx), stmt_decls(stmt)),
        ensures
            stmt_code(stmt, *old(next_temp_id) as int, *old(next_branch_label) as int, r@),
            *final(next_temp_id) == *old(next_temp_id) + stmt_temps(stmt),
            *final(next_branch_label) == *old(next_branch_label) + stmt_labels(stmt),
            final(self).static_vars@.to_set() == old(self).static_vars@.to_set() + stmt_statics(stmt),
            final(self).cur_cx is Some,
            cx_table(final(self).cur_cx) == cx_table(old(self).cur_cx) + stmt_decls(stmt).map_values(|v: LocalVar| entry_of(v)),
        decreases stmt, 1nat,
    {
        proof { lemma_stmt_bounds(stmt); }
        let ghost s0 = stmt;
        let ghost t0 = *next_temp_id as int;
        let ghost l0 = *next_branch_label as int;
        let ghost table0 = cx_table(self.cur_cx);
        let ghost st0 = self.static_vars@.to_set();
        let mut top_insns: Vec<Insn> = Vec::new();
        match stmt {
            HirStmt::DoWhile { body, controller, loop_label, .. } => {
                proof { lemma_expr_bounds(*controller); lemma_stmt_bounds(*body); }
                let con_label = LabelOperand::AutoGen(AutoGenLabel::Continue(loop_label));
                let brk_label = LabelOperand::AutoGen(AutoGenLabel::Break(loop_label));
                let start_label = LabelOperand::AutoGen(AutoGenLabel::Branch(*next_branch_label));
                *next_branch_label = *next_branch_label + 1;
                top_insns.push(Insn::Label(start_label));
                let body_insns = self.parse_stmt(*body, next_temp_id, next_branch_label);
                let ghost s_body = body_insns@;
                append_insns(&mut top_insns, body_insns);
                top_insns.push(Insn::Label(con_label));
                let (ctrl_operand, ctrl_insns) = self.parse_expr(*controller, next_temp_id, next_branch_label);
                let ghost s_ctrl = ctrl_insns@;
                append_insns(&mut top_insns, ctrl_insns);
                top_insns.push(Insn::BranchNotZero { src: ctrl_operand, label: start_label });
                top_insns.push(Insn::Label(brk_label));
                proof {
                    let c = s_ctrl.len() as int;
                    let k = top_insns@.len() - 2 - c;
                    assert(top_insns@.subrange(1, k - 1) =~= s_body);
                    assert(top_insns@.subrange(k, k + c) =~= s_ctrl);
                    assert(self.static_vars@.to_set() =~= st0 + stmt_statics(s0));
                }
            },
            _ => {},
        }
        top_insns
    }


    /// Generates code for a statement of the `For` kind.
    #[verifier::rlimit(100)]
    #[verifier::spinoff_prover]
    fn parse_for(&mut self, stmt: HirStmt, next_temp_id: &mut usize, next_branch_label: &mut usize)
        -> (r: Vec<Insn>)
        requires
            stmt is For,
            stmt_casts_ok(stmt),
            *old(next_temp_id) + stmt_size(stmt) <= usize::MAX,
            *old(next_branch_label) + 2 * stmt_size(stmt) <= usize::MAX,
            old(self).cur_cx is Some,
            fresh_decls(cx_table(old(self).cur_cx), stmt_decls(stmt)),
        ensures
            stmt_code(stmt, *old(next_temp_id) as int, *old(next_branch_label) as int, r@),
            *final(next_temp_id) == *old(next_temp_id) + stmt_temps(stmt),
            *final(next_branch_label) == *old(next_branch_label) + stmt_labels(stmt),
            final(self).static_vars@.to_set() == old(self).static_vars@.to_set() + stmt_statics(stmt),
            final(self).cur_cx is Some,
            cx_table(final(self).cur_cx) == cx_table(old(self).cur_cx) + stmt_decls(stmt).map_values(|v: LocalVar| entry_of(v)),
        decreases stmt, 1nat,
    {
        proof { lemma_stmt_bounds(stmt); }
        let ghost s0 = stmt;
        let ghost t0 = *next_temp_id as int;
        let ghost l0 = *next_branch_label as int;
        let ghost table0 = cx_table(self.cur_cx);
        let ghost st0 = self.static_vars@.to_set();
        let mut top_insns: Vec<Insn> = Vec::new();
        match stmt {
            HirStmt::For { initializer, controller, post, body, loop_label, .. } => {
                proof {
                    lemma_opt_bounds(opt_init_expr(initializer));
                    lemma_opt_bounds(unbox(controller));
                    lemma_opt_bounds(unbox(post));
                    lemma_stmt_bounds(*body);
                    lemma_fresh_split(table0, opt_init_decls(initializer), stmt_decls(*body));
                    lemma_table_concat(table0, opt_init_decls(initializer), stmt_decls(*body));
                }
                let con_label = LabelOperand::AutoGen(AutoGenLabel::Continue(loop_label));
                let brk_label = LabelOperand::AutoGen(AutoGenLabel::Break(loop_label));
                let start_label = LabelOperand::AutoGen(AutoGenLabel::Branch(*next_branch_label));
                *next_branch_label = *next_branch_label + 1;
                match initializer {
                    Some(init) => match *init {
                        HirForInit::Declaration(decl) => {
                            let insns = self.parse_decl(decl, next_temp_id, next_branch_label);
                            top_insns = insns;
                        },
                        HirForInit::Expression(expr) => {
                            let (_, insns) = self.parse_expr(*expr, next_temp_id, next_branch_label);
                            top_insns = insns;
                            proof { assert(table0 + Seq::<LocalVar>::empty().map_values(|v: LocalVar| entry_of(v)) =~= table0); }
                        },
                    },
                    None => {
                        proof {
                            assert(table0 + Seq::<LocalVar>::empty().map_values(|v: LocalVar| entry_of(v)) =~= table0);
                            assert(st0 + Set::empty() =~= st0);
                        }
                    },
                }
                let init_insns = top_insns;
                let ghost s_init = init_insns@;
                let mut ctrl_part: Vec<Insn> = Vec::new();
                match controller {
                    Some(ctrl) => {
                        let (ctrl_operand, ctrl_insns) = self.parse_expr(*ctrl, next_temp_id, next_branch_label);
                        let ghost s_ctrl = ctrl_insns@;
                        ctrl_part = ctrl_insns;
                        ctrl_part.push(Insn::BranchIfZero { src: ctrl_operand, label: brk_label });
                        proof { assert(ctrl_part@.subrange(0, s_ctrl.len() as int) =~= s_ctrl); }
                    },
                    None => {},
                }
                let body_insns = self.parse_stmt(*body, next_temp_id, next_branch_label);
                let mut post_insns: Vec<Insn> = Vec::new();
                match post {
                    Some(post) => {
                        let (_, insns) = self.parse_expr(*post, next_temp_id, next_branch_label);
                        post_insns = insns;
                    },
                    None => {},
                }
                let ghost s_ctrl_part = ctrl_part@;
                let ghost s_body = body_insns@;
                let ghost s_post = post_insns@;
                let mut out = init_insns;
                out.push(Insn::Label(start_label));
                append_insns(&mut out, ctrl_part);
                append_insns(&mut out, body_insns);
                out.push(Insn::Label(con_label));
                append_insns(&mut out, post_insns);
                out.push(Insn::Jump(start_label));
                out.push(Insn::Label(brk_label));
                proof {
                    assert(out@ =~= s_init + seq![Insn::Label(start_label)] + s_ctrl_part + s_body
                        + seq![Insn::Label(con_label)] + s_post + seq![Insn::Jump(start_label), Insn::Label(brk_label)]);
                    lemma_for_code(s0, t0, l0, s_init, s_ctrl_part, s_body, s_post, out@);
                    assert(self.static_vars@.to_set() =~= st0 + stmt_statics(s0));
                }
                top_insns = out;
            },
            _ => {},
        }
        top_insns
    }


    /// Generates code for block items one after the other.
    fn parse_items(&mut self, items: Vec<HirBlockItem>, next_temp_id: &mut usize, next_branch_label: &mut usize)
        -> (r: Vec<Insn>)
        requires
            items_casts_ok(items@),
            *old(next_temp_id) + items_size(items@) <= usize::MAX,
            *old(next_branch_label) + 2 * items_size(items@) <= usize::MAX,
            old(self).cur_cx is Some,
            fresh_decls(cx_table(old(self).cur_cx), items_decls(items@)),
        ensures
            items_code(items@, *old(next_temp_id) as int, *old(next_branch_label) as int, r@),
            *final(next_temp_id) == *old(next_temp_id) + items_temps(items@),
            *final(next_branch_label) == *old(next_branch_label) + items_labels(items@),
            final(self).static_vars@.to_set() == old(self).static_vars@.to_set() + items_statics(items@),
            final(self).cur_cx is Some,
            cx_table(final(self).cur_cx) == cx_table(old(self).cur_cx) + items_decls(items@).map_values(|v: LocalVar| entry_of(v)),
        decreases items, 1nat,
    {
        let ghost orig = items@;
        let ghost i0 = items;
        let ghost t0 = *next_temp_id as int;
        let ghost l0 = *next_branch_label as int;
        let ghost table0 = cx_table(self.cur_cx);
        let n = items.len();
        let mut rest = items;
        let mut out: Vec<Insn> = Vec::new();
        let mut j: usize = 0;
        proof {
            assert(orig.subrange(0, 0) =~= Seq::<HirBlockItem>::empty());
            assert(table0 + Seq::<LocalVar>::empty().map_values(|v: LocalVar| entry_of(v)) =~= table0);
            assert(old(self).static_vars@.to_set() + Set::empty() =~= old(self).static_vars@.to_set());
        }
        while j < n
            invariant
                j <= n, n == orig.len(),
                i0 == items, i0@ == orig,
                rest@ == orig.subrange(j as int, n as int),
                items_casts_ok(orig),
                t0 + items_size(orig) <= usize::MAX,
                l0 + 2 * items_size(orig) <= usize::MAX,
                fresh_decls(table0, items_decls(orig)),
                table0 == cx_table(old(self).cur_cx),
                t0 == *old(next_temp_id), l0 == *old(next_branch_label),
                *next_temp_id == t0 + items_temps(orig.subrange(0, j as int)),
                *next_branch_label == l0 + items_labels(orig.subrange(0, j as int)),
                items_code(orig.subrange(0, j as int), t0, l0, out@),
                self.static_vars@.to_set() == old(self).static_vars@.to_set() + items_statics(orig.subrange(0, j as int)),
                self.cur_cx is Some,
                cx_table(self.cur_cx) == table0 + items_decls(orig.subrange(0, j as int)).map_values(|v: LocalVar| entry_of(v)),
            decreases n - j,
        {
            let item = rest.remove(0);
            proof {
                assert(item == orig[j as int]);
                assert(decreases_to!(i0 => i0@));
                assert(decreases_to!(i0@ => i0@[j as int]));
                assert(rest@ =~= orig.subrange(j as int + 1, n as int));
                lemma_items_prefix(orig, j as int);
                lemma_items_mono(orig, j as int + 1, table0);
                lemma_items_bounds(orig.subrange(0, j as int));
                let d1 = items_decls(orig.subrange(0, j as int + 1));
                let whole = items_decls(orig);
                lemma_fresh_split(table0, d1, whole.subrange(d1.len() as int, whole.len() as int));
                lemma_fresh_split(table0, items_decls(orig.subrange(0, j as int)), item_decls(orig[j as int]));
                lemma_table_concat(table0, items_decls(orig.subrange(0, j as int)), item_decls(orig[j as int]));
            }
            let ghost before = out@;
            let insns = self.parse_block_item(item, next_temp_id, next_branch_label);
            let ghost s_item = insns@;
            append_insns(&mut out, insns);
            proof {
                assert(out@.subrange(0, before.len() as int) =~= before);
                assert(out@.subrange(before.len() as int, out@.len() as int) =~= s_item);
                let p = orig.subrange(0, j as int + 1);
                assert(p.subrange(0, p.len() - 1) == orig.subrange(0, j as int));
                assert(items_code(p, t0, l0, out@));
            }
            j = j + 1;
        }
        proof { assert(orig.subrange(0, j as int) =~= orig); }
        out
    }
}



/// A function body code generation accepts: its casts are supported, its
/// size leaves room for the counters, and its local variable ids differ.
pub open spec fn body_ready(items: Seq<HirBlockItem>) -> bool {
    &&& items_casts_ok(items)
    &&& 2 * items_size(items) <= usize::MAX
    &&& fresh_decls(Seq::empty(), items_decls(items))
}

/// `f` is the code generated for the HIR function `h`.
pub open spec fn function_generated(h: HirFunction, f: Function) -> bool {
    match h.body {
        None => f matches Function::Declared { linkage, name, type_ }
            && linkage == h.linkage && name == h.name
            && type_.return_type == h.type_.return_type && type_.param_types@ == h.type_.param_types@,
        Some(items) => f matches Function::Defined { return_type, linkage, name, params, local_vars, body }
            && return_type == h.type_.return_type && linkage == h.linkage && name == h.name
            && params@ == h.params@.map_values(|p: crate::sem::HirParam| Param { name: p.name, data_type: p.data_type, local_id: p.local_id })
            && local_vars@ == items_decls(items@).map_values(|v: LocalVar| entry_of(v))
            && body@.len() >= 1
            && items_code(items@, 0, 0, body@.drop_last())
            && body@.last() == Insn::Return(Operand::Imm(Constant::Int(0))),
    }
}

/// The code generated for a file-scope variable.
pub open spec fn static_generated(h: HirStaticVar, v: StaticVar) -> bool {
    v.name == h.name && v.data_type == h.data_type && v.initializer == h.initializer && v.linkage == h.linkage
}

impl CodeGen<Parse> {
    pub fn new() -> (r: Self)
        ensures r.cur_cx is None, r.static_vars@.len() == 0,
    {
        CodeGen { cur_cx: None, static_vars: Vec::new(), _stage: core::marker::PhantomData }
    }

    /// Generates code for one function.
    fn parse_function(&mut self, function: HirFunction) -> (r: Function)
        requires
            old(self).cur_cx is None,
            function.body matches Some(items) ==> body_ready(items@),
        ensures
            function_generated(function, r),
            final(self).cur_cx is None,
            final(self).static_vars@.to_set() == old(self).static_vars@.to_set() + match function.body {
                Some(items) => items_statics(items@),
                None => Set::empty(),
            },
    {
        let HirFunction { name, params, type_, linkage, body } = function;
        match body {
            None => {
                proof { assert(old(self).static_vars@.to_set() + Set::empty() =~= old(self).static_vars@.to_set()); }
                Function::Declared { linkage, name, type_ }
            },
            Some(items) => {
                let mut tac_params: Vec<Param> = Vec::new();
                let mut i: usize = 0;
                while i < params.len()
                    invariant
                        i <= params@.len(),
                        tac_params@ == params@.subrange(0, i as int).map_values(|p: crate::sem::HirParam| Param { name: p.name, data_type: p.data_type, local_id: p.local_id }),
                    decreases params@.len() - i,
                {
                    tac_params.push(Param::from_hir(params[i]));
                    proof {
                        assert(params@.subrange(0, i as int + 1).map_values(|p: crate::sem::HirParam| Param { name: p.name, data_type: p.data_type, local_id: p.local_id })
                            =~= params@.subrange(0, i as int).map_values(|p: crate::sem::HirParam| Param { name: p.name, data_type: p.data_type, local_id: p.local_id })
                                .push(Param { name: params@[i as int].name, data_type: params@[i as int].data_type, local_id: params@[i as int].local_id }));
                    }
                    i = i + 1;
                }
                proof { assert(params@.subrange(0, i as int) =~= params@); }
                self.cur_cx = Some(FuncContext { local_vars: Vec::new() });
                let mut next_temp_id: usize = 0;
                let mut next_branch_label: usize = 0;
                proof { assert(Seq::<(usize, LocalVar)>::empty() + Seq::<(usize, LocalVar)>::empty() =~= Seq::<(usize, LocalVar)>::empty()); }
                let mut insns = self.parse_items(items, &mut next_temp_id, &mut next_branch_label);
                let ghost before = insns@;
                // a function without a return statement returns 0.
                insns.push(Insn::Return(Operand::Imm(Constant::Int(0))));
                proof {
                    assert(insns@.drop_last() =~= before);
                    assert(Seq::<(usize, LocalVar)>::empty() + items_decls(items@).map_values(|v: LocalVar| entry_of(v))
                        =~= items_decls(items@).map_values(|v: LocalVar| entry_of(v)));
                }
                let cx = self.cur_cx.take();
                let local_vars = match cx {
                    Some(cx) => cx.local_vars,
                    None => Vec::new(),
                };
                Function::Defined {
                    return_type: type_.return_type,
                    linkage,
                    name,
                    params: tac_params,
                    local_vars,
                    body: insns,
                }
            },
        }
    }

    /// Generates code for a program; the code generator of the next stage carries the
    /// static variables that the code refers to.
    pub fn parse(self, hir: HirTopLevel) -> (r: (TopLevel, CodeGen<Opt>))
        requires
            self.cur_cx is None,
            forall|i: int| 0 <= i < hir.funcs@.len() ==> ((#[trigger] hir.funcs@[i]).body matches Some(items) ==> body_ready(items@)),
        ensures
            r.0.strtb == hir.strtb,
            r.0.functions@.len() == hir.funcs@.len(),
            forall|i: int| 0 <= i < hir.funcs@.len() ==> function_generated(#[trigger] hir.funcs@[i], r.0.functions@[i]),
            r.0.static_vars@.len() == hir.static_vars@.len(),
            forall|i: int| 0 <= i < hir.static_vars@.len() ==> static_generated(#[trigger] hir.static_vars@[i], r.0.static_vars@[i]),
            r.1.cur_cx is None,
            self.static_vars@.to_set().subset_of(r.1.static_vars@.to_set()),
    {
        let mut this = self;
        let HirTopLevel { strtb, funcs, static_vars: hir_statics } = hir;

        let mut static_vars: Vec<StaticVar> = Vec::new();
        let mut i: usize = 0;
        while i < hir_statics.len()
            invariant
                i <= hir_statics@.len(),
                static_vars@.len() == i,
                forall|k: int| 0 <= k < i ==> static_generated(hir_statics@[k], #[trigger] static_vars@[k]),
            decreases hir_statics@.len() - i,
        {
            let var = hir_statics[i];
            static_vars.push(StaticVar {
                name: var.name,
                data_type: var.data_type,
                initializer: var.initializer,
                linkage: var.linkage,
            });
            i = i + 1;
        }

        let ghost orig = funcs@;
        let n = funcs.len();
        let mut rest = funcs;
        let mut functions: Vec<Function> = Vec::new();
        let mut j: usize = 0;
        while j < n
            invariant
                j <= n, n == orig.len(),
                rest@ == orig.subrange(j as int, n as int),
                forall|k: int| 0 <= k < orig.len() ==> ((#[trigger] orig[k]).body matches Some(items) ==> body_ready(items@)),
                functions@.len() == j,
                forall|k: int| 0 <= k < j ==> function_generated(orig[k], #[trigger] functions@[k]),
                this.cur_cx is None,
                self.static_vars@.to_set().subset_of(this.static_vars@.to_set()),
            decreases n - j,
        {
            let function = rest.remove(0);
            proof {
                assert(function == orig[j as int]);
                assert(rest@ =~= orig.subrange(j as int + 1, n as int));
            }
            let f = this.parse_function(function);
            functions.push(f);
            j = j + 1;
        }

        (TopLevel { functions, static_vars, strtb },
         CodeGen { cur_cx: None, static_vars: this.static_vars, _stage: core::marker::PhantomData })
    }
}

/// The pieces of the code for a `for` statement, put together.
#[verifier::rlimit(100)]
#[verifier::spinoff_prover]
proof fn lemma_for_code(st: HirStmt, t: int, l: int, s_init: Seq<Insn>, s_ctrl: Seq<Insn>, s_body: Seq<Insn>,
    s_post: Seq<Insn>, fin: Seq<Insn>)
    requires
        st matches HirStmt::For { initializer, controller, post, body, loop_label, .. } && {
            let ie = opt_init_expr(initializer);
            let ce = unbox(controller);
            let pe = unbox(post);
            let ct = t + opt_temps(ie);
            let cl = l + 1 + opt_labels(ie);
            let bt = ct + opt_temps(ce);
            let bl = cl + opt_labels(ce);
            &&& match initializer {
                Some(init) => init_code(*init, t, l + 1, s_init),
                None => s_init.len() == 0,
            }
            &&& match ce {
                Some(e) => s_ctrl.len() == code_len(e) + 1
                    && expr_code(e, ct, cl, s_ctrl.subrange(0, code_len(e) as int))
                    && s_ctrl[code_len(e) as int] == Insn::BranchIfZero { src: expr_operand(e, ct), label: break_label(loop_label) },
                None => s_ctrl.len() == 0,
            }
            &&& stmt_code(*body, bt, bl, s_body)
            &&& opt_code(pe, bt + stmt_temps(*body), bl + stmt_labels(*body), s_post)
            &&& fin == s_init + seq![Insn::Label(branch(l))] + s_ctrl + s_body
                + seq![Insn::Label(continue_label(loop_label))] + s_post
                + seq![Insn::Jump(branch(l)), Insn::Label(break_label(loop_label))]
        },
    ensures stmt_code(st, t, l, fin),
{
    match st {
        HirStmt::For { initializer, controller, post, body, loop_label, .. } => {
            let i = s_init.len() as int;
            let c = s_ctrl.len() as int;
            let b = s_body.len() as int;
            let p = s_post.len() as int;
            match initializer {
                Some(init) => {
                    match *init {
                        HirForInit::Declaration(d) => {},
                        HirForInit::Expression(e) => {},
                    }
                    assert(i == init_code_len(*init));
                },
                None => {},
            }
            assert(fin.subrange(0, i) =~= s_init);
            assert(fin.subrange(i + 1 + c, i + 1 + c + b) =~= s_body);
            assert(fin.subrange(i + 2 + c + b, i + 2 + c + b + p) =~= s_post);
            match unbox(controller) {
                Some(e) => {
                    assert(fin.subrange(i + 1, i + c) =~= s_ctrl.subrange(0, code_len(e) as int));
                },
                None => {},
            }
            match unbox(post) {
                Some(e) => {},
                None => {},
            }
        },
        _ => {},
    }
}

proof fn lemma_args_casts_all(a: Seq<HirTypedExpr>, j: int)
    requires 0 <= j < a.len(), args_casts_ok(a),
    ensures casts_ok(a[j]), args_casts_ok(a.subrange(0, j)),
    decreases a.len() - j,
{
    if j + 1 < a.len() {
        lemma_args_casts_all(a, j + 1);
        lemma_args_prefix(a, j + 1);
        assert(a.subrange(0, j + 1)[j] == a[j]);
        lemma_args_prefix(a, j);
    } else {
        assert(a.subrange(0, a.len() - 1) =~= a.subrange(0, j));
    }
}

proof fn lemma_args_size_mono(a: Seq<HirTypedExpr>, j: int)
    requires 0 <= j <= a.len(),
    ensures args_size(a.subrange(0, j)) <= args_size(a),
    decreases a.len() - j,
{
    if j < a.len() {
        lemma_args_size_mono(a, j + 1);
        lemma_args_prefix(a, j);
    } else {
        lemma_args_whole(a);
    }
}

} // verus!
