//! What code generation from the HIR to three-address code produces: for an
//! expression, the operand that holds its value, the instructions that compute
//! it, and how many temporaries and labels it takes.

use vstd::prelude::*;
use crate::common::{Constant, DataType, StrDescriptor};
use crate::sem::{HirTypedExpr, HirExpr, HirVariable, HirBinaryOp, HirStmt, HirBlockItem, HirForInit, HirLocalVarDecl};
use super::tac::{Operand, Insn, UnaryOp, BinaryOp, LabelOperand, AutoGenLabel, LocalVar};

verus! {

/// The number of nodes of an expression.
pub open spec fn expr_size(e: HirTypedExpr) -> nat
    decreases e,
{
    1 + match e.untyped {
        HirExpr::Cast { expr, .. } => expr_size(*expr),
        HirExpr::Group(inner) => expr_size(*inner),
        HirExpr::Unary(_, inner) => expr_size(*inner),
        HirExpr::Binary { left, right, .. } => expr_size(*left) + expr_size(*right),
        HirExpr::Assignment { left, right, .. } => expr_size(*left) + expr_size(*right),
        HirExpr::Ternary { condition, then_expr, else_expr, .. } =>
            expr_size(*condition) + expr_size(*then_expr) + expr_size(*else_expr),
        HirExpr::FuncCall { args, .. } => args_size(args@),
        _ => 0,
    }
}

pub open spec fn args_size(a: Seq<HirTypedExpr>) -> nat
    decreases a,
{
    if a.len() == 0 { 0 } else { args_size(a.subrange(0, a.len() - 1)) + expr_size(a[a.len() - 1]) }
}

/// Whether an operator of the HIR short-circuits.
pub open spec fn is_logical(op: HirBinaryOp) -> bool {
    op is And || op is Or
}

/// The type of the operand that holds the value of an expression.
pub open spec fn operand_type(e: HirTypedExpr) -> DataType
    decreases e,
{
    match e.untyped {
        HirExpr::IntegerLiteral(c) => c.spec_data_type(),
        HirExpr::Var(v) => v.spec_data_type(),
        HirExpr::Cast { target, expr, .. } => if operand_type(*expr) == target { target } else { e.type_ },
        HirExpr::Group(inner) => operand_type(*inner),
        HirExpr::Assignment { left, .. } => operand_type(*left),
        _ => e.type_,
    }
}

/// Every cast converts between `int` and `long`, or changes nothing, and no
/// assignment has an operator of its own.
pub open spec fn casts_ok(e: HirTypedExpr) -> bool
    decreases e,
{
    match e.untyped {
        HirExpr::Cast { target, expr, .. } => {
            &&& operand_type(*expr) == target
                || (operand_type(*expr) is Int && target is Long)
                || (operand_type(*expr) is Long && target is Int)
            &&& (operand_type(*expr) != target ==> e.type_ == target)
            &&& casts_ok(*expr)
        },
        HirExpr::Group(inner) => casts_ok(*inner),
        HirExpr::Unary(_, inner) => casts_ok(*inner),
        HirExpr::Binary { op: (op, _), left, right } => op != HirBinaryOp::Assign && casts_ok(*left) && casts_ok(*right),
        HirExpr::Assignment { left, right, .. } => casts_ok(*left) && casts_ok(*right),
        HirExpr::Ternary { condition, then_expr, else_expr, .. } =>
            casts_ok(*condition) && casts_ok(*then_expr) && casts_ok(*else_expr),
        HirExpr::FuncCall { args, .. } => args_casts_ok(args@),
        _ => true,
    }
}

pub open spec fn args_casts_ok(a: Seq<HirTypedExpr>) -> bool
    decreases a,
{
    a.len() > 0 ==> args_casts_ok(a.subrange(0, a.len() - 1)) && casts_ok(a[a.len() - 1])
}

/// How many temporary ids the code for an expression uses up.
pub open spec fn expr_temps(e: HirTypedExpr) -> nat
    decreases e,
{
    match e.untyped {
        HirExpr::Cast { target, expr, .. } => if operand_type(*expr) == target { expr_temps(*expr) } else { 1 + expr_temps(*expr) },
        HirExpr::IntegerLiteral(_) => 1,
        HirExpr::Var(_) => 0,
        HirExpr::Group(inner) => 1 + expr_temps(*inner),
        HirExpr::Unary(_, inner) => 1 + expr_temps(*inner),
        HirExpr::Binary { left, right, .. } => 1 + expr_temps(*left) + expr_temps(*right),
        HirExpr::Assignment { left, right, .. } => expr_temps(*left) + expr_temps(*right),
        HirExpr::Ternary { condition, then_expr, else_expr, .. } =>
            1 + expr_temps(*condition) + expr_temps(*then_expr) + expr_temps(*else_expr),
        HirExpr::FuncCall { args, .. } => 1 + args_temps(args@),
    }
}

pub open spec fn args_temps(a: Seq<HirTypedExpr>) -> nat
    decreases a,
{
    if a.len() == 0 { 0 } else { args_temps(a.subrange(0, a.len() - 1)) + expr_temps(a[a.len() - 1]) }
}

/// How many branch labels the code for an expression uses up.
pub open spec fn expr_labels(e: HirTypedExpr) -> nat
    decreases e,
{
    match e.untyped {
        HirExpr::Cast { expr, .. } => expr_labels(*expr),
        HirExpr::Group(inner) => expr_labels(*inner),
        HirExpr::Unary(_, inner) => expr_labels(*inner),
        HirExpr::Binary { op: (op, _), left, right } =>
            (if is_logical(op) { 2nat } else { 0nat }) + expr_labels(*left) + expr_labels(*right),
        HirExpr::Assignment { left, right, .. } => expr_labels(*left) + expr_labels(*right),
        HirExpr::Ternary { condition, then_expr, else_expr, .. } =>
            2 + expr_labels(*condition) + expr_labels(*then_expr) + expr_labels(*else_expr),
        HirExpr::FuncCall { args, .. } => args_labels(args@),
        _ => 0,
    }
}

pub open spec fn args_labels(a: Seq<HirTypedExpr>) -> nat
    decreases a,
{
    if a.len() == 0 { 0 } else { args_labels(a.subrange(0, a.len() - 1)) + expr_labels(a[a.len() - 1]) }
}

/// The number of instructions of the code for an expression.
pub open spec fn code_len(e: HirTypedExpr) -> nat
    decreases e,
{
    match e.untyped {
        HirExpr::Cast { target, expr, .. } => if operand_type(*expr) == target { code_len(*expr) } else { code_len(*expr) + 1 },
        HirExpr::Group(inner) => code_len(*inner),
        HirExpr::Unary(_, inner) => code_len(*inner) + 1,
        HirExpr::Binary { op: (op, _), left, right } =>
            code_len(*left) + code_len(*right) + if is_logical(op) { 7nat } else { 1nat },
        HirExpr::Assignment { left, right, .. } => code_len(*left) + code_len(*right) + 1,
        HirExpr::Ternary { condition, then_expr, else_expr, .. } =>
            code_len(*condition) + code_len(*then_expr) + code_len(*else_expr) + 6,
        HirExpr::FuncCall { args, .. } => args_code_len(args@) + 1,
        _ => 0,
    }
}

pub open spec fn args_code_len(a: Seq<HirTypedExpr>) -> nat
    decreases a,
{
    if a.len() == 0 { 0 } else { args_code_len(a.subrange(0, a.len() - 1)) + code_len(a[a.len() - 1]) }
}

/// The operand of a variable.
pub open spec fn var_operand(v: HirVariable) -> Operand {
    match v {
        HirVariable::Local { name, local_id, data_type } => Operand::Var { name, local_id: Some(local_id), data_type },
        HirVariable::Static { name, data_type } => Operand::Var { name, local_id: None, data_type },
    }
}

/// The operand that holds the value of an expression compiled with the
/// temporaries counted from `t`.
pub open spec fn expr_operand(e: HirTypedExpr, t: int) -> Operand
    decreases e,
{
    match e.untyped {
        HirExpr::IntegerLiteral(c) => Operand::Imm(c),
        HirExpr::Var(v) => var_operand(v),
        HirExpr::Cast { target, expr, .. } =>
            if operand_type(*expr) == target { expr_operand(*expr, t + 1) } else { Operand::Temp(t as usize, e.type_) },
        HirExpr::Group(inner) => expr_operand(*inner, t + 1),
        HirExpr::Assignment { left, .. } => expr_operand(*left, t),
        _ => Operand::Temp(t as usize, e.type_),
    }
}

/// The operands of the arguments of a call.
pub open spec fn args_operands(a: Seq<HirTypedExpr>, t: int) -> Seq<Operand>
    decreases a,
{
    if a.len() == 0 {
        Seq::empty()
    } else {
        let p = a.subrange(0, a.len() - 1);
        args_operands(p, t).push(expr_operand(a[a.len() - 1], t + args_temps(p)))
    }
}

/// The static variables an expression refers to.
pub open spec fn expr_statics(e: HirTypedExpr) -> Set<(StrDescriptor, DataType)>
    decreases e,
{
    match e.untyped {
        HirExpr::Var(HirVariable::Static { name, data_type }) => set![(name, data_type)],
        HirExpr::Cast { expr, .. } => expr_statics(*expr),
        HirExpr::Group(inner) => expr_statics(*inner),
        HirExpr::Unary(_, inner) => expr_statics(*inner),
        HirExpr::Binary { left, right, .. } => expr_statics(*left) + expr_statics(*right),
        HirExpr::Assignment { left, right, .. } => expr_statics(*left) + expr_statics(*right),
        HirExpr::Ternary { condition, then_expr, else_expr, .. } =>
            expr_statics(*condition) + expr_statics(*then_expr) + expr_statics(*else_expr),
        HirExpr::FuncCall { args, .. } => args_statics(args@),
        _ => Set::empty(),
    }
}

pub open spec fn args_statics(a: Seq<HirTypedExpr>) -> Set<(StrDescriptor, DataType)>
    decreases a,
{
    if a.len() == 0 { Set::empty() } else { args_statics(a.subrange(0, a.len() - 1)) + expr_statics(a[a.len() - 1]) }
}

/// The branch label with the given number.
pub open spec fn branch(l: int) -> LabelOperand {
    LabelOperand::AutoGen(AutoGenLabel::Branch(l as usize))
}

/// `s` is the code generated for expression `e` with temporaries counted from
/// `t` and branch labels from `l`.
pub open spec fn expr_code(e: HirTypedExpr, t: int, l: int, s: Seq<Insn>) -> bool
    decreases e,
{
    &&& s.len() == code_len(e)
    &&& match e.untyped {
        HirExpr::Cast { target, expr, .. } => if operand_type(*expr) == target {
            expr_code(*expr, t + 1, l, s)
        } else {
            let k = code_len(*expr) as int;
            &&& expr_code(*expr, t + 1, l, s.subrange(0, k))
            &&& if target is Long {
                s[k] == Insn::SignExt { src: expr_operand(*expr, t + 1), dst: Operand::Temp(t as usize, e.type_) }
            } else {
                s[k] == Insn::Truncate { src: expr_operand(*expr, t + 1), dst: Operand::Temp(t as usize, e.type_) }
            }
        },
        HirExpr::Group(inner) => expr_code(*inner, t + 1, l, s),
        HirExpr::Unary((op, _), inner) => {
            let k = code_len(*inner) as int;
            &&& expr_code(*inner, t + 1, l, s.subrange(0, k))
            &&& s[k] == Insn::Unary { op: UnaryOp::spec_from_hir(op), src: expr_operand(*inner, t + 1), dst: Operand::Temp(t as usize, e.type_) }
        },
        HirExpr::Binary { op: (op, _), left, right } => {
            let a = code_len(*left) as int;
            let b = a + code_len(*right);
            let lt = t + 1 + expr_temps(*left);
            let lo = expr_operand(*left, t + 1);
            let ro = expr_operand(*right, lt);
            let dst = Operand::Temp(t as usize, e.type_);
            if is_logical(op) {
                let short = branch(l);
                let end = branch(l + 1);
                let and = op is And;
                &&& expr_code(*left, t + 1, l + 2, s.subrange(0, a))
                &&& s[a] == (if and { Insn::BranchIfZero { src: lo, label: short } } else { Insn::BranchNotZero { src: lo, label: short } })
                &&& expr_code(*right, lt, l + 2 + expr_labels(*left), s.subrange(a + 1, b + 1))
                &&& s[b + 1] == (if and { Insn::BranchIfZero { src: ro, label: short } } else { Insn::BranchNotZero { src: ro, label: short } })
                &&& s[b + 2] == Insn::Move { src: Operand::Imm(Constant::Int(if and { 1 } else { 0 })), dst }
                &&& s[b + 3] == Insn::Jump(end)
                &&& s[b + 4] == Insn::Label(short)
                &&& s[b + 5] == Insn::Move { src: Operand::Imm(Constant::Int(if and { 0 } else { 1 })), dst }
                &&& s[b + 6] == Insn::Label(end)
            } else {
                &&& expr_code(*left, t + 1, l, s.subrange(0, a))
                &&& expr_code(*right, lt, l + expr_labels(*left), s.subrange(a, b))
                &&& s[b] == Insn::Binary { op: BinaryOp::spec_from_hir(op), left: lo, right: ro, dst }
            }
        },
        HirExpr::Assignment { left, right, .. } => {
            let r = code_len(*right) as int;
            let b = r + code_len(*left);
            &&& expr_code(*right, t + expr_temps(*left), l + expr_labels(*left), s.subrange(0, r))
            &&& expr_code(*left, t, l, s.subrange(r, b))
            &&& s[b] == Insn::Move { src: expr_operand(*right, t + expr_temps(*left)), dst: expr_operand(*left, t) }
        },
        HirExpr::Ternary { condition, then_expr, else_expr, .. } => {
            let c = code_len(*condition) as int;
            let th = c + 1 + code_len(*then_expr);
            let el = th + 3 + code_len(*else_expr);
            let t1 = t + 1 + expr_temps(*condition);
            let t2 = t1 + expr_temps(*then_expr);
            let l1 = l + expr_labels(*condition);
            let dst = Operand::Temp(t as usize, e.type_);
            &&& expr_code(*condition, t + 1, l, s.subrange(0, c))
            &&& s[c] == Insn::BranchIfZero { src: expr_operand(*condition, t + 1), label: branch(l1) }
            &&& expr_code(*then_expr, t1, l1 + 2, s.subrange(c + 1, th))
            &&& s[th] == Insn::Move { src: expr_operand(*then_expr, t1), dst }
            &&& s[th + 1] == Insn::Jump(branch(l1 + 1))
            &&& s[th + 2] == Insn::Label(branch(l1))
            &&& expr_code(*else_expr, t2, l1 + 2 + expr_labels(*then_expr), s.subrange(th + 3, el))
            &&& s[el] == Insn::Move { src: expr_operand(*else_expr, t2), dst }
            &&& s[el + 1] == Insn::Label(branch(l1 + 1))
        },
        HirExpr::FuncCall { name, args, .. } => {
            let k = args_code_len(args@) as int;
            &&& args_code(args@, t + 1, l, s.subrange(0, k))
            &&& s[k] matches Insn::FuncCall { target, args: ops, dst }
            &&& target == name && ops@ == args_operands(args@, t + 1) && dst == Operand::Temp(t as usize, e.type_)
        },
        _ => true,
    }
}

/// `s` is the code generated for the arguments, one after the other.
pub open spec fn args_code(a: Seq<HirTypedExpr>, t: int, l: int, s: Seq<Insn>) -> bool
    decreases a,
{
    &&& s.len() == args_code_len(a)
    &&& a.len() > 0 ==> {
        let p = a.subrange(0, a.len() - 1);
        let k = args_code_len(p) as int;
        &&& args_code(p, t, l, s.subrange(0, k))
        &&& expr_code(a[a.len() - 1], t + args_temps(p), l + args_labels(p), s.subrange(k, s.len() as int))
    }
}

} // verus!

verus! {

/// The operand of a local variable.
pub open spec fn local_operand(d: HirLocalVarDecl) -> Operand {
    Operand::Var { name: d.name, local_id: Some(d.local_id), data_type: d.data_type }
}

/// The local variable a declaration introduces.
pub open spec fn decl_var(d: HirLocalVarDecl) -> LocalVar {
    LocalVar { name: d.name, local_id: d.local_id, data_type: d.data_type }
}

pub open spec fn opt_size(e: Option<HirTypedExpr>) -> nat {
    match e { Some(e) => expr_size(e), None => 0 }
}

pub open spec fn opt_temps(e: Option<HirTypedExpr>) -> nat {
    match e { Some(e) => expr_temps(e), None => 0 }
}

pub open spec fn opt_labels(e: Option<HirTypedExpr>) -> nat {
    match e { Some(e) => expr_labels(e), None => 0 }
}

pub open spec fn opt_statics(e: Option<HirTypedExpr>) -> Set<(StrDescriptor, DataType)> {
    match e { Some(e) => expr_statics(e), None => Set::empty() }
}

pub open spec fn opt_casts_ok(e: Option<HirTypedExpr>) -> bool {
    match e { Some(e) => casts_ok(e), None => true }
}

/// The number of instructions of a declaration: the initial value's code and a move.
pub open spec fn decl_code_len(d: HirLocalVarDecl) -> nat {
    match d.initializer { Some(e) => code_len(e) + 1, None => 0 }
}

pub open spec fn decl_code(d: HirLocalVarDecl, t: int, l: int, s: Seq<Insn>) -> bool {
    &&& s.len() == decl_code_len(d)
    &&& match d.initializer {
        Some(e) => {
            let k = code_len(e) as int;
            &&& expr_code(e, t, l, s.subrange(0, k))
            &&& s[k] == Insn::Move { src: expr_operand(e, t), dst: local_operand(d) }
        },
        None => true,
    }
}

/// The expression of a `for` initializer, or of a declaration's initial value.
pub open spec fn init_expr(i: HirForInit) -> Option<HirTypedExpr> {
    match i {
        HirForInit::Declaration(d) => d.initializer,
        HirForInit::Expression(e) => Some(*e),
    }
}

pub open spec fn init_code_len(i: HirForInit) -> nat {
    match i {
        HirForInit::Declaration(d) => decl_code_len(d),
        HirForInit::Expression(e) => code_len(*e),
    }
}

pub open spec fn init_code(i: HirForInit, t: int, l: int, s: Seq<Insn>) -> bool {
    match i {
        HirForInit::Declaration(d) => decl_code(d, t, l, s),
        HirForInit::Expression(e) => expr_code(*e, t, l, s),
    }
}

pub open spec fn init_decls(i: HirForInit) -> Seq<LocalVar> {
    match i {
        HirForInit::Declaration(d) => seq![decl_var(d)],
        HirForInit::Expression(_) => Seq::empty(),
    }
}

pub open spec fn opt_init_expr(i: Option<Box<HirForInit>>) -> Option<HirTypedExpr> {
    match i { Some(i) => init_expr(*i), None => None }
}

pub open spec fn unbox(e: Option<Box<HirTypedExpr>>) -> Option<HirTypedExpr> {
    match e { Some(e) => Some(*e), None => None }
}

/// The number of nodes of a statement and its expressions.
pub open spec fn stmt_size(s: HirStmt) -> nat
    decreases s,
{
    1 + match s {
        HirStmt::Return { expr, .. } => expr_size(*expr),
        HirStmt::Expr(e) => expr_size(*e),
        HirStmt::If { condition, then_branch, else_branch } => expr_size(*condition) + stmt_size(*then_branch)
            + match else_branch { Some(e) => stmt_size(*e), None => 0 },
        HirStmt::Compound(items) => items_size(items@),
        HirStmt::While { controller, body, .. } => expr_size(*controller) + stmt_size(*body),
        HirStmt::DoWhile { controller, body, .. } => expr_size(*controller) + stmt_size(*body),
        HirStmt::For { initializer, controller, post, body, .. } =>
            opt_size(opt_init_expr(initializer)) + opt_size(unbox(controller)) + opt_size(unbox(post)) + stmt_size(*body),
        _ => 0,
    }
}

pub open spec fn item_size(i: HirBlockItem) -> nat
    decreases i,
{
    match i {
        HirBlockItem::Declaration(d) => 1 + opt_size(d.initializer),
        HirBlockItem::Statement(s) => stmt_size(s),
    }
}

pub open spec fn items_size(items: Seq<HirBlockItem>) -> nat
    decreases items,
{
    if items.len() == 0 { 0 } else { items_size(items.subrange(0, items.len() - 1)) + item_size(items[items.len() - 1]) }
}

/// Every expression of a statement satisfies `casts_ok`.
pub open spec fn stmt_casts_ok(s: HirStmt) -> bool
    decreases s,
{
    match s {
        HirStmt::Return { expr, .. } => casts_ok(*expr),
        HirStmt::Expr(e) => casts_ok(*e),
        HirStmt::If { condition, then_branch, else_branch } => casts_ok(*condition) && stmt_casts_ok(*then_branch)
            && match else_branch { Some(e) => stmt_casts_ok(*e), None => true },
        HirStmt::Compound(items) => items_casts_ok(items@),
        HirStmt::While { controller, body, .. } => casts_ok(*controller) && stmt_casts_ok(*body),
        HirStmt::DoWhile { controller, body, .. } => casts_ok(*controller) && stmt_casts_ok(*body),
        HirStmt::For { initializer, controller, post, body, .. } =>
            opt_casts_ok(opt_init_expr(initializer)) && opt_casts_ok(unbox(controller)) && opt_casts_ok(unbox(post))
            && stmt_casts_ok(*body),
        _ => true,
    }
}

pub open spec fn item_casts_ok(i: HirBlockItem) -> bool
    decreases i,
{
    match i {
        HirBlockItem::Declaration(d) => opt_casts_ok(d.initializer),
        HirBlockItem::Statement(s) => stmt_casts_ok(s),
    }
}

pub open spec fn items_casts_ok(items: Seq<HirBlockItem>) -> bool
    decreases items,
{
    items.len() > 0 ==> items_casts_ok(items.subrange(0, items.len() - 1)) && item_casts_ok(items[items.len() - 1])
}

/// The local variables a statement declares, in order.
pub open spec fn stmt_decls(s: HirStmt) -> Seq<LocalVar>
    decreases s,
{
    match s {
        HirStmt::If { then_branch, else_branch, .. } => stmt_decls(*then_branch) + else_decls(else_branch),
        HirStmt::Compound(items) => items_decls(items@),
        HirStmt::While { body, .. } => stmt_decls(*body),
        HirStmt::DoWhile { body, .. } => stmt_decls(*body),
        HirStmt::For { initializer, body, .. } =>
            opt_init_decls(initializer) + stmt_decls(*body),
        _ => Seq::empty(),
    }
}

pub open spec fn else_decls(e: Option<Box<HirStmt>>) -> Seq<LocalVar>
    decreases e,
{
    match e { Some(e) => stmt_decls(*e), None => Seq::empty() }
}

pub open spec fn opt_init_decls(i: Option<Box<HirForInit>>) -> Seq<LocalVar> {
    match i { Some(i) => init_decls(*i), None => Seq::empty() }
}

pub open spec fn item_decls(i: HirBlockItem) -> Seq<LocalVar>
    decreases i,
{
    match i {
        HirBlockItem::Declaration(d) => seq![decl_var(d)],
        HirBlockItem::Statement(s) => stmt_decls(s),
    }
}

pub open spec fn items_decls(items: Seq<HirBlockItem>) -> Seq<LocalVar>
    decreases items,
{
    if items.len() == 0 { Seq::empty() } else { items_decls(items.subrange(0, items.len() - 1)) + item_decls(items[items.len() - 1]) }
}

/// The static variables a statement refers to.
pub open spec fn stmt_statics(s: HirStmt) -> Set<(StrDescriptor, DataType)>
    decreases s,
{
    match s {
        HirStmt::Return { expr, .. } => expr_statics(*expr),
        HirStmt::Expr(e) => expr_statics(*e),
        HirStmt::If { condition, then_branch, else_branch } => expr_statics(*condition) + stmt_statics(*then_branch)
            + match else_branch { Some(e) => stmt_statics(*e), None => Set::empty() },
        HirStmt::Compound(items) => items_statics(items@),
        HirStmt::While { controller, body, .. } => expr_statics(*controller) + stmt_statics(*body),
        HirStmt::DoWhile { controller, body, .. } => stmt_statics(*body) + expr_statics(*controller),
        HirStmt::For { initializer, controller, post, body, .. } =>
            opt_statics(opt_init_expr(initializer)) + opt_statics(unbox(controller)) + stmt_statics(*body) + opt_statics(unbox(post)),
        _ => Set::empty(),
    }
}

pub open spec fn item_statics(i: HirBlockItem) -> Set<(StrDescriptor, DataType)>
    decreases i,
{
    match i {
        HirBlockItem::Declaration(d) => opt_statics(d.initializer),
        HirBlockItem::Statement(s) => stmt_statics(s),
    }
}

pub open spec fn items_statics(items: Seq<HirBlockItem>) -> Set<(StrDescriptor, DataType)>
    decreases items,
{
    if items.len() == 0 { Set::empty() } else { items_statics(items.subrange(0, items.len() - 1)) + item_statics(items[items.len() - 1]) }
}

/// How many temporaries a statement uses up.
pub open spec fn stmt_temps(s: HirStmt) -> nat
    decreases s,
{
    match s {
        HirStmt::Return { expr, .. } => expr_temps(*expr),
        HirStmt::Expr(e) => expr_temps(*e),
        HirStmt::If { condition, then_branch, else_branch } => expr_temps(*condition) + stmt_temps(*then_branch)
            + match else_branch { Some(e) => stmt_temps(*e), None => 0 },
        HirStmt::Compound(items) => items_temps(items@),
        HirStmt::While { controller, body, .. } => expr_temps(*controller) + stmt_temps(*body),
        HirStmt::DoWhile { controller, body, .. } => expr_temps(*controller) + stmt_temps(*body),
        HirStmt::For { initializer, controller, post, body, .. } =>
            opt_temps(opt_init_expr(initializer)) + opt_temps(unbox(controller)) + opt_temps(unbox(post)) + stmt_temps(*body),
        _ => 0,
    }
}

pub open spec fn item_temps(i: HirBlockItem) -> nat
    decreases i,
{
    match i {
        HirBlockItem::Declaration(d) => opt_temps(d.initializer),
        HirBlockItem::Statement(s) => stmt_temps(s),
    }
}

pub open spec fn items_temps(items: Seq<HirBlockItem>) -> nat
    decreases items,
{
    if items.len() == 0 { 0 } else { items_temps(items.subrange(0, items.len() - 1)) + item_temps(items[items.len() - 1]) }
}

/// How many branch labels a statement uses up.
pub open spec fn stmt_labels(s: HirStmt) -> nat
    decreases s,
{
    match s {
        HirStmt::Return { expr, .. } => expr_labels(*expr),
        HirStmt::Expr(e) => expr_labels(*e),
        HirStmt::If { condition, then_branch, else_branch } => expr_labels(*condition) + stmt_labels(*then_branch)
            + match else_branch { Some(e) => 2 + stmt_labels(*e), None => 1 },
        HirStmt::Compound(items) => items_labels(items@),
        HirStmt::While { controller, body, .. } => expr_labels(*controller) + stmt_labels(*body),
        HirStmt::DoWhile { controller, body, .. } => 1 + expr_labels(*controller) + stmt_labels(*body),
        HirStmt::For { initializer, controller, post, body, .. } =>
            1 + opt_labels(opt_init_expr(initializer)) + opt_labels(unbox(controller)) + opt_labels(unbox(post)) + stmt_labels(*body),
        _ => 0,
    }
}

pub open spec fn item_labels(i: HirBlockItem) -> nat
    decreases i,
{
    match i {
        HirBlockItem::Declaration(d) => opt_labels(d.initializer),
        HirBlockItem::Statement(s) => stmt_labels(s),
    }
}

pub open spec fn items_labels(items: Seq<HirBlockItem>) -> nat
    decreases items,
{
    if items.len() == 0 { 0 } else { items_labels(items.subrange(0, items.len() - 1)) + item_labels(items[items.len() - 1]) }
}

/// The label a `continue` of loop `ll` jumps to, and the one a `break` jumps to.
pub open spec fn continue_label(ll: usize) -> LabelOperand {
    LabelOperand::AutoGen(AutoGenLabel::Continue(ll))
}

pub open spec fn break_label(ll: usize) -> LabelOperand {
    LabelOperand::AutoGen(AutoGenLabel::Break(ll))
}

/// The code for an optional expression whose value is not needed.
pub open spec fn opt_code(e: Option<HirTypedExpr>, t: int, l: int, s: Seq<Insn>) -> bool {
    match e {
        Some(e) => expr_code(e, t, l, s),
        None => s.len() == 0,
    }
}

/// `s` is the code generated for statement `st` with temporaries counted from
/// `t` and branch labels from `l`.
pub open spec fn stmt_code(st: HirStmt, t: int, l: int, s: Seq<Insn>) -> bool
    decreases st,
{
    match st {
        HirStmt::Return { expr, .. } => {
            let k = s.len() - 1;
            &&& s.len() >= 1
            &&& expr_code(*expr, t, l, s.subrange(0, k))
            &&& s[k] == Insn::Return(expr_operand(*expr, t))
        },
        HirStmt::Expr(e) => expr_code(*e, t, l, s),
        HirStmt::If { condition, then_branch, else_branch } => {
            let c = code_len(*condition) as int;
            let t1 = t + expr_temps(*condition);
            let l1 = l + expr_labels(*condition);
            let co = expr_operand(*condition, t);
            &&& s.len() > c
            &&& expr_code(*condition, t, l, s.subrange(0, c))
            &&& match else_branch {
                Some(e) => {
                    let k = s.len() - 1;
                    exists|m: int| #![trigger s.subrange(c + 1, m)] {
                        &&& c + 1 <= m && m + 2 <= k
                        &&& s[c] == Insn::BranchIfZero { src: co, label: branch(l1) }
                        &&& stmt_code(*then_branch, t1, l1 + 2, s.subrange(c + 1, m))
                        &&& s[m] == Insn::Jump(branch(l1 + 1))
                        &&& s[m + 1] == Insn::Label(branch(l1))
                        &&& stmt_code(*e, t1 + stmt_temps(*then_branch), l1 + 2 + stmt_labels(*then_branch), s.subrange(m + 2, k))
                        &&& s[k] == Insn::Label(branch(l1 + 1))
                    }
                },
                None => {
                    let k = s.len() - 1;
                    &&& c + 1 <= k
                    &&& s[c] == Insn::BranchIfZero { src: co, label: branch(l1) }
                    &&& stmt_code(*then_branch, t1, l1 + 1, s.subrange(c + 1, k))
                    &&& s[k] == Insn::Label(branch(l1))
                },
            }
        },
        HirStmt::Compound(items) => items_code(items@, t, l, s),
        HirStmt::Nil => s.len() == 0,
        HirStmt::Break { loop_label, .. } => s == seq![Insn::Jump(break_label(loop_label))],
        HirStmt::Continue { loop_label, .. } => s == seq![Insn::Jump(continue_label(loop_label))],
        HirStmt::While { controller, body, loop_label, .. } => {
            let c = code_len(*controller) as int;
            let k = s.len() - 2;
            &&& s.len() >= c + 4
            &&& s[0] == Insn::Label(continue_label(loop_label))
            &&& expr_code(*controller, t, l, s.subrange(1, c + 1))
            &&& s[c + 1] == Insn::BranchIfZero { src: expr_operand(*controller, t), label: break_label(loop_label) }
            &&& stmt_code(*body, t + expr_temps(*controller), l + expr_labels(*controller), s.subrange(c + 2, k))
            &&& s[k] == Insn::Jump(continue_label(loop_label))
            &&& s[k + 1] == Insn::Label(break_label(loop_label))
        },
        HirStmt::DoWhile { body, controller, loop_label, .. } => {
            let c = code_len(*controller) as int;
            let k = s.len() - 2 - c;
            let tb = t + stmt_temps(*body);
            &&& s.len() >= c + 4
            &&& s[0] == Insn::Label(branch(l))
            &&& stmt_code(*body, t, l + 1, s.subrange(1, k - 1))
            &&& s[k - 1] == Insn::Label(continue_label(loop_label))
            &&& expr_code(*controller, tb, l + 1 + stmt_labels(*body), s.subrange(k, k + c))
            &&& s[k + c] == Insn::BranchNotZero { src: expr_operand(*controller, tb), label: branch(l) }
            &&& s[k + c + 1] == Insn::Label(break_label(loop_label))
        },
        HirStmt::For { initializer, controller, post, body, loop_label, .. } => {
            let ie = opt_init_expr(initializer);
            let ce = unbox(controller);
            let pe = unbox(post);
            let i = match initializer { Some(i) => init_code_len(*i) as int, None => 0int };
            let ct = t + opt_temps(ie);
            let cl = l + 1 + opt_labels(ie);
            let bt = ct + opt_temps(ce);
            let bl = cl + opt_labels(ce);
            let pt = bt + stmt_temps(*body);
            let pl = bl + stmt_labels(*body);
            let c = match ce { Some(e) => code_len(e) as int + 1, None => 0int };
            let p = match pe { Some(e) => code_len(e) as int, None => 0int };
            let k = s.len() - 2 - p;
            &&& s.len() >= i + 1 + c + 3 + p
            &&& match initializer {
                Some(init) => init_code(*init, t, l + 1, s.subrange(0, i)),
                None => true,
            }
            &&& s[i] == Insn::Label(branch(l))
            &&& match ce {
                Some(e) => {
                    &&& expr_code(e, ct, cl, s.subrange(i + 1, i + c))
                    &&& s[i + c] == Insn::BranchIfZero { src: expr_operand(e, ct), label: break_label(loop_label) }
                },
                None => true,
            }
            &&& stmt_code(*body, bt, bl, s.subrange(i + 1 + c, k - 1))
            &&& s[k - 1] == Insn::Label(continue_label(loop_label))
            &&& opt_code(pe, pt, pl, s.subrange(k, k + p))
            &&& s[k + p] == Insn::Jump(branch(l))
            &&& s[k + p + 1] == Insn::Label(break_label(loop_label))
        },
    }
}

pub open spec fn item_code(i: HirBlockItem, t: int, l: int, s: Seq<Insn>) -> bool
    decreases i,
{
    match i {
        HirBlockItem::Declaration(d) => decl_code(d, t, l, s),
        HirBlockItem::Statement(st) => stmt_code(st, t, l, s),
    }
}

/// `s` is the code generated for the items one after the other.
pub open spec fn items_code(items: Seq<HirBlockItem>, t: int, l: int, s: Seq<Insn>) -> bool
    decreases items,
{
    if items.len() == 0 {
        s.len() == 0
    } else {
        let p = items.subrange(0, items.len() - 1);
        exists|k: int| #![trigger s.subrange(0, k)] 0 <= k <= s.len()
            && items_code(p, t, l, s.subrange(0, k))
            && item_code(items[items.len() - 1], t + items_temps(p), l + items_labels(p), s.subrange(k, s.len() as int))
    }
}

} // verus!

verus! {

/// The entry of a local variable in the table of a function.
pub open spec fn entry_of(v: LocalVar) -> (usize, LocalVar) {
    (v.local_id, v)
}

/// The variables have ids that differ from one another and from every id of the table.
pub open spec fn fresh_decls(table: Seq<(usize, LocalVar)>, vs: Seq<LocalVar>) -> bool {
    &&& forall|i: int, j: int| 0 <= i < j < vs.len() ==> vs[i].local_id != vs[j].local_id
    &&& forall|i: int, k: int| 0 <= i < vs.len() && 0 <= k < table.len() ==> table[k].0 != vs[i].local_id
}

pub proof fn lemma_fresh_split(table: Seq<(usize, LocalVar)>, a: Seq<LocalVar>, b: Seq<LocalVar>)
    requires fresh_decls(table, a + b),
    ensures fresh_decls(table, a), fresh_decls(table + a.map_values(|v: LocalVar| entry_of(v)), b),
{
    let ab = a + b;
    assert forall|i: int, j: int| 0 <= i < j < a.len() implies a[i].local_id != a[j].local_id by {
        assert(ab[i] == a[i] && ab[j] == a[j]);
    }
    assert forall|i: int, k: int| 0 <= i < a.len() && 0 <= k < table.len() implies table[k].0 != a[i].local_id by {
        assert(ab[i] == a[i]);
    }
    let t2 = table + a.map_values(|v: LocalVar| entry_of(v));
    assert forall|i: int, j: int| 0 <= i < j < b.len() implies b[i].local_id != b[j].local_id by {
        assert(ab[a.len() + i] == b[i] && ab[a.len() + j] == b[j]);
    }
    assert forall|i: int, k: int| 0 <= i < b.len() && 0 <= k < t2.len() implies t2[k].0 != b[i].local_id by {
        assert(ab[a.len() + i] == b[i]);
        if k >= table.len() {
            assert(t2[k] == entry_of(a[k - table.len()]));
            assert(ab[k - table.len()] == a[k - table.len()]);
        }
    }
}

pub proof fn lemma_table_concat(table: Seq<(usize, LocalVar)>, a: Seq<LocalVar>, b: Seq<LocalVar>)
    ensures
        table + (a + b).map_values(|v: LocalVar| entry_of(v))
            == (table + a.map_values(|v: LocalVar| entry_of(v))) + b.map_values(|v: LocalVar| entry_of(v)),
{
    assert(table + (a + b).map_values(|v: LocalVar| entry_of(v))
        =~= (table + a.map_values(|v: LocalVar| entry_of(v))) + b.map_values(|v: LocalVar| entry_of(v)));
}


/// The values held by the variables and temporaries of a function.
pub type TacState = spec_fn(Operand) -> int;

/// The value of an operand: an immediate stands for itself.
pub open spec fn opval(st: TacState, o: Operand) -> int {
    match o {
        Operand::Imm(c) => c.int_value(),
        _ => st(o),
    }
}

pub open spec fn tac_set(st: TacState, d: Operand, v: int) -> TacState {
    |o: Operand| if o == d { v } else { st(o) }
}

/// What a straight-line instruction does, with the operators' exact meanings.
pub open spec fn tac_step(st: TacState, i: Insn) -> TacState {
    match i {
        Insn::Unary { op, src, dst } => tac_set(st, dst, op.meaning(opval(st, src))),
        Insn::Binary { op, left, right, dst } => tac_set(st, dst, op.meaning(opval(st, left), opval(st, right))),
        Insn::Move { src, dst } => tac_set(st, dst, opval(st, src)),
        _ => st,
    }
}

/// What a sequence of straight-line instructions does.
pub open spec fn tac_run(st: TacState, s: Seq<Insn>) -> TacState
    decreases s.len(),
{
    if s.len() == 0 { st } else { tac_step(tac_run(st, s.drop_last()), s.last()) }
}

/// An expression of literals, variables, parentheses, unary operators and
/// arithmetic or comparison operators: one whose code runs straight through.
pub open spec fn straight(e: HirTypedExpr) -> bool
    decreases e,
{
    match e.untyped {
        HirExpr::IntegerLiteral(_) => true,
        HirExpr::Var(_) => true,
        HirExpr::Group(inner) => straight(*inner),
        HirExpr::Unary(_, inner) => straight(*inner),
        HirExpr::Binary { op: (op, _), left, right } => !is_logical(op) && op != HirBinaryOp::Assign
            && straight(*left) && straight(*right),
        _ => false,
    }
}

/// The value C gives such an expression when its variables hold the values of `st`.
pub open spec fn hir_eval(st: TacState, e: HirTypedExpr) -> int
    decreases e,
{
    match e.untyped {
        HirExpr::IntegerLiteral(c) => c.int_value(),
        HirExpr::Var(v) => st(var_operand(v)),
        HirExpr::Group(inner) => hir_eval(st, *inner),
        HirExpr::Unary((op, _), inner) => op.meaning(hir_eval(st, *inner)),
        HirExpr::Binary { op: (op, _), left, right } => op.meaning(hir_eval(st, *left), hir_eval(st, *right)),
        _ => 0,
    }
}

/// An operand that is no temporary numbered from `t` up to `t + n`.
pub open spec fn outside(o: Operand, t: int, n: int) -> bool {
    !(o matches Operand::Temp(id, _) && t <= id < t + n)
}

proof fn lemma_run_append(st: TacState, a: Seq<Insn>, b: Seq<Insn>)
    ensures tac_run(st, a + b) == tac_run(tac_run(st, a), b),
    decreases b.len(),
{
    if b.len() == 0 {
        assert(a + b =~= a);
    } else {
        assert((a + b).drop_last() =~= a + b.drop_last());
        assert((a + b).last() == b.last());
        lemma_run_append(st, a, b.drop_last());
    }
}

/// The code of a straight expression writes no operand outside its own
/// temporaries.
proof fn lemma_straight_frame(e: HirTypedExpr, t: int, l: int, s: Seq<Insn>, st: TacState)
    requires straight(e), expr_code(e, t, l, s), 0 <= t, t + expr_temps(e) <= usize::MAX,
    ensures
        forall|o: Operand| outside(o, t, expr_temps(e) as int) ==> #[trigger] tac_run(st, s)(o) == st(o),
    decreases e,
{
    match e.untyped {
        HirExpr::IntegerLiteral(_) => { assert(s.len() == 0); },
        HirExpr::Var(_) => { assert(s.len() == 0); },
        HirExpr::Group(inner) => {
            lemma_straight_frame(*inner, t + 1, l, s, st);
            assert forall|o: Operand| outside(o, t, expr_temps(e) as int) implies #[trigger] tac_run(st, s)(o) == st(o) by {
                assert(outside(o, t + 1, expr_temps(*inner) as int));
            }
        },
        HirExpr::Unary(_, inner) => {
            let k = code_len(*inner) as int;
            let s1 = s.subrange(0, k);
            lemma_straight_frame(*inner, t + 1, l, s1, st);
            assert(s.drop_last() =~= s1);
            assert forall|o: Operand| outside(o, t, expr_temps(e) as int) implies #[trigger] tac_run(st, s)(o) == st(o) by {
                assert(outside(o, t + 1, expr_temps(*inner) as int));
                assert(o != Operand::Temp(t as usize, e.type_));
                assert(tac_run(st, s1)(o) == st(o));
            }
        },
        HirExpr::Binary { op: (op, _), left, right } => {
            let a = code_len(*left) as int;
            let b = a + code_len(*right);
            let lt = t + 1 + expr_temps(*left);
            let s1 = s.subrange(0, a);
            let s2 = s.subrange(a, b);
            lemma_straight_frame(*left, t + 1, l, s1, st);
            let st1 = tac_run(st, s1);
            lemma_straight_frame(*right, lt, l + expr_labels(*left), s2, st1);
            lemma_run_append(st, s1, s2);
            assert(s1 + s2 =~= s.drop_last());
            assert forall|o: Operand| outside(o, t, expr_temps(e) as int) implies #[trigger] tac_run(st, s)(o) == st(o) by {
                assert(outside(o, t + 1, expr_temps(*left) as int));
                assert(outside(o, lt, expr_temps(*right) as int));
                assert(o != Operand::Temp(t as usize, e.type_));
                assert(tac_run(st1, s2)(o) == st1(o));
                assert(st1(o) == st(o));
            }
        },
        _ => {},
    }
}

/// Runs of code agree on the value of a straight expression when they agree
/// on every variable.
proof fn lemma_eval_vars(e: HirTypedExpr, st1: TacState, st2: TacState)
    requires straight(e), forall|o: Operand| !(o is Temp) ==> #[trigger] st1(o) == st2(o),
    ensures hir_eval(st1, e) == hir_eval(st2, e),
    decreases e,
{
    match e.untyped {
        HirExpr::Var(v) => { assert(!(var_operand(v) is Temp)); },
        HirExpr::Group(inner) => { lemma_eval_vars(*inner, st1, st2); },
        HirExpr::Unary(_, inner) => { lemma_eval_vars(*inner, st1, st2); },
        HirExpr::Binary { left, right, .. } => { lemma_eval_vars(*left, st1, st2); lemma_eval_vars(*right, st1, st2); },
        _ => {},
    }
}

/// The operand of a straight expression is an immediate, a variable or one of
/// the temporaries its code uses.
proof fn lemma_straight_operand(e: HirTypedExpr, t: int)
    requires straight(e), 0 <= t, t + expr_temps(e) <= usize::MAX,
    ensures expr_operand(e, t) is Imm || expr_operand(e, t) is Var
        || (expr_operand(e, t) matches Operand::Temp(id, _) && t <= id < t + expr_temps(e)),
    decreases e,
{
    match e.untyped {
        HirExpr::Group(inner) => { lemma_straight_operand(*inner, t + 1); },
        HirExpr::Var(v) => { assert(var_operand(v) is Var); },
        _ => {},
    }
}

/// The code generated for an expression computes its value: running it
/// leaves in the expression's operand what C gives the expression for the
/// values its variables hold, each operator with its own meaning and its
/// operands in their order.
pub proof fn lemma_expr_code_computes(e: HirTypedExpr, t: int, l: int, s: Seq<Insn>, st: TacState)
    requires straight(e), expr_code(e, t, l, s), 0 <= t, t + expr_temps(e) <= usize::MAX,
    ensures opval(tac_run(st, s), expr_operand(e, t)) == hir_eval(st, e),
    decreases e,
{
    match e.untyped {
        HirExpr::IntegerLiteral(_) => { assert(s.len() == 0); },
        HirExpr::Var(v) => { assert(s.len() == 0); assert(var_operand(v) is Var); },
        HirExpr::Group(inner) => { lemma_expr_code_computes(*inner, t + 1, l, s, st); },
        HirExpr::Unary((op, _), inner) => {
            let k = code_len(*inner) as int;
            lemma_expr_code_computes(*inner, t + 1, l, s.subrange(0, k), st);
            assert(s.drop_last() =~= s.subrange(0, k));
            crate::tac::tac::lemma_unary_from_hir_meaning(op, hir_eval(st, *inner));
        },
        HirExpr::Binary { op: (op, _), left, right } => {
            let a = code_len(*left) as int;
            let b = a + code_len(*right);
            let lt = t + 1 + expr_temps(*left);
            let s1 = s.subrange(0, a);
            let s2 = s.subrange(a, b);
            let st1 = tac_run(st, s1);
            let st2 = tac_run(st1, s2);
            lemma_expr_code_computes(*left, t + 1, l, s1, st);
            lemma_straight_frame(*left, t + 1, l, s1, st);
            lemma_expr_code_computes(*right, lt, l + expr_labels(*left), s2, st1);
            lemma_straight_frame(*right, lt, l + expr_labels(*left), s2, st1);
            assert forall|o: Operand| !(o is Temp) implies #[trigger] st(o) == st1(o) by {
                assert(outside(o, t + 1, expr_temps(*left) as int));
            }
            lemma_eval_vars(*right, st, st1);
            lemma_straight_operand(*left, t + 1);
            let lo = expr_operand(*left, t + 1);
            assert(outside(lo, lt, expr_temps(*right) as int));
            assert(opval(st2, lo) == opval(st1, lo));
            lemma_run_append(st, s1, s2);
            assert(s1 + s2 =~= s.drop_last());
            crate::tac::tac::lemma_binary_from_hir_meaning(op, hir_eval(st, *left), hir_eval(st, *right));
        },
        _ => {},
    }
}

} // verus!
