//! Final pass of semantic analysis: every expression gets its type, and
//! casts are inserted where an operand must be converted.

use vstd::prelude::*;
use crate::common::{
    Constant, DataType, Error, Result, Span, StrDescriptor, StringPool, as_map, find_key, keys_unique,
    lemma_as_map_index,
};
use super::hir::{
    BlockItem, Expr, ForInit, Function, LocalVarDecl, StaticVar, Stmt, TypedExpr, UnaryOp, BinaryOp,
};
use super::symtb::FuncSymbol;

verus! {

/// The function symbols by name.
pub type FuncMap = Map<StrDescriptor, FuncSymbol>;

/// The type of an integer literal.
pub open spec fn literal_type(c: Constant) -> DataType {
    match c {
        Constant::Int(_) => DataType::Int,
        Constant::Long(_) => DataType::Long,
    }
}

/// Whether a value of type `from` can be converted to `target`.
pub open spec fn convertible(target: DataType, from: DataType) -> bool {
    target.spec_common(from) is Some
}

/// The type that type checking gives an expression, or `None` where it
/// reports an error.
pub open spec fn expr_type(e: TypedExpr, funcs: FuncMap) -> Option<DataType>
    decreases e,
{
    match e.untyped {
        Expr::IntegerLiteral(c) => Some(literal_type(c)),
        Expr::Var(v) => Some(v.spec_data_type()),
        Expr::Cast { target, expr, .. } => match expr_type(*expr, funcs) {
            Some(t) => if convertible(target, t) { Some(target) } else { None },
            None => None,
        },
        Expr::Group(inner) => expr_type(*inner, funcs),
        Expr::Unary((op, _), inner) => match expr_type(*inner, funcs) {
            Some(t) => Some(if op is Not { DataType::Int } else { t }),
            None => None,
        },
        Expr::Binary { op: (op, _), left, right } => match (expr_type(*left, funcs), expr_type(*right, funcs)) {
            (Some(l), Some(r)) => if op is And || op is Or {
                Some(DataType::Int)
            } else {
                match l.spec_common(r) {
                    Some(s) => Some(if op.spec_is_arithmetic() { s } else { DataType::Int }),
                    None => None,
                }
            },
            _ => None,
        },
        Expr::Assignment { left, right, .. } => match (expr_type(*left, funcs), expr_type(*right, funcs)) {
            (Some(l), Some(r)) => if convertible(l, r) { Some(l) } else { None },
            _ => None,
        },
        Expr::Ternary { condition, then_expr, else_expr, .. } =>
            match (expr_type(*condition, funcs), expr_type(*then_expr, funcs), expr_type(*else_expr, funcs)) {
                (Some(_), Some(t), Some(f)) => t.spec_common(f),
                _ => None,
            },
        Expr::FuncCall { name, args, .. } =>
            if funcs.contains_key(name) && args_ok(args@, funcs[name].type_.param_types@, funcs) {
                Some(funcs[name].type_.return_type)
            } else {
                None
            },
    }
}

/// The arguments match the parameters in number, and each can be converted
/// to its parameter's type.
pub open spec fn args_ok(args: Seq<TypedExpr>, params: Seq<DataType>, funcs: FuncMap) -> bool
    decreases args,
{
    &&& args.len() == params.len()
    &&& args.len() > 0 ==> {
        let k = args.len() - 1;
        &&& args_ok(args.subrange(0, k), params.subrange(0, k), funcs)
        &&& match expr_type(args[k], funcs) {
            Some(t) => convertible(params[k], t),
            None => false,
        }
    }
}

/// `n` is `o` typed and, where its type is not `target`, cast to `target`.
pub open spec fn casted(o: TypedExpr, n: TypedExpr, target: DataType, span: Span, funcs: FuncMap) -> bool
    decreases o, 1nat,
{
    if expr_type(o, funcs) == Some(target) {
        typed_as(o, n, funcs)
    } else {
        &&& n.type_ == target
        &&& n.untyped matches Expr::Cast { target: t2, expr: inner, span: s2 }
        &&& t2 == target && s2 == span
        &&& typed_as(o, *inner, funcs)
    }
}

/// `n` is the expression `o` with the types of its nodes filled in and the
/// casts that its operands need inserted.
pub open spec fn typed_as(o: TypedExpr, n: TypedExpr, funcs: FuncMap) -> bool
    decreases o, 0nat,
{
    match o.untyped {
        Expr::IntegerLiteral(_) => n.untyped == o.untyped && n.type_ == expr_type(o, funcs)->0,
        Expr::Var(_) => n.untyped == o.untyped && n.type_ == expr_type(o, funcs)->0,
        Expr::Cast { target, expr, span } => casted(*expr, n, target, span, funcs),
        Expr::Group(inner) => {
            &&& n.type_ == expr_type(o, funcs)->0
            &&& n.untyped matches Expr::Group(i2)
            &&& typed_as(*inner, *i2, funcs)
        },
        Expr::Unary((op, span), inner) => {
            &&& n.type_ == expr_type(o, funcs)->0
            &&& n.untyped matches Expr::Unary((op2, span2), i2)
            &&& op2 == op && span2 == span
            &&& typed_as(*inner, *i2, funcs)
        },
        Expr::Binary { op: (op, span), left, right } => {
            &&& n.type_ == expr_type(o, funcs)->0
            &&& n.untyped matches Expr::Binary { op: (op2, span2), left: l2, right: r2 }
            &&& op2 == op && span2 == span
            &&& if op is And || op is Or {
                typed_as(*left, *l2, funcs) && typed_as(*right, *r2, funcs)
            } else {
                let s = expr_type(*left, funcs)->0.spec_common(expr_type(*right, funcs)->0)->0;
                casted(*left, *l2, s, span, funcs) && casted(*right, *r2, s, span, funcs)
            }
        },
        Expr::Assignment { span, left, right } => {
            &&& n.type_ == expr_type(o, funcs)->0
            &&& n.untyped matches Expr::Assignment { span: span2, left: l2, right: r2 }
            &&& span2 == span
            &&& typed_as(*left, *l2, funcs)
            &&& casted(*right, *r2, expr_type(*left, funcs)->0, span, funcs)
        },
        Expr::Ternary { span, condition, then_expr, else_expr } => {
            &&& n.type_ == expr_type(o, funcs)->0
            &&& n.untyped matches Expr::Ternary { span: span2, condition: c2, then_expr: t2, else_expr: e2 }
            &&& span2 == span
            &&& typed_as(*condition, *c2, funcs)
            &&& casted(*then_expr, *t2, n.type_, span, funcs)
            &&& casted(*else_expr, *e2, n.type_, span, funcs)
        },
        Expr::FuncCall { name, span, args } => {
            &&& n.type_ == expr_type(o, funcs)->0
            &&& n.untyped matches Expr::FuncCall { name: name2, span: span2, args: a2 }
            &&& name2 == name && span2 == span
            &&& args_typed(args@, a2@, funcs[name].type_.param_types@, span, funcs)
        },
    }
}

/// Each argument of `n` is the one of `o` typed and cast to its parameter's type.
pub open spec fn args_typed(o: Seq<TypedExpr>, n: Seq<TypedExpr>, params: Seq<DataType>, span: Span, funcs: FuncMap) -> bool
    decreases o, 0nat,
{
    &&& o.len() == n.len()
    &&& o.len() > 0 ==> {
        let k = o.len() - 1;
        &&& args_typed(o.subrange(0, k), n.subrange(0, k), params.subrange(0, k), span, funcs)
        &&& casted(o[k], n[k], params[k], span, funcs)
    }
}

/// A function whose type is fully known.
pub open spec fn func_determinate(f: FuncSymbol) -> bool {
    &&& f.type_.return_type != DataType::Indeterminate
    &&& forall|i: int| 0 <= i < f.type_.param_types@.len() ==> f.type_.param_types@[i] != DataType::Indeterminate
}

/// An expression as name resolution leaves it: no node typed yet, every
/// variable and cast target of a known type, and every called function known.
pub open spec fn untyped_ok(e: TypedExpr, funcs: FuncMap, pool: StringPool) -> bool
    decreases e,
{
    &&& e.type_ == DataType::Indeterminate
    &&& match e.untyped {
        Expr::IntegerLiteral(_) => true,
        Expr::Var(v) => v.spec_data_type() != DataType::Indeterminate,
        Expr::Cast { target, expr, .. } => target != DataType::Indeterminate && untyped_ok(*expr, funcs, pool),
        Expr::Group(inner) => untyped_ok(*inner, funcs, pool),
        Expr::Unary(_, inner) => untyped_ok(*inner, funcs, pool),
        Expr::Binary { left, right, .. } => untyped_ok(*left, funcs, pool) && untyped_ok(*right, funcs, pool),
        Expr::Assignment { left, right, .. } => untyped_ok(*left, funcs, pool) && untyped_ok(*right, funcs, pool),
        Expr::Ternary { condition, then_expr, else_expr, .. } =>
            untyped_ok(*condition, funcs, pool) && untyped_ok(*then_expr, funcs, pool) && untyped_ok(*else_expr, funcs, pool),
        Expr::FuncCall { name, args, .. } => funcs.contains_key(name) && func_determinate(funcs[name])
            && pool.holds(name) && args_untyped_ok(args@, funcs, pool),
    }
}

pub open spec fn args_untyped_ok(args: Seq<TypedExpr>, funcs: FuncMap, pool: StringPool) -> bool
    decreases args,
{
    args.len() > 0 ==> args_untyped_ok(args.subrange(0, args.len() - 1), funcs, pool)
        && untyped_ok(args[args.len() - 1], funcs, pool)
}


/// Whether a local declaration type checks under the given functions.
pub open spec fn decl_ok(d: LocalVarDecl, funcs: FuncMap) -> bool {
    match d.initializer {
        Some(e) => match expr_type(e, funcs) {
            Some(t) => convertible(d.data_type, t),
            None => false,
        },
        None => true,
    }
}

pub open spec fn for_init_ok(i: ForInit, funcs: FuncMap) -> bool {
    match i {
        ForInit::Declaration(d) => decl_ok(d, funcs),
        ForInit::Expression(e) => expr_type(*e, funcs) is Some,
    }
}

/// Whether a statement type checks in a function returning `ret`.
pub open spec fn stmt_ok(s: Stmt, ret: DataType, funcs: FuncMap) -> bool
    decreases s,
{
    match s {
        Stmt::Compound(items) => items_ok(items@, ret, funcs),
        Stmt::While { controller, body, .. } => stmt_ok(*body, ret, funcs) && expr_type(*controller, funcs) is Some,
        Stmt::DoWhile { controller, body, .. } => stmt_ok(*body, ret, funcs) && expr_type(*controller, funcs) is Some,
        Stmt::For { initializer, controller, post, body, .. } => {
            &&& stmt_ok(*body, ret, funcs)
            &&& controller matches Some(c) ==> expr_type(*c, funcs) is Some
            &&& initializer matches Some(i) ==> for_init_ok(*i, funcs)
            &&& post matches Some(p) ==> expr_type(*p, funcs) is Some
        },
        Stmt::Return { expr, .. } => match expr_type(*expr, funcs) {
            Some(t) => convertible(ret, t),
            None => false,
        },
        Stmt::Expr(e) => expr_type(*e, funcs) is Some,
        Stmt::If { condition, then_branch, else_branch } => {
            &&& expr_type(*condition, funcs) is Some
            &&& stmt_ok(*then_branch, ret, funcs)
            &&& else_branch matches Some(e) ==> stmt_ok(*e, ret, funcs)
        },
        _ => true,
    }
}

pub open spec fn item_ok(item: BlockItem, ret: DataType, funcs: FuncMap) -> bool
    decreases item,
{
    match item {
        BlockItem::Declaration(d) => decl_ok(d, funcs),
        BlockItem::Statement(s) => stmt_ok(s, ret, funcs),
    }
}

pub open spec fn items_ok(items: Seq<BlockItem>, ret: DataType, funcs: FuncMap) -> bool
    decreases items,
{
    items.len() > 0 ==> items_ok(items.subrange(0, items.len() - 1), ret, funcs)
        && item_ok(items[items.len() - 1], ret, funcs)
}

/// `n` is the declaration `o` with its initial value typed and converted to
/// the declared type.
pub open spec fn decl_typed(o: LocalVarDecl, n: LocalVarDecl, funcs: FuncMap) -> bool {
    &&& n.name == o.name && n.data_type == o.data_type && n.local_id == o.local_id && n.span == o.span
    &&& match o.initializer {
        Some(e) => n.initializer matches Some(e2) && casted(e, e2, o.data_type, o.span, funcs),
        None => n.initializer is None,
    }
}

pub open spec fn for_init_typed(o: ForInit, n: ForInit, funcs: FuncMap) -> bool {
    match o {
        ForInit::Declaration(d) => n matches ForInit::Declaration(d2) && decl_typed(d, d2, funcs),
        ForInit::Expression(e) => n matches ForInit::Expression(e2) && typed_as(*e, *e2, funcs),
    }
}

/// `n` is the statement `o` with every expression typed, and the value of
/// each `return` converted to `ret`.
pub open spec fn stmt_typed(o: Stmt, n: Stmt, ret: DataType, funcs: FuncMap) -> bool
    decreases o,
{
    match o {
        Stmt::Compound(items) => n is Compound && items_typed(items@, n->Compound_0@, ret, funcs),
        Stmt::While { span, controller, body, loop_label } => {
            &&& n matches Stmt::While { span: s2, controller: c2, body: b2, loop_label: l2 }
            &&& s2 == span && l2 == loop_label
            &&& typed_as(*controller, *c2, funcs)
            &&& stmt_typed(*body, *b2, ret, funcs)
        },
        Stmt::DoWhile { span, body, controller, loop_label } => {
            &&& n matches Stmt::DoWhile { span: s2, body: b2, controller: c2, loop_label: l2 }
            &&& s2 == span && l2 == loop_label
            &&& typed_as(*controller, *c2, funcs)
            &&& stmt_typed(*body, *b2, ret, funcs)
        },
        Stmt::For { span, initializer, controller, post, body, loop_label } => {
            &&& n matches Stmt::For { span: s2, initializer: i2, controller: c2, post: p2, body: b2, loop_label: l2 }
            &&& s2 == span && l2 == loop_label
            &&& stmt_typed(*body, *b2, ret, funcs)
            &&& match initializer {
                Some(i) => i2 matches Some(j) && for_init_typed(*i, *j, funcs),
                None => i2 is None,
            }
            &&& match controller {
                Some(c) => c2 matches Some(d) && typed_as(*c, *d, funcs),
                None => c2 is None,
            }
            &&& match post {
                Some(p) => p2 matches Some(q) && typed_as(*p, *q, funcs),
                None => p2 is None,
            }
        },
        Stmt::Return { span, expr } => {
            &&& n matches Stmt::Return { span: s2, expr: e2 }
            &&& s2 == span
            &&& casted(*expr, *e2, ret, span, funcs)
        },
        Stmt::Expr(e) => n matches Stmt::Expr(e2) && typed_as(*e, *e2, funcs),
        Stmt::If { condition, then_branch, else_branch } => {
            &&& n matches Stmt::If { condition: c2, then_branch: t2, else_branch: e2 }
            &&& typed_as(*condition, *c2, funcs)
            &&& stmt_typed(*then_branch, *t2, ret, funcs)
            &&& match else_branch {
                Some(e) => e2 matches Some(f) && stmt_typed(*e, *f, ret, funcs),
                None => e2 is None,
            }
        },
        _ => n == o,
    }
}

pub open spec fn item_typed(o: BlockItem, n: BlockItem, ret: DataType, funcs: FuncMap) -> bool
    decreases o,
{
    match o {
        BlockItem::Declaration(d) => n matches BlockItem::Declaration(d2) && decl_typed(d, d2, funcs),
        BlockItem::Statement(s) => n matches BlockItem::Statement(s2) && stmt_typed(s, s2, ret, funcs),
    }
}

pub open spec fn items_typed(o: Seq<BlockItem>, n: Seq<BlockItem>, ret: DataType, funcs: FuncMap) -> bool
    decreases o,
{
    &&& o.len() == n.len()
    &&& o.len() > 0 ==> items_typed(o.subrange(0, o.len() - 1), n.subrange(0, n.len() - 1), ret, funcs)
        && item_typed(o[o.len() - 1], n[n.len() - 1], ret, funcs)
}

/// A declaration as name resolution leaves it.
pub open spec fn decl_untyped_ok(d: LocalVarDecl, funcs: FuncMap, pool: StringPool) -> bool {
    &&& d.data_type != DataType::Indeterminate
    &&& d.initializer matches Some(e) ==> untyped_ok(e, funcs, pool)
}

pub open spec fn for_init_untyped_ok(i: ForInit, funcs: FuncMap, pool: StringPool) -> bool {
    match i {
        ForInit::Declaration(d) => decl_untyped_ok(d, funcs, pool),
        ForInit::Expression(e) => untyped_ok(*e, funcs, pool),
    }
}

/// A statement as name resolution leaves it: all its expressions and
/// declarations are.
pub open spec fn stmt_untyped_ok(s: Stmt, funcs: FuncMap, pool: StringPool) -> bool
    decreases s,
{
    match s {
        Stmt::Compound(items) => items_untyped_ok(items@, funcs, pool),
        Stmt::While { controller, body, .. } => untyped_ok(*controller, funcs, pool) && stmt_untyped_ok(*body, funcs, pool),
        Stmt::DoWhile { controller, body, .. } => untyped_ok(*controller, funcs, pool) && stmt_untyped_ok(*body, funcs, pool),
        Stmt::For { initializer, controller, post, body, .. } => {
            &&& stmt_untyped_ok(*body, funcs, pool)
            &&& controller matches Some(c) ==> untyped_ok(*c, funcs, pool)
            &&& initializer matches Some(i) ==> for_init_untyped_ok(*i, funcs, pool)
            &&& post matches Some(p) ==> untyped_ok(*p, funcs, pool)
        },
        Stmt::Return { expr, .. } => untyped_ok(*expr, funcs, pool),
        Stmt::Expr(e) => untyped_ok(*e, funcs, pool),
        Stmt::If { condition, then_branch, else_branch } => {
            &&& untyped_ok(*condition, funcs, pool)
            &&& stmt_untyped_ok(*then_branch, funcs, pool)
            &&& else_branch matches Some(e) ==> stmt_untyped_ok(*e, funcs, pool)
        },
        _ => true,
    }
}

pub open spec fn item_untyped_ok(item: BlockItem, funcs: FuncMap, pool: StringPool) -> bool
    decreases item,
{
    match item {
        BlockItem::Declaration(d) => decl_untyped_ok(d, funcs, pool),
        BlockItem::Statement(s) => stmt_untyped_ok(s, funcs, pool),
    }
}

pub open spec fn items_untyped_ok(items: Seq<BlockItem>, funcs: FuncMap, pool: StringPool) -> bool
    decreases items,
{
    items.len() > 0 ==> items_untyped_ok(items.subrange(0, items.len() - 1), funcs, pool)
        && item_untyped_ok(items[items.len() - 1], funcs, pool)
}

proof fn lemma_items_prefix(o: Seq<BlockItem>, n: Seq<BlockItem>, j: int, ret: DataType, funcs: FuncMap, pool: StringPool)
    requires 0 <= j < o.len(), j < n.len(),
    ensures
        o.subrange(0, j + 1).subrange(0, j) == o.subrange(0, j),
        n.subrange(0, j + 1).subrange(0, j) == n.subrange(0, j),
        items_ok(o.subrange(0, j + 1), ret, funcs) == (items_ok(o.subrange(0, j), ret, funcs) && item_ok(o[j], ret, funcs)),
        items_typed(o.subrange(0, j + 1), n.subrange(0, j + 1), ret, funcs) == (
            items_typed(o.subrange(0, j), n.subrange(0, j), ret, funcs) && item_typed(o[j], n[j], ret, funcs)),
        items_untyped_ok(o.subrange(0, j + 1), funcs, pool) == (
            items_untyped_ok(o.subrange(0, j), funcs, pool) && item_untyped_ok(o[j], funcs, pool)),
{
    assert(o.subrange(0, j + 1).subrange(0, j) =~= o.subrange(0, j));
    assert(n.subrange(0, j + 1).subrange(0, j) =~= n.subrange(0, j));
}

proof fn lemma_items_untyped_all(o: Seq<BlockItem>, j: int, funcs: FuncMap, pool: StringPool)
    requires 0 <= j <= o.len(), items_untyped_ok(o, funcs, pool),
    ensures forall|k: int| j <= k < o.len() ==> item_untyped_ok(#[trigger] o[k], funcs, pool),
    decreases o.len() - j,
{
    if j < o.len() {
        lemma_items_untyped_all(o, j + 1, funcs, pool);
        lemma_items_untyped_prefix(o, j + 1, funcs, pool);
        lemma_items_prefix(o, o, j, DataType::Int, funcs, pool);
    }
}

proof fn lemma_items_untyped_prefix(o: Seq<BlockItem>, j: int, funcs: FuncMap, pool: StringPool)
    requires 0 <= j <= o.len(), items_untyped_ok(o, funcs, pool),
    ensures items_untyped_ok(o.subrange(0, j), funcs, pool),
    decreases o.len() - j,
{
    if j < o.len() {
        lemma_items_untyped_prefix(o, j + 1, funcs, pool);
        lemma_items_prefix(o, o, j, DataType::Int, funcs, pool);
    } else {
        assert(o.subrange(0, j) =~= o);
    }
}

proof fn lemma_items_ok_prefix(o: Seq<BlockItem>, j: int, ret: DataType, funcs: FuncMap)
    requires 0 <= j <= o.len(), !items_ok(o.subrange(0, j), ret, funcs),
    ensures !items_ok(o, ret, funcs),
    decreases o.len() - j,
{
    if j < o.len() {
        lemma_items_prefix(o, o, j, ret, funcs, vstd::pervasive::arbitrary());
        lemma_items_ok_prefix(o, j + 1, ret, funcs);
    } else {
        assert(o.subrange(0, j) =~= o);
    }
}

proof fn lemma_args_prefix(o: Seq<TypedExpr>, n: Seq<TypedExpr>, params: Seq<DataType>, j: int, span: Span, funcs: FuncMap, pool: StringPool)
    requires 0 <= j < o.len(), j < n.len(), o.len() == params.len(),
    ensures
        o.subrange(0, j + 1).subrange(0, j) == o.subrange(0, j),
        n.subrange(0, j + 1).subrange(0, j) == n.subrange(0, j),
        params.subrange(0, j + 1).subrange(0, j) == params.subrange(0, j),
        args_ok(o.subrange(0, j + 1), params.subrange(0, j + 1), funcs) == (
            args_ok(o.subrange(0, j), params.subrange(0, j), funcs) && match expr_type(o[j], funcs) {
                Some(t) => convertible(params[j], t),
                None => false,
            }),
        args_typed(o.subrange(0, j + 1), n.subrange(0, j + 1), params.subrange(0, j + 1), span, funcs) == (
            args_typed(o.subrange(0, j), n.subrange(0, j), params.subrange(0, j), span, funcs)
            && casted(o[j], n[j], params[j], span, funcs)),
        args_untyped_ok(o.subrange(0, j + 1), funcs, pool) == (
            args_untyped_ok(o.subrange(0, j), funcs, pool) && untyped_ok(o[j], funcs, pool)),
{
    assert(o.subrange(0, j + 1).subrange(0, j) =~= o.subrange(0, j));
    assert(n.subrange(0, j + 1).subrange(0, j) =~= n.subrange(0, j));
    assert(params.subrange(0, j + 1).subrange(0, j) =~= params.subrange(0, j));
}

proof fn lemma_args_untyped_all(o: Seq<TypedExpr>, j: int, funcs: FuncMap, pool: StringPool)
    requires 0 <= j <= o.len(), args_untyped_ok(o, funcs, pool),
    ensures args_untyped_ok(o.subrange(0, j), funcs, pool), forall|k: int| j <= k < o.len() ==> untyped_ok(#[trigger] o[k], funcs, pool),
    decreases o.len() - j,
{
    if j < o.len() {
        lemma_args_untyped_all(o, j + 1, funcs, pool);
        lemma_args_prefix(o, o, o.map_values(|a: TypedExpr| DataType::Int), j, Span { line: 0, column: 0, length: None }, funcs, pool);
    } else {
        assert(o.subrange(0, j) =~= o);
    }
}

proof fn lemma_args_ok_prefix(o: Seq<TypedExpr>, params: Seq<DataType>, j: int, funcs: FuncMap, pool: StringPool)
    requires 0 <= j <= o.len(), o.len() == params.len(), !args_ok(o.subrange(0, j), params.subrange(0, j), funcs),
    ensures !args_ok(o, params, funcs),
    decreases o.len() - j,
{
    if j < o.len() {
        lemma_args_prefix(o, o, params, j, Span { line: 0, column: 0, length: None }, funcs, pool);
        lemma_args_ok_prefix(o, params, j + 1, funcs, pool);
    } else {
        assert(o.subrange(0, j) =~= o);
        assert(params.subrange(0, j) =~= params);
    }
}


proof fn lemma_args_untyped_prefix_false(o: Seq<TypedExpr>, j: int, funcs: FuncMap, pool: StringPool)
    requires 0 <= j <= o.len(), !args_untyped_ok(o.subrange(0, j), funcs, pool),
    ensures !args_untyped_ok(o, funcs, pool),
    decreases o.len() - j,
{
    if j < o.len() {
        lemma_args_prefix(o, o, o.map_values(|a: TypedExpr| DataType::Int), j, Span { line: 0, column: 0, length: None }, funcs, pool);
        lemma_args_untyped_prefix_false(o, j + 1, funcs, pool);
    } else {
        assert(o.subrange(0, j) =~= o);
    }
}

proof fn lemma_items_untyped_prefix_false(o: Seq<BlockItem>, j: int, funcs: FuncMap, pool: StringPool)
    requires 0 <= j <= o.len(), !items_untyped_ok(o.subrange(0, j), funcs, pool),
    ensures !items_untyped_ok(o, funcs, pool),
    decreases o.len() - j,
{
    if j < o.len() {
        lemma_items_prefix(o, o, j, DataType::Int, funcs, pool);
        lemma_items_untyped_prefix_false(o, j + 1, funcs, pool);
    } else {
        assert(o.subrange(0, j) =~= o);
    }
}

/// Converts a typed expression to `target`, wrapping it in a cast where its
/// type differs.
pub fn try_cast(target: DataType, expr: TypedExpr, span: Span) -> (r: Result<TypedExpr>)
    requires target != DataType::Indeterminate, expr.type_ != DataType::Indeterminate,
    ensures
        convertible(target, expr.type_) ==> (r matches Ok(n) && if expr.type_ == target {
            n == expr
        } else {
            &&& n.type_ == target
            &&& n.untyped matches Expr::Cast { target: t2, expr: inner, span: s2 }
            &&& t2 == target && s2 == span && *inner == expr
        }),
        !convertible(target, expr.type_) ==> (r matches Err(e) && e is Semantic),
{
    if target == expr.type_ {
        return Ok(expr);
    }
    match target.common(&expr.type_, span.copy()) {
        Ok(_) => Ok(TypedExpr {
            untyped: Expr::Cast { target, expr: Box::new(expr), span },
            type_: target,
        }),
        Err(_) => {
            let mut msg: Vec<char> = Vec::new();
            crate::text::push_str(&mut msg, "Cannot cast from ");
            expr.type_.push_name(&mut msg);
            crate::text::push_str(&mut msg, " to ");
            target.push_name(&mut msg);
            Err(Error::semantic(crate::text::string_from_chars(&msg), span))
        },
    }
}

/// The type checking pass: the function symbols and names of the program,
/// and the return type of the function being checked.
pub struct TypeChecker<'a> {
    pub cur_return_type: Option<DataType>,
    pub func_defs: &'a Vec<(StrDescriptor, FuncSymbol)>,
    pub strtb: &'a StringPool,
}

impl<'a> TypeChecker<'a> {
    pub open spec fn funcs(&self) -> FuncMap {
        as_map(self.func_defs@)
    }

    pub open spec fn wf(&self) -> bool {
        keys_unique(self.func_defs@)
    }

    pub fn new(func_defs: &'a Vec<(StrDescriptor, FuncSymbol)>, strtb: &'a StringPool) -> (r: Self)
        ensures r.func_defs == func_defs, r.strtb == strtb, r.cur_return_type is None,
    {
        Self { func_defs, strtb, cur_return_type: None }
    }

    /// Converts the initial value of a file-scope variable to the variable's type.
    pub fn type_static_var(&mut self, static_var: StaticVar) -> (r: Result<StaticVar>)
        requires static_var.data_type.is_sized(),
        ensures
            r matches Ok(v) && v.name == static_var.name && v.data_type == static_var.data_type
                && v.linkage == static_var.linkage
                && v.initializer == match static_var.initializer {
                    crate::common::InitVal::Const(c) => crate::common::InitVal::Const(c.spec_convert(static_var.data_type)),
                    init => init,
                },
    {
        let mut static_var = static_var;
        match static_var.initializer {
            crate::common::InitVal::Const(constant) => {
                static_var.initializer = crate::common::InitVal::Const(constant.convert(static_var.data_type));
                Ok(static_var)
            },
            _ => Ok(static_var),
        }
    }

    /// Types an expression.
    #[verifier::rlimit(60)]
    pub fn type_expr(&mut self, expr: TypedExpr) -> (r: Result<TypedExpr>)
        requires old(self).wf(), untyped_ok(expr, old(self).funcs(), *old(self).strtb),
        ensures
            final(self).func_defs == old(self).func_defs,
            final(self).strtb == old(self).strtb,
            final(self).cur_return_type == old(self).cur_return_type,
            match expr_type(expr, old(self).funcs()) {
                Some(t) => r matches Ok(n) && typed_as(expr, n, old(self).funcs()) && n.type_ == t
                    && t != DataType::Indeterminate,
                None => r matches Err(e) && e is Semantic,
            },
        decreases expr,
    {
        let ghost funcs = self.funcs();
        let ghost e0 = expr;
        match expr.untyped {
            Expr::IntegerLiteral(constant) => {
                let t = match constant {
                    Constant::Int(_) => DataType::Int,
                    Constant::Long(_) => DataType::Long,
                };
                Ok(TypedExpr { untyped: Expr::IntegerLiteral(constant), type_: t })
            },
            Expr::Var(var) => {
                let t = var.data_type();
                Ok(TypedExpr { untyped: Expr::Var(var), type_: t })
            },
            Expr::Cast { target, expr: inner, span } => {
                let typed = self.type_expr(*inner)?;
                let r = try_cast(target, typed, span);
                proof {
                    if r is Ok {
                        assert(casted(*e0.untyped->Cast_expr, r->Ok_0, target, span, funcs));
                    }
                }
                r
            },
            Expr::Group(inner) => {
                let typed = self.type_expr(*inner)?;
                let t = typed.type_;
                Ok(TypedExpr { untyped: Expr::Group(Box::new(typed)), type_: t })
            },
            Expr::Unary((op, span), inner) => {
                let typed = self.type_expr(*inner)?;
                let t = match op {
                    UnaryOp::Not => DataType::Int,
                    _ => typed.type_,
                };
                Ok(TypedExpr { untyped: Expr::Unary((op, span), Box::new(typed)), type_: t })
            },
            Expr::Binary { op: (op, span), left, right } => {
                let typed_left = self.type_expr(*left)?;
                let typed_right = self.type_expr(*right)?;
                match op {
                    BinaryOp::And | BinaryOp::Or => {
                        return Ok(TypedExpr {
                            untyped: Expr::Binary { op: (op, span), left: Box::new(typed_left), right: Box::new(typed_right) },
                            type_: DataType::Int,
                        });
                    },
                    _ => {},
                }
                let super_type = typed_left.type_.common(&typed_right.type_, span.copy())?;
                let unified_left = try_cast(super_type, typed_left, span.copy())?;
                let unified_right = try_cast(super_type, typed_right, span.copy())?;
                proof {
                    assert(casted(*e0.untyped->Binary_left, unified_left, super_type, span, funcs));
                    assert(casted(*e0.untyped->Binary_right, unified_right, super_type, span, funcs));
                }
                let t = if op.is_arithmetic() { super_type } else { DataType::Int };
                Ok(TypedExpr {
                    untyped: Expr::Binary { op: (op, span), left: Box::new(unified_left), right: Box::new(unified_right) },
                    type_: t,
                })
            },
            Expr::Assignment { span, left, right } => {
                let typed_left = self.type_expr(*left)?;
                let typed_right = self.type_expr(*right)?;
                let t = typed_left.type_;
                let unified_right = try_cast(t, typed_right, span.copy())?;
                proof { assert(casted(*e0.untyped->Assignment_right, unified_right, t, span, funcs)); }
                Ok(TypedExpr {
                    untyped: Expr::Assignment { span, left: Box::new(typed_left), right: Box::new(unified_right) },
                    type_: t,
                })
            },
            Expr::Ternary { condition, then_expr, else_expr, span } => {
                let typed_condition = self.type_expr(*condition)?;
                let typed_then = self.type_expr(*then_expr)?;
                let typed_else = self.type_expr(*else_expr)?;
                let super_type = typed_then.type_.common(&typed_else.type_, span.copy())?;
                let unified_then = try_cast(super_type, typed_then, span.copy())?;
                let unified_else = try_cast(super_type, typed_else, span.copy())?;
                proof {
                    assert(casted(*e0.untyped->Ternary_then_expr, unified_then, super_type, span, funcs));
                    assert(casted(*e0.untyped->Ternary_else_expr, unified_else, super_type, span, funcs));
                }
                Ok(TypedExpr {
                    untyped: Expr::Ternary {
                        span,
                        condition: Box::new(typed_condition),
                        then_expr: Box::new(unified_then),
                        else_expr: Box::new(unified_else),
                    },
                    type_: super_type,
                })
            },
            Expr::FuncCall { name, span, args } => {
                let i = match find_key(self.func_defs, name) {
                    Some(i) => i,
                    None => {
                        proof { assert(false); }
                        return Err(Error::Unimplemented);
                    },
                };
                proof { lemma_as_map_index(self.func_defs@, i as int); }
                let func_defs = self.func_defs;
                let params = &func_defs[i].1.type_.param_types;
                let return_type = func_defs[i].1.type_.return_type;
                let ghost orig = args@;
                if params.len() != args.len() {
                    proof {
                        assert(funcs.contains_key(name));
                        assert(funcs[name].type_.param_types@ == params@);
                        assert(!args_ok(args@, params@, funcs));
                    }
                    let mut msg: Vec<char> = Vec::new();
                    crate::text::push_str(&mut msg, "Function '");
                    self.strtb.push_name(name, &mut msg);
                    crate::text::push_str(&mut msg, "' expects ");
                    crate::text::push_nat(&mut msg, params.len() as u64);
                    crate::text::push_str(&mut msg, " arguments, but got ");
                    crate::text::push_nat(&mut msg, args.len() as u64);
                    crate::text::push_str(&mut msg, ".");
                    return Err(Error::semantic(crate::text::string_from_chars(&msg), span));
                }
                let mut rest = args;
                let mut unified_args: Vec<TypedExpr> = Vec::new();
                let mut j: usize = 0;
                proof { lemma_args_untyped_all(orig, 0, funcs, *self.strtb); }
                while j < params.len()
                    invariant
                        j <= params@.len(),
                        params@.len() == orig.len(),
                        params@ == funcs[name].type_.param_types@,
                        func_determinate(funcs[name]),
                        e0.untyped is FuncCall && e0.untyped->FuncCall_args@ == orig,
                        e0 == expr,
                        e0.untyped->FuncCall_name == name,
                        e0.untyped->FuncCall_span == span,
                        funcs.contains_key(name),
                        return_type == funcs[name].type_.return_type,
                        rest@ == orig.subrange(j as int, orig.len() as int),
                        forall|k: int| 0 <= k < orig.len() ==> untyped_ok(#[trigger] orig[k], funcs, *self.strtb),
                        args_ok(orig.subrange(0, j as int), params@.subrange(0, j as int), funcs),
                        args_typed(orig.subrange(0, j as int), unified_args@, params@.subrange(0, j as int), span, funcs),
                        self.wf(),
                        self.funcs() == funcs,
                        self.func_defs == old(self).func_defs,
                        self.strtb == old(self).strtb,
                        self.cur_return_type == old(self).cur_return_type,
                    decreases params@.len() - j,
                {
                    let arg = rest.remove(0);
                    proof {
                        assert(arg == orig[j as int]);
                        assert(decreases_to!(e0 => e0.untyped));
                        assert(decreases_to!(e0.untyped => e0.untyped->FuncCall_args));
                        assert(decreases_to!(e0.untyped->FuncCall_args => e0.untyped->FuncCall_args@));
                        assert(decreases_to!(e0.untyped->FuncCall_args@ => e0.untyped->FuncCall_args@[j as int]));
                        assert(rest@ =~= orig.subrange(j as int + 1, orig.len() as int));
                    }
                    let typed_arg = match self.type_expr(arg) {
                        Ok(a) => a,
                        Err(e) => {
                            proof {
                                lemma_args_prefix(orig, orig, params@, j as int, span, funcs, *self.strtb);
                                lemma_args_ok_prefix(orig, params@, j as int + 1, funcs, *self.strtb);
                            }
                            return Err(e);
                        },
                    };
                    let unified = match try_cast(params[j], typed_arg, span.copy()) {
                        Ok(u) => u,
                        Err(e) => {
                            proof {
                                lemma_args_prefix(orig, orig, params@, j as int, span, funcs, *self.strtb);
                                lemma_args_ok_prefix(orig, params@, j as int + 1, funcs, *self.strtb);
                            }
                            return Err(e);
                        },
                    };
                    proof { assert(casted(orig[j as int], unified, params@[j as int], span, funcs)); }
                    let ghost before = unified_args@;
                    unified_args.push(unified);
                    proof {
                        assert(unified_args@.subrange(0, j as int) =~= before);
                        lemma_args_prefix(orig, unified_args@, params@, j as int, span, funcs, *self.strtb);
                        assert(unified_args@.subrange(0, j as int + 1) =~= unified_args@);
                    }
                    j = j + 1;
                }
                proof {
                    assert(orig.subrange(0, j as int) =~= orig);
                    assert(params@.subrange(0, j as int) =~= params@);
                }
                Ok(TypedExpr {
                    untyped: Expr::FuncCall { name, span, args: unified_args },
                    type_: return_type,
                })
            },
        }
    }

    /// Types a declaration of a local variable: its initial value is
    /// converted to the declared type.
    pub fn type_local_var_decl(&mut self, decl: LocalVarDecl) -> (r: Result<LocalVarDecl>)
        requires old(self).wf(), decl_untyped_ok(decl, old(self).funcs(), *old(self).strtb),
        ensures
            final(self).func_defs == old(self).func_defs,
            final(self).strtb == old(self).strtb,
            final(self).cur_return_type == old(self).cur_return_type,
            decl_ok(decl, old(self).funcs()) ==> (r matches Ok(d) && decl_typed(decl, d, old(self).funcs())),
            !decl_ok(decl, old(self).funcs()) ==> (r matches Err(e) && e is Semantic),
    {
        let LocalVarDecl { name, data_type, local_id, span, initializer } = decl;
        match initializer {
            Some(init) => {
                let typed = self.type_expr(init)?;
                let unified = try_cast(data_type, typed, span.copy())?;
                proof { assert(casted(decl.initializer->0, unified, data_type, span, self.funcs())); }
                Ok(LocalVarDecl { name, data_type, local_id, span, initializer: Some(unified) })
            },
            None => Ok(LocalVarDecl { name, data_type, local_id, span, initializer: None }),
        }
    }

    pub fn type_for_init(&mut self, init: ForInit) -> (r: Result<ForInit>)
        requires old(self).wf(), for_init_untyped_ok(init, old(self).funcs(), *old(self).strtb),
        ensures
            final(self).func_defs == old(self).func_defs,
            final(self).strtb == old(self).strtb,
            final(self).cur_return_type == old(self).cur_return_type,
            for_init_ok(init, old(self).funcs()) ==> (r matches Ok(i) && for_init_typed(init, i, old(self).funcs())),
            !for_init_ok(init, old(self).funcs()) ==> (r matches Err(e) && e is Semantic),
    {
        match init {
            ForInit::Declaration(decl) => Ok(ForInit::Declaration(self.type_local_var_decl(decl)?)),
            ForInit::Expression(expr) => Ok(ForInit::Expression(Box::new(self.type_expr(*expr)?))),
        }
    }

    pub fn type_block_item(&mut self, item: BlockItem) -> (r: Result<BlockItem>)
        requires
            old(self).wf(),
            old(self).cur_return_type matches Some(t) && t != DataType::Indeterminate,
            item_untyped_ok(item, old(self).funcs(), *old(self).strtb),
        ensures
            final(self).func_defs == old(self).func_defs,
            final(self).strtb == old(self).strtb,
            final(self).cur_return_type == old(self).cur_return_type,
            item_ok(item, old(self).cur_return_type->0, old(self).funcs())
                ==> (r matches Ok(i) && item_typed(item, i, old(self).cur_return_type->0, old(self).funcs())),
            !item_ok(item, old(self).cur_return_type->0, old(self).funcs()) ==> (r matches Err(e) && e is Semantic),
        decreases item, 0nat,
    {
        match item {
            BlockItem::Declaration(decl) => Ok(BlockItem::Declaration(self.type_local_var_decl(decl)?)),
            BlockItem::Statement(stmt) => Ok(BlockItem::Statement(self.type_stmt(stmt)?)),
        }
    }

    /// Types the block items in order; the first error stops it.
    fn type_items(&mut self, items: Vec<BlockItem>) -> (r: Result<Vec<BlockItem>>)
        requires
            old(self).wf(),
            old(self).cur_return_type matches Some(t) && t != DataType::Indeterminate,
            items_untyped_ok(items@, old(self).funcs(), *old(self).strtb),
        ensures
            final(self).func_defs == old(self).func_defs,
            final(self).strtb == old(self).strtb,
            final(self).cur_return_type == old(self).cur_return_type,
            items_ok(items@, old(self).cur_return_type->0, old(self).funcs())
                ==> (r matches Ok(v) && items_typed(items@, v@, old(self).cur_return_type->0, old(self).funcs())),
            !items_ok(items@, old(self).cur_return_type->0, old(self).funcs()) ==> (r matches Err(e) && e is Semantic),
        decreases items, 1nat,
    {
        let ghost funcs = self.funcs();
        let ghost ret = self.cur_return_type->0;
        let ghost orig = items@;
        let ghost i0 = items;
        proof { lemma_items_untyped_all(orig, 0, funcs, *self.strtb); }
        let n = items.len();
        let mut rest = items;
        let mut typed: Vec<BlockItem> = Vec::new();
        let mut j: usize = 0;
        while j < n
            invariant
                j <= n, n == orig.len(),
                i0 == items, i0@ == orig,
                rest@ == orig.subrange(j as int, n as int),
                forall|k: int| 0 <= k < orig.len() ==> item_untyped_ok(#[trigger] orig[k], funcs, *self.strtb),
                items_ok(orig.subrange(0, j as int), ret, funcs),
                items_typed(orig.subrange(0, j as int), typed@, ret, funcs),
                self.wf(),
                self.funcs() == funcs,
                self.cur_return_type == Some(ret), ret != DataType::Indeterminate,
                self.func_defs == old(self).func_defs,
                self.strtb == old(self).strtb,
                self.cur_return_type == old(self).cur_return_type,
            decreases n - j,
        {
            let item = rest.remove(0);
            proof {
                assert(item == orig[j as int]);
                assert(decreases_to!(i0 => i0@));
                assert(decreases_to!(i0@ => i0@[j as int]));
                assert(rest@ =~= orig.subrange(j as int + 1, n as int));
            }
            let typed_item = match self.type_block_item(item) {
                Ok(t) => t,
                Err(e) => {
                    proof {
                        lemma_items_prefix(orig, orig, j as int, ret, funcs, *self.strtb);
                        lemma_items_ok_prefix(orig, j as int + 1, ret, funcs);
                    }
                    return Err(e);
                },
            };
            let ghost before = typed@;
            typed.push(typed_item);
            proof {
                assert(typed@.subrange(0, j as int) =~= before);
                lemma_items_prefix(orig, typed@, j as int, ret, funcs, *self.strtb);
                assert(typed@.subrange(0, j as int + 1) =~= typed@);
            }
            j = j + 1;
        }
        proof { assert(orig.subrange(0, j as int) =~= orig); }
        Ok(typed)
    }

    /// Types a statement of the function being checked.
    #[verifier::rlimit(40)]
    pub fn type_stmt(&mut self, stmt: Stmt) -> (r: Result<Stmt>)
        requires
            old(self).wf(),
            old(self).cur_return_type matches Some(t) && t != DataType::Indeterminate,
            stmt_untyped_ok(stmt, old(self).funcs(), *old(self).strtb),
        ensures
            final(self).func_defs == old(self).func_defs,
            final(self).strtb == old(self).strtb,
            final(self).cur_return_type == old(self).cur_return_type,
            stmt_ok(stmt, old(self).cur_return_type->0, old(self).funcs())
                ==> (r matches Ok(s) && stmt_typed(stmt, s, old(self).cur_return_type->0, old(self).funcs())),
            !stmt_ok(stmt, old(self).cur_return_type->0, old(self).funcs()) ==> (r matches Err(e) && e is Semantic),
        decreases stmt, 2nat,
    {
        let ghost funcs = self.funcs();
        let ghost s0 = stmt;
        match stmt {
            Stmt::Compound(block) => Ok(Stmt::Compound(self.type_items(block)?)),
            Stmt::While { body, controller, span, loop_label } => {
                let typed_body = self.type_stmt(*body)?;
                let typed_controller = self.type_expr(*controller)?;
                Ok(Stmt::While { body: Box::new(typed_body), controller: Box::new(typed_controller), span, loop_label })
            },
            Stmt::DoWhile { body, controller, span, loop_label } => {
                let typed_body = self.type_stmt(*body)?;
                let typed_controller = self.type_expr(*controller)?;
                Ok(Stmt::DoWhile { body: Box::new(typed_body), controller: Box::new(typed_controller), span, loop_label })
            },
            Stmt::For { body, controller, initializer, post, loop_label, span } => {
                let typed_body = self.type_stmt(*body)?;
                let typed_controller = match controller {
                    Some(c) => Some(Box::new(self.type_expr(*c)?)),
                    None => None,
                };
                let typed_init = match initializer {
                    Some(i) => Some(Box::new(self.type_for_init(*i)?)),
                    None => None,
                };
                let typed_post = match post {
                    Some(p) => Some(Box::new(self.type_expr(*p)?)),
                    None => None,
                };
                Ok(Stmt::For {
                    body: Box::new(typed_body),
                    controller: typed_controller,
                    initializer: typed_init,
                    post: typed_post,
                    loop_label,
                    span,
                })
            },
            Stmt::Return { span, expr } => {
                let typed = self.type_expr(*expr)?;
                let ret = match self.cur_return_type {
                    Some(t) => t,
                    None => return Err(Error::Unimplemented),
                };
                let unified = try_cast(ret, typed, span.copy())?;
                proof { assert(casted(*s0->Return_expr, unified, ret, span, funcs)); }
                Ok(Stmt::Return { span, expr: Box::new(unified) })
            },
            Stmt::Expr(expr) => Ok(Stmt::Expr(Box::new(self.type_expr(*expr)?))),
            Stmt::If { condition, then_branch, else_branch } => {
                let typed_condition = self.type_expr(*condition)?;
                let typed_then = self.type_stmt(*then_branch)?;
                let typed_else = match else_branch {
                    Some(e) => Some(Box::new(self.type_stmt(*e)?)),
                    None => None,
                };
                Ok(Stmt::If { condition: Box::new(typed_condition), then_branch: Box::new(typed_then), else_branch: typed_else })
            },
            Stmt::Break { span, loop_label } => Ok(Stmt::Break { span, loop_label }),
            Stmt::Continue { span, loop_label } => Ok(Stmt::Continue { span, loop_label }),
            Stmt::Nil => Ok(Stmt::Nil),
        }
    }

    /// Types the body of a function; a function without a body is unchanged.
    pub fn type_function(&mut self, func: Function) -> (r: Result<Function>)
        requires
            old(self).wf(),
            func.type_.return_type != DataType::Indeterminate,
            func.body matches Some(items) ==> items_untyped_ok(items@, old(self).funcs(), *old(self).strtb),
        ensures
            final(self).func_defs == old(self).func_defs,
            final(self).strtb == old(self).strtb,
            func.body is Some ==> final(self).cur_return_type is None,
            func.body is None ==> final(self).cur_return_type == old(self).cur_return_type,
            match func.body {
                None => r == Ok::<Function, Error>(func),
                Some(items) => {
                    &&& items_ok(items@, func.type_.return_type, old(self).funcs()) ==> (r matches Ok(f)
                        && f.name == func.name && f.params == func.params && f.type_ == func.type_
                        && f.linkage == func.linkage
                        && (f.body matches Some(b) && items_typed(items@, b@, func.type_.return_type, old(self).funcs())))
                    &&& !items_ok(items@, func.type_.return_type, old(self).funcs()) ==> (r matches Err(e) && e is Semantic)
                },
            },
    {
        let Function { name, params, type_, linkage, body } = func;
        match body {
            None => Ok(Function { name, params, type_, linkage, body: None }),
            Some(items) => {
                self.cur_return_type = Some(type_.return_type);
                let typed = self.type_items(items);
                self.cur_return_type = None;
                let typed = typed?;
                Ok(Function { name, params, type_, linkage, body: Some(typed) })
            },
        }
    }

    /// Whether the function named `name` is known and its type fully known.
    #[verifier::loop_isolation(false)]
    fn check_func(&self, name: StrDescriptor) -> (r: bool)
        requires self.wf(),
        ensures r == (self.funcs().contains_key(name) && func_determinate(self.funcs()[name])),
    {
        match find_key(self.func_defs, name) {
            Some(i) => {
                proof { lemma_as_map_index(self.func_defs@, i as int); }
                let t = &self.func_defs[i].1.type_;
                if t.return_type == DataType::Indeterminate {
                    return false;
                }
                let mut k: usize = 0;
                while k < t.param_types.len()
                    invariant
                        k <= t.param_types@.len(),
                        forall|m: int| 0 <= m < k ==> t.param_types@[m] != DataType::Indeterminate,
                    decreases t.param_types@.len() - k,
                {
                    if t.param_types[k] == DataType::Indeterminate {
                        return false;
                    }
                    k = k + 1;
                }
                true
            },
            None => {
                proof {
                    if self.funcs().contains_key(name) {
                        let j = choose|j: int| 0 <= j < self.func_defs@.len() && self.func_defs@[j].0 == name;
                        assert(self.func_defs@[j].0 == name);
                    }
                }
                false
            },
        }
    }

    /// Whether an expression is as name resolution leaves it (see `untyped_ok`).
    pub fn check_untyped_expr(&self, e: &TypedExpr) -> (r: bool)
        requires self.wf(),
        ensures r == untyped_ok(*e, self.funcs(), *self.strtb),
        decreases e,
    {
        if e.type_ != DataType::Indeterminate {
            return false;
        }
        match &e.untyped {
            Expr::IntegerLiteral(_) => true,
            Expr::Var(v) => v.data_type() != DataType::Indeterminate,
            Expr::Cast { target, expr, .. } => *target != DataType::Indeterminate && self.check_untyped_expr(expr),
            Expr::Group(inner) => self.check_untyped_expr(inner),
            Expr::Unary(_, inner) => self.check_untyped_expr(inner),
            Expr::Binary { left, right, .. } => self.check_untyped_expr(left) && self.check_untyped_expr(right),
            Expr::Assignment { left, right, .. } => self.check_untyped_expr(left) && self.check_untyped_expr(right),
            Expr::Ternary { condition, then_expr, else_expr, .. } =>
                self.check_untyped_expr(condition) && self.check_untyped_expr(then_expr) && self.check_untyped_expr(else_expr),
            Expr::FuncCall { name, args, .. } => {
                if !self.check_func(*name) || self.strtb.get(*name).is_none() {
                    return false;
                }
                let mut j: usize = 0;
                while j < args.len()
                    invariant
                        j <= args@.len(),
                        self.wf(),
                        e.untyped is FuncCall && e.untyped->FuncCall_args == *args,
                        args_untyped_ok(args@.subrange(0, j as int), self.funcs(), *self.strtb),
                    decreases args@.len() - j,
                {
                    proof {
                        assert(decreases_to!(*e => e.untyped));
                        assert(decreases_to!(e.untyped => e.untyped->FuncCall_args));
                        assert(decreases_to!(e.untyped->FuncCall_args => e.untyped->FuncCall_args@));
                        assert(decreases_to!(e.untyped->FuncCall_args@ => e.untyped->FuncCall_args@[j as int]));
                        lemma_args_prefix(args@, args@, args@.map_values(|a: TypedExpr| DataType::Int), j as int,
                            Span { line: 0, column: 0, length: None }, self.funcs(), *self.strtb);
                    }
                    if !self.check_untyped_expr(&args[j]) {
                        proof { lemma_args_untyped_prefix_false(args@, j as int + 1, self.funcs(), *self.strtb); }
                        return false;
                    }
                    j = j + 1;
                }
                proof { assert(args@.subrange(0, j as int) =~= args@); }
                true
            },
        }
    }

    pub fn check_untyped_decl(&self, d: &LocalVarDecl) -> (r: bool)
        requires self.wf(),
        ensures r == decl_untyped_ok(*d, self.funcs(), *self.strtb),
    {
        d.data_type != DataType::Indeterminate && match &d.initializer {
            Some(e) => self.check_untyped_expr(e),
            None => true,
        }
    }

    /// Whether a statement is as name resolution leaves it (see `stmt_untyped_ok`).
    pub fn check_untyped_stmt(&self, s: &Stmt) -> (r: bool)
        requires self.wf(),
        ensures r == stmt_untyped_ok(*s, self.funcs(), *self.strtb),
        decreases s, 1nat,
    {
        match s {
            Stmt::Compound(items) => self.check_untyped_items(items),
            Stmt::While { controller, body, .. } => self.check_untyped_expr(controller) && self.check_untyped_stmt(body),
            Stmt::DoWhile { controller, body, .. } => self.check_untyped_expr(controller) && self.check_untyped_stmt(body),
            Stmt::For { initializer, controller, post, body, .. } => {
                let body_ok = self.check_untyped_stmt(body);
                let controller_ok = match controller {
                    Some(c) => self.check_untyped_expr(c),
                    None => true,
                };
                let init_ok = match initializer {
                    Some(i) => match &**i {
                        ForInit::Declaration(d) => self.check_untyped_decl(d),
                        ForInit::Expression(e) => self.check_untyped_expr(e),
                    },
                    None => true,
                };
                let post_ok = match post {
                    Some(p) => self.check_untyped_expr(p),
                    None => true,
                };
                body_ok && controller_ok && init_ok && post_ok
            },
            Stmt::Return { expr, .. } => self.check_untyped_expr(expr),
            Stmt::Expr(e) => self.check_untyped_expr(e),
            Stmt::If { condition, then_branch, else_branch } => {
                let else_ok = match else_branch {
                    Some(e) => self.check_untyped_stmt(e),
                    None => true,
                };
                self.check_untyped_expr(condition) && self.check_untyped_stmt(then_branch) && else_ok
            },
            _ => true,
        }
    }

    /// Whether block items are as name resolution leaves them.
    pub fn check_untyped_items(&self, items: &Vec<BlockItem>) -> (r: bool)
        requires self.wf(),
        ensures r == items_untyped_ok(items@, self.funcs(), *self.strtb),
        decreases items, 0nat,
    {
        let mut j: usize = 0;
        while j < items.len()
            invariant
                j <= items@.len(),
                self.wf(),
                items_untyped_ok(items@.subrange(0, j as int), self.funcs(), *self.strtb),
            decreases items@.len() - j,
        {
            proof {
                assert(decreases_to!(*items => items@));
                assert(decreases_to!(items@ => items@[j as int]));
                lemma_items_prefix(items@, items@, j as int, DataType::Int, self.funcs(), *self.strtb);
            }
            let ok = match &items[j] {
                BlockItem::Declaration(d) => self.check_untyped_decl(d),
                BlockItem::Statement(s) => self.check_untyped_stmt(s),
            };
            if !ok {
                proof { lemma_items_untyped_prefix_false(items@, j as int + 1, self.funcs(), *self.strtb); }
                return false;
            }
            j = j + 1;
        }
        proof { assert(items@.subrange(0, j as int) =~= items@); }
        true
    }
}

} // verus!
