//! The first pass of semantic analysis.
//! Resolves names, fills in the symbol table, and builds an incomplete HIR.

use vstd::prelude::*;
use crate::common::{
    Constant, DataType, Error, FuncType, InitVal, Linkage, Span, StorageClass, StrDescriptor, StringPool,
};
use crate::ast::{AstDecl, AstBlockItem, AstStmt, AstExpr, AstForInit, AstParam};
use super::hir::{
    Function, StaticVar, Param, LocalVarDecl, BlockItem, Stmt, ForInit, TypedExpr, Expr, UnaryOp, BinaryOp, Variable,
};
use super::symtb::{SymbolTable, SymError, SymbolType, CommonVar, CommonSymbol, linkage_of};

verus! {

/// The name-resolution pass: the symbol table and the functions and file-scope
/// variables found so far.
#[derive(Debug)]
pub struct Parser {
    pub symtb: SymbolTable,
    pub label_counter: usize,
    pub loop_labels: Vec<usize>,
    pub local_var_id_counter: usize,
    pub functions: Vec<Function>,
    pub static_vars: Vec<StaticVar>,
}

/// The position of the function with the given name.
fn find_function(functions: &Vec<Function>, name: StrDescriptor) -> (r: Option<usize>)
    ensures
        match r {
            Some(i) => first_function(functions@, name, i as int),
            None => forall|j: int| 0 <= j < functions@.len() ==> functions@[j].name != name,
        },
{
    let mut i: usize = 0;
    while i < functions.len()
        invariant i <= functions.len(), forall|j: int| 0 <= j < i ==> functions@[j].name != name,
        decreases functions.len() - i,
    {
        if functions[i].name == name {
            return Some(i);
        }
        i = i + 1;
    }
    None
}

/// The position of the static variable with the given name.
fn find_static_var(vars: &Vec<StaticVar>, name: StrDescriptor) -> (r: Option<usize>)
    ensures
        match r {
            Some(i) => first_static(vars@, name, i as int),
            None => forall|j: int| 0 <= j < vars@.len() ==> vars@[j].name != name,
        },
{
    let mut i: usize = 0;
    while i < vars.len()
        invariant i <= vars.len(), forall|j: int| 0 <= j < i ==> vars@[j].name != name,
        decreases vars.len() - i,
    {
        if vars[i].name == name {
            return Some(i);
        }
        i = i + 1;
    }
    None
}

/// The resolved variable of a name bound to `var`.
fn variable_of(name: StrDescriptor, var: CommonVar) -> (r: Variable)
    ensures
        match var.local_id {
            Some(id) => r == Variable::Local { name, local_id: id, data_type: var.data_type },
            None => r == Variable::Static { name, data_type: var.data_type },
        },
{
    match var.local_id {
        Some(local_id) => Variable::Local { name, local_id, data_type: var.data_type },
        None => Variable::Static { name, data_type: var.data_type },
    }
}

/// The variable that a name bound to `v` stands for.
pub open spec fn var_of(name: StrDescriptor, v: CommonVar) -> Variable {
    match v.local_id {
        Some(id) => Variable::Local { name, local_id: id, data_type: v.data_type },
        None => Variable::Static { name, data_type: v.data_type },
    }
}

/// Every name of the expression resolves in the scopes of `tb`: a variable
/// to a variable, a called name to a function, and only variables are assigned.
pub open spec fn expr_resolvable(tb: SymbolTable, e: AstExpr) -> bool
    decreases e,
{
    match e {
        AstExpr::IntegerLiteral(_) => true,
        AstExpr::Variable(n, _) => tb.binding(n) matches Some(CommonSymbol::Var(_)),
        AstExpr::Unary(_, inner) => expr_resolvable(tb, *inner),
        AstExpr::Binary { left, right, .. } => expr_resolvable(tb, *left) && expr_resolvable(tb, *right),
        AstExpr::Group(inner) => expr_resolvable(tb, *inner),
        AstExpr::Assignment { left, right, .. } => match *left {
            AstExpr::Variable(n, _) => (tb.binding(n) matches Some(CommonSymbol::Var(_))) && expr_resolvable(tb, *right),
            _ => false,
        },
        AstExpr::Ternary { condition, then_expr, else_expr, .. } =>
            expr_resolvable(tb, *condition) && expr_resolvable(tb, *then_expr) && expr_resolvable(tb, *else_expr),
        AstExpr::FuncCall { name, args, .. } => (tb.binding(name) matches Some(CommonSymbol::Func(_)))
            && forall|k: int| 0 <= k < args@.len() ==> expr_resolvable(tb, #[trigger] args@[k]),
        AstExpr::Cast { expr, .. } => expr_resolvable(tb, *expr),
    }
}

/// The error of looking up `n` as a variable in the scopes of `tb`.
pub open spec fn var_error(tb: SymbolTable, n: StrDescriptor) -> SymError {
    match tb.binding(n) {
        Some(CommonSymbol::Func(_)) => SymError::SymbolTypeMismatch { name: n, expected: SymbolType::Var, found: SymbolType::Func },
        _ => SymError::VarNotFound(n),
    }
}

/// The error of looking up `n` as a function in the scopes of `tb`.
pub open spec fn func_error(tb: SymbolTable, n: StrDescriptor) -> SymError {
    match tb.binding(n) {
        Some(CommonSymbol::Var(_)) => SymError::SymbolTypeMismatch { name: n, expected: SymbolType::Func, found: SymbolType::Var },
        _ => SymError::FuncNotFound(n),
    }
}

/// The first entry of `s` that is there, if any.
pub open spec fn first_some<A>(s: Seq<Option<A>>) -> Option<A>
    decreases s.len(),
{
    if s.len() == 0 { None } else if s[0] is Some { s[0] } else { first_some(s.drop_first()) }
}

proof fn lemma_first_some<A>(s: Seq<Option<A>>, j: int)
    requires 0 <= j <= s.len(), forall|k: int| 0 <= k < j ==> (#[trigger] s[k]) is None,
    ensures
        j < s.len() && s[j] is Some ==> first_some(s) == s[j],
        j == s.len() ==> first_some(s) is None,
    decreases j,
{
    if j > 0 {
        let t = s.drop_first();
        assert forall|k: int| 0 <= k < j - 1 implies (#[trigger] t[k]) is None by { assert(t[k] == s[k + 1]); }
        lemma_first_some(t, j - 1);
        if j < s.len() { assert(t[j - 1] == s[j]); }
    }
}

/// The errors that resolving each of `args` meets.
pub open spec fn args_errors(tb: SymbolTable, args: Seq<AstExpr>) -> Seq<Option<(SymError, Span)>>
    decreases args,
{
    Seq::new(args.len(), |k: int| if 0 <= k < args.len() { expr_error(tb, args[k]) } else { None })
}

/// The first error that resolving `e` in the scopes of `tb` meets, walking
/// the expression left to right, with the span it is reported at; `None`
/// when every name resolves.
pub open spec fn expr_error(tb: SymbolTable, e: AstExpr) -> Option<(SymError, Span)>
    decreases e,
{
    match e {
        AstExpr::IntegerLiteral(_) => None,
        AstExpr::Variable(n, sp) => if tb.binding(n) matches Some(CommonSymbol::Var(_)) { None } else { Some((var_error(tb, n), sp)) },
        AstExpr::Unary(_, inner) => expr_error(tb, *inner),
        AstExpr::Binary { left, right, .. } =>
            if expr_error(tb, *left) is Some { expr_error(tb, *left) } else { expr_error(tb, *right) },
        AstExpr::Group(inner) => expr_error(tb, *inner),
        AstExpr::Assignment { span, left, right } => match *left {
            AstExpr::Variable(n, vsp) => if tb.binding(n) matches Some(CommonSymbol::Var(_)) {
                expr_error(tb, *right)
            } else {
                Some((var_error(tb, n), vsp))
            },
            _ => Some((SymError::InvalidLValue, span)),
        },
        AstExpr::Ternary { condition, then_expr, else_expr, .. } =>
            if expr_error(tb, *condition) is Some { expr_error(tb, *condition) }
            else if expr_error(tb, *then_expr) is Some { expr_error(tb, *then_expr) }
            else { expr_error(tb, *else_expr) },
        AstExpr::FuncCall { name, span, args } =>
            if !(tb.binding(name) matches Some(CommonSymbol::Func(_))) {
                Some((func_error(tb, name), span))
            } else {
                first_some(args_errors(tb, args@))
            },
        AstExpr::Cast { expr, .. } => expr_error(tb, *expr),
    }
}

/// `r` is the expression `e` with its names resolved in the scopes of `tb`,
/// not yet typed.
pub open spec fn expr_resolved(tb: SymbolTable, e: AstExpr, r: TypedExpr) -> bool
    decreases e,
{
    &&& r.type_ == DataType::Indeterminate
    &&& match e {
        AstExpr::IntegerLiteral(c) => r.untyped == Expr::IntegerLiteral(c),
        AstExpr::Variable(n, _) => tb.binding(n) matches Some(CommonSymbol::Var(v)) && r.untyped == Expr::Var(var_of(n, v)),
        AstExpr::Unary((op, span), inner) => r.untyped matches Expr::Unary((o2, s2), ri)
            && o2 == UnaryOp::spec_from_ast(op) && s2 == span && expr_resolved(tb, *inner, *ri),
        AstExpr::Binary { op: (op, span), left, right } => r.untyped matches Expr::Binary { op: (o2, s2), left: l2, right: r2 }
            && o2 == BinaryOp::spec_from_ast(op) && s2 == span && expr_resolved(tb, *left, *l2) && expr_resolved(tb, *right, *r2),
        AstExpr::Group(inner) => r.untyped matches Expr::Group(ri) && expr_resolved(tb, *inner, *ri),
        AstExpr::Assignment { left, right, .. } => match *left {
            AstExpr::Variable(n, vspan) => tb.binding(n) matches Some(CommonSymbol::Var(v))
                && r.untyped matches Expr::Assignment { span: s2, left: l2, right: r2 }
                && s2 == vspan && l2.untyped == Expr::Var(var_of(n, v)) && l2.type_ == DataType::Indeterminate
                && expr_resolved(tb, *right, *r2),
            _ => false,
        },
        AstExpr::Ternary { span, condition, then_expr, else_expr } =>
            r.untyped matches Expr::Ternary { span: s2, condition: c2, then_expr: t2, else_expr: e2 }
            && s2 == span && expr_resolved(tb, *condition, *c2) && expr_resolved(tb, *then_expr, *t2) && expr_resolved(tb, *else_expr, *e2),
        AstExpr::FuncCall { name, span, args } => r.untyped matches Expr::FuncCall { name: n2, span: s2, args: a2 }
            && n2 == name && s2 == span && a2@.len() == args@.len()
            && forall|k: int| 0 <= k < args@.len() ==> expr_resolved(tb, #[trigger] args@[k], a2@[k]),
        AstExpr::Cast { target, expr, span } => r.untyped matches Expr::Cast { target: t2, expr: e2, span: s2 }
            && t2 == target && s2 == span && expr_resolved(tb, *expr, *e2),
    }
}

/// The `n` local ids counted from `a`.
pub open spec fn ids_from(a: int, n: int) -> Seq<usize> {
    Seq::new(n as nat, |i: int| (a + i) as usize)
}

proof fn lemma_ids_concat(a: int, n: int, m: int)
    requires 0 <= n, 0 <= m,
    ensures ids_from(a, n) + ids_from(a + n, m) == ids_from(a, n + m),
{
    assert(ids_from(a, n) + ids_from(a + n, m) =~= ids_from(a, n + m));
}

/// The local ids a statement declares, at any depth, in order.
pub open spec fn stmt_locals(s: Stmt) -> Seq<usize>
    decreases s,
{
    match s {
        Stmt::If { then_branch, else_branch, .. } => {
            let rest: Seq<usize> = match else_branch {
                Some(e) => stmt_locals(*e),
                None => Seq::empty(),
            };
            stmt_locals(*then_branch) + rest
        },
        Stmt::While { body, .. } => stmt_locals(*body),
        Stmt::DoWhile { body, .. } => stmt_locals(*body),
        Stmt::For { initializer, body, .. } => {
            let init: Seq<usize> = match initializer {
                Some(i) => for_init_locals(*i),
                None => Seq::empty(),
            };
            init + stmt_locals(*body)
        },
        Stmt::Compound(items) => items_locals(items@),
        _ => Seq::empty(),
    }
}

/// The local id a `for` initializer declares, if any.
pub open spec fn for_init_locals(i: ForInit) -> Seq<usize> {
    match i {
        ForInit::Declaration(d) => seq![d.local_id],
        ForInit::Expression(_) => Seq::empty(),
    }
}

/// The local ids a block item declares, at any depth, in order.
pub open spec fn item_locals(i: BlockItem) -> Seq<usize>
    decreases i,
{
    match i {
        BlockItem::Declaration(d) => seq![d.local_id],
        BlockItem::Statement(s) => stmt_locals(s),
    }
}

/// The local ids block items declare, at any depth, in order.
pub open spec fn items_locals(items: Seq<BlockItem>) -> Seq<usize>
    decreases items,
{
    if items.len() == 0 {
        Seq::empty()
    } else {
        items_locals(items.drop_last()) + item_locals(items.last())
    }
}

/// How many of the items stay in the resolved body: all but the
/// declarations of functions, which only concern the symbol table.
pub open spec fn kept_count(items: Seq<AstBlockItem>) -> int
    decreases items.len(),
{
    if items.len() == 0 {
        0
    } else {
        kept_count(items.drop_last()) + if items.last() matches AstBlockItem::Declaration(AstDecl::FuncDecl { .. }) { 0int } else { 1int }
    }
}

/// The resolved body of a function definition with items `items`: one item
/// for each item kept, the loop labels unset, and the locals numbered in
/// order from `base`, each once.
pub open spec fn body_resolved(items: Seq<AstBlockItem>, b: Seq<BlockItem>, base: int) -> bool {
    &&& b.len() == kept_count(items)
    &&& forall|k: int| 0 <= k < b.len() ==> item_labels_unset(#[trigger] b[k])
    &&& exists|m: int| 0 <= m && items_locals(b) == ids_from(base, m)
}

/// Every loop, `break` and `continue` of the statement, at any depth, still
/// has its loop label unset: label resolution numbers them later.
pub open spec fn labels_unset(s: Stmt) -> bool
    decreases s,
{
    match s {
        Stmt::Break { loop_label, .. } => loop_label == usize::MAX,
        Stmt::Continue { loop_label, .. } => loop_label == usize::MAX,
        Stmt::While { body, loop_label, .. } => loop_label == usize::MAX && labels_unset(*body),
        Stmt::DoWhile { body, loop_label, .. } => loop_label == usize::MAX && labels_unset(*body),
        Stmt::For { body, loop_label, .. } => loop_label == usize::MAX && labels_unset(*body),
        Stmt::If { then_branch, else_branch, .. } => labels_unset(*then_branch) && match else_branch {
            Some(e) => labels_unset(*e),
            None => true,
        },
        Stmt::Compound(items) => forall|k: int| 0 <= k < items@.len() ==> item_labels_unset(#[trigger] items@[k]),
        _ => true,
    }
}

/// A block item whose statement, if it is one, has its loop labels unset.
pub open spec fn item_labels_unset(i: BlockItem) -> bool
    decreases i,
{
    match i {
        BlockItem::Statement(st) => labels_unset(st),
        BlockItem::Declaration(_) => true,
    }
}

/// `next` keeps the first `n` scopes of `prev` and has as many scopes as `prev`.
pub open spec fn keeps_scopes(prev: SymbolTable, next: SymbolTable, n: int) -> bool {
    &&& next.common_ns@.len() == prev.common_ns@.len()
    &&& forall|i: int| 0 <= i < n ==> #[trigger] next.common_ns@[i] == prev.common_ns@[i]
}

/// The part of a statement that is resolved before anything nested in it:
/// its kind, its span, the loop label still unset, and the expression it
/// evaluates first, resolved in the scopes of `tb`.
pub open spec fn stmt_head_resolved(tb: SymbolTable, stmt: AstStmt, s: Stmt) -> bool {
    match stmt {
        AstStmt::Nil => s is Nil,
        AstStmt::Expr(e) => s matches Stmt::Expr(e2) && expr_resolved(tb, *e, *e2),
        AstStmt::Return { span, expr } => s matches Stmt::Return { span: s2, expr: e2 }
            && s2 == span && expr_resolved(tb, *expr, *e2),
        AstStmt::If { condition, .. } => s matches Stmt::If { condition: c2, .. } && expr_resolved(tb, *condition, *c2),
        AstStmt::While { span, controller, .. } => s matches Stmt::While { span: s2, controller: c2, loop_label, .. }
            && s2 == span && loop_label == usize::MAX && expr_resolved(tb, *controller, *c2),
        AstStmt::DoWhile { span, .. } => s matches Stmt::DoWhile { span: s2, loop_label, .. }
            && s2 == span && loop_label == usize::MAX,
        AstStmt::For { span, .. } => s matches Stmt::For { span: s2, loop_label, .. }
            && s2 == span && loop_label == usize::MAX,
        AstStmt::Compound(_) => s is Compound,
        AstStmt::Break(span) => s == Stmt::Break { span, loop_label: usize::MAX },
        AstStmt::Continue(span) => s == Stmt::Continue { span, loop_label: usize::MAX },
    }
}

/// The expression that a statement resolves before anything else, if any.
pub open spec fn stmt_head_expr(stmt: AstStmt) -> Option<AstExpr> {
    match stmt {
        AstStmt::Expr(e) => Some(*e),
        AstStmt::Return { expr, .. } => Some(*expr),
        AstStmt::If { condition, .. } => Some(*condition),
        AstStmt::While { controller, .. } => Some(*controller),
        _ => None,
    }
}

/// Whether resolving a statement that holds no nested statement succeeds:
/// always for an empty statement, `break` and `continue`, and exactly when
/// its expression resolves for an expression statement and `return`.
pub open spec fn leaf_stmt_ok(tb: SymbolTable, stmt: AstStmt, ok: bool) -> bool {
    match stmt {
        AstStmt::Nil => ok,
        AstStmt::Break(_) => ok,
        AstStmt::Continue(_) => ok,
        AstStmt::Expr(e) => ok == expr_resolvable(tb, *e),
        AstStmt::Return { expr, .. } => ok == expr_resolvable(tb, *expr),
        _ => true,
    }
}

/// `next` is `prev` with perhaps more functions appended.
pub open spec fn extends(prev: Seq<Function>, next: Seq<Function>) -> bool {
    &&& prev.len() <= next.len()
    &&& forall|k: int| 0 <= k < prev.len() ==> #[trigger] next[k] == prev[k]
}

proof fn lemma_extends_trans(a: Seq<Function>, b: Seq<Function>, c: Seq<Function>)
    requires extends(a, b), extends(b, c),
    ensures extends(a, c),
{
}

/// The parameters of a function definition after resolution: each keeps its
/// name and type and gets the next local id, counting from `base`.
pub open spec fn params_resolved(ast: Seq<AstParam>, p: Seq<Param>, base: int) -> bool {
    &&& p.len() == ast.len()
    &&& forall|k: int| 0 <= k < p.len() ==> #[trigger] p[k].name == ast[k].name
        && p[k].data_type == ast[k].data_type && p[k].local_id == base + k
}

/// `i` is the first position of a function named `name` in `fs`.
pub open spec fn first_function(fs: Seq<Function>, name: StrDescriptor, i: int) -> bool {
    &&& 0 <= i < fs.len()
    &&& fs[i].name == name
    &&& forall|j: int| 0 <= j < i ==> fs[j].name != name
}

/// What a successful file-scope function declaration does to the list of
/// functions: a new name is appended with its type, linkage and, for a
/// definition, its parameters and body; a definition of a name seen before
/// gives that entry its parameters and body; any other declaration changes nothing.
pub open spec fn functions_declared(
    prev: Seq<Function>,
    next: Seq<Function>,
    name: StrDescriptor,
    storage_class: StorageClass,
    return_type: DataType,
    params: Seq<AstParam>,
    has_body: bool,
    items: Seq<AstBlockItem>,
    base: int,
) -> bool {
    &&& (forall|j: int| 0 <= j < prev.len() ==> prev[j].name != name) ==> {
        let f = next.last();
        &&& next == prev.push(f)
        &&& f.name == name && f.linkage == linkage_of(storage_class)
        &&& f.type_.return_type == return_type
        &&& f.type_.param_types@.len() == params.len()
        &&& forall|k: int| 0 <= k < params.len() ==> #[trigger] f.type_.param_types@[k] == params[k].data_type
        &&& (f.body is Some <==> has_body)
        &&& if has_body {
            params_resolved(params, f.params@, base) && body_resolved(items, f.body->0@, base + params.len())
        } else {
            f.params@.len() == 0
        }
    }
    &&& forall|i: int| first_function(prev, name, i) ==> if has_body {
        &&& next == prev.update(i, Function { params: next[i].params, body: next[i].body, ..prev[i] })
        &&& next[i].body is Some
        &&& params_resolved(params, next[i].params@, base)
        &&& body_resolved(items, next[i].body->0@, base + params.len())
    } else {
        next == prev
    }
}

/// The initial value that a file-scope declaration gives its variable: the
/// constant of its initializer, none for `extern`, else a tentative one.
pub open spec fn decl_init_val(initializer: Option<Box<AstExpr>>, storage_class: StorageClass) -> InitVal {
    match initializer {
        Some(e) => match e.spec_constant() {
            Some(c) => InitVal::Const(c),
            None => InitVal::Tentative,
        },
        None => if storage_class is Extern { InitVal::Absent } else { InitVal::Tentative },
    }
}

/// The initial value of a file-scope variable declared before with `prev` and
/// now with `next`: a value replaces a missing one and a constant a tentative one.
pub open spec fn merged_init_val(prev: InitVal, next: InitVal) -> InitVal {
    match (prev, next) {
        (InitVal::Absent, n) => n,
        (InitVal::Tentative, InitVal::Const(c)) => InitVal::Const(c),
        (p, _) => p,
    }
}

/// `i` is the first position of a variable named `name` in `vars`.
pub open spec fn first_static(vars: Seq<StaticVar>, name: StrDescriptor, i: int) -> bool {
    &&& 0 <= i < vars.len()
    &&& vars[i].name == name
    &&& forall|j: int| 0 <= j < i ==> vars[j].name != name
}

/// What a successful file-scope variable declaration does to the list of
/// file-scope variables: a new name is appended, and an earlier entry of the
/// name takes the merged initial value.
pub open spec fn statics_declared(
    prev: Seq<StaticVar>,
    next: Seq<StaticVar>,
    name: StrDescriptor,
    storage_class: StorageClass,
    data_type: DataType,
    initializer: Option<Box<AstExpr>>,
) -> bool {
    let iv = decl_init_val(initializer, storage_class);
    &&& (forall|j: int| 0 <= j < prev.len() ==> prev[j].name != name) ==> next == prev.push(
        StaticVar { name, data_type, linkage: linkage_of(storage_class), initializer: iv })
    &&& forall|i: int| first_static(prev, name, i) ==> next == prev.update(i,
        StaticVar { initializer: merged_init_val(prev[i].initializer, iv), ..prev[i] })
}

/// A file-scope redeclaration of a variable that `prev` cannot take: another
/// type, a linkage that contradicts the first one, or a second constant.
pub open spec fn static_conflict(prev: StaticVar, storage_class: StorageClass, data_type: DataType, iv: InitVal) -> bool {
    ||| prev.data_type != data_type
    ||| (prev.linkage is Internal && storage_class is Unspecified)
    ||| (prev.linkage is External && storage_class is Static)
    ||| (prev.initializer is Const && iv is Const)
}

/// What resolving a block-scope variable declaration does, from the pass
/// state `prev` to `next`, where `ok` tells whether it succeeded and `d` is the
/// declaration it gave: the name gets a fresh local id in the innermost scope,
/// unless a storage class is given, the ids ran out or the name is already
/// declared in that scope; then the initializer is resolved in the new scopes.
pub open spec fn local_var_resolved(
    prev: Parser,
    next: Parser,
    name: StrDescriptor,
    storage_class: StorageClass,
    span: Span,
    data_type: DataType,
    initializer: Option<Box<AstExpr>>,
    ok: bool,
    d: Option<LocalVarDecl>,
) -> bool {
    let fresh = storage_class == StorageClass::Unspecified && prev.local_var_id_counter < usize::MAX
        && !prev.symtb.cur_scope().contains_key(name);
    &&& fresh ==> next.symtb.same_outer_scopes(&prev.symtb) && next.symtb.cur_scope()
        == prev.symtb.cur_scope().insert(name, CommonSymbol::Var(CommonVar { name, data_type, local_id: Some(prev.local_var_id_counter) }))
    &&& (ok <==> fresh && (initializer matches Some(e) ==> expr_resolvable(next.symtb, *e)))
    &&& ok ==> (d matches Some(d) && d.name == name && d.data_type == data_type && d.span == span
        && d.local_id == prev.local_var_id_counter
        && match initializer {
            Some(e) => d.initializer matches Some(e2) && expr_resolved(next.symtb, *e, e2),
            None => d.initializer is None,
        })
}

impl Parser {
    pub open spec fn wf(&self) -> bool {
        self.symtb.wf()
    }

    /// The pass state after `prev`: the same scopes, still well formed.
    pub open spec fn same_depth(&self, prev: &Parser) -> bool {
        &&& self.wf()
        &&& self.symtb.common_ns@.len() == prev.symtb.common_ns@.len()
    }

    pub fn new() -> (r: Self)
        ensures r.wf(), r.symtb.common_ns@.len() == 1, r.functions@.len() == 0, r.static_vars@.len() == 0,
    {
        Self {
            symtb: SymbolTable::new(),
            label_counter: 0,
            loop_labels: Vec::new(),
            local_var_id_counter: 0,
            functions: Vec::new(),
            static_vars: Vec::new(),
        }
    }

    /// A fresh id for a local variable of the current function.
    pub fn alloc_local_var(&mut self) -> (r: core::result::Result<usize, SymError>)
        ensures
            r matches Ok(id) ==> id == old(self).local_var_id_counter
                && final(self).local_var_id_counter == old(self).local_var_id_counter + 1,
            r is Err ==> final(self).local_var_id_counter == old(self).local_var_id_counter,
            r is Err <==> old(self).local_var_id_counter == usize::MAX,
            final(self).symtb == old(self).symtb,
            final(self).functions == old(self).functions,
            final(self).static_vars == old(self).static_vars,
    {
        let id = self.local_var_id_counter;
        if id == usize::MAX {
            return Err(SymError::Unimplemented(crate::text::string_of("Too many local variables.")));
        }
        self.local_var_id_counter = id + 1;
        Ok(id)
    }

    /// Resolves a declaration. A file-scope declaration updates the functions
    /// and static variables; a block-scope variable gives its resolved declaration.
    pub fn nresolve_decl(&mut self, decl: &AstDecl) -> (r: core::result::Result<Option<LocalVarDecl>, (SymError, Span)>)
        requires old(self).wf(),
        ensures
            final(self).same_depth(&*old(self)),
            r matches Ok(Some(d)) ==> decl is VarDecl && old(self).symtb.common_ns@.len() != 1,
            old(self).symtb.common_ns@.len() == 1 ==> !(r matches Ok(Some(_))),
            old(self).symtb.common_ns@.len() != 1 ==> final(self).local_var_id_counter >= old(self).local_var_id_counter
                && match r {
                    Ok(Some(d)) => final(self).local_var_id_counter == old(self).local_var_id_counter + 1,
                    Ok(None) => final(self).local_var_id_counter == old(self).local_var_id_counter,
                    Err(_) => true,
                },
            old(self).symtb.common_ns@.len() != 1 && r is Ok ==> (r matches Ok(Some(_)) <==> decl is VarDecl),
            old(self).symtb.common_ns@.len() != 1 ==> match *decl {
                AstDecl::VarDecl { name, storage_class, span, data_type, initializer } =>
                    local_var_resolved(*old(self), *final(self), name.0, storage_class, span, data_type, initializer,
                        r is Ok, match r { Ok(x) => x, Err(_) => None }),
                _ => true,
            },
            old(self).symtb.common_ns@.len() != 1 ==> keeps_scopes(old(self).symtb, final(self).symtb, old(self).symtb.common_ns@.len() - 1),
            old(self).symtb.common_ns@.len() != 1 ==> extends(old(self).functions@, final(self).functions@)
                && final(self).static_vars == old(self).static_vars,
            old(self).symtb.common_ns@.len() == 1 ==> match *decl {
                AstDecl::FuncDecl { return_type, storage_class, name, params, body } =>
                    r is Ok ==> final(self).static_vars == old(self).static_vars
                        && exists|mid: Seq<Function>| #[trigger] extends(old(self).functions@, mid)
                            && (body is None ==> mid == old(self).functions@)
                            && functions_declared(mid, final(self).functions@, name.0, storage_class,
                                return_type, params@, body is Some,
                                match body { Some(b) => b@, None => Seq::empty() }, old(self).local_var_id_counter as int)
                            && (body is Some ==> final(self).local_var_id_counter == 0),
                AstDecl::VarDecl { name, storage_class, data_type, initializer, .. } => {
                    &&& (initializer matches Some(e) && e.spec_constant() is None)
                        ==> (r matches Err((SymError::InvalidInitializer(n), sp)) && n == name.0 && sp == name.1)
                    &&& forall|i: int| first_static(old(self).static_vars@, name.0, i)
                        && static_conflict(old(self).static_vars@[i], storage_class, data_type,
                            decl_init_val(initializer, storage_class)) ==> r is Err
                    &&& r is Ok ==> statics_declared(old(self).static_vars@, final(self).static_vars@, name.0,
                        storage_class, data_type, initializer)
                    &&& r is Ok ==> final(self).functions == old(self).functions
                },
                _ => true,
            },
        decreases decl, 2nat,
    {
        match decl {
            AstDecl::FuncDecl { return_type, storage_class, name, params, body } => {
                let mut param_types: Vec<DataType> = Vec::new();
                let mut k: usize = 0;
                while k < params.len()
                    invariant
                        k <= params.len(), param_types@.len() == k,
                        forall|m: int| 0 <= m < k ==> #[trigger] param_types@[m] == params@[m].data_type,
                    decreases params.len() - k,
                {
                    param_types.push(params[k].data_type);
                    k = k + 1;
                }
                let functype = FuncType { return_type: *return_type, param_types };
                let mut r_params: Vec<Param> = Vec::new();
                let body_res: Option<Vec<BlockItem>> = match body {
                    Some(items) => {
                        if let Err(e) = self.symtb.ndef_func(name.0, functype.duplicate(), *storage_class) {
                            return Err((e, name.1.copy()));
                        }
                        self.symtb.enter_block();

                        let mut i: usize = 0;
                        while i < params.len()
                            invariant
                                i <= params.len(),
                                self.wf(),
                                old(self).wf(),
                                self.symtb.common_ns@.len() == old(self).symtb.common_ns@.len() + 1,
                                *decl is FuncDecl,
                                old(self).symtb.common_ns@.len() == 1,
                                self.local_var_id_counter == old(self).local_var_id_counter + i,
                                self.functions == old(self).functions,
                                self.static_vars == old(self).static_vars,
                                params_resolved(params@.subrange(0, i as int), r_params@, old(self).local_var_id_counter as int),
                            decreases params.len() - i,
                        {
                            let param = &params[i];
                            let param_id = match self.alloc_local_var() {
                                Ok(id) => id,
                                Err(e) => {
                                    self.symtb.exit_block();
                                    return Err((e, param.span.copy()));
                                },
                            };
                            if let Err(e) = self.symtb.ndef_var(param.name, param.data_type, Some(param_id)) {
                                self.symtb.exit_block();
                                return Err((e, param.span.copy()));
                            }
                            let ghost before = r_params@;
                            assert(param_id == old(self).local_var_id_counter + i);
                            assert(*param == params@[i as int]);
                            r_params.push(Param { name: param.name, data_type: param.data_type, local_id: param_id });
                            proof {
                                let sub = params@.subrange(0, i + 1);
                                assert forall|m: int| 0 <= m < r_params@.len() implies #[trigger] r_params@[m].name == sub[m].name
                                    && r_params@[m].data_type == sub[m].data_type
                                    && r_params@[m].local_id == old(self).local_var_id_counter + m by {
                                    assert(sub[m] == params@[m]);
                                    if m < i {
                                        assert(before[m] == r_params@[m]);
                                        assert(before[m].name == params@.subrange(0, i as int)[m].name);
                                        assert(params@.subrange(0, i as int)[m] == sub[m]);
                                    }
                                }
                                assert(params_resolved(sub, r_params@, old(self).local_var_id_counter as int));
                            }
                            i = i + 1;
                        }

                        proof {
                            assert(params@.subrange(0, params@.len() as int) =~= params@);
                            assert(items@.subrange(0, 0) =~= Seq::<AstBlockItem>::empty());
                            assert(ids_from(self.local_var_id_counter as int, 0) =~= items_locals(Seq::<BlockItem>::empty()));
                        }
                        let ghost cb0 = self.local_var_id_counter as int;
                        let mut r_body: Vec<BlockItem> = Vec::new();
                        let mut j: usize = 0;
                        while j < items.len()
                            invariant
                                j <= items.len(),
                                self.wf(),
                                old(self).wf(),
                                self.symtb.common_ns@.len() == old(self).symtb.common_ns@.len() + 1,
                                *decl is FuncDecl && decl->FuncDecl_body == Some(*items),
                                old(self).symtb.common_ns@.len() == 1,
                                extends(old(self).functions@, self.functions@),
                                self.static_vars == old(self).static_vars,
                                params_resolved(params@, r_params@, old(self).local_var_id_counter as int),
                                cb0 == old(self).local_var_id_counter + params@.len(),
                                self.local_var_id_counter >= cb0,
                                items_locals(r_body@) == ids_from(cb0, self.local_var_id_counter - cb0),
                                r_body@.len() == kept_count(items@.subrange(0, j as int)),
                                forall|k: int| 0 <= k < r_body@.len() ==> item_labels_unset(#[trigger] r_body@[k]),
                            decreases items.len() - j,
                        {
                            proof {
                                assert(decreases_to!(*decl => decl->FuncDecl_body));
                                assert(decreases_to!(decl->FuncDecl_body => decl->FuncDecl_body->Some_0));
                                assert(decreases_to!(decl->FuncDecl_body->Some_0 => decl->FuncDecl_body->Some_0@));
                                assert(decreases_to!(decl->FuncDecl_body->Some_0@ => decl->FuncDecl_body->Some_0@[j as int]));
                            }
                            let ghost fs = self.functions@;
                            let ghost cb = self.local_var_id_counter as int;
                            let res = self.nresolve_block_item(&items[j]);
                            proof {
                                lemma_extends_trans(old(self).functions@, fs, self.functions@);
                                assert(items@.subrange(0, j + 1).drop_last() =~= items@.subrange(0, j as int));
                                assert(items@.subrange(0, j + 1).last() == items@[j as int]);
                            }
                            match res {
                                Ok(Some(item)) => {
                                    let ghost before = r_body@;
                                    r_body.push(item);
                                    proof {
                                        assert(r_body@.drop_last() =~= before);
                                        lemma_ids_concat(cb0, cb - cb0, self.local_var_id_counter - cb);
                                    }
                                },
                                Ok(None) => {},
                                Err(e) => {
                                    self.symtb.exit_block();
                                    return Err(e);
                                },
                            }
                            j = j + 1;
                        }
                        self.symtb.exit_block();
                        proof {
                            assert(items@.subrange(0, items@.len() as int) =~= items@);
                            assert(body_resolved(items@, r_body@, cb0));
                        }
                        self.local_var_id_counter = 0;
                        Some(r_body)
                    },
                    None => {
                        if let Err(e) = self.symtb.ndecl_func(name.0, functype.duplicate(), *storage_class) {
                            return Err((e, name.1.copy()));
                        }
                        None
                    },
                };

                let ghost mid = self.functions@;
                proof {
                    if body.is_none() {
                        assert(r_params@.len() == 0);
                    }
                }
                match find_function(&self.functions, name.0) {
                    Some(i) => {
                        // the symbol table already checked the return type and
                        // parameter types, as well as the linkage: only the body
                        // and the parameters are updated here.
                        if body_res.is_some() {
                            let mut prev = self.functions.remove(i);
                            prev.params = r_params;
                            prev.body = body_res;
                            self.functions.insert(i, prev);
                            proof {
                                assert(self.functions@ =~= mid.update(i as int, prev));
                                assert forall|k: int| first_function(mid, name.0, k) implies k == i as int by {
                                    if k < i as int { assert(mid[k].name != name.0); }
                                    if k > i as int { assert(mid[i as int].name != name.0); }
                                }
                            }
                        } else {
                            proof {
                                assert forall|k: int| first_function(mid, name.0, k) implies k == i as int by {
                                    if k < i as int { assert(mid[k].name != name.0); }
                                    if k > i as int { assert(mid[i as int].name != name.0); }
                                }
                            }
                        }
                    },
                    None => {
                        self.functions.push(Function {
                            name: name.0,
                            type_: functype,
                            params: r_params,
                            linkage: match storage_class {
                                StorageClass::Static => Linkage::Internal,
                                _ => Linkage::External,
                            },
                            body: body_res,
                        });
                    },
                }
                proof {
                    assert(extends(old(self).functions@, mid));
                }
                Ok(None)
            },
            AstDecl::VarDecl { name, storage_class, span, data_type, initializer } => {
                // file-scope variables and block-scope variables are handled differently.
                if self.symtb.nat_global_scope() {
                    let constant: Option<Constant> = match initializer {
                        Some(init) => {
                            match init.to_constant() {
                                Some(c) => Some(c),
                                None => return Err((SymError::InvalidInitializer(name.0), name.1.copy())),
                            }
                        },
                        None => None,
                    };

                    if let Err(e) = self.symtb.ndef_static_var(name.0, *data_type, *storage_class, initializer.is_some()) {
                        return Err((e, name.1.copy()));
                    }

                    let init_val = match constant {
                        Some(c) => InitVal::Const(c),
                        None => match storage_class {
                            StorageClass::Extern => InitVal::Absent,
                            _ => InitVal::Tentative,
                        },
                    };

                    match find_static_var(&self.static_vars, name.0) {
                        Some(i) => {
                            let mut prev = self.static_vars[i];
                            if prev.data_type != *data_type {
                                return Err((SymError::TypeMismatch { expected: prev.data_type, found: *data_type }, name.1.copy()));
                            }
                            match (prev.linkage, storage_class) {
                                (Linkage::Internal, StorageClass::Unspecified) =>
                                    return Err((SymError::LinkageMismatch(name.0), name.1.copy())),
                                (Linkage::External, StorageClass::Static) =>
                                    return Err((SymError::LinkageMismatch(name.0), name.1.copy())),
                                _ => {},
                            }
                            match (prev.initializer, init_val) {
                                (InitVal::Absent, init) => prev.initializer = init,
                                (InitVal::Tentative, InitVal::Const(_)) => prev.initializer = init_val,
                                (InitVal::Const(_), InitVal::Const(_)) =>
                                    return Err((SymError::StaticVarRedefinition(name.0), name.1.copy())),
                                _ => {},
                            }
                            let ghost before = self.static_vars@;
                            self.static_vars.set(i, prev);
                            proof {
                                assert forall|k: int| first_static(before, name.0, k) implies k == i as int by {
                                    if k < i as int { assert(before[k].name != name.0); }
                                    if k > i as int { assert(before[i as int].name != name.0); }
                                }
                            }
                        },
                        None => {
                            self.static_vars.push(StaticVar {
                                name: name.0,
                                data_type: *data_type,
                                linkage: match storage_class {
                                    StorageClass::Static => Linkage::Internal,
                                    _ => Linkage::External,
                                },
                                initializer: init_val,
                            });
                        },
                    }
                    Ok(None)
                } else {
                    if *storage_class != StorageClass::Unspecified {
                        return Err((SymError::Unimplemented(crate::text::string_of("Block-scope variable storage class")), name.1.copy()));
                    }
                    let local_id = match self.alloc_local_var() {
                        Ok(id) => id,
                        Err(e) => return Err((e, name.1.copy())),
                    };
                    if let Err(e) = self.symtb.ndef_var(name.0, *data_type, Some(local_id)) {
                        return Err((e, name.1.copy()));
                    }
                    let r_initializer = match initializer {
                        Some(expr) => Some(self.nresolve_expr(expr)?),
                        None => None,
                    };
                    Ok(Some(LocalVarDecl {
                        name: name.0,
                        data_type: *data_type,
                        span: span.copy(),
                        local_id,
                        initializer: r_initializer,
                    }))
                }
            },
        }
    }

    pub fn nresolve_block_item(&mut self, item: &AstBlockItem) -> (r: core::result::Result<Option<BlockItem>, (SymError, Span)>)
        requires old(self).wf(), old(self).symtb.common_ns@.len() > 1,
        ensures
            final(self).same_depth(&*old(self)),
            match *item {
                AstBlockItem::Statement(st) => {
                    &&& r matches Ok(i) ==> (i matches Some(BlockItem::Statement(s)) && stmt_head_resolved(old(self).symtb, st, s))
                    &&& (stmt_head_expr(st) matches Some(e) && !expr_resolvable(old(self).symtb, e)) ==> r is Err
                    &&& leaf_stmt_ok(old(self).symtb, st, r is Ok)
                },
                AstBlockItem::Declaration(AstDecl::VarDecl { name, storage_class, span, data_type, initializer }) =>
                    local_var_resolved(*old(self), *final(self), name.0, storage_class, span, data_type, initializer,
                        r is Ok, match r { Ok(Some(BlockItem::Declaration(d))) => Some(d), _ => None }),
                _ => true,
            },
            extends(old(self).functions@, final(self).functions@),
            final(self).static_vars == old(self).static_vars,
            keeps_scopes(old(self).symtb, final(self).symtb, old(self).symtb.common_ns@.len() - 1),
            r matches Ok(Some(i)) ==> item_labels_unset(i),
            final(self).local_var_id_counter >= old(self).local_var_id_counter,
            r matches Ok(x) ==> match x {
                Some(i) => item_locals(i) == ids_from(old(self).local_var_id_counter as int,
                    final(self).local_var_id_counter - old(self).local_var_id_counter),
                None => final(self).local_var_id_counter == old(self).local_var_id_counter,
            },
            r matches Ok(x) ==> (x is Some <==> !(*item matches AstBlockItem::Declaration(AstDecl::FuncDecl { .. }))),
        decreases item, 3nat,
    {
        match item {
            AstBlockItem::Declaration(decl) => {
                let d = self.nresolve_decl(decl)?;
                match d {
                    Some(d) => Ok(Some(BlockItem::Declaration(d))),
                    None => Ok(None),
                }
            },
            AstBlockItem::Statement(stmt) => {
                let s = self.nresolve_stmt(stmt)?;
                Ok(Some(BlockItem::Statement(s)))
            },
        }
    }

    pub fn nresolve_stmt(&mut self, stmt: &AstStmt) -> (r: core::result::Result<Stmt, (SymError, Span)>)
        requires old(self).wf(), old(self).symtb.common_ns@.len() > 1,
        ensures
            final(self).same_depth(&*old(self)),
            r matches Ok(s) ==> (stmt is Nil <==> s is Nil) && (stmt is Compound <==> s is Compound)
                && (stmt is Break <==> s is Break) && (stmt is Continue <==> s is Continue)
                && (stmt is While <==> s is While) && (stmt is DoWhile <==> s is DoWhile)
                && (stmt is For <==> s is For) && (stmt is If <==> s is If) && (stmt is Return <==> s is Return),
            r matches Ok(s) ==> stmt_head_resolved(old(self).symtb, *stmt, s),
            (stmt_head_expr(*stmt) matches Some(e) && !expr_resolvable(old(self).symtb, e)) ==> r is Err,
            stmt_head_expr(*stmt) matches Some(e) ==> (expr_error(old(self).symtb, e) matches Some(er)
                ==> r == Err::<Stmt, (SymError, Span)>(er)),
            leaf_stmt_ok(old(self).symtb, *stmt, r is Ok),
            extends(old(self).functions@, final(self).functions@),
            final(self).static_vars == old(self).static_vars,
            final(self).symtb.common_ns@ == old(self).symtb.common_ns@,
            r matches Ok(s) ==> labels_unset(s),
            final(self).local_var_id_counter >= old(self).local_var_id_counter,
            r matches Ok(s) ==> stmt_locals(s) == ids_from(old(self).local_var_id_counter as int,
                final(self).local_var_id_counter - old(self).local_var_id_counter),
        decreases stmt, 1nat,
    {
        match stmt {
            AstStmt::Nil => Ok(Stmt::Nil),
            AstStmt::Expr(expr) => {
                let expr = self.nresolve_expr(expr)?;
                Ok(Stmt::Expr(Box::new(expr)))
            },
            AstStmt::Return { span, expr } => {
                let expr = self.nresolve_expr(expr)?;
                Ok(Stmt::Return { span: span.copy(), expr: Box::new(expr) })
            },
            AstStmt::If { condition, then_branch, else_branch } => {
                let condition = self.nresolve_expr(condition)?;
                let ghost c0 = self.local_var_id_counter as int;
                let then_branch = self.nresolve_stmt(then_branch)?;
                let ghost c1 = self.local_var_id_counter as int;
                let else_branch = match else_branch {
                    Some(stmt) => Some(Box::new(self.nresolve_stmt(stmt)?)),
                    None => None,
                };
                proof {
                    let c2 = self.local_var_id_counter as int;
                    lemma_ids_concat(c0, c1 - c0, c2 - c1);
                    if else_branch is None { assert(ids_from(c1, 0) =~= Seq::<usize>::empty()); }
                }
                Ok(Stmt::If { condition: Box::new(condition), then_branch: Box::new(then_branch), else_branch })
            },
            AstStmt::Compound(items) => {
                let ghost c0 = self.local_var_id_counter as int;
                proof { assert(ids_from(c0, 0) =~= items_locals(Seq::<BlockItem>::empty())); }
                self.symtb.enter_block();
                let mut r_items: Vec<BlockItem> = Vec::new();
                let mut j: usize = 0;
                while j < items.len()
                    invariant
                        j <= items.len(),
                        self.wf(),
                        old(self).wf(),
                        self.symtb.common_ns@.len() == old(self).symtb.common_ns@.len() + 1,
                        *stmt is Compound && stmt->Compound_0 == *items,
                        forall|i: int| 0 <= i < old(self).symtb.common_ns@.len() ==> #[trigger] self.symtb.common_ns@[i] == old(self).symtb.common_ns@[i],
                        forall|k: int| 0 <= k < r_items@.len() ==> item_labels_unset(#[trigger] r_items@[k]),
                        c0 == old(self).local_var_id_counter,
                        self.local_var_id_counter >= c0,
                        items_locals(r_items@) == ids_from(c0, self.local_var_id_counter - c0),
                        extends(old(self).functions@, self.functions@),
                        self.static_vars == old(self).static_vars,
                    decreases items.len() - j,
                {
                    proof {
                        assert(decreases_to!(*stmt => stmt->Compound_0));
                        assert(decreases_to!(stmt->Compound_0 => stmt->Compound_0@));
                        assert(decreases_to!(stmt->Compound_0@ => stmt->Compound_0@[j as int]));
                    }
                    let ghost cb = self.local_var_id_counter as int;
                    match self.nresolve_block_item(&items[j]) {
                        Ok(Some(item)) => {
                            let ghost before = r_items@;
                            r_items.push(item);
                            proof {
                                assert(r_items@.drop_last() =~= before);
                                lemma_ids_concat(c0, cb - c0, self.local_var_id_counter - cb);
                            }
                        },
                        Ok(None) => {},
                        Err(e) => {
                            self.symtb.exit_block();
                            return Err(e);
                        },
                    }
                    j = j + 1;
                }
                self.symtb.exit_block();
                Ok(Stmt::Compound(r_items))
            },
            AstStmt::Break(span) => Ok(Stmt::Break { span: span.copy(), loop_label: usize::MAX }),
            AstStmt::Continue(span) => Ok(Stmt::Continue { span: span.copy(), loop_label: usize::MAX }),
            AstStmt::While { span, controller, body } => {
                let controller = self.nresolve_expr(controller)?;
                let body = self.nresolve_stmt(body)?;
                Ok(Stmt::While {
                    span: span.copy(),
                    controller: Box::new(controller),
                    body: Box::new(body),
                    loop_label: usize::MAX,
                })
            },
            AstStmt::DoWhile { span, body, controller } => {
                let body = self.nresolve_stmt(body)?;
                let controller = self.nresolve_expr(controller)?;
                Ok(Stmt::DoWhile {
                    span: span.copy(),
                    body: Box::new(body),
                    controller: Box::new(controller),
                    loop_label: usize::MAX,
                })
            },
            AstStmt::For { span, initializer, controller, post, body } => {
                let ghost c0 = self.local_var_id_counter as int;
                self.symtb.enter_block();
                let r_initializer = match initializer {
                    Some(init) => match self.nresolve_for_init(init) {
                        Ok(i) => Some(Box::new(i)),
                        Err(e) => {
                            self.symtb.exit_block();
                            return Err(e);
                        },
                    },
                    None => None,
                };
                let ghost c1 = self.local_var_id_counter as int;
                proof { if r_initializer is None { assert(ids_from(c0, 0) =~= Seq::<usize>::empty()); } }
                let r_controller = match controller {
                    Some(expr) => match self.nresolve_expr(expr) {
                        Ok(e) => Some(Box::new(e)),
                        Err(e) => {
                            self.symtb.exit_block();
                            return Err(e);
                        },
                    },
                    None => None,
                };
                let r_post = match post {
                    Some(expr) => match self.nresolve_expr(expr) {
                        Ok(e) => Some(Box::new(e)),
                        Err(e) => {
                            self.symtb.exit_block();
                            return Err(e);
                        },
                    },
                    None => None,
                };
                let r_body = match self.nresolve_stmt(body) {
                    Ok(b) => b,
                    Err(e) => {
                        self.symtb.exit_block();
                        return Err(e);
                    },
                };
                self.symtb.exit_block();
                proof { lemma_ids_concat(c0, c1 - c0, self.local_var_id_counter - c1); }
                Ok(Stmt::For {
                    span: span.copy(),
                    initializer: r_initializer,
                    controller: r_controller,
                    post: r_post,
                    body: Box::new(r_body),
                    loop_label: usize::MAX,
                })
            },
        }
    }

    /// Resolves the names of an expression; the result is not typed yet.
    pub fn nresolve_expr(&mut self, expr: &AstExpr) -> (r: core::result::Result<TypedExpr, (SymError, Span)>)
        requires old(self).wf(),
        ensures
            final(self).symtb == old(self).symtb,
            final(self).functions == old(self).functions,
            final(self).static_vars == old(self).static_vars,
            final(self).local_var_id_counter == old(self).local_var_id_counter,
            r matches Ok(e) ==> e.type_ == DataType::Indeterminate,
            r is Ok <==> expr_resolvable(old(self).symtb, *expr),
            r matches Ok(e) ==> expr_resolved(old(self).symtb, *expr, e),
            match r {
                Ok(_) => expr_error(old(self).symtb, *expr) is None,
                Err(e) => expr_error(old(self).symtb, *expr) == Some(e),
            },
            expr is IntegerLiteral ==> (r matches Ok(e) && e.untyped == Expr::IntegerLiteral(expr->IntegerLiteral_0)),
            expr is Variable ==> match old(self).symtb.binding(expr->Variable_0) {
                Some(crate::sem::CommonSymbol::Var(v)) => r matches Ok(e) && e.untyped is Var && (match v.local_id {
                    Some(id) => e.untyped->Var_0 == Variable::Local { name: expr->Variable_0, local_id: id, data_type: v.data_type },
                    None => e.untyped->Var_0 == Variable::Static { name: expr->Variable_0, data_type: v.data_type },
                }),
                _ => r is Err,
            },
        decreases expr, 0nat,
    {
        let inner = match expr {
            AstExpr::IntegerLiteral(value) => Expr::IntegerLiteral(*value),
            AstExpr::Variable(name, span) => {
                let var = match self.symtb.nlookup_var(*name) {
                    Ok(v) => v,
                    Err(e) => return Err((e, span.copy())),
                };
                Expr::Var(variable_of(*name, var))
            },
            AstExpr::Unary((op, span), inner) => {
                let e = self.nresolve_expr(inner)?;
                Expr::Unary((UnaryOp::from_ast(*op), span.copy()), Box::new(e))
            },
            AstExpr::Binary { op: (op, span), left, right } => {
                let left = self.nresolve_expr(left)?;
                let right = self.nresolve_expr(right)?;
                Expr::Binary {
                    op: (BinaryOp::from_ast(*op), span.copy()),
                    left: Box::new(left),
                    right: Box::new(right),
                }
            },
            AstExpr::Group(inner) => {
                let e = self.nresolve_expr(inner)?;
                Expr::Group(Box::new(e))
            },
            AstExpr::Assignment { span, left, right } => {
                // only variables can be assigned.
                match &**left {
                    AstExpr::Variable(name, vspan) => {
                        let var = match self.symtb.nlookup_var(*name) {
                            Ok(v) => v,
                            Err(e) => return Err((e, vspan.copy())),
                        };
                        let right = self.nresolve_expr(right)?;
                        Expr::Assignment {
                            span: vspan.copy(),
                            left: Box::new(TypedExpr::untyped(Expr::Var(variable_of(*name, var)))),
                            right: Box::new(right),
                        }
                    },
                    _ => return Err((SymError::InvalidLValue, span.copy())),
                }
            },
            AstExpr::Ternary { condition, then_expr, else_expr, span } => {
                let condition = self.nresolve_expr(condition)?;
                let then_expr = self.nresolve_expr(then_expr)?;
                let else_expr = self.nresolve_expr(else_expr)?;
                Expr::Ternary {
                    span: span.copy(),
                    condition: Box::new(condition),
                    then_expr: Box::new(then_expr),
                    else_expr: Box::new(else_expr),
                }
            },
            AstExpr::FuncCall { name, span, args } => {
                if let Err(e) = self.symtb.ncheck_func(*name) {
                    return Err((e, span.copy()));
                }
                let mut r_args: Vec<TypedExpr> = Vec::new();
                let mut j: usize = 0;
                while j < args.len()
                    invariant
                        j <= args.len(), r_args@.len() == j,
                        forall|k: int| 0 <= k < j ==> expr_resolvable(old(self).symtb, #[trigger] args@[k])
                            && expr_resolved(old(self).symtb, args@[k], r_args@[k])
                            && expr_error(old(self).symtb, args@[k]) is None,
                        self.symtb.binding(*name) matches Some(CommonSymbol::Func(_)),
                        self.symtb == old(self).symtb,
                        self.functions == old(self).functions,
                        self.static_vars == old(self).static_vars,
                        self.wf(),
                        *expr is FuncCall && expr->FuncCall_args == *args && expr->FuncCall_name == *name,
                        self.local_var_id_counter == old(self).local_var_id_counter,
                    decreases args.len() - j,
                {
                    proof {
                        assert(decreases_to!(*expr => expr->FuncCall_args));
                        assert(decreases_to!(expr->FuncCall_args => expr->FuncCall_args@));
                        assert(decreases_to!(expr->FuncCall_args@ => expr->FuncCall_args@[j as int]));
                    }
                    let arg = match self.nresolve_expr(&args[j]) {
                        Ok(a) => a,
                        Err(e) => {
                            proof {
                                let tb = old(self).symtb;
                                let errs = args_errors(tb, args@);
                                assert forall|k: int| 0 <= k < j implies (#[trigger] errs[k]) is None by {
                                    assert(expr_error(tb, args@[k]) is None);
                                }
                                lemma_first_some(errs, j as int);
                                assert(errs[j as int] == expr_error(tb, args@[j as int]));
                    assert(expr_error(tb, *expr) == first_some(errs));
                            }
                            return Err(e);
                        },
                    };
                    r_args.push(arg);
                    j = j + 1;
                }
                proof {
                    let tb = old(self).symtb;
                    let errs = args_errors(tb, args@);
                    assert forall|k: int| 0 <= k < args@.len() implies (#[trigger] errs[k]) is None by {
                        assert(expr_error(tb, args@[k]) is None);
                    }
                    lemma_first_some(errs, args@.len() as int);
                    assert(expr_error(tb, *expr) == first_some(errs));
                }
                Expr::FuncCall { name: *name, span: span.copy(), args: r_args }
            },
            AstExpr::Cast { target, expr: inner, span } => {
                // whether the cast is valid is checked in the type checking pass.
                let e = self.nresolve_expr(inner)?;
                Expr::Cast { target: *target, expr: Box::new(e), span: span.copy() }
            },
        };
        Ok(TypedExpr::untyped(inner))
    }

    fn nresolve_for_init(&mut self, init: &AstForInit) -> (r: core::result::Result<ForInit, (SymError, Span)>)
        requires old(self).wf(), old(self).symtb.common_ns@.len() > 1,
        ensures
            final(self).same_depth(&*old(self)),
            match *init {
                AstForInit::Expression(e) => (r is Ok <==> expr_resolvable(old(self).symtb, e))
                    && (r matches Ok(i) ==> i matches ForInit::Expression(e2) && expr_resolved(old(self).symtb, e, *e2)),
                AstForInit::Declaration(AstDecl::VarDecl { name, storage_class, span, data_type, initializer }) =>
                    local_var_resolved(*old(self), *final(self), name.0, storage_class, span, data_type, initializer,
                        r is Ok, match r { Ok(ForInit::Declaration(d)) => Some(d), _ => None }),
                _ => true,
            },
            extends(old(self).functions@, final(self).functions@),
            final(self).static_vars == old(self).static_vars,
            keeps_scopes(old(self).symtb, final(self).symtb, old(self).symtb.common_ns@.len() - 1),
            final(self).local_var_id_counter >= old(self).local_var_id_counter,
            r matches Ok(i) ==> for_init_locals(i) == ids_from(old(self).local_var_id_counter as int,
                final(self).local_var_id_counter - old(self).local_var_id_counter),
        decreases init, 3nat,
    {
        match init {
            AstForInit::Declaration(decl) => {
                match self.nresolve_decl(decl)? {
                    Some(d) => Ok(ForInit::Declaration(d)),
                    None => Err((SymError::Other(crate::text::string_of("A 'for' initializer must declare a variable.")), Span::new(0, 0))),
                }
            },
            AstForInit::Expression(expr) => {
                let e = self.nresolve_expr(expr)?;
                Ok(ForInit::Expression(Box::new(e)))
            },
        }
    }
}

} // verus!
