//! The expression grammar as the parser reads it: which tree a run of
//! tokens stands for, and where it ends.

use vstd::prelude::*;
use crate::common::{Constant, DataType, Span, StorageClass, StrDescriptor, Token, TokenType};
use super::ast::{BinaryOp, BlockItem, Decl, Expr, ForInit, Param, Stmt, UnaryOp};
use super::parser::spec_parse_types;

verus! {

broadcast use vstd::seq_lib::group_seq_properties;

/// An expression tree as a mathematical value: the arguments of a call as a sequence.
pub enum ExprView {
    Lit(Constant),
    Var(StrDescriptor, Span),
    Assign(Span, Box<ExprView>, Box<ExprView>),
    Tern(Span, Box<ExprView>, Box<ExprView>, Box<ExprView>),
    Group(Box<ExprView>),
    Unary(UnaryOp, Span, Box<ExprView>),
    Binary(BinaryOp, Span, Box<ExprView>, Box<ExprView>),
    Call(StrDescriptor, Span, Seq<ExprView>),
    Cast(DataType, Box<ExprView>, Span),
}

/// The value of an expression tree.
pub open spec fn eview(e: Expr) -> ExprView
    decreases e,
{
    match e {
        Expr::IntegerLiteral(c) => ExprView::Lit(c),
        Expr::Variable(n, s) => ExprView::Var(n, s),
        Expr::Assignment { span, left, right } => ExprView::Assign(span, Box::new(eview(*left)), Box::new(eview(*right))),
        Expr::Ternary { span, condition, then_expr, else_expr } =>
            ExprView::Tern(span, Box::new(eview(*condition)), Box::new(eview(*then_expr)), Box::new(eview(*else_expr))),
        Expr::Group(inner) => ExprView::Group(Box::new(eview(*inner))),
        Expr::Unary((op, span), inner) => ExprView::Unary(op, span, Box::new(eview(*inner))),
        Expr::Binary { op: (op, span), left, right } => ExprView::Binary(op, span, Box::new(eview(*left)), Box::new(eview(*right))),
        Expr::FuncCall { name, span, args } => ExprView::Call(name, span, eviews(args@)),
        Expr::Cast { target, expr, span } => ExprView::Cast(target, Box::new(eview(*expr)), span),
    }
}

/// The values of a run of expression trees.
pub open spec fn eviews(s: Seq<Expr>) -> Seq<ExprView>
    decreases s,
{
    if s.len() == 0 {
        Seq::empty()
    } else {
        proof { assert(decreases_to!(s => s.drop_last())); }
        eviews(s.drop_last()).push(eview(s.last()))
    }
}

/// The type of token `i`, if there is one.
pub open spec fn ty(t: Seq<Token>, i: int) -> Option<TokenType> {
    if 0 <= i < t.len() { Some(t[i].spec_type()) } else { None }
}

/// `k` lies past `i` and within the tokens.
pub open spec fn past(t: Seq<Token>, i: int, k: int) -> bool {
    i < k <= t.len()
}

/// The prefix operator a token stands for.
pub open spec fn unary_op_of(tt: TokenType) -> UnaryOp {
    if tt is Hyphen { UnaryOp::Negate } else if tt is Plus { UnaryOp::Pos } else if tt is Tilde { UnaryOp::Complement } else { UnaryOp::Not }
}

/// The type keywords from `i` up to a `)`, after `acc`, and the position after the `)`.
pub open spec fn p_types(t: Seq<Token>, i: int, acc: Seq<DataType>) -> Option<(Seq<DataType>, int)>
    decreases t.len() - i,
{
    if i < 0 || i >= t.len() {
        None
    } else if t[i].spec_type().spec_is_type() {
        p_types(t, i + 1, acc.push(t[i].inner.spec_as_type()))
    } else if t[i].spec_type() is RParen {
        Some((acc, i + 1))
    } else {
        None
    }
}

/// The expression from `i` whose binary operators bind at least as tightly as `p`.
pub open spec fn p_expr(t: Seq<Token>, i: int, p: int) -> Option<(ExprView, int)>
    decreases t.len() - i, 2int,
{
    if i < 0 || i >= t.len() {
        None
    } else {
        match p_unary(t, i) {
            None => None,
            Some((l, j)) => if past(t, i, j) { p_climb(t, l, j, p) } else { None },
        }
    }
}

/// Binary operators of precedence at least `p` from `j` on, applied to `left`:
/// assignment and `?:` to the right, the others to the left.
pub open spec fn p_climb(t: Seq<Token>, left: ExprView, j: int, p: int) -> Option<(ExprView, int)>
    decreases t.len() - j, 3int,
{
    if j < 0 || j >= t.len() || !t[j].spec_type().spec_is_binary_op() {
        Some((left, j))
    } else if t[j].spec_type() is And || t[j].spec_type() is Or {
        None
    } else {
        let op = t[j].spec_type().spec_binary_op();
        let span = t[j].span;
        if op.spec_precedence() < p {
            Some((left, j))
        } else if op is Assign {
            match p_expr(t, j + 1, op.spec_precedence() as int) {
                None => None,
                Some((r, k)) => if past(t, j, k) {
                    p_climb(t, ExprView::Assign(span, Box::new(left), Box::new(r)), k, p)
                } else { None },
            }
        } else if op is Ternary {
            match p_expr(t, j + 1, 0) {
                None => None,
                Some((m, k)) => if past(t, j, k) && ty(t, k) == Some(TokenType::Colon) {
                    match p_expr(t, k + 1, op.spec_precedence() as int) {
                        None => None,
                        Some((r, k2)) => if past(t, j, k2) {
                            p_climb(t, ExprView::Tern(span, Box::new(left), Box::new(m), Box::new(r)), k2, p)
                        } else { None },
                    }
                } else { None },
            }
        } else {
            match p_expr(t, j + 1, op.spec_precedence() + 1) {
                None => None,
                Some((r, k)) => if past(t, j, k) {
                    p_climb(t, ExprView::Binary(op, span, Box::new(left), Box::new(r)), k, p)
                } else { None },
            }
        }
    }
}

/// A prefix operator applied to a unary expression, or a primary expression, from `i`.
pub open spec fn p_unary(t: Seq<Token>, i: int) -> Option<(ExprView, int)>
    decreases t.len() - i, 1int,
{
    if i < 0 || i >= t.len() {
        None
    } else {
        let tt = t[i].spec_type();
        if tt is Hyphen || tt is Plus || tt is Tilde || tt is Bang {
            match p_unary(t, i + 1) {
                None => None,
                Some((e, k)) => Some((ExprView::Unary(unary_op_of(tt), t[i].span, Box::new(e)), k)),
            }
        } else {
            p_primary(t, i)
        }
    }
}

/// A literal, a variable, a call, a cast or a parenthesized expression, from `i`.
pub open spec fn p_primary(t: Seq<Token>, i: int) -> Option<(ExprView, int)>
    decreases t.len() - i, 0int,
{
    if i < 0 || i >= t.len() {
        None
    } else {
        let tok = t[i];
        let tt = tok.spec_type();
        if tt is Integer || tt is LongInteger {
            Some((ExprView::Lit(tok.inner.spec_constant()), i + 1))
        } else if tt is LParen {
            if i + 1 < t.len() && t[i + 1].spec_type().spec_is_type() {
                match p_types(t, i + 1, Seq::empty()) {
                    None => None,
                    Some((tys, k)) => match spec_parse_types(tys) {
                        None => None,
                        Some(target) => if past(t, i, k) {
                            match p_expr(t, k, 0) {
                                None => None,
                                Some((e, m)) => Some((ExprView::Cast(target, Box::new(e), tok.span), m)),
                            }
                        } else { None },
                    },
                }
            } else {
                match p_expr(t, i + 1, 0) {
                    None => None,
                    Some((e, k)) => if ty(t, k) == Some(TokenType::RParen) { Some((ExprView::Group(Box::new(e)), k + 1)) } else { None },
                }
            }
        } else if tt is Identifier {
            if ty(t, i + 1) == Some(TokenType::LParen) {
                match p_args(t, i + 2, Seq::empty()) {
                    None => None,
                    Some((args, k)) => Some((ExprView::Call(tok.inner->Identifier_0, tok.span, args), k)),
                }
            } else {
                Some((ExprView::Var(tok.inner->Identifier_0, tok.span), i + 1))
            }
        } else {
            None
        }
    }
}

/// The arguments of a call from `i` up to its `)`, after `acc`, and the position after the `)`.
pub open spec fn p_args(t: Seq<Token>, i: int, acc: Seq<ExprView>) -> Option<(Seq<ExprView>, int)>
    decreases t.len() - i, 4int,
{
    if i < 0 || i >= t.len() {
        None
    } else if t[i].spec_type() is RParen {
        Some((acc, i + 1))
    } else {
        match p_expr(t, i, 0) {
            None => None,
            Some((a, k)) => if past(t, i, k) {
                if ty(t, k) == Some(TokenType::Comma) {
                    p_args(t, k + 1, acc.push(a))
                } else if ty(t, k) == Some(TokenType::RParen) {
                    p_args(t, k, acc.push(a))
                } else {
                    None
                }
            } else { None },
        }
    }
}

/// A declaration as a mathematical value.
pub enum DeclView {
    Func(DataType, StorageClass, (StrDescriptor, Span), Seq<Param>, Option<Seq<ItemView>>),
    Var((StrDescriptor, Span), StorageClass, Span, DataType, Option<ExprView>),
}

/// An item of a block as a mathematical value.
pub enum ItemView {
    Decl(DeclView),
    Stmt(StmtView),
}

/// The initializer of a `for` statement as a mathematical value.
pub enum ForInitView {
    Decl(DeclView),
    Expr(ExprView),
}

/// A statement as a mathematical value.
pub enum StmtView {
    Return(Span, ExprView),
    Expr(ExprView),
    If(ExprView, Box<StmtView>, Option<Box<StmtView>>),
    Compound(Seq<ItemView>),
    Break(Span),
    Continue(Span),
    While(Span, ExprView, Box<StmtView>),
    DoWhile(Span, Box<StmtView>, ExprView),
    For(Span, Option<ForInitView>, Option<ExprView>, Option<ExprView>, Box<StmtView>),
    Nil,
}

/// The value of a declaration.
pub open spec fn dview(d: Decl) -> DeclView
    decreases d,
{
    match d {
        Decl::FuncDecl { return_type, storage_class, name, params, body } =>
            DeclView::Func(return_type, storage_class, name, params@, match body {
                Some(items) => Some(iviews(items@)),
                None => None,
            }),
        Decl::VarDecl { name, storage_class, span, data_type, initializer } =>
            DeclView::Var(name, storage_class, span, data_type, match initializer {
                Some(e) => Some(eview(*e)),
                None => None,
            }),
    }
}

/// The value of an item of a block.
pub open spec fn iview(b: BlockItem) -> ItemView
    decreases b,
{
    match b {
        BlockItem::Declaration(d) => ItemView::Decl(dview(d)),
        BlockItem::Statement(s) => ItemView::Stmt(sview(s)),
    }
}

/// The values of a run of block items.
pub open spec fn iviews(s: Seq<BlockItem>) -> Seq<ItemView>
    decreases s,
{
    if s.len() == 0 {
        Seq::empty()
    } else {
        proof { assert(decreases_to!(s => s.drop_last())); }
        iviews(s.drop_last()).push(iview(s.last()))
    }
}

/// The value of the initializer of a `for` statement.
pub open spec fn fview(f: ForInit) -> ForInitView
    decreases f,
{
    match f {
        ForInit::Declaration(d) => ForInitView::Decl(dview(d)),
        ForInit::Expression(e) => ForInitView::Expr(eview(e)),
    }
}

/// The value of a statement.
pub open spec fn sview(s: Stmt) -> StmtView
    decreases s,
{
    match s {
        Stmt::Return { span, expr } => StmtView::Return(span, eview(*expr)),
        Stmt::Expr(e) => StmtView::Expr(eview(*e)),
        Stmt::If { condition, then_branch, else_branch } => StmtView::If(eview(*condition), Box::new(sview(*then_branch)),
            match else_branch {
                Some(b) => Some(Box::new(sview(*b))),
                None => None,
            }),
        Stmt::Compound(items) => StmtView::Compound(iviews(items@)),
        Stmt::Break(span) => StmtView::Break(span),
        Stmt::Continue(span) => StmtView::Continue(span),
        Stmt::While { span, controller, body } => StmtView::While(span, eview(*controller), Box::new(sview(*body))),
        Stmt::DoWhile { span, body, controller } => StmtView::DoWhile(span, Box::new(sview(*body)), eview(*controller)),
        Stmt::For { span, initializer, controller, post, body } => StmtView::For(span,
            match initializer {
                Some(f) => Some(fview(*f)),
                None => None,
            },
            match controller {
                Some(c) => Some(eview(*c)),
                None => None,
            },
            match post {
                Some(p) => Some(eview(*p)),
                None => None,
            },
            Box::new(sview(*body))),
        Stmt::Nil => StmtView::Nil,
    }
}

/// The values of a run of declarations.
pub open spec fn dviews(s: Seq<Decl>) -> Seq<DeclView>
    decreases s.len(),
{
    if s.len() == 0 { Seq::empty() } else { dviews(s.drop_last()).push(dview(s.last())) }
}

/// The storage class and the type that the specifier keywords from `i` name,
/// after the type keywords `types` and the storage class `sc`, and where they end.
pub open spec fn p_specs(t: Seq<Token>, i: int, types: Seq<DataType>, sc: StorageClass) -> Option<(StorageClass, DataType, int)>
    decreases t.len() - i,
{
    if i < 0 || i > t.len() {
        None
    } else if i < t.len() && t[i].spec_type().spec_is_type() {
        p_specs(t, i + 1, types.push(t[i].inner.spec_as_type()), sc)
    } else if i < t.len() && (t[i].spec_type() is Static || t[i].spec_type() is Extern) {
        if sc is Unspecified {
            p_specs(t, i + 1, types, if t[i].spec_type() is Static { StorageClass::Static } else { StorageClass::Extern })
        } else {
            None
        }
    } else {
        match spec_parse_types(types) {
            None => None,
            Some(dt) => Some((sc, dt, i)),
        }
    }
}

/// The parameters of a function from `i`, after `acc`, up to and past the `)`.
pub open spec fn p_param_list(t: Seq<Token>, i: int, acc: Seq<Param>) -> Option<(Seq<Param>, int)>
    decreases t.len() - i,
{
    if i < 0 || i >= t.len() {
        None
    } else if t[i].spec_type() is RParen {
        Some((acc, i + 1))
    } else if !t[i].spec_type().spec_is_type() || ty(t, i + 1) != Some(TokenType::Identifier) || i + 2 >= t.len() {
        None
    } else {
        let param = Param { name: t[i + 1].inner->Identifier_0, data_type: t[i].inner.spec_as_type(), span: t[i + 1].span };
        p_param_list(t, if t[i + 2].spec_type() is Comma { i + 3 } else { i + 2 }, acc.push(param))
    }
}

/// The parameters of a function after its `(`: `void)`, `)`, or a list.
pub open spec fn p_params(t: Seq<Token>, i: int) -> Option<(Seq<Param>, int)> {
    if ty(t, i) == Some(TokenType::Void) && ty(t, i + 1) == Some(TokenType::RParen) {
        Some((Seq::empty(), i + 2))
    } else if ty(t, i) == Some(TokenType::RParen) {
        Some((Seq::empty(), i + 1))
    } else {
        p_param_list(t, i, Seq::empty())
    }
}

/// The rest of a variable declaration after its name, from `k`: `;` or `= expr ;`.
pub open spec fn p_var_rest(t: Seq<Token>, k: int, sc: StorageClass, dt: DataType, name: (StrDescriptor, Span)) -> Option<(DeclView, int)> {
    if ty(t, k) == Some(TokenType::Semicolon) {
        Some((DeclView::Var(name, sc, name.1, dt, None), k + 1))
    } else if ty(t, k) == Some(TokenType::Equal) {
        match p_expr(t, k + 1, 0) {
            None => None,
            Some((e, m)) => if ty(t, m) == Some(TokenType::Semicolon) {
                Some((DeclView::Var(name, sc, name.1, dt, Some(e)), m + 1))
            } else { None },
        }
    } else {
        None
    }
}

/// A variable declaration from `i`.
pub open spec fn p_var_decl(t: Seq<Token>, i: int) -> Option<(DeclView, int)> {
    match p_specs(t, i, Seq::empty(), StorageClass::Unspecified) {
        None => None,
        Some((sc, dt, j)) => if ty(t, j) == Some(TokenType::Identifier) && j + 1 < t.len() {
            p_var_rest(t, j + 1, sc, dt, (t[j].inner->Identifier_0, t[j].span))
        } else { None },
    }
}

/// A function or variable declaration from `i`.
pub open spec fn p_decl(t: Seq<Token>, i: int) -> Option<(DeclView, int)>
    decreases t.len() - i, 1int,
{
    match p_specs(t, i, Seq::empty(), StorageClass::Unspecified) {
        None => None,
        Some((sc, dt, j)) => if ty(t, j) == Some(TokenType::Identifier) && j + 1 < t.len() {
            let name = (t[j].inner->Identifier_0, t[j].span);
            let k = j + 1;
            if t[k].spec_type() is LParen {
                match p_params(t, k + 1) {
                    None => None,
                    Some((params, m)) => if past(t, i, m) && m < t.len() {
                        if t[m].spec_type() is LBrace {
                            match p_items(t, m + 1, Seq::empty()) {
                                None => None,
                                Some((body, q)) => Some((DeclView::Func(dt, sc, name, params, Some(body)), q)),
                            }
                        } else if t[m].spec_type() is Semicolon {
                            Some((DeclView::Func(dt, sc, name, params, None), m + 1))
                        } else {
                            None
                        }
                    } else { None },
                }
            } else {
                p_var_rest(t, k, sc, dt, name)
            }
        } else { None },
    }
}

/// The items of a block from `i`, after `acc`, up to and past the `}`.
pub open spec fn p_items(t: Seq<Token>, i: int, acc: Seq<ItemView>) -> Option<(Seq<ItemView>, int)>
    decreases t.len() - i, 3int,
{
    if i < 0 || i >= t.len() {
        None
    } else if t[i].spec_type() is RBrace {
        Some((acc, i + 1))
    } else {
        match p_item(t, i) {
            None => None,
            Some((it, k)) => if past(t, i, k) { p_items(t, k, acc.push(it)) } else { None },
        }
    }
}

/// A declaration or a statement inside a block, from `i`.
pub open spec fn p_item(t: Seq<Token>, i: int) -> Option<(ItemView, int)>
    decreases t.len() - i, 2int,
{
    if i < 0 || i >= t.len() {
        None
    } else {
        let tt = t[i].spec_type();
        if tt is Int || tt is Void || tt is Long || tt is Static || tt is Extern {
            match p_decl(t, i) {
                None => None,
                Some((d, k)) => Some((ItemView::Decl(d), k)),
            }
        } else {
            match p_stmt(t, i) {
                None => None,
                Some((s, k)) => Some((ItemView::Stmt(s), k)),
            }
        }
    }
}

/// The initializer of a `for` statement from `i`: a variable declaration, or an expression and `;`.
pub open spec fn p_for_init(t: Seq<Token>, i: int) -> Option<(ForInitView, int)> {
    if i < 0 || i >= t.len() {
        None
    } else if t[i].spec_type().spec_is_type() {
        match p_var_decl(t, i) {
            None => None,
            Some((d, k)) => Some((ForInitView::Decl(d), k)),
        }
    } else {
        match p_expr(t, i, 0) {
            None => None,
            Some((e, k)) => if ty(t, k) == Some(TokenType::Semicolon) { Some((ForInitView::Expr(e), k + 1)) } else { None },
        }
    }
}

/// A statement from `i`.
pub open spec fn p_stmt(t: Seq<Token>, i: int) -> Option<(StmtView, int)>
    decreases t.len() - i, 1int,
{
    if i < 0 || i >= t.len() {
        None
    } else {
        let tt = t[i].spec_type();
        let span = t[i].span;
        if tt is Return {
            match p_expr(t, i + 1, 0) {
                None => None,
                Some((e, k)) => if ty(t, k) == Some(TokenType::Semicolon) { Some((StmtView::Return(span, e), k + 1)) } else { None },
            }
        } else if tt is Break {
            if ty(t, i + 1) == Some(TokenType::Semicolon) { Some((StmtView::Break(span), i + 2)) } else { None }
        } else if tt is Continue {
            if ty(t, i + 1) == Some(TokenType::Semicolon) { Some((StmtView::Continue(span), i + 2)) } else { None }
        } else if tt is While {
            if ty(t, i + 1) != Some(TokenType::LParen) {
                None
            } else {
                match p_expr(t, i + 2, 0) {
                    None => None,
                    Some((c, k)) => if past(t, i, k) && ty(t, k) == Some(TokenType::RParen) {
                        match p_stmt(t, k + 1) {
                            None => None,
                            Some((b, m)) => Some((StmtView::While(span, c, Box::new(b)), m)),
                        }
                    } else { None },
                }
            }
        } else if tt is Do {
            match p_stmt(t, i + 1) {
                None => None,
                Some((b, k)) => if ty(t, k) == Some(TokenType::While) && ty(t, k + 1) == Some(TokenType::LParen) {
                    match p_expr(t, k + 2, 0) {
                        None => None,
                        Some((c, m)) => if ty(t, m) == Some(TokenType::RParen) && ty(t, m + 1) == Some(TokenType::Semicolon) {
                            Some((StmtView::DoWhile(span, Box::new(b), c), m + 2))
                        } else { None },
                    }
                } else { None },
            }
        } else if tt is For {
            if ty(t, i + 1) != Some(TokenType::LParen) {
                None
            } else {
                let init: Option<(Option<ForInitView>, int)> = if ty(t, i + 2) == Some(TokenType::Semicolon) {
                    Some((None, i + 3))
                } else {
                    match p_for_init(t, i + 2) {
                        None => None,
                        Some((f, j)) => Some((Some(f), j)),
                    }
                };
                match init {
                    None => None,
                    Some((fi, j)) => {
                        let ctrl: Option<(Option<ExprView>, int)> = if ty(t, j) == Some(TokenType::Semicolon) {
                            Some((None, j))
                        } else {
                            match p_expr(t, j, 0) {
                                None => None,
                                Some((c, k)) => Some((Some(c), k)),
                            }
                        };
                        match ctrl {
                            None => None,
                            Some((c, k)) => if ty(t, k) == Some(TokenType::Semicolon) {
                                let post: Option<(Option<ExprView>, int)> = if ty(t, k + 1) == Some(TokenType::RParen) {
                                    Some((None, k + 1))
                                } else {
                                    match p_expr(t, k + 1, 0) {
                                        None => None,
                                        Some((pe, m)) => Some((Some(pe), m)),
                                    }
                                };
                                match post {
                                    None => None,
                                    Some((pe, m)) => if past(t, i, m) && ty(t, m) == Some(TokenType::RParen) {
                                        match p_stmt(t, m + 1) {
                                            None => None,
                                            Some((b, q)) => Some((StmtView::For(span, fi, c, pe, Box::new(b)), q)),
                                        }
                                    } else { None },
                                }
                            } else { None },
                        }
                    },
                }
            }
        } else if tt is Semicolon {
            Some((StmtView::Nil, i + 1))
        } else if tt is If {
            if ty(t, i + 1) != Some(TokenType::LParen) {
                None
            } else {
                match p_expr(t, i + 2, 0) {
                    None => None,
                    Some((c, k)) => if past(t, i, k) && ty(t, k) == Some(TokenType::RParen) {
                        match p_stmt(t, k + 1) {
                            None => None,
                            Some((th, m)) => if past(t, i, m) && ty(t, m) == Some(TokenType::Else) {
                                match p_stmt(t, m + 1) {
                                    None => None,
                                    Some((el, q)) => Some((StmtView::If(c, Box::new(th), Some(Box::new(el))), q)),
                                }
                            } else {
                                Some((StmtView::If(c, Box::new(th), None), m))
                            },
                        }
                    } else { None },
                }
            }
        } else if tt is LBrace {
            match p_items(t, i + 1, Seq::empty()) {
                None => None,
                Some((items, k)) => Some((StmtView::Compound(items), k)),
            }
        } else {
            match p_expr(t, i, 0) {
                None => None,
                Some((e, k)) => if ty(t, k) == Some(TokenType::Semicolon) { Some((StmtView::Expr(e), k + 1)) } else { None },
            }
        }
    }
}

/// The declarations from `i` to the end, after `acc`.
pub open spec fn p_prog(t: Seq<Token>, i: int, acc: Seq<DeclView>) -> Option<Seq<DeclView>>
    decreases t.len() - i,
{
    if i < 0 || i >= t.len() {
        Some(acc)
    } else {
        match p_decl(t, i) {
            None => None,
            Some((d, k)) => if past(t, i, k) { p_prog(t, k, acc.push(d)) } else { None },
        }
    }
}


/// The binary operator a spelling of C text gives: the token the lexer reads
/// from character `c` (followed by `next`), as an operator of the syntax tree.
pub open spec fn spelled_binary(c: char, next: Option<char>) -> BinaryOp {
    match crate::lex::punct(c, next) {
        Some((t, _)) => t.spec_type().spec_binary_op(),
        None => BinaryOp::Ternary,
    }
}

/// The unary operator a spelling of C text gives.
pub open spec fn spelled_unary(c: char, next: Option<char>) -> UnaryOp {
    match crate::lex::punct(c, next) {
        Some((t, _)) => unary_op_of(t.spec_type()),
        None => UnaryOp::Pos,
    }
}

/// Each operator spelled in C text means what C says it means: `+ - * / %`
/// are exact arithmetic with division rounding toward zero, `< > <= >= == !=`
/// compare, and `&& ||` are logical; a character that could start a longer
/// operator is read alone only when the next one does not extend it.
pub proof fn lemma_spelling_meaning(a: int, b: int, next: Option<char>)
    ensures
        next != Some('+') ==> spelled_binary('+', next).meaning(a, b) == a + b,
        next != Some('-') ==> spelled_binary('-', next).meaning(a, b) == a - b,
        spelled_binary('*', next).meaning(a, b) == a * b,
        spelled_binary('/', next).meaning(a, b) == crate::common::trunc_div(a, b),
        spelled_binary('%', next).meaning(a, b) == crate::common::trunc_rem(a, b),
        next != Some('=') ==> spelled_binary('<', next).meaning(a, b) == crate::common::bool_value(a < b),
        next != Some('=') ==> spelled_binary('>', next).meaning(a, b) == crate::common::bool_value(a > b),
        spelled_binary('<', Some('=')).meaning(a, b) == crate::common::bool_value(a <= b),
        spelled_binary('>', Some('=')).meaning(a, b) == crate::common::bool_value(a >= b),
        spelled_binary('=', Some('=')).meaning(a, b) == crate::common::bool_value(a == b),
        spelled_binary('!', Some('=')).meaning(a, b) == crate::common::bool_value(a != b),
        spelled_binary('&', Some('&')).meaning(a, b) == crate::common::bool_value(a != 0 && b != 0),
        spelled_binary('|', Some('|')).meaning(a, b) == crate::common::bool_value(a != 0 || b != 0),
        next != Some('-') ==> spelled_unary('-', next).meaning(a) == -a,
        next != Some('+') ==> spelled_unary('+', next).meaning(a) == a,
        spelled_unary('~', next).meaning(a) == -a - 1,
        next != Some('=') ==> spelled_unary('!', next).meaning(a) == crate::common::bool_value(a == 0),
{
}


/// How tightly C binds a binary operator token, from its precedence table:
/// `* / %` above `+ -`, above `< > <= >=`, above `== !=`.
pub open spec fn c_level(tt: TokenType) -> int {
    if tt is Asterisk || tt is ForwardSlash || tt is Percent { 4 }
    else if tt is Plus || tt is Hyphen { 3 }
    else if tt is LessThan || tt is GreaterThan || tt is LtEq || tt is GtEq { 2 }
    else if tt is DoubleEqual || tt is NotEqual { 1 }
    else { 0 }
}

/// How C groups `a o1 b o2 c` for arithmetic, relational and equality
/// operators: when `o2` binds tighter than `o1` it takes its operands first,
/// as in `1 + 7 % 4 = 1 + (7 % 4)`; otherwise the operators group to the
/// left, as in `8 - 2 + 1 = (8 - 2) + 1` and `1 < 2 == 1 = (1 < 2) == 1`.
pub proof fn lemma_binary_grouping(t: Seq<Token>)
    requires
        t.len() == 5,
        t[0].spec_type() is Integer, t[2].spec_type() is Integer, t[4].spec_type() is Integer,
        c_level(t[1].spec_type()) > 0, c_level(t[3].spec_type()) > 0,
    ensures ({
        let a = Box::new(ExprView::Lit(t[0].inner.spec_constant()));
        let b = Box::new(ExprView::Lit(t[2].inner.spec_constant()));
        let c = Box::new(ExprView::Lit(t[4].inner.spec_constant()));
        let o1 = t[1].spec_type().spec_binary_op();
        let o2 = t[3].spec_type().spec_binary_op();
        if c_level(t[3].spec_type()) > c_level(t[1].spec_type()) {
            p_expr(t, 0, 0) == Some((ExprView::Binary(o1, t[1].span, a,
                Box::new(ExprView::Binary(o2, t[3].span, b, c))), 5int))
        } else {
            p_expr(t, 0, 0) == Some((ExprView::Binary(o2, t[3].span,
                Box::new(ExprView::Binary(o1, t[1].span, a, b)), c), 5int))
        }
    }),
{
    let a = ExprView::Lit(t[0].inner.spec_constant());
    let b = ExprView::Lit(t[2].inner.spec_constant());
    let c = ExprView::Lit(t[4].inner.spec_constant());
    let o1 = t[1].spec_type().spec_binary_op();
    let o2 = t[3].spec_type().spec_binary_op();
    let p1 = o1.spec_precedence() as int;
    let p2 = o2.spec_precedence() as int;
    assert(p_primary(t, 0) == Some((a, 1int)));
    assert(p_unary(t, 0) == Some((a, 1int)));
    assert(p_primary(t, 2) == Some((b, 3int)));
    assert(p_unary(t, 2) == Some((b, 3int)));
    assert(p_primary(t, 4) == Some((c, 5int)));
    assert(p_unary(t, 4) == Some((c, 5int)));
    assert(forall|e: ExprView, q: int| p_climb(t, e, 5, q) == Some((e, 5int)));
    assert(p_expr(t, 4, p2 + 1) == Some((c, 5int)));
    if c_level(t[3].spec_type()) > c_level(t[1].spec_type()) {
        let bc = ExprView::Binary(o2, t[3].span, Box::new(b), Box::new(c));
        assert(p_climb(t, b, 3, p1 + 1) == p_climb(t, bc, 5, p1 + 1));
        assert(p_climb(t, b, 3, p1 + 1) == Some((bc, 5int)));
        assert(p_expr(t, 2, p1 + 1) == Some((bc, 5int)));
        let abc = ExprView::Binary(o1, t[1].span, Box::new(a), Box::new(bc));
        assert(p_climb(t, a, 1, 0) == p_climb(t, abc, 5, 0));
    } else {
        assert(p_climb(t, b, 3, p1 + 1) == Some((b, 3int)));
        assert(p_expr(t, 2, p1 + 1) == Some((b, 3int)));
        let ab = ExprView::Binary(o1, t[1].span, Box::new(a), Box::new(b));
        assert(p_climb(t, a, 1, 0) == p_climb(t, ab, 3, 0));
        let abc = ExprView::Binary(o2, t[3].span, Box::new(ab), Box::new(c));
        assert(p_climb(t, ab, 3, 0) == p_climb(t, abc, 5, 0));
    }
}

} // verus!
