//! Abstract Syntax Tree (AST) module.
//! Tokens -> AST

mod ast;
pub mod grammar;
mod parser;

use vstd::prelude::*;

pub use parser::{Parser as AstParser, Parser, parse_types, spec_parse_types};
pub use ast::{
    TopLevel as AstTopLevel,
    Decl as AstDecl,
    Expr as AstExpr,
    Stmt as AstStmt,
    Param as AstParam,
    BlockItem as AstBlockItem,
    UnaryOp as AstUnaryOp,
    BinaryOp as AstBinaryOp,
    ForInit as AstForInit,
};
