//! Semantic analysis module.
//! AST -> HIR
//! Bake in type information, resolved names, etc.
//! Passes:
//! 1. Name resolution
//! 2. Label resolution: attach according labels to break/continue statements
//! 3. Type checking

mod hir;
mod symtb;
mod nresolve;
mod lresolve;
mod typecheck;
mod parse;

pub use hir::{
    TopLevel as HirTopLevel,
    Function as HirFunction,
    LocalVarDecl as HirLocalVarDecl,
    StaticVar as HirStaticVar,
    BlockItem as HirBlockItem,
    Stmt as HirStmt,
    ForInit as HirForInit,
    Param as HirParam,
    Variable as HirVariable,
    TypedExpr as HirTypedExpr,
    Expr as HirExpr,
    UnaryOp as HirUnaryOp,
    BinaryOp as HirBinaryOp,
    push_linkage,
};
pub use symtb::{
    SymbolTable, SymError, FuncSymbol, StaticVarSymbol, CommonSymbol, CommonVar, SymbolType, LabelSymbol,
    linkage_of, type_debug_name, symbol_type_name,
};
pub use nresolve::Parser as NameResolver;
pub use nresolve::Parser as HirParser;
