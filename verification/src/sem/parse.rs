//! The semantic analysis pipeline: name resolution, label resolution and
//! type checking, from an AST to a typed HIR.

use vstd::prelude::*;
use crate::common::{DataType, Error, Result, Span, StringPool, error_located};
use crate::ast::{AstTopLevel, AstExpr};
use super::hir::{Function, StaticVar, TopLevel, TypedExpr, Expr};
use super::nresolve::{Parser, expr_resolvable, expr_resolved};
use super::symtb::SymError;
use super::lresolve::{LResolver, count_items_loops};
use super::typecheck::TypeChecker;

verus! {

/// The error reported for a failure of name resolution at `span`.
fn sym_error(e: SymError, strtb: &StringPool, span: Span) -> (r: Error)
    ensures
        e.names_in(*strtb) ==> (r matches Error::Semantic(m) && m@ == error_located(e.message(strtb@), span)),
{
    if e.names_held(strtb) {
        e.to_error(strtb, span)
    } else {
        Error::Other(crate::text::string_of("A name is missing from the string table."))
    }
}

/// An error for a state that the earlier passes never leave.
fn internal_error(msg: &str) -> (r: Error)
    ensures r is Other,
{
    Error::Other(crate::text::string_of(msg))
}

impl Parser {
    /// Runs the three passes over a program.
    pub fn parse(self, ast: AstTopLevel) -> (r: Result<TopLevel>)
        requires self.wf(), self.symtb.common_ns@.len() == 1,
        ensures r matches Ok(t) ==> t.strtb == ast.strtb,
    {
        let AstTopLevel { decls, strtb } = ast;
        let mut this = self;

        // name resolution
        let mut i: usize = 0;
        while i < decls.len()
            invariant
                i <= decls@.len(),
                this.wf(),
                this.symtb.common_ns@.len() == 1,
            decreases decls@.len() - i,
        {
            match this.nresolve_decl(&decls[i]) {
                Ok(_) => {},
                Err((e, span)) => return Err(sym_error(e, &strtb, span)),
            }
            i = i + 1;
        }

        // label resolution
        let mut lresolver = LResolver::new();
        let mut pending = this.functions;
        let mut resolved: Vec<Function> = Vec::new();
        while pending.len() > 0
            decreases pending@.len(),
        {
            let mut func = pending.remove(0);
            let fits = match &func.body {
                Some(items) => count_items_loops(items).is_some(),
                None => true,
            };
            if !fits {
                return Err(internal_error("Too many loops in a function."));
            }
            lresolver.resolve_func(&mut func)?;
            resolved.push(func);
        }

        // type checking
        let symtb = this.symtb;
        let mut pending_vars = this.static_vars;
        let mut typed_functions: Vec<Function> = Vec::new();
        let mut typed_static_vars: Vec<StaticVar> = Vec::new();
        {
            let mut tchecker = TypeChecker::new(&symtb.func_defs, &strtb);
            while resolved.len() > 0
                invariant tchecker.wf(),
                decreases resolved@.len(),
            {
                let func = resolved.remove(0);
                if func.type_.return_type == DataType::Indeterminate {
                    return Err(internal_error("A function has no known return type."));
                }
                let checked = match &func.body {
                    Some(items) => tchecker.check_untyped_items(items),
                    None => true,
                };
                if !checked {
                    return Err(internal_error("A function body is not as name resolution leaves it."));
                }
                let typed = tchecker.type_function(func)?;
                typed_functions.push(typed);
            }
            while pending_vars.len() > 0
                decreases pending_vars@.len(),
            {
                let var = pending_vars.remove(0);
                if var.data_type != DataType::Int && var.data_type != DataType::Long {
                    return Err(internal_error("A static variable has no size."));
                }
                let typed = tchecker.type_static_var(var)?;
                typed_static_vars.push(typed);
            }
        }

        Ok(TopLevel { strtb, funcs: typed_functions, static_vars: typed_static_vars })
    }

    /// Resolves the names of a lone expression; the result is not typed.
    pub fn parse_expr(self, expr: AstExpr, strtb: StringPool) -> (r: Result<TypedExpr>)
        requires self.wf(),
        ensures
            r matches Ok(e) ==> e.type_ == DataType::Indeterminate,
            expr is IntegerLiteral ==> (r matches Ok(e) && e.untyped == Expr::IntegerLiteral(expr->IntegerLiteral_0)),
            r is Ok <==> expr_resolvable(self.symtb, expr),
            r matches Ok(e) ==> expr_resolved(self.symtb, expr, e),
    {
        let mut this = self;
        match this.nresolve_expr(&expr) {
            Ok(e) => Ok(e),
            Err((e, span)) => Err(sym_error(e, &strtb, span)),
        }
    }
}

} // verus!
