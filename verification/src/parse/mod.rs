//! A minimal parser: programs made of functions `int name(void) { return N; }`.

use vstd::prelude::*;
use crate::common::{DataType, Error, Result, Span, StrDescriptor, Token, TokenType};

verus! {

#[derive(Debug, Clone)]
pub enum Expr {
    IntegerLiteral(i64),
}

#[derive(Debug)]
pub enum Stmt {
    Program(Vec<Stmt>),
    FuncDecl {
        return_type: (DataType, Span),
        name: (StrDescriptor, Span),
        // only one statement in the body
        body: Box<Stmt>,
    },
    Return {
        span: Span,
        expr: Box<Expr>,
    },
}

#[derive(Debug)]
pub struct Parser {
    input: Vec<Token>,
    position: usize,
    has_error: bool,
}

/// The type of token `i`.
pub open spec fn ty(toks: Seq<Token>, i: int) -> TokenType {
    toks[i].spec_type()
}

/// The ten tokens from `p` on spell `int name ( void ) { return N ; }`.
pub open spec fn decl_ok(toks: Seq<Token>, p: int) -> bool {
    &&& 0 <= p && p + 10 <= toks.len()
    &&& ty(toks, p) is Int && ty(toks, p + 1) is Identifier && ty(toks, p + 2) is LParen
    &&& ty(toks, p + 3) is Void && ty(toks, p + 4) is RParen && ty(toks, p + 5) is LBrace
    &&& ty(toks, p + 6) is Return && ty(toks, p + 7) is Integer && ty(toks, p + 8) is Semicolon
    &&& ty(toks, p + 9) is RBrace
}

/// The function the ten tokens from `p` declare.
pub open spec fn decl_of(toks: Seq<Token>, p: int) -> Stmt {
    Stmt::FuncDecl {
        return_type: (DataType::Int, toks[p].span),
        name: (toks[p + 1].inner->Identifier_0, toks[p + 1].span),
        body: Box::new(Stmt::Return {
            span: toks[p + 6].span,
            expr: Box::new(Expr::IntegerLiteral(toks[p + 7].inner->Integer_0)),
        }),
    }
}

/// The tokens from `p` on are functions, one after the other, to the end.
pub open spec fn prog_ok_from(toks: Seq<Token>, p: int) -> bool
    decreases toks.len() - p,
{
    if p < 0 || p + 10 > toks.len() {
        p == toks.len()
    } else {
        decl_ok(toks, p) && prog_ok_from(toks, p + 10)
    }
}

/// The functions the tokens from `p` on declare.
pub open spec fn decls_from(toks: Seq<Token>, p: int) -> Seq<Stmt>
    decreases toks.len() - p,
{
    if p < 0 || p + 10 > toks.len() { Seq::empty() } else { seq![decl_of(toks, p)] + decls_from(toks, p + 10) }
}

/// Where error recovery that starts at `p` stops: just past the first `;`,
/// or just past a token followed by `int` or `void`, or at the end.
pub open spec fn sync_end(toks: Seq<Token>, p: int) -> int
    decreases toks.len() - p,
{
    if p < 0 || p >= toks.len() {
        p
    } else if ty(toks, p) is Semicolon || p + 1 >= toks.len() || ty(toks, p + 1) is Int || ty(toks, p + 1) is Void {
        p + 1
    } else {
        sync_end(toks, p + 1)
    }
}

impl Parser {
    pub closed spec fn tokens(self) -> Seq<Token> {
        self.input@
    }

    pub closed spec fn pos(self) -> int {
        self.position as int
    }

    /// Whether an error was found.
    pub closed spec fn failed(self) -> bool {
        self.has_error
    }

    pub closed spec fn wf(self) -> bool {
        self.position <= self.input@.len()
    }

    pub fn new(input: Vec<Token>) -> (r: Self)
        ensures r.wf(), r.tokens() == input@, r.pos() == 0,
    {
        Self { input, position: 0, has_error: false }
    }

    /// The program, if every function of it is well formed; else every
    /// error found, parsing resuming after each at a `;` or before a type.
    pub fn parse_prog(&mut self) -> (r: Result<Stmt>)
        requires old(self).wf(), old(self).pos() == 0,
        ensures
            final(self).wf(), final(self).tokens() == old(self).tokens(),
            match r {
                Ok(Stmt::Program(prog)) => prog_ok_from(old(self).tokens(), 0) && prog@ == decls_from(old(self).tokens(), 0),
                Ok(_) => false,
                Err(e) => !prog_ok_from(old(self).tokens(), 0) && e is Errors,
            },
    {
        let ghost toks = self.input@;
        let mut prog: Vec<Stmt> = Vec::new();
        let mut errors: Vec<Error> = Vec::new();
        self.has_error = false;
        while !self.is_at_end()
            invariant
                self.wf(), self.input@ == toks,
                !self.has_error ==> (prog_ok_from(toks, 0) <==> prog_ok_from(toks, self.pos()))
                    && (prog_ok_from(toks, self.pos()) ==> decls_from(toks, 0) == prog@ + decls_from(toks, self.pos())),
                self.has_error ==> !prog_ok_from(toks, 0),
            decreases toks.len() - self.pos(),
        {
            let ghost p = self.pos();
            match self.declaration() {
                Ok(stmt) => {
                    proof {
                        if !self.has_error && prog_ok_from(toks, self.pos()) {
                            assert(decls_from(toks, p) == seq![decl_of(toks, p)] + decls_from(toks, p + 10));
                            assert(decls_from(toks, 0) == prog@.push(stmt) + decls_from(toks, self.pos()));
                        }
                    }
                    prog.push(stmt);
                },
                Err(e) => {
                    errors.push(e);
                    self.has_error = true;
                    self.synchronize();
                },
            }
        }
        proof {
            if !self.has_error {
                assert(prog_ok_from(toks, self.pos()));
                assert(decls_from(toks, self.pos()) =~= Seq::<Stmt>::empty());
                assert(prog@ + decls_from(toks, self.pos()) =~= prog@);
            }
        }
        if self.has_error {
            Err(Error::Errors(errors))
        } else {
            Ok(Stmt::Program(prog))
        }
    }

    /// An integer literal: the next token, which must exist.
    pub fn parse_expr(&mut self) -> (r: Result<Expr>)
        requires old(self).wf(), old(self).pos() < old(self).tokens().len(),
        ensures
            final(self).wf(), final(self).tokens() == old(self).tokens(), final(self).pos() == old(self).pos() + 1,
            final(self).failed() == old(self).failed(),
            match r {
                Ok(e) => ty(old(self).tokens(), old(self).pos()) is Integer
                    && e == Expr::IntegerLiteral(old(self).tokens()[old(self).pos()].inner->Integer_0),
                Err(_) => !(ty(old(self).tokens(), old(self).pos()) is Integer),
            },
    {
        self.primary()
    }

    fn is_at_end(&self) -> (r: bool)
        requires self.wf(),
        ensures r == (self.pos() >= self.tokens().len()),
    {
        self.position >= self.input.len()
    }

    /// The next token, if there is one.
    pub fn peek(&self) -> (r: Option<&Token>)
        requires self.wf(),
        ensures
            match r {
                Some(t) => self.pos() < self.tokens().len() && *t == self.tokens()[self.pos()],
                None => self.pos() >= self.tokens().len(),
            },
    {
        if self.is_at_end() {
            None
        } else {
            Some(&self.input[self.position])
        }
    }

    /// Consumes the next token if it has the expected type, else fails with the message.
    pub fn eat(&mut self, ttype: TokenType, fail_msg: &str) -> (r: Result<Token>)
        requires old(self).wf(),
        ensures
            final(self).wf(), final(self).tokens() == old(self).tokens(), final(self).failed() == old(self).failed(),
            match r {
                Ok(t) => old(self).pos() < old(self).tokens().len() && ty(old(self).tokens(), old(self).pos()) == ttype
                    && final(self).pos() == old(self).pos() + 1
                    && t.inner == old(self).tokens()[old(self).pos()].inner
                    && t.span == old(self).tokens()[old(self).pos()].span,
                Err(_) => !(old(self).pos() < old(self).tokens().len() && ty(old(self).tokens(), old(self).pos()) == ttype)
                    && final(self).pos() == old(self).pos(),
            },
    {
        if self.position < self.input.len() {
            let token_type = self.input[self.position].get_type();
            if token_type == ttype {
                let token = self.input[self.position].copy();
                self.position = self.position + 1;
                return Ok(token);
            }
        }
        Err(Error::Parse(crate::text::string_of(fail_msg)))
    }

    /// Consumes the next token, which must exist.
    pub fn eat_current(&mut self) -> (r: Token)
        requires old(self).wf(), old(self).pos() < old(self).tokens().len(),
        ensures
            final(self).wf(), final(self).tokens() == old(self).tokens(), final(self).pos() == old(self).pos() + 1,
            final(self).failed() == old(self).failed(),
            r.inner == old(self).tokens()[old(self).pos()].inner,
            r.span == old(self).tokens()[old(self).pos()].span,
    {
        assert(self.position < self.input.len());
        let token = self.input[self.position].copy();
        self.position = self.position + 1;
        token
    }

    /// Error recovery: skips tokens up to and including a `;`, or up to a type.
    fn synchronize(&mut self)
        requires old(self).wf(),
        ensures
            final(self).wf(), final(self).tokens() == old(self).tokens(), final(self).pos() >= old(self).pos(),
            final(self).failed() == old(self).failed(),
            final(self).pos() == sync_end(old(self).tokens(), old(self).pos()),
    {
        while !self.is_at_end()
            invariant self.wf(), self.tokens() == old(self).tokens(), self.pos() >= old(self).pos(),
                self.failed() == old(self).failed(),
                sync_end(self.tokens(), self.pos()) == sync_end(old(self).tokens(), old(self).pos()),
            decreases self.tokens().len() - self.pos(),
        {
            let token = self.eat_current();
            if token.get_type() == TokenType::Semicolon {
                return;
            }
            match self.peek() {
                Some(next_token) => {
                    if next_token.is_synchronizer() {
                        return;
                    }
                },
                None => {
                    return;
                },
            }
        }
        assert(sync_end(self.tokens(), self.pos()) == self.pos());
    }

    /// A function `int name(void) { return N; }`.
    fn declaration(&mut self) -> (r: Result<Stmt>)
        requires old(self).wf(), old(self).pos() < old(self).tokens().len(),
        ensures
            final(self).wf(), final(self).tokens() == old(self).tokens(), final(self).pos() > old(self).pos(),
            final(self).failed() == old(self).failed(),
            match r {
                Ok(s) => decl_ok(old(self).tokens(), old(self).pos()) && s == decl_of(old(self).tokens(), old(self).pos())
                    && final(self).pos() == old(self).pos() + 10,
                Err(_) => !decl_ok(old(self).tokens(), old(self).pos()),
            },
    {
        let type_token = self.eat_current();
        match type_token.get_type() {
            TokenType::Int => {
                let name_token = match self.eat(TokenType::Identifier, "Expected an identifier for function declaration.") {
                    Ok(t) => t,
                    Err(e) => return Err(e),
                };
                let name_span = name_token.span;
                let name_str = name_token.inner.as_identifier();
                if let Err(e) = self.eat(TokenType::LParen, "Expected '(' after function name.") { return Err(e); }
                // only void parameters
                if let Err(e) = self.eat(TokenType::Void, "Expected 'void' for function parameters.") { return Err(e); }
                if let Err(e) = self.eat(TokenType::RParen, "Expected ')' after function parameters.") { return Err(e); }
                if let Err(e) = self.eat(TokenType::LBrace, "Expected '{' to start function body.") { return Err(e); }
                let body = match self.statement() {
                    Ok(b) => b,
                    Err(e) => return Err(e),
                };
                if let Err(e) = self.eat(TokenType::RBrace, "Expected '}' to end function body.") { return Err(e); }
                Ok(Stmt::FuncDecl {
                    return_type: (DataType::Int, type_token.span),
                    name: (name_str, name_span),
                    body: Box::new(body),
                })
            },
            _ => Err(Error::Parse(crate::text::string_of("Expected a type for function declaration."))),
        }
    }

    /// A statement `return N;`.
    fn statement(&mut self) -> (r: Result<Stmt>)
        requires old(self).wf(),
        ensures
            final(self).wf(), final(self).tokens() == old(self).tokens(), final(self).pos() >= old(self).pos(),
            final(self).failed() == old(self).failed(),
            match r {
                Ok(s) => {
                    let p = old(self).pos();
                    let t = old(self).tokens();
                    &&& p + 3 <= t.len()
                    &&& ty(t, p) is Return && ty(t, p + 1) is Integer && ty(t, p + 2) is Semicolon
                    &&& final(self).pos() == p + 3
                    &&& s == Stmt::Return { span: t[p].span, expr: Box::new(Expr::IntegerLiteral(t[p + 1].inner->Integer_0)) }
                },
                Err(_) => {
                    let p = old(self).pos();
                    let t = old(self).tokens();
                    !(p + 3 <= t.len() && ty(t, p) is Return && ty(t, p + 1) is Integer && ty(t, p + 2) is Semicolon)
                },
            },
    {
        let return_token = match self.eat(TokenType::Return, "Expected 'return' statement.") {
            Ok(t) => t,
            Err(e) => return Err(e),
        };
        if self.is_at_end() {
            return Err(Error::Parse(crate::text::string_of("Expected an integer literal, found the end of the input.")));
        }
        let expr = match self.parse_expr() {
            Ok(e) => e,
            Err(e) => return Err(e),
        };
        if let Err(e) = self.eat(TokenType::Semicolon, "Expected ';' after return expression.") { return Err(e); }
        Ok(Stmt::Return { span: return_token.span, expr: Box::new(expr) })
    }

    /// An integer literal.
    fn primary(&mut self) -> (r: Result<Expr>)
        requires old(self).wf(), old(self).pos() < old(self).tokens().len(),
        ensures
            final(self).wf(), final(self).tokens() == old(self).tokens(), final(self).pos() == old(self).pos() + 1,
            final(self).failed() == old(self).failed(),
            match r {
                Ok(e) => ty(old(self).tokens(), old(self).pos()) is Integer
                    && e == Expr::IntegerLiteral(old(self).tokens()[old(self).pos()].inner->Integer_0),
                Err(_) => !(ty(old(self).tokens(), old(self).pos()) is Integer),
            },
    {
        let token = self.eat_current();
        match token.get_type() {
            TokenType::Integer => Ok(Expr::IntegerLiteral(token.inner.as_integer())),
            _ => Err(Error::Parse(crate::text::string_of("Expected an integer literal."))),
        }
    }
}

} // verus!
