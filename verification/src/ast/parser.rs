//! Recursive-descent parser from tokens to the syntax tree; binary
//! expressions are parsed by precedence climbing.

use vstd::prelude::*;
use crate::common::{Error, Result, Span, Token, TokenType, RawToken, StringPool, DataType, StorageClass, Constant};
use super::ast::{TopLevel, Decl, Expr, Stmt, BlockItem, UnaryOp, BinaryOp, ForInit, Param};
use super::grammar::{eview, eviews, p_expr, p_unary, p_primary, p_climb, p_types, p_args, ty, past, unary_op_of, ExprView,
    dview, dviews, iview, iviews, sview, fview, p_specs, p_param_list, p_params, p_var_rest, p_var_decl, p_decl, p_items, p_item,
    p_for_init, p_stmt, p_prog, DeclView};

verus! {

#[derive(Debug)]
pub struct Parser {
    input: Vec<Token>,
    position: usize,
    has_error: bool,
    strtb: StringPool,
}

/// The type named by a list of type keywords: `int`, `long`, `long int`,
/// `int long` or `void`.
pub open spec fn spec_parse_types(types: Seq<DataType>) -> Option<DataType> {
    if types == seq![DataType::Int] {
        Some(DataType::Int)
    } else if types == seq![DataType::Long] || types == seq![DataType::Long, DataType::Int]
        || types == seq![DataType::Int, DataType::Long] {
        Some(DataType::Long)
    } else if types == seq![DataType::Void] {
        Some(DataType::Void)
    } else {
        None
    }
}

pub fn parse_types(types: &Vec<DataType>, span: Span) -> (r: Result<DataType>)
    ensures
        match spec_parse_types(types@) {
            Some(t) => r matches Ok(u) && u == t,
            None => r is Err,
        },
{
    if types.len() == 1 {
        proof {
            assert(types@ =~= seq![types@[0]]);
            assert(seq![DataType::Long, DataType::Int].len() == 2);
        }
        match types[0] {
            DataType::Int => return Ok(DataType::Int),
            DataType::Long => return Ok(DataType::Long),
            DataType::Void => return Ok(DataType::Void),
            _ => {},
        }
    } else if types.len() == 2 {
        proof {
            assert(types@ =~= seq![types@[0], types@[1]]);
        }
        if (types[0] == DataType::Long && types[1] == DataType::Int)
            || (types[0] == DataType::Int && types[1] == DataType::Long) {
            return Ok(DataType::Long);
        }
    }
    proof {
        if types@.len() == 1 {
            assert(types@ != seq![DataType::Long, DataType::Int]);
        }
    }
    Err(Error::parse(crate::text::string_of("Invalid type specifier"), span))
}

fn err_at(msg: &str, span: Span) -> (r: Error)
    ensures r matches Error::Parse(m) && m@ == crate::common::error_located(msg@, span),
{
    Error::parse(crate::text::string_of(msg), span)
}

fn err(msg: &str) -> (r: Error)
    ensures r matches Error::Parse(m) && m@ == msg@,
{
    Error::Parse(crate::text::string_of(msg))
}

/// Where skipping tokens from `q` stops: at an opening brace, just past a
/// closing brace, or at the end.
pub open spec fn skip_to_brace(toks: Seq<Token>, q: int) -> int
    decreases toks.len() - q,
{
    if q < 0 || q >= toks.len() || toks[q].spec_type() is LBrace {
        q
    } else if toks[q].spec_type() is RBrace {
        q + 1
    } else {
        skip_to_brace(toks, q + 1)
    }
}

/// Where error recovery from `p` stops: the first token is always skipped,
/// and ends it if it is a closing brace; then tokens are skipped up to an
/// opening brace or past a closing one.
pub open spec fn recover_end(toks: Seq<Token>, p: int) -> int {
    if p < 0 || p >= toks.len() {
        p
    } else if toks[p].spec_type() is RBrace {
        p + 1
    } else {
        skip_to_brace(toks, p + 1)
    }
}

impl Parser {
    /// The tokens being parsed.
    pub closed spec fn tokens(self) -> Seq<Token> {
        self.input@
    }

    /// The position of the next token.
    pub closed spec fn pos(self) -> int {
        self.position as int
    }

    /// The string pool of the identifiers.
    pub closed spec fn pool(self) -> Seq<Seq<char>> {
        self.strtb@
    }

    pub closed spec fn wf(self) -> bool {
        self.position <= self.input@.len()
    }

    /// Whether an error was found.
    pub closed spec fn failed(self) -> bool {
        self.has_error
    }

    /// The parser state after `prev`, having read zero or more further tokens.
    pub open spec fn moved_on(self, prev: Parser) -> bool {
        &&& self.wf()
        &&& self.tokens() == prev.tokens()
        &&& self.pool() == prev.pool()
        &&& prev.pos() <= self.pos()
        &&& self.failed() == prev.failed()
    }

    /// The type of the token at position `i`, if there is one.
    pub open spec fn type_at(self, i: int) -> Option<TokenType> {
        if 0 <= i < self.tokens().len() { Some(self.tokens()[i].spec_type()) } else { None }
    }

    pub fn new(input: Vec<Token>, strtb: StringPool) -> (r: Self)
        ensures r.wf(), r.tokens() == input@, r.pos() == 0, r.pool() == strtb@, !r.failed(),
    {
        Self { input, position: 0, has_error: false, strtb }
    }

    pub fn strtb(self) -> (r: StringPool)
        ensures r@ == self.pool(),
    {
        self.strtb
    }

    /// Parses every declaration of the program. After an error, parsing resumes
    /// past the next closing brace or before the next opening brace, and every
    /// error is reported.
    pub fn parse_prog(self) -> (r: Result<TopLevel>)
        requires self.wf(), !self.failed(),
        ensures
            match r {
                Ok(top) => top.strtb@ == self.pool()
                    && p_prog(self.tokens(), self.pos(), Seq::empty()) == Some(dviews(top.decls@)),
                Err(e) => p_prog(self.tokens(), self.pos(), Seq::empty()) is None
                    && (e matches Error::Errors(es) && es@.len() >= 1),
            },
    {
        let ghost tk = self.tokens();
        let ghost i0 = self.pos();
        let mut parser = self;
        let mut decls: Vec<Decl> = Vec::new();
        let mut errors: Vec<Error> = Vec::new();
        while !parser.is_at_end()
            invariant
                parser.wf(), parser.pool() == self.pool(), self.pos() <= parser.pos(), tk == parser.tokens(), tk == self.tokens(), i0 == self.pos(),
                !parser.has_error ==> errors@.len() == 0
                    && p_prog(tk, i0, Seq::empty()) == p_prog(tk, parser.pos(), dviews(decls@)),
                parser.has_error ==> p_prog(tk, i0, Seq::empty()) is None && errors@.len() >= 1,
            decreases parser.tokens().len() - parser.pos(),
        {
            let ghost p = parser.pos();
            match parser.decl() {
                Ok(decl) => {
                    let ghost d0 = decls@;
                    decls.push(decl);
                    proof {
                        assert(decls@.drop_last() == d0);
                        assert(dviews(decls@) == dviews(d0).push(dview(decl)));
                        assert(past(tk, p, parser.pos()));
                    }
                },
                Err(e) => {
                    errors.push(e);
                    parser.has_error = true;
                    parser.synchronize();
                },
            }
        }
        if parser.has_error || errors.len() > 0 {
            Err(Error::Errors(errors))
        } else {
            Ok(TopLevel { decls, strtb: parser.strtb })
        }
    }

    /// Parses one expression.
    pub fn parse_expr(&mut self) -> (r: Result<Expr>)
        requires old(self).wf(),
        ensures
            final(self).moved_on(*old(self)),
            r is Ok ==> final(self).pos() > old(self).pos(),
            match r {
                Ok(e) => p_expr(old(self).tokens(), old(self).pos(), 0) == Some((eview(e), final(self).pos())),
                Err(_) => p_expr(old(self).tokens(), old(self).pos(), 0) is None,
            },
        decreases old(self).tokens().len() - old(self).pos(), 4nat,
    {
        self.expr_top_level()
    }

    pub fn is_at_end(&self) -> (r: bool)
        requires self.wf(),
        ensures r == (self.pos() >= self.tokens().len()),
    {
        self.position >= self.input.len()
    }

    pub fn peek(&self) -> (r: Option<&Token>)
        requires self.wf(),
        ensures
            match r {
                Some(t) => self.pos() < self.tokens().len() && *t == self.tokens()[self.pos()],
                None => self.pos() >= self.tokens().len(),
            },
    {
        if self.position >= self.input.len() {
            None
        } else {
            Some(&self.input[self.position])
        }
    }

    pub fn peek_next(&self) -> (r: Option<&Token>)
        requires self.wf(),
        ensures
            match r {
                Some(t) => self.pos() + 1 < self.tokens().len() && *t == self.tokens()[self.pos() + 1],
                None => self.pos() + 1 >= self.tokens().len(),
            },
    {
        if self.input.len() - self.position >= 2 {
            Some(&self.input[self.position + 1])
        } else {
            None
        }
    }

    /// The type of the next token, if there is one.
    fn peek_type(&self) -> (r: Option<TokenType>)
        requires self.wf(),
        ensures r == self.type_at(self.pos()),
    {
        match self.peek() {
            Some(t) => Some(t.get_type()),
            None => None,
        }
    }

    /// The type of the token after the next one, if there is one.
    fn peek_next_type(&self) -> (r: Option<TokenType>)
        requires self.wf(),
        ensures r == self.type_at(self.pos() + 1),
    {
        match self.peek_next() {
            Some(t) => Some(t.get_type()),
            None => None,
        }
    }

    /// Consumes the next token if it has the expected type, else fails with the message.
    pub fn eat(&mut self, ttype: TokenType, fail_msg: &str) -> (r: Result<Token>)
        requires old(self).wf(),
        ensures
            final(self).moved_on(*old(self)),
            match r {
                Ok(t) => old(self).type_at(old(self).pos()) == Some(ttype)
                    && final(self).pos() == old(self).pos() + 1
                    && t.inner == old(self).tokens()[old(self).pos()].inner
                    && t.span == old(self).tokens()[old(self).pos()].span,
                Err(_) => old(self).type_at(old(self).pos()) != Some(ttype)
                    && final(self).pos() == old(self).pos(),
            },
    {
        if self.position < self.input.len() {
            let token_type = self.input[self.position].get_type();
            if token_type == ttype {
                let token = self.input[self.position].copy();
                self.position = self.position + 1;
                return Ok(token);
            }
        }
        Err(Error::Parse(crate::text::string_of(fail_msg)))
    }

    /// Consumes the next token, which must exist.
    pub fn eat_current(&mut self) -> (r: Token)
        requires old(self).wf(), old(self).pos() < old(self).tokens().len(),
        ensures
            final(self).moved_on(*old(self)),
            final(self).pos() == old(self).pos() + 1,
            r.inner == old(self).tokens()[old(self).pos()].inner,
            r.span == old(self).tokens()[old(self).pos()].span,
    {
        assert(self.position < self.input.len());
        let token = self.input[self.position].copy();
        self.position = self.position + 1;
        token
    }

    /// The location of the next token, or of the start when there is none.
    fn cur_span(&self) -> (r: Span)
        requires self.wf(),
        ensures
            r == if self.pos() < self.tokens().len() { self.tokens()[self.pos()].span } else { (Span { line: 0, column: 0, length: None }) },
    {
        match self.peek() {
            Some(t) => t.span.copy(),
            None => Span::new(0, 0),
        }
    }

    /// Error recovery: skips tokens up to and including a closing brace, or
    /// up to an opening brace.
    fn synchronize(&mut self)
        requires old(self).wf(),
        ensures
            final(self).moved_on(*old(self)),
            old(self).pos() < old(self).tokens().len() ==> final(self).pos() > old(self).pos(),
            final(self).pos() == recover_end(old(self).tokens(), old(self).pos()),
    {
        if self.is_at_end() {
            return;
        }
        let first = self.eat_current();
        if first.get_type() == TokenType::RBrace {
            return;
        }
        loop
            invariant_except_break
                skip_to_brace(self.tokens(), self.pos()) == recover_end(old(self).tokens(), old(self).pos()),
            invariant
                self.moved_on(*old(self)), self.pos() > old(self).pos(),
            ensures
                self.moved_on(*old(self)), self.pos() > old(self).pos(),
                self.pos() == recover_end(old(self).tokens(), old(self).pos()),
            decreases self.tokens().len() - self.pos(),
        {
            match self.peek_type() {
                Some(t) => {
                    if t == TokenType::LBrace {
                        break;
                    }
                },
                None => break,
            }
            let token = self.eat_current();
            if token.get_type() == TokenType::RBrace {
                break;
            }
        }
    }

    /// A declaration or a statement inside a block.
    pub fn block_item(&mut self) -> (r: Result<BlockItem>)
        requires old(self).wf(),
        ensures
            final(self).moved_on(*old(self)),
            r is Ok ==> final(self).pos() > old(self).pos(),
            match r {
                Ok(b) => p_item(old(self).tokens(), old(self).pos()) == Some((iview(b), final(self).pos())),
                Err(_) => p_item(old(self).tokens(), old(self).pos()) is None,
            },
        decreases old(self).tokens().len() - old(self).pos(), 7nat,
    {
        if self.is_at_end() {
            return Err(err("Unexpected end of input while parsing block item."));
        }
        let t = self.input[self.position].get_type();
        if t == TokenType::Int || t == TokenType::Void || t == TokenType::Long
            || t == TokenType::Static || t == TokenType::Extern {
            let decl = self.decl()?;
            Ok(BlockItem::Declaration(decl))
        } else {
            let stmt = self.stmt_top_level()?;
            Ok(BlockItem::Statement(stmt))
        }
    }

    /// The storage class and type keywords that begin a declaration.
    #[verifier::loop_isolation(false)]
    fn specifiers(&mut self) -> (r: Result<(StorageClass, DataType)>)
        requires old(self).wf(),
        ensures
            final(self).moved_on(*old(self)),
            match r {
                Ok((sc, dt)) => p_specs(old(self).tokens(), old(self).pos(), Seq::empty(), StorageClass::Unspecified)
                    == Some((sc, dt, final(self).pos())),
                Err(_) => p_specs(old(self).tokens(), old(self).pos(), Seq::empty(), StorageClass::Unspecified) is None,
            },
    {
        let ghost tk = self.tokens();
        let ghost i0 = self.pos();
        let mut types: Vec<DataType> = Vec::new();
        let mut storage_class = StorageClass::Unspecified;
        while !self.is_at_end()
            invariant
                self.moved_on(*old(self)), tk == self.tokens(),
                p_specs(tk, i0, Seq::empty(), StorageClass::Unspecified) == p_specs(tk, self.pos(), types@, storage_class),
            decreases self.tokens().len() - self.pos(),
        {
            let next = self.input[self.position].get_type();
            if next == TokenType::Int || next == TokenType::Void || next == TokenType::Long {
                let tok = self.eat_current();
                types.push(tok.inner.as_type());
            } else if next == TokenType::Static || next == TokenType::Extern {
                let span = self.input[self.position].span.copy();
                if let StorageClass::Unspecified = storage_class {
                    let tok = self.eat_current();
                    storage_class = tok.to_storage_class();
                } else {
                    return Err(err_at("Only one storage class is allowed", span));
                }
            } else {
                break;
            }
        }
        let data_type = parse_types(&types, self.cur_span())?;
        Ok((storage_class, data_type))
    }

    /// A function or variable declaration.
    #[verifier::loop_isolation(false)]
    #[verifier::rlimit(100)]
    #[verifier::spinoff_prover]
    pub fn decl(&mut self) -> (r: Result<Decl>)
        requires old(self).wf(),
        ensures
            final(self).moved_on(*old(self)),
            r is Ok ==> final(self).pos() > old(self).pos(),
            match r {
                Ok(d) => p_decl(old(self).tokens(), old(self).pos()) == Some((dview(d), final(self).pos())),
                Err(_) => p_decl(old(self).tokens(), old(self).pos()) is None,
            },
        decreases old(self).tokens().len() - old(self).pos(), 6nat,
    {
        let ghost tk = self.tokens();
        let ghost i0 = self.pos();
        let (storage_class, data_type) = self.specifiers()?;
        let name_token = self.eat(TokenType::Identifier, "Expected an identifier for declaration")?;
        let name = name_token.inner.as_identifier();
        let name_span = name_token.span;
        if self.is_at_end() {
            return Err(err_at("Unexpected end of input while parsing declaration.", self.cur_span()));
        }

        if self.input[self.position].get_type() == TokenType::LParen {
            // function
            self.eat_current();
            let ghost k1 = self.pos();
            let mut params: Vec<Param> = Vec::new();

            if self.peek_type() == Some(TokenType::Void) && self.peek_next_type() == Some(TokenType::RParen) {
                self.eat_current();
                self.eat_current();
            } else if self.peek_type() == Some(TokenType::RParen) {
                self.eat_current();
            } else {
                loop
                    invariant
                        self.moved_on(*old(self)), self.pos() > old(self).pos(), tk == self.tokens(),
                        p_param_list(tk, k1, Seq::empty()) == p_param_list(tk, self.pos(), params@),
                    decreases self.tokens().len() - self.pos(),
                {
                    if self.is_at_end() {
                        return Err(err_at("Unexpected end of input while parsing function parameters.", name_span.copy()));
                    }
                    if self.input[self.position].get_type() == TokenType::RParen {
                        self.eat_current();
                        break;
                    }

                    let param_type_token = self.eat_current();
                    if !param_type_token.is_type() {
                        return Err(err_at("Expected a type for function parameter.", param_type_token.span));
                    }

                    let id_token = self.eat(TokenType::Identifier, "Expected an identifier for function parameter")?;
                    if self.is_at_end() {
                        return Err(err_at("Unexpected end of input while parsing function parameters.", id_token.span));
                    }
                    if self.input[self.position].get_type() == TokenType::Comma {
                        self.eat_current();
                    }
                    params.push(Param {
                        name: id_token.inner.as_identifier(),
                        data_type: param_type_token.inner.as_type(),
                        span: id_token.span,
                    });
                }
            }

            let ghost m = self.pos();
            if self.is_at_end() {
                return Err(err("Unexpected end of input while parsing function body."));
            }
            let next = self.input[self.position].get_type();
            if next == TokenType::LBrace {
                self.eat_current();
                let mut body: Vec<BlockItem> = Vec::new();
                while !self.is_at_end() && self.input[self.position].get_type() != TokenType::RBrace
                    invariant
                        self.moved_on(*old(self)), self.pos() > old(self).pos(), tk == self.tokens(),
                        p_items(tk, m + 1, Seq::empty()) == p_items(tk, self.pos(), iviews(body@)),
                    decreases self.tokens().len() - self.pos(),
                {
                    let ghost j = self.pos();
                    let item = self.block_item()?;
                    let ghost b0 = body@;
                    body.push(item);
                    proof {
                        assert(body@.drop_last() == b0);
                        assert(iviews(body@) == iviews(b0).push(iview(item)));
                        assert(past(tk, j, self.pos()));
                    }
                }
                if self.is_at_end() {
                    return Err(err_at("Unexpected end of input while parsing function body.", name_span));
                }
                self.eat(TokenType::RBrace, "Expected '}' to close function body.")?;
                Ok(Decl::FuncDecl {
                    return_type: data_type,
                    storage_class,
                    name: (name, name_span),
                    params,
                    body: Some(body),
                })
            } else if next == TokenType::Semicolon {
                self.eat_current();
                Ok(Decl::FuncDecl {
                    return_type: data_type,
                    storage_class,
                    name: (name, name_span),
                    params,
                    body: None,
                })
            } else {
                Err(err_at("Expected '{' or ';' after function declaration.", name_span))
            }
        } else {
            self.var_rest(storage_class, data_type, name, name_span)
        }
    }

    /// The rest of a variable declaration after its name: `;` or `= expr ;`.
    fn var_rest(&mut self, storage_class: StorageClass, data_type: DataType, name: crate::common::StrDescriptor, name_span: Span) -> (r: Result<Decl>)
        requires old(self).wf(),
        ensures
            final(self).moved_on(*old(self)),
            r matches Ok(d) ==> d is VarDecl,
            r is Ok ==> final(self).pos() > old(self).pos(),
            match r {
                Ok(d) => p_var_rest(old(self).tokens(), old(self).pos(), storage_class, data_type, (name, name_span))
                    == Some((dview(d), final(self).pos())),
                Err(_) => p_var_rest(old(self).tokens(), old(self).pos(), storage_class, data_type, (name, name_span)) is None,
            },
        decreases old(self).tokens().len() - old(self).pos(), 5nat,
    {
        match self.peek_type() {
            Some(TokenType::Semicolon) => {
                self.eat_current();
                Ok(Decl::VarDecl {
                    name: (name, name_span.copy()),
                    storage_class,
                    span: name_span,
                    data_type,
                    initializer: None,
                })
            },
            Some(TokenType::Equal) => {
                self.eat_current();
                let initializer = self.expr_top_level()?;
                self.eat(TokenType::Semicolon, "Expected ';' after variable declaration.")?;
                Ok(Decl::VarDecl {
                    name: (name, name_span.copy()),
                    storage_class,
                    span: name_span,
                    data_type,
                    initializer: Some(Box::new(initializer)),
                })
            },
            _ => Err(err_at("Expected ';' after variable declaration.", name_span)),
        }
    }

    /// A function declaration or definition.
    pub fn func_decl(&mut self) -> (r: Result<Decl>)
        requires old(self).wf(),
        ensures
            final(self).moved_on(*old(self)),
            r matches Ok(d) ==> d is FuncDecl,
            match r {
                Ok(d) => p_decl(old(self).tokens(), old(self).pos()) == Some((dview(d), final(self).pos())),
                Err(_) => !(p_decl(old(self).tokens(), old(self).pos()) matches Some((DeclView::Func(..), _))),
            },
        decreases old(self).tokens().len() - old(self).pos(), 7nat,
    {
        let span = self.cur_span();
        let decl = self.decl()?;
        match decl {
            Decl::FuncDecl { .. } => Ok(decl),
            _ => Err(err_at("Expected a function declaration.", span)),
        }
    }

    /// A variable declaration.
    pub fn var_decl(&mut self) -> (r: Result<Decl>)
        requires old(self).wf(),
        ensures
            final(self).moved_on(*old(self)),
            r is Ok ==> final(self).pos() > old(self).pos(),
            r matches Ok(d) ==> d is VarDecl,
            match r {
                Ok(d) => p_var_decl(old(self).tokens(), old(self).pos()) == Some((dview(d), final(self).pos())),
                Err(_) => p_var_decl(old(self).tokens(), old(self).pos()) is None,
            },
        decreases old(self).tokens().len() - old(self).pos(), 6nat,
    {
        let ghost tk = self.tokens();
        let ghost i0 = self.pos();
        let (storage_class, data_type) = self.specifiers()?;
        let ghost j = self.pos();
        let id_token = self.eat(TokenType::Identifier, "Expected an identifier for variable declaration")?;
        if self.is_at_end() {
            return Err(err_at("Unexpected end of input while parsing variable declaration.", self.cur_span()));
        }
        let name = id_token.inner.as_identifier();
        proof {
            assert(p_specs(tk, i0, Seq::empty(), StorageClass::Unspecified) == Some((storage_class, data_type, j)));
            assert(name == tk[j].inner->Identifier_0);
            assert(id_token.span == tk[j].span);
            assert(p_var_decl(tk, i0) == p_var_rest(tk, j + 1, storage_class, data_type, (name, id_token.span)));
        }
        self.var_rest(storage_class, data_type, name, id_token.span)
    }

    pub fn stmt_top_level(&mut self) -> (r: Result<Stmt>)
        requires old(self).wf(),
        ensures
            final(self).moved_on(*old(self)),
            r is Ok ==> final(self).pos() > old(self).pos(),
            match r {
                Ok(s) => p_stmt(old(self).tokens(), old(self).pos()) == Some((sview(s), final(self).pos())),
                Err(_) => p_stmt(old(self).tokens(), old(self).pos()) is None,
            },
        decreases old(self).tokens().len() - old(self).pos(), 6nat,
    {
        self.statement()
    }

    /// A statement.
    fn statement(&mut self) -> (r: Result<Stmt>)
        requires old(self).wf(),
        ensures
            final(self).moved_on(*old(self)),
            r is Ok ==> final(self).pos() > old(self).pos(),
            match r {
                Ok(s) => p_stmt(old(self).tokens(), old(self).pos()) == Some((sview(s), final(self).pos())),
                Err(_) => p_stmt(old(self).tokens(), old(self).pos()) is None,
            },
        decreases old(self).tokens().len() - old(self).pos(), 5nat,
    {
        if self.is_at_end() {
            return Err(err("Unexpected end of input"));
        }
        let t = self.input[self.position].get_type();
        match t {
            TokenType::Return => {
                let return_token = self.eat(TokenType::Return, "Expected 'return' statement.")?;
                let expr = self.parse_expr()?;
                self.eat(TokenType::Semicolon, "Expected ';' after return expression.")?;
                Ok(Stmt::Return { span: return_token.span, expr: Box::new(expr) })
            },
            TokenType::Break => {
                let break_token = self.eat(TokenType::Break, "Expected 'break' statement.")?;
                self.eat(TokenType::Semicolon, "Expected ';' after 'break' statement.")?;
                Ok(Stmt::Break(break_token.span))
            },
            TokenType::Continue => {
                let continue_token = self.eat(TokenType::Continue, "Expected 'continue' statement.")?;
                self.eat(TokenType::Semicolon, "Expected ';' after 'continue' statement.")?;
                Ok(Stmt::Continue(continue_token.span))
            },
            TokenType::While | TokenType::Do => self.loop_stmt(),
            TokenType::For => self.for_stmt(),
            TokenType::Semicolon => {
                self.eat_current();
                Ok(Stmt::Nil)
            },
            TokenType::If => self.if_stmt(),
            TokenType::LBrace => self.compound_stmt(),
            _ => {
                // expression statement
                let expr = self.parse_expr()?;
                self.eat(TokenType::Semicolon, "Expected ';' after expression statement.")?;
                Ok(Stmt::Expr(Box::new(expr)))
            },
        }
    }

    /// A `while` or `do`-`while` statement.
    fn loop_stmt(&mut self) -> (r: Result<Stmt>)
        requires old(self).wf(), old(self).type_at(old(self).pos()) == Some(TokenType::While)
            || old(self).type_at(old(self).pos()) == Some(TokenType::Do),
        ensures
            final(self).moved_on(*old(self)),
            r is Ok ==> final(self).pos() > old(self).pos(),
            match r {
                Ok(s) => p_stmt(old(self).tokens(), old(self).pos()) == Some((sview(s), final(self).pos())),
                Err(_) => p_stmt(old(self).tokens(), old(self).pos()) is None,
            },
        decreases old(self).tokens().len() - old(self).pos(), 4nat,
    {
        let token = self.eat_current();
        let is_while = token.get_type() == TokenType::While;
        let span = token.span;
        if is_while {
            self.eat(TokenType::LParen, "Expected '(' after 'while'.")?;
            let controller = Box::new(self.expr_top_level()?);
            self.eat(TokenType::RParen, "Expected ')' after 'while' condition.")?;
            let body = Box::new(self.stmt_top_level()?);
            Ok(Stmt::While { span, controller, body })
        } else {
            let body = Box::new(self.stmt_top_level()?);
            self.eat(TokenType::While, "Expected 'while' after 'do' statement.")?;
            self.eat(TokenType::LParen, "Expected '(' after 'while'.")?;
            let controller = Box::new(self.expr_top_level()?);
            self.eat(TokenType::RParen, "Expected ')' after 'while' condition.")?;
            self.eat(TokenType::Semicolon, "Expected ';' after 'do-while' statement.")?;
            Ok(Stmt::DoWhile { span, body, controller })
        }
    }

    /// A `for` statement.
    #[verifier::rlimit(60)]
    fn for_stmt(&mut self) -> (r: Result<Stmt>)
        requires old(self).wf(), old(self).type_at(old(self).pos()) == Some(TokenType::For),
        ensures
            final(self).moved_on(*old(self)),
            r is Ok ==> final(self).pos() > old(self).pos(),
            match r {
                Ok(s) => p_stmt(old(self).tokens(), old(self).pos()) == Some((sview(s), final(self).pos())),
                Err(_) => p_stmt(old(self).tokens(), old(self).pos()) is None,
            },
        decreases old(self).tokens().len() - old(self).pos(), 4nat,
    {
        let span = self.eat_current().span;
        self.eat(TokenType::LParen, "Expected '(' after 'for'.")?;
        let initializer = if self.peek_type() == Some(TokenType::Semicolon) {
            self.eat_current();
            None
        } else {
            Some(Box::new(self.for_init()?))
        };
        let controller = if self.peek_type() == Some(TokenType::Semicolon) {
            None
        } else {
            Some(Box::new(self.expr_top_level()?))
        };
        self.eat(TokenType::Semicolon, "Expected ';' after 'for' condition.")?;
        let post = if self.peek_type() == Some(TokenType::RParen) {
            None
        } else {
            Some(Box::new(self.expr_top_level()?))
        };
        self.eat(TokenType::RParen, "Expected ')' after 'for' statement.")?;
        let body = Box::new(self.stmt_top_level()?);
        Ok(Stmt::For { span, initializer, controller, post, body })
    }

    /// An `if` statement, with or without `else`.
    fn if_stmt(&mut self) -> (r: Result<Stmt>)
        requires old(self).wf(), old(self).type_at(old(self).pos()) == Some(TokenType::If),
        ensures
            final(self).moved_on(*old(self)),
            r is Ok ==> final(self).pos() > old(self).pos(),
            match r {
                Ok(s) => p_stmt(old(self).tokens(), old(self).pos()) == Some((sview(s), final(self).pos())),
                Err(_) => p_stmt(old(self).tokens(), old(self).pos()) is None,
            },
        decreases old(self).tokens().len() - old(self).pos(), 4nat,
    {
        self.eat_current();
        self.eat(TokenType::LParen, "Expected '(' after 'if'.")?;
        let condition = Box::new(self.expr_top_level()?);
        self.eat(TokenType::RParen, "Expected ')' after 'if' condition.")?;
        let then_branch = Box::new(self.stmt_top_level()?);
        let else_branch = if self.peek_type() == Some(TokenType::Else) {
            self.eat_current();
            Some(Box::new(self.stmt_top_level()?))
        } else {
            None
        };
        Ok(Stmt::If { condition, then_branch, else_branch })
    }

    /// A block of items between braces.
    #[verifier::loop_isolation(false)]
    fn compound_stmt(&mut self) -> (r: Result<Stmt>)
        requires old(self).wf(), old(self).type_at(old(self).pos()) == Some(TokenType::LBrace),
        ensures
            final(self).moved_on(*old(self)),
            r is Ok ==> final(self).pos() > old(self).pos(),
            match r {
                Ok(s) => p_stmt(old(self).tokens(), old(self).pos()) == Some((sview(s), final(self).pos())),
                Err(_) => p_stmt(old(self).tokens(), old(self).pos()) is None,
            },
        decreases old(self).tokens().len() - old(self).pos(), 4nat,
    {
        let ghost tk = self.tokens();
        let ghost i0 = self.pos();
        self.eat_current();
        let mut items: Vec<BlockItem> = Vec::new();
        while !self.is_at_end() && self.input[self.position].get_type() != TokenType::RBrace
            invariant
                self.moved_on(*old(self)), self.pos() > old(self).pos(), tk == self.tokens(), i0 == old(self).pos(),
                p_items(tk, i0 + 1, Seq::empty()) == p_items(tk, self.pos(), iviews(items@)),
            decreases self.tokens().len() - self.pos(),
        {
            let ghost j = self.pos();
            let item = self.block_item()?;
            let ghost b0 = items@;
            items.push(item);
            proof {
                assert(items@.drop_last() == b0);
                assert(iviews(items@) == iviews(b0).push(iview(item)));
                assert(past(tk, j, self.pos()));
            }
        }
        self.eat(TokenType::RBrace, "Expected '}' to close block statement.")?;
        Ok(Stmt::Compound(items))
    }

    /// The initializer of a `for` statement: a declaration or an expression and `;`.
    fn for_init(&mut self) -> (r: Result<ForInit>)
        requires old(self).wf(),
        ensures
            final(self).moved_on(*old(self)),
            r is Ok ==> final(self).pos() > old(self).pos(),
            match r {
                Ok(f) => p_for_init(old(self).tokens(), old(self).pos()) == Some((fview(f), final(self).pos())),
                Err(_) => p_for_init(old(self).tokens(), old(self).pos()) is None,
            },
        decreases old(self).tokens().len() - old(self).pos(), 7nat,
    {
        if self.is_at_end() {
            return Err(err("Unexpected end of input while parsing 'for' initializer."));
        }
        if self.input[self.position].is_type() {
            // variable declaration
            Ok(ForInit::Declaration(self.var_decl()?))
        } else {
            // expression
            let expr = self.expr_top_level()?;
            self.eat(TokenType::Semicolon, "Expected ';' after 'for' initializer.")?;
            Ok(ForInit::Expression(expr))
        }
    }

    pub fn expr_top_level(&mut self) -> (r: Result<Expr>)
        requires old(self).wf(),
        ensures
            final(self).moved_on(*old(self)),
            r is Ok ==> final(self).pos() > old(self).pos(),
            match r {
                Ok(e) => p_expr(old(self).tokens(), old(self).pos(), 0) == Some((eview(e), final(self).pos())),
                Err(_) => p_expr(old(self).tokens(), old(self).pos(), 0) is None,
            },
        decreases old(self).tokens().len() - old(self).pos(), 3nat,
    {
        self.expr(0)
    }

    /// Precedence climbing: a unary expression followed by binary operators of
    /// precedence at least `min_prec`. Assignment and `?:` associate to the right.
    fn expr(&mut self, min_prec: u8) -> (r: Result<Expr>)
        requires old(self).wf(),
        ensures
            final(self).moved_on(*old(self)),
            r is Ok ==> final(self).pos() > old(self).pos(),
            match r {
                Ok(e) => p_expr(old(self).tokens(), old(self).pos(), min_prec as int) == Some((eview(e), final(self).pos())),
                Err(_) => p_expr(old(self).tokens(), old(self).pos(), min_prec as int) is None,
            },
        decreases old(self).tokens().len() - old(self).pos(), 2nat,
    {
        let ghost t = self.tokens();
        let ghost i0 = self.pos();
        let ghost p = min_prec as int;
        let mut left = self.unary()?;
        proof { assert(past(t, i0, self.pos())); }
        loop
            invariant
                self.moved_on(*old(self)), self.pos() > old(self).pos(), t == self.tokens(), i0 == old(self).pos(),
                p == min_prec as int,
                p_expr(t, i0, p) == p_climb(t, eview(left), self.pos(), p),
            ensures
                self.moved_on(*old(self)), self.pos() > old(self).pos(),
                p_expr(t, i0, p) == Some((eview(left), self.pos())),
            decreases self.tokens().len() - self.pos(),
        {
            let ghost j = self.pos();
            if self.is_at_end() {
                break;
            }
            if !self.input[self.position].is_binary_op() {
                break;
            }
            let tt = self.input[self.position].get_type();
            if tt == TokenType::And || tt == TokenType::Or {
                return Err(err_at("Bitwise operators are not supported.", self.cur_span()));
            }
            let op = self.input[self.position].to_binary_op();
            if op.precedence() < min_prec {
                break;
            }
            let op_token = self.eat_current();
            proof { assert(op_token.span == t[j].span); }

            match op {
                BinaryOp::Assign => {
                    // right-associative
                    let right = self.expr(BinaryOp::Assign.precedence())?;
                    let ghost l0 = left;
                    left = Expr::Assignment {
                        span: op_token.span,
                        left: Box::new(left),
                        right: Box::new(right),
                    };
                    proof {
                        assert(eview(left) == ExprView::Assign(t[j].span, Box::new(eview(l0)), Box::new(eview(right))));
                    }
                },
                BinaryOp::Ternary => {
                    let middle = self.expr(BinaryOp::MIN_PRECEDENCE)?;
                    let ghost k = self.pos();
                    self.eat(TokenType::Colon, "Expected ':' in ternary expression.")?;
                    let right = self.expr(BinaryOp::Ternary.precedence())?;
                    let ghost l0 = left;
                    left = Expr::Ternary {
                        span: op_token.span,
                        condition: Box::new(left),
                        then_expr: Box::new(middle),
                        else_expr: Box::new(right),
                    };
                    proof {
                        assert(eview(left) == ExprView::Tern(t[j].span, Box::new(eview(l0)), Box::new(eview(middle)), Box::new(eview(right))));
                    }
                },
                _ => {
                    let right = self.expr(op.precedence() + 1)?;
                    let ghost l0 = left;
                    left = Expr::Binary {
                        op: (op, op_token.span),
                        left: Box::new(left),
                        right: Box::new(right),
                    };
                    proof {
                        assert(eview(left) == ExprView::Binary(op, t[j].span, Box::new(eview(l0)), Box::new(eview(right))));
                    }
                },
            }
        }
        Ok(left)
    }

    /// A prefix operator applied to a unary expression, or a primary expression.
    fn unary(&mut self) -> (r: Result<Expr>)
        requires old(self).wf(),
        ensures
            final(self).moved_on(*old(self)),
            r is Ok ==> final(self).pos() > old(self).pos(),
            match r {
                Ok(e) => p_unary(old(self).tokens(), old(self).pos()) == Some((eview(e), final(self).pos())),
                Err(_) => p_unary(old(self).tokens(), old(self).pos()) is None,
            },
        decreases old(self).tokens().len() - old(self).pos(), 1nat,
    {
        if self.is_at_end() {
            return Err(err("Unexpected end of input while parsing expression."));
        }
        let t = self.input[self.position].get_type();
        if t == TokenType::Hyphen || t == TokenType::Plus || t == TokenType::Tilde || t == TokenType::Bang {
            let op_token = self.eat_current();
            let op = if t == TokenType::Hyphen {
                UnaryOp::Negate
            } else if t == TokenType::Plus {
                UnaryOp::Pos
            } else if t == TokenType::Tilde {
                UnaryOp::Complement
            } else {
                UnaryOp::Not
            };
            proof { assert(op == unary_op_of(t)); }
            let expr = self.unary()?;
            Ok(Expr::Unary((op, op_token.span), Box::new(expr)))
        } else {
            self.primary()
        }
    }

    /// A literal, a variable, a call, a cast or a parenthesized expression.
    #[verifier::loop_isolation(false)]
    fn primary(&mut self) -> (r: Result<Expr>)
        requires old(self).wf(),
        ensures
            final(self).moved_on(*old(self)),
            r is Ok ==> final(self).pos() > old(self).pos(),
            (old(self).type_at(old(self).pos()) == Some(TokenType::Integer)
                || old(self).type_at(old(self).pos()) == Some(TokenType::LongInteger))
                ==> (r matches Ok(Expr::IntegerLiteral(c))
                    && c == old(self).tokens()[old(self).pos()].inner.spec_constant()
                    && final(self).pos() == old(self).pos() + 1),
            match r {
                Ok(e) => p_primary(old(self).tokens(), old(self).pos()) == Some((eview(e), final(self).pos())),
                Err(_) => p_primary(old(self).tokens(), old(self).pos()) is None,
            },
        decreases old(self).tokens().len() - old(self).pos(), 0nat,
    {
        let ghost tk = self.tokens();
        let ghost i = self.pos();
        if self.is_at_end() {
            return Err(err("Unexpected end of input while parsing expression."));
        }
        let token = self.eat_current();
        assert(token.spec_type() == old(self).type_at(old(self).pos()).unwrap());
        match token.get_type() {
            TokenType::Integer | TokenType::LongInteger => {
                let constant = token.inner.as_constant();
                Ok(Expr::IntegerLiteral(constant))
            },
            TokenType::LParen => {
                if self.peek().is_some() && self.input[self.position].is_type() {
                    let mut types: Vec<DataType> = Vec::new();
                    loop
                        invariant
                            self.moved_on(*old(self)), self.pos() > old(self).pos(), tk == self.tokens(),
                            p_types(tk, i + 1, Seq::empty()) == p_types(tk, self.pos(), types@),
                        decreases self.tokens().len() - self.pos(),
                    {
                        if self.is_at_end() {
                            return Err(err("Expected a type or ')'"));
                        }
                        if self.input[self.position].is_type() {
                            let tok = self.eat_current();
                            types.push(tok.inner.as_type());
                        } else if self.input[self.position].get_type() == TokenType::RParen {
                            self.eat_current();
                            break;
                        } else {
                            return Err(err_at("Expected a type or ')'", self.cur_span()));
                        }
                    }
                    let target = parse_types(&types, self.cur_span())?;
                    proof { assert(past(tk, i, self.pos())); }
                    let expr = Box::new(self.expr_top_level()?);
                    Ok(Expr::Cast { target, expr, span: token.span })
                } else {
                    // grouping
                    let expr = self.expr_top_level()?;
                    self.eat(TokenType::RParen, "Expected ')' to close expression.")?;
                    Ok(Expr::Group(Box::new(expr)))
                }
            },
            TokenType::Identifier => {
                let sd = token.inner.as_identifier();
                let span = token.span;

                if self.peek_type() == Some(TokenType::LParen) {
                    self.eat_current();
                    let mut args: Vec<Expr> = Vec::new();
                    loop
                        invariant
                            self.moved_on(*old(self)), self.pos() > old(self).pos(), tk == self.tokens(),
                            p_args(tk, i + 2, Seq::empty()) == p_args(tk, self.pos(), eviews(args@)),
                        decreases self.tokens().len() - self.pos(),
                    {
                        let ghost j = self.pos();
                        if self.is_at_end() {
                            return Err(err_at("Expected ',' or ')' in function call arguments.", span));
                        }
                        if self.input[self.position].get_type() == TokenType::RParen {
                            self.eat_current();
                            break;
                        }
                        let arg = self.expr_top_level()?;
                        let ghost a0 = args@;
                        args.push(arg);
                        proof {
                            assert(args@.drop_last() == a0);
                            assert(eviews(args@) == eviews(a0).push(eview(arg)));
                            assert(past(tk, j, self.pos()));
                        }
                        match self.peek_type() {
                            Some(TokenType::Comma) => {
                                self.eat_current();
                            },
                            Some(TokenType::RParen) => {},
                            _ => return Err(err_at("Expected ',' or ')' in function call arguments.", span)),
                        }
                    }
                    Ok(Expr::FuncCall { name: sd, span, args })
                } else {
                    Ok(Expr::Variable(sd, span))
                }
            },
            _ => Err(err_at("Expected an expression", token.span)),
        }
    }
}

} // verus!
