//! Tokens, and tokens' types used in relevant stages of the compiler.

use vstd::prelude::*;
use super::{Span, StrDescriptor, DataType, StorageClass, Constant};
use crate::ast::AstBinaryOp;

verus! {

/// Token without any additional information.
#[derive(Debug, Clone, PartialEq, Eq, Structural)]
pub enum RawToken {
    LParen,
    RParen,
    LBrace,
    RBrace,
    Tilde,
    Hyphen,
    DoubleHyphen,
    Plus,
    DoublePlus,
    Asterisk,
    ForwardSlash,
    Percent,
    Semicolon,
    Bang,
    And,
    Equal,
    LessThan,
    GreaterThan,
    NotEqual,
    GtEq,
    LtEq,
    Or,
    DoubleOr,
    DoubleAnd,
    DoubleEqual,
    Return,
    If,
    Else,
    QuestionMark,
    Colon,
    Int,
    Void,
    Long,
    Static,
    Extern,
    Comma,
    Break,
    Continue,
    While,
    Do,
    For,
    // [0-9]+
    Integer(i64),
    // [0-9]+ followed by 'l' or 'L'
    LongInteger(i64),
    // [a-zA-Z_][a-zA-Z0-9_]*
    Identifier(StrDescriptor),
    Nothing,
}

#[derive(Debug, Clone, Copy, PartialEq, Eq, Structural)]
pub enum TokenType {
    LParen,
    RParen,
    LBrace,
    RBrace,
    Tilde,
    Hyphen,
    DoubleHyphen,
    Plus,
    DoublePlus,
    Asterisk,
    ForwardSlash,
    Percent,
    Semicolon,
    Bang,
    And,
    Equal,
    LessThan,
    GreaterThan,
    NotEqual,
    GtEq,
    LtEq,
    Or,
    DoubleOr,
    DoubleAnd,
    DoubleEqual,
    Return,
    If,
    Else,
    QuestionMark,
    Colon,
    Int,
    Void,
    Long,
    Static,
    Extern,
    Comma,
    Break,
    Continue,
    While,
    Do,
    For,
    Integer,
    LongInteger,
    Identifier,
    Nothing,
}

#[derive(Debug, Clone)]
pub struct Token {
    pub inner: RawToken,
    pub span: Span,
}

impl RawToken {
    pub open spec fn spec_type(self) -> TokenType {
        match self {
            RawToken::LParen => TokenType::LParen,
            RawToken::RParen => TokenType::RParen,
            RawToken::LBrace => TokenType::LBrace,
            RawToken::RBrace => TokenType::RBrace,
            RawToken::Tilde => TokenType::Tilde,
            RawToken::Hyphen => TokenType::Hyphen,
            RawToken::DoubleHyphen => TokenType::DoubleHyphen,
            RawToken::Plus => TokenType::Plus,
            RawToken::DoublePlus => TokenType::DoublePlus,
            RawToken::Asterisk => TokenType::Asterisk,
            RawToken::ForwardSlash => TokenType::ForwardSlash,
            RawToken::Percent => TokenType::Percent,
            RawToken::Semicolon => TokenType::Semicolon,
            RawToken::Bang => TokenType::Bang,
            RawToken::And => TokenType::And,
            RawToken::Equal => TokenType::Equal,
            RawToken::LessThan => TokenType::LessThan,
            RawToken::GreaterThan => TokenType::GreaterThan,
            RawToken::NotEqual => TokenType::NotEqual,
            RawToken::GtEq => TokenType::GtEq,
            RawToken::LtEq => TokenType::LtEq,
            RawToken::Or => TokenType::Or,
            RawToken::DoubleOr => TokenType::DoubleOr,
            RawToken::DoubleAnd => TokenType::DoubleAnd,
            RawToken::DoubleEqual => TokenType::DoubleEqual,
            RawToken::Return => TokenType::Return,
            RawToken::If => TokenType::If,
            RawToken::Else => TokenType::Else,
            RawToken::QuestionMark => TokenType::QuestionMark,
            RawToken::Colon => TokenType::Colon,
            RawToken::Int => TokenType::Int,
            RawToken::Void => TokenType::Void,
            RawToken::Long => TokenType::Long,
            RawToken::Static => TokenType::Static,
            RawToken::Extern => TokenType::Extern,
            RawToken::Comma => TokenType::Comma,
            RawToken::Break => TokenType::Break,
            RawToken::Continue => TokenType::Continue,
            RawToken::While => TokenType::While,
            RawToken::Do => TokenType::Do,
            RawToken::For => TokenType::For,
            RawToken::Integer(_) => TokenType::Integer,
            RawToken::LongInteger(_) => TokenType::LongInteger,
            RawToken::Identifier(_) => TokenType::Identifier,
            RawToken::Nothing => TokenType::Nothing,
        }
    }

    /// A copy of the raw token.
    pub fn copy(&self) -> (r: RawToken)
        ensures r == *self,
    {
        match self {
            RawToken::LParen => RawToken::LParen,
            RawToken::RParen => RawToken::RParen,
            RawToken::LBrace => RawToken::LBrace,
            RawToken::RBrace => RawToken::RBrace,
            RawToken::Tilde => RawToken::Tilde,
            RawToken::Hyphen => RawToken::Hyphen,
            RawToken::DoubleHyphen => RawToken::DoubleHyphen,
            RawToken::Plus => RawToken::Plus,
            RawToken::DoublePlus => RawToken::DoublePlus,
            RawToken::Asterisk => RawToken::Asterisk,
            RawToken::ForwardSlash => RawToken::ForwardSlash,
            RawToken::Percent => RawToken::Percent,
            RawToken::Semicolon => RawToken::Semicolon,
            RawToken::Bang => RawToken::Bang,
            RawToken::And => RawToken::And,
            RawToken::Equal => RawToken::Equal,
            RawToken::LessThan => RawToken::LessThan,
            RawToken::GreaterThan => RawToken::GreaterThan,
            RawToken::NotEqual => RawToken::NotEqual,
            RawToken::GtEq => RawToken::GtEq,
            RawToken::LtEq => RawToken::LtEq,
            RawToken::Or => RawToken::Or,
            RawToken::DoubleOr => RawToken::DoubleOr,
            RawToken::DoubleAnd => RawToken::DoubleAnd,
            RawToken::DoubleEqual => RawToken::DoubleEqual,
            RawToken::Return => RawToken::Return,
            RawToken::If => RawToken::If,
            RawToken::Else => RawToken::Else,
            RawToken::QuestionMark => RawToken::QuestionMark,
            RawToken::Colon => RawToken::Colon,
            RawToken::Int => RawToken::Int,
            RawToken::Void => RawToken::Void,
            RawToken::Long => RawToken::Long,
            RawToken::Static => RawToken::Static,
            RawToken::Extern => RawToken::Extern,
            RawToken::Comma => RawToken::Comma,
            RawToken::Break => RawToken::Break,
            RawToken::Continue => RawToken::Continue,
            RawToken::While => RawToken::While,
            RawToken::Do => RawToken::Do,
            RawToken::For => RawToken::For,
            RawToken::Integer(v) => RawToken::Integer(*v),
            RawToken::LongInteger(v) => RawToken::LongInteger(*v),
            RawToken::Identifier(d) => RawToken::Identifier(*d),
            RawToken::Nothing => RawToken::Nothing,
        }
    }

    pub fn as_integer(self) -> (r: i64)
        requires self is Integer || self is LongInteger,
        ensures r == (match self { RawToken::Integer(v) => v, RawToken::LongInteger(v) => v, _ => 0 }),
    {
        match self {
            RawToken::Integer(val) => val,
            RawToken::LongInteger(val) => val,
            _ => 0,
        }
    }

    pub fn as_identifier(self) -> (r: StrDescriptor)
        requires self is Identifier,
        ensures self == RawToken::Identifier(r),
    {
        match self {
            RawToken::Identifier(val) => val,
            _ => StrDescriptor(0),
        }
    }

    /// The constant an integer literal denotes: an `int` when an unsuffixed
    /// value fits in 32 bits, a `long` otherwise.
    pub open spec fn spec_constant(self) -> Constant {
        match self {
            RawToken::Integer(v) => if i32::MIN <= v <= i32::MAX { Constant::Int(v as i32) } else { Constant::Long(v) },
            RawToken::LongInteger(v) => Constant::Long(v),
            _ => Constant::Int(0),
        }
    }

    pub fn as_constant(self) -> (r: Constant)
        requires self is Integer || self is LongInteger,
        ensures r == self.spec_constant(),
    {
        match self {
            RawToken::Integer(v) => if i32::MIN as i64 <= v && v <= i32::MAX as i64 { Constant::Int(v as i32) } else { Constant::Long(v) },
            RawToken::LongInteger(v) => Constant::Long(v),
            _ => Constant::Int(0),
        }
    }

    /// The type a type keyword names.
    pub open spec fn spec_as_type(self) -> DataType {
        match self {
            RawToken::Int => DataType::Int,
            RawToken::Long => DataType::Long,
            RawToken::Void => DataType::Void,
            _ => DataType::Indeterminate,
        }
    }

    pub fn as_type(self) -> (r: DataType)
        ensures r == self.spec_as_type(),
    {
        match self {
            RawToken::Int => DataType::Int,
            RawToken::Long => DataType::Long,
            RawToken::Void => DataType::Void,
            _ => DataType::Indeterminate,
        }
    }
}

impl TokenType {
    pub open spec fn spec_is_type(self) -> bool {
        self is Int || self is Void || self is Long
    }

    pub open spec fn spec_is_specifier(self) -> bool {
        self is Static || self is Extern
    }

    /// The tokens that may stand between two operands.
    pub open spec fn spec_is_binary_op(self) -> bool {
        self is Plus || self is Hyphen || self is Asterisk || self is ForwardSlash || self is Percent
        || self is LessThan || self is GreaterThan || self is GtEq || self is LtEq || self is Equal
        || self is NotEqual || self is And || self is Or || self is DoubleAnd || self is DoubleOr
        || self is DoubleEqual || self is QuestionMark
    }

    /// The binary-operator tokens that have an operator of the syntax tree.
    pub open spec fn spec_has_binary_op(self) -> bool {
        self.spec_is_binary_op() && !(self is And) && !(self is Or)
    }

    pub open spec fn spec_binary_op(self) -> AstBinaryOp {
        match self {
            TokenType::Plus => AstBinaryOp::Add,
            TokenType::Hyphen => AstBinaryOp::Sub,
            TokenType::Asterisk => AstBinaryOp::Mul,
            TokenType::ForwardSlash => AstBinaryOp::Div,
            TokenType::Percent => AstBinaryOp::Rem,
            TokenType::LessThan => AstBinaryOp::LessThan,
            TokenType::GreaterThan => AstBinaryOp::GreaterThan,
            TokenType::GtEq => AstBinaryOp::GtEq,
            TokenType::LtEq => AstBinaryOp::LtEq,
            TokenType::NotEqual => AstBinaryOp::NotEqual,
            TokenType::DoubleAnd => AstBinaryOp::And,
            TokenType::DoubleOr => AstBinaryOp::Or,
            TokenType::DoubleEqual => AstBinaryOp::Equal,
            TokenType::Equal => AstBinaryOp::Assign,
            _ => AstBinaryOp::Ternary,
        }
    }
}

impl Token {
    pub fn new(inner: RawToken, span: Span) -> (r: Self)
        ensures r.inner == inner, r.span == span,
    {
        Token { inner, span }
    }

    pub open spec fn spec_type(self) -> TokenType {
        self.inner.spec_type()
    }

    pub fn get_type(&self) -> (r: TokenType)
        ensures r == self.spec_type(),
    {
        match &self.inner {
            RawToken::LParen => TokenType::LParen,
            RawToken::RParen => TokenType::RParen,
            RawToken::LBrace => TokenType::LBrace,
            RawToken::RBrace => TokenType::RBrace,
            RawToken::Tilde => TokenType::Tilde,
            RawToken::Hyphen => TokenType::Hyphen,
            RawToken::DoubleHyphen => TokenType::DoubleHyphen,
            RawToken::Plus => TokenType::Plus,
            RawToken::DoublePlus => TokenType::DoublePlus,
            RawToken::Asterisk => TokenType::Asterisk,
            RawToken::ForwardSlash => TokenType::ForwardSlash,
            RawToken::Percent => TokenType::Percent,
            RawToken::Semicolon => TokenType::Semicolon,
            RawToken::Bang => TokenType::Bang,
            RawToken::And => TokenType::And,
            RawToken::Equal => TokenType::Equal,
            RawToken::LessThan => TokenType::LessThan,
            RawToken::GreaterThan => TokenType::GreaterThan,
            RawToken::NotEqual => TokenType::NotEqual,
            RawToken::GtEq => TokenType::GtEq,
            RawToken::LtEq => TokenType::LtEq,
            RawToken::Or => TokenType::Or,
            RawToken::DoubleOr => TokenType::DoubleOr,
            RawToken::DoubleAnd => TokenType::DoubleAnd,
            RawToken::DoubleEqual => TokenType::DoubleEqual,
            RawToken::Return => TokenType::Return,
            RawToken::If => TokenType::If,
            RawToken::Else => TokenType::Else,
            RawToken::QuestionMark => TokenType::QuestionMark,
            RawToken::Colon => TokenType::Colon,
            RawToken::Int => TokenType::Int,
            RawToken::Void => TokenType::Void,
            RawToken::Long => TokenType::Long,
            RawToken::Static => TokenType::Static,
            RawToken::Extern => TokenType::Extern,
            RawToken::Comma => TokenType::Comma,
            RawToken::Break => TokenType::Break,
            RawToken::Continue => TokenType::Continue,
            RawToken::While => TokenType::While,
            RawToken::Do => TokenType::Do,
            RawToken::For => TokenType::For,
            RawToken::Integer(_) => TokenType::Integer,
            RawToken::LongInteger(_) => TokenType::LongInteger,
            RawToken::Identifier(_) => TokenType::Identifier,
            RawToken::Nothing => TokenType::Nothing,
        }
    }

    /// Tokens at which error recovery may resume: declarations start with a type.
    pub fn is_synchronizer(&self) -> (r: bool)
        ensures r == (self.spec_type() is Int || self.spec_type() is Void),
    {
        let t = self.get_type();
        t == TokenType::Int || t == TokenType::Void
    }

    pub fn is_type(&self) -> (r: bool)
        ensures r == self.spec_type().spec_is_type(),
    {
        let t = self.get_type();
        t == TokenType::Int || t == TokenType::Void || t == TokenType::Long
    }

    pub fn is_specifier(&self) -> (r: bool)
        ensures r == self.spec_type().spec_is_specifier(),
    {
        let t = self.get_type();
        t == TokenType::Static || t == TokenType::Extern
    }

    pub fn to_storage_class(&self) -> (r: StorageClass)
        ensures
            r == (if self.spec_type() is Static { StorageClass::Static }
                else if self.spec_type() is Extern { StorageClass::Extern }
                else { StorageClass::Unspecified }),
    {
        match self.get_type() {
            TokenType::Static => StorageClass::Static,
            TokenType::Extern => StorageClass::Extern,
            _ => StorageClass::Unspecified,
        }
    }

    pub fn is_binary_op(&self) -> (r: bool)
        ensures r == self.spec_type().spec_is_binary_op(),
    {
        let t = self.get_type();
        t == TokenType::Plus || t == TokenType::Hyphen || t == TokenType::Asterisk || t == TokenType::ForwardSlash || t == TokenType::Percent
        || t == TokenType::LessThan || t == TokenType::GreaterThan || t == TokenType::GtEq || t == TokenType::LtEq || t == TokenType::Equal
        || t == TokenType::NotEqual || t == TokenType::And || t == TokenType::Or || t == TokenType::DoubleAnd || t == TokenType::DoubleOr
        || t == TokenType::DoubleEqual || t == TokenType::QuestionMark
    }

    pub fn to_binary_op(&self) -> (r: AstBinaryOp)
        requires self.spec_type().spec_has_binary_op(),
        ensures r == self.spec_type().spec_binary_op(),
    {
        match self.get_type() {
            TokenType::Plus => AstBinaryOp::Add,
            TokenType::Hyphen => AstBinaryOp::Sub,
            TokenType::Asterisk => AstBinaryOp::Mul,
            TokenType::ForwardSlash => AstBinaryOp::Div,
            TokenType::Percent => AstBinaryOp::Rem,
            TokenType::LessThan => AstBinaryOp::LessThan,
            TokenType::GreaterThan => AstBinaryOp::GreaterThan,
            TokenType::GtEq => AstBinaryOp::GtEq,
            TokenType::LtEq => AstBinaryOp::LtEq,
            TokenType::NotEqual => AstBinaryOp::NotEqual,
            TokenType::DoubleAnd => AstBinaryOp::And,
            TokenType::DoubleOr => AstBinaryOp::Or,
            TokenType::DoubleEqual => AstBinaryOp::Equal,
            TokenType::Equal => AstBinaryOp::Assign,
            _ => AstBinaryOp::Ternary,
        }
    }

    /// A copy of the token.
    pub fn copy(&self) -> (r: Token)
        ensures r.inner == self.inner, r.span == self.span,
    {
        Token { inner: self.inner.copy(), span: self.span.copy() }
    }

    /// Takes the token out, leaving an empty token in its place.
    pub fn take(&mut self) -> (r: Self)
        ensures r.inner == old(self).inner, r.span == old(self).span, final(self).inner == RawToken::Nothing,
    {
        let mut other = Token::default();
        core::mem::swap(self, &mut other);
        other
    }
}

impl Default for Token {
    fn default() -> (r: Self)
        ensures r.inner == RawToken::Nothing, r.span == (Span { line: 0, column: 0, length: None }),
    {
        Self {
            inner: RawToken::Nothing,
            span: Span::new(0, 0),
        }
    }
}

} // verus!
