use vstd::prelude::*;
use crate::common::{DataType, Span, StrDescriptor, StringPool, StorageClass, Constant, bool_value, trunc_div, trunc_rem, fits};

verus! {

#[derive(Debug)]
pub struct TopLevel {
    pub decls: Vec<Decl>,
    pub strtb: StringPool,
}

#[derive(Debug)]
pub struct Param {
    pub name: StrDescriptor,
    pub data_type: DataType,
    pub span: Span,
}

#[derive(Debug)]
pub enum Decl {
    FuncDecl {
        return_type: DataType,
        storage_class: StorageClass,
        name: (StrDescriptor, Span),
        params: Vec<Param>,
        // `None` for a declaration without a body
        body: Option<Vec<BlockItem>>,
    },
    VarDecl {
        name: (StrDescriptor, Span),
        storage_class: StorageClass,
        span: Span,
        data_type: DataType,
        initializer: Option<Box<Expr>>,
    },
}

#[derive(Debug)]
pub enum BlockItem {
    Declaration(Decl),
    Statement(Stmt),
}

#[derive(Debug)]
pub enum Expr {
    IntegerLiteral(Constant),
    Variable(StrDescriptor, Span),
    Assignment {
        span: Span,
        left: Box<Expr>,
        right: Box<Expr>,
    },
    Ternary {
        span: Span,
        condition: Box<Expr>,
        then_expr: Box<Expr>,
        else_expr: Box<Expr>,
    },
    Group(Box<Expr>),
    Unary((UnaryOp, Span), Box<Expr>),
    Binary {
        op: (BinaryOp, Span),
        left: Box<Expr>,
        right: Box<Expr>,
    },
    FuncCall {
        name: StrDescriptor,
        span: Span,
        args: Vec<Expr>,
    },
    Cast {
        target: DataType,
        expr: Box<Expr>,
        span: Span,
    },
}

#[derive(Debug)]
pub enum Stmt {
    Return {
        span: Span,
        expr: Box<Expr>,
    },
    Expr(Box<Expr>),
    If {
        condition: Box<Expr>,
        then_branch: Box<Stmt>,
        else_branch: Option<Box<Stmt>>,
    },
    Compound(Vec<BlockItem>),
    Break(Span),
    Continue(Span),
    While {
        span: Span,
        controller: Box<Expr>,
        body: Box<Stmt>,
    },
    DoWhile {
        span: Span,
        body: Box<Stmt>,
        controller: Box<Expr>,
    },
    For {
        span: Span,
        initializer: Option<Box<ForInit>>,
        controller: Option<Box<Expr>>,
        post: Option<Box<Expr>>,
        body: Box<Stmt>,
    },
    Nil,
}

#[derive(Debug)]
pub enum ForInit {
    Declaration(Decl),
    Expression(Expr),
}

#[derive(Debug, Clone, Copy, PartialEq, Eq, Structural)]
pub enum UnaryOp {
    Pos,
    Negate,
    Complement,
    Not,
}

#[derive(Debug, Clone, Copy, PartialEq, Eq, Structural)]
pub enum BinaryOp {
    Add,
    Sub,
    Mul,
    Div,
    Rem,
    LessThan,
    GreaterThan,
    GtEq,
    LtEq,
    Equal,
    NotEqual,
    And,
    Or,
    Assign,
    Ternary,
}

impl BinaryOp {
    pub const MIN_PRECEDENCE: u8 = 0;

    pub open spec fn spec_precedence(self) -> u8 {
        match self {
            BinaryOp::Assign => 0,
            BinaryOp::Ternary => 1,
            BinaryOp::Or => 2,
            BinaryOp::And => 3,
            BinaryOp::Equal | BinaryOp::NotEqual => 4,
            BinaryOp::LessThan | BinaryOp::GreaterThan | BinaryOp::GtEq | BinaryOp::LtEq => 5,
            BinaryOp::Add | BinaryOp::Sub => 6,
            BinaryOp::Mul | BinaryOp::Div | BinaryOp::Rem => 7,
        }
    }

    pub fn precedence(&self) -> (r: u8)
        ensures r == self.spec_precedence(), r <= 7,
    {
        match self {
            BinaryOp::Assign => 0,
            BinaryOp::Ternary => 1,
            BinaryOp::Or => 2,
            BinaryOp::And => 3,
            BinaryOp::Equal | BinaryOp::NotEqual => 4,
            BinaryOp::LessThan | BinaryOp::GreaterThan | BinaryOp::GtEq | BinaryOp::LtEq => 5,
            BinaryOp::Add | BinaryOp::Sub => 6,
            BinaryOp::Mul | BinaryOp::Div | BinaryOp::Rem => 7,
        }
    }

    pub fn prior_than(&self, other: &BinaryOp) -> (r: bool)
        ensures r == (self.spec_precedence() > other.spec_precedence()),
    {
        self.precedence() > other.precedence()
    }
}

impl UnaryOp {
    /// The value of the operator applied to a constant.
    pub open spec fn spec_apply(self, c: Constant) -> Constant {
        match self {
            UnaryOp::Pos => c,
            UnaryOp::Negate => c.spec_neg(),
            UnaryOp::Complement => c.spec_complement(),
            UnaryOp::Not => c.spec_not(),
        }
    }
}

impl Expr {
    /// The constant an initializer denotes: a literal, possibly grouped and
    /// under unary operators.
    pub open spec fn spec_constant(self) -> Option<Constant>
        decreases self,
    {
        match self {
            Expr::IntegerLiteral(c) => Some(c),
            Expr::Group(inner) => inner.spec_constant(),
            Expr::Unary((op, _), inner) => match inner.spec_constant() {
                Some(c) => Some(op.spec_apply(c)),
                None => None,
            },
            _ => None,
        }
    }

    /// The constant value of a constant expression, if it is one.
    pub fn to_constant(&self) -> (r: Option<Constant>)
        ensures r == self.spec_constant(),
        decreases self,
    {
        match self {
            Expr::IntegerLiteral(c) => Some(*c),
            Expr::Group(inner) => inner.to_constant(),
            Expr::Unary((op, _), inner) => match inner.to_constant() {
                Some(c) => Some(match op {
                    UnaryOp::Pos => c,
                    UnaryOp::Negate => c.neg(),
                    UnaryOp::Complement => c.complement(),
                    UnaryOp::Not => c.not(),
                }),
                None => None,
            },
            _ => None,
        }
    }

    pub fn is_constant(&self) -> (r: bool)
        ensures r == self.spec_constant() is Some,
    {
        self.to_constant().is_some()
    }
}


impl BinaryOp {
    /// What the operator computes from the values of its operands, as C
    /// defines it: exact arithmetic, division rounding toward zero, and 1 or 0
    /// for comparisons and logical operators. An assignment has the value it
    /// stores; `?:` is no operation on two values.
    pub open spec fn meaning(self, a: int, b: int) -> int {
        match self {
            BinaryOp::Add => a + b,
            BinaryOp::Sub => a - b,
            BinaryOp::Mul => a * b,
            BinaryOp::Div => trunc_div(a, b),
            BinaryOp::Rem => trunc_rem(a, b),
            BinaryOp::LessThan => bool_value(a < b),
            BinaryOp::GreaterThan => bool_value(a > b),
            BinaryOp::GtEq => bool_value(a >= b),
            BinaryOp::LtEq => bool_value(a <= b),
            BinaryOp::Equal => bool_value(a == b),
            BinaryOp::NotEqual => bool_value(a != b),
            BinaryOp::And => bool_value(a != 0 && b != 0),
            BinaryOp::Or => bool_value(a != 0 || b != 0),
            BinaryOp::Assign => b,
            BinaryOp::Ternary => 0,
        }
    }
}

impl UnaryOp {
    /// What the operator computes from the value of its operand, as C defines it.
    pub open spec fn meaning(self, a: int) -> int {
        match self {
            UnaryOp::Pos => a,
            UnaryOp::Negate => -a,
            UnaryOp::Complement => -a - 1,
            UnaryOp::Not => bool_value(a == 0),
        }
    }
}

/// C's precedence table: `* / %` bind alike and tighter than `+ -`, which
/// bind alike and tighter than the relational operators, then equality,
/// `&&`, `||`, `?:` and assignment, each strictly looser than the one before.
pub proof fn lemma_precedence_table()
    ensures
        BinaryOp::Mul.spec_precedence() == BinaryOp::Div.spec_precedence(),
        BinaryOp::Mul.spec_precedence() == BinaryOp::Rem.spec_precedence(),
        BinaryOp::Add.spec_precedence() == BinaryOp::Sub.spec_precedence(),
        BinaryOp::LessThan.spec_precedence() == BinaryOp::GreaterThan.spec_precedence(),
        BinaryOp::LessThan.spec_precedence() == BinaryOp::GtEq.spec_precedence(),
        BinaryOp::LessThan.spec_precedence() == BinaryOp::LtEq.spec_precedence(),
        BinaryOp::Equal.spec_precedence() == BinaryOp::NotEqual.spec_precedence(),
        BinaryOp::Add.spec_precedence() < BinaryOp::Mul.spec_precedence(),
        BinaryOp::LessThan.spec_precedence() < BinaryOp::Add.spec_precedence(),
        BinaryOp::Equal.spec_precedence() < BinaryOp::LessThan.spec_precedence(),
        BinaryOp::And.spec_precedence() < BinaryOp::Equal.spec_precedence(),
        BinaryOp::Or.spec_precedence() < BinaryOp::And.spec_precedence(),
        BinaryOp::Ternary.spec_precedence() < BinaryOp::Or.spec_precedence(),
        BinaryOp::Assign.spec_precedence() < BinaryOp::Ternary.spec_precedence(),
        BinaryOp::Assign.spec_precedence() == BinaryOp::MIN_PRECEDENCE,
{
}


/// A unary operator applied to a constant initializer gives what C computes,
/// as a constant of the same type: `+` keeps the value, `!` gives 1 exactly
/// when it is 0, `~` minus the value minus one, and `-` the exact negative
/// whenever the type holds it.
pub proof fn lemma_apply_meaning(op: UnaryOp, c: Constant)
    ensures ({
        let v = op.meaning(c.int_value());
        let k = op.spec_apply(c);
        (op is Pos || op is Not || op is Complement || (op is Negate && fits(v, c.spec_data_type())))
            ==> k.spec_data_type() == c.spec_data_type() && k.int_value() == v
    }),
{
    match c {
        Constant::Int(x) => {
            assert((!x) as int == -(x as int) - 1) by (bit_vector);
        },
        Constant::Long(x) => {
            assert((!x) as int == -(x as int) - 1) by (bit_vector);
        },
    }
}

} // verus!
