//! HIR representation

use vstd::prelude::*;
use crate::common::{StringPool, StrDescriptor, DataType, Span, Linkage, InitVal, Constant, FuncType, bool_value, trunc_div, trunc_rem};
use crate::ast::{AstUnaryOp, AstBinaryOp};

verus! {

#[derive(Debug)]
pub struct TopLevel {
    pub strtb: StringPool,
    pub funcs: Vec<Function>,
    pub static_vars: Vec<StaticVar>,
}

#[derive(Debug)]
pub enum BlockItem {
    Declaration(LocalVarDecl),
    Statement(Stmt),
}

#[derive(Debug)]
pub struct LocalVarDecl {
    pub name: StrDescriptor,
    pub data_type: DataType,
    pub local_id: usize,
    pub span: Span,
    pub initializer: Option<TypedExpr>,
}

#[derive(Debug)]
pub struct Function {
    pub name: StrDescriptor,
    // 'params' field will be the parameters of the definition of the function if there exists one,
    // otherwise just a blank vector.
    // this is because we need names of parameters to generate code.
    // but if there does not exist a definition, names do not matter.
    pub params: Vec<Param>,
    pub type_: FuncType,
    pub linkage: Linkage,
    pub body: Option<Vec<BlockItem>>,
}

#[derive(Debug, Clone, Copy)]
pub struct StaticVar {
    pub name: StrDescriptor,
    pub data_type: DataType,
    pub linkage: Linkage,
    pub initializer: InitVal,
}

#[derive(Debug, Clone, Copy)]
pub struct Param {
    pub name: StrDescriptor,
    pub data_type: DataType,
    pub local_id: usize,
}

impl Param {
    pub fn type_eq(&self, other: &Param) -> (r: bool)
        ensures r == (self.data_type == other.data_type),
    {
        self.data_type == other.data_type
    }
}

#[derive(Debug)]
pub struct TypedExpr {
    pub untyped: Expr,
    pub type_: DataType,
}

impl TypedExpr {
    pub fn untyped(expr: Expr) -> (r: Self)
        ensures r.untyped == expr, r.type_ == DataType::Indeterminate,
    {
        Self { untyped: expr, type_: DataType::Indeterminate }
    }
}

#[derive(Debug, Clone, Copy, PartialEq, Eq, Structural)]
pub enum Variable {
    Local {
        name: StrDescriptor,
        // every function has its own local variable id counter.
        // we use this field to distinguish local variables.
        local_id: usize,
        data_type: DataType,
    },
    Static {
        name: StrDescriptor,
        data_type: DataType,
    },
}

impl Variable {
    pub open spec fn spec_data_type(self) -> DataType {
        match self {
            Variable::Local { data_type, .. } => data_type,
            Variable::Static { data_type, .. } => data_type,
        }
    }

    pub fn data_type(&self) -> (r: DataType)
        ensures r == self.spec_data_type(),
    {
        match self {
            Variable::Local { data_type, .. } => *data_type,
            Variable::Static { data_type, .. } => *data_type,
        }
    }
}

#[derive(Debug)]
pub enum Expr {
    IntegerLiteral(Constant),
    Var(Variable),
    Assignment {
        span: Span,
        left: Box<TypedExpr>,
        right: Box<TypedExpr>,
    },
    FuncCall {
        name: StrDescriptor,
        span: Span,
        args: Vec<TypedExpr>,
    },
    Ternary {
        span: Span,
        condition: Box<TypedExpr>,
        then_expr: Box<TypedExpr>,
        else_expr: Box<TypedExpr>,
    },
    Group(Box<TypedExpr>),
    Unary((UnaryOp, Span), Box<TypedExpr>),
    Binary {
        op: (BinaryOp, Span),
        left: Box<TypedExpr>,
        right: Box<TypedExpr>,
    },
    Cast {
        target: DataType,
        expr: Box<TypedExpr>,
        span: Span,
    },
}

#[derive(Debug)]
pub enum Stmt {
    Return {
        span: Span,
        expr: Box<TypedExpr>,
    },
    Expr(Box<TypedExpr>),
    If {
        condition: Box<TypedExpr>,
        then_branch: Box<Stmt>,
        else_branch: Option<Box<Stmt>>,
    },
    Break {
        span: Span,
        loop_label: usize,
    },
    Continue {
        span: Span,
        loop_label: usize,
    },
    While {
        span: Span,
        controller: Box<TypedExpr>,
        body: Box<Stmt>,
        loop_label: usize,
    },
    DoWhile {
        span: Span,
        body: Box<Stmt>,
        controller: Box<TypedExpr>,
        loop_label: usize,
    },
    For {
        span: Span,
        initializer: Option<Box<ForInit>>,
        controller: Option<Box<TypedExpr>>,
        post: Option<Box<TypedExpr>>,
        body: Box<Stmt>,
        loop_label: usize,
    },
    Compound(Vec<BlockItem>),
    Nil,
}

#[derive(Debug)]
pub enum ForInit {
    Declaration(LocalVarDecl),
    Expression(Box<TypedExpr>),
}

#[derive(Debug, Clone, Copy, PartialEq, Eq, Structural)]
pub enum UnaryOp {
    Pos,
    Negate,
    Not,
    Complement,
}

#[derive(Debug, Clone, Copy, PartialEq, Eq, Structural)]
pub enum BinaryOp {
    Add,
    Sub,
    Mul,
    Div,
    Rem,
    Ls,
    Gt,
    GtEq,
    LsEq,
    Eq,
    NotEq,
    And,
    Or,
    Assign,
}

impl UnaryOp {
    pub open spec fn spec_from_ast(op: AstUnaryOp) -> UnaryOp {
        match op {
            AstUnaryOp::Pos => UnaryOp::Pos,
            AstUnaryOp::Negate => UnaryOp::Negate,
            AstUnaryOp::Not => UnaryOp::Not,
            AstUnaryOp::Complement => UnaryOp::Complement,
        }
    }

    pub fn from_ast(op: AstUnaryOp) -> (r: UnaryOp)
        ensures r == Self::spec_from_ast(op),
    {
        match op {
            AstUnaryOp::Pos => UnaryOp::Pos,
            AstUnaryOp::Negate => UnaryOp::Negate,
            AstUnaryOp::Not => UnaryOp::Not,
            AstUnaryOp::Complement => UnaryOp::Complement,
        }
    }
}

impl BinaryOp {
    /// The operator of the syntax tree's operator; assignment and `?:` have
    /// expressions of their own and map to `Assign`.
    pub open spec fn spec_from_ast(op: AstBinaryOp) -> BinaryOp {
        match op {
            AstBinaryOp::Add => BinaryOp::Add,
            AstBinaryOp::Sub => BinaryOp::Sub,
            AstBinaryOp::Mul => BinaryOp::Mul,
            AstBinaryOp::Div => BinaryOp::Div,
            AstBinaryOp::Rem => BinaryOp::Rem,
            AstBinaryOp::LessThan => BinaryOp::Ls,
            AstBinaryOp::GreaterThan => BinaryOp::Gt,
            AstBinaryOp::GtEq => BinaryOp::GtEq,
            AstBinaryOp::LtEq => BinaryOp::LsEq,
            AstBinaryOp::Equal => BinaryOp::Eq,
            AstBinaryOp::NotEqual => BinaryOp::NotEq,
            AstBinaryOp::And => BinaryOp::And,
            AstBinaryOp::Or => BinaryOp::Or,
            AstBinaryOp::Assign | AstBinaryOp::Ternary => BinaryOp::Assign,
        }
    }

    pub fn from_ast(op: AstBinaryOp) -> (r: BinaryOp)
        ensures r == Self::spec_from_ast(op),
    {
        match op {
            AstBinaryOp::Add => BinaryOp::Add,
            AstBinaryOp::Sub => BinaryOp::Sub,
            AstBinaryOp::Mul => BinaryOp::Mul,
            AstBinaryOp::Div => BinaryOp::Div,
            AstBinaryOp::Rem => BinaryOp::Rem,
            AstBinaryOp::LessThan => BinaryOp::Ls,
            AstBinaryOp::GreaterThan => BinaryOp::Gt,
            AstBinaryOp::GtEq => BinaryOp::GtEq,
            AstBinaryOp::LtEq => BinaryOp::LsEq,
            AstBinaryOp::Equal => BinaryOp::Eq,
            AstBinaryOp::NotEqual => BinaryOp::NotEq,
            AstBinaryOp::And => BinaryOp::And,
            AstBinaryOp::Or => BinaryOp::Or,
            AstBinaryOp::Assign | AstBinaryOp::Ternary => BinaryOp::Assign,
        }
    }

    pub open spec fn spec_is_arithmetic(self) -> bool {
        self is Add || self is Sub || self is Mul || self is Div || self is Rem
    }

    pub fn is_arithmetic(&self) -> (r: bool)
        ensures r == self.spec_is_arithmetic(),
    {
        match self {
            BinaryOp::Add | BinaryOp::Sub | BinaryOp::Mul | BinaryOp::Div | BinaryOp::Rem => true,
            _ => false,
        }
    }
}

// Debug output
impl TopLevel {
    /// Whether every name of a function, parameter and static variable is in the string pool.
    pub open spec fn names_interned(&self) -> bool {
        &&& forall|i: int| 0 <= i < self.funcs@.len() ==> self.strtb.holds(#[trigger] self.funcs@[i].name)
        &&& forall|i: int, j: int| 0 <= i < self.funcs@.len() && 0 <= j < self.funcs@[i].params@.len()
                ==> self.strtb.holds(#[trigger] self.funcs@[i].params@[j].name)
        &&& forall|i: int| 0 <= i < self.static_vars@.len() ==> self.strtb.holds(#[trigger] self.static_vars@[i].name)
    }

    /// Appends the parameters of a function, separated by commas.
    fn push_params(&self, params: &Vec<Param>, output: &mut Vec<char>)
        requires forall|j: int| 0 <= j < params@.len() ==> self.strtb.holds(#[trigger] params@[j].name),
        ensures final(output)@ == old(output)@ + params_text(params@, self.strtb@),
    {
        let ghost head = output@;
        let mut j: usize = 0;
        while j < params.len()
            invariant j <= params.len(),
                forall|k: int| 0 <= k < params@.len() ==> self.strtb.holds(#[trigger] params@[k].name),
                output@ == head + params_text(params@.subrange(0, j as int), self.strtb@),
            decreases params.len() - j,
        {
            if j > 0 {
                crate::text::push_str(output, ", ");
            }
            self.strtb.push_name(params[j].name, output);
            output.push(' ');
            params[j].data_type.push_name(output);
            proof {
                let q = params@.subrange(0, j as int + 1);
                assert(q.drop_last() =~= params@.subrange(0, j as int));
                assert(q.last() == params@[j as int]);
                assert(output@ =~= head + params_text(q, self.strtb@));
            }
            j = j + 1;
        }
        proof { assert(params@.subrange(0, j as int) =~= params@); }
    }

    /// Appends the line of one function.
    fn push_func_line(&self, func: &Function, output: &mut Vec<char>)
        requires
            self.strtb.holds(func.name),
            forall|j: int| 0 <= j < func.params@.len() ==> self.strtb.holds(#[trigger] func.params@[j].name),
        ensures final(output)@ == old(output)@ + func_line(*func, self.strtb@),
    {
        output.push('[');
        push_linkage(output, func.linkage);
        crate::text::push_str(output, "] fn ");
        self.strtb.push_name(func.name, output);
        output.push('(');
        if func.params.len() == 0 {
            crate::text::push_str(output, "void");
        } else {
            self.push_params(&func.params, output);
        }
        crate::text::push_str(output, ") -> ");
        func.type_.return_type.push_name(output);
        if func.body.is_some() {
            crate::text::push_str(output, " { ... }");
        }
        output.push('\n');
        proof { assert(final(output)@ =~= old(output)@ + func_line(*func, self.strtb@)); }
    }

    /// One line per function: linkage, name, parameters and return type.
    pub fn dump_funcs(&self) -> (r: String)
        requires self.names_interned(),
        ensures r@ == funcs_text(self.funcs@, self.strtb@),
    {
        let mut output: Vec<char> = Vec::new();
        let mut i: usize = 0;
        while i < self.funcs.len()
            invariant i <= self.funcs.len(), self.names_interned(),
                output@ == funcs_text(self.funcs@.subrange(0, i as int), self.strtb@),
            decreases self.funcs.len() - i,
        {
            let ghost before = output@;
            proof {
                assert(self.strtb.holds(self.funcs@[i as int].name));
                assert forall|j: int| 0 <= j < self.funcs@[i as int].params@.len() implies self.strtb.holds(#[trigger] self.funcs@[i as int].params@[j].name) by {}
            }
            self.push_func_line(&self.funcs[i], &mut output);
            proof {
                let q = self.funcs@.subrange(0, i as int + 1);
                assert(q.drop_last() =~= self.funcs@.subrange(0, i as int));
                assert(q.last() == self.funcs@[i as int]);
            }
            i = i + 1;
        }
        proof { assert(self.funcs@.subrange(0, i as int) =~= self.funcs@); }
        crate::text::string_from_chars(&output)
    }

    /// One entry per static variable: linkage, type, name and initial value.
    #[verifier::spinoff_prover]
    #[verifier::rlimit(30)]
    pub fn dump_static_vars(&self) -> (r: String)
        requires self.names_interned(),
        ensures r@ == statics_text(self.static_vars@, self.strtb@),
    {
        let mut output: Vec<char> = Vec::new();
        let mut i: usize = 0;
        while i < self.static_vars.len()
            invariant i <= self.static_vars.len(), self.names_interned(),
                output@ == statics_text(self.static_vars@.subrange(0, i as int), self.strtb@),
            decreases self.static_vars.len() - i,
        {
            let var = &self.static_vars[i];
            let ghost before = output@;
            output.push('[');
            push_linkage(&mut output, var.linkage);
            crate::text::push_str(&mut output, "]\n");
            var.data_type.push_name(&mut output);
            output.push(' ');
            self.strtb.push_name(var.name, &mut output);
            output.push(' ');
            match var.initializer {
                InitVal::Absent => crate::text::push_str(&mut output, "= undefined\n"),
                InitVal::Const(c) => {
                    crate::text::push_str(&mut output, "= ");
                    crate::text::push_int(&mut output, c.value());
                    output.push('\n');
                },
                InitVal::Tentative => crate::text::push_str(&mut output, "= tentative\n"),
            }
            proof {
                let q = self.static_vars@.subrange(0, i as int + 1);
                assert(q.drop_last() =~= self.static_vars@.subrange(0, i as int));
                assert(q.last() == self.static_vars@[i as int]);
                assert(output@ =~= before + static_line(self.static_vars@[i as int], self.strtb@));
            }
            i = i + 1;
        }
        proof { assert(self.static_vars@.subrange(0, i as int) =~= self.static_vars@); }
        crate::text::string_from_chars(&output)
    }
}

/// The name of a linkage.
pub open spec fn linkage_text(linkage: Linkage) -> Seq<char> {
    if linkage is Internal { "internal"@ } else { "external"@ }
}

/// The parameters of a function: name and type, separated by commas.
pub open spec fn params_text(ps: Seq<Param>, pool: Seq<Seq<char>>) -> Seq<char>
    decreases ps.len(),
{
    if ps.len() == 0 {
        Seq::empty()
    } else {
        let p = ps.last();
        let one = pool[p.name.0 as int] + seq![' '] + p.data_type.spec_name();
        if ps.len() == 1 { one } else { params_text(ps.drop_last(), pool) + ", "@ + one }
    }
}

/// The line of a function: linkage, name, parameters, return type, and
/// whether it has a body.
pub open spec fn func_line(f: Function, pool: Seq<Seq<char>>) -> Seq<char> {
    seq!['['] + linkage_text(f.linkage) + "] fn "@ + pool[f.name.0 as int] + seq!['(']
        + (if f.params@.len() == 0 { "void"@ } else { params_text(f.params@, pool) })
        + ") -> "@ + f.type_.return_type.spec_name()
        + (if f.body is Some { " { ... }"@ } else { Seq::empty() }) + seq!['\n']
}

/// The lines of the functions, in order.
pub open spec fn funcs_text(fs: Seq<Function>, pool: Seq<Seq<char>>) -> Seq<char>
    decreases fs.len(),
{
    if fs.len() == 0 { Seq::empty() } else { funcs_text(fs.drop_last(), pool) + func_line(fs.last(), pool) }
}

/// The entry of a static variable: linkage, type, name and initial value.
pub open spec fn static_line(v: StaticVar, pool: Seq<Seq<char>>) -> Seq<char> {
    seq!['['] + linkage_text(v.linkage) + "]\n"@ + v.data_type.spec_name() + seq![' '] + pool[v.name.0 as int] + seq![' ']
        + match v.initializer {
            InitVal::Absent => "= undefined\n"@,
            InitVal::Const(c) => "= "@ + crate::text::dec_int(c.spec_value() as int) + seq!['\n'],
            InitVal::Tentative => "= tentative\n"@,
        }
}

/// The entries of the static variables, in order.
pub open spec fn statics_text(vs: Seq<StaticVar>, pool: Seq<Seq<char>>) -> Seq<char>
    decreases vs.len(),
{
    if vs.len() == 0 { Seq::empty() } else { statics_text(vs.drop_last(), pool) + static_line(vs.last(), pool) }
}

/// Appends the name of a linkage.
pub fn push_linkage(out: &mut Vec<char>, linkage: Linkage)
    ensures final(out)@ == old(out)@ + (if linkage is Internal { "internal"@ } else { "external"@ }),
{
    match linkage {
        Linkage::Internal => crate::text::push_str(out, "internal"),
        Linkage::External => crate::text::push_str(out, "external"),
    }
}


impl BinaryOp {
    /// What the operator computes from the values of its operands, as C
    /// defines it: exact arithmetic, division rounding toward zero, and 1 or 0
    /// for comparisons and logical operators; an assignment has the value it stores.
    pub open spec fn meaning(self, a: int, b: int) -> int {
        match self {
            BinaryOp::Add => a + b,
            BinaryOp::Sub => a - b,
            BinaryOp::Mul => a * b,
            BinaryOp::Div => trunc_div(a, b),
            BinaryOp::Rem => trunc_rem(a, b),
            BinaryOp::Ls => bool_value(a < b),
            BinaryOp::Gt => bool_value(a > b),
            BinaryOp::GtEq => bool_value(a >= b),
            BinaryOp::LsEq => bool_value(a <= b),
            BinaryOp::Eq => bool_value(a == b),
            BinaryOp::NotEq => bool_value(a != b),
            BinaryOp::And => bool_value(a != 0 && b != 0),
            BinaryOp::Or => bool_value(a != 0 || b != 0),
            BinaryOp::Assign => b,
        }
    }
}

impl UnaryOp {
    /// What the operator computes from the value of its operand, as C defines it.
    pub open spec fn meaning(self, a: int) -> int {
        match self {
            UnaryOp::Pos => a,
            UnaryOp::Negate => -a,
            UnaryOp::Complement => -a - 1,
            UnaryOp::Not => bool_value(a == 0),
        }
    }
}

/// Name resolution keeps what each binary operator computes: the operator it
/// gives computes, on every pair of values, what the syntax tree's operator does.
pub proof fn lemma_binary_from_ast_meaning(op: AstBinaryOp, a: int, b: int)
    requires !(op is Ternary),
    ensures BinaryOp::spec_from_ast(op).meaning(a, b) == op.meaning(a, b),
{
}

/// Name resolution keeps what each unary operator computes.
pub proof fn lemma_unary_from_ast_meaning(op: AstUnaryOp, a: int)
    ensures UnaryOp::spec_from_ast(op).meaning(a) == op.meaning(a),
{
}

} // verus!
