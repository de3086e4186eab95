//! The three-address code: operands, instructions, functions.

use vstd::prelude::*;
use crate::common::{Constant, DataType, FuncType, InitVal, Linkage, StrDescriptor, StringPool, bool_value, trunc_div, trunc_rem};
use crate::sem::{HirBinaryOp, HirParam, HirUnaryOp};

verus! {

#[derive(Debug, Clone, Copy, PartialEq, Eq, Structural)]
pub enum UnaryOp {
    Pos,
    Negate,
    Complement,
    Not,
}

#[derive(Debug, Clone, Copy, PartialEq, Eq, Structural)]
pub enum BinaryOp {
    Add,
    Sub,
    Mul,
    Div,
    Rem,
    Ls,
    Gt,
    GtEq,
    LsEq,
    Eq,
    NotEq,
    And,
    Or,
}

#[derive(Debug, Clone, Copy, PartialEq, Eq, Structural)]
pub enum Operand {
    Imm(Constant),
    Var {
        name: StrDescriptor,
        // Some(..) for local variables, None for static variables
        local_id: Option<usize>,
        data_type: DataType,
    },
    Temp(usize, DataType),
}

impl Operand {
    pub open spec fn spec_data_type(self) -> DataType {
        match self {
            Operand::Imm(c) => c.spec_data_type(),
            Operand::Var { data_type, .. } => data_type,
            Operand::Temp(_, data_type) => data_type,
        }
    }

    pub open spec fn spec_is_static(self) -> bool {
        self matches Operand::Var { local_id: None, .. }
    }

    pub fn data_type(&self) -> (r: DataType)
        ensures r == self.spec_data_type(),
    {
        match self {
            Operand::Imm(constant) => constant.data_type(),
            Operand::Var { data_type, .. } => *data_type,
            Operand::Temp(_, data_type) => *data_type,
        }
    }

    pub fn is_static(&self) -> (r: bool)
        ensures r == self.spec_is_static(),
    {
        match self {
            Operand::Var { local_id: None, .. } => true,
            _ => false,
        }
    }
}

#[derive(Debug, Clone, Copy, PartialEq, Eq, Structural)]
pub struct Param {
    pub name: StrDescriptor,
    pub data_type: DataType,
    pub local_id: usize,
}

impl Param {
    pub fn from_hir(param: HirParam) -> (r: Param)
        ensures r.name == param.name, r.data_type == param.data_type, r.local_id == param.local_id,
    {
        Param { name: param.name, data_type: param.data_type, local_id: param.local_id }
    }
}

#[derive(Debug, Clone, Copy, PartialEq, Eq, Structural)]
pub enum AutoGenLabel {
    /// A label for a branch or a loop head.
    Branch(usize),
    Continue(usize),
    Break(usize),
}

#[derive(Debug, Clone, Copy, PartialEq, Eq, Structural)]
pub enum LabelOperand {
    AutoGen(AutoGenLabel),
    Named {
        name: StrDescriptor,
        id: usize,
    },
}

impl LabelOperand {
    pub open spec fn spec_id(self) -> usize {
        match self {
            LabelOperand::AutoGen(AutoGenLabel::Branch(id)) => id,
            LabelOperand::AutoGen(AutoGenLabel::Continue(id)) => id,
            LabelOperand::AutoGen(AutoGenLabel::Break(id)) => id,
            LabelOperand::Named { id, .. } => id,
        }
    }

    pub fn id(&self) -> (r: usize)
        ensures r == self.spec_id(),
    {
        match self {
            LabelOperand::AutoGen(auto_gen) => match auto_gen {
                AutoGenLabel::Branch(id) => *id,
                AutoGenLabel::Continue(id) => *id,
                AutoGenLabel::Break(id) => *id,
            },
            LabelOperand::Named { id, .. } => *id,
        }
    }
}

#[derive(Debug)]
pub enum Insn {
    Return(Operand),
    Unary {
        op: UnaryOp,
        src: Operand,
        dst: Operand,
    },
    Binary {
        op: BinaryOp,
        left: Operand,
        right: Operand,
        dst: Operand,
    },
    Label(LabelOperand),
    Jump(LabelOperand),
    BranchIfZero {
        src: Operand,
        label: LabelOperand,
    },
    FuncCall {
        target: StrDescriptor,
        args: Vec<Operand>,
        dst: Operand,
    },
    BranchNotZero {
        src: Operand,
        label: LabelOperand,
    },
    Move {
        src: Operand,
        dst: Operand,
    },
    Truncate {
        src: Operand,
        dst: Operand,
    },
    SignExt {
        src: Operand,
        dst: Operand,
    },
}

impl Insn {
    /// The same instruction, the arguments of a call compared by their view.
    pub open spec fn same(self, other: Insn) -> bool {
        match (self, other) {
            (Insn::FuncCall { target, args, dst }, Insn::FuncCall { target: t2, args: a2, dst: d2 }) =>
                target == t2 && args@ == a2@ && dst == d2,
            _ => self == other,
        }
    }

    /// A copy of the instruction.
    pub fn copy(&self) -> (r: Insn)
        ensures r.same(*self),
    {
        match self {
            Insn::Return(o) => Insn::Return(*o),
            Insn::Unary { op, src, dst } => Insn::Unary { op: *op, src: *src, dst: *dst },
            Insn::Binary { op, left, right, dst } => Insn::Binary { op: *op, left: *left, right: *right, dst: *dst },
            Insn::Label(l) => Insn::Label(*l),
            Insn::Jump(l) => Insn::Jump(*l),
            Insn::BranchIfZero { src, label } => Insn::BranchIfZero { src: *src, label: *label },
            Insn::FuncCall { target, args, dst } => {
                let mut a: Vec<Operand> = Vec::new();
                let mut i: usize = 0;
                while i < args.len()
                    invariant i <= args@.len(), a@ == args@.subrange(0, i as int),
                    decreases args@.len() - i,
                {
                    a.push(args[i]);
                    i = i + 1;
                }
                proof { assert(a@ =~= args@); }
                Insn::FuncCall { target: *target, args: a, dst: *dst }
            },
            Insn::BranchNotZero { src, label } => Insn::BranchNotZero { src: *src, label: *label },
            Insn::Move { src, dst } => Insn::Move { src: *src, dst: *dst },
            Insn::Truncate { src, dst } => Insn::Truncate { src: *src, dst: *dst },
            Insn::SignExt { src, dst } => Insn::SignExt { src: *src, dst: *dst },
        }
    }
}

#[derive(Debug, Clone, Copy, PartialEq, Eq, Structural)]
pub struct LocalVar {
    pub name: StrDescriptor,
    pub local_id: usize,
    pub data_type: DataType,
}

#[derive(Debug)]
pub enum Function {
    Defined {
        return_type: DataType,
        linkage: Linkage,
        name: StrDescriptor,
        params: Vec<Param>,
        /// The local variables by id.
        local_vars: Vec<(usize, LocalVar)>,
        body: Vec<Insn>,
    },
    Declared {
        linkage: Linkage,
        name: StrDescriptor,
        type_: FuncType,
    },
}

impl Function {
    pub open spec fn spec_name(self) -> StrDescriptor {
        match self {
            Function::Defined { name, .. } => name,
            Function::Declared { name, .. } => name,
        }
    }

    /// The parameter types of the function.
    pub open spec fn spec_param_types(self) -> Seq<DataType> {
        match self {
            Function::Defined { params, .. } => params@.map_values(|p: Param| p.data_type),
            Function::Declared { type_, .. } => type_.param_types@,
        }
    }

    pub open spec fn spec_return_type(self) -> DataType {
        match self {
            Function::Defined { return_type, .. } => return_type,
            Function::Declared { type_, .. } => type_.return_type,
        }
    }

    pub fn name(&self) -> (r: StrDescriptor)
        ensures r == self.spec_name(),
    {
        match self {
            Function::Defined { name, .. } => *name,
            Function::Declared { name, .. } => *name,
        }
    }

    /// The type of the function.
    pub fn type_(&self) -> (r: FuncType)
        ensures r.return_type == self.spec_return_type(), r.param_types@ == self.spec_param_types(),
    {
        match self {
            Function::Defined { return_type, params, .. } => {
                let mut param_types: Vec<DataType> = Vec::new();
                let mut i: usize = 0;
                while i < params.len()
                    invariant
                        i <= params@.len(),
                        param_types@ == params@.subrange(0, i as int).map_values(|p: Param| p.data_type),
                    decreases params@.len() - i,
                {
                    param_types.push(params[i].data_type);
                    proof {
                        assert(params@.subrange(0, i as int + 1).map_values(|p: Param| p.data_type)
                            =~= params@.subrange(0, i as int).map_values(|p: Param| p.data_type).push(params@[i as int].data_type));
                    }
                    i = i + 1;
                }
                proof { assert(params@.subrange(0, i as int) =~= params@); }
                FuncType { return_type: *return_type, param_types }
            },
            Function::Declared { type_, .. } => type_.duplicate(),
        }
    }
}

#[derive(Debug, Clone, Copy)]
pub struct StaticVar {
    pub name: StrDescriptor,
    pub data_type: DataType,
    pub initializer: InitVal,
    pub linkage: Linkage,
}

#[derive(Debug)]
pub struct TopLevel {
    pub functions: Vec<Function>,
    pub static_vars: Vec<StaticVar>,
    pub strtb: StringPool,
}

impl BinaryOp {
    pub open spec fn spec_from_hir(op: HirBinaryOp) -> BinaryOp {
        match op {
            HirBinaryOp::Add => BinaryOp::Add,
            HirBinaryOp::Sub => BinaryOp::Sub,
            HirBinaryOp::Mul => BinaryOp::Mul,
            HirBinaryOp::Div => BinaryOp::Div,
            HirBinaryOp::Rem => BinaryOp::Rem,
            HirBinaryOp::Ls => BinaryOp::Ls,
            HirBinaryOp::Gt => BinaryOp::Gt,
            HirBinaryOp::GtEq => BinaryOp::GtEq,
            HirBinaryOp::LsEq => BinaryOp::LsEq,
            HirBinaryOp::Eq => BinaryOp::Eq,
            HirBinaryOp::NotEq => BinaryOp::NotEq,
            HirBinaryOp::And => BinaryOp::And,
            _ => BinaryOp::Or,
        }
    }

    /// The operator of a binary expression; assignment is no binary operator here.
    pub fn from_hir(op: HirBinaryOp) -> (r: BinaryOp)
        requires op != HirBinaryOp::Assign,
        ensures r == Self::spec_from_hir(op),
    {
        match op {
            HirBinaryOp::Add => BinaryOp::Add,
            HirBinaryOp::Sub => BinaryOp::Sub,
            HirBinaryOp::Mul => BinaryOp::Mul,
            HirBinaryOp::Div => BinaryOp::Div,
            HirBinaryOp::Rem => BinaryOp::Rem,
            HirBinaryOp::Ls => BinaryOp::Ls,
            HirBinaryOp::Gt => BinaryOp::Gt,
            HirBinaryOp::GtEq => BinaryOp::GtEq,
            HirBinaryOp::LsEq => BinaryOp::LsEq,
            HirBinaryOp::Eq => BinaryOp::Eq,
            HirBinaryOp::NotEq => BinaryOp::NotEq,
            HirBinaryOp::And => BinaryOp::And,
            _ => BinaryOp::Or,
        }
    }
}

impl UnaryOp {
    pub open spec fn spec_from_hir(op: HirUnaryOp) -> UnaryOp {
        match op {
            HirUnaryOp::Pos => UnaryOp::Pos,
            HirUnaryOp::Negate => UnaryOp::Negate,
            HirUnaryOp::Complement => UnaryOp::Complement,
            HirUnaryOp::Not => UnaryOp::Not,
        }
    }

    pub fn from_hir(op: HirUnaryOp) -> (r: UnaryOp)
        ensures r == Self::spec_from_hir(op),
    {
        match op {
            HirUnaryOp::Pos => UnaryOp::Pos,
            HirUnaryOp::Negate => UnaryOp::Negate,
            HirUnaryOp::Complement => UnaryOp::Complement,
            HirUnaryOp::Not => UnaryOp::Not,
        }
    }
}


impl BinaryOp {
    /// What the operator computes from the values of its operands, as C
    /// defines it: exact arithmetic, division rounding toward zero, and 1 or 0
    /// for comparisons and logical operators.
    pub open spec fn meaning(self, a: int, b: int) -> int {
        match self {
            BinaryOp::Add => a + b,
            BinaryOp::Sub => a - b,
            BinaryOp::Mul => a * b,
            BinaryOp::Div => trunc_div(a, b),
            BinaryOp::Rem => trunc_rem(a, b),
            BinaryOp::Ls => bool_value(a < b),
            BinaryOp::Gt => bool_value(a > b),
            BinaryOp::GtEq => bool_value(a >= b),
            BinaryOp::LsEq => bool_value(a <= b),
            BinaryOp::Eq => bool_value(a == b),
            BinaryOp::NotEq => bool_value(a != b),
            BinaryOp::And => bool_value(a != 0 && b != 0),
            BinaryOp::Or => bool_value(a != 0 || b != 0),
        }
    }
}

impl UnaryOp {
    /// What the operator computes from the value of its operand, as C defines it.
    pub open spec fn meaning(self, a: int) -> int {
        match self {
            UnaryOp::Pos => a,
            UnaryOp::Negate => -a,
            UnaryOp::Complement => -a - 1,
            UnaryOp::Not => bool_value(a == 0),
        }
    }
}

/// Lowering to three-address code keeps what each binary operator computes:
/// the operator it gives computes, on every pair of values, what the HIR's does.
pub proof fn lemma_binary_from_hir_meaning(op: HirBinaryOp, a: int, b: int)
    requires op != HirBinaryOp::Assign,
    ensures BinaryOp::spec_from_hir(op).meaning(a, b) == op.meaning(a, b),
{
}

/// Lowering to three-address code keeps what each unary operator computes.
pub proof fn lemma_unary_from_hir_meaning(op: HirUnaryOp, a: int)
    ensures UnaryOp::spec_from_hir(op).meaning(a) == op.meaning(a),
{
}

} // verus!
