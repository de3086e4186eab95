//! Three-address code: the HIR lowered to instructions over operands and
//! temporaries.

mod tac;
mod spec;
mod codegen;
pub mod opt;
mod emit;

pub use tac::{
    Operand as TacOperand,
    Insn as TacInsn,
    Function as TacFunction,
    StaticVar as TacStaticVar,
    TopLevel as TacTopLevel,
    UnaryOp as TacUnaryOp,
    BinaryOp as TacBinaryOp,
    Param as TacParam,
    LocalVar as TacLocalVar,
    LabelOperand as TacLabelOperand,
    AutoGenLabel as TacAutoGenLabel,
};
pub use codegen::{CodeGen as TacCodeGen, CodeGen, Parse, Opt, FuncContext};
