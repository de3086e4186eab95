//! drcc: a small C compiler, from source text to RISC-V assembly.

pub mod text;
pub mod common;
pub mod ast;
pub mod lex;
pub mod parse;
pub mod sem;
pub mod tac;
pub mod assembly;
pub mod lir;
