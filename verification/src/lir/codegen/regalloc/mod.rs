//! Register allocation by coloring the register interference graph.

pub mod rig;
pub mod live_analysis;
pub mod allocation;

use vstd::prelude::*;
use crate::assembly::Register;
use super::super::lir::Operand;

verus! {

/// A register of either kind.
#[derive(Debug, Clone, Copy, PartialEq, Eq, Hash, Structural)]
pub enum GeneralReg {
    Phys(Register),
    Virt(usize),
}

impl GeneralReg {
    pub open spec fn spec_from_operand(op: Operand) -> Option<GeneralReg> {
        match op {
            Operand::PhysReg(r) => Some(GeneralReg::Phys(r)),
            Operand::VirtReg(v) => Some(GeneralReg::Virt(v)),
            _ => None,
        }
    }

    /// The register an operand names, if it names one.
    pub fn from_operand(op: Operand) -> (r: Option<GeneralReg>)
        ensures r == Self::spec_from_operand(op),
    {
        match op {
            Operand::PhysReg(r) => Some(GeneralReg::Phys(r)),
            Operand::VirtReg(v) => Some(GeneralReg::Virt(v)),
            _ => None,
        }
    }
}

/// A node of the interference graph: a register, what spilling it costs,
/// the color it gets and the registers it interferes with.
#[derive(Debug)]
pub struct RigNode {
    pub reg: GeneralReg,
    pub spill_cost: usize,
    pub color: Option<Register>,
    pub neighbors: Vec<GeneralReg>,
}

impl RigNode {
    pub fn new(reg: GeneralReg, spill_cost: usize) -> (r: Self)
        ensures r.reg == reg, r.spill_cost == spill_cost, r.color is None, r.neighbors@.len() == 0,
    {
        RigNode { reg, spill_cost, color: None, neighbors: Vec::new() }
    }
}

/// The colors the allocation chose: the physical register of each register, if any.
#[derive(Debug)]
pub struct AnalyzeResult {
    pub map: Vec<(GeneralReg, Option<Register>)>,
}

} // verus!
