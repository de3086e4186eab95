//! The stages that lower three-address code to LIR: instruction selection, register
//! allocation, spilling and canonicalization.

pub mod parse;
pub mod regalloc;
pub mod spill;
pub mod canonic;


use vstd::prelude::*;
use crate::assembly::Register;
use crate::common::{FuncType, StrDescriptor};
use super::lir::{LabelSignature};

verus! {

/// The value of `k` in a table of pairs, the last entry winning.
pub open spec fn lookup<V>(t: Seq<(usize, V)>, k: usize) -> Option<V>
    decreases t.len(),
{
    if t.len() == 0 {
        None
    } else if t.last().0 == k {
        Some(t.last().1)
    } else {
        lookup(t.drop_last(), k)
    }
}

/// Finds the value of `k`, the last entry winning.
pub fn find<V: Copy>(t: &Vec<(usize, V)>, k: usize) -> (r: Option<V>)
    ensures r == lookup(t@, k),
{
    let mut i: usize = t.len();
    proof { assert(t@.subrange(0, i as int) =~= t@); }
    while i > 0
        invariant
            i <= t@.len(),
            lookup(t@, k) == lookup(t@.subrange(0, i as int), k),
        decreases i,
    {
        proof { assert(t@.subrange(0, i as int).drop_last() =~= t@.subrange(0, i as int - 1)); }
        if t[i - 1].0 == k {
            return Some(t[i - 1].1);
        }
        i = i - 1;
    }
    proof { assert(t@.subrange(0, 0) =~= Seq::<(usize, V)>::empty()); }
    None
}

/// What every stage keeps for one function.
#[derive(Debug)]
pub struct FuncContext {
    pub name: StrDescriptor,
    pub type_: FuncType,
    pub next_v_reg: usize,
    pub frame_size: usize,
    /// Temporaries by id to virtual registers.
    pub tmap: Vec<(usize, usize)>,
    /// Variables by local id to virtual registers.
    pub vmap: Vec<(usize, usize)>,
    /// Spilled virtual registers to frame offsets.
    pub mmap: Vec<(usize, isize)>,
    /// Registers saved across calls, with their frame offsets.
    pub callee_saved: Option<Vec<(Register, isize)>>,
}

impl FuncContext {
    /// A context with the return address and frame pointer saved at the top of the frame.
    pub fn new(name: StrDescriptor, type_: FuncType) -> (r: Self)
        ensures
            r.name == name, r.type_ == type_, r.next_v_reg == 0, r.frame_size == 16,
            r.tmap@.len() == 0, r.vmap@.len() == 0, r.mmap@.len() == 0,
            r.callee_saved matches Some(v) && v@ == seq![(Register::S0, -16isize), (Register::Ra, -8isize)],
    {
        let saved: Vec<(Register, isize)> = vec![(Register::S0, -16), (Register::Ra, -8)];
        proof { assert(saved@ =~= seq![(Register::S0, -16isize), (Register::Ra, -8isize)]); }
        FuncContext {
            name,
            type_,
            next_v_reg: 0,
            frame_size: 16,
            tmap: Vec::new(),
            vmap: Vec::new(),
            mmap: Vec::new(),
            callee_saved: Some(saved),
        }
    }

    /// A fresh virtual register.
    pub fn alloc_v_reg(&mut self) -> (r: usize)
        requires old(self).next_v_reg < usize::MAX,
        ensures
            r == old(self).next_v_reg,
            final(self).next_v_reg == old(self).next_v_reg + 1,
            final(self).name == old(self).name,
            final(self).type_ == old(self).type_,
            final(self).frame_size == old(self).frame_size,
            final(self).tmap == old(self).tmap,
            final(self).vmap == old(self).vmap,
            final(self).mmap == old(self).mmap,
            final(self).callee_saved == old(self).callee_saved,
    {
        let v_reg = self.next_v_reg;
        self.next_v_reg = self.next_v_reg + 1;
        v_reg
    }

    /// Records the frame slot of a spilled virtual register.
    pub fn map_vreg2frame(&mut self, v_reg: usize, offset: isize)
        requires lookup(old(self).mmap@, v_reg) is None,
        ensures
            final(self).mmap@ == old(self).mmap@.push((v_reg, offset)),
            final(self).name == old(self).name,
            final(self).type_ == old(self).type_,
            final(self).callee_saved == old(self).callee_saved,
            final(self).next_v_reg == old(self).next_v_reg,
            final(self).frame_size == old(self).frame_size,
            final(self).tmap == old(self).tmap,
            final(self).vmap == old(self).vmap,
    {
        self.mmap.push((v_reg, offset));
    }

    /// Records the virtual register of a temporary.
    pub fn map_temp2vreg(&mut self, temp_id: usize, v_reg: usize)
        requires lookup(old(self).tmap@, temp_id) is None,
        ensures
            final(self).tmap@ == old(self).tmap@.push((temp_id, v_reg)),
            final(self).name == old(self).name,
            final(self).type_ == old(self).type_,
            final(self).callee_saved == old(self).callee_saved,
            final(self).next_v_reg == old(self).next_v_reg,
            final(self).frame_size == old(self).frame_size,
            final(self).vmap == old(self).vmap,
            final(self).mmap == old(self).mmap,
    {
        self.tmap.push((temp_id, v_reg));
    }

    /// Records the virtual register of a local variable.
    pub fn map_var2vreg(&mut self, local_id: usize, v_reg: usize)
        requires lookup(old(self).vmap@, local_id) is None,
        ensures
            final(self).vmap@ == old(self).vmap@.push((local_id, v_reg)),
            final(self).name == old(self).name,
            final(self).type_ == old(self).type_,
            final(self).callee_saved == old(self).callee_saved,
            final(self).next_v_reg == old(self).next_v_reg,
            final(self).frame_size == old(self).frame_size,
            final(self).tmap == old(self).tmap,
            final(self).mmap == old(self).mmap,
    {
        self.vmap.push((local_id, v_reg));
    }

    pub fn temp_vreg(&self, temp_id: usize) -> (r: Option<usize>)
        ensures r == lookup(self.tmap@, temp_id),
    {
        find(&self.tmap, temp_id)
    }

    pub fn var_vreg(&self, local_id: usize) -> (r: Option<usize>)
        ensures r == lookup(self.vmap@, local_id),
    {
        find(&self.vmap, local_id)
    }
}

/// The stage that lowers three-address code.
#[derive(Debug, Clone, Copy, PartialEq, Eq)]
pub struct Parse;

/// The stage of register allocation.
#[derive(Debug, Clone, Copy, PartialEq, Eq)]
pub struct RegAlloc;

/// The stage of spilling virtual registers to the frame.
#[derive(Debug, Clone, Copy, PartialEq, Eq)]
pub struct Spill;

/// The stage of canonicalization.
#[derive(Debug, Clone, Copy, PartialEq, Eq)]
pub struct Canonic;

/// The lowering: the contexts of the functions, and the labels given so far.
#[derive(Debug)]
pub struct CodeGen<Stage> {
    pub func_cxs: Vec<(StrDescriptor, FuncContext)>,
    pub cur_func: Option<StrDescriptor>,
    pub next_label: usize,
    pub lmap: Vec<(LabelSignature, usize)>,
    pub _stage: core::marker::PhantomData<Stage>,
}

impl CodeGen<Parse> {
    pub fn new() -> (r: Self)
        ensures r.func_cxs@.len() == 0, r.cur_func is None, r.next_label == 0, r.lmap@.len() == 0,
    {
        CodeGen {
            func_cxs: Vec::new(),
            cur_func: None,
            next_label: 0,
            lmap: Vec::new(),
            _stage: core::marker::PhantomData,
        }
    }
}

} // verus!
