//! The register interference graph of a function.

use vstd::prelude::*;
use crate::assembly::{Register, alloc_regs_seq, is_alloc_reg};
use crate::common::StrDescriptor;
use crate::lir::{Insn, Operand};
use super::{GeneralReg, RigNode};
use super::super::FuncContext;
use super::live_analysis::{LiveReg, Graph, regs_seq, buildable, blocks_of, insn_analyzable, analyzable, analyzed, analysis,
    body_liveness, live_after, universe, graph_regs, arg_reg, lemma_graph_regs_body, lemma_regs_seq_member, lemma_analyzed_in_universe,
    lemma_body_liveness, lemma_flatten_member, lemma_blocks_flatten, lemma_graph_regs, succs_of, preds_of, NodeId};
use super::AnalyzeResult;
use crate::lir::Function;

verus! {

/// The registers the graph starts with, in order of their numbers: all but
/// zero, ra, sp, gp, tp, s0 (special purposes) and t5, t6 (kept as scratch).
pub open spec fn base_regs() -> Seq<GeneralReg> {
    seq![GeneralReg::Phys(Register::T0), GeneralReg::Phys(Register::T1), GeneralReg::Phys(Register::T2), GeneralReg::Phys(Register::S1), GeneralReg::Phys(Register::A0), GeneralReg::Phys(Register::A1), GeneralReg::Phys(Register::A2), GeneralReg::Phys(Register::A3), GeneralReg::Phys(Register::A4), GeneralReg::Phys(Register::A5), GeneralReg::Phys(Register::A6), GeneralReg::Phys(Register::A7), GeneralReg::Phys(Register::S2), GeneralReg::Phys(Register::S3), GeneralReg::Phys(Register::S4), GeneralReg::Phys(Register::S5), GeneralReg::Phys(Register::S6), GeneralReg::Phys(Register::S7), GeneralReg::Phys(Register::S8), GeneralReg::Phys(Register::S9), GeneralReg::Phys(Register::S10), GeneralReg::Phys(Register::S11), GeneralReg::Phys(Register::T3), GeneralReg::Phys(Register::T4)]
}

/// The graph has edges between physical registers only.
pub open spec fn phys_only(rig: Rig) -> bool {
    forall|u: GeneralReg, v: GeneralReg| #[trigger] rig.adj(u, v) ==> u is Phys && v is Phys
}

/// The interference graph of a function.
#[derive(Debug)]
pub struct Rig<'a> {
    pub nodes: Vec<RigNode>,
    pub func_cxs: &'a Vec<(StrDescriptor, FuncContext)>,
}

impl<'a> Rig<'a> {
    /// The graph of the allocatable physical registers, each interfering
    /// with every other.
    pub fn base(func_cxs: &'a Vec<(StrDescriptor, FuncContext)>) -> (r: Self)
        ensures
            r.func_cxs == func_cxs,
            r.nodes@.len() == 24,
            forall|k: int| 0 <= k < 24 ==> (#[trigger] r.nodes@[k]).reg == base_regs()[k]
                && r.nodes@[k].color is None && r.nodes@[k].spill_cost == 0
                && r.nodes@[k].neighbors@ == base_regs().remove(k),
            phys_only(r),
    {
        let regs: Vec<GeneralReg> = vec![GeneralReg::Phys(Register::T0), GeneralReg::Phys(Register::T1), GeneralReg::Phys(Register::T2), GeneralReg::Phys(Register::S1), GeneralReg::Phys(Register::A0), GeneralReg::Phys(Register::A1), GeneralReg::Phys(Register::A2), GeneralReg::Phys(Register::A3), GeneralReg::Phys(Register::A4), GeneralReg::Phys(Register::A5), GeneralReg::Phys(Register::A6), GeneralReg::Phys(Register::A7), GeneralReg::Phys(Register::S2), GeneralReg::Phys(Register::S3), GeneralReg::Phys(Register::S4), GeneralReg::Phys(Register::S5), GeneralReg::Phys(Register::S6), GeneralReg::Phys(Register::S7), GeneralReg::Phys(Register::S8), GeneralReg::Phys(Register::S9), GeneralReg::Phys(Register::S10), GeneralReg::Phys(Register::S11), GeneralReg::Phys(Register::T3), GeneralReg::Phys(Register::T4)];
        let ghost all = base_regs();
        proof { assert(regs@ =~= all); }
        let mut nodes: Vec<RigNode> = Vec::new();
        let mut k: usize = 0;
        while k < regs.len()
            invariant
                k <= 24, regs@ == all, all == base_regs(),
                nodes@.len() == k,
                forall|a: int| 0 <= a < k ==> (#[trigger] nodes@[a]).reg == all[a] && nodes@[a].color is None
                    && nodes@[a].spill_cost == 0 && nodes@[a].neighbors@ == all.remove(a),
            decreases 24 - k,
        {
            let mut node = RigNode::new(regs[k], 0);
            let mut m: usize = 0;
            while m < regs.len()
                invariant
                    m <= 24, k < 24, regs@ == all, all.len() == 24, node.reg == all[k as int], node.color is None, node.spill_cost == 0,
                    node.neighbors@ == (if m <= k { all.subrange(0, m as int) } else {
                        all.subrange(0, k as int) + all.subrange(k as int + 1, m as int) }),
                decreases 24 - m,
            {
                if m != k {
                    node.neighbors.push(regs[m]);
                }
                proof {
                    if m < k {
                        assert(node.neighbors@ =~= all.subrange(0, m as int + 1));
                    } else if m == k {
                        assert(all.subrange(k as int + 1, m as int + 1) =~= Seq::<GeneralReg>::empty());
                        assert(node.neighbors@ =~= all.subrange(0, k as int) + all.subrange(k as int + 1, m as int + 1));
                    } else {
                        assert(node.neighbors@ =~= all.subrange(0, k as int) + all.subrange(k as int + 1, m as int + 1));
                    }
                }
                m = m + 1;
            }
            proof { assert(node.neighbors@ =~= all.remove(k as int)); }
            nodes.push(node);
            k = k + 1;
        }
        let r = Rig { nodes, func_cxs };
        proof {
            assert forall|u: GeneralReg, v: GeneralReg| #[trigger] r.adj(u, v) implies u is Phys && v is Phys by {
                let i = choose|i: int| 0 <= i < r.nodes@.len() && (#[trigger] r.nodes@[i]).reg == u && r.nodes@[i].neighbors@.contains(v);
                let j = choose|j: int| 0 <= j < all.remove(i).len() && all.remove(i)[j] == v;
                if j < i { assert(all.remove(i)[j] == all[j]); } else { assert(all.remove(i)[j] == all[j + 1]); }
            }
        }
        r
    }
}

/// The base graph is complete: every register interferes with every other
/// one, and with itself never.
pub proof fn lemma_base_complete(a: int, b: int)
    requires 0 <= a < 24, 0 <= b < 24,
    ensures
        a != b ==> base_regs().remove(a).contains(base_regs()[b]),
        !base_regs().remove(a).contains(base_regs()[a]),
{
    let all = base_regs();
    if a != b {
        let idx = if b < a { b } else { b - 1 };
        assert(all.remove(a)[idx] == all[b]);
    }
    if all.remove(a).contains(all[a]) {
        let i = choose|i: int| 0 <= i < all.remove(a).len() && all.remove(a)[i] == all[a];
        let j = if i < a { i } else { i + 1 };
        assert(all[j] == all[a]);
        assert(j != a);
        assert(false) by {
            assert(all[j] matches GeneralReg::Phys(_));
        }
    }
}

impl<'a> Rig<'a> {
    /// The registers of the nodes, in order.
    pub open spec fn regs(self) -> Seq<GeneralReg> {
        self.nodes@.map_values(|n: RigNode| n.reg)
    }

    pub open spec fn has(self, r: GeneralReg) -> bool {
        self.regs().contains(r)
    }

    /// `u` and `v` are nodes that interfere.
    pub open spec fn adj(self, u: GeneralReg, v: GeneralReg) -> bool {
        exists|i: int| 0 <= i < self.nodes@.len() && (#[trigger] self.nodes@[i]).reg == u && self.nodes@[i].neighbors@.contains(v)
    }

    /// Each register has one node; neighbors are other nodes, each listed
    /// once, and interference goes both ways.
    pub open spec fn wf(self) -> bool {
        &&& self.regs().no_duplicates()
        &&& forall|i: int| 0 <= i < self.nodes@.len() ==> (#[trigger] self.nodes@[i]).neighbors@.no_duplicates()
        &&& forall|i: int, x: GeneralReg| 0 <= i < self.nodes@.len() && #[trigger] self.nodes@[i].neighbors@.contains(x)
            ==> self.has(x) && x != self.nodes@[i].reg
        &&& forall|i: int, j: int| 0 <= i < self.nodes@.len() && 0 <= j < self.nodes@.len()
            && (#[trigger] self.nodes@[i]).neighbors@.contains(self.nodes@[j].reg)
            ==> (#[trigger] self.nodes@[j]).neighbors@.contains(self.nodes@[i].reg)
    }

    /// The node of a register.
    fn index_of(&self, r: GeneralReg) -> (res: Option<usize>)
        ensures
            res matches Some(i) ==> i < self.nodes@.len() && self.nodes@[i as int].reg == r,
            res is None ==> !self.has(r),
    {
        let mut i: usize = 0;
        while i < self.nodes.len()
            invariant i <= self.nodes@.len(), forall|j: int| 0 <= j < i ==> self.nodes@[j].reg != r,
            decreases self.nodes@.len() - i,
        {
            if self.nodes[i].reg == r {
                return Some(i);
            }
            i = i + 1;
        }
        proof {
            if self.has(r) {
                let j = choose|j: int| 0 <= j < self.regs().len() && self.regs()[j] == r;
                assert(self.nodes@[j].reg == r);
            }
        }
        None
    }

    fn contains(&self, r: GeneralReg) -> (res: bool)
        ensures res == self.has(r),
    {
        match self.index_of(r) {
            Some(i) => {
                proof { assert(self.regs()[i as int] == r); }
                true
            },
            None => false,
        }
    }
}

/// A register of the base graph is a node of every graph that keeps them.
pub open spec fn keeps_base(rig: Rig) -> bool {
    forall|k: int| 0 <= k < 24 ==> rig.has(#[trigger] base_regs()[k])
}

pub proof fn lemma_base_wf(rig: Rig)
    requires
        rig.nodes@.len() == 24,
        forall|k: int| 0 <= k < 24 ==> (#[trigger] rig.nodes@[k]).reg == base_regs()[k]
            && rig.nodes@[k].neighbors@ == base_regs().remove(k),
    ensures rig.wf(), keeps_base(rig),
{
    let all = base_regs();
    assert(rig.regs() =~= all);
    assert(all.no_duplicates()) by {
        assert forall|a: int, b: int| 0 <= a < b < 24 implies all[a] != all[b] by {
            lemma_base_complete(a, b);
            if all[a] == all[b] {
                assert(all.remove(a).contains(all[b]));
            }
        }
    }
    assert forall|i: int| 0 <= i < 24 implies (#[trigger] rig.nodes@[i]).neighbors@.no_duplicates() by {
        assert forall|a: int, b: int| 0 <= a < b < 23 implies all.remove(i)[a] != all.remove(i)[b] by {
            let a2 = if a < i { a } else { a + 1 };
            let b2 = if b < i { b } else { b + 1 };
            assert(all.remove(i)[a] == all[a2]);
            assert(all.remove(i)[b] == all[b2]);
        }
    }
    assert forall|i: int, x: GeneralReg| 0 <= i < 24 && #[trigger] rig.nodes@[i].neighbors@.contains(x)
        implies rig.has(x) && x != rig.nodes@[i].reg by {
        let m = choose|m: int| 0 <= m < 23 && all.remove(i)[m] == x;
        let m2 = if m < i { m } else { m + 1 };
        assert(all[m2] == x);
        assert(rig.regs()[m2] == x);
        lemma_base_complete(i, i);
    }
    assert forall|i: int, j: int| 0 <= i < 24 && 0 <= j < 24
        && (#[trigger] rig.nodes@[i]).neighbors@.contains(rig.nodes@[j].reg)
        implies (#[trigger] rig.nodes@[j]).neighbors@.contains(rig.nodes@[i].reg) by {
        lemma_base_complete(i, j);
        lemma_base_complete(j, i);
        if i == j { lemma_base_complete(i, i); }
    }
    assert forall|k: int| 0 <= k < 24 implies rig.has(#[trigger] base_regs()[k]) by {
        assert(rig.regs()[k] == base_regs()[k]);
    }
}

/// The register an instruction writes, for the instructions whose
/// destination interferes with what is live after them.
pub open spec fn def_reg(i: Insn) -> Option<GeneralReg> {
    match i {
        Insn::Add(d, ..) | Insn::Addw(d, ..) | Insn::Sub(d, ..) | Insn::Subw(d, ..) | Insn::Mul(d, ..)
        | Insn::Mulw(d, ..) | Insn::Div(d, ..) | Insn::Divw(d, ..) | Insn::Rem(d, ..) | Insn::Remw(d, ..)
        | Insn::Slt(d, ..) | Insn::Sgt(d, ..) | Insn::LoadStatic(d, ..) | Insn::Ld(d, ..) | Insn::Lw(d, ..)
        | Insn::Neg(d, ..) | Insn::Negw(d, ..) | Insn::Mv(d, ..) | Insn::Not(d, ..) | Insn::Sextw(d, ..)
        | Insn::Seqz(d, ..) | Insn::Snez(d, ..) => GeneralReg::spec_from_operand(d),
        _ => None,
    }
}

/// The registers a call overwrites that the allocator hands out.
pub open spec fn call_clobbers(r: GeneralReg) -> bool {
    r matches GeneralReg::Phys(p) && p.spec_is_caller_saved() && crate::assembly::is_alloc_reg(p)
}

/// The instruction at block `b`, position `k`, asks for an edge between `u`
/// and `v`, in either direction, given the registers live after it.
pub open spec fn edge_at(cfg: Graph, infos: Seq<Vec<LiveReg>>, b: int, k: int, u: GeneralReg, v: GeneralReg) -> bool {
    let i = cfg.blocks@[b].insns@[k];
    let after = infos[b]@[k]@;
    ||| def_reg(i) == Some(u) && after.contains(v)
    ||| def_reg(i) == Some(v) && after.contains(u)
    ||| i is Call && call_clobbers(u) && after.contains(v)
    ||| i is Call && call_clobbers(v) && after.contains(u)
}

/// Some instruction of the graph asks for an edge between `u` and `v`.
pub open spec fn some_edge(cfg: Graph, infos: Seq<Vec<LiveReg>>, u: GeneralReg, v: GeneralReg) -> bool {
    exists|b: int, k: int| 0 <= b < cfg.blocks@.len() && 0 <= k < cfg.blocks@[b].insns@.len()
        && #[trigger] edge_at(cfg, infos, b, k, u, v)
}

/// The edges an instruction asks for, given the registers live after it:
/// what it writes interferes with each of them, and so does every
/// allocatable register a call overwrites.
pub open spec fn edges_made(rig: Rig, i: Insn, after: Set<GeneralReg>) -> bool {
    &&& forall|v: GeneralReg| #[trigger] after.contains(v) && def_reg(i) is Some && def_reg(i)->0 != v ==> rig.adj(def_reg(i)->0, v)
    &&& i is Call ==> forall|v: GeneralReg, r: GeneralReg| #[trigger] after.contains(v) && #[trigger] call_clobbers(r) && r != v ==> rig.adj(r, v)
}

impl<'a> Rig<'a> {
    /// Records that `reg1` and `reg2` interfere.
    fn add_edge(&mut self, reg1: GeneralReg, reg2: GeneralReg)
        requires old(self).wf(), old(self).has(reg1), old(self).has(reg2),
        ensures
            final(self).wf(), final(self).regs() == old(self).regs(), final(self).func_cxs == old(self).func_cxs,
            reg1 != reg2 ==> final(self).adj(reg1, reg2) && final(self).adj(reg2, reg1),
            forall|u: GeneralReg, v: GeneralReg| old(self).adj(u, v) ==> #[trigger] final(self).adj(u, v),
            forall|u: GeneralReg, v: GeneralReg| #[trigger] final(self).adj(u, v) ==> old(self).adj(u, v)
                || (u == reg1 && v == reg2) || (u == reg2 && v == reg1),
    {
        if reg1 == reg2 {
            return;
        }
        let i1 = match self.index_of(reg1) { Some(i) => i, None => return };
        let i2 = match self.index_of(reg2) { Some(i) => i, None => return };
        let ghost old_self = *self;
        proof { assert(old_self.regs()[i1 as int] == reg1 && old_self.regs()[i2 as int] == reg2); }
        self.push_neighbor(i1, reg2);
        let ghost mid = *self;
        self.push_neighbor(i2, reg1);
        proof {
            let a = i1 as int;
            let b = i2 as int;
            let ns = self.nodes@;
            let os = old_self.nodes@;
            assert(a != b);
            assert forall|i: int| 0 <= i < ns.len() implies (#[trigger] ns[i]).reg == os[i].reg
                && (forall|x: GeneralReg| os[i].neighbors@.contains(x) ==> ns[i].neighbors@.contains(x))
                && (forall|x: GeneralReg| ns[i].neighbors@.contains(x) ==> os[i].neighbors@.contains(x)
                    || (i == a && x == reg2) || (i == b && x == reg1))
                && ns[i].neighbors@.no_duplicates() by {
                if i == a {
                    assert(ns[i] == mid.nodes@[i]);
                    assert forall|x: GeneralReg| os[i].neighbors@.contains(x) implies ns[i].neighbors@.contains(x) by {
                        assert(os[i].neighbors@.to_set().contains(x));
                        assert(ns[i].neighbors@.to_set().contains(x));
                    }
                    assert forall|x: GeneralReg| ns[i].neighbors@.contains(x) implies os[i].neighbors@.contains(x) || x == reg2 by {
                        assert(ns[i].neighbors@.to_set().contains(x));
                    }
                } else if i == b {
                    assert(mid.nodes@[i] == os[i]);
                    assert forall|x: GeneralReg| os[i].neighbors@.contains(x) implies ns[i].neighbors@.contains(x) by {
                        assert(os[i].neighbors@.to_set().contains(x));
                        assert(ns[i].neighbors@.to_set().contains(x));
                    }
                    assert forall|x: GeneralReg| ns[i].neighbors@.contains(x) implies os[i].neighbors@.contains(x) || x == reg1 by {
                        assert(ns[i].neighbors@.to_set().contains(x));
                    }
                } else {
                    assert(mid.nodes@[i] == os[i]);
                }
            }
            assert(ns[a].neighbors@.to_set().contains(reg2));
            assert(ns[a].neighbors@.contains(reg2));
            assert(ns[b].neighbors@.to_set().contains(reg1));
            assert(ns[b].neighbors@.contains(reg1));
            assert(self.adj(reg1, reg2));
            assert(self.adj(reg2, reg1));
            assert(self.regs() =~= old_self.regs());
            assert forall|u: GeneralReg, v: GeneralReg| old_self.adj(u, v) implies #[trigger] self.adj(u, v) by {
                let i = choose|i: int| 0 <= i < os.len() && (#[trigger] os[i]).reg == u && os[i].neighbors@.contains(v);
                assert(ns[i].reg == u && ns[i].neighbors@.contains(v));
            }
            assert forall|u: GeneralReg, v: GeneralReg| #[trigger] self.adj(u, v) implies old_self.adj(u, v)
                || (u == reg1 && v == reg2) || (u == reg2 && v == reg1) by {
                let i = choose|i: int| 0 <= i < ns.len() && (#[trigger] ns[i]).reg == u && ns[i].neighbors@.contains(v);
                assert(ns[i].reg == os[i].reg);
                if !os[i].neighbors@.contains(v) {
                    assert((i == a && v == reg2) || (i == b && v == reg1));
                    assert(old_self.regs()[a] == reg1 && old_self.regs()[b] == reg2);
                }
            }
            assert forall|i: int, x: GeneralReg| 0 <= i < ns.len() && #[trigger] ns[i].neighbors@.contains(x)
                implies self.has(x) && x != ns[i].reg by {
                assert(ns[i].reg == os[i].reg);
                if os[i].neighbors@.contains(x) {
                    assert(old_self.has(x));
                } else if i == a && x == reg2 {
                    assert(old_self.has(reg2));
                } else {
                    assert(old_self.has(reg1));
                }
            }
            assert forall|i: int, j: int| 0 <= i < ns.len() && 0 <= j < ns.len()
                && (#[trigger] ns[i]).neighbors@.contains(ns[j].reg)
                implies (#[trigger] ns[j]).neighbors@.contains(ns[i].reg) by {
                assert(ns[i].reg == os[i].reg);
                assert(ns[j].reg == os[j].reg);
                if os[i].neighbors@.contains(os[j].reg) {
                    assert(os[j].neighbors@.contains(os[i].reg));
                } else if i == a && ns[j].reg == reg2 {
                    assert(old_self.regs()[j] == old_self.regs()[b]);
                    assert(j == b);
                } else {
                    assert(i == b && ns[j].reg == reg1);
                    assert(old_self.regs()[j] == old_self.regs()[a]);
                    assert(j == a);
                }
            }
        }
    }

    /// Adds `x` to the neighbors of node `i` unless it is there.
    fn push_neighbor(&mut self, i: usize, x: GeneralReg)
        requires
            i < old(self).nodes@.len(),
            old(self).nodes@[i as int].neighbors@.no_duplicates(),
        ensures
            final(self).func_cxs == old(self).func_cxs,
            final(self).nodes@.len() == old(self).nodes@.len(),
            forall|j: int| 0 <= j < old(self).nodes@.len() && j != i ==> #[trigger] final(self).nodes@[j] == old(self).nodes@[j],
            final(self).nodes@[i as int].reg == old(self).nodes@[i as int].reg,
            final(self).nodes@[i as int].spill_cost == old(self).nodes@[i as int].spill_cost,
            final(self).nodes@[i as int].color == old(self).nodes@[i as int].color,
            final(self).nodes@[i as int].neighbors@.no_duplicates(),
            final(self).nodes@[i as int].neighbors@.to_set() == old(self).nodes@[i as int].neighbors@.to_set().insert(x),
    {
        let mut node = self.nodes.remove(i);
        let mut found = false;
        let mut k: usize = 0;
        while k < node.neighbors.len()
            invariant k <= node.neighbors@.len(), !found ==> forall|j: int| 0 <= j < k ==> node.neighbors@[j] != x,
                found ==> node.neighbors@.contains(x),
            decreases node.neighbors@.len() - k,
        {
            if node.neighbors[k] == x {
                found = true;
            }
            k = k + 1;
        }
        let ghost before = node.neighbors@;
        proof { broadcast use vstd::seq_lib::group_seq_properties; }
        if !found {
            node.neighbors.push(x);
            proof {
                assert forall|a: int, b: int| 0 <= a < b < node.neighbors@.len() implies node.neighbors@[a] != node.neighbors@[b] by {
                    if b == before.len() { assert(before.contains(before[a])); }
                }
                assert(node.neighbors@ == before.push(x));
                assert forall|y: GeneralReg| node.neighbors@.contains(y) <==> before.contains(y) || y == x by {
                    if node.neighbors@.contains(y) && y != x {
                        let m = choose|m: int| 0 <= m < node.neighbors@.len() && node.neighbors@[m] == y;
                        assert(before[m] == y);
                    }
                    if before.contains(y) {
                        let m = choose|m: int| 0 <= m < before.len() && before[m] == y;
                        assert(node.neighbors@[m] == y);
                    }
                    if y == x { assert(node.neighbors@[before.len() as int] == x); }
                }
                assert(node.neighbors@.to_set() =~= before.to_set().insert(x));
            }
        } else {
            proof { assert(before.to_set() =~= before.to_set().insert(x)); }
        }
        self.nodes.insert(i, node);
    }
}

/// An instruction the graph is built for: none of those that only later
/// stages make, and memory operands where memory is accessed.
pub open spec fn rig_insn_ok(i: Insn) -> bool {
    match i {
        Insn::Li(..) | Insn::Addi(..) | Insn::Addiw(..) => false,
        Insn::Ld(_, m) | Insn::Lw(_, m) | Insn::Sd(_, m) | Insn::Sw(_, m) => m is Mem,
        _ => true,
    }
}

impl<'a> Rig<'a> {
    /// Adds a node for a virtual register that has none.
    fn proc_operand(&mut self, op: Operand)
        requires old(self).wf(),
        ensures
            final(self).wf(), final(self).func_cxs == old(self).func_cxs,
            forall|r: GeneralReg| old(self).has(r) ==> #[trigger] final(self).has(r),
            forall|u: GeneralReg, v: GeneralReg| old(self).adj(u, v) ==> #[trigger] final(self).adj(u, v),
            op matches Operand::VirtReg(v) ==> final(self).has(GeneralReg::Virt(v)),
            forall|r: GeneralReg| #[trigger] final(self).has(r) ==> old(self).has(r) || op == Operand::VirtReg(r->Virt_0) && r is Virt,
            forall|u: GeneralReg, v: GeneralReg| #[trigger] final(self).adj(u, v) ==> old(self).adj(u, v),
    {
        match op {
            Operand::VirtReg(v) => {
                let reg = GeneralReg::Virt(v);
                if !self.contains(reg) {
                    let ghost o = *self;
                    self.nodes.push(RigNode::new(reg, 0));
                    proof {
                        let ns = self.nodes@;
                        assert(self.regs() == o.regs().push(reg));
                        assert forall|r: GeneralReg| o.has(r) implies #[trigger] self.has(r) by {
                            let j = choose|j: int| 0 <= j < o.regs().len() && o.regs()[j] == r;
                            assert(self.regs()[j] == r);
                        }
                        assert(self.has(reg)) by { assert(self.regs()[o.regs().len() as int] == reg); }
                        assert forall|r: GeneralReg| #[trigger] self.has(r) implies o.has(r) || (op == Operand::VirtReg(r->Virt_0) && r is Virt) by {
                            let j = choose|j: int| 0 <= j < self.regs().len() && self.regs()[j] == r;
                            if j < o.regs().len() { assert(o.regs()[j] == r); }
                        }
                        assert forall|a: int, b: int| 0 <= a < b < self.regs().len() implies self.regs()[a] != self.regs()[b] by {
                            if b == o.regs().len() { assert(o.regs()[a] == self.regs()[a]); assert(o.has(o.regs()[a])); }
                        }
                        assert forall|u: GeneralReg, w: GeneralReg| o.adj(u, w) implies #[trigger] self.adj(u, w) by {
                            let i = choose|i: int| 0 <= i < o.nodes@.len() && (#[trigger] o.nodes@[i]).reg == u && o.nodes@[i].neighbors@.contains(w);
                            assert(ns[i] == o.nodes@[i]);
                        }
                        assert forall|u: GeneralReg, w: GeneralReg| #[trigger] self.adj(u, w) implies o.adj(u, w) by {
                            let i = choose|i: int| 0 <= i < ns.len() && (#[trigger] ns[i]).reg == u && ns[i].neighbors@.contains(w);
                            if i == o.nodes@.len() {
                                assert(ns[i].neighbors@ =~= Seq::<GeneralReg>::empty());
                            } else {
                                assert(ns[i] == o.nodes@[i]);
                            }
                        }
                        assert forall|i: int, x: GeneralReg| 0 <= i < ns.len() && #[trigger] ns[i].neighbors@.contains(x)
                            implies self.has(x) && x != ns[i].reg by {
                            assert(i < o.nodes@.len());
                            assert(ns[i] == o.nodes@[i]);
                        }
                        assert forall|i: int, j: int| 0 <= i < ns.len() && 0 <= j < ns.len()
                            && (#[trigger] ns[i]).neighbors@.contains(ns[j].reg)
                            implies (#[trigger] ns[j]).neighbors@.contains(ns[i].reg) by {
                            assert(i < o.nodes@.len());
                            assert(ns[i] == o.nodes@[i]);
                            if j == o.nodes@.len() {
                                assert(o.has(reg));
                            } else {
                                assert(ns[j] == o.nodes@[j]);
                            }
                        }
                    }
                }
            },
            _ => {},
        }
    }

    /// Adds a node for every virtual register of the function.
    fn add_virtreg(&mut self, function: &Function)
        requires
            old(self).wf(),
            forall|k: int| 0 <= k < function.body@.len() ==> rig_insn_ok(#[trigger] function.body@[k]),
        ensures
            final(self).wf(), final(self).func_cxs == old(self).func_cxs,
            forall|r: GeneralReg| old(self).has(r) ==> #[trigger] final(self).has(r),
            forall|r: GeneralReg| #[trigger] regs_seq(function.body@).contains(r) && r is Virt ==> final(self).has(r),
            forall|u: GeneralReg, v: GeneralReg| #[trigger] final(self).adj(u, v) ==> old(self).adj(u, v),
    {
        let body = &function.body;
        let mut i: usize = 0;
        while i < body.len()
            invariant
                i <= body@.len(), body == &function.body, self.wf(), self.func_cxs == old(self).func_cxs,
                forall|k: int| 0 <= k < function.body@.len() ==> rig_insn_ok(#[trigger] function.body@[k]),
                forall|r: GeneralReg| old(self).has(r) ==> #[trigger] self.has(r),
                forall|r: GeneralReg| #[trigger] regs_seq(body@.subrange(0, i as int)).contains(r) && r is Virt ==> self.has(r),
                forall|u: GeneralReg, v: GeneralReg| #[trigger] self.adj(u, v) ==> old(self).adj(u, v),
            decreases body@.len() - i,
        {
            let ghost prev = *self;
            proof {
                assert forall|r: GeneralReg| #[trigger] regs_seq(body@.subrange(0, i as int)).contains(r) && r is Virt implies prev.has(r) by {}
            }
            let insn = body[i];
            proof { assert(rig_insn_ok(function.body@[i as int])); }
            match insn {
                Insn::Add(d, a, b) | Insn::Addw(d, a, b) | Insn::Sub(d, a, b) | Insn::Subw(d, a, b)
                | Insn::Mul(d, a, b) | Insn::Mulw(d, a, b) | Insn::Div(d, a, b) | Insn::Divw(d, a, b)
                | Insn::Rem(d, a, b) | Insn::Remw(d, a, b) | Insn::Slt(d, a, b) | Insn::Sgt(d, a, b) => {
                    self.proc_operand(d);
                    self.proc_operand(a);
                    self.proc_operand(b);
                },
                Insn::Beq(a, b, _) | Insn::Bne(a, b, _) => {
                    self.proc_operand(a);
                    self.proc_operand(b);
                },
                Insn::Mv(d, a) | Insn::Neg(d, a) | Insn::Not(d, a) | Insn::Negw(d, a) | Insn::Sextw(d, a)
                | Insn::Seqz(d, a) | Insn::Snez(d, a) => {
                    self.proc_operand(d);
                    self.proc_operand(a);
                },
                Insn::La(d, _) | Insn::LoadStatic(d, _) | Insn::StoreStatic(d, _)
                | Insn::Ld(d, _) | Insn::Lw(d, _) | Insn::Sd(d, _) | Insn::Sw(d, _) => {
                    self.proc_operand(d);
                },
                _ => {},
            }
            proof {
                let p = body@.subrange(0, i as int + 1);
                assert(p.drop_last() =~= body@.subrange(0, i as int));
                assert(p.last() == insn);
                assert forall|r: GeneralReg| #[trigger] regs_seq(p).contains(r) && r is Virt implies self.has(r) by {
                    let j = choose|j: int| 0 <= j < regs_seq(p).len() && regs_seq(p)[j] == r;
                    let base = regs_seq(p.drop_last()).len() as int;
                    if j < base {
                        assert(regs_seq(body@.subrange(0, i as int))[j] == r);
                        assert(regs_seq(body@.subrange(0, i as int)).contains(r));
                        assert(prev.has(r));
                    }
                }
            }
            i = i + 1;
        }
        proof { assert(body@.subrange(0, i as int) =~= body@); }
    }

    /// Makes `d` interfere with every register of `live` but itself.
    fn connect_all(&mut self, d: GeneralReg, live: &LiveReg)
        requires old(self).wf(), old(self).has(d), forall|v: GeneralReg| #[trigger] live@.contains(v) ==> old(self).has(v),
        ensures
            final(self).wf(), final(self).regs() == old(self).regs(), final(self).func_cxs == old(self).func_cxs,
            forall|u: GeneralReg, v: GeneralReg| old(self).adj(u, v) ==> #[trigger] final(self).adj(u, v),
            forall|v: GeneralReg| #[trigger] live@.contains(v) && d != v ==> final(self).adj(d, v),
            forall|u: GeneralReg, v: GeneralReg| #[trigger] final(self).adj(u, v) ==> old(self).adj(u, v)
                || (u == d && live@.contains(v)) || (v == d && live@.contains(u)),
    {
        let ghost s0 = *self;
        let mut k: usize = 0;
        while k < live.inner.len()
            invariant
                k <= live.inner@.len(), self.wf(), self.regs() == s0.regs(), self.func_cxs == s0.func_cxs, s0.has(d),
                forall|v: GeneralReg| #[trigger] live@.contains(v) ==> s0.has(v),
                forall|u: GeneralReg, v: GeneralReg| s0.adj(u, v) ==> #[trigger] self.adj(u, v),
                forall|j: int| 0 <= j < k && d != live.inner@[j] ==> #[trigger] self.adj(d, live.inner@[j]),
                forall|u: GeneralReg, v: GeneralReg| #[trigger] self.adj(u, v) ==> s0.adj(u, v)
                    || (u == d && live@.contains(v)) || (v == d && live@.contains(u)),
            decreases live.inner@.len() - k,
        {
            let v = live.inner[k];
            proof { assert(live@.contains(v)); assert(s0.has(v)); }
            let ghost before = *self;
            self.add_edge(d, v);
            proof {
                assert forall|j: int| 0 <= j < k + 1 && d != live.inner@[j] implies #[trigger] self.adj(d, live.inner@[j]) by {
                    if j < k { assert(before.adj(d, live.inner@[j])); }
                }
            }
            k = k + 1;
        }
        proof {
            assert forall|v: GeneralReg| #[trigger] live@.contains(v) && d != v implies self.adj(d, v) by {
                let j = choose|j: int| 0 <= j < live.inner@.len() && live.inner@[j] == v;
                assert(self.adj(d, live.inner@[j]));
            }
        }
    }
}

/// Every register the allocator hands out is in the base graph.
pub proof fn lemma_alloc_in_base(r: crate::assembly::Register)
    requires crate::assembly::is_alloc_reg(r),
    ensures exists|k: int| 0 <= k < 24 && #[trigger] base_regs()[k] == GeneralReg::Phys(r),
{
    let b = base_regs();
    match r {
        Register::T0 => assert(b[0] == GeneralReg::Phys(r)),
        Register::T1 => assert(b[1] == GeneralReg::Phys(r)),
        Register::T2 => assert(b[2] == GeneralReg::Phys(r)),
        Register::S1 => assert(b[3] == GeneralReg::Phys(r)),
        Register::A0 => assert(b[4] == GeneralReg::Phys(r)),
        Register::A1 => assert(b[5] == GeneralReg::Phys(r)),
        Register::A2 => assert(b[6] == GeneralReg::Phys(r)),
        Register::A3 => assert(b[7] == GeneralReg::Phys(r)),
        Register::A4 => assert(b[8] == GeneralReg::Phys(r)),
        Register::A5 => assert(b[9] == GeneralReg::Phys(r)),
        Register::A6 => assert(b[10] == GeneralReg::Phys(r)),
        Register::A7 => assert(b[11] == GeneralReg::Phys(r)),
        Register::S2 => assert(b[12] == GeneralReg::Phys(r)),
        Register::S3 => assert(b[13] == GeneralReg::Phys(r)),
        Register::S4 => assert(b[14] == GeneralReg::Phys(r)),
        Register::S5 => assert(b[15] == GeneralReg::Phys(r)),
        Register::S6 => assert(b[16] == GeneralReg::Phys(r)),
        Register::S7 => assert(b[17] == GeneralReg::Phys(r)),
        Register::S8 => assert(b[18] == GeneralReg::Phys(r)),
        Register::S9 => assert(b[19] == GeneralReg::Phys(r)),
        Register::S10 => assert(b[20] == GeneralReg::Phys(r)),
        Register::S11 => assert(b[21] == GeneralReg::Phys(r)),
        Register::T3 => assert(b[22] == GeneralReg::Phys(r)),
        Register::T4 => assert(b[23] == GeneralReg::Phys(r)),
        _ => {},
    }
}

/// An instruction the edges are added for: none of those that only later stages make.
pub open spec fn edge_insn_ok(i: Insn) -> bool {
    !(i is Addi || i is Addiw || i is La || i is Li || i is Ret)
}

impl<'a> Rig<'a> {
    fn connect_phys(&mut self, r: Register, live: &LiveReg)
        requires
            old(self).wf(), keeps_base(*old(self)), crate::assembly::is_alloc_reg(r),
            forall|v: GeneralReg| #[trigger] live@.contains(v) ==> old(self).has(v),
        ensures
            final(self).wf(), final(self).regs() == old(self).regs(), final(self).func_cxs == old(self).func_cxs,
            keeps_base(*final(self)),
            forall|u: GeneralReg, v: GeneralReg| old(self).adj(u, v) ==> #[trigger] final(self).adj(u, v),
            forall|v: GeneralReg| #[trigger] live@.contains(v) && GeneralReg::Phys(r) != v ==> final(self).adj(GeneralReg::Phys(r), v),
            forall|u: GeneralReg, v: GeneralReg| #[trigger] final(self).adj(u, v) ==> old(self).adj(u, v)
                || (u == GeneralReg::Phys(r) && live@.contains(v)) || (v == GeneralReg::Phys(r) && live@.contains(u)),
    {
        proof {
            lemma_alloc_in_base(r);
            let k = choose|k: int| 0 <= k < 24 && #[trigger] base_regs()[k] == GeneralReg::Phys(r);
            assert(self.has(base_regs()[k]));
        }
        let ghost s0 = *self;
        self.connect_all(GeneralReg::Phys(r), live);
        proof {
            assert forall|k: int| 0 <= k < 24 implies self.has(#[trigger] base_regs()[k]) by {
                assert(s0.has(base_regs()[k]));
            }
        }
    }

    /// Adds the interference edges that the live registers after each
    /// instruction call for.
    fn add_edges(&mut self, cfg: &Graph, insn_infos: &Vec<Vec<LiveReg>>)
        requires
            old(self).wf(), keeps_base(*old(self)),
            insn_infos@.len() == cfg.blocks@.len(),
            forall|b: int| 0 <= b < cfg.blocks@.len() ==> (#[trigger] insn_infos@[b])@.len() == cfg.blocks@[b].insns@.len(),
            forall|b: int, k: int| 0 <= b < cfg.blocks@.len() && 0 <= k < cfg.blocks@[b].insns@.len() ==> {
                let i = #[trigger] cfg.blocks@[b].insns@[k];
                &&& edge_insn_ok(i)
                &&& def_reg(i) is Some ==> old(self).has(def_reg(i)->0)
                &&& forall|v: GeneralReg| #[trigger] insn_infos@[b]@[k]@.contains(v) ==> old(self).has(v)
            },
        ensures
            final(self).wf(), final(self).regs() == old(self).regs(), final(self).func_cxs == old(self).func_cxs,
            keeps_base(*final(self)),
            forall|b: int, k: int| 0 <= b < cfg.blocks@.len() && 0 <= k < cfg.blocks@[b].insns@.len() ==>
                edges_made(*final(self), #[trigger] cfg.blocks@[b].insns@[k], insn_infos@[b]@[k]@),
            forall|u: GeneralReg, v: GeneralReg| #[trigger] final(self).adj(u, v) ==> old(self).adj(u, v)
                || some_edge(*cfg, insn_infos@, u, v),
    {
        let ghost s0 = *self;
        let n = cfg.blocks.len();
        let mut b: usize = 0;
        while b < n
            invariant
                b <= n, n == cfg.blocks@.len(), self.wf(), keeps_base(*self), self.regs() == s0.regs(), self.func_cxs == s0.func_cxs,
                insn_infos@.len() == n,
                forall|c: int| 0 <= c < n ==> (#[trigger] insn_infos@[c])@.len() == cfg.blocks@[c].insns@.len(),
                forall|c: int, k: int| 0 <= c < n && 0 <= k < cfg.blocks@[c].insns@.len() ==> {
                    let i = #[trigger] cfg.blocks@[c].insns@[k];
                    &&& edge_insn_ok(i)
                    &&& def_reg(i) is Some ==> s0.has(def_reg(i)->0)
                    &&& forall|v: GeneralReg| #[trigger] insn_infos@[c]@[k]@.contains(v) ==> s0.has(v)
                },
                forall|c: int, k: int| 0 <= c < b && 0 <= k < cfg.blocks@[c].insns@.len() ==>
                    edges_made(*self, #[trigger] cfg.blocks@[c].insns@[k], insn_infos@[c]@[k]@),
                forall|u: GeneralReg, v: GeneralReg| #[trigger] self.adj(u, v) ==> s0.adj(u, v)
                    || some_edge(*cfg, insn_infos@, u, v),
            decreases n - b,
        {
            let insns = &cfg.blocks[b].insns;
            let infos = &insn_infos[b];
            let mut k: usize = 0;
            while k < insns.len()
                invariant
                    k <= insns@.len(), b < n, n == cfg.blocks@.len(), insns == &cfg.blocks@[b as int].insns, infos == &insn_infos@[b as int],
                    infos@.len() == insns@.len(),
                    self.wf(), keeps_base(*self), self.regs() == s0.regs(), self.func_cxs == s0.func_cxs,
                    forall|c: int, j: int| 0 <= c < n && 0 <= j < cfg.blocks@[c].insns@.len() ==> {
                        let i = #[trigger] cfg.blocks@[c].insns@[j];
                        &&& edge_insn_ok(i)
                        &&& def_reg(i) is Some ==> s0.has(def_reg(i)->0)
                        &&& forall|v: GeneralReg| #[trigger] insn_infos@[c]@[j]@.contains(v) ==> s0.has(v)
                    },
                    forall|c: int, j: int| 0 <= c < b && 0 <= j < cfg.blocks@[c].insns@.len() ==>
                        edges_made(*self, #[trigger] cfg.blocks@[c].insns@[j], insn_infos@[c]@[j]@),
                    forall|j: int| 0 <= j < k ==> edges_made(*self, #[trigger] insns@[j], infos@[j]@),
                    forall|u: GeneralReg, v: GeneralReg| #[trigger] self.adj(u, v) ==> s0.adj(u, v)
                        || some_edge(*cfg, insn_infos@, u, v),
                decreases insns@.len() - k,
            {
                let insn = insns[k];
                let live = &infos[k];
                let ghost before = *self;
                proof {
                    assert(insn == cfg.blocks@[b as int].insns@[k as int]);
                    assert(forall|v: GeneralReg| #[trigger] live@.contains(v) ==> s0.has(v));
                }
                match insn {
                    Insn::Add(d, ..) | Insn::Addw(d, ..) | Insn::Sub(d, ..) | Insn::Subw(d, ..) | Insn::Mul(d, ..)
                    | Insn::Mulw(d, ..) | Insn::Div(d, ..) | Insn::Divw(d, ..) | Insn::Rem(d, ..) | Insn::Remw(d, ..)
                    | Insn::Slt(d, ..) | Insn::Sgt(d, ..) | Insn::LoadStatic(d, ..) | Insn::Ld(d, ..) | Insn::Lw(d, ..)
                    | Insn::Neg(d, ..) | Insn::Negw(d, ..) | Insn::Mv(d, ..) | Insn::Not(d, ..) | Insn::Sextw(d, ..)
                    | Insn::Seqz(d, ..) | Insn::Snez(d, ..) => {
                        if let Some(dr) = GeneralReg::from_operand(d) {
                            self.connect_all(dr, live);
                        }
                    },
                    Insn::Call(_) => {
                        self.connect_phys(Register::T0, live);
                        self.connect_phys(Register::T1, live);
                        self.connect_phys(Register::T2, live);
                        self.connect_phys(Register::A0, live);
                        self.connect_phys(Register::A1, live);
                        self.connect_phys(Register::A2, live);
                        self.connect_phys(Register::A3, live);
                        self.connect_phys(Register::A4, live);
                        self.connect_phys(Register::A5, live);
                        self.connect_phys(Register::A6, live);
                        self.connect_phys(Register::A7, live);
                        self.connect_phys(Register::T3, live);
                        self.connect_phys(Register::T4, live);
                    },
                    _ => {},
                }
                proof {
                    assert forall|c: int, j: int| 0 <= c < b && 0 <= j < cfg.blocks@[c].insns@.len() implies
                        edges_made(*self, #[trigger] cfg.blocks@[c].insns@[j], insn_infos@[c]@[j]@) by {
                        assert(edges_made(before, cfg.blocks@[c].insns@[j], insn_infos@[c]@[j]@));
                    }
                    assert forall|j: int| 0 <= j < k + 1 implies edges_made(*self, #[trigger] insns@[j], infos@[j]@) by {
                        if j < k { assert(edges_made(before, insns@[j], infos@[j]@)); }
                    }
                    assert forall|u: GeneralReg, v: GeneralReg| #[trigger] self.adj(u, v) implies s0.adj(u, v)
                        || some_edge(*cfg, insn_infos@, u, v) by {
                        if !before.adj(u, v) {
                            assert(edge_at(*cfg, insn_infos@, b as int, k as int, u, v));
                        }
                    }
                }
                k = k + 1;
            }
            b = b + 1;
        }
    }

    /// Physical registers are never spilled; a virtual register costs as
    /// much as it has neighbors.
    fn calc_spill_cost(&mut self)
        requires old(self).wf(),
        ensures
            final(self).wf(), final(self).regs() == old(self).regs(), final(self).func_cxs == old(self).func_cxs,
            final(self).nodes@.len() == old(self).nodes@.len(),
            forall|i: int| 0 <= i < final(self).nodes@.len() ==> (#[trigger] final(self).nodes@[i]).neighbors == old(self).nodes@[i].neighbors
                && final(self).nodes@[i].color == old(self).nodes@[i].color
                && final(self).nodes@[i].spill_cost == (if final(self).nodes@[i].reg is Phys { usize::MAX as int } else { final(self).nodes@[i].neighbors@.len() as int }),
    {
        let ghost s0 = *self;
        let n = self.nodes.len();
        let mut i: usize = 0;
        while i < n
            invariant
                i <= n, n == s0.nodes@.len(), self.nodes@.len() == n, self.func_cxs == s0.func_cxs,
                forall|j: int| 0 <= j < n ==> (#[trigger] self.nodes@[j]).neighbors == s0.nodes@[j].neighbors
                    && self.nodes@[j].color == s0.nodes@[j].color && self.nodes@[j].reg == s0.nodes@[j].reg,
                forall|j: int| 0 <= j < i ==> (#[trigger] self.nodes@[j]).spill_cost
                    == (if self.nodes@[j].reg is Phys { usize::MAX as int } else { self.nodes@[j].neighbors@.len() as int }),
            decreases n - i,
        {
            let mut node = self.nodes.remove(i);
            node.spill_cost = match node.reg {
                GeneralReg::Phys(_) => usize::MAX,
                GeneralReg::Virt(_) => node.neighbors.len(),
            };
            self.nodes.insert(i, node);
            i = i + 1;
        }
        proof {
            assert(self.regs() =~= s0.regs());
            assert forall|u: GeneralReg, j: int| 0 <= j < n && #[trigger] self.nodes@[j].neighbors@.contains(u)
                implies self.has(u) && u != self.nodes@[j].reg by {
                assert(s0.nodes@[j].neighbors@.contains(u));
            }
        }
    }
}

/// The registers of a run of nodes.
pub open spec fn regs_of(s: Seq<RigNode>) -> Seq<GeneralReg> {
    s.map_values(|n: RigNode| n.reg)
}

/// What a node is, apart from its spill cost and color: its register and neighbors.
pub open spec fn key(n: RigNode) -> (GeneralReg, Seq<GeneralReg>) {
    (n.reg, n.neighbors@)
}

pub open spec fn key_seq(s: Seq<RigNode>) -> Seq<(GeneralReg, Seq<GeneralReg>)> {
    s.map_values(|n: RigNode| key(n))
}

pub open spec fn keys(s: Seq<RigNode>) -> Set<(GeneralReg, Seq<GeneralReg>)> {
    key_seq(s).to_set()
}

/// Interference goes both ways and never from a register to itself.
pub open spec fn sym_keys(k: Set<(GeneralReg, Seq<GeneralReg>)>) -> bool {
    &&& forall|a: (GeneralReg, Seq<GeneralReg>), b: (GeneralReg, Seq<GeneralReg>)|
        #[trigger] k.contains(a) && #[trigger] k.contains(b) && a.1.contains(b.0) ==> b.1.contains(a.0)
    &&& forall|a: (GeneralReg, Seq<GeneralReg>)| #[trigger] k.contains(a) ==> !a.1.contains(a.0)
}

/// The colors a node cannot take: the physical registers it interferes
/// with, and the colors of the colored nodes among its neighbors.
pub open spec fn blocked(n: RigNode, colored: Seq<RigNode>) -> Set<Register> {
    Set::new(|c: Register| n.neighbors@.contains(GeneralReg::Phys(c))
        || exists|j: int| 0 <= j < colored.len() && n.neighbors@.contains(#[trigger] colored[j].reg) && colored[j].color == Some(c))
}

/// A coloring that respects interference: neighbors never share a color, a
/// node never takes a physical register it interferes with, colors are
/// registers the allocator hands out, and a node stays uncolored only when
/// every such register is blocked.
pub open spec fn proper(s: Seq<RigNode>) -> bool {
    &&& forall|i: int, j: int| 0 <= i < s.len() && 0 <= j < s.len() && (#[trigger] s[i]).neighbors@.contains((#[trigger] s[j]).reg)
        && s[i].color is Some && s[j].color is Some ==> s[i].color != s[j].color
    &&& forall|i: int| 0 <= i < s.len() && (#[trigger] s[i]).color is Some ==>
        !s[i].neighbors@.contains(GeneralReg::Phys(s[i].color->0)) && is_alloc_reg(s[i].color->0)
    &&& forall|i: int, c: Register| 0 <= i < s.len() && (#[trigger] s[i]).color is None && is_alloc_reg(c) ==> #[trigger] blocked(s[i], s).contains(c)
}

/// Every register the allocator hands out is in the order it tries them.
pub proof fn lemma_alloc_in_seq(r: Register)
    requires is_alloc_reg(r),
    ensures exists|k: int| 0 <= k < 24 && #[trigger] alloc_regs_seq()[k] == r,
{
    let a = alloc_regs_seq();
    match r {
        Register::A0 => assert(a[0] == r), Register::A1 => assert(a[1] == r), Register::A2 => assert(a[2] == r),
        Register::A3 => assert(a[3] == r), Register::A4 => assert(a[4] == r), Register::A5 => assert(a[5] == r),
        Register::A6 => assert(a[6] == r), Register::A7 => assert(a[7] == r), Register::T0 => assert(a[8] == r),
        Register::T1 => assert(a[9] == r), Register::T2 => assert(a[10] == r), Register::T3 => assert(a[11] == r),
        Register::T4 => assert(a[12] == r), Register::S1 => assert(a[13] == r), Register::S2 => assert(a[14] == r),
        Register::S3 => assert(a[15] == r), Register::S4 => assert(a[16] == r), Register::S5 => assert(a[17] == r),
        Register::S6 => assert(a[18] == r), Register::S7 => assert(a[19] == r), Register::S8 => assert(a[20] == r),
        Register::S9 => assert(a[21] == r), Register::S10 => assert(a[22] == r), Register::S11 => assert(a[23] == r),
        _ => {},
    }
}

proof fn lemma_alloc_seq_alloc(k: int)
    requires 0 <= k < 24,
    ensures is_alloc_reg(alloc_regs_seq()[k]),
{
}

/// Whether `x` is in `v`.
fn holds_reg(v: &Vec<Register>, x: Register) -> (r: bool)
    ensures r == v@.contains(x),
{
    let mut i: usize = 0;
    while i < v.len()
        invariant i <= v@.len(), forall|j: int| 0 <= j < i ==> v@[j] != x,
        decreases v@.len() - i,
    {
        if v[i] == x {
            return true;
        }
        i = i + 1;
    }
    false
}

/// Whether `x` is in `v`.
fn holds_general(v: &Vec<GeneralReg>, x: GeneralReg) -> (r: bool)
    ensures r == v@.contains(x),
{
    let mut i: usize = 0;
    while i < v.len()
        invariant i <= v@.len(), forall|j: int| 0 <= j < i ==> v@[j] != x,
        decreases v@.len() - i,
    {
        if v[i] == x {
            return true;
        }
        i = i + 1;
    }
    false
}

/// Appends `c`.
fn push_reg(v: &mut Vec<Register>, c: Register)
    ensures forall|x: Register| #[trigger] final(v)@.contains(x) <==> old(v)@.contains(x) || x == c,
{
    let ghost before = v@;
    v.push(c);
    proof {
        assert forall|x: Register| #[trigger] v@.contains(x) <==> before.contains(x) || x == c by {
            if v@.contains(x) && x != c {
                let m = choose|m: int| 0 <= m < v@.len() && v@[m] == x;
                assert(before[m] == x);
            }
            if before.contains(x) {
                let m = choose|m: int| 0 <= m < before.len() && before[m] == x;
                assert(v@[m] == x);
            }
            if x == c { assert(v@[before.len() as int] == c); }
        }
    }
}

/// The first register, in the order the allocator tries them, that the
/// node's neighbors leave free.
fn pick_color(node: &RigNode, colored: &Vec<RigNode>) -> (r: Option<Register>)
    ensures
        r matches Some(c) ==> is_alloc_reg(c) && !blocked(*node, colored@).contains(c)
            && exists|k: int| 0 <= k < 24 && alloc_regs_seq()[k] == c
                && forall|m: int| 0 <= m < k ==> #[trigger] blocked(*node, colored@).contains(alloc_regs_seq()[m]),
        r is None ==> forall|c: Register| is_alloc_reg(c) ==> #[trigger] blocked(*node, colored@).contains(c),
{
    let ghost bl = blocked(*node, colored@);
    let mut used: Vec<Register> = Vec::new();
    let mut j: usize = 0;
    while j < colored.len()
        invariant
            j <= colored@.len(), bl == blocked(*node, colored@),
            forall|c: Register| #[trigger] used@.contains(c) ==> bl.contains(c),
            forall|m: int| 0 <= m < j && node.neighbors@.contains(#[trigger] colored@[m].reg) && colored@[m].color is Some
                ==> used@.contains(colored@[m].color->0),
        decreases colored@.len() - j,
    {
        match colored[j].color {
            Some(c) => {
                if holds_general(&node.neighbors, colored[j].reg) {
                    push_reg(&mut used, c);
                    proof { assert(bl.contains(c)); }
                }
            },
            None => {},
        }
        j = j + 1;
    }
    let mut k: usize = 0;
    while k < node.neighbors.len()
        invariant
            k <= node.neighbors@.len(), bl == blocked(*node, colored@),
            forall|c: Register| #[trigger] used@.contains(c) ==> bl.contains(c),
            forall|m: int| 0 <= m < colored@.len() && node.neighbors@.contains(#[trigger] colored@[m].reg) && colored@[m].color is Some
                ==> used@.contains(colored@[m].color->0),
            forall|m: int| 0 <= m < k ==> (#[trigger] node.neighbors@[m] matches GeneralReg::Phys(c) ==> used@.contains(c)),
        decreases node.neighbors@.len() - k,
    {
        match node.neighbors[k] {
            GeneralReg::Phys(c) => {
                proof { assert(node.neighbors@.contains(GeneralReg::Phys(c))); }
                push_reg(&mut used, c);
            },
            _ => {},
        }
        k = k + 1;
    }
    proof {
        assert forall|c: Register| bl.contains(c) implies used@.contains(c) by {
            if node.neighbors@.contains(GeneralReg::Phys(c)) {
                let m = choose|m: int| 0 <= m < node.neighbors@.len() && node.neighbors@[m] == GeneralReg::Phys(c);
                assert(node.neighbors@[m] matches GeneralReg::Phys(c2) ==> used@.contains(c2));
            } else {
                let m = choose|m: int| 0 <= m < colored@.len() && node.neighbors@.contains(#[trigger] colored@[m].reg) && colored@[m].color == Some(c);
            }
        }
    }
    let regs = Register::alloc_regs();
    let mut i: usize = 0;
    while i < regs.len()
        invariant
            i <= 24, regs@ == alloc_regs_seq(), bl == blocked(*node, colored@),
            forall|c: Register| #[trigger] used@.contains(c) <==> bl.contains(c),
            forall|m: int| 0 <= m < i ==> #[trigger] bl.contains(alloc_regs_seq()[m]),
        decreases 24 - i,
    {
        if !holds_reg(&used, regs[i]) {
            proof {
                lemma_alloc_seq_alloc(i as int);
                assert(alloc_regs_seq()[i as int] == regs@[i as int]);
                assert(!bl.contains(regs@[i as int]));
                assert(forall|m: int| 0 <= m < i ==> #[trigger] blocked(*node, colored@).contains(alloc_regs_seq()[m]));
                assert(0 <= i < 24 && alloc_regs_seq()[i as int] == regs@[i as int]
                    && forall|m: int| 0 <= m < i ==> #[trigger] blocked(*node, colored@).contains(alloc_regs_seq()[m]));
            }
            return Some(regs[i]);
        }
        i = i + 1;
    }
    proof {
        assert forall|c: Register| is_alloc_reg(c) implies #[trigger] bl.contains(c) by {
            lemma_alloc_in_seq(c);
            let k = choose|k: int| 0 <= k < 24 && #[trigger] alloc_regs_seq()[k] == c;
            assert(bl.contains(alloc_regs_seq()[k]));
        }
    }
    None
}

/// The node chosen to be pruned: the first with fewer neighbors than
/// there are registers to hand out, or else one that is cheapest to spill.
pub open spec fn prune_choice(nodes: Seq<RigNode>, idx: int) -> bool {
    &&& 0 <= idx < nodes.len()
    &&& (exists|j: int| 0 <= j < nodes.len() && (#[trigger] nodes[j]).neighbors@.len() < 24) ==>
        nodes[idx].neighbors@.len() < 24 && forall|j: int| 0 <= j < idx ==> (#[trigger] nodes[j]).neighbors@.len() >= 24
    &&& (forall|j: int| 0 <= j < nodes.len() ==> (#[trigger] nodes[j]).neighbors@.len() >= 24) ==>
        forall|j: int| 0 <= j < nodes.len() ==> nodes[idx].spill_cost <= (#[trigger] nodes[j]).spill_cost
}

proof fn lemma_keys_remove(s: Seq<RigNode>, i: int)
    requires 0 <= i < s.len(),
    ensures keys(s.remove(i)).insert(key(s[i])) == keys(s), keys(s.remove(i)).subset_of(keys(s)),
{
    let r = s.remove(i);
    assert forall|x: (GeneralReg, Seq<GeneralReg>)| keys(r).insert(key(s[i])).contains(x) <==> keys(s).contains(x) by {
        if keys(s).contains(x) {
            let j = choose|j: int| 0 <= j < s.len() && #[trigger] key_seq(s)[j] == x;
            if j < i { assert(key_seq(r)[j] == x); }
            else if j > i { assert(key_seq(r)[j - 1] == x); }
        }
        if keys(r).contains(x) {
            let j = choose|j: int| 0 <= j < r.len() && #[trigger] key_seq(r)[j] == x;
            if j < i { assert(key_seq(s)[j] == x); }
            else { assert(key_seq(s)[j + 1] == x); }
        }
        if x == key(s[i]) { assert(key_seq(s)[i] == x); }
    }
    assert(keys(r).insert(key(s[i])) =~= keys(s));
}

proof fn lemma_keys_push(s: Seq<RigNode>, n: RigNode)
    ensures keys(s.push(n)) == keys(s).insert(key(n)),
{
    let t = s.push(n);
    assert forall|x: (GeneralReg, Seq<GeneralReg>)| keys(t).contains(x) <==> keys(s).insert(key(n)).contains(x) by {
        if keys(t).contains(x) {
            let j = choose|j: int| 0 <= j < t.len() && #[trigger] key_seq(t)[j] == x;
            if j < s.len() { assert(key_seq(s)[j] == x); }
        }
        if keys(s).contains(x) {
            let j = choose|j: int| 0 <= j < s.len() && #[trigger] key_seq(s)[j] == x;
            assert(key_seq(t)[j] == x);
        }
        if x == key(n) { assert(key_seq(t)[s.len() as int] == x); }
    }
    assert(keys(t) =~= keys(s).insert(key(n)));
}

/// Picks the node to prune and returns it with the others.
fn prune(nodes: Vec<RigNode>) -> (r: (Option<RigNode>, Vec<RigNode>))
    ensures
        nodes@.len() == 0 ==> r.0 is None && r.1@.len() == 0,
        nodes@.len() > 0 ==> exists|idx: int| prune_choice(nodes@, idx) && r.0 == Some(nodes@[idx]) && r.1@ == nodes@.remove(idx),
{
    let n = nodes.len();
    if n == 0 {
        return (None, Vec::new());
    }
    let mut idx: usize = 0;
    let mut found = false;
    while idx < n && !found
        invariant idx <= n, n == nodes@.len(),
            found ==> idx < n && nodes@[idx as int].neighbors@.len() < 24,
            forall|j: int| 0 <= j < idx ==> (#[trigger] nodes@[j]).neighbors@.len() >= 24,
        decreases n - idx + (if found { 0int } else { 1int }),
    {
        if nodes[idx].neighbors.len() < 24 {
            found = true;
        } else {
            idx = idx + 1;
        }
    }
    if !found {
        let mut metric: usize = usize::MAX;
        let mut best: usize = 0;
        let mut i: usize = 0;
        while i < n
            invariant
                i <= n, n == nodes@.len(), best < n, 0 < n,
                metric == (if i == 0 || nodes@[best as int].spill_cost == usize::MAX { usize::MAX as int } else { nodes@[best as int].spill_cost as int }),
                metric <= usize::MAX,
                forall|j: int| 0 <= j < i ==> nodes@[best as int].spill_cost <= (#[trigger] nodes@[j]).spill_cost,
                i == 0 ==> best == 0,
            decreases n - i,
        {
            if nodes[i].spill_cost < metric {
                metric = nodes[i].spill_cost;
                best = i;
            }
            i = i + 1;
        }
        idx = best;
    }
    let mut nodes = nodes;
    let ghost s = nodes@;
    let p = nodes.remove(idx);
    proof {
        assert(prune_choice(s, idx as int));
    }
    (Some(p), nodes)
}

impl<'a> Rig<'a> {
    /// The graph with every node colored so that no two neighbors share a color.
    pub fn color(self) -> (r: Self)
        requires sym_keys(keys(self.nodes@)), regs_of(self.nodes@).no_duplicates(),
        ensures
            r.func_cxs == self.func_cxs,
            r.nodes@.len() == self.nodes@.len(), keys(r.nodes@) == keys(self.nodes@),
            proper(r.nodes@), regs_of(r.nodes@).no_duplicates(),
    {
        let Rig { nodes, func_cxs } = self;
        Rig { nodes: color_inner(nodes), func_cxs }
    }
}

/// Colors the nodes: prunes one, colors the others, then gives the pruned
/// one the first color its neighbors leave free.
fn color_inner(nodes: Vec<RigNode>) -> (r: Vec<RigNode>)
    requires sym_keys(keys(nodes@)), regs_of(nodes@).no_duplicates(),
    ensures r@.len() == nodes@.len(), keys(r@) == keys(nodes@), proper(r@), regs_of(r@).no_duplicates(),
    decreases nodes@.len(),
{
    if nodes.len() == 0 {
        return nodes;
    }
    let ghost s = nodes@;
    let (to_prune, unpruned) = prune(nodes);
    let ghost idx = choose|idx: int| prune_choice(s, idx) && to_prune == Some(s[idx]) && unpruned@ == s.remove(idx);
    proof {
        lemma_keys_remove(s, idx);
        assert forall|a: (GeneralReg, Seq<GeneralReg>), b: (GeneralReg, Seq<GeneralReg>)|
            #[trigger] keys(unpruned@).contains(a) && #[trigger] keys(unpruned@).contains(b) && a.1.contains(b.0) implies b.1.contains(a.0) by {
            assert(keys(s).contains(a) && keys(s).contains(b));
        }
        assert forall|a: (GeneralReg, Seq<GeneralReg>)| #[trigger] keys(unpruned@).contains(a) implies !a.1.contains(a.0) by {
            assert(keys(s).contains(a));
        }
        assert(regs_of(unpruned@) =~= regs_of(s).remove(idx));
        assert forall|a: int, b: int| 0 <= a < b < regs_of(unpruned@).len() implies regs_of(unpruned@)[a] != regs_of(unpruned@)[b] by {
            let a2 = if a < idx { a } else { a + 1 };
            let b2 = if b < idx { b } else { b + 1 };
            assert(regs_of(unpruned@)[a] == regs_of(s)[a2]);
            assert(regs_of(unpruned@)[b] == regs_of(s)[b2]);
        }
    }
    let mut colored = color_inner(unpruned);
    match to_prune {
        Some(node) => {
            let mut node = node;
            let c = pick_color(&node, &colored);
            let ghost n0 = node;
            node.color = c;
            proof { assert(blocked(n0, colored@) =~= blocked(node, colored@)); }
            let ghost rr = colored@;
            colored.push(node);
            proof {
                let out = colored@;
                let last = out.len() - 1;
                assert(out[last] == node);
                assert(key(node) == key(s[idx]));
                lemma_keys_push(rr, node);
                assert(keys(s).contains(key(node))) by { assert(key_seq(s)[idx] == key(s[idx])); }
                assert(regs_of(out) == regs_of(rr).push(node.reg));
                assert(!regs_of(rr).contains(node.reg)) by {
                    if regs_of(rr).contains(node.reg) {
                        let j = choose|j: int| 0 <= j < regs_of(rr).len() && regs_of(rr)[j] == node.reg;
                        assert(key_seq(rr)[j] == key(rr[j]));
                        assert(keys(rr).contains(key(rr[j])));
                        assert(keys(s.remove(idx)).contains(key(rr[j])));
                        let m = choose|m: int| 0 <= m < key_seq(s.remove(idx)).len() && #[trigger] key_seq(s.remove(idx))[m] == key(rr[j]);
                        let m2 = if m < idx { m } else { m + 1 };
                        assert(s.remove(idx)[m] == s[m2]);
                        assert(regs_of(s)[m2] == node.reg);
                        assert(regs_of(s)[idx] == node.reg);
                    }
                }
                assert forall|a: int, b: int| 0 <= a < b < regs_of(out).len() implies regs_of(out)[a] != regs_of(out)[b] by {
                    if b == last { assert(regs_of(rr)[a] == regs_of(out)[a]); }
                }
                assert forall|i: int, j: int| 0 <= i < out.len() && 0 <= j < out.len() && (#[trigger] out[i]).neighbors@.contains((#[trigger] out[j]).reg)
                    && out[i].color is Some && out[j].color is Some implies out[i].color != out[j].color by {
                    if i < last && j < last {
                        assert(out[i] == rr[i] && out[j] == rr[j]);
                    } else if i == last && j < last {
                        assert(out[j] == rr[j]);
                        assert(blocked(node, rr).contains(rr[j].color->0));
                    } else if i < last && j == last {
                        assert(out[i] == rr[i]);
                        assert(keys(rr).contains(key(rr[i]))) by { assert(key_seq(rr)[i] == key(rr[i])); }
                        assert(keys(s).contains(key(rr[i])));
                        assert(node.neighbors@.contains(rr[i].reg));
                        assert(blocked(node, rr).contains(rr[i].color->0));
                    } else {
                        assert(!key(node).1.contains(key(node).0));
                    }
                }
                assert forall|i: int| 0 <= i < out.len() && (#[trigger] out[i]).color is Some implies
                    !out[i].neighbors@.contains(GeneralReg::Phys(out[i].color->0)) && is_alloc_reg(out[i].color->0) by {
                    if i < last { assert(out[i] == rr[i]); }
                }
                assert forall|i: int, c: Register| 0 <= i < out.len() && (#[trigger] out[i]).color is None && is_alloc_reg(c)
                    implies #[trigger] blocked(out[i], out).contains(c) by {
                    if i < last {
                        assert(out[i] == rr[i]);
                        assert(blocked(rr[i], rr).contains(c));
                        if !rr[i].neighbors@.contains(GeneralReg::Phys(c)) {
                            let j = choose|j: int| 0 <= j < rr.len() && rr[i].neighbors@.contains(#[trigger] rr[j].reg) && rr[j].color == Some(c);
                            assert(out[j] == rr[j]);
                        }
                    } else {
                        assert(blocked(n0, rr).contains(c));
                        assert(blocked(node, rr).contains(c));
                        if !node.neighbors@.contains(GeneralReg::Phys(c)) {
                            let j = choose|j: int| 0 <= j < rr.len() && node.neighbors@.contains(#[trigger] rr[j].reg) && rr[j].color == Some(c);
                            assert(out[j] == rr[j]);
                        }
                    }
                }
            }
        },
        None => {},
    }
    colored
}

/// Two registers interfere in a body: one is written, or overwritten by a
/// call, while the other is live.
pub open spec fn interferes(bs: Seq<Seq<Insn>>, cxs: Seq<(StrDescriptor, FuncContext)>, live: Seq<Set<GeneralReg>>,
    u: GeneralReg, v: GeneralReg) -> bool
{
    &&& u != v
    &&& exists|b: int, k: int| 0 <= b < bs.len() && 0 <= k < bs[b].len()
        && #[trigger] live_after(bs, cxs, live, b, k).contains(v)
        && (def_reg(bs[b][k]) == Some(u) || (bs[b][k] is Call && call_clobbers(u)))
}

/// A body the allocator handles: its graph can be built, its instructions
/// analyzed, and the physical registers it names are ones it hands out.
pub open spec fn allocatable(body: Seq<Insn>, cxs: Seq<(StrDescriptor, FuncContext)>) -> bool {
    &&& buildable(body)
    &&& forall|k: int| 0 <= k < body.len() ==> insn_analyzable(#[trigger] body[k], cxs)
    &&& forall|j: int| 0 <= j < regs_seq(body).len() ==> (#[trigger] regs_seq(body)[j] matches GeneralReg::Phys(p) ==> is_alloc_reg(p))
}

/// Color `c` is out of reach for register `u`: `u` interferes with the
/// physical register `c`, or with a register that was given color `c`.
pub open spec fn color_taken(bs: Seq<Seq<Insn>>, cxs: Seq<(StrDescriptor, FuncContext)>, live: Seq<Set<GeneralReg>>,
    map: Seq<(GeneralReg, Option<Register>)>, u: GeneralReg, c: Register) -> bool
{
    ||| interferes(bs, cxs, live, u, GeneralReg::Phys(c))
    ||| interferes(bs, cxs, live, GeneralReg::Phys(c), u)
    ||| exists|j: int| 0 <= j < map.len() && (#[trigger] map[j]).1 == Some(c)
        && (interferes(bs, cxs, live, u, map[j].0) || interferes(bs, cxs, live, map[j].0, u))
}

/// The colors the allocation chose for a body: one entry per register,
/// every virtual register of the body and every allocatable register
/// included, and no two interfering registers sharing a color, under the
/// liveness of the body.
pub open spec fn colors_ok(body: Seq<Insn>, cxs: Seq<(StrDescriptor, FuncContext)>, map: Seq<(GeneralReg, Option<Register>)>) -> bool {
    let bs = blocks_of(body);
    &&& super::allocation::map_regs(map).no_duplicates()
    &&& forall|r: GeneralReg| (#[trigger] regs_seq(body).contains(r) && r is Virt) || base_regs().contains(r)
        ==> exists|i: int| 0 <= i < map.len() && (#[trigger] map[i]).0 == r
    &&& forall|live: Seq<Set<GeneralReg>>, i: int, j: int| #[trigger] body_liveness(bs, cxs, live)
        && 0 <= i < map.len() && 0 <= j < map.len()
        && interferes(bs, cxs, live, (#[trigger] map[i]).0, (#[trigger] map[j]).0)
        && map[i].1 is Some && map[j].1 is Some ==> map[i].1 != map[j].1
    &&& forall|live: Seq<Set<GeneralReg>>, i: int| #[trigger] body_liveness(bs, cxs, live) && 0 <= i < map.len()
        && (#[trigger] map[i]).1 is Some ==> is_alloc_reg(map[i].1->0)
            && !interferes(bs, cxs, live, map[i].0, GeneralReg::Phys(map[i].1->0))
            && !interferes(bs, cxs, live, GeneralReg::Phys(map[i].1->0), map[i].0)
    &&& forall|live: Seq<Set<GeneralReg>>, i: int, c: Register| #[trigger] body_liveness(bs, cxs, live) && 0 <= i < map.len()
        && (#[trigger] map[i]).1 is None && map[i].0 is Virt && #[trigger] is_alloc_reg(c)
        ==> color_taken(bs, cxs, live, map, map[i].0, c)
}

/// An edge that an instruction asks for is interference under the liveness of the body.
proof fn lemma_edge_interferes(body: Seq<Insn>, cxs: Seq<(StrDescriptor, FuncContext)>, cfg: Graph,
    live: super::live_analysis::AnalyzeResult, live2: Seq<Set<GeneralReg>>, b: int, k: int, u: GeneralReg, x: GeneralReg)
    requires
        cfg.block_seqs() == blocks_of(body),
        forall|c: int| 0 <= c < cfg.blocks@.len() ==> (#[trigger] cfg.blocks@[c]).successors@.to_set() == succs_of(blocks_of(body), c),
        analyzed(cfg, cxs, live),
        body_liveness(blocks_of(body), cxs, live2),
        0 <= b < cfg.blocks@.len(), 0 <= k < cfg.blocks@[b].insns@.len(),
        edge_at(cfg, live.insn_infos@, b, k, u, x),
        u != x,
    ensures
        interferes(blocks_of(body), cxs, live2, u, x) || interferes(blocks_of(body), cxs, live2, x, u),
{
    let bs = blocks_of(body);
    lemma_body_liveness(cfg, body, cxs, live, live2);
    assert(cfg.block_seqs()[b] == cfg.blocks@[b].insns@);
    assert(live.insn_infos@[b]@[k]@ == live_after(bs, cxs, live2, b, k));
    assert(bs[b][k] == cfg.blocks@[b].insns@[k]);
}

proof fn lemma_def_in_regs(i: Insn)
    requires def_reg(i) is Some,
    ensures regs_seq(seq![i]).contains(def_reg(i)->0),
{
    let s = seq![i];
    reveal_with_fuel(regs_seq, 2);
    assert(s.drop_last() =~= Seq::<Insn>::empty());
    assert(s.last() == i);
    assert(regs_seq(s.drop_last()) =~= Seq::<GeneralReg>::empty());
    assert(regs_seq(s)[0] == def_reg(i)->0);
}

impl<'a> Rig<'a> {
    /// Builds the interference graph of the function, from the liveness of
    /// its registers, and colors it.
    #[verifier::rlimit(100)]
    pub fn analyze(self, func: &Function) -> (r: AnalyzeResult)
        requires self.wf(), keeps_base(self), phys_only(self), allocatable(func.body@, self.func_cxs@),
        ensures colors_ok(func.body@, self.func_cxs@, r.map@),
    {
        let ghost body = func.body@;
        let ghost cxs = self.func_cxs@;
        let ghost bs = blocks_of(body);
        let ghost s0 = self;
        let mut rig = self;
        rig.add_virtreg(func);
        let ghost s1 = rig;
        let cfg = Graph::build(&func.body);
        proof {
            lemma_blocks_flatten(body);
            assert forall|b: int, k: int| 0 <= b < cfg.blocks@.len() && 0 <= k < cfg.blocks@[b].insns@.len()
                implies insn_analyzable(#[trigger] cfg.blocks@[b].insns@[k], cxs) by {
                assert(cfg.block_seqs()[b] == cfg.blocks@[b].insns@);
                lemma_flatten_member(bs, b, k);
                let j = choose|j: int| 0 <= j < body.len() && body[j] == bs[b][k];
            }
            assert forall|b: int, k: int| 0 <= b < cfg.blocks@.len() && 0 <= k < cfg.blocks@[b].predecessors@.len()
                implies ((#[trigger] cfg.blocks@[b].predecessors@[k]) matches NodeId::BasicBlock(c) ==> c < cfg.blocks@.len()) by {
                assert(cfg.blocks@[b].predecessors@.to_set().contains(cfg.blocks@[b].predecessors@[k]));
            }
        }
        let live = analysis(&cfg, rig.func_cxs);
        proof {
            lemma_analyzed_in_universe(cfg, cxs, live);
            lemma_graph_regs_body(cfg, body);
            // every register of the universe has a node
            assert forall|x: GeneralReg| universe(cfg).contains(x) implies rig.has(x) by {
                let all = graph_regs(cfg.blocks@) + Seq::new(8, |i: int| arg_reg(i));
                let j = choose|j: int| 0 <= j < all.len() && all[j] == x;
                if j < graph_regs(cfg.blocks@).len() {
                    assert(regs_seq(body)[j] == x);
                    if x is Virt {
                        assert(regs_seq(body).contains(x));
                    } else {
                        assert(regs_seq(body)[j] matches GeneralReg::Phys(p) ==> is_alloc_reg(p));
                        lemma_alloc_in_base(x->Phys_0);
                        let k = choose|k: int| 0 <= k < 24 && #[trigger] base_regs()[k] == GeneralReg::Phys(x->Phys_0);
                        assert(s0.has(base_regs()[k]));
                    }
                } else {
                    let i = j - graph_regs(cfg.blocks@).len();
                    assert(x == arg_reg(i));
                    lemma_alloc_in_base(crate::assembly::spec_x(10 + i));
                    let k = choose|k: int| 0 <= k < 24 && #[trigger] base_regs()[k] == GeneralReg::Phys(crate::assembly::spec_x(10 + i));
                    assert(s0.has(base_regs()[k]));
                }
            }
            assert forall|b: int, k: int| 0 <= b < cfg.blocks@.len() && 0 <= k < cfg.blocks@[b].insns@.len() implies {
                let i = #[trigger] cfg.blocks@[b].insns@[k];
                &&& super::rig::edge_insn_ok(i)
                &&& def_reg(i) is Some ==> rig.has(def_reg(i)->0)
                &&& forall|v: GeneralReg| #[trigger] live.insn_infos@[b]@[k]@.contains(v) ==> rig.has(v)
            } by {
                let i = cfg.blocks@[b].insns@[k];
                assert(insn_analyzable(i, cxs));
                assert(live.insn_infos@[b]@.len() == cfg.blocks@[b].insns@.len()) by {
                    assert(super::live_analysis::live_view(live.insn_infos@[b]@).len() == live.insn_infos@[b]@.len());
                }
                assert(live.insn_infos@[b]@[k]@.subset_of(universe(cfg)));
                if def_reg(i) is Some {
                    lemma_def_in_regs(i);
                    lemma_regs_seq_member(cfg.blocks@[b].insns@, k);
                    lemma_graph_regs(cfg.blocks@, b);
                    super::live_analysis::lemma_universe(cfg, b);
                    assert(regs_seq(cfg.blocks@[b].insns@).to_set().contains(def_reg(i)->0));
                    let all = graph_regs(cfg.blocks@) + Seq::new(8, |m: int| arg_reg(m));
                    let j = choose|j: int| 0 <= j < graph_regs(cfg.blocks@).len() && graph_regs(cfg.blocks@)[j] == def_reg(i)->0;
                    assert(all[j] == def_reg(i)->0);
                    assert(universe(cfg).contains(def_reg(i)->0));
                }
            }
            assert forall|b: int| 0 <= b < cfg.blocks@.len() implies (#[trigger] live.insn_infos@[b])@.len() == cfg.blocks@[b].insns@.len() by {
                assert(super::live_analysis::live_view(live.insn_infos@[b]@).len() == live.insn_infos@[b]@.len());
            }
        }
        rig.add_edges(&cfg, &live.insn_infos);
        let ghost s2 = rig;
        rig.calc_spill_cost();
        let ghost s3 = rig;
        proof {
            assert(s3.nodes@ =~= s3.nodes@);
            assert forall|u: GeneralReg, v: GeneralReg| s2.adj(u, v) implies s3.adj(u, v) by {
                let i = choose|i: int| 0 <= i < s2.nodes@.len() && (#[trigger] s2.nodes@[i]).reg == u && s2.nodes@[i].neighbors@.contains(v);
                assert(s3.nodes@[i].reg == s3.regs()[i]);
            }
            // the keys of the graph are symmetric
            assert(sym_keys(keys(s3.nodes@))) by {
                assert forall|a: (GeneralReg, Seq<GeneralReg>), b: (GeneralReg, Seq<GeneralReg>)|
                    #[trigger] keys(s3.nodes@).contains(a) && #[trigger] keys(s3.nodes@).contains(b) && a.1.contains(b.0) implies b.1.contains(a.0) by {
                    let i = choose|i: int| 0 <= i < key_seq(s3.nodes@).len() && #[trigger] key_seq(s3.nodes@)[i] == a;
                    let j = choose|j: int| 0 <= j < key_seq(s3.nodes@).len() && #[trigger] key_seq(s3.nodes@)[j] == b;
                    assert(s3.nodes@[i].neighbors@.contains(s3.nodes@[j].reg));
                }
                assert forall|a: (GeneralReg, Seq<GeneralReg>)| #[trigger] keys(s3.nodes@).contains(a) implies !a.1.contains(a.0) by {
                    let i = choose|i: int| 0 <= i < key_seq(s3.nodes@).len() && #[trigger] key_seq(s3.nodes@)[i] == a;
                    assert(s3.nodes@[i].neighbors@.contains(a.1[0]) || !a.1.contains(a.0));
                }
            }
            assert(regs_of(s3.nodes@) == s3.regs());
        }
        let colored = rig.color().nodes;
        let mut map: Vec<(GeneralReg, Option<Register>)> = Vec::new();
        let mut i: usize = 0;
        while i < colored.len()
            invariant
                i <= colored@.len(), map@.len() == i,
                forall|j: int| 0 <= j < i ==> (#[trigger] map@[j]) == (colored@[j].reg, colored@[j].color),
            decreases colored@.len() - i,
        {
            map.push((colored[i].reg, colored[i].color));
            i = i + 1;
        }
        proof {
            assert forall|r: GeneralReg| (#[trigger] regs_seq(body).contains(r) && r is Virt) || base_regs().contains(r)
                implies s3.has(r) by {
                if base_regs().contains(r) {
                    let k = choose|k: int| 0 <= k < 24 && base_regs()[k] == r;
                    assert(s0.has(base_regs()[k]));
                }
                assert(s1.has(r));
            }
            assert forall|u: GeneralReg, v: GeneralReg| #[trigger] s2.adj(u, v) implies (u is Phys && v is Phys)
                || some_edge(cfg, live.insn_infos@, u, v) by {
                if !some_edge(cfg, live.insn_infos@, u, v) {
                    assert(s1.adj(u, v));
                    assert(s0.adj(u, v));
                }
            }
            lemma_colors_from_graph(body, cxs, cfg, live, s2, s3, colored@, map@);
        }
        AnalyzeResult { map }
    }
}


/// The colors of the colored graph of a body respect the interference of its registers.
proof fn lemma_colors_from_graph(body: Seq<Insn>, cxs: Seq<(StrDescriptor, FuncContext)>, cfg: Graph, live: super::live_analysis::AnalyzeResult,
    s2: Rig, s3: Rig, out: Seq<RigNode>, m: Seq<(GeneralReg, Option<Register>)>)
    requires
        cfg.block_seqs() == blocks_of(body),
        forall|b: int| 0 <= b < cfg.blocks@.len() ==> (#[trigger] cfg.blocks@[b]).successors@.to_set() == succs_of(blocks_of(body), b),
        analyzed(cfg, cxs, live),
        forall|b: int, k: int| 0 <= b < cfg.blocks@.len() && 0 <= k < cfg.blocks@[b].insns@.len() ==>
            edges_made(s2, #[trigger] cfg.blocks@[b].insns@[k], live.insn_infos@[b]@[k]@),
        s2.wf(), s3.wf(), s3.regs() == s2.regs(), s3.nodes@.len() == s2.nodes@.len(),
        forall|i: int| 0 <= i < s3.nodes@.len() ==> (#[trigger] s3.nodes@[i]).neighbors == s2.nodes@[i].neighbors,
        keys(out) == keys(s3.nodes@), regs_of(out).no_duplicates(), proper(out),
        m.len() == out.len(),
        forall|j: int| 0 <= j < out.len() ==> (#[trigger] m[j]) == (out[j].reg, out[j].color),
        forall|r: GeneralReg| (#[trigger] regs_seq(body).contains(r) && r is Virt) || base_regs().contains(r) ==> s3.has(r),
        forall|u: GeneralReg, v: GeneralReg| #[trigger] s2.adj(u, v) ==> (u is Phys && v is Phys) || some_edge(cfg, live.insn_infos@, u, v),
    ensures colors_ok(body, cxs, m),
{
    let bs = blocks_of(body);
        assert(super::allocation::map_regs(m) =~= regs_of(out));
        // an edge of the graph is an edge between the colored nodes
        assert forall|u: GeneralReg, v: GeneralReg, a: int| #[trigger] s2.adj(u, v) && 0 <= a < out.len() && out[a].reg == u
            implies #[trigger] out[a].neighbors@.contains(v) by {
            let i = choose|i: int| 0 <= i < s2.nodes@.len() && (#[trigger] s2.nodes@[i]).reg == u && s2.nodes@[i].neighbors@.contains(v);
            assert(key_seq(s3.nodes@)[i] == key(s3.nodes@[i]));
            assert(keys(out).contains(key(s3.nodes@[i])));
            let b = choose|b: int| 0 <= b < key_seq(out).len() && #[trigger] key_seq(out)[b] == key(s3.nodes@[i]);
            assert(s3.regs()[i] == s2.regs()[i]);
            assert(s3.regs()[i] == s3.nodes@[i].reg);
            assert(s2.regs()[i] == s2.nodes@[i].reg);
            assert(key_seq(out)[b] == key(out[b]));
            assert(regs_of(out)[b] == out[b].reg);
            assert(regs_of(out)[a] == out[a].reg);
            assert(out[b].reg == u);
            assert(a == b);
            assert(out[a].neighbors@ == s3.nodes@[i].neighbors@);
        }
        assert forall|live2: Seq<Set<GeneralReg>>, i: int, j: int| #[trigger] body_liveness(bs, cxs, live2)
            && 0 <= i < m.len() && 0 <= j < m.len()
            && interferes(bs, cxs, live2, (#[trigger] m[i]).0, (#[trigger] m[j]).0)
            && m[i].1 is Some && m[j].1 is Some implies m[i].1 != m[j].1 by {
            lemma_body_liveness(cfg, body, cxs, live, live2);
            let (b, k) = choose|b: int, k: int| 0 <= b < bs.len() && 0 <= k < bs[b].len()
                && #[trigger] live_after(bs, cxs, live2, b, k).contains(m[j].0)
                && (def_reg(bs[b][k]) == Some(m[i].0) || (bs[b][k] is Call && call_clobbers(m[i].0)));
            assert(cfg.block_seqs()[b] == cfg.blocks@[b].insns@);
            assert(live.insn_infos@[b]@[k]@.contains(m[j].0));
            assert(s2.adj(m[i].0, m[j].0));
            assert(out[i].neighbors@.contains(out[j].reg));
        }
        assert forall|live2: Seq<Set<GeneralReg>>, i: int| #[trigger] body_liveness(bs, cxs, live2) && 0 <= i < m.len()
            && (#[trigger] m[i]).1 is Some implies is_alloc_reg(m[i].1->0)
                && !interferes(bs, cxs, live2, m[i].0, GeneralReg::Phys(m[i].1->0))
                && !interferes(bs, cxs, live2, GeneralReg::Phys(m[i].1->0), m[i].0) by {
            lemma_body_liveness(cfg, body, cxs, live, live2);
            let c = m[i].1->0;
            let p = GeneralReg::Phys(c);
            if interferes(bs, cxs, live2, m[i].0, p) {
                let (b, k) = choose|b: int, k: int| 0 <= b < bs.len() && 0 <= k < bs[b].len()
                    && #[trigger] live_after(bs, cxs, live2, b, k).contains(p)
                    && (def_reg(bs[b][k]) == Some(m[i].0) || (bs[b][k] is Call && call_clobbers(m[i].0)));
                assert(cfg.block_seqs()[b] == cfg.blocks@[b].insns@);
                assert(live.insn_infos@[b]@[k]@.contains(p));
                assert(s2.adj(m[i].0, p));
                assert(out[i].neighbors@.contains(p));
            }
            if interferes(bs, cxs, live2, p, m[i].0) {
                let (b, k) = choose|b: int, k: int| 0 <= b < bs.len() && 0 <= k < bs[b].len()
                    && #[trigger] live_after(bs, cxs, live2, b, k).contains(m[i].0)
                    && (def_reg(bs[b][k]) == Some(p) || (bs[b][k] is Call && call_clobbers(p)));
                assert(cfg.block_seqs()[b] == cfg.blocks@[b].insns@);
                assert(live.insn_infos@[b]@[k]@.contains(m[i].0));
                assert(s2.adj(p, m[i].0));
                let x = choose|x: int| 0 <= x < s2.nodes@.len() && (#[trigger] s2.nodes@[x]).reg == p && s2.nodes@[x].neighbors@.contains(m[i].0);
                let y = choose|y: int| 0 <= y < s2.regs().len() && s2.regs()[y] == m[i].0;
                assert(s2.nodes@[y].neighbors@.contains(p));
                assert(s2.adj(m[i].0, p));
                assert(out[i].neighbors@.contains(p));
            }
        }
        assert forall|r: GeneralReg| (#[trigger] regs_seq(body).contains(r) && r is Virt) || base_regs().contains(r)
            implies exists|i: int| 0 <= i < m.len() && (#[trigger] m[i]).0 == r by {
            assert(s3.has(r));
            let y = choose|y: int| 0 <= y < s3.regs().len() && s3.regs()[y] == r;
            assert(key_seq(s3.nodes@)[y] == key(s3.nodes@[y]));
            assert(keys(out).contains(key(s3.nodes@[y])));
            let b = choose|b: int| 0 <= b < key_seq(out).len() && #[trigger] key_seq(out)[b] == key(s3.nodes@[y]);
            assert(m[b].0 == r);
        }
        // a neighbor of a colored node is a neighbor in the graph
        assert forall|a: int, x: GeneralReg| 0 <= a < out.len() && #[trigger] out[a].neighbors@.contains(x)
            implies s2.adj(out[a].reg, x) && x != out[a].reg by {
            assert(key_seq(out)[a] == key(out[a]));
            assert(keys(s3.nodes@).contains(key(out[a])));
            let y = choose|y: int| 0 <= y < key_seq(s3.nodes@).len() && #[trigger] key_seq(s3.nodes@)[y] == key(out[a]);
            assert(key_seq(s3.nodes@)[y] == key(s3.nodes@[y]));
            assert(s3.nodes@[y].reg == out[a].reg);
            assert(s3.nodes@[y].neighbors@ == out[a].neighbors@);
            assert(s3.regs()[y] == s3.nodes@[y].reg);
            assert(s2.regs()[y] == s2.nodes@[y].reg);
            assert(s2.nodes@[y].neighbors@.contains(x));
        }
        assert forall|live2: Seq<Set<GeneralReg>>, i: int, c: Register| #[trigger] body_liveness(bs, cxs, live2) && 0 <= i < m.len()
            && (#[trigger] m[i]).1 is None && m[i].0 is Virt && #[trigger] is_alloc_reg(c)
            implies color_taken(bs, cxs, live2, m, m[i].0, c) by {
            let u = m[i].0;
            assert(out[i].color is None);
            assert(blocked(out[i], out).contains(c));
            if out[i].neighbors@.contains(GeneralReg::Phys(c)) {
                let x = GeneralReg::Phys(c);
                assert(s2.adj(u, x) && x != u);
                assert(some_edge(cfg, live.insn_infos@, u, x));
                let (b, k) = choose|b: int, k: int| 0 <= b < cfg.blocks@.len() && 0 <= k < cfg.blocks@[b].insns@.len()
                    && #[trigger] edge_at(cfg, live.insn_infos@, b, k, u, x);
                lemma_edge_interferes(body, cxs, cfg, live, live2, b, k, u, x);
            } else {
                let j = choose|j: int| 0 <= j < out.len() && out[i].neighbors@.contains(#[trigger] out[j].reg) && out[j].color == Some(c);
                let x = out[j].reg;
                assert(s2.adj(u, x) && x != u);
                assert(some_edge(cfg, live.insn_infos@, u, x));
                let (b, k) = choose|b: int, k: int| 0 <= b < cfg.blocks@.len() && 0 <= k < cfg.blocks@[b].insns@.len()
                    && #[trigger] edge_at(cfg, live.insn_infos@, b, k, u, x);
                lemma_edge_interferes(body, cxs, cfg, live, live2, b, k, u, x);
                assert(m[j].1 == Some(c) && m[j].0 == x);
            }
        }
}

} // verus!
