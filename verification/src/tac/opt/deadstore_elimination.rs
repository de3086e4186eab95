//! Dead-store elimination: a backward liveness analysis of the variables of
//! a function, then the removal of every computation whose result no later
//! instruction reads.

use vstd::prelude::*;
use vstd::set_lib::{lemma_len_subset, lemma_subset_equality};
use crate::common::{DataType, StrDescriptor};
use super::super::tac::{Function, Insn, Operand};
use super::super::{CodeGen, Opt};
use super::cfg::{blocks_of, buildable, flatten, lemma_blocks_flatten, preds_of, succs_of, BasicBlock, Graph, NodeId};

verus! {

broadcast use vstd::seq_lib::group_seq_properties;

/// A variable or a temporary: what an instruction can write.
#[derive(Debug, Clone, Copy, PartialEq, Eq, Structural)]
pub enum GeneralVar {
    Var {
        name: StrDescriptor,
        local_id: Option<usize>,
        data_type: DataType,
    },
    Temp(usize, DataType),
}

/// The variable an operand names, if it names one.
pub open spec fn var_of(o: Operand) -> Option<GeneralVar> {
    match o {
        Operand::Var { name, local_id, data_type } => Some(GeneralVar::Var { name, local_id, data_type }),
        Operand::Temp(id, data_type) => Some(GeneralVar::Temp(id, data_type)),
        Operand::Imm(_) => None,
    }
}

impl GeneralVar {
    /// The variable an operand names; `None` for an immediate.
    pub fn from_operand(o: Operand) -> (r: Option<GeneralVar>)
        ensures r == var_of(o),
    {
        match o {
            Operand::Var { name, local_id, data_type } => Some(GeneralVar::Var { name, local_id, data_type }),
            Operand::Temp(id, data_type) => Some(GeneralVar::Temp(id, data_type)),
            Operand::Imm(_) => None,
        }
    }

    /// The operand that names the variable.
    pub fn to_operand(self) -> (r: Operand)
        ensures var_of(r) == Some(self),
    {
        match self {
            GeneralVar::Var { name, local_id, data_type } => Operand::Var { name, local_id, data_type },
            GeneralVar::Temp(id, data_type) => Operand::Temp(id, data_type),
        }
    }
}

/// A static variable as a variable.
pub open spec fn static_var(s: (StrDescriptor, DataType)) -> GeneralVar {
    GeneralVar::Var { name: s.0, local_id: None, data_type: s.1 }
}

/// The static variables of a program, as variables.
pub open spec fn static_set(svs: Seq<(StrDescriptor, DataType)>) -> Set<GeneralVar> {
    svs.map_values(|s: (StrDescriptor, DataType)| static_var(s)).to_set()
}

/// A set of variables, each held once.
#[derive(Debug)]
pub struct LiveVars {
    pub inner: Vec<GeneralVar>,
}

impl View for LiveVars {
    type V = Set<GeneralVar>;

    open spec fn view(&self) -> Set<GeneralVar> {
        self.inner@.to_set()
    }
}

impl LiveVars {
    /// No variable is held twice.
    pub open spec fn wf(self) -> bool {
        self.inner@.no_duplicates()
    }

    pub fn new() -> (r: Self)
        ensures r.wf(), r@ == Set::<GeneralVar>::empty(),
    {
        let r = LiveVars { inner: Vec::new() };
        proof { assert(r@ =~= Set::<GeneralVar>::empty()); }
        r
    }

    /// The same set.
    pub fn copy(&self) -> (r: Self)
        ensures r.inner@ == self.inner@, r@ == self@,
    {
        let mut v: Vec<GeneralVar> = Vec::new();
        let mut i: usize = 0;
        while i < self.inner.len()
            invariant i <= self.inner@.len(), v@ == self.inner@.subrange(0, i as int),
            decreases self.inner@.len() - i,
        {
            v.push(self.inner[i]);
            i = i + 1;
            proof { assert(v@ =~= self.inner@.subrange(0, i as int)); }
        }
        proof { assert(v@ =~= self.inner@); }
        LiveVars { inner: v }
    }

    pub fn contains(&self, var: GeneralVar) -> (r: bool)
        ensures r == self@.contains(var),
    {
        let mut i: usize = 0;
        while i < self.inner.len()
            invariant i <= self.inner@.len(), forall|j: int| 0 <= j < i ==> self.inner@[j] != var,
            decreases self.inner@.len() - i,
        {
            if self.inner[i] == var {
                proof { assert(self.inner@.contains(var)); }
                return true;
            }
            i = i + 1;
        }
        proof { assert(!self.inner@.contains(var)); }
        false
    }

    pub fn add(&mut self, var: GeneralVar)
        requires old(self).wf(),
        ensures final(self).wf(), final(self)@ == old(self)@.insert(var),
    {
        if !self.contains(var) {
            let ghost s = self.inner@;
            self.inner.push(var);
            proof {
                assert(self.inner@ == s.push(var));
                assert forall|i: int, j: int| 0 <= i < j < self.inner@.len() implies self.inner@[i] != self.inner@[j] by {
                    if j == s.len() { assert(s.contains(s[i])); }
                }
                assert(self@ =~= s.to_set().insert(var));
            }
        } else {
            proof { assert(self@ =~= self@.insert(var)); }
        }
    }

    pub fn remove(&mut self, var: GeneralVar)
        requires old(self).wf(),
        ensures final(self).wf(), final(self)@ == old(self)@.remove(var),
    {
        let ghost s = self.inner@;
        let mut v: Vec<GeneralVar> = Vec::new();
        let mut i: usize = 0;
        while i < self.inner.len()
            invariant
                self.inner@ == s, s.no_duplicates(), i <= s.len(),
                v@.no_duplicates(),
                v@.to_set() == s.subrange(0, i as int).to_set().remove(var),
                forall|k: int| 0 <= k < v@.len() ==> s.subrange(0, i as int).contains(#[trigger] v@[k]),
            decreases s.len() - i,
        {
            let x = self.inner[i];
            let ghost before = v@;
            if x != var {
                v.push(x);
                proof {
                    assert forall|a: int, b: int| 0 <= a < b < v@.len() implies v@[a] != v@[b] by {
                        if b == before.len() {
                            assert(s.subrange(0, i as int).contains(v@[a]));
                            let k = choose|k: int| 0 <= k < i && s.subrange(0, i as int)[k] == v@[a];
                            assert(s[k] == v@[a]);
                        }
                    }
                }
            }
            proof {
                assert(s.subrange(0, i as int + 1) == s.subrange(0, i as int).push(x));
                assert(s.subrange(0, i as int + 1).to_set() =~= s.subrange(0, i as int).to_set().insert(x));
                if x != var {
                    assert(v@ == before.push(x));
                    assert(v@.to_set() =~= before.to_set().insert(x));
                }
                assert(v@.to_set() =~= s.subrange(0, i as int + 1).to_set().remove(var));
                assert forall|k: int| 0 <= k < v@.len() implies s.subrange(0, i as int + 1).contains(#[trigger] v@[k]) by {
                    if k < before.len() {
                        let m = choose|m: int| 0 <= m < i && s.subrange(0, i as int)[m] == v@[k];
                        assert(s.subrange(0, i as int + 1)[m] == v@[k]);
                    } else {
                        assert(s.subrange(0, i as int + 1)[i as int] == v@[k]);
                    }
                }
            }
            i = i + 1;
        }
        proof { assert(s.subrange(0, i as int) =~= s); }
        self.inner = v;
    }

    /// Adds every variable of `other`.
    pub fn union_with(&mut self, other: &LiveVars)
        requires old(self).wf(),
        ensures final(self).wf(), final(self)@ == old(self)@.union(other@),
    {
        let ghost s0 = self@;
        let mut i: usize = 0;
        while i < other.inner.len()
            invariant
                i <= other.inner@.len(),
                self.wf(),
                self@ == s0.union(other.inner@.subrange(0, i as int).to_set()),
            decreases other.inner@.len() - i,
        {
            self.add(other.inner[i]);
            proof {
                assert(other.inner@.subrange(0, i as int + 1) == other.inner@.subrange(0, i as int).push(other.inner@[i as int]));
                assert(self@ =~= s0.union(other.inner@.subrange(0, i as int + 1).to_set()));
            }
            i = i + 1;
        }
        proof { assert(other.inner@.subrange(0, i as int) =~= other.inner@); }
    }

    /// Whether the two sets differ.
    pub fn diff_with(&self, other: &Self) -> (r: bool)
        requires self.wf(), other.wf(),
        ensures r == (self@ != other@),
    {
        proof {
            self.inner@.unique_seq_to_set();
            other.inner@.unique_seq_to_set();
        }
        if self.inner.len() != other.inner.len() {
            return true;
        }
        let mut i: usize = 0;
        while i < self.inner.len()
            invariant
                i <= self.inner@.len(),
                forall|j: int| 0 <= j < i ==> other@.contains(#[trigger] self.inner@[j]),
            decreases self.inner@.len() - i,
        {
            if !other.contains(self.inner[i]) {
                proof { assert(self@.contains(self.inner@[i as int])); }
                return true;
            }
            i = i + 1;
        }
        proof {
            assert(self@.subset_of(other@)) by {
                assert forall|x: GeneralVar| self@.contains(x) implies other@.contains(x) by {
                    let j = choose|j: int| 0 <= j < self.inner@.len() && self.inner@[j] == x;
                }
            }
            lemma_subset_equality(self@, other@);
        }
        false
    }
}

/// The variable an operand names, as a set.
pub open spec fn var_set(o: Operand) -> Set<GeneralVar> {
    match var_of(o) {
        Some(v) => set![v],
        None => Set::empty(),
    }
}

/// The variables that a run of operands names, in order.
pub open spec fn ops_vars(ops: Seq<Operand>) -> Seq<GeneralVar>
    decreases ops.len(),
{
    if ops.len() == 0 {
        Seq::empty()
    } else {
        ops_vars(ops.drop_last()) + match var_of(ops.last()) {
            Some(v) => seq![v],
            None => Seq::empty(),
        }
    }
}

/// The variables live before an instruction, given those live after it:
/// what it writes is dead before it, what it reads is live. A call may read
/// every static variable.
pub open spec fn step(after: Set<GeneralVar>, i: Insn, sv: Set<GeneralVar>) -> Set<GeneralVar> {
    match i {
        Insn::Unary { src, dst, .. } | Insn::Move { src, dst } | Insn::Truncate { src, dst } | Insn::SignExt { src, dst } =>
            after.difference(var_set(dst)).union(var_set(src)),
        Insn::Binary { left, right, dst, .. } =>
            after.difference(var_set(dst)).union(var_set(left)).union(var_set(right)),
        Insn::FuncCall { args, dst, .. } =>
            after.difference(var_set(dst)).union(ops_vars(args@).to_set()).union(sv),
        Insn::BranchIfZero { src, .. } | Insn::BranchNotZero { src, .. } | Insn::Return(src) =>
            after.union(var_set(src)),
        _ => after,
    }
}

/// The variables live before a run of instructions, given those live after it.
pub open spec fn transfer(out: Set<GeneralVar>, insns: Seq<Insn>, sv: Set<GeneralVar>) -> Set<GeneralVar>
    decreases insns.len(),
{
    if insns.len() == 0 { out } else { transfer(step(out, insns.last(), sv), insns.drop_last(), sv) }
}

/// The variables live on leaving a block: those live into a successor, and
/// the static variables when the block leaves the function.
pub open spec fn meet(live: Seq<Set<GeneralVar>>, succs: Set<NodeId>, sv: Set<GeneralVar>) -> Set<GeneralVar> {
    Set::new(|v: GeneralVar| (succs.contains(NodeId::Exit) && sv.contains(v))
        || exists|t: usize| t < live.len() && #[trigger] succs.contains(NodeId::BasicBlock(t)) && live[t as int].contains(v))
}

/// The variables live into block `b` of the blocks `bs`, given those live into every block.
pub open spec fn flow(bs: Seq<Seq<Insn>>, sv: Set<GeneralVar>, live: Seq<Set<GeneralVar>>, b: int) -> Set<GeneralVar> {
    transfer(meet(live, succs_of(bs, b), sv), bs[b], sv)
}

/// Sets of live variables that the flow equations do not grow.
pub open spec fn is_post(bs: Seq<Seq<Insn>>, sv: Set<GeneralVar>, live: Seq<Set<GeneralVar>>) -> bool {
    live.len() == bs.len() && forall|b: int| 0 <= b < live.len() ==> flow(bs, sv, live, b).subset_of(#[trigger] live[b])
}

/// `a` is contained in `b`, block by block.
pub open spec fn below(a: Seq<Set<GeneralVar>>, b: Seq<Set<GeneralVar>>) -> bool {
    a.len() == b.len() && forall|k: int| 0 <= k < a.len() ==> (#[trigger] a[k]).subset_of(b[k])
}

/// The liveness of the blocks of a body: the least solution of their flow
/// equations, contained block by block in every set the equations do not grow.
pub open spec fn liveness(bs: Seq<Seq<Insn>>, sv: Set<GeneralVar>, live: Seq<Set<GeneralVar>>) -> bool {
    &&& live.len() == bs.len()
    &&& forall|b: int| 0 <= b < bs.len() ==> #[trigger] live[b] == flow(bs, sv, live, b)
    &&& forall|l: Seq<Set<GeneralVar>>| #[trigger] is_post(bs, sv, l) ==> below(live, l)
}

/// The variables live after instruction `k` of block `b`.
pub open spec fn live_after(bs: Seq<Seq<Insn>>, sv: Set<GeneralVar>, live: Seq<Set<GeneralVar>>, b: int, k: int) -> Set<GeneralVar> {
    transfer(meet(live, succs_of(bs, b), sv), bs[b].subrange(k + 1, bs[b].len() as int), sv)
}

proof fn lemma_step_mono(a: Set<GeneralVar>, b: Set<GeneralVar>, i: Insn, sv: Set<GeneralVar>)
    requires a.subset_of(b),
    ensures step(a, i, sv).subset_of(step(b, i, sv)),
{
}

proof fn lemma_transfer_mono(a: Set<GeneralVar>, b: Set<GeneralVar>, insns: Seq<Insn>, sv: Set<GeneralVar>)
    requires a.subset_of(b),
    ensures transfer(a, insns, sv).subset_of(transfer(b, insns, sv)),
    decreases insns.len(),
{
    if insns.len() > 0 {
        lemma_step_mono(a, b, insns.last(), sv);
        lemma_transfer_mono(step(a, insns.last(), sv), step(b, insns.last(), sv), insns.drop_last(), sv);
    }
}

proof fn lemma_flow_mono(bs: Seq<Seq<Insn>>, sv: Set<GeneralVar>, a: Seq<Set<GeneralVar>>, b: Seq<Set<GeneralVar>>, k: int)
    requires below(a, b), 0 <= k < bs.len(),
    ensures flow(bs, sv, a, k).subset_of(flow(bs, sv, b, k)),
{
    let succs = succs_of(bs, k);
    assert(meet(a, succs, sv).subset_of(meet(b, succs, sv))) by {
        assert forall|v: GeneralVar| meet(a, succs, sv).contains(v) implies meet(b, succs, sv).contains(v) by {
            if !(succs.contains(NodeId::Exit) && sv.contains(v)) {
                let t = choose|t: usize| t < a.len() && #[trigger] succs.contains(NodeId::BasicBlock(t)) && a[t as int].contains(v);
                assert(a[t as int].subset_of(b[t as int]));
            }
        }
    }
    lemma_transfer_mono(meet(a, succs, sv), meet(b, succs, sv), bs[k], sv);
}

/// The flow into a block does not depend on blocks it does not lead to.
proof fn lemma_flow_frame(bs: Seq<Seq<Insn>>, sv: Set<GeneralVar>, live: Seq<Set<GeneralVar>>, t: int, s: Set<GeneralVar>, k: int)
    requires
        0 <= k < bs.len(), 0 <= t < live.len(),
        !succs_of(bs, k).contains(NodeId::BasicBlock(t as usize)),
    ensures flow(bs, sv, live.update(t, s), k) == flow(bs, sv, live, k),
{
    let succs = succs_of(bs, k);
    assert(meet(live.update(t, s), succs, sv) =~= meet(live, succs, sv)) by {
        assert forall|v: GeneralVar| meet(live.update(t, s), succs, sv).contains(v) <==> meet(live, succs, sv).contains(v) by {
            if meet(live.update(t, s), succs, sv).contains(v) && !(succs.contains(NodeId::Exit) && sv.contains(v)) {
                let u = choose|u: usize| u < live.len() && #[trigger] succs.contains(NodeId::BasicBlock(u)) && live.update(t, s)[u as int].contains(v);
                assert(u != t);
                assert(live[u as int].contains(v));
            }
            if meet(live, succs, sv).contains(v) && !(succs.contains(NodeId::Exit) && sv.contains(v)) {
                let u = choose|u: usize| u < live.len() && #[trigger] succs.contains(NodeId::BasicBlock(u)) && live[u as int].contains(v);
                assert(u != t);
                assert(live.update(t, s)[u as int].contains(v));
            }
        }
    }
}

/// The operands an instruction names: what it writes first.
pub open spec fn insn_ops(i: Insn) -> Seq<Operand> {
    match i {
        Insn::Unary { src, dst, .. } | Insn::Move { src, dst } | Insn::Truncate { src, dst } | Insn::SignExt { src, dst } =>
            seq![dst, src],
        Insn::Binary { left, right, dst, .. } => seq![dst, left, right],
        Insn::FuncCall { args, dst, .. } => seq![dst] + args@,
        Insn::BranchIfZero { src, .. } | Insn::BranchNotZero { src, .. } | Insn::Return(src) => seq![src],
        _ => Seq::empty(),
    }
}

/// The variables a run of instructions names, in order.
pub open spec fn vars_seq(insns: Seq<Insn>) -> Seq<GeneralVar>
    decreases insns.len(),
{
    if insns.len() == 0 { Seq::empty() } else { vars_seq(insns.drop_last()) + ops_vars(insn_ops(insns.last())) }
}

/// The variables every block names, block after block.
pub open spec fn graph_vars(bs: Seq<Seq<Insn>>) -> Seq<GeneralVar>
    decreases bs.len(),
{
    if bs.len() == 0 { Seq::empty() } else { graph_vars(bs.drop_last()) + vars_seq(bs.last()) }
}

/// Every variable the analysis of a body can find live.
pub open spec fn universe(bs: Seq<Seq<Insn>>, sv: Set<GeneralVar>) -> Set<GeneralVar> {
    graph_vars(bs).to_set().union(sv)
}

proof fn lemma_ops_vars_concat(a: Seq<Operand>, b: Seq<Operand>)
    ensures ops_vars(a + b) == ops_vars(a) + ops_vars(b),
    decreases b.len(),
{
    if b.len() == 0 {
        assert(a + b =~= a);
        assert(ops_vars(a) + ops_vars(b) =~= ops_vars(a));
    } else {
        lemma_ops_vars_concat(a, b.drop_last());
        assert((a + b).drop_last() =~= a + b.drop_last());
        assert((a + b).last() == b.last());
    }
}

proof fn lemma_ops_vars_member(ops: Seq<Operand>, j: int)
    requires 0 <= j < ops.len(),
    ensures var_set(ops[j]).subset_of(ops_vars(ops).to_set()),
    decreases ops.len(),
{
    if j < ops.len() - 1 {
        lemma_ops_vars_member(ops.drop_last(), j);
        assert forall|v: GeneralVar| ops_vars(ops.drop_last()).to_set().contains(v) implies ops_vars(ops).to_set().contains(v) by {
            let k = choose|k: int| 0 <= k < ops_vars(ops.drop_last()).len() && ops_vars(ops.drop_last())[k] == v;
            assert(ops_vars(ops)[k] == v);
        }
    } else {
        if let Some(v) = var_of(ops[j]) {
            assert(ops_vars(ops)[ops_vars(ops.drop_last()).len() as int] == v);
        }
    }
}

/// What an instruction can make live: what it names, and the static variables.
proof fn lemma_step_bound(out: Set<GeneralVar>, i: Insn, sv: Set<GeneralVar>)
    ensures step(out, i, sv).subset_of(out.union(ops_vars(insn_ops(i)).to_set()).union(sv)),
{
    let ops = insn_ops(i);
    match i {
        Insn::Unary { src, dst, .. } | Insn::Move { src, dst } | Insn::Truncate { src, dst } | Insn::SignExt { src, dst } => {
            lemma_ops_vars_member(ops, 1);
        },
        Insn::Binary { left, right, dst, .. } => {
            lemma_ops_vars_member(ops, 1);
            lemma_ops_vars_member(ops, 2);
        },
        Insn::FuncCall { args, dst, .. } => {
            lemma_ops_vars_concat(seq![dst], args@);
            assert forall|v: GeneralVar| ops_vars(args@).to_set().contains(v) implies ops_vars(ops).to_set().contains(v) by {
                let k = choose|k: int| 0 <= k < ops_vars(args@).len() && ops_vars(args@)[k] == v;
                assert(ops_vars(ops)[ops_vars(seq![dst]).len() + k] == v);
            }
        },
        Insn::BranchIfZero { src, .. } | Insn::BranchNotZero { src, .. } | Insn::Return(src) => {
            lemma_ops_vars_member(ops, 0);
        },
        _ => {},
    }
}

proof fn lemma_transfer_bound(out: Set<GeneralVar>, insns: Seq<Insn>, sv: Set<GeneralVar>)
    ensures transfer(out, insns, sv).subset_of(out.union(vars_seq(insns).to_set()).union(sv)),
    decreases insns.len(),
{
    if insns.len() > 0 {
        let i = insns.last();
        let rest = insns.drop_last();
        let st = step(out, i, sv);
        lemma_step_bound(out, i, sv);
        lemma_transfer_bound(st, rest, sv);
        let whole = vars_seq(insns);
        assert forall|v: GeneralVar| vars_seq(rest).to_set().contains(v) implies whole.to_set().contains(v) by {
            let k = choose|k: int| 0 <= k < vars_seq(rest).len() && vars_seq(rest)[k] == v;
            assert(whole[k] == v);
        }
        assert forall|v: GeneralVar| ops_vars(insn_ops(i)).to_set().contains(v) implies whole.to_set().contains(v) by {
            let k = choose|k: int| 0 <= k < ops_vars(insn_ops(i)).len() && ops_vars(insn_ops(i))[k] == v;
            assert(whole[vars_seq(rest).len() + k] == v);
        }
    }
}

proof fn lemma_graph_vars(bs: Seq<Seq<Insn>>, b: int)
    requires 0 <= b < bs.len(),
    ensures vars_seq(bs[b]).to_set().subset_of(graph_vars(bs).to_set()),
    decreases bs.len(),
{
    if b < bs.len() - 1 {
        lemma_graph_vars(bs.drop_last(), b);
        assert forall|v: GeneralVar| graph_vars(bs.drop_last()).to_set().contains(v) implies graph_vars(bs).to_set().contains(v) by {
            let j = choose|j: int| 0 <= j < graph_vars(bs.drop_last()).len() && graph_vars(bs.drop_last())[j] == v;
            assert(graph_vars(bs)[j] == v);
        }
    } else {
        assert forall|v: GeneralVar| vars_seq(bs[b]).to_set().contains(v) implies graph_vars(bs).to_set().contains(v) by {
            let j = choose|j: int| 0 <= j < vars_seq(bs[b]).len() && vars_seq(bs[b])[j] == v;
            assert(graph_vars(bs)[graph_vars(bs.drop_last()).len() + j] == v);
        }
    }
}

proof fn lemma_universe(bs: Seq<Seq<Insn>>, sv: Set<GeneralVar>, b: int)
    requires 0 <= b < bs.len(), sv.finite(),
    ensures
        universe(bs, sv).finite(),
        vars_seq(bs[b]).to_set().subset_of(universe(bs, sv)),
        sv.subset_of(universe(bs, sv)),
{
    lemma_graph_vars(bs, b);
}

/// The flow into a block stays within the universe when the live sets do.
proof fn lemma_flow_bound(bs: Seq<Seq<Insn>>, sv: Set<GeneralVar>, live: Seq<Set<GeneralVar>>, b: int)
    requires
        0 <= b < bs.len(), sv.finite(),
        forall|t: int| 0 <= t < live.len() ==> (#[trigger] live[t]).subset_of(universe(bs, sv)),
    ensures flow(bs, sv, live, b).subset_of(universe(bs, sv)),
{
    lemma_universe(bs, sv, b);
    let m = meet(live, succs_of(bs, b), sv);
    assert(m.subset_of(universe(bs, sv))) by {
        assert forall|v: GeneralVar| m.contains(v) implies universe(bs, sv).contains(v) by {
            if !sv.contains(v) {
                let t = choose|t: usize| t < live.len() && #[trigger] succs_of(bs, b).contains(NodeId::BasicBlock(t)) && live[t as int].contains(v);
                assert(live[t as int].subset_of(universe(bs, sv)));
            }
        }
    }
    lemma_transfer_bound(m, bs[b], sv);
}

/// How many variables of the universe the live sets lack, summed.
pub open spec fn missing(live: Seq<Set<GeneralVar>>, u: nat) -> int
    decreases live.len(),
{
    if live.len() == 0 { 0 } else { missing(live.drop_last(), u) + (u - live.last().len()) }
}

proof fn lemma_missing_update(live: Seq<Set<GeneralVar>>, u: nat, t: int, s: Set<GeneralVar>)
    requires 0 <= t < live.len(),
    ensures missing(live.update(t, s), u) == missing(live, u) - (s.len() - live[t].len()),
    decreases live.len(),
{
    if t < live.len() - 1 {
        lemma_missing_update(live.drop_last(), u, t, s);
        assert(live.update(t, s).drop_last() =~= live.drop_last().update(t, s));
    } else {
        assert(live.update(t, s).drop_last() =~= live.drop_last());
    }
}

proof fn lemma_missing_nonneg(live: Seq<Set<GeneralVar>>, u: Set<GeneralVar>)
    requires u.finite(), forall|t: int| 0 <= t < live.len() ==> (#[trigger] live[t]).subset_of(u),
    ensures missing(live, u.len()) >= 0,
    decreases live.len(),
{
    if live.len() > 0 {
        lemma_missing_nonneg(live.drop_last(), u);
        lemma_len_subset(live.last(), u);
    }
}

/// The live sets after each instruction of a block.
pub open spec fn insn_outs(out: Set<GeneralVar>, insns: Seq<Insn>, sv: Set<GeneralVar>) -> Seq<Set<GeneralVar>> {
    Seq::new(insns.len(), |k: int| transfer(out, insns.subrange(k + 1, insns.len() as int), sv))
}

proof fn lemma_transfer_front(out: Set<GeneralVar>, insns: Seq<Insn>, sv: Set<GeneralVar>, k: int)
    requires 0 <= k < insns.len(),
    ensures transfer(out, insns.subrange(k, insns.len() as int), sv)
        == step(transfer(out, insns.subrange(k + 1, insns.len() as int), sv), insns[k], sv),
    decreases insns.len() - k,
{
    let s = insns.subrange(k, insns.len() as int);
    if k == insns.len() - 1 {
        assert(s.drop_last() =~= Seq::<Insn>::empty());
        assert(s.last() == insns[k]);
        assert(insns.subrange(k + 1, insns.len() as int) =~= Seq::<Insn>::empty());
        assert(transfer(step(out, insns[k], sv), s.drop_last(), sv) == step(out, insns[k], sv));
        assert(transfer(out, insns.subrange(k + 1, insns.len() as int), sv) == out);
    } else {
        let d = insns.drop_last();
        lemma_transfer_front(step(out, insns.last(), sv), d, sv, k);
        assert(s.drop_last() =~= d.subrange(k, d.len() as int));
        assert(insns.subrange(k + 1, insns.len() as int).drop_last() =~= d.subrange(k + 1, d.len() as int));
        assert(s.last() == insns.last());
        assert(d[k] == insns[k]);
        assert(insns.subrange(k + 1, insns.len() as int).last() == insns.last());
    }
}

/// A graph whose edges are those of its blocks.
pub open spec fn analyzable(g: Graph) -> bool {
    &&& g.wf()
    &&& forall|b: int| 0 <= b < g.blocks@.len() ==> (#[trigger] g.blocks@[b]).successors@.to_set() == succs_of(g.block_seqs(), b)
        && g.blocks@[b].predecessors@.to_set() == preds_of(g.block_seqs(), b)
}

/// The sets of a vector of live variable sets.
pub open spec fn live_view(v: Seq<LiveVars>) -> Seq<Set<GeneralVar>> {
    v.map_values(|l: LiveVars| l@)
}

/// Applies one instruction backwards to the set of live variables.
fn step_exec(cur: &mut LiveVars, insn: &Insn, statics: &LiveVars)
    requires old(cur).wf(),
    ensures final(cur).wf(), final(cur)@ == step(old(cur)@, *insn, statics@),
{
    let ghost s0 = cur@;
    match insn {
        Insn::Unary { src, dst, .. } | Insn::Move { src, dst } | Insn::Truncate { src, dst } | Insn::SignExt { src, dst } => {
            if let Some(v) = GeneralVar::from_operand(*dst) { cur.remove(v); }
            let ghost s1 = cur@;
            if let Some(v) = GeneralVar::from_operand(*src) { cur.add(v); }
            proof {
                assert(s1 =~= s0.difference(var_set(*dst)));
                assert(cur@ =~= s1.union(var_set(*src)));
            }
        },
        Insn::Binary { left, right, dst, .. } => {
            if let Some(v) = GeneralVar::from_operand(*dst) { cur.remove(v); }
            let ghost s1 = cur@;
            if let Some(v) = GeneralVar::from_operand(*left) { cur.add(v); }
            let ghost s2 = cur@;
            if let Some(v) = GeneralVar::from_operand(*right) { cur.add(v); }
            proof {
                assert(s1 =~= s0.difference(var_set(*dst)));
                assert(s2 =~= s1.union(var_set(*left)));
                assert(cur@ =~= s2.union(var_set(*right)));
            }
        },
        Insn::FuncCall { args, dst, .. } => {
            if let Some(v) = GeneralVar::from_operand(*dst) { cur.remove(v); }
            let ghost s1 = cur@;
            proof { assert(s1 =~= s0.difference(var_set(*dst))); }
            let mut i: usize = 0;
            while i < args.len()
                invariant i <= args@.len(), cur.wf(), cur@ == s1.union(ops_vars(args@.subrange(0, i as int)).to_set()),
                decreases args@.len() - i,
            {
                let ghost c0 = cur@;
                if let Some(v) = GeneralVar::from_operand(args[i]) { cur.add(v); }
                proof {
                    let p = args@.subrange(0, i as int + 1);
                    assert(p.drop_last() =~= args@.subrange(0, i as int));
                    assert(p.last() == args@[i as int]);
                    assert(cur@ =~= s1.union(ops_vars(p).to_set()));
                }
                i = i + 1;
            }
            proof { assert(args@.subrange(0, i as int) =~= args@); }
            cur.union_with(statics);
        },
        Insn::BranchIfZero { src, .. } | Insn::BranchNotZero { src, .. } | Insn::Return(src) => {
            if let Some(v) = GeneralVar::from_operand(*src) { cur.add(v); }
            proof { assert(cur@ =~= s0.union(var_set(*src))); }
        },
        _ => {},
    }
}

/// The result of the analysis: the variables live into each block, and
/// those live after each instruction.
#[derive(Debug)]
pub struct AnalysisResult {
    pub block_info: Vec<LiveVars>,
    pub insn_info: Vec<Vec<LiveVars>>,
}

/// Backward liveness over a graph, by a worklist.
#[derive(Debug)]
pub struct LiveAnalysis<'a> {
    pub cfg: &'a Graph,
    pub block_info: Vec<LiveVars>,
    pub insn_info: Vec<Vec<LiveVars>>,
    pub static_vars: LiveVars,
}

impl<'a> LiveAnalysis<'a> {
    pub fn new(cfg: &'a Graph, static_vars: LiveVars) -> (r: Self)
        ensures r.cfg == cfg, r.static_vars == static_vars, r.block_info@.len() == 0, r.insn_info@.len() == 0,
    {
        LiveAnalysis { cfg, block_info: Vec::new(), insn_info: Vec::new(), static_vars }
    }

    /// The variables live on leaving block `b`, under the current sets.
    fn meet(&self, b: usize) -> (r: LiveVars)
        requires
            b < self.cfg.blocks@.len(),
            analyzable(*self.cfg),
            self.static_vars.wf(),
            self.block_info@.len() == self.cfg.blocks@.len(),
            forall|t: int| 0 <= t < self.block_info@.len() ==> (#[trigger] self.block_info@[t]).wf(),
        ensures r.wf(), r@ == meet(live_view(self.block_info@), succs_of(self.cfg.block_seqs(), b as int), self.static_vars@),
    {
        let succs = &self.cfg.blocks[b].successors;
        let ghost live = live_view(self.block_info@);
        let ghost sv = self.static_vars@;
        let mut r = LiveVars::new();
        let mut j: usize = 0;
        while j < succs.len()
            invariant
                j <= succs@.len(), succs == &self.cfg.blocks@[b as int].successors, b < self.cfg.blocks@.len(),
                analyzable(*self.cfg), self.block_info@.len() == self.cfg.blocks@.len(),
                live == live_view(self.block_info@), sv == self.static_vars@,
                forall|t: int| 0 <= t < self.block_info@.len() ==> (#[trigger] self.block_info@[t]).wf(),
                r.wf(), r@ == meet(live, succs@.subrange(0, j as int).to_set(), sv),
            decreases succs@.len() - j,
        {
            let ghost r0 = r@;
            let s = succs[j];
            let ghost old_s = succs@.subrange(0, j as int).to_set();
            let ghost new_s = succs@.subrange(0, j as int + 1).to_set();
            proof { assert(new_s =~= old_s.insert(s)); }
            match s {
                NodeId::Exit => {
                    r.union_with(&self.static_vars);
                    proof {
                        assert(r@ =~= meet(live, new_s, sv)) by {
                            assert forall|g: GeneralVar| r@.contains(g) <==> meet(live, new_s, sv).contains(g) by {
                                if meet(live, new_s, sv).contains(g) && !(new_s.contains(NodeId::Exit) && sv.contains(g)) {
                                    let t = choose|t: usize| t < live.len() && #[trigger] new_s.contains(NodeId::BasicBlock(t)) && live[t as int].contains(g);
                                    assert(old_s.contains(NodeId::BasicBlock(t)));
                                }
                                if r0.contains(g) && !(old_s.contains(NodeId::Exit) && sv.contains(g)) {
                                    let t = choose|t: usize| t < live.len() && #[trigger] old_s.contains(NodeId::BasicBlock(t)) && live[t as int].contains(g);
                                    assert(new_s.contains(NodeId::BasicBlock(t)));
                                }
                            }
                        }
                    }
                },
                NodeId::BasicBlock(t) => {
                    proof { assert(succs@[j as int] == s); }
                    r.union_with(&self.block_info[t]);
                    proof {
                        assert(live[t as int] == self.block_info@[t as int]@);
                        assert(r@ =~= meet(live, new_s, sv)) by {
                            assert forall|g: GeneralVar| r@.contains(g) <==> meet(live, new_s, sv).contains(g) by {
                                if meet(live, new_s, sv).contains(g) && !(new_s.contains(NodeId::Exit) && sv.contains(g)) {
                                    let u = choose|u: usize| u < live.len() && #[trigger] new_s.contains(NodeId::BasicBlock(u)) && live[u as int].contains(g);
                                    if u != t { assert(old_s.contains(NodeId::BasicBlock(u))); }
                                }
                                if r0.contains(g) && !(old_s.contains(NodeId::Exit) && sv.contains(g)) {
                                    let u = choose|u: usize| u < live.len() && #[trigger] old_s.contains(NodeId::BasicBlock(u)) && live[u as int].contains(g);
                                    assert(new_s.contains(NodeId::BasicBlock(u)));
                                }
                                if self.block_info@[t as int]@.contains(g) {
                                    assert(new_s.contains(NodeId::BasicBlock(t)));
                                }
                            }
                        }
                    }
                },
                NodeId::Entry => {
                    proof {
                        assert(succs@[j as int] == s);
                        assert(r@ =~= meet(live, new_s, sv)) by {
                            assert forall|g: GeneralVar| r@.contains(g) <==> meet(live, new_s, sv).contains(g) by {
                                if meet(live, new_s, sv).contains(g) && !(new_s.contains(NodeId::Exit) && sv.contains(g)) {
                                    let t = choose|t: usize| t < live.len() && #[trigger] new_s.contains(NodeId::BasicBlock(t)) && live[t as int].contains(g);
                                    assert(old_s.contains(NodeId::BasicBlock(t)));
                                }
                                if r0.contains(g) && !(old_s.contains(NodeId::Exit) && sv.contains(g)) {
                                    let t = choose|t: usize| t < live.len() && #[trigger] old_s.contains(NodeId::BasicBlock(t)) && live[t as int].contains(g);
                                    assert(new_s.contains(NodeId::BasicBlock(t)));
                                }
                            }
                        }
                    }
                },
            }
            j = j + 1;
        }
        proof {
            assert(succs@.subrange(0, j as int) =~= succs@);
            assert(succs@.to_set() == succs_of(self.cfg.block_seqs(), b as int));
        }
        r
    }
}

/// What the worklist keeps between steps: every set within the universe and
/// below what the equations give it, and below every set they do not grow.
pub open spec fn live_inv(bs: Seq<Seq<Insn>>, sv: Set<GeneralVar>, live: Seq<Set<GeneralVar>>) -> bool {
    &&& live.len() == bs.len()
    &&& forall|t: int| 0 <= t < live.len() ==> (#[trigger] live[t]).subset_of(universe(bs, sv))
    &&& forall|t: int| 0 <= t < live.len() ==> (#[trigger] live[t]).subset_of(flow(bs, sv, live, t))
    &&& forall|l: Seq<Set<GeneralVar>>| #[trigger] is_post(bs, sv, l) ==> below(live, l)
}

/// Replacing the set of block `b` by what the equations give it keeps the invariant.
proof fn lemma_live_inv_update(bs: Seq<Seq<Insn>>, sv: Set<GeneralVar>, live: Seq<Set<GeneralVar>>, b: int)
    requires live_inv(bs, sv, live), 0 <= b < live.len(), sv.finite(),
    ensures
        live_inv(bs, sv, live.update(b, flow(bs, sv, live, b))),
        below(live, live.update(b, flow(bs, sv, live, b))),
        live[b].subset_of(flow(bs, sv, live, b)),
        flow(bs, sv, live, b).subset_of(universe(bs, sv)),
{
    let new = flow(bs, sv, live, b);
    let live2 = live.update(b, new);
    lemma_flow_bound(bs, sv, live, b);
    assert(below(live, live2));
    assert forall|t: int| 0 <= t < live2.len() implies (#[trigger] live2[t]).subset_of(flow(bs, sv, live2, t)) by {
        lemma_flow_mono(bs, sv, live, live2, t);
    }
    assert forall|l: Seq<Set<GeneralVar>>| #[trigger] is_post(bs, sv, l) implies below(live2, l) by {
        assert(below(live, l));
        lemma_flow_mono(bs, sv, live, l, b);
        assert(flow(bs, sv, l, b).subset_of(l[b]));
    }
}

/// Whether `x` is in `v`.
fn holds_usize(v: &Vec<usize>, x: usize) -> (r: bool)
    ensures r == v@.contains(x),
{
    let mut i: usize = 0;
    while i < v.len()
        invariant i <= v@.len(), forall|j: int| 0 <= j < i ==> v@[j] != x,
        decreases v@.len() - i,
    {
        if v[i] == x {
            return true;
        }
        i = i + 1;
    }
    false
}

impl<'a> LiveAnalysis<'a> {
    /// The variables live into block `b` from those live out of it, and the
    /// variables live after each of its instructions.
    fn transfer(&self, initial: &LiveVars, b: usize) -> (r: (LiveVars, Vec<LiveVars>))
        requires b < self.cfg.blocks@.len(), initial.wf(),
        ensures
            r.0.wf(),
            r.0@ == transfer(initial@, self.cfg.blocks@[b as int].insns@, self.static_vars@),
            live_view(r.1@) == insn_outs(initial@, self.cfg.blocks@[b as int].insns@, self.static_vars@),
            forall|k: int| 0 <= k < r.1@.len() ==> (#[trigger] r.1@[k]).wf(),
    {
        let insns = &self.cfg.blocks[b].insns;
        let ghost sv = self.static_vars@;
        let ghost out = initial@;
        let n = insns.len();
        let mut cur = initial.copy();
        let mut rev: Vec<LiveVars> = Vec::new();
        let mut k: usize = n;
        proof { assert(insns@.subrange(n as int, n as int) =~= Seq::<Insn>::empty()); }
        while k > 0
            invariant
                k <= n, n == insns@.len(), insns == &self.cfg.blocks@[b as int].insns, b < self.cfg.blocks@.len(),
                sv == self.static_vars@,
                cur.wf(), cur@ == transfer(out, insns@.subrange(k as int, n as int), sv),
                rev@.len() == n - k,
                forall|j: int| 0 <= j < rev@.len() ==> (#[trigger] rev@[j]).wf()
                    && rev@[j]@ == transfer(out, insns@.subrange(n - j, n as int), sv),
            decreases k,
        {
            rev.push(cur.copy());
            step_exec(&mut cur, &insns[k - 1], &self.static_vars);
            proof { lemma_transfer_front(out, insns@, sv, k - 1); }
            k = k - 1;
        }
        let mut outs: Vec<LiveVars> = Vec::new();
        let ghost rev0 = rev@;
        while rev.len() > 0
            invariant
                rev0.len() == n, rev@ == rev0.subrange(0, rev@.len() as int),
                outs@.len() + rev@.len() == n,
                forall|j: int| 0 <= j < rev0.len() ==> (#[trigger] rev0[j]).wf()
                    && rev0[j]@ == transfer(out, insns@.subrange(n - j, n as int), sv),
                forall|i: int| 0 <= i < outs@.len() ==> (#[trigger] outs@[i]).wf()
                    && outs@[i]@ == transfer(out, insns@.subrange(i + 1, n as int), sv),
            decreases rev@.len(),
        {
            let ghost len0 = rev@.len();
            match rev.pop() {
                Some(x) => {
                    proof { assert(x == rev0[len0 - 1]); }
                    outs.push(x);
                },
                None => {},
            }
            proof { assert(rev@ =~= rev0.subrange(0, rev@.len() as int)); }
        }
        proof {
            assert(insns@.subrange(0, n as int) =~= insns@);
            assert(live_view(outs@) =~= insn_outs(out, insns@, sv));
        }
        (cur, outs)
    }
}

impl<'a> LiveAnalysis<'a> {
    /// Runs the worklist from the last block to the first until no set changes.
    #[verifier::rlimit(80)]
    fn iterate(&mut self)
        requires
            analyzable(*old(self).cfg),
            old(self).static_vars.wf(),
            old(self).block_info@.len() == old(self).cfg.blocks@.len(),
            forall|t: int| 0 <= t < old(self).block_info@.len() ==> (#[trigger] old(self).block_info@[t]).wf(),
            live_inv(old(self).cfg.block_seqs(), old(self).static_vars@, live_view(old(self).block_info@)),
        ensures
            final(self).cfg == old(self).cfg, final(self).static_vars == old(self).static_vars,
            final(self).insn_info == old(self).insn_info,
            final(self).block_info@.len() == old(self).block_info@.len(),
            forall|t: int| 0 <= t < final(self).block_info@.len() ==> (#[trigger] final(self).block_info@[t]).wf(),
            liveness(final(self).cfg.block_seqs(), final(self).static_vars@, live_view(final(self).block_info@)),
    {
        let ghost g = *self.cfg;
        let ghost bs = g.block_seqs();
        let ghost sv = self.static_vars@;
        let n = self.cfg.blocks.len();
        let mut j: usize = n;
        while j > 0
            invariant
                j <= n, n == g.blocks@.len(), n == bs.len(), g == *self.cfg, bs == g.block_seqs(), sv == self.static_vars@,
                self.cfg == old(self).cfg, self.static_vars == old(self).static_vars, self.insn_info == old(self).insn_info,
                analyzable(g), self.static_vars.wf(), sv.finite(),
                self.block_info@.len() == n,
                forall|t: int| 0 <= t < self.block_info@.len() ==> (#[trigger] self.block_info@[t]).wf(),
                live_inv(bs, sv, live_view(self.block_info@)),
                forall|c: int| j <= c < n ==> #[trigger] live_view(self.block_info@)[c] == flow(bs, sv, live_view(self.block_info@), c),
            decreases j,
        {
            j = j - 1;
            let mut wl: Vec<usize> = Vec::new();
            wl.push(j);
            while wl.len() > 0
                invariant
                    j < n, n == g.blocks@.len(), n == bs.len(), g == *self.cfg, bs == g.block_seqs(), sv == self.static_vars@,
                    self.cfg == old(self).cfg, self.static_vars == old(self).static_vars, self.insn_info == old(self).insn_info,
                    analyzable(g), self.static_vars.wf(), sv.finite(),
                    self.block_info@.len() == n,
                    forall|t: int| 0 <= t < self.block_info@.len() ==> (#[trigger] self.block_info@[t]).wf(),
                    live_inv(bs, sv, live_view(self.block_info@)),
                    wl@.no_duplicates(),
                    forall|i: int| 0 <= i < wl@.len() ==> #[trigger] wl@[i] < n,
                    forall|c: int| j <= c < n && !wl@.contains(c as usize) ==>
                        #[trigger] live_view(self.block_info@)[c] == flow(bs, sv, live_view(self.block_info@), c),
                decreases missing(live_view(self.block_info@), universe(bs, sv).len()), wl@.len(),
            {
                let ghost live = live_view(self.block_info@);
                let ghost wl0 = wl@;
                proof {
                    lemma_universe(bs, sv, 0);
                    lemma_missing_nonneg(live, universe(bs, sv));
                }
                let b = wl.remove(0);
                proof { assert(wl0[0] == b); }
                let initial = self.meet(b);
                let (cur, _outs) = self.transfer(&initial, b);
                let ghost new = flow(bs, sv, live, b as int);
                proof {
                    assert(bs[b as int] == g.blocks@[b as int].insns@);
                    assert(cur@ == new);
                    lemma_live_inv_update(bs, sv, live, b as int);
                }
                let changed = self.block_info[b].diff_with(&cur);
                proof { assert(self.block_info@[b as int]@ == live[b as int]); }
                self.block_info.set(b, cur);
                let ghost live2 = live_view(self.block_info@);
                proof {
                    assert(live2 =~= live.update(b as int, new));
                    if changed {
                        lemma_universe(bs, sv, b as int);
                        lemma_len_subset(new, universe(bs, sv));
                        lemma_len_subset(live[b as int], new);
                        if live[b as int].len() == new.len() {
                            lemma_subset_equality(live[b as int], new);
                        }
                        lemma_missing_update(live, universe(bs, sv).len(), b as int, new);
                        lemma_missing_nonneg(live2, universe(bs, sv));
                    } else {
                        assert(live2 =~= live);
                    }
                }
                if changed {
                    let preds = &self.cfg.blocks[b].predecessors;
                    let ghost wl1 = wl@;
                    let mut k: usize = 0;
                    while k < preds.len()
                        invariant
                            k <= preds@.len(), preds == &g.blocks@[b as int].predecessors, b < n, n == g.blocks@.len(), n == bs.len(),
                            bs == g.block_seqs(), analyzable(g),
                            wl@.no_duplicates(),
                            forall|i: int| 0 <= i < wl@.len() ==> #[trigger] wl@[i] < n,
                            forall|x: usize| #[trigger] wl1.contains(x) ==> wl@.contains(x),
                            forall|i: int| 0 <= i < k ==> (#[trigger] preds@[i] matches NodeId::BasicBlock(c) ==> wl@.contains(c)),
                        decreases preds@.len() - k,
                    {
                        match preds[k] {
                            NodeId::BasicBlock(c) => {
                                proof {
                                    assert(g.blocks@[b as int].predecessors@[k as int] == NodeId::BasicBlock(c));
                                    assert(preds@.to_set().contains(NodeId::BasicBlock(c)));
                                    assert(preds_of(bs, b as int).contains(NodeId::BasicBlock(c)));
                                }
                                if !holds_usize(&wl, c) {
                                    let ghost w = wl@;
                                    wl.push(c);
                                    proof {
                                        assert forall|x: int, y: int| 0 <= x < y < wl@.len() implies wl@[x] != wl@[y] by {
                                            if y == w.len() { assert(w.contains(w[x])); }
                                        }
                                        assert forall|x: usize| #[trigger] wl1.contains(x) implies wl@.contains(x) by {
                                            assert(w.contains(x));
                                            let i = choose|i: int| 0 <= i < w.len() && w[i] == x;
                                            assert(wl@[i] == x);
                                        }
                                        assert forall|i: int| 0 <= i < k + 1 implies (#[trigger] preds@[i] matches NodeId::BasicBlock(d) ==> wl@.contains(d)) by {
                                            if i < k {
                                                if let NodeId::BasicBlock(d) = preds@[i] {
                                                    assert(w.contains(d));
                                                    let m = choose|m: int| 0 <= m < w.len() && w[m] == d;
                                                    assert(wl@[m] == d);
                                                }
                                            } else {
                                                assert(wl@[w.len() as int] == c);
                                            }
                                        }
                                    }
                                }
                            },
                            _ => {},
                        }
                        k = k + 1;
                    }
                    proof {
                        assert forall|c: int| j <= c < n && !wl@.contains(c as usize) implies
                            #[trigger] live2[c] == flow(bs, sv, live2, c) by {
                            if succs_of(bs, c).contains(NodeId::BasicBlock(b)) {
                                assert(preds_of(bs, b as int).contains(NodeId::BasicBlock(c as usize)));
                                assert(preds@.to_set().contains(NodeId::BasicBlock(c as usize)));
                                let i = choose|i: int| 0 <= i < preds@.len() && preds@[i] == NodeId::BasicBlock(c as usize);
                                assert(false);
                            }
                            lemma_flow_frame(bs, sv, live, b as int, new, c);
                            if c != b {
                                if wl0.contains(c as usize) {
                                    let i = choose|i: int| 0 <= i < wl0.len() && wl0[i] == c as usize;
                                    assert(i != 0);
                                    assert(wl1[i - 1] == c as usize);
                                    assert(wl1.contains(c as usize));
                                }
                            }
                        }
                    }
                } else {
                    proof {
                        assert forall|c: int| j <= c < n && !wl@.contains(c as usize) implies
                            #[trigger] live2[c] == flow(bs, sv, live2, c) by {
                            if c != b {
                                if wl0.contains(c as usize) {
                                    let i = choose|i: int| 0 <= i < wl0.len() && wl0[i] == c as usize;
                                    assert(i != 0);
                                    assert(wl@[i - 1] == c as usize);
                                }
                            }
                        }
                    }
                }
            }
        }
    }
}

/// What the analysis of a graph gives: the liveness of its blocks, and from
/// it the variables live after each instruction.
pub open spec fn analyzed(g: Graph, sv: Set<GeneralVar>, r: AnalysisResult) -> bool {
    let bs = g.block_seqs();
    let live = live_view(r.block_info@);
    &&& liveness(bs, sv, live)
    &&& forall|t: int| 0 <= t < r.block_info@.len() ==> (#[trigger] r.block_info@[t]).wf()
    &&& r.insn_info@.len() == g.blocks@.len()
    &&& forall|b: int| 0 <= b < g.blocks@.len() ==> live_view((#[trigger] r.insn_info@[b])@)
        == insn_outs(meet(live, succs_of(bs, b), sv), bs[b], sv)
}

impl<'a> LiveAnalysis<'a> {
    /// The least solution of the liveness equations of the graph.
    pub fn analyze(self) -> (r: AnalysisResult)
        requires analyzable(*self.cfg), self.static_vars.wf(),
        ensures analyzed(*self.cfg, self.static_vars@, r),
    {
        let mut analysis = self;
        let ghost g = *analysis.cfg;
        let ghost bs = g.block_seqs();
        let ghost sv = analysis.static_vars@;
        let n = analysis.cfg.blocks.len();
        let mut infos: Vec<LiveVars> = Vec::new();
        let mut b: usize = 0;
        while b < n
            invariant
                b <= n, infos@.len() == b,
                forall|t: int| 0 <= t < b ==> (#[trigger] infos@[t]).wf() && infos@[t]@ == Set::<GeneralVar>::empty(),
            decreases n - b,
        {
            infos.push(LiveVars::new());
            b = b + 1;
        }
        analysis.block_info = infos;
        proof {
            let live = live_view(analysis.block_info@);
            assert forall|l: Seq<Set<GeneralVar>>| #[trigger] is_post(bs, sv, l) implies below(live, l) by {
                assert forall|k: int| 0 <= k < live.len() implies (#[trigger] live[k]).subset_of(l[k]) by {
                    assert(live[k] == analysis.block_info@[k]@);
                }
            }
            assert forall|t: int| 0 <= t < live.len() implies (#[trigger] live[t]).subset_of(universe(bs, sv))
                && live[t].subset_of(flow(bs, sv, live, t)) by {
                assert(live[t] == analysis.block_info@[t]@);
            }
        }
        analysis.iterate();
        let ghost live = live_view(analysis.block_info@);
        let mut insn_info: Vec<Vec<LiveVars>> = Vec::new();
        let mut b: usize = 0;
        while b < n
            invariant
                b <= n, n == g.blocks@.len(), g == *analysis.cfg, bs == g.block_seqs(), sv == analysis.static_vars@,
                analyzable(g), analysis.static_vars.wf(),
                analysis.block_info@.len() == n, live == live_view(analysis.block_info@),
                forall|t: int| 0 <= t < analysis.block_info@.len() ==> (#[trigger] analysis.block_info@[t]).wf(),
                insn_info@.len() == b,
                forall|c: int| 0 <= c < b ==> live_view((#[trigger] insn_info@[c])@)
                    == insn_outs(meet(live, succs_of(bs, c), sv), bs[c], sv),
            decreases n - b,
        {
            let initial = analysis.meet(b);
            let (_, outs) = analysis.transfer(&initial, b);
            proof { assert(bs[b as int] == g.blocks@[b as int].insns@); }
            insn_info.push(outs);
            b = b + 1;
        }
        AnalysisResult { block_info: analysis.block_info, insn_info }
    }
}

/// A computation into a variable that is dead after it.
pub open spec fn is_dead_store(i: Insn, after: Set<GeneralVar>) -> bool {
    match i {
        Insn::Unary { dst, .. } | Insn::Binary { dst, .. } | Insn::Move { dst, .. }
        | Insn::SignExt { dst, .. } | Insn::Truncate { dst, .. } =>
            var_of(dst) matches Some(v) && !after.contains(v),
        _ => false,
    }
}

/// The instructions of a run that are no dead store, `outs[k]` being the
/// variables live after instruction `k`.
pub open spec fn kept_insns(insns: Seq<Insn>, outs: Seq<Set<GeneralVar>>) -> Seq<Insn>
    decreases insns.len(),
{
    if insns.len() == 0 {
        Seq::empty()
    } else {
        let p = kept_insns(insns.drop_last(), outs);
        if is_dead_store(insns.last(), outs[insns.len() - 1]) { p } else { p.push(insns.last()) }
    }
}

/// The body after dead-store elimination: each block without its dead stores,
/// under the liveness `live` of the blocks.
pub open spec fn dse_body(bs: Seq<Seq<Insn>>, sv: Set<GeneralVar>, live: Seq<Set<GeneralVar>>) -> Seq<Insn> {
    flatten(Seq::new(bs.len(), |b: int| kept_insns(bs[b], Seq::new(bs[b].len(), |k: int| live_after(bs, sv, live, b, k)))))
}

/// The blocks of a body have one liveness at most.
pub proof fn lemma_liveness_unique(bs: Seq<Seq<Insn>>, sv: Set<GeneralVar>, a: Seq<Set<GeneralVar>>, b: Seq<Set<GeneralVar>>)
    requires liveness(bs, sv, a), liveness(bs, sv, b),
    ensures a == b,
{
    assert(is_post(bs, sv, a));
    assert(is_post(bs, sv, b));
    assert(below(a, b) && below(b, a));
    assert forall|k: int| 0 <= k < a.len() implies #[trigger] a[k] == b[k] by {
        assert(a[k] =~= b[k]);
    }
    assert(a =~= b);
}

/// The instruction, unless it is a dead store after which `info` is live.
fn rewrite_insn(insn: Insn, insn_info: &LiveVars) -> (r: Option<Insn>)
    ensures r == (if is_dead_store(insn, insn_info@) { None } else { Some(insn) }),
{
    let dst = match &insn {
        Insn::Unary { dst, .. } | Insn::Binary { dst, .. } | Insn::Move { dst, .. }
        | Insn::SignExt { dst, .. } | Insn::Truncate { dst, .. } => Some(*dst),
        _ => None,
    };
    match dst {
        Some(d) => match GeneralVar::from_operand(d) {
            Some(var) => if insn_info.contains(var) { Some(insn) } else { None },
            None => Some(insn),
        },
        None => Some(insn),
    }
}

/// The instructions of a block without its dead stores.
fn rewrite_insns(insns: Vec<Insn>, insn_infos: &Vec<LiveVars>) -> (r: Vec<Insn>)
    requires insn_infos@.len() == insns@.len(),
    ensures r@ == kept_insns(insns@, live_view(insn_infos@)),
{
    let ghost s = insns@;
    let ghost outs = live_view(insn_infos@);
    let n = insns.len();
    let mut insns = insns;
    let mut r: Vec<Insn> = Vec::new();
    let mut i: usize = 0;
    while i < n
        invariant
            n == s.len(), insn_infos@.len() == n, outs == live_view(insn_infos@), i <= n,
            insns@ == s.subrange(i as int, n as int),
            r@ == kept_insns(s.subrange(0, i as int), outs),
        decreases n - i,
    {
        let insn = insns.remove(0);
        proof { assert(insn == s[i as int]); }
        let kept = rewrite_insn(insn, &insn_infos[i]);
        proof {
            let p = s.subrange(0, i as int + 1);
            assert(p.drop_last() =~= s.subrange(0, i as int));
            assert(p.last() == s[i as int]);
            assert(outs[i as int] == insn_infos@[i as int]@);
        }
        match kept {
            Some(x) => r.push(x),
            None => {},
        }
        i = i + 1;
        proof { assert(insns@ =~= s.subrange(i as int, n as int)); }
    }
    proof { assert(s.subrange(0, n as int) =~= s); }
    r
}

/// The graph with every block rid of its dead stores.
fn rewrite_graph(cfg: Graph, insn_infos: &Vec<Vec<LiveVars>>) -> (r: Graph)
    requires insn_infos@.len() == cfg.blocks@.len(),
        forall|b: int| 0 <= b < cfg.blocks@.len() ==> (#[trigger] insn_infos@[b])@.len() == cfg.blocks@[b].insns@.len(),
    ensures
        r.blocks@.len() == cfg.blocks@.len(),
        forall|b: int| 0 <= b < cfg.blocks@.len() ==>
            (#[trigger] r.blocks@[b]).insns@ == kept_insns(cfg.blocks@[b].insns@, live_view(insn_infos@[b]@)),
{
    let Graph { entry, blocks, exit } = cfg;
    let ghost b0 = blocks@;
    let n = blocks.len();
    let mut blocks = blocks;
    let mut out: Vec<BasicBlock> = Vec::new();
    let mut i: usize = 0;
    while i < n
        invariant
            n == b0.len(), insn_infos@.len() == n, i <= n,
            forall|b: int| 0 <= b < n ==> (#[trigger] insn_infos@[b])@.len() == b0[b].insns@.len(),
            blocks@ == b0.subrange(i as int, n as int),
            out@.len() == i,
            forall|b: int| 0 <= b < i ==> (#[trigger] out@[b]).insns@ == kept_insns(b0[b].insns@, live_view(insn_infos@[b]@)),
        decreases n - i,
    {
        let blk = blocks.remove(0);
        proof { assert(blk == b0[i as int]); }
        let BasicBlock { id, insns, predecessors, successors } = blk;
        let insns = rewrite_insns(insns, &insn_infos[i]);
        out.push(BasicBlock { id, insns, predecessors, successors });
        i = i + 1;
        proof { assert(blocks@ =~= b0.subrange(i as int, n as int)); }
    }
    Graph { entry, blocks: out, exit }
}

/// The static variables of the program as a set of variables.
fn static_live_vars(static_vars: &Vec<(StrDescriptor, DataType)>) -> (r: LiveVars)
    ensures r.wf(), r@ == static_set(static_vars@),
{
    let mut r = LiveVars::new();
    let mut i: usize = 0;
    while i < static_vars.len()
        invariant
            i <= static_vars@.len(), r.wf(),
            r@ == static_vars@.subrange(0, i as int).map_values(|s: (StrDescriptor, DataType)| static_var(s)).to_set(),
        decreases static_vars@.len() - i,
    {
        let (name, data_type) = static_vars[i];
        r.add(GeneralVar::Var { name, local_id: None, data_type });
        proof {
            let p = static_vars@.subrange(0, i as int + 1).map_values(|s: (StrDescriptor, DataType)| static_var(s));
            let q = static_vars@.subrange(0, i as int).map_values(|s: (StrDescriptor, DataType)| static_var(s));
            assert(p =~= q.push(static_var(static_vars@[i as int])));
            assert(r@ =~= p.to_set());
        }
        i = i + 1;
    }
    proof { assert(static_vars@.subrange(0, i as int) =~= static_vars@); }
    r
}

impl CodeGen<Opt> {
    /// Removes from a function's body every computation into a variable that
    /// no later instruction reads; calls stay, and a declaration is unchanged.
    /// A call may read any static variable, and so may the caller after a return.
    pub fn deadstore_elimination(&mut self, func: Function) -> (r: Function)
        requires func matches Function::Defined { body, .. } ==> buildable(body@),
        ensures
            match func {
                Function::Declared { .. } => r == func,
                Function::Defined { return_type, linkage, name, params, local_vars, body } =>
                    r matches Function::Defined { return_type: rt, linkage: lk, name: nm, params: ps, local_vars: lv, body: b }
                    && rt == return_type && lk == linkage && nm == name && ps == params && lv == local_vars
                    && (exists|live: Seq<Set<GeneralVar>>| #[trigger] liveness(blocks_of(body@), static_set(old(self).static_vars@), live))
                    && forall|live: Seq<Set<GeneralVar>>| #[trigger] liveness(blocks_of(body@), static_set(old(self).static_vars@), live)
                        ==> b@ == dse_body(blocks_of(body@), static_set(old(self).static_vars@), live),
            },
            final(self).static_vars == old(self).static_vars,
    {
        match func {
            Function::Declared { linkage, name, type_ } => Function::Declared { linkage, name, type_ },
            Function::Defined { return_type, linkage, name, params, local_vars, body } => {
                let ghost bs = blocks_of(body@);
                let cfg = Graph::build(body);
                let static_vars = static_live_vars(&self.static_vars);
                let ghost sv = static_vars@;
                proof {
                    assert(analyzable(cfg));
                }
                let analysis = LiveAnalysis::new(&cfg, static_vars);
                let AnalysisResult { block_info, insn_info } = analysis.analyze();
                let ghost live = live_view(block_info@);
                let ghost n = cfg.blocks@.len();
                let ghost orig = cfg.block_seqs();
                proof {
                    assert(orig == bs);
                    assert forall|b: int| 0 <= b < n implies (#[trigger] insn_info@[b])@.len() == cfg.blocks@[b].insns@.len() by {
                        assert(live_view(insn_info@[b]@).len() == insn_info@[b]@.len());
                        assert(orig[b] == cfg.blocks@[b].insns@);
                    }
                }
                let opted_cfg = rewrite_graph(cfg, &insn_info);
                let ghost new_seqs = opted_cfg.block_seqs();
                let opted_body = opted_cfg.emit();
                proof {
                    let target = Seq::new(bs.len(), |b: int| kept_insns(bs[b], Seq::new(bs[b].len(), |k: int| live_after(bs, sv, live, b, k))));
                    assert forall|b: int| 0 <= b < bs.len() implies #[trigger] new_seqs[b] == target[b] by {
                        assert(orig[b] == bs[b]);
                        assert(live_view(insn_info@[b]@) =~= Seq::new(bs[b].len(), |k: int| live_after(bs, sv, live, b, k)));
                    }
                    assert(new_seqs =~= target);
                    assert forall|l: Seq<Set<GeneralVar>>| #[trigger] liveness(bs, sv, l) implies opted_body@ == dse_body(bs, sv, l) by {
                        lemma_liveness_unique(bs, sv, live, l);
                    }
                    assert(liveness(bs, sv, live));
                }
                Function::Defined { return_type, linkage, name, params, local_vars, body: opted_body }
            },
        }
    }
}

} // verus!
