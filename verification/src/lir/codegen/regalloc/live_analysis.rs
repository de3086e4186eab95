//! Liveness of registers over the control flow graph of a function.

use vstd::prelude::*;
use vstd::set_lib::{lemma_len_subset, lemma_subset_equality};
use crate::assembly::{Register, spec_x};
use crate::common::StrDescriptor;
use crate::lir::{Insn, IntermediateInsn, LabelOperand, Operand};
use super::GeneralReg;
use super::super::FuncContext;
use super::super::spill::{cx_index, keys_of, lemma_cx_index};

verus! {

broadcast use vstd::seq_lib::group_seq_properties;

/// A set of registers, each held once.
#[derive(Debug)]
pub struct LiveReg {
    pub inner: Vec<GeneralReg>,
}

impl View for LiveReg {
    type V = Set<GeneralReg>;

    open spec fn view(&self) -> Set<GeneralReg> {
        self.inner@.to_set()
    }
}

/// The registers of a set, one at a time.
#[derive(Debug)]
pub struct Iter {
    pub items: Vec<GeneralReg>,
    pub index: usize,
}

impl Iter {
    /// The next register, or `None` after the last one.
    pub fn next(&mut self) -> (r: Option<GeneralReg>)
        ensures
            final(self).items == old(self).items,
            old(self).index < old(self).items@.len() ==> r == Some(old(self).items@[old(self).index as int])
                && final(self).index == old(self).index + 1,
            old(self).index >= old(self).items@.len() ==> r is None && final(self).index == old(self).index,
    {
        if self.index < self.items.len() {
            let reg = self.items[self.index];
            self.index = self.index + 1;
            Some(reg)
        } else {
            None
        }
    }
}

impl LiveReg {
    /// No register is held twice.
    pub open spec fn wf(self) -> bool {
        self.inner@.no_duplicates()
    }

    /// The registers of the set, in the order they were added.
    pub fn iter(&self) -> (r: Iter)
        ensures r.items@ == self.inner@, r.index == 0,
    {
        Iter { items: self.copy().inner, index: 0 }
    }

    pub fn new() -> (r: Self)
        ensures r.wf(), r@ == Set::<GeneralReg>::empty(),
    {
        let r = LiveReg { inner: Vec::new() };
        proof { assert(r@ =~= Set::<GeneralReg>::empty()); }
        r
    }

    /// The same set.
    pub fn copy(&self) -> (r: Self)
        ensures r.inner@ == self.inner@, r@ == self@,
    {
        let mut v: Vec<GeneralReg> = Vec::new();
        let mut i: usize = 0;
        while i < self.inner.len()
            invariant i <= self.inner@.len(), v@ == self.inner@.subrange(0, i as int),
            decreases self.inner@.len() - i,
        {
            v.push(self.inner[i]);
            i = i + 1;
            proof { assert(v@ =~= self.inner@.subrange(0, i as int)); }
        }
        proof { assert(v@ =~= self.inner@); }
        LiveReg { inner: v }
    }

    pub fn contains(&self, reg: GeneralReg) -> (r: bool)
        ensures r == self@.contains(reg),
    {
        let mut i: usize = 0;
        while i < self.inner.len()
            invariant i <= self.inner@.len(), forall|j: int| 0 <= j < i ==> self.inner@[j] != reg,
            decreases self.inner@.len() - i,
        {
            if self.inner[i] == reg {
                proof { assert(self.inner@.contains(reg)); }
                return true;
            }
            i = i + 1;
        }
        proof { assert(!self.inner@.contains(reg)); }
        false
    }

    pub fn add(&mut self, reg: GeneralReg)
        requires old(self).wf(),
        ensures final(self).wf(), final(self)@ == old(self)@.insert(reg),
    {
        if !self.contains(reg) {
            let ghost s = self.inner@;
            self.inner.push(reg);
            proof {
                assert(self.inner@ == s.push(reg));
                assert forall|i: int, j: int| 0 <= i < j < self.inner@.len() implies self.inner@[i] != self.inner@[j] by {
                    if j == s.len() { assert(s.contains(s[i])); }
                }
                assert(self@ =~= s.to_set().insert(reg));
            }
        } else {
            proof { assert(self@ =~= self@.insert(reg)); }
        }
    }

    pub fn remove(&mut self, reg: GeneralReg)
        requires old(self).wf(),
        ensures final(self).wf(), final(self)@ == old(self)@.remove(reg),
    {
        let ghost s = self.inner@;
        let mut v: Vec<GeneralReg> = Vec::new();
        let mut i: usize = 0;
        while i < self.inner.len()
            invariant
                self.inner@ == s, s.no_duplicates(), i <= s.len(),
                v@.no_duplicates(),
                v@.to_set() == s.subrange(0, i as int).to_set().remove(reg),
                forall|k: int| 0 <= k < v@.len() ==> s.subrange(0, i as int).contains(#[trigger] v@[k]),
            decreases s.len() - i,
        {
            let x = self.inner[i];
            let ghost before = v@;
            if x != reg {
                v.push(x);
                proof {
                    assert forall|a: int, b: int| 0 <= a < b < v@.len() implies v@[a] != v@[b] by {
                        if b == before.len() {
                            assert(s.subrange(0, i as int).contains(v@[a]));
                            let k = choose|k: int| 0 <= k < i && s.subrange(0, i as int)[k] == v@[a];
                            assert(s[k] == v@[a]);
                        }
                    }
                }
            }
            proof {
                assert(s.subrange(0, i as int + 1) == s.subrange(0, i as int).push(x));
                assert(s.subrange(0, i as int + 1).to_set() =~= s.subrange(0, i as int).to_set().insert(x));
                if x != reg {
                    assert(v@ == before.push(x));
                    assert(v@.to_set() =~= before.to_set().insert(x));
                }
                assert(v@.to_set() =~= s.subrange(0, i as int + 1).to_set().remove(reg));
                assert forall|k: int| 0 <= k < v@.len() implies s.subrange(0, i as int + 1).contains(#[trigger] v@[k]) by {
                    if k < before.len() {
                        let m = choose|m: int| 0 <= m < i && s.subrange(0, i as int)[m] == v@[k];
                        assert(s.subrange(0, i as int + 1)[m] == v@[k]);
                    } else {
                        assert(s.subrange(0, i as int + 1)[i as int] == v@[k]);
                    }
                }
            }
            i = i + 1;
        }
        proof { assert(s.subrange(0, i as int) =~= s); }
        self.inner = v;
    }

    /// Adds every register of `other`.
    pub fn union_with(&mut self, other: &LiveReg)
        requires old(self).wf(),
        ensures final(self).wf(), final(self)@ == old(self)@.union(other@),
    {
        let ghost s0 = self@;
        let mut i: usize = 0;
        while i < other.inner.len()
            invariant
                i <= other.inner@.len(),
                self.wf(),
                self@ == s0.union(other.inner@.subrange(0, i as int).to_set()),
            decreases other.inner@.len() - i,
        {
            self.add(other.inner[i]);
            proof {
                assert(other.inner@.subrange(0, i as int + 1) == other.inner@.subrange(0, i as int).push(other.inner@[i as int]));
                assert(self@ =~= s0.union(other.inner@.subrange(0, i as int + 1).to_set()));
            }
            i = i + 1;
        }
        proof { assert(other.inner@.subrange(0, i as int) =~= other.inner@); }
    }

    /// The number of registers held.
    pub fn len(&self) -> (r: usize)
        requires self.wf(),
        ensures r == self@.len(),
    {
        proof { self.inner@.unique_seq_to_set(); }
        self.inner.len()
    }

    /// Whether the two sets differ.
    pub fn diff_with(&self, other: &Self) -> (r: bool)
        requires self.wf(), other.wf(),
        ensures r == (self@ != other@),
    {
        proof {
            self.inner@.unique_seq_to_set();
            other.inner@.unique_seq_to_set();
        }
        if self.inner.len() != other.inner.len() {
            return true;
        }
        let mut i: usize = 0;
        while i < self.inner.len()
            invariant
                i <= self.inner@.len(),
                forall|j: int| 0 <= j < i ==> other@.contains(#[trigger] self.inner@[j]),
            decreases self.inner@.len() - i,
        {
            if !other.contains(self.inner[i]) {
                proof { assert(self@.contains(self.inner@[i as int])); }
                return true;
            }
            i = i + 1;
        }
        proof {
            assert(self@.subset_of(other@));
            lemma_subset_equality(self@, other@);
        }
        false
    }
}

/// A node of the control flow graph.
#[derive(Debug, Clone, Copy, PartialEq, Eq, Structural)]
pub enum NodeId {
    Entry,
    BasicBlock(usize),
    Exit,
}

/// An instruction by its block and its place in the block.
#[derive(Debug, Clone, Copy, PartialEq, Eq, Structural)]
pub struct InsnId {
    pub block_id: usize,
    pub inblock_idx: usize,
}

impl InsnId {
    pub fn new(block_id: usize, inblock_idx: usize) -> (r: Self)
        ensures r.block_id == block_id, r.inblock_idx == inblock_idx,
    {
        InsnId { block_id, inblock_idx }
    }
}

/// A straight run of instructions, entered at the top and left at the bottom.
#[derive(Debug)]
pub struct BasicBlock {
    pub id: usize,
    pub insns: Vec<Insn>,
    pub predecessors: Vec<NodeId>,
    pub successors: Vec<NodeId>,
}

#[derive(Debug)]
pub enum Node {
    Entry { successors: Vec<NodeId> },
    BasicBlock(BasicBlock),
    Exit { predecessors: Vec<NodeId> },
}

impl Node {
    pub open spec fn spec_id(&self) -> NodeId {
        match self {
            Node::Entry { .. } => NodeId::Entry,
            Node::BasicBlock(b) => NodeId::BasicBlock(b.id),
            Node::Exit { .. } => NodeId::Exit,
        }
    }

    pub fn id(&self) -> (r: NodeId)
        ensures r == self.spec_id(),
    {
        match self {
            Node::Entry { .. } => NodeId::Entry,
            Node::BasicBlock(b) => NodeId::BasicBlock(b.id),
            Node::Exit { .. } => NodeId::Exit,
        }
    }

    /// A block with no edges yet.
    pub fn basic_block(id: usize, insns: Vec<Insn>) -> (r: Self)
        ensures r matches Node::BasicBlock(b) && b.id == id && b.insns == insns
            && b.predecessors@.len() == 0 && b.successors@.len() == 0,
    {
        Node::BasicBlock(BasicBlock { id, insns, predecessors: Vec::new(), successors: Vec::new() })
    }
}

/// The control flow graph of a function: the successors of the entry, the
/// blocks in order, and the predecessors of the exit.
#[derive(Debug)]
pub struct Graph {
    pub entry: Vec<NodeId>,
    pub blocks: Vec<BasicBlock>,
    pub exit: Vec<NodeId>,
}

/// An instruction after which control does not fall through to the next one.
pub open spec fn is_terminator(i: Insn) -> bool {
    i is J || i is Beq || i is Bne || i == Insn::Intermediate(IntermediateInsn::Epilogue)
}

/// The blocks closed so far and the block being filled, after `insns`: a
/// label opens a block, a jump, a branch or the epilogue closes one.
pub open spec fn part(insns: Seq<Insn>) -> (Seq<Seq<Insn>>, Seq<Insn>)
    decreases insns.len(),
{
    if insns.len() == 0 {
        (Seq::empty(), Seq::empty())
    } else {
        let (done, cur) = part(insns.drop_last());
        let i = insns.last();
        if i is Label {
            if cur.len() > 0 { (done.push(cur), seq![i]) } else { (done, seq![i]) }
        } else if is_terminator(i) {
            (done.push(cur.push(i)), Seq::empty())
        } else {
            (done, cur.push(i))
        }
    }
}

/// The basic blocks of a body, in order.
pub open spec fn blocks_of(insns: Seq<Insn>) -> Seq<Seq<Insn>> {
    let (done, cur) = part(insns);
    if cur.len() > 0 { done.push(cur) } else { done }
}

/// The last block that starts with the label.
pub open spec fn label_block(blocks: Seq<Seq<Insn>>, l: LabelOperand) -> Option<int>
    decreases blocks.len(),
{
    if blocks.len() == 0 {
        None
    } else if blocks.last().len() > 0 && blocks.last()[0] == Insn::Label(l) {
        Some(blocks.len() - 1)
    } else {
        label_block(blocks.drop_last(), l)
    }
}

/// The label a block ends by jumping or branching to.
pub open spec fn jump_label(i: Insn) -> Option<LabelOperand> {
    match i {
        Insn::J(l) | Insn::Beq(_, _, l) | Insn::Bne(_, _, l) => Some(l),
        _ => None,
    }
}

/// The node after block `b` of `n`.
pub open spec fn next_of(n: int, b: int) -> NodeId {
    if b == n - 1 { NodeId::Exit } else { NodeId::BasicBlock((b + 1) as usize) }
}

/// Where control goes after block `b`.
pub open spec fn succs_of(blocks: Seq<Seq<Insn>>, b: int) -> Set<NodeId> {
    let last = blocks[b].last();
    let n = blocks.len() as int;
    if last == Insn::Intermediate(IntermediateInsn::Epilogue) {
        set![NodeId::Exit]
    } else if last is J {
        set![NodeId::BasicBlock(label_block(blocks, jump_label(last)->0)->0 as usize)]
    } else if last is Beq || last is Bne {
        set![NodeId::BasicBlock(label_block(blocks, jump_label(last)->0)->0 as usize), next_of(n, b)]
    } else {
        set![next_of(n, b)]
    }
}

/// Where control comes from into block `b`.
pub open spec fn preds_of(blocks: Seq<Seq<Insn>>, b: int) -> Set<NodeId> {
    Set::new(|p: NodeId| (p == NodeId::Entry && b == 0)
        || (p matches NodeId::BasicBlock(c) && 0 <= c < blocks.len() && succs_of(blocks, c as int).contains(NodeId::BasicBlock(b as usize))))
}

/// A body the graph can be built of: not empty, no bare `ret`, and every
/// label that a jump or a branch names opens a block.
pub open spec fn buildable(insns: Seq<Insn>) -> bool {
    &&& insns.len() > 0
    &&& forall|k: int| 0 <= k < insns.len() ==> !(#[trigger] insns[k] is Ret)
    &&& forall|b: int| 0 <= b < blocks_of(insns).len() ==>
        (jump_label(#[trigger] blocks_of(insns)[b].last()) matches Some(l) ==> label_block(blocks_of(insns), l) is Some)
}

/// The block a label opens is one of the blocks.
proof fn lemma_label_block_range(blocks: Seq<Seq<Insn>>, l: LabelOperand)
    ensures label_block(blocks, l) matches Some(k) ==> 0 <= k < blocks.len(),
    decreases blocks.len(),
{
    if blocks.len() > 0 {
        lemma_label_block_range(blocks.drop_last(), l);
    }
}

/// The basic blocks of a body, in order.
fn partition(insns: &Vec<Insn>) -> (r: Vec<Vec<Insn>>)
    ensures
        r@.map_values(|v: Vec<Insn>| v@) == blocks_of(insns@),
        forall|k: int| 0 <= k < r@.len() ==> (#[trigger] r@[k])@.len() > 0,
{
    let mut done: Vec<Vec<Insn>> = Vec::new();
    let mut cur: Vec<Insn> = Vec::new();
    let mut i: usize = 0;
    while i < insns.len()
        invariant
            i <= insns@.len(),
            (done@.map_values(|v: Vec<Insn>| v@), cur@) == part(insns@.subrange(0, i as int)),
            forall|k: int| 0 <= k < done@.len() ==> (#[trigger] done@[k])@.len() > 0,
        decreases insns@.len() - i,
    {
        let insn = insns[i];
        let ghost d0 = done@;
        let ghost c0 = cur@;
        proof { assert(insns@.subrange(0, i as int + 1).drop_last() =~= insns@.subrange(0, i as int)); }
        match insn {
            Insn::Label(_) => {
                if cur.len() > 0 {
                    let c = cur;
                    done.push(c);
                }
                cur = Vec::new();
                cur.push(insn);
            },
            Insn::J(_) | Insn::Beq(..) | Insn::Bne(..) | Insn::Intermediate(IntermediateInsn::Epilogue) => {
                cur.push(insn);
                let c = cur;
                done.push(c);
                cur = Vec::new();
            },
            _ => cur.push(insn),
        }
        proof {
            let p = insns@.subrange(0, i as int + 1);
            assert(p.last() == insn);
            assert(done@.map_values(|v: Vec<Insn>| v@) =~= part(p).0);
            assert(cur@ =~= part(p).1);
        }
        i = i + 1;
    }
    proof { assert(insns@.subrange(0, i as int) =~= insns@); }
    if cur.len() > 0 {
        done.push(cur);
    }
    proof { assert(done@.map_values(|v: Vec<Insn>| v@) =~= blocks_of(insns@)); }
    done
}

/// The last block that starts with the label.
fn find_label_block(seqs: &Vec<Vec<Insn>>, l: LabelOperand) -> (r: Option<usize>)
    ensures
        r matches Some(k) ==> label_block(seqs@.map_values(|v: Vec<Insn>| v@), l) == Some(k as int),
        r is None ==> label_block(seqs@.map_values(|v: Vec<Insn>| v@), l) is None,
{
    let ghost bs = seqs@.map_values(|v: Vec<Insn>| v@);
    let mut k: usize = seqs.len();
    proof { assert(bs.subrange(0, k as int) =~= bs); }
    while k > 0
        invariant
            k <= seqs@.len(), bs == seqs@.map_values(|v: Vec<Insn>| v@),
            label_block(bs, l) == label_block(bs.subrange(0, k as int), l),
        decreases k,
    {
        let ghost p = bs.subrange(0, k as int);
        proof { assert(p.drop_last() =~= bs.subrange(0, k as int - 1)); assert(p.last() == seqs@[k - 1]@); }
        let blk = &seqs[k - 1];
        if blk.len() > 0 && blk[0] == Insn::Label(l) {
            return Some(k - 1);
        }
        k = k - 1;
    }
    None
}

/// The successors of block `b`, each once.
fn block_succs(seqs: &Vec<Vec<Insn>>, b: usize) -> (r: Vec<NodeId>)
    requires
        b < seqs@.len(),
        seqs@[b as int]@.len() > 0,
        jump_label(seqs@[b as int]@.last()) matches Some(l) ==> label_block(seqs@.map_values(|v: Vec<Insn>| v@), l) is Some,
    ensures
        r@.to_set() == succs_of(seqs@.map_values(|v: Vec<Insn>| v@), b as int),
        r@.no_duplicates(),
        forall|j: int| 0 <= j < r@.len() ==> (r@[j] matches NodeId::BasicBlock(t) ==> t < seqs@.len()) && r@[j] != NodeId::Entry,
{
    let ghost bs = seqs@.map_values(|v: Vec<Insn>| v@);
    proof { assert(bs[b as int] == seqs@[b as int]@); }
    let n = seqs.len();
    let blk = &seqs[b];
    let last = blk[blk.len() - 1];
    let next = if b == n - 1 { NodeId::Exit } else { NodeId::BasicBlock(b + 1) };
    let mut r: Vec<NodeId> = Vec::new();
    match last {
        Insn::Intermediate(IntermediateInsn::Epilogue) => { r.push(NodeId::Exit); },
        Insn::J(l) => {
            let t = find_label_block(seqs, l);
            proof { lemma_label_block_range(bs, l); }
            match t { Some(t) => r.push(NodeId::BasicBlock(t)), None => {} }
        },
        Insn::Beq(_, _, l) | Insn::Bne(_, _, l) => {
            let t = find_label_block(seqs, l);
            proof { lemma_label_block_range(bs, l); }
            match t {
                Some(t) => {
                    r.push(NodeId::BasicBlock(t));
                    if NodeId::BasicBlock(t) != next {
                        r.push(next);
                    }
                },
                None => {},
            }
        },
        _ => { r.push(next); },
    }
    proof {
        assert(blk@.last() == last);
        assert(r@.to_set() =~= succs_of(bs, b as int));
    }
    r
}

impl Graph {
    /// The instructions of the blocks.
    pub open spec fn block_seqs(self) -> Seq<Seq<Insn>> {
        self.blocks@.map_values(|b: BasicBlock| b.insns@)
    }

    /// The shape every graph of a body has: blocks numbered in order and not
    /// empty, edges between existing nodes, and every edge recorded at both ends.
    pub open spec fn wf(self) -> bool {
        let n = self.blocks@.len();
        &&& n > 0
        &&& forall|b: int| 0 <= b < n ==> (#[trigger] self.blocks@[b]).id == b && self.blocks@[b].insns@.len() > 0
        &&& forall|b: int, k: int| 0 <= b < n && 0 <= k < self.blocks@[b].successors@.len() ==> {
            let s = #[trigger] self.blocks@[b].successors@[k];
            s != NodeId::Entry && (s matches NodeId::BasicBlock(t) ==> t < n)
        }
        &&& forall|b: int, c: int| 0 <= b < n && 0 <= c < n
            && (#[trigger] self.blocks@[c]).successors@.contains(NodeId::BasicBlock(b as usize))
            ==> (#[trigger] self.blocks@[b]).predecessors@.contains(NodeId::BasicBlock(c as usize))
    }

    /// The graph of a body: its basic blocks, and the edges that jumps,
    /// branches, the epilogue and falling through make.
    pub fn build(insns: &Vec<Insn>) -> (r: Self)
        requires buildable(insns@),
        ensures
            r.wf(),
            r.block_seqs() == blocks_of(insns@),
            r.entry@.to_set() == set![NodeId::BasicBlock(0)],
            forall|b: int| 0 <= b < r.blocks@.len() ==> (#[trigger] r.blocks@[b]).successors@.to_set() == succs_of(blocks_of(insns@), b)
                && r.blocks@[b].predecessors@.to_set() == preds_of(blocks_of(insns@), b),
            r.exit@.to_set() == Set::new(|p: NodeId| p matches NodeId::BasicBlock(c) && 0 <= c < r.blocks@.len()
                && succs_of(blocks_of(insns@), c as int).contains(NodeId::Exit)),
    {
        let seqs = partition(insns);
        let ghost bs = blocks_of(insns@);
        let n = seqs.len();
        // the successors of each block
        let mut succs: Vec<Vec<NodeId>> = Vec::new();
        let mut b: usize = 0;
        while b < n
            invariant
                n == seqs@.len(), b <= n, bs == blocks_of(insns@), buildable(insns@),
                seqs@.map_values(|v: Vec<Insn>| v@) == bs,
                forall|k: int| 0 <= k < n ==> (#[trigger] seqs@[k])@.len() > 0,
                succs@.len() == b,
                forall|k: int| 0 <= k < b ==> (#[trigger] succs@[k])@.to_set() == succs_of(bs, k)
                    && succs@[k]@.no_duplicates(),
                forall|k: int| 0 <= k < b ==> forall|j: int| 0 <= j < (#[trigger] succs@[k])@.len() ==>
                    (succs@[k]@[j] matches NodeId::BasicBlock(t) ==> t < n) && succs@[k]@[j] != NodeId::Entry,
            decreases n - b,
        {
            proof {
                assert(seqs@[b as int]@ == bs[b as int]);
                assert(seqs@.map_values(|v: Vec<Insn>| v@)[b as int] == bs[b as int]);
            }
            let s = block_succs(&seqs, b);
            succs.push(s);
            b = b + 1;
        }
        // the predecessors of each block, and of the exit
        let mut preds: Vec<Vec<NodeId>> = Vec::new();
        let mut b: usize = 0;
        while b < n
            invariant
                b <= n, preds@.len() == b,
                forall|k: int| 0 <= k < b ==> (#[trigger] preds@[k])@ == (if k == 0 { seq![NodeId::Entry] } else { Seq::empty() }),
            decreases n - b,
        {
            if b == 0 { preds.push(vec![NodeId::Entry]); } else { preds.push(Vec::new()); }
            b = b + 1;
        }
        let mut exit: Vec<NodeId> = Vec::new();
        let mut c: usize = 0;
        while c < n
            invariant
                c <= n, n == seqs@.len(), succs@.len() == n, preds@.len() == n, bs == blocks_of(insns@),
                forall|k: int| 0 <= k < n ==> (#[trigger] succs@[k])@.to_set() == succs_of(bs, k),
                forall|t: int| 0 <= t < n ==> (#[trigger] preds@[t])@.to_set() == Set::new(|p: NodeId| (p == NodeId::Entry && t == 0)
                    || (p matches NodeId::BasicBlock(d) && 0 <= d < c && succs_of(bs, d as int).contains(NodeId::BasicBlock(t as usize)))),
                exit@.to_set() == Set::new(|p: NodeId| p matches NodeId::BasicBlock(d) && 0 <= d < c
                    && succs_of(bs, d as int).contains(NodeId::Exit)),
                forall|k: int| 0 <= k < n ==> forall|j: int| 0 <= j < (#[trigger] succs@[k])@.len() ==>
                    (succs@[k]@[j] matches NodeId::BasicBlock(t) ==> t < n) && succs@[k]@[j] != NodeId::Entry,
            decreases n - c,
        {
            let sc = &succs[c];
            let mut j: usize = 0;
            let ghost preds0 = preds@;
            let ghost exit0 = exit@;
            while j < sc.len()
                invariant
                    j <= sc@.len(), c < n, sc == &succs@[c as int], preds@.len() == n,
                    forall|j2: int| 0 <= j2 < sc@.len() ==> (sc@[j2] matches NodeId::BasicBlock(t) ==> t < n) && sc@[j2] != NodeId::Entry,
                    forall|t: int| 0 <= t < n ==> (#[trigger] preds@[t])@.to_set() == preds0[t]@.to_set()
                        + (if sc@.subrange(0, j as int).contains(NodeId::BasicBlock(t as usize)) { set![NodeId::BasicBlock(c)] } else { Set::empty() }),
                    exit@.to_set() == exit0.to_set()
                        + (if sc@.subrange(0, j as int).contains(NodeId::Exit) { set![NodeId::BasicBlock(c)] } else { Set::empty() }),
                decreases sc@.len() - j,
            {
                let ghost before = preds@;
                match sc[j] {
                    NodeId::BasicBlock(t) => {
                        let mut v = preds.remove(t);
                        v.push(NodeId::BasicBlock(c));
                        preds.insert(t, v);
                        proof {
                            assert forall|u: int| 0 <= u < n implies (#[trigger] preds@[u])@.to_set() == preds0[u]@.to_set()
                                + (if sc@.subrange(0, j as int + 1).contains(NodeId::BasicBlock(u as usize)) { set![NodeId::BasicBlock(c)] } else { Set::empty() }) by {
                                assert(sc@.subrange(0, j as int + 1) == sc@.subrange(0, j as int).push(sc@[j as int]));
                                if u == t {
                                    assert(preds@[u]@ == before[u]@.push(NodeId::BasicBlock(c)));
                                    assert(preds@[u]@.to_set() =~= before[u]@.to_set().insert(NodeId::BasicBlock(c)));
                                    assert(preds@[u]@.to_set() =~= preds0[u]@.to_set()
                                        + (if sc@.subrange(0, j as int + 1).contains(NodeId::BasicBlock(u as usize)) { set![NodeId::BasicBlock(c)] } else { Set::empty() }));
                                } else {
                                    assert(preds@[u] == before[u]);
                                    assert(sc@.subrange(0, j as int + 1).contains(NodeId::BasicBlock(u as usize))
                                        == sc@.subrange(0, j as int).contains(NodeId::BasicBlock(u as usize)));
                                }
                            }
                            assert(sc@.subrange(0, j as int + 1).contains(NodeId::Exit) == sc@.subrange(0, j as int).contains(NodeId::Exit));
                        }
                    },
                    NodeId::Exit => {
                        let ghost e = exit@;
                        exit.push(NodeId::BasicBlock(c));
                        proof {
                            assert(sc@.subrange(0, j as int + 1) == sc@.subrange(0, j as int).push(sc@[j as int]));
                            assert(exit@.to_set() =~= e.to_set().insert(NodeId::BasicBlock(c)));
                            assert(exit@.to_set() =~= exit0.to_set()
                                + (if sc@.subrange(0, j as int + 1).contains(NodeId::Exit) { set![NodeId::BasicBlock(c)] } else { Set::empty() }));
                            assert forall|u: int| 0 <= u < n implies
                                #[trigger] sc@.subrange(0, j as int + 1).contains(NodeId::BasicBlock(u as usize))
                                == sc@.subrange(0, j as int).contains(NodeId::BasicBlock(u as usize)) by {}
                        }
                    },
                    NodeId::Entry => {},
                }
                j = j + 1;
            }
            proof {
                assert(sc@.subrange(0, j as int) =~= sc@);
                assert forall|t: int| 0 <= t < n implies (#[trigger] preds@[t])@.to_set() == Set::new(|p: NodeId| (p == NodeId::Entry && t == 0)
                    || (p matches NodeId::BasicBlock(d) && 0 <= d < c + 1 && succs_of(bs, d as int).contains(NodeId::BasicBlock(t as usize)))) by {
                    assert(sc@.to_set() == succs_of(bs, c as int));
                    assert(sc@.contains(NodeId::BasicBlock(t as usize)) == succs_of(bs, c as int).contains(NodeId::BasicBlock(t as usize)));
                    assert(preds@[t]@.to_set() =~= Set::new(|p: NodeId| (p == NodeId::Entry && t == 0)
                        || (p matches NodeId::BasicBlock(d) && 0 <= d < c + 1 && succs_of(bs, d as int).contains(NodeId::BasicBlock(t as usize)))));
                }
                assert(sc@.to_set() == succs_of(bs, c as int));
                assert(sc@.contains(NodeId::Exit) == succs_of(bs, c as int).contains(NodeId::Exit));
                assert(exit@.to_set() =~= Set::new(|p: NodeId| p matches NodeId::BasicBlock(d) && 0 <= d < c + 1
                    && succs_of(bs, d as int).contains(NodeId::Exit)));
            }
            c = c + 1;
        }
        // put the blocks together
        let ghost seqs0 = seqs@;
        let ghost succs0 = succs@;
        let ghost preds0 = preds@;
        let mut blocks: Vec<BasicBlock> = Vec::new();
        let mut seqs = seqs;
        let mut succs = succs;
        let mut preds = preds;
        let mut b: usize = 0;
        while b < n
            invariant
                b <= n, n == seqs0.len(), succs0.len() == n, preds0.len() == n,
                seqs@ == seqs0.subrange(b as int, n as int),
                succs@ == succs0.subrange(b as int, n as int),
                preds@ == preds0.subrange(b as int, n as int),
                blocks@.len() == b,
                forall|k: int| 0 <= k < b ==> (#[trigger] blocks@[k]).id == k && blocks@[k].insns == seqs0[k]
                    && blocks@[k].successors == succs0[k] && blocks@[k].predecessors == preds0[k],
            decreases n - b,
        {
            let insns_b = seqs.remove(0);
            let succ_b = succs.remove(0);
            let pred_b = preds.remove(0);
            blocks.push(BasicBlock { id: b, insns: insns_b, predecessors: pred_b, successors: succ_b });
            b = b + 1;
            proof {
                assert(seqs@ =~= seqs0.subrange(b as int, n as int));
                assert(succs@ =~= succs0.subrange(b as int, n as int));
                assert(preds@ =~= preds0.subrange(b as int, n as int));
            }
        }
        let g = Graph { entry: vec![NodeId::BasicBlock(0)], blocks, exit };
        proof {
            assert(g.block_seqs() =~= bs) by {
                assert forall|k: int| 0 <= k < n implies g.block_seqs()[k] == bs[k] by {
                    assert(seqs0.map_values(|v: Vec<Insn>| v@)[k] == bs[k]);
                }
            }
            assert(g.entry@.to_set() =~= set![NodeId::BasicBlock(0)]);
            assert forall|t: int, d: int| 0 <= t < n && 0 <= d < n
                && (#[trigger] g.blocks@[d]).successors@.contains(NodeId::BasicBlock(t as usize))
                implies (#[trigger] g.blocks@[t]).predecessors@.contains(NodeId::BasicBlock(d as usize)) by {
                assert(succs0[d]@.to_set().contains(NodeId::BasicBlock(t as usize)));
                assert(preds0[t]@.to_set().contains(NodeId::BasicBlock(d as usize)));
            }
            assert forall|k: int| 0 <= k < n implies (#[trigger] g.blocks@[k]).successors@.to_set() == succs_of(bs, k)
                && g.blocks@[k].predecessors@.to_set() == preds_of(bs, k) by {
                assert(preds0[k]@.to_set() =~= preds_of(bs, k));
            }
            assert forall|k: int| 0 <= k < n implies (#[trigger] g.blocks@[k]).id == k && g.blocks@[k].insns@.len() > 0 by {
                assert(seqs0.map_values(|v: Vec<Insn>| v@)[k] == bs[k]);
            }
        }
        g
    }
}

/// The register an operand names, as a set.
pub open spec fn reg_set(o: Operand) -> Set<GeneralReg> {
    match GeneralReg::spec_from_operand(o) {
        Some(r) => set![r],
        None => Set::empty(),
    }
}

/// The registers a call may overwrite.
pub open spec fn caller_saved_set() -> Set<GeneralReg> {
    Set::new(|g: GeneralReg| g matches GeneralReg::Phys(r) && r.spec_is_caller_saved())
}

/// The argument register `a{i}`.
pub open spec fn arg_reg(i: int) -> GeneralReg {
    GeneralReg::Phys(spec_x(10 + i))
}

/// The first `k` argument registers.
pub open spec fn arg_set(k: nat) -> Set<GeneralReg> {
    Set::new(|g: GeneralReg| exists|i: int| 0 <= i < k && g == #[trigger] arg_reg(i))
}

/// The function context of a name is known.
pub open spec fn knows(cxs: Seq<(StrDescriptor, FuncContext)>, name: StrDescriptor) -> bool {
    keys_of(cxs).contains(name)
}

/// How many arguments a call passes in registers: at most eight.
pub open spec fn call_args(cxs: Seq<(StrDescriptor, FuncContext)>, name: StrDescriptor) -> nat {
    let n = cxs[cx_index(keys_of(cxs), name)].1.type_.param_types@.len();
    if n < 8 { n } else { 8 }
}

/// The registers live before an instruction, given those live after it:
/// what it writes is dead before it, what it reads is live. A call reads
/// its argument registers and overwrites every caller-saved register.
pub open spec fn step(after: Set<GeneralReg>, i: Insn, cxs: Seq<(StrDescriptor, FuncContext)>) -> Set<GeneralReg> {
    match i {
        Insn::Add(d, a, b) | Insn::Addw(d, a, b) | Insn::Sub(d, a, b) | Insn::Subw(d, a, b)
        | Insn::Mul(d, a, b) | Insn::Mulw(d, a, b) | Insn::Div(d, a, b) | Insn::Divw(d, a, b)
        | Insn::Rem(d, a, b) | Insn::Remw(d, a, b) | Insn::Slt(d, a, b) | Insn::Sgt(d, a, b) =>
            after.difference(reg_set(d)).union(reg_set(a)).union(reg_set(b)),
        Insn::Mv(d, a) | Insn::Neg(d, a) | Insn::Not(d, a) | Insn::Negw(d, a) | Insn::Sextw(d, a)
        | Insn::Seqz(d, a) | Insn::Snez(d, a) => after.difference(reg_set(d)).union(reg_set(a)),
        Insn::Beq(a, b, _) | Insn::Bne(a, b, _) => after.union(reg_set(a)).union(reg_set(b)),
        Insn::Ld(d, _) | Insn::Lw(d, _) | Insn::LoadStatic(d, _) => after.difference(reg_set(d)),
        Insn::Sd(a, _) | Insn::Sw(a, _) | Insn::StoreStatic(a, _) => after.union(reg_set(a)),
        Insn::Call(t) => after.difference(caller_saved_set()).union(arg_set(call_args(cxs, t))),
        _ => after,
    }
}

/// The registers live before a run of instructions, given those live after it.
pub open spec fn transfer(out: Set<GeneralReg>, insns: Seq<Insn>, cxs: Seq<(StrDescriptor, FuncContext)>) -> Set<GeneralReg>
    decreases insns.len(),
{
    if insns.len() == 0 { out } else { transfer(step(out, insns.last(), cxs), insns.drop_last(), cxs) }
}

/// The registers live on leaving a block: those live into a successor, and
/// the return value register when the block leaves the function.
pub open spec fn meet(live: Seq<Set<GeneralReg>>, succs: Set<NodeId>) -> Set<GeneralReg> {
    Set::new(|r: GeneralReg| (succs.contains(NodeId::Exit) && r == GeneralReg::Phys(Register::A0))
        || exists|t: usize| t < live.len() && #[trigger] succs.contains(NodeId::BasicBlock(t)) && live[t as int].contains(r))
}

/// The registers live into block `b`, given those live into every block.
pub open spec fn flow(g: Graph, cxs: Seq<(StrDescriptor, FuncContext)>, live: Seq<Set<GeneralReg>>, b: int) -> Set<GeneralReg> {
    transfer(meet(live, g.blocks@[b].successors@.to_set()), g.blocks@[b].insns@, cxs)
}

/// Sets of live registers that the flow equations do not grow.
pub open spec fn is_post(g: Graph, cxs: Seq<(StrDescriptor, FuncContext)>, live: Seq<Set<GeneralReg>>) -> bool {
    live.len() == g.blocks@.len() && forall|b: int| 0 <= b < live.len() ==> flow(g, cxs, live, b).subset_of(#[trigger] live[b])
}

/// A solution of the flow equations.
pub open spec fn is_solution(g: Graph, cxs: Seq<(StrDescriptor, FuncContext)>, live: Seq<Set<GeneralReg>>) -> bool {
    live.len() == g.blocks@.len() && forall|b: int| 0 <= b < live.len() ==> #[trigger] live[b] == flow(g, cxs, live, b)
}

/// The least solution: a solution contained, block by block, in every set
/// that the equations do not grow.
pub open spec fn is_least_solution(g: Graph, cxs: Seq<(StrDescriptor, FuncContext)>, live: Seq<Set<GeneralReg>>) -> bool {
    &&& is_solution(g, cxs, live)
    &&& forall|l: Seq<Set<GeneralReg>>| #[trigger] is_post(g, cxs, l) ==> forall|b: int| 0 <= b < live.len() ==> (#[trigger] live[b]).subset_of(l[b])
}

/// `a` is contained in `b`, block by block.
pub open spec fn below(a: Seq<Set<GeneralReg>>, b: Seq<Set<GeneralReg>>) -> bool {
    a.len() == b.len() && forall|k: int| 0 <= k < a.len() ==> (#[trigger] a[k]).subset_of(b[k])
}

proof fn lemma_step_mono(a: Set<GeneralReg>, b: Set<GeneralReg>, i: Insn, cxs: Seq<(StrDescriptor, FuncContext)>)
    requires a.subset_of(b),
    ensures step(a, i, cxs).subset_of(step(b, i, cxs)),
{
}

proof fn lemma_transfer_mono(a: Set<GeneralReg>, b: Set<GeneralReg>, insns: Seq<Insn>, cxs: Seq<(StrDescriptor, FuncContext)>)
    requires a.subset_of(b),
    ensures transfer(a, insns, cxs).subset_of(transfer(b, insns, cxs)),
    decreases insns.len(),
{
    if insns.len() > 0 {
        lemma_step_mono(a, b, insns.last(), cxs);
        lemma_transfer_mono(step(a, insns.last(), cxs), step(b, insns.last(), cxs), insns.drop_last(), cxs);
    }
}

proof fn lemma_flow_mono(g: Graph, cxs: Seq<(StrDescriptor, FuncContext)>, a: Seq<Set<GeneralReg>>, b: Seq<Set<GeneralReg>>, k: int)
    requires below(a, b), 0 <= k < g.blocks@.len(),
    ensures flow(g, cxs, a, k).subset_of(flow(g, cxs, b, k)),
{
    let succs = g.blocks@[k].successors@.to_set();
    assert(meet(a, succs).subset_of(meet(b, succs))) by {
        assert forall|r: GeneralReg| meet(a, succs).contains(r) implies meet(b, succs).contains(r) by {
            if !(succs.contains(NodeId::Exit) && r == GeneralReg::Phys(Register::A0)) {
                let t = choose|t: usize| t < a.len() && #[trigger] succs.contains(NodeId::BasicBlock(t)) && a[t as int].contains(r);
                assert(a[t as int].subset_of(b[t as int]));
            }
        }
    }
    lemma_transfer_mono(meet(a, succs), meet(b, succs), g.blocks@[k].insns@, cxs);
}

/// The flow into a block does not depend on blocks it does not lead to.
proof fn lemma_flow_frame(g: Graph, cxs: Seq<(StrDescriptor, FuncContext)>, live: Seq<Set<GeneralReg>>, t: int, s: Set<GeneralReg>, k: int)
    requires
        0 <= k < g.blocks@.len(), 0 <= t < live.len(),
        !g.blocks@[k].successors@.contains(NodeId::BasicBlock(t as usize)),
    ensures flow(g, cxs, live.update(t, s), k) == flow(g, cxs, live, k),
{
    let succs = g.blocks@[k].successors@.to_set();
    assert(meet(live.update(t, s), succs) =~= meet(live, succs)) by {
        assert forall|r: GeneralReg| meet(live.update(t, s), succs).contains(r) <==> meet(live, succs).contains(r) by {
            if meet(live.update(t, s), succs).contains(r) && !(succs.contains(NodeId::Exit) && r == GeneralReg::Phys(Register::A0)) {
                let u = choose|u: usize| u < live.len() && #[trigger] succs.contains(NodeId::BasicBlock(u)) && live.update(t, s)[u as int].contains(r);
                assert(u != t);
                assert(live[u as int].contains(r));
            }
            if meet(live, succs).contains(r) && !(succs.contains(NodeId::Exit) && r == GeneralReg::Phys(Register::A0)) {
                let u = choose|u: usize| u < live.len() && #[trigger] succs.contains(NodeId::BasicBlock(u)) && live[u as int].contains(r);
                assert(u != t);
                assert(live.update(t, s)[u as int].contains(r));
            }
        }
    }
}

/// The registers of a run of instructions, as a sequence.
pub open spec fn regs_seq(insns: Seq<Insn>) -> Seq<GeneralReg>
    decreases insns.len(),
{
    if insns.len() == 0 {
        Seq::empty()
    } else {
        let i = insns.last();
        let ops: Seq<Operand> = match i {
            Insn::Add(d, a, b) | Insn::Addw(d, a, b) | Insn::Sub(d, a, b) | Insn::Subw(d, a, b)
            | Insn::Mul(d, a, b) | Insn::Mulw(d, a, b) | Insn::Div(d, a, b) | Insn::Divw(d, a, b)
            | Insn::Rem(d, a, b) | Insn::Remw(d, a, b) | Insn::Slt(d, a, b) | Insn::Sgt(d, a, b) => seq![d, a, b],
            Insn::Mv(d, a) | Insn::Neg(d, a) | Insn::Not(d, a) | Insn::Negw(d, a) | Insn::Sextw(d, a)
            | Insn::Seqz(d, a) | Insn::Snez(d, a) | Insn::Beq(d, a, _) | Insn::Bne(d, a, _) => seq![d, a],
            Insn::Ld(d, _) | Insn::Lw(d, _) | Insn::LoadStatic(d, _) | Insn::Sd(d, _) | Insn::Sw(d, _) | Insn::StoreStatic(d, _) => seq![d],
            _ => Seq::empty(),
        };
        regs_seq(insns.drop_last()) + ops.map_values(|o: Operand| match GeneralReg::spec_from_operand(o) {
            Some(r) => r,
            None => GeneralReg::Phys(Register::A0),
        })
    }
}

/// Every register a block can make live: those it names, and the argument registers.
pub open spec fn block_bound(insns: Seq<Insn>) -> Set<GeneralReg> {
    regs_seq(insns).to_set().union(arg_set(8))
}

proof fn lemma_arg_set_sub(k: nat)
    requires k <= 8,
    ensures arg_set(k).subset_of(arg_set(8)),
{
}

proof fn lemma_transfer_bound(out: Set<GeneralReg>, insns: Seq<Insn>, cxs: Seq<(StrDescriptor, FuncContext)>)
    ensures transfer(out, insns, cxs).subset_of(out.union(block_bound(insns))),
    decreases insns.len(),
{
    if insns.len() > 0 {
        let i = insns.last();
        let rest = insns.drop_last();
        let st = step(out, i, cxs);
        lemma_transfer_bound(st, rest, cxs);
        assert(regs_seq(rest).to_set().subset_of(regs_seq(insns).to_set()));
        assert(st.subset_of(out.union(block_bound(insns)))) by {
            assert forall|r: GeneralReg| st.contains(r) implies out.union(block_bound(insns)).contains(r) by {
                if !out.contains(r) {
                    let ops_seq = regs_seq(insns);
                    let base = regs_seq(rest).len() as int;
                    match i {
                        Insn::Call(t) => {
                            lemma_arg_set_sub(call_args(cxs, t));
                        },
                        Insn::Add(d, a, b) | Insn::Addw(d, a, b) | Insn::Sub(d, a, b) | Insn::Subw(d, a, b)
                        | Insn::Mul(d, a, b) | Insn::Mulw(d, a, b) | Insn::Div(d, a, b) | Insn::Divw(d, a, b)
                        | Insn::Rem(d, a, b) | Insn::Remw(d, a, b) | Insn::Slt(d, a, b) | Insn::Sgt(d, a, b) => {
                            if reg_set(a).contains(r) { assert(ops_seq[base + 1] == r); }
                            if reg_set(b).contains(r) { assert(ops_seq[base + 2] == r); }
                        },
                        Insn::Mv(d, a) | Insn::Neg(d, a) | Insn::Not(d, a) | Insn::Negw(d, a) | Insn::Sextw(d, a)
                        | Insn::Seqz(d, a) | Insn::Snez(d, a) => {
                            if reg_set(a).contains(r) { assert(ops_seq[base + 1] == r); }
                        },
                        Insn::Beq(a, b, _) | Insn::Bne(a, b, _) => {
                            if reg_set(a).contains(r) { assert(ops_seq[base] == r); }
                            if reg_set(b).contains(r) { assert(ops_seq[base + 1] == r); }
                        },
                        Insn::Sd(a, _) | Insn::Sw(a, _) | Insn::StoreStatic(a, _) => {
                            if reg_set(a).contains(r) { assert(ops_seq[base] == r); }
                        },
                        _ => {},
                    }
                }
            }
        }
        assert(block_bound(rest).subset_of(block_bound(insns)));
    }
}

/// The sets of a vector of live register sets.
pub open spec fn live_view(v: Seq<LiveReg>) -> Seq<Set<GeneralReg>> {
    v.map_values(|l: LiveReg| l@)
}

/// The registers of every block, in order.
pub open spec fn graph_regs(blocks: Seq<BasicBlock>) -> Seq<GeneralReg>
    decreases blocks.len(),
{
    if blocks.len() == 0 { Seq::empty() } else { graph_regs(blocks.drop_last()) + regs_seq(blocks.last().insns@) }
}

/// Every register the analysis of a graph can find live.
pub open spec fn universe(g: Graph) -> Set<GeneralReg> {
    (graph_regs(g.blocks@) + Seq::new(8, |i: int| arg_reg(i))).to_set()
}

pub proof fn lemma_graph_regs(blocks: Seq<BasicBlock>, b: int)
    requires 0 <= b < blocks.len(),
    ensures regs_seq(blocks[b].insns@).to_set().subset_of(graph_regs(blocks).to_set()),
    decreases blocks.len(),
{
    if b < blocks.len() - 1 {
        lemma_graph_regs(blocks.drop_last(), b);
        assert(graph_regs(blocks.drop_last()).to_set().subset_of(graph_regs(blocks).to_set()));
    } else {
        assert forall|r: GeneralReg| regs_seq(blocks[b].insns@).to_set().contains(r) implies graph_regs(blocks).to_set().contains(r) by {
            let j = choose|j: int| 0 <= j < regs_seq(blocks[b].insns@).len() && regs_seq(blocks[b].insns@)[j] == r;
            assert(graph_regs(blocks)[graph_regs(blocks.drop_last()).len() + j] == r);
        }
    }
}

pub proof fn lemma_universe(g: Graph, b: int)
    requires 0 <= b < g.blocks@.len(),
    ensures
        universe(g).finite(),
        block_bound(g.blocks@[b].insns@).subset_of(universe(g)),
        universe(g).contains(GeneralReg::Phys(Register::A0)),
{
    let tail = Seq::new(8, |i: int| arg_reg(i));
    let all = graph_regs(g.blocks@) + tail;
    lemma_graph_regs(g.blocks@, b);
    assert forall|r: GeneralReg| block_bound(g.blocks@[b].insns@).contains(r) implies universe(g).contains(r) by {
        if regs_seq(g.blocks@[b].insns@).to_set().contains(r) {
            let j = choose|j: int| 0 <= j < graph_regs(g.blocks@).len() && graph_regs(g.blocks@)[j] == r;
            assert(all[j] == r);
        } else {
            let i = choose|i: int| 0 <= i < 8 && r == #[trigger] arg_reg(i);
            assert(all[graph_regs(g.blocks@).len() + i] == r);
        }
    }
    assert(all[graph_regs(g.blocks@).len() as int] == arg_reg(0));
}

/// The flow into a block stays within the universe when the live sets do.
proof fn lemma_flow_bound(g: Graph, cxs: Seq<(StrDescriptor, FuncContext)>, live: Seq<Set<GeneralReg>>, b: int)
    requires
        0 <= b < g.blocks@.len(),
        forall|t: int| 0 <= t < live.len() ==> (#[trigger] live[t]).subset_of(universe(g)),
    ensures flow(g, cxs, live, b).subset_of(universe(g)),
{
    lemma_universe(g, b);
    let m = meet(live, g.blocks@[b].successors@.to_set());
    assert(m.subset_of(universe(g))) by {
        assert forall|r: GeneralReg| m.contains(r) implies universe(g).contains(r) by {
            if !(r == GeneralReg::Phys(Register::A0)) {
                let t = choose|t: usize| t < live.len() && #[trigger] g.blocks@[b].successors@.to_set().contains(NodeId::BasicBlock(t)) && live[t as int].contains(r);
                assert(live[t as int].subset_of(universe(g)));
            }
        }
    }
    lemma_transfer_bound(m, g.blocks@[b].insns@, cxs);
}

/// How many registers of the universe the live sets lack, summed.
pub open spec fn missing(live: Seq<Set<GeneralReg>>, u: nat) -> int
    decreases live.len(),
{
    if live.len() == 0 { 0 } else { missing(live.drop_last(), u) + (u - live.last().len()) }
}

proof fn lemma_missing_update(live: Seq<Set<GeneralReg>>, u: nat, t: int, s: Set<GeneralReg>)
    requires 0 <= t < live.len(),
    ensures missing(live.update(t, s), u) == missing(live, u) - (s.len() - live[t].len()),
    decreases live.len(),
{
    if t < live.len() - 1 {
        lemma_missing_update(live.drop_last(), u, t, s);
        assert(live.update(t, s).drop_last() =~= live.drop_last().update(t, s));
    } else {
        assert(live.update(t, s).drop_last() =~= live.drop_last());
    }
}

proof fn lemma_missing_nonneg(live: Seq<Set<GeneralReg>>, u: Set<GeneralReg>)
    requires u.finite(), forall|t: int| 0 <= t < live.len() ==> (#[trigger] live[t]).subset_of(u),
    ensures missing(live, u.len()) >= 0,
    decreases live.len(),
{
    if live.len() > 0 {
        lemma_missing_nonneg(live.drop_last(), u);
        lemma_len_subset(live.last(), u);
    }
}

/// The live sets after an instruction, for each instruction of a block.
pub open spec fn insn_outs(out: Set<GeneralReg>, insns: Seq<Insn>, cxs: Seq<(StrDescriptor, FuncContext)>) -> Seq<Set<GeneralReg>> {
    Seq::new(insns.len(), |k: int| transfer(out, insns.subrange(k + 1, insns.len() as int), cxs))
}

proof fn lemma_transfer_front(out: Set<GeneralReg>, insns: Seq<Insn>, cxs: Seq<(StrDescriptor, FuncContext)>, k: int)
    requires 0 <= k < insns.len(),
    ensures transfer(out, insns.subrange(k, insns.len() as int), cxs)
        == step(transfer(out, insns.subrange(k + 1, insns.len() as int), cxs), insns[k], cxs),
    decreases insns.len() - k,
{
    let s = insns.subrange(k, insns.len() as int);
    if k == insns.len() - 1 {
        assert(s.drop_last() =~= Seq::<Insn>::empty());
        assert(s.last() == insns[k]);
        assert(insns.subrange(k + 1, insns.len() as int) =~= Seq::<Insn>::empty());
        assert(transfer(step(out, insns[k], cxs), s.drop_last(), cxs) == step(out, insns[k], cxs));
        assert(transfer(out, insns.subrange(k + 1, insns.len() as int), cxs) == out);
    } else {
        let d = insns.drop_last();
        lemma_transfer_front(step(out, insns.last(), cxs), d, cxs, k);
        assert(s.drop_last() =~= d.subrange(k, d.len() as int));
        assert(insns.subrange(k + 1, insns.len() as int).drop_last() =~= d.subrange(k + 1, d.len() as int));
        assert(s.last() == insns.last());
        assert(d[k] == insns[k]);
        assert(insns.subrange(k + 1, insns.len() as int).last() == insns.last());
    }
}

/// An instruction the analysis handles: none of those that only later
/// stages make, memory operands where memory is accessed, and calls to
/// functions with a known context.
pub open spec fn insn_analyzable(i: Insn, cxs: Seq<(StrDescriptor, FuncContext)>) -> bool {
    match i {
        Insn::Ret | Insn::Addi(..) | Insn::Addiw(..) | Insn::La(..) | Insn::Li(..) => false,
        Insn::Ld(_, m) | Insn::Lw(_, m) | Insn::Sd(_, m) | Insn::Sw(_, m) => m is Mem,
        Insn::Call(t) => knows(cxs, t),
        _ => true,
    }
}

/// A graph the analysis handles.
pub open spec fn analyzable(g: Graph, cxs: Seq<(StrDescriptor, FuncContext)>) -> bool {
    &&& g.wf()
    &&& forall|b: int, k: int| 0 <= b < g.blocks@.len() && 0 <= k < g.blocks@[b].insns@.len()
        ==> insn_analyzable(#[trigger] g.blocks@[b].insns@[k], cxs)
    &&& forall|b: int, k: int| 0 <= b < g.blocks@.len() && 0 <= k < g.blocks@[b].predecessors@.len()
        ==> ((#[trigger] g.blocks@[b].predecessors@[k]) matches NodeId::BasicBlock(c) ==> c < g.blocks@.len())
}

/// The result of the analysis: the registers live into each block, and
/// those live after each instruction.
#[derive(Debug)]
pub struct AnalyzeResult {
    pub block_infos: Vec<LiveReg>,
    pub insn_infos: Vec<Vec<LiveReg>>,
}

/// Backward liveness over a graph, by a worklist.
#[derive(Debug)]
pub struct LiveAnalysis<'a> {
    pub cfg: &'a Graph,
    pub func_cxs: &'a Vec<(StrDescriptor, FuncContext)>,
    pub block_infos: Vec<LiveReg>,
    pub insn_infos: Vec<Vec<LiveReg>>,
}

/// How many arguments a call passes in registers.
fn call_arg_count(cxs: &Vec<(StrDescriptor, FuncContext)>, target: StrDescriptor) -> (r: usize)
    requires knows(cxs@, target),
    ensures r == call_args(cxs@, target),
{
    let mut i: usize = 0;
    while i < cxs.len()
        invariant i <= cxs@.len(), knows(cxs@, target), forall|j: int| 0 <= j < i ==> cxs@[j].0 != target,
        decreases cxs@.len() - i,
    {
        if cxs[i].0 == target {
            proof { lemma_cx_index(cxs@, target, i as int); }
            let n = cxs[i].1.type_.param_types.len();
            return if n < 8 { n } else { 8 };
        }
        i = i + 1;
    }
    proof {
        let j = choose|j: int| 0 <= j < keys_of(cxs@).len() && keys_of(cxs@)[j] == target;
        assert(cxs@[j].0 == target);
    }
    0
}

/// Applies one instruction backwards to the set of live registers.
fn step_exec(cur: &mut LiveReg, insn: Insn, cxs: &Vec<(StrDescriptor, FuncContext)>)
    requires old(cur).wf(), insn_analyzable(insn, cxs@),
    ensures final(cur).wf(), final(cur)@ == step(old(cur)@, insn, cxs@),
{
    let ghost s0 = cur@;
    match insn {
        Insn::Add(d, a, b) | Insn::Addw(d, a, b) | Insn::Sub(d, a, b) | Insn::Subw(d, a, b)
        | Insn::Mul(d, a, b) | Insn::Mulw(d, a, b) | Insn::Div(d, a, b) | Insn::Divw(d, a, b)
        | Insn::Rem(d, a, b) | Insn::Remw(d, a, b) | Insn::Slt(d, a, b) | Insn::Sgt(d, a, b) => {
            if let Some(r) = GeneralReg::from_operand(d) { cur.remove(r); }
            let ghost s1 = cur@;
            if let Some(r) = GeneralReg::from_operand(a) { cur.add(r); }
            let ghost s2 = cur@;
            if let Some(r) = GeneralReg::from_operand(b) { cur.add(r); }
            proof {
                assert(s1 =~= s0.difference(reg_set(d)));
                assert(s2 =~= s1.union(reg_set(a)));
                assert(cur@ =~= s2.union(reg_set(b)));
            }
        },
        Insn::Mv(d, a) | Insn::Neg(d, a) | Insn::Not(d, a) | Insn::Negw(d, a) | Insn::Sextw(d, a)
        | Insn::Seqz(d, a) | Insn::Snez(d, a) => {
            if let Some(r) = GeneralReg::from_operand(d) { cur.remove(r); }
            let ghost s1 = cur@;
            if let Some(r) = GeneralReg::from_operand(a) { cur.add(r); }
            proof {
                assert(s1 =~= s0.difference(reg_set(d)));
                assert(cur@ =~= s1.union(reg_set(a)));
            }
        },
        Insn::Beq(a, b, _) | Insn::Bne(a, b, _) => {
            if let Some(r) = GeneralReg::from_operand(a) { cur.add(r); }
            let ghost s1 = cur@;
            if let Some(r) = GeneralReg::from_operand(b) { cur.add(r); }
            proof {
                assert(s1 =~= s0.union(reg_set(a)));
                assert(cur@ =~= s1.union(reg_set(b)));
            }
        },
        Insn::Ld(d, _) | Insn::Lw(d, _) | Insn::LoadStatic(d, _) => {
            if let Some(r) = GeneralReg::from_operand(d) { cur.remove(r); }
            proof { assert(cur@ =~= s0.difference(reg_set(d))); }
        },
        Insn::Sd(a, _) | Insn::Sw(a, _) | Insn::StoreStatic(a, _) => {
            if let Some(r) = GeneralReg::from_operand(a) { cur.add(r); }
            proof { assert(cur@ =~= s0.union(reg_set(a))); }
        },
        Insn::Call(t) => {
            cur.remove(GeneralReg::Phys(Register::Ra));
            cur.remove(GeneralReg::Phys(Register::T0));
            cur.remove(GeneralReg::Phys(Register::T1));
            cur.remove(GeneralReg::Phys(Register::T2));
            cur.remove(GeneralReg::Phys(Register::A0));
            cur.remove(GeneralReg::Phys(Register::A1));
            cur.remove(GeneralReg::Phys(Register::A2));
            cur.remove(GeneralReg::Phys(Register::A3));
            cur.remove(GeneralReg::Phys(Register::A4));
            cur.remove(GeneralReg::Phys(Register::A5));
            cur.remove(GeneralReg::Phys(Register::A6));
            cur.remove(GeneralReg::Phys(Register::A7));
            cur.remove(GeneralReg::Phys(Register::T3));
            cur.remove(GeneralReg::Phys(Register::T4));
            cur.remove(GeneralReg::Phys(Register::T5));
            cur.remove(GeneralReg::Phys(Register::T6));
            let ghost s1 = cur@;
            proof { assert(s1 =~= s0.difference(caller_saved_set())); }
            let k = call_arg_count(cxs, t);
            let mut i: usize = 0;
            while i < k
                invariant i <= k, k <= 8, cur.wf(), cur@ == s1.union(arg_set(i as nat)),
                decreases k - i,
            {
                let ghost c0 = cur@;
                cur.add(GeneralReg::Phys(Register::a(i)));
                proof {
                    assert(arg_set((i + 1) as nat) =~= arg_set(i as nat).insert(arg_reg(i as int)));
                    assert(cur@ =~= s1.union(arg_set((i + 1) as nat)));
                }
                i = i + 1;
            }
        },
        _ => {},
    }
}

impl<'a> LiveAnalysis<'a> {
    pub fn new(cfg: &'a Graph, func_cxs: &'a Vec<(StrDescriptor, FuncContext)>) -> (r: Self)
        ensures r.cfg == cfg, r.func_cxs == func_cxs, r.block_infos@.len() == 0, r.insn_infos@.len() == 0,
    {
        LiveAnalysis { cfg, func_cxs, block_infos: Vec::new(), insn_infos: Vec::new() }
    }

    /// The registers live on leaving block `b`, under the current sets.
    fn meet(&self, b: usize) -> (r: LiveReg)
        requires
            b < self.cfg.blocks@.len(),
            self.cfg.wf(),
            self.block_infos@.len() == self.cfg.blocks@.len(),
            forall|t: int| 0 <= t < self.block_infos@.len() ==> (#[trigger] self.block_infos@[t]).wf(),
        ensures r.wf(), r@ == meet(live_view(self.block_infos@), self.cfg.blocks@[b as int].successors@.to_set()),
    {
        let succs = &self.cfg.blocks[b].successors;
        let ghost live = live_view(self.block_infos@);
        let mut r = LiveReg::new();
        let mut j: usize = 0;
        while j < succs.len()
            invariant
                j <= succs@.len(), succs == &self.cfg.blocks@[b as int].successors, b < self.cfg.blocks@.len(),
                self.cfg.wf(), self.block_infos@.len() == self.cfg.blocks@.len(),
                live == live_view(self.block_infos@),
                forall|t: int| 0 <= t < self.block_infos@.len() ==> (#[trigger] self.block_infos@[t]).wf(),
                r.wf(), r@ == meet(live, succs@.subrange(0, j as int).to_set()),
            decreases succs@.len() - j,
        {
            let ghost r0 = r@;
            let s = succs[j];
            proof { assert(succs@.subrange(0, j as int + 1).to_set() =~= succs@.subrange(0, j as int).to_set().insert(s)); }
            match s {
                NodeId::Exit => {
                    r.add(GeneralReg::Phys(Register::A0));
                    proof {
                        assert(r@ =~= meet(live, succs@.subrange(0, j as int + 1).to_set())) by {
                            let old_s = succs@.subrange(0, j as int).to_set();
                            let new_s = succs@.subrange(0, j as int + 1).to_set();
                            assert forall|g: GeneralReg| r@.contains(g) <==> meet(live, new_s).contains(g) by {
                                if meet(live, new_s).contains(g) && !(new_s.contains(NodeId::Exit) && g == GeneralReg::Phys(Register::A0)) {
                                    let t = choose|t: usize| t < live.len() && #[trigger] new_s.contains(NodeId::BasicBlock(t)) && live[t as int].contains(g);
                                    assert(old_s.contains(NodeId::BasicBlock(t)));
                                }
                                if r0.contains(g) && !(old_s.contains(NodeId::Exit) && g == GeneralReg::Phys(Register::A0)) {
                                    let t = choose|t: usize| t < live.len() && #[trigger] old_s.contains(NodeId::BasicBlock(t)) && live[t as int].contains(g);
                                    assert(new_s.contains(NodeId::BasicBlock(t)));
                                }
                            }
                        }
                    }
                },
                NodeId::BasicBlock(t) => {
                    proof { assert(succs@[j as int] == s); }
                    r.union_with(&self.block_infos[t]);
                    proof {
                        assert(live[t as int] == self.block_infos@[t as int]@);
                        assert(r@ =~= meet(live, succs@.subrange(0, j as int + 1).to_set())) by {
                            let old_s = succs@.subrange(0, j as int).to_set();
                            let new_s = succs@.subrange(0, j as int + 1).to_set();
                            assert forall|g: GeneralReg| r@.contains(g) <==> meet(live, new_s).contains(g) by {
                                if meet(live, new_s).contains(g) && !(new_s.contains(NodeId::Exit) && g == GeneralReg::Phys(Register::A0)) {
                                    let u = choose|u: usize| u < live.len() && #[trigger] new_s.contains(NodeId::BasicBlock(u)) && live[u as int].contains(g);
                                    if u != t { assert(old_s.contains(NodeId::BasicBlock(u))); }
                                }
                                if r0.contains(g) && !(old_s.contains(NodeId::Exit) && g == GeneralReg::Phys(Register::A0)) {
                                    let u = choose|u: usize| u < live.len() && #[trigger] old_s.contains(NodeId::BasicBlock(u)) && live[u as int].contains(g);
                                    assert(new_s.contains(NodeId::BasicBlock(u)));
                                }
                                if self.block_infos@[t as int]@.contains(g) {
                                    assert(new_s.contains(NodeId::BasicBlock(t)));
                                }
                            }
                        }
                    }
                },
                NodeId::Entry => {
                    proof { assert(succs@[j as int] == s); }
                },
            }
            j = j + 1;
        }
        proof { assert(succs@.subrange(0, j as int) =~= succs@); }
        r
    }
}

/// What the worklist keeps between steps: every set within the universe and
/// below what the equations give it, and below every set they do not grow.
pub open spec fn live_inv(g: Graph, cxs: Seq<(StrDescriptor, FuncContext)>, live: Seq<Set<GeneralReg>>) -> bool {
    &&& live.len() == g.blocks@.len()
    &&& forall|t: int| 0 <= t < live.len() ==> (#[trigger] live[t]).subset_of(universe(g))
    &&& forall|t: int| 0 <= t < live.len() ==> (#[trigger] live[t]).subset_of(flow(g, cxs, live, t))
    &&& forall|l: Seq<Set<GeneralReg>>| #[trigger] is_post(g, cxs, l) ==> below(live, l)
}

/// Replacing the set of block `b` by what the equations give it keeps the invariant.
proof fn lemma_live_inv_update(g: Graph, cxs: Seq<(StrDescriptor, FuncContext)>, live: Seq<Set<GeneralReg>>, b: int)
    requires live_inv(g, cxs, live), 0 <= b < live.len(),
    ensures
        live_inv(g, cxs, live.update(b, flow(g, cxs, live, b))),
        below(live, live.update(b, flow(g, cxs, live, b))),
        live[b].subset_of(flow(g, cxs, live, b)),
        flow(g, cxs, live, b).subset_of(universe(g)),
{
    let new = flow(g, cxs, live, b);
    let live2 = live.update(b, new);
    lemma_flow_bound(g, cxs, live, b);
    assert(below(live, live2));
    assert forall|t: int| 0 <= t < live2.len() implies (#[trigger] live2[t]).subset_of(flow(g, cxs, live2, t)) by {
        lemma_flow_mono(g, cxs, live, live2, t);
    }
    assert forall|l: Seq<Set<GeneralReg>>| #[trigger] is_post(g, cxs, l) implies below(live2, l) by {
        assert(below(live, l));
        lemma_flow_mono(g, cxs, live, l, b);
        assert(flow(g, cxs, l, b).subset_of(l[b]));
    }
}

/// Whether `x` is in `v`.
fn holds_usize(v: &Vec<usize>, x: usize) -> (r: bool)
    ensures r == v@.contains(x),
{
    let mut i: usize = 0;
    while i < v.len()
        invariant i <= v@.len(), forall|j: int| 0 <= j < i ==> v@[j] != x,
        decreases v@.len() - i,
    {
        if v[i] == x {
            return true;
        }
        i = i + 1;
    }
    false
}

impl<'a> LiveAnalysis<'a> {
    /// The registers live into block `b` from those live out of it, and the
    /// registers live after each of its instructions.
    fn transfer(&self, initial: &LiveReg, b: usize) -> (r: (LiveReg, Vec<LiveReg>))
        requires b < self.cfg.blocks@.len(), analyzable(*self.cfg, self.func_cxs@), initial.wf(),
        ensures
            r.0.wf(),
            r.0@ == transfer(initial@, self.cfg.blocks@[b as int].insns@, self.func_cxs@),
            live_view(r.1@) == insn_outs(initial@, self.cfg.blocks@[b as int].insns@, self.func_cxs@),
            forall|k: int| 0 <= k < r.1@.len() ==> (#[trigger] r.1@[k]).wf(),
    {
        let insns = &self.cfg.blocks[b].insns;
        let ghost cxs = self.func_cxs@;
        let ghost out = initial@;
        let n = insns.len();
        let mut cur = initial.copy();
        let mut rev: Vec<LiveReg> = Vec::new();
        let mut k: usize = n;
        proof { assert(insns@.subrange(n as int, n as int) =~= Seq::<Insn>::empty()); }
        while k > 0
            invariant
                k <= n, n == insns@.len(), insns == &self.cfg.blocks@[b as int].insns, b < self.cfg.blocks@.len(),
                analyzable(*self.cfg, self.func_cxs@), cxs == self.func_cxs@,
                cur.wf(), cur@ == transfer(out, insns@.subrange(k as int, n as int), cxs),
                rev@.len() == n - k,
                forall|j: int| 0 <= j < rev@.len() ==> (#[trigger] rev@[j]).wf()
                    && rev@[j]@ == transfer(out, insns@.subrange(n - j, n as int), cxs),
            decreases k,
        {
            rev.push(cur.copy());
            proof { assert(insn_analyzable(self.cfg.blocks@[b as int].insns@[k - 1], cxs)); }
            step_exec(&mut cur, insns[k - 1], self.func_cxs);
            proof { lemma_transfer_front(out, insns@, cxs, k - 1); }
            k = k - 1;
        }
        let mut outs: Vec<LiveReg> = Vec::new();
        let ghost rev0 = rev@;
        while rev.len() > 0
            invariant
                rev0.len() == n, rev@ == rev0.subrange(0, rev@.len() as int),
                outs@.len() + rev@.len() == n,
                forall|j: int| 0 <= j < rev0.len() ==> (#[trigger] rev0[j]).wf()
                    && rev0[j]@ == transfer(out, insns@.subrange(n - j, n as int), cxs),
                forall|i: int| 0 <= i < outs@.len() ==> (#[trigger] outs@[i]).wf()
                    && outs@[i]@ == transfer(out, insns@.subrange(i + 1, n as int), cxs),
            decreases rev@.len(),
        {
            let ghost len0 = rev@.len();
            match rev.pop() {
                Some(x) => {
                    proof { assert(x == rev0[len0 - 1]); }
                    outs.push(x);
                },
                None => {},
            }
            proof { assert(rev@ =~= rev0.subrange(0, rev@.len() as int)); }
        }
        proof {
            assert(insns@.subrange(0, n as int) =~= insns@);
            assert(live_view(outs@) =~= insn_outs(out, insns@, cxs));
        }
        (cur, outs)
    }

    /// Runs the worklist from the last block to the first until no set changes.
    #[verifier::rlimit(80)]
    fn iterate(&mut self)
        requires
            analyzable(*old(self).cfg, old(self).func_cxs@),
            old(self).block_infos@.len() == old(self).cfg.blocks@.len(),
            forall|t: int| 0 <= t < old(self).block_infos@.len() ==> (#[trigger] old(self).block_infos@[t]).wf(),
            live_inv(*old(self).cfg, old(self).func_cxs@, live_view(old(self).block_infos@)),
        ensures
            final(self).cfg == old(self).cfg, final(self).func_cxs == old(self).func_cxs,
            final(self).insn_infos == old(self).insn_infos,
            final(self).block_infos@.len() == old(self).block_infos@.len(),
            forall|t: int| 0 <= t < final(self).block_infos@.len() ==> (#[trigger] final(self).block_infos@[t]).wf(),
            is_least_solution(*final(self).cfg, final(self).func_cxs@, live_view(final(self).block_infos@)),
    {
        let ghost g = *self.cfg;
        let ghost cxs = self.func_cxs@;
        let n = self.cfg.blocks.len();
        let mut j: usize = n;
        while j > 0
            invariant
                j <= n, n == g.blocks@.len(), g == *self.cfg, cxs == self.func_cxs@,
                self.cfg == old(self).cfg, self.func_cxs == old(self).func_cxs, self.insn_infos == old(self).insn_infos,
                analyzable(g, cxs),
                self.block_infos@.len() == n,
                forall|t: int| 0 <= t < self.block_infos@.len() ==> (#[trigger] self.block_infos@[t]).wf(),
                live_inv(g, cxs, live_view(self.block_infos@)),
                forall|c: int| j <= c < n ==> #[trigger] live_view(self.block_infos@)[c] == flow(g, cxs, live_view(self.block_infos@), c),
            decreases j,
        {
            j = j - 1;
            let mut wl: Vec<usize> = Vec::new();
            wl.push(j);
            while wl.len() > 0
                invariant
                    j < n, n == g.blocks@.len(), g == *self.cfg, cxs == self.func_cxs@,
                    self.cfg == old(self).cfg, self.func_cxs == old(self).func_cxs, self.insn_infos == old(self).insn_infos,
                    analyzable(g, cxs),
                    self.block_infos@.len() == n,
                    forall|t: int| 0 <= t < self.block_infos@.len() ==> (#[trigger] self.block_infos@[t]).wf(),
                    live_inv(g, cxs, live_view(self.block_infos@)),
                    wl@.no_duplicates(),
                    forall|i: int| 0 <= i < wl@.len() ==> #[trigger] wl@[i] < n,
                    forall|c: int| j <= c < n && !wl@.contains(c as usize) ==>
                        #[trigger] live_view(self.block_infos@)[c] == flow(g, cxs, live_view(self.block_infos@), c),
                decreases missing(live_view(self.block_infos@), universe(g).len()), wl@.len(),
            {
                let ghost live = live_view(self.block_infos@);
                let ghost wl0 = wl@;
                proof {
                    lemma_universe(g, 0);
                    lemma_missing_nonneg(live, universe(g));
                }
                let b = wl.remove(0);
                proof { assert(wl0[0] == b); }
                let initial = self.meet(b);
                let (cur, _outs) = self.transfer(&initial, b);
                let ghost new = flow(g, cxs, live, b as int);
                proof {
                    assert(cur@ == new);
                    lemma_live_inv_update(g, cxs, live, b as int);
                }
                let changed = self.block_infos[b].diff_with(&cur);
                proof { assert(self.block_infos@[b as int]@ == live[b as int]); }
                self.block_infos.set(b, cur);
                let ghost live2 = live_view(self.block_infos@);
                proof {
                    assert(live2 =~= live.update(b as int, new));
                    if changed {
                        lemma_universe(g, b as int);
                        lemma_len_subset(new, universe(g));
                        lemma_len_subset(live[b as int], new);
                        if live[b as int].len() == new.len() {
                            lemma_subset_equality(live[b as int], new);
                        }
                        lemma_missing_update(live, universe(g).len(), b as int, new);
                        lemma_missing_nonneg(live2, universe(g));
                    } else {
                        assert(live2 =~= live);
                    }
                }
                if changed {
                    let preds = &self.cfg.blocks[b].predecessors;
                    let ghost wl1 = wl@;
                    let mut k: usize = 0;
                    while k < preds.len()
                        invariant
                            k <= preds@.len(), preds == &g.blocks@[b as int].predecessors, b < n, n == g.blocks@.len(),
                            analyzable(g, cxs),
                            wl@.no_duplicates(),
                            forall|i: int| 0 <= i < wl@.len() ==> #[trigger] wl@[i] < n,
                            forall|x: usize| #[trigger] wl1.contains(x) ==> wl@.contains(x),
                            forall|i: int| 0 <= i < k ==> (#[trigger] preds@[i] matches NodeId::BasicBlock(c) ==> wl@.contains(c)),
                        decreases preds@.len() - k,
                    {
                        match preds[k] {
                            NodeId::BasicBlock(c) => {
                                proof { assert(g.blocks@[b as int].predecessors@[k as int] == NodeId::BasicBlock(c)); }
                                if !holds_usize(&wl, c) {
                                    let ghost w = wl@;
                                    wl.push(c);
                                    proof {
                                        assert forall|x: int, y: int| 0 <= x < y < wl@.len() implies wl@[x] != wl@[y] by {
                                            if y == w.len() { assert(w.contains(w[x])); }
                                        }
                                        assert forall|x: usize| #[trigger] wl1.contains(x) implies wl@.contains(x) by {
                                            assert(w.contains(x));
                                            let i = choose|i: int| 0 <= i < w.len() && w[i] == x;
                                            assert(wl@[i] == x);
                                        }
                                        assert forall|i: int| 0 <= i < k + 1 implies (#[trigger] preds@[i] matches NodeId::BasicBlock(d) ==> wl@.contains(d)) by {
                                            if i < k {
                                                if let NodeId::BasicBlock(d) = preds@[i] {
                                                    assert(w.contains(d));
                                                    let m = choose|m: int| 0 <= m < w.len() && w[m] == d;
                                                    assert(wl@[m] == d);
                                                }
                                            } else {
                                                assert(wl@[w.len() as int] == c);
                                            }
                                        }
                                    }
                                }
                            },
                            _ => {},
                        }
                        k = k + 1;
                    }
                    proof {
                        assert forall|c: int| j <= c < n && !wl@.contains(c as usize) implies
                            #[trigger] live2[c] == flow(g, cxs, live2, c) by {
                            if g.blocks@[c].successors@.contains(NodeId::BasicBlock(b)) {
                                assert(g.blocks@[b as int].predecessors@.contains(NodeId::BasicBlock(c as usize)));
                                let i = choose|i: int| 0 <= i < preds@.len() && preds@[i] == NodeId::BasicBlock(c as usize);
                                assert(false);
                            }
                            lemma_flow_frame(g, cxs, live, b as int, new, c);
                            if c != b {
                                if wl0.contains(c as usize) {
                                    let i = choose|i: int| 0 <= i < wl0.len() && wl0[i] == c as usize;
                                    assert(i != 0);
                                    assert(wl1[i - 1] == c as usize);
                                    assert(wl1.contains(c as usize));
                                }
                            }
                        }
                    }
                } else {
                    proof {
                        assert forall|c: int| j <= c < n && !wl@.contains(c as usize) implies
                            #[trigger] live2[c] == flow(g, cxs, live2, c) by {
                            if c != b {
                                if wl0.contains(c as usize) {
                                    let i = choose|i: int| 0 <= i < wl0.len() && wl0[i] == c as usize;
                                    assert(i != 0);
                                    assert(wl@[i - 1] == c as usize);
                                }
                            }
                        }
                    }
                }
            }
        }
        proof {
            let live = live_view(self.block_infos@);
            assert forall|l: Seq<Set<GeneralReg>>| #[trigger] is_post(g, cxs, l) implies
                forall|b: int| 0 <= b < live.len() ==> (#[trigger] live[b]).subset_of(l[b]) by {
                assert(below(live, l));
            }
        }
    }
}

/// What the analysis of a graph gives: the least solution of the flow
/// equations for the blocks, and from it the registers live after each instruction.
pub open spec fn analyzed(g: Graph, cxs: Seq<(StrDescriptor, FuncContext)>, r: AnalyzeResult) -> bool {
    let live = live_view(r.block_infos@);
    &&& is_least_solution(g, cxs, live)
    &&& forall|t: int| 0 <= t < r.block_infos@.len() ==> (#[trigger] r.block_infos@[t]).wf()
    &&& r.insn_infos@.len() == g.blocks@.len()
    &&& forall|b: int| 0 <= b < g.blocks@.len() ==> live_view((#[trigger] r.insn_infos@[b])@)
        == insn_outs(meet(live, g.blocks@[b].successors@.to_set()), g.blocks@[b].insns@, cxs)
    &&& forall|b: int, k: int| 0 <= b < g.blocks@.len() && 0 <= k < r.insn_infos@[b]@.len() ==> (#[trigger] r.insn_infos@[b]@[k]).wf()
}

impl<'a> LiveAnalysis<'a> {
    /// The least solution of the liveness equations of the graph.
    pub fn analyze(self) -> (r: AnalyzeResult)
        requires analyzable(*self.cfg, self.func_cxs@),
        ensures analyzed(*self.cfg, self.func_cxs@, r),
    {
        let mut this = self;
        let ghost g = *this.cfg;
        let ghost cxs = this.func_cxs@;
        let n = this.cfg.blocks.len();
        let mut infos: Vec<LiveReg> = Vec::new();
        let mut b: usize = 0;
        while b < n
            invariant
                b <= n, infos@.len() == b,
                forall|t: int| 0 <= t < b ==> (#[trigger] infos@[t]).wf() && infos@[t]@ == Set::<GeneralReg>::empty(),
            decreases n - b,
        {
            infos.push(LiveReg::new());
            b = b + 1;
        }
        this.block_infos = infos;
        proof {
            let live = live_view(this.block_infos@);
            assert forall|l: Seq<Set<GeneralReg>>| #[trigger] is_post(g, cxs, l) implies below(live, l) by {
                assert forall|k: int| 0 <= k < live.len() implies (#[trigger] live[k]).subset_of(l[k]) by {
                    assert(live[k] == this.block_infos@[k]@);
                }
            }
            assert forall|t: int| 0 <= t < live.len() implies (#[trigger] live[t]).subset_of(universe(g))
                && live[t].subset_of(flow(g, cxs, live, t)) by {
                assert(live[t] == this.block_infos@[t]@);
            }
        }
        this.iterate();
        let ghost live = live_view(this.block_infos@);
        let mut insn_infos: Vec<Vec<LiveReg>> = Vec::new();
        let mut b: usize = 0;
        while b < n
            invariant
                b <= n, n == g.blocks@.len(), g == *this.cfg, cxs == this.func_cxs@,
                analyzable(g, cxs),
                this.block_infos@.len() == n, live == live_view(this.block_infos@),
                forall|t: int| 0 <= t < this.block_infos@.len() ==> (#[trigger] this.block_infos@[t]).wf(),
                insn_infos@.len() == b,
                forall|c: int| 0 <= c < b ==> live_view((#[trigger] insn_infos@[c])@)
                    == insn_outs(meet(live, g.blocks@[c].successors@.to_set()), g.blocks@[c].insns@, cxs),
                forall|c: int, k: int| 0 <= c < b && 0 <= k < insn_infos@[c]@.len() ==> (#[trigger] insn_infos@[c]@[k]).wf(),
            decreases n - b,
        {
            let initial = this.meet(b);
            let (_, outs) = this.transfer(&initial, b);
            insn_infos.push(outs);
            b = b + 1;
        }
        AnalyzeResult { block_infos: this.block_infos, insn_infos }
    }
}

/// The liveness of the registers of a graph.
pub fn analysis(cfg: &Graph, func_cxs: &Vec<(StrDescriptor, FuncContext)>) -> (r: AnalyzeResult)
    requires analyzable(*cfg, func_cxs@),
    ensures analyzed(*cfg, func_cxs@, r),
{
    let live_analysis = LiveAnalysis::new(cfg, func_cxs);
    live_analysis.analyze()
}

/// The instructions of the blocks, one block after the other.
pub open spec fn flatten(bs: Seq<Seq<Insn>>) -> Seq<Insn>
    decreases bs.len(),
{
    if bs.len() == 0 { Seq::empty() } else { flatten(bs.drop_last()) + bs.last() }
}

proof fn lemma_part_flatten(insns: Seq<Insn>)
    ensures flatten(part(insns).0) + part(insns).1 == insns,
    decreases insns.len(),
{
    if insns.len() > 0 {
        let p = insns.drop_last();
        lemma_part_flatten(p);
        let (done, cur) = part(p);
        let i = insns.last();
        assert(insns =~= p.push(i));
        if i is Label {
            if cur.len() > 0 {
                assert(done.push(cur).drop_last() =~= done);
                assert(flatten(done.push(cur)) + seq![i] =~= flatten(done) + cur + seq![i]);
            } else {
                assert(flatten(done) + seq![i] =~= flatten(done) + cur + seq![i]);
            }
        } else if is_terminator(i) {
            assert(done.push(cur.push(i)).drop_last() =~= done);
            assert(flatten(done.push(cur.push(i))) + Seq::<Insn>::empty() =~= flatten(done) + cur + seq![i]);
        } else {
            assert(flatten(done) + cur.push(i) =~= flatten(done) + cur + seq![i]);
        }
    }
}

/// The blocks of a body hold its instructions, in order.
pub proof fn lemma_blocks_flatten(insns: Seq<Insn>)
    ensures flatten(blocks_of(insns)) == insns,
{
    lemma_part_flatten(insns);
    let (done, cur) = part(insns);
    if cur.len() > 0 {
        assert(done.push(cur).drop_last() =~= done);
    } else {
        assert(flatten(done) + cur =~= flatten(done));
    }
}

pub proof fn lemma_regs_seq_concat(a: Seq<Insn>, b: Seq<Insn>)
    ensures regs_seq(a + b) == regs_seq(a) + regs_seq(b),
    decreases b.len(),
{
    if b.len() == 0 {
        assert(a + b =~= a);
        assert(regs_seq(a) + regs_seq(b) =~= regs_seq(a));
    } else {
        lemma_regs_seq_concat(a, b.drop_last());
        assert((a + b).drop_last() =~= a + b.drop_last());
        assert((a + b).last() == b.last());
    }
}

proof fn lemma_graph_regs_flatten(blocks: Seq<BasicBlock>)
    ensures graph_regs(blocks) == regs_seq(flatten(blocks.map_values(|b: BasicBlock| b.insns@))),
    decreases blocks.len(),
{
    if blocks.len() > 0 {
        let d = blocks.drop_last();
        lemma_graph_regs_flatten(d);
        let ms = blocks.map_values(|b: BasicBlock| b.insns@);
        assert(ms.drop_last() =~= d.map_values(|b: BasicBlock| b.insns@));
        lemma_regs_seq_concat(flatten(ms.drop_last()), ms.last());
    }
}

/// The registers of the graph of a body are those of the body.
pub proof fn lemma_graph_regs_body(g: Graph, insns: Seq<Insn>)
    requires g.block_seqs() == blocks_of(insns),
    ensures graph_regs(g.blocks@) == regs_seq(insns),
{
    lemma_graph_regs_flatten(g.blocks@);
    lemma_blocks_flatten(insns);
}

/// The registers of an instruction are among those of its run.
pub proof fn lemma_regs_seq_member(insns: Seq<Insn>, k: int)
    requires 0 <= k < insns.len(),
    ensures regs_seq(seq![insns[k]]).to_set().subset_of(regs_seq(insns).to_set()),
{
    let a = insns.subrange(0, k);
    let m = seq![insns[k]];
    let c = insns.subrange(k + 1, insns.len() as int);
    assert(insns =~= a + m + c);
    lemma_regs_seq_concat(a + m, c);
    lemma_regs_seq_concat(a, m);
    assert forall|r: GeneralReg| regs_seq(m).to_set().contains(r) implies regs_seq(insns).to_set().contains(r) by {
        let j = choose|j: int| 0 <= j < regs_seq(m).len() && regs_seq(m)[j] == r;
        assert(regs_seq(insns)[regs_seq(a).len() + j] == r);
    }
}

/// The registers of a suffix of a run are among those of the run.
proof fn lemma_regs_seq_suffix(insns: Seq<Insn>, k: int)
    requires 0 <= k <= insns.len(),
    ensures regs_seq(insns.subrange(k, insns.len() as int)).to_set().subset_of(regs_seq(insns).to_set()),
{
    let a = insns.subrange(0, k);
    let c = insns.subrange(k, insns.len() as int);
    assert(insns =~= a + c);
    lemma_regs_seq_concat(a, c);
    assert forall|r: GeneralReg| regs_seq(c).to_set().contains(r) implies regs_seq(insns).to_set().contains(r) by {
        let j = choose|j: int| 0 <= j < regs_seq(c).len() && regs_seq(c)[j] == r;
        assert(regs_seq(insns)[regs_seq(a).len() + j] == r);
    }
}

/// The least solution lies within the universe, and so do the sets after
/// each instruction.
pub proof fn lemma_analyzed_in_universe(g: Graph, cxs: Seq<(StrDescriptor, FuncContext)>, r: AnalyzeResult)
    requires g.wf(), analyzed(g, cxs, r),
    ensures
        universe(g).finite(),
        forall|b: int, k: int| 0 <= b < g.blocks@.len() && 0 <= k < r.insn_infos@[b]@.len()
            ==> (#[trigger] r.insn_infos@[b]@[k])@.subset_of(universe(g)),
{
    let live = live_view(r.block_infos@);
    let n = g.blocks@.len();
    let u = universe(g);
    lemma_universe(g, 0);
    let l = Seq::new(n, |i: int| u);
    assert forall|t: int| 0 <= t < l.len() implies (#[trigger] l[t]).subset_of(u) by {}
    assert(is_post(g, cxs, l)) by {
        assert forall|b: int| 0 <= b < l.len() implies flow(g, cxs, l, b).subset_of(#[trigger] l[b]) by {
            lemma_flow_bound(g, cxs, l, b);
        }
    }
    assert(forall|b: int| 0 <= b < live.len() ==> (#[trigger] live[b]).subset_of(l[b]));
    assert forall|b: int, k: int| 0 <= b < n && 0 <= k < r.insn_infos@[b]@.len()
        implies (#[trigger] r.insn_infos@[b]@[k])@.subset_of(u) by {
        let insns = g.blocks@[b].insns@;
        let m = meet(live, g.blocks@[b].successors@.to_set());
        assert(live_view(r.insn_infos@[b]@) == insn_outs(m, insns, cxs));
        assert(live_view(r.insn_infos@[b]@).len() == r.insn_infos@[b]@.len());
        assert(k < insns.len());
        assert(live_view(r.insn_infos@[b]@)[k] == r.insn_infos@[b]@[k]@);
        assert(r.insn_infos@[b]@[k]@ == transfer(m, insns.subrange(k + 1, insns.len() as int), cxs));
        lemma_transfer_bound(m, insns.subrange(k + 1, insns.len() as int), cxs);
        lemma_regs_seq_suffix(insns, k + 1);
        lemma_universe(g, b);
        assert(m.subset_of(u)) by {
            assert forall|x: GeneralReg| m.contains(x) implies u.contains(x) by {
                if !(x == GeneralReg::Phys(Register::A0)) {
                    let t = choose|t: usize| t < live.len() && #[trigger] g.blocks@[b].successors@.to_set().contains(NodeId::BasicBlock(t)) && live[t as int].contains(x);
                    assert(live[t as int].subset_of(l[t as int]));
                }
            }
        }
    }
}

/// The flow into block `b` of the blocks of a body, by the successor sets of the body.
pub open spec fn body_flow(bs: Seq<Seq<Insn>>, cxs: Seq<(StrDescriptor, FuncContext)>, live: Seq<Set<GeneralReg>>, b: int) -> Set<GeneralReg> {
    transfer(meet(live, succs_of(bs, b)), bs[b], cxs)
}

/// The liveness of a body: the least solution of its flow equations.
pub open spec fn body_liveness(bs: Seq<Seq<Insn>>, cxs: Seq<(StrDescriptor, FuncContext)>, live: Seq<Set<GeneralReg>>) -> bool {
    &&& live.len() == bs.len()
    &&& forall|b: int| 0 <= b < bs.len() ==> #[trigger] live[b] == body_flow(bs, cxs, live, b)
    &&& forall|l: Seq<Set<GeneralReg>>| l.len() == bs.len() && (forall|b: int| 0 <= b < bs.len() ==> body_flow(bs, cxs, l, b).subset_of(#[trigger] l[b]))
        ==> below(live, l)
}

/// The registers live after instruction `k` of block `b`.
pub open spec fn live_after(bs: Seq<Seq<Insn>>, cxs: Seq<(StrDescriptor, FuncContext)>, live: Seq<Set<GeneralReg>>, b: int, k: int) -> Set<GeneralReg> {
    transfer(meet(live, succs_of(bs, b)), bs[b].subrange(k + 1, bs[b].len() as int), cxs)
}

/// The analysis of the graph of a body gives the liveness of the body, the only one.
pub proof fn lemma_body_liveness(g: Graph, insns: Seq<Insn>, cxs: Seq<(StrDescriptor, FuncContext)>, r: AnalyzeResult, live: Seq<Set<GeneralReg>>)
    requires
        g.block_seqs() == blocks_of(insns),
        forall|b: int| 0 <= b < g.blocks@.len() ==> (#[trigger] g.blocks@[b]).successors@.to_set() == succs_of(blocks_of(insns), b),
        analyzed(g, cxs, r),
        body_liveness(blocks_of(insns), cxs, live),
    ensures
        live == live_view(r.block_infos@),
        forall|b: int, k: int| 0 <= b < g.blocks@.len() && 0 <= k < g.blocks@[b].insns@.len()
            ==> (#[trigger] r.insn_infos@[b]@[k])@ == live_after(blocks_of(insns), cxs, live, b, k),
{
    let bs = blocks_of(insns);
    let mine = live_view(r.block_infos@);
    assert forall|l: Seq<Set<GeneralReg>>, b: int| 0 <= b < bs.len() implies #[trigger] flow(g, cxs, l, b) == body_flow(bs, cxs, l, b) by {
        assert(g.block_seqs()[b] == g.blocks@[b].insns@);
    }
    // `live` is a solution, hence a set the equations do not grow: `mine` is below it
    assert(is_post(g, cxs, live)) by {
        assert forall|b: int| 0 <= b < live.len() implies flow(g, cxs, live, b).subset_of(#[trigger] live[b]) by {
            assert(flow(g, cxs, live, b) == body_flow(bs, cxs, live, b));
        }
    }
    assert(below(mine, live)) by {
        assert forall|b: int| 0 <= b < mine.len() implies (#[trigger] mine[b]).subset_of(live[b]) by {}
    }
    // `mine` is a solution of the body's equations: `live` is below it
    assert(mine.len() == bs.len() && forall|b: int| 0 <= b < bs.len() ==> body_flow(bs, cxs, mine, b).subset_of(#[trigger] mine[b])) by {
        assert forall|b: int| 0 <= b < bs.len() implies body_flow(bs, cxs, mine, b).subset_of(#[trigger] mine[b]) by {
            assert(flow(g, cxs, mine, b) == body_flow(bs, cxs, mine, b));
            assert(mine[b] == flow(g, cxs, mine, b));
        }
    }
    assert(below(live, mine));
    assert(live =~= mine) by {
        assert forall|b: int| 0 <= b < live.len() implies #[trigger] live[b] == mine[b] by {
            assert(live[b].subset_of(mine[b]) && mine[b].subset_of(live[b]));
            assert(live[b] =~= mine[b]);
        }
    }
    assert forall|b: int, k: int| 0 <= b < g.blocks@.len() && 0 <= k < g.blocks@[b].insns@.len()
        implies (#[trigger] r.insn_infos@[b]@[k])@ == live_after(bs, cxs, live, b, k) by {
        assert(g.block_seqs()[b] == g.blocks@[b].insns@);
        let m = meet(mine, g.blocks@[b].successors@.to_set());
        assert(live_view(r.insn_infos@[b]@) == insn_outs(m, g.blocks@[b].insns@, cxs));
        assert(live_view(r.insn_infos@[b]@).len() == r.insn_infos@[b]@.len());
        assert(live_view(r.insn_infos@[b]@)[k] == r.insn_infos@[b]@[k]@);
    }
}

/// Every instruction of a block is an instruction of the run the blocks flatten to.
pub proof fn lemma_flatten_member(bs: Seq<Seq<Insn>>, b: int, k: int)
    requires 0 <= b < bs.len(), 0 <= k < bs[b].len(),
    ensures flatten(bs).contains(bs[b][k]),
    decreases bs.len(),
{
    let d = bs.drop_last();
    if b < bs.len() - 1 {
        lemma_flatten_member(d, b, k);
        let j = choose|j: int| 0 <= j < flatten(d).len() && flatten(d)[j] == bs[b][k];
        assert(flatten(bs)[j] == bs[b][k]);
    } else {
        assert(flatten(bs)[flatten(d).len() + k] == bs[b][k]);
    }
}

} // verus!
