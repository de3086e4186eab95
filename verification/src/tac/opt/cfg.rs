//! The control flow graph of the body of a function of three-address code.

use vstd::prelude::*;
use super::super::tac::{Insn, LabelOperand};

verus! {

broadcast use vstd::seq_lib::group_seq_properties;

/// A node of the control flow graph.
#[derive(Debug, Clone, Copy, PartialEq, Eq, Structural)]
pub enum NodeId {
    Entry,
    BasicBlock(usize),
    Exit,
}

/// An instruction by its block and its place in the block.
#[derive(Debug, Clone, Copy, PartialEq, Eq, Structural)]
pub struct InsnId {
    pub block_id: usize,
    pub inblock_idx: usize,
}

impl InsnId {
    pub fn new(block_id: usize, inblock_idx: usize) -> (r: Self)
        ensures r.block_id == block_id, r.inblock_idx == inblock_idx,
    {
        InsnId { block_id, inblock_idx }
    }
}

/// A straight run of instructions, entered at the top and left at the bottom.
#[derive(Debug)]
pub struct BasicBlock {
    pub id: usize,
    pub insns: Vec<Insn>,
    pub predecessors: Vec<NodeId>,
    pub successors: Vec<NodeId>,
}

#[derive(Debug)]
pub enum Node {
    Entry { successors: Vec<NodeId> },
    BasicBlock(BasicBlock),
    Exit { predecessors: Vec<NodeId> },
}

impl Node {
    pub open spec fn spec_id(&self) -> NodeId {
        match self {
            Node::Entry { .. } => NodeId::Entry,
            Node::BasicBlock(b) => NodeId::BasicBlock(b.id),
            Node::Exit { .. } => NodeId::Exit,
        }
    }

    pub fn id(&self) -> (r: NodeId)
        ensures r == self.spec_id(),
    {
        match self {
            Node::Entry { .. } => NodeId::Entry,
            Node::BasicBlock(b) => NodeId::BasicBlock(b.id),
            Node::Exit { .. } => NodeId::Exit,
        }
    }

    /// A block with no edges yet.
    pub fn basic_block(id: usize, insns: Vec<Insn>) -> (r: Self)
        ensures r matches Node::BasicBlock(b) && b.id == id && b.insns == insns
            && b.predecessors@.len() == 0 && b.successors@.len() == 0,
    {
        Node::BasicBlock(BasicBlock { id, insns, predecessors: Vec::new(), successors: Vec::new() })
    }
}

/// The control flow graph of a function: the successors of the entry, the
/// blocks in order, and the predecessors of the exit.
#[derive(Debug)]
pub struct Graph {
    pub entry: Vec<NodeId>,
    pub blocks: Vec<BasicBlock>,
    pub exit: Vec<NodeId>,
}

/// An instruction after which control does not fall through to the next one.
pub open spec fn is_terminator(i: Insn) -> bool {
    i is Jump || i is Return || i is BranchIfZero || i is BranchNotZero
}

/// The blocks closed so far and the block being filled, after `insns`: a
/// label opens a block, a jump, a branch or the epilogue closes one.
pub open spec fn part(insns: Seq<Insn>) -> (Seq<Seq<Insn>>, Seq<Insn>)
    decreases insns.len(),
{
    if insns.len() == 0 {
        (Seq::empty(), Seq::empty())
    } else {
        let (done, cur) = part(insns.drop_last());
        let i = insns.last();
        if i is Label {
            if cur.len() > 0 { (done.push(cur), seq![i]) } else { (done, seq![i]) }
        } else if is_terminator(i) {
            (done.push(cur.push(i)), Seq::empty())
        } else {
            (done, cur.push(i))
        }
    }
}

/// The basic blocks of a body, in order.
pub open spec fn blocks_of(insns: Seq<Insn>) -> Seq<Seq<Insn>> {
    let (done, cur) = part(insns);
    if cur.len() > 0 { done.push(cur) } else { done }
}

/// The last block that starts with the label.
pub open spec fn label_block(blocks: Seq<Seq<Insn>>, l: LabelOperand) -> Option<int>
    decreases blocks.len(),
{
    if blocks.len() == 0 {
        None
    } else if blocks.last().len() > 0 && blocks.last()[0] == Insn::Label(l) {
        Some(blocks.len() - 1)
    } else {
        label_block(blocks.drop_last(), l)
    }
}

/// The label a block ends by jumping or branching to.
pub open spec fn jump_label(i: Insn) -> Option<LabelOperand> {
    match i {
        Insn::Jump(l) => Some(l),
        Insn::BranchIfZero { label, .. } => Some(label),
        Insn::BranchNotZero { label, .. } => Some(label),
        _ => None,
    }
}

/// The node after block `b` of `n`.
pub open spec fn next_of(n: int, b: int) -> NodeId {
    if b == n - 1 { NodeId::Exit } else { NodeId::BasicBlock((b + 1) as usize) }
}

/// Where control goes after block `b`.
pub open spec fn succs_of(blocks: Seq<Seq<Insn>>, b: int) -> Set<NodeId> {
    let last = blocks[b].last();
    let n = blocks.len() as int;
    if last is Return {
        set![NodeId::Exit]
    } else if last is Jump {
        set![NodeId::BasicBlock(label_block(blocks, jump_label(last)->0)->0 as usize)]
    } else if last is BranchIfZero || last is BranchNotZero {
        set![NodeId::BasicBlock(label_block(blocks, jump_label(last)->0)->0 as usize), next_of(n, b)]
    } else {
        set![next_of(n, b)]
    }
}

/// Where control comes from into block `b`.
pub open spec fn preds_of(blocks: Seq<Seq<Insn>>, b: int) -> Set<NodeId> {
    Set::new(|p: NodeId| (p == NodeId::Entry && b == 0)
        || (p matches NodeId::BasicBlock(c) && 0 <= c < blocks.len() && succs_of(blocks, c as int).contains(NodeId::BasicBlock(b as usize))))
}

/// A body the graph can be built of: not empty, and every label that a
/// jump or a branch names opens a block.
pub open spec fn buildable(insns: Seq<Insn>) -> bool {
    &&& insns.len() > 0
    &&& forall|b: int| 0 <= b < blocks_of(insns).len() ==>
        (jump_label(#[trigger] blocks_of(insns)[b].last()) matches Some(l) ==> label_block(blocks_of(insns), l) is Some)
}

impl Graph {
    /// The instructions of the blocks.
    pub open spec fn block_seqs(self) -> Seq<Seq<Insn>> {
        self.blocks@.map_values(|b: BasicBlock| b.insns@)
    }

    /// The shape every graph of a body has: blocks numbered in order and not
    /// empty, edges between existing nodes, and every edge recorded at both ends.
    pub open spec fn wf(self) -> bool {
        let n = self.blocks@.len();
        &&& n > 0
        &&& forall|b: int| 0 <= b < n ==> (#[trigger] self.blocks@[b]).id == b && self.blocks@[b].insns@.len() > 0
        &&& forall|b: int, k: int| 0 <= b < n && 0 <= k < self.blocks@[b].successors@.len() ==> {
            let s = #[trigger] self.blocks@[b].successors@[k];
            s != NodeId::Entry && (s matches NodeId::BasicBlock(t) ==> t < n)
        }
        &&& forall|b: int, c: int| 0 <= b < n && 0 <= c < n
            && (#[trigger] self.blocks@[c]).successors@.contains(NodeId::BasicBlock(b as usize))
            ==> (#[trigger] self.blocks@[b]).predecessors@.contains(NodeId::BasicBlock(c as usize))
    }


    /// The graph of a body: its basic blocks, and the edges that jumps,
    /// branches, the epilogue and falling through make.
    pub fn build(insns: Vec<Insn>) -> (r: Self)
        requires buildable(insns@),
        ensures
            r.wf(),
            r.block_seqs() == blocks_of(insns@),
            r.entry@.to_set() == set![NodeId::BasicBlock(0)],
            forall|b: int| 0 <= b < r.blocks@.len() ==> (#[trigger] r.blocks@[b]).successors@.to_set() == succs_of(blocks_of(insns@), b)
                && r.blocks@[b].predecessors@.to_set() == preds_of(blocks_of(insns@), b),
            r.exit@.to_set() == Set::new(|p: NodeId| p matches NodeId::BasicBlock(c) && 0 <= c < r.blocks@.len()
                && succs_of(blocks_of(insns@), c as int).contains(NodeId::Exit)),
    {
        let ghost orig = insns@;
        let seqs = partition(insns);
        let ghost bs = blocks_of(orig);
        let n = seqs.len();
        // the successors of each block
        let mut succs: Vec<Vec<NodeId>> = Vec::new();
        let mut b: usize = 0;
        while b < n
            invariant
                n == seqs@.len(), b <= n, bs == blocks_of(orig), buildable(orig),
                seqs@.map_values(|v: Vec<Insn>| v@) == bs,
                forall|k: int| 0 <= k < n ==> (#[trigger] seqs@[k])@.len() > 0,
                succs@.len() == b,
                forall|k: int| 0 <= k < b ==> (#[trigger] succs@[k])@.to_set() == succs_of(bs, k)
                    && succs@[k]@.no_duplicates(),
                forall|k: int| 0 <= k < b ==> forall|j: int| 0 <= j < (#[trigger] succs@[k])@.len() ==>
                    (succs@[k]@[j] matches NodeId::BasicBlock(t) ==> t < n) && succs@[k]@[j] != NodeId::Entry,
            decreases n - b,
        {
            proof {
                assert(seqs@[b as int]@ == bs[b as int]);
                assert(seqs@.map_values(|v: Vec<Insn>| v@)[b as int] == bs[b as int]);
            }
            let s = block_succs(&seqs, b);
            succs.push(s);
            b = b + 1;
        }
        // the predecessors of each block, and of the exit
        let mut preds: Vec<Vec<NodeId>> = Vec::new();
        let mut b: usize = 0;
        while b < n
            invariant
                b <= n, preds@.len() == b,
                forall|k: int| 0 <= k < b ==> (#[trigger] preds@[k])@ == (if k == 0 { seq![NodeId::Entry] } else { Seq::empty() }),
            decreases n - b,
        {
            if b == 0 { preds.push(vec![NodeId::Entry]); } else { preds.push(Vec::new()); }
            b = b + 1;
        }
        let mut exit: Vec<NodeId> = Vec::new();
        let mut c: usize = 0;
        while c < n
            invariant
                c <= n, n == seqs@.len(), succs@.len() == n, preds@.len() == n, bs == blocks_of(orig),
                forall|k: int| 0 <= k < n ==> (#[trigger] succs@[k])@.to_set() == succs_of(bs, k),
                forall|t: int| 0 <= t < n ==> (#[trigger] preds@[t])@.to_set() == Set::new(|p: NodeId| (p == NodeId::Entry && t == 0)
                    || (p matches NodeId::BasicBlock(d) && 0 <= d < c && succs_of(bs, d as int).contains(NodeId::BasicBlock(t as usize)))),
                exit@.to_set() == Set::new(|p: NodeId| p matches NodeId::BasicBlock(d) && 0 <= d < c
                    && succs_of(bs, d as int).contains(NodeId::Exit)),
                forall|k: int| 0 <= k < n ==> forall|j: int| 0 <= j < (#[trigger] succs@[k])@.len() ==>
                    (succs@[k]@[j] matches NodeId::BasicBlock(t) ==> t < n) && succs@[k]@[j] != NodeId::Entry,
            decreases n - c,
        {
            let sc = &succs[c];
            let mut j: usize = 0;
            let ghost preds0 = preds@;
            let ghost exit0 = exit@;
            while j < sc.len()
                invariant
                    j <= sc@.len(), c < n, sc == &succs@[c as int], preds@.len() == n,
                    forall|j2: int| 0 <= j2 < sc@.len() ==> (sc@[j2] matches NodeId::BasicBlock(t) ==> t < n) && sc@[j2] != NodeId::Entry,
                    forall|t: int| 0 <= t < n ==> (#[trigger] preds@[t])@.to_set() == preds0[t]@.to_set()
                        + (if sc@.subrange(0, j as int).contains(NodeId::BasicBlock(t as usize)) { set![NodeId::BasicBlock(c)] } else { Set::empty() }),
                    exit@.to_set() == exit0.to_set()
                        + (if sc@.subrange(0, j as int).contains(NodeId::Exit) { set![NodeId::BasicBlock(c)] } else { Set::empty() }),
                decreases sc@.len() - j,
            {
                let ghost before = preds@;
                match sc[j] {
                    NodeId::BasicBlock(t) => {
                        let mut v = preds.remove(t);
                        v.push(NodeId::BasicBlock(c));
                        preds.insert(t, v);
                        proof {
                            assert forall|u: int| 0 <= u < n implies (#[trigger] preds@[u])@.to_set() == preds0[u]@.to_set()
                                + (if sc@.subrange(0, j as int + 1).contains(NodeId::BasicBlock(u as usize)) { set![NodeId::BasicBlock(c)] } else { Set::empty() }) by {
                                assert(sc@.subrange(0, j as int + 1) == sc@.subrange(0, j as int).push(sc@[j as int]));
                                if u == t {
                                    assert(preds@[u]@ == before[u]@.push(NodeId::BasicBlock(c)));
                                    assert(preds@[u]@.to_set() =~= before[u]@.to_set().insert(NodeId::BasicBlock(c)));
                                    assert(preds@[u]@.to_set() =~= preds0[u]@.to_set()
                                        + (if sc@.subrange(0, j as int + 1).contains(NodeId::BasicBlock(u as usize)) { set![NodeId::BasicBlock(c)] } else { Set::empty() }));
                                } else {
                                    assert(preds@[u] == before[u]);
                                    assert(sc@.subrange(0, j as int + 1).contains(NodeId::BasicBlock(u as usize))
                                        == sc@.subrange(0, j as int).contains(NodeId::BasicBlock(u as usize)));
                                }
                            }
                            assert(sc@.subrange(0, j as int + 1).contains(NodeId::Exit) == sc@.subrange(0, j as int).contains(NodeId::Exit));
                        }
                    },
                    NodeId::Exit => {
                        let ghost e = exit@;
                        exit.push(NodeId::BasicBlock(c));
                        proof {
                            assert(sc@.subrange(0, j as int + 1) == sc@.subrange(0, j as int).push(sc@[j as int]));
                            assert(exit@.to_set() =~= e.to_set().insert(NodeId::BasicBlock(c)));
                            assert(exit@.to_set() =~= exit0.to_set()
                                + (if sc@.subrange(0, j as int + 1).contains(NodeId::Exit) { set![NodeId::BasicBlock(c)] } else { Set::empty() }));
                            assert forall|u: int| 0 <= u < n implies
                                #[trigger] sc@.subrange(0, j as int + 1).contains(NodeId::BasicBlock(u as usize))
                                == sc@.subrange(0, j as int).contains(NodeId::BasicBlock(u as usize)) by {}
                        }
                    },
                    NodeId::Entry => {},
                }
                j = j + 1;
            }
            proof {
                assert(sc@.subrange(0, j as int) =~= sc@);
                assert forall|t: int| 0 <= t < n implies (#[trigger] preds@[t])@.to_set() == Set::new(|p: NodeId| (p == NodeId::Entry && t == 0)
                    || (p matches NodeId::BasicBlock(d) && 0 <= d < c + 1 && succs_of(bs, d as int).contains(NodeId::BasicBlock(t as usize)))) by {
                    assert(sc@.to_set() == succs_of(bs, c as int));
                    assert(sc@.contains(NodeId::BasicBlock(t as usize)) == succs_of(bs, c as int).contains(NodeId::BasicBlock(t as usize)));
                    assert(preds@[t]@.to_set() =~= Set::new(|p: NodeId| (p == NodeId::Entry && t == 0)
                        || (p matches NodeId::BasicBlock(d) && 0 <= d < c + 1 && succs_of(bs, d as int).contains(NodeId::BasicBlock(t as usize)))));
                }
                assert(sc@.to_set() == succs_of(bs, c as int));
                assert(sc@.contains(NodeId::Exit) == succs_of(bs, c as int).contains(NodeId::Exit));
                assert(exit@.to_set() =~= Set::new(|p: NodeId| p matches NodeId::BasicBlock(d) && 0 <= d < c + 1
                    && succs_of(bs, d as int).contains(NodeId::Exit)));
            }
            c = c + 1;
        }
        // put the blocks together
        let ghost seqs0 = seqs@;
        let ghost succs0 = succs@;
        let ghost preds0 = preds@;
        let mut blocks: Vec<BasicBlock> = Vec::new();
        let mut seqs = seqs;
        let mut succs = succs;
        let mut preds = preds;
        let mut b: usize = 0;
        while b < n
            invariant
                b <= n, n == seqs0.len(), succs0.len() == n, preds0.len() == n,
                seqs@ == seqs0.subrange(b as int, n as int),
                succs@ == succs0.subrange(b as int, n as int),
                preds@ == preds0.subrange(b as int, n as int),
                blocks@.len() == b,
                forall|k: int| 0 <= k < b ==> (#[trigger] blocks@[k]).id == k && blocks@[k].insns == seqs0[k]
                    && blocks@[k].successors == succs0[k] && blocks@[k].predecessors == preds0[k],
            decreases n - b,
        {
            let insns_b = seqs.remove(0);
            let succ_b = succs.remove(0);
            let pred_b = preds.remove(0);
            blocks.push(BasicBlock { id: b, insns: insns_b, predecessors: pred_b, successors: succ_b });
            b = b + 1;
            proof {
                assert(seqs@ =~= seqs0.subrange(b as int, n as int));
                assert(succs@ =~= succs0.subrange(b as int, n as int));
                assert(preds@ =~= preds0.subrange(b as int, n as int));
            }
        }
        let g = Graph { entry: vec![NodeId::BasicBlock(0)], blocks, exit };
        proof {
            assert(g.block_seqs() =~= bs) by {
                assert forall|k: int| 0 <= k < n implies g.block_seqs()[k] == bs[k] by {
                    assert(seqs0.map_values(|v: Vec<Insn>| v@)[k] == bs[k]);
                }
            }
            assert(g.entry@.to_set() =~= set![NodeId::BasicBlock(0)]);
            assert forall|t: int, d: int| 0 <= t < n && 0 <= d < n
                && (#[trigger] g.blocks@[d]).successors@.contains(NodeId::BasicBlock(t as usize))
                implies (#[trigger] g.blocks@[t]).predecessors@.contains(NodeId::BasicBlock(d as usize)) by {
                assert(succs0[d]@.to_set().contains(NodeId::BasicBlock(t as usize)));
                assert(preds0[t]@.to_set().contains(NodeId::BasicBlock(d as usize)));
            }
            assert forall|k: int| 0 <= k < n implies (#[trigger] g.blocks@[k]).successors@.to_set() == succs_of(bs, k)
                && g.blocks@[k].predecessors@.to_set() == preds_of(bs, k) by {
                assert(preds0[k]@.to_set() =~= preds_of(bs, k));
            }
            assert forall|k: int| 0 <= k < n implies (#[trigger] g.blocks@[k]).id == k && g.blocks@[k].insns@.len() > 0 by {
                assert(seqs0.map_values(|v: Vec<Insn>| v@)[k] == bs[k]);
            }
        }
        g
    }
}

/// The block a label opens is one of the blocks.
proof fn lemma_label_block_range(blocks: Seq<Seq<Insn>>, l: LabelOperand)
    ensures label_block(blocks, l) matches Some(k) ==> 0 <= k < blocks.len(),
    decreases blocks.len(),
{
    if blocks.len() > 0 {
        lemma_label_block_range(blocks.drop_last(), l);
    }
}

/// The basic blocks of a body, in order.
fn partition(insns: Vec<Insn>) -> (r: Vec<Vec<Insn>>)
    ensures
        r@.map_values(|v: Vec<Insn>| v@) == blocks_of(insns@),
        forall|k: int| 0 <= k < r@.len() ==> (#[trigger] r@[k])@.len() > 0,
{
    let ghost orig = insns@;
    let total = insns.len();
    let mut rest = insns;
    let mut done: Vec<Vec<Insn>> = Vec::new();
    let mut cur: Vec<Insn> = Vec::new();
    let mut i: usize = 0;
    while rest.len() > 0
        invariant
            i + rest@.len() == orig.len(), orig.len() == total,
            rest@ == orig.subrange(i as int, orig.len() as int),
            (done@.map_values(|v: Vec<Insn>| v@), cur@) == part(orig.subrange(0, i as int)),
            forall|k: int| 0 <= k < done@.len() ==> (#[trigger] done@[k])@.len() > 0,
        decreases rest@.len(),
    {
        let insn = rest.remove(0);
        proof {
            assert(insn == orig[i as int]);
            assert(orig.subrange(0, i as int + 1).drop_last() =~= orig.subrange(0, i as int));
        }
        let ghost d0 = done@;
        let ghost c0 = cur@;
        let kind: u8 = match &insn {
            Insn::Label(_) => 0,
            Insn::Jump(_) | Insn::Return(_) | Insn::BranchIfZero { .. } | Insn::BranchNotZero { .. } => 1,
            _ => 2,
        };
        if kind == 0 {
            if cur.len() > 0 {
                let c = cur;
                done.push(c);
            }
            cur = Vec::new();
            cur.push(insn);
        } else if kind == 1 {
            cur.push(insn);
            let c = cur;
            done.push(c);
            cur = Vec::new();
        } else {
            cur.push(insn);
        }
        proof {
            let p = orig.subrange(0, i as int + 1);
            assert(p.last() == orig[i as int]);
            assert(done@.map_values(|v: Vec<Insn>| v@) =~= part(p).0);
            assert(cur@ =~= part(p).1);
        }
        i = i + 1;
        proof { assert(rest@ =~= orig.subrange(i as int, orig.len() as int)); }
    }
    proof { assert(orig.subrange(0, i as int) =~= orig); }
    if cur.len() > 0 {
        done.push(cur);
    }
    proof { assert(done@.map_values(|v: Vec<Insn>| v@) =~= blocks_of(orig)); }
    done
}

/// The last block that starts with the label.
fn find_label_block(seqs: &Vec<Vec<Insn>>, l: LabelOperand) -> (r: Option<usize>)
    ensures
        r matches Some(k) ==> label_block(seqs@.map_values(|v: Vec<Insn>| v@), l) == Some(k as int),
        r is None ==> label_block(seqs@.map_values(|v: Vec<Insn>| v@), l) is None,
{
    let ghost bs = seqs@.map_values(|v: Vec<Insn>| v@);
    let mut k: usize = seqs.len();
    proof { assert(bs.subrange(0, k as int) =~= bs); }
    while k > 0
        invariant
            k <= seqs@.len(), bs == seqs@.map_values(|v: Vec<Insn>| v@),
            label_block(bs, l) == label_block(bs.subrange(0, k as int), l),
        decreases k,
    {
        let ghost p = bs.subrange(0, k as int);
        proof { assert(p.drop_last() =~= bs.subrange(0, k as int - 1)); assert(p.last() == seqs@[k - 1]@); }
        let blk = &seqs[k - 1];
        if blk.len() > 0 {
            let starts = match &blk[0] {
                Insn::Label(l2) => *l2 == l,
                _ => false,
            };
            if starts {
                return Some(k - 1);
            }
        }
        k = k - 1;
    }
    None
}

/// The successors of block `b`, each once.
fn block_succs(seqs: &Vec<Vec<Insn>>, b: usize) -> (r: Vec<NodeId>)
    requires
        b < seqs@.len(),
        seqs@[b as int]@.len() > 0,
        jump_label(seqs@[b as int]@.last()) matches Some(l) ==> label_block(seqs@.map_values(|v: Vec<Insn>| v@), l) is Some,
    ensures
        r@.to_set() == succs_of(seqs@.map_values(|v: Vec<Insn>| v@), b as int),
        r@.no_duplicates(),
        forall|j: int| 0 <= j < r@.len() ==> (r@[j] matches NodeId::BasicBlock(t) ==> t < seqs@.len()) && r@[j] != NodeId::Entry,
{
    let ghost bs = seqs@.map_values(|v: Vec<Insn>| v@);
    proof { assert(bs[b as int] == seqs@[b as int]@); }
    let n = seqs.len();
    let blk = &seqs[b];
    let last = &blk[blk.len() - 1];
    proof { assert(blk@.last() == *last); }
    let next = if b == n - 1 { NodeId::Exit } else { NodeId::BasicBlock(b + 1) };
    let mut r: Vec<NodeId> = Vec::new();
    match last {
        Insn::Return(_) => { r.push(NodeId::Exit); },
        Insn::Jump(l) => {
            let t = find_label_block(seqs, *l);
            proof { lemma_label_block_range(bs, *l); }
            match t { Some(t) => r.push(NodeId::BasicBlock(t)), None => {} }
        },
        Insn::BranchIfZero { label, .. } | Insn::BranchNotZero { label, .. } => {
            let t = find_label_block(seqs, *label);
            proof { lemma_label_block_range(bs, *label); }
            match t {
                Some(t) => {
                    r.push(NodeId::BasicBlock(t));
                    if NodeId::BasicBlock(t) != next {
                        r.push(next);
                    }
                },
                None => {},
            }
        },
        _ => { r.push(next); },
    }
    proof { assert(r@.to_set() =~= succs_of(bs, b as int)); }
    r
}


/// The instructions of the blocks, one block after the other.
pub open spec fn flatten(bs: Seq<Seq<Insn>>) -> Seq<Insn>
    decreases bs.len(),
{
    if bs.len() == 0 { Seq::empty() } else { flatten(bs.drop_last()) + bs.last() }
}

proof fn lemma_part_flatten(insns: Seq<Insn>)
    ensures flatten(part(insns).0) + part(insns).1 == insns,
    decreases insns.len(),
{
    if insns.len() > 0 {
        let p = insns.drop_last();
        lemma_part_flatten(p);
        let (done, cur) = part(p);
        let i = insns.last();
        assert(insns =~= p.push(i));
        if i is Label {
            if cur.len() > 0 {
                assert(done.push(cur).drop_last() =~= done);
                assert(flatten(done.push(cur)) + seq![i] =~= flatten(done) + cur + seq![i]);
            } else {
                assert(flatten(done) + seq![i] =~= flatten(done) + cur + seq![i]);
            }
        } else if is_terminator(i) {
            assert(done.push(cur.push(i)).drop_last() =~= done);
            assert(flatten(done.push(cur.push(i))) + Seq::<Insn>::empty() =~= flatten(done) + cur + seq![i]);
        } else {
            assert(flatten(done) + cur.push(i) =~= flatten(done) + cur + seq![i]);
        }
    }
}

/// Putting the blocks of a body back together gives the body: the graph
/// loses no instruction and reorders none.
pub proof fn lemma_blocks_flatten(insns: Seq<Insn>)
    ensures flatten(blocks_of(insns)) == insns,
{
    lemma_part_flatten(insns);
    let (done, cur) = part(insns);
    if cur.len() > 0 {
        assert(done.push(cur).drop_last() =~= done);
    } else {
        assert(flatten(done) + cur =~= flatten(done));
    }
}

impl Graph {
    /// The instructions of the blocks in order: the body again.
    pub fn emit(self) -> (r: Vec<Insn>)
        ensures r@ == flatten(self.block_seqs()),
    {
        let ghost bs = self.block_seqs();
        let mut blocks = self.blocks;
        let ghost bl0 = blocks@;
        let total = blocks.len();
        let mut out: Vec<Insn> = Vec::new();
        let mut i: usize = 0;
        while blocks.len() > 0
            invariant
                i + blocks@.len() == bl0.len(), bl0.len() == total,
                blocks@ == bl0.subrange(i as int, bl0.len() as int),
                bs == bl0.map_values(|b: BasicBlock| b.insns@),
                out@ == flatten(bs.subrange(0, i as int)),
            decreases blocks@.len(),
        {
            let b = blocks.remove(0);
            proof { assert(b == bl0[i as int]); }
            let mut insns = b.insns;
            let ghost before = out@;
            out.append(&mut insns);
            proof {
                assert(bs.subrange(0, i as int + 1).drop_last() =~= bs.subrange(0, i as int));
                assert(bs.subrange(0, i as int + 1).last() == bl0[i as int].insns@);
            }
            i = i + 1;
            proof { assert(blocks@ =~= bl0.subrange(i as int, bl0.len() as int)); }
        }
        proof { assert(bs.subrange(0, i as int) =~= bs); }
        out
    }
}

/// Every label that a jump or a branch of a body names is defined in it,
/// and the body is not empty.
pub open spec fn labels_resolved(insns: Seq<Insn>) -> bool {
    &&& insns.len() > 0
    &&& forall|k: int| 0 <= k < insns.len() ==> (jump_label(#[trigger] insns[k]) matches Some(l) ==> insns.contains(Insn::Label(l)))
}

/// The blocks being formed are never empty, and a label stands only first in a block.
proof fn lemma_part_shape(insns: Seq<Insn>)
    ensures
        forall|b: int| 0 <= b < part(insns).0.len() ==> (#[trigger] part(insns).0[b]).len() > 0,
        forall|b: int, k: int| 0 <= b < part(insns).0.len() && 0 < k < part(insns).0[b].len() ==> !((#[trigger] part(insns).0[b][k]) is Label),
        forall|k: int| 0 < k < part(insns).1.len() ==> !((#[trigger] part(insns).1[k]) is Label),
    decreases insns.len(),
{
    if insns.len() > 0 {
        lemma_part_shape(insns.drop_last());
        let (done, cur) = part(insns.drop_last());
        let i = insns.last();
        if i is Label {
            if cur.len() > 0 {
                let d2 = done.push(cur);
                assert forall|b: int, k: int| 0 <= b < d2.len() && 0 < k < d2[b].len() implies !((#[trigger] d2[b][k]) is Label) by {
                    if b < done.len() { assert(d2[b] == done[b]); } else { assert(d2[b] == cur); }
                }
            }
        } else if is_terminator(i) {
            let c2 = cur.push(i);
            let d2 = done.push(c2);
            assert forall|b: int, k: int| 0 <= b < d2.len() && 0 < k < d2[b].len() implies !((#[trigger] d2[b][k]) is Label) by {
                if b < done.len() { assert(d2[b] == done[b]); } else { assert(d2[b] == c2); }
            }
        }
    }
}

/// The blocks of a body are never empty, and a label stands only first in a block.
proof fn lemma_blocks_shape(insns: Seq<Insn>)
    ensures
        forall|b: int| 0 <= b < blocks_of(insns).len() ==> (#[trigger] blocks_of(insns)[b]).len() > 0,
        forall|b: int, k: int| 0 <= b < blocks_of(insns).len() && 0 < k < blocks_of(insns)[b].len()
            ==> !((#[trigger] blocks_of(insns)[b][k]) is Label),
{
    lemma_part_shape(insns);
}

/// A block that starts with the label makes the label open a block.
proof fn lemma_label_block_found(blocks: Seq<Seq<Insn>>, b: int, l: LabelOperand)
    requires 0 <= b < blocks.len(), blocks[b].len() > 0, blocks[b][0] == Insn::Label(l),
    ensures label_block(blocks, l) is Some,
    decreases blocks.len(),
{
    if !(blocks.last().len() > 0 && blocks.last()[0] == Insn::Label(l)) {
        lemma_label_block_found(blocks.drop_last(), b, l);
    }
}

/// Each instruction of a run of blocks stands in one of the blocks.
proof fn lemma_flatten_index(bs: Seq<Seq<Insn>>, j: int)
    requires 0 <= j < flatten(bs).len(),
    ensures exists|b: int, k: int| 0 <= b < bs.len() && 0 <= k < bs[b].len() && #[trigger] bs[b][k] == flatten(bs)[j],
    decreases bs.len(),
{
    let d = bs.drop_last();
    if j < flatten(d).len() {
        lemma_flatten_index(d, j);
        let (b, k) = choose|b: int, k: int| 0 <= b < d.len() && 0 <= k < d[b].len() && #[trigger] d[b][k] == flatten(d)[j];
        assert(bs[b][k] == flatten(bs)[j]);
    } else {
        let k = j - flatten(d).len();
        assert(bs[bs.len() - 1][k] == flatten(bs)[j]);
    }
}

/// Each instruction of a block stands in the run the blocks flatten to.
proof fn lemma_flatten_has(bs: Seq<Seq<Insn>>, b: int, k: int)
    requires 0 <= b < bs.len(), 0 <= k < bs[b].len(),
    ensures flatten(bs).contains(bs[b][k]),
    decreases bs.len(),
{
    let d = bs.drop_last();
    if b < bs.len() - 1 {
        lemma_flatten_has(d, b, k);
        let j = choose|j: int| 0 <= j < flatten(d).len() && flatten(d)[j] == bs[b][k];
        assert(flatten(bs)[j] == bs[b][k]);
    } else {
        assert(flatten(bs)[flatten(d).len() + k] == bs[b][k]);
    }
}

/// A body whose jump labels are all defined has a graph.
pub proof fn lemma_resolved_buildable(insns: Seq<Insn>)
    requires labels_resolved(insns),
    ensures buildable(insns),
{
    let bs = blocks_of(insns);
    lemma_blocks_shape(insns);
    lemma_blocks_flatten(insns);
    assert forall|b: int| 0 <= b < bs.len() implies
        (jump_label(#[trigger] bs[b].last()) matches Some(l) ==> label_block(bs, l) is Some) by {
        if let Some(l) = jump_label(bs[b].last()) {
            lemma_flatten_has(bs, b, bs[b].len() - 1);
            let k = choose|k: int| 0 <= k < insns.len() && insns[k] == bs[b].last();
            assert(jump_label(insns[k]) == Some(l));
            assert(insns.contains(Insn::Label(l)));
            let j = choose|j: int| 0 <= j < insns.len() && insns[j] == Insn::Label(l);
            lemma_flatten_index(bs, j);
            let (b2, k2) = choose|b2: int, k2: int| 0 <= b2 < bs.len() && 0 <= k2 < bs[b2].len() && #[trigger] bs[b2][k2] == flatten(bs)[j];
            assert(k2 == 0);
            lemma_label_block_found(bs, b2, l);
        }
    }
}

/// Whether every label a jump or a branch names is defined, in a body that is not empty.
pub fn check_labels_resolved(insns: &Vec<Insn>) -> (r: bool)
    ensures r == labels_resolved(insns@),
{
    if insns.len() == 0 {
        return false;
    }
    let n = insns.len();
    let mut k: usize = 0;
    while k < n
        invariant
            n == insns@.len(), k <= n,
            forall|j: int| 0 <= j < k ==> (jump_label(#[trigger] insns@[j]) matches Some(l) ==> insns@.contains(Insn::Label(l))),
        decreases n - k,
    {
        let target = match &insns[k] {
            Insn::Jump(l) => Some(*l),
            Insn::BranchIfZero { label, .. } => Some(*label),
            Insn::BranchNotZero { label, .. } => Some(*label),
            _ => None,
        };
        proof { assert(target == jump_label(insns@[k as int])); }
        match target {
            Some(l) => {
                let mut found = false;
                let mut m: usize = 0;
                while m < n
                    invariant
                        n == insns@.len(), m <= n,
                        found ==> insns@.contains(Insn::Label(l)),
                        !found ==> forall|j: int| 0 <= j < m ==> insns@[j] != Insn::Label(l),
                    decreases n - m,
                {
                    match &insns[m] {
                        Insn::Label(x) => {
                            if *x == l {
                                proof { assert(insns@[m as int] == Insn::Label(l)); }
                                found = true;
                            }
                        },
                        _ => {},
                    }
                    m = m + 1;
                }
                if !found {
                    proof {
                        assert(!insns@.contains(Insn::Label(l))) by {
                            if insns@.contains(Insn::Label(l)) {
                                let j = choose|j: int| 0 <= j < insns@.len() && insns@[j] == Insn::Label(l);
                                assert(insns@[j] != Insn::Label(l));
                            }
                        }
                    }
                    return false;
                }
            },
            None => {},
        }
        k = k + 1;
    }
    true
}

} // verus!
