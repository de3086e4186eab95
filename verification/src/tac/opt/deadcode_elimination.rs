//! Dead-code elimination: blocks that control never reaches are dropped,
//! then jumps to the block that follows anyway, and labels that only the
//! block before falls through to.

use vstd::prelude::*;
use super::super::tac::{Function, Insn};
use super::super::codegen::{CodeGen, Opt};
use super::cfg::{BasicBlock, Graph, NodeId, blocks_of, buildable, flatten, preds_of, succs_of};

verus! {

broadcast use vstd::seq_lib::group_seq_properties;

/// A set of nodes that holds the entry and the first block, and the
/// successors of each of its blocks.
pub open spec fn closed_set(bs: Seq<Seq<Insn>>, s: Set<NodeId>) -> bool {
    &&& s.contains(NodeId::Entry)
    &&& s.contains(NodeId::BasicBlock(0))
    &&& forall|b: int| 0 <= b < bs.len() && #[trigger] s.contains(NodeId::BasicBlock(b as usize)) ==> succs_of(bs, b).subset_of(s)
}

/// The nodes control can reach from the entry: the least closed set.
pub open spec fn reachable(bs: Seq<Seq<Insn>>, r: Set<NodeId>) -> bool {
    &&& closed_set(bs, r)
    &&& forall|s: Set<NodeId>| #[trigger] closed_set(bs, s) ==> r.subset_of(s)
}

/// The reachable blocks among the first `m`, in order.
pub open spec fn kept_upto(r: Set<NodeId>, m: int) -> Seq<int>
    decreases m,
{
    if m <= 0 {
        Seq::empty()
    } else {
        kept_upto(r, m - 1) + (if r.contains(NodeId::BasicBlock((m - 1) as usize)) { seq![m - 1] } else { Seq::empty() })
    }
}

/// The reachable blocks, in order.
pub open spec fn kept(bs: Seq<Seq<Insn>>, r: Set<NodeId>) -> Seq<int> {
    kept_upto(r, bs.len() as int)
}

/// The node after the `p`-th kept block, if any: the next kept block, else
/// the exit when it is reachable.
pub open spec fn next_node(r: Set<NodeId>, kb: Seq<int>, p: int) -> Option<NodeId> {
    if p + 1 < kb.len() {
        Some(NodeId::BasicBlock(kb[p + 1] as usize))
    } else if r.contains(NodeId::Exit) {
        Some(NodeId::Exit)
    } else {
        None
    }
}

/// The node before the `p`-th kept block.
pub open spec fn prev_node(kb: Seq<int>, p: int) -> NodeId {
    if p == 0 { NodeId::Entry } else { NodeId::BasicBlock(kb[p - 1] as usize) }
}

pub open spec fn is_jumpish(i: Insn) -> bool {
    i is Jump || i is BranchIfZero || i is BranchNotZero
}

/// The `p`-th kept block without its final jump or branch when every
/// (reachable) successor is the node that follows it anyway.
pub open spec fn after_jumps(bs: Seq<Seq<Insn>>, r: Set<NodeId>, kb: Seq<int>, p: int) -> Seq<Insn> {
    let b = kb[p];
    let ins = bs[b];
    match next_node(r, kb, p) {
        Some(nx) => if is_jumpish(ins.last()) && succs_of(bs, b).intersect(r).subset_of(set![nx]) { ins.drop_last() } else { ins },
        None => ins,
    }
}

/// Then without its first label when every (reachable) predecessor is the
/// node before it.
pub open spec fn after_labels(bs: Seq<Seq<Insn>>, r: Set<NodeId>, kb: Seq<int>, p: int) -> Seq<Insn> {
    let ins = after_jumps(bs, r, kb, p);
    if preds_of(bs, kb[p]).intersect(r).subset_of(set![prev_node(kb, p)]) && ins.len() > 0 && ins[0] is Label {
        ins.drop_first()
    } else {
        ins
    }
}

/// The body after dead-code elimination.
pub open spec fn dce_body(bs: Seq<Seq<Insn>>, r: Set<NodeId>) -> Seq<Insn> {
    let kb = kept(bs, r);
    flatten(Seq::new(kb.len(), |p: int| after_labels(bs, r, kb, p)))
}

/// The position of a node in the table of visited nodes: the entry first,
/// then the blocks, then the exit.
pub open spec fn node_idx(id: NodeId, n: int) -> int {
    match id {
        NodeId::Entry => 0,
        NodeId::BasicBlock(b) => b + 1,
        NodeId::Exit => n + 1,
    }
}

pub open spec fn valid_node(id: NodeId, n: int) -> bool {
    id matches NodeId::BasicBlock(b) ==> b < n
}

/// The nodes a table marks visited.
pub open spec fn vis_set(v: Seq<bool>, n: int) -> Set<NodeId> {
    Set::new(|id: NodeId| valid_node(id, n) && v[node_idx(id, n)])
}

pub open spec fn count_false(v: Seq<bool>) -> nat
    decreases v.len(),
{
    if v.len() == 0 { 0 } else { count_false(v.drop_last()) + (if v.last() { 0nat } else { 1nat }) }
}

proof fn lemma_count_false_update(v: Seq<bool>, i: int)
    requires 0 <= i < v.len(), !v[i],
    ensures count_false(v.update(i, true)) + 1 == count_false(v),
    decreases v.len(),
{
    if i < v.len() - 1 {
        lemma_count_false_update(v.drop_last(), i);
        assert(v.update(i, true).drop_last() =~= v.drop_last().update(i, true));
    } else {
        assert(v.update(i, true).drop_last() =~= v.drop_last());
    }
}

fn idx_of(id: NodeId, n: usize) -> (r: usize)
    requires valid_node(id, n as int), n < usize::MAX,
    ensures r as int == node_idx(id, n as int), r <= n + 1,
{
    match id {
        NodeId::Entry => 0,
        NodeId::BasicBlock(b) => b + 1,
        NodeId::Exit => n + 1,
    }
}

/// The nodes reachable from the entry, by a search from it.
fn reach(cfg: &Graph, Ghost(bs): Ghost<Seq<Seq<Insn>>>) -> (r: Vec<bool>)
    requires
        cfg.wf(), cfg.block_seqs() == bs, cfg.blocks@.len() < usize::MAX - 2,
        forall|b: int| 0 <= b < cfg.blocks@.len() ==> (#[trigger] cfg.blocks@[b]).successors@.to_set() == succs_of(bs, b),
    ensures
        r@.len() == cfg.blocks@.len() + 2,
        reachable(bs, vis_set(r@, cfg.blocks@.len() as int)),
{
    let n = cfg.blocks.len();
    let ghost ni = n as int;
    proof {
        assert(bs.len() == n) by { assert(cfg.block_seqs().len() == cfg.blocks@.len()); }
        assert forall|b: int, t: NodeId| 0 <= b < ni && #[trigger] succs_of(bs, b).contains(t) implies valid_node(t, ni) by {
            lemma_succ_valid(cfg, bs, b, t);
        }
    }
    let mut vis: Vec<bool> = Vec::new();
    let mut k: usize = 0;
    while k < n + 2
        invariant k <= n + 2, n < usize::MAX - 2, vis@.len() == k, forall|j: int| 0 <= j < k ==> !vis@[j],
        decreases n + 2 - k,
    {
        vis.push(false);
        k = k + 1;
    }
    let mut remaining: usize = n + 2;
    proof {
        lemma_count_all_false(vis@, vis@.len() as int);
        assert(vis@.subrange(0, vis@.len() as int) =~= vis@);
    }
    let mut queue: Vec<NodeId> = Vec::new();
    queue.push(NodeId::Entry);
    proof { assert(queue@[0] == NodeId::Entry); }
    while queue.len() > 0
        invariant
            n == cfg.blocks@.len(), ni == n, bs.len() == n, n < usize::MAX - 2, cfg.wf(), cfg.block_seqs() == bs,
            forall|b: int| 0 <= b < cfg.blocks@.len() ==> (#[trigger] cfg.blocks@[b]).successors@.to_set() == succs_of(bs, b),
            forall|b: int, t: NodeId| 0 <= b < ni && #[trigger] succs_of(bs, b).contains(t) ==> valid_node(t, ni),
            vis@.len() == n + 2,
            remaining == count_false(vis@),
            forall|q: int| 0 <= q < queue@.len() ==> valid_node(#[trigger] queue@[q], ni),
            vis@[0] || queue@.contains(NodeId::Entry),
            vis@[0] ==> vis@[1] || queue@.contains(NodeId::BasicBlock(0)),
            forall|b: int| 0 <= b < ni && #[trigger] vis@[b + 1] ==> forall|t: NodeId| #[trigger] succs_of(bs, b).contains(t)
                ==> vis@[node_idx(t, ni)] || queue@.contains(t),
            forall|s: Set<NodeId>| #[trigger] closed_set(bs, s) ==> vis_set(vis@, ni).subset_of(s)
                && forall|q: int| 0 <= q < queue@.len() ==> s.contains(#[trigger] queue@[q]),
        decreases remaining, queue@.len(),
    {
        let ghost q0 = queue@;
        let ghost v0 = vis@;
        let id = queue.remove(0);
        proof {
            assert(id == q0[0]);
            assert(valid_node(q0[0], ni));
            assert(queue@ =~= q0.subrange(1, q0.len() as int));
            assert forall|x: NodeId| #[trigger] q0.contains(x) && x != id implies queue@.contains(x) by {
                let i = choose|i: int| 0 <= i < q0.len() && q0[i] == x;
                assert(i > 0);
                assert(queue@[i - 1] == x);
            }
        }
        let ghost q_mid = queue@;
        let ix = idx_of(id, n);
        if !vis[ix] {
            vis.set(ix, true);
            proof {
                lemma_count_false_update(v0, ix as int);
                assert(vis@ == v0.update(ix as int, true));
            }
            remaining = remaining - 1;
            match id {
                NodeId::Entry => {
                    if !vis[1] {
                        queue.push(NodeId::BasicBlock(0));
                        proof {
                            assert(queue@[q_mid.len() as int] == NodeId::BasicBlock(0));
                            assert forall|x: NodeId| #[trigger] q_mid.contains(x) implies queue@.contains(x) by {
                                let i = choose|i: int| 0 <= i < q_mid.len() && q_mid[i] == x;
                                assert(queue@[i] == x);
                            }
                        }
                    }
                },
                NodeId::BasicBlock(b) => {
                    let succs = &cfg.blocks[b].successors;
                    let mut j: usize = 0;
                    while j < succs.len()
                        invariant
                            j <= succs@.len(), succs == &cfg.blocks@[b as int].successors, b < n, ni == n, n == cfg.blocks@.len(),
                            cfg.wf(), vis@.len() == n + 2, n < usize::MAX - 2,
                            forall|q: int| 0 <= q < queue@.len() ==> valid_node(#[trigger] queue@[q], ni),
                            forall|x: NodeId| #[trigger] q_mid.contains(x) ==> queue@.contains(x),
                            forall|m: int| 0 <= m < j ==> vis@[node_idx(#[trigger] succs@[m], ni)] || queue@.contains(succs@[m]),
                            forall|q: int| 0 <= q < queue@.len() ==> (q_mid.contains(#[trigger] queue@[q]) || succs@.contains(queue@[q])),
                            forall|q: int| 0 <= q < q_mid.len() ==> valid_node(#[trigger] q_mid[q], ni),
                        decreases succs@.len() - j,
                    {
                        let t = succs[j];
                        proof { assert(cfg.blocks@[b as int].successors@[j as int] == t); }
                        let tix = idx_of(t, n);
                        let ghost w = queue@;
                        if !vis[tix] {
                            queue.push(t);
                            proof {
                                assert forall|x: NodeId| #[trigger] q_mid.contains(x) implies queue@.contains(x) by {
                                    assert(w.contains(x));
                                    let i = choose|i: int| 0 <= i < w.len() && w[i] == x;
                                    assert(queue@[i] == x);
                                }
                                assert(queue@[w.len() as int] == t);
                                assert forall|m: int| 0 <= m < j + 1 implies vis@[node_idx(#[trigger] succs@[m], ni)] || queue@.contains(succs@[m]) by {
                                    if m < j && !vis@[node_idx(succs@[m], ni)] {
                                        assert(w.contains(succs@[m]));
                                        let i = choose|i: int| 0 <= i < w.len() && w[i] == succs@[m];
                                        assert(queue@[i] == succs@[m]);
                                    }
                                }
                                assert forall|q: int| 0 <= q < queue@.len() implies (q_mid.contains(#[trigger] queue@[q]) || succs@.contains(queue@[q])) by {
                                    if q < w.len() { assert(queue@[q] == w[q]); }
                                    else { assert(succs@[j as int] == t); }
                                }
                            }
                        }
                        j = j + 1;
                    }
                    proof {
                        assert(succ_set(bs, id) == succs@.to_set());
                    }
                },
                NodeId::Exit => {},
            }
            proof {
                assert forall|t: NodeId| #[trigger] succ_set(bs, id).contains(t) implies vis@[node_idx(t, ni)] || queue@.contains(t) by {
                    if let NodeId::BasicBlock(b) = id {
                        let succs = cfg.blocks@[b as int].successors@;
                        let m = choose|m: int| 0 <= m < succs.len() && succs[m] == t;
                    }
                }
                assert forall|q: int| 0 <= q < queue@.len() implies (#[trigger] queue@[q] == id || q0.contains(queue@[q])
                    || succ_set(bs, id).contains(queue@[q])) by {
                    if q_mid.contains(queue@[q]) {
                        let i = choose|i: int| 0 <= i < q_mid.len() && q_mid[i] == queue@[q];
                        assert(q0[i + 1] == queue@[q]);
                    }
                }
                assert(forall|x: NodeId| #[trigger] q_mid.contains(x) ==> queue@.contains(x));
                assert forall|x: NodeId| #[trigger] q0.contains(x) && x != id implies queue@.contains(x) by {
                    assert(q_mid.contains(x));
                }
                lemma_search_step(bs, ni, v0, q0, vis@, queue@, id);
            }
        } else {
            proof {
                assert forall|q: int| 0 <= q < queue@.len() implies (#[trigger] queue@[q] == id || q0.contains(queue@[q])
                    || succ_set(bs, id).contains(queue@[q])) by {
                    assert(q0[q + 1] == queue@[q]);
                }
                lemma_search_step(bs, ni, v0, q0, vis@, queue@, id);
            }
        }
    }
    proof {
        let r = vis_set(vis@, ni);
        assert(r.contains(NodeId::Entry));
        assert(r.contains(NodeId::BasicBlock(0)));
        assert forall|b: int| 0 <= b < bs.len() && #[trigger] r.contains(NodeId::BasicBlock(b as usize)) implies succs_of(bs, b).subset_of(r) by {
            assert(vis@[b + 1]);
        }
    }
    vis
}

/// The successors of a block are nodes of the graph.
proof fn lemma_succ_valid(cfg: &Graph, bs: Seq<Seq<Insn>>, b: int, t: NodeId)
    requires
        cfg.wf(), 0 <= b < cfg.blocks@.len(),
        forall|c: int| 0 <= c < cfg.blocks@.len() ==> (#[trigger] cfg.blocks@[c]).successors@.to_set() == succs_of(bs, c),
        succs_of(bs, b).contains(t),
    ensures valid_node(t, cfg.blocks@.len() as int), t != NodeId::Entry,
{
    assert(cfg.blocks@[b].successors@.to_set().contains(t));
    let k = choose|k: int| 0 <= k < cfg.blocks@[b].successors@.len() && cfg.blocks@[b].successors@[k] == t;
}

/// Where a node leads: the first block from the entry, the successors of a block.
pub open spec fn succ_set(bs: Seq<Seq<Insn>>, id: NodeId) -> Set<NodeId> {
    match id {
        NodeId::Entry => set![NodeId::BasicBlock(0)],
        NodeId::BasicBlock(b) => succs_of(bs, b as int),
        NodeId::Exit => Set::empty(),
    }
}

/// One step of the search keeps its invariant: the node taken from the
/// queue is visited, and when it was not before, what it leads to is
/// visited or queued.
proof fn lemma_search_step(bs: Seq<Seq<Insn>>, n: int, v0: Seq<bool>, q0: Seq<NodeId>, v1: Seq<bool>, q1: Seq<NodeId>, id: NodeId)
    requires
        n == bs.len(), n > 0, v0.len() == n + 2,
        q0.len() > 0, id == q0[0], valid_node(id, n),
        forall|q: int| 0 <= q < q0.len() ==> valid_node(#[trigger] q0[q], n),
        v0[0] || q0.contains(NodeId::Entry),
        v0[0] ==> v0[1] || q0.contains(NodeId::BasicBlock(0)),
        forall|b: int| 0 <= b < n && #[trigger] v0[b + 1] ==> forall|t: NodeId| #[trigger] succs_of(bs, b).contains(t)
            ==> v0[node_idx(t, n)] || q0.contains(t),
        forall|s: Set<NodeId>| #[trigger] closed_set(bs, s) ==> vis_set(v0, n).subset_of(s)
            && forall|q: int| 0 <= q < q0.len() ==> s.contains(#[trigger] q0[q]),
        forall|b: int, t: NodeId| 0 <= b < n && #[trigger] succs_of(bs, b).contains(t) ==> valid_node(t, n),
        v1 == v0 || (!v0[node_idx(id, n)] && v1 == v0.update(node_idx(id, n), true)),
        v1[node_idx(id, n)],
        forall|x: NodeId| #[trigger] q0.contains(x) && x != id ==> q1.contains(x),
        forall|q: int| 0 <= q < q1.len() ==> (#[trigger] q1[q] == id || q0.contains(q1[q]) || succ_set(bs, id).contains(q1[q])),
        forall|q: int| 0 <= q < q1.len() ==> valid_node(#[trigger] q1[q], n),
        v1 != v0 ==> forall|t: NodeId| #[trigger] succ_set(bs, id).contains(t) ==> v1[node_idx(t, n)] || q1.contains(t),
    ensures
        v1[0] || q1.contains(NodeId::Entry),
        v1[0] ==> v1[1] || q1.contains(NodeId::BasicBlock(0)),
        forall|b: int| 0 <= b < n && #[trigger] v1[b + 1] ==> forall|t: NodeId| #[trigger] succs_of(bs, b).contains(t)
            ==> v1[node_idx(t, n)] || q1.contains(t),
        forall|s: Set<NodeId>| #[trigger] closed_set(bs, s) ==> vis_set(v1, n).subset_of(s)
            && forall|q: int| 0 <= q < q1.len() ==> s.contains(#[trigger] q1[q]),
{
    let ix = node_idx(id, n);
    assert(q0[0] == id && q0.contains(id));
    // a visited table only grows
    assert forall|j: int| 0 <= j < v0.len() && #[trigger] v0[j] implies v1[j] by {}
    if !v1[0] {
        assert(!v0[0]);
        assert(id != NodeId::Entry);
        assert(q1.contains(NodeId::Entry));
    }
    if v1[0] && !v1[1] {
        if v0[0] {
            assert(id != NodeId::BasicBlock(0));
            assert(q0.contains(NodeId::BasicBlock(0)));
        } else {
            assert(id == NodeId::Entry);
            assert(v1 != v0);
            assert(succ_set(bs, id).contains(NodeId::BasicBlock(0)));
        }
    }
    assert forall|b: int| 0 <= b < n && #[trigger] v1[b + 1] implies forall|t: NodeId| #[trigger] succs_of(bs, b).contains(t)
        ==> v1[node_idx(t, n)] || q1.contains(t) by {
        assert forall|t: NodeId| #[trigger] succs_of(bs, b).contains(t) implies v1[node_idx(t, n)] || q1.contains(t) by {
            if v0[b + 1] {
                if !v0[node_idx(t, n)] {
                    assert(q0.contains(t));
                    if t != id { assert(q1.contains(t)); }
                }
            } else {
                assert(v1 != v0);
                assert(b + 1 == ix);
                assert(id == NodeId::BasicBlock(b as usize));
                assert(succ_set(bs, id).contains(t));
            }
        }
    }
    assert forall|s: Set<NodeId>| #[trigger] closed_set(bs, s) implies vis_set(v1, n).subset_of(s)
        && forall|q: int| 0 <= q < q1.len() ==> s.contains(#[trigger] q1[q]) by {
        assert(s.contains(id));
        assert(succ_set(bs, id).subset_of(s)) by {
            if let NodeId::BasicBlock(b) = id {
                let bi = b as int;
                assert(0 <= bi < bs.len());
                assert(s.contains(NodeId::BasicBlock(bi as usize)));
                assert(succs_of(bs, bi).subset_of(s));
            }
        }
        assert forall|x: NodeId| vis_set(v1, n).contains(x) implies s.contains(x) by {
            if !v0[node_idx(x, n)] {
                assert(node_idx(x, n) == ix);
                assert(x == id) by {
                    match x {
                        NodeId::Entry => {},
                        NodeId::BasicBlock(b) => {},
                        NodeId::Exit => {},
                    }
                }
            } else {
                assert(vis_set(v0, n).contains(x));
            }
        }
        assert forall|q: int| 0 <= q < q1.len() implies s.contains(#[trigger] q1[q]) by {
            if q0.contains(q1[q]) {
                let i = choose|i: int| 0 <= i < q0.len() && q0[i] == q1[q];
                assert(s.contains(q0[i]));
            }
        }
    }
}

proof fn lemma_count_all_false(v: Seq<bool>, m: int)
    requires 0 <= m <= v.len(), forall|j: int| 0 <= j < v.len() ==> !v[j],
    ensures count_false(v.subrange(0, m)) == m,
    decreases m,
{
    if m > 0 {
        lemma_count_all_false(v, m - 1);
        assert(v.subrange(0, m).drop_last() =~= v.subrange(0, m - 1));
    }
}

/// The blocks after pruning: the reachable blocks in order, each with its
/// instructions and its edges to reachable nodes.
pub open spec fn pruned(bs: Seq<Seq<Insn>>, r: Set<NodeId>, blocks: Seq<BasicBlock>) -> bool {
    let kb = kept(bs, r);
    &&& blocks.len() == kb.len()
    &&& forall|p: int| 0 <= p < kb.len() ==> {
        let blk = #[trigger] blocks[p];
        &&& blk.id == kb[p]
        &&& blk.successors@.to_set() == succs_of(bs, kb[p]).intersect(r)
        &&& blk.predecessors@.to_set() == preds_of(bs, kb[p]).intersect(r)
    }
}

proof fn lemma_kept_upto_len(r: Set<NodeId>, m: int)
    ensures kept_upto(r, m).len() <= if m < 0 { 0 } else { m },
        forall|j: int| 0 <= j < kept_upto(r, m).len() ==> 0 <= #[trigger] kept_upto(r, m)[j] < m
            && r.contains(NodeId::BasicBlock(kept_upto(r, m)[j] as usize)),
    decreases m,
{
    if m > 0 {
        lemma_kept_upto_len(r, m - 1);
    }
}

/// The nodes of a list that a table marks visited.
fn retain_visited(v: Vec<NodeId>, vis: &Vec<bool>, n: usize) -> (r: Vec<NodeId>)
    requires
        vis@.len() == n + 2, n < usize::MAX - 2,
        forall|k: int| 0 <= k < v@.len() ==> valid_node(#[trigger] v@[k], n as int),
    ensures r@.to_set() == v@.to_set().intersect(vis_set(vis@, n as int)),
{
    let mut out: Vec<NodeId> = Vec::new();
    let mut k: usize = 0;
    while k < v.len()
        invariant
            k <= v@.len(), vis@.len() == n + 2, n < usize::MAX - 2,
            forall|j: int| 0 <= j < v@.len() ==> valid_node(#[trigger] v@[j], n as int),
            out@.to_set() == v@.subrange(0, k as int).to_set().intersect(vis_set(vis@, n as int)),
        decreases v@.len() - k,
    {
        let x = v[k];
        let ghost o = out@;
        proof { assert(valid_node(v@[k as int], n as int)); }
        if vis[idx_of(x, n)] {
            out.push(x);
            proof { assert(out@.to_set() =~= o.to_set().insert(x)); }
        }
        proof {
            assert(v@.subrange(0, k as int + 1).to_set() =~= v@.subrange(0, k as int).to_set().insert(x));
            assert(out@.to_set() =~= v@.subrange(0, k as int + 1).to_set().intersect(vis_set(vis@, n as int)));
        }
        k = k + 1;
    }
    proof { assert(v@.subrange(0, k as int) =~= v@); }
    out
}

/// The reachable blocks in order, with their edges to unreachable nodes dropped.
fn prune_blocks(cfg: Graph, vis: &Vec<bool>, Ghost(bs): Ghost<Seq<Seq<Insn>>>) -> (r: Vec<BasicBlock>)
    requires
        cfg.wf(), cfg.block_seqs() == bs, cfg.blocks@.len() < usize::MAX - 2,
        vis@.len() == cfg.blocks@.len() + 2,
        forall|b: int| 0 <= b < cfg.blocks@.len() ==> (#[trigger] cfg.blocks@[b]).successors@.to_set() == succs_of(bs, b)
            && cfg.blocks@[b].predecessors@.to_set() == preds_of(bs, b),
    ensures
        pruned(bs, vis_set(vis@, cfg.blocks@.len() as int), r@),
        forall|p: int| 0 <= p < r@.len() ==> (#[trigger] r@[p]).insns@ == bs[r@[p].id as int],
{
    let n = cfg.blocks.len();
    let ghost ni = n as int;
    let ghost rs = vis_set(vis@, ni);
    let ghost bl0 = cfg.blocks@;
    proof {
        assert(bs.len() == n) by { assert(cfg.block_seqs().len() == cfg.blocks@.len()); }
        assert forall|c: int, k: int| 0 <= c < n && 0 <= k < bl0[c].predecessors@.len() implies valid_node(#[trigger] bl0[c].predecessors@[k], ni) by {
            assert(bl0[c].predecessors@.to_set().contains(bl0[c].predecessors@[k]));
        }
        assert forall|c: int| 0 <= c < n implies (#[trigger] bl0[c]).id == c && bl0[c].insns@ == bs[c] by {
            assert(cfg.block_seqs()[c] == bl0[c].insns@);
        }
    }
    let mut rest = cfg.blocks;
    let mut out: Vec<BasicBlock> = Vec::new();
    let mut b: usize = 0;
    while rest.len() > 0
        invariant
            b + rest@.len() == n, n == bl0.len(), ni == n, bs.len() == n, n < usize::MAX - 2,
            rest@ == bl0.subrange(b as int, n as int),
            vis@.len() == n + 2, rs == vis_set(vis@, ni),
            forall|c: int| 0 <= c < n ==> (#[trigger] bl0[c]).id == c && bl0[c].insns@ == bs[c],
            forall|c: int| 0 <= c < n ==> (#[trigger] bl0[c]).successors@.to_set() == succs_of(bs, c)
                && bl0[c].predecessors@.to_set() == preds_of(bs, c),
            forall|c: int, k: int| 0 <= c < n && 0 <= k < bl0[c].successors@.len() ==> valid_node(#[trigger] bl0[c].successors@[k], ni),
            forall|c: int, k: int| 0 <= c < n && 0 <= k < bl0[c].predecessors@.len() ==> valid_node(#[trigger] bl0[c].predecessors@[k], ni),
            out@.len() == kept_upto(rs, b as int).len(),
            forall|p: int| 0 <= p < out@.len() ==> {
                let blk = #[trigger] out@[p];
                &&& blk.id == kept_upto(rs, b as int)[p]
                &&& blk.insns@ == bs[blk.id as int]
                &&& blk.successors@.to_set() == succs_of(bs, blk.id as int).intersect(rs)
                &&& blk.predecessors@.to_set() == preds_of(bs, blk.id as int).intersect(rs)
            },
        decreases rest@.len(),
    {
        let blk = rest.remove(0);
        proof {
            assert(blk == bl0[b as int]);
            assert(rest@ =~= bl0.subrange(b as int + 1, n as int));
        }
        let BasicBlock { id, insns, predecessors, successors } = blk;
        if vis[b + 1] {
            let succs = retain_visited(successors, vis, n);
            let preds = retain_visited(predecessors, vis, n);
            let ghost before = out@;
            out.push(BasicBlock { id, insns, predecessors: preds, successors: succs });
            proof {
                assert(rs.contains(NodeId::BasicBlock(b)));
                assert(kept_upto(rs, b as int + 1) == kept_upto(rs, b as int) + seq![b as int]);
                assert forall|p: int| 0 <= p < out@.len() implies {
                    let blk = #[trigger] out@[p];
                    &&& blk.id == kept_upto(rs, b as int + 1)[p]
                    &&& blk.insns@ == bs[blk.id as int]
                    &&& blk.successors@.to_set() == succs_of(bs, blk.id as int).intersect(rs)
                    &&& blk.predecessors@.to_set() == preds_of(bs, blk.id as int).intersect(rs)
                } by {
                    if p < before.len() { assert(out@[p] == before[p]); }
                }
            }
        } else {
            proof {
                assert(!rs.contains(NodeId::BasicBlock(b)));
                assert(kept_upto(rs, b as int + 1) =~= kept_upto(rs, b as int));
            }
        }
        b = b + 1;
    }
    proof {
        assert(kept(bs, rs) == kept_upto(rs, b as int));
    }
    out
}

/// Whether every node of the list is `x`.
fn all_equal(v: &Vec<NodeId>, x: NodeId) -> (r: bool)
    ensures r == v@.to_set().subset_of(set![x]),
{
    let mut k: usize = 0;
    while k < v.len()
        invariant k <= v@.len(), forall|j: int| 0 <= j < k ==> v@[j] == x,
        decreases v@.len() - k,
    {
        if v[k] != x {
            proof { assert(v@.to_set().contains(v@[k as int])); }
            return false;
        }
        k = k + 1;
    }
    proof {
        assert forall|y: NodeId| v@.to_set().contains(y) implies set![x].contains(y) by {
            let j = choose|j: int| 0 <= j < v@.len() && v@[j] == y;
        }
    }
    true
}

/// Drops the final jump or branch of each block whose reachable successors
/// are all the node that follows it anyway.
fn remove_useless_jumps(blocks: Vec<BasicBlock>, has_exit: bool, Ghost(bs): Ghost<Seq<Seq<Insn>>>, Ghost(r): Ghost<Set<NodeId>>)
    -> (out: Vec<BasicBlock>)
    requires
        pruned(bs, r, blocks@),
        forall|p: int| 0 <= p < blocks@.len() ==> (#[trigger] blocks@[p]).insns@ == bs[blocks@[p].id as int]
            && blocks@[p].insns@.len() > 0,
        has_exit == r.contains(NodeId::Exit),
    ensures
        pruned(bs, r, out@),
        forall|p: int| 0 <= p < out@.len() ==> (#[trigger] out@[p]).insns@ == after_jumps(bs, r, kept(bs, r), p),
{
    let ghost kb = kept(bs, r);
    let ghost b0 = blocks@;
    let mut blocks = blocks;
    let k = blocks.len();
    let mut p: usize = 0;
    while p < k
        invariant
            p <= k, k == blocks@.len(), k == b0.len(), kb == kept(bs, r), has_exit == r.contains(NodeId::Exit),
            pruned(bs, r, b0),
            forall|q: int| 0 <= q < k ==> (#[trigger] b0[q]).insns@ == bs[b0[q].id as int] && b0[q].insns@.len() > 0,
            forall|q: int| 0 <= q < k ==> (#[trigger] blocks@[q]).id == b0[q].id
                && blocks@[q].successors == b0[q].successors && blocks@[q].predecessors == b0[q].predecessors,
            forall|q: int| 0 <= q < p ==> (#[trigger] blocks@[q]).insns@ == after_jumps(bs, r, kb, q),
            forall|q: int| p <= q < k ==> (#[trigger] blocks@[q]).insns@ == b0[q].insns@,
        decreases k - p,
    {
        let next: Option<NodeId> = if p + 1 < k {
            Some(NodeId::BasicBlock(blocks[p + 1].id))
        } else if has_exit {
            Some(NodeId::Exit)
        } else {
            None
        };
        proof {
            assert(b0[p as int].id == kb[p as int]);
            if p + 1 < k { assert(b0[p as int + 1].id == kb[p as int + 1]); }
            assert(next == next_node(r, kb, p as int));
        }
        let ghost before = blocks@;
        let mut blk = blocks.remove(p);
        match next {
            Some(nx) => {
                let n_ins = blk.insns.len();
                let jumpish = match &blk.insns[n_ins - 1] {
                    Insn::Jump(_) | Insn::BranchIfZero { .. } | Insn::BranchNotZero { .. } => true,
                    _ => false,
                };
                proof { assert(blk.insns@.last() == blk.insns@[n_ins - 1]); }
                if jumpish && all_equal(&blk.successors, nx) {
                    let _ = blk.insns.pop();
                }
            },
            None => {},
        }
        let ghost nb = blk;
        blocks.insert(p, blk);
        proof {
            assert(nb.insns@ == after_jumps(bs, r, kb, p as int));
            assert forall|q: int| 0 <= q < k implies (#[trigger] blocks@[q]).id == b0[q].id
                && blocks@[q].successors == b0[q].successors && blocks@[q].predecessors == b0[q].predecessors by {
                if q != p { assert(blocks@[q] == before[q]); }
            }
            assert forall|q: int| 0 <= q < p + 1 implies (#[trigger] blocks@[q]).insns@ == after_jumps(bs, r, kb, q) by {
                if q != p { assert(blocks@[q] == before[q]); }
            }
            assert forall|q: int| p + 1 <= q < k implies (#[trigger] blocks@[q]).insns@ == b0[q].insns@ by {
                assert(blocks@[q] == before[q]);
            }
        }
        p = p + 1;
    }
    proof {
        assert forall|q: int| 0 <= q < kb.len() implies {
            let blk = #[trigger] blocks@[q];
            &&& blk.id == kb[q]
            &&& blk.successors@.to_set() == succs_of(bs, kb[q]).intersect(r)
            &&& blk.predecessors@.to_set() == preds_of(bs, kb[q]).intersect(r)
        } by {
            assert(b0[q].id == kb[q]);
        }
    }
    blocks
}

/// Drops the first label of each block whose reachable predecessors are all
/// the node before it.
fn remove_useless_labels(blocks: Vec<BasicBlock>, Ghost(bs): Ghost<Seq<Seq<Insn>>>, Ghost(r): Ghost<Set<NodeId>>)
    -> (out: Vec<BasicBlock>)
    requires
        pruned(bs, r, blocks@),
        forall|p: int| 0 <= p < blocks@.len() ==> (#[trigger] blocks@[p]).insns@ == after_jumps(bs, r, kept(bs, r), p),
    ensures
        out@.len() == blocks@.len(),
        forall|p: int| 0 <= p < out@.len() ==> (#[trigger] out@[p]).insns@ == after_labels(bs, r, kept(bs, r), p),
{
    let ghost kb = kept(bs, r);
    let ghost b0 = blocks@;
    let mut blocks = blocks;
    let k = blocks.len();
    let mut p: usize = 0;
    while p < k
        invariant
            p <= k, k == blocks@.len(), k == b0.len(), kb == kept(bs, r),
            pruned(bs, r, b0),
            forall|q: int| 0 <= q < k ==> (#[trigger] b0[q]).insns@ == after_jumps(bs, r, kb, q),
            forall|q: int| 0 <= q < k ==> (#[trigger] blocks@[q]).id == b0[q].id
                && blocks@[q].successors == b0[q].successors && blocks@[q].predecessors == b0[q].predecessors,
            forall|q: int| 0 <= q < p ==> (#[trigger] blocks@[q]).insns@ == after_labels(bs, r, kb, q),
            forall|q: int| p <= q < k ==> (#[trigger] blocks@[q]).insns@ == b0[q].insns@,
        decreases k - p,
    {
        let prev: NodeId = if p == 0 { NodeId::Entry } else { NodeId::BasicBlock(blocks[p - 1].id) };
        proof {
            assert(b0[p as int].id == kb[p as int]);
            if p > 0 { assert(b0[p as int - 1].id == kb[p as int - 1]); }
            assert(prev == prev_node(kb, p as int));
        }
        let ghost before = blocks@;
        let mut blk = blocks.remove(p);
        if all_equal(&blk.predecessors, prev) && blk.insns.len() > 0 {
            let is_label = match &blk.insns[0] {
                Insn::Label(_) => true,
                _ => false,
            };
            if is_label {
                let _ = blk.insns.remove(0);
                proof { assert(blk.insns@ =~= before[p as int].insns@.drop_first()); }
            }
        }
        let ghost nb = blk;
        blocks.insert(p, blk);
        proof {
            assert(nb.insns@ == after_labels(bs, r, kb, p as int));
            assert forall|q: int| 0 <= q < k implies (#[trigger] blocks@[q]).id == b0[q].id
                && blocks@[q].successors == b0[q].successors && blocks@[q].predecessors == b0[q].predecessors by {
                if q != p { assert(blocks@[q] == before[q]); }
            }
            assert forall|q: int| 0 <= q < p + 1 implies (#[trigger] blocks@[q]).insns@ == after_labels(bs, r, kb, q) by {
                if q != p { assert(blocks@[q] == before[q]); }
            }
            assert forall|q: int| p + 1 <= q < k implies (#[trigger] blocks@[q]).insns@ == b0[q].insns@ by {
                assert(blocks@[q] == before[q]);
            }
        }
        p = p + 1;
    }
    blocks
}

/// The instructions of the blocks, in order.
fn emit_blocks(blocks: Vec<BasicBlock>) -> (r: Vec<Insn>)
    ensures r@ == flatten(blocks@.map_values(|b: BasicBlock| b.insns@)),
{
    let g = Graph { entry: Vec::new(), blocks, exit: Vec::new() };
    g.emit()
}

/// Two reachable sets are the same set.
proof fn lemma_reachable_unique(bs: Seq<Seq<Insn>>, r1: Set<NodeId>, r2: Set<NodeId>)
    requires reachable(bs, r1), reachable(bs, r2),
    ensures r1 == r2,
{
    assert(r1.subset_of(r2));
    assert(r2.subset_of(r1));
    assert(r1 =~= r2);
}

proof fn lemma_flatten_len(bs: Seq<Seq<Insn>>)
    requires forall|b: int| 0 <= b < bs.len() ==> (#[trigger] bs[b]).len() > 0,
    ensures flatten(bs).len() >= bs.len(),
    decreases bs.len(),
{
    if bs.len() > 0 {
        lemma_flatten_len(bs.drop_last());
    }
}

/// A body that dead-code elimination accepts: its graph can be built, and
/// it is short enough to number its nodes.
pub open spec fn dce_ready(body: Seq<Insn>) -> bool {
    buildable(body) && body.len() < usize::MAX - 2
}

impl CodeGen<Opt> {
    /// Removes the unreachable blocks of a function's body, then the jumps
    /// and labels that control flow does not need; a declaration is unchanged.
    pub fn deadcode_elimination(&mut self, func: Function) -> (r: Function)
        requires func matches Function::Defined { body, .. } ==> dce_ready(body@),
        ensures
            match func {
                Function::Declared { .. } => r == func,
                Function::Defined { return_type, linkage, name, params, local_vars, body } =>
                    r matches Function::Defined { return_type: rt, linkage: lk, name: nm, params: ps, local_vars: lv, body: b }
                    && rt == return_type && lk == linkage && nm == name && ps == params && lv == local_vars
                    && (exists|rs: Set<NodeId>| #[trigger] reachable(blocks_of(body@), rs))
                    && forall|rs: Set<NodeId>| #[trigger] reachable(blocks_of(body@), rs) ==> b@ == dce_body(blocks_of(body@), rs),
            },
            final(self).static_vars == old(self).static_vars,
    {
        match func {
            Function::Declared { linkage, name, type_ } => Function::Declared { linkage, name, type_ },
            Function::Defined { return_type, linkage, name, params, local_vars, body } => {
                let ghost bs = blocks_of(body@);
                let cfg = Graph::build(body);
                let n = cfg.blocks.len();
                proof {
                    super::cfg::lemma_blocks_flatten(body@);
                    assert forall|b: int| 0 <= b < bs.len() implies (#[trigger] bs[b]).len() > 0 by {
                        assert(cfg.block_seqs()[b] == cfg.blocks@[b].insns@);
                    }
                    lemma_flatten_len(bs);
                    assert(cfg.block_seqs().len() == cfg.blocks@.len());
                }
                let vis = reach(&cfg, Ghost(bs));
                let has_exit = vis[n + 1];
                let ghost rs = vis_set(vis@, n as int);
                proof { assert(has_exit == rs.contains(NodeId::Exit)); }
                let blocks = prune_blocks(cfg, &vis, Ghost(bs));
                proof {
                    lemma_kept_upto_len(rs, bs.len() as int);
                    assert forall|p: int| 0 <= p < blocks@.len() implies (#[trigger] blocks@[p]).insns@ == bs[blocks@[p].id as int]
                        && blocks@[p].insns@.len() > 0 by {
                        assert(blocks@[p].id == kept(bs, rs)[p]);
                        assert(0 <= kept(bs, rs)[p] < bs.len());
                    }
                }
                let blocks = remove_useless_jumps(blocks, has_exit, Ghost(bs), Ghost(rs));
                let blocks = remove_useless_labels(blocks, Ghost(bs), Ghost(rs));
                let ghost kb = kept(bs, rs);
                let ghost final_blocks = blocks@;
                let opted = emit_blocks(blocks);
                proof {
                    assert(final_blocks.map_values(|b: BasicBlock| b.insns@)
                        =~= Seq::new(kb.len(), |p: int| after_labels(bs, rs, kb, p)));
                    assert(reachable(bs, rs));
                    assert forall|r2: Set<NodeId>| #[trigger] reachable(bs, r2) implies opted@ == dce_body(bs, r2) by {
                        lemma_reachable_unique(bs, rs, r2);
                    }
                }
                Function::Defined { return_type, linkage, name, params, local_vars, body: opted }
            },
        }
    }
}

} // verus!
