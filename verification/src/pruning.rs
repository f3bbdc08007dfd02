//! Pruning pass: dead-code elimination. A node is live when it is
//! reachable, following dependency edges backward, from one of the
//! graph's designated outputs; every other node is removed. The pass
//! never fails, and the surviving nodes keep their relative order.

use vstd::prelude::*;
use crate::errors::{res_view, CompileError, ErrV};
use crate::graph::{
    copy_ids, copy_node, lemma_node_views_push, node_views, CompV, Computation, Node, NodeV,
};

verus! {

/// Appends to `s` each identifier of `ids` not already present,
/// starting at position `k`, keeping first-seen order.
pub open spec fn add_ids(s: Seq<u64>, ids: Seq<u64>, k: int) -> Seq<u64>
    decreases ids.len() - k,
{
    if k < 0 || k >= ids.len() {
        s
    } else if s.contains(ids[k]) {
        add_ids(s, ids, k + 1)
    } else {
        add_ids(s.push(ids[k]), ids, k + 1)
    }
}

/// One marking sweep from position `i`: for every node already marked
/// live, marks its direct predecessors.
pub open spec fn sweep(ns: Seq<NodeV>, i: int, s: Seq<u64>) -> Seq<u64>
    decreases ns.len() - i,
{
    if i < 0 || i >= ns.len() {
        s
    } else if s.contains(ns[i].id) {
        sweep(ns, i + 1, add_ids(s, ns[i].inputs, 0))
    } else {
        sweep(ns, i + 1, s)
    }
}

/// `k` marking sweeps in a row; as many sweeps as there are nodes
/// reach every transitively live node.
pub open spec fn iter_sweep(ns: Seq<NodeV>, k: int, s: Seq<u64>) -> Seq<u64>
    decreases k,
{
    if k <= 0 {
        s
    } else {
        iter_sweep(ns, k - 1, sweep(ns, 0, s))
    }
}

/// The identifiers of the live nodes of a graph, in first-seen order:
/// the outputs, closed backward under dependency edges.
pub open spec fn live_ids(c: CompV) -> Seq<u64> {
    iter_sweep(c.nodes, c.nodes.len() as int, add_ids(Seq::empty(), c.outputs, 0))
}

/// The nodes from position `i` on whose identifier is live, in their
/// original order.
pub open spec fn keep_from(ns: Seq<NodeV>, i: int, live: Seq<u64>) -> Seq<NodeV>
    decreases ns.len() - i,
{
    if i < 0 || i >= ns.len() {
        Seq::empty()
    } else if live.contains(ns[i].id) {
        seq![ns[i]] + keep_from(ns, i + 1, live)
    } else {
        keep_from(ns, i + 1, live)
    }
}

/// What the pruning pass returns: the live nodes in their original
/// order, with the outputs unchanged. Pruning never fails.
pub open spec fn spec_prune(c: CompV) -> Result<CompV, ErrV> {
    Ok(CompV { nodes: keep_from(c.nodes, 0, live_ids(c)), outputs: c.outputs })
}

/// Whether the identifier occurs in the vector.
fn contains_id(v: &Vec<u64>, id: u64) -> (b: bool)
    ensures
        b == v@.contains(id),
{
    let mut i: usize = 0;
    while i < v.len()
        invariant
            i <= v.len(),
            forall|j: int| 0 <= j < i ==> v@[j] != id,
        decreases v.len() - i,
    {
        if v[i] == id {
            return true;
        }
        i = i + 1;
    }
    false
}

/// Appends the identifiers of `ids` not yet in `s`, in order.
fn push_new_ids(s: &mut Vec<u64>, ids: &Vec<u64>)
    ensures
        final(s)@ == add_ids(old(s)@, ids@, 0),
{
    let mut k: usize = 0;
    while k < ids.len()
        invariant
            k <= ids.len(),
            add_ids(old(s)@, ids@, 0) == add_ids(s@, ids@, k as int),
        decreases ids.len() - k,
    {
        if !contains_id(s, ids[k]) {
            s.push(ids[k]);
        }
        k = k + 1;
    }
}

/// Removes every node with no transitive consumer among the graph's
/// outputs; never fails, and preserves the relative order of the
/// surviving nodes.
pub fn prune_graph(comp: Computation) -> (r: Result<Computation, CompileError>)
    ensures
        res_view(r) == spec_prune(comp@),
{
    let ghost cv = comp@;
    let mut live: Vec<u64> = Vec::new();
    proof {
        assert(live@ =~= Seq::<u64>::empty());
    }
    push_new_ids(&mut live, &comp.outputs);
    let mut round: usize = 0;
    while round < comp.nodes.len()
        invariant
            round <= comp.nodes.len(),
            cv == comp@,
            iter_sweep(cv.nodes, cv.nodes.len() as int, add_ids(Seq::empty(), cv.outputs, 0))
                == iter_sweep(cv.nodes, cv.nodes.len() - round, live@),
        decreases comp.nodes.len() - round,
    {
        let ghost live_start = live@;
        let mut i: usize = 0;
        while i < comp.nodes.len()
            invariant
                i <= comp.nodes.len(),
                cv == comp@,
                sweep(cv.nodes, 0, live_start) == sweep(cv.nodes, i as int, live@),
            decreases comp.nodes.len() - i,
        {
            if contains_id(&live, comp.nodes[i].id) {
                push_new_ids(&mut live, &comp.nodes[i].inputs);
            }
            i = i + 1;
        }
        round = round + 1;
    }
    proof {
        assert(live@ == live_ids(cv));
    }
    let mut out: Vec<Node> = Vec::new();
    proof {
        assert(node_views(out@) =~= Seq::<NodeV>::empty());
    }
    let mut i: usize = 0;
    while i < comp.nodes.len()
        invariant
            i <= comp.nodes.len(),
            cv == comp@,
            live@ == live_ids(cv),
            keep_from(cv.nodes, 0, live@) == node_views(out@) + keep_from(
                cv.nodes,
                i as int,
                live@,
            ),
        decreases comp.nodes.len() - i,
    {
        let ghost before = out@;
        if contains_id(&live, comp.nodes[i].id) {
            out.push(copy_node(&comp.nodes[i]));
            proof {
                lemma_node_views_push(before, out@[out@.len() - 1]);
                assert(node_views(before) + keep_from(cv.nodes, i as int, live@) =~= node_views(
                    out@,
                ) + keep_from(cv.nodes, i + 1, live@));
            }
        }
        i = i + 1;
    }
    proof {
        assert(keep_from(cv.nodes, 0, live@) =~= node_views(out@));
    }
    let r = Computation { nodes: out, outputs: copy_ids(&comp.outputs) };
    proof {
        assert(r@ =~= (match spec_prune(cv) {
            Ok(c2) => c2,
            Err(_) => r@,
        }));
    }
    Ok(r)
}

/// Every surviving node comes from the input, at or after position `i`.
proof fn lemma_keep_membership(ns: Seq<NodeV>, i: int, live: Seq<u64>, x: NodeV)
    requires
        keep_from(ns, i, live).contains(x),
    ensures
        exists|p: int| i <= p < ns.len() && ns[p] == x,
    decreases ns.len() - i,
{
    let r = keep_from(ns, i, live);
    let rest = keep_from(ns, i + 1, live);
    let idx = choose|idx: int| 0 <= idx < r.len() && r[idx] == x;
    if live.contains(ns[i].id) && idx == 0 {
        assert(ns[i] == x);
    } else {
        assert(rest.contains(x)) by {
            if live.contains(ns[i].id) {
                assert(rest[idx - 1] == x);
            } else {
                assert(rest[idx] == x);
            }
        }
        lemma_keep_membership(ns, i + 1, live, x);
        let p = choose|p: int| i + 1 <= p < ns.len() && ns[p] == x;
        assert(i <= p < ns.len() && ns[p] == x);
    }
}

/// Any two surviving nodes stand in the order of two occurrences of
/// them in the input.
proof fn lemma_keep_order_at(ns: Seq<NodeV>, i: int, live: Seq<u64>, a: int, b: int)
    requires
        0 <= a < b < keep_from(ns, i, live).len(),
    ensures
        exists|p: int, q: int|
            i <= p < q < ns.len() && ns[p] == keep_from(ns, i, live)[a] && ns[q] == keep_from(
                ns,
                i,
                live,
            )[b],
    decreases ns.len() - i,
{
    let r = keep_from(ns, i, live);
    let rest = keep_from(ns, i + 1, live);
    if live.contains(ns[i].id) {
        if a == 0 {
            assert(r[0] == ns[i]);
            assert(rest.contains(r[b])) by {
                assert(rest[b - 1] == r[b]);
            }
            lemma_keep_membership(ns, i + 1, live, r[b]);
            let q = choose|q: int| i + 1 <= q < ns.len() && ns[q] == r[b];
            assert(i < q < ns.len() && ns[i] == r[a] && ns[q] == r[b]);
        } else {
            assert(rest[a - 1] == r[a] && rest[b - 1] == r[b]);
            lemma_keep_order_at(ns, i + 1, live, a - 1, b - 1);
            let (p, q) = choose|p: int, q: int|
                i + 1 <= p < q < ns.len() && ns[p] == rest[a - 1] && ns[q] == rest[b - 1];
            assert(i <= p < q < ns.len() && ns[p] == r[a] && ns[q] == r[b]);
        }
    } else {
        assert(rest[a] == r[a] && rest[b] == r[b]);
        lemma_keep_order_at(ns, i + 1, live, a, b);
        let (p, q) = choose|p: int, q: int|
            i + 1 <= p < q < ns.len() && ns[p] == rest[a] && ns[q] == rest[b];
        assert(i <= p < q < ns.len() && ns[p] == r[a] && ns[q] == r[b]);
    }
}

/// Order preservation under pruning: for any graph, the relative order
/// of the nodes surviving pruning matches their order in the input
/// graph — any two nodes of the pruned graph appear, in that order, in
/// the input.
pub proof fn lemma_prune_preserves_order(c: CompV, a: int, b: int)
    requires
        0 <= a < b < (spec_prune(c)->Ok_0).nodes.len(),
    ensures
        exists|p: int, q: int|
            0 <= p < q < c.nodes.len() && c.nodes[p] == (spec_prune(c)->Ok_0).nodes[a]
                && c.nodes[q] == (spec_prune(c)->Ok_0).nodes[b],
{
    lemma_keep_order_at(c.nodes, 0, live_ids(c), a, b);
}

proof fn lemma_keep_all(ns: Seq<NodeV>, i: int, live: Seq<u64>)
    requires
        0 <= i <= ns.len(),
        forall|j: int| 0 <= j < ns.len() ==> live.contains((#[trigger] ns[j]).id),
    ensures
        keep_from(ns, i, live) == ns.skip(i),
    decreases ns.len() - i,
{
    if i >= ns.len() {
        assert(keep_from(ns, i, live) =~= ns.skip(i));
    } else {
        lemma_keep_all(ns, i + 1, live);
        assert(seq![ns[i]] + ns.skip(i + 1) =~= ns.skip(i));
    }
}

/// A graph every node of which is live is returned by pruning intact.
pub proof fn lemma_prune_all_live_identity(c: CompV)
    requires
        forall|j: int| 0 <= j < c.nodes.len() ==> live_ids(c).contains((#[trigger] c.nodes[j]).id),
    ensures
        spec_prune(c) == Ok::<CompV, ErrV>(c),
{
    lemma_keep_all(c.nodes, 0, live_ids(c));
    assert(c.nodes.skip(0) =~= c.nodes);
    assert(CompV { nodes: c.nodes, outputs: c.outputs } =~= c);
}

} // verus!
