//! Topological sort pass: reorders the nodes into a dependency-
//! respecting linear order. At each step the earliest node all of whose
//! predecessors have already been emitted is taken, so the pass is
//! deterministic and a graph already in dependency order passes
//! through unchanged. Fails with a cycle error, carrying the
//! identifiers of the nodes that could not be ordered, when no ready
//! node remains.

use vstd::prelude::*;
use crate::errors::{res_view, CompileError, ErrV};
use crate::graph::{
    copy_ids, ids_of, lemma_node_views_push, node_views, CompV, Computation, Node, NodeV,
};

verus! {

/// A node is ready when none of its inputs names a node still waiting
/// to be emitted (itself included, so a self-loop is never ready).
pub open spec fn ready(n: NodeV, rem: Seq<NodeV>) -> bool {
    forall|k: int| 0 <= k < n.inputs.len() ==> !ids_of(rem).contains(#[trigger] n.inputs[k])
}

/// The earliest ready node at or after position `i`.
pub open spec fn first_ready(rem: Seq<NodeV>, i: int) -> Option<int>
    decreases rem.len() - i,
{
    if i < 0 || i >= rem.len() {
        None
    } else if ready(rem[i], rem) {
        Some(i)
    } else {
        first_ready(rem, i + 1)
    }
}

/// Emits ready nodes, earliest first, until none remain; a non-empty
/// remainder with no ready node is a dependency cycle.
pub open spec fn topo_rec(rem: Seq<NodeV>, acc: Seq<NodeV>) -> Result<Seq<NodeV>, ErrV>
    decreases rem.len(),
{
    if rem.len() == 0 {
        Ok(acc)
    } else {
        match first_ready(rem, 0) {
            // The range guard keeps the recursion well-founded; the
            // search only ever returns a position in range
            // (lemma_first_ready_bounds), so the second arm is never
            // the result.
            Some(i) => if 0 <= i < rem.len() {
                topo_rec(rem.remove(i), acc.push(rem[i]))
            } else {
                Ok(acc)
            },
            None => Err(ErrV::Cycle(ids_of(rem))),
        }
    }
}

/// The position the search returns lies in range and names a ready
/// node, and every earlier node is not ready.
pub proof fn lemma_first_ready_bounds(rem: Seq<NodeV>, i: int)
    requires
        first_ready(rem, i) is Some,
    ensures
        i <= first_ready(rem, i)->Some_0 < rem.len(),
        ready(rem[first_ready(rem, i)->Some_0], rem),
    decreases rem.len() - i,
{
    if i < 0 || i >= rem.len() {
    } else if ready(rem[i], rem) {
    } else {
        lemma_first_ready_bounds(rem, i + 1);
    }
}

/// What the topological sort pass returns: a permutation of the nodes
/// in which every node follows all of its predecessors, or a cycle
/// error naming the nodes that could not be ordered.
pub open spec fn spec_toposort(c: CompV) -> Result<CompV, ErrV> {
    match topo_rec(c.nodes, Seq::empty()) {
        Ok(ns) => Ok(CompV { nodes: ns, outputs: c.outputs }),
        Err(e) => Err(e),
    }
}

/// Whether some node of the vector carries the identifier.
fn contains_node_id(v: &Vec<Node>, id: u64) -> (b: bool)
    ensures
        b == ids_of(node_views(v@)).contains(id),
{
    let mut i: usize = 0;
    while i < v.len()
        invariant
            i <= v.len(),
            forall|j: int| 0 <= j < i ==> v@[j].id != id,
        decreases v.len() - i,
    {
        if v[i].id == id {
            proof {
                assert(ids_of(node_views(v@))[i as int] == id);
            }
            return true;
        }
        i = i + 1;
    }
    proof {
        if ids_of(node_views(v@)).contains(id) {
            let j = choose|j: int|
                0 <= j < ids_of(node_views(v@)).len() && ids_of(node_views(v@))[j] == id;
            assert(v@[j].id == id);
        }
    }
    false
}

/// Whether the node is ready with respect to the waiting nodes.
fn is_ready(n: &Node, rem: &Vec<Node>) -> (b: bool)
    ensures
        b == ready(n@, node_views(rem@)),
{
    let mut k: usize = 0;
    while k < n.inputs.len()
        invariant
            k <= n.inputs.len(),
            forall|j: int|
                0 <= j < k ==> !ids_of(node_views(rem@)).contains(#[trigger] n@.inputs[j]),
        decreases n.inputs.len() - k,
    {
        if contains_node_id(rem, n.inputs[k]) {
            return false;
        }
        k = k + 1;
    }
    true
}

/// The position of the earliest ready node, if any.
fn find_first_ready(rem: &Vec<Node>) -> (r: Option<usize>)
    ensures
        match r {
            Some(i) => i < rem.len() && first_ready(node_views(rem@), 0) == Some(i as int),
            None => first_ready(node_views(rem@), 0) is None,
        },
{
    let ghost ns = node_views(rem@);
    let mut i: usize = 0;
    while i < rem.len()
        invariant
            i <= rem.len(),
            ns == node_views(rem@),
            first_ready(ns, 0) == first_ready(ns, i as int),
        decreases rem.len() - i,
    {
        if is_ready(&rem[i], rem) {
            return Some(i);
        }
        i = i + 1;
    }
    None
}

/// Produces a permutation of the node sequence in which every node
/// appears after all of its dependency predecessors, always emitting
/// the earliest ready node first; fails with a cycle error, naming the
/// identifiers still waiting, when the dependency graph is cyclic.
#[verifier::loop_isolation(false)]
pub fn toposort(comp: Computation) -> (r: Result<Computation, CompileError>)
    ensures
        res_view(r) == spec_toposort(comp@),
{
    let ghost cv = comp@;
    let outputs = copy_ids(&comp.outputs);
    let mut rem: Vec<Node> = comp.nodes;
    let mut out: Vec<Node> = Vec::new();
    proof {
        assert(node_views(out@) =~= Seq::<NodeV>::empty());
    }
    while rem.len() > 0
        invariant
            topo_rec(cv.nodes, Seq::empty()) == topo_rec(node_views(rem@), node_views(out@)),
        decreases rem.len(),
    {
        match find_first_ready(&rem) {
            Some(i) => {
                let ghost rem_before = rem@;
                let ghost out_before = out@;
                let n = rem.remove(i);
                out.push(n);
                proof {
                    lemma_node_views_push(out_before, out@[out@.len() - 1]);
                    assert(node_views(rem@) =~= node_views(rem_before).remove(i as int));
                }
            },
            None => {
                let mut ids: Vec<u64> = Vec::new();
                let mut k: usize = 0;
                proof {
                    assert(ids@ =~= ids_of(node_views(rem@)).take(0));
                }
                while k < rem.len()
                    invariant
                        k <= rem.len(),
                        ids@ == ids_of(node_views(rem@)).take(k as int),
                    decreases rem.len() - k,
                {
                    ids.push(rem[k].id);
                    proof {
                        assert(ids@ =~= ids_of(node_views(rem@)).take(k + 1 as int));
                    }
                    k = k + 1;
                }
                proof {
                    assert(ids@ =~= ids_of(node_views(rem@)));
                    assert(topo_rec(node_views(rem@), node_views(out@)) == Err::<
                        Seq<NodeV>,
                        ErrV,
                    >(ErrV::Cycle(ids_of(node_views(rem@)))));
                    assert(spec_toposort(cv) == Err::<CompV, ErrV>(ErrV::Cycle(ids@)));
                }
                let ghost idsv = ids@;
                let e = CompileError::Cycle { nodes: ids };
                proof {
                    assert(e@ == ErrV::Cycle(idsv));
                    assert(res_view(Err(e)) == spec_toposort(cv));
                }
                return Err(e);
            },
        }
    }
    let r = Computation { nodes: out, outputs };
    proof {
        assert(node_views(rem@) =~= Seq::<NodeV>::empty());
        assert(r@ =~= (match spec_toposort(cv) {
            Ok(c2) => c2,
            Err(_) => r@,
        }));
    }
    Ok(r)
}

/// Every predecessor of a node that is present in the sequence appears
/// strictly earlier in it.
pub open spec fn preds_before(s: Seq<NodeV>) -> bool {
    forall|i: int, k: int|
        0 <= i < s.len() && 0 <= k < s[i].inputs.len() && ids_of(s).contains(
            #[trigger] s[i].inputs[k],
        ) ==> ids_of(s.take(i)).contains(s[i].inputs[k])
}

/// No two nodes of the sequence share an identifier.
pub open spec fn unique_ids(s: Seq<NodeV>) -> bool {
    forall|i: int, j: int| 0 <= i < j < s.len() ==> (#[trigger] s[i]).id != (#[trigger] s[j]).id
}

proof fn lemma_ids_of_push(s: Seq<NodeV>, n: NodeV)
    ensures
        ids_of(s.push(n)) =~= ids_of(s).push(n.id),
{
    assert forall|j: int| 0 <= j < s.len() + 1 implies ids_of(s.push(n))[j] == ids_of(s).push(
        n.id,
    )[j] by {
        if j < s.len() {
            assert(s.push(n)[j] == s[j]);
        } else {
            assert(s.push(n)[j] == n);
        }
    }
}

proof fn lemma_ids_of_remove(s: Seq<NodeV>, j: int)
    requires
        0 <= j < s.len(),
    ensures
        forall|x: u64| ids_of(s.remove(j)).contains(x) ==> ids_of(s).contains(x),
{
    assert forall|x: u64| ids_of(s.remove(j)).contains(x) implies ids_of(s).contains(x) by {
        let idx = choose|idx: int|
            0 <= idx < ids_of(s.remove(j)).len() && ids_of(s.remove(j))[idx] == x;
        if idx < j {
            assert(s.remove(j)[idx] == s[idx]);
            assert(ids_of(s)[idx] == x);
        } else {
            assert(s.remove(j)[idx] == s[idx + 1]);
            assert(ids_of(s)[idx + 1] == x);
        }
    }
}

/// Each emitted node's predecessors were emitted before it, or occur
/// neither among the emitted nor among the waiting nodes.
spec fn partial_sorted(acc: Seq<NodeV>, rem: Seq<NodeV>) -> bool {
    forall|i: int, k: int|
        0 <= i < acc.len() && 0 <= k < acc[i].inputs.len() ==> ids_of(acc.take(i)).contains(
            #[trigger] acc[i].inputs[k],
        ) || (!ids_of(acc).contains(acc[i].inputs[k]) && !ids_of(rem).contains(acc[i].inputs[k]))
}

proof fn lemma_topo_rec_sorted(rem: Seq<NodeV>, acc: Seq<NodeV>)
    requires
        partial_sorted(acc, rem),
        topo_rec(rem, acc) is Ok,
    ensures
        partial_sorted(topo_rec(rem, acc)->Ok_0, Seq::empty()),
    decreases rem.len(),
{
    if rem.len() == 0 {
        assert(ids_of(Seq::<NodeV>::empty()) =~= Seq::<u64>::empty());
    } else {
        let j = first_ready(rem, 0)->Some_0;
        lemma_first_ready_bounds(rem, 0);
        let n = rem[j];
        let acc2 = acc.push(n);
        let rem2 = rem.remove(j);
        lemma_ids_of_push(acc, n);
        lemma_ids_of_remove(rem, j);
        assert(ids_of(rem)[j] == n.id);
        assert(partial_sorted(acc2, rem2)) by {
            assert forall|i: int, k: int|
                0 <= i < acc2.len() && 0 <= k < acc2[i].inputs.len() implies ids_of(
                acc2.take(i),
            ).contains(#[trigger] acc2[i].inputs[k]) || (!ids_of(acc2).contains(acc2[i].inputs[k])
                && !ids_of(rem2).contains(acc2[i].inputs[k])) by {
                if i < acc.len() {
                    assert(acc2[i] == acc[i]);
                    assert(acc2.take(i) =~= acc.take(i));
                    let x = acc[i].inputs[k];
                    if !ids_of(acc.take(i)).contains(x) {
                        assert(!ids_of(acc).contains(x) && !ids_of(rem).contains(x));
                        assert(x != n.id);
                    }
                } else {
                    assert(acc2[i] == n);
                    assert(acc2.take(i) =~= acc);
                    let x = n.inputs[k];
                    assert(!ids_of(rem).contains(x));
                    if !ids_of(acc).contains(x) {
                        assert(x != n.id);
                    }
                }
            }
        }
        lemma_topo_rec_sorted(rem2, acc2);
    }
}

/// Toposort correctness: in the sorted graph, every predecessor of a
/// node that the graph contains appears earlier in the node sequence
/// than the node itself.
pub proof fn lemma_toposort_respects_deps(c: CompV)
    requires
        spec_toposort(c) is Ok,
    ensures
        preds_before((spec_toposort(c)->Ok_0).nodes),
{
    assert(partial_sorted(Seq::empty(), c.nodes));
    lemma_topo_rec_sorted(c.nodes, Seq::empty());
    let s = (spec_toposort(c)->Ok_0).nodes;
    assert(s == topo_rec(c.nodes, Seq::empty())->Ok_0);
    assert forall|i: int, k: int|
        0 <= i < s.len() && 0 <= k < s[i].inputs.len() && ids_of(s).contains(
            #[trigger] s[i].inputs[k],
        ) implies ids_of(s.take(i)).contains(s[i].inputs[k]) by {
        assert(partial_sorted(s, Seq::empty()));
    }
}

proof fn lemma_topo_rec_multiset(rem: Seq<NodeV>, acc: Seq<NodeV>)
    requires
        topo_rec(rem, acc) is Ok,
    ensures
        (topo_rec(rem, acc)->Ok_0).to_multiset() =~= acc.to_multiset().add(rem.to_multiset()),
    decreases rem.len(),
{
    broadcast use vstd::seq_lib::group_to_multiset_ensures;

    if rem.len() == 0 {
        assert(rem.to_multiset().len() == 0);
        assert(acc.to_multiset().add(rem.to_multiset()) =~= acc.to_multiset());
    } else {
        let j = first_ready(rem, 0)->Some_0;
        lemma_first_ready_bounds(rem, 0);
        let n = rem[j];
        let acc2 = acc.push(n);
        let rem2 = rem.remove(j);
        lemma_topo_rec_multiset(rem2, acc2);
        assert(rem.contains(n)) by {
            assert(rem[j] == n);
        }
        assert(rem.to_multiset().count(n) > 0);
        assert(acc2.to_multiset() =~= acc.to_multiset().insert(n));
        assert(rem2.to_multiset() =~= rem.to_multiset().remove(n));
        assert(acc.to_multiset().insert(n).add(rem.to_multiset().remove(n)) =~= acc.to_multiset()
            .add(rem.to_multiset()));
    }
}

/// Toposort permutes: the sorted graph holds exactly the nodes of the
/// input graph, with multiplicity.
pub proof fn lemma_toposort_permutation(c: CompV)
    requires
        spec_toposort(c) is Ok,
    ensures
        (spec_toposort(c)->Ok_0).nodes.to_multiset() =~= c.nodes.to_multiset(),
{
    broadcast use vstd::seq_lib::group_to_multiset_ensures;

    lemma_topo_rec_multiset(c.nodes, Seq::empty());
    assert(Seq::<NodeV>::empty().to_multiset().len() == 0);
    assert(Seq::<NodeV>::empty().to_multiset().add(c.nodes.to_multiset())
        =~= c.nodes.to_multiset());
}

proof fn lemma_topo_rec_stable(rem: Seq<NodeV>, acc: Seq<NodeV>)
    requires
        unique_ids(acc + rem),
        forall|i: int, k: int|
            0 <= i < rem.len() && 0 <= k < rem[i].inputs.len() ==> ids_of(
                acc + rem.take(i),
            ).contains(#[trigger] rem[i].inputs[k]) || !ids_of(acc + rem).contains(
                rem[i].inputs[k],
            ),
    ensures
        topo_rec(rem, acc) == Ok::<Seq<NodeV>, ErrV>(acc + rem),
    decreases rem.len(),
{
    if rem.len() == 0 {
        assert(acc + rem =~= acc);
    } else {
        let n = rem[0];
        assert(ready(n, rem)) by {
            assert forall|k: int| 0 <= k < n.inputs.len() implies !ids_of(rem).contains(
                #[trigger] n.inputs[k],
            ) by {
                let x = n.inputs[k];
                assert((acc + rem)[acc.len() as int] == n);
                assert(acc + rem.take(0) =~= acc);
                if ids_of(rem).contains(x) {
                    let jr = choose|jr: int| 0 <= jr < rem.len() && ids_of(rem)[jr] == x;
                    assert(rem[jr].id == x);
                    assert((acc + rem)[acc.len() + jr] == rem[jr]);
                    assert(ids_of(acc + rem)[acc.len() + jr] == x);
                    assert(ids_of(acc + rem).contains(x));
                    assert(ids_of(acc).contains(x));
                    let ja = choose|ja: int| 0 <= ja < acc.len() && ids_of(acc)[ja] == x;
                    assert((acc + rem)[ja] == acc[ja]);
                    assert((acc + rem)[ja].id == x && (acc + rem)[acc.len() + jr].id == x);
                    assert(false);
                }
            }
        }
        assert(first_ready(rem, 0) == Some(0int));
        let acc2 = acc.push(n);
        let rem2 = rem.remove(0);
        assert(acc2 + rem2 =~= acc + rem);
        assert forall|i: int, k: int|
            0 <= i < rem2.len() && 0 <= k < rem2[i].inputs.len() implies ids_of(
            acc2 + rem2.take(i),
        ).contains(#[trigger] rem2[i].inputs[k]) || !ids_of(acc2 + rem2).contains(
            rem2[i].inputs[k],
        ) by {
            assert(rem2[i] == rem[i + 1]);
            assert(acc2 + rem2.take(i) =~= acc + rem.take(i + 1));
        }
        lemma_topo_rec_stable(rem2, acc2);
        assert(topo_rec(rem, acc) == Ok::<Seq<NodeV>, ErrV>(acc2 + rem2));
    }
}

/// Stability: a graph whose nodes already stand in dependency order,
/// with no identifier repeated, is returned by toposort unchanged.
pub proof fn lemma_toposort_stable(c: CompV)
    requires
        unique_ids(c.nodes),
        preds_before(c.nodes),
    ensures
        spec_toposort(c) == Ok::<CompV, ErrV>(c),
{
    let rem = c.nodes;
    let acc = Seq::<NodeV>::empty();
    assert(acc + rem =~= rem);
    assert forall|i: int, k: int|
        0 <= i < rem.len() && 0 <= k < rem[i].inputs.len() implies ids_of(
        acc + rem.take(i),
    ).contains(#[trigger] rem[i].inputs[k]) || !ids_of(acc + rem).contains(rem[i].inputs[k]) by {
        assert(acc + rem.take(i) =~= rem.take(i));
        assert(acc + rem =~= rem);
    }
    lemma_topo_rec_stable(rem, acc);
    assert(acc + rem =~= rem);
    assert(spec_toposort(c) == Ok::<CompV, ErrV>(CompV { nodes: rem, outputs: c.outputs }));
    assert(CompV { nodes: rem, outputs: c.outputs } =~= c);
}

proof fn lemma_first_ready_none(rem: Seq<NodeV>, i: int)
    requires
        0 <= i,
        first_ready(rem, i) is None,
    ensures
        forall|j: int| i <= j < rem.len() ==> !ready(#[trigger] rem[j], rem),
    decreases rem.len() - i,
{
    if i >= rem.len() {
    } else {
        lemma_first_ready_none(rem, i + 1);
    }
}

proof fn lemma_node_id_in_ids(s: Seq<NodeV>, x: u64)
    ensures
        ids_of(s).contains(x) <==> exists|j: int| 0 <= j < s.len() && (#[trigger] s[j]).id == x,
{
    if ids_of(s).contains(x) {
        let j = choose|j: int| 0 <= j < ids_of(s).len() && ids_of(s)[j] == x;
        assert(s[j].id == x);
    }
    if exists|j: int| 0 <= j < s.len() && (#[trigger] s[j]).id == x {
        let j = choose|j: int| 0 <= j < s.len() && (#[trigger] s[j]).id == x;
        assert(ids_of(s)[j] == x);
    }
}

proof fn lemma_ids_of_multiset_equal(s: Seq<NodeV>, t: Seq<NodeV>)
    requires
        s.to_multiset() == t.to_multiset(),
    ensures
        forall|x: u64| ids_of(s).contains(x) <==> ids_of(t).contains(x),
{
    broadcast use vstd::seq_lib::group_to_multiset_ensures;

    assert forall|x: u64| ids_of(s).contains(x) <==> ids_of(t).contains(x) by {
        lemma_node_id_in_ids(s, x);
        lemma_node_id_in_ids(t, x);
        if ids_of(s).contains(x) {
            let j = choose|j: int| 0 <= j < s.len() && (#[trigger] s[j]).id == x;
            let n = s[j];
            assert(s.contains(n));
            assert(t.to_multiset().count(n) > 0);
            assert(t.contains(n));
            let w = choose|w: int| 0 <= w < t.len() && t[w] == n;
            assert(t[w].id == x);
        }
        if ids_of(t).contains(x) {
            let j = choose|j: int| 0 <= j < t.len() && (#[trigger] t[j]).id == x;
            let n = t[j];
            assert(t.contains(n));
            assert(s.to_multiset().count(n) > 0);
            assert(s.contains(n));
            let w = choose|w: int| 0 <= w < s.len() && s[w] == n;
            assert(s[w].id == x);
        }
    }
}

proof fn lemma_unique_ids_remove(rem: Seq<NodeV>, i: int)
    requires
        0 <= i < rem.len(),
        unique_ids(rem),
    ensures
        unique_ids(rem.remove(i)),
{
    let r = rem.remove(i);
    assert forall|a: int, b: int| 0 <= a < b < r.len() implies (#[trigger] r[a]).id != (
    #[trigger] r[b]).id by {
        if a < i {
            assert(r[a] == rem[a]);
        } else {
            assert(r[a] == rem[a + 1]);
        }
        if b < i {
            assert(r[b] == rem[b]);
        } else {
            assert(r[b] == rem[b + 1]);
        }
    }
}

proof fn lemma_unique_ids_of_witness(s: Seq<NodeV>, rem: Seq<NodeV>)
    requires
        unique_ids(rem),
        s.to_multiset() == rem.to_multiset(),
    ensures
        unique_ids(s),
{
    broadcast use vstd::seq_lib::group_to_multiset_ensures;

    assert forall|a: int, b: int| 0 <= a < b < s.len() implies (#[trigger] s[a]).id != (
    #[trigger] s[b]).id by {
        if s[a].id == s[b].id {
            if s[a] == s[b] {
                let n = s[a];
                assert(s.remove(a).to_multiset() =~= s.to_multiset().remove(n));
                assert(s.remove(a)[b - 1] == s[b]);
                assert(s.remove(a).contains(n));
                assert(s.remove(a).to_multiset().count(n) > 0);
                assert(rem.to_multiset().count(n) >= 2);
                assert(rem.contains(n));
                let p = choose|p: int| 0 <= p < rem.len() && rem[p] == n;
                assert(rem.remove(p).to_multiset() =~= rem.to_multiset().remove(n));
                assert(rem.remove(p).to_multiset().count(n) > 0);
                assert(rem.remove(p).contains(n));
                let q0 = choose|q0: int| 0 <= q0 < rem.remove(p).len() && rem.remove(p)[q0] == n;
                if q0 < p {
                    assert(rem.remove(p)[q0] == rem[q0]);
                    assert(rem[q0].id == rem[p].id && q0 < p);
                } else {
                    assert(rem.remove(p)[q0] == rem[q0 + 1]);
                    assert(rem[q0 + 1].id == rem[p].id && p < q0 + 1);
                }
                assert(false);
            } else {
                assert(s.contains(s[a]) && s.contains(s[b]));
                assert(rem.to_multiset().count(s[a]) > 0 && rem.to_multiset().count(s[b]) > 0);
                assert(rem.contains(s[a]) && rem.contains(s[b]));
                let p = choose|p: int| 0 <= p < rem.len() && rem[p] == s[a];
                let q = choose|q: int| 0 <= q < rem.len() && rem[q] == s[b];
                assert(p != q);
                assert(rem[p].id == rem[q].id);
                assert(false);
            }
        }
    }
}

/// Completeness of the sort: a graph with unique identifiers that
/// admits any dependency-respecting order of its nodes — a
/// multiset-equal sequence in which every present predecessor comes
/// earlier — is ordered successfully.
pub proof fn lemma_toposort_complete(rem: Seq<NodeV>, acc: Seq<NodeV>, s: Seq<NodeV>)
    requires
        unique_ids(rem),
        s.to_multiset() == rem.to_multiset(),
        preds_before(s),
    ensures
        topo_rec(rem, acc) is Ok,
    decreases rem.len(),
{
    broadcast use vstd::seq_lib::group_to_multiset_ensures;

    if rem.len() == 0 {
    } else {
        assert(s.len() == s.to_multiset().len());
        assert(rem.len() == rem.to_multiset().len());
        lemma_ids_of_multiset_equal(s, rem);
        let n0 = s[0];
        assert(s.contains(n0));
        assert(rem.to_multiset().count(n0) > 0);
        assert(rem.contains(n0));
        let i0 = choose|i0: int| 0 <= i0 < rem.len() && rem[i0] == n0;
        assert(ready(rem[i0], rem)) by {
            assert forall|k: int| 0 <= k < n0.inputs.len() implies !ids_of(rem).contains(
                #[trigger] n0.inputs[k],
            ) by {
                let x = n0.inputs[k];
                if ids_of(s).contains(x) {
                    assert(ids_of(s.take(0)).contains(x));
                    assert(ids_of(s.take(0)).len() == 0);
                    assert(false);
                }
            }
        }
        if first_ready(rem, 0) is None {
            lemma_first_ready_none(rem, 0);
            assert(!ready(rem[i0], rem));
            assert(false);
        }
        let i = first_ready(rem, 0)->Some_0;
        lemma_first_ready_bounds(rem, 0);
        let picked = rem[i];
        let rem2 = rem.remove(i);
        assert(rem.contains(picked));
        assert(s.to_multiset().count(picked) > 0);
        assert(s.contains(picked));
        let idx = choose|idx: int| 0 <= idx < s.len() && s[idx] == picked;
        let s2 = s.remove(idx);
        assert(s2.to_multiset() =~= s.to_multiset().remove(picked));
        assert(rem2.to_multiset() =~= rem.to_multiset().remove(picked));
        assert(s2.to_multiset() == rem2.to_multiset());
        lemma_unique_ids_remove(rem, i);
        lemma_unique_ids_of_witness(s, rem);
        assert(preds_before(s2)) by {
            assert forall|a: int, k: int|
                0 <= a < s2.len() && 0 <= k < s2[a].inputs.len() && ids_of(s2).contains(
                    #[trigger] s2[a].inputs[k],
                ) implies ids_of(s2.take(a)).contains(s2[a].inputs[k]) by {
                let orig: int = if a < idx {
                    a
                } else {
                    a + 1
                };
                assert(s2[a] == s[orig]);
                let x = s2[a].inputs[k];
                let v = choose|v: int| 0 <= v < ids_of(s2).len() && ids_of(s2)[v] == x;
                assert(s2[v].id == x);
                let origv: int = if v < idx {
                    v
                } else {
                    v + 1
                };
                assert(s2[v] == s[origv]);
                assert(ids_of(s)[origv] == x);
                assert(ids_of(s).contains(x));
                assert(ids_of(s.take(orig)).contains(x));
                let w = choose|w: int| 0 <= w < orig && ids_of(s.take(orig))[w] == x;
                assert(s.take(orig)[w] == s[w]);
                assert(s[w].id == x);
                if w == idx {
                    assert(s[origv].id == s[idx].id && origv != idx);
                    assert(false);
                } else {
                    let w2: int = if w < idx {
                        w
                    } else {
                        w - 1
                    };
                    assert(s2[w2] == s[w]);
                    assert(0 <= w2 < a);
                    assert(ids_of(s2)[w2] == x);
                    assert(ids_of(s2.take(a))[w2] == x);
                }
            }
        }
        lemma_toposort_complete(rem2, acc.push(rem[i]), s2);
    }
}

/// Under unique identifiers the sort succeeds exactly on the sortable
/// graphs: toposort returns Ok iff some dependency-respecting order of
/// the nodes exists — and, by the lemmas above, the order it returns
/// is one.
pub proof fn lemma_toposort_ok_iff_sortable(c: CompV)
    requires
        unique_ids(c.nodes),
    ensures
        spec_toposort(c) is Ok <==> exists|s: Seq<NodeV>|
            #![trigger s.to_multiset()]
            s.to_multiset() == c.nodes.to_multiset() && preds_before(s),
{
    if spec_toposort(c) is Ok {
        lemma_toposort_permutation(c);
        lemma_toposort_respects_deps(c);
        let out = (spec_toposort(c)->Ok_0).nodes;
        assert(out.to_multiset() == c.nodes.to_multiset() && preds_before(out));
    }
    if exists|s: Seq<NodeV>|
        #![trigger s.to_multiset()]
        s.to_multiset() == c.nodes.to_multiset() && preds_before(s) {
        let s = choose|s: Seq<NodeV>|
            #![trigger s.to_multiset()]
            s.to_multiset() == c.nodes.to_multiset() && preds_before(s);
        lemma_toposort_complete(c.nodes, Seq::empty(), s);
    }
}

} // verus!
