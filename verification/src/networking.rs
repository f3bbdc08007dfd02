//! Networking pass: materializes the data movement the placement
//! annotations imply. Placement is read from each node — the pass does
//! not invent it — and for every dependency edge whose producer and
//! consumer are placed on different parties an explicit `Transfer` node
//! is inserted between them, placed with the consumer. A node, or a
//! producer an edge names, without a resolvable placement is an error.

use vstd::prelude::*;
use crate::errors::{res_view, CompileError, ErrV};
use crate::graph::{
    copy_ids, find_from, lemma_find_from_element, lemma_node_views_push, node_views, CompV,
    Computation, Node, NodeV, Operator, ValueType,
};

verus! {

/// The greatest identifier among the nodes from position `i` on.
pub open spec fn max_id_from(ns: Seq<NodeV>, i: int) -> u64
    decreases ns.len() - i,
{
    if i < 0 || i >= ns.len() {
        0
    } else {
        let m = max_id_from(ns, i + 1);
        if ns[i].id > m {
            ns[i].id
        } else {
            m
        }
    }
}

/// The first identifier handed to inserted transfer nodes: one past the
/// greatest identifier in use, held at the top of the identifier space
/// where no greater identifier exists.
pub open spec fn fresh_base(ns: Seq<NodeV>) -> u64 {
    if max_id_from(ns, 0) < u64::MAX {
        (max_id_from(ns, 0) + 1) as u64
    } else {
        u64::MAX
    }
}

/// The next fresh identifier after one has been used.
pub open spec fn bump(next: u64) -> u64 {
    if next < u64::MAX {
        (next + 1) as u64
    } else {
        u64::MAX
    }
}

/// Routes the input edges of one consumer placed on `pv`, from edge `k`
/// on: an edge from a producer on the same party is kept; an edge that
/// crosses a placement boundary is redirected through a fresh
/// `Transfer` node placed with the consumer; an edge whose producer is
/// missing or unplaced is a placement error. Returns the rewritten
/// edge list, the inserted transfer nodes, and the next fresh
/// identifier.
pub open spec fn route_inputs(
    ns: Seq<NodeV>,
    pv: u64,
    ins: Seq<u64>,
    k: int,
    next: u64,
    acc_in: Seq<u64>,
    acc_new: Seq<NodeV>,
) -> Result<(Seq<u64>, Seq<NodeV>, u64), ErrV>
    decreases ins.len() - k,
{
    if k < 0 || k >= ins.len() {
        Ok((acc_in, acc_new, next))
    } else {
        let u = ins[k];
        match find_from(ns, 0, u) {
            None => Err(ErrV::Placement(u)),
            Some(p) => match p.placement {
                None => Err(ErrV::Placement(u)),
                Some(pu) => if pu == pv {
                    route_inputs(ns, pv, ins, k + 1, next, acc_in.push(u), acc_new)
                } else {
                    let t = NodeV {
                        id: next,
                        op: Operator::Transfer,
                        ty: p.ty,
                        placement: Some(pv),
                        inputs: seq![u],
                    };
                    route_inputs(ns, pv, ins, k + 1, bump(next), acc_in.push(next), acc_new.push(t))
                },
            },
        }
    }
}

/// Processes the nodes from position `i` on: each consumer's crossing
/// edges are routed through transfer nodes, which are inserted
/// immediately before it.
pub open spec fn net_from(ns: Seq<NodeV>, i: int, next: u64, acc: Seq<NodeV>) -> Result<
    Seq<NodeV>,
    ErrV,
>
    decreases ns.len() - i,
{
    if i < 0 || i >= ns.len() {
        Ok(acc)
    } else {
        let n = ns[i];
        match n.placement {
            None => Err(ErrV::Placement(n.id)),
            Some(pv) => match route_inputs(ns, pv, n.inputs, 0, next, Seq::empty(), Seq::empty()) {
                Err(e) => Err(e),
                Ok((nins, ts, next2)) => net_from(
                    ns,
                    i + 1,
                    next2,
                    acc + ts + seq![
                        NodeV {
                            id: n.id,
                            op: n.op,
                            ty: n.ty,
                            placement: n.placement,
                            inputs: nins,
                        },
                    ],
                ),
            },
        }
    }
}

/// What the networking pass returns: the graph with every
/// boundary-crossing edge routed through an explicit transfer node, or
/// the first placement error.
pub open spec fn spec_networking(c: CompV) -> Result<CompV, ErrV> {
    match net_from(c.nodes, 0, fresh_base(c.nodes), Seq::empty()) {
        Ok(ns) => Ok(CompV { nodes: ns, outputs: c.outputs }),
        Err(e) => Err(e),
    }
}

/// Looks up the placement and type of the node with the identifier.
pub(crate) fn lookup_place_ty(nodes: &Vec<Node>, id: u64) -> (r: Option<(Option<u64>, ValueType)>)
    ensures
        r == (match find_from(node_views(nodes@), 0, id) {
            None => None::<(Option<u64>, ValueType)>,
            Some(p) => Some((p.placement, p.ty)),
        }),
{
    let ghost ns = node_views(nodes@);
    let mut i: usize = 0;
    while i < nodes.len()
        invariant
            i <= nodes.len(),
            ns == node_views(nodes@),
            find_from(ns, 0, id) == find_from(ns, i as int, id),
        decreases nodes.len() - i,
    {
        if nodes[i].id == id {
            return Some((nodes[i].placement, nodes[i].ty));
        }
        i = i + 1;
    }
    None
}

/// The greatest identifier in use.
fn max_id(nodes: &Vec<Node>) -> (m: u64)
    ensures
        m == max_id_from(node_views(nodes@), 0),
{
    let ghost ns = node_views(nodes@);
    let mut m: u64 = 0;
    let mut i: usize = nodes.len();
    while i > 0
        invariant
            i <= nodes.len(),
            ns == node_views(nodes@),
            m == max_id_from(ns, i as int),
        decreases i,
    {
        i = i - 1;
        if nodes[i].id > m {
            m = nodes[i].id;
        }
    }
    m
}

/// Determines each node's executing party from its own annotation and
/// inserts a `Transfer` node on every dependency edge whose endpoints
/// are placed on different parties; fails with a placement error where
/// a node, or a producer an edge names, has no resolvable placement.
#[verifier::loop_isolation(false)]
pub fn networking_pass(comp: Computation) -> (r: Result<Computation, CompileError>)
    ensures
        res_view(r) == spec_networking(comp@),
{
    let ghost cv = comp@;
    let base = {
        let m = max_id(&comp.nodes);
        if m < u64::MAX {
            m + 1
        } else {
            u64::MAX
        }
    };
    let mut next: u64 = base;
    let mut out: Vec<Node> = Vec::new();
    proof {
        assert(node_views(out@) =~= Seq::<NodeV>::empty());
    }
    let mut i: usize = 0;
    while i < comp.nodes.len()
        invariant
            i <= comp.nodes.len(),
            net_from(cv.nodes, 0, base, Seq::empty()) == net_from(
                cv.nodes,
                i as int,
                next,
                node_views(out@),
            ),
        decreases comp.nodes.len() - i,
    {
        let n = &comp.nodes[i];
        let pv: u64;
        match n.placement {
            None => {
                return Err(CompileError::Placement { node: n.id });
            },
            Some(p) => {
                pv = p;
            },
        }
        let mut nins: Vec<u64> = Vec::new();
        let ghost out_at_node = out@;
        let ghost next_at_node = next;
        proof {
            assert(nins@ =~= Seq::<u64>::empty());
            assert(node_views(out@).skip(out_at_node.len() as int) =~= Seq::<NodeV>::empty());
            assert(node_views(out@).take(out_at_node.len() as int) =~= node_views(out_at_node));
        }
        let mut k: usize = 0;
        while k < n.inputs.len()
            invariant
                k <= n.inputs.len(),
                route_inputs(cv.nodes, pv, n@.inputs, 0, next_at_node, Seq::empty(), Seq::empty())
                    == route_inputs(
                    cv.nodes,
                    pv,
                    n@.inputs,
                    k as int,
                    next,
                    nins@,
                    node_views(out@).skip(out_at_node.len() as int),
                ),
                node_views(out@).take(out_at_node.len() as int) == node_views(out_at_node),
                out_at_node.len() <= out@.len(),
            decreases n.inputs.len() - k,
        {
            let u = n.inputs[k];
            match lookup_place_ty(&comp.nodes, u) {
                None => {
                    return Err(CompileError::Placement { node: u });
                },
                Some((pu_opt, put)) => {
                    match pu_opt {
                        None => {
                            return Err(CompileError::Placement { node: u });
                        },
                        Some(pu) => {
                            if pu == pv {
                                nins.push(u);
                            } else {
                                let mut tin: Vec<u64> = Vec::new();
                                tin.push(u);
                                proof {
                                    assert(tin@ =~= seq![u]);
                                }
                                let ghost out_before = out@;
                                out.push(
                                    Node {
                                        id: next,
                                        op: Operator::Transfer,
                                        ty: put,
                                        placement: Some(pv),
                                        inputs: tin,
                                    },
                                );
                                nins.push(next);
                                proof {
                                    lemma_node_views_push(out_before, out@[out@.len() - 1]);
                                    assert(node_views(out@).take(out_at_node.len() as int)
                                        =~= node_views(out_at_node));
                                    assert(node_views(out@).skip(out_at_node.len() as int)
                                        =~= node_views(out_before).skip(
                                        out_at_node.len() as int,
                                    ).push(out@[out@.len() - 1]@));
                                }
                                next = if next < u64::MAX {
                                    next + 1
                                } else {
                                    u64::MAX
                                };
                            }
                        },
                    }
                },
            }
            k = k + 1;
        }
        let ghost out_before_node = out@;
        out.push(
            Node { id: n.id, op: n.op, ty: n.ty, placement: n.placement, inputs: nins },
        );
        proof {
            lemma_node_views_push(out_before_node, out@[out@.len() - 1]);
            let ts = node_views(out_before_node).skip(out_at_node.len() as int);
            assert(node_views(out@) =~= node_views(out_at_node) + ts + seq![
                out@[out@.len() - 1]@,
            ]);
        }
        i = i + 1;
    }
    let r = Computation { nodes: out, outputs: copy_ids(&comp.outputs) };
    proof {
        assert(r@ =~= (match spec_networking(cv) {
            Ok(c2) => c2,
            Err(_) => r@,
        }));
    }
    Ok(r)
}

proof fn lemma_route_inputs_identity(
    ns: Seq<NodeV>,
    pv: u64,
    ins: Seq<u64>,
    k: int,
    next: u64,
    acc_in: Seq<u64>,
    acc_new: Seq<NodeV>,
)
    requires
        0 <= k <= ins.len(),
        forall|j: int|
            0 <= j < ins.len() ==> find_from(ns, 0, #[trigger] ins[j]) is Some && (find_from(
                ns,
                0,
                ins[j],
            )->Some_0).placement == Some(pv),
    ensures
        route_inputs(ns, pv, ins, k, next, acc_in, acc_new) == Ok::<
            (Seq<u64>, Seq<NodeV>, u64),
            ErrV,
        >((acc_in + ins.skip(k), acc_new, next)),
    decreases ins.len() - k,
{
    if k >= ins.len() {
        assert(acc_in + ins.skip(k) =~= acc_in);
    } else {
        lemma_route_inputs_identity(ns, pv, ins, k + 1, next, acc_in.push(ins[k]), acc_new);
        assert(acc_in.push(ins[k]) + ins.skip(k + 1) =~= acc_in + ins.skip(k));
    }
}

proof fn lemma_net_from_identity(ns: Seq<NodeV>, i: int, next: u64, acc: Seq<NodeV>, p: u64)
    requires
        0 <= i <= ns.len(),
        forall|j: int| 0 <= j < ns.len() ==> (#[trigger] ns[j]).placement == Some(p),
        forall|j: int, k: int|
            0 <= j < ns.len() && 0 <= k < ns[j].inputs.len() ==> find_from(
                ns,
                0,
                #[trigger] ns[j].inputs[k],
            ) is Some,
    ensures
        net_from(ns, i, next, acc) == Ok::<Seq<NodeV>, ErrV>(acc + ns.skip(i)),
    decreases ns.len() - i,
{
    if i >= ns.len() {
        assert(acc + ns.skip(i) =~= acc);
    } else {
        let n = ns[i];
        assert forall|j: int|
            0 <= j < n.inputs.len() implies find_from(ns, 0, #[trigger] n.inputs[j]) is Some
            && (find_from(ns, 0, n.inputs[j])->Some_0).placement == Some(p) by {
            assert(ns[i].inputs[j] == n.inputs[j]);
            lemma_find_from_element(ns, 0, n.inputs[j]);
            let w = choose|w: int|
                0 <= w < ns.len() && ns[w] == find_from(ns, 0, n.inputs[j])->Some_0;
            assert(ns[w].placement == Some(p));
        }
        lemma_route_inputs_identity(ns, p, n.inputs, 0, next, Seq::empty(), Seq::empty());
        assert(Seq::<u64>::empty() + n.inputs.skip(0) =~= n.inputs);
        let n2 = NodeV { id: n.id, op: n.op, ty: n.ty, placement: n.placement, inputs: n.inputs };
        assert(n2 =~= n);
        assert(acc + Seq::<NodeV>::empty() + seq![n] =~= acc.push(n));
        lemma_net_from_identity(ns, i + 1, next, acc.push(n), p);
        assert(acc.push(n) + ns.skip(i + 1) =~= acc + ns.skip(i));
    }
}

/// A graph whose nodes are all placed on one party, with every
/// dependency edge's producer present, has no boundary to cross: the
/// networking pass returns it unchanged.
pub proof fn lemma_networking_single_party_identity(c: CompV, p: u64)
    requires
        forall|j: int| 0 <= j < c.nodes.len() ==> (#[trigger] c.nodes[j]).placement == Some(p),
        forall|j: int, k: int|
            0 <= j < c.nodes.len() && 0 <= k < c.nodes[j].inputs.len() ==> find_from(
                c.nodes,
                0,
                #[trigger] c.nodes[j].inputs[k],
            ) is Some,
    ensures
        spec_networking(c) == Ok::<CompV, ErrV>(c),
{
    lemma_net_from_identity(c.nodes, 0, fresh_base(c.nodes), Seq::empty(), p);
    assert(Seq::<NodeV>::empty() + c.nodes.skip(0) =~= c.nodes);
    assert(CompV { nodes: c.nodes, outputs: c.outputs } =~= c);
}

} // verus!
