//! Lowering pass: rewrites each high-level operator node into the
//! executor-level operator of the same arity and type, preserving the
//! node's identifier and so every external input and output edge
//! exactly. A high-level node whose type is still unresolved cannot
//! choose its concrete form; a legacy construct has no executor-level
//! form at all and must be translated first.

use vstd::prelude::*;
use crate::errors::{res_view, CompileError, ErrV};
use crate::graph::{
    copy_ids, copy_node, executor_form, lemma_node_views_push, node_views, CompV, Computation,
    Node, NodeV, Operator, ValueType,
};

verus! {

/// The lowering of one node: `HighAdd` and `HighMul` become `Add` and
/// `Mul` once the node's result type is resolved, and are an error
/// while it is not; a legacy shape node has no known lowering; every
/// executor-level node is returned unchanged.
pub open spec fn lower_node(n: NodeV) -> Result<NodeV, ErrV> {
    match n.op {
        Operator::HighAdd => {
            if n.ty == ValueType::Unknown {
                Err(ErrV::UnresolvedType(n.id))
            } else {
                Ok(
                    NodeV {
                        id: n.id,
                        op: Operator::Add,
                        ty: n.ty,
                        placement: n.placement,
                        inputs: n.inputs,
                    },
                )
            }
        },
        Operator::HighMul => {
            if n.ty == ValueType::Unknown {
                Err(ErrV::UnresolvedType(n.id))
            } else {
                Ok(
                    NodeV {
                        id: n.id,
                        op: Operator::Mul,
                        ty: n.ty,
                        placement: n.placement,
                        inputs: n.inputs,
                    },
                )
            }
        },
        Operator::LegacyShape { .. } => Err(ErrV::NoLowering(n.id)),
        _ => Ok(n),
    }
}

/// Lowers the nodes from position `i` on, appending to `acc`, and
/// stops at the first node that cannot be lowered.
pub open spec fn lower_from(ns: Seq<NodeV>, i: int, acc: Seq<NodeV>) -> Result<Seq<NodeV>, ErrV>
    decreases ns.len() - i,
{
    if i < 0 || i >= ns.len() {
        Ok(acc)
    } else {
        match lower_node(ns[i]) {
            Ok(n) => lower_from(ns, i + 1, acc.push(n)),
            Err(e) => Err(e),
        }
    }
}

/// What the lowering pass returns: the graph with every high-level
/// operator replaced by its executor-level form, or the first error.
pub open spec fn spec_lowering(c: CompV) -> Result<CompV, ErrV> {
    match lower_from(c.nodes, 0, Seq::empty()) {
        Ok(ns) => Ok(CompV { nodes: ns, outputs: c.outputs }),
        Err(e) => Err(e),
    }
}

/// Replaces each high-level operator node with the equivalent
/// executor-level node under the same identifier, so consumers see
/// identical arity and type; fails where an operator has no known
/// lowering or its required type is still unresolved.
pub fn lowering(comp: Computation) -> (r: Result<Computation, CompileError>)
    ensures
        res_view(r) == spec_lowering(comp@),
{
    let ghost cv = comp@;
    let mut out: Vec<Node> = Vec::new();
    proof {
        assert(node_views(out@) =~= Seq::<NodeV>::empty());
    }
    let mut i: usize = 0;
    while i < comp.nodes.len()
        invariant
            i <= comp.nodes.len(),
            cv == comp@,
            lower_from(cv.nodes, 0, Seq::empty()) == lower_from(
                cv.nodes,
                i as int,
                node_views(out@),
            ),
        decreases comp.nodes.len() - i,
    {
        let n = &comp.nodes[i];
        let ghost before = out@;
        match n.op {
            Operator::HighAdd => {
                let declared_known = match n.ty {
                    ValueType::Unknown => false,
                    _ => true,
                };
                if !declared_known {
                    return Err(CompileError::UnresolvedType { node: n.id });
                }
                out.push(
                    Node {
                        id: n.id,
                        op: Operator::Add,
                        ty: n.ty,
                        placement: n.placement,
                        inputs: copy_ids(&n.inputs),
                    },
                );
            },
            Operator::HighMul => {
                let declared_known = match n.ty {
                    ValueType::Unknown => false,
                    _ => true,
                };
                if !declared_known {
                    return Err(CompileError::UnresolvedType { node: n.id });
                }
                out.push(
                    Node {
                        id: n.id,
                        op: Operator::Mul,
                        ty: n.ty,
                        placement: n.placement,
                        inputs: copy_ids(&n.inputs),
                    },
                );
            },
            Operator::LegacyShape { .. } => {
                return Err(CompileError::NoLowering { node: n.id });
            },
            _ => {
                out.push(copy_node(n));
            },
        }
        proof {
            lemma_node_views_push(before, out@[out@.len() - 1]);
            assert(lower_node(cv.nodes[i as int]) == Ok::<NodeV, ErrV>(
                node_views(out@)[out@.len() - 1],
            ));
        }
        i = i + 1;
    }
    let r = Computation { nodes: out, outputs: copy_ids(&comp.outputs) };
    proof {
        assert(r@ =~= (match spec_lowering(cv) {
            Ok(c2) => c2,
            Err(_) => r@,
        }));
    }
    Ok(r)
}

proof fn lemma_lower_from_identity(ns: Seq<NodeV>, i: int, acc: Seq<NodeV>)
    requires
        0 <= i <= ns.len(),
        forall|j: int| 0 <= j < ns.len() ==> executor_form((#[trigger] ns[j]).op),
    ensures
        lower_from(ns, i, acc) == Ok::<Seq<NodeV>, ErrV>(acc + ns.skip(i)),
    decreases ns.len() - i,
{
    if i >= ns.len() {
        assert(acc + ns.skip(i) =~= acc);
    } else {
        assert(lower_node(ns[i]) == Ok::<NodeV, ErrV>(ns[i]));
        lemma_lower_from_identity(ns, i + 1, acc.push(ns[i]));
        assert(acc.push(ns[i]) + ns.skip(i + 1) =~= acc + ns.skip(i));
    }
}

/// A graph holding executor-level operators only is returned by the
/// lowering pass unchanged.
pub proof fn lemma_lowering_identity(c: CompV)
    requires
        forall|j: int| 0 <= j < c.nodes.len() ==> executor_form((#[trigger] c.nodes[j]).op),
    ensures
        spec_lowering(c) == Ok::<CompV, ErrV>(c),
{
    lemma_lower_from_identity(c.nodes, 0, Seq::empty());
    assert(Seq::<NodeV>::empty() + c.nodes.skip(0) =~= c.nodes);
    assert(CompV { nodes: c.nodes, outputs: c.outputs } =~= c);
}

} // verus!
