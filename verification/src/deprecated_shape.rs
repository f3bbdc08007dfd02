//! Legacy-shape compatibility pass: rewrites nodes that carry shape
//! information in the pre-0.2 representation — the operand held in an
//! attribute rather than as an input edge — into the current `ShapeOf`
//! form, in place of structure, so every downstream consumer edge is
//! preserved. A legacy node whose attribute is missing, or names no
//! node of the graph, cannot be translated without breaking
//! referential integrity and is a translation error. Nodes already in
//! the current representation are untouched.

use vstd::prelude::*;
use crate::errors::{res_view, CompileError, ErrV};
use crate::graph::{
    copy_ids, current_form, find_from, lemma_node_views_push, node_exists, node_views, CompV,
    Computation, Node, NodeV, Operator,
};

verus! {

/// The translation of one node against the whole graph: a legacy shape
/// node becomes a `ShapeOf` node over the producer its attribute
/// names, under the same identifier; a legacy node without that
/// attribute, or whose attribute names no node of the graph, cannot be
/// translated without leaving a dangling edge and is a translation
/// error; every other node is returned unchanged.
pub open spec fn translate_node(ns: Seq<NodeV>, n: NodeV) -> Result<NodeV, ErrV> {
    match n.op {
        Operator::LegacyShape { source } => match source {
            Some(src) => if find_from(ns, 0, src) is Some {
                Ok(
                    NodeV {
                        id: n.id,
                        op: Operator::ShapeOf,
                        ty: n.ty,
                        placement: n.placement,
                        inputs: seq![src],
                    },
                )
            } else {
                Err(ErrV::Translation(n.id))
            },
            None => Err(ErrV::Translation(n.id)),
        },
        _ => Ok(n),
    }
}

/// Translates the nodes from position `i` on, appending to `acc`, and
/// stops at the first node that cannot be translated.
pub open spec fn translate_from(ns: Seq<NodeV>, i: int, acc: Seq<NodeV>) -> Result<
    Seq<NodeV>,
    ErrV,
>
    decreases ns.len() - i,
{
    if i < 0 || i >= ns.len() {
        Ok(acc)
    } else {
        match translate_node(ns, ns[i]) {
            Ok(n) => translate_from(ns, i + 1, acc.push(n)),
            Err(e) => Err(e),
        }
    }
}

/// What the legacy-shape pass returns: the graph with every legacy
/// shape node rewritten to the current representation, or the first
/// translation error.
pub open spec fn spec_deprecated_shape(c: CompV) -> Result<CompV, ErrV> {
    match translate_from(c.nodes, 0, Seq::empty()) {
        Ok(ns) => Ok(CompV { nodes: ns, outputs: c.outputs }),
        Err(e) => Err(e),
    }
}

/// Rewrites pre-0.2 shape nodes into the current representation,
/// preserving identifiers and so all downstream consumer edges; fails
/// with a translation error on the first legacy node whose required
/// attribute is missing or names no node of the graph, so a graph with
/// referential integrity keeps it.
pub fn deprecated_shape_support(comp: Computation) -> (r: Result<Computation, CompileError>)
    ensures
        res_view(r) == spec_deprecated_shape(comp@),
{
    let ghost cv = comp@;
    let mut out: Vec<Node> = Vec::new();
    proof {
        assert(node_views(out@) =~= Seq::<NodeV>::empty());
    }
    let mut i: usize = 0;
    while i < comp.nodes.len()
        invariant
            i <= comp.nodes.len(),
            cv == comp@,
            translate_from(cv.nodes, 0, Seq::empty()) == translate_from(
                cv.nodes,
                i as int,
                node_views(out@),
            ),
        decreases comp.nodes.len() - i,
    {
        let n = &comp.nodes[i];
        let ghost before = out@;
        match n.op {
            Operator::LegacyShape { source } => {
                match source {
                    Some(src) => {
                        if !node_exists(&comp.nodes, src) {
                            return Err(CompileError::Translation { node: n.id });
                        }
                        let mut inputs: Vec<u64> = Vec::new();
                        inputs.push(src);
                        proof {
                            assert(inputs@ =~= seq![src]);
                        }
                        out.push(
                            Node {
                                id: n.id,
                                op: Operator::ShapeOf,
                                ty: n.ty,
                                placement: n.placement,
                                inputs,
                            },
                        );
                    },
                    None => {
                        return Err(CompileError::Translation { node: n.id });
                    },
                }
            },
            _ => {
                out.push(crate::graph::copy_node(n));
            },
        }
        proof {
            lemma_node_views_push(before, out@[out@.len() - 1]);
            assert(translate_node(cv.nodes, cv.nodes[i as int]) == Ok::<NodeV, ErrV>(
                node_views(out@)[out@.len() - 1],
            ));
        }
        i = i + 1;
    }
    let r = Computation { nodes: out, outputs: copy_ids(&comp.outputs) };
    proof {
        assert(r@ =~= (match spec_deprecated_shape(cv) {
            Ok(c2) => c2,
            Err(_) => r@,
        }));
    }
    Ok(r)
}

proof fn lemma_translate_from_identity(ns: Seq<NodeV>, i: int, acc: Seq<NodeV>)
    requires
        0 <= i <= ns.len(),
        forall|j: int| 0 <= j < ns.len() ==> current_form((#[trigger] ns[j]).op),
    ensures
        translate_from(ns, i, acc) == Ok::<Seq<NodeV>, ErrV>(acc + ns.skip(i)),
    decreases ns.len() - i,
{
    if i >= ns.len() {
        assert(acc + ns.skip(i) =~= acc);
    } else {
        assert(translate_node(ns, ns[i]) == Ok::<NodeV, ErrV>(ns[i]));
        lemma_translate_from_identity(ns, i + 1, acc.push(ns[i]));
        assert(acc.push(ns[i]) + ns.skip(i + 1) =~= acc + ns.skip(i));
    }
}

/// A graph already in the current shape representation is returned by
/// the legacy-shape pass unchanged.
pub proof fn lemma_deprecated_shape_identity(c: CompV)
    requires
        forall|j: int| 0 <= j < c.nodes.len() ==> current_form((#[trigger] c.nodes[j]).op),
    ensures
        spec_deprecated_shape(c) == Ok::<CompV, ErrV>(c),
{
    lemma_translate_from_identity(c.nodes, 0, Seq::empty());
    assert(Seq::<NodeV>::empty() + c.nodes.skip(0) =~= c.nodes);
    assert(CompV { nodes: c.nodes, outputs: c.outputs } =~= c);
}

} // verus!
