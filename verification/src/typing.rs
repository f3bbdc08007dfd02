//! Typing pass: one-hop type propagation. Each node whose result type
//! is still unknown is given the type derivable from the declared types
//! of its direct predecessors, where one is derivable; a node whose
//! declared type contradicts the derivable one is a type conflict. A
//! node whose type one hop cannot determine — including an arithmetic
//! node whose inputs disagree — passes through unresolved: checking
//! producer/consumer consistency is the well-formedness pass's job.
//! Resolving a deep chain takes repeated invocations — a single run
//! looks one hop only, by design.

use vstd::prelude::*;
use crate::errors::{res_view, CompileError, ErrV};
use crate::graph::{
    copy_ids, lemma_node_views_push, lookup_ty, node_views, ty_of, CompV, Computation, Node, NodeV,
    Operator, ValueType,
};

verus! {

/// The type derivable for a node from the declared types of its direct
/// predecessors alone: the operator's own declared type for sources,
/// `Shape` for shape operators, the common input type for arithmetic
/// operators when both inputs are typed alike, the producer's type for
/// a transfer. `None` where one hop does not determine a type.
pub open spec fn derived_ty(ns: Seq<NodeV>, n: NodeV) -> Option<ValueType> {
    match n.op {
        Operator::Input { ty } => Some(ty),
        Operator::Constant { ty } => Some(ty),
        Operator::Add | Operator::Mul | Operator::HighAdd | Operator::HighMul => {
            if n.inputs.len() == 2 {
                let t0 = ty_of(ns, n.inputs[0]);
                let t1 = ty_of(ns, n.inputs[1]);
                if t0 != ValueType::Unknown && t0 == t1 {
                    Some(t0)
                } else {
                    None
                }
            } else {
                None
            }
        },
        Operator::ShapeOf => Some(ValueType::Shape),
        Operator::LegacyShape { .. } => Some(ValueType::Shape),
        Operator::Transfer => {
            if n.inputs.len() == 1 && ty_of(ns, n.inputs[0]) != ValueType::Unknown {
                Some(ty_of(ns, n.inputs[0]))
            } else {
                None
            }
        },
    }
}

/// Whether the two inputs of an arithmetic node carry contradictory
/// declared types. The typing pass does not fail on this — no declared
/// type is contradicted, one hop simply determines nothing — but the
/// well-formedness pass reports it as a type-consistency violation.
pub open spec fn arith_input_conflict(ns: Seq<NodeV>, n: NodeV) -> bool {
    match n.op {
        Operator::Add | Operator::Mul | Operator::HighAdd | Operator::HighMul => {
            n.inputs.len() == 2 && ty_of(ns, n.inputs[0]) != ValueType::Unknown && ty_of(
                ns,
                n.inputs[1],
            ) != ValueType::Unknown && ty_of(ns, n.inputs[0]) != ty_of(ns, n.inputs[1])
        },
        _ => false,
    }
}

/// Whether a node's declared type contradicts the type derivable from
/// its inputs. This, and only this, fails the typing pass.
pub open spec fn declared_conflict(ns: Seq<NodeV>, n: NodeV) -> bool {
    match derived_ty(ns, n) {
        Some(d) => n.ty != ValueType::Unknown && n.ty != d,
        None => false,
    }
}

/// The type-consistency predicate of the well-formedness pass: a
/// declared type contradicting a derivable one, or the inputs of an
/// arithmetic node contradicting each other.
pub open spec fn ty_conflict(ns: Seq<NodeV>, n: NodeV) -> bool {
    arith_input_conflict(ns, n) || declared_conflict(ns, n)
}

/// The typing of one node against the input graph: a declared type
/// contradicting the derivable one is a type error; an untyped node
/// takes the derivable type where there is one; an already typed node,
/// and one whose type one hop cannot determine, is returned unchanged.
pub open spec fn type_node(ns: Seq<NodeV>, n: NodeV) -> Result<NodeV, ErrV> {
    if declared_conflict(ns, n) {
        Err(ErrV::TypeConflict(n.id))
    } else if n.ty == ValueType::Unknown {
        match derived_ty(ns, n) {
            Some(d) => Ok(
                NodeV { id: n.id, op: n.op, ty: d, placement: n.placement, inputs: n.inputs },
            ),
            None => Ok(n),
        }
    } else {
        Ok(n)
    }
}

/// Types the nodes from position `i` on, appending to `acc`; every
/// lookup reads the input graph `ns`, so the result does not depend on
/// the order nodes are visited in.
pub open spec fn type_from(ns: Seq<NodeV>, i: int, acc: Seq<NodeV>) -> Result<Seq<NodeV>, ErrV>
    decreases ns.len() - i,
{
    if i < 0 || i >= ns.len() {
        Ok(acc)
    } else {
        match type_node(ns, ns[i]) {
            Ok(n) => type_from(ns, i + 1, acc.push(n)),
            Err(e) => Err(e),
        }
    }
}

/// What the typing pass returns: every node typed one hop from its
/// direct predecessors, or the first type conflict.
pub open spec fn spec_typing(c: CompV) -> Result<CompV, ErrV> {
    match type_from(c.nodes, 0, Seq::empty()) {
        Ok(ns) => Ok(CompV { nodes: ns, outputs: c.outputs }),
        Err(e) => Err(e),
    }
}

/// Resolves, for each node whose result type is not yet determined, the
/// type derivable from its direct predecessors; fails with a type
/// conflict where, and only where, a declared type contradicts a
/// derivable one. Nodes already fully typed, and nodes one hop cannot
/// determine, are unchanged.
pub fn update_types_one_hop(comp: Computation) -> (r: Result<Computation, CompileError>)
    ensures
        res_view(r) == spec_typing(comp@),
{
    let ghost cv = comp@;
    let mut out: Vec<Node> = Vec::new();
    proof {
        assert(node_views(out@) =~= Seq::<NodeV>::empty());
    }
    let mut i: usize = 0;
    while i < comp.nodes.len()
        invariant
            i <= comp.nodes.len(),
            cv == comp@,
            type_from(cv.nodes, 0, Seq::empty()) == type_from(cv.nodes, i as int, node_views(out@)),
        decreases comp.nodes.len() - i,
    {
        let n = &comp.nodes[i];
        let derived: Option<ValueType>;
        match n.op {
            Operator::Input { ty } => {
                derived = Some(ty);
            },
            Operator::Constant { ty } => {
                derived = Some(ty);
            },
            Operator::Add | Operator::Mul | Operator::HighAdd | Operator::HighMul => {
                if n.inputs.len() == 2 {
                    let t0 = lookup_ty(&comp.nodes, n.inputs[0]);
                    let t1 = lookup_ty(&comp.nodes, n.inputs[1]);
                    derived = if t0 != ValueType::Unknown && t0 == t1 {
                        Some(t0)
                    } else {
                        None
                    };
                } else {
                    derived = None;
                }
            },
            Operator::ShapeOf => {
                derived = Some(ValueType::Shape);
            },
            Operator::LegacyShape { .. } => {
                derived = Some(ValueType::Shape);
            },
            Operator::Transfer => {
                if n.inputs.len() == 1 {
                    let t0 = lookup_ty(&comp.nodes, n.inputs[0]);
                    derived = if t0 != ValueType::Unknown {
                        Some(t0)
                    } else {
                        None
                    };
                } else {
                    derived = None;
                }
            },
        }
        proof {
            assert(derived == derived_ty(cv.nodes, cv.nodes[i as int]));
        }
        let declared_known = match n.ty {
            ValueType::Unknown => false,
            _ => true,
        };
        let mismatch = match (derived, n.ty) {
            (Some(d), t) => declared_known && d != t,
            (None, _) => false,
        };
        if mismatch {
            return Err(CompileError::TypeConflict { node: n.id });
        }
        let new_ty = if !declared_known {
            match derived {
                Some(d) => d,
                None => ValueType::Unknown,
            }
        } else {
            n.ty
        };
        let ghost before = out@;
        out.push(
            Node {
                id: n.id,
                op: n.op,
                ty: new_ty,
                placement: n.placement,
                inputs: copy_ids(&n.inputs),
            },
        );
        proof {
            lemma_node_views_push(before, out@[out@.len() - 1]);
            assert(type_node(cv.nodes, cv.nodes[i as int]) == Ok::<NodeV, ErrV>(
                node_views(out@)[out@.len() - 1],
            ));
        }
        i = i + 1;
    }
    let r = Computation { nodes: out, outputs: copy_ids(&comp.outputs) };
    proof {
        assert(r@ =~= (match spec_typing(cv) {
            Ok(c2) => c2,
            Err(_) => r@,
        }));
    }
    Ok(r)
}

/// Decides whether the node is in type conflict with its direct
/// predecessors in the given graph.
pub fn has_ty_conflict(nodes: &Vec<Node>, n: &Node) -> (b: bool)
    ensures
        b == ty_conflict(node_views(nodes@), n@),
{
    let ghost ns = node_views(nodes@);
    match n.op {
        Operator::Add | Operator::Mul | Operator::HighAdd | Operator::HighMul => {
            if n.inputs.len() == 2 {
                let t0 = lookup_ty(nodes, n.inputs[0]);
                let t1 = lookup_ty(nodes, n.inputs[1]);
                let arith = t0 != ValueType::Unknown && t1 != ValueType::Unknown && t0 != t1;
                let derived_known = t0 != ValueType::Unknown && t0 == t1;
                let declared_known = match n.ty {
                    ValueType::Unknown => false,
                    _ => true,
                };
                arith || (derived_known && declared_known && n.ty != t0)
            } else {
                false
            }
        },
        Operator::Input { ty } => {
            let declared_known = match n.ty {
                ValueType::Unknown => false,
                _ => true,
            };
            declared_known && n.ty != ty
        },
        Operator::Constant { ty } => {
            let declared_known = match n.ty {
                ValueType::Unknown => false,
                _ => true,
            };
            declared_known && n.ty != ty
        },
        Operator::ShapeOf | Operator::LegacyShape { .. } => {
            let declared_known = match n.ty {
                ValueType::Unknown => false,
                _ => true,
            };
            declared_known && n.ty != ValueType::Shape
        },
        Operator::Transfer => {
            if n.inputs.len() == 1 {
                let t0 = lookup_ty(nodes, n.inputs[0]);
                let declared_known = match n.ty {
                    ValueType::Unknown => false,
                    _ => true,
                };
                t0 != ValueType::Unknown && declared_known && n.ty != t0
            } else {
                false
            }
        },
    }
}

proof fn lemma_type_from_identity(ns: Seq<NodeV>, i: int, acc: Seq<NodeV>)
    requires
        0 <= i <= ns.len(),
        forall|j: int| 0 <= j < ns.len() ==> (#[trigger] ns[j]).ty != ValueType::Unknown,
        forall|j: int| 0 <= j < ns.len() ==> !declared_conflict(ns, #[trigger] ns[j]),
    ensures
        type_from(ns, i, acc) == Ok::<Seq<NodeV>, ErrV>(acc + ns.skip(i)),
    decreases ns.len() - i,
{
    if i >= ns.len() {
        assert(acc + ns.skip(i) =~= acc);
    } else {
        assert(type_node(ns, ns[i]) == Ok::<NodeV, ErrV>(ns[i]));
        lemma_type_from_identity(ns, i + 1, acc.push(ns[i]));
        assert(acc.push(ns[i]) + ns.skip(i + 1) =~= acc + ns.skip(i));
    }
}

/// A graph all of whose nodes are typed, none contradicting its
/// derivable type, is returned by the typing pass unchanged.
pub proof fn lemma_typing_fully_typed_identity(c: CompV)
    requires
        forall|j: int| 0 <= j < c.nodes.len() ==> (#[trigger] c.nodes[j]).ty != ValueType::Unknown,
        forall|j: int| 0 <= j < c.nodes.len() ==> !declared_conflict(c.nodes, #[trigger] c.nodes[j]),
    ensures
        spec_typing(c) == Ok::<CompV, ErrV>(c),
{
    lemma_type_from_identity(c.nodes, 0, Seq::empty());
    assert(Seq::<NodeV>::empty() + c.nodes.skip(0) =~= c.nodes);
    assert(CompV { nodes: c.nodes, outputs: c.outputs } =~= c);
}

} // verus!
