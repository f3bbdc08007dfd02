//! Well-formedness pass: read-only validation. Checks, in a fixed
//! order, that no identifier is duplicated, that no dependency edge
//! dangles, that every node has its operator's input arity, that no
//! node is in type conflict with its producers, and that the
//! dependency graph is acyclic; the graph is returned unchanged on
//! success and the first violation found is reported otherwise.

use vstd::prelude::*;
use crate::errors::{res_view, CompileError, ErrV};
use crate::graph::{
    any_id_eq, arity, copy_comp, find_from, node_views, CompV, Computation, Node, NodeV, Operator,
};
use crate::networking::lookup_place_ty;
use crate::toposort::{spec_toposort, topo_rec, toposort};
use crate::typing::{has_ty_conflict, ty_conflict};

verus! {

/// The identifier of the first node whose identifier recurs later.
pub open spec fn first_dup(ns: Seq<NodeV>, i: int) -> Option<u64>
    decreases ns.len() - i,
{
    if i < 0 || i >= ns.len() {
        None
    } else if any_id_eq(ns, i + 1, ns[i].id) {
        Some(ns[i].id)
    } else {
        first_dup(ns, i + 1)
    }
}

/// Whether one of the inputs from position `k` on names no node of the
/// graph.
pub open spec fn has_missing_input(ns: Seq<NodeV>, ins: Seq<u64>, k: int) -> bool
    decreases ins.len() - k,
{
    if k < 0 || k >= ins.len() {
        false
    } else {
        find_from(ns, 0, ins[k]) is None || has_missing_input(ns, ins, k + 1)
    }
}

/// The identifier of the first node with a dangling dependency edge.
pub open spec fn first_dangling(ns: Seq<NodeV>, i: int) -> Option<u64>
    decreases ns.len() - i,
{
    if i < 0 || i >= ns.len() {
        None
    } else if has_missing_input(ns, ns[i].inputs, 0) {
        Some(ns[i].id)
    } else {
        first_dangling(ns, i + 1)
    }
}

/// The identifier of the first node whose input count differs from its
/// operator's arity.
pub open spec fn first_bad_arity(ns: Seq<NodeV>, i: int) -> Option<u64>
    decreases ns.len() - i,
{
    if i < 0 || i >= ns.len() {
        None
    } else if ns[i].inputs.len() != arity(ns[i].op) {
        Some(ns[i].id)
    } else {
        first_bad_arity(ns, i + 1)
    }
}

/// The identifier of the first node in type conflict with its
/// producers.
pub open spec fn first_conflict(ns: Seq<NodeV>, i: int) -> Option<u64>
    decreases ns.len() - i,
{
    if i < 0 || i >= ns.len() {
        None
    } else if ty_conflict(ns, ns[i]) {
        Some(ns[i].id)
    } else {
        first_conflict(ns, i + 1)
    }
}

/// What the well-formedness pass returns: the graph itself when every
/// structural invariant holds, else the first violation in checking
/// order — duplication, referential integrity, arity, type
/// consistency, acyclicity.
pub open spec fn spec_well_formed(c: CompV) -> Result<CompV, ErrV> {
    if first_dup(c.nodes, 0) is Some {
        Err(ErrV::Malformed(first_dup(c.nodes, 0)->Some_0))
    } else if first_dangling(c.nodes, 0) is Some {
        Err(ErrV::Malformed(first_dangling(c.nodes, 0)->Some_0))
    } else if first_bad_arity(c.nodes, 0) is Some {
        Err(ErrV::Malformed(first_bad_arity(c.nodes, 0)->Some_0))
    } else if first_conflict(c.nodes, 0) is Some {
        Err(ErrV::TypeConflict(first_conflict(c.nodes, 0)->Some_0))
    } else if topo_rec(c.nodes, Seq::empty()) is Err {
        Err(topo_rec(c.nodes, Seq::empty())->Err_0)
    } else {
        Ok(c)
    }
}

/// Whether some node at or after position `start` has the identifier.
fn any_id_eq_exec(nodes: &Vec<Node>, start: usize, id: u64) -> (b: bool)
    ensures
        b == any_id_eq(node_views(nodes@), start as int, id),
{
    let ghost ns = node_views(nodes@);
    let mut j: usize = start;
    while j < nodes.len()
        invariant
            start <= j,
            j <= nodes.len() || j == start,
            ns == node_views(nodes@),
            any_id_eq(ns, start as int, id) == any_id_eq(ns, j as int, id),
        decreases nodes.len() - j,
    {
        if nodes[j].id == id {
            return true;
        }
        j = j + 1;
    }
    false
}

/// Whether one of the node's inputs names no node of the graph.
fn has_missing_input_exec(nodes: &Vec<Node>, n: &Node) -> (b: bool)
    ensures
        b == has_missing_input(node_views(nodes@), n@.inputs, 0),
{
    let ghost ns = node_views(nodes@);
    let mut k: usize = 0;
    while k < n.inputs.len()
        invariant
            k <= n.inputs.len(),
            ns == node_views(nodes@),
            has_missing_input(ns, n@.inputs, 0) == has_missing_input(ns, n@.inputs, k as int),
        decreases n.inputs.len() - k,
    {
        match lookup_place_ty(nodes, n.inputs[k]) {
            None => {
                return true;
            },
            Some(_) => {},
        }
        k = k + 1;
    }
    false
}

/// Validates the structural invariants without modifying the graph:
/// unique identifiers, referential integrity, input arity, type
/// consistency and acyclicity, in that order; returns the graph
/// unchanged on success and the first violation found otherwise.
#[verifier::loop_isolation(false)]
pub fn well_formed(comp: Computation) -> (r: Result<Computation, CompileError>)
    ensures
        res_view(r) == spec_well_formed(comp@),
{
    let ghost cv = comp@;
    let mut i: usize = 0;
    while i < comp.nodes.len()
        invariant
            i <= comp.nodes.len(),
            first_dup(cv.nodes, 0) == first_dup(cv.nodes, i as int),
        decreases comp.nodes.len() - i,
    {
        if any_id_eq_exec(&comp.nodes, i + 1, comp.nodes[i].id) {
            return Err(CompileError::Malformed { node: comp.nodes[i].id });
        }
        i = i + 1;
    }
    let mut i: usize = 0;
    while i < comp.nodes.len()
        invariant
            i <= comp.nodes.len(),
            first_dangling(cv.nodes, 0) == first_dangling(cv.nodes, i as int),
        decreases comp.nodes.len() - i,
    {
        if has_missing_input_exec(&comp.nodes, &comp.nodes[i]) {
            return Err(CompileError::Malformed { node: comp.nodes[i].id });
        }
        i = i + 1;
    }
    let mut i: usize = 0;
    while i < comp.nodes.len()
        invariant
            i <= comp.nodes.len(),
            first_bad_arity(cv.nodes, 0) == first_bad_arity(cv.nodes, i as int),
        decreases comp.nodes.len() - i,
    {
        let n = &comp.nodes[i];
        let expected: usize = match n.op {
            Operator::Input { .. } => 0,
            Operator::Constant { .. } => 0,
            Operator::Add => 2,
            Operator::Mul => 2,
            Operator::HighAdd => 2,
            Operator::HighMul => 2,
            Operator::ShapeOf => 1,
            Operator::LegacyShape { .. } => 0,
            Operator::Transfer => 1,
        };
        if n.inputs.len() != expected {
            return Err(CompileError::Malformed { node: n.id });
        }
        i = i + 1;
    }
    let mut i: usize = 0;
    while i < comp.nodes.len()
        invariant
            i <= comp.nodes.len(),
            first_conflict(cv.nodes, 0) == first_conflict(cv.nodes, i as int),
        decreases comp.nodes.len() - i,
    {
        if has_ty_conflict(&comp.nodes, &comp.nodes[i]) {
            return Err(CompileError::TypeConflict { node: comp.nodes[i].id });
        }
        i = i + 1;
    }
    let probe = copy_comp(&comp);
    match toposort(probe) {
        Err(e) => {
            return Err(e);
        },
        Ok(_) => {},
    }
    Ok(comp)
}

/// Idempotence of well-formedness: a graph that validates is returned
/// unchanged, and validating the result again succeeds with the same
/// unchanged graph.
pub proof fn lemma_well_formed_idempotent(c: CompV)
    requires
        spec_well_formed(c) is Ok,
    ensures
        spec_well_formed(c) == Ok::<CompV, ErrV>(c),
        spec_well_formed(spec_well_formed(c)->Ok_0) == spec_well_formed(c),
{
}

} // verus!
