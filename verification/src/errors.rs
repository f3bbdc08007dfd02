//! The error taxonomy the passes and the pipeline report, and the view
//! each error value is stated over in contracts.

use vstd::prelude::*;
use crate::graph::{CompV, Computation};

verus! {

/// One failure of selector resolution or of a pass. Every error carries
/// enough context — the offending name or node identifier(s) — to
/// diagnose the graph without re-running.
#[derive(Clone, PartialEq, Eq, Debug)]
pub enum CompileError {
    /// A textual selector matched no registered pass.
    UnknownPass { name: String },
    /// A node's declared type contradicts the type derivable from its
    /// inputs, or the two inputs of an arithmetic node disagree.
    TypeConflict { node: u64 },
    /// A legacy construct lacks the fields its translation needs.
    Translation { node: u64 },
    /// No rewrite into executor-level operators exists for the node.
    NoLowering { node: u64 },
    /// A pass needed the node's type and it was still unresolved.
    UnresolvedType { node: u64 },
    /// The node, or a producer it names, has no resolvable placement.
    Placement { node: u64 },
    /// The dependency graph is not acyclic; carries the identifiers of
    /// the nodes that could not be ordered.
    Cycle { nodes: Vec<u64> },
    /// A structural invariant failed: a duplicate identifier, a dangling
    /// predecessor reference, or a wrong input arity.
    Malformed { node: u64 },
}

/// Mathematical view of an error.
#[verifier::ext_equal]
pub enum ErrV {
    UnknownPass(Seq<char>),
    TypeConflict(u64),
    Translation(u64),
    NoLowering(u64),
    UnresolvedType(u64),
    Placement(u64),
    Cycle(Seq<u64>),
    Malformed(u64),
}

impl View for CompileError {
    type V = ErrV;

    open spec fn view(&self) -> ErrV {
        match self {
            CompileError::UnknownPass { name } => ErrV::UnknownPass(name@),
            CompileError::TypeConflict { node } => ErrV::TypeConflict(*node),
            CompileError::Translation { node } => ErrV::Translation(*node),
            CompileError::NoLowering { node } => ErrV::NoLowering(*node),
            CompileError::UnresolvedType { node } => ErrV::UnresolvedType(*node),
            CompileError::Placement { node } => ErrV::Placement(*node),
            CompileError::Cycle { nodes } => ErrV::Cycle(nodes@),
            CompileError::Malformed { node } => ErrV::Malformed(*node),
        }
    }
}

/// The view of a pass result: the transformed graph's view on success,
/// the error's view on failure.
pub open spec fn res_view(r: Result<Computation, CompileError>) -> Result<CompV, ErrV> {
    match r {
        Ok(c) => Ok(c@),
        Err(e) => Err(e@),
    }
}

} // verus!
