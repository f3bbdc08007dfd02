//! Pass pipeline for a dataflow-graph compiler: a registry of named
//! graph-rewriting passes, a runner that folds a selected sequence of
//! them over an owned graph, and the default ordering that prepares a
//! graph for execution.

use vstd::prelude::*;

pub mod deprecated_shape;
pub mod errors;
pub mod graph;
pub mod lowering;
pub mod networking;
pub mod print;
pub mod pruning;
pub mod toposort;
pub mod typing;
pub mod well_formed;

use crate::errors::{res_view, CompileError, ErrV};
use crate::graph::{current_form, executor_form, find_from, CompV, Computation, ValueType};

verus! {

/// The identity of one graph transformation. Each pass is stateless: a
/// run is given full ownership of the graph and returns the next graph
/// or a failure.
#[derive(Clone, Copy, PartialEq, Eq, Structural, Debug)]
pub enum Pass {
    Networking,
    Print,
    Prune,
    Lowering,
    Toposort,
    Typing,
    WellFormed,
    Dump,
    DeprecatedShape,
}

/// The pass registered under a textual name; `None` for a name no pass
/// carries. Names are case-sensitive and matched exactly.
pub open spec fn pass_of_name(s: Seq<char>) -> Option<Pass> {
    if s == "networking"@ {
        Some(Pass::Networking)
    } else if s == "print"@ {
        Some(Pass::Print)
    } else if s == "prune"@ {
        Some(Pass::Prune)
    } else if s == "lowering"@ {
        Some(Pass::Lowering)
    } else if s == "toposort"@ {
        Some(Pass::Toposort)
    } else if s == "typing"@ {
        Some(Pass::Typing)
    } else if s == "wellformed"@ {
        Some(Pass::WellFormed)
    } else if s == "dump"@ {
        Some(Pass::Dump)
    } else if s == "deprecatedShape"@ {
        Some(Pass::DeprecatedShape)
    } else {
        None
    }
}

/// Whether two text slices hold the same characters.
fn str_eq(a: &str, b: &str) -> (r: bool)
    ensures
        r == (a@ == b@),
{
    let sa: String = a.to_owned();
    let sb: String = b.to_owned();
    sa == sb
}

impl Pass {
    /// Resolves a textual name to the pass registered under it; fails
    /// with a selector-resolution error carrying the offending text.
    pub fn try_from(name: &str) -> (r: Result<Pass, CompileError>)
        ensures
            (match pass_of_name(name@) {
                Some(p) => r == Ok::<Pass, CompileError>(p),
                None => r matches Err(e) && e@ == ErrV::UnknownPass(name@),
            }),
    {
        if str_eq(name, "networking") {
            Ok(Pass::Networking)
        } else if str_eq(name, "print") {
            Ok(Pass::Print)
        } else if str_eq(name, "prune") {
            Ok(Pass::Prune)
        } else if str_eq(name, "lowering") {
            Ok(Pass::Lowering)
        } else if str_eq(name, "toposort") {
            Ok(Pass::Toposort)
        } else if str_eq(name, "typing") {
            Ok(Pass::Typing)
        } else if str_eq(name, "wellformed") {
            Ok(Pass::WellFormed)
        } else if str_eq(name, "dump") {
            Ok(Pass::Dump)
        } else if str_eq(name, "deprecatedShape") {
            Ok(Pass::DeprecatedShape)
        } else {
            Err(CompileError::UnknownPass { name: name.to_owned() })
        }
    }
}

/// What one run of each pass returns, as a function of the input
/// graph's view. The diagnostic passes are the identity.
pub open spec fn spec_run(p: Pass, c: CompV) -> Result<CompV, ErrV> {
    match p {
        Pass::Networking => crate::networking::spec_networking(c),
        Pass::Print => crate::print::spec_print(c),
        Pass::Prune => crate::pruning::spec_prune(c),
        Pass::Lowering => crate::lowering::spec_lowering(c),
        Pass::Toposort => crate::toposort::spec_toposort(c),
        Pass::Typing => crate::typing::spec_typing(c),
        Pass::WellFormed => crate::well_formed::spec_well_formed(c),
        Pass::Dump => crate::print::spec_print(c),
        Pass::DeprecatedShape => crate::deprecated_shape::spec_deprecated_shape(c),
    }
}

impl Pass {
    /// Runs this pass on the graph it is handed.
    pub fn run(&self, comp: Computation) -> (r: Result<Computation, CompileError>)
        ensures
            res_view(r) == spec_run(*self, comp@),
    {
        match self {
            Pass::Networking => crate::networking::networking_pass(comp),
            Pass::Print => crate::print::print_graph(comp),
            Pass::Prune => crate::pruning::prune_graph(comp),
            Pass::Lowering => crate::lowering::lowering(comp),
            Pass::Toposort => crate::toposort::toposort(comp),
            Pass::Typing => crate::typing::update_types_one_hop(comp),
            Pass::WellFormed => crate::well_formed::well_formed(comp),
            Pass::Dump => crate::print::print_graph(comp),
            Pass::DeprecatedShape => crate::deprecated_shape::deprecated_shape_support(comp),
        }
    }
}

/// One pass selector at the boundary: a textual name still to resolve,
/// or a pass identity already in hand. An identity resolves to itself,
/// so callers may mix the two freely.
#[derive(Clone, PartialEq, Eq, Debug)]
pub enum PassSelector {
    ByName(String),
    Resolved(Pass),
}

/// Mathematical view of a selector.
#[verifier::ext_equal]
pub enum PassSelectorV {
    ByName(Seq<char>),
    Resolved(Pass),
}

impl View for PassSelector {
    type V = PassSelectorV;

    open spec fn view(&self) -> PassSelectorV {
        match self {
            PassSelector::ByName(s) => PassSelectorV::ByName(s@),
            PassSelector::Resolved(p) => PassSelectorV::Resolved(*p),
        }
    }
}

pub open spec fn sels_view(s: Seq<PassSelector>) -> Seq<PassSelectorV> {
    s.map_values(|x: PassSelector| x@)
}

/// Resolves the selectors from position `i` on, appending to `acc`;
/// the first unrecognized name fails the whole resolution, before any
/// pass has run.
pub open spec fn resolve_from(sels: Seq<PassSelectorV>, i: int, acc: Seq<Pass>) -> Result<
    Seq<Pass>,
    ErrV,
>
    decreases sels.len() - i,
{
    if i < 0 || i >= sels.len() {
        Ok(acc)
    } else {
        match sels[i] {
            PassSelectorV::ByName(s) => match pass_of_name(s) {
                Some(p) => resolve_from(sels, i + 1, acc.push(p)),
                None => Err(ErrV::UnknownPass(s)),
            },
            PassSelectorV::Resolved(p) => resolve_from(sels, i + 1, acc.push(p)),
        }
    }
}

/// Folds the passes from position `i` on over the graph, stopping at
/// the first failure.
pub open spec fn run_list(c: CompV, ps: Seq<Pass>, i: int) -> Result<CompV, ErrV>
    decreases ps.len() - i,
{
    if i < 0 || i >= ps.len() {
        Ok(c)
    } else {
        match spec_run(ps[i], c) {
            Ok(c2) => run_list(c2, ps, i + 1),
            Err(e) => Err(e),
        }
    }
}

/// What compiling under an explicit selector list returns: resolution
/// first — atomically, before any transformation — then the fold.
pub open spec fn spec_compile_passes(c: CompV, sels: Seq<PassSelectorV>) -> Result<CompV, ErrV> {
    match resolve_from(sels, 0, Seq::empty()) {
        Ok(ps) => run_list(c, ps, 0),
        Err(e) => Err(e),
    }
}

/// The fixed default ordering: typing before lowering (lowering needs
/// resolved types), legacy-shape rewriting before lowering (lowering
/// assumes the current representation), pruning after lowering (to
/// drop dead code lowering exposes), networking over live nodes only,
/// and toposort last so the final order is dependency-respecting.
pub open spec fn spec_default_passes() -> Seq<Pass> {
    seq![
        Pass::Typing,
        Pass::DeprecatedShape,
        Pass::Lowering,
        Pass::Prune,
        Pass::Networking,
        Pass::Toposort,
    ]
}

/// What a compile call returns: the default pipeline where no
/// selector list is supplied, the resolved list otherwise.
pub open spec fn spec_compile(c: CompV, sels: Option<Seq<PassSelectorV>>) -> Result<CompV, ErrV> {
    match sels {
        None => run_list(c, spec_default_passes(), 0),
        Some(sv) => spec_compile_passes(c, sv),
    }
}

/// The default pipeline as a value.
pub fn default_passes() -> (v: Vec<Pass>)
    ensures
        v@ == spec_default_passes(),
{
    let mut v: Vec<Pass> = Vec::new();
    v.push(Pass::Typing);
    v.push(Pass::DeprecatedShape);
    v.push(Pass::Lowering);
    v.push(Pass::Prune);
    v.push(Pass::Networking);
    v.push(Pass::Toposort);
    proof {
        assert(v@ =~= spec_default_passes());
    }
    v
}

/// Folds an already resolved pass list over the graph.
#[verifier::loop_isolation(false)]
fn run_passes(comp: Computation, passes: &Vec<Pass>) -> (r: Result<Computation, CompileError>)
    ensures
        res_view(r) == run_list(comp@, passes@, 0),
{
    let ghost c0 = comp@;
    let ghost ps = passes@;
    let mut cur = comp;
    let mut i: usize = 0;
    while i < passes.len()
        invariant
            i <= passes.len(),
            ps == passes@,
            run_list(c0, ps, 0) == run_list(cur@, ps, i as int),
        decreases passes.len() - i,
    {
        match passes[i].run(cur) {
            Ok(c2) => {
                cur = c2;
            },
            Err(e) => {
                return Err(e);
            },
        }
        i = i + 1;
    }
    Ok(cur)
}

/// Resolves every selector, or fails on the first unknown name before
/// any transformation.
fn resolve_selectors(passes: &Vec<PassSelector>) -> (r: Result<Vec<Pass>, CompileError>)
    ensures
        (match r {
            Ok(v) => resolve_from(sels_view(passes@), 0, Seq::empty()) == Ok::<Seq<Pass>, ErrV>(
                v@,
            ),
            Err(e) => resolve_from(sels_view(passes@), 0, Seq::empty()) == Err::<Seq<Pass>, ErrV>(
                e@,
            ),
        }),
{
    let ghost sv = sels_view(passes@);
    let mut out: Vec<Pass> = Vec::new();
    proof {
        assert(out@ =~= Seq::<Pass>::empty());
    }
    let mut i: usize = 0;
    while i < passes.len()
        invariant
            i <= passes.len(),
            sv == sels_view(passes@),
            resolve_from(sv, 0, Seq::empty()) == resolve_from(sv, i as int, out@),
        decreases passes.len() - i,
    {
        proof {
            assert(sv[i as int] == passes@[i as int]@);
        }
        match &passes[i] {
            PassSelector::ByName(s) => {
                match Pass::try_from(s.as_str()) {
                    Ok(p) => out.push(p),
                    Err(e) => {
                        return Err(e);
                    },
                }
            },
            PassSelector::Resolved(p) => out.push(*p),
        }
        i = i + 1;
    }
    Ok(out)
}

/// Resolves the whole selector list, then threads the graph through
/// the resolved passes in order: pass `i + 1` sees exactly the graph
/// pass `i` returned. An unknown name fails before any pass runs; a
/// pass failure aborts the fold and is surfaced unchanged.
pub fn compile_passes(computation: Computation, passes: &Vec<PassSelector>) -> (r: Result<
    Computation,
    CompileError,
>)
    ensures
        res_view(r) == spec_compile_passes(computation@, sels_view(passes@)),
{
    match resolve_selectors(passes) {
        Ok(resolved) => run_passes(computation, &resolved),
        Err(e) => Err(e),
    }
}

/// The compile entry point: threads the graph through the supplied
/// pass selectors, or through the fixed default pipeline where none
/// are supplied.
pub fn compile(comp: Computation, passes: Option<Vec<PassSelector>>) -> (r: Result<
    Computation,
    CompileError,
>)
    ensures
        res_view(r) == spec_compile(
            comp@,
            (match passes {
                None => None::<Seq<PassSelectorV>>,
                Some(v) => Some(sels_view(v@)),
            }),
        ),
{
    match passes {
        None => {
            let d = default_passes();
            run_passes(comp, &d)
        },
        Some(sels) => compile_passes(comp, &sels),
    }
}

/// Determinism: compiling is a function of the input graph and the
/// selector list alone, so two runs on identical inputs return
/// identical results — in particular the default pipeline, run twice
/// on one graph, yields the same output graph both times.
pub proof fn lemma_compile_deterministic(
    c1: CompV,
    c2: CompV,
    s1: Option<Seq<PassSelectorV>>,
    s2: Option<Seq<PassSelectorV>>,
)
    requires
        c1 == c2,
        s1 == s2,
    ensures
        spec_compile(c1, s1) == spec_compile(c2, s2),
{
}

/// Selector atomicity: when any selector fails to resolve, compiling
/// returns that resolution error whatever the graph holds — no pass
/// has touched the graph, and the caller keeps it unchanged.
pub proof fn lemma_selector_atomicity(c: CompV, sels: Seq<PassSelectorV>, e: ErrV)
    requires
        resolve_from(sels, 0, Seq::empty()) == Err::<Seq<Pass>, ErrV>(e),
    ensures
        spec_compile_passes(c, sels) == Err::<CompV, ErrV>(e),
{
}

/// Pipeline composition: running the two-pass pipeline `[a, b]` equals
/// invoking `a` and feeding whatever it returns to `b`.
pub proof fn lemma_pipeline_composition(c: CompV, a: Pass, b: Pass)
    ensures
        run_list(c, seq![a, b], 0) == (match spec_run(a, c) {
            Ok(c1) => spec_run(b, c1),
            Err(e) => Err(e),
        }),
{
    let ps = seq![a, b];
    assert(ps[0] == a && ps[1] == b);
    match spec_run(a, c) {
        Ok(c1) => {
            assert(run_list(c, ps, 0) == run_list(c1, ps, 1));
            match spec_run(b, c1) {
                Ok(c2) => {
                    assert(run_list(c1, ps, 1) == run_list(c2, ps, 2));
                },
                Err(_) => {},
            }
        },
        Err(_) => {},
    }
}

/// The inputs on which the default pipeline has nothing to rewrite
/// before ordering: every node typed, none contradicting its derivable
/// type, executor-level operators only, every node live, every node
/// placed on the one party `p`, referential integrity, and a
/// dependency graph the topological sort can order.
pub open spec fn ready_for_default(c: CompV, p: u64) -> bool {
    &&& forall|j: int| 0 <= j < c.nodes.len() ==> (#[trigger] c.nodes[j]).ty != ValueType::Unknown
    &&& forall|j: int|
        0 <= j < c.nodes.len() ==> !crate::typing::declared_conflict(
            c.nodes,
            #[trigger] c.nodes[j],
        )
    &&& forall|j: int| 0 <= j < c.nodes.len() ==> executor_form((#[trigger] c.nodes[j]).op)
    &&& forall|j: int|
        0 <= j < c.nodes.len() ==> crate::pruning::live_ids(c).contains(
            (#[trigger] c.nodes[j]).id,
        )
    &&& forall|j: int| 0 <= j < c.nodes.len() ==> (#[trigger] c.nodes[j]).placement == Some(p)
    &&& forall|j: int, k: int|
        0 <= j < c.nodes.len() && 0 <= k < c.nodes[j].inputs.len() ==> find_from(
            c.nodes,
            0,
            #[trigger] c.nodes[j].inputs[k],
        ) is Some
    &&& crate::toposort::topo_rec(c.nodes, Seq::empty()) is Ok
}

/// The default pipeline, end to end, on a ready graph: compiling with
/// no selector list succeeds; the five rewriting passes before the
/// sort change nothing, so the result holds exactly the input's nodes
/// (as a multiset), reordered so that every present predecessor
/// precedes its consumer, with the outputs unchanged.
pub proof fn lemma_default_pipeline_ready(c: CompV, p: u64)
    requires
        ready_for_default(c, p),
    ensures
        spec_compile(c, None::<Seq<PassSelectorV>>) == crate::toposort::spec_toposort(c),
        spec_compile(c, None::<Seq<PassSelectorV>>) is Ok,
        (spec_compile(c, None::<Seq<PassSelectorV>>)->Ok_0).nodes.to_multiset()
            =~= c.nodes.to_multiset(),
        crate::toposort::preds_before((spec_compile(c, None::<Seq<PassSelectorV>>)->Ok_0).nodes),
        (spec_compile(c, None::<Seq<PassSelectorV>>)->Ok_0).outputs == c.outputs,
{
    crate::typing::lemma_typing_fully_typed_identity(c);
    assert forall|j: int| 0 <= j < c.nodes.len() implies current_form(
        (#[trigger] c.nodes[j]).op,
    ) by {
        assert(executor_form(c.nodes[j].op));
    }
    crate::deprecated_shape::lemma_deprecated_shape_identity(c);
    crate::lowering::lemma_lowering_identity(c);
    crate::pruning::lemma_prune_all_live_identity(c);
    crate::networking::lemma_networking_single_party_identity(c, p);
    let d = spec_default_passes();
    assert(d.len() == 6 && d[0] == Pass::Typing && d[1] == Pass::DeprecatedShape && d[2]
        == Pass::Lowering && d[3] == Pass::Prune && d[4] == Pass::Networking && d[5]
        == Pass::Toposort);
    assert(run_list(c, d, 0) == run_list(c, d, 1));
    assert(run_list(c, d, 1) == run_list(c, d, 2));
    assert(run_list(c, d, 2) == run_list(c, d, 3));
    assert(run_list(c, d, 3) == run_list(c, d, 4));
    assert(run_list(c, d, 4) == run_list(c, d, 5));
    let s = crate::toposort::spec_toposort(c);
    assert(s is Ok);
    assert(run_list(c, d, 5) == run_list(s->Ok_0, d, 6));
    assert(run_list(s->Ok_0, d, 6) == Ok::<CompV, ErrV>(s->Ok_0));
    crate::toposort::lemma_toposort_permutation(c);
    crate::toposort::lemma_toposort_respects_deps(c);
}

} // verus!
