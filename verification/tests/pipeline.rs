use moose::errors::CompileError;
use moose::graph::{Computation, Node, Operator, ValueType};
use moose::{compile, compile_passes, default_passes, Pass, PassSelector};

fn node(id: u64, op: Operator, ty: ValueType, placement: Option<u64>, inputs: Vec<u64>) -> Node {
    Node { id, op, ty, placement, inputs }
}

fn graph(nodes: Vec<Node>, outputs: Vec<u64>) -> Computation {
    Computation { nodes, outputs }
}

/// A well-typed, acyclic, current-shape graph with every node placed on
/// one party and every node live.
fn ready_graph() -> Computation {
    graph(
        vec![
            node(
                1,
                Operator::Input { ty: ValueType::Ring },
                ValueType::Ring,
                Some(0),
                vec![],
            ),
            node(
                2,
                Operator::Input { ty: ValueType::Ring },
                ValueType::Ring,
                Some(0),
                vec![],
            ),
            node(3, Operator::Add, ValueType::Ring, Some(0), vec![1, 2]),
        ],
        vec![3],
    )
}

#[test]
fn registry_resolves_every_name() {
    assert_eq!(Pass::try_from("networking").unwrap(), Pass::Networking);
    assert_eq!(Pass::try_from("print").unwrap(), Pass::Print);
    assert_eq!(Pass::try_from("prune").unwrap(), Pass::Prune);
    assert_eq!(Pass::try_from("lowering").unwrap(), Pass::Lowering);
    assert_eq!(Pass::try_from("toposort").unwrap(), Pass::Toposort);
    assert_eq!(Pass::try_from("typing").unwrap(), Pass::Typing);
    assert_eq!(Pass::try_from("wellformed").unwrap(), Pass::WellFormed);
    assert_eq!(Pass::try_from("dump").unwrap(), Pass::Dump);
    assert_eq!(Pass::try_from("deprecatedShape").unwrap(), Pass::DeprecatedShape);
}

#[test]
fn registry_rejects_unknown_and_case_mismatch() {
    assert_eq!(
        Pass::try_from("bogus"),
        Err(CompileError::UnknownPass { name: "bogus".to_string() })
    );
    assert_eq!(
        Pass::try_from("Typing"),
        Err(CompileError::UnknownPass { name: "Typing".to_string() })
    );
}

#[test]
fn unknown_selector_fails_before_any_pass() {
    // One unknown name among valid ones fails the whole request with a
    // selector-resolution error; the caller's graph is unchanged.
    let g = ready_graph();
    let kept = g.clone();
    let sels = vec![
        PassSelector::ByName("typing".to_string()),
        PassSelector::ByName("bogus".to_string()),
    ];
    let r = compile(g, Some(sels));
    assert_eq!(r, Err(CompileError::UnknownPass { name: "bogus".to_string() }));
    assert_eq!(kept, ready_graph());
}

#[test]
fn resolved_selector_is_accepted_as_is() {
    let g = ready_graph();
    let sels = vec![
        PassSelector::Resolved(Pass::Prune),
        PassSelector::ByName("toposort".to_string()),
    ];
    let r = compile(g, Some(sels)).unwrap();
    let ids: Vec<u64> = r.nodes.iter().map(|n| n.id).collect();
    assert_eq!(ids, vec![1, 2, 3]);
}

#[test]
fn default_pipeline_on_ready_graph() {
    // The default pipeline succeeds and returns the same node set,
    // sorted in dependency order.
    let r = compile(ready_graph(), None::<Vec<PassSelector>>).unwrap();
    let mut ids: Vec<u64> = r.nodes.iter().map(|n| n.id).collect();
    assert_eq!(ids, vec![1, 2, 3]);
    ids.sort();
    assert_eq!(ids, vec![1, 2, 3]);
    assert_eq!(r.outputs, vec![3]);
    for n in &r.nodes {
        for p in &n.inputs {
            let pos_p = r.nodes.iter().position(|m| m.id == *p).unwrap();
            let pos_n = r.nodes.iter().position(|m| m.id == n.id).unwrap();
            assert!(pos_p < pos_n);
        }
    }
}

#[test]
fn default_pipeline_is_deterministic() {
    let a = compile(ready_graph(), None::<Vec<PassSelector>>).unwrap();
    let b = compile(ready_graph(), None::<Vec<PassSelector>>).unwrap();
    assert_eq!(a, b);
}

#[test]
fn default_pass_order_is_fixed() {
    assert_eq!(
        default_passes(),
        vec![
            Pass::Typing,
            Pass::DeprecatedShape,
            Pass::Lowering,
            Pass::Prune,
            Pass::Networking,
            Pass::Toposort,
        ]
    );
}

#[test]
fn two_pass_pipeline_equals_manual_composition() {
    // Running [prune, toposort] equals invoking prune, then feeding its
    // result to toposort by hand.
    let g = graph(
        vec![
            node(3, Operator::Add, ValueType::Ring, None, vec![1, 2]),
            node(1, Operator::Input { ty: ValueType::Ring }, ValueType::Ring, None, vec![]),
            node(2, Operator::Input { ty: ValueType::Ring }, ValueType::Ring, None, vec![]),
            node(4, Operator::Transfer, ValueType::Ring, None, vec![3]),
        ],
        vec![3],
    );
    let sels = vec![
        PassSelector::Resolved(Pass::Prune),
        PassSelector::Resolved(Pass::Toposort),
    ];
    let piped = compile_passes(g.clone(), &sels).unwrap();
    let manual = Pass::Toposort.run(Pass::Prune.run(g).unwrap()).unwrap();
    assert_eq!(piped, manual);
}

#[test]
fn pass_failure_aborts_the_fold() {
    // The graph has a cycle, so toposort fails and the whole compile
    // call surfaces that error unchanged.
    let g = graph(
        vec![
            node(1, Operator::Transfer, ValueType::Ring, None, vec![2]),
            node(2, Operator::Transfer, ValueType::Ring, None, vec![1]),
        ],
        vec![1],
    );
    let sels = vec![
        PassSelector::ByName("toposort".to_string()),
        PassSelector::ByName("prune".to_string()),
    ];
    match compile(g, Some(sels)) {
        Err(CompileError::Cycle { nodes }) => {
            assert!(nodes.contains(&1) && nodes.contains(&2));
        },
        other => panic!("expected a cycle error, got {:?}", other),
    }
}

#[test]
fn legacy_graph_through_default_pipeline() {
    // A legacy shape node is normalized before lowering, so the default
    // pipeline accepts a pre-0.2 graph.
    let g = graph(
        vec![
            node(
                1,
                Operator::Input { ty: ValueType::Ring },
                ValueType::Ring,
                Some(0),
                vec![],
            ),
            node(
                2,
                Operator::LegacyShape { source: Some(1) },
                ValueType::Unknown,
                Some(0),
                vec![],
            ),
        ],
        vec![2],
    );
    let r = compile(g, None::<Vec<PassSelector>>).unwrap();
    assert_eq!(r.nodes.len(), 2);
    assert_eq!(r.nodes[1].op, Operator::ShapeOf);
    assert_eq!(r.nodes[1].ty, ValueType::Shape);
    assert_eq!(r.nodes[1].inputs, vec![1]);
}

#[test]
fn wellformed_by_name_validates_without_change() {
    let g = ready_graph();
    let expect = g.clone();
    let sels = vec![PassSelector::ByName("wellformed".to_string())];
    assert_eq!(compile(g, Some(sels)).unwrap(), expect);
}
