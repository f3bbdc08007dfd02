use moose::errors::CompileError;
use moose::graph::{Computation, Node, Operator, ValueType};
use moose::deprecated_shape::deprecated_shape_support;
use moose::lowering::lowering;
use moose::networking::networking_pass;
use moose::print::{print_graph, render};
use moose::pruning::prune_graph;
use moose::toposort::toposort;
use moose::typing::update_types_one_hop;
use moose::well_formed::well_formed;

fn node(id: u64, op: Operator, ty: ValueType, placement: Option<u64>, inputs: Vec<u64>) -> Node {
    Node { id, op, ty, placement, inputs }
}

fn graph(nodes: Vec<Node>, outputs: Vec<u64>) -> Computation {
    Computation { nodes, outputs }
}

#[test]
fn prune_removes_dead_tail() {
    // a -> b -> c, with c unconsumed and the graph's output b: c goes,
    // a and b stay, in their original order.
    let g = graph(
        vec![
            node(1, Operator::Input { ty: ValueType::Ring }, ValueType::Ring, None, vec![]),
            node(2, Operator::Transfer, ValueType::Ring, None, vec![1]),
            node(3, Operator::Transfer, ValueType::Ring, None, vec![2]),
        ],
        vec![2],
    );
    let r = prune_graph(g).unwrap();
    let ids: Vec<u64> = r.nodes.iter().map(|n| n.id).collect();
    assert_eq!(ids, vec![1, 2]);
    assert_eq!(r.outputs, vec![2]);
}

#[test]
fn prune_keeps_all_live_nodes_in_order() {
    let g = graph(
        vec![
            node(5, Operator::Input { ty: ValueType::Ring }, ValueType::Ring, None, vec![]),
            node(7, Operator::Input { ty: ValueType::Ring }, ValueType::Ring, None, vec![]),
            node(9, Operator::Add, ValueType::Ring, None, vec![5, 7]),
        ],
        vec![9],
    );
    let r = prune_graph(g).unwrap();
    let ids: Vec<u64> = r.nodes.iter().map(|n| n.id).collect();
    assert_eq!(ids, vec![5, 7, 9]);
}

#[test]
fn toposort_cycle_reports_both_nodes() {
    // x -> y -> x is a cycle; the error names both identifiers.
    let g = graph(
        vec![
            node(1, Operator::Transfer, ValueType::Unknown, None, vec![2]),
            node(2, Operator::Transfer, ValueType::Unknown, None, vec![1]),
        ],
        vec![1],
    );
    match toposort(g) {
        Err(CompileError::Cycle { nodes }) => {
            assert!(nodes.contains(&1));
            assert!(nodes.contains(&2));
        },
        other => panic!("expected a cycle error, got {:?}", other),
    }
}

#[test]
fn toposort_orders_dependencies_first() {
    let g = graph(
        vec![
            node(3, Operator::Add, ValueType::Ring, None, vec![1, 2]),
            node(1, Operator::Input { ty: ValueType::Ring }, ValueType::Ring, None, vec![]),
            node(2, Operator::Input { ty: ValueType::Ring }, ValueType::Ring, None, vec![]),
        ],
        vec![3],
    );
    let r = toposort(g).unwrap();
    let ids: Vec<u64> = r.nodes.iter().map(|n| n.id).collect();
    assert_eq!(ids, vec![1, 2, 3]);
}

#[test]
fn toposort_stable_on_sorted_input() {
    let g = graph(
        vec![
            node(1, Operator::Input { ty: ValueType::Ring }, ValueType::Ring, None, vec![]),
            node(4, Operator::Input { ty: ValueType::Ring }, ValueType::Ring, None, vec![]),
            node(2, Operator::Transfer, ValueType::Ring, None, vec![1]),
        ],
        vec![2],
    );
    let expect = g.clone();
    let r = toposort(g).unwrap();
    assert_eq!(r, expect);
}

#[test]
fn typing_one_hop_propagation() {
    // The transfer one hop from a typed input is resolved; the one two
    // hops away needs a second run — the documented repetition idiom.
    let g = graph(
        vec![
            node(1, Operator::Input { ty: ValueType::Ring }, ValueType::Ring, None, vec![]),
            node(2, Operator::Transfer, ValueType::Unknown, None, vec![1]),
            node(3, Operator::Transfer, ValueType::Unknown, None, vec![2]),
        ],
        vec![3],
    );
    let once = update_types_one_hop(g).unwrap();
    assert_eq!(once.nodes[1].ty, ValueType::Ring);
    assert_eq!(once.nodes[2].ty, ValueType::Unknown);
    let twice = update_types_one_hop(once).unwrap();
    assert_eq!(twice.nodes[2].ty, ValueType::Ring);
}

#[test]
fn typing_conflict_between_declared_and_derived() {
    let g = graph(
        vec![node(
            1,
            Operator::Input { ty: ValueType::Ring },
            ValueType::Shape,
            None,
            vec![],
        )],
        vec![1],
    );
    assert_eq!(
        update_types_one_hop(g),
        Err(CompileError::TypeConflict { node: 1 })
    );
}

#[test]
fn typing_leaves_fully_typed_graph_unchanged() {
    let g = graph(
        vec![
            node(1, Operator::Input { ty: ValueType::Ring }, ValueType::Ring, None, vec![]),
            node(2, Operator::Transfer, ValueType::Ring, None, vec![1]),
        ],
        vec![2],
    );
    let expect = g.clone();
    assert_eq!(update_types_one_hop(g).unwrap(), expect);
}

#[test]
fn legacy_shape_rewritten_to_current_form() {
    let g = graph(
        vec![
            node(1, Operator::Input { ty: ValueType::Ring }, ValueType::Ring, None, vec![]),
            node(
                2,
                Operator::LegacyShape { source: Some(1) },
                ValueType::Shape,
                None,
                vec![],
            ),
        ],
        vec![2],
    );
    let r = deprecated_shape_support(g).unwrap();
    assert_eq!(r.nodes[1].op, Operator::ShapeOf);
    assert_eq!(r.nodes[1].inputs, vec![1]);
    assert_eq!(r.nodes[1].id, 2);
}

#[test]
fn legacy_shape_without_source_is_translation_error() {
    let g = graph(
        vec![node(
            4,
            Operator::LegacyShape { source: None },
            ValueType::Shape,
            None,
            vec![],
        )],
        vec![4],
    );
    assert_eq!(
        deprecated_shape_support(g),
        Err(CompileError::Translation { node: 4 })
    );
}

#[test]
fn lowering_rewrites_high_level_operators() {
    let g = graph(
        vec![
            node(1, Operator::Input { ty: ValueType::Ring }, ValueType::Ring, None, vec![]),
            node(2, Operator::HighAdd, ValueType::Ring, None, vec![1, 1]),
            node(3, Operator::HighMul, ValueType::Ring, None, vec![2, 1]),
        ],
        vec![3],
    );
    let r = lowering(g).unwrap();
    assert_eq!(r.nodes[1].op, Operator::Add);
    assert_eq!(r.nodes[2].op, Operator::Mul);
    assert_eq!(r.nodes[1].inputs, vec![1, 1]);
}

#[test]
fn lowering_unresolved_type_is_an_error() {
    let g = graph(
        vec![node(2, Operator::HighAdd, ValueType::Unknown, None, vec![1, 1])],
        vec![2],
    );
    assert_eq!(lowering(g), Err(CompileError::UnresolvedType { node: 2 }));
}

#[test]
fn lowering_legacy_shape_has_no_lowering() {
    let g = graph(
        vec![node(
            6,
            Operator::LegacyShape { source: Some(1) },
            ValueType::Shape,
            None,
            vec![],
        )],
        vec![6],
    );
    assert_eq!(lowering(g), Err(CompileError::NoLowering { node: 6 }));
}

#[test]
fn networking_inserts_transfer_on_crossing_edge() {
    let g = graph(
        vec![
            node(
                1,
                Operator::Input { ty: ValueType::Ring },
                ValueType::Ring,
                Some(0),
                vec![],
            ),
            node(2, Operator::Add, ValueType::Ring, Some(1), vec![1, 1]),
        ],
        vec![2],
    );
    let r = networking_pass(g).unwrap();
    let ids: Vec<u64> = r.nodes.iter().map(|n| n.id).collect();
    assert_eq!(ids, vec![1, 3, 4, 2]);
    assert_eq!(r.nodes[1].op, Operator::Transfer);
    assert_eq!(r.nodes[1].inputs, vec![1]);
    assert_eq!(r.nodes[1].placement, Some(1));
    assert_eq!(r.nodes[1].ty, ValueType::Ring);
    assert_eq!(r.nodes[3].inputs, vec![3, 4]);
}

#[test]
fn networking_same_party_unchanged() {
    let g = graph(
        vec![
            node(
                1,
                Operator::Input { ty: ValueType::Ring },
                ValueType::Ring,
                Some(0),
                vec![],
            ),
            node(2, Operator::Transfer, ValueType::Ring, Some(0), vec![1]),
        ],
        vec![2],
    );
    let expect = g.clone();
    assert_eq!(networking_pass(g).unwrap(), expect);
}

#[test]
fn networking_unplaced_node_is_placement_error() {
    let g = graph(
        vec![node(9, Operator::Input { ty: ValueType::Ring }, ValueType::Ring, None, vec![])],
        vec![9],
    );
    assert_eq!(networking_pass(g), Err(CompileError::Placement { node: 9 }));
}

#[test]
fn well_formed_accepts_and_returns_unchanged() {
    let g = graph(
        vec![
            node(1, Operator::Input { ty: ValueType::Ring }, ValueType::Ring, None, vec![]),
            node(2, Operator::Transfer, ValueType::Ring, None, vec![1]),
        ],
        vec![2],
    );
    let expect = g.clone();
    let once = well_formed(g).unwrap();
    assert_eq!(once, expect);
    // Idempotence: validating the validated graph changes nothing.
    let again = well_formed(once).unwrap();
    assert_eq!(again, expect);
}

#[test]
fn well_formed_rejects_duplicate_identifiers() {
    let g = graph(
        vec![
            node(1, Operator::Input { ty: ValueType::Ring }, ValueType::Ring, None, vec![]),
            node(1, Operator::Input { ty: ValueType::Ring }, ValueType::Ring, None, vec![]),
        ],
        vec![1],
    );
    assert_eq!(well_formed(g), Err(CompileError::Malformed { node: 1 }));
}

#[test]
fn well_formed_rejects_dangling_reference() {
    let g = graph(
        vec![node(2, Operator::Transfer, ValueType::Ring, None, vec![8])],
        vec![2],
    );
    assert_eq!(well_formed(g), Err(CompileError::Malformed { node: 2 }));
}

#[test]
fn well_formed_rejects_wrong_arity() {
    let g = graph(
        vec![
            node(1, Operator::Input { ty: ValueType::Ring }, ValueType::Ring, None, vec![]),
            node(2, Operator::Add, ValueType::Ring, None, vec![1]),
        ],
        vec![2],
    );
    assert_eq!(well_formed(g), Err(CompileError::Malformed { node: 2 }));
}

#[test]
fn well_formed_rejects_type_conflict() {
    let g = graph(
        vec![node(
            3,
            Operator::Input { ty: ValueType::Ring },
            ValueType::Shape,
            None,
            vec![],
        )],
        vec![3],
    );
    assert_eq!(well_formed(g), Err(CompileError::TypeConflict { node: 3 }));
}

#[test]
fn well_formed_rejects_cycle() {
    let g = graph(
        vec![
            node(1, Operator::Transfer, ValueType::Ring, None, vec![2]),
            node(2, Operator::Transfer, ValueType::Ring, None, vec![1]),
        ],
        vec![1],
    );
    match well_formed(g) {
        Err(CompileError::Cycle { nodes }) => {
            assert!(nodes.contains(&1) && nodes.contains(&2));
        },
        other => panic!("expected a cycle error, got {:?}", other),
    }
}

#[test]
fn render_is_exact_and_deterministic() {
    let g = graph(
        vec![
            node(1, Operator::Input { ty: ValueType::Ring }, ValueType::Ring, None, vec![]),
            node(12, Operator::Add, ValueType::Ring, None, vec![1, 34]),
        ],
        vec![12],
    );
    assert_eq!(render(&g), "1 input\n12 add 1 34\n");
    assert_eq!(render(&g), render(&g.clone()));
}

#[test]
fn print_returns_graph_unchanged() {
    let g = graph(
        vec![node(1, Operator::Input { ty: ValueType::Ring }, ValueType::Ring, None, vec![])],
        vec![1],
    );
    let expect = g.clone();
    assert_eq!(print_graph(g).unwrap(), expect);
}

#[test]
fn empty_graph_passes_everything() {
    let g = graph(vec![], vec![]);
    assert_eq!(prune_graph(g.clone()).unwrap(), g);
    assert_eq!(toposort(g.clone()).unwrap(), g);
    assert_eq!(update_types_one_hop(g.clone()).unwrap(), g);
    assert_eq!(well_formed(g.clone()).unwrap(), g);
    assert_eq!(render(&g), "");
}

#[test]
fn prune_without_outputs_removes_everything() {
    let g = graph(
        vec![node(1, Operator::Input { ty: ValueType::Ring }, ValueType::Ring, None, vec![])],
        vec![],
    );
    let r = prune_graph(g).unwrap();
    assert!(r.nodes.is_empty());
}

#[test]
fn networking_saturates_at_top_of_identifier_space() {
    // With the greatest identifier already in use, fresh transfer
    // identifiers saturate at the top of the space rather than wrap.
    let g = graph(
        vec![
            node(
                u64::MAX,
                Operator::Input { ty: ValueType::Ring },
                ValueType::Ring,
                Some(0),
                vec![],
            ),
            node(1, Operator::Transfer, ValueType::Ring, Some(2), vec![u64::MAX]),
        ],
        vec![1],
    );
    let r = networking_pass(g).unwrap();
    assert_eq!(r.nodes.len(), 3);
    assert_eq!(r.nodes[1].id, u64::MAX);
    assert_eq!(r.nodes[1].op, Operator::Transfer);
    assert_eq!(r.nodes[2].inputs, vec![u64::MAX]);
}

#[test]
fn typing_passes_through_undetermined_arithmetic_node() {
    // The two inputs carry different known types, but the node declares
    // no type: nothing declared is contradicted, one hop simply cannot
    // determine a type, and the node passes through unchanged. The
    // inconsistency is the well-formedness pass's finding, not typing's.
    let g = graph(
        vec![
            node(1, Operator::Input { ty: ValueType::Ring }, ValueType::Ring, None, vec![]),
            node(2, Operator::Input { ty: ValueType::Shape }, ValueType::Shape, None, vec![]),
            node(3, Operator::Add, ValueType::Unknown, None, vec![1, 2]),
        ],
        vec![3],
    );
    let expect = g.clone();
    assert_eq!(update_types_one_hop(g.clone()).unwrap(), expect);
    assert_eq!(well_formed(g), Err(CompileError::TypeConflict { node: 3 }));
}

#[test]
fn legacy_shape_with_absent_source_is_translation_error() {
    // The attribute names id 99, which no node carries: rewriting would
    // leave a dangling edge, so the pass fails instead.
    let g = graph(
        vec![node(
            1,
            Operator::LegacyShape { source: Some(99) },
            ValueType::Shape,
            None,
            vec![],
        )],
        vec![1],
    );
    assert_eq!(
        deprecated_shape_support(g),
        Err(CompileError::Translation { node: 1 })
    );
}
