//! The computation graph: operation nodes with typed outputs, explicit
//! dependency edges, and placement annotations, together with the
//! mathematical view that the pass contracts are stated over.

use vstd::prelude::*;

verus! {

/// The result type a node's output carries. `Unknown` stands for a type
/// the typing pass has not yet resolved.
#[derive(Clone, Copy, PartialEq, Eq, Structural, Debug)]
pub enum ValueType {
    Unknown,
    Shape,
    Ring,
}

/// The operator a node performs. `HighAdd` and `HighMul` are the
/// high-level forms that lowering rewrites into `Add` and `Mul`;
/// `LegacyShape` is the pre-0.2 shape representation, which carries its
/// operand in an attribute rather than as an input edge; `Transfer` is
/// the explicit data-movement node the networking pass inserts.
#[derive(Clone, Copy, PartialEq, Eq, Debug)]
pub enum Operator {
    Input { ty: ValueType },
    Constant { ty: ValueType },
    Add,
    Mul,
    HighAdd,
    HighMul,
    ShapeOf,
    LegacyShape { source: Option<u64> },
    Transfer,
}

/// One operation node: a unique identifier, an operator, a declared
/// result type, an optional placement (the party that executes it), and
/// the identifiers of the producers it depends on, in argument order.
#[derive(Clone, PartialEq, Eq, Debug)]
pub struct Node {
    pub id: u64,
    pub op: Operator,
    pub ty: ValueType,
    pub placement: Option<u64>,
    pub inputs: Vec<u64>,
}

/// An owned computation graph: nodes in insertion order, plus the
/// identifiers of the nodes whose results the graph delivers.
#[derive(Clone, PartialEq, Eq, Debug)]
pub struct Computation {
    pub nodes: Vec<Node>,
    pub outputs: Vec<u64>,
}

/// Mathematical view of a node.
#[verifier::ext_equal]
pub struct NodeV {
    pub id: u64,
    pub op: Operator,
    pub ty: ValueType,
    pub placement: Option<u64>,
    pub inputs: Seq<u64>,
}

/// Mathematical view of a graph.
#[verifier::ext_equal]
pub struct CompV {
    pub nodes: Seq<NodeV>,
    pub outputs: Seq<u64>,
}

impl View for Node {
    type V = NodeV;

    open spec fn view(&self) -> NodeV {
        NodeV {
            id: self.id,
            op: self.op,
            ty: self.ty,
            placement: self.placement,
            inputs: self.inputs@,
        }
    }
}

pub open spec fn node_views(s: Seq<Node>) -> Seq<NodeV> {
    s.map_values(|n: Node| n@)
}

impl View for Computation {
    type V = CompV;

    open spec fn view(&self) -> CompV {
        CompV { nodes: node_views(self.nodes@), outputs: self.outputs@ }
    }
}

/// The number of input edges each operator expects.
pub open spec fn arity(op: Operator) -> int {
    match op {
        Operator::Input { .. } => 0,
        Operator::Constant { .. } => 0,
        Operator::Add => 2,
        Operator::Mul => 2,
        Operator::HighAdd => 2,
        Operator::HighMul => 2,
        Operator::ShapeOf => 1,
        Operator::LegacyShape { .. } => 0,
        Operator::Transfer => 1,
    }
}

/// Whether the operator is in the current (post-0.2) representation.
pub open spec fn current_form(op: Operator) -> bool {
    match op {
        Operator::LegacyShape { .. } => false,
        _ => true,
    }
}

/// Whether the operator is one the executor understands directly:
/// current representation and no high-level form left to lower.
pub open spec fn executor_form(op: Operator) -> bool {
    match op {
        Operator::HighAdd | Operator::HighMul | Operator::LegacyShape { .. } => false,
        _ => true,
    }
}

/// First node with the given identifier at or after position `i`.
pub open spec fn find_from(ns: Seq<NodeV>, i: int, id: u64) -> Option<NodeV>
    decreases ns.len() - i,
{
    if i < 0 || i >= ns.len() {
        None
    } else if ns[i].id == id {
        Some(ns[i])
    } else {
        find_from(ns, i + 1, id)
    }
}

/// What the identifier search returns is a node of the sequence.
pub proof fn lemma_find_from_element(ns: Seq<NodeV>, i: int, id: u64)
    requires
        find_from(ns, i, id) is Some,
    ensures
        exists|j: int| i <= j < ns.len() && ns[j] == find_from(ns, i, id)->Some_0,
    decreases ns.len() - i,
{
    if i < 0 || i >= ns.len() {
    } else if ns[i].id == id {
        assert(ns[i] == find_from(ns, i, id)->Some_0);
    } else {
        lemma_find_from_element(ns, i + 1, id);
        let j = choose|j: int| i + 1 <= j < ns.len() && ns[j] == find_from(ns, i + 1, id)->Some_0;
        assert(i <= j < ns.len() && ns[j] == find_from(ns, i, id)->Some_0);
    }
}

/// The declared type of the node with the given identifier; `Unknown`
/// where no such node exists.
pub open spec fn ty_of(ns: Seq<NodeV>, id: u64) -> ValueType {
    match find_from(ns, 0, id) {
        Some(n) => n.ty,
        None => ValueType::Unknown,
    }
}

/// The identifiers of a node sequence, in order.
pub open spec fn ids_of(ns: Seq<NodeV>) -> Seq<u64> {
    ns.map_values(|n: NodeV| n.id)
}

/// Whether some node at or after position `j` has the given identifier.
pub open spec fn any_id_eq(ns: Seq<NodeV>, j: int, id: u64) -> bool
    decreases ns.len() - j,
{
    if j < 0 || j >= ns.len() {
        false
    } else {
        ns[j].id == id || any_id_eq(ns, j + 1, id)
    }
}

pub proof fn lemma_node_views_push(s: Seq<Node>, n: Node)
    ensures
        node_views(s.push(n)) =~= node_views(s).push(n@),
{
    assert forall|j: int| 0 <= j < s.len() + 1 implies node_views(s.push(n))[j] == node_views(
        s,
    ).push(n@)[j] by {
        if j < s.len() {
            assert(s.push(n)[j] == s[j]);
        } else {
            assert(s.push(n)[j] == n);
        }
    }
}

/// Copies a vector of identifiers.
pub fn copy_ids(v: &Vec<u64>) -> (r: Vec<u64>)
    ensures
        r@ == v@,
{
    let mut r: Vec<u64> = Vec::new();
    let mut i: usize = 0;
    while i < v.len()
        invariant
            i <= v.len(),
            r@ == v@.take(i as int),
        decreases v.len() - i,
    {
        r.push(v[i]);
        proof {
            assert(r@ =~= v@.take(i + 1 as int));
        }
        i = i + 1;
    }
    proof {
        assert(v@.take(v@.len() as int) =~= v@);
    }
    r
}

/// Copies a node, field by field.
pub fn copy_node(n: &Node) -> (r: Node)
    ensures
        r@ == n@,
{
    Node { id: n.id, op: n.op, ty: n.ty, placement: n.placement, inputs: copy_ids(&n.inputs) }
}

/// Copies a graph.
pub fn copy_comp(c: &Computation) -> (r: Computation)
    ensures
        r@ == c@,
{
    let mut nodes: Vec<Node> = Vec::new();
    let mut i: usize = 0;
    while i < c.nodes.len()
        invariant
            i <= c.nodes.len(),
            node_views(nodes@) == node_views(c.nodes@).take(i as int),
        decreases c.nodes.len() - i,
    {
        let ghost before = nodes@;
        nodes.push(copy_node(&c.nodes[i]));
        proof {
            lemma_node_views_push(before, nodes@[i as int]);
            assert(node_views(nodes@) =~= node_views(c.nodes@).take(i + 1 as int));
        }
        i = i + 1;
    }
    proof {
        assert(node_views(c.nodes@).take(c.nodes@.len() as int) =~= node_views(c.nodes@));
        assert(node_views(nodes@) =~= node_views(c.nodes@));
    }
    let r = Computation { nodes, outputs: copy_ids(&c.outputs) };
    proof {
        assert(r@ =~= c@);
    }
    r
}

/// Whether a node with the given identifier exists in the vector.
pub fn node_exists(nodes: &Vec<Node>, id: u64) -> (b: bool)
    ensures
        b == (find_from(node_views(nodes@), 0, id) is Some),
{
    let ghost ns = node_views(nodes@);
    let mut i: usize = 0;
    while i < nodes.len()
        invariant
            i <= nodes.len(),
            ns == node_views(nodes@),
            find_from(ns, 0, id) == find_from(ns, i as int, id),
        decreases nodes.len() - i,
    {
        if nodes[i].id == id {
            return true;
        }
        i = i + 1;
    }
    false
}

/// Looks up the declared type of the node with the given identifier.
pub fn lookup_ty(nodes: &Vec<Node>, id: u64) -> (t: ValueType)
    ensures
        t == ty_of(node_views(nodes@), id),
{
    let ghost ns = node_views(nodes@);
    let mut i: usize = 0;
    while i < nodes.len()
        invariant
            i <= nodes.len(),
            ns == node_views(nodes@),
            find_from(ns, 0, id) == find_from(ns, i as int, id),
        decreases nodes.len() - i,
    {
        if nodes[i].id == id {
            return nodes[i].ty;
        }
        i = i + 1;
    }
    ValueType::Unknown
}

} // verus!
