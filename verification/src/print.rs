//! Diagnostic passes: render a deterministic textual form of the graph
//! and write it to the standard output channel, returning the graph
//! unchanged. The rendering — one line per node with its identifier,
//! operator mnemonic and input identifiers — is fully specified, so
//! identical graphs always print identically; only the final write is
//! entrusted to the standard library.

use std::io::Write;
use vstd::prelude::*;
use crate::errors::{res_view, CompileError, ErrV};
use crate::graph::{CompV, Computation, NodeV, Operator};

verus! {

/// The decimal digit characters of a number, most significant first.
pub open spec fn dec_chars(n: u64) -> Seq<char>
    decreases n,
{
    let d = digit_char((n % 10) as u64);
    if n < 10 {
        seq![d]
    } else {
        dec_chars(n / 10).push(d)
    }
}

/// The character of one decimal digit.
pub open spec fn digit_char(d: u64) -> char {
    if d == 0 {
        '0'
    } else if d == 1 {
        '1'
    } else if d == 2 {
        '2'
    } else if d == 3 {
        '3'
    } else if d == 4 {
        '4'
    } else if d == 5 {
        '5'
    } else if d == 6 {
        '6'
    } else if d == 7 {
        '7'
    } else if d == 8 {
        '8'
    } else {
        '9'
    }
}

/// The mnemonic of an operator.
pub open spec fn op_name(op: Operator) -> Seq<char> {
    match op {
        Operator::Input { .. } => "input"@,
        Operator::Constant { .. } => "constant"@,
        Operator::Add => "add"@,
        Operator::Mul => "mul"@,
        Operator::HighAdd => "high_add"@,
        Operator::HighMul => "high_mul"@,
        Operator::ShapeOf => "shape_of"@,
        Operator::LegacyShape { .. } => "legacy_shape"@,
        Operator::Transfer => "transfer"@,
    }
}

/// The rendering of a node's input list: each identifier preceded by a
/// space.
pub open spec fn render_inputs(ins: Seq<u64>, k: int) -> Seq<char>
    decreases ins.len() - k,
{
    if k < 0 || k >= ins.len() {
        Seq::empty()
    } else {
        seq![' '] + dec_chars(ins[k]) + render_inputs(ins, k + 1)
    }
}

/// The rendering of one node: identifier, mnemonic, inputs, newline.
pub open spec fn render_node(n: NodeV) -> Seq<char> {
    dec_chars(n.id) + seq![' '] + op_name(n.op) + render_inputs(n.inputs, 0) + seq!['\n']
}

/// The rendering of the nodes from position `i` on.
pub open spec fn render_from(ns: Seq<NodeV>, i: int) -> Seq<char>
    decreases ns.len() - i,
{
    if i < 0 || i >= ns.len() {
        Seq::empty()
    } else {
        render_node(ns[i]) + render_from(ns, i + 1)
    }
}

/// The deterministic textual form of a graph.
pub open spec fn spec_render(c: CompV) -> Seq<char> {
    render_from(c.nodes, 0)
}

/// Appends the decimal digits of `n`.
fn push_digits(s: &mut String, n: u64)
    ensures
        final(s)@ == old(s)@ + dec_chars(n),
    decreases n,
{
    if n >= 10 {
        push_digits(s, n / 10);
    }
    let d = n % 10;
    if d == 0 {
        s.append("0");
    } else if d == 1 {
        s.append("1");
    } else if d == 2 {
        s.append("2");
    } else if d == 3 {
        s.append("3");
    } else if d == 4 {
        s.append("4");
    } else if d == 5 {
        s.append("5");
    } else if d == 6 {
        s.append("6");
    } else if d == 7 {
        s.append("7");
    } else if d == 8 {
        s.append("8");
    } else {
        s.append("9");
    }
    proof {
        reveal_strlit("0");
        reveal_strlit("1");
        reveal_strlit("2");
        reveal_strlit("3");
        reveal_strlit("4");
        reveal_strlit("5");
        reveal_strlit("6");
        reveal_strlit("7");
        reveal_strlit("8");
        reveal_strlit("9");
        assert(final(s)@ =~= old(s)@ + dec_chars(n));
    }
}

/// Renders the graph to its deterministic textual form.
pub fn render(comp: &Computation) -> (s: String)
    ensures
        s@ == spec_render(comp@),
{
    let ghost cv = comp@;
    let mut s = String::new();
    let mut i: usize = 0;
    while i < comp.nodes.len()
        invariant
            i <= comp.nodes.len(),
            cv == comp@,
            s@ == render_from(cv.nodes, 0).take(
                render_from(cv.nodes, 0).len() - render_from(cv.nodes, i as int).len(),
            ),
            render_from(cv.nodes, i as int).len() <= render_from(cv.nodes, 0).len(),
        decreases comp.nodes.len() - i,
    {
        let ghost s0 = s@;
        let n = &comp.nodes[i];
        push_digits(&mut s, n.id);
        s.append(" ");
        match n.op {
            Operator::Input { .. } => s.append("input"),
            Operator::Constant { .. } => s.append("constant"),
            Operator::Add => s.append("add"),
            Operator::Mul => s.append("mul"),
            Operator::HighAdd => s.append("high_add"),
            Operator::HighMul => s.append("high_mul"),
            Operator::ShapeOf => s.append("shape_of"),
            Operator::LegacyShape { .. } => s.append("legacy_shape"),
            Operator::Transfer => s.append("transfer"),
        }
        proof {
            reveal_strlit(" ");
            assert(render_inputs(n@.inputs, 0).take(
                render_inputs(n@.inputs, 0).len() - render_inputs(n@.inputs, 0).len(),
            ) =~= Seq::<char>::empty());
            assert(s@ =~= s0 + dec_chars(n@.id) + seq![' '] + op_name(n@.op) + render_inputs(
                n@.inputs,
                0,
            ).take(render_inputs(n@.inputs, 0).len() - render_inputs(n@.inputs, 0).len()));
        }
        let mut k: usize = 0;
        while k < n.inputs.len()
            invariant
                k <= n.inputs.len(),
                cv == comp@,
                0 <= i < cv.nodes.len(),
                n@ == cv.nodes[i as int],
                s@ == s0 + dec_chars(n@.id) + seq![' '] + op_name(n@.op) + render_inputs(
                    n@.inputs,
                    0,
                ).take(
                    render_inputs(n@.inputs, 0).len() - render_inputs(n@.inputs, k as int).len(),
                ),
                render_inputs(n@.inputs, k as int).len() <= render_inputs(n@.inputs, 0).len(),
            decreases n.inputs.len() - k,
        {
            s.append(" ");
            push_digits(&mut s, n.inputs[k]);
            proof {
                reveal_strlit(" ");
                lemma_render_inputs_len(n@.inputs, k as int);
                assert(s@ =~= s0 + dec_chars(n@.id) + seq![' '] + op_name(n@.op) + render_inputs(
                    n@.inputs,
                    0,
                ).take(
                    render_inputs(n@.inputs, 0).len() - render_inputs(n@.inputs, k + 1).len(),
                ));
            }
            k = k + 1;
        }
        s.append("\n");
        proof {
            reveal_strlit(" ");
            reveal_strlit("\n");
            assert(render_inputs(n@.inputs, k as int).len() == 0);
            assert(render_inputs(n@.inputs, 0).take(
                render_inputs(n@.inputs, 0).len() - 0,
            ) =~= render_inputs(n@.inputs, 0));
            assert(s@ =~= s0 + render_node(cv.nodes[i as int]));
            lemma_render_from_len(cv.nodes, i as int);
            assert(s@ =~= render_from(cv.nodes, 0).take(
                render_from(cv.nodes, 0).len() - render_from(cv.nodes, i + 1).len(),
            ));
        }
        i = i + 1;
    }
    proof {
        assert(render_from(cv.nodes, i as int).len() == 0);
        assert(render_from(cv.nodes, 0).take(render_from(cv.nodes, 0).len() - 0) =~= render_from(
            cv.nodes,
            0,
        ));
    }
    s
}

/// The rendering of a suffix of the inputs is a suffix of the whole
/// rendering.
proof fn lemma_render_inputs_len(ins: Seq<u64>, k: int)
    requires
        0 <= k < ins.len(),
    ensures
        render_inputs(ins, 0).len() - render_inputs(ins, k).len() + (seq![' '] + dec_chars(
            ins[k],
        )).len() == render_inputs(ins, 0).len() - render_inputs(ins, k + 1).len(),
        render_inputs(ins, k + 1).len() <= render_inputs(ins, 0).len(),
        forall|j: int|
            0 <= j < render_inputs(ins, 0).len() - render_inputs(ins, k).len()
                ==> render_inputs(ins, 0)[j] == render_inputs(ins, 0).take(
                render_inputs(ins, 0).len() - render_inputs(ins, k).len(),
            )[j],
        render_inputs(ins, 0).take(render_inputs(ins, 0).len() - render_inputs(ins, k + 1).len())
            =~= render_inputs(ins, 0).take(render_inputs(ins, 0).len() - render_inputs(
            ins,
            k,
        ).len()) + (seq![' '] + dec_chars(ins[k])),
{
    lemma_render_inputs_decompose(ins, 0, k);
    lemma_render_inputs_decompose(ins, 0, k + 1);
}

/// The whole input rendering is the prefix up to `k` followed by the
/// rendering from `k` on.
proof fn lemma_render_inputs_decompose(ins: Seq<u64>, j: int, k: int)
    requires
        0 <= j <= k <= ins.len(),
    ensures
        render_inputs(ins, j) =~= render_inputs(ins, j).take(
            render_inputs(ins, j).len() - render_inputs(ins, k).len(),
        ) + render_inputs(ins, k),
        render_inputs(ins, k).len() <= render_inputs(ins, j).len(),
    decreases k - j,
{
    if j < k {
        lemma_render_inputs_decompose(ins, j + 1, k);
        assert(render_inputs(ins, j) =~= (seq![' '] + dec_chars(ins[j])) + render_inputs(
            ins,
            j + 1,
        ));
    }
}

/// The whole node rendering is the prefix up to `i` followed by the
/// rendering from `i` on.
proof fn lemma_render_from_decompose(ns: Seq<NodeV>, j: int, i: int)
    requires
        0 <= j <= i <= ns.len(),
    ensures
        render_from(ns, j) =~= render_from(ns, j).take(
            render_from(ns, j).len() - render_from(ns, i).len(),
        ) + render_from(ns, i),
        render_from(ns, i).len() <= render_from(ns, j).len(),
    decreases i - j,
{
    if j < i {
        lemma_render_from_decompose(ns, j + 1, i);
    }
}

proof fn lemma_render_from_len(ns: Seq<NodeV>, i: int)
    requires
        0 <= i < ns.len(),
    ensures
        render_from(ns, i + 1).len() <= render_from(ns, 0).len(),
        render_from(ns, 0).take(render_from(ns, 0).len() - render_from(ns, i + 1).len())
            =~= render_from(ns, 0).take(render_from(ns, 0).len() - render_from(ns, i).len())
            + render_node(ns[i]),
{
    lemma_render_from_decompose(ns, 0, i);
    lemma_render_from_decompose(ns, 0, i + 1);
}

/// Relies on std::io::Stdout and the writeln macro: writes one line of
/// text to the standard output channel. The text itself is computed by
/// verified code; nothing is assumed of the write.
#[verifier::external_body]
fn emit_line(s: &String) {
    let _ = writeln!(std::io::stdout(), "{}", s);
}

/// What the diagnostic passes return: always the input graph,
/// unchanged.
pub open spec fn spec_print(c: CompV) -> Result<CompV, ErrV> {
    Ok(c)
}

/// Renders the graph to the standard output channel as a side effect
/// and returns it unchanged; never fails.
pub fn print_graph(comp: Computation) -> (r: Result<Computation, CompileError>)
    ensures
        res_view(r) == spec_print(comp@),
{
    let line = render(&comp);
    emit_line(&line);
    Ok(comp)
}

} // verus!
