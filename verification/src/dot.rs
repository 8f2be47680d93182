//! The projection as a diagram in the DOT language.

use vstd::prelude::*;
use crate::json::{append_quoted, quoted};
use crate::projection::{ContextGraph, ContextGraphEdge, ContextGraphNode, ContextGraphNodeValue, ContextGraphView, EdgeKind, NodeId, NodeValueView, NodeView};
use crate::text::{append_decimal, decimal};

verus! {

/// The name of a node in the diagram.
pub open spec fn node_name(id: NodeId) -> Seq<char> {
    match id {
        NodeId::Start => "start"@,
        NodeId::End => "end"@,
        NodeId::Step(step) => "step_"@ + decimal(step.0 as nat),
    }
}

/// What a node is labelled with: the markers `Start` and `End`, a step its
/// name.
pub open spec fn node_label(value: NodeValueView) -> Seq<char> {
    match value {
        NodeValueView::Start => "Start"@,
        NodeValueView::End => "End"@,
        NodeValueView::Step { name, .. } => name,
    }
}

/// The statement that declares a node.
pub open spec fn node_line(node: NodeView) -> Seq<char> {
    "  "@ + node_name(node.id) + " [label="@ + quoted(node_label(node.value)) + "];\n"@
}

/// What the statement of an edge says of its kind.
pub open spec fn edge_note(kind: EdgeKind) -> Seq<char> {
    match kind {
        EdgeKind::DependsOn => " [label=\"depends_on\"]"@,
        EdgeKind::Sequence => Seq::empty(),
    }
}

/// The statement of an edge.
pub open spec fn edge_line(edge: ContextGraphEdge) -> Seq<char> {
    "  "@ + node_name(edge.source) + " -> "@ + node_name(edge.target) + edge_note(edge.edge_type) + ";\n"@
}

/// The statements of the first `upto` nodes.
pub open spec fn node_lines(nodes: Seq<NodeView>, upto: int) -> Seq<char>
    decreases upto,
{
    if upto <= 0 {
        Seq::empty()
    } else {
        node_lines(nodes, upto - 1) + node_line(nodes[upto - 1])
    }
}

/// The statements of the first `upto` edges.
pub open spec fn edge_lines(edges: Seq<ContextGraphEdge>, upto: int) -> Seq<char>
    decreases upto,
{
    if upto <= 0 {
        Seq::empty()
    } else {
        edge_lines(edges, upto - 1) + edge_line(edges[upto - 1])
    }
}

/// The diagram of a projection: a directed graph that is labelled with the
/// workflow's name and holds a statement for every node and one for every
/// edge, in order.
pub open spec fn dot_text(graph: ContextGraphView) -> Seq<char> {
    "digraph workflow {\n"@ + "  label="@ + quoted(graph.name) + ";\n"@ + node_lines(
        graph.nodes,
        graph.nodes.len() as int,
    ) + edge_lines(graph.edges, graph.edges.len() as int) + "}\n"@
}

fn append_node_name(out: &mut String, id: NodeId)
    ensures
        final(out)@ == old(out)@ + node_name(id),
{
    match id {
        NodeId::Start => {
            out.append("start");
        },
        NodeId::End => {
            out.append("end");
        },
        NodeId::Step(step) => {
            out.append("step_");
            append_decimal(out, step.0);
            assert(out@ =~= old(out)@ + node_name(id));
        },
    }
}

fn append_node_line(out: &mut String, node: &ContextGraphNode)
    ensures
        final(out)@ == old(out)@ + node_line(node@),
{
    out.append("  ");
    append_node_name(out, node.id);
    out.append(" [label=");
    match &node.value {
        ContextGraphNodeValue::Start => {
            append_quoted(out, "Start");
        },
        ContextGraphNodeValue::End => {
            append_quoted(out, "End");
        },
        ContextGraphNodeValue::Step { name, .. } => {
            append_quoted(out, name.as_str());
        },
    }
    out.append("];\n");
    assert(out@ =~= old(out)@ + node_line(node@));
}

fn append_edge_line(out: &mut String, edge: &ContextGraphEdge)
    ensures
        final(out)@ == old(out)@ + edge_line(*edge),
{
    out.append("  ");
    append_node_name(out, edge.source);
    out.append(" -> ");
    append_node_name(out, edge.target);
    match edge.edge_type {
        EdgeKind::DependsOn => {
            out.append(" [label=\"depends_on\"]");
        },
        EdgeKind::Sequence => {},
    }
    out.append(";\n");
    assert(out@ =~= old(out)@ + edge_line(*edge));
}

impl ContextGraph {
    /// The projection as a diagram in the DOT language.
    pub fn to_dot(&self) -> (text: String)
        ensures
            text@ == dot_text(self@),
    {
        let ghost graph = self@;
        let mut out = "digraph workflow {\n".to_owned();
        out.append("  label=");
        append_quoted(&mut out, self.name.as_str());
        out.append(";\n");
        let ghost head = out@;
        assert(head =~= "digraph workflow {\n"@ + "  label="@ + quoted(graph.name) + ";\n"@);
        let mut i: usize = 0;
        assert(out@ =~= head + node_lines(graph.nodes, 0));
        while i < self.nodes.len()
            invariant
                i <= self.nodes.len(),
                graph == self@,
                out@ == head + node_lines(graph.nodes, i as int),
            decreases self.nodes.len() - i,
        {
            assert(graph.nodes[i as int] == self.nodes@[i as int]@);
            append_node_line(&mut out, &self.nodes[i]);
            assert(out@ =~= head + node_lines(graph.nodes, i as int + 1));
            i += 1;
        }
        let ghost middle = out@;
        let mut k: usize = 0;
        assert(out@ =~= middle + edge_lines(graph.edges, 0));
        while k < self.edges.len()
            invariant
                k <= self.edges.len(),
                graph == self@,
                out@ == middle + edge_lines(graph.edges, k as int),
            decreases self.edges.len() - k,
        {
            append_edge_line(&mut out, &self.edges[k]);
            assert(out@ =~= middle + edge_lines(graph.edges, k as int + 1));
            k += 1;
        }
        out.append("}\n");
        assert(out@ =~= dot_text(graph));
        out
    }
}

} // verus!
