//! The interchange format of a projection: a JSON array of strings that
//! holds the name, the description, the number of nodes, nine strings for
//! every node, the number of edges and three strings for every edge.
//! Reading accepts what writing gives and nothing else.

use vstd::prelude::*;
use crate::json::{array_text, read_array, scan_array, texts_view, write_array, lemma_read_array_is_text, lemma_read_array_of_text};
use crate::model::{StepId, StepStatus, StepType};
use crate::projection::{ContextGraph, ContextGraphEdge, ContextGraphNode, ContextGraphNodeValue, ContextGraphView, EdgeKind, NodeId, NodeValueView, NodeView, nodes_view};
use crate::text::{append_decimal, chars_of, decimal, lemma_decimal_parses, lemma_parse_decimal, parse_decimal, read_decimal};

verus! {

/// The word for a step type.
pub open spec fn step_type_word(step_type: StepType) -> Seq<char> {
    match step_type {
        StepType::Manual => "manual"@,
        StepType::Automated => "automated"@,
        StepType::Approval => "approval"@,
    }
}

/// The word for a step status.
pub open spec fn status_word(status: StepStatus) -> Seq<char> {
    match status {
        StepStatus::Pending => "pending"@,
        StepStatus::Ready => "ready"@,
        StepStatus::InProgress => "in_progress"@,
        StepStatus::Completed => "completed"@,
        StepStatus::Failed => "failed"@,
        StepStatus::Skipped => "skipped"@,
    }
}

/// The word for an edge kind.
pub open spec fn edge_kind_word(kind: EdgeKind) -> Seq<char> {
    match kind {
        EdgeKind::DependsOn => "depends_on"@,
        EdgeKind::Sequence => "sequence"@,
    }
}

/// How a node is referred to: the markers by name, a step by its identifier
/// in decimal.
pub open spec fn node_ref(id: NodeId) -> Seq<char> {
    match id {
        NodeId::Start => "start"@,
        NodeId::End => "end"@,
        NodeId::Step(step) => decimal(step.0 as nat),
    }
}

/// An estimated duration: empty for none, else the minutes in decimal.
pub open spec fn duration_word(minutes: Option<u32>) -> Seq<char> {
    match minutes {
        None => Seq::empty(),
        Some(n) => decimal(n as nat),
    }
}

/// The eight strings of what a node shows: the kind; name, description,
/// type, status and duration; whether someone is assigned, and who.
pub open spec fn value_tokens(value: NodeValueView) -> Seq<Seq<char>> {
    match value {
        NodeValueView::Start => seq![
            "start"@,
            Seq::empty(),
            Seq::empty(),
            Seq::empty(),
            Seq::empty(),
            Seq::empty(),
            "0"@,
            Seq::empty(),
        ],
        NodeValueView::End => seq![
            "end"@,
            Seq::empty(),
            Seq::empty(),
            Seq::empty(),
            Seq::empty(),
            Seq::empty(),
            "0"@,
            Seq::empty(),
        ],
        NodeValueView::Step { name, description, step_type, status, estimated_duration_minutes, assigned_to } => seq![
            "step"@,
            name,
            description,
            step_type_word(step_type),
            status_word(status),
            duration_word(estimated_duration_minutes),
            match assigned_to {
                Some(_) => "1"@,
                None => "0"@,
            },
            match assigned_to {
                Some(who) => who,
                None => Seq::empty(),
            },
        ],
    }
}

/// The nine strings of a node: its reference, then what it shows.
pub open spec fn node_tokens(node: NodeView) -> Seq<Seq<char>> {
    seq![node_ref(node.id)] + value_tokens(node.value)
}

/// The three strings of an edge: source, target, kind.
pub open spec fn edge_tokens(edge: ContextGraphEdge) -> Seq<Seq<char>> {
    seq![node_ref(edge.source), node_ref(edge.target), edge_kind_word(edge.edge_type)]
}

/// The strings of a list of nodes.
pub open spec fn nodes_tokens(nodes: Seq<NodeView>) -> Seq<Seq<char>>
    decreases nodes.len(),
{
    if nodes.len() == 0 {
        Seq::empty()
    } else {
        node_tokens(nodes[0]) + nodes_tokens(nodes.drop_first())
    }
}

/// The strings of a list of edges.
pub open spec fn edges_tokens(edges: Seq<ContextGraphEdge>) -> Seq<Seq<char>>
    decreases edges.len(),
{
    if edges.len() == 0 {
        Seq::empty()
    } else {
        edge_tokens(edges[0]) + edges_tokens(edges.drop_first())
    }
}

/// The strings of a projection.
pub open spec fn graph_tokens(graph: ContextGraphView) -> Seq<Seq<char>> {
    seq![graph.name, graph.description, decimal(graph.nodes.len())] + nodes_tokens(graph.nodes) + seq![
        decimal(graph.edges.len()),
    ] + edges_tokens(graph.edges)
}

/// The interchange text of a projection.
pub open spec fn document_text(graph: ContextGraphView) -> Seq<char> {
    array_text(graph_tokens(graph))
}

/// The step type that a word stands for.
pub open spec fn parse_step_type(word: Seq<char>) -> Option<StepType> {
    if word == "manual"@ {
        Some(StepType::Manual)
    } else if word == "automated"@ {
        Some(StepType::Automated)
    } else if word == "approval"@ {
        Some(StepType::Approval)
    } else {
        None
    }
}

/// The step status that a word stands for.
pub open spec fn parse_status(word: Seq<char>) -> Option<StepStatus> {
    if word == "pending"@ {
        Some(StepStatus::Pending)
    } else if word == "ready"@ {
        Some(StepStatus::Ready)
    } else if word == "in_progress"@ {
        Some(StepStatus::InProgress)
    } else if word == "completed"@ {
        Some(StepStatus::Completed)
    } else if word == "failed"@ {
        Some(StepStatus::Failed)
    } else if word == "skipped"@ {
        Some(StepStatus::Skipped)
    } else {
        None
    }
}

/// The edge kind that a word stands for.
pub open spec fn parse_edge_kind(word: Seq<char>) -> Option<EdgeKind> {
    if word == "depends_on"@ {
        Some(EdgeKind::DependsOn)
    } else if word == "sequence"@ {
        Some(EdgeKind::Sequence)
    } else {
        None
    }
}

/// The node that a reference names.
pub open spec fn parse_ref(word: Seq<char>) -> Option<NodeId> {
    if word == "start"@ {
        Some(NodeId::Start)
    } else if word == "end"@ {
        Some(NodeId::End)
    } else {
        match parse_decimal(word, u128::MAX as nat) {
            Some(n) => Some(NodeId::Step(StepId(n as u128))),
            None => None,
        }
    }
}

/// The estimated duration that a word stands for.
pub open spec fn parse_duration(word: Seq<char>) -> Option<Option<u32>> {
    if word.len() == 0 {
        Some(None)
    } else {
        match parse_decimal(word, u32::MAX as nat) {
            Some(n) => Some(Some(n as u32)),
            None => None,
        }
    }
}

/// Who is assigned, from the flag and the name.
pub open spec fn parse_assigned(flag: Seq<char>, who: Seq<char>) -> Option<Option<Seq<char>>> {
    if flag == "1"@ {
        Some(Some(who))
    } else if flag == "0"@ && who.len() == 0 {
        Some(None)
    } else {
        None
    }
}

/// Whether the strings 1 to 7 of a marker's eight are as they are written.
pub open spec fn marker_fields(tokens: Seq<Seq<char>>) -> bool {
    &&& tokens[1].len() == 0
    &&& tokens[2].len() == 0
    &&& tokens[3].len() == 0
    &&& tokens[4].len() == 0
    &&& tokens[5].len() == 0
    &&& tokens[6] == "0"@
    &&& tokens[7].len() == 0
}

/// What a node shows, from its eight strings.
pub open spec fn parse_value(tokens: Seq<Seq<char>>) -> Option<NodeValueView> {
    if tokens.len() != 8 {
        None
    } else if tokens[0] == "start"@ {
        if marker_fields(tokens) {
            Some(NodeValueView::Start)
        } else {
            None
        }
    } else if tokens[0] == "end"@ {
        if marker_fields(tokens) {
            Some(NodeValueView::End)
        } else {
            None
        }
    } else if tokens[0] == "step"@ {
        match (
            parse_step_type(tokens[3]),
            parse_status(tokens[4]),
            parse_duration(tokens[5]),
            parse_assigned(tokens[6], tokens[7]),
        ) {
            (Some(step_type), Some(status), Some(estimated_duration_minutes), Some(assigned_to)) => Some(
                NodeValueView::Step {
                    name: tokens[1],
                    description: tokens[2],
                    step_type,
                    status,
                    estimated_duration_minutes,
                    assigned_to,
                },
            ),
            _ => None,
        }
    } else {
        None
    }
}

/// A node, from its nine strings.
pub open spec fn parse_node(tokens: Seq<Seq<char>>) -> Option<NodeView> {
    if tokens.len() != 9 {
        None
    } else {
        match (parse_ref(tokens[0]), parse_value(tokens.skip(1))) {
            (Some(id), Some(value)) => Some(NodeView { id, value }),
            _ => None,
        }
    }
}

/// An edge, from its three strings.
pub open spec fn parse_edge(tokens: Seq<Seq<char>>) -> Option<ContextGraphEdge> {
    if tokens.len() != 3 {
        None
    } else {
        match (parse_ref(tokens[0]), parse_ref(tokens[1]), parse_edge_kind(tokens[2])) {
            (Some(source), Some(target), Some(edge_type)) => Some(ContextGraphEdge { source, target, edge_type }),
            _ => None,
        }
    }
}

/// `count` nodes from the beginning of `tokens`, and the strings after them.
pub open spec fn parse_nodes(tokens: Seq<Seq<char>>, count: nat) -> Option<(Seq<NodeView>, Seq<Seq<char>>)>
    decreases count,
{
    if count == 0 {
        Some((Seq::empty(), tokens))
    } else if tokens.len() < 9 {
        None
    } else {
        match parse_node(tokens.take(9)) {
            None => None,
            Some(node) => match parse_nodes(tokens.skip(9), (count - 1) as nat) {
                None => None,
                Some((nodes, rest)) => Some((seq![node] + nodes, rest)),
            },
        }
    }
}

/// `count` edges from the beginning of `tokens`, and the strings after them.
pub open spec fn parse_edges(tokens: Seq<Seq<char>>, count: nat) -> Option<
    (Seq<ContextGraphEdge>, Seq<Seq<char>>),
>
    decreases count,
{
    if count == 0 {
        Some((Seq::empty(), tokens))
    } else if tokens.len() < 3 {
        None
    } else {
        match parse_edge(tokens.take(3)) {
            None => None,
            Some(edge) => match parse_edges(tokens.skip(3), (count - 1) as nat) {
                None => None,
                Some((edges, rest)) => Some((seq![edge] + edges, rest)),
            },
        }
    }
}

/// The projection that `tokens` are the strings of.
pub open spec fn parse_graph(tokens: Seq<Seq<char>>) -> Option<ContextGraphView> {
    if tokens.len() < 3 {
        None
    } else {
        match parse_decimal(tokens[2], tokens.len()) {
            None => None,
            Some(node_count) => match parse_nodes(tokens.skip(3), node_count) {
                None => None,
                Some((nodes, after_nodes)) => if after_nodes.len() < 1 {
                    None
                } else {
                    match parse_decimal(after_nodes[0], tokens.len()) {
                        None => None,
                        Some(edge_count) => match parse_edges(after_nodes.skip(1), edge_count) {
                            None => None,
                            Some((edges, rest)) => if rest.len() == 0 {
                                Some(
                                    ContextGraphView { name: tokens[0], description: tokens[1], nodes, edges },
                                )
                            } else {
                                None
                            },
                        },
                    }
                },
            },
        }
    }
}

/// The projection that `text` is the interchange text of.
pub open spec fn parse_document(text: Seq<char>) -> Option<ContextGraphView> {
    match read_array(text) {
        Some(tokens) => parse_graph(tokens),
        None => None,
    }
}

/// What the words of the format are, letter by letter.
pub proof fn lemma_words()
    ensures
        "manual"@ == seq!['m', 'a', 'n', 'u', 'a', 'l'],
        "automated"@ == seq!['a', 'u', 't', 'o', 'm', 'a', 't', 'e', 'd'],
        "approval"@ == seq!['a', 'p', 'p', 'r', 'o', 'v', 'a', 'l'],
        "pending"@ == seq!['p', 'e', 'n', 'd', 'i', 'n', 'g'],
        "ready"@ == seq!['r', 'e', 'a', 'd', 'y'],
        "in_progress"@ == seq!['i', 'n', '_', 'p', 'r', 'o', 'g', 'r', 'e', 's', 's'],
        "completed"@ == seq!['c', 'o', 'm', 'p', 'l', 'e', 't', 'e', 'd'],
        "failed"@ == seq!['f', 'a', 'i', 'l', 'e', 'd'],
        "skipped"@ == seq!['s', 'k', 'i', 'p', 'p', 'e', 'd'],
        "depends_on"@ == seq!['d', 'e', 'p', 'e', 'n', 'd', 's', '_', 'o', 'n'],
        "sequence"@ == seq!['s', 'e', 'q', 'u', 'e', 'n', 'c', 'e'],
        "start"@ == seq!['s', 't', 'a', 'r', 't'],
        "end"@ == seq!['e', 'n', 'd'],
        "step"@ == seq!['s', 't', 'e', 'p'],
        "0"@ == seq!['0'],
        "1"@ == seq!['1'],
{
    reveal_strlit("manual");
    reveal_strlit("automated");
    reveal_strlit("approval");
    reveal_strlit("pending");
    reveal_strlit("ready");
    reveal_strlit("in_progress");
    reveal_strlit("completed");
    reveal_strlit("failed");
    reveal_strlit("skipped");
    reveal_strlit("depends_on");
    reveal_strlit("sequence");
    reveal_strlit("start");
    reveal_strlit("end");
    reveal_strlit("step");
    reveal_strlit("0");
    reveal_strlit("1");
    assert("manual"@ =~= seq!['m', 'a', 'n', 'u', 'a', 'l']);
    assert("automated"@ =~= seq!['a', 'u', 't', 'o', 'm', 'a', 't', 'e', 'd']);
    assert("approval"@ =~= seq!['a', 'p', 'p', 'r', 'o', 'v', 'a', 'l']);
    assert("pending"@ =~= seq!['p', 'e', 'n', 'd', 'i', 'n', 'g']);
    assert("ready"@ =~= seq!['r', 'e', 'a', 'd', 'y']);
    assert("in_progress"@ =~= seq!['i', 'n', '_', 'p', 'r', 'o', 'g', 'r', 'e', 's', 's']);
    assert("completed"@ =~= seq!['c', 'o', 'm', 'p', 'l', 'e', 't', 'e', 'd']);
    assert("failed"@ =~= seq!['f', 'a', 'i', 'l', 'e', 'd']);
    assert("skipped"@ =~= seq!['s', 'k', 'i', 'p', 'p', 'e', 'd']);
    assert("depends_on"@ =~= seq!['d', 'e', 'p', 'e', 'n', 'd', 's', '_', 'o', 'n']);
    assert("sequence"@ =~= seq!['s', 'e', 'q', 'u', 'e', 'n', 'c', 'e']);
    assert("start"@ =~= seq!['s', 't', 'a', 'r', 't']);
    assert("end"@ =~= seq!['e', 'n', 'd']);
    assert("step"@ =~= seq!['s', 't', 'e', 'p']);
    assert("0"@ =~= seq!['0']);
    assert("1"@ =~= seq!['1']);
}

proof fn lemma_parse_words(step_type: StepType, status: StepStatus, kind: EdgeKind)
    ensures
        parse_step_type(step_type_word(step_type)) == Some(step_type),
        parse_status(status_word(status)) == Some(status),
        parse_edge_kind(edge_kind_word(kind)) == Some(kind),
{
    lemma_words();
    assert("manual"@[0] == 'm' && "automated"@[1] == 'u' && "approval"@[1] == 'p');
    assert("pending"@[0] == 'p' && "ready"@[0] == 'r' && "in_progress"@[0] == 'i' && "completed"@[0] == 'c'
        && "failed"@[0] == 'f' && "skipped"@[0] == 's');
    assert("depends_on"@[0] == 'd' && "sequence"@[0] == 's');
}

proof fn lemma_words_are_parsed(word: Seq<char>)
    ensures
        parse_step_type(word) matches Some(t) ==> step_type_word(t) == word,
        parse_status(word) matches Some(s) ==> status_word(s) == word,
        parse_edge_kind(word) matches Some(k) ==> edge_kind_word(k) == word,
{
}

proof fn lemma_parse_ref(id: NodeId)
    ensures
        parse_ref(node_ref(id)) == Some(id),
{
    lemma_words();
    match id {
        NodeId::Start => {
            assert("start"@[0] == 's' && "end"@[0] == 'e');
        },
        NodeId::End => {
            assert("start"@[0] == 's' && "end"@[0] == 'e');
        },
        NodeId::Step(step) => {
            let word = decimal(step.0 as nat);
            lemma_decimal_parses(step.0 as nat);
            assert(crate::text::is_digit(word[0]));
            assert("start"@[0] == 's' && "end"@[0] == 'e');
            assert(word != "start"@);
            assert(word != "end"@);
        },
    }
}

proof fn lemma_ref_is_parsed(word: Seq<char>)
    requires
        parse_ref(word) is Some,
    ensures
        node_ref(parse_ref(word)->0) == word,
{
    if word != "start"@ && word != "end"@ {
        lemma_parse_decimal(word, u128::MAX as nat);
    }
}

proof fn lemma_parse_duration(minutes: Option<u32>)
    ensures
        parse_duration(duration_word(minutes)) == Some(minutes),
{
    if let Some(n) = minutes {
        lemma_decimal_parses(n as nat);
    }
}

proof fn lemma_duration_is_parsed(word: Seq<char>)
    requires
        parse_duration(word) is Some,
    ensures
        duration_word(parse_duration(word)->0) == word,
{
    if word.len() > 0 {
        lemma_parse_decimal(word, u32::MAX as nat);
    } else {
        assert(word =~= Seq::empty());
    }
}

/// What a node shows is read back from its strings.
pub proof fn lemma_parse_value(value: NodeValueView)
    ensures
        value_tokens(value).len() == 8,
        parse_value(value_tokens(value)) == Some(value),
{
    lemma_words();
    let tokens = value_tokens(value);
    assert("start"@[2] == 'a' && "end"@[0] == 'e' && "step"@[2] == 'e');
    assert("0"@[0] == '0' && "1"@[0] == '1');
    match value {
        NodeValueView::Start => {},
        NodeValueView::End => {},
        NodeValueView::Step { name, description, step_type, status, estimated_duration_minutes, assigned_to } => {
            lemma_parse_words(step_type, status, EdgeKind::Sequence);
            lemma_parse_duration(estimated_duration_minutes);
        },
    }
}

/// The strings that are read as what a node shows are the strings of that.
pub proof fn lemma_value_is_parsed(tokens: Seq<Seq<char>>)
    requires
        parse_value(tokens) is Some,
    ensures
        value_tokens(parse_value(tokens)->0) == tokens,
{
    lemma_words();
    let value = parse_value(tokens)->0;
    assert("start"@[2] == 'a' && "end"@[0] == 'e' && "step"@[2] == 'e');
    if tokens[0] == "start"@ || tokens[0] == "end"@ {
        assert(tokens[1] =~= Seq::empty());
        assert(tokens[2] =~= Seq::empty());
        assert(tokens[3] =~= Seq::empty());
        assert(tokens[4] =~= Seq::empty());
        assert(tokens[5] =~= Seq::empty());
        assert(tokens[7] =~= Seq::empty());
        assert(value_tokens(value) =~= tokens);
    } else {
        lemma_words_are_parsed(tokens[3]);
        lemma_words_are_parsed(tokens[4]);
        lemma_duration_is_parsed(tokens[5]);
        if tokens[6] != "1"@ {
            assert(tokens[7] =~= Seq::empty());
        }
        assert(value_tokens(value) =~= tokens);
    }
}

/// A node is read back from its strings.
pub proof fn lemma_parse_node(node: NodeView)
    ensures
        node_tokens(node).len() == 9,
        parse_node(node_tokens(node)) == Some(node),
{
    lemma_parse_value(node.value);
    lemma_parse_ref(node.id);
    assert(node_tokens(node).skip(1) =~= value_tokens(node.value));
}

/// The strings that are read as a node are the strings of that node.
pub proof fn lemma_node_is_parsed(tokens: Seq<Seq<char>>)
    requires
        parse_node(tokens) is Some,
    ensures
        node_tokens(parse_node(tokens)->0) == tokens,
{
    lemma_ref_is_parsed(tokens[0]);
    lemma_value_is_parsed(tokens.skip(1));
    assert(seq![tokens[0]] + tokens.skip(1) =~= tokens);
}

/// An edge is read back from its strings.
pub proof fn lemma_parse_edge(edge: ContextGraphEdge)
    ensures
        edge_tokens(edge).len() == 3,
        parse_edge(edge_tokens(edge)) == Some(edge),
{
    lemma_parse_ref(edge.source);
    lemma_parse_ref(edge.target);
    lemma_parse_words(StepType::Manual, StepStatus::Pending, edge.edge_type);
}

/// The strings that are read as an edge are the strings of that edge.
pub proof fn lemma_edge_is_parsed(tokens: Seq<Seq<char>>)
    requires
        parse_edge(tokens) is Some,
    ensures
        edge_tokens(parse_edge(tokens)->0) == tokens,
{
    lemma_ref_is_parsed(tokens[0]);
    lemma_ref_is_parsed(tokens[1]);
    lemma_words_are_parsed(tokens[2]);
    assert(edge_tokens(parse_edge(tokens)->0) =~= tokens);
}

/// Nodes are read back from their strings, whatever follows.
pub proof fn lemma_parse_nodes(nodes: Seq<NodeView>, rest: Seq<Seq<char>>)
    ensures
        parse_nodes(nodes_tokens(nodes) + rest, nodes.len()) == Some((nodes, rest)),
        nodes_tokens(nodes).len() == 9 * nodes.len(),
    decreases nodes.len(),
{
    let tokens = nodes_tokens(nodes) + rest;
    if nodes.len() == 0 {
        assert(tokens =~= rest);
    } else {
        let tail = nodes.drop_first();
        lemma_parse_node(nodes[0]);
        lemma_parse_nodes(tail, rest);
        assert(tokens.take(9) =~= node_tokens(nodes[0]));
        assert(tokens.skip(9) =~= nodes_tokens(tail) + rest);
        assert(seq![nodes[0]] + tail =~= nodes);
    }
}

/// The strings that are read as nodes are the strings of those nodes,
/// followed by the strings that are left.
pub proof fn lemma_nodes_are_parsed(tokens: Seq<Seq<char>>, count: nat)
    requires
        parse_nodes(tokens, count) is Some,
    ensures
        (parse_nodes(tokens, count)->0).0.len() == count,
        tokens == nodes_tokens((parse_nodes(tokens, count)->0).0) + (parse_nodes(tokens, count)->0).1,
    decreases count,
{
    if count == 0 {
        assert(tokens =~= nodes_tokens(Seq::empty()) + tokens);
    } else {
        let node = parse_node(tokens.take(9))->0;
        lemma_node_is_parsed(tokens.take(9));
        lemma_nodes_are_parsed(tokens.skip(9), (count - 1) as nat);
        let (nodes, rest) = parse_nodes(tokens.skip(9), (count - 1) as nat)->0;
        let all = seq![node] + nodes;
        assert(all[0] == node);
        assert(all.drop_first() =~= nodes);
        assert(tokens =~= tokens.take(9) + tokens.skip(9));
        assert(tokens =~= nodes_tokens(all) + rest);
    }
}

/// Edges are read back from their strings, whatever follows.
pub proof fn lemma_parse_edges(edges: Seq<ContextGraphEdge>, rest: Seq<Seq<char>>)
    ensures
        parse_edges(edges_tokens(edges) + rest, edges.len()) == Some((edges, rest)),
        edges_tokens(edges).len() == 3 * edges.len(),
    decreases edges.len(),
{
    let tokens = edges_tokens(edges) + rest;
    if edges.len() == 0 {
        assert(tokens =~= rest);
    } else {
        let tail = edges.drop_first();
        lemma_parse_edge(edges[0]);
        lemma_parse_edges(tail, rest);
        assert(tokens.take(3) =~= edge_tokens(edges[0]));
        assert(tokens.skip(3) =~= edges_tokens(tail) + rest);
        assert(seq![edges[0]] + tail =~= edges);
    }
}

/// The strings that are read as edges are the strings of those edges,
/// followed by the strings that are left.
pub proof fn lemma_edges_are_parsed(tokens: Seq<Seq<char>>, count: nat)
    requires
        parse_edges(tokens, count) is Some,
    ensures
        (parse_edges(tokens, count)->0).0.len() == count,
        tokens == edges_tokens((parse_edges(tokens, count)->0).0) + (parse_edges(tokens, count)->0).1,
    decreases count,
{
    if count == 0 {
        assert(tokens =~= edges_tokens(Seq::empty()) + tokens);
    } else {
        let edge = parse_edge(tokens.take(3))->0;
        lemma_edge_is_parsed(tokens.take(3));
        lemma_edges_are_parsed(tokens.skip(3), (count - 1) as nat);
        let (edges, rest) = parse_edges(tokens.skip(3), (count - 1) as nat)->0;
        let all = seq![edge] + edges;
        assert(all[0] == edge);
        assert(all.drop_first() =~= edges);
        assert(tokens =~= tokens.take(3) + tokens.skip(3));
        assert(tokens =~= edges_tokens(all) + rest);
    }
}

/// A projection is read back from its strings.
pub proof fn lemma_parse_graph(graph: ContextGraphView)
    ensures
        parse_graph(graph_tokens(graph)) == Some(graph),
{
    let tokens = graph_tokens(graph);
    let after_nodes = seq![decimal(graph.edges.len())] + edges_tokens(graph.edges);
    lemma_parse_nodes(graph.nodes, after_nodes);
    lemma_parse_edges(graph.edges, Seq::empty());
    lemma_decimal_parses(graph.nodes.len());
    lemma_decimal_parses(graph.edges.len());
    assert(tokens.len() == 4 + 9 * graph.nodes.len() + 3 * graph.edges.len());
    assert(tokens[2] == decimal(graph.nodes.len()));
    assert(tokens.skip(3) =~= nodes_tokens(graph.nodes) + after_nodes);
    assert(after_nodes[0] == decimal(graph.edges.len()));
    assert(after_nodes.skip(1) =~= edges_tokens(graph.edges) + Seq::empty());
}

/// The strings that are read as a projection are the strings of that
/// projection.
pub proof fn lemma_graph_is_parsed(tokens: Seq<Seq<char>>)
    requires
        parse_graph(tokens) is Some,
    ensures
        graph_tokens(parse_graph(tokens)->0) == tokens,
{
    let graph = parse_graph(tokens)->0;
    let node_count = parse_decimal(tokens[2], tokens.len())->0;
    lemma_parse_decimal(tokens[2], tokens.len());
    lemma_nodes_are_parsed(tokens.skip(3), node_count);
    let (nodes, after_nodes) = parse_nodes(tokens.skip(3), node_count)->0;
    let edge_count = parse_decimal(after_nodes[0], tokens.len())->0;
    lemma_parse_decimal(after_nodes[0], tokens.len());
    lemma_edges_are_parsed(after_nodes.skip(1), edge_count);
    let (edges, rest) = parse_edges(after_nodes.skip(1), edge_count)->0;
    assert(rest =~= Seq::empty());
    assert(after_nodes =~= seq![after_nodes[0]] + after_nodes.skip(1));
    assert(tokens =~= seq![tokens[0], tokens[1], tokens[2]] + tokens.skip(3));
    assert(graph_tokens(graph) =~= tokens);
}

/// Round trip: the interchange text of any projection is read back as that
/// projection, with the same nodes, the same edges and the same values in
/// every field.
pub proof fn lemma_interchange_round_trip(graph: ContextGraphView)
    ensures
        parse_document(document_text(graph)) == Some(graph),
{
    lemma_read_array_of_text(graph_tokens(graph));
    lemma_parse_graph(graph);
}

/// Only interchange text is read: what is read as a projection is the
/// interchange text of that projection, character for character.
pub proof fn lemma_interchange_is_canonical(text: Seq<char>)
    requires
        parse_document(text) is Some,
    ensures
        document_text(parse_document(text)->0) == text,
{
    lemma_read_array_is_text(text);
    lemma_graph_is_parsed(read_array(text)->0);
}


fn word_of_step_type(step_type: StepType) -> (word: String)
    ensures
        word@ == step_type_word(step_type),
{
    match step_type {
        StepType::Manual => "manual".to_owned(),
        StepType::Automated => "automated".to_owned(),
        StepType::Approval => "approval".to_owned(),
    }
}

fn word_of_status(status: StepStatus) -> (word: String)
    ensures
        word@ == status_word(status),
{
    match status {
        StepStatus::Pending => "pending".to_owned(),
        StepStatus::Ready => "ready".to_owned(),
        StepStatus::InProgress => "in_progress".to_owned(),
        StepStatus::Completed => "completed".to_owned(),
        StepStatus::Failed => "failed".to_owned(),
        StepStatus::Skipped => "skipped".to_owned(),
    }
}

fn word_of_edge_kind(kind: EdgeKind) -> (word: String)
    ensures
        word@ == edge_kind_word(kind),
{
    match kind {
        EdgeKind::DependsOn => "depends_on".to_owned(),
        EdgeKind::Sequence => "sequence".to_owned(),
    }
}

fn decimal_word(n: u128) -> (word: String)
    ensures
        word@ == decimal(n as nat),
{
    let mut word = String::new();
    append_decimal(&mut word, n);
    assert(word@ =~= decimal(n as nat));
    word
}

fn ref_of(id: NodeId) -> (word: String)
    ensures
        word@ == node_ref(id),
{
    match id {
        NodeId::Start => "start".to_owned(),
        NodeId::End => "end".to_owned(),
        NodeId::Step(step) => decimal_word(step.0),
    }
}

fn push_marker_tokens(out: &mut Vec<String>, kind: &str)
    ensures
        texts_view(final(out)@) == texts_view(old(out)@) + seq![
            kind@,
            Seq::empty(),
            Seq::empty(),
            Seq::empty(),
            Seq::empty(),
            Seq::empty(),
            "0"@,
            Seq::empty(),
        ],
{
    out.push(kind.to_owned());
    out.push(String::new());
    out.push(String::new());
    out.push(String::new());
    out.push(String::new());
    out.push(String::new());
    out.push("0".to_owned());
    out.push(String::new());
    assert(texts_view(out@) =~= texts_view(old(out)@) + seq![
        kind@,
        Seq::empty(),
        Seq::empty(),
        Seq::empty(),
        Seq::empty(),
        Seq::empty(),
        "0"@,
        Seq::empty(),
    ]);
}

fn push_node_tokens(out: &mut Vec<String>, node: &ContextGraphNode)
    ensures
        texts_view(final(out)@) == texts_view(old(out)@) + node_tokens(node@),
{
    out.push(ref_of(node.id));
    let ghost with_ref = texts_view(out@);
    assert(with_ref =~= texts_view(old(out)@) + seq![node_ref(node.id)]);
    match &node.value {
        ContextGraphNodeValue::Start => {
            push_marker_tokens(out, "start");
        },
        ContextGraphNodeValue::End => {
            push_marker_tokens(out, "end");
        },
        ContextGraphNodeValue::Step {
            name,
            description,
            step_type,
            status,
            estimated_duration_minutes,
            assigned_to,
        } => {
            out.push("step".to_owned());
            out.push(name.clone());
            out.push(description.clone());
            out.push(word_of_step_type(*step_type));
            out.push(word_of_status(*status));
            match estimated_duration_minutes {
                Some(n) => {
                    out.push(decimal_word(*n as u128));
                },
                None => {
                    out.push(String::new());
                },
            }
            match assigned_to {
                Some(who) => {
                    out.push("1".to_owned());
                    out.push(who.clone());
                },
                None => {
                    out.push("0".to_owned());
                    out.push(String::new());
                },
            }
            assert(texts_view(out@) =~= with_ref + value_tokens(node@.value));
        },
    }
    assert(texts_view(out@) =~= texts_view(old(out)@) + node_tokens(node@));
}

fn push_edge_tokens(out: &mut Vec<String>, edge: &ContextGraphEdge)
    ensures
        texts_view(final(out)@) == texts_view(old(out)@) + edge_tokens(*edge),
{
    out.push(ref_of(edge.source));
    out.push(ref_of(edge.target));
    out.push(word_of_edge_kind(edge.edge_type));
    assert(texts_view(out@) =~= texts_view(old(out)@) + edge_tokens(*edge));
}

proof fn lemma_nodes_tokens_push(nodes: Seq<NodeView>, last: NodeView)
    ensures
        nodes_tokens(nodes.push(last)) == nodes_tokens(nodes) + node_tokens(last),
    decreases nodes.len(),
{
    let whole = nodes.push(last);
    if nodes.len() == 0 {
        assert(whole.drop_first() =~= Seq::<NodeView>::empty());
        assert(nodes_tokens(whole) =~= node_tokens(last) + nodes_tokens(Seq::<NodeView>::empty()));
        assert(nodes_tokens(whole) =~= nodes_tokens(nodes) + node_tokens(last));
    } else {
        assert(whole.drop_first() =~= nodes.drop_first().push(last));
        assert(whole[0] == nodes[0]);
        lemma_nodes_tokens_push(nodes.drop_first(), last);
        assert(nodes_tokens(whole) =~= nodes_tokens(nodes) + node_tokens(last));
    }
}

proof fn lemma_edges_tokens_push(edges: Seq<ContextGraphEdge>, last: ContextGraphEdge)
    ensures
        edges_tokens(edges.push(last)) == edges_tokens(edges) + edge_tokens(last),
    decreases edges.len(),
{
    let whole = edges.push(last);
    if edges.len() == 0 {
        assert(whole.drop_first() =~= Seq::<ContextGraphEdge>::empty());
        assert(edges_tokens(whole) =~= edge_tokens(last) + edges_tokens(Seq::<ContextGraphEdge>::empty()));
        assert(edges_tokens(whole) =~= edges_tokens(edges) + edge_tokens(last));
    } else {
        assert(whole.drop_first() =~= edges.drop_first().push(last));
        assert(whole[0] == edges[0]);
        lemma_edges_tokens_push(edges.drop_first(), last);
        assert(edges_tokens(whole) =~= edges_tokens(edges) + edge_tokens(last));
    }
}

fn is_word(token: &String, word: &str) -> (same: bool)
    ensures
        same == (token@ == word@),
{
    let wanted = word.to_owned();
    *token == wanted
}

fn scan_step_type(token: &String) -> (found: Option<StepType>)
    ensures
        found == parse_step_type(token@),
{
    if is_word(token, "manual") {
        Some(StepType::Manual)
    } else if is_word(token, "automated") {
        Some(StepType::Automated)
    } else if is_word(token, "approval") {
        Some(StepType::Approval)
    } else {
        None
    }
}

fn scan_status(token: &String) -> (found: Option<StepStatus>)
    ensures
        found == parse_status(token@),
{
    if is_word(token, "pending") {
        Some(StepStatus::Pending)
    } else if is_word(token, "ready") {
        Some(StepStatus::Ready)
    } else if is_word(token, "in_progress") {
        Some(StepStatus::InProgress)
    } else if is_word(token, "completed") {
        Some(StepStatus::Completed)
    } else if is_word(token, "failed") {
        Some(StepStatus::Failed)
    } else if is_word(token, "skipped") {
        Some(StepStatus::Skipped)
    } else {
        None
    }
}

fn scan_edge_kind(token: &String) -> (found: Option<EdgeKind>)
    ensures
        found == parse_edge_kind(token@),
{
    if is_word(token, "depends_on") {
        Some(EdgeKind::DependsOn)
    } else if is_word(token, "sequence") {
        Some(EdgeKind::Sequence)
    } else {
        None
    }
}

fn scan_number(token: &String, max: u128) -> (found: Option<u128>)
    ensures
        match found {
            Some(n) => parse_decimal(token@, max as nat) == Some(n as nat),
            None => parse_decimal(token@, max as nat) is None,
        },
{
    let chars = chars_of(token.as_str());
    read_decimal(&chars, max)
}

fn scan_ref(token: &String) -> (found: Option<NodeId>)
    ensures
        found == parse_ref(token@),
{
    if is_word(token, "start") {
        Some(NodeId::Start)
    } else if is_word(token, "end") {
        Some(NodeId::End)
    } else {
        match scan_number(token, u128::MAX) {
            Some(n) => Some(NodeId::Step(StepId(n))),
            None => None,
        }
    }
}

fn scan_duration(token: &String) -> (found: Option<Option<u32>>)
    ensures
        found == parse_duration(token@),
{
    if token.as_str().unicode_len() == 0 {
        Some(None)
    } else {
        match scan_number(token, u32::MAX as u128) {
            Some(n) => Some(Some(n as u32)),
            None => None,
        }
    }
}

fn is_empty_word(token: &String) -> (empty: bool)
    ensures
        empty == (token@.len() == 0),
{
    token.as_str().unicode_len() == 0
}

fn scan_value(tokens: &Vec<String>, at: usize) -> (found: Option<ContextGraphNodeValue>)
    requires
        at + 8 <= tokens.len(),
    ensures
        match found {
            Some(value) => parse_value(texts_view(tokens@).skip(at as int).take(8)) == Some(value@),
            None => parse_value(texts_view(tokens@).skip(at as int).take(8)) is None,
        },
{
    let ghost part = texts_view(tokens@).skip(at as int).take(8);
    assert(part.len() == 8);
    assert(part[0] == tokens@[at as int]@ && part[1] == tokens@[at + 1]@ && part[2] == tokens@[at + 2]@ && part[3]
        == tokens@[at + 3]@ && part[4] == tokens@[at + 4]@ && part[5] == tokens@[at + 5]@ && part[6] == tokens@[at
        + 6]@ && part[7] == tokens@[at + 7]@);
    let kind = &tokens[at];
    if is_word(kind, "start") || is_word(kind, "end") {
        let plain = is_empty_word(&tokens[at + 1]) && is_empty_word(&tokens[at + 2]) && is_empty_word(
            &tokens[at + 3],
        ) && is_empty_word(&tokens[at + 4]) && is_empty_word(&tokens[at + 5]) && is_word(&tokens[at + 6], "0")
            && is_empty_word(&tokens[at + 7]);
        if !plain {
            return None;
        }
        if is_word(kind, "start") {
            Some(ContextGraphNodeValue::Start)
        } else {
            Some(ContextGraphNodeValue::End)
        }
    } else if is_word(kind, "step") {
        let step_type = match scan_step_type(&tokens[at + 3]) {
            Some(t) => t,
            None => {
                return None;
            },
        };
        let status = match scan_status(&tokens[at + 4]) {
            Some(s) => s,
            None => {
                return None;
            },
        };
        let estimated_duration_minutes = match scan_duration(&tokens[at + 5]) {
            Some(d) => d,
            None => {
                return None;
            },
        };
        let assigned_to = if is_word(&tokens[at + 6], "1") {
            Some(tokens[at + 7].clone())
        } else if is_word(&tokens[at + 6], "0") && is_empty_word(&tokens[at + 7]) {
            None
        } else {
            return None;
        };
        Some(
            ContextGraphNodeValue::Step {
                name: tokens[at + 1].clone(),
                description: tokens[at + 2].clone(),
                step_type,
                status,
                estimated_duration_minutes,
                assigned_to,
            },
        )
    } else {
        None
    }
}

fn scan_node(tokens: &Vec<String>, at: usize) -> (found: Option<ContextGraphNode>)
    requires
        at + 9 <= tokens.len(),
    ensures
        match found {
            Some(node) => parse_node(texts_view(tokens@).skip(at as int).take(9)) == Some(node@),
            None => parse_node(texts_view(tokens@).skip(at as int).take(9)) is None,
        },
{
    let ghost part = texts_view(tokens@).skip(at as int).take(9);
    assert(part[0] == tokens@[at as int]@);
    assert(part.skip(1) =~= texts_view(tokens@).skip(at as int + 1).take(8));
    let id = match scan_ref(&tokens[at]) {
        Some(id) => id,
        None => {
            return None;
        },
    };
    match scan_value(tokens, at + 1) {
        Some(value) => Some(ContextGraphNode { id, value }),
        None => None,
    }
}

fn scan_edge(tokens: &Vec<String>, at: usize) -> (found: Option<ContextGraphEdge>)
    requires
        at + 3 <= tokens.len(),
    ensures
        found == parse_edge(texts_view(tokens@).skip(at as int).take(3)),
{
    let ghost part = texts_view(tokens@).skip(at as int).take(3);
    assert(part[0] == tokens@[at as int]@ && part[1] == tokens@[at + 1]@ && part[2] == tokens@[at + 2]@);
    let source = match scan_ref(&tokens[at]) {
        Some(id) => id,
        None => {
            return None;
        },
    };
    let target = match scan_ref(&tokens[at + 1]) {
        Some(id) => id,
        None => {
            return None;
        },
    };
    match scan_edge_kind(&tokens[at + 2]) {
        Some(edge_type) => Some(ContextGraphEdge { source, target, edge_type }),
        None => None,
    }
}

/// `found` followed by what `more` finds.
pub open spec fn then_nodes(found: Seq<NodeView>, more: Option<(Seq<NodeView>, Seq<Seq<char>>)>) -> Option<
    (Seq<NodeView>, Seq<Seq<char>>),
> {
    match more {
        Some((nodes, rest)) => Some((found + nodes, rest)),
        None => None,
    }
}

/// `found` followed by what `more` finds.
pub open spec fn then_edges(
    found: Seq<ContextGraphEdge>,
    more: Option<(Seq<ContextGraphEdge>, Seq<Seq<char>>)>,
) -> Option<(Seq<ContextGraphEdge>, Seq<Seq<char>>)> {
    match more {
        Some((edges, rest)) => Some((found + edges, rest)),
        None => None,
    }
}

fn scan_nodes(tokens: &Vec<String>, at: usize, count: usize) -> (found: Option<(Vec<ContextGraphNode>, usize)>)
    requires
        at <= tokens.len(),
    ensures
        match found {
            Some((nodes, end)) => at <= end <= tokens.len() && parse_nodes(
                texts_view(tokens@).skip(at as int),
                count as nat,
            ) == Some((nodes_view(nodes@), texts_view(tokens@).skip(end as int))),
            None => parse_nodes(texts_view(tokens@).skip(at as int), count as nat) is None,
        },
{
    let ghost all = texts_view(tokens@);
    let ghost whole = parse_nodes(all.skip(at as int), count as nat);
    let mut nodes: Vec<ContextGraphNode> = Vec::new();
    let mut i: usize = at;
    let mut left: usize = count;
    assert(whole == then_nodes(nodes_view(nodes@), parse_nodes(all.skip(i as int), left as nat))) by {
        if let Some((found, rest)) = whole {
            assert(nodes_view(nodes@) + found =~= found);
        }
    }
    while left > 0
        invariant
            at <= i <= tokens.len(),
            all == texts_view(tokens@),
            whole == parse_nodes(all.skip(at as int), count as nat),
            whole == then_nodes(nodes_view(nodes@), parse_nodes(all.skip(i as int), left as nat)),
        decreases left,
    {
        if tokens.len() - i < 9 {
            return None;
        }
        let ghost so_far = nodes_view(nodes@);
        match scan_node(tokens, i) {
            None => {
                return None;
            },
            Some(node) => {
                let ghost view = node@;
                proof {
                    assert(all.skip(i as int).skip(9) =~= all.skip(i as int + 9));
                    let more = parse_nodes(all.skip(i as int + 9), (left - 1) as nat);
                    if let Some((found, rest)) = more {
                        assert(so_far + (seq![view] + found) =~= so_far.push(view) + found);
                    }
                }
                nodes.push(node);
                assert(nodes_view(nodes@) =~= so_far.push(view));
                i = i + 9;
                left = left - 1;
            },
        }
    }
    assert(nodes_view(nodes@) + Seq::<NodeView>::empty() =~= nodes_view(nodes@));
    Some((nodes, i))
}

fn scan_edges(tokens: &Vec<String>, at: usize, count: usize) -> (found: Option<(Vec<ContextGraphEdge>, usize)>)
    requires
        at <= tokens.len(),
    ensures
        match found {
            Some((edges, end)) => at <= end <= tokens.len() && parse_edges(
                texts_view(tokens@).skip(at as int),
                count as nat,
            ) == Some((edges@, texts_view(tokens@).skip(end as int))),
            None => parse_edges(texts_view(tokens@).skip(at as int), count as nat) is None,
        },
{
    let ghost all = texts_view(tokens@);
    let ghost whole = parse_edges(all.skip(at as int), count as nat);
    let mut edges: Vec<ContextGraphEdge> = Vec::new();
    let mut i: usize = at;
    let mut left: usize = count;
    assert(whole == then_edges(edges@, parse_edges(all.skip(i as int), left as nat))) by {
        if let Some((found, rest)) = whole {
            assert(edges@ + found =~= found);
        }
    }
    while left > 0
        invariant
            at <= i <= tokens.len(),
            all == texts_view(tokens@),
            whole == parse_edges(all.skip(at as int), count as nat),
            whole == then_edges(edges@, parse_edges(all.skip(i as int), left as nat)),
        decreases left,
    {
        if tokens.len() - i < 3 {
            return None;
        }
        let ghost so_far = edges@;
        match scan_edge(tokens, i) {
            None => {
                return None;
            },
            Some(edge) => {
                proof {
                    assert(all.skip(i as int).skip(3) =~= all.skip(i as int + 3));
                    let more = parse_edges(all.skip(i as int + 3), (left - 1) as nat);
                    if let Some((found, rest)) = more {
                        assert(so_far + (seq![edge] + found) =~= so_far.push(edge) + found);
                    }
                }
                edges.push(edge);
                i = i + 3;
                left = left - 1;
            },
        }
    }
    assert(edges@ + Seq::<ContextGraphEdge>::empty() =~= edges@);
    Some((edges, i))
}

fn scan_graph(tokens: &Vec<String>) -> (found: Option<ContextGraph>)
    ensures
        match found {
            Some(graph) => parse_graph(texts_view(tokens@)) == Some(graph@),
            None => parse_graph(texts_view(tokens@)) is None,
        },
{
    let ghost all = texts_view(tokens@);
    let n = tokens.len();
    if n < 3 {
        return None;
    }
    assert(all[0] == tokens@[0]@ && all[1] == tokens@[1]@ && all[2] == tokens@[2]@);
    let node_count = match scan_number(&tokens[2], n as u128) {
        Some(c) => c as usize,
        None => {
            return None;
        },
    };
    let (nodes, after_nodes) = match scan_nodes(tokens, 3, node_count) {
        Some(found) => found,
        None => {
            return None;
        },
    };
    if after_nodes == n {
        return None;
    }
    assert(all.skip(after_nodes as int)[0] == tokens@[after_nodes as int]@);
    let edge_count = match scan_number(&tokens[after_nodes], n as u128) {
        Some(c) => c as usize,
        None => {
            return None;
        },
    };
    assert(all.skip(after_nodes as int).skip(1) =~= all.skip(after_nodes as int + 1));
    let (edges, end) = match scan_edges(tokens, after_nodes + 1, edge_count) {
        Some(found) => found,
        None => {
            return None;
        },
    };
    if end != n {
        return None;
    }
    Some(ContextGraph { name: tokens[0].clone(), description: tokens[1].clone(), nodes, edges })
}

impl ContextGraph {
    /// The interchange text of the projection.
    pub fn to_json(&self) -> (text: String)
        ensures
            text@ == document_text(self@),
    {
        let ghost graph = self@;
        let mut tokens: Vec<String> = Vec::new();
        tokens.push(self.name.clone());
        tokens.push(self.description.clone());
        tokens.push(decimal_word(self.nodes.len() as u128));
        let ghost head = texts_view(tokens@);
        assert(head =~= seq![graph.name, graph.description, decimal(graph.nodes.len())]);
        let mut i: usize = 0;
        assert(texts_view(tokens@) =~= head + nodes_tokens(graph.nodes.take(0)));
        while i < self.nodes.len()
            invariant
                i <= self.nodes.len(),
                graph == self@,
                texts_view(tokens@) == head + nodes_tokens(graph.nodes.take(i as int)),
            decreases self.nodes.len() - i,
        {
            proof {
                assert(graph.nodes.take(i as int + 1) =~= graph.nodes.take(i as int).push(graph.nodes[i as int]));
                lemma_nodes_tokens_push(graph.nodes.take(i as int), graph.nodes[i as int]);
                assert(graph.nodes[i as int] == self.nodes@[i as int]@);
            }
            push_node_tokens(&mut tokens, &self.nodes[i]);
            assert(texts_view(tokens@) =~= head + nodes_tokens(graph.nodes.take(i as int + 1)));
            i += 1;
        }
        assert(graph.nodes.take(graph.nodes.len() as int) =~= graph.nodes);
        tokens.push(decimal_word(self.edges.len() as u128));
        let ghost middle = texts_view(tokens@);
        assert(middle =~= head + nodes_tokens(graph.nodes) + seq![decimal(graph.edges.len())]);
        let mut k: usize = 0;
        assert(texts_view(tokens@) =~= middle + edges_tokens(graph.edges.take(0)));
        while k < self.edges.len()
            invariant
                k <= self.edges.len(),
                graph == self@,
                texts_view(tokens@) == middle + edges_tokens(graph.edges.take(k as int)),
            decreases self.edges.len() - k,
        {
            proof {
                assert(graph.edges.take(k as int + 1) =~= graph.edges.take(k as int).push(graph.edges[k as int]));
                lemma_edges_tokens_push(graph.edges.take(k as int), graph.edges[k as int]);
            }
            push_edge_tokens(&mut tokens, &self.edges[k]);
            assert(texts_view(tokens@) =~= middle + edges_tokens(graph.edges.take(k as int + 1)));
            k += 1;
        }
        assert(graph.edges.take(graph.edges.len() as int) =~= graph.edges);
        assert(texts_view(tokens@) =~= graph_tokens(graph));
        write_array(&tokens)
    }

    /// Reads a projection from its interchange text.
    ///
    /// Succeeds on the text that `to_json` writes of a projection, and on no
    /// other: what is read is the projection whose interchange text is
    /// `json`, character for character.
    pub fn from_json(json: &str) -> (read: Option<ContextGraph>)
        ensures
            match read {
                Some(graph) => parse_document(json@) == Some(graph@) && document_text(graph@) == json@,
                None => parse_document(json@) is None && forall|graph: ContextGraphView|
                    #[trigger] document_text(graph) != json@,
            },
    {
        let chars = chars_of(json);
        let found = match scan_array(&chars) {
            Some(tokens) => scan_graph(&tokens),
            None => None,
        };
        proof {
            if parse_document(json@) is Some {
                lemma_interchange_is_canonical(json@);
            } else {
                assert forall|graph: ContextGraphView| #[trigger] document_text(graph) != json@ by {
                    lemma_interchange_round_trip(graph);
                }
            }
        }
        found
    }
}

} // verus!
