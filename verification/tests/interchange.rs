use cim_workflow_graph::{
    ContextGraph, ContextGraphEdge, ContextGraphNode, ContextGraphNodeValue, EdgeKind, NodeId,
    StepId, StepStatus, StepType, WorkflowGraph, WorkflowGraphError,
};

fn sample() -> ContextGraph {
    ContextGraph {
        name: "Quote \" and \\ and\nnewline".to_string(),
        description: "käse ✓".to_string(),
        nodes: vec![
            ContextGraphNode { id: NodeId::Start, value: ContextGraphNodeValue::Start },
            ContextGraphNode {
                id: NodeId::Step(StepId(u128::MAX)),
                value: ContextGraphNodeValue::Step {
                    name: "a,b".to_string(),
                    description: String::new(),
                    step_type: StepType::Approval,
                    status: StepStatus::InProgress,
                    estimated_duration_minutes: Some(u32::MAX),
                    assigned_to: Some(String::new()),
                },
            },
            ContextGraphNode {
                id: NodeId::Step(StepId(0)),
                value: ContextGraphNodeValue::Step {
                    name: "\u{1}\u{1f}".to_string(),
                    description: "]".to_string(),
                    step_type: StepType::Automated,
                    status: StepStatus::Skipped,
                    estimated_duration_minutes: None,
                    assigned_to: None,
                },
            },
            ContextGraphNode { id: NodeId::End, value: ContextGraphNodeValue::End },
        ],
        edges: vec![
            ContextGraphEdge {
                source: NodeId::Step(StepId(0)),
                target: NodeId::Step(StepId(u128::MAX)),
                edge_type: EdgeKind::DependsOn,
            },
            ContextGraphEdge {
                source: NodeId::Start,
                target: NodeId::End,
                edge_type: EdgeKind::Sequence,
            },
        ],
    }
}

#[test]
fn the_interchange_text_is_exact() {
    let graph = ContextGraph {
        name: "n".to_string(),
        description: "d".to_string(),
        nodes: vec![
            ContextGraphNode { id: NodeId::Start, value: ContextGraphNodeValue::Start },
            ContextGraphNode {
                id: NodeId::Step(StepId(12)),
                value: ContextGraphNodeValue::Step {
                    name: "s".to_string(),
                    description: "\"".to_string(),
                    step_type: StepType::Manual,
                    status: StepStatus::Pending,
                    estimated_duration_minutes: Some(30),
                    assigned_to: Some("ann".to_string()),
                },
            },
        ],
        edges: vec![ContextGraphEdge {
            source: NodeId::Start,
            target: NodeId::Step(StepId(12)),
            edge_type: EdgeKind::Sequence,
        }],
    };
    let expected = [
        r#"["n","d","2","#,
        r#""start","start","","","","","","0","","#,
        r#""12","step","s","\"","manual","pending","30","1","ann","#,
        r#""1","start","12","sequence"]"#,
    ]
    .concat();
    assert_eq!(graph.to_json(), expected);
    assert_eq!(ContextGraph::from_json(&expected), Some(graph));
}

#[test]
fn control_characters_are_written_by_their_code() {
    let graph = ContextGraph {
        name: "\u{0}\t\u{1f} \\".to_string(),
        description: String::new(),
        nodes: vec![],
        edges: vec![],
    };
    let text = graph.to_json();
    assert_eq!(text, r#"["\u0000\u0009\u001f \\","","0","0"]"#);
    assert_eq!(ContextGraph::from_json(&text), Some(graph));
}

#[test]
fn any_projection_comes_back_from_its_interchange_text() {
    let graph = sample();
    let text = graph.to_json();
    assert_eq!(ContextGraph::from_json(&text), Some(graph));
    let empty = ContextGraph {
        name: String::new(),
        description: String::new(),
        nodes: vec![],
        edges: vec![],
    };
    assert_eq!(empty.to_json(), r#"["","","0","0"]"#);
    assert_eq!(ContextGraph::from_json(&empty.to_json()), Some(empty));
}

#[test]
fn only_interchange_text_is_read() {
    let refused = [
        "",
        "[]",
        "{}",
        r#"["","","0"]"#,
        r#"["","","0","0"] "#,
        r#" ["","","0","0"]"#,
        r#"["","", "0","0"]"#,
        r#"["","","00","0"]"#,
        r#"["","","0","0",""]"#,
        r#"["","","1","0"]"#,
        r#"["","","0","1","start","end","depends"]"#,
        r#"["","","0","1","start","end","sequence""#,
        r#"["\n","","0","0"]"#,
        r#"["\u0041","","0","0"]"#,
        r#"["\/","","0","0"]"#,
        r#"["\u001F","","0","0"]"#,
        "[\"\t\",\"\",\"0\",\"0\"]",
        r#"["","","1","start","start","","","","","","1","","0"]"#,
        r#"["","","1","01","step","","","manual","pending","","0","","0"]"#,
        r#"["","","1","1","step","","","manual","pending","4294967296","0","","0"]"#,
        r#"["","","1","340282366920938463463374607431768211456","step","","","manual","pending","","0","","0"]"#,
        r#"["","","1","1","step","","","manual","pending","","0","x","0"]"#,
        r#"["","","1","1","step","","","Manual","pending","","0","","0"]"#,
    ];
    for text in refused {
        assert_eq!(ContextGraph::from_json(text), None, "{text}");
        assert!(matches!(
            WorkflowGraph::from_json(text),
            Err(WorkflowGraphError::SerializationError(reason))
                if reason == "text is not the interchange text of a projection"
        ));
    }
    let accepted =
        r#"["","","1","1","step","","","manual","pending","4294967295","0","","0"]"#;
    assert!(ContextGraph::from_json(accepted).is_some());
}

#[test]
fn the_diagram_is_exact() {
    let graph = ContextGraph {
        name: "My \"flow\"".to_string(),
        description: "d".to_string(),
        nodes: vec![
            ContextGraphNode { id: NodeId::Start, value: ContextGraphNodeValue::Start },
            ContextGraphNode {
                id: NodeId::Step(StepId(5)),
                value: ContextGraphNodeValue::Step {
                    name: "first".to_string(),
                    description: String::new(),
                    step_type: StepType::Manual,
                    status: StepStatus::Pending,
                    estimated_duration_minutes: None,
                    assigned_to: None,
                },
            },
            ContextGraphNode { id: NodeId::End, value: ContextGraphNodeValue::End },
        ],
        edges: vec![
            ContextGraphEdge {
                source: NodeId::Step(StepId(5)),
                target: NodeId::Step(StepId(6)),
                edge_type: EdgeKind::DependsOn,
            },
            ContextGraphEdge {
                source: NodeId::Start,
                target: NodeId::Step(StepId(5)),
                edge_type: EdgeKind::Sequence,
            },
            ContextGraphEdge {
                source: NodeId::Step(StepId(5)),
                target: NodeId::End,
                edge_type: EdgeKind::Sequence,
            },
        ],
    };
    let expected = "digraph workflow {\n  label=\"My \\\"flow\\\"\";\n  start [label=\"Start\"];\n  step_5 [label=\"first\"];\n  end [label=\"End\"];\n  step_5 -> step_6 [label=\"depends_on\"];\n  start -> step_5;\n  step_5 -> end;\n}\n";
    assert_eq!(graph.to_dot(), expected);
}
