use cim_workflow_graph::model::uuid_of;
use cim_workflow_graph::recording::{context_pairs, domain_event, domain_event_of};
use cim_workflow_graph::WorkflowDomainEvent;
use cim_workflow_graph::{
    ContextGraphNodeValue, EdgeKind, GraphEvent, NodeId, PropertyMap, StepId, StepStatus, StepType,
    WorkflowGraph, WorkflowGraphError, WorkflowGraphMetadata, WorkflowId, WorkflowRecord,
    WorkflowStatus, WorkflowStep,
};

fn new_graph(name: &str, description: &str) -> WorkflowGraph {
    WorkflowGraph::new(name.to_string(), description.to_string()).unwrap()
}

fn add(graph: &mut WorkflowGraph, name: &str, dependencies: Vec<StepId>) -> StepId {
    graph
        .add_step(
            name.to_string(),
            String::new(),
            StepType::Manual,
            PropertyMap::new(),
            dependencies,
            None,
            None,
        )
        .unwrap()
}

fn record_step(id: u128, dependencies: Vec<u128>) -> WorkflowStep {
    WorkflowStep {
        id: StepId(id),
        name: format!("step {id}"),
        description: String::new(),
        step_type: StepType::Automated,
        status: StepStatus::Pending,
        dependencies: dependencies.into_iter().map(StepId).collect(),
        estimated_duration_minutes: None,
        assigned_to: None,
        config: PropertyMap::new(),
    }
}

fn graph_of(steps: Vec<WorkflowStep>) -> WorkflowGraph {
    WorkflowGraph::from_workflow(WorkflowRecord {
        id: WorkflowId(7),
        name: "Record".to_string(),
        description: "From a record".to_string(),
        status: WorkflowStatus::Draft,
        steps,
        metadata: PropertyMap::new(),
    })
}

#[test]
fn test_workflow_graph_creation() {
    let workflow_graph =
        WorkflowGraph::new("Test Workflow".to_string(), "A test workflow".to_string()).unwrap();

    assert_eq!(workflow_graph.name(), "Test Workflow");
    assert_eq!(workflow_graph.description(), "A test workflow");
    assert_eq!(workflow_graph.status(), &WorkflowStatus::Draft);
}

#[test]
fn test_add_step() {
    let mut workflow_graph =
        WorkflowGraph::new("Test Workflow".to_string(), "A test workflow".to_string()).unwrap();

    let step_id = workflow_graph
        .add_step(
            "Test Step".to_string(),
            "A test step".to_string(),
            StepType::Manual,
            PropertyMap::new(),
            Vec::new(),
            Some(30),
            Some("test-user".to_string()),
        )
        .unwrap();

    let stats = workflow_graph.statistics();
    assert_eq!(stats.step_nodes, 1);
    assert!(workflow_graph.contains_step(&step_id));
}

#[test]
fn test_step_dependencies() {
    let mut workflow_graph =
        WorkflowGraph::new("Test Workflow".to_string(), "A test workflow".to_string()).unwrap();

    let step1_id = workflow_graph
        .add_step(
            "Step 1".to_string(),
            "First step".to_string(),
            StepType::Manual,
            PropertyMap::new(),
            Vec::new(),
            Some(30),
            None,
        )
        .unwrap();

    let step2_id = workflow_graph
        .add_step(
            "Step 2".to_string(),
            "Second step".to_string(),
            StepType::Automated,
            PropertyMap::new(),
            vec![step1_id],
            Some(15),
            None,
        )
        .unwrap();

    let stats = workflow_graph.statistics();
    assert_eq!(stats.step_nodes, 2);
    assert!(stats.dependency_edges > 0);

    assert!(workflow_graph.validate().is_ok());

    assert_eq!(workflow_graph.get_executable_steps(), vec![step1_id]);
    assert_eq!(stats.total_nodes, 4);
    assert_eq!(stats.dependency_edges, 1);
    assert_eq!(stats.total_edges, 3);
    assert_eq!(stats.max_depth, 2);
    assert!(!stats.is_cyclic);
    assert_ne!(step1_id, step2_id);
}

#[test]
fn test_json_export() {
    let mut workflow_graph =
        WorkflowGraph::new("Export Test".to_string(), "Testing JSON export".to_string()).unwrap();

    workflow_graph
        .add_step(
            "Test Step".to_string(),
            "A test step".to_string(),
            StepType::Manual,
            PropertyMap::new(),
            Vec::new(),
            Some(30),
            None,
        )
        .unwrap();

    let json = workflow_graph.to_json().unwrap();
    assert!(json.contains("Export Test"));
    assert!(json.contains("Test Step"));

    let reconstructed = WorkflowGraph::from_json(&json).unwrap();
    assert_eq!(reconstructed, workflow_graph.context_graph());
}

#[test]
fn test_dot_export() {
    let mut workflow_graph =
        WorkflowGraph::new("DOT Test".to_string(), "Testing DOT export".to_string()).unwrap();

    workflow_graph
        .add_step(
            "Test Step".to_string(),
            "A test step".to_string(),
            StepType::Manual,
            PropertyMap::new(),
            Vec::new(),
            Some(30),
            None,
        )
        .unwrap();

    let dot = workflow_graph.to_dot();
    assert!(dot.contains("digraph"));
    assert!(dot.contains("DOT Test"));
    assert!(dot.contains("Start"));
    assert!(dot.contains("End"));
}

#[test]
fn test_workflow_lifecycle() {
    let mut workflow_graph = WorkflowGraph::new(
        "Lifecycle Test".to_string(),
        "Testing workflow lifecycle".to_string(),
    )
    .unwrap();

    workflow_graph
        .add_step(
            "Test Step".to_string(),
            "A test step".to_string(),
            StepType::Manual,
            PropertyMap::new(),
            Vec::new(),
            Some(30),
            None,
        )
        .unwrap();

    assert!(workflow_graph.start(PropertyMap::new()).is_ok());
    assert_eq!(workflow_graph.status(), &WorkflowStatus::Running);
}

#[test]
fn unknown_dependency_is_refused_and_nothing_is_added() {
    let mut graph = new_graph("g", "");
    let a = add(&mut graph, "a", vec![]);
    let before = graph.to_json().unwrap();
    let ghost_id = StepId(a.0.wrapping_add(1));
    let result = graph.add_step(
        "b".to_string(),
        String::new(),
        StepType::Manual,
        PropertyMap::new(),
        vec![a, ghost_id],
        None,
        None,
    );
    assert!(matches!(
        result,
        Err(WorkflowGraphError::InvalidDependency { dependent: None, missing }) if missing == ghost_id
    ));
    assert_eq!(graph.steps().len(), 1);
    assert_eq!(graph.to_json().unwrap(), before);
    assert_eq!(
        graph.take_events(),
        vec![GraphEvent::WorkflowCreated, GraphEvent::StepAdded { step: a }]
    );
}

#[test]
fn an_identifier_in_use_is_refused() {
    let mut graph = new_graph("g", "");
    let first = graph
        .add_step_with_id(
            StepId(1),
            "a".to_string(),
            String::new(),
            StepType::Manual,
            PropertyMap::new(),
            vec![],
            None,
            None,
        )
        .unwrap();
    assert_eq!(first, StepId(1));
    let again = graph.add_step_with_id(
        StepId(1),
        "b".to_string(),
        String::new(),
        StepType::Manual,
        PropertyMap::new(),
        vec![],
        None,
        None,
    );
    assert!(matches!(
        again,
        Err(WorkflowGraphError::InvalidOperation(reason)) if reason == "step identifier already in use"
    ));
    assert_eq!(graph.steps().len(), 1);
}

#[test]
fn a_cycle_through_three_steps_fails_validation() {
    let graph = graph_of(vec![
        record_step(1, vec![2]),
        record_step(2, vec![3]),
        record_step(3, vec![1]),
    ]);
    assert!(matches!(
        graph.validate(),
        Err(WorkflowGraphError::CircularDependency { step }) if step == StepId(1)
    ));
    let stats = graph.statistics();
    assert!(stats.is_cyclic);
    assert_eq!(stats.max_depth, 0);
}

#[test]
fn the_first_step_on_a_cycle_is_named() {
    // 1 leads into the cycle 2 -> 3 -> 2 but does not lie on it.
    let graph = graph_of(vec![
        record_step(1, vec![2]),
        record_step(2, vec![3]),
        record_step(3, vec![2]),
    ]);
    assert!(matches!(
        graph.validate(),
        Err(WorkflowGraphError::CircularDependency { step }) if step == StepId(2)
    ));
}

#[test]
fn a_self_loop_and_a_two_step_cycle_fail_validation() {
    let own = graph_of(vec![record_step(1, vec![1])]);
    assert!(matches!(
        own.validate(),
        Err(WorkflowGraphError::CircularDependency { step }) if step == StepId(1)
    ));
    let pair = graph_of(vec![record_step(1, vec![2]), record_step(2, vec![1])]);
    assert!(matches!(
        pair.validate(),
        Err(WorkflowGraphError::CircularDependency { step }) if step == StepId(1)
    ));
}

#[test]
fn a_diamond_passes_validation() {
    // A -> B, A -> C, B -> D, C -> D
    let graph = graph_of(vec![
        record_step(1, vec![2, 3]),
        record_step(2, vec![4]),
        record_step(3, vec![4]),
        record_step(4, vec![]),
    ]);
    assert!(graph.validate().is_ok());
    let stats = graph.statistics();
    assert!(!stats.is_cyclic);
    assert_eq!(stats.max_depth, 3);
    assert_eq!(stats.dependency_edges, 4);
    assert_eq!(stats.total_nodes, 6);
    // one edge from the start marker (to 4), one to the end marker (from 1)
    assert_eq!(stats.total_edges, 6);
}

#[test]
fn a_deep_chain_passes_validation() {
    let mut steps = Vec::new();
    for i in 0..40u128 {
        steps.push(record_step(i, if i == 0 { vec![] } else { vec![i - 1] }));
    }
    let graph = graph_of(steps);
    assert!(graph.validate().is_ok());
    assert_eq!(graph.statistics().max_depth, 40);
}

#[test]
fn a_dependency_on_no_step_fails_validation() {
    let graph = graph_of(vec![record_step(1, vec![]), record_step(2, vec![1, 9])]);
    assert!(matches!(
        graph.validate(),
        Err(WorkflowGraphError::InvalidDependency { dependent: Some(step), missing })
            if step == StepId(2) && missing == StepId(9)
    ));
}

#[test]
fn a_cycle_is_reported_before_a_missing_dependency() {
    let graph = graph_of(vec![record_step(1, vec![9]), record_step(2, vec![2])]);
    assert!(matches!(
        graph.validate(),
        Err(WorkflowGraphError::CircularDependency { step }) if step == StepId(2)
    ));
}

#[test]
fn executable_steps_follow_completion() {
    let mut graph = new_graph("g", "");
    let a = add(&mut graph, "a", vec![]);
    let b = add(&mut graph, "b", vec![a]);
    assert_eq!(graph.get_executable_steps(), vec![a]);
    graph.set_step_status(a, StepStatus::Completed).unwrap();
    assert_eq!(graph.get_executable_steps(), vec![b]);
    graph.set_step_status(b, StepStatus::InProgress).unwrap();
    assert!(graph.get_executable_steps().is_empty());
}

#[test]
fn a_ready_step_is_executable_and_a_missing_dependency_blocks() {
    let mut ready = record_step(1, vec![]);
    ready.status = StepStatus::Ready;
    let blocked = record_step(2, vec![9]);
    let mut failed = record_step(3, vec![]);
    failed.status = StepStatus::Failed;
    let graph = graph_of(vec![ready, blocked, failed]);
    assert_eq!(graph.get_executable_steps(), vec![StepId(1)]);
}

#[test]
fn steps_are_found_by_status_and_by_type() {
    let mut graph = new_graph("g", "");
    let a = add(&mut graph, "a", vec![]);
    let b = graph
        .add_step(
            "b".to_string(),
            String::new(),
            StepType::Approval,
            PropertyMap::new(),
            vec![a],
            None,
            None,
        )
        .unwrap();
    graph.set_step_status(a, StepStatus::Completed).unwrap();
    assert_eq!(graph.find_steps_by_status(StepStatus::Completed), vec![a]);
    assert_eq!(graph.find_steps_by_status(StepStatus::Pending), vec![b]);
    assert!(graph.find_steps_by_status(StepStatus::Failed).is_empty());
    assert_eq!(graph.find_steps_by_type(StepType::Manual), vec![a]);
    assert_eq!(graph.find_steps_by_type(StepType::Approval), vec![b]);
    assert!(graph.find_steps_by_type(StepType::Automated).is_empty());
}

#[test]
fn setting_the_status_of_no_step_fails() {
    let mut graph = new_graph("g", "");
    assert!(matches!(
        graph.set_step_status(StepId(5), StepStatus::Completed),
        Err(WorkflowGraphError::StepNotFound { id }) if id == StepId(5)
    ));
}

#[test]
fn dependencies_can_be_added_between_steps() {
    let mut graph = new_graph("g", "");
    let a = add(&mut graph, "a", vec![]);
    let b = add(&mut graph, "b", vec![]);
    assert!(graph.add_dependency(b, a).is_ok());
    assert!(graph.add_dependency(b, a).is_ok());
    assert_eq!(graph.step(&b).unwrap().dependencies, vec![a]);
    assert!(graph.validate().is_ok());
    assert!(graph.add_dependency(a, b).is_ok());
    assert!(matches!(
        graph.validate(),
        Err(WorkflowGraphError::CircularDependency { step }) if step == a
    ));
    let nowhere = StepId(a.0 ^ b.0 ^ 1);
    if nowhere != a && nowhere != b {
        assert!(matches!(
            graph.add_dependency(a, nowhere),
            Err(WorkflowGraphError::InvalidDependency { dependent: Some(step), missing })
                if step == a && missing == nowhere
        ));
        assert!(matches!(
            graph.add_dependency(nowhere, a),
            Err(WorkflowGraphError::StepNotFound { id }) if id == nowhere
        ));
    }
}

#[test]
fn a_workflow_starts_once_and_completes_when_its_steps_are_done() {
    let mut graph = new_graph("g", "");
    let a = add(&mut graph, "a", vec![]);
    assert!(matches!(
        graph.complete(),
        Err(WorkflowGraphError::InvalidOperation(reason)) if reason == "workflow is not running"
    ));
    assert!(graph.context().entries.is_empty());
    let mut context = PropertyMap::new();
    context.insert("initiator".to_string(), serde_json::Value::String("john.doe".to_string()));
    graph.start(context).unwrap();
    assert_eq!(
        graph.context().get("initiator"),
        Some(&serde_json::Value::String("john.doe".to_string()))
    );
    assert!(matches!(
        graph.start(PropertyMap::new()),
        Err(WorkflowGraphError::InvalidOperation(reason)) if reason == "workflow is not a draft"
    ));
    assert!(matches!(
        graph.complete(),
        Err(WorkflowGraphError::InvalidOperation(reason)) if reason == "workflow has unfinished steps"
    ));
    assert_eq!(graph.status(), &WorkflowStatus::Running);
    graph.set_step_status(a, StepStatus::Completed).unwrap();
    assert!(graph.complete().is_ok());
    assert_eq!(graph.status(), &WorkflowStatus::Completed);
    assert_eq!(
        graph.take_events(),
        vec![
            GraphEvent::WorkflowCreated,
            GraphEvent::StepAdded { step: a },
            GraphEvent::WorkflowStarted,
            GraphEvent::StepStatusChanged { step: a, status: StepStatus::Completed },
            GraphEvent::WorkflowCompleted,
        ]
    );
    assert!(graph.take_events().is_empty());
}

#[test]
fn tags_are_kept_once_and_properties_are_replaced() {
    let mut graph = new_graph("g", "");
    graph.add_tag("approval".to_string());
    graph.add_tag("document".to_string());
    graph.add_tag("approval".to_string());
    assert_eq!(graph.metadata().tags, vec!["approval".to_string(), "document".to_string()]);

    assert!(graph.get_property("priority").is_none());
    graph.set_property("priority".to_string(), serde_json::Value::String("high".to_string()));
    graph.set_property("department".to_string(), serde_json::Value::Bool(true));
    graph.set_property("priority".to_string(), serde_json::Value::String("low".to_string()));
    assert_eq!(
        graph.get_property("priority"),
        Some(&serde_json::Value::String("low".to_string()))
    );
    assert_eq!(graph.get_property("department"), Some(&serde_json::Value::Bool(true)));
    assert_eq!(graph.metadata().properties.entries.len(), 2);
}

#[test]
fn default_metadata_is_untitled() {
    let metadata = WorkflowGraphMetadata::default();
    assert_eq!(metadata.name, "Untitled Workflow");
    assert_eq!(metadata.description, "");
    assert!(metadata.tags.is_empty());
    assert!(metadata.properties.entries.is_empty());
}

#[test]
fn a_record_keeps_the_first_step_of_each_identifier() {
    let mut second = record_step(1, vec![]);
    second.name = "second".to_string();
    let graph = graph_of(vec![record_step(1, vec![]), record_step(2, vec![1]), second]);
    assert_eq!(graph.id(), WorkflowId(7));
    assert_eq!(graph.name(), "Record");
    assert_eq!(graph.steps().len(), 2);
    assert_eq!(graph.step(&StepId(1)).unwrap().name, "step 1");
}

#[test]
fn new_graphs_get_different_identifiers() {
    let a = new_graph("a", "");
    let b = new_graph("b", "");
    assert_ne!(a.id(), b.id());
    let fixed = WorkflowGraph::with_id(WorkflowId(3), "c".to_string(), String::new());
    assert_eq!(fixed.id(), WorkflowId(3));
}

#[test]
fn the_projection_has_markers_steps_and_edges() {
    let mut graph = new_graph("Two steps", "d");
    let a = graph
        .add_step(
            "first".to_string(),
            "one".to_string(),
            StepType::Manual,
            PropertyMap::new(),
            vec![],
            Some(30),
            Some("ann".to_string()),
        )
        .unwrap();
    let b = add(&mut graph, "second", vec![a]);
    let projection = graph.context_graph();
    assert_eq!(projection.name, "Two steps");
    assert_eq!(projection.nodes.len(), 4);
    assert_eq!(projection.nodes[0].id, NodeId::Start);
    assert_eq!(projection.nodes[0].value, ContextGraphNodeValue::Start);
    assert_eq!(projection.nodes[1].id, NodeId::Step(a));
    assert_eq!(
        projection.nodes[1].value,
        ContextGraphNodeValue::Step {
            name: "first".to_string(),
            description: "one".to_string(),
            step_type: StepType::Manual,
            status: StepStatus::Pending,
            estimated_duration_minutes: Some(30),
            assigned_to: Some("ann".to_string()),
        }
    );
    assert_eq!(projection.nodes[3].id, NodeId::End);
    let edges: Vec<(NodeId, NodeId, EdgeKind)> =
        projection.edges.iter().map(|e| (e.source, e.target, e.edge_type)).collect();
    assert_eq!(
        edges,
        vec![
            (NodeId::Step(b), NodeId::Step(a), EdgeKind::DependsOn),
            (NodeId::Start, NodeId::Step(a), EdgeKind::Sequence),
            (NodeId::Step(b), NodeId::End, EdgeKind::Sequence),
        ]
    );
    assert_eq!(graph.get_step_nodes().len(), 2);
    assert_eq!(graph.get_dependency_edges().len(), 1);
    assert_eq!(projection.get_step_nodes().len(), 2);
    assert_eq!(projection.get_dependency_edges().len(), 1);
    // deriving again gives the same
    assert_eq!(graph.context_graph(), projection);
}

#[test]
fn an_empty_graph_is_valid_and_flat() {
    let graph = new_graph("empty", "");
    assert!(graph.validate().is_ok());
    let stats = graph.statistics();
    assert_eq!(stats.total_nodes, 2);
    assert_eq!(stats.step_nodes, 0);
    assert_eq!(stats.total_edges, 0);
    assert_eq!(stats.max_depth, 0);
    assert!(graph.get_executable_steps().is_empty());
}

#[test]
fn errors_are_worded() {
    assert_eq!(
        WorkflowGraphError::DomainError("no".to_string()).message(),
        "Domain error: no"
    );
    assert_eq!(
        WorkflowGraphError::SerializationError("bad".to_string()).message(),
        "Serialization error: bad"
    );
    assert_eq!(
        WorkflowGraphError::InvalidOperation("never".to_string()).message(),
        "Invalid operation: never"
    );
    assert_eq!(
        WorkflowGraphError::CircularDependency { step: StepId(12) }.message(),
        "Circular dependency detected: Step 12 has circular dependency"
    );
    assert_eq!(
        WorkflowGraphError::InvalidDependency { dependent: Some(StepId(3)), missing: StepId(40) }
            .message(),
        "Invalid dependency: Step 3 depends on non-existent step 40"
    );
    assert_eq!(
        WorkflowGraphError::InvalidDependency { dependent: None, missing: StepId(0) }.message(),
        "Invalid dependency: The new step depends on non-existent step 0"
    );
    assert_eq!(
        WorkflowGraphError::StepNotFound { id: StepId(u128::MAX) }.message(),
        "Step not found: 340282366920938463463374607431768211455"
    );
    assert_eq!(WorkflowGraphError::EmptyLog.message(), "No events in the log");
    assert_eq!(WorkflowGraphError::NotFound("x".to_string()).message(), "Not found: x");
    assert_eq!(
        WorkflowGraphError::AlreadyRegistered("add_step".to_string()).message(),
        "Handler already registered for add_step"
    );
}

#[test]
fn a_document_approval_workflow_runs_through() {
    let mut workflow = new_graph(
        "Document Approval Process",
        "Complete document approval workflow with review and publishing steps",
    );
    workflow.add_tag("approval".to_string());
    workflow.add_tag("document".to_string());
    workflow.set_property("department".to_string(), serde_json::Value::String("content".to_string()));

    let mut config = PropertyMap::new();
    config.insert("min_length".to_string(), serde_json::Value::from(500));
    let draft = workflow
        .add_step(
            "Create Draft".to_string(),
            "Author creates the initial document draft".to_string(),
            StepType::Manual,
            config,
            Vec::new(),
            Some(120),
            Some("content-author".to_string()),
        )
        .unwrap();
    let step = |workflow: &mut WorkflowGraph, name: &str, kind: StepType, deps: Vec<StepId>, minutes: u32| {
        workflow
            .add_step(
                name.to_string(),
                String::new(),
                kind,
                PropertyMap::new(),
                deps,
                Some(minutes),
                None,
            )
            .unwrap()
    };
    let tech = step(&mut workflow, "Technical Review", StepType::Manual, vec![draft], 60);
    let editorial = step(&mut workflow, "Editorial Review", StepType::Manual, vec![draft], 45);
    let approval = step(&mut workflow, "Manager Approval", StepType::Approval, vec![tech, editorial], 30);
    let publish = step(&mut workflow, "Publish Document", StepType::Automated, vec![approval], 5);

    assert!(workflow.validate().is_ok());
    let stats = workflow.statistics();
    assert_eq!(stats.total_nodes, 7);
    assert_eq!(stats.step_nodes, 5);
    assert_eq!(stats.dependency_edges, 5);
    assert_eq!(stats.total_edges, 7);
    assert_eq!(stats.max_depth, 4);
    assert!(!stats.is_cyclic);
    assert_eq!(
        workflow.step(&draft).unwrap().config.get("min_length"),
        Some(&serde_json::Value::from(500))
    );

    workflow.start(PropertyMap::new()).unwrap();
    assert_eq!(workflow.get_executable_steps(), vec![draft]);
    assert_eq!(workflow.find_steps_by_type(StepType::Manual), vec![draft, tech, editorial]);
    assert_eq!(workflow.find_steps_by_type(StepType::Automated), vec![publish]);
    assert_eq!(workflow.find_steps_by_type(StepType::Approval), vec![approval]);

    workflow.set_step_status(draft, StepStatus::Completed).unwrap();
    assert_eq!(workflow.get_executable_steps(), vec![tech, editorial]);
    workflow.set_step_status(tech, StepStatus::Completed).unwrap();
    assert_eq!(workflow.get_executable_steps(), vec![editorial]);
    workflow.set_step_status(editorial, StepStatus::Skipped).unwrap();
    // a skipped review is not a completed one
    assert!(workflow.get_executable_steps().is_empty());
    workflow.set_step_status(editorial, StepStatus::Completed).unwrap();
    assert_eq!(workflow.get_executable_steps(), vec![approval]);

    let json = workflow.to_json().unwrap();
    let projection = WorkflowGraph::from_json(&json).unwrap();
    assert_eq!(projection, workflow.context_graph());
    assert_eq!(projection.get_dependency_edges().len(), 5);
    let dot = workflow.to_dot();
    assert!(dot.contains("Document Approval Process"));
    assert_eq!(dot.matches("depends_on").count(), 5);
}

#[test]
fn drawn_identifiers_are_version_4_uuids() {
    let mut graph = new_graph("g", "");
    let mut seen = vec![graph.id().0];
    for i in 0..20 {
        seen.push(add(&mut graph, &format!("step {i}"), vec![]).0);
    }
    for id in &seen {
        // version 4 in bits 76..80, variant 10 in bits 62..64
        assert_eq!((id >> 76) & 0xf, 4);
        assert_eq!((id >> 62) & 0x3, 2);
    }
    for i in 0..seen.len() {
        for j in 0..i {
            assert_ne!(seen[i], seen[j]);
        }
    }
}

#[test]
fn a_uuid_is_the_random_number_with_version_and_variant_set() {
    assert_eq!(uuid_of(None), None);
    assert_eq!(uuid_of(Some(0)), Some(0x00000000_0000_4000_8000_000000000000));
    assert_eq!(uuid_of(Some(u128::MAX)), Some(0xffffffff_ffff_4fff_bfff_ffffffffffff));
    assert_eq!(
        uuid_of(Some(0x01234567_89ab_cdef_0123_456789abcdef)),
        Some(0x01234567_89ab_4def_8123_456789abcdef)
    );
}

#[test]
fn a_dependency_named_twice_is_kept_once() {
    let mut graph = new_graph("g", "");
    let a = add(&mut graph, "a", vec![]);
    let b = add(&mut graph, "b", vec![]);
    let c = add(&mut graph, "c", vec![a, a, b, a, b]);
    assert_eq!(graph.step(&c).unwrap().dependencies, vec![a, b]);
    let edges: Vec<(NodeId, NodeId, EdgeKind)> =
        graph.get_dependency_edges().iter().map(|e| (e.source, e.target, e.edge_type)).collect();
    assert_eq!(
        edges,
        vec![
            (NodeId::Step(c), NodeId::Step(a), EdgeKind::DependsOn),
            (NodeId::Step(c), NodeId::Step(b), EdgeKind::DependsOn),
        ]
    );
    let stats = graph.statistics();
    assert_eq!(stats.dependency_edges, 2);
    // two steps without dependencies, one step that no step depends on
    assert_eq!(stats.total_edges, 2 + 2 + 1);
    assert_eq!(stats.max_depth, 2);
    assert!(graph.validate().is_ok());
    assert_eq!(graph.to_dot().matches("depends_on").count(), 2);
    assert_eq!(graph.context_graph().get_dependency_edges().len(), 2);

    let d = graph
        .add_step_with_id(
            StepId(c.0 ^ 1),
            "d".to_string(),
            String::new(),
            StepType::Manual,
            PropertyMap::new(),
            vec![c, c],
            None,
            None,
        )
        .unwrap();
    assert_eq!(graph.step(&d).unwrap().dependencies, vec![c]);
    assert_eq!(graph.statistics().dependency_edges, 3);
}

#[test]
fn a_record_keeps_each_dependency_once() {
    let graph = graph_of(vec![
        record_step(1, vec![]),
        record_step(2, vec![1, 1]),
        record_step(3, vec![2, 1, 2, 9, 9]),
    ]);
    assert_eq!(graph.step(&StepId(2)).unwrap().dependencies, vec![StepId(1)]);
    assert_eq!(
        graph.step(&StepId(3)).unwrap().dependencies,
        vec![StepId(2), StepId(1), StepId(9)]
    );
    let stats = graph.statistics();
    assert_eq!(stats.dependency_edges, 4);
    assert_eq!(stats.total_edges, 4 + 1 + 1);
    assert_eq!(graph.get_dependency_edges().len(), 4);
    assert!(matches!(
        graph.validate(),
        Err(WorkflowGraphError::InvalidDependency { dependent: Some(step), missing })
            if step == StepId(3) && missing == StepId(9)
    ));
}

#[test]
fn notices_become_domain_events() {
    let mut graph = WorkflowGraph::with_id(WorkflowId(42), "Flow".to_string(), "About".to_string());
    let a = graph
        .add_step_with_id(
            StepId(7),
            "first".to_string(),
            String::new(),
            StepType::Automated,
            PropertyMap::new(),
            vec![],
            None,
            None,
        )
        .unwrap();
    let mut context = PropertyMap::new();
    context.insert("initiator".to_string(), serde_json::Value::String("john".to_string()));
    context.insert("attempt".to_string(), serde_json::Value::from(3));
    graph.start(context).unwrap();
    graph.set_step_status(a, StepStatus::InProgress).unwrap();
    graph.set_step_status(a, StepStatus::Completed).unwrap();
    graph.complete().unwrap();

    let notices = graph.take_events();
    let events: Vec<Option<WorkflowDomainEvent>> =
        notices.iter().map(|notice| domain_event(*notice, &graph, 1000)).collect();
    let id = "42".to_string();
    assert_eq!(
        events,
        vec![
            Some(WorkflowDomainEvent::WorkflowCreated {
                workflow_id: id.clone(),
                name: "Flow".to_string(),
                description: "About".to_string(),
                timestamp: 1000,
            }),
            Some(WorkflowDomainEvent::StepAdded {
                workflow_id: id.clone(),
                step_id: "7".to_string(),
                name: "first".to_string(),
                step_type: "Automated".to_string(),
                timestamp: 1000,
            }),
            Some(WorkflowDomainEvent::WorkflowStarted {
                workflow_id: id.clone(),
                context: vec![
                    ("initiator".to_string(), "\"john\"".to_string()),
                    ("attempt".to_string(), "3".to_string()),
                ],
                timestamp: 1000,
            }),
            None,
            Some(WorkflowDomainEvent::StepCompleted {
                workflow_id: id.clone(),
                step_id: "7".to_string(),
                result: "Completed".to_string(),
                timestamp: 1000,
            }),
            Some(WorkflowDomainEvent::WorkflowCompleted {
                workflow_id: id.clone(),
                status: "Completed".to_string(),
                timestamp: 1000,
            }),
        ]
    );

    assert_eq!(
        context_pairs(graph.context()),
        vec![
            ("initiator".to_string(), "\"john\"".to_string()),
            ("attempt".to_string(), "3".to_string()),
        ]
    );
    assert_eq!(
        domain_event_of(GraphEvent::StepAdded { step: StepId(8) }, &graph, Vec::new(), 5),
        None
    );
    assert_eq!(
        domain_event_of(
            GraphEvent::DependencyAdded { step: StepId(7), depends_on: StepId(7) },
            &graph,
            Vec::new(),
            5
        ),
        None
    );
    assert_eq!(
        domain_event_of(
            GraphEvent::WorkflowStarted,
            &graph,
            vec![("k".to_string(), "v".to_string())],
            5
        ),
        Some(WorkflowDomainEvent::WorkflowStarted {
            workflow_id: id,
            context: vec![("k".to_string(), "v".to_string())],
            timestamp: 5,
        })
    );
}
