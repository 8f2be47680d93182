use cim_workflow_graph::{
    CommandResponse, FixedResponseHandler, RejectingHandler, WorkflowCommand,
    WorkflowCommandHandler, WorkflowCommandRouter, WorkflowGraphError,
};
use std::sync::{Arc, Mutex};

/// A handler that counts how often it was asked.
struct MockWorkflowHandler {
    command_type: String,
    response: CommandResponse,
    handled_count: Arc<Mutex<usize>>,
}

impl MockWorkflowHandler {
    fn new(command_type: String, response: CommandResponse) -> Self {
        Self { command_type, response, handled_count: Arc::new(Mutex::new(0)) }
    }
}

impl WorkflowCommandHandler for MockWorkflowHandler {
    fn handle(&self, _command: &WorkflowCommand) -> CommandResponse {
        let mut count = self.handled_count.lock().unwrap();
        *count += 1;
        self.response.clone()
    }

    fn command_type(&self) -> &str {
        &self.command_type
    }
}

/// A fallback that counts how often it was asked.
struct FallbackHandler {
    invoked_count: Arc<Mutex<usize>>,
}

impl FallbackHandler {
    fn new() -> Self {
        Self { invoked_count: Arc::new(Mutex::new(0)) }
    }
}

impl WorkflowCommandHandler for FallbackHandler {
    fn handle(&self, command: &WorkflowCommand) -> CommandResponse {
        let mut count = self.invoked_count.lock().unwrap();
        *count += 1;
        CommandResponse::Error { message: format!("Unknown command type: {:?}", command) }
    }

    fn command_type(&self) -> &str {
        "fallback"
    }
}

type Router = WorkflowCommandRouter<MockWorkflowHandler, FallbackHandler>;

fn success(message: &str) -> CommandResponse {
    CommandResponse::Success { message: message.to_string() }
}

#[test]
fn test_router_initialization() {
    let router = Router::new();
    assert_eq!(router.handler_count(), 0);
    assert!(!router.has_fallback());
}

#[test]
fn test_handler_registration() {
    let mut router = Router::new();
    let handler = MockWorkflowHandler::new("create_workflow".to_string(), success("Workflow created"));
    let handler_id = router.register_handler(handler).unwrap();
    assert_eq!(handler_id, "handler_create_workflow");
}

#[test]
fn test_command_routing() {
    let mut router = Router::new();
    let handler = MockWorkflowHandler::new("create_workflow".to_string(), success("Workflow created"));
    router.register_handler(handler).unwrap();

    let command = WorkflowCommand::CreateWorkflow {
        name: "Test Workflow".to_string(),
        description: "A test workflow".to_string(),
    };
    let (response, handler_id) = router.route_command(&command);

    assert_eq!(response, success("Workflow created"));
    assert_eq!(handler_id, "handler_create_workflow");
}

#[test]
fn test_multiple_handler_routing() {
    let mut router = Router::new();
    let handlers = vec![
        ("create_workflow", "Workflow created"),
        ("add_step", "Step added"),
        ("start_workflow", "Workflow started"),
    ];
    for (cmd_type, msg) in handlers {
        let handler = MockWorkflowHandler::new(cmd_type.to_string(), success(msg));
        router.register_handler(handler).unwrap();
    }

    let commands = vec![
        (
            WorkflowCommand::CreateWorkflow { name: "Test".to_string(), description: "Test".to_string() },
            "Workflow created",
        ),
        (
            WorkflowCommand::AddStep {
                workflow_id: "wf-1".to_string(),
                step_name: "Step 1".to_string(),
                step_type: "Manual".to_string(),
            },
            "Step added",
        ),
        (
            WorkflowCommand::StartWorkflow { workflow_id: "wf-1".to_string(), context: Vec::new() },
            "Workflow started",
        ),
    ];
    for (command, expected_msg) in commands {
        let (response, _) = router.route_command(&command);
        assert_eq!(response, success(expected_msg));
    }
}

#[test]
fn test_fallback_handler() {
    let mut router = Router::new();
    router.set_fallback_handler(FallbackHandler::new());

    let command = WorkflowCommand::Unknown { command_type: "unknown_command".to_string() };
    let (response, handler_id) = router.route_command(&command);

    assert!(matches!(response, CommandResponse::Error { .. }));
    assert_eq!(handler_id, "fallback");
}

#[test]
fn test_routing_statistics() {
    let mut router = Router::new();
    let handler = MockWorkflowHandler::new("create_workflow".to_string(), success("Created"));
    router.register_handler(handler).unwrap();

    for i in 0..5 {
        let command = WorkflowCommand::CreateWorkflow {
            name: format!("Workflow {i}"),
            description: "Test".to_string(),
        };
        router.route_command(&command);
    }

    let stats = router.get_stats();
    assert_eq!(stats.total_routed, 5);
    assert_eq!(stats.count_of("create_workflow"), Some(5));
    assert!(stats.average_routing_nanos > 0);
    assert_eq!(stats.fallback_count, 0);
}

#[test]
fn test_handler_removal() {
    let mut router = Router::new();
    let handler = MockWorkflowHandler::new("create_workflow".to_string(), success("Created"));
    router.register_handler(handler).unwrap();

    let result = router.remove_handler("create_workflow");

    assert!(result.is_ok());
    assert!(!router.has_handler("create_workflow"));
}

#[test]
fn test_concurrent_routing() {
    let mut router = Router::new();
    let command_types = vec!["create_workflow", "add_step", "start_workflow"];
    for cmd_type in &command_types {
        let handler =
            MockWorkflowHandler::new(cmd_type.to_string(), success(&format!("{cmd_type} handled")));
        router.register_handler(handler).unwrap();
    }

    let mut responses = Vec::new();
    for i in 0..9 {
        let command = match i % 3 {
            0 => WorkflowCommand::CreateWorkflow {
                name: format!("Workflow {i}"),
                description: "Test".to_string(),
            },
            1 => WorkflowCommand::AddStep {
                workflow_id: format!("wf-{i}"),
                step_name: format!("Step {i}"),
                step_type: "Manual".to_string(),
            },
            _ => WorkflowCommand::StartWorkflow { workflow_id: format!("wf-{i}"), context: Vec::new() },
        };
        let (response, _) = router.route_command(&command);
        responses.push(response);
    }

    assert_eq!(responses.len(), 9);
    let stats = router.get_stats();
    assert_eq!(stats.total_routed, 9);
    assert_eq!(stats.by_command_type.len(), 3);
    for cmd_type in &command_types {
        assert_eq!(stats.count_of(cmd_type), Some(3));
    }
}

#[test]
fn test_response_type_detection() {
    let mut router = Router::new();
    let async_handler = MockWorkflowHandler::new(
        "start_workflow".to_string(),
        CommandResponse::Async { correlation_id: "corr-123".to_string() },
    );
    let error_handler = MockWorkflowHandler::new(
        "cancel_workflow".to_string(),
        CommandResponse::Error { message: "Cannot cancel".to_string() },
    );
    router.register_handler(async_handler).unwrap();
    router.register_handler(error_handler).unwrap();

    let start_cmd =
        WorkflowCommand::StartWorkflow { workflow_id: "wf-1".to_string(), context: Vec::new() };
    let (response, _) = router.route_command(&start_cmd);
    assert!(matches!(response, CommandResponse::Async { .. }));

    let cancel_cmd = WorkflowCommand::CancelWorkflow {
        workflow_id: "wf-1".to_string(),
        reason: "Test".to_string(),
    };
    let (response, _) = router.route_command(&cancel_cmd);
    assert!(matches!(response, CommandResponse::Error { .. }));
}

#[test]
fn a_registered_handler_is_asked_and_the_fallback_is_not() {
    let mut router = Router::new();
    let handler = MockWorkflowHandler::new("complete_step".to_string(), success("done"));
    let asked = handler.handled_count.clone();
    let fallback = FallbackHandler::new();
    let fell_back = fallback.invoked_count.clone();
    router.set_fallback_handler(fallback);
    router.register_handler(handler).unwrap();

    let command = WorkflowCommand::CompleteStep {
        workflow_id: "wf".to_string(),
        step_id: "s".to_string(),
        result: "ok".to_string(),
    };
    for round in 1..=3usize {
        let (response, id) = router.route_command(&command);
        assert_eq!(response, success("done"));
        assert_eq!(id, "handler_complete_step");
        assert_eq!(*asked.lock().unwrap(), round);
        assert_eq!(*fell_back.lock().unwrap(), 0);
        assert_eq!(router.get_stats().fallback_count, 0);
    }

    let other = WorkflowCommand::Unknown { command_type: "mystery".to_string() };
    for round in 1..=3usize {
        let (response, id) = router.route_command(&other);
        assert!(matches!(response, CommandResponse::Error { .. }));
        assert_eq!(id, "fallback");
        assert_eq!(*fell_back.lock().unwrap(), round);
        assert_eq!(router.get_stats().fallback_count, round);
    }
    assert_eq!(*asked.lock().unwrap(), 3);
    assert_eq!(router.get_stats().total_routed, 6);
    assert_eq!(router.get_stats().count_of("mystery"), Some(3));
}

#[test]
fn without_any_handler_the_answer_is_an_error() {
    let mut router = Router::new();
    let command = WorkflowCommand::CancelWorkflow {
        workflow_id: "wf".to_string(),
        reason: "r".to_string(),
    };
    let (response, id) = router.route_command(&command);
    assert_eq!(response, CommandResponse::Error { message: "No handler found".to_string() });
    assert_eq!(id, "none");
    let stats = router.get_stats();
    assert_eq!(stats.total_routed, 1);
    assert_eq!(stats.fallback_count, 0);
    assert_eq!(stats.count_of("cancel_workflow"), Some(1));
}

#[test]
fn a_second_handler_for_a_type_is_refused() {
    let mut router = Router::new();
    router
        .register_handler(MockWorkflowHandler::new("add_step".to_string(), success("first")))
        .unwrap();
    let second =
        router.register_handler(MockWorkflowHandler::new("add_step".to_string(), success("second")));
    assert!(matches!(
        second,
        Err(WorkflowGraphError::AlreadyRegistered(tag)) if tag == "add_step"
    ));
    assert_eq!(router.handler_count(), 1);
    let command = WorkflowCommand::AddStep {
        workflow_id: "wf".to_string(),
        step_name: "s".to_string(),
        step_type: "Manual".to_string(),
    };
    assert_eq!(router.dispatch(&command).0, success("first"));
    assert_eq!(router.get_stats().total_routed, 0);
}

#[test]
fn removing_a_handler_that_is_not_there_fails() {
    let mut router = Router::new();
    assert!(matches!(
        router.remove_handler("create_workflow"),
        Err(WorkflowGraphError::NotFound(tag)) if tag == "create_workflow"
    ));
    router
        .register_handler(MockWorkflowHandler::new("a".to_string(), success("a")))
        .unwrap();
    router
        .register_handler(MockWorkflowHandler::new("b".to_string(), success("b")))
        .unwrap();
    assert!(router.remove_handler("a").is_ok());
    assert!(router.has_handler("b"));
    assert!(!router.has_handler("a"));
    let command = WorkflowCommand::Unknown { command_type: "b".to_string() };
    assert_eq!(router.dispatch(&command), (success("b"), "handler_b".to_string()));
}

#[test]
fn the_fallback_is_replaced_by_the_next() {
    let mut router: WorkflowCommandRouter<FixedResponseHandler, FixedResponseHandler> =
        WorkflowCommandRouter::new();
    router.set_fallback_handler(FixedResponseHandler::new("fallback".to_string(), success("one")));
    router.set_fallback_handler(FixedResponseHandler::new("fallback".to_string(), success("two")));
    assert!(router.has_fallback());
    let command = WorkflowCommand::Unknown { command_type: "x".to_string() };
    assert_eq!(router.route_command(&command), (success("two"), "fallback".to_string()));
}

#[test]
fn the_rejecting_handler_names_the_command_type() {
    let mut router: WorkflowCommandRouter<FixedResponseHandler, RejectingHandler> =
        WorkflowCommandRouter::new();
    router.set_fallback_handler(RejectingHandler {});
    let command = WorkflowCommand::Unknown { command_type: "unknown_command".to_string() };
    let (response, id) = router.route_command(&command);
    assert_eq!(
        response,
        CommandResponse::Error { message: "Unknown command type: unknown_command".to_string() }
    );
    assert_eq!(id, "fallback");
    assert_eq!(router.get_stats().fallback_count, 1);
}

#[test]
fn mean_latency_is_the_arithmetic_mean_rounded_down() {
    let mut router: WorkflowCommandRouter<FixedResponseHandler, RejectingHandler> =
        WorkflowCommandRouter::new();
    assert_eq!(router.get_stats().average_routing_nanos, 0);
    let command = WorkflowCommand::Unknown { command_type: "x".to_string() };
    router.record(&command, 10);
    assert_eq!(router.get_stats().average_routing_nanos, 10);
    router.record(&command, 20);
    router.record(&command, 35);
    let stats = router.get_stats();
    assert_eq!(stats.total_routed, 3);
    assert_eq!(stats.average_routing_nanos, 21);
    assert_eq!(stats.count_of("x"), Some(3));
    assert_eq!(stats.count_of("y"), None);
    assert_eq!(stats.fallback_count, 0);
    router.record(&command, u64::MAX);
    router.record(&command, u64::MAX);
    // (65 + 2 * (2^64 - 1)) / 5
    assert_eq!(router.get_stats().average_routing_nanos, 7378697629483820659);
}

#[test]
fn command_types_are_fixed_tags() {
    let commands = vec![
        (
            WorkflowCommand::CreateWorkflow { name: String::new(), description: String::new() },
            "create_workflow",
        ),
        (
            WorkflowCommand::AddStep {
                workflow_id: String::new(),
                step_name: String::new(),
                step_type: String::new(),
            },
            "add_step",
        ),
        (
            WorkflowCommand::StartWorkflow { workflow_id: String::new(), context: Vec::new() },
            "start_workflow",
        ),
        (
            WorkflowCommand::CompleteStep {
                workflow_id: String::new(),
                step_id: String::new(),
                result: String::new(),
            },
            "complete_step",
        ),
        (
            WorkflowCommand::CancelWorkflow { workflow_id: String::new(), reason: String::new() },
            "cancel_workflow",
        ),
        (WorkflowCommand::Unknown { command_type: "custom".to_string() }, "custom"),
    ];
    for (command, tag) in commands {
        assert_eq!(command.command_type(), tag);
    }
}

#[test]
fn a_handler_is_registered_under_the_tag_given() {
    let mut router = Router::new();
    let id = router
        .register_as("add_step".to_string(), MockWorkflowHandler::new("add_step".to_string(), success("first")))
        .unwrap();
    assert_eq!(id, "handler_add_step");
    assert!(router.has_handler("add_step"));
    assert_eq!(router.handler_count(), 1);
    let again = router
        .register_as("add_step".to_string(), MockWorkflowHandler::new("add_step".to_string(), success("second")));
    assert!(matches!(
        again,
        Err(WorkflowGraphError::AlreadyRegistered(tag)) if tag == "add_step"
    ));
    assert_eq!(router.handler_count(), 1);
    let command = WorkflowCommand::AddStep {
        workflow_id: "wf".to_string(),
        step_name: "s".to_string(),
        step_type: "Manual".to_string(),
    };
    assert_eq!(router.dispatch(&command), (success("first"), "handler_add_step".to_string()));
}
