//! From what a graph gives notice of to the domain events that the event
//! store records.

use vstd::prelude::*;
use vstd::string::to_string_from_display_ensures;
use crate::events::{pairs_view, EventView, WorkflowDomainEvent};
use crate::graph::{GraphEvent, WorkflowGraph, WorkflowGraphView};
use crate::model::{PropertyMap, StepId, StepStatus, StepType, StepView};
use crate::reach::has_step;
use crate::text::{append_decimal, decimal};

verus! {

/// The name of a step type in a domain event.
pub open spec fn step_type_name(step_type: StepType) -> Seq<char> {
    match step_type {
        StepType::Manual => "Manual"@,
        StepType::Automated => "Automated"@,
        StepType::Approval => "Approval"@,
    }
}

/// The step with the identifier `id`, where there is one.
pub open spec fn step_with_id(steps: Seq<StepView>, id: StepId) -> StepView {
    steps[choose|i: int| 0 <= i < steps.len() && #[trigger] steps[i].id == id]
}

/// `pairs` are the bindings of `context`, key for key in their order, each
/// value written as text.
pub open spec fn writes_context(context: PropertyMap, pairs: Seq<(Seq<char>, Seq<char>)>) -> bool {
    &&& pairs.len() == context.entries@.len()
    &&& forall|i: int|
        0 <= i < pairs.len() ==> (#[trigger] pairs[i]).0 == context.entries@[i].0@
            && exists|text: String| text@ == pairs[i].1 && to_string_from_display_ensures::<serde_json::Value>(
                &context.entries@[i].1,
                text,
            )
}

/// The domain event that stands for a notice of the graph, stamped with
/// `timestamp` and, for the start of the workflow, carrying `context`:
///
/// - the creation of the workflow, with its name and description;
/// - the addition of a step that the graph holds, with its name and type;
/// - the start of the workflow, with the context;
/// - the completion of a step;
/// - the completion of the workflow.
///
/// Identifiers are written in decimal. Other notices, and the addition of a
/// step that the graph does not hold, stand for no domain event.
pub open spec fn event_for(
    notice: GraphEvent,
    graph: WorkflowGraphView,
    context: Seq<(Seq<char>, Seq<char>)>,
    timestamp: u64,
) -> Option<EventView> {
    let workflow_id = decimal(graph.id.0 as nat);
    match notice {
        GraphEvent::WorkflowCreated => Some(
            EventView::WorkflowCreated {
                workflow_id,
                name: graph.name,
                description: graph.description,
                timestamp,
            },
        ),
        GraphEvent::StepAdded { step } => if has_step(graph.steps, step) {
            Some(
                EventView::StepAdded {
                    workflow_id,
                    step_id: decimal(step.0 as nat),
                    name: step_with_id(graph.steps, step).name,
                    step_type: step_type_name(step_with_id(graph.steps, step).step_type),
                    timestamp,
                },
            )
        } else {
            None
        },
        GraphEvent::WorkflowStarted => Some(EventView::WorkflowStarted { workflow_id, context, timestamp }),
        GraphEvent::StepStatusChanged { step, status } => if status == StepStatus::Completed {
            Some(
                EventView::StepCompleted {
                    workflow_id,
                    step_id: decimal(step.0 as nat),
                    result: "Completed"@,
                    timestamp,
                },
            )
        } else {
            None
        },
        GraphEvent::WorkflowCompleted => Some(
            EventView::WorkflowCompleted { workflow_id, status: "Completed"@, timestamp },
        ),
        GraphEvent::DependencyAdded { .. } => None,
    }
}

/// The view of an optional event.
pub open spec fn optional_event(event: Option<WorkflowDomainEvent>) -> Option<EventView> {
    match event {
        Some(e) => Some(e@),
        None => None,
    }
}

fn decimal_text(n: u128) -> (text: String)
    ensures
        text@ == decimal(n as nat),
{
    let mut text = String::new();
    append_decimal(&mut text, n);
    assert(text@ =~= decimal(n as nat));
    text
}

fn name_of_step_type(step_type: StepType) -> (name: String)
    ensures
        name@ == step_type_name(step_type),
{
    match step_type {
        StepType::Manual => "Manual".to_owned(),
        StepType::Automated => "Automated".to_owned(),
        StepType::Approval => "Approval".to_owned(),
    }
}

/// The bindings of a context with each value written as JSON text, key for
/// key in their order.
pub fn context_pairs(context: &PropertyMap) -> (pairs: Vec<(String, String)>)
    ensures
        writes_context(*context, pairs_view(pairs@)),
{
    let mut pairs: Vec<(String, String)> = Vec::new();
    let mut i: usize = 0;
    while i < context.entries.len()
        invariant
            i <= context.entries.len(),
            pairs@.len() == i,
            forall|k: int|
                0 <= k < i ==> (#[trigger] pairs@[k]).0@ == context.entries@[k].0@
                    && to_string_from_display_ensures::<serde_json::Value>(&context.entries@[k].1, pairs@[k].1),
        decreases context.entries.len() - i,
    {
        let key = context.entries[i].0.clone();
        let text = context.entries[i].1.to_string();
        pairs.push((key, text));
        i += 1;
    }
    proof {
        let views = pairs_view(pairs@);
        assert forall|k: int| 0 <= k < views.len() implies (#[trigger] views[k]).0 == context.entries@[k].0@
            && exists|text: String| text@ == views[k].1 && to_string_from_display_ensures::<serde_json::Value>(
                &context.entries@[k].1,
                text,
            ) by {
            let text = pairs@[k].1;
            assert(pairs@[k].0@ == context.entries@[k].0@);
            assert(text@ == views[k].1 && to_string_from_display_ensures::<serde_json::Value>(
                &context.entries@[k].1,
                text,
            ));
        }
        assert(views.len() == context.entries@.len());
        assert(writes_context(*context, views));
    }
    pairs
}

/// The domain event that stands for a notice of the graph, stamped with
/// `timestamp` and, for the start of the workflow, carrying `context`.
pub fn domain_event_of(
    notice: GraphEvent,
    graph: &WorkflowGraph,
    context: Vec<(String, String)>,
    timestamp: u64,
) -> (event: Option<WorkflowDomainEvent>)
    ensures
        optional_event(event) == event_for(notice, graph@, pairs_view(context@), timestamp),
{
    let workflow_id = decimal_text(graph.id().0);
    match notice {
        GraphEvent::WorkflowCreated => Some(
            WorkflowDomainEvent::WorkflowCreated {
                workflow_id,
                name: graph.name().to_owned(),
                description: graph.description().to_owned(),
                timestamp,
            },
        ),
        GraphEvent::StepAdded { step } => {
            let steps = graph.steps();
            match graph.step(&step) {
                Some(added) => {
                    proof {
                        let views = graph@.steps;
                        let at = choose|i: int| 0 <= i < views.len() && #[trigger] views[i] == added@;
                        let chosen = choose|i: int| 0 <= i < views.len() && #[trigger] views[i].id == step;
                        assert(views[at].id == step);
                        if chosen != at {
                            if chosen < at {
                                assert(views[chosen].id != views[at].id);
                            } else {
                                assert(views[at].id != views[chosen].id);
                            }
                        }
                        assert(step_with_id(views, step) == added@);
                    }
                    Some(
                        WorkflowDomainEvent::StepAdded {
                            workflow_id,
                            step_id: decimal_text(step.0),
                            name: added.name.clone(),
                            step_type: name_of_step_type(added.step_type),
                            timestamp,
                        },
                    )
                },
                None => None,
            }
        },
        GraphEvent::WorkflowStarted => Some(WorkflowDomainEvent::WorkflowStarted { workflow_id, context, timestamp }),
        GraphEvent::StepStatusChanged { step, status } => {
            if status == StepStatus::Completed {
                Some(
                    WorkflowDomainEvent::StepCompleted {
                        workflow_id,
                        step_id: decimal_text(step.0),
                        result: "Completed".to_owned(),
                        timestamp,
                    },
                )
            } else {
                None
            }
        },
        GraphEvent::WorkflowCompleted => Some(
            WorkflowDomainEvent::WorkflowCompleted { workflow_id, status: "Completed".to_owned(), timestamp },
        ),
        GraphEvent::DependencyAdded { .. } => None,
    }
}

/// The domain event that stands for a notice of the graph, stamped with
/// `timestamp`; the start of the workflow carries the context that the
/// workflow was started with, each value written as JSON text.
pub fn domain_event(notice: GraphEvent, graph: &WorkflowGraph, timestamp: u64) -> (event: Option<
    WorkflowDomainEvent,
>)
    ensures
        exists|context: Seq<(Seq<char>, Seq<char>)>|
            writes_context(graph@.context, context) && optional_event(event) == #[trigger] event_for(
                notice,
                graph@,
                context,
                timestamp,
            ),
{
    let context = context_pairs(graph.context());
    domain_event_of(notice, graph, context, timestamp)
}

} // verus!
