//! Workflow graphs: a dependency graph of work steps with validation and
//! readiness queries, a presentation-oriented projection of it with an
//! interchange and a diagram format, a hash-chained event store, and a
//! command router.

pub mod cid;
pub mod depth;
pub mod dot;
pub mod error;
pub mod event_store;
pub mod events;
pub mod graph;
pub mod interchange;
pub mod json;
pub mod model;
pub mod outside;
pub mod projection;
pub mod reach;
pub mod recording;
pub mod router;
mod steps;
pub mod text;

pub use cid::Cid;
pub use error::WorkflowGraphError;
pub use event_store::{Appended, ChainedWorkflowEvent, Snapshot, WorkflowEventStore};
pub use events::WorkflowDomainEvent;
pub use graph::{GraphEvent, WorkflowGraph, WorkflowGraphMetadata, WorkflowRecord};
pub use model::{PropertyMap, StepId, StepStatus, StepType, WorkflowId, WorkflowStatus, WorkflowStep};
pub use projection::{ContextGraph, ContextGraphEdge, ContextGraphNode, ContextGraphNodeValue, EdgeKind, NodeId, WorkflowGraphStatistics};
pub use router::{CommandResponse, FixedResponseHandler, RejectingHandler, RoutingStats, WorkflowCommand, WorkflowCommandHandler, WorkflowCommandRouter};
