//! The failures that the library reports.

use vstd::prelude::*;
use crate::cid::Cid;
use crate::model::StepId;
use crate::text::{append_decimal, append_hex, decimal, hex};

verus! {

/// What can go wrong when working with a workflow graph, its event log or
/// its command router.
#[derive(Debug)]
pub enum WorkflowGraphError {
    /// The workflow aggregate refused a request.
    DomainError(String),
    /// Interchange text is malformed.
    SerializationError(String),
    /// The request makes no sense in the current state.
    InvalidOperation(String),
    /// `step` transitively depends on itself.
    CircularDependency { step: StepId },
    /// `dependent` names the dependency `missing`, which is no step of the
    /// graph. A step that is about to be added has no place in the graph
    /// yet: then `dependent` is `None`.
    InvalidDependency { dependent: Option<StepId>, missing: StepId },
    /// No step has the identifier `id`.
    StepNotFound { id: StepId },
    /// The event log holds no entry.
    EmptyLog,
    /// The entry at `sequence` does not name the address of the entry before
    /// it, `expected`, as its previous address, but `actual`.
    ChainBroken { sequence: usize, expected: Cid, actual: Option<Cid> },
    /// Nothing is known under this name: a snapshot's address in
    /// hexadecimal, or a command type.
    NotFound(String),
    /// A handler is already registered for this command type.
    AlreadyRegistered(String),
}


/// How a step is named in a message: by its identifier in decimal.
pub open spec fn step_text(step: StepId) -> Seq<char> {
    "Step "@ + decimal(step.0 as nat)
}

/// How an optional address is named in a message.
pub open spec fn address_text(address: Option<Cid>) -> Seq<char> {
    match address {
        Some(cid) => hex(cid@),
        None => "none"@,
    }
}

impl WorkflowGraphError {
    /// The error in words.
    pub open spec fn message_text(self) -> Seq<char> {
        match self {
            WorkflowGraphError::DomainError(reason) => "Domain error: "@ + reason@,
            WorkflowGraphError::SerializationError(reason) => "Serialization error: "@ + reason@,
            WorkflowGraphError::InvalidOperation(reason) => "Invalid operation: "@ + reason@,
            WorkflowGraphError::CircularDependency { step } => "Circular dependency detected: "@ + step_text(step)
                + " has circular dependency"@,
            WorkflowGraphError::InvalidDependency { dependent, missing } => "Invalid dependency: "@ + (match dependent {
                Some(step) => step_text(step),
                None => "The new step"@,
            }) + " depends on non-existent step "@ + decimal(missing.0 as nat),
            WorkflowGraphError::StepNotFound { id } => "Step not found: "@ + decimal(id.0 as nat),
            WorkflowGraphError::EmptyLog => "No events in the log"@,
            WorkflowGraphError::ChainBroken { sequence, expected, actual } => "Chain broken at sequence "@
                + decimal(sequence as nat) + ": expected "@ + hex(expected@) + ", got "@ + address_text(actual),
            WorkflowGraphError::NotFound(name) => "Not found: "@ + name@,
            WorkflowGraphError::AlreadyRegistered(tag) => "Handler already registered for "@ + tag@,
        }
    }

    /// The error in words.
    pub fn message(&self) -> (text: String)
        ensures
            text@ == self.message_text(),
    {
        match self {
            WorkflowGraphError::DomainError(reason) => {
                let mut text = "Domain error: ".to_owned();
                text.append(reason.as_str());
                text
            },
            WorkflowGraphError::SerializationError(reason) => {
                let mut text = "Serialization error: ".to_owned();
                text.append(reason.as_str());
                text
            },
            WorkflowGraphError::InvalidOperation(reason) => {
                let mut text = "Invalid operation: ".to_owned();
                text.append(reason.as_str());
                text
            },
            WorkflowGraphError::CircularDependency { step } => {
                let mut text = "Circular dependency detected: ".to_owned();
                text.append("Step ");
                append_decimal(&mut text, step.0);
                text.append(" has circular dependency");
                assert(text@ =~= self.message_text());
                text
            },
            WorkflowGraphError::InvalidDependency { dependent, missing } => {
                let mut text = "Invalid dependency: ".to_owned();
                match dependent {
                    Some(step) => {
                        text.append("Step ");
                        append_decimal(&mut text, step.0);
                    },
                    None => {
                        text.append("The new step");
                    },
                }
                text.append(" depends on non-existent step ");
                append_decimal(&mut text, missing.0);
                assert(text@ =~= self.message_text());
                text
            },
            WorkflowGraphError::StepNotFound { id } => {
                let mut text = "Step not found: ".to_owned();
                append_decimal(&mut text, id.0);
                text
            },
            WorkflowGraphError::EmptyLog => "No events in the log".to_owned(),
            WorkflowGraphError::ChainBroken { sequence, expected, actual } => {
                let mut text = "Chain broken at sequence ".to_owned();
                append_decimal(&mut text, *sequence as u128);
                text.append(": expected ");
                append_hex(&mut text, expected.as_bytes());
                text.append(", got ");
                match actual {
                    Some(cid) => {
                        append_hex(&mut text, cid.as_bytes());
                    },
                    None => {
                        text.append("none");
                    },
                }
                assert(text@ =~= self.message_text());
                text
            },
            WorkflowGraphError::NotFound(name) => {
                let mut text = "Not found: ".to_owned();
                text.append(name.as_str());
                text
            },
            WorkflowGraphError::AlreadyRegistered(tag) => {
                let mut text = "Handler already registered for ".to_owned();
                text.append(tag.as_str());
                text
            },
        }
    }
}

} // verus!
