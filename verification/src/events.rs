//! Domain events of a workflow and their canonical encoding, the bytes that
//! content addresses are computed from.

use vstd::prelude::*;
use vstd::utf8::encode_utf8;

verus! {

/// What happened to a workflow. Timestamps are milliseconds since the Unix
/// epoch.
#[derive(Debug, PartialEq)]
pub enum WorkflowDomainEvent {
    WorkflowCreated { workflow_id: String, name: String, description: String, timestamp: u64 },
    StepAdded { workflow_id: String, step_id: String, name: String, step_type: String, timestamp: u64 },
    WorkflowStarted { workflow_id: String, context: Vec<(String, String)>, timestamp: u64 },
    StepCompleted { workflow_id: String, step_id: String, result: String, timestamp: u64 },
    WorkflowCompleted { workflow_id: String, status: String, timestamp: u64 },
}

/// The mathematical content of a domain event.
pub ghost enum EventView {
    WorkflowCreated { workflow_id: Seq<char>, name: Seq<char>, description: Seq<char>, timestamp: u64 },
    StepAdded {
        workflow_id: Seq<char>,
        step_id: Seq<char>,
        name: Seq<char>,
        step_type: Seq<char>,
        timestamp: u64,
    },
    WorkflowStarted { workflow_id: Seq<char>, context: Seq<(Seq<char>, Seq<char>)>, timestamp: u64 },
    StepCompleted { workflow_id: Seq<char>, step_id: Seq<char>, result: Seq<char>, timestamp: u64 },
    WorkflowCompleted { workflow_id: Seq<char>, status: Seq<char>, timestamp: u64 },
}

/// The contents of a list of pairs of texts.
pub open spec fn pairs_view(pairs: Seq<(String, String)>) -> Seq<(Seq<char>, Seq<char>)> {
    Seq::new(pairs.len(), |i: int| (pairs[i].0@, pairs[i].1@))
}

impl View for WorkflowDomainEvent {
    type V = EventView;

    open spec fn view(&self) -> EventView {
        match *self {
            WorkflowDomainEvent::WorkflowCreated { workflow_id, name, description, timestamp } => {
                EventView::WorkflowCreated {
                    workflow_id: workflow_id@,
                    name: name@,
                    description: description@,
                    timestamp,
                }
            },
            WorkflowDomainEvent::StepAdded { workflow_id, step_id, name, step_type, timestamp } => {
                EventView::StepAdded {
                    workflow_id: workflow_id@,
                    step_id: step_id@,
                    name: name@,
                    step_type: step_type@,
                    timestamp,
                }
            },
            WorkflowDomainEvent::WorkflowStarted { workflow_id, context, timestamp } => {
                EventView::WorkflowStarted { workflow_id: workflow_id@, context: pairs_view(context@), timestamp }
            },
            WorkflowDomainEvent::StepCompleted { workflow_id, step_id, result, timestamp } => {
                EventView::StepCompleted { workflow_id: workflow_id@, step_id: step_id@, result: result@, timestamp }
            },
            WorkflowDomainEvent::WorkflowCompleted { workflow_id, status, timestamp } => {
                EventView::WorkflowCompleted { workflow_id: workflow_id@, status: status@, timestamp }
            },
        }
    }
}

impl EventView {
    /// The workflow that the event belongs to.
    pub open spec fn workflow_id(self) -> Seq<char> {
        match self {
            EventView::WorkflowCreated { workflow_id, .. } => workflow_id,
            EventView::StepAdded { workflow_id, .. } => workflow_id,
            EventView::WorkflowStarted { workflow_id, .. } => workflow_id,
            EventView::StepCompleted { workflow_id, .. } => workflow_id,
            EventView::WorkflowCompleted { workflow_id, .. } => workflow_id,
        }
    }
}

/// A number as eight bytes, the most significant first.
pub open spec fn u64_bytes(n: u64) -> Seq<u8> {
    seq![
        (n >> 56) as u8,
        (n >> 48) as u8,
        (n >> 40) as u8,
        (n >> 32) as u8,
        (n >> 24) as u8,
        (n >> 16) as u8,
        (n >> 8) as u8,
        n as u8,
    ]
}

/// A byte string behind its length.
pub open spec fn framed(bytes: Seq<u8>) -> Seq<u8> {
    u64_bytes(bytes.len() as u64) + bytes
}

/// A text as its UTF-8 bytes behind their number.
pub open spec fn text_bytes(text: Seq<char>) -> Seq<u8> {
    framed(encode_utf8(text))
}

/// The first `upto` pairs of texts, one after the other.
pub open spec fn pairs_bytes(pairs: Seq<(Seq<char>, Seq<char>)>, upto: int) -> Seq<u8>
    decreases upto,
{
    if upto <= 0 {
        Seq::empty()
    } else {
        pairs_bytes(pairs, upto - 1) + text_bytes(pairs[upto - 1].0) + text_bytes(pairs[upto - 1].1)
    }
}

/// The canonical encoding of an event: a byte for the kind, then the fields
/// in the order in which they are declared.
pub open spec fn event_bytes(event: EventView) -> Seq<u8> {
    match event {
        EventView::WorkflowCreated { workflow_id, name, description, timestamp } => {
            seq![1u8] + text_bytes(workflow_id) + text_bytes(name) + text_bytes(description) + u64_bytes(
                timestamp,
            )
        },
        EventView::StepAdded { workflow_id, step_id, name, step_type, timestamp } => {
            seq![2u8] + text_bytes(workflow_id) + text_bytes(step_id) + text_bytes(name) + text_bytes(step_type)
                + u64_bytes(timestamp)
        },
        EventView::WorkflowStarted { workflow_id, context, timestamp } => {
            seq![3u8] + text_bytes(workflow_id) + u64_bytes(context.len() as u64) + pairs_bytes(
                context,
                context.len() as int,
            ) + u64_bytes(timestamp)
        },
        EventView::StepCompleted { workflow_id, step_id, result, timestamp } => {
            seq![4u8] + text_bytes(workflow_id) + text_bytes(step_id) + text_bytes(result) + u64_bytes(timestamp)
        },
        EventView::WorkflowCompleted { workflow_id, status, timestamp } => {
            seq![5u8] + text_bytes(workflow_id) + text_bytes(status) + u64_bytes(timestamp)
        },
    }
}

/// Appends a number as eight bytes, the most significant first.
pub fn append_u64(out: &mut Vec<u8>, n: u64)
    ensures
        final(out)@ == old(out)@ + u64_bytes(n),
{
    out.push((n >> 56) as u8);
    out.push((n >> 48) as u8);
    out.push((n >> 40) as u8);
    out.push((n >> 32) as u8);
    out.push((n >> 24) as u8);
    out.push((n >> 16) as u8);
    out.push((n >> 8) as u8);
    out.push(n as u8);
    assert(out@ =~= old(out)@ + u64_bytes(n));
}

/// Appends a byte string behind its length.
pub fn append_framed(out: &mut Vec<u8>, bytes: &[u8])
    ensures
        final(out)@ == old(out)@ + framed(bytes@),
{
    append_u64(out, bytes.len() as u64);
    let ghost start = out@;
    let mut i: usize = 0;
    while i < bytes.len()
        invariant
            i <= bytes.len(),
            out@ == start + bytes@.take(i as int),
        decreases bytes.len() - i,
    {
        out.push(bytes[i]);
        assert(bytes@.take(i as int + 1) =~= bytes@.take(i as int).push(bytes@[i as int]));
        i += 1;
    }
    assert(bytes@.take(bytes@.len() as int) =~= bytes@);
    assert(out@ =~= old(out)@ + framed(bytes@));
}

/// Appends a text as its UTF-8 bytes behind their number.
pub fn append_text(out: &mut Vec<u8>, text: &String)
    ensures
        final(out)@ == old(out)@ + text_bytes(text@),
{
    append_framed(out, text.as_str().as_bytes());
}

fn append_pairs(out: &mut Vec<u8>, pairs: &Vec<(String, String)>)
    ensures
        final(out)@ == old(out)@ + pairs_bytes(pairs_view(pairs@), pairs@.len() as int),
{
    let ghost views = pairs_view(pairs@);
    let mut i: usize = 0;
    assert(out@ =~= old(out)@ + pairs_bytes(views, 0));
    while i < pairs.len()
        invariant
            i <= pairs.len(),
            views == pairs_view(pairs@),
            out@ == old(out)@ + pairs_bytes(views, i as int),
        decreases pairs.len() - i,
    {
        let ghost before = out@;
        append_text(out, &pairs[i].0);
        append_text(out, &pairs[i].1);
        assert(out@ =~= old(out)@ + pairs_bytes(views, i as int + 1));
        i += 1;
    }
}

/// Appends the canonical encoding of an event.
pub fn append_event_bytes(out: &mut Vec<u8>, event: &WorkflowDomainEvent)
    ensures
        final(out)@ == old(out)@ + event_bytes(event@),
{
    match event {
        WorkflowDomainEvent::WorkflowCreated { workflow_id, name, description, timestamp } => {
            out.push(1u8);
            append_text(out, workflow_id);
            append_text(out, name);
            append_text(out, description);
            append_u64(out, *timestamp);
        },
        WorkflowDomainEvent::StepAdded { workflow_id, step_id, name, step_type, timestamp } => {
            out.push(2u8);
            append_text(out, workflow_id);
            append_text(out, step_id);
            append_text(out, name);
            append_text(out, step_type);
            append_u64(out, *timestamp);
        },
        WorkflowDomainEvent::WorkflowStarted { workflow_id, context, timestamp } => {
            out.push(3u8);
            append_text(out, workflow_id);
            append_u64(out, context.len() as u64);
            append_pairs(out, context);
            append_u64(out, *timestamp);
        },
        WorkflowDomainEvent::StepCompleted { workflow_id, step_id, result, timestamp } => {
            out.push(4u8);
            append_text(out, workflow_id);
            append_text(out, step_id);
            append_text(out, result);
            append_u64(out, *timestamp);
        },
        WorkflowDomainEvent::WorkflowCompleted { workflow_id, status, timestamp } => {
            out.push(5u8);
            append_text(out, workflow_id);
            append_text(out, status);
            append_u64(out, *timestamp);
        },
    }
    assert(out@ =~= old(out)@ + event_bytes(event@));
}

impl WorkflowDomainEvent {
    /// The workflow that the event belongs to.
    pub fn workflow_id(&self) -> (id: &String)
        ensures
            id@ == self@.workflow_id(),
    {
        match self {
            WorkflowDomainEvent::WorkflowCreated { workflow_id, .. } => workflow_id,
            WorkflowDomainEvent::StepAdded { workflow_id, .. } => workflow_id,
            WorkflowDomainEvent::WorkflowStarted { workflow_id, .. } => workflow_id,
            WorkflowDomainEvent::StepCompleted { workflow_id, .. } => workflow_id,
            WorkflowDomainEvent::WorkflowCompleted { workflow_id, .. } => workflow_id,
        }
    }
}

fn copy_pairs(pairs: &Vec<(String, String)>) -> (copy: Vec<(String, String)>)
    ensures
        pairs_view(copy@) == pairs_view(pairs@),
{
    let mut copy: Vec<(String, String)> = Vec::new();
    let mut i: usize = 0;
    while i < pairs.len()
        invariant
            i <= pairs.len(),
            copy@.len() == i,
            forall|k: int| 0 <= k < i ==> (#[trigger] copy@[k]).0@ == pairs@[k].0@ && copy@[k].1@ == pairs@[k].1@,
        decreases pairs.len() - i,
    {
        copy.push((pairs[i].0.clone(), pairs[i].1.clone()));
        i += 1;
    }
    assert(pairs_view(copy@) =~= pairs_view(pairs@));
    copy
}

impl Clone for WorkflowDomainEvent {
    fn clone(&self) -> (copy: Self)
        ensures
            copy@ == self@,
    {
        match self {
            WorkflowDomainEvent::WorkflowCreated { workflow_id, name, description, timestamp } => {
                WorkflowDomainEvent::WorkflowCreated {
                    workflow_id: workflow_id.clone(),
                    name: name.clone(),
                    description: description.clone(),
                    timestamp: *timestamp,
                }
            },
            WorkflowDomainEvent::StepAdded { workflow_id, step_id, name, step_type, timestamp } => {
                WorkflowDomainEvent::StepAdded {
                    workflow_id: workflow_id.clone(),
                    step_id: step_id.clone(),
                    name: name.clone(),
                    step_type: step_type.clone(),
                    timestamp: *timestamp,
                }
            },
            WorkflowDomainEvent::WorkflowStarted { workflow_id, context, timestamp } => {
                WorkflowDomainEvent::WorkflowStarted {
                    workflow_id: workflow_id.clone(),
                    context: copy_pairs(context),
                    timestamp: *timestamp,
                }
            },
            WorkflowDomainEvent::StepCompleted { workflow_id, step_id, result, timestamp } => {
                WorkflowDomainEvent::StepCompleted {
                    workflow_id: workflow_id.clone(),
                    step_id: step_id.clone(),
                    result: result.clone(),
                    timestamp: *timestamp,
                }
            },
            WorkflowDomainEvent::WorkflowCompleted { workflow_id, status, timestamp } => {
                WorkflowDomainEvent::WorkflowCompleted {
                    workflow_id: workflow_id.clone(),
                    status: status.clone(),
                    timestamp: *timestamp,
                }
            },
        }
    }
}

} // verus!
