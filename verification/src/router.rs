//! The command router: commands go to the handler registered for their
//! type, else to the fallback handler, and every routing is counted and
//! timed.

use vstd::prelude::*;
use crate::error::WorkflowGraphError;
use crate::outside::{clock_elapsed, clock_now, duration_nanos};

verus! {

/// A request to a workflow.
#[derive(Debug, PartialEq)]
pub enum WorkflowCommand {
    CreateWorkflow { name: String, description: String },
    AddStep { workflow_id: String, step_name: String, step_type: String },
    StartWorkflow { workflow_id: String, context: Vec<(String, String)> },
    CompleteStep { workflow_id: String, step_id: String, result: String },
    CancelWorkflow { workflow_id: String, reason: String },
    Unknown { command_type: String },
}

impl WorkflowCommand {
    /// The type tag that the command is dispatched by.
    pub open spec fn type_tag(self) -> Seq<char> {
        match self {
            WorkflowCommand::CreateWorkflow { .. } => "create_workflow"@,
            WorkflowCommand::AddStep { .. } => "add_step"@,
            WorkflowCommand::StartWorkflow { .. } => "start_workflow"@,
            WorkflowCommand::CompleteStep { .. } => "complete_step"@,
            WorkflowCommand::CancelWorkflow { .. } => "cancel_workflow"@,
            WorkflowCommand::Unknown { command_type } => command_type@,
        }
    }

    /// The type tag that the command is dispatched by.
    pub fn command_type(&self) -> (tag: String)
        ensures
            tag@ == self.type_tag(),
    {
        match self {
            WorkflowCommand::CreateWorkflow { .. } => "create_workflow".to_owned(),
            WorkflowCommand::AddStep { .. } => "add_step".to_owned(),
            WorkflowCommand::StartWorkflow { .. } => "start_workflow".to_owned(),
            WorkflowCommand::CompleteStep { .. } => "complete_step".to_owned(),
            WorkflowCommand::CancelWorkflow { .. } => "cancel_workflow".to_owned(),
            WorkflowCommand::Unknown { command_type } => command_type.clone(),
        }
    }
}

/// What a handler answers.
#[derive(Debug, PartialEq)]
pub enum CommandResponse {
    Success { message: String },
    Error { message: String },
    Async { correlation_id: String },
}

/// The mathematical content of a response.
pub ghost enum ResponseView {
    Success { message: Seq<char> },
    Error { message: Seq<char> },
    Async { correlation_id: Seq<char> },
}

impl View for CommandResponse {
    type V = ResponseView;

    open spec fn view(&self) -> ResponseView {
        match *self {
            CommandResponse::Success { message } => ResponseView::Success { message: message@ },
            CommandResponse::Error { message } => ResponseView::Error { message: message@ },
            CommandResponse::Async { correlation_id } => ResponseView::Async { correlation_id: correlation_id@ },
        }
    }
}

impl Clone for CommandResponse {
    fn clone(&self) -> (copy: Self)
        ensures
            copy@ == self@,
    {
        match self {
            CommandResponse::Success { message } => CommandResponse::Success { message: message.clone() },
            CommandResponse::Error { message } => CommandResponse::Error { message: message.clone() },
            CommandResponse::Async { correlation_id } => CommandResponse::Async {
                correlation_id: correlation_id.clone(),
            },
        }
    }
}

/// What handles the commands of one type.
///
/// A handler may say in `declares` and `answers` what it declares and what
/// it answers; one that says nothing may declare and answer anything.
pub trait WorkflowCommandHandler {
    /// Whether `tag` is a command type that the handler may declare.
    open spec fn declares(&self, tag: Seq<char>) -> bool {
        true
    }

    /// Whether `response` is an answer that the handler may give to
    /// `command`.
    open spec fn answers(&self, command: WorkflowCommand, response: CommandResponse) -> bool {
        true
    }

    /// Handles a command.
    fn handle(&self, command: &WorkflowCommand) -> (response: CommandResponse)
        ensures
            self.answers(*command, response),
    ;

    /// The command type that the handler declares.
    fn command_type(&self) -> (tag: &str)
        ensures
            self.declares(tag@),
    ;
}

/// A handler that gives one and the same answer to every command.
#[derive(Debug)]
pub struct FixedResponseHandler {
    pub command_type: String,
    pub response: CommandResponse,
}

impl FixedResponseHandler {
    /// A handler for `command_type` that always answers `response`.
    pub fn new(command_type: String, response: CommandResponse) -> (handler: Self)
        ensures
            handler.command_type@ == command_type@,
            handler.response@ == response@,
    {
        FixedResponseHandler { command_type, response }
    }
}

impl WorkflowCommandHandler for FixedResponseHandler {
    open spec fn declares(&self, tag: Seq<char>) -> bool {
        tag == self.command_type@
    }

    open spec fn answers(&self, command: WorkflowCommand, response: CommandResponse) -> bool {
        response@ == self.response@
    }

    fn handle(&self, command: &WorkflowCommand) -> (response: CommandResponse) {
        self.response.clone()
    }

    fn command_type(&self) -> (tag: &str) {
        self.command_type.as_str()
    }
}

/// A handler for the fallback place: it refuses every command, naming the
/// command's type.
#[derive(Debug)]
pub struct RejectingHandler {}

impl WorkflowCommandHandler for RejectingHandler {
    open spec fn declares(&self, tag: Seq<char>) -> bool {
        tag == "fallback"@
    }

    open spec fn answers(&self, command: WorkflowCommand, response: CommandResponse) -> bool {
        response@ == (ResponseView::Error { message: "Unknown command type: "@ + command.type_tag() })
    }

    fn handle(&self, command: &WorkflowCommand) -> (response: CommandResponse) {
        let mut message = "Unknown command type: ".to_owned();
        let tag = command.command_type();
        message.append(tag.as_str());
        CommandResponse::Error { message }
    }

    fn command_type(&self) -> (tag: &str) {
        "fallback"
    }
}

/// The sum of the samples.
pub open spec fn total_nanos(samples: Seq<u64>) -> nat
    decreases samples.len(),
{
    if samples.len() == 0 {
        0
    } else {
        total_nanos(samples.drop_last()) + samples.last() as nat
    }
}

/// The arithmetic mean of the samples, rounded down; zero of none.
pub open spec fn mean_nanos(samples: Seq<u64>) -> nat {
    if samples.len() == 0 {
        0
    } else {
        total_nanos(samples) / samples.len()
    }
}

/// The sum of samples is at most their number times the largest value.
pub proof fn lemma_total_bound(samples: Seq<u64>)
    ensures
        total_nanos(samples) <= samples.len() * u64::MAX,
    decreases samples.len(),
{
    if samples.len() > 0 {
        lemma_total_bound(samples.drop_last());
        assert((samples.len() - 1) * u64::MAX + u64::MAX == samples.len() * u64::MAX) by (nonlinear_arith);
    }
}

/// No text occurs twice.
pub open spec fn distinct_tags(tags: Seq<Seq<char>>) -> bool {
    forall|i: int, j: int| 0 <= i < j < tags.len() ==> tags[i] != tags[j]
}

/// How often commands of the type `tag` were routed.
pub open spec fn routed_count(counts: Map<Seq<char>, nat>, tag: Seq<char>) -> nat {
    if counts.contains_key(tag) {
        counts[tag]
    } else {
        0
    }
}

/// The identifier under which the handler for `tag` is reported.
pub open spec fn handler_id(tag: Seq<char>) -> Seq<char> {
    "handler_"@ + tag
}

/// Cumulative routing statistics.
#[derive(Debug)]
pub struct RoutingStats {
    pub total_routed: usize,
    pub by_command_type: Vec<(String, usize)>,
    pub fallback_count: usize,
    pub average_routing_nanos: u64,
}

/// The counts of the first `upto` entries, by command type.
pub open spec fn counts_map(entries: Seq<(String, usize)>, upto: int) -> Map<Seq<char>, nat>
    decreases upto,
{
    if upto <= 0 {
        Map::empty()
    } else {
        counts_map(entries, upto - 1).insert(entries[upto - 1].0@, entries[upto - 1].1 as nat)
    }
}

impl RoutingStats {
    /// How often each command type was routed.
    pub open spec fn counts(&self) -> Map<Seq<char>, nat> {
        counts_map(self.by_command_type@, self.by_command_type@.len() as int)
    }

    fn position_of(&self, tag: &String) -> (at: Option<usize>)
        ensures
            match at {
                Some(k) => k < self.by_command_type@.len() && self.by_command_type@[k as int].0@ == tag@,
                None => forall|k: int|
                    0 <= k < self.by_command_type@.len() ==> (#[trigger] self.by_command_type@[k]).0@ != tag@,
            },
    {
        let mut i: usize = 0;
        while i < self.by_command_type.len()
            invariant
                i <= self.by_command_type.len(),
                forall|k: int| 0 <= k < i ==> (#[trigger] self.by_command_type@[k]).0@ != tag@,
            decreases self.by_command_type.len() - i,
        {
            if self.by_command_type[i].0 == *tag {
                return Some(i);
            }
            i += 1;
        }
        None
    }

    /// How often commands of one type were routed; `None` if never.
    pub fn count_of(&self, command_type: &str) -> (count: Option<usize>)
        ensures
            match count {
                Some(n) => self.counts().contains_key(command_type@) && self.counts()[command_type@] == n,
                None => !self.counts().contains_key(command_type@),
            },
    {
        let wanted = command_type.to_owned();
        let n = self.by_command_type.len();
        let mut i: usize = n;
        while i > 0
            invariant
                i <= n,
                n == self.by_command_type@.len(),
                wanted@ == command_type@,
                counts_map(self.by_command_type@, n as int).contains_key(command_type@) <==> counts_map(
                    self.by_command_type@,
                    i as int,
                ).contains_key(command_type@),
                counts_map(self.by_command_type@, i as int).contains_key(command_type@) ==> counts_map(
                    self.by_command_type@,
                    n as int,
                )[command_type@] == counts_map(self.by_command_type@, i as int)[command_type@],
            decreases i,
        {
            i -= 1;
            if self.by_command_type[i].0 == wanted {
                return Some(self.by_command_type[i].1);
            }
        }
        None
    }
}

/// The mathematical content of a router.
pub ghost struct RouterView<H, F> {
    pub tags: Seq<Seq<char>>,
    pub handlers: Seq<H>,
    pub fallback: Option<F>,
    pub total_routed: nat,
    pub by_command_type: Map<Seq<char>, nat>,
    pub fallback_count: nat,
    pub routing_nanos: Seq<u64>,
    pub average_routing_nanos: nat,
}

impl<H: WorkflowCommandHandler, F: WorkflowCommandHandler> RouterView<H, F> {
    /// `response` and `id` are what routing `command` may give: the answer
    /// of the handler registered for the command's type, under that
    /// handler's identifier; where none is registered, the answer of the
    /// fallback handler, under `fallback`; where there is no fallback
    /// either, the error `No handler found`, under `none`.
    pub open spec fn dispatched(self, command: WorkflowCommand, response: CommandResponse, id: Seq<char>) -> bool {
        if self.tags.contains(command.type_tag()) {
            &&& id == handler_id(command.type_tag())
            &&& exists|i: int|
                0 <= i < self.tags.len() && #[trigger] self.tags[i] == command.type_tag()
                    && self.handlers[i].answers(command, response)
        } else {
            match self.fallback {
                Some(fallback) => id == "fallback"@ && fallback.answers(command, response),
                None => id == "none"@ && response@ == (ResponseView::Error { message: "No handler found"@ }),
            }
        }
    }

    /// Whether a command of the type `tag` goes to the fallback handler.
    pub open spec fn falls_back(self, tag: Seq<char>) -> bool {
        !self.tags.contains(tag) && self.fallback is Some
    }

    /// The router after one routing of a command of the type `tag` that took
    /// `nanos` nanoseconds was recorded.
    pub open spec fn recorded(self, tag: Seq<char>, nanos: u64) -> RouterView<H, F> {
        RouterView {
            total_routed: self.total_routed + 1,
            by_command_type: self.by_command_type.insert(tag, routed_count(self.by_command_type, tag) + 1),
            fallback_count: if self.falls_back(tag) {
                self.fallback_count + 1
            } else {
                self.fallback_count
            },
            routing_nanos: self.routing_nanos.push(nanos),
            average_routing_nanos: mean_nanos(self.routing_nanos.push(nanos)),
            ..self
        }
    }
}

/// Maps command types to handlers of the type `H`, with a fallback handler
/// of the type `F` for the command types that no handler is registered for,
/// and keeps statistics of what it routed.
pub struct WorkflowCommandRouter<H, F> {
    handlers: Vec<H>,
    tags: Vec<String>,
    fallback_handler: Option<F>,
    stats: RoutingStats,
    routing_times: Vec<u64>,
    nanos: u128,
}

impl<H: WorkflowCommandHandler, F: WorkflowCommandHandler> View for WorkflowCommandRouter<H, F> {
    type V = RouterView<H, F>;

    closed spec fn view(&self) -> RouterView<H, F> {
        RouterView {
            tags: Seq::new(self.tags@.len(), |i: int| self.tags@[i]@),
            handlers: self.handlers@,
            fallback: self.fallback_handler,
            total_routed: self.stats.total_routed as nat,
            by_command_type: self.stats.counts(),
            fallback_count: self.stats.fallback_count as nat,
            routing_nanos: self.routing_times@,
            average_routing_nanos: self.stats.average_routing_nanos as nat,
        }
    }
}

proof fn lemma_counts_prefix(a: Seq<(String, usize)>, b: Seq<(String, usize)>, upto: int)
    requires
        0 <= upto <= a.len(),
        upto <= b.len(),
        forall|k: int| 0 <= k < upto ==> (#[trigger] a[k]).0@ == b[k].0@ && a[k].1 == b[k].1,
    ensures
        counts_map(a, upto) == counts_map(b, upto),
    decreases upto,
{
    if upto > 0 {
        lemma_counts_prefix(a, b, upto - 1);
    }
}

/// With distinct keys, changing the count of one entry changes the map at
/// that key alone.
proof fn lemma_counts_update(a: Seq<(String, usize)>, b: Seq<(String, usize)>, at: int, upto: int)
    requires
        0 <= at < a.len(),
        a.len() == b.len(),
        0 <= upto <= a.len(),
        forall|i: int, j: int| 0 <= i < j < a.len() ==> (#[trigger] a[i]).0@ != (#[trigger] a[j]).0@,
        forall|k: int| 0 <= k < a.len() ==> (#[trigger] a[k]).0@ == b[k].0@,
        forall|k: int| 0 <= k < a.len() && k != at ==> (#[trigger] a[k]).1 == b[k].1,
    ensures
        counts_map(b, upto) == if at < upto {
            counts_map(a, upto).insert(a[at].0@, b[at].1 as nat)
        } else {
            counts_map(a, upto)
        },
    decreases upto,
{
    if upto > 0 {
        lemma_counts_update(a, b, at, upto - 1);
        if at < upto - 1 {
            assert(a[at].0@ != a[upto - 1].0@);
            assert(counts_map(b, upto) =~= counts_map(a, upto).insert(a[at].0@, b[at].1 as nat));
        } else if at == upto - 1 {
            assert(counts_map(b, upto) =~= counts_map(a, upto).insert(a[at].0@, b[at].1 as nat));
        }
    }
}

proof fn lemma_counts_keys(entries: Seq<(String, usize)>, upto: int)
    requires
        0 <= upto <= entries.len(),
    ensures
        forall|tag: Seq<char>| #[trigger]
            counts_map(entries, upto).contains_key(tag) <==> exists|k: int|
                0 <= k < upto && (#[trigger] entries[k]).0@ == tag,
    decreases upto,
{
    if upto > 0 {
        lemma_counts_keys(entries, upto - 1);
        let before = counts_map(entries, upto - 1);
        let now = counts_map(entries, upto);
        assert forall|tag: Seq<char>| #[trigger] now.contains_key(tag) <==> exists|k: int|
            0 <= k < upto && (#[trigger] entries[k]).0@ == tag by {
            if now.contains_key(tag) {
                if tag != entries[upto - 1].0@ {
                    assert(before.contains_key(tag));
                    let k = choose|k: int| 0 <= k < upto - 1 && (#[trigger] entries[k]).0@ == tag;
                    assert(entries[k].0@ == tag);
                } else {
                    assert(entries[upto - 1].0@ == tag);
                }
            }
            if exists|k: int| 0 <= k < upto && (#[trigger] entries[k]).0@ == tag {
                let k = choose|k: int| 0 <= k < upto && (#[trigger] entries[k]).0@ == tag;
                if k < upto - 1 {
                    assert(before.contains_key(tag));
                }
            }
        }
    }
}

proof fn lemma_counts_value(entries: Seq<(String, usize)>, at: int, upto: int)
    requires
        0 <= at < upto <= entries.len(),
        forall|i: int, j: int| 0 <= i < j < entries.len() ==> (#[trigger] entries[i]).0@ != (#[trigger] entries[j]).0@,
    ensures
        counts_map(entries, upto).contains_key(entries[at].0@),
        counts_map(entries, upto)[entries[at].0@] == entries[at].1,
    decreases upto,
{
    if at < upto - 1 {
        lemma_counts_value(entries, at, upto - 1);
        assert(entries[at].0@ != entries[upto - 1].0@);
    }
}

impl<H: WorkflowCommandHandler, F: WorkflowCommandHandler> WorkflowCommandRouter<H, F> {
    /// What the router's fields owe each other: a tag for every handler, no
    /// command type registered or counted twice, and statistics that agree
    /// with the latencies recorded.
    pub closed spec fn wf(&self) -> bool {
        &&& self.tags@.len() == self.handlers@.len()
        &&& forall|i: int| 0 <= i < self.tags@.len() ==> self.handlers@[i].declares((#[trigger] self.tags@[i])@)
        &&& distinct_tags(self@.tags)
        &&& self.stats.total_routed == self.routing_times@.len()
        &&& self.stats.fallback_count <= self.stats.total_routed
        &&& forall|i: int, j: int|
            0 <= i < j < self.stats.by_command_type@.len() ==> (#[trigger] self.stats.by_command_type@[i]).0@ != (
            #[trigger] self.stats.by_command_type@[j]).0@
        &&& forall|k: int|
            0 <= k < self.stats.by_command_type@.len() ==> (#[trigger] self.stats.by_command_type@[k]).1
                <= self.stats.total_routed
        &&& self.nanos == total_nanos(self.routing_times@)
        &&& self.stats.average_routing_nanos == mean_nanos(self.routing_times@)
    }

    /// In a well-formed router no two handlers declare the same type, and
    /// the statistics agree with the latencies recorded.
    pub proof fn lemma_wf(&self)
        requires
            self.wf(),
        ensures
            distinct_tags(self@.tags),
            self@.tags.len() == self@.handlers.len(),
            forall|i: int| 0 <= i < self@.tags.len() ==> self@.handlers[i].declares(#[trigger] self@.tags[i]),
            self@.total_routed == self@.routing_nanos.len(),
            self@.fallback_count <= self@.total_routed,
            self@.average_routing_nanos == mean_nanos(self@.routing_nanos),
    {
    }

    /// A router without handlers that has routed nothing.
    pub fn new() -> (router: Self)
        ensures
            router.wf(),
            router@.tags.len() == 0,
            router@.handlers.len() == 0,
            router@.fallback is None,
            router@.total_routed == 0,
            router@.by_command_type == Map::<Seq<char>, nat>::empty(),
            router@.fallback_count == 0,
            router@.routing_nanos.len() == 0,
            router@.average_routing_nanos == 0,
    {
        WorkflowCommandRouter {
            handlers: Vec::new(),
            tags: Vec::new(),
            fallback_handler: None,
            stats: RoutingStats {
                total_routed: 0,
                by_command_type: Vec::new(),
                fallback_count: 0,
                average_routing_nanos: 0,
            },
            routing_times: Vec::new(),
            nanos: 0,
        }
    }

    /// The number of registered handlers.
    pub fn handler_count(&self) -> (count: usize)
        ensures
            count == self@.handlers.len(),
    {
        self.handlers.len()
    }

    /// Whether a fallback handler is set.
    pub fn has_fallback(&self) -> (set: bool)
        ensures
            set == self@.fallback is Some,
    {
        self.fallback_handler.is_some()
    }

    fn find(&self, tag: &String) -> (at: Option<usize>)
        requires
            self.wf(),
        ensures
            match at {
                Some(i) => i < self@.tags.len() && i < self.handlers@.len() && self@.tags[i as int] == tag@,
                None => !self@.tags.contains(tag@),
            },
    {
        let mut i: usize = 0;
        while i < self.tags.len()
            invariant
                self.wf(),
                i <= self.tags.len(),
                forall|k: int| 0 <= k < i ==> self@.tags[k] != tag@,
            decreases self.tags.len() - i,
        {
            if self.tags[i] == *tag {
                return Some(i);
            }
            i += 1;
        }
        None
    }

    /// Whether a handler is registered for `command_type`.
    pub fn has_handler(&self, command_type: &str) -> (registered: bool)
        requires
            self.wf(),
        ensures
            registered == self@.tags.contains(command_type@),
    {
        let tag = command_type.to_owned();
        let at = self.find(&tag);
        proof {
            if let Some(i) = at {
                assert(self@.tags[i as int] == command_type@);
            }
        }
        at.is_some()
    }

    /// Registers a handler under the command type that it declares, as
    /// `command_type` gives it. A type that already has a handler keeps it.
    pub fn register_handler(&mut self, handler: H) -> (registered: Result<String, WorkflowGraphError>)
        requires
            old(self).wf(),
        ensures
            final(self).wf(),
            match registered {
                Ok(id) => {
                    &&& final(self)@.tags.len() == old(self)@.tags.len() + 1
                    &&& handler.declares(final(self)@.tags.last())
                    &&& !old(self)@.tags.contains(final(self)@.tags.last())
                    &&& id@ == handler_id(final(self)@.tags.last())
                    &&& final(self)@ == RouterView {
                        tags: old(self)@.tags.push(final(self)@.tags.last()),
                        handlers: old(self)@.handlers.push(handler),
                        ..old(self)@
                    }
                },
                Err(WorkflowGraphError::AlreadyRegistered(tag)) => {
                    &&& handler.declares(tag@)
                    &&& old(self)@.tags.contains(tag@)
                    &&& final(self)@ == old(self)@
                },
                Err(_) => false,
            },
    {
        let tag = handler.command_type().to_owned();
        self.register_as(tag, handler)
    }

    /// Registers a handler under the command type `tag`, which is one that
    /// the handler declares. A type that already has a handler keeps it, and
    /// the router stays as it is.
    pub fn register_as(&mut self, tag: String, handler: H) -> (registered: Result<String, WorkflowGraphError>)
        requires
            old(self).wf(),
            handler.declares(tag@),
        ensures
            final(self).wf(),
            registered is Ok <==> !old(self)@.tags.contains(tag@),
            match registered {
                Ok(id) => {
                    &&& id@ == handler_id(tag@)
                    &&& final(self)@ == with_handler(old(self)@, tag@, handler)
                },
                Err(WorkflowGraphError::AlreadyRegistered(taken)) => {
                    &&& taken@ == tag@
                    &&& final(self)@ == old(self)@
                },
                Err(_) => false,
            },
    {
        let at = self.find(&tag);
        if at.is_some() {
            proof {
                let i = at->0;
                assert(self@.tags[i as int] == tag@);
            }
            return Err(WorkflowGraphError::AlreadyRegistered(tag));
        }
        let mut id = "handler_".to_owned();
        id.append(tag.as_str());
        let ghost text = tag@;
        self.handlers.push(handler);
        self.tags.push(tag);
        proof {
            let before = old(self)@.tags;
            let after = self@.tags;
            assert(after =~= before.push(text));
            assert forall|i: int, j: int| 0 <= i < j < after.len() implies after[i] != after[j] by {
                if j == before.len() {
                    assert(before[i] == after[i]);
                    assert(before.contains(before[i]));
                }
            }
        }
        Ok(id)
    }

    /// Sets the fallback handler, in place of the one that was set.
    pub fn set_fallback_handler(&mut self, handler: F)
        requires
            old(self).wf(),
        ensures
            final(self).wf(),
            final(self)@ == (RouterView { fallback: Some(handler), ..old(self)@ }),
    {
        self.fallback_handler = Some(handler);
    }

    /// Removes the handler registered for `command_type`.
    pub fn remove_handler(&mut self, command_type: &str) -> (removed: Result<(), WorkflowGraphError>)
        requires
            old(self).wf(),
        ensures
            final(self).wf(),
            match removed {
                Ok(()) => {
                    &&& old(self)@.tags.contains(command_type@)
                    &&& !final(self)@.tags.contains(command_type@)
                    &&& exists|i: int|
                        0 <= i < old(self)@.tags.len() && #[trigger] old(self)@.tags[i] == command_type@
                            && final(self)@ == (RouterView {
                            tags: old(self)@.tags.remove(i),
                            handlers: old(self)@.handlers.remove(i),
                            ..old(self)@
                        })
                },
                Err(WorkflowGraphError::NotFound(tag)) => {
                    &&& !old(self)@.tags.contains(command_type@)
                    &&& tag@ == command_type@
                    &&& final(self)@ == old(self)@
                },
                Err(_) => false,
            },
    {
        let tag = command_type.to_owned();
        match self.find(&tag) {
            Some(i) => {
                let ghost before = self@.tags;
                assert(before[i as int] == command_type@);
                self.handlers.remove(i);
                self.tags.remove(i);
                proof {
                    let after = self@.tags;
                    assert(after =~= before.remove(i as int));
                    assert forall|a: int, b: int| 0 <= a < b < after.len() implies after[a] != after[b] by {
                        let a0 = if a < i { a } else { a + 1 };
                        let b0 = if b < i { b } else { b + 1 };
                        assert(after[a] == before[a0]);
                        assert(after[b] == before[b0]);
                    }
                    assert forall|k: int| 0 <= k < after.len() implies after[k] != command_type@ by {
                        let k0 = if k < i { k } else { k + 1 };
                        assert(after[k] == before[k0]);
                    }
                    assert forall|k: int| 0 <= k < self.tags@.len() implies self.handlers@[k].declares(
                        (#[trigger] self.tags@[k])@,
                    ) by {
                        let k0 = if k < i { k } else { k + 1 };
                        assert(self.tags@[k] == old(self).tags@[k0]);
                        assert(self.handlers@[k] == old(self).handlers@[k0]);
                    }
                }
                Ok(())
            },
            None => Err(WorkflowGraphError::NotFound(tag)),
        }
    }

    /// The statistics of what was routed so far.
    pub fn get_stats(&self) -> (stats: &RoutingStats)
        requires
            self.wf(),
        ensures
            stats.total_routed == self@.total_routed,
            stats.counts() == self@.by_command_type,
            stats.fallback_count == self@.fallback_count,
            stats.average_routing_nanos == self@.average_routing_nanos,
            stats.average_routing_nanos == mean_nanos(self@.routing_nanos),
    {
        &self.stats
    }

    /// Hands `command` to the handler that its type resolves to, and returns
    /// the answer with the identifier of that handler. Nothing is recorded.
    pub fn dispatch(&self, command: &WorkflowCommand) -> (routed: (CommandResponse, String))
        requires
            self.wf(),
        ensures
            self@.dispatched(*command, routed.0, routed.1@),
    {
        let tag = command.command_type();
        match self.find(&tag) {
            Some(i) => {
                let response = self.handlers[i].handle(command);
                let mut id = "handler_".to_owned();
                id.append(tag.as_str());
                assert(self@.tags[i as int] == command.type_tag());
                (response, id)
            },
            None => match &self.fallback_handler {
                Some(fallback) => {
                    let response = fallback.handle(command);
                    (response, "fallback".to_owned())
                },
                None => (CommandResponse::Error { message: "No handler found".to_owned() }, "none".to_owned()),
            },
        }
    }

    /// Records one routing of `command` that took `nanos` nanoseconds: the
    /// totals, the count of the command's type, the fallback count where the
    /// command went to the fallback handler, and the mean latency.
    pub fn record(&mut self, command: &WorkflowCommand, nanos: u64)
        requires
            old(self).wf(),
        ensures
            final(self).wf(),
            final(self)@ == old(self)@.recorded(command.type_tag(), nanos),
    {
        let tag = command.command_type();
        let used_fallback = self.find(&tag).is_none() && self.fallback_handler.is_some();
        let ghost before = *self;
        let ghost old_entries = self.stats.by_command_type@;
        proof {
            lemma_total_bound(self.routing_times@);
            lemma_counts_keys(old_entries, old_entries.len() as int);
        }
        self.routing_times.push(nanos);
        let count = self.routing_times.len();
        assert(self.routing_times@.drop_last() =~= before.routing_times@);
        assert(self.nanos + nanos <= count * u64::MAX) by (nonlinear_arith)
            requires
                self.nanos <= (count - 1) * u64::MAX,
                nanos <= u64::MAX,
        {
        }
        assert(count * u64::MAX <= usize::MAX * u64::MAX) by (nonlinear_arith)
            requires
                count <= usize::MAX,
        {
        }
        self.nanos = self.nanos + nanos as u128;
        self.stats.total_routed = count;
        if used_fallback {
            self.stats.fallback_count = self.stats.fallback_count + 1;
        }
        let mean = self.nanos / (count as u128);
        assert(mean <= u64::MAX) by (nonlinear_arith)
            requires
                mean == self.nanos / (count as u128),
                self.nanos <= count * u64::MAX,
                count > 0,
        {
        }
        self.stats.average_routing_nanos = mean as u64;
        let at = self.stats.position_of(&tag);
        match at {
            Some(k) => {
                let so_far = self.stats.by_command_type[k].1;
                proof {
                    lemma_counts_value(old_entries, k as int, old_entries.len() as int);
                }
                self.stats.by_command_type.set(k, (tag, so_far + 1));
                proof {
                    lemma_counts_update(
                        old_entries,
                        self.stats.by_command_type@,
                        k as int,
                        old_entries.len() as int,
                    );
                }
            },
            None => {
                self.stats.by_command_type.push((tag, 1));
                proof {
                    lemma_counts_prefix(old_entries, self.stats.by_command_type@, old_entries.len() as int);
                    assert(!before.stats.counts().contains_key(tag@));
                }
            },
        }
        proof {
            assert(self@.by_command_type =~= before@.by_command_type.insert(
                command.type_tag(),
                routed_count(before@.by_command_type, command.type_tag()) + 1,
            ));
        }
    }

    /// Routes a command: hands it to the handler that its type resolves to,
    /// measures how long that took, and records the routing.
    pub fn route_command(&mut self, command: &WorkflowCommand) -> (routed: (CommandResponse, String))
        requires
            old(self).wf(),
        ensures
            final(self).wf(),
            old(self)@.dispatched(*command, routed.0, routed.1@),
            exists|nanos: u64| final(self)@ == #[trigger] old(self)@.recorded(command.type_tag(), nanos),
    {
        let start = clock_now();
        let routed = self.dispatch(command);
        let elapsed = clock_elapsed(&start);
        let taken = duration_nanos(&elapsed);
        let nanos: u64 = if taken > u64::MAX as u128 {
            u64::MAX
        } else {
            taken as u64
        };
        self.record(command, nanos);
        routed
    }
}


/// The router `router` with `handler` registered last, under `tag`.
pub open spec fn with_handler<H: WorkflowCommandHandler, F: WorkflowCommandHandler>(
    router: RouterView<H, F>,
    tag: Seq<char>,
    handler: H,
) -> RouterView<H, F> {
    RouterView { tags: router.tags.push(tag), handlers: router.handlers.push(handler), ..router }
}

/// Once a handler is registered for a command type, a command of that type
/// is answered by that handler, under that handler's identifier, and the
/// fallback handler is left alone: the fallback count stays as it is.
pub proof fn lemma_registered_handler_is_used<H: WorkflowCommandHandler, F: WorkflowCommandHandler>(
    router: RouterView<H, F>,
    handler: H,
    command: WorkflowCommand,
    response: CommandResponse,
    id: Seq<char>,
    nanos: u64,
)
    requires
        router.tags.len() == router.handlers.len(),
        !router.tags.contains(command.type_tag()),
        with_handler(router, command.type_tag(), handler).dispatched(command, response, id),
    ensures
        handler.answers(command, response),
        id == handler_id(command.type_tag()),
        !with_handler(router, command.type_tag(), handler).falls_back(command.type_tag()),
        with_handler(router, command.type_tag(), handler).recorded(command.type_tag(), nanos).fallback_count
            == router.fallback_count,
{
    let after = with_handler(router, command.type_tag(), handler);
    let last = router.tags.len() as int;
    assert(after.tags[last] == command.type_tag());
    assert(after.tags.contains(command.type_tag()));
    let i = choose|i: int|
        0 <= i < after.tags.len() && #[trigger] after.tags[i] == command.type_tag() && after.handlers[i].answers(
            command,
            response,
        );
    if i < last {
        assert(router.tags[i] == command.type_tag());
        assert(router.tags.contains(command.type_tag()));
    }
}

/// A command whose type has no registered handler goes to the fallback
/// handler where one is set: it is answered by the fallback handler, under
/// the identifier `fallback`, and the fallback count grows by exactly one.
pub proof fn lemma_unregistered_type_falls_back<H: WorkflowCommandHandler, F: WorkflowCommandHandler>(
    router: RouterView<H, F>,
    fallback: F,
    command: WorkflowCommand,
    response: CommandResponse,
    id: Seq<char>,
    nanos: u64,
)
    requires
        !router.tags.contains(command.type_tag()),
        router.fallback == Some(fallback),
        router.dispatched(command, response, id),
    ensures
        fallback.answers(command, response),
        id == "fallback"@,
        router.recorded(command.type_tag(), nanos).fallback_count == router.fallback_count + 1,
        router.recorded(command.type_tag(), nanos).total_routed == router.total_routed + 1,
{
}

} // verus!
