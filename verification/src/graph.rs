//! The workflow graph: the steps of one workflow with their dependencies,
//! the workflow's status and its metadata.

use vstd::prelude::*;
use crate::error::WorkflowGraphError;
use crate::model::{fresh_uuid, steps_view, text_of, uuid_v4, PropertyMap, StepId, StepStatus, StepType, StepView, WorkflowId, WorkflowStatus, WorkflowStep};
use crate::reach::{acyclic, dependencies_named_once, dependencies_resolve, distinct_ids, drop_repeats, find_step, has_step, on_cycle, once_each, reachable_from, with_dependencies_once};
use crate::steps::StepList;
use crate::depth::{is_max_depth, longest_chain};
use crate::dot::dot_text;
use crate::interchange::{document_text, parse_document};
use crate::projection::{count_without_dependencies, count_without_dependents, dependency_count, dependency_edges, edges_of_step, joins_dependent_pair, lemma_dependency_edges_are_the_pairs, lemma_marker_edges_are_counted, node_of, nodes_view, projected_edges, projected_nodes, projection_of, step_node, ContextGraph, ContextGraphEdge, ContextGraphNode, ContextGraphView, EdgeKind, NodeId, WorkflowGraphStatistics};

verus! {

/// Descriptive data of a workflow graph.
#[derive(Clone, Debug)]
pub struct WorkflowGraphMetadata {
    pub name: String,
    pub description: String,
    pub tags: Vec<String>,
    pub properties: PropertyMap,
}

impl Default for WorkflowGraphMetadata {
    fn default() -> (metadata: Self)
        ensures
            metadata.name@ == "Untitled Workflow"@,
            metadata.description@.len() == 0,
            metadata.tags@.len() == 0,
            metadata.properties.entries@.len() == 0,
    {
        WorkflowGraphMetadata {
            name: "Untitled Workflow".to_owned(),
            description: String::new(),
            tags: Vec::new(),
            properties: PropertyMap::new(),
        }
    }
}

/// The state of a workflow aggregate as plain values: what a graph is built
/// from when the workflow already exists.
#[derive(Clone, Debug)]
pub struct WorkflowRecord {
    pub id: WorkflowId,
    pub name: String,
    pub description: String,
    pub status: WorkflowStatus,
    pub steps: Vec<WorkflowStep>,
    pub metadata: PropertyMap,
}

/// What a mutation of the graph gives notice of.
#[derive(Clone, Copy, Debug, PartialEq, Eq, Structural)]
pub enum GraphEvent {
    WorkflowCreated,
    StepAdded { step: StepId },
    DependencyAdded { step: StepId, depends_on: StepId },
    StepStatusChanged { step: StepId, status: StepStatus },
    WorkflowStarted,
    WorkflowCompleted,
}

/// The steps of one workflow with their dependencies, in the order in which
/// they were added, together with the workflow's status and metadata.
#[derive(Debug)]
pub struct WorkflowGraph {
    id: WorkflowId,
    status: WorkflowStatus,
    steps: StepList,
    context: PropertyMap,
    metadata: WorkflowGraphMetadata,
    events: Vec<GraphEvent>,
}

/// The mathematical content of a workflow graph.
pub ghost struct WorkflowGraphView {
    pub id: WorkflowId,
    pub status: WorkflowStatus,
    pub steps: Seq<StepView>,
    pub context: PropertyMap,
    pub name: Seq<char>,
    pub description: Seq<char>,
    pub tags: Seq<Seq<char>>,
    pub properties: PropertyMap,
    pub events: Seq<GraphEvent>,
}

/// The first of `deps`, from position `from` on, that names no step.
pub open spec fn first_unknown(steps: Seq<StepView>, deps: Seq<StepId>, from: int) -> Option<StepId>
    decreases deps.len() - from,
{
    if from < 0 || from >= deps.len() {
        None
    } else if !has_step(steps, deps[from]) {
        Some(deps[from])
    } else {
        first_unknown(steps, deps, from + 1)
    }
}

/// `first_unknown` finds nothing exactly when every dependency names a step.
pub proof fn lemma_first_unknown(steps: Seq<StepView>, deps: Seq<StepId>, from: int)
    requires
        0 <= from <= deps.len(),
    ensures
        first_unknown(steps, deps, from) is None <==> forall|k: int|
            from <= k < deps.len() ==> has_step(steps, #[trigger] deps[k]),
        first_unknown(steps, deps, from) matches Some(missing) ==> deps.contains(missing) && !has_step(
            steps,
            missing,
        ),
    decreases deps.len() - from,
{
    if from < deps.len() {
        lemma_first_unknown(steps, deps, from + 1);
        if !has_step(steps, deps[from]) {
            assert(deps.contains(deps[from]));
        }
    }
}

/// The step that `add_step` makes of its arguments: pending, and with each
/// dependency named once, where it stood first.
pub open spec fn new_step(
    id: StepId,
    name: Seq<char>,
    description: Seq<char>,
    step_type: StepType,
    config: PropertyMap,
    dependencies: Seq<StepId>,
    estimated_duration_minutes: Option<u32>,
    assigned_to: Option<Seq<char>>,
) -> StepView {
    StepView {
        id,
        name,
        description,
        step_type,
        status: StepStatus::Pending,
        dependencies: once_each(dependencies),
        estimated_duration_minutes,
        assigned_to,
        config,
    }
}


/// The step at position `i` is the first, in insertion order, that
/// transitively depends on itself.
pub open spec fn first_on_cycle(steps: Seq<StepView>, i: int) -> bool {
    &&& 0 <= i < steps.len()
    &&& on_cycle(steps, i)
    &&& forall|k: int| 0 <= k < i ==> !on_cycle(steps, k)
}

/// Dependency `k` of the step at position `i` names no step.
pub open spec fn dangling(steps: Seq<StepView>, i: int, k: int) -> bool {
    &&& 0 <= i < steps.len()
    &&& 0 <= k < steps[i].dependencies.len()
    &&& !has_step(steps, steps[i].dependencies[k])
}

/// Dependency `k` of the step at position `i` is the first, in insertion
/// order of the steps and in the order of their dependency lists, that names
/// no step.
pub open spec fn first_dangling(steps: Seq<StepView>, i: int, k: int) -> bool {
    &&& dangling(steps, i, k)
    &&& forall|i2: int, k2: int| (i2 < i || (i2 == i && k2 < k)) ==> !#[trigger] dangling(steps, i2, k2)
}

/// Some step with the identifier `dep` is completed.
pub open spec fn dependency_completed(steps: Seq<StepView>, dep: StepId) -> bool {
    exists|j: int| 0 <= j < steps.len() && #[trigger] steps[j].id == dep && steps[j].status == StepStatus::Completed
}

/// The step at position `i` can be run now: it awaits execution and every
/// one of its dependencies is completed.
pub open spec fn is_executable(steps: Seq<StepView>, i: int) -> bool {
    &&& 0 <= i < steps.len()
    &&& steps[i].status.awaits_execution()
    &&& forall|k: int|
        0 <= k < steps[i].dependencies.len() ==> dependency_completed(steps, #[trigger] steps[i].dependencies[k])
}

/// The identifiers of those among the first `upto` steps whose position
/// `keep` accepts, in insertion order.
pub open spec fn ids_where(steps: Seq<StepView>, keep: spec_fn(int) -> bool, upto: int) -> Seq<StepId>
    decreases upto,
{
    if upto <= 0 {
        Seq::empty()
    } else if keep(upto - 1) {
        ids_where(steps, keep, upto - 1).push(steps[upto - 1].id)
    } else {
        ids_where(steps, keep, upto - 1)
    }
}

/// `ids_where` holds an identifier exactly when a step that `keep` accepts
/// has it, and holds none twice where the steps' identifiers are distinct.
pub proof fn lemma_ids_where(steps: Seq<StepView>, keep: spec_fn(int) -> bool, upto: int)
    requires
        0 <= upto <= steps.len(),
    ensures
        forall|id: StepId|
            ids_where(steps, keep, upto).contains(id) <==> exists|i: int|
                0 <= i < upto && keep(i) && #[trigger] steps[i].id == id,
        distinct_ids(steps) ==> ids_where(steps, keep, upto).no_duplicates(),
    decreases upto,
{
    if upto > 0 {
        lemma_ids_where(steps, keep, upto - 1);
        let before = ids_where(steps, keep, upto - 1);
        let now = ids_where(steps, keep, upto);
        assert forall|id: StepId| now.contains(id) <==> exists|i: int|
            0 <= i < upto && keep(i) && #[trigger] steps[i].id == id by {
            if now.contains(id) {
                let at = choose|at: int| 0 <= at < now.len() && now[at] == id;
                if keep(upto - 1) && at == now.len() - 1 {
                    assert(steps[upto - 1].id == id);
                } else {
                    assert(before[at] == id);
                    assert(before.contains(id));
                }
            }
            if exists|i: int| 0 <= i < upto && keep(i) && #[trigger] steps[i].id == id {
                let i = choose|i: int| 0 <= i < upto && keep(i) && #[trigger] steps[i].id == id;
                if i == upto - 1 {
                    assert(now[now.len() - 1] == id);
                } else {
                    assert(before.contains(id));
                    let at = choose|at: int| 0 <= at < before.len() && before[at] == id;
                    assert(now[at] == id);
                }
            }
        }
        if distinct_ids(steps) && keep(upto - 1) {
            assert forall|a: int, b: int| 0 <= a < now.len() && 0 <= b < now.len() && a != b implies now[a] != now[b] by {
                if a == now.len() - 1 || b == now.len() - 1 {
                    let other = if a == now.len() - 1 { b } else { a };
                    assert(before[other] == now[other]);
                    assert(before.contains(now[other]));
                }
            }
        }
    }
}

/// The steps among the first `upto` of `steps` that are the first to bear
/// their identifier, each with the repeats dropped from its dependencies.
pub open spec fn first_of_each_id(steps: Seq<StepView>, upto: int) -> Seq<StepView>
    decreases upto,
{
    if upto <= 0 {
        Seq::empty()
    } else if has_step(first_of_each_id(steps, upto - 1), steps[upto - 1].id) {
        first_of_each_id(steps, upto - 1)
    } else {
        first_of_each_id(steps, upto - 1).push(with_dependencies_once(steps[upto - 1]))
    }
}

/// Every step is finished for good: completed or skipped.
pub open spec fn all_steps_done(steps: Seq<StepView>) -> bool {
    forall|i: int|
        0 <= i < steps.len() ==> (#[trigger] steps[i]).status == StepStatus::Completed || steps[i].status
            == StepStatus::Skipped
}

/// `tags` with `tag` appended, unless it is there already.
pub open spec fn with_tag(tags: Seq<Seq<char>>, tag: Seq<char>) -> Seq<Seq<char>> {
    if tags.contains(tag) {
        tags
    } else {
        tags.push(tag)
    }
}

impl View for WorkflowGraph {
    type V = WorkflowGraphView;

    closed spec fn view(&self) -> WorkflowGraphView {
        WorkflowGraphView {
            id: self.id,
            status: self.status,
            steps: self.steps@,
            context: self.context,
            name: self.metadata.name@,
            description: self.metadata.description@,
            tags: Seq::new(self.metadata.tags@.len(), |i: int| self.metadata.tags@[i]@),
            properties: self.metadata.properties,
            events: self.events@,
        }
    }
}

impl WorkflowGraph {
    /// An empty draft workflow with the given identifier.
    pub fn with_id(id: WorkflowId, name: String, description: String) -> (graph: Self)
        ensures
            graph@.id == id,
            graph@.status == WorkflowStatus::Draft,
            graph@.steps.len() == 0,
            graph@.name == name@,
            graph@.description == description@,
            graph@.tags.len() == 0,
            graph@.properties.entries@.len() == 0,
            graph@.context.entries@.len() == 0,
            graph@.events == seq![GraphEvent::WorkflowCreated],
    {
        let mut events: Vec<GraphEvent> = Vec::new();
        events.push(GraphEvent::WorkflowCreated);
        WorkflowGraph {
            id,
            status: WorkflowStatus::Draft,
            steps: StepList::new(),
            context: PropertyMap::new(),
            metadata: WorkflowGraphMetadata { name, description, tags: Vec::new(), properties: PropertyMap::new() },
            events,
        }
    }

    /// An empty draft workflow under a freshly drawn identifier. Fails where
    /// the operating system gives no random bytes to draw one from.
    pub fn new(name: String, description: String) -> (created: Result<Self, WorkflowGraphError>)
        ensures
            match created {
                Ok(graph) => {
                    &&& exists|random: u128| graph@.id == WorkflowId(#[trigger] uuid_v4(random))
                    &&& graph@.status == WorkflowStatus::Draft
                    &&& graph@.steps.len() == 0
                    &&& graph@.name == name@
                    &&& graph@.description == description@
                    &&& graph@.tags.len() == 0
                    &&& graph@.properties.entries@.len() == 0
                    &&& graph@.context.entries@.len() == 0
                    &&& graph@.events == seq![GraphEvent::WorkflowCreated]
                },
                Err(WorkflowGraphError::DomainError(reason)) => reason@ == "no random identifier available"@,
                Err(_) => false,
            },
    {
        match fresh_uuid() {
            Some(id) => {
                let graph = Self::with_id(WorkflowId(id), name, description);
                assert(graph@.id == WorkflowId(id));
                Ok(graph)
            },
            None => Err(WorkflowGraphError::DomainError("no random identifier available".to_owned())),
        }
    }

    /// The workflow's status.
    pub fn status(&self) -> (status: &WorkflowStatus)
        ensures
            *status == self@.status,
    {
        &self.status
    }

    /// The workflow's identifier.
    pub fn id(&self) -> (id: WorkflowId)
        ensures
            id == self@.id,
    {
        self.id
    }

    /// The workflow's name.
    pub fn name(&self) -> (name: &str)
        ensures
            name@ == self@.name,
    {
        self.metadata.name.as_str()
    }

    /// The workflow's description.
    pub fn description(&self) -> (description: &str)
        ensures
            description@ == self@.description,
    {
        self.metadata.description.as_str()
    }

    /// The context that the workflow was started with; empty before that.
    pub fn context(&self) -> (context: &PropertyMap)
        ensures
            *context == self@.context,
    {
        &self.context
    }

    /// The steps, in the order in which they were added.
    pub fn steps(&self) -> (steps: &Vec<WorkflowStep>)
        ensures
            steps_view(steps@) == self@.steps,
            distinct_ids(self@.steps),
            dependencies_named_once(self@.steps),
    {
        self.steps.items()
    }

    /// Whether some step has the identifier `id`.
    pub fn contains_step(&self, id: &StepId) -> (found: bool)
        ensures
            found == has_step(self@.steps, *id),
    {
        let at = find_step(self.steps.items(), *id);
        proof {
            if let Some(i) = at {
                assert(self@.steps[i as int].id == *id);
            }
        }
        at.is_some()
    }

    fn first_unknown_dependency(&self, dependencies: &Vec<StepId>) -> (missing: Option<StepId>)
        ensures
            missing == first_unknown(self@.steps, dependencies@, 0),
    {
        let mut d: usize = 0;
        while d < dependencies.len()
            invariant
                d <= dependencies.len(),
                first_unknown(self@.steps, dependencies@, 0) == first_unknown(self@.steps, dependencies@, d as int),
            decreases dependencies.len() - d,
        {
            if !self.contains_step(&dependencies[d]) {
                return Some(dependencies[d]);
            }
            d += 1;
        }
        None
    }

    /// Adds a step under the identifier `id`, with status `Pending`. A
    /// dependency that is named more than once is kept once.
    ///
    /// Every dependency must name a step of the graph, and `id` must be new
    /// to it; otherwise the graph stays as it is.
    pub fn add_step_with_id(
        &mut self,
        id: StepId,
        name: String,
        description: String,
        step_type: StepType,
        config: PropertyMap,
        dependencies: Vec<StepId>,
        estimated_duration_minutes: Option<u32>,
        assigned_to: Option<String>,
    ) -> (added: Result<StepId, WorkflowGraphError>)
        ensures
            added is Err ==> final(self)@ == old(self)@,
            added matches Err(WorkflowGraphError::InvalidDependency { .. }) <==> exists|k: int|
                0 <= k < dependencies@.len() && !has_step(old(self)@.steps, #[trigger] dependencies@[k]),
            match first_unknown(old(self)@.steps, dependencies@, 0) {
                Some(missing) => {
                    &&& added == Err::<StepId, WorkflowGraphError>(
                        WorkflowGraphError::InvalidDependency { dependent: None, missing },
                    )
                    &&& final(self)@ == old(self)@
                },
                None => if has_step(old(self)@.steps, id) {
                    &&& added matches Err(WorkflowGraphError::InvalidOperation(reason))
                    &&& reason@ == "step identifier already in use"@
                    &&& final(self)@ == old(self)@
                } else {
                    &&& added == Ok::<StepId, WorkflowGraphError>(id)
                    &&& final(self)@ == WorkflowGraphView {
                        steps: old(self)@.steps.push(
                            new_step(
                                id,
                                name@,
                                description@,
                                step_type,
                                config,
                                dependencies@,
                                estimated_duration_minutes,
                                text_of(assigned_to),
                            ),
                        ),
                        events: old(self)@.events.push(GraphEvent::StepAdded { step: id }),
                        ..old(self)@
                    }
                },
            },
    {
        proof {
            lemma_first_unknown(self@.steps, dependencies@, 0);
        }
        if let Some(missing) = self.first_unknown_dependency(&dependencies) {
            return Err(WorkflowGraphError::InvalidDependency { dependent: None, missing });
        }
        if self.contains_step(&id) {
            return Err(WorkflowGraphError::InvalidOperation("step identifier already in use".to_owned()));
        }
        let ghost before = self@;
        let step = WorkflowStep {
            id,
            name,
            description,
            step_type,
            status: StepStatus::Pending,
            dependencies: drop_repeats(&dependencies),
            estimated_duration_minutes,
            assigned_to,
            config,
        };
        self.steps.push(step);
        self.events.push(GraphEvent::StepAdded { step: id });
        proof {
            assert(self@.tags =~= before.tags);
        }
        Ok(id)
    }

    /// Adds a step under a freshly drawn identifier, with status `Pending`. A
    /// dependency that is named more than once is kept once.
    ///
    /// Fails with `InvalidDependency` exactly when some dependency names no
    /// step of the graph. Otherwise the step is added, unless no identifier
    /// can be drawn or the one drawn is already in use. Whenever it fails,
    /// the graph stays as it is.
    pub fn add_step(
        &mut self,
        name: String,
        description: String,
        step_type: StepType,
        config: PropertyMap,
        dependencies: Vec<StepId>,
        estimated_duration_minutes: Option<u32>,
        assigned_to: Option<String>,
    ) -> (added: Result<StepId, WorkflowGraphError>)
        ensures
            added is Err ==> final(self)@ == old(self)@,
            added matches Err(WorkflowGraphError::InvalidDependency { .. }) <==> exists|k: int|
                0 <= k < dependencies@.len() && !has_step(old(self)@.steps, #[trigger] dependencies@[k]),
            match first_unknown(old(self)@.steps, dependencies@, 0) {
                Some(missing) => {
                    &&& added == Err::<StepId, WorkflowGraphError>(
                        WorkflowGraphError::InvalidDependency { dependent: None, missing },
                    )
                    &&& final(self)@ == old(self)@
                },
                None => match added {
                    Ok(id) => {
                        &&& exists|random: u128| id == StepId(#[trigger] uuid_v4(random))
                        &&& !has_step(old(self)@.steps, id)
                        &&& final(self)@ == WorkflowGraphView {
                            steps: old(self)@.steps.push(
                                new_step(
                                    id,
                                    name@,
                                    description@,
                                    step_type,
                                    config,
                                    dependencies@,
                                    estimated_duration_minutes,
                                    text_of(assigned_to),
                                ),
                            ),
                            events: old(self)@.events.push(GraphEvent::StepAdded { step: id }),
                            ..old(self)@
                        }
                    },
                    Err(WorkflowGraphError::InvalidOperation(reason)) => {
                        &&& reason@ == "step identifier already in use"@
                        &&& final(self)@ == old(self)@
                    },
                    Err(WorkflowGraphError::DomainError(reason)) => {
                        &&& reason@ == "no random identifier available"@
                        &&& final(self)@ == old(self)@
                    },
                    Err(_) => false,
                },
            },
    {
        proof {
            lemma_first_unknown(self@.steps, dependencies@, 0);
        }
        if let Some(missing) = self.first_unknown_dependency(&dependencies) {
            return Err(WorkflowGraphError::InvalidDependency { dependent: None, missing });
        }
        let id = match fresh_uuid() {
            Some(id) => StepId(id),
            None => {
                return Err(WorkflowGraphError::DomainError("no random identifier available".to_owned()));
            },
        };
        self.add_step_with_id(
            id,
            name,
            description,
            step_type,
            config,
            dependencies,
            estimated_duration_minutes,
            assigned_to,
        )
    }
}

impl WorkflowGraph {
    /// Position of the first step that transitively depends on itself.
    fn first_cyclic_step(&self) -> (found: Option<usize>)
        ensures
            match found {
                Some(i) => first_on_cycle(self@.steps, i as int),
                None => acyclic(self@.steps),
            },
    {
        let steps = self.steps.items();
        let mut i: usize = 0;
        while i < steps.len()
            invariant
                i <= steps.len(),
                steps_view(steps@) == self@.steps,
                distinct_ids(self@.steps),
                forall|k: int| 0 <= k < i ==> !on_cycle(self@.steps, k),
            decreases steps.len() - i,
        {
            let marks = reachable_from(steps, i);
            if marks[i] {
                return Some(i);
            }
            i += 1;
        }
        None
    }

    /// Position of the first dependency that names no step.
    fn first_dangling_dependency(&self) -> (found: Option<(usize, usize)>)
        ensures
            match found {
                Some((i, k)) => first_dangling(self@.steps, i as int, k as int),
                None => dependencies_resolve(self@.steps),
            },
    {
        let steps = self.steps.items();
        let mut i: usize = 0;
        while i < steps.len()
            invariant
                i <= steps.len(),
                steps_view(steps@) == self@.steps,
                forall|i2: int, k2: int| i2 < i ==> !#[trigger] dangling(self@.steps, i2, k2),
            decreases steps.len() - i,
        {
            let deps = &steps[i].dependencies;
            let mut k: usize = 0;
            while k < deps.len()
                invariant
                    i < steps.len(),
                    k <= deps.len(),
                    deps@ == self@.steps[i as int].dependencies,
                    steps_view(steps@) == self@.steps,
                    forall|i2: int, k2: int|
                        (i2 < i || (i2 == i && k2 < k)) ==> !#[trigger] dangling(self@.steps, i2, k2),
                decreases deps.len() - k,
            {
                if !self.contains_step(&deps[k]) {
                    return Some((i, k));
                }
                k += 1;
            }
            i += 1;
        }
        assert forall|i2: int, k2: int|
            0 <= i2 < self@.steps.len() && 0 <= k2 < self@.steps[i2].dependencies.len() implies has_step(
            self@.steps,
            #[trigger] self@.steps[i2].dependencies[k2],
        ) by {
            assert(!dangling(self@.steps, i2, k2));
        }
        None
    }

    /// Whether some step transitively depends on itself.
    pub fn is_cyclic(&self) -> (cyclic: bool)
        ensures
            cyclic == !acyclic(self@.steps),
    {
        self.first_cyclic_step().is_some()
    }

    /// Checks the graph's two structural rules: no step may transitively
    /// depend on itself, and every dependency must name a step.
    ///
    /// Cycles are looked for first. The error names the first step, in
    /// insertion order, that lies on a cycle; where there is none, the first
    /// dependency that names no step.
    pub fn validate(&self) -> (checked: Result<(), WorkflowGraphError>)
        ensures
            checked is Ok <==> acyclic(self@.steps) && dependencies_resolve(self@.steps),
            match checked {
                Ok(()) => true,
                Err(WorkflowGraphError::CircularDependency { step }) => exists|i: int|
                    first_on_cycle(self@.steps, i) && #[trigger] self@.steps[i].id == step,
                Err(WorkflowGraphError::InvalidDependency { dependent, missing }) => acyclic(self@.steps)
                    && exists|i: int, k: int|
                    #[trigger] first_dangling(self@.steps, i, k) && dependent == Some(self@.steps[i].id) && missing
                        == self@.steps[i].dependencies[k],
                Err(_) => false,
            },
    {
        let steps = self.steps.items();
        if let Some(i) = self.first_cyclic_step() {
            assert(self@.steps[i as int].id == steps[i as int].id);
            return Err(WorkflowGraphError::CircularDependency { step: steps[i].id });
        }
        if let Some((i, k)) = self.first_dangling_dependency() {
            assert(first_dangling(self@.steps, i as int, k as int));
            assert(self@.steps[i as int].id == steps[i as int].id);
            assert(!has_step(self@.steps, self@.steps[i as int].dependencies[k as int]));
            return Err(
                WorkflowGraphError::InvalidDependency {
                    dependent: Some(steps[i].id),
                    missing: steps[i].dependencies[k],
                },
            );
        }
        Ok(())
    }

    /// Whether the step at position `at` can be run now.
    fn executable_at(&self, at: usize) -> (ready: bool)
        requires
            at < self@.steps.len(),
        ensures
            ready == is_executable(self@.steps, at as int),
    {
        let steps = self.steps.items();
        let ghost sv = self@.steps;
        let step = &steps[at];
        assert(step@ == sv[at as int]);
        if !(step.status == StepStatus::Pending || step.status == StepStatus::Ready) {
            return false;
        }
        let deps = &step.dependencies;
        let mut k: usize = 0;
        while k < deps.len()
            invariant
                k <= deps.len(),
                at < steps.len(),
                deps@ == sv[at as int].dependencies,
                sv == self@.steps,
                steps_view(steps@) == sv,
                distinct_ids(sv),
                forall|k2: int| 0 <= k2 < k ==> dependency_completed(sv, #[trigger] deps[k2]),
            decreases deps.len() - k,
        {
            let done = match find_step(steps, deps[k]) {
                Some(j) => {
                    assert(sv[j as int].id == deps[k as int]);
                    assert(sv[j as int].status == steps[j as int].status);
                    assert forall|j2: int| 0 <= j2 < sv.len() && #[trigger] sv[j2].id == deps[k as int] implies j2
                        == j by {
                        if j2 != j {
                            assert(sv[j2].id != sv[j as int].id);
                        }
                    }
                    steps[j].status == StepStatus::Completed
                },
                None => false,
            };
            if !done {
                assert(!dependency_completed(sv, deps[k as int]));
                assert(sv[at as int].dependencies[k as int] == deps[k as int]);
                return false;
            }
            k += 1;
        }
        true
    }

    /// The steps that can be run now, in insertion order: those that await
    /// execution and whose dependencies are all completed.
    pub fn get_executable_steps(&self) -> (ready: Vec<StepId>)
        ensures
            ready@ == ids_where(self@.steps, |i: int| is_executable(self@.steps, i), self@.steps.len() as int),
    {
        let steps = self.steps.items();
        let ghost sv = self@.steps;
        let ghost keep = |i: int| is_executable(sv, i);
        let mut ready: Vec<StepId> = Vec::new();
        let mut i: usize = 0;
        while i < steps.len()
            invariant
                i <= steps.len(),
                sv == self@.steps,
                steps_view(steps@) == sv,
                keep == (|i: int| is_executable(sv, i)),
                ready@ == ids_where(sv, keep, i as int),
            decreases steps.len() - i,
        {
            assert(sv[i as int].id == steps[i as int].id);
            if self.executable_at(i) {
                ready.push(steps[i].id);
            }
            i += 1;
        }
        ready
    }

    /// The steps whose status is `status`, in insertion order.
    pub fn find_steps_by_status(&self, status: StepStatus) -> (found: Vec<StepId>)
        ensures
            found@ == ids_where(
                self@.steps,
                |i: int| self@.steps[i].status == status,
                self@.steps.len() as int,
            ),
    {
        let steps = self.steps.items();
        let ghost sv = self@.steps;
        let ghost keep = |i: int| sv[i].status == status;
        let mut found: Vec<StepId> = Vec::new();
        let mut i: usize = 0;
        while i < steps.len()
            invariant
                i <= steps.len(),
                sv == self@.steps,
                steps_view(steps@) == sv,
                keep == (|i: int| sv[i].status == status),
                found@ == ids_where(sv, keep, i as int),
            decreases steps.len() - i,
        {
            assert(sv[i as int] == steps[i as int]@);
            if steps[i].status == status {
                found.push(steps[i].id);
            }
            i += 1;
        }
        found
    }

    /// The steps whose type is `step_type`, in insertion order.
    pub fn find_steps_by_type(&self, step_type: StepType) -> (found: Vec<StepId>)
        ensures
            found@ == ids_where(
                self@.steps,
                |i: int| self@.steps[i].step_type == step_type,
                self@.steps.len() as int,
            ),
    {
        let steps = self.steps.items();
        let ghost sv = self@.steps;
        let ghost keep = |i: int| sv[i].step_type == step_type;
        let mut found: Vec<StepId> = Vec::new();
        let mut i: usize = 0;
        while i < steps.len()
            invariant
                i <= steps.len(),
                sv == self@.steps,
                steps_view(steps@) == sv,
                keep == (|i: int| sv[i].step_type == step_type),
                found@ == ids_where(sv, keep, i as int),
            decreases steps.len() - i,
        {
            assert(sv[i as int] == steps[i as int]@);
            if steps[i].step_type == step_type {
                found.push(steps[i].id);
            }
            i += 1;
        }
        found
    }
}


impl WorkflowGraph {
    /// Builds the graph of a workflow that already exists.
    ///
    /// The steps are taken in the order given; of several steps with one
    /// identifier the first is kept, and a dependency that a step names more
    /// than once is kept once. Nothing else is checked here: see `validate`.
    pub fn from_workflow(workflow: WorkflowRecord) -> (graph: Self)
        ensures
            graph@.id == workflow.id,
            graph@.status == workflow.status,
            graph@.steps == first_of_each_id(steps_view(workflow.steps@), workflow.steps@.len() as int),
            graph@.name == workflow.name@,
            graph@.description == workflow.description@,
            graph@.tags.len() == 0,
            graph@.properties == workflow.metadata,
            graph@.context.entries@.len() == 0,
            graph@.events.len() == 0,
    {
        let ghost given = steps_view(workflow.steps@);
        let mut rest = workflow.steps;
        let mut steps = StepList::new();
        let ghost mut taken: int = 0;
        while rest.len() > 0
            invariant
                0 <= taken <= given.len(),
                taken + rest@.len() == given.len(),
                forall|k: int| 0 <= k < rest@.len() ==> (#[trigger] rest@[k])@ == given[taken + k],
                steps@ == first_of_each_id(given, taken),
            decreases rest.len(),
        {
            let mut step = rest.remove(0);
            assert(step@ == given[taken]);
            let once = drop_repeats(&step.dependencies);
            step.dependencies = once;
            assert(step@ == with_dependencies_once(given[taken]));
            let known = find_step(steps.items(), step.id);
            proof {
                if let Some(i) = known {
                    assert(steps@[i as int].id == step.id);
                }
                taken = taken + 1;
            }
            if known.is_none() {
                steps.push(step);
            }
        }
        WorkflowGraph {
            id: workflow.id,
            status: workflow.status,
            steps,
            context: PropertyMap::new(),
            metadata: WorkflowGraphMetadata {
                name: workflow.name,
                description: workflow.description,
                tags: Vec::new(),
                properties: workflow.metadata,
            },
            events: Vec::new(),
        }
    }

    /// The graph's descriptive data.
    pub fn metadata(&self) -> (metadata: &WorkflowGraphMetadata)
        ensures
            metadata.name@ == self@.name,
            metadata.description@ == self@.description,
            metadata.tags@.len() == self@.tags.len(),
            forall|i: int| 0 <= i < metadata.tags@.len() ==> (#[trigger] metadata.tags@[i])@ == self@.tags[i],
            metadata.properties == self@.properties,
    {
        &self.metadata
    }

    /// The step with the identifier `id`.
    pub fn step(&self, id: &StepId) -> (found: Option<&WorkflowStep>)
        ensures
            match found {
                Some(step) => step.id == *id && exists|i: int|
                    0 <= i < self@.steps.len() && #[trigger] self@.steps[i] == step@,
                None => !has_step(self@.steps, *id),
            },
    {
        let steps = self.steps.items();
        match find_step(steps, *id) {
            Some(i) => {
                assert(self@.steps[i as int] == steps[i as int]@);
                Some(&steps[i])
            },
            None => None,
        }
    }

    /// Hands out the notices of the mutations made since the last call, oldest
    /// first, and forgets them.
    pub fn take_events(&mut self) -> (events: Vec<GraphEvent>)
        ensures
            events@ == old(self)@.events,
            final(self)@ == (WorkflowGraphView { events: Seq::empty(), ..old(self)@ }),
    {
        let ghost before = self@;
        let mut events: Vec<GraphEvent> = Vec::new();
        core::mem::swap(&mut self.events, &mut events);
        proof {
            assert(self@.tags =~= before.tags);
            assert(self@.events =~= Seq::empty());
        }
        events
    }

    /// Records the status that the owning workflow's lifecycle has given to
    /// a step.
    pub fn set_step_status(&mut self, step: StepId, status: StepStatus) -> (set: Result<(), WorkflowGraphError>)
        ensures
            match set {
                Ok(()) => {
                    &&& has_step(old(self)@.steps, step)
                    &&& final(self)@ == WorkflowGraphView {
                        steps: Seq::new(
                            old(self)@.steps.len(),
                            |i: int|
                                if old(self)@.steps[i].id == step {
                                    StepView { status, ..old(self)@.steps[i] }
                                } else {
                                    old(self)@.steps[i]
                                },
                        ),
                        events: old(self)@.events.push(GraphEvent::StepStatusChanged { step, status }),
                        ..old(self)@
                    }
                },
                Err(WorkflowGraphError::StepNotFound { id }) => {
                    &&& !has_step(old(self)@.steps, step)
                    &&& id == step
                    &&& final(self)@ == old(self)@
                },
                Err(_) => false,
            },
    {
        let ghost before = self@;
        let found = find_step(self.steps.items(), step);
        match found {
            Some(at) => {
                assert(before.steps[at as int].id == step);
                self.steps.set_status(at, status);
                self.events.push(GraphEvent::StepStatusChanged { step, status });
                proof {
                    assert(self@.tags =~= before.tags);
                    assert forall|i: int| 0 <= i < before.steps.len() && i != at implies before.steps[i].id
                        != step by {
                        assert(before.steps[i].id != before.steps[at as int].id);
                    }
                    assert(self@.steps =~= Seq::new(
                        before.steps.len(),
                        |i: int|
                            if before.steps[i].id == step {
                                StepView { status, ..before.steps[i] }
                            } else {
                                before.steps[i]
                            },
                    ));
                }
                Ok(())
            },
            None => Err(WorkflowGraphError::StepNotFound { id: step }),
        }
    }

    /// Lets `step` depend on `depends_on` as well. Both must be steps of the
    /// graph. Whether the new edge closes a cycle is for `validate` to say.
    pub fn add_dependency(&mut self, step: StepId, depends_on: StepId) -> (added: Result<(), WorkflowGraphError>)
        ensures
            match added {
                Ok(()) => {
                    &&& has_step(old(self)@.steps, step)
                    &&& has_step(old(self)@.steps, depends_on)
                    &&& final(self)@ == WorkflowGraphView {
                        steps: Seq::new(
                            old(self)@.steps.len(),
                            |i: int|
                                if old(self)@.steps[i].id == step && !old(self)@.steps[i].dependencies.contains(
                                    depends_on,
                                ) {
                                    StepView {
                                        dependencies: old(self)@.steps[i].dependencies.push(depends_on),
                                        ..old(self)@.steps[i]
                                    }
                                } else {
                                    old(self)@.steps[i]
                                },
                        ),
                        events: old(self)@.events.push(GraphEvent::DependencyAdded { step, depends_on }),
                        ..old(self)@
                    }
                },
                Err(WorkflowGraphError::StepNotFound { id }) => {
                    &&& !has_step(old(self)@.steps, step)
                    &&& id == step
                    &&& final(self)@ == old(self)@
                },
                Err(WorkflowGraphError::InvalidDependency { dependent, missing }) => {
                    &&& has_step(old(self)@.steps, step)
                    &&& !has_step(old(self)@.steps, depends_on)
                    &&& dependent == Some(step)
                    &&& missing == depends_on
                    &&& final(self)@ == old(self)@
                },
                Err(_) => false,
            },
    {
        let ghost before = self@;
        let found = find_step(self.steps.items(), step);
        let at = match found {
            Some(at) => at,
            None => {
                return Err(WorkflowGraphError::StepNotFound { id: step });
            },
        };
        assert(before.steps[at as int].id == step);
        if !self.contains_step(&depends_on) {
            return Err(WorkflowGraphError::InvalidDependency { dependent: Some(step), missing: depends_on });
        }
        let mut present = false;
        let deps = &self.steps.items()[at].dependencies;
        let mut k: usize = 0;
        while k < deps.len()
            invariant
                k <= deps.len(),
                present == exists|k2: int| 0 <= k2 < k && deps@[k2] == depends_on,
            decreases deps.len() - k,
        {
            if deps[k] == depends_on {
                present = true;
            }
            k += 1;
        }
        assert(present == before.steps[at as int].dependencies.contains(depends_on));
        if !present {
            self.steps.add_dependency(at, depends_on);
        }
        self.events.push(GraphEvent::DependencyAdded { step, depends_on });
        proof {
            assert(self@.tags =~= before.tags);
            assert forall|i: int| 0 <= i < before.steps.len() && i != at implies before.steps[i].id != step by {
                assert(before.steps[i].id != before.steps[at as int].id);
            }
            assert(self@.steps =~= Seq::new(
                before.steps.len(),
                |i: int|
                    if before.steps[i].id == step && !before.steps[i].dependencies.contains(depends_on) {
                        StepView { dependencies: before.steps[i].dependencies.push(depends_on), ..before.steps[i] }
                    } else {
                        before.steps[i]
                    },
            ));
        }
        Ok(())
    }

    /// Starts a draft workflow with the given context.
    pub fn start(&mut self, context: PropertyMap) -> (started: Result<(), WorkflowGraphError>)
        ensures
            match started {
                Ok(()) => {
                    &&& old(self)@.status == WorkflowStatus::Draft
                    &&& final(self)@ == WorkflowGraphView {
                        status: WorkflowStatus::Running,
                        context,
                        events: old(self)@.events.push(GraphEvent::WorkflowStarted),
                        ..old(self)@
                    }
                },
                Err(WorkflowGraphError::InvalidOperation(reason)) => {
                    &&& old(self)@.status != WorkflowStatus::Draft
                    &&& reason@ == "workflow is not a draft"@
                    &&& final(self)@ == old(self)@
                },
                Err(_) => false,
            },
    {
        let ghost before = self@;
        if !(self.status == WorkflowStatus::Draft) {
            return Err(WorkflowGraphError::InvalidOperation("workflow is not a draft".to_owned()));
        }
        self.status = WorkflowStatus::Running;
        self.context = context;
        self.events.push(GraphEvent::WorkflowStarted);
        proof {
            assert(self@.tags =~= before.tags);
        }
        Ok(())
    }

    fn every_step_done(&self) -> (done: bool)
        ensures
            done == all_steps_done(self@.steps),
    {
        let steps = self.steps.items();
        let mut i: usize = 0;
        while i < steps.len()
            invariant
                i <= steps.len(),
                steps_view(steps@) == self@.steps,
                forall|k: int|
                    0 <= k < i ==> (#[trigger] self@.steps[k]).status == StepStatus::Completed
                        || self@.steps[k].status == StepStatus::Skipped,
            decreases steps.len() - i,
        {
            assert(self@.steps[i as int] == steps[i as int]@);
            if !(steps[i].status == StepStatus::Completed || steps[i].status == StepStatus::Skipped) {
                return false;
            }
            i += 1;
        }
        true
    }

    /// Completes a running workflow whose steps are all completed or skipped.
    pub fn complete(&mut self) -> (completed: Result<(), WorkflowGraphError>)
        ensures
            match completed {
                Ok(()) => {
                    &&& old(self)@.status == WorkflowStatus::Running
                    &&& all_steps_done(old(self)@.steps)
                    &&& final(self)@ == WorkflowGraphView {
                        status: WorkflowStatus::Completed,
                        events: old(self)@.events.push(GraphEvent::WorkflowCompleted),
                        ..old(self)@
                    }
                },
                Err(WorkflowGraphError::InvalidOperation(reason)) => {
                    &&& final(self)@ == old(self)@
                    &&& if old(self)@.status != WorkflowStatus::Running {
                        reason@ == "workflow is not running"@
                    } else {
                        !all_steps_done(old(self)@.steps) && reason@ == "workflow has unfinished steps"@
                    }
                },
                Err(_) => false,
            },
    {
        let ghost before = self@;
        if !(self.status == WorkflowStatus::Running) {
            return Err(WorkflowGraphError::InvalidOperation("workflow is not running".to_owned()));
        }
        if !self.every_step_done() {
            return Err(WorkflowGraphError::InvalidOperation("workflow has unfinished steps".to_owned()));
        }
        self.status = WorkflowStatus::Completed;
        self.events.push(GraphEvent::WorkflowCompleted);
        proof {
            assert(self@.tags =~= before.tags);
        }
        Ok(())
    }

    /// Adds a tag, unless the graph bears it already.
    pub fn add_tag(&mut self, tag: String)
        ensures
            final(self)@ == (WorkflowGraphView { tags: with_tag(old(self)@.tags, tag@), ..old(self)@ }),
    {
        let ghost before = self@;
        let mut i: usize = 0;
        while i < self.metadata.tags.len()
            invariant
                i <= self.metadata.tags.len(),
                self@ == before,
                forall|k: int| 0 <= k < i ==> before.tags[k] != tag@,
            decreases self.metadata.tags.len() - i,
        {
            if self.metadata.tags[i] == tag {
                assert(before.tags[i as int] == tag@);
                return ;
            }
            i += 1;
        }
        self.metadata.tags.push(tag);
        proof {
            assert(!before.tags.contains(tag@));
            assert(self@.tags =~= before.tags.push(tag@));
        }
    }

    /// Binds a metadata property, replacing what the key was bound to.
    pub fn set_property(&mut self, key: String, value: serde_json::Value)
        ensures
            final(self)@.properties.lookup(key@) == Some(value),
            forall|other: Seq<char>|
                other != key@ ==> final(self)@.properties.lookup(other) == old(self)@.properties.lookup(other),
            final(self)@ == (WorkflowGraphView { properties: final(self)@.properties, ..old(self)@ }),
    {
        let ghost before = self@;
        self.metadata.properties.insert(key, value);
        proof {
            assert(self@.tags =~= before.tags);
        }
    }

    /// The value that a metadata property is bound to.
    pub fn get_property(&self, key: &str) -> (value: Option<&serde_json::Value>)
        ensures
            match value {
                Some(v) => self@.properties.lookup(key@) == Some(*v),
                None => self@.properties.lookup(key@) is None,
            },
    {
        self.metadata.properties.get(key)
    }
}


impl WorkflowGraphView {
    /// The projection of the graph for presentation.
    pub open spec fn projection(self) -> ContextGraphView {
        projection_of(self.name, self.description, self.steps)
    }
}

impl WorkflowGraph {
    /// The projection of the graph for presentation, derived from the
    /// graph as it is now.
    pub fn context_graph(&self) -> (projection: ContextGraph)
        ensures
            projection@ == self@.projection(),
            distinct_ids(self@.steps),
            dependencies_named_once(self@.steps),
    {
        ContextGraph::from_steps(self.metadata.name.as_str(), self.metadata.description.as_str(), self.steps.items())
    }

    /// The nodes that show the steps, in insertion order.
    pub fn get_step_nodes(&self) -> (nodes: Vec<ContextGraphNode>)
        ensures
            nodes_view(nodes@) == Seq::new(self@.steps.len(), |i: int| step_node(self@.steps[i])),
    {
        let steps = self.steps.items();
        let mut nodes: Vec<ContextGraphNode> = Vec::new();
        let mut i: usize = 0;
        while i < steps.len()
            invariant
                i <= steps.len(),
                steps_view(steps@) == self@.steps,
                nodes@.len() == i,
                forall|k: int| 0 <= k < i ==> (#[trigger] nodes@[k])@ == step_node(self@.steps[k]),
            decreases steps.len() - i,
        {
            assert(steps@[i as int]@ == self@.steps[i as int]);
            nodes.push(node_of(&steps[i]));
            i += 1;
        }
        assert(nodes_view(nodes@) =~= Seq::new(self@.steps.len(), |i: int| step_node(self@.steps[i])));
        nodes
    }

    /// The dependency edges: exactly one for every pair of a step and a
    /// dependency that it names, step by step in insertion order.
    pub fn get_dependency_edges(&self) -> (edges: Vec<ContextGraphEdge>)
        ensures
            edges@ == dependency_edges(self@.steps, self@.steps.len() as int),
            distinct_ids(self@.steps),
            dependencies_named_once(self@.steps),
            edges@.no_duplicates(),
            edges@.len() == dependency_count(self@.steps, self@.steps.len() as int),
            forall|edge: ContextGraphEdge|
                edges@.contains(edge) <==> joins_dependent_pair(self@.steps, edge, self@.steps.len() as int),
    {
        proof {
            lemma_dependency_edges_are_the_pairs(self@.steps, self@.steps.len() as int);
        }
        let steps = self.steps.items();
        let ghost sv = self@.steps;
        let mut edges: Vec<ContextGraphEdge> = Vec::new();
        let mut i: usize = 0;
        while i < steps.len()
            invariant
                i <= steps.len(),
                sv == self@.steps,
                steps_view(steps@) == sv,
                edges@ == dependency_edges(sv, i as int),
            decreases steps.len() - i,
        {
            let step = &steps[i];
            assert(step@ == sv[i as int]);
            let ghost before = edges@;
            let mut k: usize = 0;
            while k < step.dependencies.len()
                invariant
                    k <= step.dependencies.len(),
                    i < sv.len(),
                    step@ == sv[i as int],
                    edges@ == before + edges_of_step(sv[i as int], k as int),
                decreases step.dependencies.len() - k,
            {
                edges.push(
                    ContextGraphEdge {
                        source: NodeId::Step(step.id),
                        target: NodeId::Step(step.dependencies[k]),
                        edge_type: EdgeKind::DependsOn,
                    },
                );
                assert(edges@ =~= before + edges_of_step(sv[i as int], k as int + 1));
                k += 1;
            }
            i += 1;
        }
        edges
    }

    /// The counts of the projection, the number of steps on the longest
    /// chain of dependencies, and whether some step transitively depends on
    /// itself. Where one does, no chain is the longest, and the depth is
    /// given as zero.
    ///
    /// The dependency edges are as many as the pairs of a step and a
    /// dependency that it names; the other edges are one for every step
    /// without dependencies and one for every step that no step depends on.
    pub fn statistics(&self) -> (statistics: WorkflowGraphStatistics)
        ensures
            distinct_ids(self@.steps),
            dependencies_named_once(self@.steps),
            statistics.total_nodes == self@.projection().nodes.len(),
            statistics.total_nodes == self@.steps.len() + 2,
            statistics.step_nodes == self@.steps.len(),
            statistics.total_edges == self@.projection().edges.len(),
            statistics.dependency_edges == dependency_edges(self@.steps, self@.steps.len() as int).len(),
            statistics.dependency_edges == dependency_count(self@.steps, self@.steps.len() as int),
            statistics.total_edges == statistics.dependency_edges + count_without_dependencies(
                self@.steps,
                self@.steps.len() as int,
            ) + count_without_dependents(self@.steps, self@.steps.len() as int),
            !statistics.is_cyclic && statistics.step_nodes > 0 ==> 1 <= statistics.max_depth
                <= statistics.step_nodes,
            statistics.is_cyclic == !acyclic(self@.steps),
            if statistics.is_cyclic {
                statistics.max_depth == 0
            } else {
                is_max_depth(self@.steps, statistics.max_depth as nat)
            },
    {
        let projection = self.context_graph();
        let steps = self.steps.items();
        let dependency_edges = self.get_dependency_edges().len();
        let is_cyclic = self.is_cyclic();
        let max_depth = if is_cyclic {
            0
        } else {
            longest_chain(steps)
        };
        proof {
            let shown = projected_nodes(self@.steps);
            assert(shown.len() == self@.steps.len() + 2);
            assert(projection@.nodes == shown);
            assert(projection.nodes@.len() == nodes_view(projection.nodes@).len());
            assert(projection@.edges == projected_edges(self@.steps));
            lemma_marker_edges_are_counted(self@.steps, self@.steps.len() as int);
        }
        WorkflowGraphStatistics {
            total_nodes: projection.nodes.len(),
            step_nodes: steps.len(),
            total_edges: projection.edges.len(),
            dependency_edges,
            max_depth,
            is_cyclic,
        }
    }

    /// The interchange text of the graph's projection.
    pub fn to_json(&self) -> (written: Result<String, WorkflowGraphError>)
        ensures
            written matches Ok(text) && text@ == document_text(self@.projection()),
            distinct_ids(self@.steps),
            dependencies_named_once(self@.steps),
    {
        Ok(self.context_graph().to_json())
    }

    /// Reads a projection from its interchange text.
    ///
    /// Succeeds on the text that `to_json` writes of a projection, and on no
    /// other.
    pub fn from_json(json: &str) -> (read: Result<ContextGraph, WorkflowGraphError>)
        ensures
            match read {
                Ok(graph) => parse_document(json@) == Some(graph@) && document_text(graph@) == json@,
                Err(WorkflowGraphError::SerializationError(reason)) => {
                    &&& parse_document(json@) is None
                    &&& forall|graph: ContextGraphView| #[trigger] document_text(graph) != json@
                    &&& reason@ == "text is not the interchange text of a projection"@
                },
                Err(_) => false,
            },
    {
        match ContextGraph::from_json(json) {
            Some(graph) => Ok(graph),
            None => Err(
                WorkflowGraphError::SerializationError("text is not the interchange text of a projection".to_owned()),
            ),
        }
    }

    /// The graph's projection as a diagram in the DOT language.
    pub fn to_dot(&self) -> (text: String)
        ensures
            text@ == dot_text(self@.projection()),
            distinct_ids(self@.steps),
            dependencies_named_once(self@.steps),
    {
        self.context_graph().to_dot()
    }
}

} // verus!
