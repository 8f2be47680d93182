//! The projection of a workflow graph for presentation: a node for every
//! step between a start and an end marker, and the edges among them.

use vstd::prelude::*;
use crate::model::{text_of, StepId, StepStatus, StepType, StepView, WorkflowStep};
use crate::reach::{dependencies_named_once, distinct_ids};

verus! {

/// What an edge begins or ends at.
#[derive(Clone, Copy, Debug, PartialEq, Eq, Structural, Hash)]
pub enum NodeId {
    Start,
    End,
    Step(StepId),
}

/// What an edge says of its two ends.
#[derive(Clone, Copy, Debug, PartialEq, Eq, Structural, Hash)]
pub enum EdgeKind {
    /// The source depends on the target: the target must be completed
    /// before the source can be run.
    DependsOn,
    /// The source comes before the target: from the start marker to a step
    /// without dependencies, and from a step without dependents to the end
    /// marker.
    Sequence,
}

/// What a node shows.
#[derive(Debug, PartialEq, Eq)]
pub enum ContextGraphNodeValue {
    Start,
    End,
    Step {
        name: String,
        description: String,
        step_type: StepType,
        status: StepStatus,
        estimated_duration_minutes: Option<u32>,
        assigned_to: Option<String>,
    },
}

/// The mathematical content of what a node shows.
pub ghost enum NodeValueView {
    Start,
    End,
    Step {
        name: Seq<char>,
        description: Seq<char>,
        step_type: StepType,
        status: StepStatus,
        estimated_duration_minutes: Option<u32>,
        assigned_to: Option<Seq<char>>,
    },
}

impl View for ContextGraphNodeValue {
    type V = NodeValueView;

    open spec fn view(&self) -> NodeValueView {
        match *self {
            ContextGraphNodeValue::Start => NodeValueView::Start,
            ContextGraphNodeValue::End => NodeValueView::End,
            ContextGraphNodeValue::Step {
                name,
                description,
                step_type,
                status,
                estimated_duration_minutes,
                assigned_to,
            } => NodeValueView::Step {
                name: name@,
                description: description@,
                step_type,
                status,
                estimated_duration_minutes,
                assigned_to: text_of(assigned_to),
            },
        }
    }
}

/// A node of the projection.
#[derive(Debug, PartialEq, Eq)]
pub struct ContextGraphNode {
    pub id: NodeId,
    pub value: ContextGraphNodeValue,
}

/// The mathematical content of a node.
pub ghost struct NodeView {
    pub id: NodeId,
    pub value: NodeValueView,
}

impl View for ContextGraphNode {
    type V = NodeView;

    open spec fn view(&self) -> NodeView {
        NodeView { id: self.id, value: self.value@ }
    }
}

/// An edge of the projection.
#[derive(Clone, Copy, Debug, PartialEq, Eq, Structural, Hash)]
pub struct ContextGraphEdge {
    pub source: NodeId,
    pub target: NodeId,
    pub edge_type: EdgeKind,
}

/// A workflow graph as it is shown: named, with its nodes and edges.
#[derive(Debug, PartialEq, Eq)]
pub struct ContextGraph {
    pub name: String,
    pub description: String,
    pub nodes: Vec<ContextGraphNode>,
    pub edges: Vec<ContextGraphEdge>,
}

/// The mathematical content of a projection.
pub ghost struct ContextGraphView {
    pub name: Seq<char>,
    pub description: Seq<char>,
    pub nodes: Seq<NodeView>,
    pub edges: Seq<ContextGraphEdge>,
}

/// The contents of a list of nodes.
pub open spec fn nodes_view(nodes: Seq<ContextGraphNode>) -> Seq<NodeView> {
    Seq::new(nodes.len(), |i: int| nodes[i]@)
}

impl View for ContextGraph {
    type V = ContextGraphView;

    open spec fn view(&self) -> ContextGraphView {
        ContextGraphView {
            name: self.name@,
            description: self.description@,
            nodes: nodes_view(self.nodes@),
            edges: self.edges@,
        }
    }
}

/// The node that shows a step.
pub open spec fn step_node(step: StepView) -> NodeView {
    NodeView {
        id: NodeId::Step(step.id),
        value: NodeValueView::Step {
            name: step.name,
            description: step.description,
            step_type: step.step_type,
            status: step.status,
            estimated_duration_minutes: step.estimated_duration_minutes,
            assigned_to: step.assigned_to,
        },
    }
}

/// The nodes of the projection: the start marker, the steps in insertion
/// order, the end marker.
pub open spec fn projected_nodes(steps: Seq<StepView>) -> Seq<NodeView> {
    seq![NodeView { id: NodeId::Start, value: NodeValueView::Start }] + Seq::new(
        steps.len(),
        |i: int| step_node(steps[i]),
    ) + seq![NodeView { id: NodeId::End, value: NodeValueView::End }]
}

/// The edge that says that `dependent` depends on `dependency`.
pub open spec fn dependency_edge(dependent: StepId, dependency: StepId) -> ContextGraphEdge {
    ContextGraphEdge {
        source: NodeId::Step(dependent),
        target: NodeId::Step(dependency),
        edge_type: EdgeKind::DependsOn,
    }
}

/// The edges from a step to the first `upto` of its dependencies.
pub open spec fn edges_of_step(step: StepView, upto: int) -> Seq<ContextGraphEdge>
    decreases upto,
{
    if upto <= 0 {
        Seq::empty()
    } else {
        edges_of_step(step, upto - 1).push(dependency_edge(step.id, step.dependencies[upto - 1]))
    }
}

/// `edge` says of one of the first `upto` steps that it depends on what it
/// names as a dependency.
pub open spec fn joins_dependent_pair(steps: Seq<StepView>, edge: ContextGraphEdge, upto: int) -> bool {
    exists|i: int, k: int|
        0 <= i < upto && 0 <= k < steps[i].dependencies.len() && edge == dependency_edge(
            steps[i].id,
            #[trigger] steps[i].dependencies[k],
        )
}

/// How many dependencies the first `upto` steps name, all together.
pub open spec fn dependency_count(steps: Seq<StepView>, upto: int) -> nat
    decreases upto,
{
    if upto <= 0 {
        0
    } else {
        dependency_count(steps, upto - 1) + steps[upto - 1].dependencies.len()
    }
}

/// How many of the first `upto` steps name no dependency.
pub open spec fn count_without_dependencies(steps: Seq<StepView>, upto: int) -> nat
    decreases upto,
{
    if upto <= 0 {
        0
    } else {
        count_without_dependencies(steps, upto - 1) + if steps[upto - 1].dependencies.len() == 0 {
            1nat
        } else {
            0nat
        }
    }
}

/// How many of the first `upto` steps no step depends on.
pub open spec fn count_without_dependents(steps: Seq<StepView>, upto: int) -> nat
    decreases upto,
{
    if upto <= 0 {
        0
    } else {
        count_without_dependents(steps, upto - 1) + if !has_dependent(steps, steps[upto - 1].id) {
            1nat
        } else {
            0nat
        }
    }
}

/// The dependency edges of the first `upto` steps: one for every dependency
/// that a step names, step by step.
pub open spec fn dependency_edges(steps: Seq<StepView>, upto: int) -> Seq<ContextGraphEdge>
    decreases upto,
{
    if upto <= 0 {
        Seq::empty()
    } else {
        dependency_edges(steps, upto - 1) + edges_of_step(
            steps[upto - 1],
            steps[upto - 1].dependencies.len() as int,
        )
    }
}

/// The edges from the start marker to those of the first `upto` steps that
/// name no dependency.
pub open spec fn start_edges(steps: Seq<StepView>, upto: int) -> Seq<ContextGraphEdge>
    decreases upto,
{
    if upto <= 0 {
        Seq::empty()
    } else if steps[upto - 1].dependencies.len() == 0 {
        start_edges(steps, upto - 1).push(
            ContextGraphEdge {
                source: NodeId::Start,
                target: NodeId::Step(steps[upto - 1].id),
                edge_type: EdgeKind::Sequence,
            },
        )
    } else {
        start_edges(steps, upto - 1)
    }
}

/// Some step names `id` as a dependency.
pub open spec fn has_dependent(steps: Seq<StepView>, id: StepId) -> bool {
    exists|j: int| 0 <= j < steps.len() && (#[trigger] steps[j]).dependencies.contains(id)
}

/// The edges to the end marker from those of the first `upto` steps that no
/// step depends on.
pub open spec fn end_edges(steps: Seq<StepView>, upto: int) -> Seq<ContextGraphEdge>
    decreases upto,
{
    if upto <= 0 {
        Seq::empty()
    } else if !has_dependent(steps, steps[upto - 1].id) {
        end_edges(steps, upto - 1).push(
            ContextGraphEdge {
                source: NodeId::Step(steps[upto - 1].id),
                target: NodeId::End,
                edge_type: EdgeKind::Sequence,
            },
        )
    } else {
        end_edges(steps, upto - 1)
    }
}

/// The edges of the projection: the dependency edges, then the edges from
/// the start marker, then the edges to the end marker.
pub open spec fn projected_edges(steps: Seq<StepView>) -> Seq<ContextGraphEdge> {
    dependency_edges(steps, steps.len() as int) + start_edges(steps, steps.len() as int) + end_edges(
        steps,
        steps.len() as int,
    )
}

/// The projection of the steps of a workflow with the given name and
/// description.
pub open spec fn projection_of(name: Seq<char>, description: Seq<char>, steps: Seq<StepView>) -> ContextGraphView {
    ContextGraphView { name, description, nodes: projected_nodes(steps), edges: projected_edges(steps) }
}

/// A copy of an optional text.
pub fn copy_optional_text(text: &Option<String>) -> (copy: Option<String>)
    ensures
        text_of(copy) == text_of(*text),
{
    match text {
        Some(t) => Some(t.clone()),
        None => None,
    }
}

/// The node that shows a step.
pub fn node_of(step: &WorkflowStep) -> (node: ContextGraphNode)
    ensures
        node@ == step_node(step@),
{
    ContextGraphNode {
        id: NodeId::Step(step.id),
        value: ContextGraphNodeValue::Step {
            name: step.name.clone(),
            description: step.description.clone(),
            step_type: step.step_type,
            status: step.status,
            estimated_duration_minutes: step.estimated_duration_minutes,
            assigned_to: copy_optional_text(&step.assigned_to),
        },
    }
}

fn names_as_dependency(steps: &Vec<WorkflowStep>, id: StepId) -> (named: bool)
    ensures
        named == has_dependent(crate::model::steps_view(steps@), id),
{
    let ghost sv = crate::model::steps_view(steps@);
    let mut j: usize = 0;
    while j < steps.len()
        invariant
            j <= steps.len(),
            sv == crate::model::steps_view(steps@),
            forall|j2: int| 0 <= j2 < j ==> !(#[trigger] sv[j2]).dependencies.contains(id),
        decreases steps.len() - j,
    {
        let deps = &steps[j].dependencies;
        let mut k: usize = 0;
        while k < deps.len()
            invariant
                j < steps.len(),
                k <= deps.len(),
                deps@ == sv[j as int].dependencies,
                sv == crate::model::steps_view(steps@),
                forall|k2: int| 0 <= k2 < k ==> deps@[k2] != id,
            decreases deps.len() - k,
        {
            if deps[k] == id {
                assert(sv[j as int].dependencies.contains(id));
                return true;
            }
            k += 1;
        }
        j += 1;
    }
    false
}

impl ContextGraph {
    /// Projects the steps of a workflow: a node for every step between the
    /// start and the end marker; an edge for every dependency that a step
    /// names; an edge from the start marker to every step without
    /// dependencies, and one to the end marker from every step that no step
    /// depends on.
    pub fn from_steps(name: &str, description: &str, steps: &Vec<WorkflowStep>) -> (graph: Self)
        ensures
            graph@ == projection_of(name@, description@, crate::model::steps_view(steps@)),
    {
        let ghost sv = crate::model::steps_view(steps@);
        let n = steps.len();
        let mut nodes: Vec<ContextGraphNode> = Vec::new();
        nodes.push(ContextGraphNode { id: NodeId::Start, value: ContextGraphNodeValue::Start });
        let mut edges: Vec<ContextGraphEdge> = Vec::new();
        let mut i: usize = 0;
        while i < n
            invariant
                i <= n,
                n == steps.len(),
                sv == crate::model::steps_view(steps@),
                nodes@.len() == i + 1,
                nodes@[0]@ == (NodeView { id: NodeId::Start, value: NodeValueView::Start }),
                forall|j: int| 1 <= j <= i ==> (#[trigger] nodes@[j])@ == step_node(sv[j - 1]),
                edges@ == dependency_edges(sv, i as int),
            decreases n - i,
        {
            let step = &steps[i];
            assert(step@ == sv[i as int]);
            nodes.push(node_of(step));
            let ghost before = edges@;
            let mut k: usize = 0;
            while k < step.dependencies.len()
                invariant
                    k <= step.dependencies.len(),
                    i < sv.len(),
                    step@ == sv[i as int],
                    edges@ == before + edges_of_step(sv[i as int], k as int),
                decreases step.dependencies.len() - k,
            {
                edges.push(
                    ContextGraphEdge {
                        source: NodeId::Step(step.id),
                        target: NodeId::Step(step.dependencies[k]),
                        edge_type: EdgeKind::DependsOn,
                    },
                );
                assert(edges@ =~= before + edges_of_step(sv[i as int], k as int + 1));
                k += 1;
            }
            i += 1;
        }
        nodes.push(ContextGraphNode { id: NodeId::End, value: ContextGraphNodeValue::End });
        let ghost deps_done = edges@;
        let mut i: usize = 0;
        while i < n
            invariant
                i <= n,
                n == steps.len(),
                sv == crate::model::steps_view(steps@),
                edges@ == deps_done + start_edges(sv, i as int),
            decreases n - i,
        {
            assert(steps[i as int]@ == sv[i as int]);
            if steps[i].dependencies.len() == 0 {
                edges.push(
                    ContextGraphEdge {
                        source: NodeId::Start,
                        target: NodeId::Step(steps[i].id),
                        edge_type: EdgeKind::Sequence,
                    },
                );
            }
            assert(edges@ =~= deps_done + start_edges(sv, i as int + 1));
            i += 1;
        }
        let ghost starts_done = edges@;
        let mut i: usize = 0;
        while i < n
            invariant
                i <= n,
                n == steps.len(),
                sv == crate::model::steps_view(steps@),
                edges@ == starts_done + end_edges(sv, i as int),
            decreases n - i,
        {
            assert(steps[i as int]@ == sv[i as int]);
            if !names_as_dependency(steps, steps[i].id) {
                edges.push(
                    ContextGraphEdge {
                        source: NodeId::Step(steps[i].id),
                        target: NodeId::End,
                        edge_type: EdgeKind::Sequence,
                    },
                );
            }
            assert(edges@ =~= starts_done + end_edges(sv, i as int + 1));
            i += 1;
        }
        let graph = ContextGraph { name: name.to_owned(), description: description.to_owned(), nodes, edges };
        proof {
            assert(graph@.nodes =~= projected_nodes(sv));
            assert(graph@.edges =~= projected_edges(sv));
        }
        graph
    }

    /// The nodes that show steps, in order.
    pub fn get_step_nodes(&self) -> (found: Vec<&ContextGraphNode>)
        ensures
            Seq::new(found@.len(), |i: int| found@[i]@) == self@.nodes.filter(
                |node: NodeView| node.value is Step,
            ),
    {
        let ghost keep = |node: NodeView| node.value is Step;
        let ghost all = self@.nodes;
        let mut found: Vec<&ContextGraphNode> = Vec::new();
        let mut i: usize = 0;
        proof {
            reveal(Seq::filter);
            assert(all.take(0) =~= Seq::empty());
            assert(Seq::new(found@.len(), |i: int| found@[i]@) =~= all.take(0).filter(keep));
        }
        while i < self.nodes.len()
            invariant
                i <= self.nodes.len(),
                all == self@.nodes,
                keep == (|node: NodeView| node.value is Step),
                Seq::new(found@.len(), |i: int| found@[i]@) == all.take(i as int).filter(keep),
            decreases self.nodes.len() - i,
        {
            let node = &self.nodes[i];
            let ghost before = Seq::new(found@.len(), |i: int| found@[i]@);
            proof {
                reveal(Seq::filter);
                assert(all[i as int] == node@);
                assert(all.take(i as int + 1).drop_last() =~= all.take(i as int));
                assert(all.take(i as int + 1).last() == node@);
            }
            let is_step = match node.value {
                ContextGraphNodeValue::Step { .. } => true,
                _ => false,
            };
            if is_step {
                found.push(node);
                assert(Seq::new(found@.len(), |i: int| found@[i]@) =~= before.push(node@));
            }
            i += 1;
        }
        assert(all.take(all.len() as int) =~= all);
        found
    }

    /// The edges that stand for dependencies, in order.
    pub fn get_dependency_edges(&self) -> (found: Vec<&ContextGraphEdge>)
        ensures
            Seq::new(found@.len(), |i: int| *found@[i]) == self@.edges.filter(
                |edge: ContextGraphEdge| edge.edge_type == EdgeKind::DependsOn,
            ),
    {
        let ghost keep = |edge: ContextGraphEdge| edge.edge_type == EdgeKind::DependsOn;
        let ghost all = self@.edges;
        let mut found: Vec<&ContextGraphEdge> = Vec::new();
        let mut i: usize = 0;
        proof {
            reveal(Seq::filter);
            assert(all.take(0) =~= Seq::empty());
            assert(Seq::new(found@.len(), |i: int| *found@[i]) =~= all.take(0).filter(keep));
        }
        while i < self.edges.len()
            invariant
                i <= self.edges.len(),
                all == self@.edges,
                keep == (|edge: ContextGraphEdge| edge.edge_type == EdgeKind::DependsOn),
                Seq::new(found@.len(), |i: int| *found@[i]) == all.take(i as int).filter(keep),
            decreases self.edges.len() - i,
        {
            let edge = &self.edges[i];
            let ghost before = Seq::new(found@.len(), |i: int| *found@[i]);
            proof {
                reveal(Seq::filter);
                assert(all.take(i as int + 1).drop_last() =~= all.take(i as int));
                assert(all.take(i as int + 1).last() == *edge);
            }
            if edge.edge_type == EdgeKind::DependsOn {
                found.push(edge);
                assert(Seq::new(found@.len(), |i: int| *found@[i]) =~= before.push(*edge));
            }
            i += 1;
        }
        assert(all.take(all.len() as int) =~= all);
        found
    }
}


/// What a projection counts, how deep it is, and whether it has a cycle.
#[derive(Clone, Copy, Debug, PartialEq, Eq, Structural)]
pub struct WorkflowGraphStatistics {
    pub total_nodes: usize,
    pub step_nodes: usize,
    pub total_edges: usize,
    pub dependency_edges: usize,
    pub max_depth: usize,
    pub is_cyclic: bool,
}


/// The edges of a step: one for each of its dependencies, in their order.
pub proof fn lemma_edges_of_step(step: StepView, upto: int)
    requires
        0 <= upto <= step.dependencies.len(),
    ensures
        edges_of_step(step, upto).len() == upto,
        forall|k: int|
            0 <= k < upto ==> #[trigger] edges_of_step(step, upto)[k] == dependency_edge(
                step.id,
                step.dependencies[k],
            ),
    decreases upto,
{
    if upto > 0 {
        lemma_edges_of_step(step, upto - 1);
    }
}

/// The dependency edges are one for every pair of a step and a dependency
/// that it names: as many as the steps name dependencies, an edge for every
/// such pair and for nothing else, and where the steps' identifiers are
/// distinct and no step names a dependency twice, no edge twice.
pub proof fn lemma_dependency_edges_are_the_pairs(steps: Seq<StepView>, upto: int)
    requires
        0 <= upto <= steps.len(),
    ensures
        dependency_edges(steps, upto).len() == dependency_count(steps, upto),
        forall|edge: ContextGraphEdge|
            dependency_edges(steps, upto).contains(edge) <==> joins_dependent_pair(steps, edge, upto),
        distinct_ids(steps) && dependencies_named_once(steps) ==> dependency_edges(steps, upto).no_duplicates(),
    decreases upto,
{
    if upto > 0 {
        lemma_dependency_edges_are_the_pairs(steps, upto - 1);
        let step = steps[upto - 1];
        let count = step.dependencies.len() as int;
        lemma_edges_of_step(step, count);
        let before = dependency_edges(steps, upto - 1);
        let here = edges_of_step(step, count);
        let now = dependency_edges(steps, upto);
        assert(now == before + here);
        assert forall|edge: ContextGraphEdge| now.contains(edge) <==> joins_dependent_pair(steps, edge, upto) by {
            if now.contains(edge) {
                let at = choose|at: int| 0 <= at < now.len() && now[at] == edge;
                if at < before.len() {
                    assert(before[at] == edge);
                    assert(before.contains(edge));
                    assert(joins_dependent_pair(steps, edge, upto - 1));
                    let (i, k) = choose|i: int, k: int|
                        0 <= i < upto - 1 && 0 <= k < steps[i].dependencies.len() && edge == dependency_edge(
                            steps[i].id,
                            #[trigger] steps[i].dependencies[k],
                        );
                    assert(edge == dependency_edge(steps[i].id, steps[i].dependencies[k]));
                } else {
                    let k = at - before.len();
                    assert(here[k] == edge);
                    assert(edge == dependency_edge(steps[upto - 1].id, steps[upto - 1].dependencies[k]));
                }
            }
            if joins_dependent_pair(steps, edge, upto) {
                let (i, k) = choose|i: int, k: int|
                    0 <= i < upto && 0 <= k < steps[i].dependencies.len() && edge == dependency_edge(
                        steps[i].id,
                        #[trigger] steps[i].dependencies[k],
                    );
                if i < upto - 1 {
                    assert(edge == dependency_edge(steps[i].id, steps[i].dependencies[k]));
                    assert(joins_dependent_pair(steps, edge, upto - 1));
                    assert(before.contains(edge));
                    let at = choose|at: int| 0 <= at < before.len() && before[at] == edge;
                    assert(now[at] == edge);
                } else {
                    assert(here[k] == edge);
                    assert(now[before.len() + k] == edge);
                }
            }
        }
        if distinct_ids(steps) && dependencies_named_once(steps) {
            assert forall|a: int, b: int| 0 <= a < now.len() && 0 <= b < now.len() && a != b implies now[a] != now[b] by {
                let n = before.len() as int;
                if a < n && b < n {
                    assert(before[a] == now[a] && before[b] == now[b]);
                } else if a >= n && b >= n {
                    assert(here[a - n] == now[a] && here[b - n] == now[b]);
                    assert(step.dependencies.no_duplicates());
                    assert(step.dependencies[a - n] != step.dependencies[b - n]);
                } else {
                    let low = if a < n { a } else { b };
                    let high = if a < n { b } else { a };
                    assert(before[low] == now[low]);
                    assert(before.contains(now[low]));
                    assert(joins_dependent_pair(steps, now[low], upto - 1));
                    let (i, k) = choose|i: int, k: int|
                        0 <= i < upto - 1 && 0 <= k < steps[i].dependencies.len() && now[low] == dependency_edge(
                            steps[i].id,
                            #[trigger] steps[i].dependencies[k],
                        );
                    assert(here[high - n] == now[high]);
                    assert(steps[i].id != steps[upto - 1].id);
                }
            }
        }
    }
}

/// The edges from the start marker are as many as the steps without
/// dependencies, and the edges to the end marker as many as the steps that
/// no step depends on.
pub proof fn lemma_marker_edges_are_counted(steps: Seq<StepView>, upto: int)
    requires
        0 <= upto <= steps.len(),
    ensures
        start_edges(steps, upto).len() == count_without_dependencies(steps, upto),
        end_edges(steps, upto).len() == count_without_dependents(steps, upto),
    decreases upto,
{
    if upto > 0 {
        lemma_marker_edges_are_counted(steps, upto - 1);
    }
}

} // verus!
