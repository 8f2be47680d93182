//! Dependency edges, paths and reachability over a list of steps, and the
//! search that computes what a step reaches.

use vstd::prelude::*;
use crate::model::{steps_view, StepId, StepView, WorkflowStep};

verus! {

/// No two steps share an identifier.
pub open spec fn distinct_ids(steps: Seq<StepView>) -> bool {
    forall|i: int, j: int| 0 <= i < j < steps.len() ==> steps[i].id != steps[j].id
}

/// Some step has the identifier `id`.
pub open spec fn has_step(steps: Seq<StepView>, id: StepId) -> bool {
    exists|i: int| 0 <= i < steps.len() && #[trigger] steps[i].id == id
}

/// The step at position `i` names the step at position `j` as a dependency.
pub open spec fn dep_edge(steps: Seq<StepView>, i: int, j: int) -> bool {
    &&& 0 <= i < steps.len()
    &&& 0 <= j < steps.len()
    &&& steps[i].dependencies.contains(steps[j].id)
}

/// `path` walks along dependency edges, through at least one of them.
pub open spec fn is_path(steps: Seq<StepView>, path: Seq<int>) -> bool {
    &&& path.len() >= 2
    &&& forall|k: int| 0 <= k < path.len() - 1 ==> dep_edge(steps, #[trigger] path[k], path[k + 1])
}

/// The step at `to` can be reached from the step at `from` by following one
/// or more dependency edges.
pub open spec fn reaches(steps: Seq<StepView>, from: int, to: int) -> bool {
    exists|path: Seq<int>| #[trigger] is_path(steps, path) && path[0] == from && path.last() == to
}

/// The step at position `i` transitively depends on itself.
pub open spec fn on_cycle(steps: Seq<StepView>, i: int) -> bool {
    reaches(steps, i, i)
}

/// No step transitively depends on itself.
pub open spec fn acyclic(steps: Seq<StepView>) -> bool {
    forall|i: int| 0 <= i < steps.len() ==> !on_cycle(steps, i)
}

/// Every dependency that a step names is a step of the list.
pub open spec fn dependencies_resolve(steps: Seq<StepView>) -> bool {
    forall|i: int, k: int|
        0 <= i < steps.len() && 0 <= k < steps[i].dependencies.len() ==> has_step(
            steps,
            #[trigger] steps[i].dependencies[k],
        )
}

/// No step names an identifier twice among its dependencies.
pub open spec fn dependencies_named_once(steps: Seq<StepView>) -> bool {
    forall|i: int| 0 <= i < steps.len() ==> (#[trigger] steps[i]).dependencies.no_duplicates()
}

/// The first `upto` of `ids` in their order, each identifier kept where it
/// stands first and dropped where it stands again.
pub open spec fn without_repeats(ids: Seq<StepId>, upto: int) -> Seq<StepId>
    decreases upto,
{
    if upto <= 0 {
        Seq::empty()
    } else if without_repeats(ids, upto - 1).contains(ids[upto - 1]) {
        without_repeats(ids, upto - 1)
    } else {
        without_repeats(ids, upto - 1).push(ids[upto - 1])
    }
}

/// A list without its repeats.
pub open spec fn once_each(ids: Seq<StepId>) -> Seq<StepId> {
    without_repeats(ids, ids.len() as int)
}

/// A step with the repeats dropped from its dependencies.
pub open spec fn with_dependencies_once(step: StepView) -> StepView {
    StepView { dependencies: once_each(step.dependencies), ..step }
}

/// A list without its repeats names what the list names, each identifier
/// once; a list that has no repeats stays as it is.
pub proof fn lemma_without_repeats(ids: Seq<StepId>, upto: int)
    requires
        0 <= upto <= ids.len(),
    ensures
        without_repeats(ids, upto).no_duplicates(),
        without_repeats(ids, upto).len() <= upto,
        forall|id: StepId|
            without_repeats(ids, upto).contains(id) <==> exists|k: int| 0 <= k < upto && #[trigger] ids[k] == id,
        ids.no_duplicates() ==> without_repeats(ids, upto) == ids.take(upto),
    decreases upto,
{
    if upto > 0 {
        lemma_without_repeats(ids, upto - 1);
        let before = without_repeats(ids, upto - 1);
        let now = without_repeats(ids, upto);
        let last = ids[upto - 1];
        assert forall|id: StepId| now.contains(id) <==> exists|k: int| 0 <= k < upto && #[trigger] ids[k] == id by {
            if now.contains(id) {
                let at = choose|at: int| 0 <= at < now.len() && now[at] == id;
                if at < before.len() {
                    assert(before[at] == id);
                    assert(before.contains(id));
                    let k = choose|k: int| 0 <= k < upto - 1 && #[trigger] ids[k] == id;
                    assert(ids[k] == id);
                } else {
                    assert(ids[upto - 1] == id);
                }
            }
            if exists|k: int| 0 <= k < upto && #[trigger] ids[k] == id {
                let k = choose|k: int| 0 <= k < upto && #[trigger] ids[k] == id;
                if k < upto - 1 {
                    assert(before.contains(id));
                    let at = choose|at: int| 0 <= at < before.len() && before[at] == id;
                    assert(now[at] == id);
                } else if before.contains(last) {
                } else {
                    assert(now[now.len() - 1] == id);
                }
            }
        }
        if !before.contains(last) {
            assert forall|a: int, b: int| 0 <= a < now.len() && 0 <= b < now.len() && a != b implies now[a] != now[b] by {
                if a == now.len() - 1 {
                    assert(before[b] == now[b]);
                    assert(before.contains(now[b]));
                } else if b == now.len() - 1 {
                    assert(before[a] == now[a]);
                    assert(before.contains(now[a]));
                }
            }
        }
        if ids.no_duplicates() {
            assert(!before.contains(last)) by {
                if before.contains(last) {
                    let k = choose|k: int| 0 <= k < upto - 1 && #[trigger] ids[k] == last;
                    assert(ids[k] == ids[upto - 1]);
                }
            }
            assert(now =~= ids.take(upto));
        }
    } else {
        assert(without_repeats(ids, upto) =~= ids.take(upto));
    }
}

/// One edge is a path.
pub proof fn lemma_edge_reaches(steps: Seq<StepView>, i: int, j: int)
    requires
        dep_edge(steps, i, j),
    ensures
        reaches(steps, i, j),
{
    let path = seq![i, j];
    assert(is_path(steps, path));
    assert(path[0] == i && path.last() == j);
}

/// A path followed by an edge is a path.
pub proof fn lemma_reaches_then_edge(steps: Seq<StepView>, from: int, via: int, to: int)
    requires
        reaches(steps, from, via),
        dep_edge(steps, via, to),
    ensures
        reaches(steps, from, to),
{
    let path = choose|path: Seq<int>| #[trigger] is_path(steps, path) && path[0] == from && path.last() == via;
    let longer = path.push(to);
    assert forall|k: int| 0 <= k < longer.len() - 1 implies dep_edge(steps, #[trigger] longer[k], longer[k + 1]) by {
        if k < path.len() - 1 {
            assert(longer[k] == path[k]);
            assert(longer[k + 1] == path[k + 1]);
        }
    }
    assert(is_path(steps, longer));
    assert(longer[0] == from && longer.last() == to);
}

/// A set of positions that holds every direct dependency of `from`, and with
/// a position every direct dependency of it, holds all that `from` reaches.
pub proof fn lemma_closed_set_holds_reachable(steps: Seq<StepView>, from: int, marks: Seq<bool>, to: int)
    requires
        marks.len() == steps.len(),
        forall|i: int, j: int| (i == from || (0 <= i < marks.len() && marks[i])) && #[trigger] dep_edge(steps, i, j) ==> marks[j],
        reaches(steps, from, to),
    ensures
        0 <= to < marks.len(),
        marks[to],
{
    let path = choose|path: Seq<int>| #[trigger] is_path(steps, path) && path[0] == from && path.last() == to;
    lemma_marked_along(steps, from, marks, path, path.len() - 1);
}

proof fn lemma_marked_along(steps: Seq<StepView>, from: int, marks: Seq<bool>, path: Seq<int>, k: int)
    requires
        marks.len() == steps.len(),
        forall|i: int, j: int| (i == from || (0 <= i < marks.len() && marks[i])) && #[trigger] dep_edge(steps, i, j) ==> marks[j],
        is_path(steps, path),
        path[0] == from,
        1 <= k < path.len(),
    ensures
        0 <= path[k] < marks.len(),
        marks[path[k]],
    decreases k,
{
    if k > 1 {
        lemma_marked_along(steps, from, marks, path, k - 1);
    }
    assert(dep_edge(steps, path[k - 1], path[k - 1 + 1]));
}

/// Adding a step keeps the rules of the graph: where every dependency names
/// a step and no step depends on itself, the same holds after a step was
/// added whose identifier is new and whose dependencies all name steps.
pub proof fn lemma_added_step_keeps_rules(steps: Seq<StepView>, added: StepView)
    requires
        distinct_ids(steps),
        dependencies_resolve(steps),
        acyclic(steps),
        !has_step(steps, added.id),
        forall|k: int| 0 <= k < added.dependencies.len() ==> has_step(steps, #[trigger] added.dependencies[k]),
    ensures
        distinct_ids(steps.push(added)),
        dependencies_resolve(steps.push(added)),
        acyclic(steps.push(added)),
{
    let grown = steps.push(added);
    let n = steps.len() as int;
    assert forall|i: int, j: int| 0 <= i < j < grown.len() implies grown[i].id != grown[j].id by {
        if j == n {
            assert(steps[i].id != added.id);
        }
    }
    assert forall|id: StepId| has_step(steps, id) implies has_step(grown, id) by {
        let i = choose|i: int| 0 <= i < steps.len() && #[trigger] steps[i].id == id;
        assert(grown[i].id == id);
    }
    assert forall|i: int, k: int| 0 <= i < grown.len() && 0 <= k < grown[i].dependencies.len() implies has_step(
        grown,
        #[trigger] grown[i].dependencies[k],
    ) by {
        if i < n {
            assert(has_step(steps, steps[i].dependencies[k]));
        } else {
            assert(has_step(steps, added.dependencies[k]));
        }
    }
    assert forall|i: int| 0 <= i < grown.len() implies !on_cycle(grown, i) by {
        if on_cycle(grown, i) {
            let path = choose|path: Seq<int>| #[trigger] is_path(grown, path) && path[0] == i && path.last() == i;
            let last = path.len() - 1;
            if exists|k: int| 0 <= k < path.len() && path[k] == n {
                let found = choose|k: int| 0 <= k < path.len() && path[k] == n;
                let k = if found == 0 {
                    last
                } else {
                    found
                };
                assert(path[k] == n);
                assert(1 <= k < path.len());
                assert(dep_edge(grown, path[k - 1], path[k - 1 + 1]));
                let before = path[k - 1];
                assert(grown[n].id == added.id);
                assert(grown[before].dependencies.contains(added.id));
                let t = choose|t: int|
                    0 <= t < grown[before].dependencies.len() && grown[before].dependencies[t] == added.id;
                if before == n {
                    assert(grown[before] == added);
                    assert(has_step(steps, added.dependencies[t]));
                } else {
                    assert(grown[before] == steps[before]);
                    assert(has_step(steps, steps[before].dependencies[t]));
                }
                assert(has_step(steps, added.id));
                assert(false);
            } else {
                assert forall|k: int| 0 <= k < path.len() implies 0 <= #[trigger] path[k] < n by {
                    if k < path.len() - 1 {
                        assert(dep_edge(grown, path[k], path[k + 1]));
                    } else {
                        assert(dep_edge(grown, path[k - 1], path[k - 1 + 1]));
                    }
                }
                assert forall|k: int| 0 <= k < path.len() - 1 implies dep_edge(steps, #[trigger] path[k], path[k + 1]) by {
                    assert(dep_edge(grown, path[k], path[k + 1]));
                    assert(0 <= path[k] < n);
                    assert(0 <= path[k + 1] < n);
                    assert(grown[path[k]] == steps[path[k]]);
                    assert(grown[path[k + 1]] == steps[path[k + 1]]);
                }
                assert(is_path(steps, path));
                assert(reaches(steps, i, i));
                assert(0 <= path[0] < n);
                assert(on_cycle(steps, i));
                assert(false);
            }
        }
    }
}

/// How many entries of `marks` are still unset.
spec fn unmarked(marks: Seq<bool>) -> nat
    decreases marks.len(),
{
    if marks.len() == 0 {
        0
    } else {
        unmarked(marks.drop_last()) + if marks.last() { 0nat } else { 1nat }
    }
}

proof fn lemma_mark_one(marks: Seq<bool>, at: int)
    requires
        0 <= at < marks.len(),
        !marks[at],
    ensures
        unmarked(marks.update(at, true)) + 1 == unmarked(marks),
    decreases marks.len(),
{
    let after = marks.update(at, true);
    if at == marks.len() - 1 {
        assert(after.drop_last() =~= marks.drop_last());
    } else {
        assert(after.drop_last() =~= marks.drop_last().update(at, true));
        lemma_mark_one(marks.drop_last(), at);
    }
}

/// Position of the step with identifier `id`, if there is one.
pub fn find_step(steps: &Vec<WorkflowStep>, id: StepId) -> (at: Option<usize>)
    ensures
        match at {
            Some(i) => i < steps.len() && steps[i as int].id == id && forall|k: int|
                0 <= k < i ==> steps[k].id != id,
            None => !has_step(steps_view(steps@), id),
        },
{
    let mut i: usize = 0;
    while i < steps.len()
        invariant
            i <= steps.len(),
            forall|k: int| 0 <= k < i ==> steps[k].id != id,
        decreases steps.len() - i,
    {
        if steps[i].id == id {
            return Some(i);
        }
        i += 1;
    }
    assert forall|k: int| 0 <= k < steps_view(steps@).len() implies #[trigger] steps_view(steps@)[k].id != id by {
        assert(steps[k].id != id);
    }
    None
}

/// A list of identifiers without its repeats: each is kept where it stands
/// first.
pub fn drop_repeats(ids: &Vec<StepId>) -> (kept: Vec<StepId>)
    ensures
        kept@ == once_each(ids@),
        kept@.no_duplicates(),
{
    let mut kept: Vec<StepId> = Vec::new();
    let mut i: usize = 0;
    while i < ids.len()
        invariant
            i <= ids.len(),
            kept@ == without_repeats(ids@, i as int),
        decreases ids.len() - i,
    {
        let id = ids[i];
        let mut found = false;
        let mut k: usize = 0;
        while k < kept.len()
            invariant
                k <= kept.len(),
                found == exists|k2: int| 0 <= k2 < k && kept@[k2] == id,
            decreases kept.len() - k,
        {
            if kept[k] == id {
                found = true;
            }
            k += 1;
        }
        assert(found == kept@.contains(id));
        if !found {
            kept.push(id);
        }
        i += 1;
    }
    proof {
        lemma_without_repeats(ids@, ids@.len() as int);
    }
    kept
}

spec fn in_work(work: Seq<usize>, i: int) -> bool {
    exists|k: int| 0 <= k < work.len() && #[trigger] work[k] == i
}

/// Marks the positions of the steps that the step at `from` reaches by one or
/// more dependency edges. A dependency that names no step gives no edge.
pub(crate) fn reachable_from(steps: &Vec<WorkflowStep>, from: usize) -> (marks: Vec<bool>)
    requires
        from < steps.len(),
        distinct_ids(steps_view(steps@)),
    ensures
        marks.len() == steps.len(),
        forall|j: int| 0 <= j < marks.len() ==> (marks[j] <==> reaches(steps_view(steps@), from as int, j)),
{
    let ghost sv = steps_view(steps@);
    let n = steps.len();
    let mut marks: Vec<bool> = Vec::new();
    let mut fill: usize = 0;
    while fill < n
        invariant
            fill <= n,
            marks.len() == fill,
            forall|j: int| 0 <= j < fill ==> !marks[j],
        decreases n - fill,
    {
        marks.push(false);
        fill += 1;
    }
    let mut work: Vec<usize> = Vec::new();
    work.push(from);
    assert(work@[0] == from);
    assert(in_work(work@, from as int));
    while work.len() > 0
        invariant
            n == steps.len(),
            sv == steps_view(steps@),
            distinct_ids(sv),
            from < n,
            marks.len() == n,
            forall|k: int| 0 <= k < work.len() ==> work[k] < n,
            forall|k: int| 0 <= k < work.len() ==> work[k] == from || marks[work[k] as int],
            forall|j: int| 0 <= j < n && marks[j] ==> reaches(sv, from as int, j),
            forall|i: int, j: int|
                (i == from || (0 <= i < n && marks[i])) && !in_work(work@, i) && #[trigger] dep_edge(sv, i, j)
                    ==> marks[j],
        decreases unmarked(marks@), work.len(),
    {
        let ghost work_before = work@;
        let at = work.pop().unwrap();
        assert(work_before == work@.push(at));
        assert forall|i: int| in_work(work@, i) implies in_work(work_before, i) by {
            let k = choose|k: int| 0 <= k < work@.len() && #[trigger] work@[k] == i;
            assert(work_before[k] == i);
        }
        let ghost marks_before = marks@;
        let deps = &steps[at].dependencies;
        let mut d: usize = 0;
        while d < deps.len()
            invariant
                n == steps.len(),
                sv == steps_view(steps@),
                distinct_ids(sv),
                from < n,
                at < n,
                at == from || marks_before[at as int],
                marks_before.len() == n,
                deps == &steps[at as int].dependencies,
                d <= deps.len(),
                marks.len() == n,
                forall|k: int| 0 <= k < work.len() ==> work[k] < n,
                forall|k: int| 0 <= k < work.len() ==> work[k] == from || marks[work[k] as int],
                forall|j: int| 0 <= j < n && marks[j] ==> reaches(sv, from as int, j),
                forall|j: int| 0 <= j < n && marks_before[j] ==> marks[j],
                forall|i: int, j: int|
                    (i == from || (0 <= i < n && marks_before[i])) && i != at && !in_work(work_before, i)
                        && #[trigger] dep_edge(sv, i, j) ==> marks[j],
                forall|i: int| 0 <= i < n && marks[i] && !marks_before[i] ==> in_work(work@, i),
                forall|i: int| in_work(work_before, i) && i != at ==> in_work(work@, i),
                forall|k: int, j: int| 0 <= k < d && 0 <= j < n && sv[j].id == #[trigger] deps[k] ==> #[trigger] marks[j],
                unmarked(marks@) <= unmarked(marks_before),
                unmarked(marks@) == unmarked(marks_before) ==> work@.len() + 1 == work_before.len(),
            decreases deps.len() - d,
        {
            let dep = deps[d];
            match find_step(steps, dep) {
                Some(j) => {
                    assert(sv[j as int].id == dep);
                    assert(sv[at as int].dependencies[d as int] == dep);
                    assert(dep_edge(sv, at as int, j as int));
                    if !marks[j] {
                        proof {
                            if at == from {
                                lemma_edge_reaches(sv, from as int, j as int);
                            } else {
                                lemma_reaches_then_edge(sv, from as int, at as int, j as int);
                            }
                            lemma_mark_one(marks@, j as int);
                        }
                        let ghost work_mid = work@;
                        marks.set(j, true);
                        work.push(j);
                        assert(work@[work@.len() - 1] == j);
                        assert forall|i: int| in_work(work_mid, i) implies in_work(work@, i) by {
                            let k = choose|k: int| 0 <= k < work_mid.len() && #[trigger] work_mid[k] == i;
                            assert(work@[k] == i);
                        }
                    }
                    assert forall|k: int, j2: int| 0 <= k < d + 1 && 0 <= j2 < n && sv[j2].id == #[trigger] deps[k] implies #[trigger] marks[j2] by {
                        if k == d {
                            if j2 != j {
                                assert(sv[j2].id != sv[j as int].id);
                            }
                        }
                    }
                },
                None => {
                    assert forall|k: int, j2: int| 0 <= k < d + 1 && 0 <= j2 < n && sv[j2].id == #[trigger] deps[k] implies #[trigger] marks[j2] by {
                        if k == d {
                            assert(has_step(sv, dep));
                        }
                    }
                },
            }
            d += 1;
        }
        proof {
            assert forall|i: int, j: int|
                (i == from || (0 <= i < n && marks[i])) && !in_work(work@, i) && #[trigger] dep_edge(sv, i, j)
                implies marks[j] by {
                if i == at {
                    let k = choose|k: int| 0 <= k < sv[i].dependencies.len() && sv[i].dependencies[k] == sv[j].id;
                    assert(deps[k] == sv[j].id);
                } else if i == from || marks_before[i] {
                    if in_work(work_before, i) {
                        assert(in_work(work@, i));
                    }
                } else {
                    assert(in_work(work@, i));
                }
            }
        }
    }
    proof {
        assert forall|j: int| 0 <= j < marks.len() && reaches(sv, from as int, j) implies marks[j] by {
            assert forall|i: int, j2: int| (i == from || (0 <= i < marks@.len() && marks@[i])) && #[trigger] dep_edge(sv, i, j2) implies marks@[j2] by {
                assert(!in_work(work@, i));
            }
            lemma_closed_set_holds_reachable(sv, from as int, marks@, j);
        }
    }
    marks
}

} // verus!
