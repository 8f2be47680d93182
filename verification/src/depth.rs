//! Chains of dependencies and the length of the longest of them.

use vstd::prelude::*;
use vstd::set_lib::{lemma_int_range, lemma_len_subset, set_int_range};
use crate::model::{steps_view, StepId, StepView, WorkflowStep};
use crate::reach::{acyclic, dep_edge, distinct_ids, find_step, has_step, is_path, on_cycle, reaches};

verus! {

/// `path` names steps of which each depends on the next. One step alone is
/// a chain.
pub open spec fn is_chain(steps: Seq<StepView>, path: Seq<int>) -> bool {
    &&& path.len() >= 1
    &&& forall|k: int| 0 <= k < path.len() ==> 0 <= #[trigger] path[k] < steps.len()
    &&& forall|k: int| 0 <= k < path.len() - 1 ==> dep_edge(steps, #[trigger] path[k], path[k + 1])
}

/// `depth` is the number of steps on the longest chain: no chain is longer,
/// and unless there is no step at all, some chain is as long.
pub open spec fn is_max_depth(steps: Seq<StepView>, depth: nat) -> bool {
    &&& forall|path: Seq<int>| #[trigger] is_chain(steps, path) ==> path.len() <= depth
    &&& if steps.len() == 0 {
        depth == 0
    } else {
        exists|path: Seq<int>| #[trigger] is_chain(steps, path) && path.len() == depth
    }
}

/// The step at `i` is the first with the identifier `id`.
spec fn is_first_with_id(steps: Seq<StepView>, id: StepId, i: int) -> bool {
    &&& 0 <= i < steps.len()
    &&& steps[i].id == id
    &&& forall|k: int| 0 <= k < i ==> steps[k].id != id
}

/// The position of the first step with the identifier `id`, or -1.
spec fn position_of(steps: Seq<StepView>, id: StepId) -> int {
    if exists|i: int| is_first_with_id(steps, id, i) {
        choose|i: int| is_first_with_id(steps, id, i)
    } else {
        -1
    }
}

proof fn lemma_position_of(steps: Seq<StepView>, id: StepId, i: int)
    requires
        is_first_with_id(steps, id, i),
    ensures
        position_of(steps, id) == i,
{
    let j = choose|j: int| is_first_with_id(steps, id, j);
    if j < i {
        assert(steps[j].id != id);
    } else if i < j {
        assert(steps[i].id != id);
    }
}

proof fn lemma_position_absent(steps: Seq<StepView>, id: StepId)
    requires
        !has_step(steps, id),
    ensures
        position_of(steps, id) == -1,
{
    if exists|i: int| is_first_with_id(steps, id, i) {
        let i = choose|i: int| is_first_with_id(steps, id, i);
        assert(steps[i].id == id);
    }
}

/// The length of the longest chain of at most `fuel` steps that begins at
/// the step at `i`.
spec fn longest_from(steps: Seq<StepView>, i: int, fuel: nat) -> nat
    decreases fuel, 0int,
{
    if fuel == 0 {
        0
    } else {
        1 + best_of_deps(steps, i, (fuel - 1) as nat, steps[i].dependencies.len() as int)
    }
}

/// What the dependency at `t` of the step at `i` leads to within `fuel`
/// steps.
spec fn candidate(steps: Seq<StepView>, i: int, fuel: nat, t: int) -> nat
    decreases fuel, 1int,
{
    let j = position_of(steps, steps[i].dependencies[t]);
    if j >= 0 {
        longest_from(steps, j, fuel)
    } else {
        0
    }
}

/// The longest that one of the first `upto` dependencies of the step at `i`
/// leads to within `fuel` steps.
spec fn best_of_deps(steps: Seq<StepView>, i: int, fuel: nat, upto: int) -> nat
    decreases fuel, 2int, upto,
{
    if upto <= 0 {
        0
    } else {
        let rest = best_of_deps(steps, i, fuel, upto - 1);
        let here = candidate(steps, i, fuel, upto - 1);
        if here > rest {
            here
        } else {
            rest
        }
    }
}

proof fn lemma_longest_within_fuel(steps: Seq<StepView>, i: int, fuel: nat)
    ensures
        longest_from(steps, i, fuel) <= fuel,
    decreases fuel, 0int,
{
    if fuel > 0 {
        lemma_best_within_fuel(steps, i, (fuel - 1) as nat, steps[i].dependencies.len() as int);
    }
}

proof fn lemma_best_within_fuel(steps: Seq<StepView>, i: int, fuel: nat, upto: int)
    ensures
        best_of_deps(steps, i, fuel, upto) <= fuel,
    decreases fuel, 2int, upto,
{
    if upto > 0 {
        lemma_best_within_fuel(steps, i, fuel, upto - 1);
        let j = position_of(steps, steps[i].dependencies[upto - 1]);
        if j >= 0 {
            lemma_longest_within_fuel(steps, j, fuel);
        }
        assert(candidate(steps, i, fuel, upto - 1) <= fuel);
    }
}

proof fn lemma_best_covers(steps: Seq<StepView>, i: int, fuel: nat, upto: int, t: int)
    requires
        0 <= t < upto,
    ensures
        best_of_deps(steps, i, fuel, upto) >= candidate(steps, i, fuel, t),
    decreases upto,
{
    if t < upto - 1 {
        lemma_best_covers(steps, i, fuel, upto - 1, t);
    }
}

proof fn lemma_best_is_reached(steps: Seq<StepView>, i: int, fuel: nat, upto: int)
    ensures
        best_of_deps(steps, i, fuel, upto) == 0 || exists|t: int|
            0 <= t < upto && #[trigger] candidate(steps, i, fuel, t) == best_of_deps(steps, i, fuel, upto),
    decreases upto,
{
    if upto > 0 {
        lemma_best_is_reached(steps, i, fuel, upto - 1);
        let rest = best_of_deps(steps, i, fuel, upto - 1);
        let here = candidate(steps, i, fuel, upto - 1);
        if here > rest {
            assert(candidate(steps, i, fuel, upto - 1) == best_of_deps(steps, i, fuel, upto));
        } else if rest > 0 {
            let t = choose|t: int| 0 <= t < upto - 1 && #[trigger] candidate(steps, i, fuel, t) == rest;
            assert(candidate(steps, i, fuel, t) == best_of_deps(steps, i, fuel, upto));
        }
    }
}

/// A chain of at most `fuel` steps is no longer than the longest such chain
/// from its first step.
proof fn lemma_chain_is_counted(steps: Seq<StepView>, path: Seq<int>, fuel: nat)
    requires
        distinct_ids(steps),
        is_chain(steps, path),
        path.len() <= fuel,
    ensures
        path.len() <= longest_from(steps, path[0], fuel),
    decreases path.len(),
{
    if path.len() > 1 {
        let rest = path.skip(1);
        assert forall|k: int| 0 <= k < rest.len() - 1 implies dep_edge(steps, #[trigger] rest[k], rest[k + 1]) by {
            assert(dep_edge(steps, path[k + 1], path[k + 1 + 1]));
        }
        assert(is_chain(steps, rest));
        lemma_chain_is_counted(steps, rest, (fuel - 1) as nat);
        let i = path[0];
        let j = path[1];
        assert(dep_edge(steps, path[0int], path[0int + 1]));
        let deps = steps[i].dependencies;
        let t = choose|t: int| 0 <= t < deps.len() && deps[t] == steps[j].id;
        assert forall|k: int| 0 <= k < j implies steps[k].id != steps[j].id by {
        }
        lemma_position_of(steps, deps[t], j);
        lemma_best_covers(steps, i, (fuel - 1) as nat, deps.len() as int, t);
    }
}

/// Within `fuel` steps, a chain as long as the longest begins at every step.
proof fn lemma_chain_exists(steps: Seq<StepView>, i: int, fuel: nat) -> (path: Seq<int>)
    requires
        0 <= i < steps.len(),
        fuel >= 1,
    ensures
        is_chain(steps, path),
        path[0] == i,
        path.len() == longest_from(steps, i, fuel),
    decreases fuel,
{
    let deps = steps[i].dependencies;
    let best = best_of_deps(steps, i, (fuel - 1) as nat, deps.len() as int);
    lemma_best_is_reached(steps, i, (fuel - 1) as nat, deps.len() as int);
    if best == 0 {
        let path = seq![i];
        assert(is_chain(steps, path));
        path
    } else {
        let t = choose|t: int|
            0 <= t < deps.len() && #[trigger] candidate(steps, i, (fuel - 1) as nat, t) == best;
        let j = position_of(steps, deps[t]);
        assert(j >= 0);
        assert(is_first_with_id(steps, deps[t], j));
        assert(fuel - 1 >= 1);
        let rest = lemma_chain_exists(steps, j, (fuel - 1) as nat);
        let path = seq![i] + rest;
        assert(deps.contains(steps[j].id));
        assert forall|k: int| 0 <= k < path.len() - 1 implies dep_edge(steps, #[trigger] path[k], path[k + 1]) by {
            if k >= 1 {
                assert(dep_edge(steps, rest[k - 1], rest[k - 1 + 1]));
            }
        }
        assert(is_chain(steps, path));
        path
    }
}

/// Where no step depends on itself, no chain passes a step twice, so no
/// chain holds more steps than there are.
pub proof fn lemma_chains_are_short(steps: Seq<StepView>, path: Seq<int>)
    requires
        acyclic(steps),
        is_chain(steps, path),
    ensures
        path.no_duplicates(),
        path.len() <= steps.len(),
{
    assert forall|a: int, b: int| 0 <= a < path.len() && 0 <= b < path.len() && a != b implies path[a] != path[b] by {
        if path[a] == path[b] {
            let lo = if a < b { a } else { b };
            let hi = if a < b { b } else { a };
            let cycle = path.subrange(lo, hi + 1);
            assert forall|k: int| 0 <= k < cycle.len() - 1 implies dep_edge(steps, #[trigger] cycle[k], cycle[k + 1]) by {
                assert(dep_edge(steps, path[lo + k], path[lo + k + 1]));
            }
            assert(is_path(steps, cycle));
            assert(cycle[0] == path[lo] && cycle.last() == path[hi]);
            assert(reaches(steps, path[lo], path[lo]));
            assert(on_cycle(steps, path[lo]));
        }
    }
    path.unique_seq_to_set();
    lemma_int_range(0, steps.len() as int);
    assert(path.to_set().subset_of(set_int_range(0, steps.len() as int))) by {
        assert forall|x: int| path.to_set().contains(x) implies set_int_range(0, steps.len() as int).contains(x) by {
            let k = choose|k: int| 0 <= k < path.len() && path[k] == x;
            assert(0 <= path[k] < steps.len());
        }
    }
    lemma_len_subset(path.to_set(), set_int_range(0, steps.len() as int));
}

/// The number of steps on the longest chain of dependencies.
pub(crate) fn longest_chain(steps: &Vec<WorkflowStep>) -> (depth: usize)
    requires
        distinct_ids(steps_view(steps@)),
        acyclic(steps_view(steps@)),
    ensures
        is_max_depth(steps_view(steps@), depth as nat),
        depth <= steps.len(),
        steps.len() > 0 ==> depth >= 1,
{
    let ghost sv = steps_view(steps@);
    let n = steps.len();
    let mut level: Vec<usize> = Vec::new();
    let mut fill: usize = 0;
    while fill < n
        invariant
            fill <= n,
            level@.len() == fill,
            forall|i: int| 0 <= i < fill ==> level@[i] == 0,
        decreases n - fill,
    {
        level.push(0);
        fill += 1;
    }
    let mut round: usize = 0;
    while round < n
        invariant
            round <= n,
            n == steps.len(),
            sv == steps_view(steps@),
            distinct_ids(sv),
            level@.len() == n,
            forall|i: int| 0 <= i < n ==> level@[i] == longest_from(sv, i, round as nat),
        decreases n - round,
    {
        let mut next: Vec<usize> = Vec::new();
        let mut i: usize = 0;
        while i < n
            invariant
                i <= n,
                round < n,
                n == steps.len(),
                sv == steps_view(steps@),
                distinct_ids(sv),
                level@.len() == n,
                forall|i2: int| 0 <= i2 < n ==> level@[i2] == longest_from(sv, i2, round as nat),
                next@.len() == i,
                forall|i2: int| 0 <= i2 < i ==> next@[i2] == longest_from(sv, i2, (round + 1) as nat),
            decreases n - i,
        {
            let deps = &steps[i].dependencies;
            assert(deps@ == sv[i as int].dependencies);
            let mut best: usize = 0;
            let mut t: usize = 0;
            while t < deps.len()
                invariant
                    t <= deps.len(),
                    i < n,
                    round < n,
                    n == steps.len(),
                    sv == steps_view(steps@),
                    distinct_ids(sv),
                    deps@ == sv[i as int].dependencies,
                    level@.len() == n,
                    forall|i2: int| 0 <= i2 < n ==> level@[i2] == longest_from(sv, i2, round as nat),
                    best == best_of_deps(sv, i as int, round as nat, t as int),
                decreases deps.len() - t,
            {
                match find_step(steps, deps[t]) {
                    Some(j) => {
                        proof {
                            assert(sv[j as int].id == deps@[t as int]);
                            assert forall|k: int| 0 <= k < j implies sv[k].id != deps@[t as int] by {
                                assert(steps@[k].id != deps@[t as int]);
                            }
                            lemma_position_of(sv, deps@[t as int], j as int);
                            assert(candidate(sv, i as int, round as nat, t as int) == level@[j as int]);
                        }
                        if level[j] > best {
                            best = level[j];
                        }
                    },
                    None => {
                        proof {
                            lemma_position_absent(sv, deps@[t as int]);
                            assert(candidate(sv, i as int, round as nat, t as int) == 0);
                        }
                    },
                }
                assert(best == best_of_deps(sv, i as int, round as nat, t as int + 1));
                t += 1;
            }
            proof {
                lemma_best_within_fuel(sv, i as int, round as nat, deps@.len() as int);
            }
            next.push(best + 1);
            i += 1;
        }
        level = next;
        round += 1;
    }
    let mut depth: usize = 0;
    let mut at: usize = 0;
    let mut i: usize = 0;
    while i < n
        invariant
            i <= n,
            level@.len() == n,
            at < n || n == 0,
            i > 0 ==> depth == level@[at as int],
            i == 0 ==> depth == 0,
            forall|i2: int| 0 <= i2 < i ==> level@[i2] <= depth,
        decreases n - i,
    {
        if i == 0 || level[i] > depth {
            depth = level[i];
            at = i;
        }
        i += 1;
    }
    proof {
        assert forall|path: Seq<int>| #[trigger] is_chain(sv, path) implies path.len() <= depth by {
            lemma_chains_are_short(sv, path);
            lemma_chain_is_counted(sv, path, n as nat);
            assert(0 <= path[0] < n);
        }
        if n > 0 {
            let path = lemma_chain_exists(sv, at as int, n as nat);
            assert(is_chain(sv, path) && path.len() == depth);
            lemma_chains_are_short(sv, path);
        }
    }
    depth
}

} // verus!
