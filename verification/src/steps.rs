//! The list of steps that a graph owns: insertion-ordered, with distinct
//! identifiers, and with dependency lists that name no identifier twice.

use vstd::prelude::*;
use crate::model::{steps_view, StepId, StepStatus, StepView, WorkflowStep};
use crate::reach::{dependencies_named_once, distinct_ids, has_step};

verus! {

/// Steps in the order in which they were added. No two share an identifier,
/// and none names an identifier twice among its dependencies.
#[derive(Debug)]
pub(crate) struct StepList {
    items: Vec<WorkflowStep>,
}

impl View for StepList {
    type V = Seq<StepView>;

    closed spec fn view(&self) -> Seq<StepView> {
        steps_view(self.items@)
    }
}

impl StepList {
    #[verifier::type_invariant]
    spec fn well_formed(&self) -> bool {
        distinct_ids(steps_view(self.items@)) && dependencies_named_once(steps_view(self.items@))
    }

    /// The empty list.
    pub(crate) fn new() -> (list: Self)
        ensures
            list@.len() == 0,
    {
        StepList { items: Vec::new() }
    }

    /// The steps themselves.
    pub(crate) fn items(&self) -> (items: &Vec<WorkflowStep>)
        ensures
            steps_view(items@) == self@,
            distinct_ids(self@),
            dependencies_named_once(self@),
    {
        proof {
            use_type_invariant(self);
        }
        &self.items
    }

    /// Appends a step whose identifier is new to the list and whose
    /// dependencies name no identifier twice.
    pub(crate) fn push(&mut self, step: WorkflowStep)
        requires
            !has_step(old(self)@, step.id),
            step.dependencies@.no_duplicates(),
        ensures
            final(self)@ == old(self)@.push(step@),
    {
        proof {
            use_type_invariant(&*self);
        }
        let ghost before = self@;
        let mut items: Vec<WorkflowStep> = Vec::new();
        core::mem::swap(&mut self.items, &mut items);
        items.push(step);
        proof {
            let after = steps_view(items@);
            assert(after =~= before.push(step@));
            assert forall|i: int, j: int| 0 <= i < j < after.len() implies after[i].id != after[j].id by {
                if j == before.len() {
                    assert(before[i].id != step.id);
                }
            }
            assert forall|i: int| 0 <= i < after.len() implies (#[trigger] after[i]).dependencies.no_duplicates() by {
                if i < before.len() {
                    assert(after[i] == before[i]);
                }
            }
        }
        core::mem::swap(&mut self.items, &mut items);
    }

    /// Gives the step at `at` the status `status`.
    pub(crate) fn set_status(&mut self, at: usize, status: StepStatus)
        requires
            at < old(self)@.len(),
        ensures
            final(self)@ == old(self)@.update(at as int, StepView { status, ..old(self)@[at as int] }),
    {
        proof {
            use_type_invariant(&*self);
        }
        let ghost before = self@;
        let mut items: Vec<WorkflowStep> = Vec::new();
        core::mem::swap(&mut self.items, &mut items);
        let mut step = items.remove(at);
        step.status = status;
        items.insert(at, step);
        proof {
            let after = steps_view(items@);
            assert(after =~= before.update(at as int, StepView { status, ..before[at as int] }));
            assert forall|i: int| 0 <= i < after.len() implies (#[trigger] after[i]).dependencies.no_duplicates() by {
                assert(after[i].dependencies == before[i].dependencies);
            }
        }
        core::mem::swap(&mut self.items, &mut items);
    }

    /// Lets the step at `at` depend on `depends_on` as well, which it does
    /// not depend on yet.
    pub(crate) fn add_dependency(&mut self, at: usize, depends_on: StepId)
        requires
            at < old(self)@.len(),
            !old(self)@[at as int].dependencies.contains(depends_on),
        ensures
            final(self)@ == old(self)@.update(
                at as int,
                StepView {
                    dependencies: old(self)@[at as int].dependencies.push(depends_on),
                    ..old(self)@[at as int]
                },
            ),
    {
        proof {
            use_type_invariant(&*self);
        }
        let ghost before = self@;
        let mut items: Vec<WorkflowStep> = Vec::new();
        core::mem::swap(&mut self.items, &mut items);
        let mut step = items.remove(at);
        step.dependencies.push(depends_on);
        items.insert(at, step);
        proof {
            let after = steps_view(items@);
            assert(after =~= before.update(
                at as int,
                StepView { dependencies: before[at as int].dependencies.push(depends_on), ..before[at as int] },
            ));
            assert forall|i: int| 0 <= i < after.len() implies (#[trigger] after[i]).dependencies.no_duplicates() by {
                if i == at {
                    let old_deps = before[at as int].dependencies;
                    let new_deps = old_deps.push(depends_on);
                    assert forall|a: int, b: int| 0 <= a < new_deps.len() && 0 <= b < new_deps.len() && a != b implies new_deps[a]
                        != new_deps[b] by {
                        if a == old_deps.len() {
                            assert(old_deps.contains(old_deps[b]));
                        } else if b == old_deps.len() {
                            assert(old_deps.contains(old_deps[a]));
                        }
                    }
                } else {
                    assert(after[i] == before[i]);
                }
            }
        }
        core::mem::swap(&mut self.items, &mut items);
    }
}

} // verus!
