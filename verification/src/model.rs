//! Value objects of the workflow domain: identifiers, step and workflow
//! states, the step record, and free-form property maps.

use vstd::prelude::*;
use crate::outside::random_u128;

verus! {

/// The bits of a version-4 UUID that are left to chance.
pub const RANDOM_BITS: u128 = 0xffffffff_ffff_0fff_3fff_ffffffffffff;

/// The bits that mark a UUID as one of version 4, in the variant of RFC 9562.
pub const VERSION_4_BITS: u128 = 0x00000000_0000_4000_8000_000000000000;

/// The version-4 UUID that is made of the random number `random`: its
/// version and variant bits are set, its other bits are those of `random`.
pub open spec fn uuid_v4(random: u128) -> u128 {
    (random & RANDOM_BITS) | VERSION_4_BITS
}

/// A freshly drawn version-4 UUID as its 128-bit value; `None` where the
/// operating system gives no random bytes.
pub fn fresh_uuid() -> (drawn: Option<u128>)
    ensures
        drawn matches Some(id) ==> exists|random: u128| id == #[trigger] uuid_v4(random),
{
    uuid_of(random_u128())
}

/// The version-4 UUID that is made of what the random source gave: the
/// random number with the version and variant bits set, and `None` where the
/// source gave nothing.
pub fn uuid_of(random: Option<u128>) -> (made: Option<u128>)
    ensures
        made == match random {
            Some(number) => Some(uuid_v4(number)),
            None => None::<u128>,
        },
{
    match random {
        Some(number) => Some((number & RANDOM_BITS) | VERSION_4_BITS),
        None => None,
    }
}

/// Identifier of a step: a UUID held as its 128-bit value.
#[derive(Clone, Copy, Debug, PartialEq, Eq, Structural, Hash)]
pub struct StepId(pub u128);

/// Identifier of a workflow: a UUID held as its 128-bit value.
#[derive(Clone, Copy, Debug, PartialEq, Eq, Structural, Hash)]
pub struct WorkflowId(pub u128);

/// How a step is carried out.
#[derive(Clone, Copy, Debug, PartialEq, Eq, Structural, Hash)]
pub enum StepType {
    Manual,
    Automated,
    Approval,
}

/// Where a step stands in its lifecycle.
#[derive(Clone, Copy, Debug, PartialEq, Eq, Structural, Hash)]
pub enum StepStatus {
    Pending,
    Ready,
    InProgress,
    Completed,
    Failed,
    Skipped,
}

/// Where a workflow stands in its lifecycle.
#[derive(Clone, Copy, Debug, PartialEq, Eq, Structural, Hash)]
pub enum WorkflowStatus {
    Draft,
    Running,
    Completed,
    Cancelled,
    Failed,
}

impl StepStatus {
    /// A status from which a step may still be picked up for execution.
    pub open spec fn awaits_execution(self) -> bool {
        self == StepStatus::Pending || self == StepStatus::Ready
    }
}

/// A free-form map from text keys to JSON values, kept in insertion order.
/// The first entry with a given key is the one that counts.
#[derive(Clone, Debug)]
pub struct PropertyMap {
    pub entries: Vec<(String, serde_json::Value)>,
}

impl PropertyMap {
    /// Position of the first entry whose key is `key` among the first `upto`
    /// entries, or -1.
    pub open spec fn position(self, key: Seq<char>, upto: int) -> int
        decreases upto,
    {
        if upto <= 0 {
            -1
        } else {
            let before = self.position(key, upto - 1);
            if before >= 0 {
                before
            } else if self.entries@[upto - 1].0@ == key {
                upto - 1
            } else {
                -1
            }
        }
    }

    /// The value bound to `key`, if any.
    pub open spec fn lookup(self, key: Seq<char>) -> Option<serde_json::Value> {
        let at = self.position(key, self.entries@.len() as int);
        if at >= 0 {
            Some(self.entries@[at].1)
        } else {
            None
        }
    }

    pub proof fn lemma_position(self, key: Seq<char>, upto: int)
        requires
            0 <= upto <= self.entries@.len(),
        ensures
            -1 <= self.position(key, upto) < upto,
            self.position(key, upto) >= 0 ==> self.entries@[self.position(key, upto)].0@ == key,
            forall|k: int|
                0 <= k < upto && (self.position(key, upto) < 0 || k < self.position(key, upto))
                    ==> (#[trigger] self.entries@[k]).0@ != key,
        decreases upto,
    {
        if upto > 0 {
            self.lemma_position(key, upto - 1);
        }
    }

    /// The empty map.
    pub fn new() -> (map: PropertyMap)
        ensures
            map.entries@.len() == 0,
            forall|key: Seq<char>| map.lookup(key) is None,
    {
        PropertyMap { entries: Vec::new() }
    }

    fn find(&self, key: &String) -> (at: Option<usize>)
        ensures
            match at {
                Some(i) => i < self.entries@.len() && i as int == self.position(
                    key@,
                    self.entries@.len() as int,
                ),
                None => self.position(key@, self.entries@.len() as int) < 0,
            },
    {
        let mut i: usize = 0;
        while i < self.entries.len()
            invariant
                i <= self.entries.len(),
                self.position(key@, i as int) < 0,
            decreases self.entries.len() - i,
        {
            if self.entries[i].0 == *key {
                proof {
                    assert(self.position(key@, i as int + 1) == i as int);
                    self.lemma_suffix_keeps_position(key@, i as int + 1, self.entries@.len() as int);
                }
                return Some(i);
            }
            i += 1;
        }
        None
    }

    proof fn lemma_suffix_keeps_position(self, key: Seq<char>, from: int, upto: int)
        requires
            0 < from <= upto,
            self.position(key, from) >= 0,
        ensures
            self.position(key, upto) == self.position(key, from),
        decreases upto - from,
    {
        if from < upto {
            self.lemma_suffix_keeps_position(key, from, upto - 1);
        }
    }

    /// Looks a key up.
    pub fn get(&self, key: &str) -> (value: Option<&serde_json::Value>)
        ensures
            match value {
                Some(v) => self.lookup(key@) == Some(*v),
                None => self.lookup(key@) is None,
            },
    {
        let owned = key.to_owned();
        match self.find(&owned) {
            Some(i) => Some(&self.entries[i].1),
            None => None,
        }
    }

    /// Binds `key` to `value`, replacing what it was bound to.
    pub fn insert(&mut self, key: String, value: serde_json::Value)
        ensures
            final(self).lookup(key@) == Some(value),
            forall|other: Seq<char>| other != key@ ==> final(self).lookup(other) == old(self).lookup(other),
    {
        let ghost before = *self;
        let ghost n = self.entries@.len() as int;
        match self.find(&key) {
            Some(i) => {
                let ghost k = key@;
                proof {
                    before.lemma_position(k, n);
                }
                self.entries.set(i, (key, value));
                proof {
                    let after = *self;
                    assert forall|other: Seq<char>| #[trigger] after.position(other, n) == before.position(other, n) by {
                        Self::lemma_same_keys(before, after, other, n);
                    }
                    assert forall|other: Seq<char>| other != k implies after.lookup(other) == before.lookup(other) by {
                        before.lemma_position(other, n);
                        assert(after.position(other, n) == before.position(other, n));
                    }
                    assert(after.position(k, n) == before.position(k, n));
                }
            },
            None => {
                let ghost k = key@;
                self.entries.push((key, value));
                proof {
                    let after = *self;
                    assert forall|other: Seq<char>| #[trigger] after.position(other, n) == before.position(other, n) by {
                        Self::lemma_same_keys(before, after, other, n);
                    }
                    assert forall|other: Seq<char>| other != k implies after.lookup(other) == before.lookup(other) by {
                        before.lemma_position(other, n);
                        assert(after.position(other, n) == before.position(other, n));
                    }
                    assert(after.position(k, n) == before.position(k, n));
                }
            },
        }
    }

    proof fn lemma_same_keys(a: PropertyMap, b: PropertyMap, key: Seq<char>, upto: int)
        requires
            0 <= upto <= a.entries@.len(),
            upto <= b.entries@.len(),
            forall|k: int| 0 <= k < upto ==> (#[trigger] a.entries@[k]).0@ == b.entries@[k].0@,
        ensures
            a.position(key, upto) == b.position(key, upto),
        decreases upto,
    {
        if upto > 0 {
            Self::lemma_same_keys(a, b, key, upto - 1);
        }
    }
}

/// A unit of work of a workflow.
#[derive(Clone, Debug)]
pub struct WorkflowStep {
    pub id: StepId,
    pub name: String,
    pub description: String,
    pub step_type: StepType,
    pub status: StepStatus,
    pub dependencies: Vec<StepId>,
    pub estimated_duration_minutes: Option<u32>,
    pub assigned_to: Option<String>,
    pub config: PropertyMap,
}

/// The mathematical content of a step.
pub ghost struct StepView {
    pub id: StepId,
    pub name: Seq<char>,
    pub description: Seq<char>,
    pub step_type: StepType,
    pub status: StepStatus,
    pub dependencies: Seq<StepId>,
    pub estimated_duration_minutes: Option<u32>,
    pub assigned_to: Option<Seq<char>>,
    pub config: PropertyMap,
}

/// The text of an optional string.
pub open spec fn text_of(s: Option<String>) -> Option<Seq<char>> {
    match s {
        Some(t) => Some(t@),
        None => None,
    }
}

impl View for WorkflowStep {
    type V = StepView;

    open spec fn view(&self) -> StepView {
        StepView {
            id: self.id,
            name: self.name@,
            description: self.description@,
            step_type: self.step_type,
            status: self.status,
            dependencies: self.dependencies@,
            estimated_duration_minutes: self.estimated_duration_minutes,
            assigned_to: text_of(self.assigned_to),
            config: self.config,
        }
    }
}

/// The contents of a list of steps.
pub open spec fn steps_view(steps: Seq<WorkflowStep>) -> Seq<StepView> {
    Seq::new(steps.len(), |i: int| steps[i]@)
}

} // verus!
