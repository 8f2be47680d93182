//! The event store: an append-only log of domain events in which every entry
//! names the content address of the entry before it, with replay by
//! workflow and snapshots of the whole log.

use vstd::prelude::*;
use crate::cid::{copy_optional, names, optional_address, Cid};
use crate::error::WorkflowGraphError;
use crate::events::{append_event_bytes, append_framed, append_text, append_u64, event_bytes, framed, text_bytes, u64_bytes, EventView, WorkflowDomainEvent};
use crate::outside::sha256_digest;
use crate::text::{append_decimal, decimal, hex};

verus! {

/// An entry of the log.
#[derive(Debug)]
pub struct ChainedWorkflowEvent {
    pub event_id: String,
    pub event: WorkflowDomainEvent,
    pub cid: Cid,
    pub previous_cid: Option<Cid>,
    pub sequence: u64,
}

/// The mathematical content of an entry.
pub ghost struct ChainedView {
    pub event_id: Seq<char>,
    pub event: EventView,
    pub cid: Seq<u8>,
    pub previous_cid: Option<Seq<u8>>,
    pub sequence: u64,
}

impl View for ChainedWorkflowEvent {
    type V = ChainedView;

    open spec fn view(&self) -> ChainedView {
        ChainedView {
            event_id: self.event_id@,
            event: self.event@,
            cid: self.cid@,
            previous_cid: optional_address(self.previous_cid),
            sequence: self.sequence,
        }
    }
}

impl Clone for ChainedWorkflowEvent {
    fn clone(&self) -> (copy: Self)
        ensures
            copy@ == self@,
    {
        ChainedWorkflowEvent {
            event_id: self.event_id.clone(),
            event: self.event.clone(),
            cid: self.cid.clone(),
            previous_cid: copy_optional(&self.previous_cid),
            sequence: self.sequence,
        }
    }
}

/// The contents of a list of entries.
pub open spec fn log_view(entries: Seq<ChainedWorkflowEvent>) -> Seq<ChainedView> {
    Seq::new(entries.len(), |i: int| entries[i]@)
}

/// A copy of a list of entries.
pub fn copy_log(entries: &Vec<ChainedWorkflowEvent>) -> (copy: Vec<ChainedWorkflowEvent>)
    ensures
        log_view(copy@) == log_view(entries@),
{
    let mut copy: Vec<ChainedWorkflowEvent> = Vec::new();
    let mut i: usize = 0;
    while i < entries.len()
        invariant
            i <= entries.len(),
            copy@.len() == i,
            forall|k: int| 0 <= k < i ==> (#[trigger] copy@[k])@ == entries@[k]@,
        decreases entries.len() - i,
    {
        copy.push(entries[i].clone());
        i += 1;
    }
    assert(log_view(copy@) =~= log_view(entries@));
    copy
}

/// What stands in for the previous address of the first entry: 32 zero
/// bytes.
pub open spec fn genesis() -> Seq<u8> {
    Seq::new(32, |i: int| 0u8)
}

/// The address of an entry: the digest of the event's canonical encoding
/// followed by the previous address, or by `genesis()` where there is none.
pub open spec fn chain_address(event: EventView, previous: Option<Seq<u8>>) -> Seq<u8> {
    sha256_digest(
        event_bytes(event) + match previous {
            Some(address) => address,
            None => genesis(),
        },
    )
}

/// The identifier of the entry at `sequence`.
pub open spec fn event_id_at(sequence: nat) -> Seq<char> {
    "evt_"@ + decimal(sequence)
}

/// The address of the last entry, if there is one.
pub open spec fn last_address(log: Seq<ChainedView>) -> Option<Seq<u8>> {
    if log.len() == 0 {
        None
    } else {
        Some(log.last().cid)
    }
}

/// The entry that appending `event` under the address `cid` adds to `log`.
pub open spec fn entry_at(log: Seq<ChainedView>, event: EventView, cid: Seq<u8>) -> ChainedView {
    ChainedView {
        event_id: event_id_at(log.len()),
        event,
        cid,
        previous_cid: last_address(log),
        sequence: log.len() as u64,
    }
}

/// The entry that appending `event` adds to `log`.
pub open spec fn next_entry(log: Seq<ChainedView>, event: EventView) -> ChainedView {
    entry_at(log, event, chain_address(event, last_address(log)))
}

/// The log that appending `events` one by one to an empty log gives.
pub open spec fn log_of(events: Seq<EventView>) -> Seq<ChainedView>
    decreases events.len(),
{
    if events.len() == 0 {
        Seq::empty()
    } else {
        log_of(events.drop_last()).push(next_entry(log_of(events.drop_last()), events.last()))
    }
}

/// Every entry but the first names the address of the entry before it.
pub open spec fn linked(log: Seq<ChainedView>) -> bool {
    forall|i: int| 1 <= i < log.len() ==> (#[trigger] log[i]).previous_cid == Some(log[i - 1].cid)
}

/// The entry at `i` is the first that does not name the address of the entry
/// before it.
pub open spec fn first_break(log: Seq<ChainedView>, i: int) -> bool {
    &&& 1 <= i < log.len()
    &&& log[i].previous_cid != Some(log[i - 1].cid)
    &&& forall|k: int| 1 <= k < i ==> (#[trigger] log[k]).previous_cid == Some(log[k - 1].cid)
}

/// The entries of `log` that belong to the workflow `workflow_id`, in the
/// order of the log.
pub open spec fn entries_of(log: Seq<ChainedView>, workflow_id: Seq<char>) -> Seq<ChainedView> {
    log.filter(|entry: ChainedView| entry.event.workflow_id() == workflow_id)
}

/// An optional address as bytes: a zero byte for none, else a one byte and
/// the framed address.
pub open spec fn optional_address_bytes(address: Option<Seq<u8>>) -> Seq<u8> {
    match address {
        Some(bytes) => seq![1u8] + framed(bytes),
        None => seq![0u8],
    }
}

/// The canonical encoding of an entry.
pub open spec fn entry_bytes(entry: ChainedView) -> Seq<u8> {
    u64_bytes(entry.sequence) + text_bytes(entry.event_id) + event_bytes(entry.event) + framed(entry.cid)
        + optional_address_bytes(entry.previous_cid)
}

/// The canonical encoding of the first `upto` entries of a log.
pub open spec fn log_bytes(log: Seq<ChainedView>, upto: int) -> Seq<u8>
    decreases upto,
{
    if upto <= 0 {
        Seq::empty()
    } else {
        log_bytes(log, upto - 1) + entry_bytes(log[upto - 1])
    }
}

/// The address of a snapshot of `log`: the digest of its canonical encoding.
pub open spec fn snapshot_address(log: Seq<ChainedView>) -> Seq<u8> {
    sha256_digest(log_bytes(log, log.len() as int))
}

/// A captured log under its address.
#[derive(Debug)]
pub struct Snapshot {
    pub cid: Cid,
    pub events: Vec<ChainedWorkflowEvent>,
}

/// What the first `upto` snapshots hold, by address. A later snapshot
/// replaces an earlier one with the same address.
pub open spec fn snapshot_map(snapshots: Seq<Snapshot>, upto: int) -> Map<Seq<u8>, Seq<ChainedView>>
    decreases upto,
{
    if upto <= 0 {
        Map::empty()
    } else {
        snapshot_map(snapshots, upto - 1).insert(snapshots[upto - 1].cid@, log_view(snapshots[upto - 1].events@))
    }
}

proof fn lemma_snapshot_map_prefix(a: Seq<Snapshot>, b: Seq<Snapshot>, upto: int)
    requires
        0 <= upto <= a.len(),
        upto <= b.len(),
        forall|k: int| 0 <= k < upto ==> a[k] == b[k],
    ensures
        snapshot_map(a, upto) == snapshot_map(b, upto),
    decreases upto,
{
    if upto > 0 {
        lemma_snapshot_map_prefix(a, b, upto - 1);
    }
}

/// The mathematical content of an event store.
pub ghost struct EventStoreView {
    pub events: Seq<ChainedView>,
    pub snapshots: Map<Seq<u8>, Seq<ChainedView>>,
}

impl EventStoreView {
    /// The store after `event` was appended under the address `cid`.
    pub open spec fn appended_as(self, event: EventView, cid: Seq<u8>) -> EventStoreView {
        EventStoreView { events: self.events.push(entry_at(self.events, event, cid)), ..self }
    }

    /// The store after `event` was appended.
    pub open spec fn appended(self, event: EventView) -> EventStoreView {
        self.appended_as(event, chain_address(event, last_address(self.events)))
    }

    /// The store after the log was captured under the address `cid`.
    pub open spec fn snapshotted_as(self, cid: Seq<u8>) -> EventStoreView {
        EventStoreView { snapshots: self.snapshots.insert(cid, self.events), ..self }
    }

    /// The store after a snapshot of the log was taken.
    pub open spec fn snapshotted(self) -> EventStoreView {
        self.snapshotted_as(snapshot_address(self.events))
    }

    /// The store after the live log was emptied.
    pub open spec fn cleared(self) -> EventStoreView {
        EventStoreView { events: Seq::empty(), ..self }
    }

    /// The store after the snapshot at `address` was restored.
    pub open spec fn restored(self, address: Seq<u8>) -> EventStoreView {
        if self.snapshots.contains_key(address) {
            EventStoreView { events: self.snapshots[address], ..self }
        } else {
            self
        }
    }
}

/// What an append reports.
#[derive(Debug)]
pub struct Appended {
    pub sequence: u64,
    pub event_id: String,
    pub cid: Cid,
    pub previous_cid: Option<Cid>,
}

/// The log of domain events and the snapshots taken of it.
///
/// The log is open to its owner: what was loaded from storage or changed by
/// hand is held to the chain rule by `validate_chain`.
#[derive(Debug)]
pub struct WorkflowEventStore {
    pub events: Vec<ChainedWorkflowEvent>,
    pub snapshots: Vec<Snapshot>,
}

impl View for WorkflowEventStore {
    type V = EventStoreView;

    open spec fn view(&self) -> EventStoreView {
        EventStoreView {
            events: log_view(self.events@),
            snapshots: snapshot_map(self.snapshots@, self.snapshots@.len() as int),
        }
    }
}

fn genesis_bytes() -> (bytes: Vec<u8>)
    ensures
        bytes@ == genesis(),
{
    let mut bytes: Vec<u8> = Vec::new();
    let mut i: usize = 0;
    while i < 32
        invariant
            i <= 32,
            bytes@.len() == i,
            forall|k: int| 0 <= k < i ==> bytes@[k] == 0u8,
        decreases 32 - i,
    {
        bytes.push(0u8);
        i += 1;
    }
    assert(bytes@ =~= genesis());
    bytes
}

fn append_bytes(out: &mut Vec<u8>, bytes: &Vec<u8>)
    ensures
        final(out)@ == old(out)@ + bytes@,
{
    let mut i: usize = 0;
    assert(out@ =~= old(out)@ + bytes@.take(0));
    while i < bytes.len()
        invariant
            i <= bytes.len(),
            out@ == old(out)@ + bytes@.take(i as int),
        decreases bytes.len() - i,
    {
        out.push(bytes[i]);
        assert(bytes@.take(i as int + 1) =~= bytes@.take(i as int).push(bytes@[i as int]));
        assert(out@ =~= old(out)@ + bytes@.take(i as int + 1));
        i += 1;
    }
    assert(bytes@.take(bytes@.len() as int) =~= bytes@);
}

fn address_of(event: &WorkflowDomainEvent, previous: &Option<Cid>) -> (cid: Cid)
    ensures
        cid@ == chain_address(event@, optional_address(*previous)),
{
    let mut data: Vec<u8> = Vec::new();
    append_event_bytes(&mut data, event);
    match previous {
        Some(address) => {
            append_bytes(&mut data, address.as_bytes());
        },
        None => {
            let zeros = genesis_bytes();
            append_bytes(&mut data, &zeros);
        },
    }
    assert(data@ =~= event_bytes(event@) + match optional_address(*previous) {
        Some(address) => address,
        None => genesis(),
    });
    Cid::new(data.as_slice())
}

fn append_entry_bytes(out: &mut Vec<u8>, entry: &ChainedWorkflowEvent)
    ensures
        final(out)@ == old(out)@ + entry_bytes(entry@),
{
    append_u64(out, entry.sequence);
    append_text(out, &entry.event_id);
    append_event_bytes(out, &entry.event);
    append_framed(out, entry.cid.as_bytes().as_slice());
    match &entry.previous_cid {
        Some(address) => {
            out.push(1u8);
            append_framed(out, address.as_bytes().as_slice());
        },
        None => {
            out.push(0u8);
        },
    }
    assert(out@ =~= old(out)@ + entry_bytes(entry@));
}

fn snapshot_address_of(entries: &Vec<ChainedWorkflowEvent>) -> (cid: Cid)
    ensures
        cid@ == snapshot_address(log_view(entries@)),
{
    let ghost log = log_view(entries@);
    let mut data: Vec<u8> = Vec::new();
    let mut i: usize = 0;
    assert(data@ =~= log_bytes(log, 0));
    while i < entries.len()
        invariant
            i <= entries.len(),
            log == log_view(entries@),
            data@ == log_bytes(log, i as int),
        decreases entries.len() - i,
    {
        append_entry_bytes(&mut data, &entries[i]);
        assert(log[i as int] == entries@[i as int]@);
        i += 1;
    }
    Cid::new(data.as_slice())
}

impl WorkflowEventStore {
    /// A store with an empty log and no snapshot.
    pub fn new() -> (store: Self)
        ensures
            store@.events.len() == 0,
            store@.snapshots == Map::<Seq<u8>, Seq<ChainedView>>::empty(),
    {
        WorkflowEventStore { events: Vec::new(), snapshots: Vec::new() }
    }

    /// Appends an event to the log under the address `cid`. The new entry
    /// names the address of the entry that was last as its previous address
    /// and the length of the log as its sequence number.
    pub fn append_addressed(&mut self, event: WorkflowDomainEvent, cid: Cid) -> (appended: Appended)
        ensures
            final(self)@ == old(self)@.appended_as(event@, cid@),
            appended.sequence == old(self)@.events.len(),
            appended.event_id@ == event_id_at(old(self)@.events.len()),
            appended.cid@ == cid@,
            optional_address(appended.previous_cid) == last_address(old(self)@.events),
    {
        let ghost before = self@;
        let n = self.events.len();
        let previous_cid = self.last_cid();
        let sequence = n as u64;
        let mut event_id = "evt_".to_owned();
        append_decimal(&mut event_id, sequence as u128);
        let entry = ChainedWorkflowEvent {
            event_id: event_id.clone(),
            event,
            cid: cid.clone(),
            previous_cid: copy_optional(&previous_cid),
            sequence,
        };
        self.events.push(entry);
        assert(self@.events =~= before.events.push(entry_at(before.events, event@, cid@)));
        Appended { sequence, event_id, cid, previous_cid }
    }

    /// The address of the entry that is last in the log.
    pub fn last_cid(&self) -> (last: Option<Cid>)
        ensures
            optional_address(last) == last_address(self@.events),
    {
        let n = self.events.len();
        if n == 0 {
            None
        } else {
            assert(self@.events.last() == self.events@[n - 1]@);
            Some(self.events[n - 1].cid.clone())
        }
    }

    /// Appends an event to the log. The new entry names the address of the
    /// entry that was last, and its own address is the digest of the event
    /// and that address together.
    pub fn append_event(&mut self, event: WorkflowDomainEvent) -> (appended: Appended)
        ensures
            final(self)@ == old(self)@.appended(event@),
            appended.sequence == old(self)@.events.len(),
            appended.event_id@ == event_id_at(old(self)@.events.len()),
            appended.cid@ == chain_address(event@, last_address(old(self)@.events)),
            optional_address(appended.previous_cid) == last_address(old(self)@.events),
    {
        let previous_cid = self.last_cid();
        let cid = address_of(&event, &previous_cid);
        self.append_addressed(event, cid)
    }

    /// Checks that every entry but the first names the address of the entry
    /// before it, and reports the addresses of the first and the last entry
    /// and the number of entries. Addresses are compared, not recomputed.
    pub fn validate_chain(&self) -> (checked: Result<(Cid, Cid, usize), WorkflowGraphError>)
        ensures
            checked is Ok <==> self@.events.len() > 0 && linked(self@.events),
            match checked {
                Ok((first, last, length)) => {
                    &&& self@.events.len() > 0
                    &&& first@ == self@.events.first().cid
                    &&& last@ == self@.events.last().cid
                    &&& length == self@.events.len()
                },
                Err(WorkflowGraphError::EmptyLog) => self@.events.len() == 0,
                Err(WorkflowGraphError::ChainBroken { sequence, expected, actual }) => {
                    &&& first_break(self@.events, sequence as int)
                    &&& expected@ == self@.events[sequence - 1].cid
                    &&& optional_address(actual) == self@.events[sequence as int].previous_cid
                },
                Err(_) => false,
            },
    {
        let n = self.events.len();
        if n == 0 {
            return Err(WorkflowGraphError::EmptyLog);
        }
        let ghost log = self@.events;
        let mut i: usize = 1;
        while i < n
            invariant
                1 <= i <= n,
                n == self.events@.len(),
                log == self@.events,
                forall|k: int| 1 <= k < i ==> (#[trigger] log[k]).previous_cid == Some(log[k - 1].cid),
            decreases n - i,
        {
            assert(log[i as int] == self.events@[i as int]@);
            assert(log[i - 1] == self.events@[i - 1]@);
            if !names(&self.events[i].previous_cid, &self.events[i - 1].cid) {
                return Err(
                    WorkflowGraphError::ChainBroken {
                        sequence: i,
                        expected: self.events[i - 1].cid.clone(),
                        actual: copy_optional(&self.events[i].previous_cid),
                    },
                );
            }
            i += 1;
        }
        assert(log.first() == self.events@[0]@);
        assert(log.last() == self.events@[n - 1]@);
        Ok((self.events[0].cid.clone(), self.events[n - 1].cid.clone(), n))
    }

    /// The entries that belong to one workflow, in the order of the log. The
    /// store stays as it is.
    pub fn replay_events(&self, workflow_id: &str) -> (replayed: Vec<ChainedWorkflowEvent>)
        ensures
            log_view(replayed@) == entries_of(self@.events, workflow_id@),
    {
        let wanted = workflow_id.to_owned();
        let ghost log = self@.events;
        let ghost keep = |entry: ChainedView| entry.event.workflow_id() == workflow_id@;
        let mut replayed: Vec<ChainedWorkflowEvent> = Vec::new();
        let mut i: usize = 0;
        proof {
            reveal(Seq::filter);
            assert(log.take(0) =~= Seq::empty());
            assert(log_view(replayed@) =~= log.take(0).filter(keep));
        }
        while i < self.events.len()
            invariant
                i <= self.events.len(),
                log == self@.events,
                wanted@ == workflow_id@,
                keep == (|entry: ChainedView| entry.event.workflow_id() == workflow_id@),
                log_view(replayed@) == log.take(i as int).filter(keep),
            decreases self.events.len() - i,
        {
            let entry = &self.events[i];
            let ghost before = log_view(replayed@);
            proof {
                reveal(Seq::filter);
                assert(log[i as int] == entry@);
                assert(log.take(i as int + 1).drop_last() =~= log.take(i as int));
                assert(log.take(i as int + 1).last() == entry@);
            }
            if *entry.event.workflow_id() == wanted {
                replayed.push(entry.clone());
                assert(log_view(replayed@) =~= before.push(entry@));
            }
            i += 1;
        }
        assert(log.take(log.len() as int) =~= log);
        replayed
    }

    /// Captures the whole log under the address `cid`, in place of what that
    /// address held.
    pub fn insert_snapshot(&mut self, cid: Cid)
        ensures
            final(self)@ == old(self)@.snapshotted_as(cid@),
    {
        let captured = copy_log(&self.events);
        let ghost address = cid@;
        self.snapshots.push(Snapshot { cid, events: captured });
        proof {
            let n = old(self).snapshots@.len() as int;
            lemma_snapshot_map_prefix(old(self).snapshots@, self.snapshots@, n);
            assert(self@.snapshots =~= old(self)@.snapshots.insert(address, old(self)@.events));
        }
    }

    /// Captures the whole log under the address of its canonical encoding.
    pub fn create_snapshot(&mut self) -> (created: Result<Cid, WorkflowGraphError>)
        ensures
            match created {
                Ok(cid) => {
                    &&& old(self)@.events.len() > 0
                    &&& cid@ == snapshot_address(old(self)@.events)
                    &&& final(self)@ == old(self)@.snapshotted()
                },
                Err(WorkflowGraphError::EmptyLog) => old(self)@.events.len() == 0 && final(self)@ == old(self)@,
                Err(_) => false,
            },
    {
        if self.events.len() == 0 {
            return Err(WorkflowGraphError::EmptyLog);
        }
        let cid = snapshot_address_of(&self.events);
        self.insert_snapshot(cid.clone());
        Ok(cid)
    }

    fn find_snapshot(&self, cid: &Cid) -> (found: Option<usize>)
        ensures
            match found {
                Some(i) => i < self.snapshots@.len() && self@.snapshots.contains_key(cid@)
                    && self@.snapshots[cid@] == log_view(self.snapshots@[i as int].events@),
                None => !self@.snapshots.contains_key(cid@),
            },
    {
        let n = self.snapshots.len();
        let mut i: usize = n;
        while i > 0
            invariant
                i <= n,
                n == self.snapshots@.len(),
                snapshot_map(self.snapshots@, n as int).contains_key(cid@) <==> snapshot_map(
                    self.snapshots@,
                    i as int,
                ).contains_key(cid@),
                snapshot_map(self.snapshots@, i as int).contains_key(cid@) ==> snapshot_map(
                    self.snapshots@,
                    n as int,
                )[cid@] == snapshot_map(self.snapshots@, i as int)[cid@],
            decreases i,
        {
            i -= 1;
            if self.snapshots[i].cid.same(cid) {
                return Some(i);
            }
        }
        None
    }

    /// Replaces the log by the snapshot under `snapshot_cid`, entry for entry
    /// as it was captured, and reports how many entries that is.
    pub fn restore_from_snapshot(&mut self, snapshot_cid: &Cid) -> (restored: Result<usize, WorkflowGraphError>)
        ensures
            final(self)@ == old(self)@.restored(snapshot_cid@),
            match restored {
                Ok(count) => old(self)@.snapshots.contains_key(snapshot_cid@) && count == old(
                    self,
                )@.snapshots[snapshot_cid@].len(),
                Err(WorkflowGraphError::NotFound(name)) => !old(self)@.snapshots.contains_key(snapshot_cid@)
                    && name@ == hex(snapshot_cid@),
                Err(_) => false,
            },
    {
        match self.find_snapshot(snapshot_cid) {
            Some(i) => {
                let events = copy_log(&self.snapshots[i].events);
                let count = events.len();
                self.events = events;
                Ok(count)
            },
            None => Err(WorkflowGraphError::NotFound(snapshot_cid.to_hex())),
        }
    }
}


/// Appending keeps an unbroken chain unbroken.
pub proof fn lemma_append_keeps_chain(log: Seq<ChainedView>, event: EventView)
    requires
        linked(log),
    ensures
        linked(log.push(next_entry(log, event))),
{
    let longer = log.push(next_entry(log, event));
    assert forall|i: int| 1 <= i < longer.len() implies (#[trigger] longer[i]).previous_cid == Some(
        longer[i - 1].cid,
    ) by {
        if i < log.len() {
            assert(longer[i] == log[i]);
            assert(longer[i - 1] == log[i - 1]);
        } else {
            assert(longer[i - 1] == log.last());
        }
    }
}

/// A log that grew from nothing by appends alone is unbroken, whatever the
/// events and however many: `validate_chain` accepts it once it holds an
/// entry. Its entries carry the events in order, numbered from zero.
pub proof fn lemma_appended_log_is_linked(events: Seq<EventView>)
    ensures
        log_of(events).len() == events.len(),
        linked(log_of(events)),
        forall|i: int|
            0 <= i < events.len() ==> (#[trigger] log_of(events)[i]).event == events[i] && log_of(
                events,
            )[i].sequence == i as u64,
    decreases events.len(),
{
    if events.len() > 0 {
        let shorter = events.drop_last();
        lemma_appended_log_is_linked(shorter);
        lemma_append_keeps_chain(log_of(shorter), events.last());
        assert forall|i: int| 0 <= i < events.len() implies (#[trigger] log_of(events)[i]).event == events[i]
            && log_of(events)[i].sequence == i as u64 by {
            if i < shorter.len() {
                assert(log_of(events)[i] == log_of(shorter)[i]);
                assert(shorter[i] == events[i]);
            }
        }
    }
}

/// At most one entry is the first to break the chain.
pub proof fn lemma_first_break_is_unique(log: Seq<ChainedView>, i: int, j: int)
    requires
        first_break(log, i),
        first_break(log, j),
    ensures
        i == j,
{
    if i < j {
        assert(log[i].previous_cid == Some(log[i - 1].cid));
    } else if j < i {
        assert(log[j].previous_cid == Some(log[j - 1].cid));
    }
}

/// `log` with the previous address of the entry at `at` replaced by
/// `forged`.
pub open spec fn with_forged_link(log: Seq<ChainedView>, at: int, forged: Option<Seq<u8>>) -> Seq<ChainedView> {
    log.update(at, ChainedView { previous_cid: forged, ..log[at] })
}

/// Forging the previous address of one entry of an unbroken chain, at any
/// position but the first, breaks the chain exactly there: `validate_chain`
/// then fails and reports that position.
pub proof fn lemma_forged_link_is_found(log: Seq<ChainedView>, at: int, forged: Option<Seq<u8>>)
    requires
        linked(log),
        1 <= at < log.len(),
        forged != log[at].previous_cid,
    ensures
        !linked(with_forged_link(log, at, forged)),
        first_break(with_forged_link(log, at, forged), at),
        forall|other: int| #[trigger] first_break(with_forged_link(log, at, forged), other) ==> other == at,
{
    let forgery = with_forged_link(log, at, forged);
    assert(log[at].previous_cid == Some(log[at - 1].cid));
    assert(forgery[at].previous_cid != Some(forgery[at - 1].cid));
    assert forall|k: int| 1 <= k < at implies (#[trigger] forgery[k]).previous_cid == Some(forgery[k - 1].cid) by {
        assert(log[k].previous_cid == Some(log[k - 1].cid));
    }
    assert(first_break(forgery, at));
    assert forall|other: int| #[trigger] first_break(forgery, other) implies other == at by {
        lemma_first_break_is_unique(forgery, other, at);
    }
}

/// Replay picks by workflow and by nothing else: what it returns belongs to
/// the workflow, and what belongs to the workflow it returns.
pub proof fn lemma_replay_is_exact(log: Seq<ChainedView>, workflow_id: Seq<char>)
    ensures
        forall|i: int|
            0 <= i < entries_of(log, workflow_id).len() ==> (#[trigger] entries_of(
                log,
                workflow_id,
            )[i]).event.workflow_id() == workflow_id && log.contains(entries_of(log, workflow_id)[i]),
        forall|i: int|
            0 <= i < log.len() && (#[trigger] log[i]).event.workflow_id() == workflow_id ==> entries_of(
                log,
                workflow_id,
            ).contains(log[i]),
{
    let keep = |entry: ChainedView| entry.event.workflow_id() == workflow_id;
    let replayed = log.filter(keep);
    assert forall|i: int| 0 <= i < replayed.len() implies (#[trigger] replayed[i]).event.workflow_id()
        == workflow_id && log.contains(replayed[i]) by {
        log.lemma_filter_pred(keep, i);
        assert(replayed.contains(replayed[i]));
        log.lemma_filter_contains_rev(keep, replayed[i]);
    }
    assert forall|i: int| 0 <= i < log.len() && (#[trigger] log[i]).event.workflow_id() == workflow_id implies replayed.contains(
        log[i],
    ) by {
        log.lemma_filter_contains(keep, i);
    }
}

/// Replay keeps the order of the log: the replay of a log followed by
/// another is the replay of the one followed by the replay of the other. So
/// an entry of another workflow, wherever it stands among the entries of
/// this one, changes nothing in what is replayed for this one.
pub proof fn lemma_replay_keeps_order(earlier: Seq<ChainedView>, later: Seq<ChainedView>, workflow_id: Seq<char>)
    ensures
        entries_of(earlier + later, workflow_id) == entries_of(earlier, workflow_id) + entries_of(
            later,
            workflow_id,
        ),
{
    let keep = |entry: ChainedView| entry.event.workflow_id() == workflow_id;
    Seq::filter_distributes_over_add(earlier, later, keep);
}

/// The replay of a log with one more entry: the entry comes last where it
/// belongs to the workflow, and is left out where it belongs to another.
pub proof fn lemma_replay_after_append(log: Seq<ChainedView>, entry: ChainedView, workflow_id: Seq<char>)
    ensures
        entries_of(log.push(entry), workflow_id) == if entry.event.workflow_id() == workflow_id {
            entries_of(log, workflow_id).push(entry)
        } else {
            entries_of(log, workflow_id)
        },
{
    reveal(Seq::filter);
    assert(log.push(entry).drop_last() =~= log);
}

/// A snapshot brings back the log that it was taken of: after the live log
/// was emptied, restoring the snapshot by its address gives the entries as
/// they were, with their addresses, sequence numbers and events.
pub proof fn lemma_snapshot_round_trip(store: EventStoreView)
    ensures
        store.snapshotted().cleared().restored(snapshot_address(store.events)).events == store.events,
        store.snapshotted().cleared().restored(snapshot_address(store.events)).snapshots
            == store.snapshotted().snapshots,
{
}

} // verus!
