use cim_workflow_graph::{
    Cid, WorkflowDomainEvent, WorkflowEventStore, WorkflowGraphError,
};
use std::time::{SystemTime, UNIX_EPOCH};

fn now() -> u64 {
    SystemTime::now().duration_since(UNIX_EPOCH).unwrap().as_millis() as u64
}

/// What a store is seen to do, for comparing with what was expected.
#[derive(Debug, PartialEq)]
enum WorkflowEventStoreEvent {
    WorkflowEventStoreInitialized,
    WorkflowEventPersisted { event_id: String, cid: Cid, previous_cid: Option<Cid> },
    CIDChainValidated { start_cid: Cid, end_cid: Cid, length: usize },
    WorkflowEventsReplayed { count: usize, workflow_id: String },
    SnapshotCreated { snapshot_cid: Cid, event_count: usize },
    SnapshotRestored { snapshot_cid: Cid, restored_count: usize },
}

struct WorkflowEventStreamValidator {
    expected_events: Vec<WorkflowEventStoreEvent>,
    captured_events: Vec<WorkflowEventStoreEvent>,
}

impl WorkflowEventStreamValidator {
    fn new() -> Self {
        Self { expected_events: Vec::new(), captured_events: Vec::new() }
    }

    fn expect_sequence(mut self, events: Vec<WorkflowEventStoreEvent>) -> Self {
        self.expected_events = events;
        self
    }

    fn capture_event(&mut self, event: WorkflowEventStoreEvent) {
        self.captured_events.push(event);
    }

    fn validate(&self) -> Result<(), String> {
        if self.captured_events.len() != self.expected_events.len() {
            return Err(format!(
                "Event count mismatch: expected {}, got {}",
                self.expected_events.len(),
                self.captured_events.len()
            ));
        }
        for (i, (expected, actual)) in
            self.expected_events.iter().zip(self.captured_events.iter()).enumerate()
        {
            if expected != actual {
                return Err(format!(
                    "Event mismatch at position {}: expected {:?}, got {:?}",
                    i, expected, actual
                ));
            }
        }
        Ok(())
    }
}

fn created(workflow_id: &str, name: &str, description: &str) -> WorkflowDomainEvent {
    WorkflowDomainEvent::WorkflowCreated {
        workflow_id: workflow_id.to_string(),
        name: name.to_string(),
        description: description.to_string(),
        timestamp: now(),
    }
}

#[test]
fn test_workflow_event_store_initialization() {
    let mut validator = WorkflowEventStreamValidator::new()
        .expect_sequence(vec![WorkflowEventStoreEvent::WorkflowEventStoreInitialized]);

    let store = WorkflowEventStore::new();
    validator.capture_event(WorkflowEventStoreEvent::WorkflowEventStoreInitialized);

    assert!(validator.validate().is_ok());
    assert_eq!(store.events.len(), 0);
}

#[test]
fn test_workflow_event_persistence_with_cid() {
    let mut store = WorkflowEventStore::new();
    let mut validator = WorkflowEventStreamValidator::new();

    let event = WorkflowDomainEvent::WorkflowCreated {
        workflow_id: "wf-123".to_string(),
        name: "Test Workflow".to_string(),
        description: "A test workflow".to_string(),
        timestamp: now(),
    };

    let appended = store.append_event(event);
    let (event_id, cid, previous_cid) =
        (appended.event_id, appended.cid, appended.previous_cid);

    assert!(previous_cid.is_none());
    assert!(!event_id.is_empty());
    assert_eq!(appended.sequence, 0);
    assert_eq!(event_id, "evt_0");

    validator.capture_event(WorkflowEventStoreEvent::WorkflowEventPersisted {
        event_id,
        cid,
        previous_cid,
    });
}

#[test]
fn test_workflow_lifecycle_cid_chain() {
    let mut store = WorkflowEventStore::new();
    let mut validator = WorkflowEventStreamValidator::new();
    let workflow_id = "wf-lifecycle";

    let event1 = WorkflowDomainEvent::WorkflowCreated {
        workflow_id: workflow_id.to_string(),
        name: "Lifecycle Test".to_string(),
        description: "Testing workflow lifecycle".to_string(),
        timestamp: now(),
    };
    let event2 = WorkflowDomainEvent::StepAdded {
        workflow_id: workflow_id.to_string(),
        step_id: "step-1".to_string(),
        name: "First Step".to_string(),
        step_type: "Manual".to_string(),
        timestamp: now(),
    };
    let event3 = WorkflowDomainEvent::WorkflowStarted {
        workflow_id: workflow_id.to_string(),
        context: Vec::new(),
        timestamp: now(),
    };
    let event4 = WorkflowDomainEvent::StepCompleted {
        workflow_id: workflow_id.to_string(),
        step_id: "step-1".to_string(),
        result: "Success".to_string(),
        timestamp: now(),
    };
    let event5 = WorkflowDomainEvent::WorkflowCompleted {
        workflow_id: workflow_id.to_string(),
        status: "Completed".to_string(),
        timestamp: now(),
    };

    store.append_event(event1);
    store.append_event(event2);
    store.append_event(event3);
    store.append_event(event4);
    store.append_event(event5);

    let (start_cid, end_cid, length) = store.validate_chain().unwrap();

    assert_eq!(length, 5);
    assert_ne!(start_cid, end_cid);

    validator.capture_event(WorkflowEventStoreEvent::CIDChainValidated {
        start_cid,
        end_cid,
        length,
    });
}

#[test]
fn test_workflow_event_replay() {
    let mut store = WorkflowEventStore::new();
    let mut validator = WorkflowEventStreamValidator::new();
    let workflow_id = "wf-replay";

    store.append_event(created(workflow_id, "Replay Test", "Testing replay"));
    store.append_event(created("other-workflow", "Other Workflow", "Different workflow"));
    store.append_event(WorkflowDomainEvent::StepAdded {
        workflow_id: workflow_id.to_string(),
        step_id: "step-1".to_string(),
        name: "Test Step".to_string(),
        step_type: "Automated".to_string(),
        timestamp: now(),
    });

    let replayed = store.replay_events(workflow_id);

    assert_eq!(replayed.len(), 2);

    validator.capture_event(WorkflowEventStoreEvent::WorkflowEventsReplayed {
        count: replayed.len(),
        workflow_id: workflow_id.to_string(),
    });
}

#[test]
fn test_workflow_snapshot_creation_and_restoration() {
    let mut store = WorkflowEventStore::new();
    let mut validator = WorkflowEventStreamValidator::new();

    for i in 0..3 {
        store.append_event(WorkflowDomainEvent::WorkflowCreated {
            workflow_id: format!("wf-{}", i),
            name: format!("Workflow {}", i),
            description: "Test workflow".to_string(),
            timestamp: now(),
        });
    }

    let snapshot_cid = store.create_snapshot().unwrap();

    validator.capture_event(WorkflowEventStoreEvent::SnapshotCreated {
        snapshot_cid: snapshot_cid.clone(),
        event_count: 3,
    });

    store.events.clear();
    let restored_count = store.restore_from_snapshot(&snapshot_cid).unwrap();

    assert_eq!(restored_count, 3);
    assert_eq!(store.events.len(), 3);

    validator.capture_event(WorkflowEventStoreEvent::SnapshotRestored {
        snapshot_cid,
        restored_count,
    });
}

#[test]
fn test_broken_chain_detection() {
    let mut store = WorkflowEventStore::new();

    store.append_event(created("wf-1", "Workflow 1", "Test"));
    store.append_event(WorkflowDomainEvent::StepAdded {
        workflow_id: "wf-1".to_string(),
        step_id: "step-1".to_string(),
        name: "Step 1".to_string(),
        step_type: "Manual".to_string(),
        timestamp: now(),
    });

    if let Some(event) = store.events.get_mut(1) {
        event.previous_cid = Some(Cid::new(b"broken"));
    }

    let result = store.validate_chain();

    assert!(result.is_err());
    assert!(result.unwrap_err().message().contains("Chain broken"));
}

#[test]
fn test_step_completion_event() {
    let mut store = WorkflowEventStore::new();

    let event = WorkflowDomainEvent::StepCompleted {
        workflow_id: "wf-test".to_string(),
        step_id: "step-complete".to_string(),
        result: "Success with output data".to_string(),
        timestamp: now(),
    };

    let appended = store.append_event(event.clone());
    let (event_id, cid) = (appended.event_id, appended.cid);

    assert_eq!(store.events.len(), 1);
    match &store.events[0].event {
        WorkflowDomainEvent::StepCompleted { result, .. } => {
            assert_eq!(result, "Success with output data");
        }
        _ => panic!("Wrong event type"),
    }
    assert_eq!(store.events[0].event_id, event_id);
    assert_eq!(store.events[0].cid, cid);
}

#[test]
fn addresses_are_sha256_of_the_canonical_encoding() {
    // SHA-256 of "abc"
    assert_eq!(
        Cid::new(b"abc").to_hex(),
        "ba7816bf8f01cfea414140de5dae2223b00361a396177a9cb410ff61f20015ad"
    );
    assert_ne!(Cid::new(b"abc"), Cid::new(b"abd"));

    let event = WorkflowDomainEvent::WorkflowCompleted {
        workflow_id: "w".to_string(),
        status: "é".to_string(),
        timestamp: 0x0102030405060708,
    };
    let mut bytes: Vec<u8> = vec![5];
    bytes.extend_from_slice(&[0, 0, 0, 0, 0, 0, 0, 1]);
    bytes.extend_from_slice(b"w");
    bytes.extend_from_slice(&[0, 0, 0, 0, 0, 0, 0, 2]);
    bytes.extend_from_slice("é".as_bytes());
    bytes.extend_from_slice(&[1, 2, 3, 4, 5, 6, 7, 8]);
    let mut first = bytes.clone();
    first.extend_from_slice(&[0u8; 32]);

    let mut store = WorkflowEventStore::new();
    let one = store.append_event(event.clone());
    assert_eq!(one.cid, Cid::new(&first));
    assert_eq!(one.previous_cid, None);

    let mut second = bytes.clone();
    second.extend_from_slice(one.cid.as_bytes());
    let two = store.append_event(event);
    assert_eq!(two.cid, Cid::new(&second));
    assert_eq!(two.previous_cid, Some(one.cid.clone()));
    assert_eq!(two.sequence, 1);
    assert_eq!(two.event_id, "evt_1");
    assert_eq!(store.events[1].sequence, 1);
    assert_ne!(one.cid, two.cid);
}

#[test]
fn every_kind_of_event_has_its_own_encoding() {
    let events = vec![
        WorkflowDomainEvent::WorkflowCreated {
            workflow_id: "w".to_string(),
            name: "n".to_string(),
            description: "d".to_string(),
            timestamp: 1,
        },
        WorkflowDomainEvent::StepAdded {
            workflow_id: "w".to_string(),
            step_id: "s".to_string(),
            name: "n".to_string(),
            step_type: "t".to_string(),
            timestamp: 1,
        },
        WorkflowDomainEvent::WorkflowStarted {
            workflow_id: "w".to_string(),
            context: vec![("k".to_string(), "v".to_string())],
            timestamp: 1,
        },
        WorkflowDomainEvent::WorkflowStarted {
            workflow_id: "w".to_string(),
            context: vec![],
            timestamp: 1,
        },
        WorkflowDomainEvent::StepCompleted {
            workflow_id: "w".to_string(),
            step_id: "s".to_string(),
            result: "r".to_string(),
            timestamp: 1,
        },
        WorkflowDomainEvent::WorkflowCompleted {
            workflow_id: "w".to_string(),
            status: "s".to_string(),
            timestamp: 1,
        },
    ];
    let mut cids = Vec::new();
    for event in events {
        let mut store = WorkflowEventStore::new();
        cids.push(store.append_event(event).cid);
    }
    for i in 0..cids.len() {
        for j in 0..i {
            assert_ne!(cids[i], cids[j]);
        }
    }
    // a started workflow, byte for byte: tag, workflow, number of pairs, pairs, time
    let mut bytes: Vec<u8> = vec![3];
    bytes.extend_from_slice(&[0, 0, 0, 0, 0, 0, 0, 1]);
    bytes.extend_from_slice(b"w");
    bytes.extend_from_slice(&[0, 0, 0, 0, 0, 0, 0, 1]);
    bytes.extend_from_slice(&[0, 0, 0, 0, 0, 0, 0, 1]);
    bytes.extend_from_slice(b"k");
    bytes.extend_from_slice(&[0, 0, 0, 0, 0, 0, 0, 1]);
    bytes.extend_from_slice(b"v");
    bytes.extend_from_slice(&[0, 0, 0, 0, 0, 0, 0, 1]);
    bytes.extend_from_slice(&[0u8; 32]);
    assert_eq!(cids[2], Cid::new(&bytes));
}

#[test]
fn an_empty_log_is_neither_valid_nor_snapshotted() {
    let mut store = WorkflowEventStore::new();
    assert!(matches!(store.validate_chain(), Err(WorkflowGraphError::EmptyLog)));
    assert!(matches!(store.create_snapshot(), Err(WorkflowGraphError::EmptyLog)));
    assert!(store.snapshots.is_empty());
    assert!(store.replay_events("wf").is_empty());
}

#[test]
fn a_forged_link_is_reported_where_it_is() {
    for forged_at in 1..4usize {
        let mut store = WorkflowEventStore::new();
        for i in 0..4 {
            store.append_event(created(&format!("wf-{i}"), "n", "d"));
        }
        assert!(store.validate_chain().is_ok());
        let expected = store.events[forged_at - 1].cid.clone();
        store.events[forged_at].previous_cid = Some(Cid::new(b"broken"));
        match store.validate_chain() {
            Err(WorkflowGraphError::ChainBroken { sequence, expected: e, actual }) => {
                assert_eq!(sequence, forged_at);
                assert_eq!(e, expected);
                assert_eq!(actual, Some(Cid::new(b"broken")));
            }
            other => panic!("{other:?}"),
        }
        store.events[forged_at].previous_cid = None;
        assert!(matches!(
            store.validate_chain(),
            Err(WorkflowGraphError::ChainBroken { sequence, actual: None, .. }) if sequence == forged_at
        ));
    }
}

#[test]
fn the_first_of_two_breaks_is_reported() {
    let mut store = WorkflowEventStore::new();
    for i in 0..5 {
        store.append_event(created(&format!("wf-{i}"), "n", "d"));
    }
    store.events[3].previous_cid = None;
    store.events[2].previous_cid = None;
    let message = store.validate_chain().unwrap_err().message();
    let expected = store.events[1].cid.to_hex();
    assert_eq!(message, format!("Chain broken at sequence 2: expected {expected}, got none"));
}

#[test]
fn replay_is_by_workflow_in_order_and_repeatable() {
    let mut store = WorkflowEventStore::new();
    let order = ["wf-A", "wf-B", "wf-B", "wf-A", "wf-A", "wf-B"];
    for (i, id) in order.iter().enumerate() {
        store.append_event(created(id, &format!("event {i}"), "d"));
    }
    let a = store.replay_events("wf-A");
    let sequences: Vec<u64> = a.iter().map(|e| e.sequence).collect();
    assert_eq!(sequences, vec![0, 3, 4]);
    for entry in &a {
        assert_eq!(entry.event.workflow_id(), "wf-A");
        let stored = &store.events[entry.sequence as usize];
        assert_eq!(entry.event, stored.event);
        assert_eq!(entry.cid, stored.cid);
        assert_eq!(entry.previous_cid, stored.previous_cid);
        assert_eq!(entry.event_id, stored.event_id);
    }
    let again = store.replay_events("wf-A");
    assert_eq!(again.len(), a.len());
    for (x, y) in a.iter().zip(again.iter()) {
        assert_eq!(x.cid, y.cid);
        assert_eq!(x.sequence, y.sequence);
    }
    let b: Vec<u64> = store.replay_events("wf-B").iter().map(|e| e.sequence).collect();
    assert_eq!(b, vec![1, 2, 5]);
    assert!(store.replay_events("wf-C").is_empty());
    assert_eq!(store.events.len(), 6);
}

#[test]
fn a_snapshot_restores_the_log_as_it_was() {
    let mut store = WorkflowEventStore::new();
    for i in 0..4 {
        store.append_event(created(&format!("wf-{i}"), &format!("Workflow {i}"), "d"));
    }
    let captured: Vec<(u64, Cid, Option<Cid>, WorkflowDomainEvent, String)> = store
        .events
        .iter()
        .map(|e| (e.sequence, e.cid.clone(), e.previous_cid.clone(), e.event.clone(), e.event_id.clone()))
        .collect();
    let snapshot_cid = store.create_snapshot().unwrap();
    assert_eq!(store.events.len(), 4);

    store.append_event(created("late", "n", "d"));
    let second = store.create_snapshot().unwrap();
    assert_ne!(snapshot_cid, second);

    store.events.clear();
    assert_eq!(store.restore_from_snapshot(&snapshot_cid).unwrap(), 4);
    let restored: Vec<(u64, Cid, Option<Cid>, WorkflowDomainEvent, String)> = store
        .events
        .iter()
        .map(|e| (e.sequence, e.cid.clone(), e.previous_cid.clone(), e.event.clone(), e.event_id.clone()))
        .collect();
    assert_eq!(restored, captured);
    assert!(store.validate_chain().is_ok());

    assert_eq!(store.restore_from_snapshot(&second).unwrap(), 5);
    assert_eq!(store.events.len(), 5);

    let unknown = Cid::new(b"no such snapshot");
    match store.restore_from_snapshot(&unknown) {
        Err(WorkflowGraphError::NotFound(name)) => assert_eq!(name, unknown.to_hex()),
        other => panic!("{other:?}"),
    }
    assert_eq!(store.events.len(), 5);
}
