//! Tests of the state machine's apply path: command effects, event
//! closure, idempotent task creation, and the sorted bookkeeping sets.

use indexify_raft_core::entities::ContentMetadata;
use indexify_raft_core::entities::ExtractorBinding;
use indexify_raft_core::entities::ExtractorDescription;
use indexify_raft_core::entities::ExtractorHeartbeat;
use indexify_raft_core::entities::LabelPair;
use indexify_raft_core::entities::LogId;
use indexify_raft_core::entities::Task;
use indexify_raft_core::entities::TaskStatus;
use indexify_raft_core::state_machine::Entry;
use indexify_raft_core::state_machine::EntryPayload;
use indexify_raft_core::state_machine::Request;
use indexify_raft_core::state_machine::StateMachine;

fn entry(index: u64, req: Request) -> Entry {
    Entry {
        log_id: LogId { leader_id: 1, index },
        payload: EntryPayload::Normal(req),
    }
}

fn content(id: &str, repository: &str, labels: Vec<(&str, &str)>) -> ContentMetadata {
    ContentMetadata {
        id: id.to_string(),
        repository: repository.to_string(),
        source_ref: format!("src-of-{}", id),
        labels: labels
            .into_iter()
            .map(|(k, v)| LabelPair {
                key: k.to_string(),
                value: v.to_string(),
            })
            .collect(),
        mime: "text/plain".to_string(),
    }
}

fn binding(id: &str, repository: &str, extractor: &str, filters: Vec<(&str, &str)>) -> ExtractorBinding {
    ExtractorBinding {
        id: id.to_string(),
        repository: repository.to_string(),
        extractor_name: extractor.to_string(),
        input_params: "{}".to_string(),
        filters: filters
            .into_iter()
            .map(|(k, v)| LabelPair {
                key: k.to_string(),
                value: v.to_string(),
            })
            .collect(),
    }
}

fn heartbeat(executor_id: &str, extractor: &str) -> ExtractorHeartbeat {
    ExtractorHeartbeat {
        executor_id: executor_id.to_string(),
        addr: format!("{}:8080", executor_id),
        extractor: ExtractorDescription {
            name: extractor.to_string(),
            input_schema: "{}".to_string(),
            output_features: vec!["embedding".to_string()],
        },
    }
}

fn task(id: &str, extractor: &str, content_id: &str, binding: &str) -> Task {
    Task {
        id: id.to_string(),
        extractor_name: extractor.to_string(),
        repository: "R".to_string(),
        content_id: content_id.to_string(),
        extractor_binding: binding.to_string(),
        input_params: "{}".to_string(),
        status: TaskStatus::Unassigned,
    }
}

#[test]
fn set_returns_value_and_stores_it() {
    let mut sm = StateMachine::new();
    let r = sm.apply_entry(
        &entry(
            1,
            Request::SetKv {
                key: "cluster".to_string(),
                value: "alpha".to_string(),
            },
        ),
        10,
    );
    assert_eq!(r.value, Some("alpha".to_string()));
    assert_eq!(
        sm.data.get(&"cluster".to_string()),
        Some(&"alpha".to_string())
    );
    assert_eq!(sm.last_applied_log, Some(LogId { leader_id: 1, index: 1 }));
}

#[test]
fn heartbeat_registers_executor_and_capability() {
    let mut sm = StateMachine::new();
    sm.apply_entry(
        &entry(
            1,
            Request::ExecutorHeartbeat {
                executor: heartbeat("x1", "E1"),
            },
        ),
        42,
    );
    let md = sm.executors.get(&"x1".to_string()).unwrap();
    assert_eq!(md.last_seen, 42);
    assert_eq!(md.extractor.name, "E1");
    let members = sm.extractors_table.get(&"E1".to_string()).unwrap();
    assert!(members.items.contains(&"x1".to_string()));
    assert!(sm.extractors.get(&"E1".to_string()).is_some());
}

#[test]
fn create_content_appends_extraction_event() {
    let mut sm = StateMachine::new();
    sm.apply_entry(
        &entry(
            1,
            Request::CreateContent {
                content_metadata: content("c1", "R", vec![]),
            },
        ),
        7,
    );
    assert!(sm.content_table.get(&"c1".to_string()).is_some());
    let ev = sm.extraction_events.get(&"ev-c:c1".to_string()).unwrap();
    assert_eq!(ev.created_at, 7);
    assert_eq!(ev.processed_at, None);
    assert!(sm
        .unprocessed_extraction_events
        .contains(&"ev-c:c1".to_string()));
}

#[test]
fn mark_processed_closes_event() {
    let mut sm = StateMachine::new();
    sm.apply_entry(
        &entry(
            1,
            Request::CreateContent {
                content_metadata: content("c1", "R", vec![]),
            },
        ),
        7,
    );
    sm.apply_entry(
        &entry(
            2,
            Request::MarkExtractionEventProcessed {
                event_id: "ev-c:c1".to_string(),
            },
        ),
        9,
    );
    assert!(!sm
        .unprocessed_extraction_events
        .contains(&"ev-c:c1".to_string()));
    let ev = sm.extraction_events.get(&"ev-c:c1".to_string()).unwrap();
    assert_eq!(ev.processed_at, Some(9));
}

#[test]
fn create_tasks_twice_changes_nothing_after_first() {
    let mut sm = StateMachine::new();
    sm.apply_entry(
        &entry(
            1,
            Request::CreateContent {
                content_metadata: content("c1", "R", vec![]),
            },
        ),
        5,
    );
    let tasks = vec![task("b1:c1", "E1", "c1", "b1"), task("b2:c1", "E2", "c1", "b2")];
    sm.apply_entry(
        &entry(
            2,
            Request::CreateTasks {
                tasks: tasks.clone(),
            },
        ),
        6,
    );
    let after_first = sm.duplicate();
    sm.apply_entry(&entry(3, Request::CreateTasks { tasks }), 8);
    // Only the applied-log bookkeeping moves; the contents are unchanged.
    assert_eq!(sm.tasks, after_first.tasks);
    assert_eq!(sm.unassigned_tasks, after_first.unassigned_tasks);
    assert_eq!(sm.task_assignments, after_first.task_assignments);
    assert_eq!(sm.tasks.len(), 2);
    assert_eq!(sm.unassigned_tasks.len(), 2);
}

#[test]
fn unassigned_tasks_iterate_in_ascending_id_order() {
    let mut sm = StateMachine::new();
    let tasks = vec![
        task("m:1", "E1", "c1", "m"),
        task("a:1", "E1", "c1", "a"),
        task("z:1", "E1", "c1", "z"),
    ];
    sm.apply_entry(&entry(1, Request::CreateTasks { tasks }), 1);
    let ids: Vec<String> = sm.unassigned_tasks.items.clone();
    assert_eq!(ids, vec!["a:1".to_string(), "m:1".to_string(), "z:1".to_string()]);
}

#[test]
fn assign_task_moves_task_to_executor() {
    let mut sm = StateMachine::new();
    sm.apply_entry(
        &entry(
            1,
            Request::ExecutorHeartbeat {
                executor: heartbeat("x1", "E1"),
            },
        ),
        1,
    );
    sm.apply_entry(
        &entry(
            2,
            Request::CreateTasks {
                tasks: vec![task("b1:c1", "E1", "c1", "b1")],
            },
        ),
        2,
    );
    sm.apply_entry(
        &entry(
            3,
            Request::AssignTask {
                assignments: vec![("b1:c1".to_string(), "x1".to_string())],
            },
        ),
        3,
    );
    assert!(!sm.unassigned_tasks.contains(&"b1:c1".to_string()));
    let assigned = sm.task_assignments.get(&"x1".to_string()).unwrap();
    assert!(assigned.contains(&"b1:c1".to_string()));
    assert_eq!(
        sm.tasks.get(&"b1:c1".to_string()).unwrap().status,
        TaskStatus::Assigned
    );
}

#[test]
fn assign_to_unsupported_executor_is_ignored() {
    let mut sm = StateMachine::new();
    sm.apply_entry(
        &entry(
            1,
            Request::ExecutorHeartbeat {
                executor: heartbeat("x2", "E2"),
            },
        ),
        1,
    );
    sm.apply_entry(
        &entry(
            2,
            Request::CreateTasks {
                tasks: vec![task("b1:c1", "E1", "c1", "b1")],
            },
        ),
        2,
    );
    sm.apply_entry(
        &entry(
            3,
            Request::AssignTask {
                assignments: vec![("b1:c1".to_string(), "x2".to_string())],
            },
        ),
        3,
    );
    // The executor does not support E1, so the edge is not applied.
    assert!(sm.unassigned_tasks.contains(&"b1:c1".to_string()));
    assert!(sm.task_assignments.get(&"x2".to_string()).is_none());
}

#[test]
fn create_binding_appends_extraction_event() {
    let mut sm = StateMachine::new();
    sm.apply_entry(
        &entry(
            1,
            Request::CreateBinding {
                binding: binding("b1", "R", "E1", vec![]),
            },
        ),
        3,
    );
    assert!(sm.bindings_table.get(&"b1".to_string()).is_some());
    assert!(sm
        .unprocessed_extraction_events
        .contains(&"ev-b:b1".to_string()));
}

#[test]
fn two_replicas_applying_same_entries_agree() {
    let entries: Vec<Entry> = vec![
        entry(
            1,
            Request::ExecutorHeartbeat {
                executor: heartbeat("x1", "E1"),
            },
        ),
        entry(
            2,
            Request::CreateBinding {
                binding: binding("b1", "R", "E1", vec![("topic", "pipe")]),
            },
        ),
        entry(
            3,
            Request::CreateContent {
                content_metadata: content("c1", "R", vec![("topic", "pipe")]),
            },
        ),
        entry(
            4,
            Request::CreateTasks {
                tasks: vec![task("b1:c1", "E1", "c1", "b1")],
            },
        ),
    ];
    let mut a = StateMachine::new();
    let mut b = StateMachine::new();
    a.apply_to_state_machine(&entries, 50);
    b.apply_to_state_machine(&entries, 50);
    assert_eq!(a, b);
}

#[test]
fn terminal_status_clears_the_assignment() {
    let mut sm = StateMachine::new();
    sm.apply_entry(
        &entry(
            1,
            Request::ExecutorHeartbeat {
                executor: heartbeat("x1", "E1"),
            },
        ),
        1,
    );
    sm.apply_entry(
        &entry(
            2,
            Request::CreateTasks {
                tasks: vec![task("b1:c1", "E1", "c1", "b1")],
            },
        ),
        2,
    );
    sm.apply_entry(
        &entry(
            3,
            Request::AssignTask {
                assignments: vec![("b1:c1".to_string(), "x1".to_string())],
            },
        ),
        3,
    );
    sm.apply_entry(
        &entry(
            4,
            Request::UpdateTask {
                task_id: "b1:c1".to_string(),
                status: TaskStatus::Success,
            },
        ),
        4,
    );
    assert_eq!(
        sm.tasks.get(&"b1:c1".to_string()).unwrap().status,
        TaskStatus::Success
    );
    let assigned = sm.task_assignments.get(&"x1".to_string()).unwrap();
    assert!(!assigned.contains(&"b1:c1".to_string()));
    assert_eq!(sm.unassigned_tasks.len(), 0);
}

#[test]
fn update_of_waiting_task_is_ignored() {
    let mut sm = StateMachine::new();
    sm.apply_entry(
        &entry(
            1,
            Request::CreateTasks {
                tasks: vec![task("b1:c1", "E1", "c1", "b1")],
            },
        ),
        1,
    );
    sm.apply_entry(
        &entry(
            2,
            Request::UpdateTask {
                task_id: "b1:c1".to_string(),
                status: TaskStatus::Failure,
            },
        ),
        2,
    );
    // A task that was never assigned cannot report an outcome.
    assert_eq!(
        sm.tasks.get(&"b1:c1".to_string()).unwrap().status,
        TaskStatus::Unassigned
    );
    assert!(sm.unassigned_tasks.contains(&"b1:c1".to_string()));
}

#[test]
fn heartbeat_with_new_extractor_moves_the_capability() {
    let mut sm = StateMachine::new();
    sm.apply_entry(
        &entry(
            1,
            Request::ExecutorHeartbeat {
                executor: heartbeat("x1", "E1"),
            },
        ),
        1,
    );
    sm.apply_entry(
        &entry(
            2,
            Request::ExecutorHeartbeat {
                executor: heartbeat("x1", "E2"),
            },
        ),
        2,
    );
    let old_set = sm.extractors_table.get(&"E1".to_string()).unwrap();
    assert!(!old_set.contains(&"x1".to_string()));
    let new_set = sm.extractors_table.get(&"E2".to_string()).unwrap();
    assert!(new_set.contains(&"x1".to_string()));
    assert_eq!(sm.executors.get(&"x1".to_string()).unwrap().extractor.name, "E2");
}
