//! End-to-end tests of the coordinator: fan-out of content to tasks,
//! distribution to live executors, leader failover, and feature
//! ingestion routing.

use indexify_raft_core::coordinator::Coordinator;
use indexify_raft_core::coordinator::IngestInstruction;
use indexify_raft_core::entities::ContentMetadata;
use indexify_raft_core::entities::ExtractedContent;
use indexify_raft_core::entities::ExtractorBinding;
use indexify_raft_core::entities::ExtractorDescription;
use indexify_raft_core::entities::ExtractorHeartbeat;
use indexify_raft_core::entities::Feature;
use indexify_raft_core::entities::FeatureKind;
use indexify_raft_core::entities::LabelPair;
use indexify_raft_core::entities::LogId;
use indexify_raft_core::entities::TaskResult;
use indexify_raft_core::entities::TaskStatus;
use indexify_raft_core::state_machine::Entry;
use indexify_raft_core::state_machine::EntryPayload;
use indexify_raft_core::state_machine::Request;
use indexify_raft_core::state_machine::StateMachine;

fn content(id: &str, repository: &str, labels: Vec<(&str, &str)>) -> ContentMetadata {
    ContentMetadata {
        id: id.to_string(),
        repository: repository.to_string(),
        source_ref: format!("src-of-{}", id),
        labels: labels
            .into_iter()
            .map(|(k, v)| LabelPair {
                key: k.to_string(),
                value: v.to_string(),
            })
            .collect(),
        mime: "text/plain".to_string(),
    }
}

fn binding(id: &str, repository: &str, extractor: &str, filters: Vec<(&str, &str)>) -> ExtractorBinding {
    ExtractorBinding {
        id: id.to_string(),
        repository: repository.to_string(),
        extractor_name: extractor.to_string(),
        input_params: "{}".to_string(),
        filters: filters
            .into_iter()
            .map(|(k, v)| LabelPair {
                key: k.to_string(),
                value: v.to_string(),
            })
            .collect(),
    }
}

fn heartbeat(executor_id: &str, extractor: &str) -> ExtractorHeartbeat {
    ExtractorHeartbeat {
        executor_id: executor_id.to_string(),
        addr: format!("{}:8080", executor_id),
        extractor: ExtractorDescription {
            name: extractor.to_string(),
            input_schema: "{}".to_string(),
            output_features: vec!["embedding".to_string()],
        },
    }
}

/// Wrap requests as log entries from `next_index` on and apply them.
fn commit(sm: &mut StateMachine, next_index: &mut u64, reqs: Vec<Request>, now: u64) {
    let mut entries: Vec<Entry> = Vec::new();
    for req in reqs {
        *next_index += 1;
        entries.push(Entry {
            log_id: LogId {
                leader_id: 1,
                index: *next_index,
            },
            payload: EntryPayload::Normal(req),
        });
    }
    sm.apply_to_state_machine(&entries, now);
}

/// One coordinator cycle: derive commands from the snapshot, commit them.
fn cycle(sm: &mut StateMachine, next_index: &mut u64, coordinator: &Coordinator, now: u64) {
    let cmds = coordinator.process_and_distribute_work(sm, now).unwrap();
    commit(sm, next_index, cmds, now);
}

#[test]
fn content_fans_out_to_both_bindings() {
    // Scenario: repository R holds two bindings for different
    // extractors, each with one live executor; submitting one content
    // yields exactly two tasks, one per executor.
    let mut sm = StateMachine::new();
    let mut idx: u64 = 0;
    let coordinator = Coordinator::new(30);
    commit(
        &mut sm,
        &mut idx,
        vec![
            Request::ExecutorHeartbeat { executor: heartbeat("x1", "E1") },
            Request::ExecutorHeartbeat { executor: heartbeat("x2", "E2") },
            Request::CreateBinding { binding: binding("b1", "R", "E1", vec![]) },
            Request::CreateBinding { binding: binding("b2", "R", "E2", vec![]) },
        ],
        100,
    );
    // Close the binding events first; the repository has no content yet.
    cycle(&mut sm, &mut idx, &coordinator, 101);
    commit(
        &mut sm,
        &mut idx,
        vec![Request::CreateContent { content_metadata: content("c1", "R", vec![]) }],
        102,
    );
    // First cycle creates the tasks; the next one distributes them.
    cycle(&mut sm, &mut idx, &coordinator, 103);
    cycle(&mut sm, &mut idx, &coordinator, 104);

    assert_eq!(sm.tasks.len(), 2);
    assert!(sm.tasks.get(&"b1:c1".to_string()).is_some());
    assert!(sm.tasks.get(&"b2:c1".to_string()).is_some());
    assert_eq!(sm.unassigned_tasks.len(), 0);
    let x1_tasks = coordinator.get_work_for_worker(&sm, &"x1".to_string());
    assert_eq!(x1_tasks.len(), 1);
    assert_eq!(x1_tasks[0].id, "b1:c1");
    assert_eq!(x1_tasks[0].extractor_name, "E1");
    let x2_tasks = coordinator.get_work_for_worker(&sm, &"x2".to_string());
    assert_eq!(x2_tasks.len(), 1);
    assert_eq!(x2_tasks[0].id, "b2:c1");
    let ev = sm.extraction_events.get(&"ev-c:c1".to_string()).unwrap();
    assert!(ev.processed_at.is_some());
    assert_eq!(sm.unprocessed_extraction_events.len(), 0);
}

#[test]
fn task_without_live_executor_waits_for_one() {
    // Scenario: a binding for an extractor nobody serves; the task is
    // created and parked, and a later heartbeat gets it assigned.
    let mut sm = StateMachine::new();
    let mut idx: u64 = 0;
    let coordinator = Coordinator::new(30);
    commit(
        &mut sm,
        &mut idx,
        vec![Request::CreateBinding { binding: binding("b3", "R", "E3", vec![]) }],
        100,
    );
    cycle(&mut sm, &mut idx, &coordinator, 101);
    commit(
        &mut sm,
        &mut idx,
        vec![Request::CreateContent { content_metadata: content("c2", "R", vec![]) }],
        102,
    );
    cycle(&mut sm, &mut idx, &coordinator, 103);
    cycle(&mut sm, &mut idx, &coordinator, 104);
    assert_eq!(sm.tasks.len(), 1);
    assert!(sm.unassigned_tasks.contains(&"b3:c2".to_string()));
    let ev = sm.extraction_events.get(&"ev-c:c2".to_string()).unwrap();
    assert!(ev.processed_at.is_some());

    commit(
        &mut sm,
        &mut idx,
        vec![Request::ExecutorHeartbeat { executor: heartbeat("x3", "E3") }],
        105,
    );
    cycle(&mut sm, &mut idx, &coordinator, 106);
    assert_eq!(sm.unassigned_tasks.len(), 0);
    let assigned = sm.task_assignments.get(&"x3".to_string()).unwrap();
    assert!(assigned.contains(&"b3:c2".to_string()));
}

#[test]
fn expired_executor_is_not_assigned_work() {
    let mut sm = StateMachine::new();
    let mut idx: u64 = 0;
    let coordinator = Coordinator::new(30);
    commit(
        &mut sm,
        &mut idx,
        vec![
            Request::ExecutorHeartbeat { executor: heartbeat("x1", "E1") },
            Request::CreateBinding { binding: binding("b1", "R", "E1", vec![]) },
            Request::CreateContent { content_metadata: content("c1", "R", vec![]) },
        ],
        100,
    );
    cycle(&mut sm, &mut idx, &coordinator, 101);
    // The heartbeat is 99 seconds old at distribution time: expired.
    cycle(&mut sm, &mut idx, &coordinator, 199);
    assert!(sm.unassigned_tasks.contains(&"b1:c1".to_string()));
}

#[test]
fn new_leader_redoes_interrupted_distribution() {
    // Scenario: the leader fails after the tasks are committed but
    // before the assignment batch commits. The next leader re-observes
    // the same state and completes the work without duplicating tasks.
    let mut sm = StateMachine::new();
    let mut idx: u64 = 0;
    let coordinator = Coordinator::new(30);
    commit(
        &mut sm,
        &mut idx,
        vec![
            Request::ExecutorHeartbeat { executor: heartbeat("x1", "E1") },
            Request::CreateBinding { binding: binding("b1", "R", "E1", vec![]) },
            Request::CreateContent { content_metadata: content("c1", "R", vec![]) },
        ],
        100,
    );
    // The dying leader derives commands but only the task-creation part
    // commits; the marks and the assignment batch are lost.
    let cmds = coordinator.process_and_distribute_work(&sm, 101).unwrap();
    let only_creates: Vec<Request> = cmds
        .into_iter()
        .filter(|c| matches!(c, Request::CreateTasks { .. }))
        .collect();
    commit(&mut sm, &mut idx, only_creates, 101);
    assert_eq!(sm.tasks.len(), 1);
    assert_eq!(sm.unprocessed_extraction_events.len(), 2);

    // The new leader re-runs the whole cycle over the same state.
    cycle(&mut sm, &mut idx, &coordinator, 102);
    cycle(&mut sm, &mut idx, &coordinator, 103);
    assert_eq!(sm.tasks.len(), 1);
    assert_eq!(sm.unprocessed_extraction_events.len(), 0);
    assert_eq!(sm.unassigned_tasks.len(), 0);
    let assigned = sm.task_assignments.get(&"x1".to_string()).unwrap();
    assert_eq!(assigned.len(), 1);
    assert!(assigned.contains(&"b1:c1".to_string()));
}

#[test]
fn binding_filters_select_matching_content_only() {
    let mut sm = StateMachine::new();
    let mut idx: u64 = 0;
    let coordinator = Coordinator::new(30);
    commit(
        &mut sm,
        &mut idx,
        vec![
            Request::CreateContent {
                content_metadata: content("c1", "R", vec![("topic", "pipe")]),
            },
            Request::CreateContent {
                content_metadata: content("c2", "R", vec![("topic", "baz")]),
            },
            Request::CreateContent {
                content_metadata: content("c3", "other", vec![("topic", "pipe")]),
            },
            Request::CreateBinding {
                binding: binding("b1", "R", "E1", vec![("topic", "pipe")]),
            },
        ],
        100,
    );
    cycle(&mut sm, &mut idx, &coordinator, 101);
    // Only the content in R with the matching label gets a task.
    assert_eq!(sm.tasks.len(), 1);
    assert!(sm.tasks.get(&"b1:c1".to_string()).is_some());
}

#[test]
fn features_are_routed_to_their_indexes() {
    // Scenario: a finished task carries one embedding feature and one
    // metadata feature; each lands in its own index.
    let mut sm = StateMachine::new();
    let mut idx: u64 = 0;
    let coordinator = Coordinator::new(30);
    commit(
        &mut sm,
        &mut idx,
        vec![
            Request::ExecutorHeartbeat { executor: heartbeat("x1", "E1") },
            Request::CreateBinding { binding: binding("b1", "R", "E1", vec![]) },
            Request::CreateContent { content_metadata: content("c1", "R", vec![]) },
        ],
        100,
    );
    cycle(&mut sm, &mut idx, &coordinator, 101);
    let results = vec![TaskResult {
        task_id: "b1:c1".to_string(),
        status: TaskStatus::Success,
        extracted_content: vec![
            ExtractedContent {
                source_text: Some("hello".to_string()),
                feature: Some(Feature {
                    name: "f_emb".to_string(),
                    kind: FeatureKind::Embedding,
                    data: "[0.25,0.75]".to_string(),
                }),
            },
            ExtractedContent {
                source_text: None,
                feature: Some(Feature {
                    name: "f_meta".to_string(),
                    kind: FeatureKind::Metadata,
                    data: "{\"lang\":\"en\"}".to_string(),
                }),
            },
        ],
    }];
    let plan = coordinator.write_extracted_data(&sm, &results);
    assert_eq!(plan.len(), 2);
    match &plan[0] {
        IngestInstruction::AddEmbedding {
            repository,
            index_name,
            content_id,
            text,
            data,
        } => {
            assert_eq!(repository, "R");
            assert_eq!(index_name, "b1-f_emb");
            assert_eq!(content_id, "c1");
            assert_eq!(text, "hello");
            assert_eq!(data, "[0.25,0.75]");
        }
        other => panic!("expected an embedding instruction, got {:?}", other),
    }
    match &plan[1] {
        IngestInstruction::AddAttributes {
            repository,
            index_name,
            content_id,
            extractor_name,
            data,
        } => {
            assert_eq!(repository, "R");
            assert_eq!(index_name, "b1-f_meta");
            assert_eq!(content_id, "c1");
            assert_eq!(extractor_name, "E1");
            assert_eq!(data, "{\"lang\":\"en\"}");
        }
        other => panic!("expected an attributes instruction, got {:?}", other),
    }
}

#[test]
fn embedding_without_text_is_dropped() {
    let mut sm = StateMachine::new();
    let mut idx: u64 = 0;
    let coordinator = Coordinator::new(30);
    commit(
        &mut sm,
        &mut idx,
        vec![
            Request::CreateBinding { binding: binding("b1", "R", "E1", vec![]) },
            Request::CreateContent { content_metadata: content("c1", "R", vec![]) },
        ],
        100,
    );
    cycle(&mut sm, &mut idx, &coordinator, 101);
    let results = vec![TaskResult {
        task_id: "b1:c1".to_string(),
        status: TaskStatus::Failure,
        extracted_content: vec![ExtractedContent {
            source_text: None,
            feature: Some(Feature {
                name: "f_emb".to_string(),
                kind: FeatureKind::Embedding,
                data: "[1.0]".to_string(),
            }),
        }],
    }];
    let plan = coordinator.write_extracted_data(&sm, &results);
    assert_eq!(plan.len(), 0);
}

#[test]
fn get_executor_picks_a_registered_one() {
    let mut sm = StateMachine::new();
    let mut idx: u64 = 0;
    let coordinator = Coordinator::new(30);
    commit(
        &mut sm,
        &mut idx,
        vec![Request::ExecutorHeartbeat { executor: heartbeat("x1", "E1") }],
        100,
    );
    let md = coordinator.get_executor(&sm, &"E1".to_string()).unwrap();
    assert_eq!(md.id, "x1");
    assert_eq!(md.extractor.name, "E1");
    assert!(coordinator.get_executor(&sm, &"E9".to_string()).is_err());
    let all = coordinator.get_executors(&sm);
    assert_eq!(all.len(), 1);
}

#[test]
fn test_create_work() {
    // One binding, two contents, one live executor: processing and
    // distribution queue both tasks for that worker.
    let mut sm = StateMachine::new();
    let mut idx: u64 = 0;
    let coordinator = Coordinator::new(30);
    commit(
        &mut sm,
        &mut idx,
        vec![
            Request::ExecutorHeartbeat { executor: heartbeat("x1", "E1") },
            Request::CreateBinding {
                binding: binding("test_extractor_binding", "R", "E1", vec![]),
            },
            Request::CreateContent {
                content_metadata: content("hello", "R", vec![("topic", "pipe")]),
            },
            Request::CreateContent {
                content_metadata: content("world", "R", vec![("topic", "baz")]),
            },
        ],
        100,
    );
    cycle(&mut sm, &mut idx, &coordinator, 101);
    cycle(&mut sm, &mut idx, &coordinator, 102);
    let work_list = coordinator.get_work_for_worker(&sm, &"x1".to_string());
    assert_eq!(work_list.len(), 2);
}

#[test]
fn finished_work_is_recorded_and_not_redistributed() {
    // The bridge records the terminal state through consensus before
    // fanning features out; the settled task never reappears in any
    // assignment set or in the waiting set.
    let mut sm = StateMachine::new();
    let mut idx: u64 = 0;
    let coordinator = Coordinator::new(30);
    commit(
        &mut sm,
        &mut idx,
        vec![
            Request::ExecutorHeartbeat { executor: heartbeat("x1", "E1") },
            Request::CreateBinding { binding: binding("b1", "R", "E1", vec![]) },
            Request::CreateContent { content_metadata: content("c1", "R", vec![]) },
        ],
        100,
    );
    cycle(&mut sm, &mut idx, &coordinator, 101);
    cycle(&mut sm, &mut idx, &coordinator, 102);
    let results = vec![TaskResult {
        task_id: "b1:c1".to_string(),
        status: TaskStatus::Success,
        extracted_content: vec![],
    }];
    let updates = coordinator.status_updates(&results);
    assert_eq!(updates.len(), 1);
    commit(&mut sm, &mut idx, updates, 103);
    assert_eq!(
        sm.tasks.get(&"b1:c1".to_string()).unwrap().status,
        TaskStatus::Success
    );
    let assigned = sm.task_assignments.get(&"x1".to_string()).unwrap();
    assert_eq!(assigned.len(), 0);
    // A further cycle finds nothing to do for the settled task.
    cycle(&mut sm, &mut idx, &coordinator, 104);
    assert_eq!(sm.unassigned_tasks.len(), 0);
    assert_eq!(coordinator.get_work_for_worker(&sm, &"x1".to_string()).len(), 0);
}

#[test]
fn assignments_come_in_ascending_task_id_order() {
    let mut sm = StateMachine::new();
    let mut idx: u64 = 0;
    let coordinator = Coordinator::new(30);
    commit(
        &mut sm,
        &mut idx,
        vec![
            Request::ExecutorHeartbeat { executor: heartbeat("x1", "E1") },
            Request::CreateBinding { binding: binding("b2", "R", "E1", vec![]) },
            Request::CreateBinding { binding: binding("b1", "R", "E1", vec![]) },
            Request::CreateContent { content_metadata: content("c1", "R", vec![]) },
        ],
        100,
    );
    cycle(&mut sm, &mut idx, &coordinator, 101);
    let pairs = coordinator.distribute_work(&sm, 102);
    let ids: Vec<String> = pairs.iter().map(|p| p.0.clone()).collect();
    assert_eq!(ids, vec!["b1:c1".to_string(), "b2:c1".to_string()]);
}
