//! Tests of the storage layer: snapshot round trips, snapshot ids, log
//! windows under purge and truncation, and the decimal renderer.

use indexify_raft_core::entities::ContentMetadata;
use indexify_raft_core::entities::ExtractorDescription;
use indexify_raft_core::entities::ExtractorHeartbeat;
use indexify_raft_core::entities::LogId;
use indexify_raft_core::entities::Vote;
use indexify_raft_core::state_machine::Entry;
use indexify_raft_core::state_machine::EntryPayload;
use indexify_raft_core::state_machine::Request;
use indexify_raft_core::store::u64_to_dec;
use indexify_raft_core::store::Store;

fn entry(index: u64, req: Request) -> Entry {
    Entry {
        log_id: LogId { leader_id: 1, index },
        payload: EntryPayload::Normal(req),
    }
}

fn set_kv(index: u64, k: &str, v: &str) -> Entry {
    entry(
        index,
        Request::SetKv {
            key: k.to_string(),
            value: v.to_string(),
        },
    )
}

#[test]
fn decimal_rendering_is_exact() {
    assert_eq!(u64_to_dec(0), "0");
    assert_eq!(u64_to_dec(7), "7");
    assert_eq!(u64_to_dec(10), "10");
    assert_eq!(u64_to_dec(1234567890), "1234567890");
    assert_eq!(u64_to_dec(u64::MAX), "18446744073709551615");
}

#[test]
fn snapshot_id_formats_leader_index_and_sequence() {
    let mut store = Store::new();
    let first = store.build_snapshot();
    assert_eq!(first.meta.snapshot_id, "--1");
    let entries = vec![set_kv(7, "a", "b")];
    store.apply_to_state_machine(&entries, 1);
    let second = store.build_snapshot();
    assert_eq!(second.meta.snapshot_id, "1-7-2");
}

#[test]
fn install_of_built_snapshot_is_a_no_op() {
    let mut store = Store::new();
    let entries = vec![
        set_kv(1, "k1", "v1"),
        entry(
            2,
            Request::CreateContent {
                content_metadata: ContentMetadata {
                    id: "c1".to_string(),
                    repository: "R".to_string(),
                    source_ref: "s".to_string(),
                    labels: vec![],
                    mime: "text/plain".to_string(),
                },
            },
        ),
    ];
    store.apply_to_state_machine(&entries, 5);
    let before = store.state_machine.duplicate();
    let snapshot = store.build_snapshot();
    store.install_snapshot(snapshot.meta, snapshot.data);
    assert_eq!(store.state_machine, before);
}

#[test]
fn snapshot_round_trip_over_many_commands() {
    let mut store = Store::new();
    let mut entries: Vec<Entry> = Vec::new();
    let mut index: u64 = 0;
    for i in 0..200 {
        index += 1;
        entries.push(set_kv(index, &format!("key-{}", i), &format!("value-{}", i)));
        index += 1;
        entries.push(entry(
            index,
            Request::CreateContent {
                content_metadata: ContentMetadata {
                    id: format!("c{}", i),
                    repository: "R".to_string(),
                    source_ref: format!("s{}", i),
                    labels: vec![],
                    mime: "text/plain".to_string(),
                },
            },
        ));
        index += 1;
        entries.push(entry(
            index,
            Request::ExecutorHeartbeat {
                executor: ExtractorHeartbeat {
                    executor_id: format!("x{}", i % 5),
                    addr: "h:1".to_string(),
                    extractor: ExtractorDescription {
                        name: format!("E{}", i % 3),
                        input_schema: "{}".to_string(),
                        output_features: vec![],
                    },
                },
            },
        ));
        index += 1;
        entries.push(entry(
            index,
            Request::MarkExtractionEventProcessed {
                event_id: format!("ev-c:c{}", i),
            },
        ));
        index += 1;
        entries.push(Entry {
            log_id: LogId {
                leader_id: 1,
                index,
            },
            payload: EntryPayload::Blank,
        });
    }
    assert_eq!(entries.len(), 1000);
    store.apply_to_state_machine(&entries, 77);
    let snapshot = store.build_snapshot();
    let mut fresh = Store::new();
    fresh.install_snapshot(snapshot.meta, snapshot.data);
    assert_eq!(fresh.state_machine, store.state_machine);
}

#[test]
fn purge_leaves_later_reads_unchanged() {
    let mut store = Store::new();
    let entries: Vec<Entry> = (1..=10).map(|i| set_kv(i, "k", "v")).collect();
    store.append_to_log(&entries);
    let before: Vec<Entry> = store.read_from(5);
    store.purge_logs_upto(LogId { leader_id: 1, index: 4 });
    let after: Vec<Entry> = store.read_from(5);
    assert_eq!(before, after);
    assert_eq!(after.len(), 6);
    assert_eq!(store.last_purged_log_id, Some(LogId { leader_id: 1, index: 4 }));
}

#[test]
fn truncate_drops_conflicting_suffix() {
    let mut store = Store::new();
    let entries: Vec<Entry> = (1..=10).map(|i| set_kv(i, "k", "v")).collect();
    store.append_to_log(&entries);
    store.delete_conflict_logs_since(LogId { leader_id: 2, index: 7 });
    let remaining = store.read_from(0);
    assert_eq!(remaining.len(), 6);
    assert_eq!(remaining.last().unwrap().log_id.index, 6);
}

#[test]
fn log_state_reports_purged_bound_when_log_is_empty() {
    let mut store = Store::new();
    assert_eq!(store.get_log_state(), (None, None));
    let entries: Vec<Entry> = (1..=3).map(|i| set_kv(i, "k", "v")).collect();
    store.append_to_log(&entries);
    let (purged, last) = store.get_log_state();
    assert_eq!(purged, None);
    assert_eq!(last, Some(LogId { leader_id: 1, index: 3 }));
    store.purge_logs_upto(LogId { leader_id: 1, index: 3 });
    let (purged, last) = store.get_log_state();
    assert_eq!(purged, Some(LogId { leader_id: 1, index: 3 }));
    assert_eq!(last, Some(LogId { leader_id: 1, index: 3 }));
}

#[test]
fn ranged_reads_respect_bounds() {
    let mut store = Store::new();
    let entries: Vec<Entry> = (1..=10).map(|i| set_kv(i, "k", "v")).collect();
    store.append_to_log(&entries);
    let window = store.try_get_log_entries(3, 6);
    let indexes: Vec<u64> = window.iter().map(|e| e.log_id.index).collect();
    assert_eq!(indexes, vec![3, 4, 5]);
}

#[test]
fn vote_is_persisted_and_read_back() {
    let mut store = Store::new();
    assert_eq!(store.read_vote(), None);
    let vote = Vote {
        term: 3,
        node_id: 2,
        committed: true,
    };
    store.save_vote(vote);
    assert_eq!(store.read_vote(), Some(vote));
}

#[test]
fn current_snapshot_is_remembered() {
    let mut store = Store::new();
    assert!(store.get_current_snapshot().is_none());
    store.apply_to_state_machine(&vec![set_kv(1, "a", "b")], 1);
    let built = store.build_snapshot();
    let current = store.get_current_snapshot().unwrap();
    assert_eq!(current.meta.snapshot_id, built.meta.snapshot_id);
    assert_eq!(current.data, built.data);
}
