//! The standing invariants of the replicated state, and the laws the
//! transition function obeys: idempotent task creation, event closure,
//! determinism, and the accounting equation between waiting tasks,
//! assigned tasks and live tasks.

use vstd::prelude::*;

use crate::entities::ExtractionEventPayloadView;
use crate::entities::TaskStatus;
use crate::entities::TaskView;
use crate::state_machine::apply_assign;
use crate::state_machine::apply_assign_one;
use crate::state_machine::apply_create_one_task;
use crate::state_machine::apply_create_tasks;
use crate::state_machine::apply_entries_spec;
use crate::state_machine::apply_entry_spec;
use crate::state_machine::apply_mark_processed;
use crate::state_machine::apply_update_task;
use crate::state_machine::apply_request_spec;
use crate::state_machine::sm_init;
use crate::state_machine::EntryPayloadView;
use crate::state_machine::EntryView;
use crate::state_machine::RequestView;
use crate::state_machine::SmView;
use crate::state_machine::StateMachine;
use crate::strset::StrSet;
use crate::table::lemma_map_of_index;

verus! {

/// The standing invariant of the replicated state.
///
/// Reading it clause by clause: the unassigned set is exactly the set of
/// tasks whose status is `Unassigned`; every task is keyed by its own id,
/// is in a pre-terminal status, and references existing content; an
/// assignment set holds only `Assigned` tasks, every `Assigned` task sits
/// in some assignment set, and no task sits in two; the unprocessed set
/// is exactly the events without a `processed_at` stamp, each keyed by
/// its id, and an unprocessed content-creation trigger always names
/// stored content; the capability table names exactly the executors
/// currently advertising that extractor, keyed by their ids; contents
/// and bindings are keyed by their ids.
///
/// Tasks deliberately do not reference the extractor registry: a
/// binding may fan a task out for an extractor that no executor has
/// advertised yet, and the task waits until one does.
pub open spec fn sm_inv(m: SmView) -> bool {
    &&& forall|id: Seq<char>| #[trigger]
        m.unassigned_tasks.contains(id) ==> m.tasks.contains_key(id) && m.tasks[id].status
            is Unassigned
    &&& forall|id: Seq<char>| #[trigger]
        m.tasks.contains_key(id) ==> m.tasks[id].id == id && !(m.tasks[id].status is Running)
            && m.content_table.contains_key(
            m.tasks[id].content_id,
        ) && (m.tasks[id].status is Unassigned ==> m.unassigned_tasks.contains(id)) && (
        m.tasks[id].status is Assigned ==> exists|e: Seq<char>|
            #![trigger m.task_assignments[e]]
            m.task_assignments.contains_key(e) && m.task_assignments[e].contains(id))
    &&& forall|e: Seq<char>, id: Seq<char>|
        m.task_assignments.contains_key(e) && #[trigger] m.task_assignments[e].contains(id)
            ==> m.tasks.contains_key(id) && m.tasks[id].status is Assigned
    &&& forall|e1: Seq<char>, e2: Seq<char>, id: Seq<char>|
        #![trigger m.task_assignments[e1].contains(id), m.task_assignments[e2].contains(id)]
        m.task_assignments.contains_key(e1) && m.task_assignments.contains_key(e2)
            && m.task_assignments[e1].contains(id) && m.task_assignments[e2].contains(id) ==> e1
            == e2
    &&& forall|id: Seq<char>| #[trigger]
        m.unprocessed_extraction_events.contains(id) ==> m.extraction_events.contains_key(id)
            && m.extraction_events[id].processed_at is None && (
        m.extraction_events[id].payload matches ExtractionEventPayloadView::ContentCreated {
            content_id,
        } ==> m.content_table.contains_key(content_id))
    &&& forall|id: Seq<char>| #[trigger]
        m.extraction_events.contains_key(id) ==> m.extraction_events[id].id == id && (
        m.extraction_events[id].processed_at is None ==> m.unprocessed_extraction_events.contains(
            id,
        ))
    &&& forall|name: Seq<char>, id: Seq<char>|
        m.extractors_table.contains_key(name) && #[trigger] m.extractors_table[name].contains(id)
            ==> m.executors.contains_key(id) && m.executors[id].extractor.name == name
    &&& forall|id: Seq<char>| #[trigger] m.executors.contains_key(id) ==> m.executors[id].id == id
    &&& forall|id: Seq<char>| #[trigger] m.content_table.contains_key(id)
        ==> m.content_table[id].id == id
    &&& forall|id: Seq<char>| #[trigger] m.bindings_table.contains_key(id)
        ==> m.bindings_table[id].id == id
}

/// What the coordinator is obliged to ensure before proposing: created
/// tasks start out unassigned and reference existing content.
pub open spec fn valid_request(m: SmView, req: RequestView) -> bool {
    match req {
        RequestView::CreateTasks { tasks } => forall|i: int|
            0 <= i < tasks.len() ==> (#[trigger] tasks[i]).status is Unassigned
                && m.content_table.contains_key(tasks[i].content_id),
        RequestView::AddExtractionEvent { event } => event.processed_at is None && (event.payload
            matches ExtractionEventPayloadView::ContentCreated { content_id }
            ==> m.content_table.contains_key(content_id)),
        _ => true,
    }
}

pub open spec fn valid_entry(m: SmView, e: EntryView) -> bool {
    match e.payload {
        EntryPayloadView::Normal(req) => valid_request(m, req),
        _ => true,
    }
}

pub open spec fn valid_entries(m: SmView, es: Seq<EntryView>, now: u64) -> bool
    decreases es.len(),
{
    es.len() == 0 || (valid_entry(m, es[0]) && valid_entries(
        apply_entry_spec(m, es[0], now),
        es.drop_first(),
        now,
    ))
}

/// A fresh state machine satisfies the invariant.
pub proof fn lemma_init_inv()
    ensures
        sm_inv(sm_init()),
{
}

proof fn lemma_create_one_preserves_inv(m: SmView, t: TaskView)
    requires
        sm_inv(m),
        t.status is Unassigned,
        m.content_table.contains_key(t.content_id),
    ensures
        sm_inv(apply_create_one_task(m, t)),
        apply_create_one_task(m, t).content_table == m.content_table,
{
    let m1 = apply_create_one_task(m, t);
    assert(m1.task_assignments == m.task_assignments);
    assert(m1.extraction_events == m.extraction_events);
    assert(m1.unprocessed_extraction_events == m.unprocessed_extraction_events);
    assert(m1.extractors_table == m.extractors_table);
    assert(m1.executors == m.executors);
    assert(m1.content_table == m.content_table);
    assert(m1.bindings_table == m.bindings_table);
    if !m.tasks.contains_key(t.id) {
        assert forall|id: Seq<char>| #[trigger]
            m1.tasks.contains_key(id) implies m1.tasks[id].id == id && !(m1.tasks[id].status
            is Running) && m1.content_table.contains_key(
            m1.tasks[id].content_id,
        ) && (m1.tasks[id].status is Unassigned ==> m1.unassigned_tasks.contains(id)) && (
        m1.tasks[id].status is Assigned ==> exists|e: Seq<char>|
            #![trigger m1.task_assignments[e]]
            m1.task_assignments.contains_key(e) && m1.task_assignments[e].contains(id)) by {
            if id != t.id {
                assert(m.tasks.contains_key(id));
                if m.tasks[id].status is Assigned {
                    let e = choose|e: Seq<char>|
                        #![trigger m.task_assignments[e]]
                        m.task_assignments.contains_key(e) && m.task_assignments[e].contains(id);
                    assert(m1.task_assignments.contains_key(e));
                    assert(m1.task_assignments[e].contains(id));
                }
            }
        }
        assert forall|e: Seq<char>, id: Seq<char>|
            m1.task_assignments.contains_key(e) && #[trigger] m1.task_assignments[e].contains(
            id,
        ) implies m1.tasks.contains_key(id) && m1.tasks[id].status is Assigned by {
            assert(m.task_assignments.contains_key(e) && m.task_assignments[e].contains(id));
            assert(m.tasks.contains_key(id));
            assert(id != t.id);
        }
    }
}

proof fn lemma_create_tasks_preserves_inv(m: SmView, ts: Seq<TaskView>)
    requires
        sm_inv(m),
        forall|i: int| 0 <= i < ts.len() ==> (#[trigger] ts[i]).status is Unassigned
            && m.content_table.contains_key(ts[i].content_id),
    ensures
        sm_inv(apply_create_tasks(m, ts)),
        apply_create_tasks(m, ts).content_table == m.content_table,
    decreases ts.len(),
{
    if ts.len() > 0 {
        lemma_create_one_preserves_inv(m, ts[0]);
        let m1 = apply_create_one_task(m, ts[0]);
        assert forall|i: int| 0 <= i < ts.drop_first().len() implies (#[trigger] ts.drop_first()[i])
            .status is Unassigned && m1.content_table.contains_key(
            ts.drop_first()[i].content_id,
        ) by {
            assert(ts.drop_first()[i] == ts[i + 1]);
        }
        lemma_create_tasks_preserves_inv(m1, ts.drop_first());
    }
}

proof fn lemma_assign_one_preserves_inv(m: SmView, task_id: Seq<char>, executor_id: Seq<char>)
    requires
        sm_inv(m),
    ensures
        sm_inv(apply_assign_one(m, task_id, executor_id)),
{
    let m1 = apply_assign_one(m, task_id, executor_id);
    if m.unassigned_tasks.contains(task_id) && m.tasks.contains_key(task_id)
        && m.executors.contains_key(executor_id) && m.executors[executor_id].extractor.name
        == m.tasks[task_id].extractor_name {
        assert forall|id: Seq<char>| #[trigger]
            m1.tasks.contains_key(id) implies m1.tasks[id].id == id && !(m1.tasks[id].status
            is Running) && m1.content_table.contains_key(
            m1.tasks[id].content_id,
        ) && (m1.tasks[id].status is Unassigned ==> m1.unassigned_tasks.contains(id)) && (
        m1.tasks[id].status is Assigned ==> exists|e: Seq<char>|
            #![trigger m1.task_assignments[e]]
            m1.task_assignments.contains_key(e) && m1.task_assignments[e].contains(id)) by {
            if id == task_id {
                assert(m1.task_assignments.contains_key(executor_id));
                assert(m1.task_assignments[executor_id].contains(id));
            } else {
                assert(m.tasks.contains_key(id));
                if m.tasks[id].status is Assigned {
                    let e = choose|e: Seq<char>|
                        #![trigger m.task_assignments[e]]
                        m.task_assignments.contains_key(e) && m.task_assignments[e].contains(id);
                    assert(m1.task_assignments.contains_key(e));
                    assert(m1.task_assignments[e].contains(id));
                }
            }
        }
    }
}

proof fn lemma_update_task_preserves_inv(m: SmView, task_id: Seq<char>, status: TaskStatus)
    requires
        sm_inv(m),
    ensures
        sm_inv(apply_update_task(m, task_id, status)),
{
    let m1 = apply_update_task(m, task_id, status);
    if m.tasks.contains_key(task_id) && m.tasks[task_id].status is Assigned && (status is Success
        || status is Failure) {
        assert(m1.unassigned_tasks == m.unassigned_tasks);
        assert(m1.extraction_events == m.extraction_events);
        assert(m1.unprocessed_extraction_events == m.unprocessed_extraction_events);
        assert(m1.extractors_table == m.extractors_table);
        assert(m1.executors == m.executors);
        assert(m1.content_table == m.content_table);
        assert(m1.bindings_table == m.bindings_table);
        assert forall|id: Seq<char>| #[trigger]
            m1.unassigned_tasks.contains(id) implies m1.tasks.contains_key(id) && m1.tasks[id]
            .status is Unassigned by {
            assert(m.unassigned_tasks.contains(id));
            assert(id != task_id);
        }
        assert forall|id: Seq<char>| #[trigger]
            m1.tasks.contains_key(id) implies m1.tasks[id].id == id && !(m1.tasks[id].status
            is Running) && m1.content_table.contains_key(m1.tasks[id].content_id) && (
        m1.tasks[id].status is Unassigned ==> m1.unassigned_tasks.contains(id)) && (m1.tasks[id]
            .status is Assigned ==> exists|e: Seq<char>|
            #![trigger m1.task_assignments[e]]
            m1.task_assignments.contains_key(e) && m1.task_assignments[e].contains(id)) by {
            if id != task_id {
                assert(m.tasks.contains_key(id));
                if m.tasks[id].status is Assigned {
                    let e = choose|e: Seq<char>|
                        #![trigger m.task_assignments[e]]
                        m.task_assignments.contains_key(e) && m.task_assignments[e].contains(id);
                    assert(m1.task_assignments.contains_key(e));
                    assert(m1.task_assignments[e] == m.task_assignments[e].remove(task_id));
                    assert(m1.task_assignments[e].contains(id));
                }
            }
        }
        assert forall|e: Seq<char>, id: Seq<char>|
            m1.task_assignments.contains_key(e) && #[trigger] m1.task_assignments[e].contains(
            id,
        ) implies m1.tasks.contains_key(id) && m1.tasks[id].status is Assigned by {
            assert(m.task_assignments.contains_key(e));
            assert(m1.task_assignments[e] == m.task_assignments[e].remove(task_id));
            assert(m.task_assignments[e].contains(id));
            assert(id != task_id);
        }
        assert forall|e1: Seq<char>, e2: Seq<char>, id: Seq<char>|
            #![trigger m1.task_assignments[e1].contains(id), m1.task_assignments[e2].contains(id)]
            m1.task_assignments.contains_key(e1) && m1.task_assignments.contains_key(e2)
                && m1.task_assignments[e1].contains(id) && m1.task_assignments[e2].contains(
                id,
            ) implies e1 == e2 by {
            assert(m1.task_assignments[e1] == m.task_assignments[e1].remove(task_id));
            assert(m1.task_assignments[e2] == m.task_assignments[e2].remove(task_id));
            assert(m.task_assignments[e1].contains(id));
            assert(m.task_assignments[e2].contains(id));
        }
        assert(sm_inv(m1));
    }
}

proof fn lemma_assign_preserves_inv(m: SmView, ps: Seq<(Seq<char>, Seq<char>)>)
    requires
        sm_inv(m),
    ensures
        sm_inv(apply_assign(m, ps)),
    decreases ps.len(),
{
    if ps.len() > 0 {
        lemma_assign_one_preserves_inv(m, ps[0].0, ps[0].1);
        lemma_assign_preserves_inv(apply_assign_one(m, ps[0].0, ps[0].1), ps.drop_first());
    }
}

/// Applying any valid command preserves the invariant.
pub proof fn lemma_apply_request_preserves_inv(m: SmView, req: RequestView, now: u64)
    requires
        sm_inv(m),
        valid_request(m, req),
    ensures
        sm_inv(apply_request_spec(m, req, now)),
{
    match req {
        RequestView::CreateTasks { tasks } => {
            lemma_create_tasks_preserves_inv(m, tasks);
        },
        RequestView::AssignTask { assignments } => {
            lemma_assign_preserves_inv(m, assignments);
        },
        RequestView::UpdateTask { task_id, status } => {
            lemma_update_task_preserves_inv(m, task_id, status);
        },
        RequestView::SetKv { key, value } => {
            let m1 = apply_request_spec(m, req, now);
            assert(m1.tasks == m.tasks);
            assert(m1.unassigned_tasks == m.unassigned_tasks);
            assert(m1.task_assignments == m.task_assignments);
            assert(m1.extraction_events == m.extraction_events);
            assert(m1.unprocessed_extraction_events == m.unprocessed_extraction_events);
            assert(m1.extractors_table == m.extractors_table);
            assert(m1.executors == m.executors);
            assert(m1.content_table == m.content_table);
            assert(m1.bindings_table == m.bindings_table);
            assert(sm_inv(m1));
        },
        RequestView::ExecutorHeartbeat { executor } => {
            let m1 = apply_request_spec(m, req, now);
            assert(m1.tasks == m.tasks);
            assert(m1.unassigned_tasks == m.unassigned_tasks);
            assert(m1.task_assignments == m.task_assignments);
            assert(m1.extraction_events == m.extraction_events);
            assert(m1.unprocessed_extraction_events == m.unprocessed_extraction_events);
            assert(m1.content_table == m.content_table);
            assert(m1.bindings_table == m.bindings_table);
            let hbname = executor.extractor.name;
            let hbid = executor.executor_id;
            assert forall|name: Seq<char>, id: Seq<char>|
                m1.extractors_table.contains_key(name) && #[trigger] m1.extractors_table[name]
                    .contains(id) implies m1.executors.contains_key(id)
                && m1.executors[id].extractor.name == name by {
                if name == hbname {
                    if id != hbid {
                        assert(m.extractors_table.contains_key(name) && m.extractors_table[name]
                            .contains(id));
                        assert(m.executors[id].extractor.name == name);
                    }
                } else {
                    assert(m.extractors_table.contains_key(name));
                    if m.executors.contains_key(hbid) && m.executors[hbid].extractor.name != hbname
                        && m.executors[hbid].extractor.name == name {
                        assert(m.extractors_table[name].contains(id));
                        assert(id != hbid);
                    } else {
                        assert(m.extractors_table[name].contains(id));
                        if id == hbid {
                            assert(m.executors.contains_key(hbid));
                            assert(m.executors[hbid].extractor.name == name);
                            assert(false);
                        }
                    }
                    assert(m.executors.contains_key(id) && m.executors[id].extractor.name == name);
                }
            }
            assert forall|id: Seq<char>| #[trigger]
                m1.executors.contains_key(id) implies m1.executors[id].id == id by {
                if id != executor.executor_id {
                    assert(m.executors.contains_key(id));
                }
            }
            assert(sm_inv(m1));
        },
        RequestView::AddExtractionEvent { event } => {
            let m1 = apply_request_spec(m, req, now);
            assert(m1.tasks == m.tasks);
            assert(m1.unassigned_tasks == m.unassigned_tasks);
            assert(m1.task_assignments == m.task_assignments);
            assert(m1.extractors_table == m.extractors_table);
            assert(m1.executors == m.executors);
            assert(m1.content_table == m.content_table);
            assert(m1.bindings_table == m.bindings_table);
            assert forall|id: Seq<char>| #[trigger]
                m1.unprocessed_extraction_events.contains(id) implies m1.extraction_events
                .contains_key(id) && m1.extraction_events[id].processed_at is None && (
            m1.extraction_events[id].payload matches ExtractionEventPayloadView::ContentCreated {
                content_id,
            } ==> m1.content_table.contains_key(content_id)) by {
                if id != event.id {
                    assert(m.unprocessed_extraction_events.contains(id));
                }
            }
            assert forall|id: Seq<char>| #[trigger]
                m1.extraction_events.contains_key(id) implies m1.extraction_events[id].id == id && (
            m1.extraction_events[id].processed_at is None
                ==> m1.unprocessed_extraction_events.contains(id)) by {
                if id != event.id {
                    assert(m.extraction_events.contains_key(id));
                }
            }
            assert(sm_inv(m1));
        },
        RequestView::MarkExtractionEventProcessed { event_id } => {
            let m1 = apply_request_spec(m, req, now);
            assert(m1.tasks == m.tasks);
            assert(m1.unassigned_tasks == m.unassigned_tasks);
            assert(m1.task_assignments == m.task_assignments);
            assert(m1.extractors_table == m.extractors_table);
            assert(m1.executors == m.executors);
            assert(m1.content_table == m.content_table);
            assert(m1.bindings_table == m.bindings_table);
            assert forall|id: Seq<char>| #[trigger]
                m1.unprocessed_extraction_events.contains(id) implies m1.extraction_events
                .contains_key(id) && m1.extraction_events[id].processed_at is None && (
            m1.extraction_events[id].payload matches ExtractionEventPayloadView::ContentCreated {
                content_id,
            } ==> m1.content_table.contains_key(content_id)) by {
                assert(m.unprocessed_extraction_events.contains(id));
                assert(id != event_id);
            }
            assert forall|id: Seq<char>| #[trigger]
                m1.extraction_events.contains_key(id) implies m1.extraction_events[id].id == id && (
            m1.extraction_events[id].processed_at is None
                ==> m1.unprocessed_extraction_events.contains(id)) by {
                assert(m.extraction_events.contains_key(id));
            }
            assert(sm_inv(m1));
        },
        RequestView::CreateContent { content_metadata } => {
            let m1 = apply_request_spec(m, req, now);
            let c = content_metadata;
            let eid = crate::state_machine::content_event_id(c.id);
            assert(m1.tasks == m.tasks);
            assert(m1.unassigned_tasks == m.unassigned_tasks);
            assert(m1.task_assignments == m.task_assignments);
            assert(m1.extractors_table == m.extractors_table);
            assert(m1.executors == m.executors);
            assert(m1.bindings_table == m.bindings_table);
            assert forall|id: Seq<char>| #[trigger]
                m1.tasks.contains_key(id) implies m1.tasks[id].id == id && !(m1.tasks[id].status
                is Running) && m1.content_table.contains_key(
                m1.tasks[id].content_id,
            ) && (m1.tasks[id].status is Unassigned ==> m1.unassigned_tasks.contains(id)) && (
            m1.tasks[id].status is Assigned ==> exists|e: Seq<char>|
                #![trigger m1.task_assignments[e]]
                m1.task_assignments.contains_key(e) && m1.task_assignments[e].contains(id)) by {
                assert(m.tasks.contains_key(id));
                assert(m.content_table.contains_key(m.tasks[id].content_id));
                if m.tasks[id].status is Assigned {
                    let e = choose|e: Seq<char>|
                        #![trigger m.task_assignments[e]]
                        m.task_assignments.contains_key(e) && m.task_assignments[e].contains(id);
                    assert(m1.task_assignments.contains_key(e));
                    assert(m1.task_assignments[e].contains(id));
                }
            }
            assert forall|id: Seq<char>| #[trigger]
                m1.unprocessed_extraction_events.contains(id) implies m1.extraction_events
                .contains_key(id) && m1.extraction_events[id].processed_at is None && (
            m1.extraction_events[id].payload matches ExtractionEventPayloadView::ContentCreated {
                content_id,
            } ==> m1.content_table.contains_key(content_id)) by {
                if id != eid {
                    assert(m.unprocessed_extraction_events.contains(id));
                    assert(m.extraction_events.contains_key(id));
                }
            }
            assert forall|id: Seq<char>| #[trigger]
                m1.extraction_events.contains_key(id) implies m1.extraction_events[id].id == id && (
            m1.extraction_events[id].processed_at is None
                ==> m1.unprocessed_extraction_events.contains(id)) by {
                if id != eid {
                    assert(m.extraction_events.contains_key(id));
                }
            }
            assert forall|id: Seq<char>| #[trigger]
                m1.content_table.contains_key(id) implies m1.content_table[id].id == id by {
                if id != c.id {
                    assert(m.content_table.contains_key(id));
                }
            }
            assert(sm_inv(m1));
        },
        RequestView::CreateBinding { binding } => {
            let m1 = apply_request_spec(m, req, now);
            let b = binding;
            let eid = crate::state_machine::binding_event_id(b.id);
            assert(m1.tasks == m.tasks);
            assert(m1.unassigned_tasks == m.unassigned_tasks);
            assert(m1.task_assignments == m.task_assignments);
            assert(m1.extractors_table == m.extractors_table);
            assert(m1.executors == m.executors);
            assert(m1.content_table == m.content_table);
            assert forall|id: Seq<char>| #[trigger]
                m1.unprocessed_extraction_events.contains(id) implies m1.extraction_events
                .contains_key(id) && m1.extraction_events[id].processed_at is None && (
            m1.extraction_events[id].payload matches ExtractionEventPayloadView::ContentCreated {
                content_id,
            } ==> m1.content_table.contains_key(content_id)) by {
                if id != eid {
                    assert(m.unprocessed_extraction_events.contains(id));
                    assert(m.extraction_events.contains_key(id));
                }
            }
            assert forall|id: Seq<char>| #[trigger]
                m1.extraction_events.contains_key(id) implies m1.extraction_events[id].id == id && (
            m1.extraction_events[id].processed_at is None
                ==> m1.unprocessed_extraction_events.contains(id)) by {
                if id != eid {
                    assert(m.extraction_events.contains_key(id));
                }
            }
            assert forall|id: Seq<char>| #[trigger]
                m1.bindings_table.contains_key(id) implies m1.bindings_table[id].id == id by {
                if id != b.id {
                    assert(m.bindings_table.contains_key(id));
                }
            }
            assert(sm_inv(m1));
        },
    }
}

/// Applying any valid entry preserves the invariant.
pub proof fn lemma_apply_entry_preserves_inv(m: SmView, e: EntryView, now: u64)
    requires
        sm_inv(m),
        valid_entry(m, e),
    ensures
        sm_inv(apply_entry_spec(m, e, now)),
{
    let m1 = SmView { last_applied_log: Some(e.log_id), ..m };
    assert(m1.tasks == m.tasks);
    assert(m1.unassigned_tasks == m.unassigned_tasks);
    assert(m1.task_assignments == m.task_assignments);
    assert(m1.extraction_events == m.extraction_events);
    assert(m1.unprocessed_extraction_events == m.unprocessed_extraction_events);
    assert(m1.extractors_table == m.extractors_table);
    assert(m1.executors == m.executors);
    assert(m1.content_table == m.content_table);
    assert(m1.bindings_table == m.bindings_table);
    assert(sm_inv(m1));
    match e.payload {
        EntryPayloadView::Normal(req) => {
            assert(valid_request(m1, req));
            lemma_apply_request_preserves_inv(m1, req, now);
        },
        EntryPayloadView::Blank => {
        },
        EntryPayloadView::Membership(nodes) => {
            let m2 = apply_entry_spec(m, e, now);
            assert(m2.tasks == m1.tasks);
            assert(m2.unassigned_tasks == m1.unassigned_tasks);
            assert(m2.task_assignments == m1.task_assignments);
            assert(m2.extraction_events == m1.extraction_events);
            assert(m2.unprocessed_extraction_events == m1.unprocessed_extraction_events);
            assert(m2.extractors_table == m1.extractors_table);
            assert(m2.executors == m1.executors);
            assert(m2.content_table == m1.content_table);
            assert(m2.bindings_table == m1.bindings_table);
            assert(sm_inv(m2));
        },
    }
}

/// Applying any valid batch of entries preserves the invariant.
pub proof fn lemma_apply_entries_preserves_inv(m: SmView, es: Seq<EntryView>, now: u64)
    requires
        sm_inv(m),
        valid_entries(m, es, now),
    ensures
        sm_inv(apply_entries_spec(m, es, now)),
    decreases es.len(),
{
    if es.len() > 0 {
        lemma_apply_entry_preserves_inv(m, es[0], now);
        lemma_apply_entries_preserves_inv(apply_entry_spec(m, es[0], now), es.drop_first(), now);
    }
}

/// Applying committed commands is a function of the prior state, the
/// commands and the apply-side clock readings alone: replicas that start
/// equal and apply the same entries end equal, so the snapshots built
/// from them hold identical contents, however they are serialized.
pub proof fn lemma_apply_deterministic(m1: SmView, m2: SmView, es: Seq<EntryView>, now: u64)
    requires
        m1 == m2,
    ensures
        apply_entries_spec(m1, es, now) == apply_entries_spec(m2, es, now),
{
}

/// Marking an event processed removes it from the unprocessed set and
/// stamps the stored event, in one transition.
pub proof fn lemma_mark_processed_closes(m: SmView, event_id: Seq<char>, now: u64)
    ensures
        !apply_mark_processed(m, event_id, now).unprocessed_extraction_events.contains(event_id),
        m.extraction_events.contains_key(event_id) ==> apply_mark_processed(
            m,
            event_id,
            now,
        ).extraction_events[event_id].processed_at == Some(now),
{
}

proof fn lemma_create_tasks_monotone(m: SmView, ts: Seq<TaskView>, k: Seq<char>)
    requires
        m.tasks.contains_key(k),
    ensures
        apply_create_tasks(m, ts).tasks.contains_key(k),
        apply_create_tasks(m, ts).tasks[k] == m.tasks[k],
    decreases ts.len(),
{
    if ts.len() > 0 {
        lemma_create_tasks_monotone(apply_create_one_task(m, ts[0]), ts.drop_first(), k);
    }
}

proof fn lemma_create_tasks_contains(m: SmView, ts: Seq<TaskView>, i: int)
    requires
        0 <= i < ts.len(),
    ensures
        apply_create_tasks(m, ts).tasks.contains_key(ts[i].id),
    decreases ts.len(),
{
    if i == 0 {
        lemma_create_tasks_monotone(apply_create_one_task(m, ts[0]), ts.drop_first(), ts[0].id);
    } else {
        lemma_create_tasks_contains(apply_create_one_task(m, ts[0]), ts.drop_first(), i - 1);
        assert(ts.drop_first()[i - 1] == ts[i]);
    }
}

proof fn lemma_create_tasks_noop(m: SmView, ts: Seq<TaskView>)
    requires
        forall|i: int| 0 <= i < ts.len() ==> m.tasks.contains_key((#[trigger] ts[i]).id),
    ensures
        apply_create_tasks(m, ts) == m,
    decreases ts.len(),
{
    if ts.len() > 0 {
        assert(apply_create_one_task(m, ts[0]) == m);
        assert forall|i: int| 0 <= i < ts.drop_first().len() implies m.tasks.contains_key(
            (#[trigger] ts.drop_first()[i]).id,
        ) by {
            assert(ts.drop_first()[i] == ts[i + 1]);
        }
        lemma_create_tasks_noop(m, ts.drop_first());
    }
}

/// Creating the same batch of tasks twice changes nothing after the
/// first time: task ids are deterministic, and creation inserts only
/// what is absent.
pub proof fn lemma_create_tasks_idempotent(m: SmView, ts: Seq<TaskView>)
    ensures
        apply_create_tasks(apply_create_tasks(m, ts), ts) == apply_create_tasks(m, ts),
{
    let m1 = apply_create_tasks(m, ts);
    assert forall|i: int| 0 <= i < ts.len() implies m1.tasks.contains_key(
        (#[trigger] ts[i]).id,
    ) by {
        lemma_create_tasks_contains(m, ts, i);
    }
    lemma_create_tasks_noop(m1, ts);
}

/// The union of the string sets stored in a table's entries.
pub open spec fn entries_union(s: Seq<(String, StrSet)>) -> Set<Seq<char>>
    decreases s.len(),
{
    if s.len() == 0 {
        Set::empty()
    } else {
        entries_union(s.drop_last()).union(s.last().1@)
    }
}

pub proof fn lemma_entries_union_contains(s: Seq<(String, StrSet)>, x: Seq<char>)
    ensures
        entries_union(s).contains(x) <==> exists|i: int|
            0 <= i < s.len() && (#[trigger] s[i].1)@.contains(x),
    decreases s.len(),
{
    if s.len() > 0 {
        lemma_entries_union_contains(s.drop_last(), x);
        if s.last().1@.contains(x) {
            assert(s[s.len() - 1].1@.contains(x));
        } else if entries_union(s).contains(x) {
            let i = choose|i: int| 0 <= i < s.drop_last().len() && (#[trigger] s.drop_last()[i].1)@
                .contains(x);
            assert(s[i].1@.contains(x));
        } else if exists|i: int| 0 <= i < s.len() && (#[trigger] s[i].1)@.contains(x) {
            let i = choose|i: int| 0 <= i < s.len() && (#[trigger] s[i].1)@.contains(x);
            assert(s.drop_last()[i].1@.contains(x));
        }
    }
}

/// The size of a disjoint union is the sum of the sizes.
pub proof fn lemma_disjoint_union_len<A>(s1: Set<A>, s2: Set<A>)
    requires
        s1.finite(),
        s2.finite(),
        s1.intersect(s2) =~= Set::empty(),
    ensures
        s1.union(s2).finite(),
        s1.union(s2).len() == s1.len() + s2.len(),
    decreases s1.len(),
{
    if s1.is_empty() {
        assert(s1.union(s2) =~= s2);
        assert(s1.len() == 0);
    } else {
        let a = s1.choose();
        assert(s1.contains(a));
        if s2.contains(a) {
            assert(s1.intersect(s2).contains(a));
            assert(Set::<A>::empty().contains(a));
        }
        assert(s1.remove(a).intersect(s2) =~= Set::empty());
        lemma_disjoint_union_len(s1.remove(a), s2);
        assert(s1.union(s2) =~= s1.remove(a).union(s2).insert(a));
        assert(!s1.remove(a).union(s2).contains(a));
    }
}

/// The sum of the sizes of the string sets stored in a table.
pub open spec fn sum_assigned(s: Seq<(String, StrSet)>) -> int
    decreases s.len(),
{
    if s.len() == 0 {
        0
    } else {
        sum_assigned(s.drop_last()) + s.last().1.items@.len()
    }
}

proof fn lemma_entries_union_len(s: Seq<(String, StrSet)>)
    requires
        forall|i: int| 0 <= i < s.len() ==> (#[trigger] s[i].1).wf(),
        forall|i: int, j: int|
            #![trigger s[i].1, s[j].1]
            0 <= i < j < s.len() ==> s[i].1@.intersect(s[j].1@) =~= Set::empty(),
    ensures
        entries_union(s).finite(),
        entries_union(s).len() == sum_assigned(s),
    decreases s.len(),
{
    if s.len() > 0 {
        lemma_entries_union_len(s.drop_last());
        let last = s.last().1;
        last.lemma_distinct();
        assert forall|x: Seq<char>| entries_union(s.drop_last()).contains(x) implies !last@
            .contains(x) by {
            lemma_entries_union_contains(s.drop_last(), x);
            let i = choose|i: int| 0 <= i < s.drop_last().len() && (#[trigger] s.drop_last()[i].1)@
                .contains(x);
            assert(s.drop_last()[i].1 == s[i].1);
            assert(s[i].1@.contains(x));
            assert(s[i].1@.intersect(s[s.len() - 1].1@) =~= Set::empty());
            if last@.contains(x) {
                assert(s[s.len() - 1].1@.contains(x));
                assert(s[i].1@.intersect(s[s.len() - 1].1@).contains(x));
            }
        }
        assert(entries_union(s.drop_last()).intersect(last@) =~= Set::empty());
        lemma_disjoint_union_len(entries_union(s.drop_last()), last@);
    }
}

/// The set of live tasks: present and not in a terminal status.
pub open spec fn active_tasks(m: SmView) -> Set<Seq<char>> {
    m.tasks.dom().filter(|id: Seq<char>| !m.tasks[id].status.is_terminal())
}

/// The accounting equation the scheduler preserves: every live task is
/// waiting or assigned to exactly one executor, so the number of waiting
/// tasks plus the sizes of all executors' assignment sets equals the
/// number of tasks in a pre-terminal status.
pub proof fn lemma_task_accounting(sm: &StateMachine)
    requires
        sm.wf(),
        sm_inv(sm@),
    ensures
        active_tasks(sm@).finite(),
        sm.unassigned_tasks.items@.len() + sum_assigned(sm.task_assignments.entries@)
            == active_tasks(sm@).len(),
{
    let m = sm@;
    let u = m.unassigned_tasks;
    let s = sm.task_assignments.entries@;
    let a = entries_union(s);
    sm.unassigned_tasks.lemma_distinct();
    // The stored sets belong to distinct executors, so they are disjoint.
    assert forall|i: int, j: int|
        #![trigger s[i].1, s[j].1]
        0 <= i < j < s.len() implies s[i].1@.intersect(s[j].1@) =~= Set::empty() by {
        lemma_map_of_index(s, i);
        lemma_map_of_index(s, j);
        assert forall|x: Seq<char>| !(s[i].1@.contains(x) && s[j].1@.contains(x)) by {
            if s[i].1@.contains(x) && s[j].1@.contains(x) {
                assert(m.task_assignments.contains_key(s[i].0@));
                assert(m.task_assignments.contains_key(s[j].0@));
                assert(m.task_assignments[s[i].0@].contains(x));
                assert(m.task_assignments[s[j].0@].contains(x));
                assert(s[i].0@ == s[j].0@);
            }
        }
    }
    assert forall|i: int| 0 <= i < s.len() implies (#[trigger] s[i].1).wf() by {}
    lemma_entries_union_len(s);
    // Membership in the union is membership in some executor's set.
    assert forall|x: Seq<char>| a.contains(x) implies m.tasks.contains_key(x)
        && m.tasks[x].status is Assigned by {
        lemma_entries_union_contains(s, x);
        let i = choose|i: int| 0 <= i < s.len() && (#[trigger] s[i].1)@.contains(x);
        lemma_map_of_index(s, i);
        assert(m.task_assignments.contains_key(s[i].0@));
        assert(m.task_assignments[s[i].0@].contains(x));
    }
    // The waiting set and the union partition the live tasks.
    assert(u.intersect(a) =~= Set::empty());
    assert forall|x: Seq<char>| active_tasks(m).contains(x) implies u.union(a).contains(x) by {
        assert(m.tasks.contains_key(x));
        if m.tasks[x].status is Assigned {
            let e = choose|e: Seq<char>|
                #![trigger m.task_assignments[e]]
                m.task_assignments.contains_key(e) && m.task_assignments[e].contains(x);
            crate::table::lemma_map_of_contains(s, e);
            let i = choose|i: int| 0 <= i < s.len() && s[i].0@ == e;
            lemma_map_of_index(s, i);
            assert(s[i].1@.contains(x));
            lemma_entries_union_contains(s, x);
        }
    }
    assert forall|x: Seq<char>| u.union(a).contains(x) implies active_tasks(m).contains(x) by {
        if u.contains(x) {
            assert(m.tasks.contains_key(x) && m.tasks[x].status is Unassigned);
        }
    }
    assert(active_tasks(m) =~= u.union(a));
    lemma_disjoint_union_len(u, a);
}

} // verus!
