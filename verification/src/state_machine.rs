//! The replicated state machine: the deterministic projection of the
//! committed command log.
//!
//! `apply_request_spec` is the mathematical transition function; the
//! executable `apply_request` is proved to refine it, so two replicas
//! that apply the same committed entries (with the same apply-side
//! timestamps) are in the same state. Commands that would violate the
//! state invariants — assigning a task that is not unassigned, or to an
//! executor that does not support it — are ignored rather than applied,
//! so that apply is total and replicas can never diverge on them.

use vstd::prelude::*;

use crate::entities::ContentMetadata;
use crate::entities::ContentMetadataView;
use crate::entities::ExecutorMetadata;
use crate::entities::ExecutorMetadataView;
use crate::entities::ExtractionEvent;
use crate::entities::ExtractionEventPayload;
use crate::entities::ExtractionEventPayloadView;
use crate::entities::ExtractionEventView;
use crate::entities::ExtractorBinding;
use crate::entities::ExtractorBindingView;
use crate::entities::ExtractorDescription;
use crate::entities::ExtractorDescriptionView;
use crate::entities::ExtractorHeartbeat;
use crate::entities::ExtractorHeartbeatView;
use crate::entities::LogId;
use crate::entities::StoredMembership;
use crate::entities::StoredMembershipView;
use crate::entities::Task;
use crate::entities::TaskStatus;
use crate::entities::TaskView;
use crate::strset::sets_wf;
use crate::strset::StrSet;
use crate::table::Dup;
use crate::table::Table;
use vstd::string::StringExecFns;

verus! {

/// A command proposed through consensus.
#[derive(Clone, PartialEq, Debug)]
pub enum Request {
    SetKv { key: String, value: String },
    ExecutorHeartbeat { executor: ExtractorHeartbeat },
    CreateTasks { tasks: Vec<Task> },
    AssignTask { assignments: Vec<(String, String)> },
    UpdateTask { task_id: String, status: TaskStatus },
    AddExtractionEvent { event: ExtractionEvent },
    MarkExtractionEventProcessed { event_id: String },
    CreateContent { content_metadata: ContentMetadata },
    CreateBinding { binding: ExtractorBinding },
}

pub enum RequestView {
    SetKv { key: Seq<char>, value: Seq<char> },
    ExecutorHeartbeat { executor: ExtractorHeartbeatView },
    CreateTasks { tasks: Seq<TaskView> },
    AssignTask { assignments: Seq<(Seq<char>, Seq<char>)> },
    UpdateTask { task_id: Seq<char>, status: TaskStatus },
    AddExtractionEvent { event: ExtractionEventView },
    MarkExtractionEventProcessed { event_id: Seq<char> },
    CreateContent { content_metadata: ContentMetadataView },
    CreateBinding { binding: ExtractorBindingView },
}

/// The view of an assignment pair list.
pub open spec fn pairs_view(ps: Seq<(String, String)>) -> Seq<(Seq<char>, Seq<char>)> {
    ps.map_values(|p: (String, String)| (p.0@, p.1@))
}

impl View for Request {
    type V = RequestView;

    open spec fn view(&self) -> RequestView {
        match self {
            Request::SetKv { key, value } => RequestView::SetKv { key: key@, value: value@ },
            Request::ExecutorHeartbeat { executor } => RequestView::ExecutorHeartbeat {
                executor: executor@,
            },
            Request::CreateTasks { tasks } => RequestView::CreateTasks {
                tasks: tasks@.map_values(|t: Task| t@),
            },
            Request::AssignTask { assignments } => RequestView::AssignTask {
                assignments: pairs_view(assignments@),
            },
            Request::UpdateTask { task_id, status } => RequestView::UpdateTask {
                task_id: task_id@,
                status: *status,
            },
            Request::AddExtractionEvent { event } => RequestView::AddExtractionEvent {
                event: event@,
            },
            Request::MarkExtractionEventProcessed { event_id } => {
                RequestView::MarkExtractionEventProcessed { event_id: event_id@ }
            },
            Request::CreateContent { content_metadata } => RequestView::CreateContent {
                content_metadata: content_metadata@,
            },
            Request::CreateBinding { binding } => RequestView::CreateBinding { binding: binding@ },
        }
    }
}

impl Dup for Request {
    fn duplicate(&self) -> (r: Self) {
        match self {
            Request::SetKv { key, value } => Request::SetKv {
                key: key.clone(),
                value: value.clone(),
            },
            Request::ExecutorHeartbeat { executor } => Request::ExecutorHeartbeat {
                executor: executor.duplicate(),
            },
            Request::CreateTasks { tasks } => {
                let n = tasks.len();
                let mut ts: Vec<Task> = Vec::new();
                let mut i: usize = 0;
                while i < n
                    invariant
                        n == tasks@.len(),
                        i <= n,
                        ts@.len() == i,
                        forall|j: int| 0 <= j < i ==> ts@[j]@ == tasks@[j]@,
                    decreases n - i,
                {
                    ts.push(tasks[i].duplicate());
                    i = i + 1;
                }
                let r = Request::CreateTasks { tasks: ts };
                proof {
                    assert(ts@.map_values(|t: Task| t@) =~= tasks@.map_values(|t: Task| t@));
                }
                r
            },
            Request::AssignTask { assignments } => {
                let n = assignments.len();
                let mut ps: Vec<(String, String)> = Vec::new();
                let mut i: usize = 0;
                while i < n
                    invariant
                        n == assignments@.len(),
                        i <= n,
                        ps@.len() == i,
                        forall|j: int| 0 <= j < i ==> (#[trigger] ps@[j]).0@ == assignments@[j].0@
                            && ps@[j].1@ == assignments@[j].1@,
                    decreases n - i,
                {
                    let p = (assignments[i].0.clone(), assignments[i].1.clone());
                    ps.push(p);
                    i = i + 1;
                }
                let r = Request::AssignTask { assignments: ps };
                proof {
                    assert(pairs_view(ps@) =~= pairs_view(assignments@));
                }
                r
            },
            Request::UpdateTask { task_id, status } => Request::UpdateTask {
                task_id: task_id.clone(),
                status: *status,
            },
            Request::AddExtractionEvent { event } => Request::AddExtractionEvent {
                event: event.duplicate(),
            },
            Request::MarkExtractionEventProcessed { event_id } => {
                Request::MarkExtractionEventProcessed { event_id: event_id.clone() }
            },
            Request::CreateContent { content_metadata } => Request::CreateContent {
                content_metadata: content_metadata.duplicate(),
            },
            Request::CreateBinding { binding } => Request::CreateBinding {
                binding: binding.duplicate(),
            },
        }
    }
}

/// The reply to an applied command; only `Set` reports a value.
#[derive(Clone, PartialEq, Debug)]
pub struct Response {
    pub value: Option<String>,
}

impl View for Response {
    type V = Option<Seq<char>>;

    open spec fn view(&self) -> Option<Seq<char>> {
        match &self.value {
            Some(v) => Some(v@),
            None => None,
        }
    }
}

/// What a log entry carries.
#[derive(Clone, PartialEq, Debug)]
pub enum EntryPayload {
    Blank,
    Normal(Request),
    Membership(Vec<u64>),
}

pub enum EntryPayloadView {
    Blank,
    Normal(RequestView),
    Membership(Seq<u64>),
}

impl View for EntryPayload {
    type V = EntryPayloadView;

    open spec fn view(&self) -> EntryPayloadView {
        match self {
            EntryPayload::Blank => EntryPayloadView::Blank,
            EntryPayload::Normal(req) => EntryPayloadView::Normal(req@),
            EntryPayload::Membership(nodes) => EntryPayloadView::Membership(nodes@),
        }
    }
}

/// One entry of the replicated log.
#[derive(Clone, PartialEq, Debug)]
pub struct Entry {
    pub log_id: LogId,
    pub payload: EntryPayload,
}

pub struct EntryView {
    pub log_id: LogId,
    pub payload: EntryPayloadView,
}

impl View for Entry {
    type V = EntryView;

    open spec fn view(&self) -> EntryView {
        EntryView { log_id: self.log_id, payload: self.payload@ }
    }
}

impl Dup for Entry {
    fn duplicate(&self) -> (r: Self) {
        let payload = match &self.payload {
            EntryPayload::Blank => EntryPayload::Blank,
            EntryPayload::Normal(req) => EntryPayload::Normal(req.duplicate()),
            EntryPayload::Membership(nodes) => {
                let n = nodes.len();
                let mut ns: Vec<u64> = Vec::new();
                let mut i: usize = 0;
                while i < n
                    invariant
                        n == nodes@.len(),
                        i <= n,
                        ns@ =~= nodes@.subrange(0, i as int),
                    decreases n - i,
                {
                    ns.push(nodes[i]);
                    i = i + 1;
                }
                proof {
                    assert(ns@ =~= nodes@);
                }
                EntryPayload::Membership(ns)
            },
        };
        Entry { log_id: self.log_id, payload }
    }
}

/// The model of the whole state machine.
#[verifier::ext_equal]
pub struct SmView {
    pub last_applied_log: Option<LogId>,
    pub last_membership: StoredMembershipView,
    pub data: Map<Seq<char>, Seq<char>>,
    pub executor_health_checks: Map<Seq<char>, u64>,
    pub executors: Map<Seq<char>, ExecutorMetadataView>,
    pub tasks: Map<Seq<char>, TaskView>,
    pub unassigned_tasks: Set<Seq<char>>,
    pub task_assignments: Map<Seq<char>, Set<Seq<char>>>,
    pub extraction_events: Map<Seq<char>, ExtractionEventView>,
    pub unprocessed_extraction_events: Set<Seq<char>>,
    pub content_table: Map<Seq<char>, ContentMetadataView>,
    pub bindings_table: Map<Seq<char>, ExtractorBindingView>,
    pub extractors_table: Map<Seq<char>, Set<Seq<char>>>,
    pub extractors: Map<Seq<char>, ExtractorDescriptionView>,
}

/// The state of a fresh node.
pub open spec fn sm_init() -> SmView {
    SmView {
        last_applied_log: None,
        last_membership: StoredMembershipView { log_id: None, nodes: Seq::empty() },
        data: Map::empty(),
        executor_health_checks: Map::empty(),
        executors: Map::empty(),
        tasks: Map::empty(),
        unassigned_tasks: Set::empty(),
        task_assignments: Map::empty(),
        extraction_events: Map::empty(),
        unprocessed_extraction_events: Set::empty(),
        content_table: Map::empty(),
        bindings_table: Map::empty(),
        extractors_table: Map::empty(),
        extractors: Map::empty(),
    }
}

/// The id of the extraction event that a content creation appends.
pub open spec fn content_event_id(content_id: Seq<char>) -> Seq<char> {
    "ev-c:"@ + content_id
}

/// The id of the extraction event that a binding creation appends.
pub open spec fn binding_event_id(binding_id: Seq<char>) -> Seq<char> {
    "ev-b:"@ + binding_id
}

pub open spec fn apply_set(m: SmView, key: Seq<char>, value: Seq<char>) -> SmView {
    SmView { data: m.data.insert(key, value), ..m }
}

pub open spec fn apply_heartbeat(m: SmView, hb: ExtractorHeartbeatView, now: u64) -> SmView {
    let stripped = if m.executors.contains_key(hb.executor_id)
        && m.executors[hb.executor_id].extractor.name != hb.extractor.name
        && m.extractors_table.contains_key(m.executors[hb.executor_id].extractor.name) {
        m.extractors_table.insert(
            m.executors[hb.executor_id].extractor.name,
            m.extractors_table[m.executors[hb.executor_id].extractor.name].remove(hb.executor_id),
        )
    } else {
        m.extractors_table
    };
    let prev = if stripped.contains_key(hb.extractor.name) {
        stripped[hb.extractor.name]
    } else {
        Set::empty()
    };
    SmView {
        executor_health_checks: m.executor_health_checks.insert(hb.executor_id, now),
        extractors: m.extractors.insert(hb.extractor.name, hb.extractor),
        executors: m.executors.insert(
            hb.executor_id,
            ExecutorMetadataView {
                id: hb.executor_id,
                last_seen: now,
                addr: hb.addr,
                extractor: hb.extractor,
            },
        ),
        extractors_table: stripped.insert(hb.extractor.name, prev.insert(hb.executor_id)),
        ..m
    }
}

/// Creating a task is insert-if-absent, so that re-proposing the same
/// work (for instance after a leader failover) cannot change the state.
pub open spec fn apply_create_one_task(m: SmView, t: TaskView) -> SmView {
    if m.tasks.contains_key(t.id) {
        m
    } else {
        SmView {
            tasks: m.tasks.insert(t.id, t),
            unassigned_tasks: if t.status is Unassigned {
                m.unassigned_tasks.insert(t.id)
            } else {
                m.unassigned_tasks
            },
            ..m
        }
    }
}

pub open spec fn apply_create_tasks(m: SmView, ts: Seq<TaskView>) -> SmView
    decreases ts.len(),
{
    if ts.len() == 0 {
        m
    } else {
        apply_create_tasks(apply_create_one_task(m, ts[0]), ts.drop_first())
    }
}

/// An assignment takes effect only when the task is really waiting and
/// the executor really supports its extractor; otherwise it is ignored.
pub open spec fn apply_assign_one(m: SmView, task_id: Seq<char>, executor_id: Seq<char>) -> SmView {
    if m.unassigned_tasks.contains(task_id) && m.tasks.contains_key(task_id)
        && m.executors.contains_key(executor_id) && m.executors[executor_id].extractor.name
        == m.tasks[task_id].extractor_name {
        let t = m.tasks[task_id];
        let prev = if m.task_assignments.contains_key(executor_id) {
            m.task_assignments[executor_id]
        } else {
            Set::empty()
        };
        SmView {
            tasks: m.tasks.insert(task_id, TaskView { status: TaskStatus::Assigned, ..t }),
            unassigned_tasks: m.unassigned_tasks.remove(task_id),
            task_assignments: m.task_assignments.insert(executor_id, prev.insert(task_id)),
            ..m
        }
    } else {
        m
    }
}

pub open spec fn apply_assign(m: SmView, ps: Seq<(Seq<char>, Seq<char>)>) -> SmView
    decreases ps.len(),
{
    if ps.len() == 0 {
        m
    } else {
        apply_assign(apply_assign_one(m, ps[0].0, ps[0].1), ps.drop_first())
    }
}

/// Every stored assignment set with one task id taken out.
pub open spec fn assignments_without(
    a: Map<Seq<char>, Set<Seq<char>>>,
    id: Seq<char>,
) -> Map<Seq<char>, Set<Seq<char>>> {
    Map::new(|k: Seq<char>| a.contains_key(k), |k: Seq<char>| a[k].remove(id))
}

/// Recording a terminal outcome: the task leaves its executor's
/// assignment set and keeps the terminal status. Only an `Assigned`
/// task can reach a terminal status, and only `Success` or `Failure`
/// are terminal; anything else is ignored.
pub open spec fn apply_update_task(m: SmView, task_id: Seq<char>, status: TaskStatus) -> SmView {
    if m.tasks.contains_key(task_id) && m.tasks[task_id].status is Assigned && (status is Success
        || status is Failure) {
        SmView {
            tasks: m.tasks.insert(task_id, TaskView { status, ..m.tasks[task_id] }),
            task_assignments: assignments_without(m.task_assignments, task_id),
            ..m
        }
    } else {
        m
    }
}

pub open spec fn apply_add_event(m: SmView, e: ExtractionEventView) -> SmView {
    SmView {
        extraction_events: m.extraction_events.insert(e.id, e),
        unprocessed_extraction_events: if e.processed_at is None {
            m.unprocessed_extraction_events.insert(e.id)
        } else {
            m.unprocessed_extraction_events
        },
        ..m
    }
}

pub open spec fn apply_mark_processed(m: SmView, event_id: Seq<char>, now: u64) -> SmView {
    let events = if m.extraction_events.contains_key(event_id) {
        m.extraction_events.insert(
            event_id,
            ExtractionEventView { processed_at: Some(now), ..m.extraction_events[event_id] },
        )
    } else {
        m.extraction_events
    };
    SmView {
        extraction_events: events,
        unprocessed_extraction_events: m.unprocessed_extraction_events.remove(event_id),
        ..m
    }
}

pub open spec fn apply_create_content(m: SmView, c: ContentMetadataView, now: u64) -> SmView {
    let eid = content_event_id(c.id);
    let e = ExtractionEventView {
        id: eid,
        repository: c.repository,
        payload: ExtractionEventPayloadView::ContentCreated { content_id: c.id },
        created_at: now,
        processed_at: None,
    };
    SmView {
        content_table: m.content_table.insert(c.id, c),
        extraction_events: m.extraction_events.insert(eid, e),
        unprocessed_extraction_events: m.unprocessed_extraction_events.insert(eid),
        ..m
    }
}

pub open spec fn apply_create_binding(m: SmView, b: ExtractorBindingView, now: u64) -> SmView {
    let eid = binding_event_id(b.id);
    let e = ExtractionEventView {
        id: eid,
        repository: b.repository,
        payload: ExtractionEventPayloadView::BindingAdded { binding_id: b.id },
        created_at: now,
        processed_at: None,
    };
    SmView {
        bindings_table: m.bindings_table.insert(b.id, b),
        extraction_events: m.extraction_events.insert(eid, e),
        unprocessed_extraction_events: m.unprocessed_extraction_events.insert(eid),
        ..m
    }
}

/// The transition function of the state machine, one command at a time.
/// `now` is the apply-side clock reading; it only lands in observational
/// fields (heartbeat times, event timestamps).
pub open spec fn apply_request_spec(m: SmView, req: RequestView, now: u64) -> SmView {
    match req {
        RequestView::SetKv { key, value } => apply_set(m, key, value),
        RequestView::ExecutorHeartbeat { executor } => apply_heartbeat(m, executor, now),
        RequestView::CreateTasks { tasks } => apply_create_tasks(m, tasks),
        RequestView::AssignTask { assignments } => apply_assign(m, assignments),
        RequestView::UpdateTask { task_id, status } => apply_update_task(m, task_id, status),
        RequestView::AddExtractionEvent { event } => apply_add_event(m, event),
        RequestView::MarkExtractionEventProcessed { event_id } => apply_mark_processed(
            m,
            event_id,
            now,
        ),
        RequestView::CreateContent { content_metadata } => apply_create_content(
            m,
            content_metadata,
            now,
        ),
        RequestView::CreateBinding { binding } => apply_create_binding(m, binding, now),
    }
}

/// What a command replies; only `Set` carries a value back.
pub open spec fn response_of(req: RequestView) -> Option<Seq<char>> {
    match req {
        RequestView::SetKv { key, value } => Some(value),
        _ => None,
    }
}

/// Applying one log entry: record the log id, then dispatch.
pub open spec fn apply_entry_spec(m: SmView, e: EntryView, now: u64) -> SmView {
    let m1 = SmView { last_applied_log: Some(e.log_id), ..m };
    match e.payload {
        EntryPayloadView::Blank => m1,
        EntryPayloadView::Normal(req) => apply_request_spec(m1, req, now),
        EntryPayloadView::Membership(nodes) => SmView {
            last_membership: StoredMembershipView { log_id: Some(e.log_id), nodes },
            ..m1
        },
    }
}

pub open spec fn entry_response_of(e: EntryView) -> Option<Seq<char>> {
    match e.payload {
        EntryPayloadView::Normal(req) => response_of(req),
        _ => None,
    }
}

/// Applying a batch of entries in order, each with its clock reading.
pub open spec fn apply_entries_spec(m: SmView, es: Seq<EntryView>, now: u64) -> SmView
    decreases es.len(),
{
    if es.len() == 0 {
        m
    } else {
        apply_entries_spec(apply_entry_spec(m, es[0], now), es.drop_first(), now)
    }
}

/// The state machine's executable representation.
#[derive(PartialEq, Debug)]
pub struct StateMachine {
    pub last_applied_log: Option<LogId>,
    pub last_membership: StoredMembership,
    pub data: Table<String>,
    pub executor_health_checks: Table<u64>,
    pub executors: Table<ExecutorMetadata>,
    pub tasks: Table<Task>,
    pub unassigned_tasks: StrSet,
    pub task_assignments: Table<StrSet>,
    pub extraction_events: Table<ExtractionEvent>,
    pub unprocessed_extraction_events: StrSet,
    pub content_table: Table<ContentMetadata>,
    pub bindings_table: Table<ExtractorBinding>,
    pub extractors_table: Table<StrSet>,
    pub extractors: Table<ExtractorDescription>,
}

impl View for StateMachine {
    type V = SmView;

    open spec fn view(&self) -> SmView {
        SmView {
            last_applied_log: self.last_applied_log,
            last_membership: self.last_membership@,
            data: self.data@,
            executor_health_checks: self.executor_health_checks@,
            executors: self.executors@,
            tasks: self.tasks@,
            unassigned_tasks: self.unassigned_tasks@,
            task_assignments: self.task_assignments@,
            extraction_events: self.extraction_events@,
            unprocessed_extraction_events: self.unprocessed_extraction_events@,
            content_table: self.content_table@,
            bindings_table: self.bindings_table@,
            extractors_table: self.extractors_table@,
            extractors: self.extractors@,
        }
    }
}

impl StateMachine {
    /// Well-formed representation: every table has distinct keys and
    /// every stored string set is sorted.
    pub open spec fn wf(&self) -> bool {
        &&& self.data.wf()
        &&& self.executor_health_checks.wf()
        &&& self.executors.wf()
        &&& self.tasks.wf()
        &&& self.unassigned_tasks.wf()
        &&& self.task_assignments.wf()
        &&& sets_wf(self.task_assignments)
        &&& self.extraction_events.wf()
        &&& self.unprocessed_extraction_events.wf()
        &&& self.content_table.wf()
        &&& self.bindings_table.wf()
        &&& self.extractors_table.wf()
        &&& sets_wf(self.extractors_table)
        &&& self.extractors.wf()
    }

    pub fn new() -> (r: Self)
        ensures
            r.wf(),
            r@ =~~= sm_init(),
    {
        StateMachine {
            last_applied_log: None,
            last_membership: StoredMembership::empty(),
            data: Table::new(),
            executor_health_checks: Table::new(),
            executors: Table::new(),
            tasks: Table::new(),
            unassigned_tasks: StrSet::new(),
            task_assignments: Table::new(),
            extraction_events: Table::new(),
            unprocessed_extraction_events: StrSet::new(),
            content_table: Table::new(),
            bindings_table: Table::new(),
            extractors_table: Table::new(),
            extractors: Table::new(),
        }
    }

    /// Apply one command. Returns the command's reply.
    pub fn apply_request(&mut self, req: &Request, now: u64) -> (r: Response)
        requires
            old(self).wf(),
        ensures
            final(self).wf(),
            final(self)@ == apply_request_spec(old(self)@, req@, now),
            r@ == response_of(req@),
    {
        match req {
            Request::SetKv { key, value } => {
                self.data.insert(key.clone(), value.clone());
                proof {
                    assert(self@ =~= apply_request_spec(old(self)@, req@, now));
                }
                Response { value: Some(value.clone()) }
            },
            Request::ExecutorHeartbeat { executor } => {
                let previous_name = match self.executors.get(&executor.executor_id) {
                    Some(md) => {
                        if md.extractor.name == executor.extractor.name {
                            None
                        } else {
                            Some(md.extractor.name.clone())
                        }
                    },
                    None => None,
                };
                if let Some(old_name) = previous_name {
                    let stripped = match self.extractors_table.get(&old_name) {
                        Some(s) => {
                            proof {
                                let i = choose|i: int|
                                    0 <= i < self.extractors_table.entries@.len()
                                        && self.extractors_table.entries@[i].0@ == old_name@ && *s
                                        == self.extractors_table.entries@[i].1;
                                assert(self.extractors_table.entries@[i].1.wf());
                            }
                            let mut s2 = s.duplicate_sorted();
                            s2.remove(&executor.executor_id);
                            Some(s2)
                        },
                        None => None,
                    };
                    if let Some(s2) = stripped {
                        self.extractors_table.insert(old_name, s2);
                    }
                }
                let mut members = match self.extractors_table.get(&executor.extractor.name) {
                    Some(s) => {
                        proof {
                            let i = choose|i: int|
                                0 <= i < self.extractors_table.entries@.len()
                                    && self.extractors_table.entries@[i].0@
                                    == executor.extractor.name@ && *s
                                    == self.extractors_table.entries@[i].1;
                            assert(self.extractors_table.entries@[i].1.wf());
                        }
                        s.duplicate_sorted()
                    },
                    None => StrSet::new(),
                };
                members.insert(executor.executor_id.clone());
                self.executor_health_checks.insert(executor.executor_id.clone(), now);
                self.extractors.insert(
                    executor.extractor.name.clone(),
                    executor.extractor.duplicate(),
                );
                let md = ExecutorMetadata {
                    id: executor.executor_id.clone(),
                    last_seen: now,
                    addr: executor.addr.clone(),
                    extractor: executor.extractor.duplicate(),
                };
                self.executors.insert(executor.executor_id.clone(), md);
                self.extractors_table.insert(executor.extractor.name.clone(), members);
                proof {
                    assert(self@ =~= apply_request_spec(old(self)@, req@, now));
                }
                Response { value: None }
            },
            Request::CreateTasks { tasks } => {
                let ghost tsv = tasks@.map_values(|t: Task| t@);
                proof {
                    assert(tsv.skip(0) =~= tsv);
                }
                let n = tasks.len();
                let mut i: usize = 0;
                while i < n
                    invariant
                        self.wf(),
                        n == tasks@.len(),
                        tsv == tasks@.map_values(|t: Task| t@),
                        i <= n,
                        apply_create_tasks(old(self)@, tsv) == apply_create_tasks(
                            self@,
                            tsv.skip(i as int),
                        ),
                    decreases n - i,
                {
                    let ghost pre = self@;
                    let t = &tasks[i];
                    if !self.tasks.contains_key(&t.id) {
                        self.tasks.insert(t.id.clone(), t.duplicate());
                        if matches!(t.status, TaskStatus::Unassigned) {
                            self.unassigned_tasks.insert(t.id.clone());
                        }
                    }
                    proof {
                        assert(tsv.skip(i as int)[0] == tsv[i as int]);
                        assert(tsv.skip(i as int).drop_first() =~= tsv.skip(i as int + 1));
                        assert(self@ =~= apply_create_one_task(pre, tsv[i as int]));
                    }
                    i = i + 1;
                }
                proof {
                    assert(tsv.skip(n as int) =~= Seq::<TaskView>::empty());
                    assert(self@ =~= apply_request_spec(old(self)@, req@, now));
                }
                Response { value: None }
            },
            Request::AssignTask { assignments } => {
                let ghost psv = assignments@.map_values(|p: (String, String)| (p.0@, p.1@));
                proof {
                    assert(psv.skip(0) =~= psv);
                }
                let n = assignments.len();
                let mut i: usize = 0;
                while i < n
                    invariant
                        self.wf(),
                        n == assignments@.len(),
                        psv == assignments@.map_values(|p: (String, String)| (p.0@, p.1@)),
                        i <= n,
                        apply_assign(old(self)@, psv) == apply_assign(self@, psv.skip(i as int)),
                    decreases n - i,
                {
                    let ghost pre = self@;
                    let task_id = &assignments[i].0;
                    let executor_id = &assignments[i].1;
                    self.assign_one(task_id, executor_id);
                    proof {
                        assert(psv.skip(i as int)[0] == psv[i as int]);
                        assert(psv.skip(i as int).drop_first() =~= psv.skip(i as int + 1));
                        assert(self@ =~= apply_assign_one(pre, psv[i as int].0, psv[i as int].1));
                    }
                    i = i + 1;
                }
                proof {
                    assert(psv.skip(n as int) =~= Seq::<(Seq<char>, Seq<char>)>::empty());
                    assert(self@ =~= apply_request_spec(old(self)@, req@, now));
                }
                Response { value: None }
            },
            Request::UpdateTask { task_id, status } => {
                let terminal = matches!(*status, TaskStatus::Success) || matches!(
                    *status,
                    TaskStatus::Failure,
                );
                let current = match self.tasks.get(task_id) {
                    Some(t) => Some(t.duplicate()),
                    None => None,
                };
                if let Some(t) = current {
                    if terminal && matches!(t.status, TaskStatus::Assigned) {
                        let mut settled = t;
                        settled.status = *status;
                        self.tasks.insert(task_id.clone(), settled);
                        self.task_assignments.remove_everywhere(task_id);
                    }
                }
                proof {
                    assert(self@ =~= apply_request_spec(old(self)@, req@, now));
                }
                Response { value: None }
            },
            Request::AddExtractionEvent { event } => {
                if event.processed_at.is_none() {
                    self.unprocessed_extraction_events.insert(event.id.clone());
                }
                self.extraction_events.insert(event.id.clone(), event.duplicate());
                proof {
                    assert(self@ =~= apply_request_spec(old(self)@, req@, now));
                }
                Response { value: None }
            },
            Request::MarkExtractionEventProcessed { event_id } => {
                let updated = match self.extraction_events.get(event_id) {
                    Some(e) => {
                        let mut e2 = e.duplicate();
                        e2.processed_at = Some(now);
                        Some(e2)
                    },
                    None => None,
                };
                if let Some(e2) = updated {
                    self.extraction_events.insert(event_id.clone(), e2);
                }
                self.unprocessed_extraction_events.remove(event_id);
                proof {
                    assert(self@ =~= apply_request_spec(old(self)@, req@, now));
                }
                Response { value: None }
            },
            Request::CreateContent { content_metadata } => {
                let eid = String::from_str("ev-c:").concat(content_metadata.id.as_str());
                let event = ExtractionEvent {
                    id: eid.clone(),
                    repository: content_metadata.repository.clone(),
                    payload: ExtractionEventPayload::ContentCreated {
                        content_id: content_metadata.id.clone(),
                    },
                    created_at: now,
                    processed_at: None,
                };
                self.content_table.insert(
                    content_metadata.id.clone(),
                    content_metadata.duplicate(),
                );
                self.extraction_events.insert(eid.clone(), event);
                self.unprocessed_extraction_events.insert(eid);
                proof {
                    assert(self@ =~= apply_request_spec(old(self)@, req@, now));
                }
                Response { value: None }
            },
            Request::CreateBinding { binding } => {
                let eid = String::from_str("ev-b:").concat(binding.id.as_str());
                let event = ExtractionEvent {
                    id: eid.clone(),
                    repository: binding.repository.clone(),
                    payload: ExtractionEventPayload::BindingAdded { binding_id: binding.id.clone() },
                    created_at: now,
                    processed_at: None,
                };
                self.bindings_table.insert(binding.id.clone(), binding.duplicate());
                self.extraction_events.insert(eid.clone(), event);
                self.unprocessed_extraction_events.insert(eid);
                proof {
                    assert(self@ =~= apply_request_spec(old(self)@, req@, now));
                }
                Response { value: None }
            },
        }
    }

    /// Apply one assignment edge, with its validity guard.
    fn assign_one(&mut self, task_id: &String, executor_id: &String)
        requires
            old(self).wf(),
        ensures
            final(self).wf(),
            final(self)@ == apply_assign_one(old(self)@, task_id@, executor_id@),
    {
        if !self.unassigned_tasks.contains(task_id) {
            return ;
        }
        let task = match self.tasks.get(task_id) {
            Some(t) => t.duplicate(),
            None => {
                return ;
            },
        };
        let supports = match self.executors.get(executor_id) {
            Some(md) => md.extractor.name == task.extractor_name,
            None => false,
        };
        if !supports {
            return ;
        }
        let mut members = match self.task_assignments.get(executor_id) {
            Some(s) => {
                proof {
                    let i = choose|i: int|
                        0 <= i < self.task_assignments.entries@.len()
                            && self.task_assignments.entries@[i].0@ == executor_id@ && *s
                            == self.task_assignments.entries@[i].1;
                    assert(self.task_assignments.entries@[i].1.wf());
                }
                s.duplicate_sorted()
            },
            None => StrSet::new(),
        };
        members.insert(task_id.clone());
        let mut assigned = task;
        assigned.status = TaskStatus::Assigned;
        self.tasks.insert(task_id.clone(), assigned);
        self.unassigned_tasks.remove(task_id);
        self.task_assignments.insert(executor_id.clone(), members);
        proof {
            assert(self@ =~= apply_assign_one(old(self)@, task_id@, executor_id@));
        }
    }

    /// Apply a batch of committed entries in order; returns the replies.
    pub fn apply_to_state_machine(&mut self, entries: &Vec<Entry>, now: u64) -> (r: Vec<Response>)
        requires
            old(self).wf(),
        ensures
            final(self).wf(),
            final(self)@ == apply_entries_spec(old(self)@, entries@.map_values(|e: Entry| e@), now),
            r@.len() == entries@.len(),
            forall|i: int| 0 <= i < entries@.len() ==> (#[trigger] r@[i])@ == entry_response_of(
                entries@[i]@,
            ),
    {
        let ghost esv = entries@.map_values(|e: Entry| e@);
        proof {
            assert(esv.skip(0) =~= esv);
        }
        let n = entries.len();
        let mut responses: Vec<Response> = Vec::new();
        let mut i: usize = 0;
        while i < n
            invariant
                self.wf(),
                n == entries@.len(),
                esv == entries@.map_values(|e: Entry| e@),
                i <= n,
                responses@.len() == i,
                forall|j: int| 0 <= j < i ==> (#[trigger] responses@[j])@ == entry_response_of(
                    entries@[j]@,
                ),
                apply_entries_spec(old(self)@, esv, now) == apply_entries_spec(
                    self@,
                    esv.skip(i as int),
                    now,
                ),
            decreases n - i,
        {
            let ghost pre = self@;
            let entry = &entries[i];
            let resp = self.apply_entry(entry, now);
            responses.push(resp);
            proof {
                assert(esv.skip(i as int)[0] == esv[i as int]);
                assert(esv.skip(i as int).drop_first() =~= esv.skip(i as int + 1));
                assert(self@ == apply_entry_spec(pre, esv[i as int], now));
            }
            i = i + 1;
        }
        proof {
            assert(esv.skip(n as int) =~= Seq::<EntryView>::empty());
        }
        responses
    }

    /// Apply one committed entry.
    pub fn apply_entry(&mut self, entry: &Entry, now: u64) -> (r: Response)
        requires
            old(self).wf(),
        ensures
            final(self).wf(),
            final(self)@ == apply_entry_spec(old(self)@, entry@, now),
            r@ == entry_response_of(entry@),
    {
        self.last_applied_log = Some(entry.log_id);
        match &entry.payload {
            EntryPayload::Blank => {
                proof {
                    assert(self@ =~= apply_entry_spec(old(self)@, entry@, now));
                }
                Response { value: None }
            },
            EntryPayload::Normal(req) => {
                let r = self.apply_request(req, now);
                proof {
                    assert(self@ =~= apply_entry_spec(old(self)@, entry@, now));
                }
                r
            },
            EntryPayload::Membership(nodes) => {
                let n = nodes.len();
                let mut ns: Vec<u64> = Vec::new();
                let mut j: usize = 0;
                while j < n
                    invariant
                        n == nodes@.len(),
                        j <= n,
                        ns@ =~= nodes@.subrange(0, j as int),
                    decreases n - j,
                {
                    ns.push(nodes[j]);
                    j = j + 1;
                }
                proof {
                    assert(ns@ =~= nodes@);
                }
                self.last_membership = StoredMembership { log_id: Some(entry.log_id), nodes: ns };
                proof {
                    assert(self@ =~= apply_entry_spec(old(self)@, entry@, now));
                }
                Response { value: None }
            },
        }
    }

    /// A copy of the whole state machine with the same model.
    pub fn duplicate(&self) -> (r: Self)
        requires
            self.wf(),
        ensures
            r.wf(),
            r@ == self@,
    {
        let r = StateMachine {
            last_applied_log: self.last_applied_log,
            last_membership: self.last_membership.duplicate(),
            data: self.data.duplicate(),
            executor_health_checks: self.executor_health_checks.duplicate(),
            executors: self.executors.duplicate(),
            tasks: self.tasks.duplicate(),
            unassigned_tasks: self.unassigned_tasks.duplicate_sorted(),
            task_assignments: self.task_assignments.duplicate_sets(),
            extraction_events: self.extraction_events.duplicate(),
            unprocessed_extraction_events: self.unprocessed_extraction_events.duplicate_sorted(),
            content_table: self.content_table.duplicate(),
            bindings_table: self.bindings_table.duplicate(),
            extractors_table: self.extractors_table.duplicate_sets(),
            extractors: self.extractors.duplicate(),
        };
        proof {
            assert(r@ =~= self@);
        }
        r
    }
}

} // verus!
