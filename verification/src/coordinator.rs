//! The coordinator's decision logic: how committed events become tasks,
//! how waiting tasks are handed to live executors, and how finished
//! tasks fan their features out to the index managers.
//!
//! Everything here is a pure decision over a read snapshot of the state
//! machine. The surrounding loop — waiting for the work signal,
//! proposing the returned commands through consensus, talking to the
//! index managers — stays outside; randomness comes in through one
//! trusted call and is never assumed anything about.

use vstd::prelude::*;

use crate::entities::ContentMetadata;
use crate::entities::ContentMetadataView;
use crate::entities::ExecutorMetadata;
use crate::entities::ExtractedContentView;
use crate::entities::FeatureKind;
use crate::entities::TaskResult;
use crate::entities::TaskResultView;
use crate::entities::ExtractorBinding;
use crate::entities::ExtractorBindingView;
use crate::entities::LabelPairView;
use crate::entities::Task;
use crate::entities::TaskStatus;
use crate::entities::TaskView;
use crate::entities::ExtractionEventPayload;
use crate::entities::ExtractionEventPayloadView;
use crate::state_machine::Request;
use crate::state_machine::RequestView;
use crate::state_machine::SmView;
use crate::strset::StrSet;
use crate::state_machine::StateMachine;
use crate::table::lemma_map_of_index;
use crate::table::Dup;
use vstd::string::StringExecFns;

verus! {

/// Relies on `rand::random::<u64>`: one draw from the thread-local
/// generator. Nothing is assumed about the value; every caller is
/// verified for every possible outcome.
#[verifier::external_body]
pub(crate) fn random_u64() -> u64 {
    rand::random::<u64>()
}

/// Errors the coordinator reports to its caller.
#[derive(Clone, Copy, PartialEq, Eq, Structural, Debug)]
pub enum CoordError {
    ContentNotFound,
    NoExecutorsForExtractor,
}

/// The deterministic task id: the binding and the content, joined. Two
/// proposals for the same pair collide on purpose, which is what makes
/// re-proposed work harmless.
pub open spec fn task_id_for(binding_id: Seq<char>, content_id: Seq<char>) -> Seq<char> {
    binding_id + ":"@ + content_id
}

/// For one content, distinct bindings give distinct task ids.
pub proof fn lemma_task_id_injective(b1: Seq<char>, b2: Seq<char>, c: Seq<char>)
    requires
        task_id_for(b1, c) == task_id_for(b2, c),
    ensures
        b1 == b2,
{
    reveal_strlit(":");
    assert(task_id_for(b1, c).len() == b1.len() + 1 + c.len());
    assert(task_id_for(b2, c).len() == b2.len() + 1 + c.len());
    assert(b1.len() == b2.len());
    assert forall|i: int| 0 <= i < b1.len() implies b1[i] == b2[i] by {
        assert(task_id_for(b1, c)[i] == b1[i]);
        assert(task_id_for(b2, c)[i] == b2[i]);
    }
    assert(b1 =~= b2);
}

fn derive_task_id(binding_id: &String, content_id: &String) -> (r: String)
    ensures
        r@ == task_id_for(binding_id@, content_id@),
{
    binding_id.clone().concat(":").concat(content_id.as_str())
}

/// Some label of the content equals the filter pair.
pub open spec fn filter_matched(c: ContentMetadataView, f: LabelPairView) -> bool {
    exists|j: int|
        0 <= j < c.labels.len() && (#[trigger] c.labels[j]).key == f.key && c.labels[j].value
            == f.value
}

/// A content matches a binding when it lives in the binding's repository
/// and every filter pair occurs among the content's labels.
pub open spec fn content_matches_binding(c: ContentMetadataView, b: ExtractorBindingView) -> bool {
    &&& c.repository == b.repository
    &&& forall|i: int| 0 <= i < b.filters.len() ==> filter_matched(c, #[trigger] b.filters[i])
}

fn binding_matches_content(b: &ExtractorBinding, c: &ContentMetadata) -> (r: bool)
    ensures
        r == content_matches_binding(c@, b@),
{
    if !(c.repository == b.repository) {
        return false;
    }
    let nf = b.filters.len();
    let mut i: usize = 0;
    while i < nf
        invariant
            nf == b.filters@.len(),
            i <= nf,
            c.repository@ == b.repository@,
            forall|x: int| 0 <= x < i ==> filter_matched(c@, #[trigger] b@.filters[x]),
        decreases nf - i,
    {
        let f = &b.filters[i];
        let nl = c.labels.len();
        let mut j: usize = 0;
        let mut found = false;
        while j < nl
            invariant
                nl == c.labels@.len(),
                j <= nl,
                found ==> filter_matched(c@, f@),
                !found ==> forall|y: int|
                    0 <= y < j ==> !((#[trigger] c@.labels[y]).key == f@.key && c@.labels[y].value
                        == f@.value),
            decreases nl - j,
        {
            if !found && c.labels[j].key == f.key && c.labels[j].value == f.value {
                found = true;
                proof {
                    assert(c@.labels[j as int].key == f@.key && c@.labels[j as int].value
                        == f@.value);
                }
            }
            j = j + 1;
        }
        if !found {
            proof {
                assert(b@.filters[i as int] == f@);
                assert(!filter_matched(c@, b@.filters[i as int]));
            }
            return false;
        }
        proof {
            assert(b@.filters[i as int] == f@);
        }
        i = i + 1;
    }
    true
}

/// The task one binding derives for one content.
pub open spec fn task_for(b: ExtractorBindingView, c: ContentMetadataView) -> TaskView {
    TaskView {
        id: task_id_for(b.id, c.id),
        extractor_name: b.extractor_name,
        repository: c.repository,
        content_id: c.id,
        extractor_binding: b.id,
        input_params: b.input_params,
        status: TaskStatus::Unassigned,
    }
}

fn make_task(b: &ExtractorBinding, c: &ContentMetadata) -> (r: Task)
    ensures
        r@ == task_for(b@, c@),
{
    Task {
        id: derive_task_id(&b.id, &c.id),
        extractor_name: b.extractor_name.clone(),
        repository: c.repository.clone(),
        content_id: c.id.clone(),
        extractor_binding: b.id.clone(),
        input_params: b.input_params.clone(),
        status: TaskStatus::Unassigned,
    }
}

/// What a correct fan-out for one content looks like: one task per
/// matching binding, each the deterministic task of its pair, and all
/// of them creatable (unassigned, with existing content).
pub open spec fn tasks_fan_out(m: SmView, cid: Seq<char>, ts: Seq<TaskView>) -> bool {
    &&& forall|i: int|
        #![trigger ts[i]]
        0 <= i < ts.len() ==> exists|b: Seq<char>|
            #![trigger m.bindings_table[b]]
            m.bindings_table.contains_key(b) && content_matches_binding(
                m.content_table[cid],
                m.bindings_table[b],
            ) && ts[i] == task_for(m.bindings_table[b], m.content_table[cid])
    &&& forall|b: Seq<char>|
        m.bindings_table.contains_key(b) && content_matches_binding(
            m.content_table[cid],
            #[trigger] m.bindings_table[b],
        ) ==> exists|i: int|
            0 <= i < ts.len() && ts[i] == task_for(m.bindings_table[b], m.content_table[cid])
    &&& forall|i: int| 0 <= i < ts.len() ==> (#[trigger] ts[i]).status is Unassigned && ts[i].content_id
        == cid
}

/// An outbound instruction to an index manager, derived from one
/// extracted feature of a finished task.
#[derive(Clone, PartialEq, Debug)]
pub enum IngestInstruction {
    AddEmbedding {
        repository: String,
        index_name: String,
        content_id: String,
        text: String,
        data: String,
    },
    AddAttributes {
        repository: String,
        index_name: String,
        content_id: String,
        extractor_name: String,
        data: String,
    },
}

pub enum IngestInstructionView {
    AddEmbedding {
        repository: Seq<char>,
        index_name: Seq<char>,
        content_id: Seq<char>,
        text: Seq<char>,
        data: Seq<char>,
    },
    AddAttributes {
        repository: Seq<char>,
        index_name: Seq<char>,
        content_id: Seq<char>,
        extractor_name: Seq<char>,
        data: Seq<char>,
    },
}

impl View for IngestInstruction {
    type V = IngestInstructionView;

    open spec fn view(&self) -> IngestInstructionView {
        match self {
            IngestInstruction::AddEmbedding { repository, index_name, content_id, text, data } => {
                IngestInstructionView::AddEmbedding {
                    repository: repository@,
                    index_name: index_name@,
                    content_id: content_id@,
                    text: text@,
                    data: data@,
                }
            },
            IngestInstruction::AddAttributes {
                repository,
                index_name,
                content_id,
                extractor_name,
                data,
            } => {
                IngestInstructionView::AddAttributes {
                    repository: repository@,
                    index_name: index_name@,
                    content_id: content_id@,
                    extractor_name: extractor_name@,
                    data: data@,
                }
            },
        }
    }
}

/// The index an extracted feature lands in: binding then feature name.
pub open spec fn index_name_for(binding_id: Seq<char>, feature_name: Seq<char>) -> Seq<char> {
    binding_id + "-"@ + feature_name
}

/// What one extracted content of a finished task contributes: an
/// embedding goes to the vector index if the content exposes text, and
/// metadata goes to the attribute index.
pub open spec fn actions_for_content(t: TaskView, c: ExtractedContentView) -> Seq<
    IngestInstructionView,
> {
    match c.feature {
        None => Seq::empty(),
        Some(f) => match f.kind {
            FeatureKind::Embedding => match c.source_text {
                Some(text) => seq![
                    IngestInstructionView::AddEmbedding {
                        repository: t.repository,
                        index_name: index_name_for(t.extractor_binding, f.name),
                        content_id: t.content_id,
                        text,
                        data: f.data,
                    },
                ],
                None => Seq::empty(),
            },
            FeatureKind::Metadata => seq![
                IngestInstructionView::AddAttributes {
                    repository: t.repository,
                    index_name: index_name_for(t.extractor_binding, f.name),
                    content_id: t.content_id,
                    extractor_name: t.extractor_name,
                    data: f.data,
                },
            ],
        },
    }
}

pub open spec fn actions_for_contents(t: TaskView, cs: Seq<ExtractedContentView>) -> Seq<
    IngestInstructionView,
>
    decreases cs.len(),
{
    if cs.len() == 0 {
        Seq::empty()
    } else {
        actions_for_content(t, cs[0]) + actions_for_contents(t, cs.drop_first())
    }
}

/// The ingestion a batch of task results calls for. A result for an
/// unknown task contributes nothing.
pub open spec fn ingest_plan(m: SmView, rs: Seq<TaskResultView>) -> Seq<IngestInstructionView>
    decreases rs.len(),
{
    if rs.len() == 0 {
        Seq::empty()
    } else {
        (if m.tasks.contains_key(rs[0].task_id) {
            actions_for_contents(m.tasks[rs[0].task_id], rs[0].extracted_content)
        } else {
            Seq::empty()
        }) + ingest_plan(m, rs.drop_first())
    }
}

/// An executor is a live candidate for an extractor when the capability
/// table names it and its last heartbeat is within the liveness window.
pub open spec fn live_candidate(m: SmView, name: Seq<char>, e: Seq<char>, now: u64, w: u64) -> bool {
    &&& m.extractors_table.contains_key(name)
    &&& m.extractors_table[name].contains(e)
    &&& m.executor_health_checks.contains_key(e)
    &&& m.executor_health_checks[e] + w >= now
}

/// The pure decision core of the coordinator. It reads a snapshot of the
/// state machine and returns the commands to propose; the loop around it
/// does the proposing.
pub struct Coordinator {
    pub liveness_window_secs: u64,
}

impl Coordinator {
    pub fn new(liveness_window_secs: u64) -> (r: Self)
        ensures
            r.liveness_window_secs == liveness_window_secs,
    {
        Coordinator { liveness_window_secs }
    }

    /// One task per binding matching the content, with deterministic ids.
    pub fn create_tasks_for_content(&self, sm: &StateMachine, content_id: &String) -> (r: Result<
        Vec<Task>,
        CoordError,
    >)
        requires
            sm.wf(),
        ensures
            match r {
                Ok(ts) => sm@.content_table.contains_key(content_id@) && ts@.map_values(
                    |t: Task| t@,
                ) == derived_for_content(
                    sm.bindings_table.entries@,
                    sm@.content_table[content_id@],
                ),
                Err(e) => e == CoordError::ContentNotFound && !sm@.content_table.contains_key(
                    content_id@,
                ),
            },
    {
        let content = match sm.content_table.get(content_id) {
            Some(c) => c,
            None => {
                return Err(CoordError::ContentNotFound);
            },
        };
        let n = sm.bindings_table.entries.len();
        let mut tasks: Vec<Task> = Vec::new();
        let mut i: usize = 0;
        while i < n
            invariant
                n == sm.bindings_table.entries@.len(),
                i <= n,
                content@ == sm@.content_table[content_id@],
                tasks@.map_values(|t: Task| t@) == derived_for_content(
                    sm.bindings_table.entries@.take(i as int),
                    content@,
                ),
            decreases n - i,
        {
            let ghost prefix = sm.bindings_table.entries@.take(i as int);
            let b = &sm.bindings_table.entries[i].1;
            if binding_matches_content(b, content) {
                let t = make_task(b, content);
                tasks.push(t);
            }
            proof {
                let next = sm.bindings_table.entries@.take(i as int + 1);
                assert(next.drop_last() =~= prefix);
                assert(next.last() == sm.bindings_table.entries@[i as int]);
                assert(tasks@.map_values(|t: Task| t@) =~= derived_for_content(next, content@));
            }
            i = i + 1;
        }
        proof {
            assert(sm.bindings_table.entries@.take(n as int) =~= sm.bindings_table.entries@);
        }
        Ok(tasks)
    }

    /// One task per existing content matching a newly added binding.
    pub fn create_tasks_for_extractor_bindings(
        &self,
        sm: &StateMachine,
        extractor_binding: &String,
    ) -> (r: Vec<Task>)
        requires
            sm.wf(),
        ensures
            sm@.bindings_table.contains_key(extractor_binding@) ==> r@.map_values(|t: Task| t@)
                == derived_for_binding(
                sm.content_table.entries@,
                sm@.bindings_table[extractor_binding@],
            ),
            !sm@.bindings_table.contains_key(extractor_binding@) ==> r@.len() == 0,
    {
        let binding = match sm.bindings_table.get(extractor_binding) {
            Some(b) => b,
            None => {
                return Vec::new();
            },
        };
        let n = sm.content_table.entries.len();
        let mut tasks: Vec<Task> = Vec::new();
        let mut i: usize = 0;
        while i < n
            invariant
                n == sm.content_table.entries@.len(),
                i <= n,
                binding@ == sm@.bindings_table[extractor_binding@],
                tasks@.map_values(|t: Task| t@) == derived_for_binding(
                    sm.content_table.entries@.take(i as int),
                    binding@,
                ),
            decreases n - i,
        {
            let ghost prefix = sm.content_table.entries@.take(i as int);
            let c = &sm.content_table.entries[i].1;
            if binding_matches_content(binding, c) {
                let t = make_task(binding, c);
                tasks.push(t);
            }
            proof {
                let next = sm.content_table.entries@.take(i as int + 1);
                assert(next.drop_last() =~= prefix);
                assert(next.last() == sm.content_table.entries@[i as int]);
                assert(tasks@.map_values(|t: Task| t@) =~= derived_for_binding(next, binding@));
            }
            i = i + 1;
        }
        proof {
            assert(sm.content_table.entries@.take(n as int) =~= sm.content_table.entries@);
        }
        tasks
    }
}

/// The tasks a content fans out to: one per stored binding that
/// matches it, in table order.
pub open spec fn derived_for_content(
    entries: Seq<(String, ExtractorBinding)>,
    c: ContentMetadataView,
) -> Seq<TaskView>
    decreases entries.len(),
{
    if entries.len() == 0 {
        Seq::empty()
    } else {
        derived_for_content(entries.drop_last(), c) + if content_matches_binding(
            c,
            entries.last().1@,
        ) {
            seq![task_for(entries.last().1@, c)]
        } else {
            Seq::empty()
        }
    }
}

/// The tasks a new binding fans in: one per stored content that
/// matches it, in table order.
pub open spec fn derived_for_binding(
    entries: Seq<(String, ContentMetadata)>,
    b: ExtractorBindingView,
) -> Seq<TaskView>
    decreases entries.len(),
{
    if entries.len() == 0 {
        Seq::empty()
    } else {
        derived_for_binding(entries.drop_last(), b) + if content_matches_binding(
            entries.last().1@,
            b,
        ) {
            seq![task_for(b, entries.last().1@)]
        } else {
            Seq::empty()
        }
    }
}

/// Every derived task starts out unassigned and references its content.
pub proof fn lemma_derived_for_content_valid(
    entries: Seq<(String, ExtractorBinding)>,
    c: ContentMetadataView,
)
    ensures
        forall|i: int|
            0 <= i < derived_for_content(entries, c).len() ==> (#[trigger] derived_for_content(
                entries,
                c,
            )[i]).status is Unassigned && derived_for_content(entries, c)[i].content_id == c.id,
    decreases entries.len(),
{
    if entries.len() > 0 {
        lemma_derived_for_content_valid(entries.drop_last(), c);
    }
}

/// Every task a binding fans in starts out unassigned and references a
/// stored content.
pub proof fn lemma_derived_for_binding_valid(
    entries: Seq<(String, ContentMetadata)>,
    b: ExtractorBindingView,
)
    requires
        forall|i: int| 0 <= i < entries.len() ==> (#[trigger] entries[i]).1@.id == entries[i].0@,
    ensures
        forall|i: int|
            0 <= i < derived_for_binding(entries, b).len() ==> (#[trigger] derived_for_binding(
                entries,
                b,
            )[i]).status is Unassigned && crate::table::map_of(entries).contains_key(
                derived_for_binding(entries, b)[i].content_id,
            ),
    decreases entries.len(),
{
    if entries.len() > 0 {
        lemma_derived_for_binding_valid(entries.drop_last(), b);
        let d = derived_for_binding(entries, b);
        let dp = derived_for_binding(entries.drop_last(), b);
        assert forall|i: int| 0 <= i < d.len() implies (#[trigger] d[i]).status is Unassigned
            && crate::table::map_of(entries).contains_key(d[i].content_id) by {
            if i < dp.len() {
                assert(d[i] == dp[i]);
                crate::table::lemma_map_of_contains(entries.drop_last(), dp[i].content_id);
                crate::table::lemma_map_of_contains(entries, dp[i].content_id);
                let x = choose|x: int|
                    0 <= x < entries.drop_last().len() && entries.drop_last()[x].0@
                        == dp[i].content_id;
                assert(entries[x].0@ == dp[i].content_id);
            } else {
                assert(d[i] == task_for(b, entries.last().1@));
                assert(entries[entries.len() - 1].1@.id == entries[entries.len() - 1].0@);
                crate::table::lemma_map_of_contains(entries, d[i].content_id);
            }
        }
    }
}

/// The fan-out holds exactly one task per matching binding: every
/// derived task comes from a matching stored binding, and every
/// matching stored binding's task is in the list.
pub proof fn lemma_fan_out_exact(
    entries: Seq<(String, ExtractorBinding)>,
    c: ContentMetadataView,
    bid: Seq<char>,
)
    requires
        crate::table::distinct_keys(entries),
    ensures
        crate::table::map_of(entries).contains_key(bid) && content_matches_binding(
            c,
            crate::table::map_of(entries)[bid],
        ) ==> exists|i: int|
            0 <= i < derived_for_content(entries, c).len() && #[trigger] derived_for_content(
                entries,
                c,
            )[i] == task_for(crate::table::map_of(entries)[bid], c),
        forall|i: int|
            #![trigger derived_for_content(entries, c)[i]]
            0 <= i < derived_for_content(entries, c).len() ==> exists|x: int|
                0 <= x < entries.len() && content_matches_binding(c, (#[trigger] entries[x]).1@)
                    && derived_for_content(entries, c)[i] == task_for(entries[x].1@, c),
    decreases entries.len(),
{
    crate::table::lemma_map_of_contains(entries, bid);
    if entries.len() > 0 {
        lemma_fan_out_exact(entries.drop_last(), c, bid);
        let d = derived_for_content(entries, c);
        let dp = derived_for_content(entries.drop_last(), c);
        assert forall|i: int| #![trigger d[i]] 0 <= i < d.len() implies exists|x: int|
            0 <= x < entries.len() && content_matches_binding(c, (#[trigger] entries[x]).1@)
                && d[i] == task_for(entries[x].1@, c) by {
            if i < dp.len() {
                assert(d[i] == dp[i]);
                let x = choose|x: int|
                    0 <= x < entries.drop_last().len() && content_matches_binding(
                        c,
                        (#[trigger] entries.drop_last()[x]).1@,
                    ) && dp[i] == task_for(entries.drop_last()[x].1@, c);
                assert(entries[x].1 == entries.drop_last()[x].1);
            } else {
                assert(content_matches_binding(c, entries[entries.len() - 1].1@));
            }
        }
        if crate::table::map_of(entries).contains_key(bid) && content_matches_binding(
            c,
            crate::table::map_of(entries)[bid],
        ) {
            if entries.last().0@ == bid {
                assert(crate::table::map_of(entries)[bid] == entries.last().1@);
                assert(d[d.len() - 1] == task_for(entries.last().1@, c));
            } else {
                crate::table::lemma_map_of_contains(entries.drop_last(), bid);
                let x = choose|x: int|
                    0 <= x < entries.drop_last().len() && entries.drop_last()[x].0@ == bid;
                crate::table::lemma_map_of_index(entries.drop_last(), x);
                crate::table::lemma_map_of_index(entries, x);
                let i = choose|i: int|
                    0 <= i < dp.len() && dp[i] == task_for(
                        crate::table::map_of(entries.drop_last())[bid],
                        c,
                    );
                assert(d[i] == dp[i]);
            }
        }
    }
}


/// What a correct assignment batch looks like against the snapshot it
/// was derived from: every pair hands a waiting task to a live capable
/// executor, tasks come in ascending id order (hence each at most
/// once), and every waiting task that has any live capable executor is
/// in the batch.
pub open spec fn assignment_plan_ok(
    m: SmView,
    ps: Seq<(Seq<char>, Seq<char>)>,
    now: u64,
    w: u64,
) -> bool {
    &&& forall|k: int|
        #![trigger ps[k]]
        0 <= k < ps.len() ==> m.unassigned_tasks.contains(ps[k].0) && m.tasks.contains_key(ps[k].0)
            && live_candidate(m, m.tasks[ps[k].0].extractor_name, ps[k].1, now, w)
    &&& forall|k1: int, k2: int|
        #![trigger ps[k1], ps[k2]]
        0 <= k1 < k2 < ps.len() ==> crate::strset::str_lt(ps[k1].0, ps[k2].0)
    &&& forall|id: Seq<char>|
        m.unassigned_tasks.contains(id) && m.tasks.contains_key(id) && (exists|e: Seq<char>|
            live_candidate(
                m,
                (#[trigger] m.tasks[id]).extractor_name,
                e,
                now,
                w,
            )) ==> exists|k: int| 0 <= k < ps.len() && (#[trigger] ps[k]).0 == id
}

impl Coordinator {
    /// Hand every waiting task that has a live capable executor to one
    /// such executor, chosen at random. Tasks are considered in
    /// ascending id order; a task with no live executor is skipped.
    #[verifier::loop_isolation(false)]
    pub fn distribute_work(&self, sm: &StateMachine, now: u64) -> (r: Vec<(String, String)>)
        requires
            sm.wf(),
        ensures
            forall|k: int|
                #![trigger r@[k]]
                0 <= k < r@.len() ==> sm@.unassigned_tasks.contains(r@[k].0@)
                    && sm@.tasks.contains_key(r@[k].0@) && live_candidate(
                    sm@,
                    sm@.tasks[r@[k].0@].extractor_name,
                    r@[k].1@,
                    now,
                    self.liveness_window_secs,
                ),
            forall|k1: int, k2: int|
                #![trigger r@[k1], r@[k2]]
                0 <= k1 < k2 < r@.len() ==> crate::strset::str_lt(r@[k1].0@, r@[k2].0@),
            forall|id: Seq<char>|
                sm@.unassigned_tasks.contains(id) && sm@.tasks.contains_key(id) && (exists|
                    e: Seq<char>,
                |
                    live_candidate(
                        sm@,
                        (#[trigger] sm@.tasks[id]).extractor_name,
                        e,
                        now,
                        self.liveness_window_secs,
                    )) ==> exists|k: int| 0 <= k < r@.len() && (#[trigger] r@[k]).0@ == id,
            assignment_plan_ok(
                sm@,
                crate::state_machine::pairs_view(r@),
                now,
                self.liveness_window_secs,
            ),
    {
        let w = self.liveness_window_secs;
        let n = sm.unassigned_tasks.items.len();
        let mut out: Vec<(String, String)> = Vec::new();
        let mut i: usize = 0;
        while i < n
            invariant
                sm.wf(),
                w == self.liveness_window_secs,
                n == sm.unassigned_tasks.items@.len(),
                i <= n,
                forall|k: int|
                    #![trigger out@[k]]
                    0 <= k < out@.len() ==> sm@.unassigned_tasks.contains(out@[k].0@)
                        && sm@.tasks.contains_key(out@[k].0@) && live_candidate(
                        sm@,
                        sm@.tasks[out@[k].0@].extractor_name,
                        out@[k].1@,
                        now,
                        w,
                    ),
                forall|k: int|
                    #![trigger out@[k]]
                    0 <= k < out@.len() ==> exists|x: int|
                        0 <= x < i && out@[k].0@ == (#[trigger] sm.unassigned_tasks.items@[x])@,
                forall|k1: int, k2: int|
                    #![trigger out@[k1], out@[k2]]
                    0 <= k1 < k2 < out@.len() ==> crate::strset::str_lt(out@[k1].0@, out@[k2].0@),
                forall|x: int|
                    0 <= x < i && sm@.tasks.contains_key(
                        (#[trigger] sm.unassigned_tasks.items@[x])@,
                    ) && (exists|e: Seq<char>|
                        live_candidate(
                            sm@,
                            sm@.tasks[sm.unassigned_tasks.items@[x]@].extractor_name,
                            e,
                            now,
                            w,
                        )) ==> exists|k: int|
                        0 <= k < out@.len() && (#[trigger] out@[k]).0@
                            == sm.unassigned_tasks.items@[x]@,
            decreases n - i,
        {
            let ghost out0 = out@;
            let tid = &sm.unassigned_tasks.items[i];
            proof {
                crate::strset::lemma_set_of_contains(sm.unassigned_tasks.items@, tid@);
            }
            if let Some(task) = sm.tasks.get(tid) {
                let mut cands: Vec<String> = Vec::new();
                if let Some(members) = sm.extractors_table.get(&task.extractor_name) {
                    let nm = members.items.len();
                    let mut j: usize = 0;
                    while j < nm
                        invariant
                            sm.wf(),
                            nm == members.items@.len(),
                            j <= nm,
                            members@ == sm@.extractors_table[task.extractor_name@],
                            sm@.extractors_table.contains_key(task.extractor_name@),
                            task@ == sm@.tasks[tid@],
                            forall|q: int|
                                #![trigger cands@[q]]
                                0 <= q < cands@.len() ==> live_candidate(
                                    sm@,
                                    task.extractor_name@,
                                    cands@[q]@,
                                    now,
                                    w,
                                ),
                            cands@.len() == 0 ==> forall|y: int|
                                0 <= y < j ==> !live_candidate(
                                    sm@,
                                    task.extractor_name@,
                                    (#[trigger] members.items@[y])@,
                                    now,
                                    w,
                                ),
                        decreases nm - j,
                    {
                        let eid = &members.items[j];
                        let live = match sm.executor_health_checks.get(eid) {
                            Some(ts) => *ts >= now || now - *ts <= w,
                            None => false,
                        };
                        if live {
                            proof {
                                crate::strset::lemma_set_of_contains(members.items@, eid@);
                            }
                            cands.push(eid.clone());
                        }
                        j = j + 1;
                    }
                    if cands.len() > 0 {
                        let idx = (random_u64() % (cands.len() as u64)) as usize;
                        let pair = (tid.clone(), cands[idx].clone());
                        proof {
                            sm.unassigned_tasks.lemma_distinct();
                        }
                        out.push(pair);
                        proof {
                            let last = out@.len() - 1;
                            assert(out@[last].0@ == sm.unassigned_tasks.items@[i as int]@);
                            assert(exists|k: int|
                                0 <= k < out@.len() && (#[trigger] out@[k]).0@
                                    == sm.unassigned_tasks.items@[i as int]@);
                            assert(live_candidate(
                                sm@,
                                sm@.tasks[tid@].extractor_name,
                                out@[last].1@,
                                now,
                                w,
                            ));
                            assert forall|k1: int, k2: int|
                                #![trigger out@[k1], out@[k2]]
                                0 <= k1 < k2 < out@.len() implies crate::strset::str_lt(
                                out@[k1].0@,
                                out@[k2].0@,
                            ) by {
                                if k2 == last {
                                    let x = choose|x: int|
                                        0 <= x < i && out@[k1].0@ == (
                                        #[trigger] sm.unassigned_tasks.items@[x])@;
                                    assert(crate::strset::str_lt(
                                        sm.unassigned_tasks.items@[x]@,
                                        sm.unassigned_tasks.items@[i as int]@,
                                    ));
                                }
                            }
                        }
                    } else {
                        proof {
                            let ghost idv = sm.unassigned_tasks.items@[i as int]@;
                            assert(tid@ == idv);
                            assert forall|e: Seq<char>|
                                #![trigger live_candidate(sm@, sm@.tasks[idv].extractor_name, e, now, w)]
                                !live_candidate(
                                    sm@,
                                    sm@.tasks[idv].extractor_name,
                                    e,
                                    now,
                                    w,
                                ) by {
                                if live_candidate(sm@, sm@.tasks[idv].extractor_name, e, now, w) {
                                    assert(members@.contains(e));
                                    crate::strset::lemma_set_of_contains(members.items@, e);
                                }
                            }
                        }
                    }
                } else {
                    proof {
                        assert(task.extractor_name@ == sm@.tasks[sm.unassigned_tasks.items@[
                            i as int]@].extractor_name);
                        assert(!sm@.extractors_table.contains_key(
                            sm@.tasks[sm.unassigned_tasks.items@[i as int]@].extractor_name,
                        ));
                    }
                }
            } else {
                proof {
                    assert(!sm@.tasks.contains_key(sm.unassigned_tasks.items@[i as int]@));
                }
            }
            proof {
                let items = sm.unassigned_tasks.items@;
                assert forall|x: int|
                    0 <= x < i + 1 && sm@.tasks.contains_key((#[trigger] items[x])@) && (exists|
                        e: Seq<char>,
                    |
                        live_candidate(
                            sm@,
                            sm@.tasks[items[x]@].extractor_name,
                            e,
                            now,
                            w,
                        )) implies exists|k: int|
                    0 <= k < out@.len() && (#[trigger] out@[k]).0@ == items[x]@ by {
                    if x == i as int {
                        let e = choose|e: Seq<char>|
                            live_candidate(sm@, sm@.tasks[items[x]@].extractor_name, e, now, w);
                        assert(live_candidate(
                            sm@,
                            sm@.tasks[items[x]@].extractor_name,
                            e,
                            now,
                            w,
                        ));
                    } else {
                        let k = choose|k: int|
                            0 <= k < out0.len() && (#[trigger] out0[k]).0@ == items[x]@;
                        assert(out@[k].0@ == items[x]@);
                    }
                }
            }
            i = i + 1;
        }
        proof {
            assert forall|id: Seq<char>|
                sm@.unassigned_tasks.contains(id) && sm@.tasks.contains_key(id) && (exists|
                    e: Seq<char>,
                |
                    live_candidate(
                        sm@,
                        (#[trigger] sm@.tasks[id]).extractor_name,
                        e,
                        now,
                        w,
                    )) implies exists|k: int| 0 <= k < out@.len() && (#[trigger] out@[k]).0@
                == id by {
                crate::strset::lemma_set_of_contains(sm.unassigned_tasks.items@, id);
            }
            let ps = crate::state_machine::pairs_view(out@);
            assert forall|k: int|
                #![trigger ps[k]]
                0 <= k < ps.len() implies sm@.unassigned_tasks.contains(ps[k].0)
                && sm@.tasks.contains_key(ps[k].0) && live_candidate(
                sm@,
                sm@.tasks[ps[k].0].extractor_name,
                ps[k].1,
                now,
                w,
            ) by {
                assert(ps[k] == (out@[k].0@, out@[k].1@));
            }
            assert forall|k1: int, k2: int|
                #![trigger ps[k1], ps[k2]]
                0 <= k1 < k2 < ps.len() implies crate::strset::str_lt(ps[k1].0, ps[k2].0) by {
                assert(ps[k1] == (out@[k1].0@, out@[k1].1@));
                assert(ps[k2] == (out@[k2].0@, out@[k2].1@));
            }
            assert forall|id: Seq<char>|
                sm@.unassigned_tasks.contains(id) && sm@.tasks.contains_key(id) && (exists|
                    e: Seq<char>,
                |
                    live_candidate(
                        sm@,
                        (#[trigger] sm@.tasks[id]).extractor_name,
                        e,
                        now,
                        w,
                    )) implies exists|k: int| 0 <= k < ps.len() && (#[trigger] ps[k]).0 == id by {
                let k = choose|k: int| 0 <= k < out@.len() && (#[trigger] out@[k]).0@ == id;
                assert(ps[k] == (out@[k].0@, out@[k].1@));
                assert(ps[k].0 == id);
            }
            assert(assignment_plan_ok(sm@, ps, now, w));
        }
        out
    }

    /// The tasks assigned to one executor, for it to poll.
    #[verifier::loop_isolation(false)]
    pub fn get_work_for_worker(&self, sm: &StateMachine, executor_id: &String) -> (r: Vec<Task>)
        requires
            sm.wf(),
            crate::invariants::sm_inv(sm@),
        ensures
            forall|k: int|
                #![trigger r@[k]]
                0 <= k < r@.len() ==> sm@.task_assignments.contains_key(executor_id@)
                    && sm@.task_assignments[executor_id@].contains(r@[k]@.id)
                    && sm@.tasks.contains_key(r@[k]@.id) && r@[k]@ == sm@.tasks[r@[k]@.id],
            forall|id: Seq<char>|
                sm@.task_assignments.contains_key(executor_id@)
                    && sm@.task_assignments[executor_id@].contains(id) && sm@.tasks.contains_key(id)
                    && (#[trigger] sm@.tasks[id]).id == id ==> exists|k: int|
                    0 <= k < r@.len() && (#[trigger] r@[k])@.id == id,
            forall|k1: int, k2: int|
                #![trigger r@[k1], r@[k2]]
                0 <= k1 < k2 < r@.len() ==> crate::strset::str_lt(r@[k1]@.id, r@[k2]@.id),
    {
        let members = match self.assigned_set(sm, executor_id) {
            Some(s) => s,
            None => {
                return Vec::new();
            },
        };
        let n = members.items.len();
        let mut out: Vec<Task> = Vec::new();
        let mut i: usize = 0;
        while i < n
            invariant
                sm.wf(),
                n == members.items@.len(),
                members@ == sm@.task_assignments[executor_id@],
                members.wf(),
                sm@.task_assignments.contains_key(executor_id@),
                i <= n,
                forall|k: int|
                    #![trigger out@[k]]
                    0 <= k < out@.len() ==> sm@.task_assignments[executor_id@].contains(out@[k]@.id)
                        && sm@.tasks.contains_key(out@[k]@.id) && out@[k]@
                        == sm@.tasks[out@[k]@.id],
                forall|k: int|
                    #![trigger out@[k]]
                    0 <= k < out@.len() ==> exists|x: int|
                        0 <= x < i && out@[k]@.id == (#[trigger] members.items@[x])@,
                forall|k1: int, k2: int|
                    #![trigger out@[k1], out@[k2]]
                    0 <= k1 < k2 < out@.len() ==> crate::strset::str_lt(out@[k1]@.id, out@[k2]@.id),
                forall|x: int|
                    0 <= x < i && sm@.tasks.contains_key((#[trigger] members.items@[x])@)
                        && sm@.tasks[members.items@[x]@].id == members.items@[x]@ ==> exists|k: int|
                        0 <= k < out@.len() && (#[trigger] out@[k])@.id == members.items@[x]@,
            decreases n - i,
        {
            let ghost out0 = out@;
            let id = &members.items[i];
            proof {
                crate::strset::lemma_set_of_contains(members.items@, id@);
            }
            match sm.tasks.get(id) {
                Some(t) => {
                    out.push(t.duplicate());
                    proof {
                        let last = out@.len() - 1;
                        assert(sm@.tasks.contains_key(id@));
                        assert(sm@.tasks[id@].id == id@);
                        assert(out@[last]@ == sm@.tasks[id@]);
                        assert(members.items@[i as int]@ == id@);
                        assert(out@[last]@.id == members.items@[i as int]@);
                        assert forall|k1: int, k2: int|
                            #![trigger out@[k1], out@[k2]]
                            0 <= k1 < k2 < out@.len() implies crate::strset::str_lt(
                            out@[k1]@.id,
                            out@[k2]@.id,
                        ) by {
                            if k2 == last {
                                let x = choose|x: int|
                                    0 <= x < i && out@[k1]@.id == (
                                    #[trigger] members.items@[x])@;
                                assert(crate::strset::str_lt(
                                    members.items@[x]@,
                                    members.items@[i as int]@,
                                ));
                            }
                        }
                    }
                },
                None => {
                    proof {
                        assert(!sm@.tasks.contains_key(members.items@[i as int]@));
                    }
                },
            }
            proof {
                let its = members.items@;
                assert forall|x: int|
                    0 <= x < i + 1 && sm@.tasks.contains_key((#[trigger] its[x])@)
                        && sm@.tasks[its[x]@].id == its[x]@ implies exists|k: int|
                    0 <= k < out@.len() && (#[trigger] out@[k])@.id == its[x]@ by {
                    if x == i as int {
                        assert(its[x]@ == members.items@[i as int]@);
                    } else {
                        let k = choose|k: int|
                            0 <= k < out0.len() && (#[trigger] out0[k])@.id == its[x]@;
                        assert(out@[k]@.id == its[x]@);
                    }
                }
            }
            i = i + 1;
        }
        proof {
            assert forall|id: Seq<char>|
                sm@.task_assignments.contains_key(executor_id@)
                    && sm@.task_assignments[executor_id@].contains(id) && sm@.tasks.contains_key(id)
                    && (#[trigger] sm@.tasks[id]).id == id implies exists|k: int|
                0 <= k < out@.len() && (#[trigger] out@[k])@.id == id by {
                crate::strset::lemma_set_of_contains(members.items@, id);
            }
        }
        out
    }

    /// The assignment set of one executor, as an owned copy.
    fn assigned_set(&self, sm: &StateMachine, executor_id: &String) -> (r: Option<StrSet>)
        requires
            sm.wf(),
        ensures
            match r {
                Some(s) => sm@.task_assignments.contains_key(executor_id@) && s@
                    == sm@.task_assignments[executor_id@] && s.wf(),
                None => !sm@.task_assignments.contains_key(executor_id@),
            },
    {
        match sm.task_assignments.get(executor_id) {
            Some(s) => {
                proof {
                    let i = choose|i: int|
                        0 <= i < sm.task_assignments.entries@.len()
                            && sm.task_assignments.entries@[i].0@ == executor_id@ && *s
                            == sm.task_assignments.entries@[i].1;
                    assert(sm.task_assignments.entries@[i].1.wf());
                }
                Some(s.duplicate_sorted())
            },
            None => None,
        }
    }

    /// Pick a random executor advertising the extractor.
    pub fn get_executor(&self, sm: &StateMachine, extractor_name: &String) -> (r: Result<
        ExecutorMetadata,
        CoordError,
    >)
        requires
            sm.wf(),
            crate::invariants::sm_inv(sm@),
        ensures
            match r {
                Ok(md) => sm@.extractors_table.contains_key(extractor_name@)
                    && sm@.extractors_table[extractor_name@].contains(md@.id)
                    && sm@.executors.contains_key(md@.id) && md@ == sm@.executors[md@.id]
                    && md@.extractor.name == extractor_name@,
                Err(e) => e == CoordError::NoExecutorsForExtractor && (
                !sm@.extractors_table.contains_key(extractor_name@)
                    || sm@.extractors_table[extractor_name@] =~= Set::<Seq<char>>::empty()),
            },
    {
        let members = match sm.extractors_table.get(extractor_name) {
            Some(s) => s,
            None => {
                return Err(CoordError::NoExecutorsForExtractor);
            },
        };
        if members.items.len() == 0 {
            proof {
                assert(members.items@ =~= Seq::<String>::empty());
                assert(members@ =~= Set::<Seq<char>>::empty());
            }
            return Err(CoordError::NoExecutorsForExtractor);
        }
        let idx = (random_u64() % (members.items.len() as u64)) as usize;
        let eid = &members.items[idx];
        proof {
            crate::strset::lemma_set_of_contains(members.items@, eid@);
            assert(sm@.extractors_table[extractor_name@].contains(eid@));
        }
        match sm.executors.get(eid) {
            Some(md) => Ok(md.duplicate()),
            None => {
                proof {
                    assert(false);
                }
                Err(CoordError::NoExecutorsForExtractor)
            },
        }
    }

    /// All known executors.
    pub fn get_executors(&self, sm: &StateMachine) -> (r: Vec<ExecutorMetadata>)
        requires
            sm.wf(),
        ensures
            r@.len() == sm.executors.entries@.len(),
            forall|k: int|
                #![trigger r@[k]]
                0 <= k < r@.len() ==> sm@.executors.contains_key(
                    (#[trigger] sm.executors.entries@[k]).0@,
                ) && r@[k]@ == sm@.executors[sm.executors.entries@[k].0@],
    {
        let n = sm.executors.entries.len();
        let mut out: Vec<ExecutorMetadata> = Vec::new();
        let mut i: usize = 0;
        while i < n
            invariant
                sm.wf(),
                n == sm.executors.entries@.len(),
                i <= n,
                out@.len() == i,
                forall|k: int|
                    #![trigger out@[k]]
                    0 <= k < i ==> sm@.executors.contains_key(
                        (#[trigger] sm.executors.entries@[k]).0@,
                    ) && out@[k]@ == sm@.executors[sm.executors.entries@[k].0@],
            decreases n - i,
        {
            proof {
                lemma_map_of_index(sm.executors.entries@, i as int);
            }
            out.push(sm.executors.entries[i].1.duplicate());
            proof {
                assert(sm@.executors.contains_key(sm.executors.entries@[i as int].0@));
                assert(out@[i as int]@ == sm@.executors[sm.executors.entries@[i as int].0@]);
            }
            i = i + 1;
        }
        out
    }

    /// Route the features of finished tasks to the index managers:
    /// embeddings (with their source text) to the vector index, metadata
    /// to the attribute index, each under `"{binding}-{feature}"`.
    pub fn write_extracted_data(&self, sm: &StateMachine, results: &Vec<TaskResult>) -> (r: Vec<
        IngestInstruction,
    >)
        requires
            sm.wf(),
        ensures
            r@.map_values(|x: IngestInstruction| x@) == ingest_plan(
                sm@,
                results@.map_values(|t: TaskResult| t@),
            ),
    {
        let ghost rsv = results@.map_values(|t: TaskResult| t@);
        proof {
            assert(rsv.skip(0) =~= rsv);
        }
        let n = results.len();
        let mut out: Vec<IngestInstruction> = Vec::new();
        let mut i: usize = 0;
        while i < n
            invariant
                sm.wf(),
                n == results@.len(),
                rsv == results@.map_values(|t: TaskResult| t@),
                i <= n,
                ingest_plan(sm@, rsv) == out@.map_values(|x: IngestInstruction| x@) + ingest_plan(
                    sm@,
                    rsv.skip(i as int),
                ),
            decreases n - i,
        {
            let ghost out0 = out@.map_values(|x: IngestInstruction| x@);
            let res = &results[i];
            proof {
                assert(rsv.skip(i as int)[0] == rsv[i as int]);
                assert(rsv.skip(i as int).drop_first() =~= rsv.skip(i as int + 1));
            }
            if let Some(task) = sm.tasks.get(&res.task_id) {
                let ghost tv = sm@.tasks[rsv[i as int].task_id];
                let ghost csv = rsv[i as int].extracted_content;
                proof {
                    assert(csv.skip(0) =~= csv);
                }
                let nc = res.extracted_content.len();
                let mut j: usize = 0;
                while j < nc
                    invariant
                        sm.wf(),
                        nc == res.extracted_content@.len(),
                        csv == rsv[i as int].extracted_content,
                        csv.len() == nc,
                        forall|y: int| 0 <= y < nc ==> csv[y] == (#[trigger] res
                            .extracted_content@[y])@,
                        tv == sm@.tasks[rsv[i as int].task_id],
                        task@ == tv,
                        j <= nc,
                        out@.map_values(|x: IngestInstruction| x@) + actions_for_contents(
                            tv,
                            csv.skip(j as int),
                        ) == out0 + actions_for_contents(tv, csv),
                    decreases nc - j,
                {
                    let c = &res.extracted_content[j];
                    proof {
                        assert(csv.skip(j as int)[0] == csv[j as int]);
                        assert(csv.skip(j as int).drop_first() =~= csv.skip(j as int + 1));
                        assert(csv[j as int] == c@);
                    }
                    if let Some(f) = &c.feature {
                        let index_name = task.extractor_binding.clone().concat("-").concat(
                            f.name.as_str(),
                        );
                        match f.kind {
                            FeatureKind::Embedding => {
                                if let Some(text) = &c.source_text {
                                    let instr = IngestInstruction::AddEmbedding {
                                        repository: task.repository.clone(),
                                        index_name,
                                        content_id: task.content_id.clone(),
                                        text: text.clone(),
                                        data: f.data.clone(),
                                    };
                                    proof {
                                        assert(instr@ == actions_for_content(tv, csv[j as int])[0]);
                                    }
                                    out.push(instr);
                                }
                            },
                            FeatureKind::Metadata => {
                                let instr = IngestInstruction::AddAttributes {
                                    repository: task.repository.clone(),
                                    index_name,
                                    content_id: task.content_id.clone(),
                                    extractor_name: task.extractor_name.clone(),
                                    data: f.data.clone(),
                                };
                                proof {
                                    assert(instr@ == actions_for_content(tv, csv[j as int])[0]);
                                }
                                out.push(instr);
                            },
                        }
                    }
                    proof {
                        assert(out@.map_values(|x: IngestInstruction| x@) + actions_for_contents(
                            tv,
                            csv.skip(j as int + 1),
                        ) =~= out0 + actions_for_contents(tv, csv));
                    }
                    j = j + 1;
                }
                proof {
                    assert(csv.skip(nc as int) =~= Seq::<ExtractedContentView>::empty());
                }
            }
            i = i + 1;
        }
        proof {
            assert(rsv.skip(n as int) =~= Seq::<TaskResultView>::empty());
        }
        out
    }
}


/// The views of a command list.
pub open spec fn cmds_view(cs: Seq<Request>) -> Seq<RequestView> {
    cs.map_values(|c: Request| c@)
}

/// The two commands one pending event calls for: create exactly the
/// tasks its payload derives, then close the event.
pub open spec fn commands_for_event(sm: StateMachine, id: Seq<char>) -> Seq<RequestView> {
    match sm@.extraction_events[id].payload {
        ExtractionEventPayloadView::ContentCreated { content_id } => seq![
            RequestView::CreateTasks {
                tasks: derived_for_content(
                    sm.bindings_table.entries@,
                    sm@.content_table[content_id],
                ),
            },
            RequestView::MarkExtractionEventProcessed { event_id: id },
        ],
        ExtractionEventPayloadView::BindingAdded { binding_id } => seq![
            RequestView::CreateTasks {
                tasks: if sm@.bindings_table.contains_key(binding_id) {
                    derived_for_binding(
                        sm.content_table.entries@,
                        sm@.bindings_table[binding_id],
                    )
                } else {
                    Seq::empty()
                },
            },
            RequestView::MarkExtractionEventProcessed { event_id: id },
        ],
    }
}

/// The full event-processing pass over the first `i` pending events,
/// in ascending event-id order.
pub open spec fn events_plan_upto(sm: StateMachine, i: int) -> Seq<RequestView>
    decreases i,
{
    if i <= 0 {
        Seq::empty()
    } else {
        events_plan_upto(sm, i - 1) + commands_for_event(
            sm,
            sm.unprocessed_extraction_events.items@[i - 1]@,
        )
    }
}

/// The full event-processing pass: every pending event, in ascending
/// event-id order.
pub open spec fn events_plan(sm: StateMachine) -> Seq<RequestView> {
    events_plan_upto(sm, sm.unprocessed_extraction_events.items@.len() as int)
}

impl Coordinator {
    /// Drain the unprocessed extraction events, in ascending id order:
    /// derive the tasks each event calls for, and close each event with
    /// a `MarkExtractionEventProcessed` command. Every returned command
    /// is valid to apply against the snapshot it was derived from.
    #[verifier::loop_isolation(false)]
    pub fn process_extraction_events(&self, sm: &StateMachine) -> (r: Result<
        Vec<Request>,
        CoordError,
    >)
        requires
            sm.wf(),
            crate::invariants::sm_inv(sm@),
        ensures
            r is Ok,
            match r {
                Ok(cmds) => {
                    &&& cmds_view(cmds@) == events_plan(*sm)
                    &&& forall|k: int|
                        #![trigger cmds@[k]]
                        0 <= k < cmds@.len() ==> crate::invariants::valid_request(sm@, cmds@[k]@)
                    &&& forall|id: Seq<char>| #[trigger]
                        sm@.unprocessed_extraction_events.contains(id) ==> exists|k: int|
                            0 <= k < cmds@.len() && (#[trigger] cmds@[k])@
                                == (RequestView::MarkExtractionEventProcessed { event_id: id })
                    &&& forall|k: int|
                        #![trigger cmds@[k]]
                        0 <= k < cmds@.len() ==> (cmds@[k]@ matches RequestView::MarkExtractionEventProcessed {
                            event_id,
                        } ==> sm@.unprocessed_extraction_events.contains(event_id))
                },
                Err(_) => false,
            },
    {
        let n = sm.unprocessed_extraction_events.items.len();
        let mut cmds: Vec<Request> = Vec::new();
        let mut i: usize = 0;
        while i < n
            invariant
                n == sm.unprocessed_extraction_events.items@.len(),
                i <= n,
                forall|k: int|
                    #![trigger cmds@[k]]
                    0 <= k < cmds@.len() ==> crate::invariants::valid_request(sm@, cmds@[k]@),
                forall|k: int|
                    #![trigger cmds@[k]]
                    0 <= k < cmds@.len() ==> (cmds@[k]@ matches RequestView::MarkExtractionEventProcessed {
                        event_id,
                    } ==> sm@.unprocessed_extraction_events.contains(event_id)),
                forall|x: int|
                    0 <= x < i ==> exists|k: int|
                        0 <= k < cmds@.len() && (#[trigger] cmds@[k])@
                            == (RequestView::MarkExtractionEventProcessed {
                            event_id: (#[trigger] sm.unprocessed_extraction_events.items@[x])@,
                        }),
                cmds_view(cmds@) == events_plan_upto(*sm, i as int),
            decreases n - i,
        {
            let ghost cmds0 = cmds@;
            let id = &sm.unprocessed_extraction_events.items[i];
            proof {
                crate::strset::lemma_set_of_contains(
                    sm.unprocessed_extraction_events.items@,
                    id@,
                );
                assert(sm@.unprocessed_extraction_events.contains(id@));
            }
            let event = match sm.extraction_events.get(id) {
                Some(e) => e,
                None => {
                    proof {
                        assert(false);
                    }
                    return Err(CoordError::ContentNotFound);
                },
            };
            match &event.payload {
                ExtractionEventPayload::ContentCreated { content_id } => {
                    proof {
                        assert(event@.payload == (ExtractionEventPayloadView::ContentCreated {
                            content_id: content_id@,
                        }));
                        assert(sm@.content_table.contains_key(content_id@));
                    }
                    let tasks = match self.create_tasks_for_content(sm, content_id) {
                        Ok(ts) => ts,
                        Err(_unreachable) => {
                            // An unprocessed content trigger always names
                            // stored content; the invariant rules this out.
                            proof {
                                assert(false);
                            }
                            return Err(CoordError::ContentNotFound);
                        },
                    };
                    proof {
                        lemma_derived_for_content_valid(
                            sm.bindings_table.entries@,
                            sm@.content_table[content_id@],
                        );
                        assert(sm@.content_table[content_id@].id == content_id@);
                    }
                    let cmd = Request::CreateTasks { tasks };
                    proof {
                        assert(crate::invariants::valid_request(sm@, cmd@));
                        assert(cmd@ == commands_for_event(*sm, id@)[0]);
                    }
                    cmds.push(cmd);
                },
                ExtractionEventPayload::BindingAdded { binding_id } => {
                    let tasks = self.create_tasks_for_extractor_bindings(sm, binding_id);
                    proof {
                        if sm@.bindings_table.contains_key(binding_id@) {
                            assert forall|y: int|
                                0 <= y < sm.content_table.entries@.len() implies (
                            #[trigger] sm.content_table.entries@[y]).1@.id
                                == sm.content_table.entries@[y].0@ by {
                                lemma_map_of_index(sm.content_table.entries@, y);
                            }
                            lemma_derived_for_binding_valid(
                                sm.content_table.entries@,
                                sm@.bindings_table[binding_id@],
                            );
                        }
                    }
                    let cmd = Request::CreateTasks { tasks };
                    proof {
                        assert(crate::invariants::valid_request(sm@, cmd@));
                        assert(event@.payload == (ExtractionEventPayloadView::BindingAdded {
                            binding_id: binding_id@,
                        }));
                        if !sm@.bindings_table.contains_key(binding_id@) {
                            assert(tasks@.map_values(|t: Task| t@) =~= Seq::<TaskView>::empty());
                        }
                        assert(cmd@ == commands_for_event(*sm, id@)[0]);
                    }
                    cmds.push(cmd);
                },
            }
            let mark = Request::MarkExtractionEventProcessed { event_id: id.clone() };
            cmds.push(mark);
            proof {
                let last = cmds@.len() - 1;
                assert(cmds@[last]@ == (RequestView::MarkExtractionEventProcessed {
                    event_id: sm.unprocessed_extraction_events.items@[i as int]@,
                }));
                assert forall|x: int| 0 <= x < i + 1 implies exists|k: int|
                    0 <= k < cmds@.len() && (#[trigger] cmds@[k])@
                        == (RequestView::MarkExtractionEventProcessed {
                        event_id: (#[trigger] sm.unprocessed_extraction_events.items@[x])@,
                    }) by {
                    if x < i {
                        let k = choose|k: int|
                            0 <= k < cmds0.len() && (#[trigger] cmds0[k])@
                                == (RequestView::MarkExtractionEventProcessed {
                                event_id: sm.unprocessed_extraction_events.items@[x]@,
                            });
                        assert(cmds@[k]@ == cmds0[k]@);
                    }
                }
                assert(cmds@[cmds@.len() - 2]@ == commands_for_event(*sm, id@)[0]);
                assert(cmds@[cmds@.len() - 1]@ == commands_for_event(*sm, id@)[1]);
                assert(cmds_view(cmds@) =~= events_plan_upto(*sm, i as int + 1));
            }
            i = i + 1;
        }
        proof {
            assert(events_plan_upto(*sm, n as int) == events_plan(*sm));
            assert forall|id: Seq<char>| #[trigger]
                sm@.unprocessed_extraction_events.contains(id) implies exists|k: int|
                0 <= k < cmds@.len() && (#[trigger] cmds@[k])@
                    == (RequestView::MarkExtractionEventProcessed { event_id: id }) by {
                crate::strset::lemma_set_of_contains(
                    sm.unprocessed_extraction_events.items@,
                    id,
                );
            }
        }
        Ok(cmds)
    }

    /// One full coordinator cycle over a snapshot: derive and close the
    /// pending events, then distribute the waiting work. The caller
    /// proposes the returned commands through consensus in order; the
    /// last command is always the assignment batch.
    pub fn process_and_distribute_work(&self, sm: &StateMachine, now: u64) -> (r: Result<
        Vec<Request>,
        CoordError,
    >)
        requires
            sm.wf(),
            crate::invariants::sm_inv(sm@),
        ensures
            r is Ok,
            match r {
                Ok(cmds) => {
                    &&& cmds@.len() == events_plan(*sm).len() + 1
                    &&& cmds_view(cmds@).take(events_plan(*sm).len() as int) == events_plan(*sm)
                    &&& (cmds@.last()@ matches RequestView::AssignTask { assignments }
                        && assignment_plan_ok(sm@, assignments, now, self.liveness_window_secs))
                    &&& forall|k: int|
                        #![trigger cmds@[k]]
                        0 <= k < cmds@.len() ==> crate::invariants::valid_request(sm@, cmds@[k]@)
                    &&& forall|id: Seq<char>| #[trigger]
                        sm@.unprocessed_extraction_events.contains(id) ==> exists|k: int|
                            0 <= k < cmds@.len() && (#[trigger] cmds@[k])@
                                == (RequestView::MarkExtractionEventProcessed { event_id: id })
                },
                Err(_) => false,
            },
    {
        let mut cmds = match self.process_extraction_events(sm) {
            Ok(c) => c,
            Err(_unreachable) => {
                proof {
                    assert(false);
                }
                return Err(CoordError::ContentNotFound);
            },
        };
        let ghost cmds0 = cmds@;
        let assignments = self.distribute_work(sm, now);
        let batch = Request::AssignTask { assignments };
        cmds.push(batch);
        proof {
            assert(crate::invariants::valid_request(sm@, cmds@[cmds@.len() - 1]@));
            assert(cmds_view(cmds@).take(events_plan(*sm).len() as int) =~= cmds_view(cmds0));
            assert forall|id: Seq<char>| #[trigger]
                sm@.unprocessed_extraction_events.contains(id) implies exists|k: int|
                0 <= k < cmds@.len() && (#[trigger] cmds@[k])@
                    == (RequestView::MarkExtractionEventProcessed { event_id: id }) by {
                let k = choose|k: int|
                    0 <= k < cmds0.len() && (#[trigger] cmds0[k])@
                        == (RequestView::MarkExtractionEventProcessed { event_id: id });
                assert(cmds@[k]@ == cmds0[k]@);
            }
        }
        Ok(cmds)
    }

    /// The terminal-status commands for a batch of task results; the
    /// bridge proposes these before fanning the extracted features out,
    /// so each task's outcome is recorded in the store.
    pub fn status_updates(&self, results: &Vec<TaskResult>) -> (r: Vec<Request>)
        ensures
            r@.len() == results@.len(),
            forall|k: int|
                #![trigger r@[k]]
                0 <= k < r@.len() ==> r@[k]@ == (RequestView::UpdateTask {
                    task_id: results@[k]@.task_id,
                    status: results@[k]@.status,
                }),
    {
        let n = results.len();
        let mut out: Vec<Request> = Vec::new();
        let mut i: usize = 0;
        while i < n
            invariant
                n == results@.len(),
                i <= n,
                out@.len() == i,
                forall|k: int|
                    #![trigger out@[k]]
                    0 <= k < i ==> out@[k]@ == (RequestView::UpdateTask {
                        task_id: results@[k]@.task_id,
                        status: results@[k]@.status,
                    }),
            decreases n - i,
        {
            let cmd = Request::UpdateTask {
                task_id: results[i].task_id.clone(),
                status: results[i].status,
            };
            out.push(cmd);
            i = i + 1;
        }
        out
    }
}

} // verus!
