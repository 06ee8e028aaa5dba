//! The entities of the control plane's data model.
//!
//! Every entity is plain data: strings, integers, vectors, options.
//! Each one carries a `View` onto a mathematical model in which strings
//! are character sequences, so that contracts can speak about contents
//! rather than representations.

use vstd::prelude::*;

use crate::table::Dup;

verus! {

/// Identifier of a log entry: the leader that proposed it and its index.
#[derive(Clone, Copy, PartialEq, Eq, Structural, Debug)]
pub struct LogId {
    pub leader_id: u64,
    pub index: u64,
}

/// `a <= b` in the order the replication engine keeps its log ids in:
/// by proposing leader first, then by index.
pub open spec fn log_id_le(a: LogId, b: LogId) -> bool {
    a.leader_id < b.leader_id || (a.leader_id == b.leader_id && a.index <= b.index)
}

/// `a <= b` on optional log ids; an absent id precedes every present one.
pub open spec fn opt_log_id_le(a: Option<LogId>, b: Option<LogId>) -> bool {
    match (a, b) {
        (None, _) => true,
        (Some(_), None) => false,
        (Some(x), Some(y)) => log_id_le(x, y),
    }
}

/// The vote record the node persists for the replication engine.
#[derive(Clone, Copy, PartialEq, Eq, Structural, Debug)]
pub struct Vote {
    pub term: u64,
    pub node_id: u64,
    pub committed: bool,
}

/// The last committed membership, with the log id it was committed at.
#[derive(Clone, PartialEq, Debug)]
pub struct StoredMembership {
    pub log_id: Option<LogId>,
    pub nodes: Vec<u64>,
}

#[verifier::ext_equal]
pub struct StoredMembershipView {
    pub log_id: Option<LogId>,
    pub nodes: Seq<u64>,
}

impl View for StoredMembership {
    type V = StoredMembershipView;

    open spec fn view(&self) -> StoredMembershipView {
        StoredMembershipView { log_id: self.log_id, nodes: self.nodes@ }
    }
}

impl StoredMembership {
    pub fn empty() -> (r: Self)
        ensures
            r@.log_id is None,
            r@.nodes.len() == 0,
    {
        StoredMembership { log_id: None, nodes: Vec::new() }
    }
}

impl Dup for StoredMembership {
    fn duplicate(&self) -> (r: Self) {
        let mut nodes: Vec<u64> = Vec::new();
        let n = self.nodes.len();
        let mut i: usize = 0;
        while i < n
            invariant
                n == self.nodes@.len(),
                i <= n,
                nodes@ =~= self.nodes@.subrange(0, i as int),
            decreases n - i,
        {
            nodes.push(self.nodes[i]);
            i = i + 1;
        }
        proof {
            assert(nodes@ =~= self.nodes@);
        }
        StoredMembership { log_id: self.log_id, nodes }
    }
}

/// Status of a task in its lifecycle.
#[derive(Clone, Copy, PartialEq, Eq, Structural, Debug)]
pub enum TaskStatus {
    Unassigned,
    Assigned,
    Running,
    Success,
    Failure,
}

impl TaskStatus {
    /// A task in a terminal status needs no executor any more.
    pub open spec fn is_terminal(&self) -> bool {
        *self is Success || *self is Failure
    }
}

/// A named worker capability, immutable once registered.
#[derive(Clone, PartialEq, Debug)]
pub struct ExtractorDescription {
    pub name: String,
    pub input_schema: String,
    pub output_features: Vec<String>,
}

pub struct ExtractorDescriptionView {
    pub name: Seq<char>,
    pub input_schema: Seq<char>,
    pub output_features: Seq<Seq<char>>,
}

impl View for ExtractorDescription {
    type V = ExtractorDescriptionView;

    open spec fn view(&self) -> ExtractorDescriptionView {
        ExtractorDescriptionView {
            name: self.name@,
            input_schema: self.input_schema@,
            output_features: self.output_features@.map_values(|s: String| s@),
        }
    }
}

impl Dup for ExtractorDescription {
    fn duplicate(&self) -> (r: Self) {
        let mut output_features: Vec<String> = Vec::new();
        let n = self.output_features.len();
        let mut i: usize = 0;
        while i < n
            invariant
                n == self.output_features@.len(),
                i <= n,
                output_features@.len() == i,
                forall|j: int| 0 <= j < i ==> output_features@[j] == self.output_features@[j],
            decreases n - i,
        {
            output_features.push(self.output_features[i].clone());
            i = i + 1;
        }
        let r = ExtractorDescription {
            name: self.name.clone(),
            input_schema: self.input_schema.clone(),
            output_features,
        };
        proof {
            assert(r.output_features@ =~= self.output_features@);
            assert(r@.output_features =~= self@.output_features);
        }
        r
    }
}

/// What an executor reports about itself on a heartbeat.
#[derive(Clone, PartialEq, Debug)]
pub struct ExtractorHeartbeat {
    pub executor_id: String,
    pub addr: String,
    pub extractor: ExtractorDescription,
}

pub struct ExtractorHeartbeatView {
    pub executor_id: Seq<char>,
    pub addr: Seq<char>,
    pub extractor: ExtractorDescriptionView,
}

impl View for ExtractorHeartbeat {
    type V = ExtractorHeartbeatView;

    open spec fn view(&self) -> ExtractorHeartbeatView {
        ExtractorHeartbeatView {
            executor_id: self.executor_id@,
            addr: self.addr@,
            extractor: self.extractor@,
        }
    }
}

impl Dup for ExtractorHeartbeat {
    fn duplicate(&self) -> (r: Self) {
        ExtractorHeartbeat {
            executor_id: self.executor_id.clone(),
            addr: self.addr.clone(),
            extractor: self.extractor.duplicate(),
        }
    }
}

/// A known executor: identity, address, capability, last heartbeat time.
#[derive(Clone, PartialEq, Debug)]
pub struct ExecutorMetadata {
    pub id: String,
    pub last_seen: u64,
    pub addr: String,
    pub extractor: ExtractorDescription,
}

pub struct ExecutorMetadataView {
    pub id: Seq<char>,
    pub last_seen: u64,
    pub addr: Seq<char>,
    pub extractor: ExtractorDescriptionView,
}

impl View for ExecutorMetadata {
    type V = ExecutorMetadataView;

    open spec fn view(&self) -> ExecutorMetadataView {
        ExecutorMetadataView {
            id: self.id@,
            last_seen: self.last_seen,
            addr: self.addr@,
            extractor: self.extractor@,
        }
    }
}

impl Dup for ExecutorMetadata {
    fn duplicate(&self) -> (r: Self) {
        ExecutorMetadata {
            id: self.id.clone(),
            last_seen: self.last_seen,
            addr: self.addr.clone(),
            extractor: self.extractor.duplicate(),
        }
    }
}

/// One `key = value` pair; contents are labelled with these, and binding
/// filters are conjunctions of them.
#[derive(Clone, PartialEq, Debug)]
pub struct LabelPair {
    pub key: String,
    pub value: String,
}

pub struct LabelPairView {
    pub key: Seq<char>,
    pub value: Seq<char>,
}

impl View for LabelPair {
    type V = LabelPairView;

    open spec fn view(&self) -> LabelPairView {
        LabelPairView { key: self.key@, value: self.value@ }
    }
}

impl Dup for LabelPair {
    fn duplicate(&self) -> (r: Self) {
        LabelPair { key: self.key.clone(), value: self.value.clone() }
    }
}

pub open spec fn label_pairs_view(v: Seq<LabelPair>) -> Seq<LabelPairView> {
    v.map_values(|p: LabelPair| p@)
}

/// A declarative rule attaching an extractor to a repository. The filter
/// grammar is a conjunction of label equalities: a content matches when
/// every filter pair occurs among its labels.
#[derive(Clone, PartialEq, Debug)]
pub struct ExtractorBinding {
    pub id: String,
    pub repository: String,
    pub extractor_name: String,
    pub input_params: String,
    pub filters: Vec<LabelPair>,
}

pub struct ExtractorBindingView {
    pub id: Seq<char>,
    pub repository: Seq<char>,
    pub extractor_name: Seq<char>,
    pub input_params: Seq<char>,
    pub filters: Seq<LabelPairView>,
}

impl View for ExtractorBinding {
    type V = ExtractorBindingView;

    open spec fn view(&self) -> ExtractorBindingView {
        ExtractorBindingView {
            id: self.id@,
            repository: self.repository@,
            extractor_name: self.extractor_name@,
            input_params: self.input_params@,
            filters: label_pairs_view(self.filters@),
        }
    }
}

impl Dup for ExtractorBinding {
    fn duplicate(&self) -> (r: Self) {
        let mut filters: Vec<LabelPair> = Vec::new();
        let n = self.filters.len();
        let mut i: usize = 0;
        while i < n
            invariant
                n == self.filters@.len(),
                i <= n,
                filters@.len() == i,
                forall|j: int| 0 <= j < i ==> filters@[j]@ == self.filters@[j]@,
            decreases n - i,
        {
            filters.push(self.filters[i].duplicate());
            i = i + 1;
        }
        let r = ExtractorBinding {
            id: self.id.clone(),
            repository: self.repository.clone(),
            extractor_name: self.extractor_name.clone(),
            input_params: self.input_params.clone(),
            filters,
        };
        proof {
            assert(r@.filters =~= self@.filters);
        }
        r
    }
}

/// Immutable description of a piece of submitted content.
#[derive(Clone, PartialEq, Debug)]
pub struct ContentMetadata {
    pub id: String,
    pub repository: String,
    pub source_ref: String,
    pub labels: Vec<LabelPair>,
    pub mime: String,
}

pub struct ContentMetadataView {
    pub id: Seq<char>,
    pub repository: Seq<char>,
    pub source_ref: Seq<char>,
    pub labels: Seq<LabelPairView>,
    pub mime: Seq<char>,
}

impl View for ContentMetadata {
    type V = ContentMetadataView;

    open spec fn view(&self) -> ContentMetadataView {
        ContentMetadataView {
            id: self.id@,
            repository: self.repository@,
            source_ref: self.source_ref@,
            labels: label_pairs_view(self.labels@),
            mime: self.mime@,
        }
    }
}

impl Dup for ContentMetadata {
    fn duplicate(&self) -> (r: Self) {
        let mut labels: Vec<LabelPair> = Vec::new();
        let n = self.labels.len();
        let mut i: usize = 0;
        while i < n
            invariant
                n == self.labels@.len(),
                i <= n,
                labels@.len() == i,
                forall|j: int| 0 <= j < i ==> labels@[j]@ == self.labels@[j]@,
            decreases n - i,
        {
            labels.push(self.labels[i].duplicate());
            i = i + 1;
        }
        let r = ContentMetadata {
            id: self.id.clone(),
            repository: self.repository.clone(),
            source_ref: self.source_ref.clone(),
            labels,
            mime: self.mime.clone(),
        };
        proof {
            assert(r@.labels =~= self@.labels);
        }
        r
    }
}

/// What triggered an extraction event.
#[derive(Clone, PartialEq, Debug)]
pub enum ExtractionEventPayload {
    BindingAdded { binding_id: String },
    ContentCreated { content_id: String },
}

pub enum ExtractionEventPayloadView {
    BindingAdded { binding_id: Seq<char> },
    ContentCreated { content_id: Seq<char> },
}

impl View for ExtractionEventPayload {
    type V = ExtractionEventPayloadView;

    open spec fn view(&self) -> ExtractionEventPayloadView {
        match self {
            ExtractionEventPayload::BindingAdded { binding_id } => {
                ExtractionEventPayloadView::BindingAdded { binding_id: binding_id@ }
            },
            ExtractionEventPayload::ContentCreated { content_id } => {
                ExtractionEventPayloadView::ContentCreated { content_id: content_id@ }
            },
        }
    }
}

impl Dup for ExtractionEventPayload {
    fn duplicate(&self) -> (r: Self) {
        match self {
            ExtractionEventPayload::BindingAdded { binding_id } => {
                ExtractionEventPayload::BindingAdded { binding_id: binding_id.clone() }
            },
            ExtractionEventPayload::ContentCreated { content_id } => {
                ExtractionEventPayload::ContentCreated { content_id: content_id.clone() }
            },
        }
    }
}

/// A control-plane trigger: content or binding creation that the
/// coordinator must react to. Terminal state is `processed_at` set.
#[derive(Clone, PartialEq, Debug)]
pub struct ExtractionEvent {
    pub id: String,
    pub repository: String,
    pub payload: ExtractionEventPayload,
    pub created_at: u64,
    pub processed_at: Option<u64>,
}

pub struct ExtractionEventView {
    pub id: Seq<char>,
    pub repository: Seq<char>,
    pub payload: ExtractionEventPayloadView,
    pub created_at: u64,
    pub processed_at: Option<u64>,
}

impl View for ExtractionEvent {
    type V = ExtractionEventView;

    open spec fn view(&self) -> ExtractionEventView {
        ExtractionEventView {
            id: self.id@,
            repository: self.repository@,
            payload: self.payload@,
            created_at: self.created_at,
            processed_at: self.processed_at,
        }
    }
}

impl Dup for ExtractionEvent {
    fn duplicate(&self) -> (r: Self) {
        ExtractionEvent {
            id: self.id.clone(),
            repository: self.repository.clone(),
            payload: self.payload.duplicate(),
            created_at: self.created_at,
            processed_at: self.processed_at,
        }
    }
}

/// A unit of work: run one extractor over one content. The id is derived
/// deterministically from the binding and the content, so that proposing
/// the same work twice cannot create two tasks.
#[derive(Clone, PartialEq, Debug)]
pub struct Task {
    pub id: String,
    pub extractor_name: String,
    pub repository: String,
    pub content_id: String,
    pub extractor_binding: String,
    pub input_params: String,
    pub status: TaskStatus,
}

pub struct TaskView {
    pub id: Seq<char>,
    pub extractor_name: Seq<char>,
    pub repository: Seq<char>,
    pub content_id: Seq<char>,
    pub extractor_binding: Seq<char>,
    pub input_params: Seq<char>,
    pub status: TaskStatus,
}

impl View for Task {
    type V = TaskView;

    open spec fn view(&self) -> TaskView {
        TaskView {
            id: self.id@,
            extractor_name: self.extractor_name@,
            repository: self.repository@,
            content_id: self.content_id@,
            extractor_binding: self.extractor_binding@,
            input_params: self.input_params@,
            status: self.status,
        }
    }
}

impl Dup for Task {
    fn duplicate(&self) -> (r: Self) {
        Task {
            id: self.id.clone(),
            extractor_name: self.extractor_name.clone(),
            repository: self.repository.clone(),
            content_id: self.content_id.clone(),
            extractor_binding: self.extractor_binding.clone(),
            input_params: self.input_params.clone(),
            status: self.status,
        }
    }
}

/// The kind of feature an extractor emitted.
#[derive(Clone, Copy, PartialEq, Eq, Structural, Debug)]
pub enum FeatureKind {
    Embedding,
    Metadata,
}

/// One extractor output. The payload is carried as an opaque string;
/// the control plane routes it but never interprets it.
#[derive(Clone, PartialEq, Debug)]
pub struct Feature {
    pub name: String,
    pub kind: FeatureKind,
    pub data: String,
}

pub struct FeatureView {
    pub name: Seq<char>,
    pub kind: FeatureKind,
    pub data: Seq<char>,
}

impl View for Feature {
    type V = FeatureView;

    open spec fn view(&self) -> FeatureView {
        FeatureView { name: self.name@, kind: self.kind, data: self.data@ }
    }
}

/// A piece of content an executor extracted while running a task.
#[derive(Clone, PartialEq, Debug)]
pub struct ExtractedContent {
    pub source_text: Option<String>,
    pub feature: Option<Feature>,
}

pub struct ExtractedContentView {
    pub source_text: Option<Seq<char>>,
    pub feature: Option<FeatureView>,
}

impl View for ExtractedContent {
    type V = ExtractedContentView;

    open spec fn view(&self) -> ExtractedContentView {
        ExtractedContentView {
            source_text: match &self.source_text {
                Some(t) => Some(t@),
                None => None,
            },
            feature: match &self.feature {
                Some(f) => Some(f@),
                None => None,
            },
        }
    }
}

/// An executor's report on a finished task.
#[derive(Clone, PartialEq, Debug)]
pub struct TaskResult {
    pub task_id: String,
    pub status: TaskStatus,
    pub extracted_content: Vec<ExtractedContent>,
}

pub struct TaskResultView {
    pub task_id: Seq<char>,
    pub status: TaskStatus,
    pub extracted_content: Seq<ExtractedContentView>,
}

impl View for TaskResult {
    type V = TaskResultView;

    open spec fn view(&self) -> TaskResultView {
        TaskResultView {
            task_id: self.task_id@,
            status: self.status,
            extracted_content: self.extracted_content@.map_values(|c: ExtractedContent| c@),
        }
    }
}

} // verus!
