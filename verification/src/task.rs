//! Tasks: what is to be done, what it needs, and how far it has come.
use crate::clock::{now, Timestamp};
use crate::ident::{random_id, RANDOM_MARK, RANDOM_MASK};
use crate::string_map::StringMap;
use vstd::prelude::*;

verus! {

/// A percentage in single precision, held as its bit pattern.
#[derive(Clone, Copy, Debug, PartialEq, Eq, Structural)]
pub struct Percent {
    pub bits: u32,
}

impl DeepView for Percent {
    type V = Percent;

    open spec fn deep_view(&self) -> Percent {
        *self
    }
}

/// What a task does.
#[derive(Debug)]
pub enum TaskKind {
    /// Run a shell command on the remote node.
    Shell { command: String, args: Vec<String>, timeout_secs: u64 },
    /// Fetch a URL and return the body.
    HttpFetch { url: String, method: String, body: Option<String> },
    /// Custom opaque payload; the worker must know how to handle it by `tag`.
    Custom { tag: String, payload: Vec<u8> },
    /// MPI parallel job distributed across `np` nodes simultaneously.
    ///
    /// The server selects `np` eligible nodes, assigns each a rank, then sends
    /// an `MpiSlot` along with the task to every recruited node.
    ///
    /// When `use_mpirun` is set, rank 0 invokes `mpirun` for all ranks. When it
    /// is not, each worker runs its own rank and the server aggregates all outputs.
    Mpi {
        /// Executable to run on every rank (must exist on each worker node).
        program: String,
        /// Arguments forwarded to the program unchanged.
        args: Vec<String>,
        /// Total number of MPI processes (= nodes recruited).
        np: u32,
        /// Extra environment variables injected on every rank.
        env: StringMap,
        /// Wall-clock timeout in seconds for the whole job.
        timeout_secs: u64,
        /// Use system mpirun/mpiexec (requires OpenMPI or MPICH on workers).
        use_mpirun: bool,
    },
}

/// The contents of a `TaskKind`.
pub enum TaskKindView {
    Shell { command: Seq<char>, args: Seq<Seq<char>>, timeout_secs: u64 },
    HttpFetch { url: Seq<char>, method: Seq<char>, body: Option<Seq<char>> },
    Custom { tag: Seq<char>, payload: Seq<u8> },
    Mpi {
        program: Seq<char>,
        args: Seq<Seq<char>>,
        np: u32,
        env: Map<Seq<char>, Seq<char>>,
        timeout_secs: u64,
        use_mpirun: bool,
    },
}

impl DeepView for TaskKind {
    type V = TaskKindView;

    open spec fn deep_view(&self) -> TaskKindView {
        match self {
            TaskKind::Shell { command, args, timeout_secs } => TaskKindView::Shell {
                command: command@,
                args: args.deep_view(),
                timeout_secs: *timeout_secs,
            },
            TaskKind::HttpFetch { url, method, body } => TaskKindView::HttpFetch {
                url: url@,
                method: method@,
                body: body.deep_view(),
            },
            TaskKind::Custom { tag, payload } => TaskKindView::Custom {
                tag: tag@,
                payload: payload@,
            },
            TaskKind::Mpi { program, args, np, env, timeout_secs, use_mpirun } => {
                TaskKindView::Mpi {
                    program: program@,
                    args: args.deep_view(),
                    np: *np,
                    env: env.deep_view(),
                    timeout_secs: *timeout_secs,
                    use_mpirun: *use_mpirun,
                }
            },
        }
    }
}

/// A copy of a list of texts.
pub fn copy_texts(texts: &Vec<String>) -> (r: Vec<String>)
    ensures
        r.deep_view() == texts.deep_view(),
{
    let r = texts.clone();
    assert(r.deep_view() =~= texts.deep_view());
    r
}

/// A copy of an optional text.
pub fn copy_optional(text: &Option<String>) -> (r: Option<String>)
    ensures
        r.deep_view() == text.deep_view(),
{
    match text {
        Some(t) => Some(t.clone()),
        None => None,
    }
}

impl Clone for TaskKind {
    fn clone(&self) -> (r: TaskKind)
        ensures
            r.deep_view() == self.deep_view(),
    {
        match self {
            TaskKind::Shell { command, args, timeout_secs } => TaskKind::Shell {
                command: command.clone(),
                args: copy_texts(args),
                timeout_secs: *timeout_secs,
            },
            TaskKind::HttpFetch { url, method, body } => TaskKind::HttpFetch {
                url: url.clone(),
                method: method.clone(),
                body: copy_optional(body),
            },
            TaskKind::Custom { tag, payload } => {
                let copy = payload.clone();
                assert(copy@ =~= payload@);
                TaskKind::Custom { tag: tag.clone(), payload: copy }
            },
            TaskKind::Mpi { program, args, np, env, timeout_secs, use_mpirun } => TaskKind::Mpi {
                program: program.clone(),
                args: copy_texts(args),
                np: *np,
                env: env.clone(),
                timeout_secs: *timeout_secs,
                use_mpirun: *use_mpirun,
            },
        }
    }
}

/// Whether two lists hold the same texts in the same order.
pub fn same_texts(a: &Vec<String>, b: &Vec<String>) -> (r: bool)
    ensures
        r == (a.deep_view() == b.deep_view()),
{
    if a.len() != b.len() {
        assert(a.deep_view().len() != b.deep_view().len());
        return false;
    }
    let mut i: usize = 0;
    while i < a.len()
        invariant
            a.len() == b.len(),
            i <= a.len(),
            forall|j: int| 0 <= j < i ==> #[trigger] a.deep_view()[j] == b.deep_view()[j],
        decreases a.len() - i,
    {
        if a[i] != b[i] {
            assert(a.deep_view()[i as int] != b.deep_view()[i as int]);
            return false;
        }
        assert(a.deep_view()[i as int] == b.deep_view()[i as int]);
        i = i + 1;
    }
    assert(a.deep_view() =~= b.deep_view());
    true
}

/// Whether two optional texts are the same.
pub fn same_optional(a: &Option<String>, b: &Option<String>) -> (r: bool)
    ensures
        r == (a.deep_view() == b.deep_view()),
{
    match (a, b) {
        (Some(x), Some(y)) => *x == *y,
        (None, None) => true,
        _ => false,
    }
}

/// Whether two lists hold the same bytes in the same order.
pub fn same_bytes(a: &Vec<u8>, b: &Vec<u8>) -> (r: bool)
    ensures
        r == (a@ == b@),
{
    if a.len() != b.len() {
        return false;
    }
    let mut i: usize = 0;
    while i < a.len()
        invariant
            a.len() == b.len(),
            i <= a.len(),
            forall|j: int| 0 <= j < i ==> #[trigger] a@[j] == b@[j],
        decreases a.len() - i,
    {
        if a[i] != b[i] {
            return false;
        }
        i = i + 1;
    }
    assert(a@ =~= b@);
    true
}

impl PartialEq for TaskKind {
    fn eq(&self, other: &TaskKind) -> (r: bool) {
        match (self, other) {
            (
                TaskKind::Shell { command, args, timeout_secs },
                TaskKind::Shell { command: c, args: a, timeout_secs: t },
            ) => *command == *c && same_texts(args, a) && *timeout_secs == *t,
            (
                TaskKind::HttpFetch { url, method, body },
                TaskKind::HttpFetch { url: u, method: m, body: b },
            ) => *url == *u && *method == *m && same_optional(body, b),
            (TaskKind::Custom { tag, payload }, TaskKind::Custom { tag: t, payload: p }) => *tag
                == *t && same_bytes(payload, p),
            (
                TaskKind::Mpi { program, args, np, env, timeout_secs, use_mpirun },
                TaskKind::Mpi {
                    program: p,
                    args: a,
                    np: n,
                    env: e,
                    timeout_secs: t,
                    use_mpirun: u,
                },
            ) => *program == *p && same_texts(args, a) && *np == *n && *env == *e && *timeout_secs
                == *t && *use_mpirun == *u,
            _ => false,
        }
    }
}

impl vstd::std_specs::cmp::PartialEqSpecImpl for TaskKind {
    open spec fn obeys_eq_spec() -> bool {
        true
    }

    open spec fn eq_spec(&self, other: &TaskKind) -> bool {
        self.deep_view() == other.deep_view()
    }
}

/// A node that takes part in an MPI job, as the other nodes reach it.
#[derive(Debug, PartialEq)]
pub struct MpiPeer {
    /// Hostname or IP reachable from other nodes.
    pub host: String,
    /// TCP port that this peer's MPI bootstrap listener is bound to.
    pub port: u16,
    pub node_id: u128,
}

/// The contents of an `MpiPeer`.
pub struct MpiPeerView {
    pub host: Seq<char>,
    pub port: u16,
    pub node_id: u128,
}

impl DeepView for MpiPeer {
    type V = MpiPeerView;

    open spec fn deep_view(&self) -> MpiPeerView {
        MpiPeerView { host: self.host@, port: self.port, node_id: self.node_id }
    }
}

impl Clone for MpiPeer {
    fn clone(&self) -> (r: MpiPeer)
        ensures
            r.deep_view() == self.deep_view(),
    {
        MpiPeer { host: self.host.clone(), port: self.port, node_id: self.node_id }
    }
}

/// One node's assignment inside an MPI job.
#[derive(Debug, PartialEq)]
pub struct MpiSlot {
    /// This node's rank (0 = root / result collector).
    pub rank: u32,
    /// Total number of ranks in the job.
    pub size: u32,
    /// Ordered peer list: index == rank.
    pub peers: Vec<MpiPeer>,
    /// Shared job identifier, identical for every slot of the same MPI job.
    pub job_id: u128,
}

/// The contents of an `MpiSlot`.
pub struct MpiSlotView {
    pub rank: u32,
    pub size: u32,
    pub peers: Seq<MpiPeerView>,
    pub job_id: u128,
}

impl DeepView for MpiSlot {
    type V = MpiSlotView;

    open spec fn deep_view(&self) -> MpiSlotView {
        MpiSlotView {
            rank: self.rank,
            size: self.size,
            peers: self.peers.deep_view(),
            job_id: self.job_id,
        }
    }
}

/// A copy of a peer list.
pub fn copy_peers(peers: &Vec<MpiPeer>) -> (r: Vec<MpiPeer>)
    ensures
        r.deep_view() == peers.deep_view(),
{
    let r = peers.clone();
    assert(r.deep_view() =~= peers.deep_view());
    r
}

impl Clone for MpiSlot {
    fn clone(&self) -> (r: MpiSlot)
        ensures
            r.deep_view() == self.deep_view(),
    {
        MpiSlot {
            rank: self.rank,
            size: self.size,
            peers: copy_peers(&self.peers),
            job_id: self.job_id,
        }
    }
}

/// Capabilities that a task may require from the executing node.
#[derive(Debug, PartialEq)]
pub struct TaskRequirements {
    /// Minimum free CPU percentage needed.
    pub min_cpu_free_pct: Percent,
    /// Minimum free RAM in megabytes.
    pub min_ram_free_mb: u64,
    /// If true, node must have a GPU.
    pub requires_gpu: bool,
    /// Tags the node must declare (e.g. "python", "ffmpeg").
    pub required_tags: Vec<String>,
    /// Preferred region, if any (soft constraint).
    pub preferred_region: Option<String>,
    /// For MPI tasks: minimum number of slots (logical CPUs) per node.
    pub mpi_slots_per_node: Option<u32>,
}

/// The contents of `TaskRequirements`.
pub struct TaskRequirementsView {
    pub min_cpu_free_pct: Percent,
    pub min_ram_free_mb: u64,
    pub requires_gpu: bool,
    pub required_tags: Seq<Seq<char>>,
    pub preferred_region: Option<Seq<char>>,
    pub mpi_slots_per_node: Option<u32>,
}

impl DeepView for TaskRequirements {
    type V = TaskRequirementsView;

    open spec fn deep_view(&self) -> TaskRequirementsView {
        TaskRequirementsView {
            min_cpu_free_pct: self.min_cpu_free_pct,
            min_ram_free_mb: self.min_ram_free_mb,
            requires_gpu: self.requires_gpu,
            required_tags: self.required_tags.deep_view(),
            preferred_region: self.preferred_region.deep_view(),
            mpi_slots_per_node: self.mpi_slots_per_node,
        }
    }
}

/// Requirements that ask for nothing.
pub open spec fn no_requirements() -> TaskRequirementsView {
    TaskRequirementsView {
        min_cpu_free_pct: Percent { bits: 0 },
        min_ram_free_mb: 0,
        requires_gpu: false,
        required_tags: Seq::empty(),
        preferred_region: None,
        mpi_slots_per_node: None,
    }
}

impl Default for TaskRequirements {
    fn default() -> (r: TaskRequirements)
        ensures
            r.deep_view() == no_requirements(),
    {
        let required_tags: Vec<String> = Vec::new();
        assert(required_tags.deep_view() =~= Seq::<Seq<char>>::empty());
        TaskRequirements {
            min_cpu_free_pct: Percent { bits: 0 },
            min_ram_free_mb: 0,
            requires_gpu: false,
            required_tags,
            preferred_region: None,
            mpi_slots_per_node: None,
        }
    }
}

impl Clone for TaskRequirements {
    fn clone(&self) -> (r: TaskRequirements)
        ensures
            r.deep_view() == self.deep_view(),
    {
        TaskRequirements {
            min_cpu_free_pct: self.min_cpu_free_pct,
            min_ram_free_mb: self.min_ram_free_mb,
            requires_gpu: self.requires_gpu,
            required_tags: copy_texts(&self.required_tags),
            preferred_region: copy_optional(&self.preferred_region),
            mpi_slots_per_node: self.mpi_slots_per_node,
        }
    }
}

/// How far a task has come.
#[derive(Debug, PartialEq)]
pub enum TaskStatus {
    Queued,
    Dispatched { node_id: u128 },
    /// MPI jobs are dispatched to multiple nodes simultaneously.
    MpiDispatched { job_id: u128, node_ids: Vec<u128> },
    Running { node_id: u128, started_at: Timestamp },
    MpiRunning { job_id: u128, started_at: Timestamp, total_ranks: u32 },
    Completed { node_id: u128, duration_ms: u64 },
    /// MPI job completed: how many ranks reported a result, how many an error.
    MpiCompleted { job_id: u128, duration_ms: u64, ranks_ok: u32, ranks_failed: u32 },
    Failed { reason: String },
    TimedOut,
}

/// The contents of a `TaskStatus`.
pub enum TaskStatusView {
    Queued,
    Dispatched { node_id: u128 },
    MpiDispatched { job_id: u128, node_ids: Seq<u128> },
    Running { node_id: u128, started_at: Timestamp },
    MpiRunning { job_id: u128, started_at: Timestamp, total_ranks: u32 },
    Completed { node_id: u128, duration_ms: u64 },
    MpiCompleted { job_id: u128, duration_ms: u64, ranks_ok: u32, ranks_failed: u32 },
    Failed { reason: Seq<char> },
    TimedOut,
}

impl DeepView for TaskStatus {
    type V = TaskStatusView;

    open spec fn deep_view(&self) -> TaskStatusView {
        match self {
            TaskStatus::Queued => TaskStatusView::Queued,
            TaskStatus::Dispatched { node_id } => TaskStatusView::Dispatched { node_id: *node_id },
            TaskStatus::MpiDispatched { job_id, node_ids } => TaskStatusView::MpiDispatched {
                job_id: *job_id,
                node_ids: node_ids@,
            },
            TaskStatus::Running { node_id, started_at } => TaskStatusView::Running {
                node_id: *node_id,
                started_at: *started_at,
            },
            TaskStatus::MpiRunning { job_id, started_at, total_ranks } => {
                TaskStatusView::MpiRunning {
                    job_id: *job_id,
                    started_at: *started_at,
                    total_ranks: *total_ranks,
                }
            },
            TaskStatus::Completed { node_id, duration_ms } => TaskStatusView::Completed {
                node_id: *node_id,
                duration_ms: *duration_ms,
            },
            TaskStatus::MpiCompleted { job_id, duration_ms, ranks_ok, ranks_failed } => {
                TaskStatusView::MpiCompleted {
                    job_id: *job_id,
                    duration_ms: *duration_ms,
                    ranks_ok: *ranks_ok,
                    ranks_failed: *ranks_failed,
                }
            },
            TaskStatus::Failed { reason } => TaskStatusView::Failed { reason: reason@ },
            TaskStatus::TimedOut => TaskStatusView::TimedOut,
        }
    }
}

impl Clone for TaskStatus {
    fn clone(&self) -> (r: TaskStatus)
        ensures
            r.deep_view() == self.deep_view(),
    {
        match self {
            TaskStatus::Queued => TaskStatus::Queued,
            TaskStatus::Dispatched { node_id } => TaskStatus::Dispatched { node_id: *node_id },
            TaskStatus::MpiDispatched { job_id, node_ids } => {
                let copy = node_ids.clone();
                assert(copy@ =~= node_ids@);
                TaskStatus::MpiDispatched { job_id: *job_id, node_ids: copy }
            },
            TaskStatus::Running { node_id, started_at } => TaskStatus::Running {
                node_id: *node_id,
                started_at: *started_at,
            },
            TaskStatus::MpiRunning { job_id, started_at, total_ranks } => TaskStatus::MpiRunning {
                job_id: *job_id,
                started_at: *started_at,
                total_ranks: *total_ranks,
            },
            TaskStatus::Completed { node_id, duration_ms } => TaskStatus::Completed {
                node_id: *node_id,
                duration_ms: *duration_ms,
            },
            TaskStatus::MpiCompleted { job_id, duration_ms, ranks_ok, ranks_failed } => {
                TaskStatus::MpiCompleted {
                    job_id: *job_id,
                    duration_ms: *duration_ms,
                    ranks_ok: *ranks_ok,
                    ranks_failed: *ranks_failed,
                }
            },
            TaskStatus::Failed { reason } => TaskStatus::Failed { reason: reason.clone() },
            TaskStatus::TimedOut => TaskStatus::TimedOut,
        }
    }
}

/// A unit of work in the cluster.
#[derive(Debug)]
pub struct Task {
    pub id: u128,
    pub submitted_at: Timestamp,
    pub priority: u8,
    pub kind: TaskKind,
    pub requirements: TaskRequirements,
    pub status: TaskStatus,
    pub meta: StringMap,
}

/// The contents of a `Task`.
pub struct TaskView {
    pub id: u128,
    pub submitted_at: Timestamp,
    pub priority: u8,
    pub kind: TaskKindView,
    pub requirements: TaskRequirementsView,
    pub status: TaskStatusView,
    pub meta: Map<Seq<char>, Seq<char>>,
}

impl DeepView for Task {
    type V = TaskView;

    open spec fn deep_view(&self) -> TaskView {
        TaskView {
            id: self.id,
            submitted_at: self.submitted_at,
            priority: self.priority,
            kind: self.kind.deep_view(),
            requirements: self.requirements.deep_view(),
            status: self.status.deep_view(),
            meta: self.meta.deep_view(),
        }
    }
}

impl Clone for Task {
    fn clone(&self) -> (r: Task)
        ensures
            r.deep_view() == self.deep_view(),
    {
        Task {
            id: self.id,
            submitted_at: self.submitted_at,
            priority: self.priority,
            kind: self.kind.clone(),
            requirements: self.requirements.clone(),
            status: self.status.clone(),
            meta: self.meta.clone(),
        }
    }
}

impl TaskView {
    /// The same task with another status.
    pub open spec fn with_status(self, status: TaskStatusView) -> TaskView {
        TaskView { status, ..self }
    }

    /// The task that a submission makes, given the identifier and the time drawn for it.
    pub open spec fn submitted(
        kind: TaskKindView,
        requirements: TaskRequirementsView,
        priority: u8,
        id: u128,
        submitted_at: Timestamp,
    ) -> TaskView {
        TaskView {
            id,
            submitted_at,
            priority,
            kind,
            requirements,
            status: TaskStatusView::Queued,
            meta: Map::empty(),
        }
    }
}

impl Task {
    /// A queued task under the given identifier, submitted at the given time.
    pub fn stamped(
        kind: TaskKind,
        requirements: TaskRequirements,
        priority: u8,
        id: u128,
        submitted_at: Timestamp,
    ) -> (r: Task)
        ensures
            r.deep_view() == TaskView::submitted(
                kind.deep_view(),
                requirements.deep_view(),
                priority,
                id,
                submitted_at,
            ),
    {
        Task {
            id,
            submitted_at,
            priority,
            kind,
            requirements,
            status: TaskStatus::Queued,
            meta: StringMap::new(),
        }
    }

    /// A queued task under a random identifier, submitted now.
    pub fn new(kind: TaskKind, requirements: TaskRequirements, priority: u8) -> (r: Task)
        ensures
            r.deep_view() == TaskView::submitted(
                kind.deep_view(),
                requirements.deep_view(),
                priority,
                r.id,
                r.submitted_at,
            ),
            r.id & RANDOM_MASK == RANDOM_MARK,
            r.submitted_at.is_reading(),
    {
        Task::stamped(kind, requirements, priority, random_id(), now())
    }

    /// Whether this is an MPI job.
    pub fn is_mpi(&self) -> (r: bool)
        ensures
            r == (self.deep_view().kind is Mpi),
    {
        match self.kind {
            TaskKind::Mpi { .. } => true,
            _ => false,
        }
    }
}

} // verus!
