//! The worker: what it announces, what it accepts, and when it tries again.
use crate::clock::{elapsed_millis, now, reported_millis, Timestamp};
use crate::ident::{hyphenated, id_text, random_id, RANDOM_MARK, RANDOM_MASK};
use crate::message::{ServerMessage, ServerMessageView, WorkerMessage, WorkerMessageView};
use crate::node::{NodeCapabilities, NodeCapabilitiesView, NodeStats};
use crate::output::{TaskOutput, TaskOutputView};
use crate::task::{copy_texts, MpiSlot, MpiSlotView, Percent, Task, TaskView};
use crate::text::{decimal, decimal_text, replace_once, replaced_once};
use std::time::Instant;
use vstd::prelude::*;

verus! {

/// How long a worker waits before it first tries to connect again, in seconds.
pub const FIRST_BACKOFF_SECS: u64 = 1;

/// How long it waits at most, in seconds.
pub const LAST_BACKOFF_SECS: u64 = 60;

/// How a worker is started.
#[derive(Debug, PartialEq)]
pub struct WorkerArgs {
    /// Human-readable name (defaults to hostname).
    pub name: Option<String>,
    /// Capability tags.
    pub tags: Vec<String>,
    /// Geographic region label.
    pub region: String,
    /// Heartbeat interval in seconds.
    pub heartbeat_secs: u64,
    /// Maximum concurrent tasks.
    pub max_tasks: u32,
    /// Host/IP that other cluster nodes can reach this machine on (for MPI).
    pub mpi_host: Option<String>,
    /// Base TCP port for MPI bootstrap listeners. It is shown when the worker
    /// starts and not used: the server gives the ranks of a job the ports from
    /// `scheduler::BASE_PORT` on.
    pub mpi_port: u16,
}

/// The identifier that a worker gives itself when it starts.
pub fn new_node_id() -> (id: u128)
    ensures
        id & RANDOM_MASK == RANDOM_MARK,
{
    random_id()
}

/// The name of a node: the given one, else that of the machine, else one made of
/// the first eight characters of its identifier.
pub open spec fn node_name(
    given: Option<Seq<char>>,
    hostname: Option<Seq<char>>,
    node_id: u128,
) -> Seq<char> {
    match given {
        Some(name) => name,
        None => match hostname {
            Some(host) => host,
            None => "node-"@ + hyphenated(node_id).take(8),
        },
    }
}

/// The name of a node.
pub fn choose_name(given: &Option<String>, hostname: Option<String>, node_id: u128) -> (r: String)
    ensures
        r@ == node_name(given.deep_view(), hostname.deep_view(), node_id),
{
    match given {
        Some(name) => name.clone(),
        None => match hostname {
            Some(host) => host,
            None => {
                let id = id_text(node_id);
                let mut r = "node-".to_owned();
                r.append(id.as_str().substring_char(0, 8));
                assert(r@ =~= "node-"@ + hyphenated(node_id).take(8));
                r
            },
        },
    }
}

/// The address of the WebSocket of a server.
pub open spec fn socket_url(server: Seq<char>) -> Seq<char> {
    replaced_once(
        replaced_once(server, "http://"@, "ws://"@),
        "https://"@,
        "wss://"@,
    ) + "/ws"@
}

/// The address of the WebSocket of a server.
pub fn ws_url(server: &str) -> (r: String)
    ensures
        r@ == socket_url(server@),
{
    let plain = replace_once(server, "http://", "ws://");
    let mut r = replace_once(plain.as_str(), "https://", "wss://");
    r.append("/ws");
    r
}

/// What was found out about the machine that a worker runs on.
#[derive(Debug, PartialEq)]
pub struct Machine {
    pub cpus: usize,
    pub total_memory_bytes: u64,
    pub os: String,
    pub arch: String,
    /// Whether there is a directory of graphics devices.
    pub has_dri: bool,
    /// Whether the NVIDIA tools answer.
    pub has_nvidia: bool,
    /// Whether a launcher of MPI jobs was found, by name.
    pub launchers: Vec<bool>,
    pub hostname: Option<String>,
}

/// The names under which a worker looks for a launcher of MPI jobs.
pub open spec fn probed_launchers() -> Seq<Seq<char>> {
    seq!["mpirun"@, "mpiexec"@, "mpirun.openmpi"@, "mpiexec.mpich"@]
}

/// The names under which a worker looks for a launcher of MPI jobs.
pub fn launchers_to_probe() -> (r: Vec<String>)
    ensures
        r.deep_view() == probed_launchers(),
{
    let mut r: Vec<String> = Vec::new();
    r.push("mpirun".to_owned());
    r.push("mpiexec".to_owned());
    r.push("mpirun.openmpi".to_owned());
    r.push("mpiexec.mpich".to_owned());
    assert(r.deep_view() =~= probed_launchers());
    r
}

/// Whether one of the answers is yes.
fn any(answers: &Vec<bool>) -> (r: bool)
    ensures
        r == answers@.contains(true),
{
    let mut i: usize = 0;
    while i < answers.len()
        invariant
            i <= answers.len(),
            forall|j: int| 0 <= j < i ==> !#[trigger] answers@[j],
        decreases answers.len() - i,
    {
        if answers[i] {
            assert(answers@[i as int]);
            return true;
        }
        i = i + 1;
    }
    false
}

/// What a worker declares about itself.
pub open spec fn declared(args: WorkerArgs, machine: Machine) -> NodeCapabilitiesView {
    NodeCapabilitiesView {
        cpu_cores: machine.cpus as u32,
        total_ram_mb: (machine.total_memory_bytes / 1024 / 1024) as u64,
        has_gpu: machine.has_dri || machine.has_nvidia,
        tags: args.tags.deep_view(),
        region: args.region@,
        os: machine.os@ + "-"@ + machine.arch@,
        mpi_host: match args.mpi_host {
            Some(host) => host@,
            None => match machine.hostname {
                Some(host) => host@,
                None => "localhost"@,
            },
        },
        has_mpirun: machine.launchers@.contains(true),
    }
}

/// What a worker declares about itself.
pub fn build_capabilities(args: &WorkerArgs, machine: &Machine) -> (r: NodeCapabilities)
    ensures
        r.deep_view() == (NodeCapabilitiesView {
            cpu_cores: machine.cpus as u32,
            total_ram_mb: (machine.total_memory_bytes / 1024 / 1024) as u64,
            has_gpu: machine.has_dri || machine.has_nvidia,
            tags: args.tags.deep_view(),
            region: args.region@,
            os: machine.os@ + "-"@ + machine.arch@,
            mpi_host: match args.mpi_host {
                Some(host) => host@,
                None => match machine.hostname {
                    Some(host) => host@,
                    None => "localhost"@,
                },
            },
            has_mpirun: machine.launchers@.contains(true),
        }),
        r.deep_view() == declared(*args, *machine),
{
    let mut os = machine.os.clone();
    os.append("-");
    os.append(machine.arch.as_str());
    let mpi_host = match &args.mpi_host {
        Some(host) => host.clone(),
        None => match &machine.hostname {
            Some(host) => host.clone(),
            None => "localhost".to_owned(),
        },
    };
    NodeCapabilities {
        cpu_cores: machine.cpus as u32,
        total_ram_mb: machine.total_memory_bytes / 1024 / 1024,
        has_gpu: machine.has_dri || machine.has_nvidia,
        tags: copy_texts(&args.tags),
        region: args.region.clone(),
        os,
        mpi_host,
        has_mpirun: any(&machine.launchers),
    }
}

/// The load of a machine, measured at the given time.
pub open spec fn load(
    active_tasks: u32,
    cpu_used_pct: Percent,
    available_bytes: u64,
    reported_at: Timestamp,
) -> NodeStats {
    NodeStats {
        cpu_used_pct,
        ram_free_mb: (available_bytes / 1024 / 1024) as u64,
        active_tasks,
        latency_ms: None,
        reported_at,
    }
}

/// The load of a machine, measured at the given time.
pub fn stats_at(
    active_tasks: u32,
    cpu_used_pct: Percent,
    available_bytes: u64,
    reported_at: Timestamp,
) -> (r: NodeStats)
    ensures
        r == load(active_tasks, cpu_used_pct, available_bytes, reported_at),
{
    NodeStats {
        cpu_used_pct,
        ram_free_mb: available_bytes / 1024 / 1024,
        active_tasks,
        latency_ms: None,
        reported_at,
    }
}

/// The load of a machine, measured now.
pub fn collect_stats(active_tasks: u32, cpu_used_pct: Percent, available_bytes: u64) -> (r:
    NodeStats)
    ensures
        r == load(active_tasks, cpu_used_pct, available_bytes, r.reported_at),
        r.reported_at.is_reading(),
{
    stats_at(active_tasks, cpu_used_pct, available_bytes, now())
}

/// The next wait after one that did not help: twice as long, up to the longest.
pub open spec fn longer(backoff: u64) -> u64 {
    if 2 * backoff < LAST_BACKOFF_SECS {
        (2 * backoff) as u64
    } else {
        LAST_BACKOFF_SECS
    }
}

/// What a worker does about its connection.
#[derive(Clone, Copy, Debug, PartialEq, Eq, Structural)]
pub enum Next {
    /// Wait this many seconds, then try to connect.
    Wait { secs: u64 },
    /// Try to connect at once.
    Connect,
    /// Give up.
    Stop,
}

/// What a worker does when it could not connect, and how long it would wait the
/// next time.
pub open spec fn after_failure(backoff: u64, shutdown: bool) -> (Next, u64) {
    if shutdown {
        (Next::Stop, backoff)
    } else {
        (Next::Wait { secs: backoff }, longer(backoff))
    }
}

/// What a worker does when a session or a wait is over.
pub open spec fn after_wait(shutdown: bool) -> Next {
    if shutdown {
        Next::Stop
    } else {
        Next::Connect
    }
}

/// When a worker tries to connect again.
pub struct Reconnect {
    backoff: u64,
}

impl View for Reconnect {
    type V = u64;

    /// How long the worker would wait next, in seconds.
    closed spec fn view(&self) -> u64 {
        self.backoff
    }
}

impl Reconnect {
    /// How long the worker would wait next is always within the limits.
    pub open spec fn wf(&self) -> bool {
        FIRST_BACKOFF_SECS <= self@ <= LAST_BACKOFF_SECS
    }

    /// A worker that has not tried to connect.
    pub fn new() -> (r: Reconnect)
        ensures
            r.wf(),
            r@ == FIRST_BACKOFF_SECS,
    {
        Reconnect { backoff: FIRST_BACKOFF_SECS }
    }

    /// The worker is connected: the next wait is the shortest again.
    pub fn connected(&mut self)
        ensures
            final(self).wf(),
            final(self)@ == FIRST_BACKOFF_SECS,
    {
        self.backoff = FIRST_BACKOFF_SECS;
    }

    /// A session or a wait is over.
    pub fn go_on(&self, shutdown: bool) -> (next: Next)
        ensures
            next == (if shutdown {
                Next::Stop
            } else {
                Next::Connect
            }),
            next == after_wait(shutdown),
    {
        if shutdown {
            Next::Stop
        } else {
            Next::Connect
        }
    }

    /// The worker could not connect: it waits, and longer the next time.
    pub fn failed(&mut self, shutdown: bool) -> (next: Next)
        requires
            old(self).wf(),
        ensures
            final(self).wf(),
            next == (if shutdown {
                Next::Stop
            } else {
                Next::Wait { secs: old(self)@ }
            }),
            final(self)@ == (if shutdown {
                old(self)@
            } else {
                longer(old(self)@)
            }),
            (next, final(self)@) == after_failure(old(self)@, shutdown),
    {
        if shutdown {
            return Next::Stop;
        }
        let secs: u64 = self.backoff;
        let twice: u64 = secs * 2;
        self.backoff = if twice < LAST_BACKOFF_SECS {
            twice
        } else {
            LAST_BACKOFF_SECS
        };
        Next::Wait { secs }
    }
}

/// How long a worker waits after `n` failures in a row.
pub open spec fn backoff_after(n: nat) -> u64
    decreases n,
{
    if n == 0 {
        FIRST_BACKOFF_SECS
    } else {
        longer(backoff_after((n - 1) as nat))
    }
}

/// The waits start with the shortest, never exceed the longest, never get
/// shorter, and double until they reach the longest.
pub proof fn law_backoff(n: nat)
    ensures
        backoff_after(0) == FIRST_BACKOFF_SECS,
        FIRST_BACKOFF_SECS <= backoff_after(n) <= LAST_BACKOFF_SECS,
        backoff_after(n) <= backoff_after(n + 1),
        backoff_after(n + 1) == 2 * backoff_after(n) || backoff_after(n + 1) == LAST_BACKOFF_SECS,
        n >= 6 ==> backoff_after(n) == LAST_BACKOFF_SECS,
    decreases n,
{
    reveal_with_fuel(backoff_after, 8);
    if n > 0 {
        law_backoff((n - 1) as nat);
    }
}

/// Why a worker refuses work.
pub open spec fn at_capacity(active: u32, max_tasks: u32) -> Seq<char> {
    "worker at capacity ("@ + decimal(active as nat) + "/"@ + decimal(max_tasks as nat) + ")"@
}

/// Why a worker refuses work.
fn at_capacity_text(active: u32, max_tasks: u32) -> (r: String)
    ensures
        r@ == at_capacity(active, max_tasks),
{
    let mut r = "worker at capacity (".to_owned();
    r.append(decimal_text(active as u64).as_str());
    r.append("/");
    r.append(decimal_text(max_tasks as u64).as_str());
    r.append(")");
    r
}

/// What a worker does with a message of the server.
#[derive(Debug)]
pub enum Action {
    /// Nothing.
    Ignore,
    /// Answer it with this message.
    Answer(WorkerMessage),
    /// Carry out the task.
    Execute(Task),
    /// Carry out this slot of an MPI job.
    ExecuteSlot { task: Task, slot: MpiSlot },
    /// End the session.
    EndSession,
}

/// The contents of an `Action`.
pub enum ActionView {
    Ignore,
    Answer(WorkerMessageView),
    Execute(TaskView),
    ExecuteSlot { task: TaskView, slot: MpiSlotView },
    EndSession,
}

impl DeepView for Action {
    type V = ActionView;

    open spec fn deep_view(&self) -> ActionView {
        match self {
            Action::Ignore => ActionView::Ignore,
            Action::Answer(message) => ActionView::Answer(message.deep_view()),
            Action::Execute(task) => ActionView::Execute(task.deep_view()),
            Action::ExecuteSlot { task, slot } => ActionView::ExecuteSlot {
                task: task.deep_view(),
                slot: slot.deep_view(),
            },
            Action::EndSession => ActionView::EndSession,
        }
    }
}

/// A session of a worker: who it is, how many tasks it takes at once, and how
/// many are under way.
pub struct LoadView {
    pub node_id: u128,
    pub max_tasks: u32,
    pub active: u32,
}

impl LoadView {
    /// No more tasks are under way than the worker takes at once.
    pub open spec fn wf(self) -> bool {
        self.active <= self.max_tasks
    }

    /// What the worker does with a message of the server.
    pub open spec fn action(self, message: ServerMessageView) -> ActionView {
        match message {
            ServerMessageView::DispatchTask { task } => if self.active >= self.max_tasks {
                ActionView::Answer(
                    WorkerMessageView::TaskError {
                        task_id: task.id,
                        node_id: self.node_id,
                        reason: at_capacity(self.active, self.max_tasks),
                    },
                )
            } else {
                ActionView::Execute(task)
            },
            ServerMessageView::DispatchMpiSlot { task, slot } => if self.active
                >= self.max_tasks {
                ActionView::Answer(
                    WorkerMessageView::MpiRankError {
                        job_id: slot.job_id,
                        task_id: task.id,
                        node_id: self.node_id,
                        rank: slot.rank,
                        reason: at_capacity(self.active, self.max_tasks),
                    },
                )
            } else {
                ActionView::ExecuteSlot { task, slot }
            },
            ServerMessageView::ServerShutdown => ActionView::EndSession,
            _ => ActionView::Ignore,
        }
    }

    /// The session after that message: one more task is under way where one was accepted.
    pub open spec fn after(self, message: ServerMessageView) -> LoadView {
        match self.action(message) {
            ActionView::Execute(_) => LoadView { active: (self.active + 1) as u32, ..self },
            ActionView::ExecuteSlot { .. } => LoadView { active: (self.active + 1) as u32, ..self },
            _ => self,
        }
    }
}

/// What a worker says first.
pub open spec fn introduction(
    node_id: u128,
    name: Seq<char>,
    capabilities: NodeCapabilitiesView,
) -> WorkerMessageView {
    WorkerMessageView::Register { node_id, name, capabilities }
}

/// What a worker says from time to time.
pub open spec fn beats(node_id: u128, stats: NodeStats, shutdown: bool) -> Seq<
    WorkerMessageView,
> {
    if shutdown {
        seq![
            WorkerMessageView::Heartbeat { node_id, stats },
            WorkerMessageView::Draining { node_id },
        ]
    } else {
        seq![WorkerMessageView::Heartbeat { node_id, stats }]
    }
}

/// A session of a worker.
pub struct WorkerSession {
    node_id: u128,
    max_tasks: u32,
    active: u32,
}

impl View for WorkerSession {
    type V = LoadView;

    closed spec fn view(&self) -> LoadView {
        LoadView { node_id: self.node_id, max_tasks: self.max_tasks, active: self.active }
    }
}

impl WorkerSession {
    /// A session in which nothing is under way.
    pub fn new(node_id: u128, max_tasks: u32) -> (r: WorkerSession)
        ensures
            r@ == (LoadView { node_id, max_tasks, active: 0 }),
            r@.wf(),
    {
        WorkerSession { node_id, max_tasks, active: 0 }
    }

    /// How many tasks are under way.
    pub fn active(&self) -> (n: u32)
        ensures
            n == self@.active,
    {
        self.active
    }

    /// What the worker says first.
    pub fn register(&self, name: String, capabilities: NodeCapabilities) -> (r: WorkerMessage)
        ensures
            r.deep_view() == (WorkerMessageView::Register {
                node_id: self@.node_id,
                name: name@,
                capabilities: capabilities.deep_view(),
            }),
            r.deep_view() == introduction(self@.node_id, name@, capabilities.deep_view()),
    {
        WorkerMessage::Register { node_id: self.node_id, name, capabilities }
    }

    /// What the worker says from time to time: its load, and when it is to shut
    /// down also that it is draining. `true` with the messages tells that they
    /// are the last of their kind.
    pub fn beat(&self, stats: NodeStats, shutdown: bool) -> (r: (Vec<WorkerMessage>, bool))
        ensures
            r.1 == shutdown,
            r.0.deep_view() == (if shutdown {
                seq![
                    WorkerMessageView::Heartbeat { node_id: self@.node_id, stats },
                    WorkerMessageView::Draining { node_id: self@.node_id },
                ]
            } else {
                seq![WorkerMessageView::Heartbeat { node_id: self@.node_id, stats }]
            }),
            r.0.deep_view() == beats(self@.node_id, stats, shutdown),
    {
        let mut messages: Vec<WorkerMessage> = Vec::new();
        messages.push(WorkerMessage::Heartbeat { node_id: self.node_id, stats });
        let ghost first = WorkerMessageView::Heartbeat { node_id: self@.node_id, stats };
        assert(messages.deep_view() =~= seq![first]);
        if shutdown {
            messages.push(WorkerMessage::Draining { node_id: self.node_id });
            assert(messages.deep_view() =~= seq![
                first,
                WorkerMessageView::Draining { node_id: self@.node_id },
            ]);
        }
        (messages, shutdown)
    }

    /// Takes in a message of the server.
    pub fn handle_message(&mut self, message: ServerMessage) -> (action: Action)
        requires
            old(self)@.wf(),
        ensures
            final(self)@.wf(),
            action.deep_view() == old(self)@.action(message.deep_view()),
            final(self)@ == old(self)@.after(message.deep_view()),
    {
        match message {
            ServerMessage::DispatchTask { task } => if self.active >= self.max_tasks {
                Action::Answer(
                    WorkerMessage::TaskError {
                        task_id: task.id,
                        node_id: self.node_id,
                        reason: at_capacity_text(self.active, self.max_tasks),
                    },
                )
            } else {
                self.active = self.active + 1;
                Action::Execute(task)
            },
            ServerMessage::DispatchMpiSlot { task, slot } => if self.active >= self.max_tasks {
                Action::Answer(
                    WorkerMessage::MpiRankError {
                        job_id: slot.job_id,
                        task_id: task.id,
                        node_id: self.node_id,
                        rank: slot.rank,
                        reason: at_capacity_text(self.active, self.max_tasks),
                    },
                )
            } else {
                self.active = self.active + 1;
                Action::ExecuteSlot { task, slot }
            },
            ServerMessage::ServerShutdown => Action::EndSession,
            _ => Action::Ignore,
        }
    }

    /// One of the tasks under way has ended.
    pub fn finished(&mut self)
        requires
            old(self)@.wf(),
            old(self)@.active > 0,
        ensures
            final(self)@.wf(),
            final(self)@ == (LoadView { active: (old(self)@.active - 1) as u32, ..old(self)@ }),
    {
        self.active = self.active - 1;
    }
}

/// What a worker reports of a task that has ended.
pub open spec fn task_report(
    node_id: u128,
    task_id: u128,
    duration_ms: u64,
    result: Result<TaskOutputView, Seq<char>>,
) -> WorkerMessageView {
    match result {
        Ok(output) => WorkerMessageView::TaskResult { task_id, node_id, duration_ms, output },
        Err(reason) => WorkerMessageView::TaskError { task_id, node_id, reason },
    }
}

/// What a worker reports of a slot of an MPI job that has ended.
pub open spec fn slot_report(
    node_id: u128,
    task_id: u128,
    job_id: u128,
    rank: u32,
    duration_ms: u64,
    result: Result<TaskOutputView, Seq<char>>,
) -> WorkerMessageView {
    match result {
        Ok(output) => WorkerMessageView::MpiRankResult {
            job_id,
            task_id,
            node_id,
            rank,
            duration_ms,
            output,
        },
        Err(reason) => WorkerMessageView::MpiRankError { job_id, task_id, node_id, rank, reason },
    }
}

/// What has come of an execution.
pub open spec fn result_view(result: Result<TaskOutput, String>) -> Result<
    TaskOutputView,
    Seq<char>,
> {
    match result {
        Ok(output) => Ok(output.deep_view()),
        Err(reason) => Err(reason@),
    }
}

/// What a worker reports of a task that took the given time.
pub fn report_task(
    node_id: u128,
    task_id: u128,
    duration_ms: u64,
    result: Result<TaskOutput, String>,
) -> (r: WorkerMessage)
    ensures
        r.deep_view() == task_report(node_id, task_id, duration_ms, result_view(result)),
{
    match result {
        Ok(output) => WorkerMessage::TaskResult { task_id, node_id, duration_ms, output },
        Err(reason) => WorkerMessage::TaskError { task_id, node_id, reason },
    }
}

/// What a worker reports of a slot that took the given time.
pub fn report_slot(
    node_id: u128,
    task_id: u128,
    job_id: u128,
    rank: u32,
    duration_ms: u64,
    result: Result<TaskOutput, String>,
) -> (r: WorkerMessage)
    ensures
        r.deep_view() == slot_report(
            node_id,
            task_id,
            job_id,
            rank,
            duration_ms,
            result_view(result),
        ),
{
    match result {
        Ok(output) => WorkerMessage::MpiRankResult {
            job_id,
            task_id,
            node_id,
            rank,
            duration_ms,
            output,
        },
        Err(reason) => WorkerMessage::MpiRankError { job_id, task_id, node_id, rank, reason },
    }
}

/// What a worker reports of a task that has been under way since `started`.
pub fn report_task_now(
    node_id: u128,
    task_id: u128,
    started: &Instant,
    result: Result<TaskOutput, String>,
) -> (r: WorkerMessage)
    ensures
        exists|duration_ms: u64|
            r.deep_view() == #[trigger] task_report(
                node_id,
                task_id,
                duration_ms,
                result_view(result),
            ),
{
    report_task(node_id, task_id, reported_millis(elapsed_millis(started)), result)
}

/// What a worker reports of a slot that has been under way since `started`.
pub fn report_slot_now(
    node_id: u128,
    task_id: u128,
    job_id: u128,
    rank: u32,
    started: &Instant,
    result: Result<TaskOutput, String>,
) -> (r: WorkerMessage)
    ensures
        exists|duration_ms: u64|
            r.deep_view() == #[trigger] slot_report(
                node_id,
                task_id,
                job_id,
                rank,
                duration_ms,
                result_view(result),
            ),
{
    report_slot(node_id, task_id, job_id, rank, reported_millis(elapsed_millis(started)), result)
}

/// A worker never has more tasks under way than it takes at once, and refuses
/// work only when it has exactly as many.
pub proof fn law_capacity(session: LoadView, message: ServerMessageView)
    requires
        session.wf(),
    ensures
        session.after(message).wf(),
        session.action(message) is Answer ==> session.active == session.max_tasks,
        session.after(message).active == session.active + if session.action(message) is Execute
            || session.action(message) is ExecuteSlot {
            1int
        } else {
            0
        },
{
}

} // verus!
