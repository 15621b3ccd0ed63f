//! The server's side of the conversation with one worker.
use crate::clock::{now, Timestamp};
use crate::cluster::ClusterView;
use crate::message::{ServerMessage, ServerMessageView, WorkerMessage, WorkerMessageView};
use crate::job::MpiJobView;
use crate::node::{NodeCapabilitiesView, NodeInfo, NodeInfoView, NodeStats, NodeStatus};
use crate::scheduler::{abort_mpi_job, Broadcast};
use crate::state::AppState;
use crate::task::{Percent, TaskStatus, TaskStatusView};
use crate::text::{decimal, decimal_text};
use tokio::sync::mpsc::UnboundedSender;
use vstd::prelude::*;

verus! {

/// What is to be sent after a message has been taken in.
#[derive(Debug)]
pub enum Reply {
    Nothing,
    /// To the worker that the message came from.
    ToWorker(ServerMessage),
    /// To many workers.
    ToMany(Broadcast),
}

/// What is to be sent, without the order of the receivers.
pub enum ReplyView {
    Nothing,
    ToWorker(ServerMessageView),
    /// To every known node.
    ToAll(ServerMessageView),
}

impl Reply {
    /// Whether this reply is the one described, where the nodes given are the known ones.
    pub open spec fn says(self, view: ReplyView, nodes: Set<u128>) -> bool {
        match (self, view) {
            (Reply::Nothing, ReplyView::Nothing) => true,
            (Reply::ToWorker(message), ReplyView::ToWorker(m)) => message.deep_view() == m,
            (Reply::ToMany(broadcast), ReplyView::ToAll(m)) => broadcast.reaches(nodes)
                && broadcast.message.deep_view() == m,
            _ => false,
        }
    }
}

/// The clock readings that taking in a message may use.
#[derive(Clone, Copy, Debug, PartialEq, Eq, Structural)]
pub struct Readings {
    /// The time given to the first, assumed load of a new node.
    pub reported_at: Timestamp,
    /// The time at which the node was heard of.
    pub seen_at: Timestamp,
    /// How long the job that the message speaks of has taken.
    pub job_ms: u64,
}

/// A node that has just registered: online, idle, and with all of its memory free.
pub open spec fn new_node(
    node_id: u128,
    name: Seq<char>,
    capabilities: NodeCapabilitiesView,
    readings: Readings,
) -> NodeInfoView {
    NodeInfoView {
        id: node_id,
        name,
        capabilities,
        stats: NodeStats {
            cpu_used_pct: Percent { bits: 0 },
            ram_free_mb: capabilities.total_ram_mb,
            active_tasks: 0,
            latency_ms: None,
            reported_at: readings.reported_at,
        },
        status: NodeStatus::Online,
        last_seen: readings.seen_at,
    }
}

/// Why the other ranks are told to stop when one has failed.
pub open spec fn rank_failure(rank: u32, reason: Seq<char>) -> Seq<char> {
    "rank "@ + decimal(rank as nat) + " failed: "@ + reason
}

impl ClusterView {
    /// The state after a message has been taken in that came from the worker at
    /// the other end of the channel.
    pub open spec fn received(
        self,
        channel: UnboundedSender<String>,
        message: WorkerMessageView,
        readings: Readings,
    ) -> ClusterView {
        match message {
            WorkerMessageView::Register { node_id, name, capabilities } => ClusterView {
                channels: self.channels.insert(node_id, channel),
                nodes: self.nodes.insert(
                    node_id,
                    new_node(node_id, name, capabilities, readings),
                ),
                ..self
            },
            WorkerMessageView::Heartbeat { node_id, stats } => self.refresh(
                node_id,
                stats,
                readings.seen_at,
            ),
            WorkerMessageView::TaskResult { task_id, node_id, duration_ms, output } => {
                if self.running.contains_key(task_id) {
                    self.complete(
                        self.running[task_id].with_status(
                            TaskStatusView::Completed { node_id, duration_ms },
                        ),
                        Some(output),
                        None,
                    ).drop_active(node_id)
                } else {
                    self.drop_active(node_id)
                }
            },
            WorkerMessageView::TaskError { task_id, node_id, reason } => {
                if self.running.contains_key(task_id) {
                    self.requeue(self.running[task_id]).drop_active(node_id)
                } else {
                    self.drop_active(node_id)
                }
            },
            WorkerMessageView::MpiRankResult { job_id, task_id, node_id, rank, output, .. } => {
                if self.jobs.contains_key(job_id) {
                    self.drop_active(node_id).with_answer(
                        job_id,
                        task_id,
                        self.jobs[job_id].with_result(rank, output, node_id),
                        readings.job_ms,
                    )
                } else {
                    self.drop_active(node_id)
                }
            },
            WorkerMessageView::MpiRankError { job_id, task_id, node_id, rank, reason } => {
                if self.jobs.contains_key(job_id) {
                    self.drop_active(node_id).with_answer(
                        job_id,
                        task_id,
                        self.jobs[job_id].with_error(rank, reason),
                        readings.job_ms,
                    )
                } else {
                    self.drop_active(node_id)
                }
            },
            WorkerMessageView::Draining { node_id } => self.set_status(
                node_id,
                NodeStatus::Draining,
            ),
        }
    }

    /// A rank has answered: the job is kept as it is now, or comes to its end
    /// where every rank has answered.
    pub open spec fn with_answer(
        self,
        job_id: u128,
        task_id: u128,
        job: MpiJobView,
        job_ms: u64,
    ) -> ClusterView {
        if job.complete() {
            self.with_job(job_id, job).finalize(job_id, task_id, job_ms)
        } else {
            self.with_job(job_id, job)
        }
    }

    /// What is sent after a message has been taken in: a registration is
    /// acknowledged, and when a rank of a job has failed while others have not
    /// answered yet, everybody is told to give the job up.
    pub open spec fn reply(self, message: WorkerMessageView) -> ReplyView {
        match message {
            WorkerMessageView::Register { node_id, .. } => ReplyView::ToWorker(
                ServerMessageView::Registered { node_id },
            ),
            WorkerMessageView::MpiRankError { job_id, rank, reason, .. } => {
                if self.jobs.contains_key(job_id) && !self.jobs[job_id].with_error(
                    rank,
                    reason,
                ).complete() {
                    ReplyView::ToAll(
                        ServerMessageView::AbortMpiJob {
                            job_id,
                            reason: rank_failure(rank, reason),
                        },
                    )
                } else {
                    ReplyView::Nothing
                }
            },
            _ => ReplyView::Nothing,
        }
    }

    /// Whether the state after the connection to a node has ended follows from
    /// the one before: the channel is closed, the node is offline, and its
    /// tasks are requeued.
    pub open spec fn ends_session(self, after: ClusterView, node_id: u128) -> bool {
        (ClusterView { channels: self.channels.remove(node_id), ..self }).set_status(
            node_id,
            NodeStatus::Offline,
        ).loses_node(after, node_id)
    }
}

/// The node that a worker last registered as, after a message.
pub open spec fn registered_as(before: Option<u128>, message: WorkerMessageView) -> Option<u128> {
    match message {
        WorkerMessageView::Register { node_id, .. } => Some(node_id),
        _ => before,
    }
}

/// Why the other ranks are told to stop when one has failed.
fn rank_failure_text(rank: u32, reason: &str) -> (r: String)
    ensures
        r@ == rank_failure(rank, reason@),
{
    let mut r = "rank ".to_owned();
    r.append(decimal_text(rank as u64).as_str());
    r.append(" failed: ");
    r.append(reason);
    r
}

/// The conversation with one worker.
pub struct Session {
    node_id: Option<u128>,
}

impl View for Session {
    type V = Option<u128>;

    /// The node that the worker last registered as.
    closed spec fn view(&self) -> Option<u128> {
        self.node_id
    }
}

impl Session {
    /// A conversation in which nothing has been said.
    pub fn new() -> (r: Session)
        ensures
            r@ is None,
    {
        Session { node_id: None }
    }

    /// Takes in a message, with the given clock readings. `channel` leads to
    /// the worker that sent it.
    pub fn receive(
        &mut self,
        state: &mut AppState,
        channel: UnboundedSender<String>,
        message: WorkerMessage,
        readings: Readings,
    ) -> (reply: Reply)
        requires
            old(state).wf(),
        ensures
            final(state).wf(),
            final(state)@ == old(state)@.received(channel, message.deep_view(), readings),
            reply.says(old(state)@.reply(message.deep_view()), final(state)@.nodes.dom()),
            final(self)@ == (match message {
                WorkerMessage::Register { node_id, .. } => Some(node_id),
                _ => old(self)@,
            }),
            final(self)@ == registered_as(old(self)@, message.deep_view()),
    {
        proof {
            state.lemma_wf();
        }
        match message {
            WorkerMessage::Register { node_id, name, capabilities } => {
                self.node_id = Some(node_id);
                state.connect(node_id, channel);
                let stats = NodeStats {
                    cpu_used_pct: Percent { bits: 0 },
                    ram_free_mb: capabilities.total_ram_mb,
                    active_tasks: 0,
                    latency_ms: None,
                    reported_at: readings.reported_at,
                };
                state.put_node(
                    NodeInfo {
                        id: node_id,
                        name,
                        capabilities,
                        stats,
                        status: NodeStatus::Online,
                        last_seen: readings.seen_at,
                    },
                );
                Reply::ToWorker(ServerMessage::Registered { node_id })
            },
            WorkerMessage::Heartbeat { node_id, stats } => {
                state.refresh(node_id, stats, readings.seen_at);
                Reply::Nothing
            },
            WorkerMessage::TaskResult { task_id, node_id, duration_ms, output } => {
                if let Some(task) = state.take_running(task_id) {
                    let mut task = task;
                    task.status = TaskStatus::Completed { node_id, duration_ms };
                    state.complete_task(task, Some(output), None);
                }
                proof {
                    let running = old(state)@.running;
                    assert(running.remove(task_id).remove(task_id) =~= running.remove(task_id));
                    let since = old(state)@.since;
                    assert(since.remove(task_id).remove(task_id) =~= since.remove(task_id));
                    if !running.contains_key(task_id) {
                        assert(running.remove(task_id) =~= running);
                        assert(since.dom().contains(task_id) == running.dom().contains(task_id));
                        assert(since.remove(task_id) =~= since);
                    }
                }
                state.decrement_active(node_id);
                Reply::Nothing
            },
            WorkerMessage::TaskError { task_id, node_id, reason } => {
                if let Some(task) = state.take_running(task_id) {
                    state.requeue(task);
                }
                proof {
                    let running = old(state)@.running;
                    assert(running.remove(task_id).remove(task_id) =~= running.remove(task_id));
                    let since = old(state)@.since;
                    assert(since.remove(task_id).remove(task_id) =~= since.remove(task_id));
                    if !running.contains_key(task_id) {
                        assert(running.remove(task_id) =~= running);
                        assert(since.dom().contains(task_id) == running.dom().contains(task_id));
                        assert(since.remove(task_id) =~= since);
                    }
                }
                state.decrement_active(node_id);
                Reply::Nothing
            },
            WorkerMessage::MpiRankResult { job_id, task_id, node_id, rank, duration_ms, output } => {
                state.decrement_active(node_id);
                match state.record_result(job_id, rank, output, node_id) {
                    Some(true) => state.finalize_mpi_job(job_id, task_id, readings.job_ms),
                    _ => {},
                }
                Reply::Nothing
            },
            WorkerMessage::MpiRankError { job_id, task_id, node_id, rank, reason } => {
                state.decrement_active(node_id);
                let why = rank_failure_text(rank, reason.as_str());
                match state.record_error(job_id, rank, reason) {
                    Some(true) => {
                        state.finalize_mpi_job(job_id, task_id, readings.job_ms);
                        Reply::Nothing
                    },
                    // There is no point in waiting for the other ranks.
                    Some(false) => Reply::ToMany(abort_mpi_job(state, job_id, why.as_str())),
                    None => Reply::Nothing,
                }
            },
            WorkerMessage::Draining { node_id } => {
                state.set_status(node_id, NodeStatus::Draining);
                Reply::Nothing
            },
        }
    }

    /// Takes in a message at the present time.
    pub fn handle_message(
        &mut self,
        state: &mut AppState,
        channel: UnboundedSender<String>,
        message: WorkerMessage,
    ) -> (reply: Reply)
        requires
            old(state).wf(),
        ensures
            final(state).wf(),
            exists|readings: Readings|
                {
                    &&& readings.reported_at.is_reading()
                    &&& readings.seen_at.is_reading()
                    &&& final(state)@ == #[trigger] old(state)@.received(
                        channel,
                        message.deep_view(),
                        readings,
                    )
                },
            reply.says(old(state)@.reply(message.deep_view()), final(state)@.nodes.dom()),
            final(self)@ == (match message {
                WorkerMessage::Register { node_id, .. } => Some(node_id),
                _ => old(self)@,
            }),
            final(self)@ == registered_as(old(self)@, message.deep_view()),
    {
        let reported_at = now();
        let seen_at = now();
        let job_ms: u64 = match &message {
            WorkerMessage::MpiRankResult { job_id, .. } => state.job_duration_ms(*job_id),
            WorkerMessage::MpiRankError { job_id, .. } => state.job_duration_ms(*job_id),
            _ => 0,
        };
        self.receive(state, channel, message, Readings { reported_at, seen_at, job_ms })
    }

    /// The connection has ended.
    pub fn close(self, state: &mut AppState)
        requires
            old(state).wf(),
        ensures
            final(state).wf(),
            match self@ {
                Some(node_id) => old(state)@.ends_session(final(state)@, node_id),
                None => final(state)@ == old(state)@,
            },
    {
        if let Some(node_id) = self.node_id {
            state.disconnect(node_id);
            state.set_status(node_id, NodeStatus::Offline);
            state.lose_node(node_id);
        }
    }
}

} // verus!
