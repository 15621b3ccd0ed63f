//! The messages between the server and its workers.
use crate::node::{NodeCapabilities, NodeCapabilitiesView, NodeStats};
use crate::output::{TaskOutput, TaskOutputView};
use crate::task::{MpiSlot, MpiSlotView, Task, TaskView};
use vstd::prelude::*;

verus! {

/// Messages from a worker to the server.
#[derive(Debug)]
pub enum WorkerMessage {
    Register { node_id: u128, name: String, capabilities: NodeCapabilities },
    Heartbeat { node_id: u128, stats: NodeStats },
    TaskResult { task_id: u128, node_id: u128, duration_ms: u64, output: TaskOutput },
    TaskError { task_id: u128, node_id: u128, reason: String },
    /// Report from one MPI rank once it finishes.
    MpiRankResult {
        job_id: u128,
        task_id: u128,
        node_id: u128,
        rank: u32,
        duration_ms: u64,
        output: TaskOutput,
    },
    MpiRankError { job_id: u128, task_id: u128, node_id: u128, rank: u32, reason: String },
    Draining { node_id: u128 },
}

/// The contents of a `WorkerMessage`.
pub enum WorkerMessageView {
    Register { node_id: u128, name: Seq<char>, capabilities: NodeCapabilitiesView },
    Heartbeat { node_id: u128, stats: NodeStats },
    TaskResult { task_id: u128, node_id: u128, duration_ms: u64, output: TaskOutputView },
    TaskError { task_id: u128, node_id: u128, reason: Seq<char> },
    MpiRankResult {
        job_id: u128,
        task_id: u128,
        node_id: u128,
        rank: u32,
        duration_ms: u64,
        output: TaskOutputView,
    },
    MpiRankError { job_id: u128, task_id: u128, node_id: u128, rank: u32, reason: Seq<char> },
    Draining { node_id: u128 },
}

impl DeepView for WorkerMessage {
    type V = WorkerMessageView;

    open spec fn deep_view(&self) -> WorkerMessageView {
        match self {
            WorkerMessage::Register { node_id, name, capabilities } => {
                WorkerMessageView::Register {
                    node_id: *node_id,
                    name: name@,
                    capabilities: capabilities.deep_view(),
                }
            },
            WorkerMessage::Heartbeat { node_id, stats } => WorkerMessageView::Heartbeat {
                node_id: *node_id,
                stats: *stats,
            },
            WorkerMessage::TaskResult { task_id, node_id, duration_ms, output } => {
                WorkerMessageView::TaskResult {
                    task_id: *task_id,
                    node_id: *node_id,
                    duration_ms: *duration_ms,
                    output: output.deep_view(),
                }
            },
            WorkerMessage::TaskError { task_id, node_id, reason } => WorkerMessageView::TaskError {
                task_id: *task_id,
                node_id: *node_id,
                reason: reason@,
            },
            WorkerMessage::MpiRankResult { job_id, task_id, node_id, rank, duration_ms, output } => {
                WorkerMessageView::MpiRankResult {
                    job_id: *job_id,
                    task_id: *task_id,
                    node_id: *node_id,
                    rank: *rank,
                    duration_ms: *duration_ms,
                    output: output.deep_view(),
                }
            },
            WorkerMessage::MpiRankError { job_id, task_id, node_id, rank, reason } => {
                WorkerMessageView::MpiRankError {
                    job_id: *job_id,
                    task_id: *task_id,
                    node_id: *node_id,
                    rank: *rank,
                    reason: reason@,
                }
            },
            WorkerMessage::Draining { node_id } => WorkerMessageView::Draining {
                node_id: *node_id,
            },
        }
    }
}

impl Clone for WorkerMessage {
    fn clone(&self) -> (r: WorkerMessage)
        ensures
            r.deep_view() == self.deep_view(),
    {
        match self {
            WorkerMessage::Register { node_id, name, capabilities } => WorkerMessage::Register {
                node_id: *node_id,
                name: name.clone(),
                capabilities: capabilities.clone(),
            },
            WorkerMessage::Heartbeat { node_id, stats } => WorkerMessage::Heartbeat {
                node_id: *node_id,
                stats: *stats,
            },
            WorkerMessage::TaskResult { task_id, node_id, duration_ms, output } => {
                WorkerMessage::TaskResult {
                    task_id: *task_id,
                    node_id: *node_id,
                    duration_ms: *duration_ms,
                    output: output.clone(),
                }
            },
            WorkerMessage::TaskError { task_id, node_id, reason } => WorkerMessage::TaskError {
                task_id: *task_id,
                node_id: *node_id,
                reason: reason.clone(),
            },
            WorkerMessage::MpiRankResult { job_id, task_id, node_id, rank, duration_ms, output } => {
                WorkerMessage::MpiRankResult {
                    job_id: *job_id,
                    task_id: *task_id,
                    node_id: *node_id,
                    rank: *rank,
                    duration_ms: *duration_ms,
                    output: output.clone(),
                }
            },
            WorkerMessage::MpiRankError { job_id, task_id, node_id, rank, reason } => {
                WorkerMessage::MpiRankError {
                    job_id: *job_id,
                    task_id: *task_id,
                    node_id: *node_id,
                    rank: *rank,
                    reason: reason.clone(),
                }
            },
            WorkerMessage::Draining { node_id } => WorkerMessage::Draining { node_id: *node_id },
        }
    }
}

/// Messages from the server to a worker.
#[derive(Debug)]
pub enum ServerMessage {
    Registered { node_id: u128 },
    DispatchTask { task: Task },
    /// Dispatch an MPI slot: same task + this node's rank assignment.
    DispatchMpiSlot { task: Task, slot: MpiSlot },
    CancelTask { task_id: u128 },
    /// Abort an MPI job on this node (another rank failed).
    AbortMpiJob { job_id: u128, reason: String },
    ServerShutdown,
}

/// The contents of a `ServerMessage`.
pub enum ServerMessageView {
    Registered { node_id: u128 },
    DispatchTask { task: TaskView },
    DispatchMpiSlot { task: TaskView, slot: MpiSlotView },
    CancelTask { task_id: u128 },
    AbortMpiJob { job_id: u128, reason: Seq<char> },
    ServerShutdown,
}

impl DeepView for ServerMessage {
    type V = ServerMessageView;

    open spec fn deep_view(&self) -> ServerMessageView {
        match self {
            ServerMessage::Registered { node_id } => ServerMessageView::Registered {
                node_id: *node_id,
            },
            ServerMessage::DispatchTask { task } => ServerMessageView::DispatchTask {
                task: task.deep_view(),
            },
            ServerMessage::DispatchMpiSlot { task, slot } => ServerMessageView::DispatchMpiSlot {
                task: task.deep_view(),
                slot: slot.deep_view(),
            },
            ServerMessage::CancelTask { task_id } => ServerMessageView::CancelTask {
                task_id: *task_id,
            },
            ServerMessage::AbortMpiJob { job_id, reason } => ServerMessageView::AbortMpiJob {
                job_id: *job_id,
                reason: reason@,
            },
            ServerMessage::ServerShutdown => ServerMessageView::ServerShutdown,
        }
    }
}

impl Clone for ServerMessage {
    fn clone(&self) -> (r: ServerMessage)
        ensures
            r.deep_view() == self.deep_view(),
    {
        match self {
            ServerMessage::Registered { node_id } => ServerMessage::Registered {
                node_id: *node_id,
            },
            ServerMessage::DispatchTask { task } => ServerMessage::DispatchTask {
                task: task.clone(),
            },
            ServerMessage::DispatchMpiSlot { task, slot } => ServerMessage::DispatchMpiSlot {
                task: task.clone(),
                slot: slot.clone(),
            },
            ServerMessage::CancelTask { task_id } => ServerMessage::CancelTask {
                task_id: *task_id,
            },
            ServerMessage::AbortMpiJob { job_id, reason } => ServerMessage::AbortMpiJob {
                job_id: *job_id,
                reason: reason.clone(),
            },
            ServerMessage::ServerShutdown => ServerMessage::ServerShutdown,
        }
    }
}

} // verus!
