//! The requests and responses of the REST interface.
use crate::node::NodeInfo;
use crate::output::{MpiRankOutput, MpiRankOutputView, TaskOutput, TaskOutputView};
use crate::string_map::StringMap;
use crate::task::{Task, TaskKind, TaskRequirements, TaskStatus, TaskView};
use vstd::prelude::*;

verus! {

/// The priority of a task that is submitted without one.
pub fn default_priority() -> (r: u8)
    ensures
        r == 128,
{
    128
}

/// A task to be submitted.
#[derive(Debug)]
pub struct SubmitTaskRequest {
    pub kind: TaskKind,
    pub requirements: TaskRequirements,
    pub priority: u8,
    pub meta: StringMap,
}

impl Clone for SubmitTaskRequest {
    fn clone(&self) -> (r: SubmitTaskRequest)
        ensures
            r.kind.deep_view() == self.kind.deep_view(),
            r.requirements.deep_view() == self.requirements.deep_view(),
            r.priority == self.priority,
            r.meta.deep_view() == self.meta.deep_view(),
    {
        SubmitTaskRequest {
            kind: self.kind.clone(),
            requirements: self.requirements.clone(),
            priority: self.priority,
            meta: self.meta.clone(),
        }
    }
}

/// The answer to a submission.
#[derive(Debug, PartialEq)]
pub struct SubmitTaskResponse {
    pub task_id: u128,
    pub status: TaskStatus,
}

impl Clone for SubmitTaskResponse {
    fn clone(&self) -> (r: SubmitTaskResponse)
        ensures
            r.task_id == self.task_id,
            r.status.deep_view() == self.status.deep_view(),
    {
        SubmitTaskResponse { task_id: self.task_id, status: self.status.clone() }
    }
}

/// A task and what has come of it.
#[derive(Debug)]
pub struct TaskStatusResponse {
    pub task: Task,
    pub result: Option<TaskOutput>,
    /// For MPI jobs: per-rank outputs.
    pub mpi_results: Option<Vec<MpiRankOutput>>,
}

/// The contents of a `TaskStatusResponse`.
pub struct TaskStatusResponseView {
    pub task: TaskView,
    pub result: Option<TaskOutputView>,
    pub mpi_results: Option<Seq<MpiRankOutputView>>,
}

impl DeepView for TaskStatusResponse {
    type V = TaskStatusResponseView;

    open spec fn deep_view(&self) -> TaskStatusResponseView {
        TaskStatusResponseView {
            task: self.task.deep_view(),
            result: self.result.deep_view(),
            mpi_results: self.mpi_results.deep_view(),
        }
    }
}

impl Clone for TaskStatusResponse {
    fn clone(&self) -> (r: TaskStatusResponse)
        ensures
            r.deep_view() == self.deep_view(),
    {
        let result: Option<TaskOutput> = match &self.result {
            Some(output) => Some(output.clone()),
            None => None,
        };
        let mpi_results: Option<Vec<MpiRankOutput>> = match &self.mpi_results {
            Some(outputs) => {
                let copy = outputs.clone();
                assert(copy.deep_view() =~= outputs.deep_view());
                Some(copy)
            },
            None => None,
        };
        TaskStatusResponse { task: self.task.clone(), result, mpi_results }
    }
}

/// The nodes that the server knows.
#[derive(Debug)]
pub struct NodesResponse {
    pub nodes: Vec<NodeInfo>,
}

impl Clone for NodesResponse {
    fn clone(&self) -> (r: NodesResponse)
        ensures
            r.nodes.deep_view() == self.nodes.deep_view(),
    {
        let nodes = self.nodes.clone();
        assert(nodes.deep_view() =~= self.nodes.deep_view());
        NodesResponse { nodes }
    }
}

/// How much the server has to do.
#[derive(Debug, PartialEq)]
pub struct ServerStatusResponse {
    pub version: String,
    pub queued_tasks: usize,
    pub running_tasks: usize,
    pub completed_tasks: usize,
    pub online_nodes: usize,
}

impl Clone for ServerStatusResponse {
    fn clone(&self) -> (r: ServerStatusResponse)
        ensures
            r.version@ == self.version@,
            r.queued_tasks == self.queued_tasks,
            r.running_tasks == self.running_tasks,
            r.completed_tasks == self.completed_tasks,
            r.online_nodes == self.online_nodes,
    {
        ServerStatusResponse {
            version: self.version.clone(),
            queued_tasks: self.queued_tasks,
            running_tasks: self.running_tasks,
            completed_tasks: self.completed_tasks,
            online_nodes: self.online_nodes,
        }
    }
}

} // verus!
