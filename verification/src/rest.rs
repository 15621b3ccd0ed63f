//! What the REST interface of the server does.
use crate::api::{
    NodesResponse, ServerStatusResponse, SubmitTaskRequest, SubmitTaskResponse,
    TaskStatusResponse, TaskStatusResponseView,
};
use crate::clock::{now, Timestamp};
use crate::cluster::ClusterView;
use crate::ident::{random_id, RANDOM_MARK, RANDOM_MASK};
use crate::node::{NodeInfo, NodeInfoView, NodeStatus};
use crate::seqs::{lemma_push_contains, lemma_take_next};
use crate::state::AppState;
use crate::task::{Task, TaskStatusView, TaskView};
use vstd::prelude::*;

verus! {

/// The place of the first task with this identifier, or the length of the list.
pub open spec fn place_of(tasks: Seq<TaskView>, id: u128) -> int
    decreases tasks.len(),
{
    if tasks.len() == 0 || tasks[0].id == id {
        0
    } else {
        1 + place_of(tasks.drop_first(), id)
    }
}

/// The tasks of a history.
pub open spec fn tasks_of(history: Seq<TaskStatusResponseView>) -> Seq<TaskView> {
    history.map_values(|entry: TaskStatusResponseView| entry.task)
}

/// Whether a node counts as online.
pub open spec fn is_online(node: NodeInfoView) -> bool {
    node.status == NodeStatus::Online || node.status == NodeStatus::Busy
}

impl ClusterView {
    /// What is known of a task: a waiting one is looked for first, then a
    /// running one, then the oldest finished one that is remembered.
    pub open spec fn lookup(self, id: u128) -> Option<TaskStatusResponseView> {
        if place_of(self.pending, id) < self.pending.len() {
            Some(
                TaskStatusResponseView {
                    task: self.pending[place_of(self.pending, id)],
                    result: None,
                    mpi_results: None,
                },
            )
        } else if self.running.contains_key(id) {
            Some(
                TaskStatusResponseView {
                    task: self.running[id],
                    result: None,
                    mpi_results: None,
                },
            )
        } else if place_of(tasks_of(self.completed), id) < self.completed.len() {
            Some(self.completed[place_of(tasks_of(self.completed), id)])
        } else {
            None
        }
    }

    /// Whether a task with this identifier waits.
    pub open spec fn is_waiting(self, id: u128) -> bool {
        place_of(self.pending, id) < self.pending.len()
    }

    /// The first waiting task with this identifier is taken out of the queue.
    pub open spec fn cancel(self, id: u128) -> ClusterView {
        if self.is_waiting(id) {
            ClusterView { pending: self.pending.remove(place_of(self.pending, id)), ..self }
        } else {
            self
        }
    }

    /// The nodes that count as online.
    pub open spec fn online(self) -> Set<u128> {
        self.nodes.dom().filter(|id: u128| is_online(self.nodes[id]))
    }
}

/// The place of a task is told by what stands there and before.
pub proof fn lemma_place_at(tasks: Seq<TaskView>, id: u128, at: int)
    requires
        0 <= at <= tasks.len(),
        forall|i: int| 0 <= i < at ==> #[trigger] tasks[i].id != id,
        at < tasks.len() ==> tasks[at].id == id,
    ensures
        place_of(tasks, id) == at,
    decreases tasks.len(),
{
    if at > 0 {
        assert(tasks[0].id != id);
        let rest = tasks.drop_first();
        assert forall|i: int| 0 <= i < at - 1 implies #[trigger] rest[i].id != id by {
            assert(tasks[i + 1].id != id);
        }
        lemma_place_at(rest, id, at - 1);
    }
}

/// At the place of a task stands the first one with its identifier.
pub proof fn lemma_place_of(tasks: Seq<TaskView>, id: u128)
    ensures
        0 <= place_of(tasks, id) <= tasks.len(),
        place_of(tasks, id) < tasks.len() ==> tasks[place_of(tasks, id)].id == id,
        forall|i: int| 0 <= i < place_of(tasks, id) ==> #[trigger] tasks[i].id != id,
    decreases tasks.len(),
{
    if tasks.len() > 0 && tasks[0].id != id {
        let rest = tasks.drop_first();
        lemma_place_of(rest, id);
        assert forall|i: int| 0 <= i < place_of(tasks, id) implies #[trigger] tasks[i].id != id by {
            if i > 0 {
                assert(rest[i - 1].id != id);
            }
        }
    }
}

/// Submits a task under the given identifier and time.
pub fn submit_stamped(
    state: &mut AppState,
    req: SubmitTaskRequest,
    id: u128,
    submitted_at: Timestamp,
) -> (r: SubmitTaskResponse)
    requires
        old(state).wf(),
    ensures
        final(state).wf(),
        final(state)@ == old(state)@.enqueue(
            TaskView::submitted(
                req.kind.deep_view(),
                req.requirements.deep_view(),
                req.priority,
                id,
                submitted_at,
            ),
        ),
        r.task_id == id,
        r.status.deep_view() == TaskStatusView::Queued,
{
    let task = Task::stamped(req.kind, req.requirements, req.priority, id, submitted_at);
    let r = SubmitTaskResponse { task_id: task.id, status: task.status.clone() };
    state.enqueue(task);
    r
}

/// Submits a task: it waits under a random identifier, submitted now.
pub fn submit_task(state: &mut AppState, req: SubmitTaskRequest) -> (r: SubmitTaskResponse)
    requires
        old(state).wf(),
    ensures
        final(state).wf(),
        exists|submitted_at: Timestamp|
            submitted_at.is_reading() && final(state)@ == old(state)@.enqueue(
                #[trigger] TaskView::submitted(
                    req.kind.deep_view(),
                    req.requirements.deep_view(),
                    req.priority,
                    r.task_id,
                    submitted_at,
                ),
            ),
        r.task_id & RANDOM_MASK == RANDOM_MARK,
        r.status.deep_view() == TaskStatusView::Queued,
{
    submit_stamped(state, req, random_id(), now())
}

/// What is known of a task.
pub fn get_task(state: &AppState, id: u128) -> (r: Option<TaskStatusResponse>)
    requires
        state.wf(),
    ensures
        r.deep_view() == state@.lookup(id),
{
    match state.find_pending(id) {
        Some(at) => {
            proof {
                lemma_place_at(state@.pending, id, at as int);
            }
            return Some(
                TaskStatusResponse {
                    task: state.pending_task(at).clone(),
                    result: None,
                    mpi_results: None,
                },
            );
        },
        None => {
            proof {
                lemma_place_at(state@.pending, id, state@.pending.len() as int);
            }
        },
    }
    if let Some(task) = state.running_task(id) {
        return Some(TaskStatusResponse { task: task.clone(), result: None, mpi_results: None });
    }
    let ghost done = tasks_of(state@.completed);
    match state.find_completed(id) {
        Some(entry) => {
            proof {
                let at = choose|at: int|
                    0 <= at < state@.completed.len() && #[trigger] state@.completed[at]
                        == entry.deep_view() && entry.task.id == id && forall|i: int|
                        0 <= i < at ==> #[trigger] state@.completed[i].task.id != id;
                assert forall|i: int| 0 <= i < at implies #[trigger] done[i].id != id by {
                    assert(state@.completed[i].task.id != id);
                }
                lemma_place_at(done, id, at);
            }
            Some(entry.clone())
        },
        None => {
            proof {
                assert forall|i: int| 0 <= i < done.len() implies #[trigger] done[i].id != id by {
                    assert(state@.completed[i].task.id != id);
                }
                lemma_place_at(done, id, done.len() as int);
            }
            None
        },
    }
}

/// Takes a waiting task out of the queue, and tells whether there was one.
pub fn cancel_task(state: &mut AppState, id: u128) -> (cancelled: bool)
    requires
        old(state).wf(),
    ensures
        final(state).wf(),
        final(state)@ == old(state)@.cancel(id),
        cancelled == old(state)@.is_waiting(id),
{
    match state.find_pending(id) {
        Some(at) => {
            proof {
                lemma_place_at(state@.pending, id, at as int);
            }
            let _ = state.take_pending(at);
            true
        },
        None => {
            proof {
                lemma_place_at(state@.pending, id, state@.pending.len() as int);
            }
            false
        },
    }
}

/// The known nodes, each once, in no promised order.
pub fn list_nodes(state: &AppState) -> (r: NodesResponse)
    requires
        state.wf(),
    ensures
        r.nodes.deep_view().map_values(|node: NodeInfoView| node.id).no_duplicates(),
        forall|i: int|
            0 <= i < r.nodes.len() ==> state@.nodes.contains_key(
                (#[trigger] r.nodes.deep_view()[i]).id,
            ) && state@.nodes[r.nodes.deep_view()[i].id] == r.nodes.deep_view()[i],
        forall|id: u128| #[trigger]
            state@.nodes.contains_key(id) ==> r.nodes.deep_view().contains(state@.nodes[id]),
{
    let ids = state.node_ids();
    proof {
        state.lemma_wf();
    }
    let mut nodes: Vec<NodeInfo> = Vec::new();
    let mut i: usize = 0;
    while i < ids.len()
        invariant
            state.wf(),
            state@.wf(),
            ids@.no_duplicates(),
            ids@.to_set() == state@.nodes.dom(),
            i <= ids.len(),
            nodes.len() == i,
            forall|j: int|
                0 <= j < i ==> #[trigger] nodes.deep_view()[j] == state@.nodes[ids@[j]],
        decreases ids.len() - i,
    {
        let ghost before = nodes.deep_view();
        assert(ids@.to_set().contains(ids@[i as int]));
        if let Some(node) = state.node(ids[i]) {
            nodes.push(node.clone());
            assert(nodes.deep_view() =~= before.push(state@.nodes[ids@[i as int]]));
        }
        i = i + 1;
    }
    proof {
        let list = nodes.deep_view();
        assert forall|j: int| 0 <= j < list.len() implies state@.nodes.contains_key(
            (#[trigger] list[j]).id,
        ) && state@.nodes[list[j].id] == list[j] && list[j].id == ids@[j] by {
            assert(ids@.to_set().contains(ids@[j]));
        }
        assert(list.map_values(|node: NodeInfoView| node.id) =~= ids@);
        assert forall|id: u128| #[trigger] state@.nodes.contains_key(id) implies list.contains(
            state@.nodes[id],
        ) by {
            assert(ids@.to_set().contains(id));
            let k = choose|k: int| 0 <= k < ids@.len() && ids@[k] == id;
            assert(list[k] == state@.nodes[id]);
        }
    }
    NodesResponse { nodes }
}

/// The number of nodes that count as online.
fn count_online(state: &AppState) -> (n: usize)
    requires
        state.wf(),
    ensures
        n == state@.online().len(),
{
    let ids = state.node_ids();
    let mut n: usize = 0;
    let mut i: usize = 0;
    let ghost mut found: Seq<u128> = Seq::empty();
    while i < ids.len()
        invariant
            state.wf(),
            ids@.no_duplicates(),
            ids@.to_set() == state@.nodes.dom(),
            i <= ids.len(),
            n <= i,
            n == found.len(),
            found.no_duplicates(),
            forall|id: u128| #[trigger]
                found.contains(id) <==> ids@.take(i as int).contains(id) && is_online(
                    state@.nodes[id],
                ),
        decreases ids.len() - i,
    {
        let ghost before = found;
        let id: u128 = ids[i];
        assert(ids@.to_set().contains(id));
        proof {
            lemma_take_next(ids@, i as int);
            lemma_push_contains(before, id);
        }
        assert(!before.contains(id));
        if let Some(node) = state.node(id) {
            if node.status == NodeStatus::Online || node.status == NodeStatus::Busy {
                n = n + 1;
                proof {
                    found = found.push(id);
                }
            }
        }
        i = i + 1;
    }
    proof {
        assert(ids@.take(ids.len() as int) =~= ids@);
        assert forall|id: u128| found.to_set().contains(id) == state@.online().contains(id) by {
            assert(ids@.to_set().contains(id) <==> state@.nodes.contains_key(id));
            assert(found.contains(id) <==> ids@.contains(id) && is_online(state@.nodes[id]));
        }
        assert(found.to_set() =~= state@.online());
        found.unique_seq_to_set();
    }
    n
}

/// How much the server has to do.
pub fn server_status(state: &AppState, version: &str) -> (r: ServerStatusResponse)
    requires
        state.wf(),
    ensures
        r.version@ == version@,
        r.queued_tasks == state@.pending.len(),
        r.running_tasks == state@.running.len(),
        r.completed_tasks == state@.completed.len(),
        r.online_nodes == state@.online().len(),
{
    ServerStatusResponse {
        version: version.to_owned(),
        queued_tasks: state.pending_len(),
        running_tasks: state.running_len(),
        completed_tasks: state.completed_len(),
        online_nodes: count_online(state),
    }
}

} // verus!
