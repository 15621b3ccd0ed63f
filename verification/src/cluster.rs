//! The state of the server as a mathematical value, and how it changes.
use crate::api::TaskStatusResponseView;
use crate::clock::Timestamp;
use crate::job::{filled, rank_outputs, MpiJobView};
use crate::node::{NodeInfoView, NodeStats, NodeStatus};
use crate::output::{MpiRankOutputView, TaskOutputView};
use crate::task::{TaskStatusView, TaskView};
use tokio::sync::mpsc::UnboundedSender;
use vstd::prelude::*;

verus! {

/// How many finished tasks the server remembers at most.
pub const HISTORY_LIMIT: usize = 10_000;

/// How many of the oldest finished tasks it forgets when there are more.
pub const HISTORY_CUT: usize = 1_000;

/// Whether the first task is to be started before the second: a higher priority
/// goes first, and of equal priorities the one submitted earlier.
pub open spec fn ahead(a: TaskView, b: TaskView) -> bool {
    a.priority > b.priority || (a.priority == b.priority && a.submitted_at.precedes(
        b.submitted_at,
    ))
}

/// No task stands behind one that is to be started after it.
pub open spec fn in_order(queue: Seq<TaskView>) -> bool {
    forall|i: int, j: int|
        #![trigger queue[i], queue[j]]
        0 <= i < j < queue.len() ==> !ahead(queue[j], queue[i])
}

/// The queue with one more task: the task stands behind all those that it is
/// not to be started before.
pub open spec fn queued(queue: Seq<TaskView>, task: TaskView) -> Seq<TaskView>
    decreases queue.len(),
{
    if queue.len() > 0 && ahead(task, queue.last()) {
        queued(queue.drop_last(), task).push(queue.last())
    } else {
        queue.push(task)
    }
}

/// The history with one more finished task. It is cut at its old end where it
/// would grow too long.
pub open spec fn remembered(
    history: Seq<TaskStatusResponseView>,
    entry: TaskStatusResponseView,
) -> Seq<TaskStatusResponseView> {
    let longer = history.push(entry);
    if longer.len() > HISTORY_LIMIT {
        longer.skip(HISTORY_CUT as int)
    } else {
        longer
    }
}

/// Whether a single-node task is under way on this node.
pub open spec fn runs_on(task: TaskView, node_id: u128) -> bool {
    match task.status {
        TaskStatusView::Dispatched { node_id: n } => n == node_id,
        TaskStatusView::Running { node_id: n, .. } => n == node_id,
        _ => false,
    }
}

/// Whether a rank of an MPI task has gone to this node.
pub open spec fn has_rank_on(task: TaskView, node_id: u128) -> bool {
    match task.status {
        TaskStatusView::MpiDispatched { node_ids, .. } => node_ids.contains(node_id),
        _ => false,
    }
}

/// The single-node tasks that are under way on this node.
pub open spec fn tasks_on(node_id: u128) -> spec_fn(TaskView) -> bool {
    |task: TaskView| runs_on(task, node_id)
}

/// The MPI tasks of which a rank has gone to this node.
pub open spec fn jobs_on(node_id: u128) -> spec_fn(TaskView) -> bool {
    |task: TaskView| has_rank_on(task, node_id)
}

/// The tasks that have been under way since before the given time. `since`
/// tells when each of them went to its node.
pub open spec fn stuck_tasks(since: Map<u128, Timestamp>, cutoff: Timestamp) -> spec_fn(
    TaskView,
) -> bool {
    |task: TaskView| stuck_since(task, since[task.id], cutoff)
}

/// Whether a task that went to its node at the time `since` has been under way
/// since before the cutoff. Of one that is known to run, its own start counts.
pub open spec fn stuck_since(task: TaskView, since: Timestamp, cutoff: Timestamp) -> bool {
    match task.status {
        TaskStatusView::Dispatched { .. } => since.precedes(cutoff),
        TaskStatusView::MpiDispatched { .. } => since.precedes(cutoff),
        TaskStatusView::Running { started_at, .. } => started_at.precedes(cutoff),
        TaskStatusView::MpiRunning { started_at, .. } => started_at.precedes(cutoff),
        _ => false,
    }
}

/// Whether a node has not been heard of since the given time and is not known to be gone.
pub open spec fn silent_since(node: NodeInfoView, cutoff: Timestamp) -> bool {
    node.last_seen.precedes(cutoff) && node.status != NodeStatus::Offline
}

/// The list holds those tasks of the map that are wanted, each once, in any order.
pub open spec fn lists(
    list: Seq<TaskView>,
    tasks: Map<u128, TaskView>,
    wanted: spec_fn(TaskView) -> bool,
) -> bool {
    &&& forall|i: int|
        #![trigger list[i]]
        0 <= i < list.len() ==> tasks.contains_key(list[i].id) && tasks[list[i].id] == list[i]
            && wanted(list[i])
    &&& forall|i: int, j: int|
        #![trigger list[i], list[j]]
        0 <= i < j < list.len() ==> list[i].id != list[j].id
    &&& forall|id: u128| #[trigger]
        tasks.contains_key(id) && wanted(tasks[id]) ==> list.contains(tasks[id])
}

/// The list holds the nodes that have been silent since the given time, each
/// once, in any order.
pub open spec fn lists_silent(
    list: Seq<u128>,
    nodes: Map<u128, NodeInfoView>,
    cutoff: Timestamp,
) -> bool {
    &&& list.no_duplicates()
    &&& forall|id: u128| #[trigger]
        list.contains(id) <==> nodes.contains_key(id) && silent_since(nodes[id], cutoff)
}

/// What the server holds.
#[verifier::ext_equal]
pub struct ClusterView {
    /// The known nodes.
    pub nodes: Map<u128, NodeInfoView>,
    /// The channel to each node that has one.
    pub channels: Map<u128, UnboundedSender<String>>,
    /// The tasks that wait for a node.
    pub pending: Seq<TaskView>,
    /// The tasks that have gone to nodes.
    pub running: Map<u128, TaskView>,
    /// When each of them went.
    pub since: Map<u128, Timestamp>,
    /// The finished tasks, the oldest first.
    pub completed: Seq<TaskStatusResponseView>,
    /// How often each unfinished task may still be retried.
    pub retries: Map<u128, u32>,
    /// The MPI jobs under way.
    pub jobs: Map<u128, MpiJobView>,
    pub node_timeout_secs: u64,
    pub task_timeout_secs: u64,
    pub max_retries: u32,
}

impl ClusterView {
    /// What always holds of a server: the queue is in order, tasks, nodes and
    /// jobs stand under their own identifiers, of every running task it is known
    /// since when, every job has a place for each of its ranks, and the history
    /// is not too long.
    pub open spec fn wf(self) -> bool {
        &&& in_order(self.pending)
        &&& forall|id: u128| #[trigger]
            self.nodes.contains_key(id) ==> self.nodes[id].id == id
        &&& forall|id: u128| #[trigger]
            self.running.contains_key(id) ==> self.running[id].id == id
        &&& self.since.dom() == self.running.dom()
        &&& forall|id: u128| #[trigger]
            self.jobs.contains_key(id) ==> self.jobs[id].wf() && self.jobs[id].task_id == id
        &&& self.completed.len() <= HISTORY_LIMIT
    }

    /// A server that nobody has talked to.
    pub open spec fn initial(
        node_timeout_secs: u64,
        task_timeout_secs: u64,
        max_retries: u32,
    ) -> ClusterView {
        ClusterView {
            nodes: Map::empty(),
            channels: Map::empty(),
            pending: Seq::empty(),
            running: Map::empty(),
            since: Map::empty(),
            completed: Seq::empty(),
            retries: Map::empty(),
            jobs: Map::empty(),
            node_timeout_secs,
            task_timeout_secs,
            max_retries,
        }
    }

    /// A new task waits, and may be retried as often as the server allows.
    pub open spec fn enqueue(self, task: TaskView) -> ClusterView {
        ClusterView {
            retries: self.retries.insert(task.id, self.max_retries),
            pending: queued(self.pending, task),
            ..self
        }
    }

    /// A task is finished.
    pub open spec fn complete(
        self,
        task: TaskView,
        output: Option<TaskOutputView>,
        mpi_results: Option<Seq<MpiRankOutputView>>,
    ) -> ClusterView {
        ClusterView {
            running: self.running.remove(task.id),
            since: self.since.remove(task.id),
            retries: self.retries.remove(task.id),
            completed: remembered(
                self.completed,
                TaskStatusResponseView { task, result: output, mpi_results },
            ),
            ..self
        }
    }

    /// How often a task may still be retried.
    pub open spec fn retries_left(self, id: u128) -> u32 {
        if self.retries.contains_key(id) {
            self.retries[id]
        } else {
            0
        }
    }

    /// A task could not be carried out: it waits again with one retry less, or
    /// has failed for good where no retry is left.
    pub open spec fn requeue(self, task: TaskView) -> ClusterView {
        let left = self.retries_left(task.id);
        if left == 0 {
            self.complete(
                task.with_status(
                    TaskStatusView::Failed { reason: "max retries exceeded"@ },
                ),
                None,
                None,
            )
        } else {
            ClusterView {
                running: self.running.remove(task.id),
                since: self.since.remove(task.id),
                retries: self.retries.insert(task.id, (left - 1) as u32),
                pending: queued(self.pending, task.with_status(TaskStatusView::Queued)),
                ..self
            }
        }
    }

    /// The tasks of a list are requeued one after the other.
    pub open spec fn requeue_all(self, tasks: Seq<TaskView>) -> ClusterView
        decreases tasks.len(),
    {
        if tasks.len() == 0 {
            self
        } else {
            self.requeue_all(tasks.drop_last()).requeue(tasks.last())
        }
    }

    /// The job of a task is forgotten.
    pub open spec fn forget_job(self, job_id: u128) -> ClusterView {
        ClusterView { jobs: self.jobs.remove(job_id), ..self }
    }

    /// The tasks of a list are requeued one after the other, and their jobs, where
    /// they have any, forgotten.
    pub open spec fn requeue_jobs(self, tasks: Seq<TaskView>) -> ClusterView
        decreases tasks.len(),
    {
        if tasks.len() == 0 {
            self
        } else {
            self.requeue_jobs(tasks.drop_last()).forget_job(tasks.last().id).requeue(tasks.last())
        }
    }

    /// A known node gets another status.
    pub open spec fn set_status(self, node_id: u128, status: NodeStatus) -> ClusterView {
        if self.nodes.contains_key(node_id) {
            ClusterView {
                nodes: self.nodes.insert(node_id, self.nodes[node_id].with_status(status)),
                ..self
            }
        } else {
            self
        }
    }

    /// A known node reports its load: it is busy where it has active tasks, and
    /// online where it has none. One that is draining goes on draining.
    pub open spec fn refresh(self, node_id: u128, stats: NodeStats, seen: Timestamp) -> ClusterView {
        if self.nodes.contains_key(node_id) {
            let status = if self.nodes[node_id].status == NodeStatus::Draining {
                NodeStatus::Draining
            } else if stats.active_tasks > 0 {
                NodeStatus::Busy
            } else {
                NodeStatus::Online
            };
            ClusterView {
                nodes: self.nodes.insert(
                    node_id,
                    NodeInfoView { stats, status, last_seen: seen, ..self.nodes[node_id] },
                ),
                ..self
            }
        } else {
            self
        }
    }

    /// Whether one more active task can be counted on a node.
    pub open spec fn can_add_active(self, node_id: u128) -> bool {
        self.nodes.contains_key(node_id) ==> self.nodes[node_id].stats.active_tasks < u32::MAX
    }

    /// A known node has one more active task.
    pub open spec fn add_active(self, node_id: u128) -> ClusterView {
        if self.nodes.contains_key(node_id) {
            let node = self.nodes[node_id];
            ClusterView {
                nodes: self.nodes.insert(
                    node_id,
                    node.with_active((node.stats.active_tasks + 1) as u32),
                ),
                ..self
            }
        } else {
            self
        }
    }

    /// A known node has one active task less, if it had any.
    pub open spec fn drop_active(self, node_id: u128) -> ClusterView {
        if self.nodes.contains_key(node_id) {
            let node = self.nodes[node_id];
            let active = if node.stats.active_tasks == 0 {
                0u32
            } else {
                (node.stats.active_tasks - 1) as u32
            };
            ClusterView { nodes: self.nodes.insert(node_id, node.with_active(active)), ..self }
        } else {
            self
        }
    }

    /// A job is kept under its identifier.
    pub open spec fn with_job(self, job_id: u128, job: MpiJobView) -> ClusterView {
        ClusterView { jobs: self.jobs.insert(job_id, job), ..self }
    }

    /// The job has come to its end: it is forgotten, and its task is finished
    /// with the number of ranks that reported a result and an error, and with
    /// the results by rank.
    pub open spec fn finalize(self, job_id: u128, task_id: u128, duration_ms: u64) -> ClusterView {
        if !self.jobs.contains_key(job_id) {
            self
        } else if !self.running.contains_key(task_id) {
            self.forget_job(job_id)
        } else {
            let job = self.jobs[job_id];
            self.forget_job(job_id).complete(
                self.running[task_id].with_status(
                    TaskStatusView::MpiCompleted {
                        job_id,
                        duration_ms,
                        ranks_ok: filled(job.results) as u32,
                        ranks_failed: filled(job.errors) as u32,
                    },
                ),
                None,
                Some(rank_outputs(job.results)),
            )
        }
    }

    /// Whether the state after the stuck tasks were requeued follows from the
    /// one before. The jobs of stuck MPI tasks are forgotten.
    pub open spec fn requeues_stuck(self, after: ClusterView, cutoff: Timestamp) -> bool {
        exists|stuck: Seq<TaskView>|
            {
                &&& lists(stuck, self.running, stuck_tasks(self.since, cutoff))
                &&& after == #[trigger] self.requeue_jobs(stuck)
            }
    }

    /// Whether the state after a node was lost follows from the one before:
    /// every task on the node has been requeued, the single-node ones first.
    pub open spec fn loses_node(self, after: ClusterView, node_id: u128) -> bool {
        exists|lost: Seq<TaskView>, lost_jobs: Seq<TaskView>|
            {
                &&& lists(lost, self.running, tasks_on(node_id))
                &&& lists(lost_jobs, self.requeue_all(lost).running, jobs_on(node_id))
                &&& after == #[trigger] self.requeue_all(lost).requeue_jobs(lost_jobs)
            }
    }
}

impl ClusterView {
    /// Whether a trace of states shows how the nodes of a list are lost: one
    /// after the other is set offline and loses its tasks.
    pub open spec fn loss_trace(
        self,
        trace: Seq<ClusterView>,
        after: ClusterView,
        list: Seq<u128>,
    ) -> bool {
        &&& trace.len() == list.len() + 1
        &&& trace[0] == self
        &&& trace[list.len() as int] == after
        &&& forall|k: int|
            #![trigger list[k]]
            0 <= k < list.len() ==> trace[k].set_status(list[k], NodeStatus::Offline).loses_node(
                trace[k + 1],
                list[k],
            )
    }

    /// Whether the state after the nodes of a list were lost follows from the one before.
    pub open spec fn loses_nodes(self, after: ClusterView, list: Seq<u128>) -> bool {
        exists|trace: Seq<ClusterView>| #[trigger] self.loss_trace(trace, after, list)
    }

    /// Where no node is lost nothing changes.
    pub proof fn lemma_loses_none(self)
        ensures
            self.loses_nodes(self, Seq::empty()),
    {
        assert(self.loss_trace(seq![self], self, Seq::empty()));
    }

    /// The nodes of a list are lost, then one more.
    pub proof fn lemma_loses_next(
        self,
        mid: ClusterView,
        after: ClusterView,
        list: Seq<u128>,
        node_id: u128,
    )
        requires
            self.loses_nodes(mid, list),
            mid.set_status(node_id, NodeStatus::Offline).loses_node(after, node_id),
        ensures
            self.loses_nodes(after, list.push(node_id)),
    {
        let trace = choose|trace: Seq<ClusterView>| #[trigger] self.loss_trace(trace, mid, list);
        let longer = list.push(node_id);
        assert forall|k: int| 0 <= k < longer.len() implies trace.push(after)[k].set_status(
            #[trigger] longer[k],
            NodeStatus::Offline,
        ).loses_node(trace.push(after)[k + 1], longer[k]) by {
            if k < list.len() {
                assert(longer[k] == list[k]);
            }
        }
        assert(self.loss_trace(trace.push(after), after, longer));
    }

    /// Losing a node leaves the timeout of the tasks as it was.
    pub proof fn lemma_loses_node_timeout(self, after: ClusterView, node_id: u128)
        requires
            self.loses_node(after, node_id),
        ensures
            after.task_timeout_secs == self.task_timeout_secs,
    {
        let (lost, lost_jobs) = choose|lost: Seq<TaskView>, lost_jobs: Seq<TaskView>|
            {
                &&& lists(lost, self.running, tasks_on(node_id))
                &&& lists(lost_jobs, self.requeue_all(lost).running, jobs_on(node_id))
                &&& after == #[trigger] self.requeue_all(lost).requeue_jobs(lost_jobs)
            };
        self.lemma_requeue_all_timeout(lost);
        self.requeue_all(lost).lemma_requeue_jobs_timeout(lost_jobs);
    }

    /// Requeueing a list leaves the timeout of the tasks as it was.
    proof fn lemma_requeue_all_timeout(self, tasks: Seq<TaskView>)
        ensures
            self.requeue_all(tasks).task_timeout_secs == self.task_timeout_secs,
        decreases tasks.len(),
    {
        if tasks.len() > 0 {
            self.lemma_requeue_all_timeout(tasks.drop_last());
        }
    }

    /// Requeueing a list and forgetting its jobs leaves the timeout of the tasks
    /// as it was.
    proof fn lemma_requeue_jobs_timeout(self, tasks: Seq<TaskView>)
        ensures
            self.requeue_jobs(tasks).task_timeout_secs == self.task_timeout_secs,
        decreases tasks.len(),
    {
        if tasks.len() > 0 {
            self.lemma_requeue_jobs_timeout(tasks.drop_last());
        }
    }

    /// Whether the state after the silent nodes were lost follows from the one before.
    pub open spec fn loses_silent(self, after: ClusterView, cutoff: Timestamp) -> bool {
        exists|silent: Seq<u128>|
            {
                &&& lists_silent(silent, self.nodes, cutoff)
                &&& #[trigger] self.loses_nodes(after, silent)
            }
    }

    /// Whether the state after one round of the monitor follows from the one
    /// before: the nodes that have been silent since `node_cutoff` are lost,
    /// then the tasks that have been under way since before `task_cutoff` are
    /// requeued.
    pub open spec fn swept(
        self,
        after: ClusterView,
        node_cutoff: Timestamp,
        task_cutoff: Timestamp,
    ) -> bool {
        exists|mid: ClusterView|
            {
                &&& #[trigger] self.loses_silent(mid, node_cutoff)
                &&& mid.requeues_stuck(after, task_cutoff)
            }
    }
}

/// `queued` inserts the task at the place before which nobody is behind it and
/// from which on everybody is.
pub proof fn lemma_queued_at(queue: Seq<TaskView>, task: TaskView, at: int)
    requires
        0 <= at <= queue.len(),
        at > 0 ==> !ahead(task, queue[at - 1]),
        forall|i: int| at <= i < queue.len() ==> ahead(task, #[trigger] queue[i]),
    ensures
        queued(queue, task) == queue.insert(at, task),
    decreases queue.len(),
{
    if at == queue.len() {
        assert(queue.insert(at, task) =~= queue.push(task));
    } else {
        let front = queue.drop_last();
        lemma_queued_at(front, task, at);
        assert(ahead(task, queue[queue.len() - 1]));
        assert(queue.insert(at, task) =~= front.insert(at, task).push(queue.last()));
    }
}

/// A queue in order stays in order when a task is queued.
pub proof fn lemma_queued_in_order(queue: Seq<TaskView>, task: TaskView)
    requires
        in_order(queue),
    ensures
        in_order(queued(queue, task)),
        queued(queue, task).len() == queue.len() + 1,
        forall|i: int|
            0 <= i < queued(queue, task).len() ==> #[trigger] queued(queue, task)[i] == task
                || queue.contains(queued(queue, task)[i]),
    decreases queue.len(),
{
    let after = queued(queue, task);
    if queue.len() > 0 && ahead(task, queue.last()) {
        let front = queue.drop_last();
        assert forall|i: int, j: int|
            #![trigger front[i], front[j]]
            0 <= i < j < front.len() implies !ahead(front[j], front[i]) by {
            assert(!ahead(queue[j], queue[i]));
        }
        lemma_queued_in_order(front, task);
        let before = queued(front, task);
        assert forall|i: int| 0 <= i < after.len() implies #[trigger] after[i] == task
            || queue.contains(after[i]) by {
            if i < before.len() {
                if before[i] != task {
                    let k = choose|k: int| 0 <= k < front.len() && front[k] == before[i];
                    assert(queue[k] == after[i]);
                }
            } else {
                assert(queue[queue.len() - 1] == after[i]);
            }
        }
        assert forall|i: int, j: int|
            #![trigger after[i], after[j]]
            0 <= i < j < after.len() implies !ahead(after[j], after[i]) by {
            if j < before.len() {
                assert(!ahead(before[j], before[i]));
            } else if before[i] != task {
                let k = choose|k: int| 0 <= k < front.len() && front[k] == before[i];
                assert(!ahead(queue[queue.len() - 1], queue[k]));
            }
        }
    } else {
        assert forall|i: int| 0 <= i < after.len() implies #[trigger] after[i] == task
            || queue.contains(after[i]) by {
            if i < queue.len() {
                assert(queue[i] == after[i]);
            }
        }
        assert forall|i: int, j: int|
            #![trigger after[i], after[j]]
            0 <= i < j < after.len() implies !ahead(after[j], after[i]) by {
            if j < queue.len() {
                assert(!ahead(queue[j], queue[i]));
            } else {
                assert(!ahead(queue[queue.len() - 1], queue[i]) || i == queue.len() - 1);
            }
        }
    }
}

/// A queue in order stays in order when a task leaves it.
pub proof fn lemma_remove_in_order(queue: Seq<TaskView>, at: int)
    requires
        in_order(queue),
        0 <= at < queue.len(),
    ensures
        in_order(queue.remove(at)),
{
    let after = queue.remove(at);
    assert forall|i: int, j: int|
        #![trigger after[i], after[j]]
        0 <= i < j < after.len() implies !ahead(after[j], after[i]) by {
        let oi = if i < at {
            i
        } else {
            i + 1
        };
        let oj = if j < at {
            j
        } else {
            j + 1
        };
        assert(after[i] == queue[oi] && after[j] == queue[oj]);
    }
}

impl ClusterView {
    /// Requeueing keeps the server in order.
    pub proof fn lemma_requeue_wf(self, task: TaskView)
        requires
            self.wf(),
        ensures
            self.requeue(task).wf(),
    {
        lemma_queued_in_order(self.pending, task.with_status(TaskStatusView::Queued));
    }

    /// Requeueing a list keeps the server in order.
    pub proof fn lemma_requeue_all_wf(self, tasks: Seq<TaskView>)
        requires
            self.wf(),
        ensures
            self.requeue_all(tasks).wf(),
        decreases tasks.len(),
    {
        if tasks.len() > 0 {
            self.lemma_requeue_all_wf(tasks.drop_last());
            self.requeue_all(tasks.drop_last()).lemma_requeue_wf(tasks.last());
        }
    }

    /// Requeueing a list of MPI tasks keeps the server in order.
    pub proof fn lemma_requeue_jobs_wf(self, tasks: Seq<TaskView>)
        requires
            self.wf(),
        ensures
            self.requeue_jobs(tasks).wf(),
        decreases tasks.len(),
    {
        if tasks.len() > 0 {
            self.lemma_requeue_jobs_wf(tasks.drop_last());
            self.requeue_jobs(tasks.drop_last()).forget_job(tasks.last().id).lemma_requeue_wf(
                tasks.last(),
            );
        }
    }
}

} // verus!
