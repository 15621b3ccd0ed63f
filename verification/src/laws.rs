//! What holds of the server as a whole.
use crate::api::TaskStatusResponseView;
use crate::choice::{law_scored_are_eligible, scored};
use crate::clock::{Moment, Timestamp};
use crate::cluster::{
    ahead, has_rank_on, in_order, jobs_on, lemma_queued_at, lemma_queued_in_order,
    lemma_remove_in_order, lists, lists_silent, queued, remembered, runs_on, silent_since,
    stuck_since, stuck_tasks, tasks_on, ClusterView, HISTORY_CUT, HISTORY_LIMIT,
};
use crate::job::{filled, rank_outputs};
use crate::message::WorkerMessageView;
use crate::node::{NodeCapabilitiesView, NodeStats, NodeStatus, Weight};
use crate::output::{MpiRankOutputView, TaskOutputView};
use crate::rest::{lemma_place_at, lemma_place_of, place_of, tasks_of};
use crate::scheduler::{PassView, Sent};
use crate::session::Readings;
use crate::task::{TaskRequirementsView, TaskStatusView, TaskView};
use tokio::sync::mpsc::UnboundedSender;
use vstd::prelude::*;

verus! {

/// A new task takes its place behind every waiting task that it is not to be
/// started before, and before all others; the others keep their order. So tasks
/// of equal priority are started in the order of their submission.
pub proof fn law_queue_is_stable(queue: Seq<TaskView>, task: TaskView) -> (at: int)
    requires
        in_order(queue),
    ensures
        0 <= at <= queue.len(),
        queued(queue, task) == queue.insert(at, task),
        forall|i: int| 0 <= i < at ==> !ahead(task, #[trigger] queue[i]),
        forall|i: int| at <= i < queue.len() ==> ahead(task, #[trigger] queue[i]),
    decreases queue.len(),
{
    if queue.len() > 0 && ahead(task, queue.last()) {
        let front = queue.drop_last();
        assert(in_order(front)) by {
            assert forall|i: int, j: int|
                #![trigger front[i], front[j]]
                0 <= i < j < front.len() implies !ahead(front[j], front[i]) by {
                assert(!ahead(queue[j], queue[i]));
            }
        }
        let at = law_queue_is_stable(front, task);
        assert forall|i: int| 0 <= i < at implies !ahead(task, #[trigger] queue[i]) by {
            assert(front[i] == queue[i]);
        }
        assert forall|i: int| at <= i < queue.len() implies ahead(task, #[trigger] queue[i]) by {
            if i < front.len() {
                assert(front[i] == queue[i]);
            }
        }
        if at > 0 {
            assert(!ahead(task, queue[at - 1]));
        }
        lemma_queued_at(queue, task, at);
        at
    } else {
        assert forall|i: int| 0 <= i < queue.len() implies !ahead(task, #[trigger] queue[i]) by {
            if i < queue.len() - 1 {
                assert(!ahead(queue[queue.len() - 1], queue[i]));
            }
        }
        lemma_queued_at(queue, task, queue.len() as int);
        queue.len() as int
    }
}

/// No waiting task is to be started before the one at the front.
pub proof fn law_front_is_most_urgent(state: ClusterView, i: int)
    requires
        state.wf(),
        0 <= i < state.pending.len(),
    ensures
        !ahead(state.pending[i], state.pending[0]),
        state.pending[i].priority <= state.pending[0].priority,
{
    if i > 0 {
        assert(!ahead(state.pending[i], state.pending[0]));
    }
}

/// Submitting, finishing, requeueing or cancelling a task keeps the server in
/// order: the queue by priority and time, every task, node and job under its own
/// identifier, and the history within its limit.
pub proof fn law_tasks_keep_order(
    state: ClusterView,
    task: TaskView,
    output: Option<TaskOutputView>,
    mpi_results: Option<Seq<MpiRankOutputView>>,
    id: u128,
)
    requires
        state.wf(),
    ensures
        state.enqueue(task).wf(),
        state.complete(task, output, mpi_results).wf(),
        state.requeue(task).wf(),
        state.cancel(id).wf(),
{
    lemma_queued_in_order(state.pending, task);
    state.lemma_requeue_wf(task);
    lemma_place_of(state.pending, id);
    if state.is_waiting(id) {
        lemma_remove_in_order(state.pending, place_of(state.pending, id));
    }
}

/// Taking in a message keeps the server in order.
pub proof fn law_messages_keep_order(
    state: ClusterView,
    channel: UnboundedSender<String>,
    message: WorkerMessageView,
    readings: Readings,
)
    requires
        state.wf(),
    ensures
        state.received(channel, message, readings).wf(),
{
    if let WorkerMessageView::TaskError { task_id, .. } = message {
        if state.running.contains_key(task_id) {
            state.lemma_requeue_wf(state.running[task_id]);
        }
    }
}

/// A round through the queue keeps the server in order.
pub proof fn law_rounds_keep_order(
    state: ClusterView,
    pass: PassView,
    weighed: Seq<(u128, Weight)>,
    sent: Sent,
    now: Moment,
)
    requires
        state.wf(),
        pass.wf(state),
    ensures
        pass.phase is Weighing && pass.cursor < state.pending.len() ==> pass.after_weighing(
            state,
            weighed,
            now,
        ).0.wf(),
        pass.sending() ==> pass.after_sending(state, sent, now).0.wf(),
{
    if pass.cursor < state.pending.len() {
        lemma_remove_in_order(state.pending, pass.cursor as int);
    }
}

/// Losing a node, and a round of the monitor, keep the server in order.
pub proof fn law_losses_keep_order(
    state: ClusterView,
    after: ClusterView,
    node_id: u128,
    node_cutoff: Timestamp,
    task_cutoff: Timestamp,
)
    requires
        state.wf(),
        state.loses_node(after, node_id) || state.ends_session(after, node_id)
            || state.loses_silent(after, node_cutoff) || state.swept(
            after,
            node_cutoff,
            task_cutoff,
        ),
    ensures
        after.wf(),
{
    if state.loses_node(after, node_id) {
        lemma_loses_node_wf(state, after, node_id);
    } else if state.ends_session(after, node_id) {
        let closed = (ClusterView { channels: state.channels.remove(node_id), ..state }).set_status(
            node_id,
            NodeStatus::Offline,
        );
        lemma_loses_node_wf(closed, after, node_id);
    } else if state.loses_silent(after, node_cutoff) {
        lemma_silent(state, after, node_cutoff);
    } else {
        let (mid, stuck) = lemma_swept(state, after, node_cutoff, task_cutoff);
        mid.lemma_requeue_jobs_wf(stuck);
    }
}

impl ClusterView {
    /// The task has been requeued `n` times in a row.
    pub open spec fn requeued_times(self, task: TaskView, n: nat) -> ClusterView
        decreases n,
    {
        if n == 0 {
            self
        } else {
            self.requeued_times(task, (n - 1) as nat).requeue(task)
        }
    }
}

/// A submitted task is retried up to `max_retries` times: as long as it has
/// failed no more often than that it has a retry less each time and is not
/// given up.
pub proof fn law_retries_count_down(state: ClusterView, task: TaskView, n: nat)
    requires
        n <= state.max_retries,
    ensures
        ({
            let after = state.enqueue(task).requeued_times(task, n);
            &&& after.retries.contains_key(task.id)
            &&& after.retries_left(task.id) == state.max_retries - n
            &&& after.completed == state.completed
            &&& after.max_retries == state.max_retries
        }),
    decreases n,
{
    if n > 0 {
        law_retries_count_down(state, task, (n - 1) as nat);
    }
}

/// When a task fails once more than it may be retried, it has failed for good:
/// it is remembered as failed, and no retry is left.
pub proof fn law_retries_run_out(state: ClusterView, task: TaskView)
    ensures
        ({
            let after = state.enqueue(task).requeued_times(task, (state.max_retries + 1) as nat);
            &&& after.completed == remembered(
                state.completed,
                TaskStatusResponseView {
                    task: task.with_status(
                        TaskStatusView::Failed { reason: "max retries exceeded"@ },
                    ),
                    result: None,
                    mpi_results: None,
                },
            )
            &&& !after.retries.contains_key(task.id)
            &&& !after.running.contains_key(task.id)
        }),
{
    law_retries_count_down(state, task, state.max_retries as nat);
    assert(((state.max_retries + 1) as nat - 1) as nat == state.max_retries as nat);
}

/// What becomes of one task leaves the retries of every other as they were.
pub proof fn law_retries_are_per_task(
    state: ClusterView,
    task: TaskView,
    output: Option<TaskOutputView>,
    mpi_results: Option<Seq<MpiRankOutputView>>,
    other: u128,
)
    requires
        task.id != other,
    ensures
        state.enqueue(task).retries_left(other) == state.retries_left(other),
        state.requeue(task).retries_left(other) == state.retries_left(other),
        state.complete(task, output, mpi_results).retries_left(other) == state.retries_left(other),
        state.cancel(task.id).retries_left(other) == state.retries_left(other),
{
}

/// A requeued task that may be retried waits as a queued one and runs no more.
pub proof fn law_requeued_task_waits(state: ClusterView, task: TaskView)
    requires
        in_order(state.pending),
        state.retries_left(task.id) > 0,
    ensures
        state.requeue(task).pending.contains(task.with_status(TaskStatusView::Queued)),
        !state.requeue(task).running.contains_key(task.id),
        state.requeue(task).retries_left(task.id) == state.retries_left(task.id) - 1,
{
    let waiting = task.with_status(TaskStatusView::Queued);
    let at = law_queue_is_stable(state.pending, waiting);
    assert(state.requeue(task).pending[at] == waiting);
}

/// The newest finished task is always remembered, and never more than the limit.
pub proof fn law_history_is_bounded(
    history: Seq<TaskStatusResponseView>,
    entry: TaskStatusResponseView,
)
    requires
        history.len() <= HISTORY_LIMIT,
    ensures
        remembered(history, entry).len() <= HISTORY_LIMIT,
        remembered(history, entry).len() > 0,
        remembered(history, entry).last() == entry,
{
}

/// Whether one of the tasks of a list has this identifier.
pub open spec fn has_id(tasks: Seq<TaskView>, id: u128) -> bool {
    exists|i: int| 0 <= i < tasks.len() && #[trigger] tasks[i].id == id
}

/// The tasks of a list run no more when they have been requeued; the others run
/// on, and nodes, channels and jobs are as before.
proof fn lemma_requeue_all(state: ClusterView, tasks: Seq<TaskView>)
    ensures
        ({
            let after = state.requeue_all(tasks);
            &&& after.nodes == state.nodes
            &&& after.channels == state.channels
            &&& after.jobs == state.jobs
            &&& forall|id: u128| #[trigger]
                after.running.contains_key(id) <==> state.running.contains_key(id) && !has_id(
                    tasks,
                    id,
                )
            &&& forall|id: u128| #[trigger]
                after.running.contains_key(id) ==> after.running[id] == state.running[id]
                    && after.since[id] == state.since[id]
            &&& forall|id: u128|
                !has_id(tasks, id) ==> #[trigger] after.retries_left(id) == state.retries_left(id)
        }),
    decreases tasks.len(),
{
    if tasks.len() > 0 {
        let front = tasks.drop_last();
        lemma_requeue_all(state, front);
        let mid = state.requeue_all(front);
        let after = state.requeue_all(tasks);
        assert(after.running == mid.running.remove(tasks.last().id));
        assert(after.since == mid.since.remove(tasks.last().id));
        assert forall|id: u128| #[trigger]
            after.running.contains_key(id) <==> state.running.contains_key(id) && !has_id(
                tasks,
                id,
            ) by {
            lemma_has_id(tasks, id);
            assert(mid.running.contains_key(id) <==> state.running.contains_key(id) && !has_id(
                front,
                id,
            ));
        }
        assert forall|id: u128| #[trigger] after.running.contains_key(id) implies after.running[id]
            == state.running[id] && after.since[id] == state.since[id] by {
            assert(mid.running.contains_key(id));
        }
        assert forall|id: u128| !has_id(tasks, id) implies #[trigger] after.retries_left(id)
            == state.retries_left(id) by {
            lemma_has_id(tasks, id);
            assert(mid.retries_left(id) == state.retries_left(id));
        }
    }
}

/// An identifier occurs in a list if it occurs in the front or is that of the last task.
pub proof fn lemma_has_id(tasks: Seq<TaskView>, id: u128)
    requires
        tasks.len() > 0,
    ensures
        has_id(tasks, id) == (has_id(tasks.drop_last(), id) || tasks.last().id == id),
{
    let front = tasks.drop_last();
    if has_id(tasks, id) {
        let i = choose|i: int| 0 <= i < tasks.len() && #[trigger] tasks[i].id == id;
        if i < front.len() {
            assert(front[i].id == id);
        }
    }
    if has_id(front, id) {
        let i = choose|i: int| 0 <= i < front.len() && #[trigger] front[i].id == id;
        assert(tasks[i].id == id);
    }
    if tasks.last().id == id {
        assert(tasks[tasks.len() - 1].id == id);
    }
}

/// The tasks of a list run no more when they have been requeued, and their jobs
/// are forgotten; everything else is as before.
proof fn lemma_requeue_jobs(state: ClusterView, tasks: Seq<TaskView>)
    ensures
        ({
            let after = state.requeue_jobs(tasks);
            &&& after.nodes == state.nodes
            &&& after.channels == state.channels
            &&& forall|id: u128| #[trigger]
                after.running.contains_key(id) <==> state.running.contains_key(id) && !has_id(
                    tasks,
                    id,
                )
            &&& forall|id: u128| #[trigger]
                after.running.contains_key(id) ==> after.running[id] == state.running[id]
                    && after.since[id] == state.since[id]
            &&& forall|id: u128| #[trigger]
                after.jobs.contains_key(id) <==> state.jobs.contains_key(id) && !has_id(tasks, id)
            &&& forall|id: u128| #[trigger]
                after.jobs.contains_key(id) ==> after.jobs[id] == state.jobs[id]
            &&& forall|id: u128|
                !has_id(tasks, id) ==> #[trigger] after.retries_left(id) == state.retries_left(id)
        }),
    decreases tasks.len(),
{
    if tasks.len() > 0 {
        let front = tasks.drop_last();
        lemma_requeue_jobs(state, front);
        let mid = state.requeue_jobs(front);
        let after = state.requeue_jobs(tasks);
        assert(after.running == mid.running.remove(tasks.last().id));
        assert(after.since == mid.since.remove(tasks.last().id));
        assert(after.jobs == mid.jobs.remove(tasks.last().id));
        assert forall|id: u128| #[trigger]
            after.running.contains_key(id) <==> state.running.contains_key(id) && !has_id(
                tasks,
                id,
            ) by {
            lemma_has_id(tasks, id);
            assert(mid.running.contains_key(id) <==> state.running.contains_key(id) && !has_id(
                front,
                id,
            ));
        }
        assert forall|id: u128| #[trigger] after.running.contains_key(id) implies after.running[id]
            == state.running[id] && after.since[id] == state.since[id] by {
            assert(mid.running.contains_key(id));
        }
        assert forall|id: u128| #[trigger]
            after.jobs.contains_key(id) <==> state.jobs.contains_key(id) && !has_id(tasks, id) by {
            lemma_has_id(tasks, id);
            assert(mid.jobs.contains_key(id) <==> state.jobs.contains_key(id) && !has_id(
                front,
                id,
            ));
        }
        assert forall|id: u128| #[trigger] after.jobs.contains_key(id) implies after.jobs[id]
            == state.jobs[id] by {
            assert(mid.jobs.contains_key(id));
        }
        assert forall|id: u128| !has_id(tasks, id) implies #[trigger] after.retries_left(id)
            == state.retries_left(id) by {
            lemma_has_id(tasks, id);
            assert(mid.retries_left(id) == state.retries_left(id));
        }
    }
}

/// A list of wanted tasks has exactly the identifiers of the wanted tasks.
proof fn lemma_listed(
    list: Seq<TaskView>,
    tasks: Map<u128, TaskView>,
    wanted: spec_fn(TaskView) -> bool,
    id: u128,
)
    requires
        lists(list, tasks, wanted),
        tasks.contains_key(id) ==> tasks[id].id == id,
    ensures
        has_id(list, id) <==> tasks.contains_key(id) && wanted(tasks[id]),
{
    if has_id(list, id) {
        let i = choose|i: int| 0 <= i < list.len() && #[trigger] list[i].id == id;
        assert(tasks[list[i].id] == list[i]);
    }
    if tasks.contains_key(id) && wanted(tasks[id]) {
        assert(list.contains(tasks[id]));
        let i = choose|i: int| 0 <= i < list.len() && list[i] == tasks[id];
        assert(list[i].id == id);
    }
}

/// After a node was lost no task is under way on it any more, and the jobs that
/// had a rank on it are forgotten. Tasks and jobs on other nodes go on
/// untouched, with the retries that they had, and nothing changes in what is
/// known of the nodes. What waited waits on.
pub proof fn law_lost_node_runs_nothing(state: ClusterView, after: ClusterView, node_id: u128)
    requires
        state.wf(),
        state.loses_node(after, node_id),
    ensures
        after.nodes == state.nodes,
        after.channels == state.channels,
        forall|id: u128| #[trigger]
            after.running.contains_key(id) <==> state.running.contains_key(id) && !runs_on(
                state.running[id],
                node_id,
            ) && !has_rank_on(state.running[id], node_id),
        forall|id: u128| #[trigger]
            after.running.contains_key(id) ==> after.running[id] == state.running[id]
                && after.since[id] == state.since[id],
        forall|id: u128| #[trigger]
            after.jobs.contains_key(id) <==> state.jobs.contains_key(id) && !(
            state.running.contains_key(id) && has_rank_on(state.running[id], node_id)),
        forall|id: u128| #[trigger]
            after.jobs.contains_key(id) ==> after.jobs[id] == state.jobs[id],
        forall|id: u128|
            after.running.contains_key(id) || !state.running.contains_key(id)
                ==> #[trigger] after.retries_left(id) == state.retries_left(id),
        forall|task: TaskView|
            state.pending.contains(task) ==> #[trigger] after.pending.contains(task),
{
    let (lost, lost_jobs) = choose|lost: Seq<TaskView>, lost_jobs: Seq<TaskView>|
        {
            &&& lists(lost, state.running, tasks_on(node_id))
            &&& lists(lost_jobs, state.requeue_all(lost).running, jobs_on(node_id))
            &&& after == #[trigger] state.requeue_all(lost).requeue_jobs(lost_jobs)
        };
    let mid = state.requeue_all(lost);
    lemma_requeue_all(state, lost);
    lemma_requeue_jobs(mid, lost_jobs);
    assert forall|id: u128|
        has_id(lost, id) == (state.running.contains_key(id) && runs_on(
            state.running[id],
            node_id,
        )) by {
        lemma_listed(lost, state.running, tasks_on(node_id), id);
    }
    assert forall|id: u128|
        has_id(lost_jobs, id) == (mid.running.contains_key(id) && has_rank_on(
            mid.running[id],
            node_id,
        )) by {
        if mid.running.contains_key(id) {
            assert(mid.running[id] == state.running[id]);
        }
        lemma_listed(lost_jobs, mid.running, jobs_on(node_id), id);
    }
    assert forall|id: u128|
        after.running.contains_key(id) || !state.running.contains_key(
            id,
        ) implies #[trigger] after.retries_left(id) == state.retries_left(id) by {
        assert(mid.retries_left(id) == state.retries_left(id));
    }
    lemma_requeue_all_waits(state, lost);
    state.lemma_requeue_all_wf(lost);
    lemma_requeue_jobs_waits(mid, lost_jobs);
    assert forall|task: TaskView| state.pending.contains(
        task,
    ) implies #[trigger] after.pending.contains(task) by {
        assert(mid.pending.contains(task));
    }
}

/// Requeueing tasks keeps every waiting task in the queue.
proof fn lemma_still_waiting(state: ClusterView, task: TaskView, waiting: TaskView)
    requires
        state.wf(),
        state.pending.contains(waiting),
    ensures
        state.requeue(task).pending.contains(waiting),
{
    if state.retries_left(task.id) > 0 {
        let new = task.with_status(TaskStatusView::Queued);
        let at = law_queue_is_stable(state.pending, new);
        let k = choose|k: int| 0 <= k < state.pending.len() && state.pending[k] == waiting;
        let longer = state.requeue(task).pending;
        if k < at {
            assert(longer[k] == waiting);
        } else {
            assert(longer[k + 1] == waiting);
        }
    }
}

/// Each task of a list with distinct identifiers that may be retried waits
/// after the list was requeued, with one retry less; what waited before waits on.
proof fn lemma_requeue_all_waits(state: ClusterView, tasks: Seq<TaskView>)
    requires
        state.wf(),
        forall|i: int, j: int|
            #![trigger tasks[i], tasks[j]]
            0 <= i < j < tasks.len() ==> tasks[i].id != tasks[j].id,
    ensures
        forall|t: TaskView|
            state.pending.contains(t) ==> #[trigger] state.requeue_all(tasks).pending.contains(t),
        forall|i: int|
            #![trigger tasks[i]]
            0 <= i < tasks.len() && state.retries_left(tasks[i].id) > 0 ==> state.requeue_all(
                tasks,
            ).pending.contains(tasks[i].with_status(TaskStatusView::Queued)) && state.requeue_all(
                tasks,
            ).retries_left(tasks[i].id) == state.retries_left(tasks[i].id) - 1,
    decreases tasks.len(),
{
    if tasks.len() > 0 {
        let front = tasks.drop_last();
        assert forall|i: int, j: int|
            #![trigger front[i], front[j]]
            0 <= i < j < front.len() implies front[i].id != front[j].id by {
            assert(tasks[i].id != tasks[j].id);
        }
        lemma_requeue_all_waits(state, front);
        lemma_requeue_all(state, front);
        state.lemma_requeue_all_wf(front);
        let mid = state.requeue_all(front);
        let after = state.requeue_all(tasks);
        assert forall|t: TaskView| state.pending.contains(t) implies #[trigger] after.pending.contains(
            t,
        ) by {
            assert(mid.pending.contains(t));
            lemma_still_waiting(mid, tasks.last(), t);
        }
        assert forall|i: int|
            #![trigger tasks[i]]
            0 <= i < tasks.len() && state.retries_left(tasks[i].id)
                > 0 implies after.pending.contains(tasks[i].with_status(TaskStatusView::Queued))
            && after.retries_left(tasks[i].id) == state.retries_left(tasks[i].id) - 1 by {
            if i < front.len() {
                assert(front[i] == tasks[i]);
                assert(tasks[i].id != tasks[tasks.len() - 1].id);
                lemma_still_waiting(
                    mid,
                    tasks.last(),
                    tasks[i].with_status(TaskStatusView::Queued),
                );
            } else {
                assert(!has_id(front, tasks[i].id)) by {
                    if has_id(front, tasks[i].id) {
                        let k = choose|k: int|
                            0 <= k < front.len() && #[trigger] front[k].id == tasks[i].id;
                        assert(tasks[k].id != tasks[tasks.len() - 1].id);
                    }
                }
                law_requeued_task_waits(mid, tasks[i]);
            }
        }
    }
}

/// The same for MPI tasks.
proof fn lemma_requeue_jobs_waits(state: ClusterView, tasks: Seq<TaskView>)
    requires
        state.wf(),
        forall|i: int, j: int|
            #![trigger tasks[i], tasks[j]]
            0 <= i < j < tasks.len() ==> tasks[i].id != tasks[j].id,
    ensures
        forall|t: TaskView|
            state.pending.contains(t) ==> #[trigger] state.requeue_jobs(tasks).pending.contains(t),
        forall|i: int|
            #![trigger tasks[i]]
            0 <= i < tasks.len() && state.retries_left(tasks[i].id) > 0 ==> state.requeue_jobs(
                tasks,
            ).pending.contains(tasks[i].with_status(TaskStatusView::Queued)) && state.requeue_jobs(
                tasks,
            ).retries_left(tasks[i].id) == state.retries_left(tasks[i].id) - 1,
    decreases tasks.len(),
{
    if tasks.len() > 0 {
        let front = tasks.drop_last();
        assert forall|i: int, j: int|
            #![trigger front[i], front[j]]
            0 <= i < j < front.len() implies front[i].id != front[j].id by {
            assert(tasks[i].id != tasks[j].id);
        }
        lemma_requeue_jobs_waits(state, front);
        lemma_requeue_jobs(state, front);
        state.lemma_requeue_jobs_wf(front);
        let mid = state.requeue_jobs(front).forget_job(tasks.last().id);
        let after = state.requeue_jobs(tasks);
        assert forall|id: u128| #[trigger] mid.retries_left(id) == state.requeue_jobs(
            front,
        ).retries_left(id) by {}
        assert forall|t: TaskView| state.pending.contains(t) implies #[trigger] after.pending.contains(
            t,
        ) by {
            assert(state.requeue_jobs(front).pending.contains(t));
            lemma_still_waiting(mid, tasks.last(), t);
        }
        assert forall|i: int|
            #![trigger tasks[i]]
            0 <= i < tasks.len() && state.retries_left(tasks[i].id)
                > 0 implies after.pending.contains(tasks[i].with_status(TaskStatusView::Queued))
            && after.retries_left(tasks[i].id) == state.retries_left(tasks[i].id) - 1 by {
            if i < front.len() {
                assert(front[i] == tasks[i]);
                assert(tasks[i].id != tasks[tasks.len() - 1].id);
                lemma_still_waiting(
                    mid,
                    tasks.last(),
                    tasks[i].with_status(TaskStatusView::Queued),
                );
            } else {
                assert(!has_id(front, tasks[i].id)) by {
                    if has_id(front, tasks[i].id) {
                        let k = choose|k: int|
                            0 <= k < front.len() && #[trigger] front[k].id == tasks[i].id;
                        assert(tasks[k].id != tasks[tasks.len() - 1].id);
                    }
                }
                law_requeued_task_waits(mid, tasks[i]);
            }
        }
    }
}

/// A task that was under way on a lost node, alone or with one of its ranks,
/// waits again with one retry less, if it may be retried.
pub proof fn law_lost_task_waits(
    state: ClusterView,
    after: ClusterView,
    node_id: u128,
    task_id: u128,
)
    requires
        state.wf(),
        state.loses_node(after, node_id),
        state.running.contains_key(task_id),
        runs_on(state.running[task_id], node_id) || has_rank_on(state.running[task_id], node_id),
        state.retries_left(task_id) > 0,
    ensures
        after.pending.contains(state.running[task_id].with_status(TaskStatusView::Queued)),
        after.retries_left(task_id) == state.retries_left(task_id) - 1,
{
    let (lost, lost_jobs) = choose|lost: Seq<TaskView>, lost_jobs: Seq<TaskView>|
        {
            &&& lists(lost, state.running, tasks_on(node_id))
            &&& lists(lost_jobs, state.requeue_all(lost).running, jobs_on(node_id))
            &&& after == #[trigger] state.requeue_all(lost).requeue_jobs(lost_jobs)
        };
    let mid = state.requeue_all(lost);
    let task = state.running[task_id];
    lemma_requeue_all(state, lost);
    lemma_requeue_all_waits(state, lost);
    state.lemma_requeue_all_wf(lost);
    lemma_requeue_jobs(mid, lost_jobs);
    lemma_requeue_jobs_waits(mid, lost_jobs);
    lemma_listed(lost, state.running, tasks_on(node_id), task_id);
    lemma_listed(lost_jobs, mid.running, jobs_on(node_id), task_id);
    if runs_on(task, node_id) {
        let i = choose|i: int| 0 <= i < lost.len() && #[trigger] lost[i].id == task_id;
        assert(lost[i] == task);
        assert(mid.pending.contains(task.with_status(TaskStatusView::Queued)));
    } else {
        assert(mid.running.contains_key(task_id) && mid.running[task_id] == task);
        let i = choose|i: int| 0 <= i < lost_jobs.len() && #[trigger] lost_jobs[i].id == task_id;
        assert(lost_jobs[i] == task);
    }
}

/// Losing a node keeps the server in order.
proof fn lemma_loses_node_wf(state: ClusterView, after: ClusterView, node_id: u128)
    requires
        state.wf(),
        state.loses_node(after, node_id),
    ensures
        after.wf(),
{
    let (lost, lost_jobs) = choose|lost: Seq<TaskView>, lost_jobs: Seq<TaskView>|
        {
            &&& lists(lost, state.running, tasks_on(node_id))
            &&& lists(lost_jobs, state.requeue_all(lost).running, jobs_on(node_id))
            &&& after == #[trigger] state.requeue_all(lost).requeue_jobs(lost_jobs)
        };
    state.lemma_requeue_all_wf(lost);
    state.requeue_all(lost).lemma_requeue_jobs_wf(lost_jobs);
}

/// Whether nothing is under way on a node.
pub open spec fn runs_nothing(state: ClusterView, node_id: u128) -> bool {
    forall|id: u128| #[trigger]
        state.running.contains_key(id) ==> !runs_on(state.running[id], node_id) && !has_rank_on(
            state.running[id],
            node_id,
        )
}

/// Whether a task of the state before is in the state after still under way as
/// it was.
spec fn goes_on(state: ClusterView, after: ClusterView, id: u128) -> bool {
    &&& after.running.contains_key(id)
    &&& after.running[id] == state.running[id]
    &&& after.since[id] == state.since[id]
    &&& after.retries_left(id) == state.retries_left(id)
}

/// Whether a task of the state before that stood on some node runs no more in the
/// state after, its job is forgotten where it was sent as one, and it waits with
/// one retry less where it had one.
spec fn was_requeued(state: ClusterView, after: ClusterView, id: u128) -> bool {
    &&& !after.running.contains_key(id)
    &&& !(state.running[id].status is MpiRunning)
    &&& state.running[id].status is MpiDispatched ==> !after.jobs.contains_key(id)
    &&& state.retries_left(id) > 0 ==> after.pending.contains(
        state.running[id].with_status(TaskStatusView::Queued),
    ) && after.retries_left(id) == state.retries_left(id) - 1
}

/// Whether a task is under way on no node that has been silent since the given time.
pub open spec fn on_no_silent_node(state: ClusterView, task: TaskView, cutoff: Timestamp) -> bool {
    forall|id: u128| #[trigger]
        state.nodes.contains_key(id) && silent_since(state.nodes[id], cutoff) ==> !runs_on(task, id)
            && !has_rank_on(task, id)
}

/// Whether a task is under way on no node of a list.
spec fn spared(task: TaskView, list: Seq<u128>) -> bool {
    forall|i: int|
        0 <= i < list.len() ==> !runs_on(task, #[trigger] list[i]) && !has_rank_on(task, list[i])
}

/// After the first `k` nodes of a list were lost, these are offline and run
/// nothing, and what is known of the others is as it was. Every task that was
/// under way goes on or was requeued; one that is on no node of the list goes on.
proof fn lemma_loss_trace(
    state: ClusterView,
    trace: Seq<ClusterView>,
    after: ClusterView,
    list: Seq<u128>,
    k: int,
)
    requires
        state.wf(),
        state.loss_trace(trace, after, list),
        0 <= k <= list.len(),
        forall|i: int| 0 <= i < list.len() ==> state.nodes.contains_key(#[trigger] list[i]),
    ensures
        trace[k].wf(),
        trace[k].nodes.dom() == state.nodes.dom(),
        trace[k].channels == state.channels,
        forall|t: TaskView|
            state.pending.contains(t) ==> #[trigger] trace[k].pending.contains(t),
        forall|i: int|
            0 <= i < k ==> trace[k].nodes[#[trigger] list[i]].status == NodeStatus::Offline
                && runs_nothing(trace[k], list[i]),
        forall|id: u128|
            !list.contains(id) ==> #[trigger] trace[k].nodes[id] == state.nodes[id],
        forall|id: u128| #[trigger]
            trace[k].running.contains_key(id) ==> state.running.contains_key(id),
        forall|id: u128| #[trigger]
            state.running.contains_key(id) ==> goes_on(state, trace[k], id) || was_requeued(
                state,
                trace[k],
                id,
            ),
        forall|id: u128| #[trigger]
            state.running.contains_key(id) && spared(state.running[id], list) ==> goes_on(
                state,
                trace[k],
                id,
            ),
    decreases k,
{
    if k > 0 {
        lemma_loss_trace(state, trace, after, list, k - 1);
        let node_id = list[k - 1];
        let before = trace[k - 1];
        let mid = before.set_status(node_id, NodeStatus::Offline);
        assert(mid.wf());
        assert(mid.loses_node(trace[k], node_id));
        assert forall|t: TaskView| state.pending.contains(t) implies #[trigger] trace[
            k
        ].pending.contains(t) by {
            assert(before.pending.contains(t));
            law_lost_node_runs_nothing(mid, trace[k], node_id);
            assert(mid.pending.contains(t));
        }
        law_lost_node_runs_nothing(mid, trace[k], node_id);
        lemma_loses_node_wf(mid, trace[k], node_id);
        assert(mid.nodes.dom() =~= state.nodes.dom());
        assert forall|i: int| 0 <= i < k implies trace[k].nodes[#[trigger] list[i]].status
            == NodeStatus::Offline && runs_nothing(trace[k], list[i]) by {
            assert(runs_nothing(trace[k], list[i])) by {
                assert forall|id: u128| #[trigger] trace[k].running.contains_key(id) implies !runs_on(
                    trace[k].running[id],
                    list[i],
                ) && !has_rank_on(trace[k].running[id], list[i]) by {
                    assert(mid.running.contains_key(id));
                    if i < k - 1 {
                        assert(before.running.contains_key(id));
                    }
                }
            }
            if i < k - 1 {
                assert(before.nodes[list[i]].status == NodeStatus::Offline);
            }
        }
        assert forall|id: u128| #[trigger] trace[k].running.contains_key(
            id,
        ) implies state.running.contains_key(id) by {
            assert(before.running.contains_key(id));
        }
        assert forall|id: u128| #[trigger] state.running.contains_key(id) implies goes_on(
            state,
            trace[k],
            id,
        ) || was_requeued(state, trace[k], id) by {
            assert(mid.retries_left(id) == before.retries_left(id));
            assert(trace[k].running.contains_key(id) <==> mid.running.contains_key(id) && !runs_on(
                mid.running[id],
                node_id,
            ) && !has_rank_on(mid.running[id], node_id));
            if before.running.contains_key(id) && !trace[k].running.contains_key(id)
                && state.retries_left(id) > 0 {
                law_lost_task_waits(mid, trace[k], node_id, id);
            }
        }
        assert forall|id: u128| #[trigger]
            state.running.contains_key(id) && spared(state.running[id], list) implies goes_on(
            state,
            trace[k],
            id,
        ) by {
            assert(goes_on(state, before, id));
            assert(mid.retries_left(id) == before.retries_left(id));
            assert(!runs_on(state.running[id], list[k - 1]));
            assert(trace[k].running.contains_key(id));
        }
        assert forall|id: u128| !list.contains(id) implies #[trigger] trace[k].nodes[id]
            == state.nodes[id] by {
            assert(list.contains(list[k - 1]));
            assert(before.nodes[id] == state.nodes[id]);
        }
    }
}

/// After the silent nodes were lost, these are offline and run nothing, and what
/// is known of the others is as it was. Every task that was under way goes on or
/// was requeued; one that is on no silent node goes on.
proof fn lemma_silent(state: ClusterView, after: ClusterView, cutoff: Timestamp)
    requires
        state.wf(),
        state.loses_silent(after, cutoff),
    ensures
        after.wf(),
        after.channels == state.channels,
        forall|t: TaskView|
            state.pending.contains(t) ==> #[trigger] after.pending.contains(t),
        after.nodes.dom() == state.nodes.dom(),
        forall|id: u128| #[trigger]
            state.nodes.contains_key(id) && silent_since(state.nodes[id], cutoff)
                ==> after.nodes[id].status == NodeStatus::Offline && runs_nothing(after, id),
        forall|id: u128| #[trigger]
            state.nodes.contains_key(id) && !silent_since(state.nodes[id], cutoff)
                ==> after.nodes[id] == state.nodes[id],
        forall|id: u128| #[trigger]
            after.running.contains_key(id) ==> state.running.contains_key(id),
        forall|id: u128| #[trigger]
            state.running.contains_key(id) ==> goes_on(state, after, id) || was_requeued(
                state,
                after,
                id,
            ),
        forall|id: u128| #[trigger]
            state.running.contains_key(id) && on_no_silent_node(state, state.running[id], cutoff)
                ==> goes_on(state, after, id),
{
    let silent = choose|silent: Seq<u128>|
        {
            &&& lists_silent(silent, state.nodes, cutoff)
            &&& #[trigger] state.loses_nodes(after, silent)
        };
    let trace = choose|trace: Seq<ClusterView>| #[trigger] state.loss_trace(trace, after, silent);
    assert forall|i: int| 0 <= i < silent.len() implies state.nodes.contains_key(
        #[trigger] silent[i],
    ) by {
        assert(silent.contains(silent[i]));
    }
    lemma_loss_trace(state, trace, after, silent, silent.len() as int);
    assert forall|id: u128| #[trigger]
        state.nodes.contains_key(id) && silent_since(
            state.nodes[id],
            cutoff,
        ) implies after.nodes[id].status == NodeStatus::Offline && runs_nothing(after, id) by {
        assert(silent.contains(id));
        let i = choose|i: int| 0 <= i < silent.len() && silent[i] == id;
        assert(after.nodes[silent[i]].status == NodeStatus::Offline);
    }
    assert forall|id: u128| #[trigger]
        state.nodes.contains_key(id) && !silent_since(
            state.nodes[id],
            cutoff,
        ) implies after.nodes[id] == state.nodes[id] by {
        assert(!silent.contains(id));
    }
    assert forall|id: u128| #[trigger]
        state.running.contains_key(id) && on_no_silent_node(
            state,
            state.running[id],
            cutoff,
        ) implies goes_on(state, after, id) by {
        assert forall|i: int| 0 <= i < silent.len() implies !runs_on(
            state.running[id],
            #[trigger] silent[i],
        ) && !has_rank_on(state.running[id], silent[i]) by {
            assert(silent.contains(silent[i]));
            assert(state.nodes.contains_key(silent[i]));
        }
        assert(spared(state.running[id], silent));
    }
}

/// A round of the monitor: the state after the silent nodes were lost, and the
/// list of the tasks that are then requeued.
proof fn lemma_swept(
    state: ClusterView,
    after: ClusterView,
    node_cutoff: Timestamp,
    task_cutoff: Timestamp,
) -> (halfway: (ClusterView, Seq<TaskView>))
    requires
        state.wf(),
        state.swept(after, node_cutoff, task_cutoff),
    ensures
        state.loses_silent(halfway.0, node_cutoff),
        halfway.0.wf(),
        lists(halfway.1, halfway.0.running, stuck_tasks(halfway.0.since, task_cutoff)),
        after == halfway.0.requeue_jobs(halfway.1),
{
    let mid = choose|mid: ClusterView|
        {
            &&& #[trigger] state.loses_silent(mid, node_cutoff)
            &&& mid.requeues_stuck(after, task_cutoff)
        };
    let stuck = choose|stuck: Seq<TaskView>|
        {
            &&& lists(stuck, mid.running, stuck_tasks(mid.since, task_cutoff))
            &&& after == #[trigger] mid.requeue_jobs(stuck)
        };
    lemma_silent(state, mid, node_cutoff);
    (mid, stuck)
}

/// After a round of the monitor, or its first half, a node that was silent for
/// too long is offline, and nothing is under way on it.
pub proof fn law_silent_node_is_lost(
    state: ClusterView,
    after: ClusterView,
    node_cutoff: Timestamp,
    task_cutoff: Timestamp,
    node_id: u128,
)
    requires
        state.wf(),
        state.loses_silent(after, node_cutoff) || state.swept(after, node_cutoff, task_cutoff),
        state.nodes.contains_key(node_id),
        silent_since(state.nodes[node_id], node_cutoff),
    ensures
        after.nodes.contains_key(node_id),
        after.nodes[node_id].status == NodeStatus::Offline,
        runs_nothing(after, node_id),
{
    if state.loses_silent(after, node_cutoff) {
        lemma_silent(state, after, node_cutoff);
        assert(after.nodes.dom().contains(node_id) == state.nodes.dom().contains(node_id));
    } else {
        let (mid, stuck) = lemma_swept(state, after, node_cutoff, task_cutoff);
        lemma_silent(state, mid, node_cutoff);
        lemma_requeue_jobs(mid, stuck);
        assert(mid.nodes.dom().contains(node_id) == state.nodes.dom().contains(node_id));
        assert(runs_nothing(mid, node_id));
        assert forall|id: u128| #[trigger] after.running.contains_key(id) implies !runs_on(
            after.running[id],
            node_id,
        ) && !has_rank_on(after.running[id], node_id) by {
            assert(mid.running.contains_key(id));
        }
    }
}

/// After a round of the monitor no task has been under way since before the
/// cutoff, whether it is known to run or was only sent to its nodes.
pub proof fn law_no_task_stays_stuck(
    state: ClusterView,
    after: ClusterView,
    node_cutoff: Timestamp,
    task_cutoff: Timestamp,
    task_id: u128,
)
    requires
        state.wf(),
        state.swept(after, node_cutoff, task_cutoff),
        after.running.contains_key(task_id),
    ensures
        !stuck_since(after.running[task_id], after.since[task_id], task_cutoff),
{
    let (mid, stuck) = lemma_swept(state, after, node_cutoff, task_cutoff);
    lemma_requeue_jobs(mid, stuck);
    lemma_listed(stuck, mid.running, stuck_tasks(mid.since, task_cutoff), task_id);
}

/// A task that has been under way since before the cutoff waits again after a
/// round of the monitor, with one retry less, if it may be retried. It runs no
/// more in any case, and where it is an MPI task its job is forgotten.
pub proof fn law_blocked_task_is_requeued(
    state: ClusterView,
    after: ClusterView,
    node_cutoff: Timestamp,
    task_cutoff: Timestamp,
    task_id: u128,
)
    requires
        state.wf(),
        state.swept(after, node_cutoff, task_cutoff),
        state.running.contains_key(task_id),
        stuck_since(state.running[task_id], state.since[task_id], task_cutoff),
    ensures
        !after.running.contains_key(task_id),
        state.running[task_id].status is MpiDispatched || state.running[task_id].status is MpiRunning
            ==> !after.jobs.contains_key(task_id),
        state.retries_left(task_id) > 0 ==> after.pending.contains(
            state.running[task_id].with_status(TaskStatusView::Queued),
        ) && after.retries_left(task_id) == state.retries_left(task_id) - 1,
{
    let (mid, stuck) = lemma_swept(state, after, node_cutoff, task_cutoff);
    lemma_silent(state, mid, node_cutoff);
    lemma_requeue_jobs(mid, stuck);
    lemma_requeue_jobs_waits(mid, stuck);
    lemma_listed(stuck, mid.running, stuck_tasks(mid.since, task_cutoff), task_id);
    let waiting = state.running[task_id].with_status(TaskStatusView::Queued);
    if goes_on(state, mid, task_id) {
        let i = choose|i: int| 0 <= i < stuck.len() && #[trigger] stuck[i].id == task_id;
        assert(stuck[i] == state.running[task_id]);
    } else if state.retries_left(task_id) > 0 {
        assert(mid.pending.contains(waiting));
        assert(after.retries_left(task_id) == mid.retries_left(task_id));
    }
}

/// A round of the monitor changes nothing where no node has been silent and no
/// task has been under way for too long.
pub proof fn law_nothing_to_sweep(
    state: ClusterView,
    after: ClusterView,
    node_cutoff: Timestamp,
    task_cutoff: Timestamp,
)
    requires
        state.swept(after, node_cutoff, task_cutoff),
        forall|id: u128| #[trigger]
            state.nodes.contains_key(id) ==> !silent_since(state.nodes[id], node_cutoff),
        forall|id: u128| #[trigger]
            state.running.contains_key(id) ==> !stuck_since(
                state.running[id],
                state.since[id],
                task_cutoff,
            ),
    ensures
        after == state,
{
    let mid = choose|mid: ClusterView|
        {
            &&& #[trigger] state.loses_silent(mid, node_cutoff)
            &&& mid.requeues_stuck(after, task_cutoff)
        };
    let silent = choose|silent: Seq<u128>|
        {
            &&& lists_silent(silent, state.nodes, node_cutoff)
            &&& #[trigger] state.loses_nodes(mid, silent)
        };
    let trace = choose|trace: Seq<ClusterView>| #[trigger] state.loss_trace(trace, mid, silent);
    if silent.len() > 0 {
        assert(silent.contains(silent[0]));
        assert(state.nodes.contains_key(silent[0]));
    }
    let stuck = choose|stuck: Seq<TaskView>|
        {
            &&& lists(stuck, mid.running, stuck_tasks(mid.since, task_cutoff))
            &&& after == #[trigger] mid.requeue_jobs(stuck)
        };
    if stuck.len() > 0 {
        let task = stuck[0];
        assert(mid.running.contains_key(task.id));
        assert(!stuck_since(state.running[task.id], state.since[task.id], task_cutoff));
    }
}

/// A node that was last heard of longer than the node timeout ago is offline
/// after a round of the monitor, and nothing is under way on it unless it was
/// offline before.
pub proof fn law_dead_node_is_detected(
    state: ClusterView,
    after: ClusterView,
    node_time: Timestamp,
    task_time: Timestamp,
    done: bool,
    node_id: u128,
)
    requires
        state.wf(),
        state.ticked(after, node_time, task_time, done),
        node_time.reaches_back(state.node_timeout_secs),
        state.nodes.contains_key(node_id),
        state.nodes[node_id].last_seen.precedes(node_time.minus_seconds(state.node_timeout_secs)),
    ensures
        after.nodes.contains_key(node_id),
        after.nodes[node_id].status == NodeStatus::Offline,
        state.nodes[node_id].status != NodeStatus::Offline ==> runs_nothing(after, node_id),
{
    let node_cutoff = node_time.minus_seconds(state.node_timeout_secs);
    let task_cutoff = task_time.minus_seconds(state.task_timeout_secs);
    if silent_since(state.nodes[node_id], node_cutoff) {
        law_silent_node_is_lost(state, after, node_cutoff, task_cutoff, node_id);
    } else {
        lemma_heard_node(state, after, node_cutoff, task_cutoff, node_id);
    }
}

/// A round of the monitor leaves every waiting task in the queue and every channel
/// open.
pub proof fn law_monitor_keeps_waiting_tasks(
    state: ClusterView,
    after: ClusterView,
    node_time: Timestamp,
    task_time: Timestamp,
    done: bool,
    task: TaskView,
)
    requires
        state.wf(),
        state.ticked(after, node_time, task_time, done),
        state.pending.contains(task),
    ensures
        after.pending.contains(task),
        after.channels == state.channels,
{
    let node_cutoff = node_time.minus_seconds(state.node_timeout_secs);
    let task_cutoff = task_time.minus_seconds(state.task_timeout_secs);
    if node_time.reaches_back(state.node_timeout_secs) {
        if task_time.reaches_back(state.task_timeout_secs) {
            let (mid, stuck) = lemma_swept(state, after, node_cutoff, task_cutoff);
            lemma_silent(state, mid, node_cutoff);
            lemma_requeue_jobs(mid, stuck);
            lemma_requeue_jobs_waits(mid, stuck);
            assert(mid.pending.contains(task));
        } else {
            lemma_silent(state, after, node_cutoff);
        }
    }
}

/// A node that is not silent is known after a round of the monitor as before.
proof fn lemma_heard_node(
    state: ClusterView,
    after: ClusterView,
    node_cutoff: Timestamp,
    task_cutoff: Timestamp,
    node_id: u128,
)
    requires
        state.wf(),
        state.loses_silent(after, node_cutoff) || state.swept(after, node_cutoff, task_cutoff),
        state.nodes.contains_key(node_id),
        !silent_since(state.nodes[node_id], node_cutoff),
    ensures
        after.nodes.contains_key(node_id),
        after.nodes[node_id] == state.nodes[node_id],
{
    if state.loses_silent(after, node_cutoff) {
        lemma_silent(state, after, node_cutoff);
        assert(after.nodes.dom().contains(node_id) == state.nodes.dom().contains(node_id));
    } else {
        let (mid, stuck) = lemma_swept(state, after, node_cutoff, task_cutoff);
        lemma_silent(state, mid, node_cutoff);
        lemma_requeue_jobs(mid, stuck);
        assert(mid.nodes.dom().contains(node_id) == state.nodes.dom().contains(node_id));
    }
}

/// A node that was heard of within the node timeout is known after a round of the
/// monitor as before.
pub proof fn law_live_node_is_kept(
    state: ClusterView,
    after: ClusterView,
    node_time: Timestamp,
    task_time: Timestamp,
    done: bool,
    node_id: u128,
)
    requires
        state.wf(),
        state.ticked(after, node_time, task_time, done),
        state.nodes.contains_key(node_id),
        !state.nodes[node_id].last_seen.precedes(node_time.minus_seconds(state.node_timeout_secs)),
    ensures
        after.nodes.contains_key(node_id),
        after.nodes[node_id] == state.nodes[node_id],
{
    if node_time.reaches_back(state.node_timeout_secs) {
        lemma_heard_node(
            state,
            after,
            node_time.minus_seconds(state.node_timeout_secs),
            task_time.minus_seconds(state.task_timeout_secs),
            node_id,
        );
    }
}

/// A task that has been under way for longer than the task timeout runs no more
/// after a round of the monitor that was carried out; it waits again with one
/// retry less, if it may be retried, and where it is an MPI task its job is
/// forgotten.
pub proof fn law_blocked_task_waits_again(
    state: ClusterView,
    after: ClusterView,
    node_time: Timestamp,
    task_time: Timestamp,
    task_id: u128,
)
    requires
        state.wf(),
        state.ticked(after, node_time, task_time, true),
        state.running.contains_key(task_id),
        stuck_since(
            state.running[task_id],
            state.since[task_id],
            task_time.minus_seconds(state.task_timeout_secs),
        ),
    ensures
        !after.running.contains_key(task_id),
        state.running[task_id].status is MpiDispatched || state.running[task_id].status is MpiRunning
            ==> !after.jobs.contains_key(task_id),
        state.retries_left(task_id) > 0 ==> after.pending.contains(
            state.running[task_id].with_status(TaskStatusView::Queued),
        ) && after.retries_left(task_id) == state.retries_left(task_id) - 1,
{
    law_blocked_task_is_requeued(
        state,
        after,
        node_time.minus_seconds(state.node_timeout_secs),
        task_time.minus_seconds(state.task_timeout_secs),
        task_id,
    );
}

/// A task that has been under way for no longer than the task timeout, and on no
/// node that has been silent for longer than the node timeout, goes on through a
/// round of the monitor as it was.
pub proof fn law_timely_task_goes_on(
    state: ClusterView,
    after: ClusterView,
    node_time: Timestamp,
    task_time: Timestamp,
    done: bool,
    task_id: u128,
)
    requires
        state.wf(),
        state.ticked(after, node_time, task_time, done),
        state.running.contains_key(task_id),
        !stuck_since(
            state.running[task_id],
            state.since[task_id],
            task_time.minus_seconds(state.task_timeout_secs),
        ),
        on_no_silent_node(
            state,
            state.running[task_id],
            node_time.minus_seconds(state.node_timeout_secs),
        ),
    ensures
        after.running.contains_key(task_id),
        after.running[task_id] == state.running[task_id],
        after.since[task_id] == state.since[task_id],
        after.retries_left(task_id) == state.retries_left(task_id),
{
    let node_cutoff = node_time.minus_seconds(state.node_timeout_secs);
    let task_cutoff = task_time.minus_seconds(state.task_timeout_secs);
    if done {
        let (mid, stuck) = lemma_swept(state, after, node_cutoff, task_cutoff);
        lemma_silent(state, mid, node_cutoff);
        assert(goes_on(state, mid, task_id));
        lemma_requeue_jobs(mid, stuck);
        lemma_listed(stuck, mid.running, stuck_tasks(mid.since, task_cutoff), task_id);
        assert(!has_id(stuck, task_id));
        assert(after.running.contains_key(task_id));
    } else if node_time.reaches_back(state.node_timeout_secs) {
        lemma_silent(state, after, node_cutoff);
        assert(goes_on(state, after, task_id));
    }
}

/// A task that was just submitted is found waiting.
pub proof fn law_submitted_task_is_found(state: ClusterView, task: TaskView)
    requires
        state.wf(),
        !state.is_waiting(task.id),
    ensures
        state.enqueue(task).lookup(task.id) == Some(
            TaskStatusResponseView { task, result: None, mpi_results: None },
        ),
{
    let at = law_queue_is_stable(state.pending, task);
    let longer = state.enqueue(task).pending;
    lemma_place_of(state.pending, task.id);
    assert forall|i: int| 0 <= i < at implies #[trigger] longer[i].id != task.id by {
        assert(longer[i] == state.pending[i]);
    }
    lemma_place_at(longer, task.id, at);
}

/// A waiting task that is cancelled leaves the queue as it was before the task
/// was submitted.
pub proof fn law_cancel_undoes_submit(state: ClusterView, task: TaskView)
    requires
        state.wf(),
        !state.is_waiting(task.id),
    ensures
        state.enqueue(task).is_waiting(task.id),
        state.enqueue(task).cancel(task.id) == (ClusterView {
            retries: state.retries.insert(task.id, state.max_retries),
            ..state
        }),
        !state.enqueue(task).cancel(task.id).is_waiting(task.id),
{
    let at = law_queue_is_stable(state.pending, task);
    let longer = state.enqueue(task).pending;
    lemma_place_of(state.pending, task.id);
    assert forall|i: int| 0 <= i < at implies #[trigger] longer[i].id != task.id by {
        assert(longer[i] == state.pending[i]);
    }
    lemma_place_at(longer, task.id, at);
    assert(longer.remove(at) =~= state.pending);
}

/// A task that has just been finished is found with its outcome, as long as
/// none with the same identifier waits or was finished before.
pub proof fn law_finished_task_is_found(
    state: ClusterView,
    task: TaskView,
    output: Option<TaskOutputView>,
    mpi_results: Option<Seq<MpiRankOutputView>>,
)
    requires
        state.wf(),
        !state.is_waiting(task.id),
        forall|i: int|
            0 <= i < state.completed.len() ==> #[trigger] state.completed[i].task.id != task.id,
    ensures
        state.complete(task, output, mpi_results).lookup(task.id) == Some(
            TaskStatusResponseView { task, result: output, mpi_results },
        ),
{
    let after = state.complete(task, output, mpi_results);
    let done = tasks_of(after.completed);
    let last = after.completed.len() - 1;
    assert(after.completed[last] == (TaskStatusResponseView { task, result: output, mpi_results }));
    assert forall|i: int| 0 <= i < last implies #[trigger] done[i].id != task.id by {
        let longer = state.completed.push(after.completed[last]);
        if longer.len() > HISTORY_LIMIT {
            assert(done[i] == state.completed[i + HISTORY_CUT].task);
        } else {
            assert(done[i] == state.completed[i].task);
        }
    }
    lemma_place_at(done, task.id, last);
}

/// The result that a worker reports for a running task is what is found for it
/// afterwards, and the task runs no more.
pub proof fn law_reported_result_is_found(
    state: ClusterView,
    channel: UnboundedSender<String>,
    task_id: u128,
    node_id: u128,
    duration_ms: u64,
    output: TaskOutputView,
    readings: Readings,
)
    requires
        state.wf(),
        state.running.contains_key(task_id),
        !state.is_waiting(task_id),
        forall|i: int|
            0 <= i < state.completed.len() ==> #[trigger] state.completed[i].task.id != task_id,
    ensures
        ({
            let after = state.received(
                channel,
                WorkerMessageView::TaskResult { task_id, node_id, duration_ms, output },
                readings,
            );
            &&& !after.running.contains_key(task_id)
            &&& after.lookup(task_id) == Some(
                TaskStatusResponseView {
                    task: state.running[task_id].with_status(
                        TaskStatusView::Completed { node_id, duration_ms },
                    ),
                    result: Some(output),
                    mpi_results: None,
                },
            )
        }),
{
    law_finished_task_is_found(
        state,
        state.running[task_id].with_status(TaskStatusView::Completed { node_id, duration_ms }),
        Some(output),
        None,
    );
}

/// When the last rank of a job reports its result, the task is found completed,
/// with how many ranks reported results and errors and with all results by rank.
pub proof fn law_last_rank_completes_job(
    state: ClusterView,
    channel: UnboundedSender<String>,
    job_id: u128,
    node_id: u128,
    rank: u32,
    duration_ms: u64,
    output: TaskOutputView,
    readings: Readings,
)
    requires
        state.wf(),
        state.jobs.contains_key(job_id),
        state.running.contains_key(job_id),
        state.jobs[job_id].with_result(rank, output, node_id).complete(),
        !state.is_waiting(job_id),
        forall|i: int|
            0 <= i < state.completed.len() ==> #[trigger] state.completed[i].task.id != job_id,
    ensures
        ({
            let after = state.received(
                channel,
                WorkerMessageView::MpiRankResult {
                    job_id,
                    task_id: job_id,
                    node_id,
                    rank,
                    duration_ms,
                    output,
                },
                readings,
            );
            let job = state.jobs[job_id].with_result(rank, output, node_id);
            &&& !after.jobs.contains_key(job_id)
            &&& !after.running.contains_key(job_id)
            &&& after.lookup(job_id) == Some(
                TaskStatusResponseView {
                    task: state.running[job_id].with_status(
                        TaskStatusView::MpiCompleted {
                            job_id,
                            duration_ms: readings.job_ms,
                            ranks_ok: filled(job.results) as u32,
                            ranks_failed: filled(job.errors) as u32,
                        },
                    ),
                    result: None,
                    mpi_results: Some(rank_outputs(job.results)),
                },
            )
        }),
{
    let job = state.jobs[job_id].with_result(rank, output, node_id);
    let told = state.drop_active(node_id).with_job(job_id, job);
    law_finished_task_is_found(
        told.forget_job(job_id),
        state.running[job_id].with_status(
            TaskStatusView::MpiCompleted {
                job_id,
                duration_ms: readings.job_ms,
                ranks_ok: filled(job.results) as u32,
                ranks_failed: filled(job.errors) as u32,
            },
        ),
        None,
        Some(rank_outputs(job.results)),
    );
}

/// Whether a node is known and draining.
pub open spec fn is_draining(state: ClusterView, node_id: u128) -> bool {
    state.nodes.contains_key(node_id) && state.nodes[node_id].status == NodeStatus::Draining
}

/// A node that announces that it is draining gets no new task, whatever a task
/// requires, neither at once nor after it has reported its load again; the tasks
/// that are under way on it go on.
pub proof fn law_draining_node_gets_no_task(
    state: ClusterView,
    channel: UnboundedSender<String>,
    node_id: u128,
    readings: Readings,
    stats: NodeStats,
    later: Readings,
    req: TaskRequirementsView,
    weighed: Seq<(u128, Weight)>,
)
    requires
        state.nodes.contains_key(node_id),
    ensures
        ({
            let told = state.received(channel, WorkerMessageView::Draining { node_id }, readings);
            let after = told.received(
                channel,
                WorkerMessageView::Heartbeat { node_id, stats },
                later,
            );
            &&& told.running == state.running
            &&& after.running == state.running
            &&& forall|i: int|
                0 <= i < scored(told.nodes, req, weighed).len() ==> (#[trigger] scored(
                    told.nodes,
                    req,
                    weighed,
                )[i]).0 != node_id
            &&& forall|i: int|
                0 <= i < scored(after.nodes, req, weighed).len() ==> (#[trigger] scored(
                    after.nodes,
                    req,
                    weighed,
                )[i]).0 != node_id
        }),
{
    let told = state.received(channel, WorkerMessageView::Draining { node_id }, readings);
    let after = told.received(channel, WorkerMessageView::Heartbeat { node_id, stats }, later);
    law_scored_are_eligible(told.nodes, req, weighed);
    law_scored_are_eligible(after.nodes, req, weighed);
}

/// A draining node goes on draining whatever message comes in, until it
/// registers anew.
pub proof fn law_draining_lasts(
    state: ClusterView,
    channel: UnboundedSender<String>,
    message: WorkerMessageView,
    readings: Readings,
    node_id: u128,
)
    requires
        is_draining(state, node_id),
        !(message matches WorkerMessageView::Register { node_id: n, .. } && n == node_id),
    ensures
        is_draining(state.received(channel, message, readings), node_id),
{
}

/// When the connection to a node ends, the node is offline and has no channel,
/// and nothing is under way on it. What was under way and may be retried waits.
pub proof fn law_ended_session_leaves_nothing(
    state: ClusterView,
    after: ClusterView,
    node_id: u128,
)
    requires
        state.wf(),
        state.ends_session(after, node_id),
    ensures
        !after.channels.contains_key(node_id),
        after.nodes.contains_key(node_id) == state.nodes.contains_key(node_id),
        after.nodes.contains_key(node_id) ==> after.nodes[node_id].status == NodeStatus::Offline,
        runs_nothing(after, node_id),
        forall|id: u128| #[trigger]
            state.running.contains_key(id) && !after.running.contains_key(id)
                && state.retries_left(id) > 0 ==> after.pending.contains(
                state.running[id].with_status(TaskStatusView::Queued),
            ),
{
    let closed = (ClusterView { channels: state.channels.remove(node_id), ..state }).set_status(
        node_id,
        NodeStatus::Offline,
    );
    law_lost_node_runs_nothing(closed, after, node_id);
    assert forall|id: u128| #[trigger] after.running.contains_key(id) implies !runs_on(
        after.running[id],
        node_id,
    ) && !has_rank_on(after.running[id], node_id) by {
        assert(closed.running.contains_key(id));
    }
    assert forall|id: u128| #[trigger]
        state.running.contains_key(id) && !after.running.contains_key(id) && state.retries_left(id)
            > 0 implies after.pending.contains(
        state.running[id].with_status(TaskStatusView::Queued),
    ) by {
        assert(closed.retries_left(id) == state.retries_left(id));
        assert(closed.running.contains_key(id));
        law_lost_task_waits(closed, after, node_id, id);
    }
}

/// A node that has registered is online, idle and reachable, by the channel that
/// it registered on and by no earlier one; as far as its load goes it suits every
/// task that asks for no more memory than it has.
pub proof fn law_registered_node_is_ready(
    state: ClusterView,
    channel: UnboundedSender<String>,
    node_id: u128,
    name: Seq<char>,
    capabilities: NodeCapabilitiesView,
    readings: Readings,
    req: TaskRequirementsView,
)
    ensures
        ({
            let after = state.received(
                channel,
                WorkerMessageView::Register { node_id, name, capabilities },
                readings,
            );
            let node = after.nodes[node_id];
            &&& after.channels.contains_key(node_id)
            &&& after.channels[node_id] == channel
            &&& after.nodes.contains_key(node_id)
            &&& node.stats.active_tasks == 0
            &&& node.eligible(req, true) <==> req.min_ram_free_mb <= capabilities.total_ram_mb && (
            req.requires_gpu ==> capabilities.has_gpu) && node.has_tags(req.required_tags)
        }),
{
}

/// No message but the registration of a node touches the channel to that node.
pub proof fn law_channel_stays(
    state: ClusterView,
    channel: UnboundedSender<String>,
    message: WorkerMessageView,
    readings: Readings,
    node_id: u128,
)
    requires
        state.channels.contains_key(node_id),
        !(message matches WorkerMessageView::Register { node_id: n, .. } && n == node_id),
    ensures
        ({
            let after = state.received(channel, message, readings);
            &&& after.channels.contains_key(node_id)
            &&& after.channels[node_id] == state.channels[node_id]
        }),
{
}

/// A task that is counted on a node and then ends leaves the count as it was.
pub proof fn law_active_count_balances(state: ClusterView, node_id: u128)
    requires
        state.can_add_active(node_id),
    ensures
        state.add_active(node_id).drop_active(node_id) == state,
{
    if state.nodes.contains_key(node_id) {
        assert(state.add_active(node_id).drop_active(node_id).nodes =~= state.nodes);
    }
}

/// A node that has reported its load at or after the cutoff does not count as silent.
pub proof fn law_heartbeat_keeps_node(
    state: ClusterView,
    channel: UnboundedSender<String>,
    node_id: u128,
    stats: NodeStats,
    readings: Readings,
    cutoff: Timestamp,
)
    requires
        state.nodes.contains_key(node_id),
        !readings.seen_at.precedes(cutoff),
    ensures
        ({
            let after = state.received(
                channel,
                WorkerMessageView::Heartbeat { node_id, stats },
                readings,
            );
            !silent_since(after.nodes[node_id], cutoff)
        }),
{
}

} // verus!
