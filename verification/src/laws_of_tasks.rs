//! What holds of the tasks of a server, said of the tasks and nodes themselves.
use crate::api::TaskStatusResponseView;
use crate::clock::Timestamp;
use crate::cluster::{has_rank_on, in_order, runs_on, silent_since, ClusterView};
use crate::job::{filled, rank_outputs, MpiJobView};
use crate::laws::{
    has_id, law_blocked_task_waits_again, law_dead_node_is_detected, law_live_node_is_kept,
    law_lost_node_runs_nothing, law_lost_task_waits, law_queue_is_stable, law_requeued_task_waits,
    law_timely_task_goes_on, runs_nothing,
};
use crate::message::{ServerMessageView, WorkerMessageView};
use crate::node::{NodeCapabilitiesView, NodeInfoView, NodeStats, NodeStatus};
use crate::output::{MpiRankOutputView, TaskOutputView};
use crate::rest::{lemma_place_at, lemma_place_of, place_of, tasks_of};
use crate::session::{registered_as, Readings, ReplyView};
use crate::task::{Percent, TaskKindView, TaskRequirementsView, TaskStatusView, TaskView};
use crate::text::decimal;
use tokio::sync::mpsc::UnboundedSender;
use vstd::prelude::*;

verus! {

/// Whether one point in time lies before another: by its seconds, and within a
/// second by its nanoseconds.
pub open spec fn is_before(a: Timestamp, b: Timestamp) -> bool {
    a.secs < b.secs || (a.secs == b.secs && a.nanos < b.nanos)
}

/// The task with another status and everything else as it is.
pub open spec fn restated(task: TaskView, status: TaskStatusView) -> TaskView {
    TaskView {
        id: task.id,
        submitted_at: task.submitted_at,
        priority: task.priority,
        kind: task.kind,
        requirements: task.requirements,
        status,
        meta: task.meta,
    }
}

/// Whether a task has taken its place `at` in a queue: every task before it has a
/// higher priority, or the same and was not submitted later, and every task behind
/// it a lower priority, or the same and was submitted later.
pub open spec fn takes_place(
    queue: Seq<TaskView>,
    task: TaskView,
    at: int,
    after: Seq<TaskView>,
) -> bool {
    &&& 0 <= at <= queue.len()
    &&& after == queue.insert(at, task)
    &&& forall|i: int|
        #![trigger queue[i]]
        0 <= i < at ==> queue[i].priority > task.priority || (queue[i].priority == task.priority
            && !is_before(task.submitted_at, queue[i].submitted_at))
    &&& forall|i: int|
        #![trigger queue[i]]
        at <= i < queue.len() ==> queue[i].priority < task.priority || (queue[i].priority
            == task.priority && is_before(task.submitted_at, queue[i].submitted_at))
}

/// In the queue of a server a task with a higher priority stands before one with a
/// lower, and of equal ones the one submitted earlier.
pub proof fn law_queue_goes_by_priority_and_time(state: ClusterView, i: int, j: int)
    requires
        state.wf(),
        0 <= i < j < state.pending.len(),
    ensures
        state.pending[i].priority >= state.pending[j].priority,
        state.pending[i].priority == state.pending[j].priority ==> !is_before(
            state.pending[j].submitted_at,
            state.pending[i].submitted_at,
        ),
{
    assert(in_order(state.pending));
}

/// A new task takes its place in the queue, may be retried as often as the server
/// allows, and leaves everything else as it was.
pub proof fn law_new_task_waits(state: ClusterView, task: TaskView)
    requires
        state.wf(),
    ensures
        ({
            let after = state.enqueue(task);
            &&& exists|at: int| #[trigger] takes_place(state.pending, task, at, after.pending)
            &&& after.retries == state.retries.insert(task.id, state.max_retries)
            &&& after == (ClusterView {
                pending: after.pending,
                retries: after.retries,
                ..state
            })
        }),
{
    let at = law_queue_is_stable(state.pending, task);
    assert(takes_place(state.pending, task, at, state.enqueue(task).pending));
}

/// What is found under the identifier of a new submission is the task that was
/// submitted, with its kind, its requirements and its priority, queued.
pub proof fn law_submission_is_found(
    state: ClusterView,
    kind: TaskKindView,
    requirements: TaskRequirementsView,
    priority: u8,
    id: u128,
    submitted_at: Timestamp,
)
    requires
        state.wf(),
        forall|i: int| 0 <= i < state.pending.len() ==> #[trigger] state.pending[i].id != id,
    ensures
        state.enqueue(
            TaskView::submitted(kind, requirements, priority, id, submitted_at),
        ).lookup(id) matches Some(found) && {
            &&& found.task.id == id
            &&& found.task.kind == kind
            &&& found.task.requirements == requirements
            &&& found.task.priority == priority
            &&& found.task.submitted_at == submitted_at
            &&& found.task.status == TaskStatusView::Queued
            &&& found.task.meta == Map::<Seq<char>, Seq<char>>::empty()
            &&& found.result is None
            &&& found.mpi_results is None
        },
{
    let task = TaskView::submitted(kind, requirements, priority, id, submitted_at);
    let at = law_queue_is_stable(state.pending, task);
    let longer = state.enqueue(task).pending;
    assert forall|i: int| 0 <= i < at implies #[trigger] longer[i].id != id by {
        assert(longer[i] == state.pending[i]);
    }
    lemma_place_at(longer, id, at);
}

/// Submissions differ where what is submitted differs.
pub proof fn law_submissions_differ(
    kind: TaskKindView,
    requirements: TaskRequirementsView,
    priority: u8,
    id: u128,
    at: Timestamp,
    other_kind: TaskKindView,
    other_requirements: TaskRequirementsView,
    other_priority: u8,
    other_id: u128,
    other_at: Timestamp,
)
    requires
        TaskView::submitted(kind, requirements, priority, id, at) == TaskView::submitted(
            other_kind,
            other_requirements,
            other_priority,
            other_id,
            other_at,
        ),
    ensures
        kind == other_kind,
        requirements == other_requirements,
        priority == other_priority,
        id == other_id,
        at == other_at,
{
    let a = TaskView::submitted(kind, requirements, priority, id, at);
    assert(a.kind == kind && a.requirements == requirements && a.priority == priority);
}

/// A waiting task is found as it waits: of several with one identifier the first.
pub proof fn law_waiting_task_is_found(state: ClusterView, i: int)
    requires
        0 <= i < state.pending.len(),
        forall|j: int| 0 <= j < i ==> #[trigger] state.pending[j].id != state.pending[i].id,
    ensures
        state.is_waiting(state.pending[i].id),
        state.lookup(state.pending[i].id) == Some(
            TaskStatusResponseView { task: state.pending[i], result: None, mpi_results: None },
        ),
{
    lemma_place_at(state.pending, state.pending[i].id, i);
}

/// A task that does not wait is found running where it runs, and else in the
/// history: of several with one identifier the oldest. One that is nowhere is not
/// found.
pub proof fn law_other_tasks_are_found(state: ClusterView, id: u128)
    requires
        forall|i: int| 0 <= i < state.pending.len() ==> #[trigger] state.pending[i].id != id,
    ensures
        !state.is_waiting(id),
        state.running.contains_key(id) ==> state.lookup(id) == Some(
            TaskStatusResponseView { task: state.running[id], result: None, mpi_results: None },
        ),
        forall|k: int|
            #![trigger state.completed[k]]
            !state.running.contains_key(id) && 0 <= k < state.completed.len()
                && state.completed[k].task.id == id && (forall|j: int|
                0 <= j < k ==> #[trigger] state.completed[j].task.id != id) ==> state.lookup(id)
                == Some(state.completed[k]),
        !state.running.contains_key(id) && (forall|k: int|
            0 <= k < state.completed.len() ==> #[trigger] state.completed[k].task.id != id)
            ==> state.lookup(id) is None,
{
    lemma_place_at(state.pending, id, state.pending.len() as int);
    let done = tasks_of(state.completed);
    assert forall|k: int| 0 <= k < done.len() implies #[trigger] done[k]
        == state.completed[k].task by {}
    assert forall|k: int|
        #![trigger state.completed[k]]
        !state.running.contains_key(id) && 0 <= k < state.completed.len()
            && state.completed[k].task.id == id && (forall|j: int|
            0 <= j < k ==> #[trigger] state.completed[j].task.id != id) implies state.lookup(id)
        == Some(state.completed[k]) by {
        assert forall|j: int| 0 <= j < k implies #[trigger] done[j].id != id by {
            assert(state.completed[j].task.id != id);
        }
        assert(done[k].id == id);
        lemma_place_at(done, id, k);
    }
    if !state.running.contains_key(id) && (forall|k: int|
        0 <= k < state.completed.len() ==> #[trigger] state.completed[k].task.id != id) {
        assert forall|j: int| 0 <= j < done.len() implies #[trigger] done[j].id != id by {
            assert(state.completed[j].task.id != id);
        }
        lemma_place_at(done, id, done.len() as int);
    }
}

/// Cancelling takes the first waiting task with the identifier out of the queue
/// and leaves everything else as it was.
pub proof fn law_cancelled_task_leaves_the_queue(state: ClusterView, i: int)
    requires
        0 <= i < state.pending.len(),
        forall|j: int| 0 <= j < i ==> #[trigger] state.pending[j].id != state.pending[i].id,
    ensures
        state.is_waiting(state.pending[i].id),
        state.cancel(state.pending[i].id) == (ClusterView {
            pending: state.pending.remove(i),
            ..state
        }),
{
    lemma_place_at(state.pending, state.pending[i].id, i);
}

/// A task that does not wait cannot be cancelled: nothing changes.
pub proof fn law_only_waiting_tasks_are_cancelled(state: ClusterView, id: u128)
    requires
        forall|i: int| 0 <= i < state.pending.len() ==> #[trigger] state.pending[i].id != id,
    ensures
        !state.is_waiting(id),
        state.cancel(id) == state,
{
    lemma_place_at(state.pending, id, state.pending.len() as int);
}

/// A history with one more finished task: where it would hold more than ten
/// thousand, the oldest thousand are forgotten.
pub open spec fn ends_with(
    history: Seq<TaskStatusResponseView>,
    entry: TaskStatusResponseView,
) -> Seq<TaskStatusResponseView> {
    if history.len() >= 10_000 {
        history.push(entry).skip(1_000)
    } else {
        history.push(entry)
    }
}

/// A finished task stands at the end of the history with what has come of it; it
/// runs no more and has no retries. Where the history would hold more than ten
/// thousand tasks, the oldest thousand are forgotten. Nothing else changes.
pub proof fn law_finished_task_is_remembered(
    state: ClusterView,
    task: TaskView,
    output: Option<TaskOutputView>,
    mpi_results: Option<Seq<MpiRankOutputView>>,
)
    ensures
        ({
            let after = state.complete(task, output, mpi_results);
            let all = state.completed.push(
                TaskStatusResponseView { task, result: output, mpi_results },
            );
            &&& after.completed == (if all.len() > 10_000 {
                all.skip(1_000)
            } else {
                all
            })
            &&& after == (ClusterView {
                running: state.running.remove(task.id),
                since: state.since.remove(task.id),
                retries: state.retries.remove(task.id),
                completed: after.completed,
                ..state
            })
        }),
{
}

/// A task that may be retried takes its place in the queue again, queued, with one
/// retry less; it runs no more, and nothing else changes.
pub proof fn law_failed_task_is_retried(state: ClusterView, task: TaskView)
    requires
        state.wf(),
        state.retries.contains_key(task.id),
        state.retries[task.id] > 0,
    ensures
        ({
            let after = state.requeue(task);
            &&& exists|at: int| #[trigger]
                takes_place(
                    state.pending,
                    restated(task, TaskStatusView::Queued),
                    at,
                    after.pending,
                )
            &&& after == (ClusterView {
                running: state.running.remove(task.id),
                since: state.since.remove(task.id),
                retries: state.retries.insert(task.id, (state.retries[task.id] - 1) as u32),
                pending: after.pending,
                ..state
            })
        }),
{
    let waiting = restated(task, TaskStatusView::Queued);
    let at = law_queue_is_stable(state.pending, waiting);
    assert(takes_place(state.pending, waiting, at, state.requeue(task).pending));
}

/// A task without a retry left has failed for good: it is remembered as failed
/// because its retries were used up, waits and runs no more, and nothing else
/// changes.
pub proof fn law_exhausted_task_has_failed(state: ClusterView, task: TaskView)
    requires
        state.retries.contains_key(task.id) ==> state.retries[task.id] == 0,
    ensures
        state.requeue(task) == (ClusterView {
            running: state.running.remove(task.id),
            since: state.since.remove(task.id),
            retries: state.retries.remove(task.id),
            completed: ends_with(
                state.completed,
                TaskStatusResponseView {
                    task: restated(
                        task,
                        TaskStatusView::Failed { reason: "max retries exceeded"@ },
                    ),
                    result: None,
                    mpi_results: None,
                },
            ),
            ..state
        }),
{
}

/// Whether what became of a task after a requeue is right: where it had a retry it
/// waits, and else it is remembered as failed.
pub open spec fn is_retried_or_failed(
    state: ClusterView,
    after: ClusterView,
    task: TaskView,
) -> bool {
    if state.retries_left(task.id) > 0 {
        &&& after.pending.contains(restated(task, TaskStatusView::Queued))
        &&& after.retries_left(task.id) == state.retries_left(task.id) - 1
    } else {
        after.completed.contains(
            TaskStatusResponseView {
                task: restated(task, TaskStatusView::Failed { reason: "max retries exceeded"@ }),
                result: None,
                mpi_results: None,
            },
        )
    }
}

/// How often a task may be retried is what is noted for it, and never where
/// nothing is noted.
pub proof fn law_retries_left(state: ClusterView, id: u128)
    ensures
        state.retries.contains_key(id) ==> state.retries_left(id) == state.retries[id],
        !state.retries.contains_key(id) ==> state.retries_left(id) == 0,
{
}

/// What one more requeue does to what waits and is remembered.
proof fn lemma_one_more(state: ClusterView, task: TaskView)
    requires
        state.wf(),
        state.completed.len() < 10_000,
    ensures
        ({
            let after = state.requeue(task);
            &&& forall|t: TaskView|
                state.pending.contains(t) ==> #[trigger] after.pending.contains(t)
            &&& forall|e: TaskStatusResponseView|
                state.completed.contains(e) ==> #[trigger] after.completed.contains(e)
            &&& after.completed.len() <= state.completed.len() + 1
            &&& is_retried_or_failed(state, after, task)
            &&& forall|id: u128|
                id != task.id ==> #[trigger] after.retries_left(id) == state.retries_left(id)
            &&& !after.running.contains_key(task.id)
        }),
{
    let after = state.requeue(task);
    let waiting = restated(task, TaskStatusView::Queued);
    if state.retries_left(task.id) > 0 {
        let at = law_queue_is_stable(state.pending, waiting);
        law_requeued_task_waits(state, task);
        assert forall|t: TaskView| state.pending.contains(t) implies #[trigger] after.pending.contains(
            t,
        ) by {
            let k = choose|k: int| 0 <= k < state.pending.len() && state.pending[k] == t;
            if k < at {
                assert(after.pending[k] == t);
            } else {
                assert(after.pending[k + 1] == t);
            }
        }
    } else {
        law_exhausted_task_has_failed(state, task);
        let n = state.completed.len() as int;
        assert forall|e: TaskStatusResponseView|
            state.completed.contains(e) implies #[trigger] after.completed.contains(e) by {
            let k = choose|k: int| 0 <= k < n && state.completed[k] == e;
            assert(after.completed[k] == e);
        }
        assert(after.completed.contains(after.completed[n]));
    }
}

/// The state after a list of tasks was requeued, with or without forgetting the
/// jobs of the tasks.
pub open spec fn list_requeued(
    state: ClusterView,
    tasks: Seq<TaskView>,
    with_jobs: bool,
) -> ClusterView {
    if with_jobs {
        state.requeue_jobs(tasks)
    } else {
        state.requeue_all(tasks)
    }
}

/// Requeueing a list of tasks with distinct identifiers gives each of them what it
/// is due: none runs on, each waits with one retry less or, where it had none, is
/// remembered as failed.
pub proof fn law_requeued_list_is_retried_or_failed(
    state: ClusterView,
    tasks: Seq<TaskView>,
    with_jobs: bool,
)
    requires
        state.wf(),
        state.completed.len() + tasks.len() <= 10_000,
        forall|i: int, j: int|
            #![trigger tasks[i], tasks[j]]
            0 <= i < j < tasks.len() ==> tasks[i].id != tasks[j].id,
    ensures
        ({
            let after = list_requeued(state, tasks, with_jobs);
            &&& after.wf()
            &&& after.completed.len() <= state.completed.len() + tasks.len()
            &&& forall|i: int|
                #![trigger tasks[i]]
                0 <= i < tasks.len() ==> is_retried_or_failed(state, after, tasks[i])
                    && !after.running.contains_key(tasks[i].id)
            &&& forall|id: u128|
                !has_id(tasks, id) ==> #[trigger] after.retries_left(id) == state.retries_left(id)
            &&& forall|t: TaskView|
                state.pending.contains(t) ==> #[trigger] after.pending.contains(t)
            &&& forall|e: TaskStatusResponseView|
                state.completed.contains(e) ==> #[trigger] after.completed.contains(e)
            &&& after.nodes == state.nodes
            &&& after.channels == state.channels
            &&& with_jobs ==> forall|i: int|
                #![trigger tasks[i]]
                0 <= i < tasks.len() ==> !after.jobs.contains_key(tasks[i].id)
            &&& !with_jobs ==> after.jobs == state.jobs
        }),
    decreases tasks.len(),
{
    if tasks.len() > 0 {
        let front = tasks.drop_last();
        let last = tasks.last();
        assert forall|i: int, j: int|
            #![trigger front[i], front[j]]
            0 <= i < j < front.len() implies front[i].id != front[j].id by {
            assert(tasks[i].id != tasks[j].id);
        }
        law_requeued_list_is_retried_or_failed(state, front, with_jobs);
        let mid = if with_jobs {
            state.requeue_jobs(front).forget_job(last.id)
        } else {
            state.requeue_all(front)
        };
        let before = list_requeued(state, front, with_jobs);
        let after = list_requeued(state, tasks, with_jobs);
        assert(after == mid.requeue(last));
        lemma_one_more(mid, last);
        mid.lemma_requeue_wf(last);
        assert forall|id: u128| #[trigger] mid.retries_left(id) == before.retries_left(id) by {}
        assert(!has_id(front, last.id)) by {
            if has_id(front, last.id) {
                let k = choose|k: int| 0 <= k < front.len() && #[trigger] front[k].id == last.id;
                assert(tasks[k].id != tasks[tasks.len() - 1].id);
            }
        }
        assert(before.retries_left(last.id) == state.retries_left(last.id));
        assert forall|i: int| #![trigger tasks[i]] 0 <= i < tasks.len() implies is_retried_or_failed(
            state,
            after,
            tasks[i],
        ) && !after.running.contains_key(tasks[i].id) by {
            if i < front.len() {
                assert(front[i] == tasks[i]);
                assert(tasks[i].id != tasks[tasks.len() - 1].id);
                assert(is_retried_or_failed(state, before, front[i]));
                assert(after.retries_left(tasks[i].id) == mid.retries_left(tasks[i].id));
                let waiting = restated(tasks[i], TaskStatusView::Queued);
                assert(mid.pending.contains(waiting) ==> after.pending.contains(waiting));
                let failed = TaskStatusResponseView {
                    task: restated(
                        tasks[i],
                        TaskStatusView::Failed { reason: "max retries exceeded"@ },
                    ),
                    result: None,
                    mpi_results: None,
                };
                assert(mid.completed.contains(failed) ==> after.completed.contains(failed));
                assert(!before.running.contains_key(front[i].id));
            }
        }
        assert forall|id: u128| !has_id(tasks, id) implies #[trigger] after.retries_left(id)
            == state.retries_left(id) by {
            assert(tasks[tasks.len() - 1].id == last.id);
            if has_id(front, id) {
                let k = choose|k: int| 0 <= k < front.len() && #[trigger] front[k].id == id;
                assert(tasks[k].id == id);
            }
            assert(last.id != id);
            assert(before.retries_left(id) == state.retries_left(id));
        }
        assert forall|t: TaskView| state.pending.contains(t) implies #[trigger] after.pending.contains(
            t,
        ) by {
            assert(before.pending.contains(t));
            assert(mid.pending.contains(t));
        }
        assert forall|e: TaskStatusResponseView|
            state.completed.contains(e) implies #[trigger] after.completed.contains(e) by {
            assert(before.completed.contains(e));
            assert(mid.completed.contains(e));
        }
        if with_jobs {
            assert forall|i: int| #![trigger tasks[i]] 0 <= i < tasks.len() implies !after.jobs.contains_key(
                tasks[i].id,
            ) by {
                if i < front.len() {
                    assert(!before.jobs.contains_key(front[i].id));
                }
            }
        }
    }
}

/// After a node was lost no task that runs has anything to do with it: none was
/// sent to it or runs on it, and none of the nodes that the ranks of an MPI job
/// were sent to is the lost one, wherever in the list it would stand.
pub proof fn law_lost_node_is_on_no_list(
    state: ClusterView,
    after: ClusterView,
    node_id: u128,
    id: u128,
)
    requires
        state.wf(),
        state.loses_node(after, node_id),
        after.running.contains_key(id),
    ensures
        after.running[id] == state.running[id],
        state.running.contains_key(id),
        match after.running[id].status {
            TaskStatusView::Dispatched { node_id: n } => n != node_id,
            TaskStatusView::Running { node_id: n, .. } => n != node_id,
            TaskStatusView::MpiDispatched { node_ids, .. } => forall|i: int|
                0 <= i < node_ids.len() ==> #[trigger] node_ids[i] != node_id,
            _ => true,
        },
{
    law_lost_node_runs_nothing(state, after, node_id);
    if let TaskStatusView::MpiDispatched { node_ids, .. } = state.running[id].status {
        assert forall|i: int| 0 <= i < node_ids.len() implies #[trigger] node_ids[i] != node_id by {
            if node_ids[i] == node_id {
                assert(node_ids.contains(node_id));
            }
        }
    }
}

/// Whether a task is under way on a node: it was sent to it, runs on it, or has a
/// rank on it at some place of its list.
pub open spec fn is_on(task: TaskView, node_id: u128) -> bool {
    match task.status {
        TaskStatusView::Dispatched { node_id: n } => n == node_id,
        TaskStatusView::Running { node_id: n, .. } => n == node_id,
        TaskStatusView::MpiDispatched { node_ids, .. } => exists|i: int|
            0 <= i < node_ids.len() && #[trigger] node_ids[i] == node_id,
        _ => false,
    }
}

/// A task that was under way on a lost node runs no more; where it had a retry it
/// waits, queued, with one retry less, and the job of an MPI task is forgotten.
pub proof fn law_task_on_lost_node_waits_again(
    state: ClusterView,
    after: ClusterView,
    node_id: u128,
    id: u128,
)
    requires
        state.wf(),
        state.loses_node(after, node_id),
        state.running.contains_key(id),
        is_on(state.running[id], node_id),
    ensures
        !after.running.contains_key(id),
        state.retries_left(id) > 0 ==> after.pending.contains(
            restated(state.running[id], TaskStatusView::Queued),
        ) && after.retries_left(id) == state.retries_left(id) - 1,
        state.running[id].status is MpiDispatched ==> !after.jobs.contains_key(id),
{
    law_lost_node_runs_nothing(state, after, node_id);
    if let TaskStatusView::MpiDispatched { node_ids, .. } = state.running[id].status {
        let i = choose|i: int| 0 <= i < node_ids.len() && #[trigger] node_ids[i] == node_id;
        assert(node_ids.contains(node_id));
    }
    if state.retries_left(id) > 0 {
        law_lost_task_waits(state, after, node_id, id);
        assert(restated(state.running[id], TaskStatusView::Queued) == state.running[id].with_status(
            TaskStatusView::Queued,
        ));
    }
}

/// A task that has nothing to do with a lost node goes on as it was, and so does
/// its job.
pub proof fn law_other_tasks_survive_a_loss(
    state: ClusterView,
    after: ClusterView,
    node_id: u128,
    id: u128,
)
    requires
        state.wf(),
        state.loses_node(after, node_id),
        state.running.contains_key(id),
        !is_on(state.running[id], node_id),
    ensures
        after.running.contains_key(id),
        after.running[id] == state.running[id],
        after.since[id] == state.since[id],
        after.retries_left(id) == state.retries_left(id),
        after.jobs.contains_key(id) == state.jobs.contains_key(id),
        after.jobs.contains_key(id) ==> after.jobs[id] == state.jobs[id],
        after.nodes == state.nodes,
        after.channels == state.channels,
{
    law_lost_node_runs_nothing(state, after, node_id);
    if let TaskStatusView::MpiDispatched { node_ids, .. } = state.running[id].status {
        if node_ids.contains(node_id) {
            let i = choose|i: int| 0 <= i < node_ids.len() && node_ids[i] == node_id;
            assert(node_ids[i] == node_id);
        }
    }
    assert(after.running.contains_key(id));
}

/// When the connection to a node ends, its channel is closed and no other; the
/// node is offline and otherwise as it was, and no other node changes. No task
/// that runs afterwards has anything to do with the node, and one that had and had
/// a retry waits.
pub proof fn law_end_of_a_session(
    state: ClusterView,
    after: ClusterView,
    node_id: u128,
    id: u128,
)
    requires
        state.wf(),
        state.ends_session(after, node_id),
    ensures
        after.channels == state.channels.remove(node_id),
        after.nodes == (if state.nodes.contains_key(node_id) {
            state.nodes.insert(
                node_id,
                NodeInfoView { status: NodeStatus::Offline, ..state.nodes[node_id] },
            )
        } else {
            state.nodes
        }),
        after.running.contains_key(id) ==> !is_on(after.running[id], node_id),
        state.running.contains_key(id) && is_on(state.running[id], node_id) ==> {
            &&& !after.running.contains_key(id)
            &&& state.retries_left(id) > 0 ==> after.pending.contains(
                restated(state.running[id], TaskStatusView::Queued),
            ) && after.retries_left(id) == state.retries_left(id) - 1
            &&& state.running[id].status is MpiDispatched ==> !after.jobs.contains_key(id)
        },
        state.running.contains_key(id) && !is_on(state.running[id], node_id) ==> {
            &&& after.running.contains_key(id)
            &&& after.running[id] == state.running[id]
            &&& after.retries_left(id) == state.retries_left(id)
        },
{
    let closed = (ClusterView { channels: state.channels.remove(node_id), ..state }).set_status(
        node_id,
        NodeStatus::Offline,
    );
    assert(closed.wf());
    assert(closed.retries_left(id) == state.retries_left(id));
    law_lost_node_runs_nothing(closed, after, node_id);
    if after.running.contains_key(id) {
        law_lost_node_is_on_no_list(closed, after, node_id, id);
    }
    if state.running.contains_key(id) {
        if is_on(state.running[id], node_id) {
            law_task_on_lost_node_waits_again(closed, after, node_id, id);
        } else {
            law_other_tasks_survive_a_loss(closed, after, node_id, id);
        }
    }
}

/// A report of its load is kept for a known node with the time at which it came:
/// a draining node goes on draining, another is busy where it has active tasks and
/// online where it has none. Who the node is and what it can do stays, and so does
/// every other node.
pub proof fn law_report_is_kept(
    state: ClusterView,
    channel: UnboundedSender<String>,
    node_id: u128,
    stats: NodeStats,
    readings: Readings,
)
    requires
        state.nodes.contains_key(node_id),
    ensures
        ({
            let after = state.received(
                channel,
                WorkerMessageView::Heartbeat { node_id, stats },
                readings,
            );
            let old_node = state.nodes[node_id];
            after == (ClusterView {
                nodes: state.nodes.insert(
                    node_id,
                    NodeInfoView {
                        id: old_node.id,
                        name: old_node.name,
                        capabilities: old_node.capabilities,
                        stats,
                        status: if old_node.status == NodeStatus::Draining {
                            NodeStatus::Draining
                        } else if stats.active_tasks == 0 {
                            NodeStatus::Online
                        } else {
                            NodeStatus::Busy
                        },
                        last_seen: readings.seen_at,
                    },
                ),
                ..state
            })
        }),
{
}

/// A node that announces that it is draining is known to drain; nothing else changes.
pub proof fn law_announced_draining_is_noted(
    state: ClusterView,
    channel: UnboundedSender<String>,
    node_id: u128,
    readings: Readings,
)
    requires
        state.nodes.contains_key(node_id),
    ensures
        state.received(channel, WorkerMessageView::Draining { node_id }, readings) == (ClusterView {
            nodes: state.nodes.insert(
                node_id,
                NodeInfoView { status: NodeStatus::Draining, ..state.nodes[node_id] },
            ),
            ..state
        }),
{
}

/// What an unknown node says of itself, short of registering, changes nothing.
pub proof fn law_unknown_nodes_are_ignored(
    state: ClusterView,
    channel: UnboundedSender<String>,
    node_id: u128,
    stats: NodeStats,
    readings: Readings,
)
    requires
        !state.nodes.contains_key(node_id),
    ensures
        state.received(channel, WorkerMessageView::Heartbeat { node_id, stats }, readings) == state,
        state.received(channel, WorkerMessageView::Draining { node_id }, readings) == state,
{
}

/// A registration makes a node known as it has declared itself: online, without
/// active tasks, with all of its memory free, heard of just now, and reached by the
/// channel that it registered on. It is acknowledged. Nothing else changes.
pub proof fn law_registration_makes_a_node_known(
    state: ClusterView,
    channel: UnboundedSender<String>,
    node_id: u128,
    name: Seq<char>,
    capabilities: NodeCapabilitiesView,
    readings: Readings,
)
    ensures
        ({
            let message = WorkerMessageView::Register { node_id, name, capabilities };
            let after = state.received(channel, message, readings);
            &&& after == (ClusterView {
                channels: state.channels.insert(node_id, channel),
                nodes: state.nodes.insert(
                    node_id,
                    NodeInfoView {
                        id: node_id,
                        name,
                        capabilities,
                        stats: NodeStats {
                            cpu_used_pct: Percent { bits: 0 },
                            ram_free_mb: capabilities.total_ram_mb,
                            active_tasks: 0,
                            latency_ms: None,
                            reported_at: readings.reported_at,
                        },
                        status: NodeStatus::Online,
                        last_seen: readings.seen_at,
                    },
                ),
                ..state
            })
            &&& state.reply(message) == ReplyView::ToWorker(
                ServerMessageView::Registered { node_id },
            )
        }),
{
}

/// Whether one active task less is counted on a node, where it had any, and
/// everything else about the nodes is as it was.
pub open spec fn counts_down(
    nodes: Map<u128, NodeInfoView>,
    after: Map<u128, NodeInfoView>,
    node_id: u128,
) -> bool {
    &&& after.dom() == nodes.dom()
    &&& forall|id: u128|
        id != node_id && #[trigger] nodes.contains_key(id) ==> after[id] == nodes[id]
    &&& nodes.contains_key(node_id) ==> {
        let left = if nodes[node_id].stats.active_tasks == 0 {
            0
        } else {
            nodes[node_id].stats.active_tasks - 1
        };
        &&& after[node_id].stats.active_tasks == left
        &&& after[node_id].stats == (NodeStats {
            active_tasks: after[node_id].stats.active_tasks,
            ..nodes[node_id].stats
        })
        &&& after[node_id] == (NodeInfoView {
            stats: after[node_id].stats,
            ..nodes[node_id]
        })
    }
}

/// The result of a running task ends it: it is remembered as completed on the node
/// that reported, with the time that it took and its output, and one task less is
/// active there.
pub proof fn law_result_completes_the_task(
    state: ClusterView,
    channel: UnboundedSender<String>,
    task_id: u128,
    node_id: u128,
    duration_ms: u64,
    output: TaskOutputView,
    readings: Readings,
)
    requires
        state.wf(),
        state.running.contains_key(task_id),
    ensures
        ({
            let after = state.received(
                channel,
                WorkerMessageView::TaskResult { task_id, node_id, duration_ms, output },
                readings,
            );
            &&& counts_down(state.nodes, after.nodes, node_id)
            &&& after == (ClusterView {
                nodes: after.nodes,
                running: state.running.remove(task_id),
                since: state.since.remove(task_id),
                retries: state.retries.remove(task_id),
                completed: ends_with(
                    state.completed,
                    TaskStatusResponseView {
                        task: restated(
                            state.running[task_id],
                            TaskStatusView::Completed { node_id, duration_ms },
                        ),
                        result: Some(output),
                        mpi_results: None,
                    },
                ),
                ..state
            })
        }),
{
    let after = state.received(
        channel,
        WorkerMessageView::TaskResult { task_id, node_id, duration_ms, output },
        readings,
    );
    assert(after.nodes.dom() =~= state.nodes.dom());
}

/// The failure of a running task with a retry left sends it back to the queue with
/// one retry less, and one task less is active on the node that reported.
pub proof fn law_failure_sends_the_task_back(
    state: ClusterView,
    channel: UnboundedSender<String>,
    task_id: u128,
    node_id: u128,
    reason: Seq<char>,
    readings: Readings,
)
    requires
        state.wf(),
        state.running.contains_key(task_id),
        state.retries.contains_key(task_id),
        state.retries[task_id] > 0,
    ensures
        ({
            let after = state.received(
                channel,
                WorkerMessageView::TaskError { task_id, node_id, reason },
                readings,
            );
            &&& counts_down(state.nodes, after.nodes, node_id)
            &&& exists|at: int| #[trigger]
                takes_place(
                    state.pending,
                    restated(state.running[task_id], TaskStatusView::Queued),
                    at,
                    after.pending,
                )
            &&& after == (ClusterView {
                nodes: after.nodes,
                running: state.running.remove(task_id),
                since: state.since.remove(task_id),
                retries: state.retries.insert(task_id, (state.retries[task_id] - 1) as u32),
                pending: after.pending,
                ..state
            })
        }),
{
    let task = state.running[task_id];
    assert(task.id == task_id);
    law_failed_task_is_retried(state, task);
    let after = state.received(
        channel,
        WorkerMessageView::TaskError { task_id, node_id, reason },
        readings,
    );
    assert(after.nodes.dom() =~= state.nodes.dom());
    let at = choose|at: int| #[trigger]
        takes_place(
            state.pending,
            restated(task, TaskStatusView::Queued),
            at,
            state.requeue(task).pending,
        );
    assert(takes_place(
        state.pending,
        restated(state.running[task_id], TaskStatusView::Queued),
        at,
        after.pending,
    ));
}

/// What a node says of a task that does not run only counts down its active tasks.
pub proof fn law_word_of_no_running_task(
    state: ClusterView,
    channel: UnboundedSender<String>,
    task_id: u128,
    node_id: u128,
    duration_ms: u64,
    output: TaskOutputView,
    reason: Seq<char>,
    readings: Readings,
)
    requires
        !state.running.contains_key(task_id),
    ensures
        ({
            let result = state.received(
                channel,
                WorkerMessageView::TaskResult { task_id, node_id, duration_ms, output },
                readings,
            );
            let error = state.received(
                channel,
                WorkerMessageView::TaskError { task_id, node_id, reason },
                readings,
            );
            &&& counts_down(state.nodes, result.nodes, node_id)
            &&& result == (ClusterView { nodes: result.nodes, ..state })
            &&& error == result
        }),
{
    let result = state.received(
        channel,
        WorkerMessageView::TaskResult { task_id, node_id, duration_ms, output },
        readings,
    );
    assert(result.nodes.dom() =~= state.nodes.dom());
}

/// Whether a rank of a job has answered.
pub open spec fn has_answered(job: MpiJobView, rank: int) -> bool {
    job.results[rank] is Some || job.errors[rank] is Some
}

/// Whether a job waits for the answer of some rank.
pub open spec fn is_open(job: MpiJobView) -> bool {
    exists|rank: int| 0 <= rank < job.total_ranks && !#[trigger] has_answered(job, rank)
}

/// The job with the result of one of its ranks; a rank that it does not have
/// changes nothing.
pub open spec fn job_with_result(
    job: MpiJobView,
    rank: u32,
    output: TaskOutputView,
    node_id: u128,
) -> MpiJobView {
    MpiJobView {
        task_id: job.task_id,
        total_ranks: job.total_ranks,
        results: if rank < job.total_ranks {
            job.results.update(rank as int, Some((output, node_id)))
        } else {
            job.results
        },
        errors: job.errors,
        started_at: job.started_at,
    }
}

/// The job with the error of one of its ranks; a rank that it does not have
/// changes nothing.
pub open spec fn job_with_error(job: MpiJobView, rank: u32, reason: Seq<char>) -> MpiJobView {
    MpiJobView {
        task_id: job.task_id,
        total_ranks: job.total_ranks,
        results: job.results,
        errors: if rank < job.total_ranks {
            job.errors.update(rank as int, Some(reason))
        } else {
            job.errors
        },
        started_at: job.started_at,
    }
}

/// Whether what follows from an answer to a job is right, where the job with the
/// answer is given: as long as a rank has not answered the job is kept with the
/// answer; once all have, the job is forgotten, and its task, where it runs, is
/// remembered as completed with the number of results and of errors and with the
/// results by rank.
pub open spec fn is_answered(
    state: ClusterView,
    after: ClusterView,
    job: MpiJobView,
    job_id: u128,
    task_id: u128,
    job_ms: u64,
) -> bool {
    if is_open(job) {
        after == (ClusterView {
            nodes: after.nodes,
            jobs: state.jobs.insert(job_id, job),
            ..state
        })
    } else if state.running.contains_key(task_id) {
        after == (ClusterView {
            nodes: after.nodes,
            jobs: state.jobs.remove(job_id),
            running: state.running.remove(task_id),
            since: state.since.remove(task_id),
            retries: state.retries.remove(task_id),
            completed: ends_with(
                state.completed,
                TaskStatusResponseView {
                    task: restated(
                        state.running[task_id],
                        TaskStatusView::MpiCompleted {
                            job_id,
                            duration_ms: job_ms,
                            ranks_ok: job.results.filter(
                                |r: Option<(TaskOutputView, u128)>| r is Some,
                            ).len() as u32,
                            ranks_failed: job.errors.filter(
                                |e: Option<Seq<char>>| e is Some,
                            ).len() as u32,
                        },
                    ),
                    result: None,
                    mpi_results: Some(rank_outputs(job.results)),
                },
            ),
            ..state
        })
    } else {
        after == (ClusterView { nodes: after.nodes, jobs: state.jobs.remove(job_id), ..state })
    }
}

/// What is counted of a list is how many of its places are filled.
pub proof fn law_filled_places_are_counted<T>(places: Seq<Option<T>>)
    ensures
        filled(places) == places.filter(|p: Option<T>| p is Some).len(),
    decreases places.len(),
{
    reveal(Seq::filter);
    if places.len() > 0 {
        law_filled_places_are_counted(places.drop_last());
    }
}

/// Keeping a job and forgetting it again forgets it.
proof fn lemma_answered(
    state: ClusterView,
    job: MpiJobView,
    job_id: u128,
    task_id: u128,
    job_ms: u64,
)
    requires
        state.wf(),
    ensures
        is_answered(
            state,
            state.with_answer(job_id, task_id, job, job_ms),
            job,
            job_id,
            task_id,
            job_ms,
        ),
{
    law_filled_places_are_counted(job.results);
    law_filled_places_are_counted(job.errors);
    assert(state.jobs.insert(job_id, job).remove(job_id) =~= state.jobs.remove(job_id));
    if is_open(job) {
        let rank = choose|rank: int|
            0 <= rank < job.total_ranks && !#[trigger] has_answered(job, rank);
        assert(!job.answered(rank));
        assert(!job.complete());
    } else {
        assert forall|rank: int| 0 <= rank < job.total_ranks implies job.answered(rank) by {
            assert(has_answered(job, rank));
        }
        assert(job.complete());
    }
}

/// The result of a rank is kept at its place in the job, with the node that it
/// came from. One active task less is counted there. The job goes on, or comes to
/// its end where it was the last to answer.
pub proof fn law_rank_result_reaches_its_job(
    state: ClusterView,
    channel: UnboundedSender<String>,
    job_id: u128,
    task_id: u128,
    node_id: u128,
    rank: u32,
    duration_ms: u64,
    output: TaskOutputView,
    readings: Readings,
)
    requires
        state.wf(),
        state.jobs.contains_key(job_id),
    ensures
        ({
            let message = WorkerMessageView::MpiRankResult {
                job_id,
                task_id,
                node_id,
                rank,
                duration_ms,
                output,
            };
            let after = state.received(channel, message, readings);
            let job = job_with_result(state.jobs[job_id], rank, output, node_id);
            &&& counts_down(state.nodes, after.nodes, node_id)
            &&& is_answered(state, after, job, job_id, task_id, readings.job_ms)
            &&& state.reply(message) is Nothing
        }),
{
    let told = state.drop_active(node_id);
    let job = state.jobs[job_id].with_result(rank, output, node_id);
    assert(told.nodes.dom() =~= state.nodes.dom());
    assert(told.wf());
    lemma_answered(told, job, job_id, task_id, readings.job_ms);
    assert(job == job_with_result(state.jobs[job_id], rank, output, node_id));
}

/// The error of a rank is kept at its place in the job. One active task less is
/// counted on the node. The job goes on, or comes to its end where it was the last
/// to answer; as long as another rank has not answered, everybody is told to give
/// the job up, and why.
pub proof fn law_rank_error_reaches_its_job(
    state: ClusterView,
    channel: UnboundedSender<String>,
    job_id: u128,
    task_id: u128,
    node_id: u128,
    rank: u32,
    reason: Seq<char>,
    readings: Readings,
)
    requires
        state.wf(),
        state.jobs.contains_key(job_id),
    ensures
        ({
            let message = WorkerMessageView::MpiRankError { job_id, task_id, node_id, rank, reason };
            let after = state.received(channel, message, readings);
            let job = job_with_error(state.jobs[job_id], rank, reason);
            &&& counts_down(state.nodes, after.nodes, node_id)
            &&& is_answered(state, after, job, job_id, task_id, readings.job_ms)
            &&& state.reply(message) == (if is_open(job) {
                ReplyView::ToAll(
                    ServerMessageView::AbortMpiJob {
                        job_id,
                        reason: "rank "@ + decimal(rank as nat) + " failed: "@ + reason,
                    },
                )
            } else {
                ReplyView::Nothing
            })
        }),
{
    let told = state.drop_active(node_id);
    let job = state.jobs[job_id].with_error(rank, reason);
    assert(told.nodes.dom() =~= state.nodes.dom());
    assert(told.wf());
    lemma_answered(told, job, job_id, task_id, readings.job_ms);
    assert(job == job_with_error(state.jobs[job_id], rank, reason));
    if is_open(job) {
        let other = choose|other: int|
            0 <= other < job.total_ranks && !#[trigger] has_answered(job, other);
        assert(!job.answered(other));
    } else {
        assert forall|other: int| 0 <= other < job.total_ranks implies job.answered(other) by {
            assert(has_answered(job, other));
        }
    }
}

/// An answer to an unknown job only counts down the active tasks of the node.
pub proof fn law_answer_to_no_job(
    state: ClusterView,
    channel: UnboundedSender<String>,
    job_id: u128,
    task_id: u128,
    node_id: u128,
    rank: u32,
    duration_ms: u64,
    output: TaskOutputView,
    reason: Seq<char>,
    readings: Readings,
)
    requires
        !state.jobs.contains_key(job_id),
    ensures
        ({
            let result = WorkerMessageView::MpiRankResult {
                job_id,
                task_id,
                node_id,
                rank,
                duration_ms,
                output,
            };
            let error = WorkerMessageView::MpiRankError { job_id, task_id, node_id, rank, reason };
            let after = state.received(channel, result, readings);
            &&& counts_down(state.nodes, after.nodes, node_id)
            &&& after == (ClusterView { nodes: after.nodes, ..state })
            &&& state.received(channel, error, readings) == after
            &&& state.reply(result) is Nothing
            &&& state.reply(error) is Nothing
        }),
{
    assert(state.drop_active(node_id).nodes.dom() =~= state.nodes.dom());
}

/// No other message is answered.
pub proof fn law_plain_messages_are_not_answered(state: ClusterView, message: WorkerMessageView)
    requires
        message is Heartbeat || message is TaskResult || message is TaskError
            || message is Draining,
    ensures
        state.reply(message) is Nothing,
{
}

/// Counted as online are exactly the known nodes that are online or busy.
pub proof fn law_online_nodes(state: ClusterView, id: u128)
    ensures
        state.online().contains(id) <==> state.nodes.contains_key(id) && (state.nodes[id].status
            == NodeStatus::Online || state.nodes[id].status == NodeStatus::Busy),
{
}

/// A new server knows nobody, has nothing to do and has done nothing; its settings
/// are the ones given.
pub proof fn law_new_server_is_empty(
    node_timeout_secs: u64,
    task_timeout_secs: u64,
    max_retries: u32,
    id: u128,
)
    ensures
        ({
            let state = ClusterView::initial(node_timeout_secs, task_timeout_secs, max_retries);
            &&& !state.nodes.contains_key(id)
            &&& !state.channels.contains_key(id)
            &&& !state.running.contains_key(id)
            &&& !state.retries.contains_key(id)
            &&& !state.jobs.contains_key(id)
            &&& state.pending.len() == 0
            &&& state.completed.len() == 0
            &&& state.lookup(id) is None
            &&& state.node_timeout_secs == node_timeout_secs
            &&& state.task_timeout_secs == task_timeout_secs
            &&& state.max_retries == max_retries
            &&& state.wf()
        }),
{
    let state = ClusterView::initial(node_timeout_secs, task_timeout_secs, max_retries);
    lemma_place_of(state.pending, id);
    lemma_place_of(tasks_of(state.completed), id);
    assert(place_of(state.pending, id) == 0);
    assert(state.since.dom() =~= state.running.dom());
}

/// The order of points in time: by seconds, then by nanoseconds.
pub proof fn law_time_order(a: Timestamp, b: Timestamp)
    ensures
        a.precedes(b) <==> is_before(a, b),
{
}

/// Whether a point in time lies more than a number of seconds before another.
pub open spec fn is_older(time: Timestamp, now: Timestamp, secs: u64) -> bool {
    time.secs + secs < now.secs || (time.secs + secs == now.secs && time.nanos < now.nanos)
}

/// Whether a timeout reaches from a point in time to one that the calendar holds.
pub open spec fn is_in_calendar(now: Timestamp, secs: u64) -> bool {
    secs <= 9_223_372_036_854_775 && -8_334_601_228_800 <= now.secs - secs && now.secs - secs
        <= 8_210_266_876_799
}

/// A round of the monitor is carried out wherever both timeouts reach to a point
/// that the calendar holds, and then only.
pub proof fn law_monitor_serves_ordinary_timeouts(
    state: ClusterView,
    after: ClusterView,
    node_time: Timestamp,
    task_time: Timestamp,
    done: bool,
)
    requires
        state.ticked(after, node_time, task_time, done),
        state.node_timeout_secs <= i64::MAX,
        state.task_timeout_secs <= i64::MAX,
    ensures
        done <==> is_in_calendar(node_time, state.node_timeout_secs) && is_in_calendar(
            task_time,
            state.task_timeout_secs,
        ),
        !is_in_calendar(node_time, state.node_timeout_secs) ==> after == state,
{
}

/// A node that has been silent for more seconds than the node timeout is offline
/// after a round of the monitor. Where it was not offline before, no task that runs
/// has anything to do with it any more.
pub proof fn law_monitor_finds_silent_nodes(
    state: ClusterView,
    after: ClusterView,
    node_time: Timestamp,
    task_time: Timestamp,
    done: bool,
    node_id: u128,
    id: u128,
)
    requires
        state.wf(),
        state.ticked(after, node_time, task_time, done),
        is_in_calendar(node_time, state.node_timeout_secs),
        state.nodes.contains_key(node_id),
        is_older(state.nodes[node_id].last_seen, node_time, state.node_timeout_secs),
    ensures
        after.nodes.contains_key(node_id),
        after.nodes[node_id].status == NodeStatus::Offline,
        state.nodes[node_id].status != NodeStatus::Offline && after.running.contains_key(id)
            ==> !is_on(after.running[id], node_id),
{
    law_dead_node_is_detected(state, after, node_time, task_time, done, node_id);
    if state.nodes[node_id].status != NodeStatus::Offline && after.running.contains_key(id) {
        assert(runs_nothing(after, node_id));
        if let TaskStatusView::MpiDispatched { node_ids, .. } = after.running[id].status {
            if is_on(after.running[id], node_id) {
                let i = choose|i: int| 0 <= i < node_ids.len() && #[trigger] node_ids[i] == node_id;
                assert(node_ids.contains(node_id));
            }
        }
    }
}

/// A node that has been silent for no longer than the node timeout is known after
/// a round of the monitor exactly as before.
pub proof fn law_monitor_keeps_live_nodes(
    state: ClusterView,
    after: ClusterView,
    node_time: Timestamp,
    task_time: Timestamp,
    done: bool,
    node_id: u128,
)
    requires
        state.wf(),
        state.ticked(after, node_time, task_time, done),
        is_in_calendar(node_time, state.node_timeout_secs),
        state.nodes.contains_key(node_id),
        !is_older(state.nodes[node_id].last_seen, node_time, state.node_timeout_secs),
    ensures
        after.nodes.contains_key(node_id),
        after.nodes[node_id] == state.nodes[node_id],
{
    law_live_node_is_kept(state, after, node_time, task_time, done, node_id);
}

/// Whether a task has been under way for more than a number of seconds: since it
/// was sent to its node or nodes, or since it is known to run.
pub open spec fn is_overdue(task: TaskView, since: Timestamp, now: Timestamp, secs: u64) -> bool {
    match task.status {
        TaskStatusView::Dispatched { .. } => is_older(since, now, secs),
        TaskStatusView::MpiDispatched { .. } => is_older(since, now, secs),
        TaskStatusView::Running { started_at, .. } => is_older(started_at, now, secs),
        TaskStatusView::MpiRunning { started_at, .. } => is_older(started_at, now, secs),
        _ => false,
    }
}

/// A task that has been under way for more seconds than the task timeout runs no
/// more after a round of the monitor that was carried out; where it had a retry it
/// waits, queued, with one retry less.
pub proof fn law_monitor_requeues_overdue_tasks(
    state: ClusterView,
    after: ClusterView,
    node_time: Timestamp,
    task_time: Timestamp,
    id: u128,
)
    requires
        state.wf(),
        state.ticked(after, node_time, task_time, true),
        is_in_calendar(task_time, state.task_timeout_secs),
        state.running.contains_key(id),
        is_overdue(state.running[id], state.since[id], task_time, state.task_timeout_secs),
    ensures
        !after.running.contains_key(id),
        state.retries_left(id) > 0 ==> after.pending.contains(
            restated(state.running[id], TaskStatusView::Queued),
        ) && after.retries_left(id) == state.retries_left(id) - 1,
{
    law_blocked_task_waits_again(state, after, node_time, task_time, id);
    assert(restated(state.running[id], TaskStatusView::Queued) == state.running[id].with_status(
        TaskStatusView::Queued,
    ));
}

/// A task that is not overdue, and on no node that has been silent for more seconds
/// than the node timeout, goes on through a round of the monitor as it was.
pub proof fn law_monitor_leaves_timely_tasks(
    state: ClusterView,
    after: ClusterView,
    node_time: Timestamp,
    task_time: Timestamp,
    id: u128,
)
    requires
        state.wf(),
        state.ticked(after, node_time, task_time, true),
        is_in_calendar(node_time, state.node_timeout_secs),
        is_in_calendar(task_time, state.task_timeout_secs),
        state.running.contains_key(id),
        !is_overdue(state.running[id], state.since[id], task_time, state.task_timeout_secs),
        forall|n: u128| #[trigger]
            state.nodes.contains_key(n) && is_older(
                state.nodes[n].last_seen,
                node_time,
                state.node_timeout_secs,
            ) ==> !is_on(state.running[id], n),
    ensures
        after.running.contains_key(id),
        after.running[id] == state.running[id],
        after.since[id] == state.since[id],
        after.retries_left(id) == state.retries_left(id),
{
    let cutoff = node_time.minus_seconds(state.node_timeout_secs);
    assert forall|n: u128| #[trigger]
        state.nodes.contains_key(n) && silent_since(state.nodes[n], cutoff) implies !runs_on(
        state.running[id],
        n,
    ) && !has_rank_on(state.running[id], n) by {
        assert(is_older(state.nodes[n].last_seen, node_time, state.node_timeout_secs));
        assert(!is_on(state.running[id], n));
        if let TaskStatusView::MpiDispatched { node_ids, .. } = state.running[id].status {
            if node_ids.contains(n) {
                let i = choose|i: int| 0 <= i < node_ids.len() && node_ids[i] == n;
                assert(node_ids[i] == n);
            }
        }
    }
    law_timely_task_goes_on(state, after, node_time, task_time, true, id);
}

/// The failure of a running task without a retry left is final: the task is
/// remembered as failed because its retries were used up, and one task less is
/// active on the node that reported.
pub proof fn law_last_failure_is_final(
    state: ClusterView,
    channel: UnboundedSender<String>,
    task_id: u128,
    node_id: u128,
    reason: Seq<char>,
    readings: Readings,
)
    requires
        state.wf(),
        state.running.contains_key(task_id),
        state.retries.contains_key(task_id) ==> state.retries[task_id] == 0,
    ensures
        ({
            let after = state.received(
                channel,
                WorkerMessageView::TaskError { task_id, node_id, reason },
                readings,
            );
            &&& counts_down(state.nodes, after.nodes, node_id)
            &&& after == (ClusterView {
                nodes: after.nodes,
                running: state.running.remove(task_id),
                since: state.since.remove(task_id),
                retries: state.retries.remove(task_id),
                completed: ends_with(
                    state.completed,
                    TaskStatusResponseView {
                        task: restated(
                            state.running[task_id],
                            TaskStatusView::Failed { reason: "max retries exceeded"@ },
                        ),
                        result: None,
                        mpi_results: None,
                    },
                ),
                ..state
            })
        }),
{
    let task = state.running[task_id];
    assert(task.id == task_id);
    law_exhausted_task_has_failed(state, task);
    let after = state.received(
        channel,
        WorkerMessageView::TaskError { task_id, node_id, reason },
        readings,
    );
    assert(after.nodes.dom() =~= state.nodes.dom());
}

/// In a server every node and every running task stands under its own identifier,
/// of every running task it is known since when and of no other, and every job
/// stands under the identifier of its task with a place for each of its ranks.
pub proof fn law_server_is_consistent(state: ClusterView, id: u128)
    requires
        state.wf(),
    ensures
        state.nodes.contains_key(id) ==> state.nodes[id].id == id,
        state.running.contains_key(id) ==> state.running[id].id == id,
        state.since.contains_key(id) <==> state.running.contains_key(id),
        state.jobs.contains_key(id) ==> state.jobs[id].task_id == id
            && state.jobs[id].results.len() == state.jobs[id].total_ranks
            && state.jobs[id].errors.len() == state.jobs[id].total_ranks,
        state.completed.len() <= 10_000,
{
}

/// A worker counts as the node that it last registered as.
pub proof fn law_session_belongs_to_the_registered_node(
    before: Option<u128>,
    message: WorkerMessageView,
)
    ensures
        message matches WorkerMessageView::Register { node_id, .. } ==> registered_as(
            before,
            message,
        ) == Some(node_id),
        message !is Register ==> registered_as(before, message) == before,
{
}

} // verus!
