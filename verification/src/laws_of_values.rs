//! What the contracts speak of is all that a value holds: its contents keep every
//! field of the value.
use crate::api::TaskStatusResponse;
use crate::clock::Timestamp;
use crate::executor::{HttpRequest, Plan, PlanView};
use crate::job::MpiJobState;
use crate::message::{ServerMessage, ServerMessageView, WorkerMessage, WorkerMessageView};
use crate::node::{NodeCapabilities, NodeInfo, NodeStats};
use crate::output::{failure_of, success_of, MpiRankOutput, TaskOutput, TaskOutputView};
use crate::scheduler::Broadcast;
use crate::session::{Reply, ReplyView};
use crate::string_map::{distinct_keys, map_of, with_entry, StringMap};
use crate::task::{
    no_requirements, MpiPeer, MpiSlot, Percent, Task, TaskKind, TaskKindView, TaskRequirements,
    TaskStatus, TaskStatusView,
};
use crate::worker::{result_view, Action, ActionView};
use vstd::prelude::*;
use vstd::std_specs::cmp::PartialEqSpec;

verus! {

/// A task is known with its identifier, time, priority, kind, requirements, status
/// and notes.
pub proof fn law_task_is_seen_whole(task: Task)
    ensures
        task.deep_view().id == task.id,
        task.deep_view().submitted_at == task.submitted_at,
        task.deep_view().priority == task.priority,
        task.deep_view().kind == task.kind.deep_view(),
        task.deep_view().requirements == task.requirements.deep_view(),
        task.deep_view().status == task.status.deep_view(),
        task.deep_view().meta == task.meta.deep_view(),
{
}

/// What a task does is known with all that was given.
pub proof fn law_kind_is_seen_whole(kind: TaskKind)
    ensures
        kind matches TaskKind::Shell { command, args, timeout_secs } ==> kind.deep_view() == (
        TaskKindView::Shell { command: command@, args: args.deep_view(), timeout_secs }),
        kind matches TaskKind::HttpFetch { url, method, body } ==> kind.deep_view() == (
        TaskKindView::HttpFetch { url: url@, method: method@, body: body.deep_view() }),
        kind matches TaskKind::Custom { tag, payload } ==> kind.deep_view() == (
        TaskKindView::Custom { tag: tag@, payload: payload@ }),
        kind matches TaskKind::Mpi { program, args, np, env, timeout_secs, use_mpirun }
            ==> kind.deep_view() == (TaskKindView::Mpi {
            program: program@,
            args: args.deep_view(),
            np,
            env: env.deep_view(),
            timeout_secs,
            use_mpirun,
        }),
{
}

/// Two kinds are equal exactly where they are of the same sort with the same data.
pub proof fn law_equal_kinds_do_the_same(a: TaskKind, b: TaskKind)
    ensures
        TaskKind::obeys_eq_spec(),
        a.eq_spec(&b) <==> a.deep_view() == b.deep_view(),
{
}

/// Requirements are known with all that they ask for, and the default ones ask for
/// nothing.
pub proof fn law_requirements_are_seen_whole(req: TaskRequirements)
    ensures
        req.deep_view().min_cpu_free_pct == req.min_cpu_free_pct,
        req.deep_view().min_ram_free_mb == req.min_ram_free_mb,
        req.deep_view().requires_gpu == req.requires_gpu,
        req.deep_view().required_tags == req.required_tags.deep_view(),
        req.deep_view().preferred_region == req.preferred_region.deep_view(),
        req.deep_view().mpi_slots_per_node == req.mpi_slots_per_node,
        no_requirements().min_cpu_free_pct == (Percent { bits: 0 }),
        no_requirements().min_ram_free_mb == 0,
        !no_requirements().requires_gpu,
        no_requirements().required_tags.len() == 0,
        no_requirements().preferred_region is None,
        no_requirements().mpi_slots_per_node is None,
{
}

/// A status is known with all that belongs to it.
pub proof fn law_status_is_seen_whole(status: TaskStatus)
    ensures
        status is Queued <==> status.deep_view() is Queued,
        status is TimedOut <==> status.deep_view() is TimedOut,
        status matches TaskStatus::Dispatched { node_id } ==> status.deep_view() == (
        TaskStatusView::Dispatched { node_id }),
        status matches TaskStatus::MpiDispatched { job_id, node_ids } ==> status.deep_view() == (
        TaskStatusView::MpiDispatched { job_id, node_ids: node_ids@ }),
        status matches TaskStatus::Running { node_id, started_at } ==> status.deep_view() == (
        TaskStatusView::Running { node_id, started_at }),
        status matches TaskStatus::MpiRunning { job_id, started_at, total_ranks }
            ==> status.deep_view() == (TaskStatusView::MpiRunning {
            job_id,
            started_at,
            total_ranks,
        }),
        status matches TaskStatus::Completed { node_id, duration_ms } ==> status.deep_view() == (
        TaskStatusView::Completed { node_id, duration_ms }),
        status matches TaskStatus::MpiCompleted { job_id, duration_ms, ranks_ok, ranks_failed }
            ==> status.deep_view() == (TaskStatusView::MpiCompleted {
            job_id,
            duration_ms,
            ranks_ok,
            ranks_failed,
        }),
        status matches TaskStatus::Failed { reason } ==> status.deep_view() == (
        TaskStatusView::Failed { reason: reason@ }),
{
}

/// The part of a node in a job is known with its rank, the number of ranks, the job
/// and the address of every rank.
pub proof fn law_slot_is_seen_whole(slot: MpiSlot, peer: MpiPeer)
    ensures
        slot.deep_view().rank == slot.rank,
        slot.deep_view().size == slot.size,
        slot.deep_view().peers == slot.peers.deep_view(),
        slot.deep_view().job_id == slot.job_id,
        peer.deep_view().host == peer.host@,
        peer.deep_view().port == peer.port,
        peer.deep_view().node_id == peer.node_id,
{
}

/// A node is known with its identifier, name, capabilities, load, status and when it
/// was last heard of.
pub proof fn law_node_is_seen_whole(node: NodeInfo)
    ensures
        node.deep_view().id == node.id,
        node.deep_view().name == node.name@,
        node.deep_view().capabilities == node.capabilities.deep_view(),
        node.deep_view().stats == node.stats,
        node.deep_view().status == node.status,
        node.deep_view().last_seen == node.last_seen,
{
}

/// What a node has declared is known as it was declared.
pub proof fn law_capabilities_are_seen_whole(capabilities: NodeCapabilities)
    ensures
        capabilities.deep_view().cpu_cores == capabilities.cpu_cores,
        capabilities.deep_view().total_ram_mb == capabilities.total_ram_mb,
        capabilities.deep_view().has_gpu == capabilities.has_gpu,
        capabilities.deep_view().tags == capabilities.tags.deep_view(),
        capabilities.deep_view().region == capabilities.region@,
        capabilities.deep_view().os == capabilities.os@,
        capabilities.deep_view().mpi_host == capabilities.mpi_host@,
        capabilities.deep_view().has_mpirun == capabilities.has_mpirun,
{
}

/// Loads, percentages and points in time are their own contents.
pub proof fn law_numbers_are_themselves(stats: NodeStats, percent: Percent, time: Timestamp)
    ensures
        stats.deep_view() == stats,
        percent.deep_view() == percent,
        time.deep_view() == time,
{
}

/// An output is known with its exit code and all that was written.
pub proof fn law_output_is_seen_whole(output: TaskOutput, rank_output: MpiRankOutput)
    ensures
        output.deep_view().exit_code == output.exit_code,
        output.deep_view().stdout == output.stdout@,
        output.deep_view().stderr == output.stderr@,
        output.deep_view().body == output.body.deep_view(),
        output.deep_view().custom_result == output.custom_result.deep_view(),
        rank_output.deep_view().rank == rank_output.rank,
        rank_output.deep_view().node_id == rank_output.node_id,
        rank_output.deep_view().output == rank_output.output.deep_view(),
{
}

/// What came of an execution is its output or the reason of its failure.
pub proof fn law_result_is_seen_whole(result: Result<TaskOutput, String>)
    ensures
        result matches Ok(output) ==> result_view(result) == Ok::<TaskOutputView, Seq<char>>(
            output.deep_view(),
        ),
        result matches Err(reason) ==> result_view(result) == Err::<TaskOutputView, Seq<char>>(
            reason@,
        ),
{
}

/// An answer about a task is known with the task and all that came of it.
pub proof fn law_answer_is_seen_whole(response: TaskStatusResponse)
    ensures
        response.deep_view().task == response.task.deep_view(),
        response.deep_view().result == response.result.deep_view(),
        response.deep_view().mpi_results == response.mpi_results.deep_view(),
{
}

/// A job is known with its task, its ranks, all answers and when it started.
pub proof fn law_job_is_seen_whole(job: MpiJobState)
    ensures
        job.deep_view().task_id == job.task_id,
        job.deep_view().total_ranks == job.total_ranks,
        job.deep_view().results == job.results.deep_view(),
        job.deep_view().errors == job.errors.deep_view(),
        job.deep_view().started_at == job.started_at,
{
}

/// A message of a worker is known with all that it says.
pub proof fn law_worker_message_is_seen_whole(message: WorkerMessage)
    ensures
        message matches WorkerMessage::Register { node_id, name, capabilities }
            ==> message.deep_view() == (WorkerMessageView::Register {
            node_id,
            name: name@,
            capabilities: capabilities.deep_view(),
        }),
        message matches WorkerMessage::Heartbeat { node_id, stats } ==> message.deep_view() == (
        WorkerMessageView::Heartbeat { node_id, stats }),
        message matches WorkerMessage::TaskResult { task_id, node_id, duration_ms, output }
            ==> message.deep_view() == (WorkerMessageView::TaskResult {
            task_id,
            node_id,
            duration_ms,
            output: output.deep_view(),
        }),
        message matches WorkerMessage::TaskError { task_id, node_id, reason }
            ==> message.deep_view() == (WorkerMessageView::TaskError {
            task_id,
            node_id,
            reason: reason@,
        }),
        message matches WorkerMessage::MpiRankResult {
            job_id,
            task_id,
            node_id,
            rank,
            duration_ms,
            output,
        } ==> message.deep_view() == (WorkerMessageView::MpiRankResult {
            job_id,
            task_id,
            node_id,
            rank,
            duration_ms,
            output: output.deep_view(),
        }),
        message matches WorkerMessage::MpiRankError { job_id, task_id, node_id, rank, reason }
            ==> message.deep_view() == (WorkerMessageView::MpiRankError {
            job_id,
            task_id,
            node_id,
            rank,
            reason: reason@,
        }),
        message matches WorkerMessage::Draining { node_id } ==> message.deep_view() == (
        WorkerMessageView::Draining { node_id }),
{
}

/// A message of the server is known with all that it says.
pub proof fn law_server_message_is_seen_whole(message: ServerMessage)
    ensures
        message matches ServerMessage::Registered { node_id } ==> message.deep_view() == (
        ServerMessageView::Registered { node_id }),
        message matches ServerMessage::DispatchTask { task } ==> message.deep_view() == (
        ServerMessageView::DispatchTask { task: task.deep_view() }),
        message matches ServerMessage::DispatchMpiSlot { task, slot } ==> message.deep_view() == (
        ServerMessageView::DispatchMpiSlot { task: task.deep_view(), slot: slot.deep_view() }),
        message matches ServerMessage::CancelTask { task_id } ==> message.deep_view() == (
        ServerMessageView::CancelTask { task_id }),
        message matches ServerMessage::AbortMpiJob { job_id, reason } ==> message.deep_view() == (
        ServerMessageView::AbortMpiJob { job_id, reason: reason@ }),
        message is ServerShutdown <==> message.deep_view() is ServerShutdown,
{
}

/// What a worker is to do is known with all that it needs for it.
pub proof fn law_action_is_seen_whole(action: Action)
    ensures
        action is Ignore <==> action.deep_view() is Ignore,
        action is EndSession <==> action.deep_view() is EndSession,
        action matches Action::Answer(message) ==> action.deep_view() == ActionView::Answer(
            message.deep_view(),
        ),
        action matches Action::Execute(task) ==> action.deep_view() == ActionView::Execute(
            task.deep_view(),
        ),
        action matches Action::ExecuteSlot { task, slot } ==> action.deep_view() == (
        ActionView::ExecuteSlot { task: task.deep_view(), slot: slot.deep_view() }),
{
}

/// A plan is known with all that is to be started, requested, reported or said.
pub proof fn law_plan_is_seen_whole(plan: Plan, request: HttpRequest)
    ensures
        plan matches Plan::Run(launch) ==> plan.deep_view() == PlanView::Run(launch.deep_view()),
        plan matches Plan::Fetch(r) ==> plan.deep_view() == PlanView::Fetch(r.deep_view()),
        plan matches Plan::Done(output) ==> plan.deep_view() == PlanView::Done(
            output.deep_view(),
        ),
        plan matches Plan::Refused(reason) ==> plan.deep_view() == PlanView::Refused(reason@),
        request.deep_view().method == request.method,
        request.deep_view().url == request.url@,
        request.deep_view().body == request.body.deep_view(),
{
}

/// A message that goes to nodes goes to each of them exactly once, and to no other.
pub proof fn law_broadcast_reaches_each_node_once(
    broadcast: Broadcast,
    nodes: Set<u128>,
    node: u128,
)
    requires
        broadcast.reaches(nodes),
    ensures
        nodes.contains(node) <==> exists|i: int|
            0 <= i < broadcast.targets@.len() && #[trigger] broadcast.targets@[i] == node,
        forall|i: int, j: int|
            #![trigger broadcast.targets@[i], broadcast.targets@[j]]
            0 <= i < j < broadcast.targets@.len() ==> broadcast.targets@[i]
                != broadcast.targets@[j],
{
    assert(broadcast.targets@.to_set().contains(node) <==> broadcast.targets@.contains(node));
}

/// A reply is the one described: nothing, the message to the worker, or the message
/// to every known node.
pub proof fn law_reply_says_what_it_should(reply: Reply, view: ReplyView, nodes: Set<u128>)
    requires
        reply.says(view, nodes),
    ensures
        view is Nothing <==> reply is Nothing,
        view matches ReplyView::ToWorker(m) ==> (reply matches Reply::ToWorker(message)
            && message.deep_view() == m),
        view matches ReplyView::ToAll(m) ==> (reply matches Reply::ToMany(broadcast)
            && broadcast.message.deep_view() == m && broadcast.reaches(nodes)),
{
}

/// Under a key of a list of entries stands the value of the last entry with this
/// key, and nothing where there is none.
pub proof fn law_last_entry_of_a_key_counts(
    entries: Seq<(Seq<char>, Seq<char>)>,
    at: int,
    key: Seq<char>,
)
    ensures
        0 <= at < entries.len() && (forall|i: int|
            at < i < entries.len() ==> (#[trigger] entries[i]).0 != entries[at].0) ==> map_of(
            entries,
        ).contains_key(entries[at].0) && map_of(entries)[entries[at].0] == entries[at].1,
        map_of(entries).contains_key(key) ==> exists|i: int|
            0 <= i < entries.len() && (#[trigger] entries[i]).0 == key,
    decreases entries.len(),
{
    if entries.len() > 0 {
        let front = entries.drop_last();
        law_last_entry_of_a_key_counts(front, at, key);
        if 0 <= at < front.len() && (forall|i: int|
            at < i < entries.len() ==> (#[trigger] entries[i]).0 != entries[at].0) {
            assert forall|i: int| at < i < front.len() implies (#[trigger] front[i]).0
                != front[at].0 by {
                assert(entries[i].0 != entries[at].0);
            }
            assert(entries[entries.len() - 1].0 != entries[at].0);
        }
        if map_of(entries).contains_key(key) {
            if key == entries.last().0 {
                assert(entries[entries.len() - 1].0 == key);
            } else {
                let i = choose|i: int| 0 <= i < front.len() && (#[trigger] front[i]).0 == key;
                assert(entries[i].0 == key);
            }
        }
    }
}

/// An entry takes the place of the first one with its key, or stands behind all
/// others where its key is new; every other entry stays where it is.
pub proof fn law_entry_takes_the_place_of_its_key(
    entries: Seq<(Seq<char>, Seq<char>)>,
    key: Seq<char>,
    value: Seq<char>,
    at: int,
)
    requires
        0 <= at <= entries.len(),
        forall|i: int| 0 <= i < at ==> (#[trigger] entries[i]).0 != key,
        at < entries.len() ==> entries[at].0 == key,
    ensures
        at < entries.len() ==> with_entry(entries, key, value) == entries.update(
            at,
            (key, value),
        ),
        at == entries.len() ==> with_entry(entries, key, value) == entries.push((key, value)),
    decreases entries.len(),
{
    if entries.len() == 0 {
        assert(with_entry(entries, key, value) =~= entries.push((key, value)));
    } else if at > 0 {
        let rest = entries.drop_first();
        assert(entries[0].0 != key);
        assert forall|i: int| 0 <= i < at - 1 implies (#[trigger] rest[i]).0 != key by {
            assert(entries[i + 1].0 != key);
        }
        law_entry_takes_the_place_of_its_key(rest, key, value, at - 1);
        if at < entries.len() {
            assert(with_entry(entries, key, value) =~= entries.update(at, (key, value)));
        } else {
            assert(with_entry(entries, key, value) =~= entries.push((key, value)));
        }
    }
}

/// A map holds what its entries hold, and two maps are equal exactly where they hold
/// the same.
pub proof fn law_map_is_its_entries(a: StringMap, b: StringMap)
    ensures
        a.deep_view() == map_of(a.listing()),
        StringMap::obeys_eq_spec(),
        a.eq_spec(&b) <==> a.deep_view() == b.deep_view(),
{
}

/// No two entries have the same key exactly where every key stands at one place.
pub proof fn law_keys_are_distinct(entries: Seq<(Seq<char>, Seq<char>)>, i: int, j: int)
    requires
        distinct_keys(entries),
        0 <= i < entries.len(),
        0 <= j < entries.len(),
        entries[i].0 == entries[j].0,
    ensures
        i == j,
{
}

/// A success has exit code 0 and what it printed; a failure has its exit code and
/// what it complained with; neither has anything else.
pub proof fn law_plain_outputs(text: Seq<char>, exit_code: i32)
    ensures
        success_of(text).exit_code == 0,
        success_of(text).stdout == text,
        success_of(text).stderr.len() == 0,
        success_of(text).body is None,
        success_of(text).custom_result is None,
        failure_of(exit_code, text).exit_code == exit_code,
        failure_of(exit_code, text).stdout.len() == 0,
        failure_of(exit_code, text).stderr == text,
        failure_of(exit_code, text).body is None,
        failure_of(exit_code, text).custom_result is None,
{
}

} // verus!
