//! What holds of the client: what it submits, when it stops waiting and with what
//! verdict, and what it shows.
use crate::api::{ServerStatusResponse, TaskStatusResponseView};
use crate::clock::time_text;
use crate::ident::hyphenated;
use crate::laws_of_text::law_joined_lists_are_joined;
use crate::node::{NodeInfoView, NodeStatus};
use crate::output::{MpiRankOutputView, TaskOutputView};
use crate::show::{
    completed_shown, has_valid_time, id_list, job_shown, node_row, node_shown, node_status_shown,
    nodes_shown, poll_complaints, poll_shown, poll_verdict, quoted_text, rank_line, rank_lines,
    rank_shown, ranks_shown, server_shown, status_shown, stream_shown, submission_shown, table_head,
    table_rule, table_shown, task_shown, verdict_view, waiting_shown,
};
use crate::submitter::{
    address_of, bad_pair, is_id_or_refused, kind_of, pair_key, pair_value, refusal, requirements_of,
    variables, Asked, SubmitArgs, SubmitKind,
};
use crate::task::{TaskKindView, TaskStatusView};
use crate::text::{
    decimal, first_of, lemma_first_of, lemma_first_of_at, lines_of, padded, signed_decimal, trimmed,
};
use vstd::prelude::*;

verus! {

/// A job counts as a success exactly where none of its ranks failed, however many
/// succeeded; where some failed, the reason tells how many.
pub proof fn law_job_succeeds_without_failed_ranks(
    job_id: u128,
    duration_ms: u64,
    ranks_ok: u32,
    ranks_failed: u32,
)
    ensures
        ({
            let verdict = poll_verdict(
                TaskStatusView::MpiCompleted { job_id, duration_ms, ranks_ok, ranks_failed },
            );
            &&& verdict is Some
            &&& verdict == Some(Ok::<(), Seq<char>>(())) <==> ranks_failed == 0
            &&& ranks_failed > 0 ==> verdict == Some(
                Err::<(), Seq<char>>(decimal(ranks_failed as nat) + " MPI rank(s) failed"@),
            )
        }),
{
}

/// The verdict on a job depends on the number of failed ranks alone: two jobs with
/// as many failed ranks get the same, whatever else they differ in.
pub proof fn law_verdict_goes_by_failed_ranks(a: TaskStatusView, b: TaskStatusView)
    requires
        a is MpiCompleted,
        b is MpiCompleted,
        a->ranks_failed == b->ranks_failed,
    ensures
        poll_verdict(a) == poll_verdict(b),
{
}

/// A client stops waiting when the task has completed, failed or timed out. It
/// counts as a success only where it has completed, and for a job where no rank
/// failed; the reason of a failure is passed on.
pub proof fn law_verdict_tells_the_end(status: TaskStatusView)
    ensures
        poll_verdict(status) is None <==> status is Queued || status is Dispatched
            || status is MpiDispatched || status is Running || status is MpiRunning,
        poll_verdict(status) == Some(Ok::<(), Seq<char>>(())) <==> status is Completed || (
        status is MpiCompleted && status->ranks_failed == 0),
        status matches TaskStatusView::Failed { reason } ==> poll_verdict(status) == Some(
            Err::<(), Seq<char>>("Task failed: "@ + reason),
        ),
        status is TimedOut ==> poll_verdict(status) == Some(
            Err::<(), Seq<char>>("Task timed out"@),
        ),
{
}

/// A verdict is a success, a failure for a reason, or still to come.
pub proof fn law_verdict_is_seen_whole(verdict: Option<Result<(), String>>)
    ensures
        verdict_view(verdict) is None <==> verdict is None,
        verdict_view(verdict) == Some(Ok::<(), Seq<char>>(())) <==> verdict matches Some(Ok(_)),
        verdict matches Some(Err(why)) ==> verdict_view(verdict) == Some(
            Err::<(), Seq<char>>(why@),
        ),
{
}

/// A client complains of a task that failed, with its reason, and of one that timed
/// out, and of no other.
pub proof fn law_failures_are_complained_of(status: TaskStatusView)
    ensures
        status matches TaskStatusView::Failed { reason } ==> poll_complaints(status) == seq![
            "✗ Failed: "@ + reason,
        ],
        status is TimedOut ==> poll_complaints(status) == seq!["✗ Timed out"@],
        status !is Failed && status !is TimedOut ==> poll_complaints(status) == Seq::<
            Seq<char>,
        >::empty(),
{
}

/// While a client waits it shows the status; of a completed task or job it shows
/// what came of it.
pub proof fn law_end_is_shown(response: TaskStatusResponseView)
    ensures
        poll_verdict(response.task.status) is None ==> poll_shown(response) == seq![
            "  status: "@ + status_shown(response.task.status),
        ],
        response.task.status matches TaskStatusView::Completed { node_id, duration_ms }
            ==> poll_shown(response) == completed_shown(node_id, duration_ms, response.result),
        response.task.status matches TaskStatusView::MpiCompleted {
            job_id,
            duration_ms,
            ranks_ok,
            ranks_failed,
        } ==> poll_shown(response) == job_shown(
            job_id,
            duration_ms,
            ranks_ok,
            ranks_failed,
            response.mpi_results,
        ),
        poll_complaints(response.task.status).len() > 0 ==> poll_shown(response).len() == 0,
{
}

/// Of a completed task the time and the node are shown, then what it wrote where it
/// wrote anything, and last its exit code.
pub proof fn law_completed_task_is_shown(
    node_id: u128,
    duration_ms: u64,
    output: TaskOutputView,
)
    ensures
        completed_shown(node_id, duration_ms, None) == seq![
            "✓ Completed in "@ + decimal(duration_ms as nat) + "ms (node: "@ + hyphenated(node_id)
                + ")"@,
        ],
        completed_shown(node_id, duration_ms, Some(output)) == completed_shown(
            node_id,
            duration_ms,
            None,
        ) + stream_shown("--- stdout ---\n"@, output.stdout) + stream_shown(
            "--- stderr ---\n"@,
            output.stderr,
        ) + seq!["Exit code: "@ + signed_decimal(output.exit_code as int)],
{
    assert(completed_shown(node_id, duration_ms, Some(output)) =~= completed_shown(
        node_id,
        duration_ms,
        None,
    ) + stream_shown("--- stdout ---\n"@, output.stdout) + stream_shown(
        "--- stderr ---\n"@,
        output.stderr,
    ) + seq!["Exit code: "@ + signed_decimal(output.exit_code as int)]);
}

/// What was written is shown under its heading without the white space around it;
/// where nothing was written nothing is shown.
pub proof fn law_written_text_is_shown(heading: Seq<char>, written: Seq<char>)
    ensures
        written.len() == 0 ==> stream_shown(heading, written).len() == 0,
        written.len() > 0 ==> stream_shown(heading, written) == seq![heading + trimmed(written)],
{
}

/// Of a completed job the counts are shown, then each rank in turn.
pub proof fn law_completed_job_is_shown(
    job_id: u128,
    duration_ms: u64,
    ranks_ok: u32,
    ranks_failed: u32,
    a: Seq<MpiRankOutputView>,
    b: Seq<MpiRankOutputView>,
    output: MpiRankOutputView,
)
    ensures
        job_shown(job_id, duration_ms, ranks_ok, ranks_failed, None) == seq![
            "✓ MPI job "@ + hyphenated(job_id) + " completed in "@ + decimal(duration_ms as nat)
                + "ms  ("@ + decimal(ranks_ok as nat) + " ranks OK, "@ + decimal(
                ranks_failed as nat,
            ) + " failed)"@,
        ],
        job_shown(job_id, duration_ms, ranks_ok, ranks_failed, Some(a)) == job_shown(
            job_id,
            duration_ms,
            ranks_ok,
            ranks_failed,
            None,
        ) + ranks_shown(a),
        ranks_shown(a + b) == ranks_shown(a) + ranks_shown(b),
        ranks_shown(seq![output]) == rank_shown(output),
    decreases b.len(),
{
    reveal_with_fuel(ranks_shown, 2);
    assert(seq![output].drop_last() =~= Seq::<MpiRankOutputView>::empty());
    assert(ranks_shown(seq![output]) =~= rank_shown(output));
    if b.len() > 0 {
        assert((a + b).drop_last() =~= a + b.drop_last());
        law_completed_job_is_shown(
            job_id,
            duration_ms,
            ranks_ok,
            ranks_failed,
            a,
            b.drop_last(),
            output,
        );
        assert(ranks_shown(a + b) =~= ranks_shown(a) + ranks_shown(b));
    } else {
        assert(a + b =~= a);
        assert(ranks_shown(a + b) =~= ranks_shown(a) + ranks_shown(b));
    }
}

/// Of a rank its node and exit code are shown, then each line that it wrote, with
/// its rank in front.
pub proof fn law_rank_is_shown(output: MpiRankOutputView)
    ensures
        ({
            let shown = rank_shown(output);
            let lines = lines_of(trimmed(output.output.stdout));
            &&& shown[0] == "  rank "@ + decimal(output.rank as nat) + " (node "@ + hyphenated(
                output.node_id,
            ) + ")  exit="@ + signed_decimal(output.output.exit_code as int)
            &&& output.output.stdout.len() == 0 ==> shown.len() == 1
            &&& output.output.stdout.len() > 0 ==> shown.len() == 1 + lines.len()
            &&& output.output.stdout.len() > 0 ==> forall|i: int|
                #![trigger lines[i]]
                0 <= i < lines.len() ==> shown[i + 1] == "    [rank "@ + decimal(
                    output.rank as nat,
                ) + "] "@ + lines[i]
        }),
{
    let shown = rank_shown(output);
    let lines = lines_of(trimmed(output.output.stdout));
    if output.output.stdout.len() > 0 {
        assert forall|i: int| #![trigger lines[i]] 0 <= i < lines.len() implies shown[i + 1]
            == "    [rank "@ + decimal(output.rank as nat) + "] "@ + lines[i] by {
            assert(shown[i + 1] == rank_lines(output.rank, lines)[i]);
        }
    }
}

/// Every status is shown by its name with what belongs to it.
pub proof fn law_status_is_shown(status: TaskStatusView)
    ensures
        status is Queued ==> status_shown(status) == "Queued"@,
        status is TimedOut ==> status_shown(status) == "TimedOut"@,
        status matches TaskStatusView::Dispatched { node_id } ==> status_shown(status)
            == "Dispatched { node_id: "@ + hyphenated(node_id) + " }"@,
        status matches TaskStatusView::MpiDispatched { job_id, node_ids } ==> status_shown(status)
            == "MpiDispatched { job_id: "@ + hyphenated(job_id) + ", node_ids: "@ + id_list(
            node_ids,
        ) + " }"@,
        status matches TaskStatusView::Running { node_id, started_at } ==> status_shown(status)
            == "Running { node_id: "@ + hyphenated(node_id) + ", started_at: "@ + time_text(
            started_at.secs,
            started_at.nanos,
        ) + " }"@,
        status matches TaskStatusView::MpiRunning { job_id, started_at, total_ranks }
            ==> status_shown(status) == "MpiRunning { job_id: "@ + hyphenated(job_id)
            + ", started_at: "@ + time_text(started_at.secs, started_at.nanos)
            + ", total_ranks: "@ + decimal(total_ranks as nat) + " }"@,
        status matches TaskStatusView::Completed { node_id, duration_ms } ==> status_shown(status)
            == "Completed { node_id: "@ + hyphenated(node_id) + ", duration_ms: "@ + decimal(
            duration_ms as nat,
        ) + " }"@,
        status matches TaskStatusView::MpiCompleted { job_id, duration_ms, ranks_ok, ranks_failed }
            ==> status_shown(status) == "MpiCompleted { job_id: \""@ + hyphenated(job_id)
            + "\", duration_ms: "@ + decimal(duration_ms as nat) + ", ranks_ok: "@ + decimal(
            ranks_ok as nat,
        ) + ", ranks_failed: "@ + decimal(ranks_failed as nat) + " }"@,
        status matches TaskStatusView::Failed { reason } ==> status_shown(status)
            == "Failed { reason: "@ + quoted_text(reason) + " }"@,
        has_valid_time(status) <==> (status is Running ==> status->Running_started_at
            .is_representable()) && (status is MpiRunning ==> status->MpiRunning_started_at
            .is_representable()),
{
}

/// Identifiers are listed in their order between brackets.
pub proof fn law_identifiers_are_listed(a: Seq<u128>, b: Seq<u128>, id: u128)
    ensures
        id_list(Seq::empty()) == "["@ + Seq::<char>::empty() + "]"@,
        id_list(seq![id]) == "["@ + hyphenated(id) + "]"@,
        a.len() > 0 && b.len() > 0 ==> exists|before: Seq<char>, behind: Seq<char>|
            id_list(a) == #[trigger] ("["@ + before + "]"@) && id_list(b) == #[trigger] ("["@
                + behind + "]"@) && id_list(a + b) == "["@ + (before + ", "@ + behind) + "]"@,
{
    let shown = |id: u128| hyphenated(id);
    law_joined_lists_are_joined(
        a.map_values(shown),
        b.map_values(shown),
        hyphenated(id),
        ", "@,
    );
    assert(Seq::<u128>::empty().map_values(shown) =~= Seq::<Seq<char>>::empty());
    assert(seq![id].map_values(shown) =~= seq![hyphenated(id)]);
    assert((a + b).map_values(shown) =~= a.map_values(shown) + b.map_values(shown));
}

/// After a submission the task's identifier and its status are shown.
pub proof fn law_submission_is_shown(task_id: u128, status: TaskStatusView)
    ensures
        submission_shown(task_id, status).len() == 2,
        submission_shown(task_id, status)[0] == "Task submitted: "@ + hyphenated(task_id),
        submission_shown(task_id, status)[1] == "Status: "@ + status_shown(status),
{
}

/// Of a task that was asked for, its identifier, priority and status are shown, of
/// its result the exit code and what it wrote, and of each rank one line.
pub proof fn law_task_is_shown(response: TaskStatusResponseView)
    ensures
        task_shown(response).len() >= 3,
        task_shown(response)[0] == "Task:     "@ + hyphenated(response.task.id),
        task_shown(response)[1] == "Priority: "@ + decimal(response.task.priority as nat),
        task_shown(response)[2] == "Status:   "@ + status_shown(response.task.status),
        response.result is None && response.mpi_results is None ==> task_shown(response).len()
            == 3,
        response.result matches Some(output) ==> task_shown(response)[3] == "Exit:     "@
            + signed_decimal(output.exit_code as int) && (output.stdout.len() > 0 ==> task_shown(
            response,
        )[4] == "--- stdout ---\n"@ + trimmed(output.stdout)),
        response.result is None && response.mpi_results is Some ==> ({
            let outputs = response.mpi_results->0;
            &&& task_shown(response).len() == 3 + outputs.len()
            &&& forall|i: int|
                #![trigger outputs[i]]
                0 <= i < outputs.len() ==> task_shown(response)[i + 3] == "  rank "@ + decimal(
                    outputs[i].rank as nat,
                ) + " node "@ + hyphenated(outputs[i].node_id) + " exit="@ + signed_decimal(
                    outputs[i].output.exit_code as int,
                )
        }),
{
    if response.result is None && response.mpi_results is Some {
        let outputs = response.mpi_results->0;
        assert forall|i: int| #![trigger outputs[i]] 0 <= i < outputs.len() implies task_shown(
            response,
        )[i + 3] == "  rank "@ + decimal(outputs[i].rank as nat) + " node "@ + hyphenated(
            outputs[i].node_id,
        ) + " exit="@ + signed_decimal(outputs[i].output.exit_code as int) by {
            assert(task_shown(response)[i + 3] == rank_line(outputs[i]));
        }
    }
}

/// Each count of the server is shown behind its own label.
pub proof fn law_server_is_shown(status: ServerStatusResponse)
    ensures
        server_shown(status).len() == 5,
        server_shown(status)[0] == "HyperCompute Server v"@ + status.version@,
        server_shown(status)[1] == "  Online nodes:    "@ + decimal(status.online_nodes as nat),
        server_shown(status)[2] == "  Queued tasks:    "@ + decimal(status.queued_tasks as nat),
        server_shown(status)[3] == "  Running tasks:   "@ + decimal(status.running_tasks as nat),
        server_shown(status)[4] == "  Completed tasks: "@ + decimal(
            status.completed_tasks as nat,
        ),
{
}

/// The row of a node holds its identifier, name, status, load, free memory, tasks,
/// region and whether it has a launcher, each in a column, and ends with its host.
pub proof fn law_row_tells_the_node(node: NodeInfoView, cpu: Seq<char>)
    ensures
        node_row(node, cpu) == padded(hyphenated(node.id), 37) + " "@ + padded(node.name, 20)
            + " "@ + padded(node_status_shown(node.status), 10) + " "@ + padded(cpu, 8) + " "@
            + padded(decimal(node.stats.ram_free_mb as nat) + "MB"@, 7) + " "@ + padded(
            decimal(node.stats.active_tasks as nat),
            6,
        ) + " "@ + padded(node.capabilities.region, 8) + " "@ + padded(
            if node.capabilities.has_mpirun {
                "yes"@
            } else {
                "no"@
            },
            6,
        ) + " "@ + node.capabilities.mpi_host,
        node_status_shown(NodeStatus::Online) == "Online"@,
        node_status_shown(NodeStatus::Busy) == "Busy"@,
        node_status_shown(NodeStatus::Draining) == "Draining"@,
        node_status_shown(NodeStatus::Offline) == "Offline"@,
{
}

/// The nodes are shown in their order, each by its row and, where it has tags, by
/// these; above them stand a head and a rule.
pub proof fn law_table_lists_the_nodes(
    nodes: Seq<NodeInfoView>,
    cpus: Seq<Seq<char>>,
    node: NodeInfoView,
    cpu: Seq<char>,
)
    requires
        nodes.len() == cpus.len(),
    ensures
        table_shown(Seq::empty(), Seq::empty()) == seq!["No nodes registered."@],
        table_shown(seq![node], seq![cpu]) == seq![table_head(), table_rule()] + node_shown(
            node,
            cpu,
        ),
        nodes.len() > 0 ==> table_shown(nodes.push(node), cpus.push(cpu)) == table_shown(
            nodes,
            cpus,
        ) + node_shown(node, cpu),
        node_shown(node, cpu)[0] == node_row(node, cpu),
        node.capabilities.tags.len() == 0 ==> node_shown(node, cpu).len() == 1,
        node.capabilities.tags.len() == 1 ==> node_shown(node, cpu) == seq![
            node_row(node, cpu),
            "  tags: "@ + node.capabilities.tags[0],
        ],
        table_rule().len() == 120,
        forall|i: int| 0 <= i < 120 ==> #[trigger] table_rule()[i] == '-',
{
    reveal_with_fuel(nodes_shown, 2);
    assert(seq![node].drop_last() =~= Seq::<NodeInfoView>::empty());
    assert(table_shown(seq![node], seq![cpu]) =~= seq![table_head(), table_rule()] + node_shown(
        node,
        cpu,
    ));
    assert(nodes.push(node).drop_last() =~= nodes);
    lemma_loads_behind_do_not_matter(nodes, cpus, cpu);
    if nodes.len() > 0 {
        assert(table_shown(nodes.push(node), cpus.push(cpu)) =~= table_shown(nodes, cpus)
            + node_shown(node, cpu));
    }
    if node.capabilities.tags.len() == 1 {
        let tags = node.capabilities.tags;
        assert(tags =~= seq![tags[0]]);
        law_joined_lists_are_joined(tags, tags, tags[0], ", "@);
    }
}

/// The loads of nodes that are not listed do not matter.
proof fn lemma_loads_behind_do_not_matter(
    nodes: Seq<NodeInfoView>,
    cpus: Seq<Seq<char>>,
    cpu: Seq<char>,
)
    requires
        nodes.len() <= cpus.len(),
    ensures
        nodes_shown(nodes, cpus.push(cpu)) == nodes_shown(nodes, cpus),
    decreases nodes.len(),
{
    if nodes.len() > 0 {
        lemma_loads_behind_do_not_matter(nodes.drop_last(), cpus, cpu);
    }
}

/// The head of the table names the columns, over those of the rows.
pub proof fn law_head_names_the_columns()
    ensures
        table_head() == padded("NODE ID"@, 38) + " "@ + padded("NAME"@, 20) + " "@ + padded(
            "STATUS"@,
            10,
        ) + " "@ + padded("CPU%used"@, 8) + " "@ + padded("RAM free"@, 8) + " "@ + padded(
            "Tasks"@,
            6,
        ) + " "@ + padded("Region"@, 8) + " "@ + padded("mpirun"@, 6) + " "@ + "MPI host"@,
{
}

/// A shell command, a fetch and a job are submitted with all that was given.
pub proof fn law_submitted_kind_is_the_given_one(kind: SubmitKind)
    ensures
        kind matches SubmitKind::Shell { command, args, timeout } ==> (kind_of(
            kind,
        ) matches TaskKindView::Shell { command: c, args: a, timeout_secs } && c == command@ && a
            == args.deep_view() && timeout_secs == timeout),
        kind matches SubmitKind::Fetch { url, method, body } ==> (kind_of(
            kind,
        ) matches TaskKindView::HttpFetch { url: u, method: m, body: b } && u == url@ && m
            == method@ && b == body.deep_view()),
        kind matches SubmitKind::Mpi { program, args, np, mpirun, env, timeout } ==> (kind_of(
            kind,
        ) matches TaskKindView::Mpi {
            program: p,
            args: a,
            np: n,
            env: e,
            timeout_secs,
            use_mpirun,
        } && p == program@ && a == args.deep_view() && n == np && e == variables(env.deep_view())
            && timeout_secs == timeout && use_mpirun == mpirun),
{
}

/// A task is submitted with the requirements that were given; a job needs one slot
/// on each node besides, and no other task needs any.
pub proof fn law_submitted_requirements_are_the_given_ones(args: SubmitArgs)
    ensures
        requirements_of(args).min_cpu_free_pct == args.min_cpu,
        requirements_of(args).min_ram_free_mb == args.min_ram,
        requirements_of(args).requires_gpu == args.gpu,
        requirements_of(args).required_tags.len() == args.tags@.len(),
        forall|i: int|
            0 <= i < args.tags@.len() ==> requirements_of(args).required_tags[i] == (
            #[trigger] args.tags@[i])@,
        args.region is None ==> requirements_of(args).preferred_region is None,
        args.region matches Some(region) ==> requirements_of(args).preferred_region == Some(
            region@,
        ),
        args.kind is Mpi ==> requirements_of(args).mpi_slots_per_node == Some(1u32),
        args.kind !is Mpi ==> requirements_of(args).mpi_slots_per_node is None,
{
}

/// A text holds a character somewhere.
pub open spec fn holds(text: Seq<char>, c: char) -> bool {
    exists|i: int| 0 <= i < text.len() && #[trigger] text[i] == c
}

/// A variable is given as its name, a `=` and its value. The first `=` counts: a
/// value may hold others, a name none.
pub proof fn law_pair_is_name_and_value(name: Seq<char>, value: Seq<char>)
    requires
        !holds(name, '='),
    ensures
        pair_key(name + seq!['='] + value) == name,
        pair_value(name + seq!['='] + value) == value,
{
    let pair = name + seq!['='] + value;
    let n = name.len() as int;
    assert(pair[n] == '=');
    assert forall|i: int| 0 <= i < n implies pair[i] != '=' by {
        assert(pair[i] == name[i]);
    }
    lemma_first_of_at(pair, '=', n);
    assert(pair.take(n) =~= name);
    assert(pair.skip(n + 1) =~= value);
}

/// The first pair without a `=` is the one that is refused, and none is where each
/// holds one.
pub proof fn law_first_bad_pair_is_refused(pairs: Seq<Seq<char>>, at: int)
    ensures
        0 <= at < pairs.len() && !holds(pairs[at], '=') && (forall|i: int|
            0 <= i < at ==> holds(#[trigger] pairs[i], '=')) ==> bad_pair(pairs) == Some(
            pairs[at],
        ),
        (forall|i: int| 0 <= i < pairs.len() ==> holds(#[trigger] pairs[i], '='))
            <==> bad_pair(pairs) is None,
    decreases pairs.len(),
{
    if pairs.len() > 0 {
        let front = pairs.drop_last();
        let last = pairs.last();
        law_first_bad_pair_is_refused(front, at);
        lemma_first_of(last, '=');
        assert(last == pairs[pairs.len() - 1]);
        assert(first_of(last, '=') < last.len() <==> holds(last, '='));
        if forall|i: int| 0 <= i < pairs.len() ==> holds(#[trigger] pairs[i], '=') {
            assert forall|i: int| 0 <= i < front.len() implies holds(#[trigger] front[i], '=') by {
                assert(holds(pairs[i], '='));
            }
        }
        if bad_pair(pairs) is None {
            assert forall|i: int| 0 <= i < pairs.len() implies holds(#[trigger] pairs[i], '=') by {
                if i < front.len() {
                    assert(front[i] == pairs[i]);
                }
            }
        }
        if 0 <= at < pairs.len() && !holds(pairs[at], '=') && (forall|i: int|
            0 <= i < at ==> holds(#[trigger] pairs[i], '=')) {
            assert forall|i: int| 0 <= i < at && i < front.len() implies holds(
                #[trigger] front[i],
                '=',
            ) by {
                assert(holds(pairs[i], '='));
            }
            if at < front.len() {
                assert(front[at] == pairs[at]);
            }
        }
    }
}

/// A job is refused for a pair without a `=`, which the reason names; nothing else
/// is refused.
pub proof fn law_only_bad_pairs_are_refused(kind: SubmitKind)
    ensures
        kind !is Mpi ==> refusal(kind) is None,
        kind matches SubmitKind::Mpi { env, .. } ==> (refusal(kind) is None <==> forall|i: int|
            0 <= i < env@.len() ==> holds((#[trigger] env@[i])@, '=')),
        kind matches SubmitKind::Mpi { env, .. } ==> (bad_pair(env.deep_view()) matches Some(pair)
            ==> refusal(kind) == Some("--env must be KEY=VALUE, got: "@ + pair)),
{
    if let SubmitKind::Mpi { env, .. } = kind {
        let pairs = env.deep_view();
        law_first_bad_pair_is_refused(pairs, 0);
        if forall|i: int| 0 <= i < env@.len() ==> holds((#[trigger] env@[i])@, '=') {
            assert forall|i: int| 0 <= i < pairs.len() implies holds(#[trigger] pairs[i], '=') by {
                assert(pairs[i] == env@[i]@);
            }
        }
        if forall|i: int| 0 <= i < pairs.len() ==> holds(#[trigger] pairs[i], '=') {
            assert forall|i: int| 0 <= i < env@.len() implies holds(
                (#[trigger] env@[i])@,
                '=',
            ) by {
                assert(pairs[i] == env@[i]@);
            }
        }
    }
}

/// Every name that a pair gives is a variable, with the value of the last pair of
/// that name, and there are no others.
pub proof fn law_last_pair_of_a_name_counts(pairs: Seq<Seq<char>>, at: int, name: Seq<char>)
    ensures
        0 <= at < pairs.len() && (forall|i: int|
            at < i < pairs.len() ==> pair_key(#[trigger] pairs[i]) != pair_key(pairs[at]))
            ==> variables(pairs).contains_key(pair_key(pairs[at])) && variables(
            pairs,
        )[pair_key(pairs[at])] == pair_value(pairs[at]),
        variables(pairs).contains_key(name) ==> exists|i: int|
            0 <= i < pairs.len() && pair_key(#[trigger] pairs[i]) == name,
    decreases pairs.len(),
{
    if pairs.len() > 0 {
        let front = pairs.drop_last();
        law_last_pair_of_a_name_counts(front, at, name);
        if 0 <= at < front.len() && (forall|i: int|
            at < i < pairs.len() ==> pair_key(#[trigger] pairs[i]) != pair_key(pairs[at])) {
            assert forall|i: int| at < i < front.len() implies pair_key(#[trigger] front[i])
                != pair_key(front[at]) by {
                assert(pair_key(pairs[i]) != pair_key(pairs[at]));
            }
            assert(pair_key(pairs[pairs.len() - 1]) != pair_key(pairs[at]));
        }
        if variables(pairs).contains_key(name) {
            if name == pair_key(pairs.last()) {
                assert(pair_key(pairs[pairs.len() - 1]) == name);
            } else {
                let i = choose|i: int|
                    0 <= i < front.len() && pair_key(#[trigger] front[i]) == name;
                assert(pair_key(pairs[i]) == name);
            }
        }
    }
}

/// A text that names an identifier gives it; any other is refused with a reason.
pub proof fn law_identifier_is_read_or_refused(parsed: Option<u128>, r: Result<u128, String>)
    requires
        is_id_or_refused(parsed, r),
    ensures
        r is Ok <==> parsed is Some,
        r matches Ok(id) ==> parsed == Some(id),
        r matches Err(why) ==> why@ == "Invalid task UUID"@,
{
}

/// Tasks, nodes and the state of a server are asked for below the address of the
/// server, a task under its own identifier.
pub proof fn law_addresses_lie_below_the_server(server: Seq<char>, id: u128)
    ensures
        address_of(server, Asked::Tasks) == server + "/api/v1/tasks"@,
        address_of(server, Asked::Task { id }) == address_of(server, Asked::Tasks) + "/"@
            + hyphenated(id),
        address_of(server, Asked::Nodes) == server + "/api/v1/nodes"@,
        address_of(server, Asked::Status) == server + "/api/v1/status"@,
{
    reveal_strlit("/api/v1/tasks");
    reveal_strlit("/api/v1/tasks/");
    reveal_strlit("/");
    assert("/api/v1/tasks/"@ =~= "/api/v1/tasks"@ + "/"@);
    assert(address_of(server, Asked::Task { id }) =~= address_of(server, Asked::Tasks) + "/"@
        + hyphenated(id));
}

/// The task that is waited for is named.
pub proof fn law_awaited_task_is_named(task_id: u128)
    ensures
        waiting_shown(task_id) == "Waiting for task "@ + hyphenated(task_id) + "…"@,
{
}

} // verus!
