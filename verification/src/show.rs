//! The texts in which the client shows what the server has answered.
use crate::api::{
    NodesResponse, ServerStatusResponse, SubmitTaskResponse, TaskStatusResponse,
    TaskStatusResponseView,
};
use crate::clock::{time_text, utc_text};
use crate::ident::{hyphenated, id_text};
use crate::node::{NodeInfo, NodeInfoView, NodeStatus};
use crate::output::{MpiRankOutput, MpiRankOutputView, TaskOutput, TaskOutputView};
use crate::task::{TaskStatus, TaskStatusView};
use crate::text::{
    decimal, decimal_text, join, joined, lines_of, pad, padded, signed_decimal,
    signed_decimal_text, split_lines, trim, trimmed,
};
use vstd::prelude::*;

verus! {

/// How std writes a text for diagnostics.
pub uninterp spec fn quoted_text(text: Seq<char>) -> Seq<char>;

/// The `Debug` form of a text: in quotes, with some characters escaped. Which
/// ones are is not spelled out.
#[verifier::external_body]
fn quote(text: &str) -> (quoted: String)
    ensures
        quoted@ == quoted_text(text@),
{
    format!("{:?}", text)
}

/// The identifiers in brackets, with commas between them.
pub open spec fn id_list(ids: Seq<u128>) -> Seq<char> {
    "["@ + joined(ids.map_values(|id: u128| hyphenated(id)), ", "@) + "]"@
}

/// A status, with the texts of its time and its reason given. The identifier of a
/// completed job stands in quotes.
pub open spec fn status_with(
    status: TaskStatusView,
    time: Seq<char>,
    quoted: Seq<char>,
) -> Seq<char> {
    match status {
        TaskStatusView::Queued => "Queued"@,
        TaskStatusView::Dispatched { node_id } => "Dispatched { node_id: "@ + hyphenated(node_id)
            + " }"@,
        TaskStatusView::MpiDispatched { job_id, node_ids } => "MpiDispatched { job_id: "@
            + hyphenated(job_id) + ", node_ids: "@ + id_list(node_ids) + " }"@,
        TaskStatusView::Running { node_id, .. } => "Running { node_id: "@ + hyphenated(node_id)
            + ", started_at: "@ + time + " }"@,
        TaskStatusView::MpiRunning { job_id, total_ranks, .. } => "MpiRunning { job_id: "@
            + hyphenated(job_id) + ", started_at: "@ + time + ", total_ranks: "@ + decimal(
            total_ranks as nat,
        ) + " }"@,
        TaskStatusView::Completed { node_id, duration_ms } => "Completed { node_id: "@
            + hyphenated(node_id) + ", duration_ms: "@ + decimal(duration_ms as nat) + " }"@,
        TaskStatusView::MpiCompleted { job_id, duration_ms, ranks_ok, ranks_failed } => {
            "MpiCompleted { job_id: \""@ + hyphenated(job_id) + "\", duration_ms: "@ + decimal(
                duration_ms as nat,
            ) + ", ranks_ok: "@ + decimal(ranks_ok as nat) + ", ranks_failed: "@ + decimal(
                ranks_failed as nat,
            ) + " }"@
        },
        TaskStatusView::Failed { .. } => "Failed { reason: "@ + quoted + " }"@,
        TaskStatusView::TimedOut => "TimedOut"@,
    }
}

/// A status as it is shown.
pub open spec fn status_shown(status: TaskStatusView) -> Seq<char> {
    match status {
        TaskStatusView::Running { started_at, .. } => status_with(
            status,
            time_text(started_at.secs, started_at.nanos),
            Seq::empty(),
        ),
        TaskStatusView::MpiRunning { started_at, .. } => status_with(
            status,
            time_text(started_at.secs, started_at.nanos),
            Seq::empty(),
        ),
        TaskStatusView::Failed { reason } => status_with(
            status,
            Seq::empty(),
            quoted_text(reason),
        ),
        _ => status_with(status, Seq::empty(), Seq::empty()),
    }
}

/// Whether the time in a status, if there is one, is one that the calendar can represent.
pub open spec fn has_valid_time(status: TaskStatusView) -> bool {
    match status {
        TaskStatusView::Running { started_at, .. } => started_at.is_representable(),
        TaskStatusView::MpiRunning { started_at, .. } => started_at.is_representable(),
        _ => true,
    }
}

/// The identifiers in brackets, with commas between them.
fn id_list_text(ids: &Vec<u128>) -> (r: String)
    ensures
        r@ == id_list(ids@),
{
    let mut texts: Vec<String> = Vec::new();
    let ghost all = ids@.map_values(|id: u128| hyphenated(id));
    let mut i: usize = 0;
    while i < ids.len()
        invariant
            i <= ids.len(),
            all == ids@.map_values(|id: u128| hyphenated(id)),
            texts.deep_view() == all.take(i as int),
        decreases ids.len() - i,
    {
        let ghost before = texts.deep_view();
        let text = id_text(ids[i]);
        texts.push(text);
        assert(texts.deep_view() =~= before.push(text@));
        i = i + 1;
        assert(texts.deep_view() =~= all.take(i as int));
    }
    assert(texts.deep_view() =~= all);
    let mut r = "[".to_owned();
    r.append(join(&texts, ", ").as_str());
    r.append("]");
    r
}

/// A status, with the texts of its time and its reason given. The identifier of a
/// completed job stands in quotes.
pub fn status_text_with(status: &TaskStatus, time: &str, quoted: &str) -> (r: String)
    ensures
        r@ == status_with(status.deep_view(), time@, quoted@),
{
    match status {
        TaskStatus::Queued => "Queued".to_owned(),
        TaskStatus::Dispatched { node_id } => {
            let mut r = "Dispatched { node_id: ".to_owned();
            r.append(id_text(*node_id).as_str());
            r.append(" }");
            r
        },
        TaskStatus::MpiDispatched { job_id, node_ids } => {
            let mut r = "MpiDispatched { job_id: ".to_owned();
            r.append(id_text(*job_id).as_str());
            r.append(", node_ids: ");
            r.append(id_list_text(node_ids).as_str());
            r.append(" }");
            r
        },
        TaskStatus::Running { node_id, .. } => {
            let mut r = "Running { node_id: ".to_owned();
            r.append(id_text(*node_id).as_str());
            r.append(", started_at: ");
            r.append(time);
            r.append(" }");
            r
        },
        TaskStatus::MpiRunning { job_id, total_ranks, .. } => {
            let mut r = "MpiRunning { job_id: ".to_owned();
            r.append(id_text(*job_id).as_str());
            r.append(", started_at: ");
            r.append(time);
            r.append(", total_ranks: ");
            r.append(decimal_text(*total_ranks as u64).as_str());
            r.append(" }");
            r
        },
        TaskStatus::Completed { node_id, duration_ms } => {
            let mut r = "Completed { node_id: ".to_owned();
            r.append(id_text(*node_id).as_str());
            r.append(", duration_ms: ");
            r.append(decimal_text(*duration_ms).as_str());
            r.append(" }");
            r
        },
        TaskStatus::MpiCompleted { job_id, duration_ms, ranks_ok, ranks_failed } => {
            let mut r = "MpiCompleted { job_id: \"".to_owned();
            r.append(id_text(*job_id).as_str());
            r.append("\", duration_ms: ");
            r.append(decimal_text(*duration_ms).as_str());
            r.append(", ranks_ok: ");
            r.append(decimal_text(*ranks_ok as u64).as_str());
            r.append(", ranks_failed: ");
            r.append(decimal_text(*ranks_failed as u64).as_str());
            r.append(" }");
            r
        },
        TaskStatus::Failed { .. } => {
            let mut r = "Failed { reason: ".to_owned();
            r.append(quoted);
            r.append(" }");
            r
        },
        TaskStatus::TimedOut => "TimedOut".to_owned(),
    }
}

/// A status as it is shown.
pub fn status_text(status: &TaskStatus) -> (r: String)
    requires
        has_valid_time(status.deep_view()),
    ensures
        r@ == status_shown(status.deep_view()),
{
    let none = String::new();
    match status {
        TaskStatus::Running { started_at, .. } => {
            let time = utc_text(started_at.secs, started_at.nanos);
            status_text_with(status, time.as_str(), none.as_str())
        },
        TaskStatus::MpiRunning { started_at, .. } => {
            let time = utc_text(started_at.secs, started_at.nanos);
            status_text_with(status, time.as_str(), none.as_str())
        },
        TaskStatus::Failed { reason } => {
            let quoted = quote(reason.as_str());
            status_text_with(status, none.as_str(), quoted.as_str())
        },
        _ => status_text_with(status, none.as_str(), none.as_str()),
    }
}

/// Whether the time in a status, if there is one, is one that the calendar can represent.
pub fn can_show(status: &TaskStatus) -> (r: bool)
    ensures
        r == has_valid_time(status.deep_view()),
{
    match status {
        TaskStatus::Running { started_at, .. } => started_at.can_be_shown(),
        TaskStatus::MpiRunning { started_at, .. } => started_at.can_be_shown(),
        _ => true,
    }
}

/// Adds a line.
fn add_line(lines: &mut Vec<String>, line: String)
    ensures
        final(lines).deep_view() == old(lines).deep_view().push(line@),
{
    lines.push(line);
    assert(lines.deep_view() =~= old(lines).deep_view().push(line@));
}

/// A label with a value behind it.
fn labelled(label: &str, value: &str) -> (r: String)
    ensures
        r@ == label@ + value@,
{
    let mut r = label.to_owned();
    r.append(value);
    r
}

/// What is shown after a submission.
pub open spec fn submission_shown(task_id: u128, status: TaskStatusView) -> Seq<Seq<char>> {
    seq!["Task submitted: "@ + hyphenated(task_id), "Status: "@ + status_shown(status)]
}

/// What is shown after a submission.
pub fn submission_lines(response: &SubmitTaskResponse) -> (r: Vec<String>)
    requires
        has_valid_time(response.status.deep_view()),
    ensures
        r.deep_view() == submission_shown(response.task_id, response.status.deep_view()),
{
    let mut r: Vec<String> = Vec::new();
    assert(r.deep_view() =~= Seq::<Seq<char>>::empty());
    add_line(&mut r, labelled("Task submitted: ", id_text(response.task_id).as_str()));
    add_line(&mut r, labelled("Status: ", status_text(&response.status).as_str()));
    assert(r.deep_view() =~= submission_shown(response.task_id, response.status.deep_view()));
    r
}

/// What is shown before a task is waited for.
pub open spec fn waiting_shown(task_id: u128) -> Seq<char> {
    "Waiting for task "@ + hyphenated(task_id) + "…"@
}

/// What is shown before a task is waited for.
pub fn waiting_line(task_id: u128) -> (r: String)
    ensures
        r@ == "Waiting for task "@ + hyphenated(task_id) + "…"@,
        r@ == waiting_shown(task_id),
{
    let mut r = labelled("Waiting for task ", id_text(task_id).as_str());
    r.append("…");
    r
}

/// What a process wrote, under a heading; nothing where it wrote nothing.
pub open spec fn stream_shown(heading: Seq<char>, written: Seq<char>) -> Seq<Seq<char>> {
    if written.len() == 0 {
        Seq::empty()
    } else {
        seq![heading + trimmed(written)]
    }
}

/// Adds what a process wrote, under a heading, where it wrote anything.
fn add_stream(lines: &mut Vec<String>, heading: &str, written: &String)
    ensures
        final(lines).deep_view() == old(lines).deep_view() + stream_shown(heading@, written@),
{
    if written.as_str().unicode_len() > 0 {
        let text = labelled(heading, trim(written.as_str()).as_str());
        add_line(lines, text);
    }
    assert(lines.deep_view() =~= old(lines).deep_view() + stream_shown(heading@, written@));
}

/// What is shown of a completed task.
pub open spec fn completed_shown(
    node_id: u128,
    duration_ms: u64,
    result: Option<TaskOutputView>,
) -> Seq<Seq<char>> {
    seq![
        "✓ Completed in "@ + decimal(duration_ms as nat) + "ms (node: "@ + hyphenated(node_id)
            + ")"@,
    ] + match result {
        Some(output) => stream_shown("--- stdout ---\n"@, output.stdout) + stream_shown(
            "--- stderr ---\n"@,
            output.stderr,
        ) + seq!["Exit code: "@ + signed_decimal(output.exit_code as int)],
        None => Seq::empty(),
    }
}

/// What is shown of a completed task.
fn completed_lines(node_id: u128, duration_ms: u64, result: &Option<TaskOutput>) -> (r: Vec<
    String,
>)
    ensures
        r.deep_view() == completed_shown(node_id, duration_ms, result.deep_view()),
{
    let mut r: Vec<String> = Vec::new();
    assert(r.deep_view() =~= Seq::<Seq<char>>::empty());
    let mut head = labelled("✓ Completed in ", decimal_text(duration_ms).as_str());
    head.append("ms (node: ");
    head.append(id_text(node_id).as_str());
    head.append(")");
    add_line(&mut r, head);
    if let Some(output) = result {
        add_stream(&mut r, "--- stdout ---\n", &output.stdout);
        add_stream(&mut r, "--- stderr ---\n", &output.stderr);
        add_line(
            &mut r,
            labelled("Exit code: ", signed_decimal_text(output.exit_code).as_str()),
        );
    }
    assert(r.deep_view() =~= completed_shown(node_id, duration_ms, result.deep_view()));
    r
}

/// The lines that a rank wrote, each with its rank in front.
pub open spec fn rank_lines(rank: u32, lines: Seq<Seq<char>>) -> Seq<Seq<char>> {
    lines.map_values(
        |line: Seq<char>| "    [rank "@ + decimal(rank as nat) + "] "@ + line,
    )
}

/// What is shown of a rank of a completed job.
pub open spec fn rank_shown(output: MpiRankOutputView) -> Seq<Seq<char>> {
    seq![
        "  rank "@ + decimal(output.rank as nat) + " (node "@ + hyphenated(output.node_id)
            + ")  exit="@ + signed_decimal(output.output.exit_code as int),
    ] + if output.output.stdout.len() == 0 {
        Seq::empty()
    } else {
        rank_lines(output.rank, lines_of(trimmed(output.output.stdout)))
    }
}

/// What is shown of the ranks of a completed job.
pub open spec fn ranks_shown(outputs: Seq<MpiRankOutputView>) -> Seq<Seq<char>>
    decreases outputs.len(),
{
    if outputs.len() == 0 {
        Seq::empty()
    } else {
        ranks_shown(outputs.drop_last()) + rank_shown(outputs.last())
    }
}

/// Adds what is shown of a rank of a completed job.
fn add_rank(lines: &mut Vec<String>, output: &MpiRankOutput)
    ensures
        final(lines).deep_view() == old(lines).deep_view() + rank_shown(output.deep_view()),
{
    let mut head = labelled("  rank ", decimal_text(output.rank as u64).as_str());
    head.append(" (node ");
    head.append(id_text(output.node_id).as_str());
    head.append(")  exit=");
    head.append(signed_decimal_text(output.output.exit_code).as_str());
    let ghost first = head@;
    add_line(lines, head);
    let ghost so_far = lines.deep_view();
    if output.output.stdout.as_str().unicode_len() > 0 {
        let text = trim(output.output.stdout.as_str());
        let written = split_lines(text.as_str());
        let ghost all = rank_lines(output.rank, lines_of(text@));
        let mut i: usize = 0;
        assert(lines.deep_view() =~= so_far + all.take(0));
        while i < written.len()
            invariant
                i <= written.len(),
                written.deep_view() == lines_of(text@),
                all == rank_lines(output.rank, lines_of(text@)),
                lines.deep_view() == so_far + all.take(i as int),
            decreases written.len() - i,
        {
            let mut line = labelled("    [rank ", decimal_text(output.rank as u64).as_str());
            line.append("] ");
            line.append(written[i].as_str());
            assert(written.deep_view()[i as int] == written[i as int]@);
            assert(line@ == all[i as int]);
            add_line(lines, line);
            i = i + 1;
            assert(lines.deep_view() =~= so_far + all.take(i as int));
        }
        assert(all.take(all.len() as int) =~= all);
    }
    assert(lines.deep_view() =~= old(lines).deep_view() + rank_shown(output.deep_view()));
}

/// What is shown of a completed job.
pub open spec fn job_shown(
    job_id: u128,
    duration_ms: u64,
    ranks_ok: u32,
    ranks_failed: u32,
    results: Option<Seq<MpiRankOutputView>>,
) -> Seq<Seq<char>> {
    seq![
        "✓ MPI job "@ + hyphenated(job_id) + " completed in "@ + decimal(duration_ms as nat)
            + "ms  ("@ + decimal(ranks_ok as nat) + " ranks OK, "@ + decimal(ranks_failed as nat)
            + " failed)"@,
    ] + match results {
        Some(outputs) => ranks_shown(outputs),
        None => Seq::empty(),
    }
}

/// What is shown of a completed job.
fn job_lines(
    job_id: u128,
    duration_ms: u64,
    ranks_ok: u32,
    ranks_failed: u32,
    results: &Option<Vec<MpiRankOutput>>,
) -> (r: Vec<String>)
    ensures
        r.deep_view() == job_shown(
            job_id,
            duration_ms,
            ranks_ok,
            ranks_failed,
            results.deep_view(),
        ),
{
    let mut r: Vec<String> = Vec::new();
    assert(r.deep_view() =~= Seq::<Seq<char>>::empty());
    let mut head = labelled("✓ MPI job ", id_text(job_id).as_str());
    head.append(" completed in ");
    head.append(decimal_text(duration_ms).as_str());
    head.append("ms  (");
    head.append(decimal_text(ranks_ok as u64).as_str());
    head.append(" ranks OK, ");
    head.append(decimal_text(ranks_failed as u64).as_str());
    head.append(" failed)");
    add_line(&mut r, head);
    if let Some(outputs) = results {
        let ghost so_far = r.deep_view();
        let ghost all = outputs.deep_view();
        let mut i: usize = 0;
        assert(all.take(0) =~= Seq::<MpiRankOutputView>::empty());
        assert(r.deep_view() =~= so_far + ranks_shown(all.take(0)));
        while i < outputs.len()
            invariant
                i <= outputs.len(),
                all == outputs.deep_view(),
                r.deep_view() == so_far + ranks_shown(all.take(i as int)),
            decreases outputs.len() - i,
        {
            assert(all.take(i + 1).drop_last() =~= all.take(i as int));
            assert(all.take(i + 1).last() == all[i as int]);
            add_rank(&mut r, &outputs[i]);
            i = i + 1;
            assert(r.deep_view() =~= so_far + ranks_shown(all.take(i as int)));
        }
        assert(all.take(all.len() as int) =~= all);
    }
    assert(r.deep_view() =~= job_shown(
        job_id,
        duration_ms,
        ranks_ok,
        ranks_failed,
        results.deep_view(),
    ));
    r
}

/// What a client that waits for a task does with an answer: what it shows, what
/// it complains of, and, once the task has come to its end, with what verdict it
/// stops waiting.
#[derive(Debug)]
pub struct PollStep {
    pub shown: Vec<String>,
    pub complaints: Vec<String>,
    pub verdict: Option<Result<(), String>>,
}

/// What is shown while and after a task is waited for.
pub open spec fn poll_shown(response: TaskStatusResponseView) -> Seq<Seq<char>> {
    match response.task.status {
        TaskStatusView::Completed { node_id, duration_ms } => completed_shown(
            node_id,
            duration_ms,
            response.result,
        ),
        TaskStatusView::MpiCompleted { job_id, duration_ms, ranks_ok, ranks_failed } => job_shown(
            job_id,
            duration_ms,
            ranks_ok,
            ranks_failed,
            response.mpi_results,
        ),
        TaskStatusView::Failed { .. } => Seq::empty(),
        TaskStatusView::TimedOut => Seq::empty(),
        status => seq!["  status: "@ + status_shown(status)],
    }
}

/// What a waiting client complains of.
pub open spec fn poll_complaints(status: TaskStatusView) -> Seq<Seq<char>> {
    match status {
        TaskStatusView::Failed { reason } => seq!["✗ Failed: "@ + reason],
        TaskStatusView::TimedOut => seq!["✗ Timed out"@],
        _ => Seq::empty(),
    }
}

/// With what verdict a client stops waiting; `None` while it waits on. The task
/// counts as a success where it has completed, and for a job where no rank failed.
pub open spec fn poll_verdict(status: TaskStatusView) -> Option<Result<(), Seq<char>>> {
    match status {
        TaskStatusView::Completed { .. } => Some(Ok(())),
        TaskStatusView::MpiCompleted { ranks_failed, .. } => if ranks_failed > 0 {
            Some(Err(decimal(ranks_failed as nat) + " MPI rank(s) failed"@))
        } else {
            Some(Ok(()))
        },
        TaskStatusView::Failed { reason } => Some(Err("Task failed: "@ + reason)),
        TaskStatusView::TimedOut => Some(Err("Task timed out"@)),
        _ => None,
    }
}

/// A verdict without its exact type.
pub open spec fn verdict_view(verdict: Option<Result<(), String>>) -> Option<
    Result<(), Seq<char>>,
> {
    match verdict {
        Some(Ok(_)) => Some(Ok(())),
        Some(Err(why)) => Some(Err(why@)),
        None => None,
    }
}

/// What a client that waits for a task does with an answer.
pub fn poll_step(response: &TaskStatusResponse) -> (r: PollStep)
    requires
        has_valid_time(response.task.status.deep_view()),
    ensures
        r.shown.deep_view() == poll_shown(response.deep_view()),
        r.complaints.deep_view() == poll_complaints(response.deep_view().task.status),
        verdict_view(r.verdict) == poll_verdict(response.deep_view().task.status),
{
    let mut shown: Vec<String> = Vec::new();
    let mut complaints: Vec<String> = Vec::new();
    assert(shown.deep_view() =~= Seq::<Seq<char>>::empty());
    assert(complaints.deep_view() =~= Seq::<Seq<char>>::empty());
    let verdict: Option<Result<(), String>> = match &response.task.status {
        TaskStatus::Completed { node_id, duration_ms } => {
            shown = completed_lines(*node_id, *duration_ms, &response.result);
            Some(Ok(()))
        },
        TaskStatus::MpiCompleted { job_id, duration_ms, ranks_ok, ranks_failed } => {
            shown = job_lines(
                *job_id,
                *duration_ms,
                *ranks_ok,
                *ranks_failed,
                &response.mpi_results,
            );
            if *ranks_failed > 0 {
                Some(
                    Err(
                        labelled(
                            decimal_text(*ranks_failed as u64).as_str(),
                            " MPI rank(s) failed",
                        ),
                    ),
                )
            } else {
                Some(Ok(()))
            }
        },
        TaskStatus::Failed { reason } => {
            add_line(&mut complaints, labelled("✗ Failed: ", reason.as_str()));
            assert(complaints.deep_view() =~= seq!["✗ Failed: "@ + reason@]);
            Some(Err(labelled("Task failed: ", reason.as_str())))
        },
        TaskStatus::TimedOut => {
            add_line(&mut complaints, "✗ Timed out".to_owned());
            assert(complaints.deep_view() =~= seq!["✗ Timed out"@]);
            Some(Err("Task timed out".to_owned()))
        },
        status => {
            let line = labelled("  status: ", status_text(status).as_str());
            add_line(&mut shown, line);
            assert(shown.deep_view() =~= poll_shown(response.deep_view()));
            None
        },
    };
    PollStep { shown, complaints, verdict }
}

/// What is shown of a rank when a task is asked for.
pub open spec fn rank_line(output: MpiRankOutputView) -> Seq<char> {
    "  rank "@ + decimal(output.rank as nat) + " node "@ + hyphenated(output.node_id) + " exit="@
        + signed_decimal(output.output.exit_code as int)
}

/// What is shown of a task that was asked for.
pub open spec fn task_shown(response: TaskStatusResponseView) -> Seq<Seq<char>> {
    seq![
        "Task:     "@ + hyphenated(response.task.id),
        "Priority: "@ + decimal(response.task.priority as nat),
        "Status:   "@ + status_shown(response.task.status),
    ] + (match response.result {
        Some(output) => seq!["Exit:     "@ + signed_decimal(output.exit_code as int)]
            + stream_shown("--- stdout ---\n"@, output.stdout),
        None => Seq::empty(),
    }) + (match response.mpi_results {
        Some(outputs) => outputs.map_values(|output: MpiRankOutputView| rank_line(output)),
        None => Seq::empty(),
    })
}

/// What is shown of a task that was asked for.
pub fn print_task_status(response: &TaskStatusResponse) -> (r: Vec<String>)
    requires
        has_valid_time(response.task.status.deep_view()),
    ensures
        r.deep_view() == task_shown(response.deep_view()),
{
    let mut r: Vec<String> = Vec::new();
    assert(r.deep_view() =~= Seq::<Seq<char>>::empty());
    add_line(&mut r, labelled("Task:     ", id_text(response.task.id).as_str()));
    add_line(
        &mut r,
        labelled("Priority: ", decimal_text(response.task.priority as u64).as_str()),
    );
    add_line(&mut r, labelled("Status:   ", status_text(&response.task.status).as_str()));
    let ghost head = seq![
        "Task:     "@ + hyphenated(response.task.id),
        "Priority: "@ + decimal(response.task.priority as nat),
        "Status:   "@ + status_shown(response.deep_view().task.status),
    ];
    assert(r.deep_view() =~= head);
    if let Some(output) = &response.result {
        add_line(&mut r, labelled("Exit:     ", signed_decimal_text(output.exit_code).as_str()));
        add_stream(&mut r, "--- stdout ---\n", &output.stdout);
    }
    let ghost middle = match response.deep_view().result {
        Some(output) => seq!["Exit:     "@ + signed_decimal(output.exit_code as int)]
            + stream_shown("--- stdout ---\n"@, output.stdout),
        None => Seq::empty(),
    };
    assert(r.deep_view() =~= head + middle);
    if let Some(outputs) = &response.mpi_results {
        let ghost all = outputs.deep_view().map_values(
            |output: MpiRankOutputView| rank_line(output),
        );
        let mut i: usize = 0;
        assert(r.deep_view() =~= head + middle + all.take(0));
        while i < outputs.len()
            invariant
                i <= outputs.len(),
                all == outputs.deep_view().map_values(
                    |output: MpiRankOutputView| rank_line(output),
                ),
                r.deep_view() == head + middle + all.take(i as int),
            decreases outputs.len() - i,
        {
            let mut line = labelled("  rank ", decimal_text(outputs[i].rank as u64).as_str());
            line.append(" node ");
            line.append(id_text(outputs[i].node_id).as_str());
            line.append(" exit=");
            line.append(signed_decimal_text(outputs[i].output.exit_code).as_str());
            assert(line@ == all[i as int]);
            add_line(&mut r, line);
            i = i + 1;
            assert(r.deep_view() =~= head + middle + all.take(i as int));
        }
        assert(all.take(all.len() as int) =~= all);
    }
    assert(r.deep_view() =~= task_shown(response.deep_view()));
    r
}

/// The name of a node status.
pub open spec fn node_status_shown(status: NodeStatus) -> Seq<char> {
    match status {
        NodeStatus::Online => "Online"@,
        NodeStatus::Busy => "Busy"@,
        NodeStatus::Draining => "Draining"@,
        NodeStatus::Offline => "Offline"@,
    }
}

/// A row of the table of nodes: its first eight columns have a width each, the
/// last has none. Those of the identifier and of the free memory are given: they
/// are narrower in the rows than in the head.
pub open spec fn table_row(
    columns: Seq<Seq<char>>,
    last: Seq<char>,
    id_width: nat,
    ram_width: nat,
) -> Seq<char> {
    padded(columns[0], id_width) + " "@ + padded(columns[1], 20) + " "@ + padded(columns[2], 10)
        + " "@ + padded(columns[3], 8) + " "@ + padded(columns[4], ram_width) + " "@ + padded(
        columns[5],
        6,
    ) + " "@ + padded(columns[6], 8) + " "@ + padded(columns[7], 6) + " "@ + last
}

/// The head of the table of nodes.
pub open spec fn table_head() -> Seq<char> {
    table_row(
        seq![
            "NODE ID"@,
            "NAME"@,
            "STATUS"@,
            "CPU%used"@,
            "RAM free"@,
            "Tasks"@,
            "Region"@,
            "mpirun"@,
        ],
        "MPI host"@,
        38,
        8,
    )
}

/// The row for a node. `cpu` is its CPU load as it is written out.
pub open spec fn node_row(node: NodeInfoView, cpu: Seq<char>) -> Seq<char> {
    table_row(
        seq![
            hyphenated(node.id),
            node.name,
            node_status_shown(node.status),
            cpu,
            decimal(node.stats.ram_free_mb as nat) + "MB"@,
            decimal(node.stats.active_tasks as nat),
            node.capabilities.region,
            if node.capabilities.has_mpirun {
                "yes"@
            } else {
                "no"@
            },
        ],
        node.capabilities.mpi_host,
        37,
        7,
    )
}

/// The lines for a node: its row, and its tags where it has any.
pub open spec fn node_shown(node: NodeInfoView, cpu: Seq<char>) -> Seq<Seq<char>> {
    seq![node_row(node, cpu)] + if node.capabilities.tags.len() == 0 {
        Seq::empty()
    } else {
        seq!["  tags: "@ + joined(node.capabilities.tags, ", "@)]
    }
}

/// The lines for several nodes.
pub open spec fn nodes_shown(nodes: Seq<NodeInfoView>, cpus: Seq<Seq<char>>) -> Seq<Seq<char>>
    decreases nodes.len(),
{
    if nodes.len() == 0 {
        Seq::empty()
    } else {
        nodes_shown(nodes.drop_last(), cpus) + node_shown(nodes.last(), cpus[nodes.len() - 1])
    }
}

/// The rule between the head of the table and its rows.
pub open spec fn table_rule() -> Seq<char> {
    Seq::new(120, |i: int| '-')
}

/// What is shown of the nodes of a server.
pub open spec fn table_shown(nodes: Seq<NodeInfoView>, cpus: Seq<Seq<char>>) -> Seq<Seq<char>> {
    if nodes.len() == 0 {
        seq!["No nodes registered."@]
    } else {
        seq![table_head(), table_rule()] + nodes_shown(nodes, cpus)
    }
}

/// A row of the table of nodes.
fn row_text(columns: &Vec<String>, last: &str, id_width: usize, ram_width: usize) -> (r: String)
    requires
        columns.len() == 8,
    ensures
        r@ == table_row(columns.deep_view(), last@, id_width as nat, ram_width as nat),
{
    let mut r = pad(columns[0].as_str(), id_width);
    r.append(" ");
    r.append(pad(columns[1].as_str(), 20).as_str());
    r.append(" ");
    r.append(pad(columns[2].as_str(), 10).as_str());
    r.append(" ");
    r.append(pad(columns[3].as_str(), 8).as_str());
    r.append(" ");
    r.append(pad(columns[4].as_str(), ram_width).as_str());
    r.append(" ");
    r.append(pad(columns[5].as_str(), 6).as_str());
    r.append(" ");
    r.append(pad(columns[6].as_str(), 8).as_str());
    r.append(" ");
    r.append(pad(columns[7].as_str(), 6).as_str());
    r.append(" ");
    r.append(last);
    r
}

/// The head of the table of nodes.
fn head_text() -> (r: String)
    ensures
        r@ == table_head(),
{
    let mut columns: Vec<String> = Vec::new();
    columns.push("NODE ID".to_owned());
    columns.push("NAME".to_owned());
    columns.push("STATUS".to_owned());
    columns.push("CPU%used".to_owned());
    columns.push("RAM free".to_owned());
    columns.push("Tasks".to_owned());
    columns.push("Region".to_owned());
    columns.push("mpirun".to_owned());
    row_text(&columns, "MPI host", 38, 8)
}

/// The rule between the head of the table and its rows.
fn rule_text() -> (r: String)
    ensures
        r@ == table_rule(),
{
    let mut r = String::new();
    let mut n: usize = 0;
    proof {
        reveal_strlit("-");
    }
    while n < 120
        invariant
            n <= 120,
            r@ == Seq::new(n as nat, |i: int| '-'),
            "-"@ == seq!['-'],
        decreases 120 - n,
    {
        r.append("-");
        n = n + 1;
        assert(r@ =~= Seq::new(n as nat, |i: int| '-'));
    }
    r
}

/// The row for a node.
fn node_row_text(node: &NodeInfo, cpu: &str) -> (r: String)
    ensures
        r@ == node_row(node.deep_view(), cpu@),
{
    let status: &str = match node.status {
        NodeStatus::Online => "Online",
        NodeStatus::Busy => "Busy",
        NodeStatus::Draining => "Draining",
        NodeStatus::Offline => "Offline",
    };
    let launcher: &str = if node.capabilities.has_mpirun {
        "yes"
    } else {
        "no"
    };
    let mut columns: Vec<String> = Vec::new();
    columns.push(id_text(node.id));
    columns.push(node.name.clone());
    columns.push(status.to_owned());
    columns.push(cpu.to_owned());
    columns.push(labelled(decimal_text(node.stats.ram_free_mb).as_str(), "MB"));
    columns.push(decimal_text(node.stats.active_tasks as u64));
    columns.push(node.capabilities.region.clone());
    columns.push(launcher.to_owned());
    row_text(&columns, node.capabilities.mpi_host.as_str(), 37, 7)
}

/// What is shown of the nodes of a server. `cpus` holds the CPU load of each node
/// as it is written out.
pub fn list_nodes(response: &NodesResponse, cpus: &Vec<String>) -> (r: Vec<String>)
    requires
        cpus.len() == response.nodes.len(),
    ensures
        r.deep_view() == table_shown(response.nodes.deep_view(), cpus.deep_view()),
{
    let mut r: Vec<String> = Vec::new();
    assert(r.deep_view() =~= Seq::<Seq<char>>::empty());
    if response.nodes.len() == 0 {
        add_line(&mut r, "No nodes registered.".to_owned());
        assert(r.deep_view() =~= seq!["No nodes registered."@]);
        return r;
    }
    add_line(&mut r, head_text());
    add_line(&mut r, rule_text());
    let ghost head = seq![table_head(), table_rule()];
    assert(r.deep_view() =~= head);
    let ghost all = response.nodes.deep_view();
    let ghost loads = cpus.deep_view();
    let mut i: usize = 0;
    assert(r.deep_view() =~= head + nodes_shown(all.take(0), loads));
    while i < response.nodes.len()
        invariant
            cpus.len() == response.nodes.len(),
            i <= response.nodes.len(),
            all == response.nodes.deep_view(),
            loads == cpus.deep_view(),
            r.deep_view() == head + nodes_shown(all.take(i as int), loads),
        decreases response.nodes.len() - i,
    {
        assert(all.take(i + 1).drop_last() =~= all.take(i as int));
        assert(all.take(i + 1).last() == all[i as int]);
        assert(loads[i as int] == cpus[i as int]@);
        let ghost before = r.deep_view();
        let node = &response.nodes[i];
        add_line(&mut r, node_row_text(node, cpus[i].as_str()));
        if node.capabilities.tags.len() > 0 {
            let tags = join(&node.capabilities.tags, ", ");
            add_line(&mut r, labelled("  tags: ", tags.as_str()));
        }
        assert(r.deep_view() =~= before + node_shown(all[i as int], loads[i as int]));
        i = i + 1;
        assert(r.deep_view() =~= head + nodes_shown(all.take(i as int), loads));
    }
    assert(all.take(all.len() as int) =~= all);
    r
}

/// What is shown of a server.
pub open spec fn server_shown(status: ServerStatusResponse) -> Seq<Seq<char>> {
    seq![
        "HyperCompute Server v"@ + status.version@,
        "  Online nodes:    "@ + decimal(status.online_nodes as nat),
        "  Queued tasks:    "@ + decimal(status.queued_tasks as nat),
        "  Running tasks:   "@ + decimal(status.running_tasks as nat),
        "  Completed tasks: "@ + decimal(status.completed_tasks as nat),
    ]
}

/// What is shown of a server.
pub fn server_info(status: &ServerStatusResponse) -> (r: Vec<String>)
    ensures
        r.deep_view() == seq![
            "HyperCompute Server v"@ + status.version@,
            "  Online nodes:    "@ + decimal(status.online_nodes as nat),
            "  Queued tasks:    "@ + decimal(status.queued_tasks as nat),
            "  Running tasks:   "@ + decimal(status.running_tasks as nat),
            "  Completed tasks: "@ + decimal(status.completed_tasks as nat),
        ],
        r.deep_view() == server_shown(*status),
{
    let mut r: Vec<String> = Vec::new();
    assert(r.deep_view() =~= Seq::<Seq<char>>::empty());
    add_line(&mut r, labelled("HyperCompute Server v", status.version.as_str()));
    add_line(
        &mut r,
        labelled("  Online nodes:    ", decimal_text(status.online_nodes as u64).as_str()),
    );
    add_line(
        &mut r,
        labelled("  Queued tasks:    ", decimal_text(status.queued_tasks as u64).as_str()),
    );
    add_line(
        &mut r,
        labelled("  Running tasks:   ", decimal_text(status.running_tasks as u64).as_str()),
    );
    add_line(
        &mut r,
        labelled("  Completed tasks: ", decimal_text(status.completed_tasks as u64).as_str()),
    );
    assert(r.deep_view() =~= seq![
        "HyperCompute Server v"@ + status.version@,
        "  Online nodes:    "@ + decimal(status.online_nodes as nat),
        "  Queued tasks:    "@ + decimal(status.queued_tasks as nat),
        "  Running tasks:   "@ + decimal(status.running_tasks as nat),
        "  Completed tasks: "@ + decimal(status.completed_tasks as nat),
    ]);
    r
}

/// A client waits on exactly while the task may still change: it stops for
/// every status that a finished task can have.
pub proof fn law_waits_until_finished(status: TaskStatusView)
    ensures
        poll_verdict(status) is None <==> (status is Queued || status is Dispatched
            || status is MpiDispatched || status is Running || status is MpiRunning),
        poll_complaints(status).len() > 0 <==> (status is Failed || status is TimedOut),
{
}

} // verus!
