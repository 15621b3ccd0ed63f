//! What holds of the work of a node: what is started for a task, what is reported
//! of it, and how the node deals with its server.
use crate::clock::Timestamp;
use crate::executor::{
    ascii_upper, fetch_outcome, fetch_plan, found_launcher, host_list, is_launched, launcher_names,
    launcher_plan, launcher_vars, lossy_text, passed_on, rank_vars, run_outcome, slot_plan,
    task_plan, upper_case, Ended, Fetched, HttpMethod, Launch, LaunchView, PlanView, Purpose,
};
use crate::ident::hyphenated;
use crate::laws_of_text::{
    law_decimal_stands_for_its_number, law_first_occurrence_is_replaced,
    law_joined_lists_are_joined, number_in,
};
use crate::message::{ServerMessageView, WorkerMessageView};
use crate::node::{NodeCapabilitiesView, NodeStats};
use crate::output::TaskOutputView;
use crate::task::{MpiPeerView, MpiSlotView, Percent, TaskKind, TaskKindView, TaskView};
use crate::text::{decimal, replaced_once};
use crate::worker::{
    after_failure, after_wait, backoff_after, beats, declared, introduction, load, node_name,
    slot_report, socket_url, task_report, ActionView, LoadView, Machine, Next, WorkerArgs,
};
use vstd::prelude::*;

verus! {

/// At a place of an environment a variable gets the value that counts.
pub open spec fn counts_at(
    env: Seq<(Seq<char>, Seq<char>)>,
    name: Seq<char>,
    value: Seq<char>,
    i: int,
) -> bool {
    &&& 0 <= i < env.len()
    &&& env[i].0 == name
    &&& env[i].1 == value
    &&& forall|j: int| i < j < env.len() ==> (#[trigger] env[j]).0 != name
}

/// A process that gets this environment finds the variable set to the value.
pub open spec fn is_set(
    env: Seq<(Seq<char>, Seq<char>)>,
    name: Seq<char>,
    value: Seq<char>,
) -> bool {
    exists|i: int| counts_at(env, name, value, i)
}

/// A process that gets this environment does not find the variable.
pub open spec fn is_unset(env: Seq<(Seq<char>, Seq<char>)>, name: Seq<char>) -> bool {
    forall|i: int| 0 <= i < env.len() ==> (#[trigger] env[i]).0 != name
}

/// A variable has one value.
pub proof fn law_variable_has_one_value(
    env: Seq<(Seq<char>, Seq<char>)>,
    name: Seq<char>,
    a: Seq<char>,
    b: Seq<char>,
)
    requires
        is_set(env, name, a),
        is_set(env, name, b),
    ensures
        a == b,
        !is_unset(env, name),
{
    let i = choose|i: int| counts_at(env, name, a, i);
    let j = choose|j: int| counts_at(env, name, b, j);
    assert(env[i].0 == name && env[j].0 == name);
}

/// What the first settings set is set where the later ones leave it alone.
proof fn lemma_set_first(
    first: Seq<(Seq<char>, Seq<char>)>,
    second: Seq<(Seq<char>, Seq<char>)>,
    i: int,
)
    requires
        0 <= i < first.len(),
        forall|j: int| i < j < first.len() ==> (#[trigger] first[j]).0 != first[i].0,
        is_unset(second, first[i].0),
    ensures
        is_set(first + second, first[i].0, first[i].1),
{
    let env = first + second;
    assert forall|j: int| i < j < env.len() implies (#[trigger] env[j]).0 != first[i].0 by {
        if j < first.len() {
            assert(env[j] == first[j]);
        } else {
            assert(env[j] == second[j - first.len()]);
        }
    }
    assert(counts_at(env, first[i].0, first[i].1, i));
}

/// The names of the variables of a job differ.
proof fn lemma_names_differ(slot: MpiSlotView, peers_json: Seq<char>)
    ensures
        forall|i: int, j: int|
            0 <= i < j < 6 ==> (#[trigger] rank_vars(slot, peers_json)[i]).0 != (
            #[trigger] rank_vars(slot, peers_json)[j]).0,
{
    reveal_strlit("HC_MPI_RANK");
    reveal_strlit("HC_MPI_SIZE");
    reveal_strlit("HC_MPI_JOB_ID");
    reveal_strlit("HC_MPI_PEERS");
    reveal_strlit("HC_MPI_ROOT");
    reveal_strlit("HC_MPI_PORT");
    assert("HC_MPI_RANK"@[7] == 'R' && "HC_MPI_RANK"@[8] == 'A');
    assert("HC_MPI_SIZE"@[7] == 'S');
    assert("HC_MPI_JOB_ID"@[7] == 'J');
    assert("HC_MPI_PEERS"@[7] == 'P' && "HC_MPI_PEERS"@[8] == 'E');
    assert("HC_MPI_ROOT"@[7] == 'R' && "HC_MPI_ROOT"@[8] == 'O');
    assert("HC_MPI_PORT"@[7] == 'P' && "HC_MPI_PORT"@[8] == 'O');
}

/// A rank that is not left to the launcher runs the program of its job with the
/// job's arguments and time limit. In its environment it finds its rank, the
/// number of ranks, the job, the addresses of all ranks, the host of rank 0 and
/// its own port, each unless the task sets a variable of that name itself.
pub proof fn law_rank_is_told_its_part(
    kind: TaskKind,
    slot: MpiSlotView,
    peers_json: Seq<char>,
    answers: Seq<bool>,
)
    requires
        kind is Mpi,
        !kind->Mpi_use_mpirun,
    ensures
        slot_plan(kind, slot, peers_json, answers) matches PlanView::Run(launch) && {
            let own = kind->Mpi_env.listing();
            &&& launch.purpose == Purpose::Rank(slot.rank)
            &&& launch.program == kind->Mpi_program@
            &&& launch.args == kind->Mpi_args.deep_view()
            &&& launch.input == Seq::<u8>::empty()
            &&& launch.timeout_secs == kind->Mpi_timeout_secs
            &&& is_unset(own, "HC_MPI_RANK"@) ==> is_set(
                launch.env,
                "HC_MPI_RANK"@,
                decimal(slot.rank as nat),
            )
            &&& is_unset(own, "HC_MPI_SIZE"@) ==> is_set(
                launch.env,
                "HC_MPI_SIZE"@,
                decimal(slot.size as nat),
            )
            &&& is_unset(own, "HC_MPI_JOB_ID"@) ==> is_set(
                launch.env,
                "HC_MPI_JOB_ID"@,
                hyphenated(slot.job_id),
            )
            &&& is_unset(own, "HC_MPI_PEERS"@) ==> is_set(
                launch.env,
                "HC_MPI_PEERS"@,
                peers_json,
            )
            &&& is_unset(own, "HC_MPI_ROOT"@) && slot.peers.len() > 0 ==> is_set(
                launch.env,
                "HC_MPI_ROOT"@,
                slot.peers[0].host,
            )
            &&& is_unset(own, "HC_MPI_ROOT"@) && slot.peers.len() == 0 ==> is_set(
                launch.env,
                "HC_MPI_ROOT"@,
                "localhost"@,
            )
            &&& is_unset(own, "HC_MPI_PORT"@) && slot.rank < slot.peers.len() ==> is_set(
                launch.env,
                "HC_MPI_PORT"@,
                decimal(slot.peers[slot.rank as int].port as nat),
            )
            &&& is_unset(own, "HC_MPI_PORT"@) && slot.rank >= slot.peers.len() ==> is_set(
                launch.env,
                "HC_MPI_PORT"@,
                "9900"@,
            )
        },
{
    let own = kind->Mpi_env.listing();
    let vars = rank_vars(slot, peers_json);
    lemma_names_differ(slot, peers_json);
    assert forall|i: int| 0 <= i < 6 && is_unset(own, (#[trigger] vars[i]).0) implies is_set(
        vars + own,
        vars[i].0,
        vars[i].1,
    ) by {
        lemma_set_first(vars, own, i);
    }
    assert(vars[0].0 == "HC_MPI_RANK"@);
    assert(vars[1].0 == "HC_MPI_SIZE"@);
    assert(vars[2].0 == "HC_MPI_JOB_ID"@);
    assert(vars[3].0 == "HC_MPI_PEERS"@);
    assert(vars[4].0 == "HC_MPI_ROOT"@);
    assert(vars[5].0 == "HC_MPI_PORT"@);
}

/// Ranks of different numbers read different values of `HC_MPI_RANK`, each of
/// which stands for the number of its rank.
pub proof fn law_ranks_know_themselves_apart(
    kind: TaskKind,
    a: MpiSlotView,
    b: MpiSlotView,
    peers_json: Seq<char>,
    answers: Seq<bool>,
    read_by_a: Seq<char>,
    read_by_b: Seq<char>,
)
    requires
        kind is Mpi,
        !kind->Mpi_use_mpirun,
        is_unset(kind->Mpi_env.listing(), "HC_MPI_RANK"@),
        slot_plan(kind, a, peers_json, answers) matches PlanView::Run(launch) && is_set(
            launch.env,
            "HC_MPI_RANK"@,
            read_by_a,
        ),
        slot_plan(kind, b, peers_json, answers) matches PlanView::Run(launch) && is_set(
            launch.env,
            "HC_MPI_RANK"@,
            read_by_b,
        ),
    ensures
        number_in(read_by_a) == a.rank,
        number_in(read_by_b) == b.rank,
        a.rank != b.rank ==> read_by_a != read_by_b,
{
    law_rank_is_told_its_part(kind, a, peers_json, answers);
    law_rank_is_told_its_part(kind, b, peers_json, answers);
    let env_a = slot_plan(kind, a, peers_json, answers)->Run_0.env;
    let env_b = slot_plan(kind, b, peers_json, answers)->Run_0.env;
    law_variable_has_one_value(env_a, "HC_MPI_RANK"@, read_by_a, decimal(a.rank as nat));
    law_variable_has_one_value(env_b, "HC_MPI_RANK"@, read_by_b, decimal(b.rank as nat));
    law_decimal_stands_for_its_number(a.rank as nat);
    law_decimal_stands_for_its_number(b.rank as nat);
}

/// What the task sets is set for every rank, whatever the job would set under
/// that name, and nothing is set but by the task or under one of the six names.
pub proof fn law_variables_of_the_task_reach_the_rank(
    kind: TaskKind,
    slot: MpiSlotView,
    peers_json: Seq<char>,
    answers: Seq<bool>,
    name: Seq<char>,
    value: Seq<char>,
)
    requires
        kind is Mpi,
        !kind->Mpi_use_mpirun,
    ensures
        slot_plan(kind, slot, peers_json, answers) matches PlanView::Run(launch) && {
            let own = kind->Mpi_env.listing();
            &&& is_set(own, name, value) ==> is_set(launch.env, name, value)
            &&& is_set(launch.env, name, value) ==> is_set(own, name, value) || name
                == "HC_MPI_RANK"@ || name == "HC_MPI_SIZE"@ || name == "HC_MPI_JOB_ID"@ || name
                == "HC_MPI_PEERS"@ || name == "HC_MPI_ROOT"@ || name == "HC_MPI_PORT"@
        },
{
    let own = kind->Mpi_env.listing();
    let vars = rank_vars(slot, peers_json);
    let env = vars + own;
    if is_set(own, name, value) {
        let i = choose|i: int| counts_at(own, name, value, i);
        assert(env[6 + i] == own[i]);
        assert forall|j: int| 6 + i < j < env.len() implies (#[trigger] env[j]).0 != name by {
            assert(env[j] == own[j - 6]);
        }
        assert(counts_at(env, name, value, 6 + i));
    }
    if is_set(env, name, value) {
        let i = choose|i: int| counts_at(env, name, value, i);
        if i >= 6 {
            assert(env[i] == own[i - 6]);
            assert forall|j: int| i - 6 < j < own.len() implies (#[trigger] own[j]).0 != name by {
                assert(env[j + 6] == own[j]);
            }
            assert(counts_at(own, name, value, i - 6));
        } else {
            assert(env[i] == vars[i]);
        }
    }
}

/// With the launcher, a rank other than 0 has nothing to do: it reports success.
/// A task that is no MPI job has no slots.
pub proof fn law_other_ranks_are_left_to_the_launcher(
    kind: TaskKind,
    slot: MpiSlotView,
    peers_json: Seq<char>,
    answers: Seq<bool>,
)
    ensures
        kind is Mpi && kind->Mpi_use_mpirun && slot.rank != 0 ==> (slot_plan(
            kind,
            slot,
            peers_json,
            answers,
        ) matches PlanView::Done(output) && output.exit_code == 0 && output.stdout == "rank "@
            + decimal(slot.rank as nat) + " delegated to mpirun on rank-0"@ && output.stderr
            == Seq::<char>::empty() && output.body is None && output.custom_result is None),
        kind !is Mpi ==> slot_plan(kind, slot, peers_json, answers) == PlanView::Refused(
            "execute_mpi_slot called on non-MPI task"@,
        ),
        is_launched(kind, slot.rank) == (kind is Mpi && kind->Mpi_use_mpirun && slot.rank == 0),
{
}

/// Where the first `k` names were not found and the next one was, that one counts.
proof fn lemma_first_found(answers: Seq<bool>, k: int)
    requires
        0 <= k < answers.len(),
        k < 6,
        answers[k],
        forall|i: int| 0 <= i < k ==> !#[trigger] answers[i],
    ensures
        found_launcher(answers) == Some(launcher_names()[k]),
    decreases answers.len(),
{
    let front = answers.drop_last();
    if k < front.len() {
        assert(front[k]);
        assert forall|i: int| 0 <= i < k implies !#[trigger] front[i] by {
            assert(!answers[i]);
        }
        lemma_first_found(front, k);
    } else {
        assert forall|i: int| 0 <= i < front.len() && i < 6 implies !#[trigger] front[i] by {
            assert(!answers[i]);
        }
        lemma_none_found(front);
    }
}

/// Where no name was found, there is no launcher.
proof fn lemma_none_found(answers: Seq<bool>)
    requires
        forall|i: int| 0 <= i < answers.len() && i < 6 ==> !#[trigger] answers[i],
    ensures
        found_launcher(answers) is None,
    decreases answers.len(),
{
    if answers.len() > 0 {
        let front = answers.drop_last();
        assert forall|i: int| 0 <= i < front.len() && i < 6 implies !#[trigger] front[i] by {
            assert(!answers[i]);
        }
        lemma_none_found(front);
    }
}

/// At a place of the launcher's arguments a variable is passed on.
pub open spec fn is_passed(
    args: Seq<Seq<char>>,
    at: int,
    name: Seq<char>,
    value: Seq<char>,
) -> bool {
    &&& 0 <= at
    &&& at + 1 < args.len()
    &&& args[at] == "-x"@
    &&& args[at + 1] == name + "="@ + value
}

/// The variables that are passed on stand behind one another.
proof fn lemma_passed_on(vars: Seq<(Seq<char>, Seq<char>)>)
    ensures
        passed_on(vars).len() == 2 * vars.len(),
        forall|i: int|
            #![trigger vars[i]]
            0 <= i < vars.len() ==> is_passed(passed_on(vars), 2 * i, vars[i].0, vars[i].1),
    decreases vars.len(),
{
    if vars.len() > 0 {
        let front = vars.drop_last();
        lemma_passed_on(front);
        assert forall|i: int|
            #![trigger vars[i]]
            0 <= i < vars.len() implies is_passed(
            passed_on(vars),
            2 * i,
            vars[i].0,
            vars[i].1,
        ) by {
            if i < front.len() {
                assert(front[i] == vars[i]);
                assert(is_passed(passed_on(front), 2 * i, front[i].0, front[i].1));
                assert(passed_on(vars)[2 * i] == passed_on(front)[2 * i]);
                assert(passed_on(vars)[2 * i + 1] == passed_on(front)[2 * i + 1]);
            }
        }
    }
}

/// What is passed on somewhere is passed on there too when more stands around it.
proof fn lemma_passed_within(
    before: Seq<Seq<char>>,
    args: Seq<Seq<char>>,
    behind: Seq<Seq<char>>,
    at: int,
    name: Seq<char>,
    value: Seq<char>,
)
    requires
        is_passed(args, at, name, value),
    ensures
        is_passed(before + args + behind, before.len() + at, name, value),
{
    let all = before + args + behind;
    assert(all[before.len() + at] == args[at]);
    assert(all[before.len() + at + 1] == args[at + 1]);
}

/// The arguments of the launcher, one by one.
proof fn lemma_launcher_args(
    launcher: Seq<char>,
    program: Seq<char>,
    rest: Seq<Seq<char>>,
    own: Seq<(Seq<char>, Seq<char>)>,
    timeout_secs: u64,
    slot: MpiSlotView,
    peers_json: Seq<char>,
)
    ensures
        ({
            let args = launcher_plan(
                launcher,
                program,
                rest,
                own,
                timeout_secs,
                slot,
                peers_json,
            ).args;
            &&& args.len() == 13 + 2 * own.len() + rest.len()
            &&& args[0] == "--host"@
            &&& args[1] == host_list(slot.peers)
            &&& args[2] == "-np"@
            &&& args[3] == decimal(slot.size as nat)
            &&& args[4] == "--map-by"@
            &&& args[5] == "node"@
            &&& is_passed(args, 6, "HC_MPI_JOB_ID"@, hyphenated(slot.job_id))
            &&& is_passed(args, 8, "HC_MPI_SIZE"@, decimal(slot.size as nat))
            &&& is_passed(args, 10, "HC_MPI_PEERS"@, peers_json)
            &&& forall|i: int|
                #![trigger own[i]]
                0 <= i < own.len() ==> is_passed(args, 12 + 2 * i, own[i].0, own[i].1)
            &&& args[(12 + 2 * own.len()) as int] == program
            &&& forall|i: int|
                #![trigger rest[i]]
                0 <= i < rest.len() ==> args[13 + 2 * own.len() + i] == rest[i]
        }),
{
    let vars = launcher_vars(slot, peers_json);
    let head = seq![
        "--host"@,
        host_list(slot.peers),
        "-np"@,
        decimal(slot.size as nat),
        "--map-by"@,
        "node"@,
    ];
    let tail = seq![program] + rest;
    let args = launcher_plan(launcher, program, rest, own, timeout_secs, slot, peers_json).args;
    lemma_passed_on(own);
    lemma_passed_on(vars);
    assert(vars.len() == 3);
    assert(args =~= head + passed_on(vars) + (passed_on(own) + tail));
    assert(args =~= (head + passed_on(vars)) + passed_on(own) + tail);
    assert(vars[0].0 == "HC_MPI_JOB_ID"@);
    assert(vars[1].0 == "HC_MPI_SIZE"@);
    assert(vars[2].0 == "HC_MPI_PEERS"@);
    assert forall|i: int| #![trigger vars[i]] 0 <= i < vars.len() implies is_passed(
        args,
        6 + 2 * i,
        vars[i].0,
        vars[i].1,
    ) by {
        lemma_passed_within(
            head,
            passed_on(vars),
            passed_on(own) + tail,
            2 * i,
            vars[i].0,
            vars[i].1,
        );
    }
    assert forall|i: int| #![trigger own[i]] 0 <= i < own.len() implies is_passed(
        args,
        12 + 2 * i,
        own[i].0,
        own[i].1,
    ) by {
        lemma_passed_within(
            head + passed_on(vars),
            passed_on(own),
            tail,
            2 * i,
            own[i].0,
            own[i].1,
        );
    }
    assert(is_passed(args, 6, vars[0].0, vars[0].1));
    assert(is_passed(args, 8, vars[1].0, vars[1].1));
    assert(is_passed(args, 10, vars[2].0, vars[2].1));
}

/// Rank 0 starts the first launcher that was found, with the time limit of the
/// job. Its arguments name the hosts and the number of ranks, then pass on the
/// job, the number of ranks, the addresses of all ranks and every variable of the
/// task, and end with the program and the program's arguments.
pub proof fn law_launcher_gets_the_job(
    kind: TaskKind,
    slot: MpiSlotView,
    peers_json: Seq<char>,
    answers: Seq<bool>,
    k: int,
)
    requires
        kind is Mpi,
        kind->Mpi_use_mpirun,
        slot.rank == 0,
        0 <= k < answers.len(),
        k < 6,
        answers[k],
        forall|i: int| 0 <= i < k ==> !#[trigger] answers[i],
    ensures
        slot_plan(kind, slot, peers_json, answers) matches PlanView::Run(launch) && {
            let own = kind->Mpi_env.listing();
            let args = launch.args;
            &&& launch.purpose == Purpose::Launcher
            &&& k == 0 ==> launch.program == "mpirun"@
            &&& k == 1 ==> launch.program == "mpiexec"@
            &&& k == 2 ==> launch.program == "mpirun.openmpi"@
            &&& k == 3 ==> launch.program == "mpiexec.openmpi"@
            &&& k == 4 ==> launch.program == "mpirun.mpich"@
            &&& k == 5 ==> launch.program == "mpiexec.mpich"@
            &&& launch.env == Seq::<(Seq<char>, Seq<char>)>::empty()
            &&& launch.input == Seq::<u8>::empty()
            &&& launch.timeout_secs == kind->Mpi_timeout_secs
            &&& args.len() == 13 + 2 * own.len() + kind->Mpi_args@.len()
            &&& args[0] == "--host"@
            &&& args[1] == host_list(slot.peers)
            &&& args[2] == "-np"@
            &&& args[3] == decimal(slot.size as nat)
            &&& args[4] == "--map-by"@
            &&& args[5] == "node"@
            &&& is_passed(args, 6, "HC_MPI_JOB_ID"@, hyphenated(slot.job_id))
            &&& is_passed(args, 8, "HC_MPI_SIZE"@, decimal(slot.size as nat))
            &&& is_passed(args, 10, "HC_MPI_PEERS"@, peers_json)
            &&& forall|i: int|
                #![trigger own[i]]
                0 <= i < own.len() ==> is_passed(args, 12 + 2 * i, own[i].0, own[i].1)
            &&& args[(12 + 2 * own.len()) as int] == kind->Mpi_program@
            &&& forall|i: int|
                #![trigger kind->Mpi_args@[i]]
                0 <= i < kind->Mpi_args@.len() ==> args[13 + 2 * own.len() + i]
                    == kind->Mpi_args@[i]@
        },
{
    lemma_first_found(answers, k);
    let own = kind->Mpi_env.listing();
    let rest = kind->Mpi_args.deep_view();
    lemma_launcher_args(
        launcher_names()[k],
        kind->Mpi_program@,
        rest,
        own,
        kind->Mpi_timeout_secs,
        slot,
        peers_json,
    );
    let args = slot_plan(kind, slot, peers_json, answers)->Run_0.args;
    assert forall|i: int|
        #![trigger kind->Mpi_args@[i]]
        0 <= i < kind->Mpi_args@.len() implies args[13 + 2 * own.len() + i]
        == kind->Mpi_args@[i]@ by {
        assert(rest[i] == kind->Mpi_args@[i]@);
    }
}

/// Where no launcher was found, rank 0 is refused, and the reason says so.
pub proof fn law_without_a_launcher_the_job_is_refused(
    kind: TaskKind,
    slot: MpiSlotView,
    peers_json: Seq<char>,
    answers: Seq<bool>,
)
    requires
        kind is Mpi,
        kind->Mpi_use_mpirun,
        slot.rank == 0,
        forall|i: int| 0 <= i < answers.len() && i < 6 ==> !#[trigger] answers[i],
    ensures
        slot_plan(kind, slot, peers_json, answers) == PlanView::Refused(
            "No mpirun/mpiexec found in PATH. Install OpenMPI or MPICH, or use use_mpirun=false."@,
        ),
{
    lemma_none_found(answers);
}

/// The hosts of a job are listed in the order of the ranks, each with one slot.
pub proof fn law_hosts_are_listed_by_rank(
    a: Seq<MpiPeerView>,
    b: Seq<MpiPeerView>,
    peer: MpiPeerView,
)
    ensures
        host_list(seq![peer]) == peer.host + ":1"@,
        a.len() > 0 && b.len() > 0 ==> host_list(a + b) == host_list(a) + ","@ + host_list(b),
{
    let shown = |peer: MpiPeerView| peer.host + ":1"@;
    law_joined_lists_are_joined(
        a.map_values(shown),
        b.map_values(shown),
        peer.host + ":1"@,
        ","@,
    );
    assert((a + b).map_values(shown) =~= a.map_values(shown) + b.map_values(shown));
    assert(seq![peer].map_values(shown) =~= seq![peer.host + ":1"@]);
}

/// A shell task runs its command with its arguments and its time limit. A custom
/// task hands its payload to the handler that its tag names. An MPI job is not
/// carried out as a whole.
pub proof fn law_task_is_carried_out_as_it_says(kind: TaskKindView)
    ensures
        kind matches TaskKindView::Shell { command, args, timeout_secs } ==> (task_plan(
            kind,
        ) matches PlanView::Run(launch) && launch.purpose == Purpose::Shell && launch.program
            == command && launch.args == args && launch.env == Seq::<
            (Seq<char>, Seq<char>),
        >::empty() && launch.input == Seq::<u8>::empty() && launch.timeout_secs == timeout_secs),
        kind matches TaskKindView::Custom { tag, payload } ==> (task_plan(
            kind,
        ) matches PlanView::Run(launch) && launch.purpose == Purpose::Handler && launch.program
            == "hc-exec-"@ + tag && launch.args == Seq::<Seq<char>>::empty() && launch.env
            == Seq::<(Seq<char>, Seq<char>)>::empty() && launch.input == payload
            && launch.timeout_secs == 300),
        kind is Mpi ==> task_plan(kind) == PlanView::Refused(
            "Use execute_mpi_slot() for MPI tasks"@,
        ),
        kind matches TaskKindView::HttpFetch { url, method, body } ==> task_plan(kind)
            == fetch_plan(upper_case(method), url, body),
{
}

/// A request goes to its URL with its method. Its body goes with `POST` and `PUT`
/// and with nothing else, and any other method is refused by name.
pub proof fn law_request_is_made_as_it_says(
    upper: Seq<char>,
    url: Seq<char>,
    body: Option<Seq<char>>,
)
    ensures
        fetch_plan(upper, url, body) matches PlanView::Fetch(request) ==> {
            &&& request.url == url
            &&& request.method == HttpMethod::Get <==> upper == "GET"@
            &&& request.method == HttpMethod::Post <==> upper == "POST"@
            &&& request.method == HttpMethod::Put <==> upper == "PUT"@
            &&& request.method == HttpMethod::Delete <==> upper == "DELETE"@
            &&& upper == "POST"@ || upper == "PUT"@ ==> request.body == body
            &&& upper == "GET"@ || upper == "DELETE"@ ==> request.body is None
        },
        upper == "GET"@ || upper == "POST"@ || upper == "PUT"@ || upper == "DELETE"@
            <==> fetch_plan(upper, url, body) is Fetch,
        fetch_plan(upper, url, body) !is Fetch ==> fetch_plan(upper, url, body)
            == PlanView::Refused("Unsupported HTTP method: "@ + upper),
{
    reveal_strlit("GET");
    reveal_strlit("POST");
    reveal_strlit("PUT");
    reveal_strlit("DELETE");
    assert("GET"@[0] == 'G');
    assert("POST"@[1] == 'O');
    assert("PUT"@[1] == 'U');
    assert("DELETE"@[0] == 'D');
}

/// The letters of an ASCII text stand in upper case at the same places; all else
/// stays, and no lower-case letter is left.
pub proof fn law_letters_are_raised(text: Seq<char>, i: int)
    requires
        0 <= i < text.len(),
        text[i] as u32 <= 0x7f,
    ensures
        ascii_upper(text).len() == text.len(),
        97 <= text[i] as u32 <= 122 ==> ascii_upper(text)[i] as u32 == text[i] as u32 - 32,
        !(97 <= text[i] as u32 <= 122) ==> ascii_upper(text)[i] == text[i],
        !(97 <= ascii_upper(text)[i] as u32 <= 122),
{
}

/// The output of a process that has exited is its exit code, or -1 where there is
/// none, with what it wrote. Only the handler of a custom task leaves a result.
pub proof fn law_exit_is_reported(
    launch: LaunchView,
    code: Option<i32>,
    stdout: Vec<u8>,
    stderr: Vec<u8>,
)
    ensures
        run_outcome(launch, Ended::Exited { code, stdout, stderr }) matches Ok(output) && {
            &&& code matches Some(c) ==> output.exit_code == c
            &&& code is None ==> output.exit_code == -1
            &&& output.stdout == lossy_text(stdout@)
            &&& output.stderr == lossy_text(stderr@)
            &&& output.body is None
            &&& launch.purpose == Purpose::Handler ==> output.custom_result == Some(stdout@)
            &&& launch.purpose != Purpose::Handler ==> output.custom_result is None
        },
{
}

/// A process that has not exited by itself makes its task fail, and the reason
/// tells what kind of process it was.
pub proof fn law_failure_is_reported(launch: LaunchView, ended: Ended)
    ensures
        run_outcome(launch, ended) is Ok <==> ended is Exited,
        ended matches Ended::InputFailed { reason } ==> run_outcome(launch, ended) == Err::<
            TaskOutputView,
            Seq<char>,
        >(reason@),
        ended matches Ended::NotStarted { reason } ==> (run_outcome(launch, ended) matches Err(why)
            && {
            &&& launch.purpose == Purpose::Shell ==> why == "Failed to spawn '"@ + launch.program
                + "': "@ + reason@
            &&& launch.purpose == Purpose::Launcher ==> why == "mpirun failed to spawn: "@
                + reason@
            &&& launch.purpose matches Purpose::Rank(rank) ==> why == "Failed to spawn rank "@
                + decimal(rank as nat) + ": "@ + reason@
            &&& launch.purpose == Purpose::Handler ==> why == "Handler '"@ + launch.program
                + "' not found: "@ + reason@
        }),
        ended matches Ended::Lost { reason } ==> (run_outcome(launch, ended) matches Err(why) && {
            &&& launch.purpose == Purpose::Shell ==> why == "Failed to spawn '"@ + launch.program
                + "': "@ + reason@
            &&& launch.purpose == Purpose::Launcher ==> why == "mpirun failed to spawn: "@
                + reason@
            &&& launch.purpose matches Purpose::Rank(rank) ==> why == "Failed to spawn rank "@
                + decimal(rank as nat) + ": "@ + reason@
            &&& launch.purpose == Purpose::Handler ==> why == "Custom handler error: "@ + reason@
        }),
        ended is TimedOut ==> (run_outcome(launch, ended) matches Err(why) && {
            &&& launch.purpose == Purpose::Shell ==> why == "Command timed out after "@ + decimal(
                launch.timeout_secs as nat,
            ) + "s"@
            &&& launch.purpose == Purpose::Launcher ==> why == "MPI job timed out after "@
                + decimal(launch.timeout_secs as nat) + "s"@
            &&& launch.purpose matches Purpose::Rank(rank) ==> why == "MPI rank "@ + decimal(
                rank as nat,
            ) + " timed out after "@ + decimal(launch.timeout_secs as nat) + "s"@
            &&& launch.purpose == Purpose::Handler ==> why == "Custom task timed out"@
        }),
{
}

/// An answered request leaves its status, its body as text and its body as it was;
/// one that was not answered makes its task fail.
pub proof fn law_answer_is_reported(fetched: Fetched)
    ensures
        fetch_outcome(fetched) is Ok <==> fetched is Answered,
        fetched matches Fetched::Answered { status, body } ==> (fetch_outcome(
            fetched,
        ) matches Ok(output) && output.exit_code as int == status as int && output.stdout
            == lossy_text(body@) && output.stderr == Seq::<char>::empty() && output.body == Some(
            body@,
        ) && output.custom_result is None),
        fetched matches Fetched::NotPrepared { reason } ==> fetch_outcome(fetched) == Err::<
            TaskOutputView,
            Seq<char>,
        >(reason@),
        fetched matches Fetched::NoAnswer { reason } ==> fetch_outcome(fetched) == Err::<
            TaskOutputView,
            Seq<char>,
        >("HTTP failed: "@ + reason@),
        fetched matches Fetched::NoBody { reason } ==> fetch_outcome(fetched) == Err::<
            TaskOutputView,
            Seq<char>,
        >("Body read error: "@ + reason@),
{
}

/// The plan of a process keeps all that the process is started with.
pub proof fn law_launch_is_seen_whole(launch: Launch)
    ensures
        launch.deep_view().purpose == launch.purpose,
        launch.deep_view().program == launch.program@,
        launch.deep_view().args.len() == launch.args@.len(),
        forall|i: int|
            0 <= i < launch.args@.len() ==> launch.deep_view().args[i] == (
            #[trigger] launch.args@[i])@,
        launch.deep_view().env.len() == launch.env@.len(),
        forall|i: int|
            0 <= i < launch.env@.len() ==> launch.deep_view().env[i].0 == (
            #[trigger] launch.env@[i]).0@ && launch.deep_view().env[i].1 == launch.env@[i].1@,
        launch.deep_view().input == launch.input@,
        launch.deep_view().timeout_secs == launch.timeout_secs,
{
}

/// A node that has room takes a task or a slot and has one more under way; one
/// that is full answers that it is, under the names that were sent, and stays as it
/// was.
pub proof fn law_room_decides(session: LoadView, task: TaskView, slot: MpiSlotView)
    ensures
        session.active < session.max_tasks ==> session.action(
            ServerMessageView::DispatchTask { task },
        ) == ActionView::Execute(task) && session.action(
            ServerMessageView::DispatchMpiSlot { task, slot },
        ) == (ActionView::ExecuteSlot { task, slot }),
        session.active < session.max_tasks ==> {
            let a = session.after(ServerMessageView::DispatchTask { task });
            let b = session.after(ServerMessageView::DispatchMpiSlot { task, slot });
            &&& a.active == session.active + 1 && b.active == session.active + 1
            &&& a.max_tasks == session.max_tasks && b.max_tasks == session.max_tasks
            &&& a.node_id == session.node_id && b.node_id == session.node_id
        },
        session.active >= session.max_tasks ==> session.action(
            ServerMessageView::DispatchTask { task },
        ) == ActionView::Answer(
            WorkerMessageView::TaskError {
                task_id: task.id,
                node_id: session.node_id,
                reason: "worker at capacity ("@ + decimal(session.active as nat) + "/"@ + decimal(
                    session.max_tasks as nat,
                ) + ")"@,
            },
        ),
        session.active >= session.max_tasks ==> session.action(
            ServerMessageView::DispatchMpiSlot { task, slot },
        ) == ActionView::Answer(
            WorkerMessageView::MpiRankError {
                job_id: slot.job_id,
                task_id: task.id,
                node_id: session.node_id,
                rank: slot.rank,
                reason: "worker at capacity ("@ + decimal(session.active as nat) + "/"@ + decimal(
                    session.max_tasks as nat,
                ) + ")"@,
            },
        ),
        session.active >= session.max_tasks ==> session.after(
            ServerMessageView::DispatchTask { task },
        ) == session && session.after(ServerMessageView::DispatchMpiSlot { task, slot })
            == session,
        session.wf() <==> session.active <= session.max_tasks,
{
}

/// Only the end of the server ends a session; the other messages that bring no
/// work change nothing.
pub proof fn law_other_messages_bring_no_work(session: LoadView, message: ServerMessageView)
    requires
        message !is DispatchTask,
        message !is DispatchMpiSlot,
    ensures
        session.action(message) is EndSession <==> message is ServerShutdown,
        session.action(message) is Ignore <==> message !is ServerShutdown,
        session.after(message) == session,
{
}

/// The waits between attempts to connect are 1, 2, 4, 8, 16 and 32 seconds, and 60
/// from then on.
pub proof fn law_waits_double_up_to_a_minute(n: nat)
    ensures
        n == 0 ==> backoff_after(n) == 1,
        n == 1 ==> backoff_after(n) == 2,
        n == 2 ==> backoff_after(n) == 4,
        n == 3 ==> backoff_after(n) == 8,
        n == 4 ==> backoff_after(n) == 16,
        n == 5 ==> backoff_after(n) == 32,
        n >= 6 ==> backoff_after(n) == 60,
    decreases n,
{
    reveal_with_fuel(backoff_after, 8);
    if n > 6 {
        law_waits_double_up_to_a_minute((n - 1) as nat);
    }
}

/// A node that could not connect waits as long as it meant to, and twice as long
/// the next time but never over a minute. One that is to shut down stops.
pub proof fn law_failure_makes_the_wait_longer(backoff: u64, shutdown: bool)
    requires
        backoff <= 60,
    ensures
        shutdown ==> after_failure(backoff, shutdown).0 == Next::Stop && after_failure(
            backoff,
            shutdown,
        ).1 == backoff,
        !shutdown ==> after_failure(backoff, shutdown).0 == (Next::Wait { secs: backoff }),
        !shutdown && backoff <= 30 ==> after_failure(backoff, shutdown).1 == 2 * backoff,
        !shutdown && backoff > 30 ==> after_failure(backoff, shutdown).1 == 60,
        after_wait(shutdown) == Next::Stop <==> shutdown,
        after_wait(shutdown) == Next::Connect <==> !shutdown,
{
}

/// A node says how it is each time, and when it is to shut down it says after that
/// that it is draining.
pub proof fn law_beats_tell_the_load(node_id: u128, stats: NodeStats, shutdown: bool)
    ensures
        beats(node_id, stats, shutdown).len() == 1 + if shutdown {
            1int
        } else {
            0
        },
        beats(node_id, stats, shutdown)[0] == (WorkerMessageView::Heartbeat { node_id, stats }),
        shutdown ==> beats(node_id, stats, shutdown)[1] == (WorkerMessageView::Draining {
            node_id,
        }),
{
}

/// What is reported of a task is what came of it, under the task and the node.
pub proof fn law_report_tells_the_outcome(
    node_id: u128,
    task_id: u128,
    duration_ms: u64,
    result: Result<TaskOutputView, Seq<char>>,
)
    ensures
        result matches Ok(output) ==> task_report(node_id, task_id, duration_ms, result) == (
        WorkerMessageView::TaskResult { task_id, node_id, duration_ms, output }),
        result matches Err(reason) ==> task_report(node_id, task_id, duration_ms, result) == (
        WorkerMessageView::TaskError { task_id, node_id, reason }),
{
}

/// What is reported of a slot is what came of it, under the job, the task, the node
/// and the rank.
pub proof fn law_slot_report_tells_the_outcome(
    node_id: u128,
    task_id: u128,
    job_id: u128,
    rank: u32,
    duration_ms: u64,
    result: Result<TaskOutputView, Seq<char>>,
)
    ensures
        result matches Ok(output) ==> slot_report(
            node_id,
            task_id,
            job_id,
            rank,
            duration_ms,
            result,
        ) == (WorkerMessageView::MpiRankResult {
            job_id,
            task_id,
            node_id,
            rank,
            duration_ms,
            output,
        }),
        result matches Err(reason) ==> slot_report(
            node_id,
            task_id,
            job_id,
            rank,
            duration_ms,
            result,
        ) == (WorkerMessageView::MpiRankError { job_id, task_id, node_id, rank, reason }),
{
}

/// A node declares the tags and the region it was given, the cores and the memory
/// of its machine, a GPU where either probe found one, and a launcher where it was
/// found under any name.
pub proof fn law_node_declares_what_it_has(args: WorkerArgs, machine: Machine)
    ensures
        declared(args, machine).tags.len() == args.tags@.len(),
        forall|i: int|
            0 <= i < args.tags@.len() ==> declared(args, machine).tags[i] == (
            #[trigger] args.tags@[i])@,
        declared(args, machine).region == args.region@,
        machine.cpus <= u32::MAX ==> declared(args, machine).cpu_cores == machine.cpus,
        declared(args, machine).total_ram_mb * 1048576 <= machine.total_memory_bytes,
        machine.total_memory_bytes < (declared(args, machine).total_ram_mb + 1) * 1048576,
        declared(args, machine).has_gpu <==> machine.has_dri || machine.has_nvidia,
        declared(args, machine).os == machine.os@ + "-"@ + machine.arch@,
        args.mpi_host matches Some(host) ==> declared(args, machine).mpi_host == host@,
        args.mpi_host is None && machine.hostname is Some ==> declared(args, machine).mpi_host
            == machine.hostname->0@,
        args.mpi_host is None && machine.hostname is None ==> declared(args, machine).mpi_host
            == "localhost"@,
        declared(args, machine).has_mpirun <==> exists|i: int|
            0 <= i < machine.launchers@.len() && #[trigger] machine.launchers@[i],
{
    if machine.launchers@.contains(true) {
        let i = machine.launchers@.index_of(true);
        assert(machine.launchers@[i]);
    }
}

/// The load is told in whole megabytes of free memory, with the rest as it was
/// measured.
pub proof fn law_load_is_told_as_measured(
    active_tasks: u32,
    cpu_used_pct: Percent,
    available_bytes: u64,
    reported_at: Timestamp,
)
    ensures
        ({
            let stats = load(active_tasks, cpu_used_pct, available_bytes, reported_at);
            &&& stats.active_tasks == active_tasks
            &&& stats.cpu_used_pct == cpu_used_pct
            &&& stats.reported_at == reported_at
            &&& stats.latency_ms is None
            &&& stats.ram_free_mb * 1048576 <= available_bytes
            &&& available_bytes < (stats.ram_free_mb + 1) * 1048576
        }),
{
}

/// A given name is the name of a node; without one its machine's is, and without
/// that one made of the start of its identifier.
pub proof fn law_name_is_the_best_known(
    given: Option<Seq<char>>,
    hostname: Option<Seq<char>>,
    node_id: u128,
)
    ensures
        given matches Some(name) ==> node_name(given, hostname, node_id) == name,
        given is None && hostname is Some ==> Some(node_name(given, hostname, node_id))
            == hostname,
        given is None && hostname is None ==> node_name(given, hostname, node_id) == "node-"@
            + hyphenated(node_id).take(8),
{
}

/// A text does not hold another anywhere.
pub open spec fn is_nowhere_in(text: Seq<char>, pattern: Seq<char>) -> bool {
    forall|i: int|
        0 <= i && i + pattern.len() <= text.len() ==> #[trigger] text.subrange(
            i,
            i + pattern.len(),
        ) != pattern
}

/// A text with a start that the pattern begins nowhere in does not hold the
/// pattern where the rest does not.
proof fn lemma_nowhere_behind(start: Seq<char>, rest: Seq<char>, pattern: Seq<char>)
    requires
        pattern.len() > 0,
        is_nowhere_in(rest, pattern),
        forall|i: int| 0 <= i < start.len() ==> #[trigger] start[i] != pattern[0],
    ensures
        is_nowhere_in(start + rest, pattern),
{
    let text = start + rest;
    assert forall|i: int|
        0 <= i && i + pattern.len() <= text.len() implies #[trigger] text.subrange(
        i,
        i + pattern.len(),
    ) != pattern by {
        if i < start.len() {
            assert(text.subrange(i, i + pattern.len())[0] == start[i]);
        } else {
            let at = i - start.len();
            assert(text.subrange(i, i + pattern.len()) =~= rest.subrange(
                at,
                at + pattern.len(),
            ));
        }
    }
}

/// What stands nowhere is not replaced, and what stands at the start is.
proof fn lemma_start_replaced(place: Seq<char>, pattern: Seq<char>, by: Seq<char>)
    ensures
        is_nowhere_in(place, pattern) ==> replaced_once(place, pattern, by) == place,
        replaced_once(pattern + place, pattern, by) == by + place,
{
    let text = pattern + place;
    law_first_occurrence_is_replaced(place, pattern, by, 0);
    law_first_occurrence_is_replaced(text, pattern, by, 0);
    assert(text.subrange(0, pattern.len() as int) =~= pattern);
    assert(text.take(0) + by + text.skip(pattern.len() as int) =~= by + place);
}

/// The WebSocket of a server that is reached by plain or encrypted HTTP is reached
/// in the same way, at the same place with `/ws` behind it.
pub proof fn law_socket_is_where_the_server_is(place: Seq<char>)
    requires
        is_nowhere_in(place, "http://"@),
        is_nowhere_in(place, "https://"@),
    ensures
        socket_url("http://"@ + place) == "ws://"@ + place + "/ws"@,
        socket_url("https://"@ + place) == "wss://"@ + place + "/ws"@,
        socket_url(place) == place + "/ws"@,
{
    let http = "http://"@;
    let https = "https://"@;
    let ws = "ws://"@;
    let safe = https + place;
    assert(http.len() == 7 && http[0] == 'h' && http[4] == ':') by {
        reveal_strlit("http://");
    }
    assert(https.len() == 8 && https[0] == 'h' && https[4] == 's') by {
        reveal_strlit("https://");
    }
    assert forall|i: int| 0 <= i < ws.len() implies #[trigger] ws[i] != 'h' by {
        reveal_strlit("ws://");
    }
    assert forall|i: int| 1 <= i < 8 implies #[trigger] https[i] != 'h' by {
        reveal_strlit("https://");
    }
    lemma_start_replaced(place, http, ws);
    lemma_start_replaced(place, https, "wss://"@);
    lemma_nowhere_behind(ws, place, https);
    lemma_start_replaced(ws + place, https, "wss://"@);
    let behind = https.skip(1);
    lemma_nowhere_behind(behind, place, http);
    assert forall|i: int| 0 <= i && i + http.len() <= safe.len() implies #[trigger] safe.subrange(
        i,
        i + http.len(),
    ) != http by {
        if i == 0 {
            assert(safe.subrange(i, i + http.len())[4] == 's');
        } else {
            assert(safe.subrange(i, i + http.len()) =~= (behind + place).subrange(
                i - 1,
                i - 1 + http.len(),
            ));
        }
    }
    lemma_start_replaced(safe, http, ws);
}

/// A worker introduces itself by its identifier, its name and what it declares.
pub proof fn law_worker_introduces_itself(
    node_id: u128,
    name: Seq<char>,
    capabilities: NodeCapabilitiesView,
)
    ensures
        introduction(node_id, name, capabilities) == (WorkerMessageView::Register {
            node_id,
            name,
            capabilities,
        }),
{
}

} // verus!
