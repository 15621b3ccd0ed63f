//! How a worker carries out tasks: what is to be run or fetched, and what comes of it.
use crate::ident::{hyphenated, id_text};
use crate::output::{TaskOutput, TaskOutputView};
use crate::string_map::StringMap;
use crate::task::{
    copy_optional, copy_texts, MpiPeer, MpiPeerView, MpiSlot, MpiSlotView, Task, TaskKind,
    TaskKindView,
};
use crate::text::{decimal, decimal_text, join, joined, same_text};
use crate::worker::result_view;
use vstd::prelude::*;
use vstd::utf8::{decode_utf8, valid_utf8};

verus! {

/// How long an HTTP request may take, in seconds.
pub const HTTP_TIMEOUT_SECS: u64 = 60;

/// How long the handler of a custom task may take, in seconds.
pub const HANDLER_TIMEOUT_SECS: u64 = 300;

/// What `String::from_utf8_lossy` makes of bytes.
pub uninterp spec fn lossy_text(bytes: Seq<u8>) -> Seq<char>;

/// `String::from_utf8_lossy`: bytes that are UTF-8 become the text that they
/// encode. What stands in for other bytes is not spelled out.
#[verifier::external_body]
fn text_of_bytes(bytes: &Vec<u8>) -> (text: String)
    ensures
        text@ == lossy_text(bytes@),
        valid_utf8(bytes@) ==> text@ == decode_utf8(bytes@),
{
    String::from_utf8_lossy(bytes).into_owned()
}

/// What `str::to_uppercase` makes of a text.
pub uninterp spec fn upper_case(text: Seq<char>) -> Seq<char>;

/// Whether a text holds ASCII characters only.
pub open spec fn is_ascii_text(text: Seq<char>) -> bool {
    forall|i: int| 0 <= i < text.len() ==> #[trigger] text[i] as u32 <= 0x7f
}

/// An ASCII text with its letters in upper case.
pub open spec fn ascii_upper(text: Seq<char>) -> Seq<char> {
    text.map_values(
        |c: char|
            if 'a' as u32 <= c as u32 <= 'z' as u32 {
                (c as u32 - 32) as char
            } else {
                c
            },
    )
}

/// `str::to_uppercase`: the text in upper case. Of an ASCII text the letters from
/// `a` to `z` become those from `A` to `Z` and all else stays. How other
/// characters map is not spelled out.
#[verifier::external_body]
fn to_upper_case(text: &str) -> (upper: String)
    ensures
        upper@ == upper_case(text@),
        is_ascii_text(text@) ==> upper@ == ascii_upper(text@),
{
    text.to_uppercase()
}

/// What kind of process a launch starts. It tells how its failures are reported.
#[derive(Clone, Copy, Debug, PartialEq, Eq, Structural)]
pub enum Purpose {
    /// A shell task.
    Shell,
    /// The launcher that starts all ranks of an MPI job.
    Launcher,
    /// One rank of an MPI job.
    Rank(u32),
    /// The handler of a custom task.
    Handler,
}

/// A process that is to be started.
#[derive(Debug)]
pub struct Launch {
    pub purpose: Purpose,
    pub program: String,
    pub args: Vec<String>,
    /// Variables set for the process; of two with one name the later counts.
    pub env: Vec<(String, String)>,
    /// What the process reads, where it is to read anything.
    pub input: Vec<u8>,
    pub timeout_secs: u64,
}

/// The contents of a `Launch`.
#[verifier::ext_equal]
pub struct LaunchView {
    pub purpose: Purpose,
    pub program: Seq<char>,
    pub args: Seq<Seq<char>>,
    pub env: Seq<(Seq<char>, Seq<char>)>,
    pub input: Seq<u8>,
    pub timeout_secs: u64,
}

impl DeepView for Launch {
    type V = LaunchView;

    open spec fn deep_view(&self) -> LaunchView {
        LaunchView {
            purpose: self.purpose,
            program: self.program@,
            args: self.args.deep_view(),
            env: self.env.deep_view(),
            input: self.input@,
            timeout_secs: self.timeout_secs,
        }
    }
}

/// The method of an HTTP request.
#[derive(Clone, Copy, Debug, PartialEq, Eq, Structural)]
pub enum HttpMethod {
    Get,
    Post,
    Put,
    Delete,
}

/// An HTTP request that is to be made.
#[derive(Debug, PartialEq)]
pub struct HttpRequest {
    pub method: HttpMethod,
    pub url: String,
    pub body: Option<String>,
}

/// The contents of an `HttpRequest`.
pub struct HttpRequestView {
    pub method: HttpMethod,
    pub url: Seq<char>,
    pub body: Option<Seq<char>>,
}

impl DeepView for HttpRequest {
    type V = HttpRequestView;

    open spec fn deep_view(&self) -> HttpRequestView {
        HttpRequestView { method: self.method, url: self.url@, body: self.body.deep_view() }
    }
}

/// How a task is carried out.
#[derive(Debug)]
pub enum Plan {
    Run(Launch),
    Fetch(HttpRequest),
    /// Nothing is to be done: this is the result.
    Done(TaskOutput),
    /// The task cannot be carried out, for this reason.
    Refused(String),
}

/// The contents of a `Plan`.
pub enum PlanView {
    Run(LaunchView),
    Fetch(HttpRequestView),
    Done(TaskOutputView),
    Refused(Seq<char>),
}

impl DeepView for Plan {
    type V = PlanView;

    open spec fn deep_view(&self) -> PlanView {
        match self {
            Plan::Run(launch) => PlanView::Run(launch.deep_view()),
            Plan::Fetch(request) => PlanView::Fetch(request.deep_view()),
            Plan::Done(output) => PlanView::Done(output.deep_view()),
            Plan::Refused(reason) => PlanView::Refused(reason@),
        }
    }
}

/// The plan for a shell task: the command with its arguments.
pub open spec fn shell_plan(
    command: Seq<char>,
    args: Seq<Seq<char>>,
    timeout_secs: u64,
) -> LaunchView {
    LaunchView {
        purpose: Purpose::Shell,
        program: command,
        args,
        env: Seq::empty(),
        input: Seq::empty(),
        timeout_secs,
    }
}

/// The plan for a custom task: the handler that its tag names reads the payload.
pub open spec fn custom_plan(tag: Seq<char>, payload: Seq<u8>) -> LaunchView {
    LaunchView {
        purpose: Purpose::Handler,
        program: "hc-exec-"@ + tag,
        args: Seq::empty(),
        env: Seq::empty(),
        input: payload,
        timeout_secs: HANDLER_TIMEOUT_SECS,
    }
}

/// The plan for an HTTP task, by its method in upper case. Only `POST` and `PUT`
/// carry the body; a method other than these four is refused.
pub open spec fn fetch_plan(
    upper: Seq<char>,
    url: Seq<char>,
    body: Option<Seq<char>>,
) -> PlanView {
    if upper == "GET"@ {
        PlanView::Fetch(HttpRequestView { method: HttpMethod::Get, url, body: None })
    } else if upper == "POST"@ {
        PlanView::Fetch(HttpRequestView { method: HttpMethod::Post, url, body })
    } else if upper == "PUT"@ {
        PlanView::Fetch(HttpRequestView { method: HttpMethod::Put, url, body })
    } else if upper == "DELETE"@ {
        PlanView::Fetch(HttpRequestView { method: HttpMethod::Delete, url, body: None })
    } else {
        PlanView::Refused("Unsupported HTTP method: "@ + upper)
    }
}

/// The plan for a task that is no MPI job.
pub open spec fn task_plan(kind: TaskKindView) -> PlanView {
    match kind {
        TaskKindView::Shell { command, args, timeout_secs } => PlanView::Run(
            shell_plan(command, args, timeout_secs),
        ),
        TaskKindView::HttpFetch { url, method, body } => fetch_plan(upper_case(method), url, body),
        TaskKindView::Custom { tag, payload } => PlanView::Run(custom_plan(tag, payload)),
        TaskKindView::Mpi { .. } => PlanView::Refused("Use execute_mpi_slot() for MPI tasks"@),
    }
}

/// The plan for an HTTP task, by its method in upper case.
pub fn plan_fetch(upper: &str, url: &str, body: &Option<String>) -> (r: Plan)
    ensures
        r.deep_view() == fetch_plan(upper@, url@, body.deep_view()),
{
    if same_text(upper, "GET") {
        Plan::Fetch(HttpRequest { method: HttpMethod::Get, url: url.to_owned(), body: None })
    } else if same_text(upper, "POST") {
        Plan::Fetch(
            HttpRequest {
                method: HttpMethod::Post,
                url: url.to_owned(),
                body: copy_optional(body),
            },
        )
    } else if same_text(upper, "PUT") {
        Plan::Fetch(
            HttpRequest { method: HttpMethod::Put, url: url.to_owned(), body: copy_optional(body) },
        )
    } else if same_text(upper, "DELETE") {
        Plan::Fetch(HttpRequest { method: HttpMethod::Delete, url: url.to_owned(), body: None })
    } else {
        let mut reason = "Unsupported HTTP method: ".to_owned();
        reason.append(upper);
        Plan::Refused(reason)
    }
}

/// The plan for a task that is no MPI job. Of an HTTP task with an ASCII method it
/// is the one for the method with its letters in upper case.
pub fn execute(task: &Task) -> (r: Plan)
    ensures
        r.deep_view() == task_plan(task.deep_view().kind),
        task.deep_view().kind matches TaskKindView::HttpFetch { url, method, body }
            ==> is_ascii_text(method) ==> r.deep_view() == fetch_plan(
            ascii_upper(method),
            url,
            body,
        ),
{
    match &task.kind {
        TaskKind::Shell { command, args, timeout_secs } => {
            let env: Vec<(String, String)> = Vec::new();
            let input: Vec<u8> = Vec::new();
            let launch = Launch {
                purpose: Purpose::Shell,
                program: command.clone(),
                args: copy_texts(args),
                env,
                input,
                timeout_secs: *timeout_secs,
            };
            assert(launch.deep_view() =~= shell_plan(command@, args.deep_view(), *timeout_secs));
            Plan::Run(launch)
        },
        TaskKind::HttpFetch { url, method, body } => {
            let upper = to_upper_case(method.as_str());
            plan_fetch(upper.as_str(), url.as_str(), body)
        },
        TaskKind::Custom { tag, payload } => {
            let mut program = "hc-exec-".to_owned();
            program.append(tag.as_str());
            let args: Vec<String> = Vec::new();
            let env: Vec<(String, String)> = Vec::new();
            let input = payload.clone();
            let launch = Launch {
                purpose: Purpose::Handler,
                program,
                args,
                env,
                input,
                timeout_secs: HANDLER_TIMEOUT_SECS,
            };
            assert(launch.deep_view() =~= custom_plan(tag@, payload@));
            Plan::Run(launch)
        },
        TaskKind::Mpi { .. } => Plan::Refused("Use execute_mpi_slot() for MPI tasks".to_owned()),
    }
}

/// The names under which the launcher of MPI jobs may be installed, in the order
/// in which they are looked for.
pub open spec fn launcher_names() -> Seq<Seq<char>> {
    seq![
        "mpirun"@,
        "mpiexec"@,
        "mpirun.openmpi"@,
        "mpiexec.openmpi"@,
        "mpirun.mpich"@,
        "mpiexec.mpich"@,
    ]
}

/// The first name for which a launcher was found. The answers are by name.
pub open spec fn found_launcher(answers: Seq<bool>) -> Option<Seq<char>>
    decreases answers.len(),
{
    if answers.len() == 0 {
        None
    } else {
        match found_launcher(answers.drop_last()) {
            Some(name) => Some(name),
            None => if answers.last() && answers.len() <= launcher_names().len() {
                Some(launcher_names()[answers.len() - 1])
            } else {
                None
            },
        }
    }
}

/// Why a job that needs the launcher is refused where there is none.
pub open spec fn no_launcher() -> Seq<char> {
    "No mpirun/mpiexec found in PATH. Install OpenMPI or MPICH, or use use_mpirun=false."@
}

/// The names under which the launcher of MPI jobs may be installed, in the order
/// in which they are looked for.
pub fn launcher_candidates() -> (r: Vec<String>)
    ensures
        r.deep_view() == launcher_names(),
{
    let mut r: Vec<String> = Vec::new();
    r.push("mpirun".to_owned());
    r.push("mpiexec".to_owned());
    r.push("mpirun.openmpi".to_owned());
    r.push("mpiexec.openmpi".to_owned());
    r.push("mpirun.mpich".to_owned());
    r.push("mpiexec.mpich".to_owned());
    assert(r.deep_view() =~= launcher_names());
    r
}

/// The first name for which a launcher was found. The answers are by name; names
/// without an answer count as not found.
pub fn find_mpirun(answers: &Vec<bool>) -> (r: Result<String, String>)
    ensures
        match r {
            Ok(name) => found_launcher(answers@) == Some(name@),
            Err(reason) => found_launcher(answers@) is None && reason@ == no_launcher(),
        },
{
    let names = launcher_candidates();
    let mut i: usize = 0;
    while i < answers.len()
        invariant
            names.deep_view() == launcher_names(),
            i <= answers.len(),
            found_launcher(answers@.take(i as int)) is None,
        decreases answers.len() - i,
    {
        assert(answers@.take(i + 1).drop_last() =~= answers@.take(i as int));
        if answers[i] && i < names.len() {
            let name = names[i].clone();
            proof {
                assert(names.deep_view()[i as int] == name@);
                lemma_launcher_found_first(answers@, i + 1);
            }
            return Ok(name);
        }
        i = i + 1;
    }
    assert(answers@.take(answers.len() as int) =~= answers@);
    Err(
        "No mpirun/mpiexec found in PATH. Install OpenMPI or MPICH, or use use_mpirun=false."
            .to_owned(),
    )
}

/// Answers behind a name that was found do not matter.
proof fn lemma_launcher_found_first(answers: Seq<bool>, n: int)
    requires
        0 <= n <= answers.len(),
        found_launcher(answers.take(n)) is Some,
    ensures
        found_launcher(answers) == found_launcher(answers.take(n)),
    decreases answers.len(),
{
    if n == answers.len() {
        assert(answers.take(n) =~= answers);
    } else {
        assert(answers.drop_last().take(n) =~= answers.take(n));
        lemma_launcher_found_first(answers.drop_last(), n);
    }
}

/// A variable with its value, as an argument of the launcher.
pub open spec fn assignment(name: Seq<char>, value: Seq<char>) -> Seq<char> {
    name + "="@ + value
}

/// The hosts of a job with one slot each, as an argument of the launcher.
pub open spec fn host_list(peers: Seq<MpiPeerView>) -> Seq<char> {
    joined(peers.map_values(|peer: MpiPeerView| peer.host + ":1"@), ","@)
}

/// The arguments by which the launcher passes variables on to the ranks.
pub open spec fn passed_on(vars: Seq<(Seq<char>, Seq<char>)>) -> Seq<Seq<char>>
    decreases vars.len(),
{
    if vars.len() == 0 {
        Seq::empty()
    } else {
        passed_on(vars.drop_last()) + seq![
            "-x"@,
            assignment(vars.last().0, vars.last().1),
        ]
    }
}

/// One more variable is passed on behind the others.
proof fn lemma_passed_on_next(vars: Seq<(Seq<char>, Seq<char>)>, next: (Seq<char>, Seq<char>))
    ensures
        passed_on(vars.push(next)) == passed_on(vars) + seq!["-x"@, assignment(next.0, next.1)],
{
    assert(vars.push(next).drop_last() =~= vars);
}

/// The variables that the launcher passes on of a job.
pub open spec fn launcher_vars(slot: MpiSlotView, peers_json: Seq<char>) -> Seq<
    (Seq<char>, Seq<char>),
> {
    seq![
        ("HC_MPI_JOB_ID"@, hyphenated(slot.job_id)),
        ("HC_MPI_SIZE"@, decimal(slot.size as nat)),
        ("HC_MPI_PEERS"@, peers_json),
    ]
}

/// The plan for rank 0 of a job that the launcher starts: the launcher gets the
/// hosts and the number of ranks, the variables of the job and of the task, and
/// the program with its arguments.
pub open spec fn launcher_plan(
    launcher: Seq<char>,
    program: Seq<char>,
    args: Seq<Seq<char>>,
    vars: Seq<(Seq<char>, Seq<char>)>,
    timeout_secs: u64,
    slot: MpiSlotView,
    peers_json: Seq<char>,
) -> LaunchView {
    LaunchView {
        purpose: Purpose::Launcher,
        program: launcher,
        args: seq![
            "--host"@,
            host_list(slot.peers),
            "-np"@,
            decimal(slot.size as nat),
            "--map-by"@,
            "node"@,
        ] + passed_on(launcher_vars(slot, peers_json)) + passed_on(vars) + seq![program] + args,
        env: Seq::empty(),
        input: Seq::empty(),
        timeout_secs,
    }
}

/// The host of rank 0.
pub open spec fn root_host(peers: Seq<MpiPeerView>) -> Seq<char> {
    if peers.len() > 0 {
        peers[0].host
    } else {
        "localhost"@
    }
}

/// The port of a rank.
pub open spec fn rank_port(peers: Seq<MpiPeerView>, rank: u32) -> Seq<char> {
    if rank < peers.len() {
        decimal(peers[rank as int].port as nat)
    } else {
        "9900"@
    }
}

/// The variables that tell a rank of its job.
pub open spec fn rank_vars(slot: MpiSlotView, peers_json: Seq<char>) -> Seq<
    (Seq<char>, Seq<char>),
> {
    seq![
        ("HC_MPI_RANK"@, decimal(slot.rank as nat)),
        ("HC_MPI_SIZE"@, decimal(slot.size as nat)),
        ("HC_MPI_JOB_ID"@, hyphenated(slot.job_id)),
        ("HC_MPI_PEERS"@, peers_json),
        ("HC_MPI_ROOT"@, root_host(slot.peers)),
        ("HC_MPI_PORT"@, rank_port(slot.peers, slot.rank)),
    ]
}

/// The plan for a rank that runs on its own: the program, with the variables of
/// the job and behind them those of the task.
pub open spec fn rank_plan(
    program: Seq<char>,
    args: Seq<Seq<char>>,
    vars: Seq<(Seq<char>, Seq<char>)>,
    timeout_secs: u64,
    slot: MpiSlotView,
    peers_json: Seq<char>,
) -> LaunchView {
    LaunchView {
        purpose: Purpose::Rank(slot.rank),
        program,
        args,
        env: rank_vars(slot, peers_json) + vars,
        input: Seq::empty(),
        timeout_secs,
    }
}

/// A variable with its value, as an argument of the launcher.
fn assignment_text(name: &str, value: &str) -> (r: String)
    ensures
        r@ == assignment(name@, value@),
{
    let mut r = name.to_owned();
    r.append("=");
    r.append(value);
    r
}

/// The hosts of a job with one slot each, as an argument of the launcher.
fn host_list_text(peers: &Vec<MpiPeer>) -> (r: String)
    ensures
        r@ == host_list(peers.deep_view()),
{
    let mut hosts: Vec<String> = Vec::new();
    let ghost all = peers.deep_view().map_values(|peer: MpiPeerView| peer.host + ":1"@);
    let mut i: usize = 0;
    while i < peers.len()
        invariant
            i <= peers.len(),
            all == peers.deep_view().map_values(|peer: MpiPeerView| peer.host + ":1"@),
            hosts.deep_view() == all.take(i as int),
        decreases peers.len() - i,
    {
        let ghost before = hosts.deep_view();
        let mut host = peers[i].host.clone();
        host.append(":1");
        assert(host@ == all[i as int]);
        hosts.push(host);
        assert(hosts.deep_view() =~= before.push(host@));
        i = i + 1;
        assert(hosts.deep_view() =~= all.take(i as int));
    }
    assert(hosts.deep_view() =~= all);
    join(&hosts, ",")
}

/// Adds an argument by which the launcher passes a variable on.
fn pass_on(args: &mut Vec<String>, name: &str, value: &str)
    ensures
        final(args).deep_view() == old(args).deep_view() + seq![
            "-x"@,
            assignment(name@, value@),
        ],
{
    args.push("-x".to_owned());
    args.push(assignment_text(name, value));
    assert(args.deep_view() =~= old(args).deep_view() + seq!["-x"@, assignment(name@, value@)]);
}

/// The plan for rank 0 of a job that the launcher starts.
fn execute_mpirun(
    launcher: String,
    program: &String,
    args: &Vec<String>,
    env: &StringMap,
    timeout_secs: u64,
    slot: &MpiSlot,
    peers_json: &str,
) -> (r: Launch)
    ensures
        r.deep_view() == launcher_plan(
            launcher@,
            program@,
            args.deep_view(),
            env.listing(),
            timeout_secs,
            slot.deep_view(),
            peers_json@,
        ),
{
    let mut all: Vec<String> = Vec::new();
    all.push("--host".to_owned());
    all.push(host_list_text(&slot.peers));
    all.push("-np".to_owned());
    all.push(decimal_text(slot.size as u64));
    all.push("--map-by".to_owned());
    all.push("node".to_owned());
    let ghost head = seq![
        "--host"@,
        host_list(slot.deep_view().peers),
        "-np"@,
        decimal(slot.size as nat),
        "--map-by"@,
        "node"@,
    ];
    assert(all.deep_view() =~= head);
    pass_on(&mut all, "HC_MPI_JOB_ID", id_text(slot.job_id).as_str());
    pass_on(&mut all, "HC_MPI_SIZE", decimal_text(slot.size as u64).as_str());
    pass_on(&mut all, "HC_MPI_PEERS", peers_json);
    let ghost job_vars = launcher_vars(slot.deep_view(), peers_json@);
    proof {
        let none: Seq<(Seq<char>, Seq<char>)> = Seq::empty();
        let one = none.push(job_vars[0]);
        let two = one.push(job_vars[1]);
        lemma_passed_on_next(none, job_vars[0]);
        lemma_passed_on_next(one, job_vars[1]);
        lemma_passed_on_next(two, job_vars[2]);
        assert(job_vars =~= two.push(job_vars[2]));
        assert(all.deep_view() =~= head + passed_on(job_vars));
    }
    let ghost vars = env.listing();
    let n: usize = env.len();
    let mut i: usize = 0;
    assert(vars.take(0) =~= Seq::<(Seq<char>, Seq<char>)>::empty());
    assert(all.deep_view() =~= head + passed_on(job_vars) + passed_on(vars.take(0)));
    while i < n
        invariant
            vars == env.listing(),
            n == vars.len(),
            i <= n,
            all.deep_view() == head + passed_on(job_vars) + passed_on(vars.take(i as int)),
        decreases n - i,
    {
        assert(vars.take(i + 1).drop_last() =~= vars.take(i as int));
        assert(vars.take(i + 1).last() == vars[i as int]);
        let ghost before = all.deep_view();
        pass_on(&mut all, env.key(i), env.value(i));
        i = i + 1;
        assert(all.deep_view() =~= head + passed_on(job_vars) + passed_on(vars.take(i as int)));
    }
    assert(vars.take(n as int) =~= vars);
    all.push(program.clone());
    let ghost so_far = head + passed_on(job_vars) + passed_on(vars) + seq![program@];
    assert(all.deep_view() =~= so_far);
    let mut k: usize = 0;
    assert(args.deep_view().take(0) =~= Seq::<Seq<char>>::empty());
    assert(all.deep_view() =~= so_far + args.deep_view().take(0));
    while k < args.len()
        invariant
            k <= args.len(),
            all.deep_view() == so_far + args.deep_view().take(k as int),
        decreases args.len() - k,
    {
        let ghost before = all.deep_view();
        let arg = args[k].clone();
        all.push(arg);
        assert(all.deep_view() =~= before.push(arg@));
        k = k + 1;
        assert(all.deep_view() =~= so_far + args.deep_view().take(k as int));
    }
    assert(args.deep_view().take(args.len() as int) =~= args.deep_view());
    let no_env: Vec<(String, String)> = Vec::new();
    let no_input: Vec<u8> = Vec::new();
    let r = Launch {
        purpose: Purpose::Launcher,
        program: launcher,
        args: all,
        env: no_env,
        input: no_input,
        timeout_secs,
    };
    assert(r.deep_view() =~= launcher_plan(
        launcher@,
        program@,
        args.deep_view(),
        env.listing(),
        timeout_secs,
        slot.deep_view(),
        peers_json@,
    ));
    r
}

/// Adds a variable with its value.
fn set_var(env: &mut Vec<(String, String)>, name: &str, value: &str)
    ensures
        final(env).deep_view() == old(env).deep_view().push((name@, value@)),
{
    env.push((name.to_owned(), value.to_owned()));
    assert(env.deep_view() =~= old(env).deep_view().push((name@, value@)));
}

/// The plan for a rank that runs on its own.
fn execute_mpi_pure(
    program: &String,
    args: &Vec<String>,
    env: &StringMap,
    timeout_secs: u64,
    slot: &MpiSlot,
    peers_json: &str,
) -> (r: Launch)
    ensures
        r.deep_view() == rank_plan(
            program@,
            args.deep_view(),
            env.listing(),
            timeout_secs,
            slot.deep_view(),
            peers_json@,
        ),
{
    let root: String = if slot.peers.len() > 0 {
        slot.peers[0].host.clone()
    } else {
        "localhost".to_owned()
    };
    let port: String = if (slot.rank as usize) < slot.peers.len() {
        decimal_text(slot.peers[slot.rank as usize].port as u64)
    } else {
        "9900".to_owned()
    };
    assert(root@ == root_host(slot.deep_view().peers));
    assert(port@ == rank_port(slot.deep_view().peers, slot.rank));
    let mut all: Vec<(String, String)> = Vec::new();
    set_var(&mut all, "HC_MPI_RANK", decimal_text(slot.rank as u64).as_str());
    set_var(&mut all, "HC_MPI_SIZE", decimal_text(slot.size as u64).as_str());
    set_var(&mut all, "HC_MPI_JOB_ID", id_text(slot.job_id).as_str());
    set_var(&mut all, "HC_MPI_PEERS", peers_json);
    set_var(&mut all, "HC_MPI_ROOT", root.as_str());
    set_var(&mut all, "HC_MPI_PORT", port.as_str());
    let ghost head = rank_vars(slot.deep_view(), peers_json@);
    assert(all.deep_view() =~= head);
    let ghost vars = env.listing();
    let n: usize = env.len();
    let mut i: usize = 0;
    assert(all.deep_view() =~= head + vars.take(0));
    while i < n
        invariant
            vars == env.listing(),
            n == vars.len(),
            i <= n,
            all.deep_view() == head + vars.take(i as int),
        decreases n - i,
    {
        set_var(&mut all, env.key(i), env.value(i));
        i = i + 1;
        assert(all.deep_view() =~= head + vars.take(i as int));
    }
    assert(vars.take(n as int) =~= vars);
    let no_input: Vec<u8> = Vec::new();
    let r = Launch {
        purpose: Purpose::Rank(slot.rank),
        program: program.clone(),
        args: copy_texts(args),
        env: all,
        input: no_input,
        timeout_secs,
    };
    assert(r.deep_view() =~= rank_plan(
        program@,
        args.deep_view(),
        env.listing(),
        timeout_secs,
        slot.deep_view(),
        peers_json@,
    ));
    r
}

/// Whether a slot is carried out by the launcher.
pub open spec fn is_launched(kind: TaskKind, rank: u32) -> bool {
    kind matches TaskKind::Mpi { use_mpirun, .. } && use_mpirun && rank == 0
}

/// Whether a slot is carried out by the launcher, so that one is to be looked for.
pub fn wants_launcher(task: &Task, slot: &MpiSlot) -> (r: bool)
    ensures
        r == (task.kind matches TaskKind::Mpi { use_mpirun, .. } && use_mpirun && slot.rank == 0),
        r == is_launched(task.kind, slot.rank),
{
    match &task.kind {
        TaskKind::Mpi { use_mpirun, .. } => *use_mpirun && slot.rank == 0,
        _ => false,
    }
}

/// What a rank reports when the launcher of rank 0 carries it out.
pub open spec fn delegated(rank: u32) -> TaskOutputView {
    TaskOutputView {
        exit_code: 0,
        stdout: "rank "@ + decimal(rank as nat) + " delegated to mpirun on rank-0"@,
        stderr: Seq::empty(),
        body: None,
        custom_result: None,
    }
}

/// The plan for one slot of an MPI job.
pub open spec fn slot_plan(
    kind: TaskKind,
    slot: MpiSlotView,
    peers_json: Seq<char>,
    answers: Seq<bool>,
) -> PlanView {
    match kind {
        TaskKind::Mpi { program, args, env, timeout_secs, use_mpirun, .. } => if !use_mpirun {
            PlanView::Run(
                rank_plan(
                    program@,
                    args.deep_view(),
                    env.listing(),
                    timeout_secs,
                    slot,
                    peers_json,
                ),
            )
        } else if slot.rank != 0 {
            PlanView::Done(delegated(slot.rank))
        } else {
            match found_launcher(answers) {
                Some(launcher) => PlanView::Run(
                    launcher_plan(
                        launcher,
                        program@,
                        args.deep_view(),
                        env.listing(),
                        timeout_secs,
                        slot,
                        peers_json,
                    ),
                ),
                None => PlanView::Refused(no_launcher()),
            }
        },
        _ => PlanView::Refused("execute_mpi_slot called on non-MPI task"@),
    }
}

/// The plan for one slot of an MPI job. Without the launcher every rank runs on
/// its own; with it rank 0 starts the launcher, and the other ranks have nothing
/// to do. `peers_json` holds the addresses of the ranks, `answers` tells under
/// which names a launcher was found.
pub fn execute_mpi_slot(
    task: &Task,
    slot: &MpiSlot,
    peers_json: &str,
    answers: &Vec<bool>,
) -> (r: Plan)
    ensures
        r.deep_view() == (match task.kind {
            TaskKind::Mpi { program, args, env, timeout_secs, use_mpirun, .. } => {
                if !use_mpirun {
                    PlanView::Run(
                        rank_plan(
                            program@,
                            args.deep_view(),
                            env.listing(),
                            timeout_secs,
                            slot.deep_view(),
                            peers_json@,
                        ),
                    )
                } else if slot.rank != 0 {
                    PlanView::Done(delegated(slot.rank))
                } else {
                    match found_launcher(answers@) {
                        Some(launcher) => PlanView::Run(
                            launcher_plan(
                                launcher,
                                program@,
                                args.deep_view(),
                                env.listing(),
                                timeout_secs,
                                slot.deep_view(),
                                peers_json@,
                            ),
                        ),
                        None => PlanView::Refused(no_launcher()),
                    }
                }
            },
            _ => PlanView::Refused("execute_mpi_slot called on non-MPI task"@),
        }),
        r.deep_view() == slot_plan(task.kind, slot.deep_view(), peers_json@, answers@),
{
    match &task.kind {
        TaskKind::Mpi { program, args, env, timeout_secs, use_mpirun, .. } => {
            if !*use_mpirun {
                Plan::Run(execute_mpi_pure(program, args, env, *timeout_secs, slot, peers_json))
            } else if slot.rank != 0 {
                let mut stdout = "rank ".to_owned();
                stdout.append(decimal_text(slot.rank as u64).as_str());
                stdout.append(" delegated to mpirun on rank-0");
                Plan::Done(TaskOutput::success(stdout))
            } else {
                match find_mpirun(answers) {
                    Ok(launcher) => Plan::Run(
                        execute_mpirun(
                            launcher,
                            program,
                            args,
                            env,
                            *timeout_secs,
                            slot,
                            peers_json,
                        ),
                    ),
                    Err(reason) => Plan::Refused(reason),
                }
            }
        },
        _ => Plan::Refused("execute_mpi_slot called on non-MPI task".to_owned()),
    }
}

/// How a process has ended.
#[derive(Debug)]
pub enum Ended {
    /// It could not be started.
    NotStarted { reason: String },
    /// It did not take its input.
    InputFailed { reason: String },
    /// It was started, and then lost sight of.
    Lost { reason: String },
    /// It took too long.
    TimedOut,
    /// It has exited, with a code unless a signal ended it.
    Exited { code: Option<i32>, stdout: Vec<u8>, stderr: Vec<u8> },
}

/// Why a task has failed whose process could not be started.
pub open spec fn not_started(launch: LaunchView, reason: Seq<char>) -> Seq<char> {
    match launch.purpose {
        Purpose::Shell => "Failed to spawn '"@ + launch.program + "': "@ + reason,
        Purpose::Launcher => "mpirun failed to spawn: "@ + reason,
        Purpose::Rank(rank) => "Failed to spawn rank "@ + decimal(rank as nat) + ": "@ + reason,
        Purpose::Handler => "Handler '"@ + launch.program + "' not found: "@ + reason,
    }
}

/// Why a task has failed whose process was lost sight of.
pub open spec fn lost(launch: LaunchView, reason: Seq<char>) -> Seq<char> {
    match launch.purpose {
        Purpose::Handler => "Custom handler error: "@ + reason,
        _ => not_started(launch, reason),
    }
}

/// Why a task has failed whose process took too long.
pub open spec fn timed_out(launch: LaunchView) -> Seq<char> {
    let secs = decimal(launch.timeout_secs as nat);
    match launch.purpose {
        Purpose::Shell => "Command timed out after "@ + secs + "s"@,
        Purpose::Launcher => "MPI job timed out after "@ + secs + "s"@,
        Purpose::Rank(rank) => "MPI rank "@ + decimal(rank as nat) + " timed out after "@ + secs
            + "s"@,
        Purpose::Handler => "Custom task timed out"@,
    }
}

/// What a process that has exited leaves behind. A process without an exit code
/// counts as having exited with -1; what the handler of a custom task wrote is
/// also kept as it was.
pub open spec fn exit_output(
    purpose: Purpose,
    code: Option<i32>,
    stdout: Seq<char>,
    stderr: Seq<char>,
    written: Seq<u8>,
) -> TaskOutputView {
    TaskOutputView {
        exit_code: match code {
            Some(c) => c,
            None => -1i32,
        },
        stdout,
        stderr,
        body: None,
        custom_result: if purpose == Purpose::Handler {
            Some(written)
        } else {
            None
        },
    }
}

/// What a process that has exited leaves behind.
pub fn output_of_exit(
    purpose: Purpose,
    code: Option<i32>,
    stdout: String,
    stderr: String,
    written: Vec<u8>,
) -> (r: TaskOutput)
    ensures
        r.deep_view() == exit_output(purpose, code, stdout@, stderr@, written@),
{
    let exit_code: i32 = match code {
        Some(c) => c,
        None => -1,
    };
    let custom_result: Option<Vec<u8>> = match purpose {
        Purpose::Handler => Some(written),
        _ => None,
    };
    assert(written.deep_view() =~= written@);
    TaskOutput { exit_code, stdout, stderr, body: None, custom_result }
}

/// Why a task has failed whose process could not be started.
fn not_started_text(launch: &Launch, reason: &str) -> (r: String)
    ensures
        r@ == not_started(launch.deep_view(), reason@),
{
    let mut r = match launch.purpose {
        Purpose::Shell => {
            let mut r = "Failed to spawn '".to_owned();
            r.append(launch.program.as_str());
            r.append("': ");
            r
        },
        Purpose::Launcher => "mpirun failed to spawn: ".to_owned(),
        Purpose::Rank(rank) => {
            let mut r = "Failed to spawn rank ".to_owned();
            r.append(decimal_text(rank as u64).as_str());
            r.append(": ");
            r
        },
        Purpose::Handler => {
            let mut r = "Handler '".to_owned();
            r.append(launch.program.as_str());
            r.append("' not found: ");
            r
        },
    };
    r.append(reason);
    r
}

/// Why a task has failed whose process took too long.
fn timed_out_text(launch: &Launch) -> (r: String)
    ensures
        r@ == timed_out(launch.deep_view()),
{
    let secs = decimal_text(launch.timeout_secs);
    let mut r = match launch.purpose {
        Purpose::Shell => "Command timed out after ".to_owned(),
        Purpose::Launcher => "MPI job timed out after ".to_owned(),
        Purpose::Rank(rank) => {
            let mut r = "MPI rank ".to_owned();
            r.append(decimal_text(rank as u64).as_str());
            r.append(" timed out after ");
            r
        },
        Purpose::Handler => return "Custom task timed out".to_owned(),
    };
    r.append(secs.as_str());
    r.append("s");
    r
}

/// What has come of a process: its output, or why there is none.
pub open spec fn run_outcome(launch: LaunchView, ended: Ended) -> Result<
    TaskOutputView,
    Seq<char>,
> {
    match ended {
        Ended::NotStarted { reason } => Err(not_started(launch, reason@)),
        Ended::InputFailed { reason } => Err(reason@),
        Ended::Lost { reason } => Err(lost(launch, reason@)),
        Ended::TimedOut => Err(timed_out(launch)),
        Ended::Exited { code, stdout, stderr } => Ok(
            exit_output(
                launch.purpose,
                code,
                lossy_text(stdout@),
                lossy_text(stderr@),
                stdout@,
            ),
        ),
    }
}

/// What has come of a process.
pub fn outcome_of_run(launch: &Launch, ended: Ended) -> (r: Result<TaskOutput, String>)
    ensures
        match ended {
            Ended::NotStarted { reason } => r matches Err(why) && why@ == not_started(
                launch.deep_view(),
                reason@,
            ),
            Ended::InputFailed { reason } => r matches Err(why) && why@ == reason@,
            Ended::Lost { reason } => r matches Err(why) && why@ == lost(
                launch.deep_view(),
                reason@,
            ),
            Ended::TimedOut => r matches Err(why) && why@ == timed_out(launch.deep_view()),
            Ended::Exited { code, stdout, stderr } => r matches Ok(output) && output.deep_view()
                == exit_output(
                launch.purpose,
                code,
                lossy_text(stdout@),
                lossy_text(stderr@),
                stdout@,
            ) && (valid_utf8(stdout@) ==> output.stdout@ == decode_utf8(stdout@)) && (valid_utf8(
                stderr@,
            ) ==> output.stderr@ == decode_utf8(stderr@)),
        },
        result_view(r) == run_outcome(launch.deep_view(), ended),
{
    match ended {
        Ended::NotStarted { reason } => Err(not_started_text(launch, reason.as_str())),
        Ended::InputFailed { reason } => Err(reason),
        Ended::Lost { reason } => match launch.purpose {
            Purpose::Handler => {
                let mut why = "Custom handler error: ".to_owned();
                why.append(reason.as_str());
                Err(why)
            },
            _ => Err(not_started_text(launch, reason.as_str())),
        },
        Ended::TimedOut => Err(timed_out_text(launch)),
        Ended::Exited { code, stdout, stderr } => {
            let out = text_of_bytes(&stdout);
            let err = text_of_bytes(&stderr);
            Ok(output_of_exit(launch.purpose, code, out, err, stdout))
        },
    }
}

/// How an HTTP request has ended.
#[derive(Debug)]
pub enum Fetched {
    /// It could not be prepared.
    NotPrepared { reason: String },
    /// It got no answer.
    NoAnswer { reason: String },
    /// The body of the answer could not be read.
    NoBody { reason: String },
    /// It was answered.
    Answered { status: u16, body: Vec<u8> },
}

/// What an answered HTTP request leaves behind: the status takes the place of
/// the exit code, and the body is kept as text and as it was.
pub open spec fn answer_output(status: u16, text: Seq<char>, body: Seq<u8>) -> TaskOutputView {
    TaskOutputView {
        exit_code: status as i32,
        stdout: text,
        stderr: Seq::empty(),
        body: Some(body),
        custom_result: None,
    }
}

/// What an answered HTTP request leaves behind.
pub fn output_of_answer(status: u16, text: String, body: Vec<u8>) -> (r: TaskOutput)
    ensures
        r.deep_view() == answer_output(status, text@, body@),
{
    assert(body.deep_view() =~= body@);
    TaskOutput {
        exit_code: status as i32,
        stdout: text,
        stderr: String::new(),
        body: Some(body),
        custom_result: None,
    }
}

/// What has come of an HTTP request: its output, or why there is none.
pub open spec fn fetch_outcome(fetched: Fetched) -> Result<TaskOutputView, Seq<char>> {
    match fetched {
        Fetched::NotPrepared { reason } => Err(reason@),
        Fetched::NoAnswer { reason } => Err("HTTP failed: "@ + reason@),
        Fetched::NoBody { reason } => Err("Body read error: "@ + reason@),
        Fetched::Answered { status, body } => Ok(
            answer_output(status, lossy_text(body@), body@),
        ),
    }
}

/// What has come of an HTTP request.
pub fn outcome_of_fetch(fetched: Fetched) -> (r: Result<TaskOutput, String>)
    ensures
        match fetched {
            Fetched::NotPrepared { reason } => r matches Err(why) && why@ == reason@,
            Fetched::NoAnswer { reason } => r matches Err(why) && why@ == "HTTP failed: "@ + reason@,
            Fetched::NoBody { reason } => r matches Err(why) && why@ == "Body read error: "@
                + reason@,
            Fetched::Answered { status, body } => r matches Ok(output) && output.deep_view()
                == answer_output(status, lossy_text(body@), body@) && (valid_utf8(body@)
                ==> output.stdout@ == decode_utf8(body@)),
        },
        result_view(r) == fetch_outcome(fetched),
{
    match fetched {
        Fetched::NotPrepared { reason } => Err(reason),
        Fetched::NoAnswer { reason } => {
            let mut why = "HTTP failed: ".to_owned();
            why.append(reason.as_str());
            Err(why)
        },
        Fetched::NoBody { reason } => {
            let mut why = "Body read error: ".to_owned();
            why.append(reason.as_str());
            Err(why)
        },
        Fetched::Answered { status, body } => {
            let text = text_of_bytes(&body);
            Ok(output_of_answer(status, text, body))
        },
    }
}

/// What a variable is set to: of several settings the last counts.
pub open spec fn setting(env: Seq<(Seq<char>, Seq<char>)>, name: Seq<char>) -> Option<Seq<char>>
    decreases env.len(),
{
    if env.len() == 0 {
        None
    } else if env.last().0 == name {
        Some(env.last().1)
    } else {
        setting(env.drop_last(), name)
    }
}

/// Settings behind others win.
proof fn lemma_later_settings_win(
    first: Seq<(Seq<char>, Seq<char>)>,
    second: Seq<(Seq<char>, Seq<char>)>,
    name: Seq<char>,
)
    ensures
        setting(first + second, name) == (if setting(second, name) is Some {
            setting(second, name)
        } else {
            setting(first, name)
        }),
    decreases second.len(),
{
    if second.len() == 0 {
        assert(first + second =~= first);
    } else {
        assert((first + second).drop_last() =~= first + second.drop_last());
        lemma_later_settings_win(first, second.drop_last(), name);
    }
}

/// A rank that runs on its own finds the variables of its job, except where the
/// task sets a variable of the same name itself.
pub proof fn law_task_variables_win(
    program: Seq<char>,
    args: Seq<Seq<char>>,
    vars: Seq<(Seq<char>, Seq<char>)>,
    timeout_secs: u64,
    slot: MpiSlotView,
    peers_json: Seq<char>,
    name: Seq<char>,
)
    ensures
        setting(rank_plan(program, args, vars, timeout_secs, slot, peers_json).env, name) == (
        if setting(vars, name) is Some {
            setting(vars, name)
        } else {
            setting(rank_vars(slot, peers_json), name)
        }),
{
    lemma_later_settings_win(rank_vars(slot, peers_json), vars, name);
}

} // verus!
