//! The client: what it submits and asks for, and what it shows of the answers.
use crate::api::SubmitTaskRequest;
use crate::ident::{hyphenated, id_text, parse_id, parsed_uuid};
use crate::string_map::StringMap;
use crate::task::{
    copy_optional, copy_texts, no_requirements, Percent, TaskKind, TaskKindView, TaskRequirements,
    TaskRequirementsView,
};
use crate::text::{find_char, first_of, lemma_first_of};
use vstd::prelude::*;

verus! {

/// What is to be submitted, and with which requirements.
#[derive(Debug, PartialEq)]
pub struct SubmitArgs {
    pub kind: SubmitKind,
    pub priority: u8,
    pub min_cpu: Percent,
    pub min_ram: u64,
    pub gpu: bool,
    pub tags: Vec<String>,
    pub region: Option<String>,
    /// Wait for completion and print the result.
    pub wait: bool,
}

/// The kinds of tasks that can be submitted from the command line.
#[derive(Debug, PartialEq)]
pub enum SubmitKind {
    /// Run a shell command on the best available node.
    Shell { command: String, args: Vec<String>, timeout: u64 },
    /// Fetch a URL from a worker node.
    Fetch { url: String, method: String, body: Option<String> },
    /// Run an MPI parallel job across multiple nodes.
    Mpi {
        /// The program to run on every rank.
        program: String,
        /// Arguments forwarded to the program.
        args: Vec<String>,
        /// Number of MPI processes (= nodes recruited).
        np: u32,
        /// Use system mpirun/mpiexec.
        mpirun: bool,
        /// Extra environment variables for all ranks (KEY=VALUE).
        env: Vec<String>,
        /// Wall-clock timeout for the whole job in seconds.
        timeout: u64,
    },
}

/// The first of the pairs that holds no `=`.
pub open spec fn bad_pair(pairs: Seq<Seq<char>>) -> Option<Seq<char>>
    decreases pairs.len(),
{
    if pairs.len() == 0 {
        None
    } else {
        match bad_pair(pairs.drop_last()) {
            Some(pair) => Some(pair),
            None => if first_of(pairs.last(), '=') < pairs.last().len() {
                None
            } else {
                Some(pairs.last())
            },
        }
    }
}

/// What stands before the first `=` of a pair.
pub open spec fn pair_key(pair: Seq<char>) -> Seq<char> {
    pair.take(first_of(pair, '='))
}

/// What stands behind the first `=` of a pair.
pub open spec fn pair_value(pair: Seq<char>) -> Seq<char> {
    pair.skip(first_of(pair, '=') + 1)
}

/// The variables that the pairs set: of two with one name the later counts.
pub open spec fn variables(pairs: Seq<Seq<char>>) -> Map<Seq<char>, Seq<char>>
    decreases pairs.len(),
{
    if pairs.len() == 0 {
        Map::empty()
    } else {
        variables(pairs.drop_last()).insert(pair_key(pairs.last()), pair_value(pairs.last()))
    }
}

/// Why a pair without `=` is refused.
pub open spec fn not_a_pair(pair: Seq<char>) -> Seq<char> {
    "--env must be KEY=VALUE, got: "@ + pair
}

/// Why the submission is refused, if it is.
pub open spec fn refusal(kind: SubmitKind) -> Option<Seq<char>> {
    match kind {
        SubmitKind::Mpi { env, .. } => match bad_pair(env.deep_view()) {
            Some(pair) => Some(not_a_pair(pair)),
            None => None,
        },
        _ => None,
    }
}

/// What is submitted.
pub open spec fn kind_of(kind: SubmitKind) -> TaskKindView {
    match kind {
        SubmitKind::Shell { command, args, timeout } => TaskKindView::Shell {
            command: command@,
            args: args.deep_view(),
            timeout_secs: timeout,
        },
        SubmitKind::Fetch { url, method, body } => TaskKindView::HttpFetch {
            url: url@,
            method: method@,
            body: body.deep_view(),
        },
        SubmitKind::Mpi { program, args, np, mpirun, env, timeout } => TaskKindView::Mpi {
            program: program@,
            args: args.deep_view(),
            np,
            env: variables(env.deep_view()),
            timeout_secs: timeout,
            use_mpirun: mpirun,
        },
    }
}

/// What the kind of a task adds to its requirements: an MPI job needs a slot on each node.
pub open spec fn extra_requirements(kind: SubmitKind) -> TaskRequirementsView {
    TaskRequirementsView {
        mpi_slots_per_node: if kind is Mpi {
            Some(1u32)
        } else {
            None
        },
        ..no_requirements()
    }
}

/// The requirements with which a task is submitted.
pub open spec fn requirements_of(args: SubmitArgs) -> TaskRequirementsView {
    TaskRequirementsView {
        min_cpu_free_pct: args.min_cpu,
        min_ram_free_mb: args.min_ram,
        requires_gpu: args.gpu,
        required_tags: args.tags.deep_view(),
        preferred_region: args.region.deep_view(),
        ..extra_requirements(args.kind)
    }
}

/// The variables that pairs of the form `KEY=VALUE` set, or why one of them is refused.
fn parse_env(pairs: &Vec<String>) -> (r: Result<StringMap, String>)
    ensures
        match r {
            Ok(map) => bad_pair(pairs.deep_view()) is None && map.deep_view() == variables(
                pairs.deep_view(),
            ),
            Err(why) => bad_pair(pairs.deep_view()) matches Some(pair) && why@ == not_a_pair(pair),
        },
{
    let ghost all = pairs.deep_view();
    let mut map = StringMap::new();
    let mut i: usize = 0;
    while i < pairs.len()
        invariant
            i <= pairs.len(),
            all == pairs.deep_view(),
            bad_pair(all.take(i as int)) is None,
            map.deep_view() == variables(all.take(i as int)),
        decreases pairs.len() - i,
    {
        assert(all.take(i + 1).drop_last() =~= all.take(i as int));
        assert(all.take(i + 1).last() == all[i as int]);
        let pair = pairs[i].as_str();
        let n: usize = pair.unicode_len();
        let at: usize = find_char(pair, '=');
        proof {
            lemma_first_of(pair@, '=');
        }
        if at >= n {
            proof {
                lemma_bad_pair_first(all, i + 1);
            }
            let mut why = "--env must be KEY=VALUE, got: ".to_owned();
            why.append(pair);
            return Err(why);
        }
        let key = pair.substring_char(0, at).to_owned();
        let value = pair.substring_char(at + 1, n).to_owned();
        assert(key@ =~= pair_key(pair@));
        assert(value@ =~= pair_value(pair@));
        map.insert(key, value);
        i = i + 1;
    }
    assert(all.take(all.len() as int) =~= all);
    Ok(map)
}

/// Pairs behind one that is refused do not matter.
proof fn lemma_bad_pair_first(pairs: Seq<Seq<char>>, n: int)
    requires
        0 <= n <= pairs.len(),
        bad_pair(pairs.take(n)) is Some,
    ensures
        bad_pair(pairs) == bad_pair(pairs.take(n)),
    decreases pairs.len(),
{
    if n == pairs.len() {
        assert(pairs.take(n) =~= pairs);
    } else {
        assert(pairs.drop_last().take(n) =~= pairs.take(n));
        lemma_bad_pair_first(pairs.drop_last(), n);
    }
}

/// What is submitted, and what its kind adds to the requirements.
pub fn build_task_kind(args: &SubmitArgs) -> (r: Result<(TaskKind, TaskRequirements), String>)
    ensures
        match r {
            Ok((kind, extra)) => refusal(args.kind) is None && kind.deep_view() == kind_of(
                args.kind,
            ) && extra.deep_view() == extra_requirements(args.kind),
            Err(why) => refusal(args.kind) == Some(why@),
        },
{
    let mut extra = TaskRequirements::default();
    let kind = match &args.kind {
        SubmitKind::Shell { command, args: words, timeout } => TaskKind::Shell {
            command: command.clone(),
            args: copy_texts(words),
            timeout_secs: *timeout,
        },
        SubmitKind::Fetch { url, method, body } => TaskKind::HttpFetch {
            url: url.clone(),
            method: method.clone(),
            body: copy_optional(body),
        },
        SubmitKind::Mpi { program, args: words, np, mpirun, env, timeout } => {
            let map = match parse_env(env) {
                Ok(map) => map,
                Err(why) => return Err(why),
            };
            extra.mpi_slots_per_node = Some(1);
            TaskKind::Mpi {
                program: program.clone(),
                args: copy_texts(words),
                np: *np,
                env: map,
                timeout_secs: *timeout,
                use_mpirun: *mpirun,
            }
        },
    };
    Ok((kind, extra))
}

/// The request by which a task is submitted, or why it cannot be.
pub fn submit_request(args: &SubmitArgs) -> (r: Result<SubmitTaskRequest, String>)
    ensures
        match r {
            Ok(request) => {
                &&& refusal(args.kind) is None
                &&& request.kind.deep_view() == kind_of(args.kind)
                &&& request.requirements.deep_view() == (TaskRequirementsView {
                    min_cpu_free_pct: args.min_cpu,
                    min_ram_free_mb: args.min_ram,
                    requires_gpu: args.gpu,
                    required_tags: args.tags.deep_view(),
                    preferred_region: args.region.deep_view(),
                    ..extra_requirements(args.kind)
                })
                &&& request.requirements.deep_view() == requirements_of(*args)
                &&& request.priority == args.priority
                &&& request.meta.deep_view() == Map::<Seq<char>, Seq<char>>::empty()
            },
            Err(why) => refusal(args.kind) == Some(why@),
        },
{
    let (kind, extra) = match build_task_kind(args) {
        Ok(built) => built,
        Err(why) => return Err(why),
    };
    let requirements = TaskRequirements {
        min_cpu_free_pct: args.min_cpu,
        min_ram_free_mb: args.min_ram,
        requires_gpu: args.gpu,
        required_tags: copy_texts(&args.tags),
        preferred_region: copy_optional(&args.region),
        mpi_slots_per_node: extra.mpi_slots_per_node,
    };
    Ok(SubmitTaskRequest { kind, requirements, priority: args.priority, meta: StringMap::new() })
}

/// Whether a text that was read as an identifier, or as none, is dealt with rightly.
pub open spec fn is_id_or_refused(parsed: Option<u128>, r: Result<u128, String>) -> bool {
    match parsed {
        Some(id) => r == Ok::<u128, String>(id),
        None => r matches Err(why) && why@ == "Invalid task UUID"@,
    }
}

/// The identifier that was read out of a text, or why there is none.
pub fn task_id_of(parsed: Option<u128>) -> (r: Result<u128, String>)
    ensures
        match parsed {
            Some(id) => r == Ok::<u128, String>(id),
            None => r matches Err(why) && why@ == "Invalid task UUID"@,
        },
        is_id_or_refused(parsed, r),
{
    match parsed {
        Some(id) => Ok(id),
        None => Err("Invalid task UUID".to_owned()),
    }
}

/// The identifier that a text names, or why it names none.
pub fn parse_task_id(text: &str) -> (r: Result<u128, String>)
    ensures
        match parsed_uuid(text@) {
            Some(id) => r == Ok::<u128, String>(id),
            None => r matches Err(why) && why@ == "Invalid task UUID"@,
        },
        forall|known: u128|
            text@ == #[trigger] hyphenated(known) ==> r == Ok::<u128, String>(known),
        is_id_or_refused(parsed_uuid(text@), r),
{
    task_id_of(parse_id(text))
}

/// What is asked for at a server.
pub enum Asked {
    Tasks,
    Task { id: u128 },
    Nodes,
    Status,
}

/// The address under which it is asked for.
pub open spec fn address_of(server: Seq<char>, asked: Asked) -> Seq<char> {
    match asked {
        Asked::Tasks => server + "/api/v1/tasks"@,
        Asked::Task { id } => server + "/api/v1/tasks/"@ + hyphenated(id),
        Asked::Nodes => server + "/api/v1/nodes"@,
        Asked::Status => server + "/api/v1/status"@,
    }
}

/// An address below that of the server.
fn endpoint(server: &str, path: &str) -> (r: String)
    ensures
        r@ == server@ + path@,
{
    let mut r = server.to_owned();
    r.append(path);
    r
}

/// The address under which tasks are submitted.
pub fn tasks_url(server: &str) -> (r: String)
    ensures
        r@ == server@ + "/api/v1/tasks"@,
        r@ == address_of(server@, Asked::Tasks),
{
    endpoint(server, "/api/v1/tasks")
}

/// The address under which a task is asked for.
pub fn task_url(server: &str, id: u128) -> (r: String)
    ensures
        r@ == server@ + "/api/v1/tasks/"@ + hyphenated(id),
        r@ == address_of(server@, Asked::Task { id }),
{
    let mut r = endpoint(server, "/api/v1/tasks/");
    r.append(id_text(id).as_str());
    r
}

/// The address under which the nodes are asked for.
pub fn nodes_url(server: &str) -> (r: String)
    ensures
        r@ == server@ + "/api/v1/nodes"@,
        r@ == address_of(server@, Asked::Nodes),
{
    endpoint(server, "/api/v1/nodes")
}

/// The address under which the server is asked how it is doing.
pub fn status_url(server: &str) -> (r: String)
    ensures
        r@ == server@ + "/api/v1/status"@,
        r@ == address_of(server@, Asked::Status),
{
    endpoint(server, "/api/v1/status")
}

} // verus!
