//! The rounds in which waiting tasks are handed to nodes.
//!
//! A round goes through the queue from its front to its end. It asks its
//! surroundings, step by step, for what it cannot do itself: to weigh the nodes
//! for a task, and to encode a message.
use crate::choice::{
    best, has_slots, law_best_is_highest, law_chosen_beats_all_eligible, law_recruits_suit_the_job,
    law_recruits_the_best, law_scored_are_eligible, lemma_best_first_len, recruit_mpi_nodes,
    recruited, score_nodes_for_task, scored, scored_for_job, suits, weighed_ids,
};
use crate::clock::Moment;
use crate::cluster::ClusterView;
use crate::job::MpiJobView;
use crate::message::{ServerMessage, ServerMessageView};
use crate::node::{NodeInfoView, NodeStatus, Weight};
use crate::state::AppState;
use crate::task::{
    MpiPeer, MpiPeerView, MpiSlot, MpiSlotView, TaskKind, TaskKindView, TaskStatus, TaskStatusView,
};
use vstd::prelude::*;

verus! {

/// The port of rank 0 of an MPI job. The other ranks have the ports behind it,
/// whatever base port their nodes were started with.
pub const BASE_PORT: u16 = 9900;

/// How many ranks there are ports for.
pub const MAX_RANKS: usize = 55_636;

/// A message that goes to several nodes.
#[derive(Debug)]
pub struct Broadcast {
    pub targets: Vec<u128>,
    pub message: ServerMessage,
}

impl Broadcast {
    /// The message goes to each of these nodes once, in any order.
    pub open spec fn reaches(self, nodes: Set<u128>) -> bool {
        self.targets@.no_duplicates() && self.targets@.to_set() == nodes
    }
}

/// What tells the nodes to give up a job: it goes to every known node.
pub fn abort_mpi_job(state: &AppState, job_id: u128, reason: &str) -> (r: Broadcast)
    requires
        state.wf(),
    ensures
        r.reaches(state@.nodes.dom()),
        r.message.deep_view() == (ServerMessageView::AbortMpiJob { job_id, reason: reason@ }),
{
    Broadcast {
        targets: state.node_ids(),
        message: ServerMessage::AbortMpiJob { job_id, reason: reason.to_owned() },
    }
}

/// The address under which the other ranks reach a rank.
pub open spec fn peer(nodes: Map<u128, NodeInfoView>, node_id: u128, rank: int) -> MpiPeerView {
    MpiPeerView {
        host: if nodes.contains_key(node_id) {
            nodes[node_id].capabilities.mpi_host
        } else {
            "localhost"@
        },
        port: (BASE_PORT + rank) as u16,
        node_id,
    }
}

/// The addresses of all ranks of a job, by rank.
pub open spec fn peers(nodes: Map<u128, NodeInfoView>, chosen: Seq<u128>) -> Seq<MpiPeerView> {
    Seq::new(chosen.len(), |rank: int| peer(nodes, chosen[rank], rank))
}

/// What the node with this rank is told of its part in the job.
pub open spec fn slot(
    nodes: Map<u128, NodeInfoView>,
    chosen: Seq<u128>,
    rank: int,
    job_id: u128,
) -> MpiSlotView {
    MpiSlotView {
        rank: rank as u32,
        size: chosen.len() as u32,
        peers: peers(nodes, chosen),
        job_id,
    }
}

/// What became of a message.
#[derive(Clone, Copy, Debug, PartialEq, Eq, Structural)]
pub enum Sent {
    /// The channel of the node has taken it.
    Delivered,
    /// The node has no channel, or one that nobody listens to.
    ChannelDead,
    /// The message could not be encoded.
    NotEncoded,
}

/// What became of a message, by what the channel of the node said.
pub open spec fn sent_for(answer: Option<Result<(), String>>) -> Sent {
    match answer {
        Some(Ok(_)) => Sent::Delivered,
        _ => Sent::ChannelDead,
    }
}

/// What became of a message, by what the channel of the node said: `None` where
/// the node has no channel, and the message itself where nobody listens.
pub fn outcome_of(answer: &Option<Result<(), String>>) -> (outcome: Sent)
    ensures
        outcome == (match *answer {
            Some(Ok(_)) => Sent::Delivered,
            _ => Sent::ChannelDead,
        }),
        outcome == sent_for(*answer),
{
    match answer {
        Some(Ok(_)) => Sent::Delivered,
        _ => Sent::ChannelDead,
    }
}

/// How far a round has come with the task at its cursor.
#[verifier::ext_equal]
pub enum PhaseView {
    /// The nodes are to be weighed for the task.
    Weighing,
    /// The task is to be sent to this node.
    Single { node_id: u128 },
    /// The ranks of the task are to be sent to these nodes, up to `rank` they
    /// have been; `all_ok` tells whether all of those were delivered.
    Ranks { chosen: Seq<u128>, rank: nat, all_ok: bool },
    /// Not every rank was delivered: the job is to be given up.
    Aborting,
}

/// A round through the queue.
#[verifier::ext_equal]
pub struct PassView {
    /// The place in the queue of the task that is being worked on.
    pub cursor: nat,
    pub phase: PhaseView,
}

impl ClusterView {
    /// The waiting task at `at` has gone to a node, at the time `now`.
    pub open spec fn dispatch_single(self, at: int, node_id: u128, now: Moment) -> ClusterView {
        let task = self.pending[at];
        ClusterView {
            pending: self.pending.remove(at),
            running: self.running.insert(
                task.id,
                task.with_status(TaskStatusView::Dispatched { node_id }),
            ),
            since: self.since.insert(task.id, now.time),
            ..self
        }
    }

    /// The ranks of the waiting task at `at` have gone to the nodes of a list, at
    /// the time `now`. The job is kept under the identifier of the task.
    pub open spec fn dispatch_job(
        self,
        at: int,
        chosen: Seq<u128>,
        now: Moment,
    ) -> ClusterView {
        let task = self.pending[at];
        ClusterView {
            pending: self.pending.remove(at),
            running: self.running.insert(
                task.id,
                task.with_status(
                    TaskStatusView::MpiDispatched { job_id: task.id, node_ids: chosen },
                ),
            ),
            since: self.since.insert(task.id, now.time),
            jobs: self.jobs.insert(
                task.id,
                MpiJobView::fresh(task.id, chosen.len() as u32, now.instant),
            ),
            ..self
        }
    }

    /// What the outcome of a message tells of the node that it went to: it has
    /// one more active task, or it is offline.
    pub open spec fn after_send(self, node_id: u128, sent: Sent) -> ClusterView {
        match sent {
            Sent::Delivered => self.add_active(node_id),
            Sent::ChannelDead => self.set_status(node_id, NodeStatus::Offline),
            Sent::NotEncoded => self,
        }
    }
}

/// The identifiers of the entries of a list.
pub open spec fn ids_of(list: Seq<(u128, i64)>) -> Seq<u128> {
    list.map_values(|entry: (u128, i64)| entry.0)
}

impl PassView {
    /// What always holds of a round: it works on a task of the queue, sends
    /// ranks only of MPI tasks, and only as many as there are ports for.
    pub open spec fn wf(self, state: ClusterView) -> bool {
        match self.phase {
            PhaseView::Weighing => self.cursor <= state.pending.len(),
            PhaseView::Single { .. } => self.cursor < state.pending.len() && !(
            state.pending[self.cursor as int].kind is Mpi),
            PhaseView::Ranks { chosen, rank, .. } => self.cursor < state.pending.len()
                && state.pending[self.cursor as int].kind is Mpi && rank < chosen.len()
                && chosen.len() <= MAX_RANKS,
            PhaseView::Aborting => self.cursor < state.pending.len(),
        }
    }

    /// The round with the task at the cursor left where it is.
    pub open spec fn skip_task(self) -> PassView {
        PassView { cursor: self.cursor + 1, phase: PhaseView::Weighing }
    }

    /// The round after the task at the cursor has left the queue: the cursor
    /// now stands at the task behind it.
    pub open spec fn task_gone(self) -> PassView {
        PassView { cursor: self.cursor, phase: PhaseView::Weighing }
    }

    /// Whether there are ports for the ranks that would be recruited.
    pub open spec fn ports_suffice(
        self,
        state: ClusterView,
        weighed: Seq<(u128, Weight)>,
    ) -> bool {
        let task = state.pending[self.cursor as int];
        match task.kind {
            TaskKindView::Mpi { np, .. } => recruited(
                scored_for_job(state.nodes, task.requirements, weighed),
                np,
            ) is Some ==> np <= MAX_RANKS,
            _ => true,
        }
    }

    /// State and round after the nodes have been weighed for the task at the
    /// cursor. Where too few are eligible the task stays in the queue.
    pub open spec fn after_weighing(
        self,
        state: ClusterView,
        weighed: Seq<(u128, Weight)>,
        now: Moment,
    ) -> (ClusterView, PassView) {
        let task = state.pending[self.cursor as int];
        match task.kind {
            TaskKindView::Mpi { np, .. } => match recruited(
                scored_for_job(state.nodes, task.requirements, weighed),
                np,
            ) {
                Some(found) => if found.len() == 0 {
                    (state.dispatch_job(self.cursor as int, Seq::empty(), now), self.task_gone())
                } else {
                    (
                        state,
                        PassView {
                            phase: PhaseView::Ranks {
                                chosen: ids_of(found),
                                rank: 0,
                                all_ok: true,
                            },
                            ..self
                        },
                    )
                },
                None => (state, self.skip_task()),
            },
            _ => match best(scored(state.nodes, task.requirements, weighed)) {
                Some(found) => (
                    state,
                    PassView { phase: PhaseView::Single { node_id: found.0 }, ..self },
                ),
                None => (state, self.skip_task()),
            },
        }
    }

    /// The node that the next message goes to.
    pub open spec fn target(self) -> u128 {
        match self.phase {
            PhaseView::Single { node_id } => node_id,
            PhaseView::Ranks { chosen, rank, .. } => chosen[rank as int],
            _ => 0,
        }
    }

    /// The next message.
    pub open spec fn message(self, state: ClusterView) -> ServerMessageView {
        let task = state.pending[self.cursor as int];
        match self.phase {
            PhaseView::Ranks { chosen, rank, .. } => ServerMessageView::DispatchMpiSlot {
                task,
                slot: slot(state.nodes, chosen, rank as int, task.id),
            },
            _ => ServerMessageView::DispatchTask { task },
        }
    }

    /// What tells the nodes that the job at the cursor is given up.
    pub open spec fn abort_message(self, state: ClusterView) -> ServerMessageView {
        ServerMessageView::AbortMpiJob {
            job_id: state.pending[self.cursor as int].id,
            reason: "one or more ranks failed to dispatch"@,
        }
    }

    /// Whether the next message can be sent: where the node that it goes to has
    /// a channel, one more active task can be counted on it.
    pub open spec fn can_send(self, state: ClusterView) -> bool {
        state.channels.contains_key(self.target()) ==> state.can_add_active(self.target())
    }

    /// Whether a message is to be sent.
    pub open spec fn sending(self) -> bool {
        self.phase is Single || self.phase is Ranks
    }

    /// State and round after a message has had its outcome. A task or a job is
    /// under way only when everything was delivered; where some rank was not,
    /// the job is to be given up.
    pub open spec fn after_sending(
        self,
        state: ClusterView,
        sent: Sent,
        now: Moment,
    ) -> (ClusterView, PassView) {
        let told = state.after_send(self.target(), sent);
        match self.phase {
            PhaseView::Ranks { chosen, rank, all_ok } => {
                let ok = all_ok && sent == Sent::Delivered;
                if rank + 1 < chosen.len() {
                    (
                        told,
                        PassView {
                            phase: PhaseView::Ranks { chosen, rank: rank + 1, all_ok: ok },
                            ..self
                        },
                    )
                } else if ok {
                    (told.dispatch_job(self.cursor as int, chosen, now), self.task_gone())
                } else {
                    (told, PassView { phase: PhaseView::Aborting, ..self })
                }
            },
            _ => if sent == Sent::Delivered {
                (told.dispatch_single(self.cursor as int, self.target(), now), self.task_gone())
            } else {
                (told, self.skip_task())
            },
        }
    }
}

/// What a round asks for next.
#[derive(Debug)]
pub enum Step {
    /// Weigh every known node for the waiting task at this place.
    Weigh { position: usize },
    /// Encode this message for the node that it goes to.
    Encode { message: ServerMessage },
    /// Encode this message and send it to many nodes.
    Abort { broadcast: Broadcast },
    /// The round is over.
    Finished,
}

enum Phase {
    Weighing,
    Single { node_id: u128 },
    Ranks { chosen: Vec<u128>, rank: usize, all_ok: bool },
    Aborting,
}

/// A round through the queue.
pub struct DispatchPass {
    cursor: usize,
    phase: Phase,
}

impl View for DispatchPass {
    type V = PassView;

    closed spec fn view(&self) -> PassView {
        PassView {
            cursor: self.cursor as nat,
            phase: match self.phase {
                Phase::Weighing => PhaseView::Weighing,
                Phase::Single { node_id } => PhaseView::Single { node_id },
                Phase::Ranks { chosen, rank, all_ok } => PhaseView::Ranks {
                    chosen: chosen@,
                    rank: rank as nat,
                    all_ok,
                },
                Phase::Aborting => PhaseView::Aborting,
            },
        }
    }
}

/// The addresses of all ranks of a job, by rank.
fn peer_list(state: &AppState, chosen: &Vec<u128>) -> (r: Vec<MpiPeer>)
    requires
        state.wf(),
        chosen@.len() <= MAX_RANKS,
    ensures
        r.deep_view() == peers(state@.nodes, chosen@),
{
    let mut r: Vec<MpiPeer> = Vec::new();
    let mut rank: usize = 0;
    while rank < chosen.len()
        invariant
            state.wf(),
            chosen@.len() <= MAX_RANKS,
            rank <= chosen.len(),
            r.len() == rank,
            forall|i: int|
                0 <= i < rank ==> #[trigger] r.deep_view()[i] == peer(
                    state@.nodes,
                    chosen@[i],
                    i,
                ),
        decreases chosen.len() - rank,
    {
        let ghost before = r.deep_view();
        let host = match state.node(chosen[rank]) {
            Some(node) => node.capabilities.mpi_host.clone(),
            None => "localhost".to_owned(),
        };
        let entry = MpiPeer { host, port: BASE_PORT + rank as u16, node_id: chosen[rank] };
        r.push(entry);
        assert(r.deep_view() =~= before.push(entry.deep_view()));
        rank = rank + 1;
    }
    assert(r.deep_view() =~= peers(state@.nodes, chosen@));
    r
}

/// The identifiers of the entries of a list.
fn node_list(list: &Vec<(u128, i64)>) -> (r: Vec<u128>)
    ensures
        r@ == ids_of(list@),
{
    let mut r: Vec<u128> = Vec::new();
    let mut i: usize = 0;
    while i < list.len()
        invariant
            i <= list.len(),
            r@ == ids_of(list@).take(i as int),
        decreases list.len() - i,
    {
        r.push(list[i].0);
        i = i + 1;
        assert(r@ =~= ids_of(list@).take(i as int));
    }
    assert(r@ =~= ids_of(list@));
    r
}

impl DispatchPass {
    /// A round that has not begun.
    pub fn new() -> (r: DispatchPass)
        ensures
            r@ == (PassView { cursor: 0, phase: PhaseView::Weighing }),
    {
        DispatchPass { cursor: 0, phase: Phase::Weighing }
    }

    /// What the round asks for next.
    pub fn next(&self, state: &AppState) -> (step: Step)
        requires
            state.wf(),
            self@.wf(state@),
        ensures
            match step {
                Step::Weigh { position } => self@.phase is Weighing && position == self@.cursor
                    && position < state@.pending.len(),
                Step::Encode { message } => self@.sending() && message.deep_view()
                    == self@.message(state@),
                Step::Abort { broadcast } => {
                    &&& self@.phase is Aborting
                    &&& broadcast.reaches(state@.nodes.dom())
                    &&& broadcast.message.deep_view() == (ServerMessageView::AbortMpiJob {
                        job_id: state@.pending[self@.cursor as int].id,
                        reason: "one or more ranks failed to dispatch"@,
                    })
                    &&& broadcast.message.deep_view() == self@.abort_message(state@)
                },
                Step::Finished => self@.phase is Weighing && self@.cursor == state@.pending.len(),
            },
    {
        match &self.phase {
            Phase::Weighing => if self.cursor < state.pending_len() {
                Step::Weigh { position: self.cursor }
            } else {
                Step::Finished
            },
            Phase::Single { .. } => Step::Encode {
                message: ServerMessage::DispatchTask {
                    task: state.pending_task(self.cursor).clone(),
                },
            },
            Phase::Ranks { chosen, rank, .. } => {
                let task = state.pending_task(self.cursor).clone();
                let slot = MpiSlot {
                    rank: *rank as u32,
                    size: chosen.len() as u32,
                    peers: peer_list(state, chosen),
                    job_id: task.id,
                };
                Step::Encode { message: ServerMessage::DispatchMpiSlot { task, slot } }
            },
            Phase::Aborting => {
                let job_id: u128 = state.pending_task(self.cursor).id;
                Step::Abort {
                    broadcast: abort_mpi_job(
                        state,
                        job_id,
                        "one or more ranks failed to dispatch",
                    ),
                }
            },
        }
    }

    /// Whether there are ports for the ranks that would be recruited.
    pub fn has_ports(&self, state: &AppState, weighed: &Vec<(u128, Weight)>) -> (r: bool)
        requires
            state.wf(),
            self@.wf(state@),
            self@.cursor < state@.pending.len(),
        ensures
            r == self@.ports_suffice(state@, weighed@),
    {
        let task = state.pending_task(self.cursor);
        match &task.kind {
            TaskKind::Mpi { np, .. } => *np as usize <= MAX_RANKS || recruit_mpi_nodes(
                state,
                &task.requirements,
                *np,
                weighed,
            ).is_none(),
            _ => true,
        }
    }

    /// Goes on after the nodes have been weighed for the task at the cursor. `now`
    /// is a reading of the clocks.
    pub fn weighed(&mut self, state: &mut AppState, weighed: &Vec<(u128, Weight)>, now: Moment)
        requires
            old(state).wf(),
            old(self)@.wf(old(state)@),
            old(self)@.phase is Weighing,
            old(self)@.cursor < old(state)@.pending.len(),
            old(self)@.ports_suffice(old(state)@, weighed@),
        ensures
            final(state).wf(),
            final(self)@.wf(final(state)@),
            (final(state)@, final(self)@) == old(self)@.after_weighing(
                old(state)@,
                weighed@,
                now,
            ),
    {
        let task = state.pending_task(self.cursor);
        proof {
            state.lemma_wf();
            lemma_best_first_len(
                scored_for_job(state@.nodes, task.deep_view().requirements, weighed@),
            );
        }
        match &task.kind {
            TaskKind::Mpi { np, .. } => match recruit_mpi_nodes(
                state,
                &task.requirements,
                *np,
                weighed,
            ) {
                Some(found) => {
                    let chosen = node_list(&found);
                    if chosen.len() == 0 {
                        assert(chosen@ =~= Seq::<u128>::empty());
                        dispatch_mpi_job(state, self.cursor, chosen, now);
                        self.phase = Phase::Weighing;
                    } else {
                        self.phase = Phase::Ranks { chosen, rank: 0, all_ok: true };
                    }
                },
                None => {
                    self.cursor = self.cursor + 1;
                },
            },
            _ => match score_nodes_for_task(state, &task.requirements, weighed) {
                Some((node_id, _)) => {
                    self.phase = Phase::Single { node_id };
                },
                None => {
                    self.cursor = self.cursor + 1;
                },
            },
        }
    }

    /// The node that the next message goes to.
    fn next_target(&self) -> (node_id: u128)
        requires
            self@.sending(),
            self@.phase matches PhaseView::Ranks { chosen, rank, .. } ==> rank < chosen.len(),
        ensures
            node_id == self@.target(),
    {
        match &self.phase {
            Phase::Ranks { chosen, rank, .. } => chosen[*rank],
            Phase::Single { node_id } => *node_id,
            _ => 0,
        }
    }

    /// Whether the next message can be sent: where the node that it goes to has
    /// a channel, one more active task can be counted on it.
    pub fn can_send(&self, state: &AppState) -> (r: bool)
        requires
            state.wf(),
            self@.wf(state@),
            self@.sending(),
        ensures
            r == self@.can_send(state@),
    {
        let node_id: u128 = self.next_target();
        !state.has_channel(node_id) || state.can_add_active(node_id)
    }

    /// Goes on after the message has had its outcome. `now` is a reading of the clocks.
    pub fn sent(&mut self, state: &mut AppState, outcome: Sent, now: Moment)
        requires
            old(state).wf(),
            old(self)@.wf(old(state)@),
            old(self)@.sending(),
            outcome == Sent::Delivered ==> old(state)@.can_add_active(old(self)@.target()),
        ensures
            final(state).wf(),
            final(self)@.wf(final(state)@),
            (final(state)@, final(self)@) == old(self)@.after_sending(
                old(state)@,
                outcome,
                now,
            ),
    {
        let node_id: u128 = self.next_target();
        match outcome {
            Sent::Delivered => state.add_active(node_id),
            Sent::ChannelDead => state.set_status(node_id, NodeStatus::Offline),
            Sent::NotEncoded => {},
        }
        proof {
            state.lemma_wf();
        }
        let delivered: bool = outcome == Sent::Delivered;
        let mut phase = Phase::Weighing;
        std::mem::swap(&mut phase, &mut self.phase);
        match phase {
            Phase::Ranks { chosen, rank, all_ok } => {
                let ok: bool = all_ok && delivered;
                if rank + 1 < chosen.len() {
                    self.phase = Phase::Ranks { chosen, rank: rank + 1, all_ok: ok };
                } else if ok {
                    dispatch_mpi_job(state, self.cursor, chosen, now);
                } else {
                    self.phase = Phase::Aborting;
                }
            },
            _ => if delivered {
                let mut task = state.take_pending(self.cursor);
                task.status = TaskStatus::Dispatched { node_id };
                state.put_running(task, now.time);
            } else {
                self.cursor = self.cursor + 1;
            },
        }
    }

    /// Goes on after the message has been encoded, or could not be: what was
    /// encoded is handed to the channel of the node. `now` is a reading of the clocks.
    pub fn encoded(&mut self, state: &mut AppState, text: Option<&str>, now: Moment) -> (outcome:
        Sent)
        requires
            old(state).wf(),
            old(self)@.wf(old(state)@),
            old(self)@.sending(),
            text is Some ==> old(self)@.can_send(old(state)@),
        ensures
            final(state).wf(),
            final(self)@.wf(final(state)@),
            (outcome == Sent::NotEncoded) == (text is None),
            outcome == Sent::Delivered ==> old(state)@.channels.contains_key(
                old(self)@.target(),
            ),
            (final(state)@, final(self)@) == old(self)@.after_sending(
                old(state)@,
                outcome,
                now,
            ),
    {
        let node_id: u128 = self.next_target();
        let outcome = match text {
            Some(json) => outcome_of(&state.hand_over(node_id, json)),
            None => Sent::NotEncoded,
        };
        self.sent(state, outcome, now);
        outcome
    }

    /// Goes on after the job has been given up: its task stays in the queue.
    pub fn aborted(&mut self, state: &AppState)
        requires
            state.wf(),
            old(self)@.wf(state@),
            old(self)@.phase is Aborting,
        ensures
            final(self)@.wf(state@),
            final(self)@ == old(self)@.skip_task(),
    {
        proof {
            state.lemma_wf();
        }
        self.phase = Phase::Weighing;
        self.cursor = self.cursor + 1;
    }
}

/// Notes that the ranks of the waiting task at `at` have gone to the nodes of a list.
fn dispatch_mpi_job(state: &mut AppState, at: usize, chosen: Vec<u128>, now: Moment)
    requires
        old(state).wf(),
        at < old(state)@.pending.len(),
        chosen@.len() <= MAX_RANKS,
    ensures
        final(state).wf(),
        final(state)@ == old(state)@.dispatch_job(at as int, chosen@, now),
{
    let size: u32 = chosen.len() as u32;
    let mut task = state.take_pending(at);
    let job_id: u128 = task.id;
    task.status = TaskStatus::MpiDispatched { job_id, node_ids: chosen };
    state.put_running(task, now.time);
    state.start_job(job_id, size, now.instant);
}

/// Every rank of a job is told the same: the same job, the same number of
/// ranks, and the same addresses. The address at place `rank` is that of the
/// node with this rank, at the port that lies `rank` behind the base port.
pub proof fn law_ranks_agree(
    nodes: Map<u128, NodeInfoView>,
    chosen: Seq<u128>,
    job_id: u128,
    rank: int,
    other: int,
)
    requires
        chosen.len() <= MAX_RANKS,
        0 <= rank < chosen.len(),
        0 <= other < chosen.len(),
    ensures
        ({
            let mine = slot(nodes, chosen, rank, job_id);
            let theirs = slot(nodes, chosen, other, job_id);
            &&& mine.rank == rank
            &&& mine.size == chosen.len()
            &&& mine.peers.len() == mine.size
            &&& mine.peers[rank].node_id == chosen[rank]
            &&& mine.peers[rank].port == BASE_PORT + rank
            &&& mine.peers == theirs.peers
            &&& mine.job_id == theirs.job_id
            &&& mine.size == theirs.size
            &&& rank != other ==> mine.peers[rank].port != mine.peers[other].port
        }),
{
}

/// State and round after several messages have had their outcomes.
pub open spec fn after_outcomes(
    pass: PassView,
    state: ClusterView,
    outcomes: Seq<Sent>,
    now: Moment,
) -> (ClusterView, PassView)
    decreases outcomes.len(),
{
    if outcomes.len() == 0 {
        (state, pass)
    } else {
        let (s, p) = after_outcomes(pass, state, outcomes.drop_last(), now);
        p.after_sending(s, outcomes.last(), now)
    }
}

/// While the ranks of a job are sent, nothing changes but what is known of the
/// nodes, and the round remembers whether everything was delivered.
proof fn lemma_ranks_so_far(
    pass: PassView,
    state: ClusterView,
    chosen: Seq<u128>,
    outcomes: Seq<Sent>,
    now: Moment,
)
    requires
        pass.phase == (PhaseView::Ranks { chosen, rank: 0, all_ok: true }),
        outcomes.len() < chosen.len(),
    ensures
        ({
            let (s, p) = after_outcomes(pass, state, outcomes, now);
            &&& s == (ClusterView { nodes: s.nodes, ..state })
            &&& p.cursor == pass.cursor
            &&& p.phase == (PhaseView::Ranks {
                chosen,
                rank: outcomes.len(),
                all_ok: forall|i: int|
                    0 <= i < outcomes.len() ==> #[trigger] outcomes[i] == Sent::Delivered,
            })
        }),
    decreases outcomes.len(),
{
    if outcomes.len() > 0 {
        let front = outcomes.drop_last();
        lemma_ranks_so_far(pass, state, chosen, front, now);
        let now_ok = forall|i: int|
            0 <= i < outcomes.len() ==> #[trigger] outcomes[i] == Sent::Delivered;
        let then_ok = forall|i: int|
            0 <= i < front.len() ==> #[trigger] front[i] == Sent::Delivered;
        assert(now_ok == (then_ok && outcomes.last() == Sent::Delivered)) by {
            if now_ok {
                assert forall|i: int| 0 <= i < front.len() implies #[trigger] front[i]
                    == Sent::Delivered by {
                    assert(outcomes[i] == Sent::Delivered);
                }
                assert(outcomes[outcomes.len() - 1] == Sent::Delivered);
            }
            if then_ok && outcomes.last() == Sent::Delivered {
                assert forall|i: int| 0 <= i < outcomes.len() implies #[trigger] outcomes[i]
                    == Sent::Delivered by {
                    if i < front.len() {
                        assert(front[i] == Sent::Delivered);
                    }
                }
            }
        }
    }
}

/// A job starts on all of its nodes or on none: once every rank has had its
/// outcome, the task runs and the job awaits its ranks if all were delivered;
/// otherwise the task waits on as before, and the job is to be given up.
pub proof fn law_job_starts_whole_or_not(
    pass: PassView,
    state: ClusterView,
    chosen: Seq<u128>,
    outcomes: Seq<Sent>,
    now: Moment,
)
    requires
        pass.wf(state),
        pass.phase == (PhaseView::Ranks { chosen, rank: 0, all_ok: true }),
        outcomes.len() == chosen.len(),
    ensures
        ({
            let (s, p) = after_outcomes(pass, state, outcomes, now);
            let task = state.pending[pass.cursor as int];
            if forall|i: int| 0 <= i < outcomes.len() ==> #[trigger] outcomes[i] == Sent::Delivered {
                &&& s == (ClusterView {
                    nodes: s.nodes,
                    ..state.dispatch_job(pass.cursor as int, chosen, now)
                })
                &&& s.running[task.id].status == (TaskStatusView::MpiDispatched {
                    job_id: task.id,
                    node_ids: chosen,
                })
                &&& s.jobs[task.id] == MpiJobView::fresh(task.id, chosen.len() as u32, now.instant)
                &&& p == pass.task_gone()
            } else {
                &&& s == (ClusterView { nodes: s.nodes, ..state })
                &&& p == (PassView { phase: PhaseView::Aborting, ..pass })
            }
        }),
{
    let front = outcomes.drop_last();
    lemma_ranks_so_far(pass, state, chosen, front, now);
    if forall|i: int| 0 <= i < outcomes.len() ==> #[trigger] outcomes[i] == Sent::Delivered {
        assert forall|i: int| 0 <= i < front.len() implies #[trigger] front[i]
            == Sent::Delivered by {
            assert(outcomes[i] == Sent::Delivered);
        }
        assert(outcomes[outcomes.len() - 1] == Sent::Delivered);
    } else {
        let bad = choose|i: int|
            0 <= i < outcomes.len() && #[trigger] outcomes[i] != Sent::Delivered;
        if bad < front.len() {
            assert(front[bad] != Sent::Delivered);
        }
    }
}

/// A single-node task leaves the queue exactly when it was delivered; then it
/// is under way on the node that it was sent to.
pub proof fn law_task_starts_when_delivered(
    pass: PassView,
    state: ClusterView,
    sent: Sent,
    now: Moment,
)
    requires
        pass.wf(state),
        pass.phase is Single,
    ensures
        ({
            let (s, p) = pass.after_sending(state, sent, now);
            let task = state.pending[pass.cursor as int];
            if sent == Sent::Delivered {
                &&& s.pending == state.pending.remove(pass.cursor as int)
                &&& s.running == state.running.insert(
                    task.id,
                    task.with_status(TaskStatusView::Dispatched { node_id: pass.target() }),
                )
                &&& s.since == state.since.insert(task.id, now.time)
                &&& s.jobs == state.jobs
            } else {
                &&& s.pending == state.pending
                &&& s.running == state.running
                &&& s.jobs == state.jobs
            }
        }),
{
}

/// A round neither finishes a task nor uses up a retry, and opens or closes no channel.
pub proof fn law_round_only_starts_tasks(
    pass: PassView,
    state: ClusterView,
    weighed: Seq<(u128, Weight)>,
    sent: Sent,
    now: Moment,
)
    ensures
        pass.after_weighing(state, weighed, now).0.completed == state.completed,
        pass.after_weighing(state, weighed, now).0.retries == state.retries,
        pass.after_weighing(state, weighed, now).0.channels == state.channels,
        pass.after_weighing(state, weighed, now).0.nodes == state.nodes,
        pass.after_sending(state, sent, now).0.completed == state.completed,
        pass.after_sending(state, sent, now).0.retries == state.retries,
        pass.after_sending(state, sent, now).0.channels == state.channels,
        pass.after_sending(state, sent, now).0.nodes.dom() == state.nodes.dom(),
{
    assert(pass.after_sending(state, sent, now).0.nodes.dom() =~= state.nodes.dom());
}

impl PassView {
    /// A bound on the number of steps that a round still takes.
    pub open spec fn remaining(self, state: ClusterView) -> int {
        (state.pending.len() - self.cursor) * (MAX_RANKS + 3) + match self.phase {
            PhaseView::Weighing => (MAX_RANKS + 2) as int,
            PhaseView::Ranks { chosen, rank, .. } => 1 + chosen.len() - rank,
            _ => 1int,
        }
    }
}

/// A round comes to its end: every step leaves fewer to take.
pub proof fn law_round_ends(
    pass: PassView,
    state: ClusterView,
    weighed: Seq<(u128, Weight)>,
    sent: Sent,
    now: Moment,
)
    requires
        pass.wf(state),
    ensures
        pass.remaining(state) >= 0,
        pass.phase is Weighing && pass.cursor < state.pending.len() && pass.ports_suffice(
            state,
            weighed,
        ) ==> {
            let (s, p) = pass.after_weighing(state, weighed, now);
            p.remaining(s) < pass.remaining(state)
        },
        pass.sending() ==> {
            let (s, p) = pass.after_sending(state, sent, now);
            p.remaining(s) < pass.remaining(state)
        },
        pass.phase is Aborting ==> pass.skip_task().remaining(state) < pass.remaining(state),
{
    if pass.cursor < state.pending.len() {
        lemma_best_first_len(
            scored_for_job(
                state.nodes,
                state.pending[pass.cursor as int].requirements,
                weighed,
            ),
        );
    }
}

/// A single-node task is sent to an eligible node, and no eligible one scores
/// higher; it is left in the queue only where no node is eligible.
pub proof fn law_task_goes_to_the_best(
    pass: PassView,
    state: ClusterView,
    weighed: Seq<(u128, Weight)>,
    now: Moment,
)
    requires
        pass.wf(state),
        pass.phase is Weighing,
        pass.cursor < state.pending.len(),
        !(state.pending[pass.cursor as int].kind is Mpi),
    ensures
        ({
            let req = state.pending[pass.cursor as int].requirements;
            let (after, next) = pass.after_weighing(state, weighed, now);
            &&& after == state
            &&& match next.phase {
                PhaseView::Single { node_id } => exists|k: int|
                    #![trigger weighed[k]]
                    0 <= k < weighed.len() && weighed[k].0 == node_id && suits(
                        state.nodes,
                        req,
                        weighed[k],
                    ) && forall|j: int|
                        #![trigger weighed[j]]
                        0 <= j < weighed.len() && suits(state.nodes, req, weighed[j])
                            ==> weighed[j].1.score <= weighed[k].1.score,
                _ => next == pass.skip_task() && forall|j: int|
                    #![trigger weighed[j]]
                    0 <= j < weighed.len() ==> !suits(state.nodes, req, weighed[j]),
            }
        }),
{
    let req = state.pending[pass.cursor as int].requirements;
    let list = scored(state.nodes, req, weighed);
    law_scored_are_eligible(state.nodes, req, weighed);
    law_best_is_highest(list);
    match best(list) {
        Some(found) => {
            let i = choose|i: int| 0 <= i < list.len() && list[i] == found;
            assert(list[i] == found);
            let k = choose|k: int|
                #![trigger weighed[k]]
                0 <= k < weighed.len() && suits(state.nodes, req, weighed[k]) && list[i] == (
                    weighed[k].0,
                    weighed[k].1.score,
                ) && state.nodes[weighed[k].0].takes_work();
            assert forall|j: int|
                #![trigger weighed[j]]
                0 <= j < weighed.len() && suits(
                    state.nodes,
                    req,
                    weighed[j],
                ) implies weighed[j].1.score <= weighed[k].1.score by {
                law_chosen_beats_all_eligible(state.nodes, req, weighed, j);
            }
            assert(weighed[k].0 == found.0);
        },
        None => {
            assert forall|j: int| #![trigger weighed[j]] 0 <= j < weighed.len() implies !suits(
                state.nodes,
                req,
                weighed[j],
            ) by {
                if suits(state.nodes, req, weighed[j]) {
                    assert(list.contains((weighed[j].0, weighed[j].1.score)));
                }
            }
        },
    }
}

/// A job is sent to exactly as many nodes as it has ranks. Each has the slots
/// that the job asks for, and where every node was weighed once they are
/// distinct. Where too few nodes are eligible the job stays in the queue.
pub proof fn law_job_goes_to_suitable_nodes(
    pass: PassView,
    state: ClusterView,
    weighed: Seq<(u128, Weight)>,
    np: u32,
    now: Moment,
)
    requires
        pass.wf(state),
        pass.phase is Weighing,
        pass.cursor < state.pending.len(),
        state.pending[pass.cursor as int].kind matches TaskKindView::Mpi { np: n, .. } && n == np,
        np > 0,
    ensures
        ({
            let req = state.pending[pass.cursor as int].requirements;
            let (after, next) = pass.after_weighing(state, weighed, now);
            &&& after == state
            &&& match next.phase {
                PhaseView::Ranks { chosen, rank, all_ok } => {
                    &&& chosen.len() == np && rank == 0 && all_ok
                    &&& forall|i: int|
                        #![trigger chosen[i]]
                        0 <= i < np ==> state.nodes.contains_key(chosen[i])
                            && state.nodes[chosen[i]].takes_work() && has_slots(
                            state.nodes[chosen[i]],
                            req,
                        )
                    &&& weighed_ids(weighed).no_duplicates() ==> chosen.no_duplicates()
                },
                _ => next == pass.skip_task() && scored_for_job(state.nodes, req, weighed).len()
                    < np,
            }
        }),
{
    let req = state.pending[pass.cursor as int].requirements;
    let list = scored_for_job(state.nodes, req, weighed);
    law_recruits_the_best(list, np);
    law_recruits_suit_the_job(state.nodes, req, weighed, np);
    if let Some(taken) = recruited(list, np) {
        let chosen = ids_of(taken);
        assert forall|i: int| #![trigger chosen[i]] 0 <= i < np implies state.nodes.contains_key(
            chosen[i],
        ) && state.nodes[chosen[i]].takes_work() && has_slots(state.nodes[chosen[i]], req) by {
            assert(taken[i].0 == chosen[i]);
        }
        if weighed_ids(weighed).no_duplicates() {
            assert forall|i: int, j: int|
                0 <= i < chosen.len() && 0 <= j < chosen.len() && i != j implies chosen[i]
                != chosen[j] by {
                if i < j {
                    assert(taken[i].0 != taken[j].0);
                } else {
                    assert(taken[j].0 != taken[i].0);
                }
            }
        }
    }
}

} // verus!
