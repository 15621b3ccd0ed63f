//! What holds of the choice of nodes, said of the nodes and tasks themselves.
use crate::choice::{
    best, best_first, law_best_first_sorts, lemma_best_first_len, placed, recruited, scored,
    scored_for_job, with_slots,
};
use crate::clock::Moment;
use crate::cluster::ClusterView;
use crate::message::ServerMessageView;
use crate::node::{NodeInfoView, NodeStatus, Weight};
use crate::scheduler::{ids_of, sent_for, PassView, PhaseView, Sent, MAX_RANKS};
use crate::task::{TaskKindView, TaskRequirementsView, TaskStatusView};
use vstd::prelude::*;

verus! {

/// A node is scored for a task only where it declares each of the required tags,
/// wherever in the list the tag stands.
pub proof fn law_scored_node_declares_every_tag(
    node: NodeInfoView,
    req: TaskRequirementsView,
    weight: Weight,
    i: int,
)
    requires
        node.score_for(req, weight) is Some,
        0 <= i < req.required_tags.len(),
    ensures
        exists|j: int|
            0 <= j < node.capabilities.tags.len() && #[trigger] node.capabilities.tags[j]
                == req.required_tags[i],
{
    assert(node.capabilities.tags.contains(req.required_tags[i]));
}

/// A node that lacks a single one of the required tags is not scored.
pub proof fn law_missing_tag_rules_a_node_out(
    node: NodeInfoView,
    req: TaskRequirementsView,
    weight: Weight,
    i: int,
)
    requires
        0 <= i < req.required_tags.len(),
        forall|j: int|
            0 <= j < node.capabilities.tags.len() ==> #[trigger] node.capabilities.tags[j]
                != req.required_tags[i],
    ensures
        node.score_for(req, weight) is None,
{
    if node.score_for(req, weight) is Some {
        law_scored_node_declares_every_tag(node, req, weight, i);
    }
}

/// A node is scored only where it takes work, has the CPU and the memory that the
/// task requires, and a GPU where the task requires one. The score is the one that
/// was weighed.
pub proof fn law_scored_node_meets_the_requirements(
    node: NodeInfoView,
    req: TaskRequirementsView,
    weight: Weight,
)
    requires
        node.score_for(req, weight) is Some,
    ensures
        node.status == NodeStatus::Online || node.status == NodeStatus::Busy,
        weight.cpu_suffices,
        node.stats.ram_free_mb >= req.min_ram_free_mb,
        req.requires_gpu ==> node.capabilities.has_gpu,
        node.score_for(req, weight) == Some(weight.score),
{
}

/// Nothing else rules a node out: neither how much it has to do, nor where it is,
/// nor how many CPUs it has.
pub proof fn law_suitable_node_is_scored(
    node: NodeInfoView,
    req: TaskRequirementsView,
    weight: Weight,
)
    requires
        node.status == NodeStatus::Online || node.status == NodeStatus::Busy,
        weight.cpu_suffices,
        node.stats.ram_free_mb >= req.min_ram_free_mb,
        node.capabilities.has_gpu || !req.requires_gpu,
        forall|i: int|
            0 <= i < req.required_tags.len() ==> exists|j: int|
                0 <= j < node.capabilities.tags.len() && node.capabilities.tags[j]
                    == #[trigger] req.required_tags[i],
    ensures
        node.score_for(req, weight) == Some(weight.score),
{
    assert forall|i: int|
        0 <= i < req.required_tags.len() implies node.capabilities.tags.contains(
        #[trigger] req.required_tags[i],
    ) by {}
}

/// A node that suits a task suits every task that asks for less: for fewer tags,
/// less memory, and no GPU.
pub proof fn law_asking_for_less_rules_nobody_out(
    node: NodeInfoView,
    more: TaskRequirementsView,
    less: TaskRequirementsView,
    weight: Weight,
)
    requires
        node.score_for(more, weight) is Some,
        less.min_ram_free_mb <= more.min_ram_free_mb,
        less.requires_gpu ==> more.requires_gpu,
        forall|i: int|
            0 <= i < less.required_tags.len() ==> more.required_tags.contains(
                #[trigger] less.required_tags[i],
            ),
    ensures
        node.score_for(less, weight) == node.score_for(more, weight),
{
    assert forall|i: int|
        0 <= i < less.required_tags.len() implies node.capabilities.tags.contains(
        #[trigger] less.required_tags[i],
    ) by {
        let k = choose|k: int|
            0 <= k < more.required_tags.len() && more.required_tags[k] == less.required_tags[i];
        assert(node.capabilities.tags.contains(more.required_tags[k]));
    }
}

/// Whether a node of the list is known and can take a task: it is online or busy,
/// has the CPU and the memory, a GPU where one is asked for, and every tag.
pub open spec fn can_take(
    nodes: Map<u128, NodeInfoView>,
    req: TaskRequirementsView,
    entry: (u128, Weight),
) -> bool {
    &&& nodes.contains_key(entry.0)
    &&& nodes[entry.0].status == NodeStatus::Online || nodes[entry.0].status == NodeStatus::Busy
    &&& entry.1.cpu_suffices
    &&& req.min_ram_free_mb <= nodes[entry.0].stats.ram_free_mb
    &&& nodes[entry.0].capabilities.has_gpu || !req.requires_gpu
    &&& forall|i: int|
        0 <= i < req.required_tags.len() ==> nodes[entry.0].capabilities.tags.contains(
            #[trigger] req.required_tags[i],
        )
}

/// Whether a node of the list can take a rank of a job: it can take the task, and
/// has as many CPUs as the job asks for on each node.
pub open spec fn can_take_rank(
    nodes: Map<u128, NodeInfoView>,
    req: TaskRequirementsView,
    entry: (u128, Weight),
) -> bool {
    &&& can_take(nodes, req, entry)
    &&& match req.mpi_slots_per_node {
        Some(slots) => slots <= nodes[entry.0].capabilities.cpu_cores,
        None => true,
    }
}

/// The entries of a list that are wanted, in their order, with their scores.
pub open spec fn picked(
    weighed: Seq<(u128, Weight)>,
    wanted: spec_fn((u128, Weight)) -> bool,
) -> Seq<(u128, i64)> {
    weighed.filter(wanted).map_values(|entry: (u128, Weight)| (entry.0, entry.1.score))
}

/// One more entry is picked, or not.
proof fn lemma_picked(weighed: Seq<(u128, Weight)>, wanted: spec_fn((u128, Weight)) -> bool)
    requires
        weighed.len() > 0,
    ensures
        picked(weighed, wanted) == (if wanted(weighed.last()) {
            picked(weighed.drop_last(), wanted).push((weighed.last().0, weighed.last().1.score))
        } else {
            picked(weighed.drop_last(), wanted)
        }),
{
    reveal(Seq::filter);
    let front = weighed.drop_last().filter(wanted);
    let f = |entry: (u128, Weight)| (entry.0, entry.1.score);
    assert(front.push(weighed.last()).map_values(f) =~= front.map_values(f).push(
        f(weighed.last()),
    ));
}

/// Scored for a task are exactly the weighed nodes that can take it, in the order
/// of the list and each with its own score.
pub proof fn law_scored_are_those_that_can_take_it(
    nodes: Map<u128, NodeInfoView>,
    req: TaskRequirementsView,
    weighed: Seq<(u128, Weight)>,
)
    ensures
        scored(nodes, req, weighed) == picked(
            weighed,
            |entry: (u128, Weight)| can_take(nodes, req, entry),
        ),
    decreases weighed.len(),
{
    let wanted = |entry: (u128, Weight)| can_take(nodes, req, entry);
    if weighed.len() == 0 {
        reveal(Seq::filter);
        assert(picked(weighed, wanted) =~= Seq::empty());
    } else {
        law_scored_are_those_that_can_take_it(nodes, req, weighed.drop_last());
        lemma_picked(weighed, wanted);
        let (id, weight) = weighed.last();
        if nodes.contains_key(id) {
            if nodes[id].score_for(req, weight) is Some {
                law_scored_node_meets_the_requirements(nodes[id], req, weight);
                assert(can_take(nodes, req, weighed.last()));
            } else if can_take(nodes, req, weighed.last()) {
                assert forall|i: int| 0 <= i < req.required_tags.len() implies exists|j: int|
                    0 <= j < nodes[id].capabilities.tags.len() && nodes[id].capabilities.tags[j]
                        == #[trigger] req.required_tags[i] by {
                    assert(nodes[id].capabilities.tags.contains(req.required_tags[i]));
                }
                law_suitable_node_is_scored(nodes[id], req, weight);
            }
        }
    }
}

/// Scored for a job are exactly the weighed nodes that can take one of its ranks,
/// in the order of the list and each with its own score.
pub proof fn law_scored_for_job_are_those_that_can_take_a_rank(
    nodes: Map<u128, NodeInfoView>,
    req: TaskRequirementsView,
    weighed: Seq<(u128, Weight)>,
)
    ensures
        scored_for_job(nodes, req, weighed) == picked(
            weighed,
            |entry: (u128, Weight)| can_take_rank(nodes, req, entry),
        ),
    decreases weighed.len(),
{
    let wanted = |entry: (u128, Weight)| can_take_rank(nodes, req, entry);
    let takes = |entry: (u128, Weight)| can_take(nodes, req, entry);
    law_scored_are_those_that_can_take_it(nodes, req, with_slots(nodes, req, weighed));
    if weighed.len() == 0 {
        reveal(Seq::filter);
        assert(picked(weighed, wanted) =~= Seq::empty());
        assert(scored_for_job(nodes, req, weighed) =~= Seq::empty());
    } else {
        let rest = weighed.drop_last();
        law_scored_for_job_are_those_that_can_take_a_rank(nodes, req, rest);
        lemma_picked(weighed, wanted);
        law_scored_are_those_that_can_take_it(nodes, req, with_slots(nodes, req, rest));
        let all = with_slots(nodes, req, weighed);
        let front = with_slots(nodes, req, rest);
        if all != front {
            assert(all.drop_last() =~= front);
            lemma_picked(all, takes);
        }
    }
}

/// A task goes to the last of those of its nodes that can take it and score
/// highest; it goes nowhere only where no weighed node can take it.
pub proof fn law_best_node_is_chosen(
    nodes: Map<u128, NodeInfoView>,
    req: TaskRequirementsView,
    weighed: Seq<(u128, Weight)>,
)
    ensures
        match best(scored(nodes, req, weighed)) {
            Some(found) => exists|k: int|
                #![trigger weighed[k]]
                {
                    &&& 0 <= k < weighed.len()
                    &&& can_take(nodes, req, weighed[k])
                    &&& found == (weighed[k].0, weighed[k].1.score)
                    &&& forall|j: int|
                        #![trigger weighed[j]]
                        0 <= j < weighed.len() && can_take(nodes, req, weighed[j])
                            ==> weighed[j].1.score < weighed[k].1.score || (weighed[j].1.score
                            == weighed[k].1.score && j <= k)
                },
            None => forall|j: int|
                #![trigger weighed[j]]
                0 <= j < weighed.len() ==> !can_take(nodes, req, weighed[j]),
        },
    decreases weighed.len(),
{
    if weighed.len() > 0 {
        let rest = weighed.drop_last();
        let takes = |entry: (u128, Weight)| can_take(nodes, req, entry);
        let n = weighed.len() - 1;
        law_best_node_is_chosen(nodes, req, rest);
        law_scored_are_those_that_can_take_it(nodes, req, weighed);
        law_scored_are_those_that_can_take_it(nodes, req, rest);
        lemma_picked(weighed, takes);
        let list = scored(nodes, req, weighed);
        let front = scored(nodes, req, rest);
        assert forall|j: int| 0 <= j < n implies #[trigger] rest[j] == weighed[j] by {}
        assert(weighed[n] == weighed.last());
        if can_take(nodes, req, weighed.last()) {
            assert(list.drop_last() =~= front);
            match best(front) {
                Some(b) => {
                    let k = choose|k: int|
                        #![trigger rest[k]]
                        {
                            &&& 0 <= k < rest.len()
                            &&& can_take(nodes, req, rest[k])
                            &&& b == (rest[k].0, rest[k].1.score)
                            &&& forall|j: int|
                                #![trigger rest[j]]
                                0 <= j < rest.len() && can_take(nodes, req, rest[j])
                                    ==> rest[j].1.score < rest[k].1.score || (rest[j].1.score
                                    == rest[k].1.score && j <= k)
                        };
                    let w = if b.1 > weighed[n].1.score {
                        k
                    } else {
                        n
                    };
                    assert forall|j: int|
                        #![trigger weighed[j]]
                        0 <= j < weighed.len() && can_take(
                            nodes,
                            req,
                            weighed[j],
                        ) implies weighed[j].1.score < weighed[w].1.score || (weighed[j].1.score
                        == weighed[w].1.score && j <= w) by {
                        if j < n {
                            assert(rest[j] == weighed[j]);
                            assert(rest[k] == weighed[k]);
                        }
                    }
                    assert(rest[k] == weighed[k]);
                    assert(can_take(nodes, req, weighed[w]));
                },
                None => {
                    assert forall|j: int|
                        #![trigger weighed[j]]
                        0 <= j < weighed.len() && can_take(nodes, req, weighed[j]) implies j == n by {
                        if j < n {
                            assert(rest[j] == weighed[j]);
                        }
                    }
                },
            }
        } else {
            match best(front) {
                Some(b) => {
                    let k = choose|k: int|
                        #![trigger rest[k]]
                        {
                            &&& 0 <= k < rest.len()
                            &&& can_take(nodes, req, rest[k])
                            &&& b == (rest[k].0, rest[k].1.score)
                            &&& forall|j: int|
                                #![trigger rest[j]]
                                0 <= j < rest.len() && can_take(nodes, req, rest[j])
                                    ==> rest[j].1.score < rest[k].1.score || (rest[j].1.score
                                    == rest[k].1.score && j <= k)
                        };
                    assert(rest[k] == weighed[k]);
                    assert forall|j: int|
                        #![trigger weighed[j]]
                        0 <= j < weighed.len() && can_take(
                            nodes,
                            req,
                            weighed[j],
                        ) implies weighed[j].1.score < weighed[k].1.score || (weighed[j].1.score
                        == weighed[k].1.score && j <= k) by {
                        assert(rest[j] == weighed[j]);
                    }
                },
                None => {
                    assert forall|j: int|
                        #![trigger weighed[j]]
                        0 <= j < weighed.len() implies !can_take(nodes, req, weighed[j]) by {
                        if j < n {
                            assert(rest[j] == weighed[j]);
                        }
                    }
                },
            }
        }
    }
}

/// Placing an entry among others keeps those of another score as they are, and
/// puts it behind those of its own.
proof fn lemma_placed_is_stable(list: Seq<(u128, i64)>, entry: (u128, i64), score: i64)
    ensures
        placed(list, entry).filter(|e: (u128, i64)| e.1 == score) == (if entry.1 == score {
            list.filter(|e: (u128, i64)| e.1 == score).push(entry)
        } else {
            list.filter(|e: (u128, i64)| e.1 == score)
        }),
    decreases list.len(),
{
    reveal(Seq::filter);
    let same = |e: (u128, i64)| e.1 == score;
    if list.len() > 0 && list.last().1 < entry.1 {
        let front = list.drop_last();
        lemma_placed_is_stable(front, entry, score);
        let all = placed(front, entry).push(list.last());
        assert(all.drop_last() =~= placed(front, entry));
    } else {
        assert(list.push(entry).drop_last() =~= list);
    }
}

/// The best stand first, and of equally good ones those that came first: sorting
/// keeps, of every score, the entries with this score in their order.
pub proof fn law_sorting_is_stable(list: Seq<(u128, i64)>, score: i64)
    ensures
        best_first(list).filter(|e: (u128, i64)| e.1 == score) == list.filter(
            |e: (u128, i64)| e.1 == score,
        ),
    decreases list.len(),
{
    reveal(Seq::filter);
    if list.len() > 0 {
        law_sorting_is_stable(list.drop_last(), score);
        lemma_placed_is_stable(best_first(list.drop_last()), list.last(), score);
    }
}

/// Whether the entries of a list are taken or left: together they are those of the
/// list, each as often, and none stands behind one with a lower score.
pub open spec fn is_split(
    taken: Seq<(u128, i64)>,
    rest: Seq<(u128, i64)>,
    all: Seq<(u128, i64)>,
) -> bool {
    &&& (taken + rest).to_multiset() == all.to_multiset()
    &&& forall|i: int, j: int|
        #![trigger (taken + rest)[i], (taken + rest)[j]]
        0 <= i < j < (taken + rest).len() ==> (taken + rest)[i].1 >= (taken + rest)[j].1
}

/// A job of `np` ranks gets exactly `np` nodes that can take its ranks, or none
/// where there are fewer. It gets the best: no node that is left out scores higher
/// than one that was taken. None is taken more often than it was weighed.
pub proof fn law_job_gets_the_best_nodes(
    nodes: Map<u128, NodeInfoView>,
    req: TaskRequirementsView,
    weighed: Seq<(u128, Weight)>,
    np: u32,
)
    ensures
        ({
            let all = picked(
                weighed,
                |entry: (u128, Weight)| can_take_rank(nodes, req, entry),
            );
            match recruited(scored_for_job(nodes, req, weighed), np) {
                Some(taken) => taken.len() == np && exists|rest: Seq<(u128, i64)>| #[trigger]
                    is_split(taken, rest, all),
                None => all.len() < np,
            }
        }),
{
    let list = scored_for_job(nodes, req, weighed);
    law_scored_for_job_are_those_that_can_take_a_rank(nodes, req, weighed);
    law_best_first_sorts(list);
    lemma_best_first_len(list);
    if list.len() >= np {
        let sorted = best_first(list);
        let taken = sorted.take(np as int);
        let rest = sorted.skip(np as int);
        assert(taken + rest =~= sorted);
        assert(is_split(taken, rest, list));
    }
}

/// Whether a list of nodes is the one for a job: as many as it has ranks, each can
/// take a rank, and none that was left out scores higher.
pub open spec fn are_chosen(
    nodes: Map<u128, NodeInfoView>,
    req: TaskRequirementsView,
    weighed: Seq<(u128, Weight)>,
    np: u32,
    chosen: Seq<u128>,
) -> bool {
    exists|taken: Seq<(u128, i64)>|
        {
            &&& recruited(scored_for_job(nodes, req, weighed), np) == Some(taken)
            &&& chosen.len() == taken.len()
            &&& forall|i: int| 0 <= i < taken.len() ==> chosen[i] == (#[trigger] taken[i]).0
        }
}

/// Weighing the nodes for a task that is no MPI job: the round goes on to send the
/// task to the best node that can take it, of equally good ones to the last, and
/// leaves the task where it stands where none can. Nothing else changes.
pub proof fn law_weighing_for_a_task(
    pass: PassView,
    state: ClusterView,
    weighed: Seq<(u128, Weight)>,
    now: Moment,
)
    requires
        pass.cursor < state.pending.len(),
        !(state.pending[pass.cursor as int].kind is Mpi),
    ensures
        ({
            let req = state.pending[pass.cursor as int].requirements;
            let (s, p) = pass.after_weighing(state, weighed, now);
            &&& s == state
            &&& match p.phase {
                PhaseView::Single { node_id } => p.cursor == pass.cursor && exists|k: int|
                    #![trigger weighed[k]]
                    {
                        &&& 0 <= k < weighed.len()
                        &&& weighed[k].0 == node_id
                        &&& can_take(state.nodes, req, weighed[k])
                        &&& forall|j: int|
                            #![trigger weighed[j]]
                            0 <= j < weighed.len() && can_take(state.nodes, req, weighed[j])
                                ==> weighed[j].1.score < weighed[k].1.score || (
                            weighed[j].1.score == weighed[k].1.score && j <= k)
                    },
                PhaseView::Weighing => p.cursor == pass.cursor + 1 && forall|j: int|
                    #![trigger weighed[j]]
                    0 <= j < weighed.len() ==> !can_take(state.nodes, req, weighed[j]),
                _ => false,
            }
        }),
{
    let req = state.pending[pass.cursor as int].requirements;
    law_best_node_is_chosen(state.nodes, req, weighed);
}

/// Weighing the nodes for an MPI job with ranks: the round goes on to send its
/// ranks to the nodes recruited for it, beginning with the first, and leaves the
/// job where it stands where fewer nodes than ranks can take one. Nothing else
/// changes.
pub proof fn law_weighing_for_a_job(
    pass: PassView,
    state: ClusterView,
    weighed: Seq<(u128, Weight)>,
    np: u32,
    now: Moment,
)
    requires
        pass.cursor < state.pending.len(),
        state.pending[pass.cursor as int].kind matches TaskKindView::Mpi { np: n, .. } && n == np,
        np > 0,
    ensures
        ({
            let req = state.pending[pass.cursor as int].requirements;
            let (s, p) = pass.after_weighing(state, weighed, now);
            &&& s == state
            &&& match p.phase {
                PhaseView::Ranks { chosen, rank, all_ok } => {
                    &&& p.cursor == pass.cursor
                    &&& rank == 0
                    &&& all_ok
                    &&& chosen.len() == np
                    &&& are_chosen(state.nodes, req, weighed, np, chosen)
                },
                PhaseView::Weighing => p.cursor == pass.cursor + 1 && picked(
                    weighed,
                    |entry: (u128, Weight)| can_take_rank(state.nodes, req, entry),
                ).len() < np,
                _ => false,
            }
        }),
{
    let req = state.pending[pass.cursor as int].requirements;
    let list = scored_for_job(state.nodes, req, weighed);
    law_scored_for_job_are_those_that_can_take_a_rank(state.nodes, req, weighed);
    lemma_best_first_len(list);
    if let Some(taken) = recruited(list, np) {
        let chosen = ids_of(taken);
        assert forall|i: int| 0 <= i < taken.len() implies chosen[i] == (#[trigger] taken[i]).0 by {}
        assert(are_chosen(state.nodes, req, weighed, np, chosen));
    }
}

/// What is sent is the task at the cursor, to the node chosen for it. A rank of a
/// job is told its own rank, how many ranks there are, the job by the identifier
/// of the task, and of every rank its node, the host that the node has given, and
/// a port of its own.
pub proof fn law_message_tells_a_rank_its_part(
    pass: PassView,
    state: ClusterView,
    chosen: Seq<u128>,
    rank: nat,
    all_ok: bool,
    i: int,
)
    requires
        pass.phase == (PhaseView::Ranks { chosen, rank, all_ok }),
        rank < chosen.len() <= MAX_RANKS,
        0 <= i < chosen.len(),
    ensures
        pass.target() == chosen[rank as int],
        pass.message(state) matches ServerMessageView::DispatchMpiSlot { task, slot } && {
            &&& task == state.pending[pass.cursor as int]
            &&& slot.rank == rank
            &&& slot.size == chosen.len()
            &&& slot.job_id == task.id
            &&& slot.peers.len() == chosen.len()
            &&& slot.peers[i].node_id == chosen[i]
            &&& slot.peers[i].port == 9900 + i
            &&& state.nodes.contains_key(chosen[i]) ==> slot.peers[i].host
                == state.nodes[chosen[i]].capabilities.mpi_host
            &&& !state.nodes.contains_key(chosen[i]) ==> slot.peers[i].host == "localhost"@
        },
{
}

/// A task that is no MPI job is sent as it waits, to the node chosen for it.
pub proof fn law_message_holds_the_task(pass: PassView, state: ClusterView, node_id: u128)
    requires
        pass.phase == (PhaseView::Single { node_id }),
    ensures
        pass.target() == node_id,
        pass.message(state) == (ServerMessageView::DispatchTask {
            task: state.pending[pass.cursor as int],
        }),
{
}

/// What an outcome tells of the node: one more task is active on it where the
/// message was delivered, it is offline where its channel is dead, and else it is
/// as it was. No other node changes.
pub proof fn law_outcome_marks_the_node(state: ClusterView, node_id: u128, sent: Sent)
    requires
        state.nodes.contains_key(node_id),
        state.nodes[node_id].stats.active_tasks < u32::MAX,
    ensures
        ({
            let after = state.after_send(node_id, sent);
            let old_node = state.nodes[node_id];
            let new_node = after.nodes[node_id];
            &&& after.nodes == state.nodes.insert(node_id, new_node)
            &&& after == (ClusterView { nodes: after.nodes, ..state })
            &&& new_node.stats.active_tasks == old_node.stats.active_tasks + (if sent
                == Sent::Delivered {
                1int
            } else {
                0
            })
            &&& new_node.status == (if sent == Sent::ChannelDead {
                NodeStatus::Offline
            } else {
                old_node.status
            })
            &&& new_node.id == old_node.id
            &&& new_node.name == old_node.name
            &&& new_node.capabilities == old_node.capabilities
            &&& new_node.last_seen == old_node.last_seen
            &&& new_node.stats.ram_free_mb == old_node.stats.ram_free_mb
            &&& new_node.stats.cpu_used_pct == old_node.stats.cpu_used_pct
            &&& new_node.stats.latency_ms == old_node.stats.latency_ms
            &&& new_node.stats.reported_at == old_node.stats.reported_at
        }),
{
    let after = state.after_send(node_id, sent);
    assert(after.nodes =~= state.nodes.insert(node_id, after.nodes[node_id]));
}

/// A task whose message was delivered leaves the queue and is under way on the
/// node that it was sent to, since now, with everything else about it as it was;
/// otherwise it stays where it is and the round passes it by.
pub proof fn law_delivered_task_is_under_way(
    pass: PassView,
    state: ClusterView,
    node_id: u128,
    sent: Sent,
    now: Moment,
)
    requires
        pass.phase == (PhaseView::Single { node_id }),
        pass.cursor < state.pending.len(),
    ensures
        ({
            let (s, p) = pass.after_sending(state, sent, now);
            let task = state.pending[pass.cursor as int];
            &&& s.nodes == state.after_send(node_id, sent).nodes
            &&& s.completed == state.completed
            &&& s.retries == state.retries
            &&& s.jobs == state.jobs
            &&& s.channels == state.channels
            &&& p.phase is Weighing
            &&& if sent == Sent::Delivered {
                &&& p.cursor == pass.cursor
                &&& s.pending == state.pending.remove(pass.cursor as int)
                &&& s.running.dom() == state.running.dom().insert(task.id)
                &&& forall|id: u128|
                    id != task.id && #[trigger] state.running.contains_key(id) ==> s.running[id]
                        == state.running[id] && s.since[id] == state.since[id]
                &&& s.running[task.id].status == (TaskStatusView::Dispatched { node_id })
                &&& s.running[task.id].id == task.id
                &&& s.running[task.id].kind == task.kind
                &&& s.running[task.id].requirements == task.requirements
                &&& s.running[task.id].priority == task.priority
                &&& s.running[task.id].submitted_at == task.submitted_at
                &&& s.running[task.id].meta == task.meta
                &&& s.since[task.id] == now.time
            } else {
                &&& p.cursor == pass.cursor + 1
                &&& s.pending == state.pending
                &&& s.running == state.running
                &&& s.since == state.since
            }
        }),
{
}

/// When the last rank of a job has had its outcome: where every rank was
/// delivered the task leaves the queue, runs on exactly the nodes that its ranks
/// went to, since now, and its job waits for as many answers as it has ranks;
/// where one was not, nothing is under way and the job is given up.
pub proof fn law_delivered_job_is_under_way(
    pass: PassView,
    state: ClusterView,
    chosen: Seq<u128>,
    rank: nat,
    all_ok: bool,
    sent: Sent,
    now: Moment,
)
    requires
        pass.phase == (PhaseView::Ranks { chosen, rank, all_ok }),
        pass.cursor < state.pending.len(),
        rank + 1 == chosen.len() <= MAX_RANKS,
    ensures
        ({
            let (s, p) = pass.after_sending(state, sent, now);
            let task = state.pending[pass.cursor as int];
            &&& s.nodes == state.after_send(chosen[rank as int], sent).nodes
            &&& s.completed == state.completed
            &&& s.retries == state.retries
            &&& s.channels == state.channels
            &&& p.cursor == pass.cursor
            &&& if all_ok && sent == Sent::Delivered {
                &&& p.phase is Weighing
                &&& s.pending == state.pending.remove(pass.cursor as int)
                &&& s.running.dom() == state.running.dom().insert(task.id)
                &&& forall|id: u128|
                    id != task.id && #[trigger] state.running.contains_key(id) ==> s.running[id]
                        == state.running[id] && s.since[id] == state.since[id]
                &&& s.running[task.id].status == (TaskStatusView::MpiDispatched {
                    job_id: task.id,
                    node_ids: chosen,
                })
                &&& s.running[task.id].id == task.id
                &&& s.running[task.id].kind == task.kind
                &&& s.running[task.id].requirements == task.requirements
                &&& s.running[task.id].priority == task.priority
                &&& s.running[task.id].submitted_at == task.submitted_at
                &&& s.running[task.id].meta == task.meta
                &&& s.since[task.id] == now.time
                &&& s.jobs.dom() == state.jobs.dom().insert(task.id)
                &&& forall|id: u128|
                    id != task.id && #[trigger] state.jobs.contains_key(id) ==> s.jobs[id]
                        == state.jobs[id]
                &&& s.jobs[task.id].task_id == task.id
                &&& s.jobs[task.id].total_ranks == chosen.len()
                &&& s.jobs[task.id].started_at == now.instant
                &&& s.jobs[task.id].results.len() == chosen.len()
                &&& s.jobs[task.id].errors.len() == chosen.len()
                &&& forall|i: int|
                    0 <= i < chosen.len() ==> (#[trigger] s.jobs[task.id].results[i]) is None
                &&& forall|i: int|
                    0 <= i < chosen.len() ==> (#[trigger] s.jobs[task.id].errors[i]) is None
            } else {
                &&& p.phase is Aborting
                &&& s.pending == state.pending
                &&& s.running == state.running
                &&& s.since == state.since
                &&& s.jobs == state.jobs
            }
        }),
{
}

/// Before the last rank of a job has had its outcome nothing is under way: the
/// round goes on to the next rank, and remembers whether one was not delivered.
pub proof fn law_ranks_are_sent_one_by_one(
    pass: PassView,
    state: ClusterView,
    chosen: Seq<u128>,
    rank: nat,
    all_ok: bool,
    sent: Sent,
    now: Moment,
)
    requires
        pass.phase == (PhaseView::Ranks { chosen, rank, all_ok }),
        rank + 1 < chosen.len(),
    ensures
        ({
            let (s, p) = pass.after_sending(state, sent, now);
            &&& s == state.after_send(chosen[rank as int], sent)
            &&& p.cursor == pass.cursor
            &&& p.phase == (PhaseView::Ranks {
                chosen,
                rank: rank + 1,
                all_ok: all_ok && sent == Sent::Delivered,
            })
        }),
{
}

/// The outcome of a message to an unknown node changes nothing.
pub proof fn law_outcome_for_an_unknown_node(state: ClusterView, node_id: u128, sent: Sent)
    requires
        !state.nodes.contains_key(node_id),
    ensures
        state.after_send(node_id, sent) == state,
{
}

/// An MPI job without ranks has nothing to send: it leaves the queue at once and is
/// under way on no node, since now.
pub proof fn law_job_without_ranks_is_under_way_at_once(
    pass: PassView,
    state: ClusterView,
    weighed: Seq<(u128, Weight)>,
    now: Moment,
)
    requires
        pass.cursor < state.pending.len(),
        state.pending[pass.cursor as int].kind matches TaskKindView::Mpi { np, .. } && np == 0,
    ensures
        ({
            let (s, p) = pass.after_weighing(state, weighed, now);
            let task = state.pending[pass.cursor as int];
            &&& p.cursor == pass.cursor
            &&& p.phase is Weighing
            &&& s.pending == state.pending.remove(pass.cursor as int)
            &&& s.running.dom() == state.running.dom().insert(task.id)
            &&& s.running[task.id].status == (TaskStatusView::MpiDispatched {
                job_id: task.id,
                node_ids: Seq::empty(),
            })
            &&& s.running[task.id].kind == task.kind
            &&& s.since[task.id] == now.time
            &&& s.jobs.contains_key(task.id)
            &&& s.jobs[task.id].total_ranks == 0
            &&& s.nodes == state.nodes
            &&& s.completed == state.completed
            &&& s.retries == state.retries
            &&& s.channels == state.channels
        }),
{
    let task = state.pending[pass.cursor as int];
    law_job_gets_the_best_nodes(state.nodes, task.requirements, weighed, 0);
}

/// There are ports for the ranks of a job up to the last port that there is: the
/// first rank has port 9900, the others the ports behind it.
pub proof fn law_ports_suffice_up_to_the_last(
    pass: PassView,
    state: ClusterView,
    weighed: Seq<(u128, Weight)>,
)
    ensures
        ({
            let task = state.pending[pass.cursor as int];
            match task.kind {
                TaskKindView::Mpi { np, .. } => pass.ports_suffice(state, weighed) <==> (picked(
                    weighed,
                    |entry: (u128, Weight)|
                        can_take_rank(state.nodes, task.requirements, entry),
                ).len() < np || 9900 + np <= 65536),
                _ => pass.ports_suffice(state, weighed),
            }
        }),
{
    let task = state.pending[pass.cursor as int];
    if let TaskKindView::Mpi { np, .. } = task.kind {
        let all = picked(
            weighed,
            |entry: (u128, Weight)| can_take_rank(state.nodes, task.requirements, entry),
        );
        law_job_gets_the_best_nodes(state.nodes, task.requirements, weighed, np);
        law_scored_for_job_are_those_that_can_take_a_rank(
            state.nodes,
            task.requirements,
            weighed,
        );
        let found = scored_for_job(state.nodes, task.requirements, weighed);
        lemma_best_first_len(found);
    }
}

/// A message can be sent unless the node that it goes to has a channel and as many
/// active tasks as can be counted.
pub proof fn law_message_can_be_sent(pass: PassView, state: ClusterView)
    ensures
        pass.can_send(state) <==> !(state.channels.contains_key(pass.target())
            && state.nodes.contains_key(pass.target())
            && state.nodes[pass.target()].stats.active_tasks == u32::MAX),
        pass.sending() <==> pass.phase is Single || pass.phase is Ranks,
        pass.skip_task().cursor == pass.cursor + 1,
        pass.skip_task().phase is Weighing,
{
}

/// The score of a node rests on its load, its memory and latency, and on whether it
/// lies in the region that the task prefers; a task that prefers none finds no node
/// in it.
pub proof fn law_score_rests_on_load_and_region(node: NodeInfoView, req: TaskRequirementsView)
    ensures
        ({
            let terms = node.score_terms(req);
            &&& terms.cpu_used_pct == node.stats.cpu_used_pct
            &&& terms.ram_free_mb == node.stats.ram_free_mb
            &&& terms.total_ram_mb == node.capabilities.total_ram_mb
            &&& terms.active_tasks == node.stats.active_tasks
            &&& terms.latency_ms == node.stats.latency_ms
            &&& terms.in_preferred_region <==> (req.preferred_region matches Some(region)
                && region == node.capabilities.region)
        }),
{
}

/// A message counts as delivered only where the node has a channel that has taken
/// it; without a channel, or where nobody listens, the channel is dead.
pub proof fn law_only_taken_messages_are_delivered(answer: Option<Result<(), String>>)
    ensures
        sent_for(answer) == Sent::Delivered <==> (answer matches Some(taken) && taken is Ok),
        answer is None ==> sent_for(answer) == Sent::ChannelDead,
        answer matches Some(Err(_)) ==> sent_for(answer) == Sent::ChannelDead,
{
}

/// A job that is given up is named by the identifier of its task, with the reason.
pub proof fn law_given_up_job_is_named(pass: PassView, state: ClusterView)
    ensures
        pass.abort_message(state) == (ServerMessageView::AbortMpiJob {
            job_id: state.pending[pass.cursor as int].id,
            reason: "one or more ranks failed to dispatch"@,
        }),
{
}

} // verus!
