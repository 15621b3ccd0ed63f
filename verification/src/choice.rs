//! The choice of nodes for a task.
use crate::node::{NodeInfoView, Weight};
use crate::state::AppState;
use crate::task::{TaskRequirements, TaskRequirementsView};
use vstd::prelude::*;

verus! {

/// The nodes of a list that are known and eligible, with their scores.
pub open spec fn scored(
    nodes: Map<u128, NodeInfoView>,
    req: TaskRequirementsView,
    weighed: Seq<(u128, Weight)>,
) -> Seq<(u128, i64)>
    decreases weighed.len(),
{
    if weighed.len() == 0 {
        Seq::empty()
    } else {
        let front = scored(nodes, req, weighed.drop_last());
        let (id, weight) = weighed.last();
        if nodes.contains_key(id) && nodes[id].score_for(req, weight) is Some {
            front.push((id, nodes[id].score_for(req, weight).unwrap()))
        } else {
            front
        }
    }
}

/// Whether a node has as many logical CPUs as a job asks for on each node.
pub open spec fn has_slots(node: NodeInfoView, req: TaskRequirementsView) -> bool {
    req.mpi_slots_per_node matches Some(slots) ==> node.capabilities.cpu_cores >= slots
}

/// Those of the weighed nodes that are known and have the slots that a job asks for.
pub open spec fn with_slots(
    nodes: Map<u128, NodeInfoView>,
    req: TaskRequirementsView,
    weighed: Seq<(u128, Weight)>,
) -> Seq<(u128, Weight)>
    decreases weighed.len(),
{
    if weighed.len() == 0 {
        Seq::empty()
    } else {
        let front = with_slots(nodes, req, weighed.drop_last());
        if nodes.contains_key(weighed.last().0) && has_slots(nodes[weighed.last().0], req) {
            front.push(weighed.last())
        } else {
            front
        }
    }
}

/// The nodes of a list that are eligible for a job, with their scores.
pub open spec fn scored_for_job(
    nodes: Map<u128, NodeInfoView>,
    req: TaskRequirementsView,
    weighed: Seq<(u128, Weight)>,
) -> Seq<(u128, i64)> {
    scored(nodes, req, with_slots(nodes, req, weighed))
}

/// The entry with the highest score, and of equally high ones the last.
pub open spec fn best(list: Seq<(u128, i64)>) -> Option<(u128, i64)>
    decreases list.len(),
{
    if list.len() == 0 {
        None
    } else {
        match best(list.drop_last()) {
            Some(b) => if b.1 > list.last().1 {
                Some(b)
            } else {
                Some(list.last())
            },
            None => Some(list.last()),
        }
    }
}

/// The list with one more entry, before those with a lower score that stand at its end.
pub open spec fn placed(list: Seq<(u128, i64)>, entry: (u128, i64)) -> Seq<(u128, i64)>
    decreases list.len(),
{
    if list.len() > 0 && list.last().1 < entry.1 {
        placed(list.drop_last(), entry).push(list.last())
    } else {
        list.push(entry)
    }
}

/// The list by falling score; entries with equal scores keep their order.
pub open spec fn best_first(list: Seq<(u128, i64)>) -> Seq<(u128, i64)>
    decreases list.len(),
{
    if list.len() == 0 {
        list
    } else {
        placed(best_first(list.drop_last()), list.last())
    }
}

/// The `np` entries with the highest scores, if there are as many.
pub open spec fn recruited(list: Seq<(u128, i64)>, np: u32) -> Option<Seq<(u128, i64)>> {
    if list.len() < np {
        None
    } else {
        Some(best_first(list).take(np as int))
    }
}

/// `placed` inserts the entry at the place before which nobody scores lower and
/// from which on everybody does.
proof fn lemma_placed_at(list: Seq<(u128, i64)>, entry: (u128, i64), at: int)
    requires
        0 <= at <= list.len(),
        at > 0 ==> list[at - 1].1 >= entry.1,
        forall|i: int| at <= i < list.len() ==> #[trigger] list[i].1 < entry.1,
    ensures
        placed(list, entry) == list.insert(at, entry),
    decreases list.len(),
{
    if at == list.len() {
        assert(list.insert(at, entry) =~= list.push(entry));
    } else {
        let front = list.drop_last();
        lemma_placed_at(front, entry, at);
        assert(list[list.len() - 1].1 < entry.1);
        assert(list.insert(at, entry) =~= front.insert(at, entry).push(list.last()));
    }
}

/// An entry more makes a list longer by one.
pub proof fn lemma_placed_len(list: Seq<(u128, i64)>, entry: (u128, i64))
    ensures
        placed(list, entry).len() == list.len() + 1,
    decreases list.len(),
{
    if list.len() > 0 && list.last().1 < entry.1 {
        lemma_placed_len(list.drop_last(), entry);
    }
}

/// Sorting keeps the length.
pub proof fn lemma_best_first_len(list: Seq<(u128, i64)>)
    ensures
        best_first(list).len() == list.len(),
    decreases list.len(),
{
    if list.len() > 0 {
        lemma_best_first_len(list.drop_last());
        lemma_placed_len(best_first(list.drop_last()), list.last());
    }
}

/// The weighed nodes that are known and eligible, with their scores.
fn eligible_nodes(
    state: &AppState,
    req: &TaskRequirements,
    weighed: &Vec<(u128, Weight)>,
) -> (list: Vec<(u128, i64)>)
    requires
        state.wf(),
    ensures
        list@ == scored(state@.nodes, req.deep_view(), weighed@),
{
    let mut list: Vec<(u128, i64)> = Vec::new();
    let mut i: usize = 0;
    assert(list@ =~= scored(state@.nodes, req.deep_view(), weighed@.take(0)));
    while i < weighed.len()
        invariant
            state.wf(),
            i <= weighed.len(),
            list@ == scored(state@.nodes, req.deep_view(), weighed@.take(i as int)),
        decreases weighed.len() - i,
    {
        assert(weighed@.take(i + 1).drop_last() =~= weighed@.take(i as int));
        let (id, weight) = weighed[i];
        assert(weighed@.take(i + 1).last() == (id, weight));
        if let Some(node) = state.node(id) {
            if let Some(score) = node.score_for(req, weight) {
                list.push((id, score));
            }
        }
        i = i + 1;
    }
    assert(weighed@.take(weighed.len() as int) =~= weighed@);
    list
}

/// Those of the weighed nodes that are known and have the slots that a job asks for.
fn nodes_with_slots(
    state: &AppState,
    req: &TaskRequirements,
    weighed: &Vec<(u128, Weight)>,
) -> (list: Vec<(u128, Weight)>)
    requires
        state.wf(),
    ensures
        list@ == with_slots(state@.nodes, req.deep_view(), weighed@),
{
    let mut list: Vec<(u128, Weight)> = Vec::new();
    let mut i: usize = 0;
    assert(list@ =~= with_slots(state@.nodes, req.deep_view(), weighed@.take(0)));
    while i < weighed.len()
        invariant
            state.wf(),
            i <= weighed.len(),
            list@ == with_slots(state@.nodes, req.deep_view(), weighed@.take(i as int)),
        decreases weighed.len() - i,
    {
        assert(weighed@.take(i + 1).drop_last() =~= weighed@.take(i as int));
        let (id, weight) = weighed[i];
        assert(weighed@.take(i + 1).last() == (id, weight));
        if let Some(node) = state.node(id) {
            let enough: bool = match req.mpi_slots_per_node {
                Some(slots) => node.capabilities.cpu_cores >= slots,
                None => true,
            };
            if enough {
                list.push((id, weight));
            }
        }
        i = i + 1;
    }
    assert(weighed@.take(weighed.len() as int) =~= weighed@);
    list
}

/// The weighed node with the highest score for a task, and that score. Of
/// equally high ones it is the last.
pub fn score_nodes_for_task(
    state: &AppState,
    requirements: &TaskRequirements,
    weighed: &Vec<(u128, Weight)>,
) -> (r: Option<(u128, i64)>)
    requires
        state.wf(),
    ensures
        r == best(scored(state@.nodes, requirements.deep_view(), weighed@)),
{
    let list = eligible_nodes(state, requirements, weighed);
    let mut r: Option<(u128, i64)> = None;
    let mut i: usize = 0;
    while i < list.len()
        invariant
            i <= list.len(),
            r == best(list@.take(i as int)),
        decreases list.len() - i,
    {
        assert(list@.take(i + 1).drop_last() =~= list@.take(i as int));
        assert(list@.take(i + 1).last() == list@[i as int]);
        r = match r {
            Some(b) => if b.1 > list[i].1 {
                Some(b)
            } else {
                Some(list[i])
            },
            None => Some(list[i]),
        };
        i = i + 1;
    }
    assert(list@.take(list.len() as int) =~= list@);
    r
}

/// The `np` weighed nodes with the highest scores, the best first, if as many
/// are eligible and have the slots that the job asks for.
pub fn recruit_mpi_nodes(
    state: &AppState,
    req: &TaskRequirements,
    np: u32,
    weighed: &Vec<(u128, Weight)>,
) -> (r: Option<Vec<(u128, i64)>>)
    requires
        state.wf(),
    ensures
        match r {
            Some(list) => recruited(
                scored_for_job(state@.nodes, req.deep_view(), weighed@),
                np,
            ) == Some(list@),
            None => recruited(scored_for_job(state@.nodes, req.deep_view(), weighed@), np) is None,
        },
{
    let candidates = nodes_with_slots(state, req, weighed);
    let list = eligible_nodes(state, req, &candidates);
    if list.len() < np as usize {
        return None;
    }
    let mut sorted: Vec<(u128, i64)> = Vec::new();
    let mut i: usize = 0;
    assert(sorted@ =~= best_first(list@.take(0)));
    while i < list.len()
        invariant
            i <= list.len(),
            sorted@ == best_first(list@.take(i as int)),
        decreases list.len() - i,
    {
        assert(list@.take(i + 1).drop_last() =~= list@.take(i as int));
        assert(list@.take(i + 1).last() == list@[i as int]);
        let entry: (u128, i64) = list[i];
        let mut at: usize = sorted.len();
        while at > 0 && sorted[at - 1].1 < entry.1
            invariant
                at <= sorted.len(),
                forall|j: int| at <= j < sorted.len() ==> #[trigger] sorted@[j].1 < entry.1,
            decreases at,
        {
            at = at - 1;
        }
        proof {
            lemma_placed_at(sorted@, entry, at as int);
        }
        sorted.insert(at, entry);
        i = i + 1;
    }
    proof {
        assert(list@.take(list.len() as int) =~= list@);
        lemma_best_first_len(list@);
    }
    sorted.truncate(np as usize);
    Some(sorted)
}

/// Whether a weighed node is known and eligible.
pub open spec fn suits(
    nodes: Map<u128, NodeInfoView>,
    req: TaskRequirementsView,
    entry: (u128, Weight),
) -> bool {
    nodes.contains_key(entry.0) && nodes[entry.0].eligible(req, entry.1.cpu_suffices)
}

/// The identifiers of weighed nodes.
pub open spec fn weighed_ids(weighed: Seq<(u128, Weight)>) -> Seq<u128> {
    weighed.map_values(|entry: (u128, Weight)| entry.0)
}

/// Scored are exactly the weighed nodes that meet the hard requirements, each
/// with its own score. A node that is offline or draining is never among them.
pub proof fn law_scored_are_eligible(
    nodes: Map<u128, NodeInfoView>,
    req: TaskRequirementsView,
    weighed: Seq<(u128, Weight)>,
)
    ensures
        forall|i: int|
            #![trigger scored(nodes, req, weighed)[i]]
            0 <= i < scored(nodes, req, weighed).len() ==> exists|k: int|
                #![trigger weighed[k]]
                0 <= k < weighed.len() && suits(nodes, req, weighed[k])
                    && scored(nodes, req, weighed)[i] == (weighed[k].0, weighed[k].1.score)
                    && nodes[weighed[k].0].takes_work(),
        forall|k: int|
            #![trigger weighed[k]]
            0 <= k < weighed.len() && suits(nodes, req, weighed[k]) ==> scored(
                nodes,
                req,
                weighed,
            ).contains((weighed[k].0, weighed[k].1.score)),
    decreases weighed.len(),
{
    let all = scored(nodes, req, weighed);
    if weighed.len() > 0 {
        let rest = weighed.drop_last();
        let front = scored(nodes, req, rest);
        law_scored_are_eligible(nodes, req, rest);
        assert forall|i: int| #![trigger all[i]] 0 <= i < all.len() implies exists|k: int|
            #![trigger weighed[k]]
            0 <= k < weighed.len() && suits(nodes, req, weighed[k]) && all[i] == (
                weighed[k].0,
                weighed[k].1.score,
            ) && nodes[weighed[k].0].takes_work() by {
            if i < front.len() {
                assert(all[i] == front[i]);
                let k = choose|k: int|
                    #![trigger rest[k]]
                    0 <= k < rest.len() && suits(nodes, req, rest[k]) && front[i] == (
                        rest[k].0,
                        rest[k].1.score,
                    ) && nodes[rest[k].0].takes_work();
                assert(weighed[k] == rest[k]);
            } else {
                assert(weighed[weighed.len() - 1] == weighed.last());
            }
        }
        assert forall|k: int|
            #![trigger weighed[k]]
            0 <= k < weighed.len() && suits(nodes, req, weighed[k]) implies all.contains(
            (weighed[k].0, weighed[k].1.score),
        ) by {
            if k < rest.len() {
                assert(rest[k] == weighed[k]);
                let i = choose|i: int|
                    0 <= i < front.len() && front[i] == (weighed[k].0, weighed[k].1.score);
                assert(all[i] == front[i]);
            } else {
                assert(all[front.len() as int] == (weighed[k].0, weighed[k].1.score));
            }
        }
    }
}

/// The chosen node is one of the scored ones, and no other scores higher. A
/// node is chosen exactly where one is eligible.
pub proof fn law_best_is_highest(list: Seq<(u128, i64)>)
    ensures
        best(list) is None <==> list.len() == 0,
        best(list) matches Some(found) ==> list.contains(found) && forall|i: int|
            0 <= i < list.len() ==> (#[trigger] list[i]).1 <= found.1,
    decreases list.len(),
{
    if list.len() > 0 {
        let front = list.drop_last();
        law_best_is_highest(front);
        let found = best(list).unwrap();
        if best(front) == Some(found) && found != list.last() {
            let k = choose|k: int| 0 <= k < front.len() && front[k] == found;
            assert(list[k] == found);
        } else {
            assert(list[list.len() - 1] == found);
        }
        assert forall|i: int| 0 <= i < list.len() implies (#[trigger] list[i]).1 <= found.1 by {
            if i < front.len() {
                assert(front[i] == list[i]);
            }
        }
    }
}

/// Of the weighed nodes, none that meets the hard requirements of a task scores
/// higher than the one chosen for it.
pub proof fn law_chosen_beats_all_eligible(
    nodes: Map<u128, NodeInfoView>,
    req: TaskRequirementsView,
    weighed: Seq<(u128, Weight)>,
    k: int,
)
    requires
        0 <= k < weighed.len(),
        suits(nodes, req, weighed[k]),
    ensures
        best(scored(nodes, req, weighed)) matches Some(found) && weighed[k].1.score <= found.1
            && nodes.contains_key(found.0) && nodes[found.0].takes_work(),
{
    let list = scored(nodes, req, weighed);
    law_scored_are_eligible(nodes, req, weighed);
    law_best_is_highest(list);
    let i = choose|i: int| 0 <= i < list.len() && list[i] == (weighed[k].0, weighed[k].1.score);
    assert(list[i].1 <= best(list).unwrap().1);
    let m = choose|m: int| 0 <= m < list.len() && list[m] == best(list).unwrap();
    assert(list[m] == best(list).unwrap());
}

/// An entry more, in its place: nothing is lost, and a list by falling score stays one.
proof fn lemma_placed(list: Seq<(u128, i64)>, entry: (u128, i64))
    requires
        forall|i: int, j: int|
            #![trigger list[i], list[j]]
            0 <= i < j < list.len() ==> list[i].1 >= list[j].1,
    ensures
        placed(list, entry).to_multiset() == list.to_multiset().insert(entry),
        forall|i: int, j: int|
            #![trigger placed(list, entry)[i], placed(list, entry)[j]]
            0 <= i < j < placed(list, entry).len() ==> placed(list, entry)[i].1 >= placed(
                list,
                entry,
            )[j].1,
        forall|i: int|
            0 <= i < placed(list, entry).len() ==> (#[trigger] placed(list, entry)[i]) == entry
                || list.contains(placed(list, entry)[i]),
    decreases list.len(),
{
    broadcast use vstd::seq_lib::group_to_multiset_ensures;

    let after = placed(list, entry);
    if list.len() > 0 && list.last().1 < entry.1 {
        let front = list.drop_last();
        assert forall|i: int, j: int|
            #![trigger front[i], front[j]]
            0 <= i < j < front.len() implies front[i].1 >= front[j].1 by {
            assert(list[i].1 >= list[j].1);
        }
        lemma_placed(front, entry);
        let before = placed(front, entry);
        assert(list =~= front.push(list.last()));
        assert(after.to_multiset() =~= list.to_multiset().insert(entry));
        assert forall|i: int| 0 <= i < after.len() implies (#[trigger] after[i]) == entry
            || list.contains(after[i]) by {
            if i < before.len() {
                assert(before[i] == after[i]);
                if before[i] != entry {
                    let k = choose|k: int| 0 <= k < front.len() && front[k] == before[i];
                    assert(list[k] == after[i]);
                }
            } else {
                assert(list[list.len() - 1] == after[i]);
            }
        }
        assert forall|i: int, j: int|
            #![trigger after[i], after[j]]
            0 <= i < j < after.len() implies after[i].1 >= after[j].1 by {
            if j < before.len() {
                assert(before[i].1 >= before[j].1);
            } else {
                assert(before[i] == after[i]);
                if before[i] != entry {
                    let k = choose|k: int| 0 <= k < front.len() && front[k] == before[i];
                    assert(list[k].1 >= list[list.len() - 1].1);
                }
            }
        }
    } else {
        assert(after.to_multiset() =~= list.to_multiset().insert(entry));
        assert forall|i: int| 0 <= i < after.len() implies (#[trigger] after[i]) == entry
            || list.contains(after[i]) by {
            if i < list.len() {
                assert(list[i] == after[i]);
            }
        }
        assert forall|i: int, j: int|
            #![trigger after[i], after[j]]
            0 <= i < j < after.len() implies after[i].1 >= after[j].1 by {
            if j < list.len() {
                assert(list[i].1 >= list[j].1);
            } else if i < list.len() - 1 {
                assert(list[i].1 >= list[list.len() - 1].1);
            }
        }
    }
}

/// Sorting rearranges the entries, and puts them by falling score.
pub proof fn law_best_first_sorts(list: Seq<(u128, i64)>)
    ensures
        best_first(list).to_multiset() == list.to_multiset(),
        forall|i: int, j: int|
            #![trigger best_first(list)[i], best_first(list)[j]]
            0 <= i < j < best_first(list).len() ==> best_first(list)[i].1 >= best_first(list)[j].1,
    decreases list.len(),
{
    broadcast use vstd::seq_lib::group_to_multiset_ensures;

    if list.len() > 0 {
        let front = list.drop_last();
        law_best_first_sorts(front);
        lemma_placed(best_first(front), list.last());
        assert(list =~= front.push(list.last()));
        assert(best_first(list).to_multiset() =~= list.to_multiset());
    }
}

/// A job gets exactly as many nodes as it asks for, or none where too few are
/// eligible. The nodes come by falling score, and every eligible node that is
/// left out scores no higher than any that was taken.
pub proof fn law_recruits_the_best(list: Seq<(u128, i64)>, np: u32)
    ensures
        recruited(list, np) is None <==> list.len() < np,
        recruited(list, np) matches Some(taken) ==> {
            &&& taken.len() == np
            &&& taken == best_first(list).take(np as int)
            &&& forall|i: int, j: int|
                #![trigger taken[i], taken[j]]
                0 <= i < j < taken.len() ==> taken[i].1 >= taken[j].1
            &&& forall|i: int, j: int|
                #![trigger taken[i], best_first(list)[j]]
                0 <= i < np <= j < best_first(list).len() ==> taken[i].1 >= best_first(list)[j].1
        },
{
    law_best_first_sorts(list);
    lemma_best_first_len(list);
    if list.len() >= np {
        let taken = best_first(list).take(np as int);
        assert forall|i: int, j: int|
            #![trigger taken[i], taken[j]]
            0 <= i < j < taken.len() implies taken[i].1 >= taken[j].1 by {
            assert(best_first(list)[i].1 >= best_first(list)[j].1);
        }
    }
}

/// Where every node was weighed once, a list of scored nodes holds none twice.
pub proof fn law_scored_are_distinct(
    nodes: Map<u128, NodeInfoView>,
    req: TaskRequirementsView,
    weighed: Seq<(u128, Weight)>,
)
    requires
        weighed_ids(weighed).no_duplicates(),
    ensures
        forall|i: int, j: int|
            #![trigger scored(nodes, req, weighed)[i], scored(nodes, req, weighed)[j]]
            0 <= i < j < scored(nodes, req, weighed).len() ==> scored(nodes, req, weighed)[i].0
                != scored(nodes, req, weighed)[j].0,
    decreases weighed.len(),
{
    if weighed.len() > 0 {
        let rest = weighed.drop_last();
        let all = scored(nodes, req, weighed);
        let front = scored(nodes, req, rest);
        assert(weighed_ids(rest) =~= weighed_ids(weighed).drop_last());
        law_scored_are_distinct(nodes, req, rest);
        law_scored_are_eligible(nodes, req, rest);
        assert forall|i: int, j: int|
            #![trigger all[i], all[j]]
            0 <= i < j < all.len() implies all[i].0 != all[j].0 by {
            assert(all[i] == front[i]);
            if j < front.len() {
                assert(all[j] == front[j]);
            } else {
                let k = choose|k: int|
                    #![trigger rest[k]]
                    0 <= k < rest.len() && suits(nodes, req, rest[k]) && front[i] == (
                        rest[k].0,
                        rest[k].1.score,
                    ) && nodes[rest[k].0].takes_work();
                assert(weighed_ids(weighed)[k] == all[i].0);
                assert(weighed_ids(weighed)[weighed.len() - 1] == all[j].0);
            }
        }
    }
}

/// The nodes with enough slots are those of the weighed ones, in the same order.
proof fn lemma_with_slots(
    nodes: Map<u128, NodeInfoView>,
    req: TaskRequirementsView,
    weighed: Seq<(u128, Weight)>,
)
    ensures
        forall|i: int|
            #![trigger with_slots(nodes, req, weighed)[i]]
            0 <= i < with_slots(nodes, req, weighed).len() ==> weighed.contains(
                with_slots(nodes, req, weighed)[i],
            ) && nodes.contains_key(with_slots(nodes, req, weighed)[i].0) && has_slots(
                nodes[with_slots(nodes, req, weighed)[i].0],
                req,
            ),
        weighed_ids(weighed).no_duplicates() ==> weighed_ids(
            with_slots(nodes, req, weighed),
        ).no_duplicates(),
    decreases weighed.len(),
{
    if weighed.len() > 0 {
        let rest = weighed.drop_last();
        let front = with_slots(nodes, req, rest);
        let all = with_slots(nodes, req, weighed);
        lemma_with_slots(nodes, req, rest);
        assert forall|i: int| #![trigger all[i]] 0 <= i < all.len() implies weighed.contains(
            all[i],
        ) && nodes.contains_key(all[i].0) && has_slots(nodes[all[i].0], req) by {
            if i < front.len() {
                assert(all[i] == front[i]);
                let k = choose|k: int| 0 <= k < rest.len() && rest[k] == front[i];
                assert(weighed[k] == all[i]);
            } else {
                assert(weighed[weighed.len() - 1] == all[i]);
            }
        }
        if weighed_ids(weighed).no_duplicates() {
            assert(weighed_ids(rest) =~= weighed_ids(weighed).drop_last());
            let ids = weighed_ids(all);
            assert forall|i: int, j: int|
                0 <= i < ids.len() && 0 <= j < ids.len() && i != j implies ids[i] != ids[j] by {
                if i < front.len() && j < front.len() {
                    assert(weighed_ids(front)[i] == ids[i] && weighed_ids(front)[j] == ids[j]);
                } else {
                    let early = if i < front.len() {
                        i
                    } else {
                        j
                    };
                    assert(front[early] == all[early]);
                    let k = choose|k: int| 0 <= k < rest.len() && rest[k] == front[early];
                    assert(weighed_ids(weighed)[k] == ids[early]);
                    assert(weighed_ids(weighed)[weighed.len() - 1] == weighed.last().0);
                }
            }
        }
    }
}

/// The nodes recruited for a job meet its hard requirements, have as many logical
/// CPUs as it asks for, and are distinct where every node was weighed once.
pub proof fn law_recruits_suit_the_job(
    nodes: Map<u128, NodeInfoView>,
    req: TaskRequirementsView,
    weighed: Seq<(u128, Weight)>,
    np: u32,
)
    ensures
        recruited(scored_for_job(nodes, req, weighed), np) matches Some(taken) ==> {
            &&& forall|i: int|
                #![trigger taken[i]]
                0 <= i < taken.len() ==> nodes.contains_key(taken[i].0)
                    && nodes[taken[i].0].takes_work() && has_slots(nodes[taken[i].0], req)
            &&& weighed_ids(weighed).no_duplicates() ==> forall|i: int, j: int|
                #![trigger taken[i], taken[j]]
                0 <= i < j < taken.len() ==> taken[i].0 != taken[j].0
        },
{
    let candidates = with_slots(nodes, req, weighed);
    let list = scored_for_job(nodes, req, weighed);
    lemma_with_slots(nodes, req, weighed);
    law_scored_are_eligible(nodes, req, candidates);
    lemma_best_first_len(list);
    lemma_best_first_entries(list);
    if list.len() >= np {
        let taken = best_first(list).take(np as int);
        assert forall|i: int| #![trigger taken[i]] 0 <= i < taken.len() implies nodes.contains_key(
            taken[i].0,
        ) && nodes[taken[i].0].takes_work() && has_slots(nodes[taken[i].0], req) by {
            assert(taken[i] == best_first(list)[i]);
            let m = choose|m: int| 0 <= m < list.len() && list[m] == best_first(list)[i];
            assert(list[m] == taken[i]);
            let k = choose|k: int|
                #![trigger candidates[k]]
                0 <= k < candidates.len() && suits(nodes, req, candidates[k]) && list[m] == (
                    candidates[k].0,
                    candidates[k].1.score,
                ) && nodes[candidates[k].0].takes_work();
            assert(has_slots(nodes[candidates[k].0], req));
        }
        if weighed_ids(weighed).no_duplicates() {
            law_scored_are_distinct(nodes, req, candidates);
            lemma_distinct_after_sorting(list);
            assert forall|i: int, j: int|
                #![trigger taken[i], taken[j]]
                0 <= i < j < taken.len() implies taken[i].0 != taken[j].0 by {
                assert(best_first(list)[i].0 != best_first(list)[j].0);
            }
        }
    }
}

/// Sorting adds no entry.
proof fn lemma_best_first_entries(list: Seq<(u128, i64)>)
    ensures
        forall|i: int|
            0 <= i < best_first(list).len() ==> list.contains(#[trigger] best_first(list)[i]),
    decreases list.len(),
{
    if list.len() > 0 {
        let front = list.drop_last();
        lemma_best_first_entries(front);
        law_best_first_sorts(front);
        lemma_placed(best_first(front), list.last());
        let after = best_first(list);
        assert forall|i: int| 0 <= i < after.len() implies list.contains(#[trigger] after[i]) by {
            if after[i] == list.last() {
                assert(list[list.len() - 1] == after[i]);
            } else {
                let m = choose|m: int|
                    0 <= m < best_first(front).len() && best_first(front)[m] == after[i];
                let k = choose|k: int| 0 <= k < front.len() && front[k] == best_first(front)[m];
                assert(list[k] == after[i]);
            }
        }
    }
}

/// Sorting keeps distinct entries distinct.
proof fn lemma_distinct_after_sorting(list: Seq<(u128, i64)>)
    requires
        forall|i: int, j: int|
            #![trigger list[i], list[j]]
            0 <= i < j < list.len() ==> list[i].0 != list[j].0,
    ensures
        forall|i: int, j: int|
            #![trigger best_first(list)[i], best_first(list)[j]]
            0 <= i < j < best_first(list).len() ==> best_first(list)[i].0 != best_first(list)[j].0,
        forall|i: int|
            0 <= i < best_first(list).len() ==> list.contains(#[trigger] best_first(list)[i]),
    decreases list.len(),
{
    if list.len() > 0 {
        let front = list.drop_last();
        assert forall|i: int, j: int|
            #![trigger front[i], front[j]]
            0 <= i < j < front.len() implies front[i].0 != front[j].0 by {
            assert(list[i].0 != list[j].0);
        }
        lemma_distinct_after_sorting(front);
        assert forall|i: int| 0 <= i < best_first(front).len() implies (#[trigger] best_first(
            front,
        )[i]).0 != list.last().0 by {
            let k = choose|k: int| 0 <= k < front.len() && front[k] == best_first(front)[i];
            assert(list[k].0 != list[list.len() - 1].0);
        }
        lemma_placed_distinct(best_first(front), list.last());
        let after = best_first(list);
        assert forall|i: int| 0 <= i < after.len() implies list.contains(#[trigger] after[i]) by {
            if after[i] == list.last() {
                assert(list[list.len() - 1] == after[i]);
            } else {
                let m = choose|m: int|
                    0 <= m < best_first(front).len() && best_first(front)[m] == after[i];
                let k = choose|k: int| 0 <= k < front.len() && front[k] == best_first(front)[m];
                assert(list[k] == after[i]);
            }
        }
    }
}

/// Placing an entry with a new identifier keeps the identifiers distinct.
proof fn lemma_placed_distinct(list: Seq<(u128, i64)>, entry: (u128, i64))
    requires
        forall|i: int, j: int|
            #![trigger list[i], list[j]]
            0 <= i < j < list.len() ==> list[i].0 != list[j].0,
        forall|i: int| 0 <= i < list.len() ==> (#[trigger] list[i]).0 != entry.0,
    ensures
        forall|i: int, j: int|
            #![trigger placed(list, entry)[i], placed(list, entry)[j]]
            0 <= i < j < placed(list, entry).len() ==> placed(list, entry)[i].0 != placed(
                list,
                entry,
            )[j].0,
        forall|i: int|
            0 <= i < placed(list, entry).len() ==> (#[trigger] placed(list, entry)[i]) == entry
                || list.contains(placed(list, entry)[i]),
    decreases list.len(),
{
    let after = placed(list, entry);
    if list.len() > 0 && list.last().1 < entry.1 {
        let front = list.drop_last();
        assert forall|i: int, j: int|
            #![trigger front[i], front[j]]
            0 <= i < j < front.len() implies front[i].0 != front[j].0 by {
            assert(list[i].0 != list[j].0);
        }
        assert forall|i: int| 0 <= i < front.len() implies (#[trigger] front[i]).0 != entry.0 by {
            assert(list[i].0 != entry.0);
        }
        lemma_placed_distinct(front, entry);
        let before = placed(front, entry);
        assert forall|i: int| 0 <= i < after.len() implies (#[trigger] after[i]) == entry
            || list.contains(after[i]) by {
            if i < before.len() {
                assert(before[i] == after[i]);
                if before[i] != entry {
                    let k = choose|k: int| 0 <= k < front.len() && front[k] == before[i];
                    assert(list[k] == after[i]);
                }
            } else {
                assert(list[list.len() - 1] == after[i]);
            }
        }
        assert forall|i: int, j: int|
            #![trigger after[i], after[j]]
            0 <= i < j < after.len() implies after[i].0 != after[j].0 by {
            assert(before[i] == after[i]);
            if j < before.len() {
                assert(before[j] == after[j]);
            } else {
                assert(after[j] == list[list.len() - 1]);
                if before[i] != entry {
                    let k = choose|k: int| 0 <= k < front.len() && front[k] == before[i];
                    assert(list[k].0 != list[list.len() - 1].0);
                }
            }
        }
    } else {
        assert forall|i: int| 0 <= i < after.len() implies (#[trigger] after[i]) == entry
            || list.contains(after[i]) by {
            if i < list.len() {
                assert(list[i] == after[i]);
            }
        }
    }
}

} // verus!
