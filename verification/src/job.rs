//! The aggregation of the ranks of one MPI job.
use crate::clock::{elapsed_millis, reported_millis};
use crate::output::{MpiRankOutput, MpiRankOutputView, TaskOutput, TaskOutputView};
use crate::task::copy_optional;
use std::time::Instant;
use vstd::prelude::*;

verus! {

/// The answers of the ranks of one MPI job, as far as they have come in.
#[derive(Debug)]
pub struct MpiJobState {
    pub task_id: u128,
    pub total_ranks: u32,
    /// Indexed by rank.
    pub results: Vec<Option<(TaskOutput, u128)>>,
    /// Indexed by rank.
    pub errors: Vec<Option<String>>,
    pub started_at: Instant,
}

/// The contents of an `MpiJobState`.
pub struct MpiJobView {
    pub task_id: u128,
    pub total_ranks: u32,
    pub results: Seq<Option<(TaskOutputView, u128)>>,
    pub errors: Seq<Option<Seq<char>>>,
    pub started_at: Instant,
}

impl DeepView for MpiJobState {
    type V = MpiJobView;

    open spec fn deep_view(&self) -> MpiJobView {
        MpiJobView {
            task_id: self.task_id,
            total_ranks: self.total_ranks,
            results: self.results.deep_view(),
            errors: self.errors.deep_view(),
            started_at: self.started_at,
        }
    }
}

impl Clone for MpiJobState {
    fn clone(&self) -> (r: MpiJobState)
        ensures
            r.deep_view() == self.deep_view(),
    {
        let mut results: Vec<Option<(TaskOutput, u128)>> = Vec::new();
        let ghost all = self.deep_view().results;
        let mut i: usize = 0;
        while i < self.results.len()
            invariant
                i <= self.results.len(),
                all == self.results.deep_view(),
                results.deep_view() == all.take(i as int),
            decreases self.results.len() - i,
        {
            let ghost before = results.deep_view();
            let result: Option<(TaskOutput, u128)> = match &self.results[i] {
                Some((output, node_id)) => Some((output.clone(), *node_id)),
                None => None,
            };
            results.push(result);
            assert(results.deep_view() =~= before.push(result.deep_view()));
            assert(all.take(i + 1) =~= all.take(i as int).push(all[i as int]));
            i = i + 1;
        }
        assert(all.take(all.len() as int) =~= all);
        let mut errors: Vec<Option<String>> = Vec::new();
        let ghost reasons = self.deep_view().errors;
        let mut j: usize = 0;
        while j < self.errors.len()
            invariant
                j <= self.errors.len(),
                reasons == self.errors.deep_view(),
                errors.deep_view() == reasons.take(j as int),
            decreases self.errors.len() - j,
        {
            let ghost before = errors.deep_view();
            let error = copy_optional(&self.errors[j]);
            errors.push(error);
            assert(errors.deep_view() =~= before.push(error.deep_view()));
            assert(reasons.take(j + 1) =~= reasons.take(j as int).push(reasons[j as int]));
            j = j + 1;
        }
        assert(reasons.take(reasons.len() as int) =~= reasons);
        MpiJobState {
            task_id: self.task_id,
            total_ranks: self.total_ranks,
            results,
            errors,
            started_at: self.started_at,
        }
    }
}

/// How many places of a list are filled.
pub open spec fn filled<T>(places: Seq<Option<T>>) -> nat
    decreases places.len(),
{
    if places.len() == 0 {
        0
    } else {
        filled(places.drop_last()) + if places.last() is Some {
            1nat
        } else {
            0
        }
    }
}

/// The results that have come in, by rank.
pub open spec fn rank_outputs(results: Seq<Option<(TaskOutputView, u128)>>) -> Seq<
    MpiRankOutputView,
>
    decreases results.len(),
{
    if results.len() == 0 {
        Seq::empty()
    } else {
        let front = rank_outputs(results.drop_last());
        match results.last() {
            Some((output, node_id)) => front.push(
                MpiRankOutputView { rank: (results.len() - 1) as u32, node_id, output },
            ),
            None => front,
        }
    }
}

impl MpiJobView {
    /// A job that started at the given time and of which no rank has answered.
    pub open spec fn fresh(task_id: u128, total_ranks: u32, started_at: Instant) -> MpiJobView {
        MpiJobView {
            task_id,
            total_ranks,
            results: Seq::new(total_ranks as nat, |i: int| None),
            errors: Seq::new(total_ranks as nat, |i: int| None),
            started_at,
        }
    }

    /// There is one place for each rank.
    pub open spec fn wf(self) -> bool {
        self.results.len() == self.total_ranks && self.errors.len() == self.total_ranks
    }

    /// Whether a rank has answered, with a result or an error.
    pub open spec fn answered(self, rank: int) -> bool {
        self.results[rank] is Some || self.errors[rank] is Some
    }

    /// Whether every rank has answered.
    pub open spec fn complete(self) -> bool {
        forall|rank: int| 0 <= rank < self.total_ranks ==> self.answered(rank)
    }

    /// The job after a rank has reported a result. A rank that is not one of
    /// the job changes nothing.
    pub open spec fn with_result(self, rank: u32, output: TaskOutputView, node_id: u128) -> MpiJobView {
        if rank < self.total_ranks {
            MpiJobView {
                results: self.results.update(rank as int, Some((output, node_id))),
                ..self
            }
        } else {
            self
        }
    }

    /// The job after a rank has reported an error. A rank that is not one of
    /// the job changes nothing.
    pub open spec fn with_error(self, rank: u32, reason: Seq<char>) -> MpiJobView {
        if rank < self.total_ranks {
            MpiJobView { errors: self.errors.update(rank as int, Some(reason)), ..self }
        } else {
            self
        }
    }
}

/// At most every place is filled.
proof fn lemma_filled_bound<T>(places: Seq<Option<T>>)
    ensures
        filled(places) <= places.len(),
    decreases places.len(),
{
    if places.len() > 0 {
        lemma_filled_bound(places.drop_last());
    }
}

/// The number of filled places of a list.
fn count_filled<T: DeepView>(places: &Vec<Option<T>>) -> (n: usize)
    ensures
        n == filled(places.deep_view()),
{
    let mut n: usize = 0;
    let mut i: usize = 0;
    let ghost all = places.deep_view();
    while i < places.len()
        invariant
            i <= places.len(),
            all == places.deep_view(),
            n == filled(all.take(i as int)),
            n <= i,
        decreases places.len() - i,
    {
        assert(all.take(i + 1).drop_last() =~= all.take(i as int));
        if places[i].is_some() {
            n = n + 1;
        }
        i = i + 1;
    }
    assert(all.take(all.len() as int) =~= all);
    n
}

impl MpiJobState {
    /// There is one place for each rank.
    pub open spec fn wf(&self) -> bool {
        self.deep_view().wf()
    }

    /// A job that starts now and of which no rank has answered. What the clock
    /// shows is left open.
    pub fn new(task_id: u128, total_ranks: u32) -> (r: MpiJobState)
        ensures
            r.deep_view() == MpiJobView::fresh(task_id, total_ranks, r.started_at),
            r.wf(),
    {
        MpiJobState::started(task_id, total_ranks, Instant::now())
    }

    /// A job that started at the given time and of which no rank has answered.
    pub fn started(task_id: u128, total_ranks: u32, started_at: Instant) -> (r: MpiJobState)
        ensures
            r.deep_view() == MpiJobView::fresh(task_id, total_ranks, started_at),
            r.wf(),
    {
        let mut results: Vec<Option<(TaskOutput, u128)>> = Vec::new();
        let mut errors: Vec<Option<String>> = Vec::new();
        let mut i: u32 = 0;
        while i < total_ranks
            invariant
                i <= total_ranks,
                results.len() == i,
                errors.len() == i,
                forall|j: int| 0 <= j < i ==> results@[j] is None && errors@[j] is None,
            decreases total_ranks - i,
        {
            results.push(None);
            errors.push(None);
            i = i + 1;
        }
        let r = MpiJobState { task_id, total_ranks, results, errors, started_at };
        let ghost fresh = MpiJobView::fresh(task_id, total_ranks, started_at);
        assert(r.deep_view().results =~= fresh.results);
        assert(r.deep_view().errors =~= fresh.errors);
        r
    }

    /// Keeps the result of a rank.
    pub fn record_result(&mut self, rank: u32, output: TaskOutput, node_id: u128)
        requires
            old(self).wf(),
        ensures
            final(self).wf(),
            final(self).deep_view() == old(self).deep_view().with_result(
                rank,
                output.deep_view(),
                node_id,
            ),
    {
        if (rank as usize) < self.results.len() {
            self.results.set(rank as usize, Some((output, node_id)));
        }
        assert(self.deep_view().results =~= old(self).deep_view().with_result(
            rank,
            output.deep_view(),
            node_id,
        ).results);
    }

    /// Keeps the error of a rank.
    pub fn record_error(&mut self, rank: u32, reason: String)
        requires
            old(self).wf(),
        ensures
            final(self).wf(),
            final(self).deep_view() == old(self).deep_view().with_error(rank, reason@),
    {
        if (rank as usize) < self.errors.len() {
            self.errors.set(rank as usize, Some(reason));
        }
        assert(self.deep_view().errors =~= old(self).deep_view().with_error(rank, reason@).errors);
    }

    /// Whether every rank has answered.
    pub fn is_complete(&self) -> (r: bool)
        requires
            self.wf(),
        ensures
            r == self.deep_view().complete(),
    {
        let mut i: usize = 0;
        while i < self.results.len()
            invariant
                self.wf(),
                i <= self.results.len(),
                forall|rank: int| 0 <= rank < i ==> self.deep_view().answered(rank),
            decreases self.results.len() - i,
        {
            if self.results[i].is_none() && self.errors[i].is_none() {
                assert(!self.deep_view().answered(i as int));
                return false;
            }
            i = i + 1;
        }
        true
    }

    /// The time since the job started, in milliseconds. The number is left
    /// open: it rests on how much time has passed.
    pub fn duration_ms(&self) -> u64 {
        reported_millis(elapsed_millis(&self.started_at))
    }

    /// How many ranks have reported a result.
    pub fn ranks_ok(&self) -> (n: u32)
        requires
            self.wf(),
        ensures
            n == filled(self.deep_view().results),
    {
        proof {
            lemma_filled_bound(self.deep_view().results);
        }
        count_filled(&self.results) as u32
    }

    /// How many ranks have reported an error.
    pub fn ranks_failed(&self) -> (n: u32)
        requires
            self.wf(),
        ensures
            n == filled(self.deep_view().errors),
    {
        proof {
            lemma_filled_bound(self.deep_view().errors);
        }
        count_filled(&self.errors) as u32
    }

    /// The results that have come in, by rank.
    pub fn into_rank_outputs(self) -> (r: Vec<MpiRankOutput>)
        requires
            self.wf(),
        ensures
            r.deep_view() == rank_outputs(self.deep_view().results),
    {
        let mut r: Vec<MpiRankOutput> = Vec::new();
        let ghost all = self.deep_view().results;
        let mut i: usize = 0;
        assert(r.deep_view() =~= rank_outputs(all.take(0)));
        while i < self.results.len()
            invariant
                self.wf(),
                i <= self.results.len(),
                all == self.deep_view().results,
                r.deep_view() == rank_outputs(all.take(i as int)),
            decreases self.results.len() - i,
        {
            assert(all.take(i + 1).drop_last() =~= all.take(i as int));
            assert(all.take(i + 1).last() == all[i as int]);
            let ghost before = r.deep_view();
            match &self.results[i] {
                Some((output, node_id)) => {
                    let out = MpiRankOutput {
                        rank: i as u32,
                        node_id: *node_id,
                        output: output.clone(),
                    };
                    r.push(out);
                    assert(r.deep_view() =~= before.push(out.deep_view()));
                },
                None => {},
            }
            i = i + 1;
        }
        assert(all.take(all.len() as int) =~= all);
        r
    }
}

/// A rank that reports has answered, and the others are as they were. The job
/// has started when it had.
pub proof fn law_report_answers(
    job: MpiJobView,
    rank: u32,
    output: TaskOutputView,
    node_id: u128,
    reason: Seq<char>,
)
    requires
        job.wf(),
        rank < job.total_ranks,
    ensures
        job.with_result(rank, output, node_id).answered(rank as int),
        job.with_error(rank, reason).answered(rank as int),
        job.with_result(rank, output, node_id).started_at == job.started_at,
        job.with_error(rank, reason).started_at == job.started_at,
        forall|other: int|
            0 <= other < job.total_ranks && other != rank ==> job.with_result(
                rank,
                output,
                node_id,
            ).answered(other) == #[trigger] job.answered(other) && job.with_error(
                rank,
                reason,
            ).answered(other) == job.answered(other),
{
}

/// It does not matter in which order two ranks report.
pub proof fn law_reports_commute(
    job: MpiJobView,
    first: u32,
    first_output: TaskOutputView,
    first_node: u128,
    second: u32,
    second_output: TaskOutputView,
    second_node: u128,
)
    requires
        job.wf(),
        first != second,
    ensures
        job.with_result(first, first_output, first_node).with_result(
            second,
            second_output,
            second_node,
        ) == job.with_result(second, second_output, second_node).with_result(
            first,
            first_output,
            first_node,
        ),
{
    let ab = job.with_result(first, first_output, first_node).with_result(
        second,
        second_output,
        second_node,
    );
    let ba = job.with_result(second, second_output, second_node).with_result(
        first,
        first_output,
        first_node,
    );
    assert(ab.results =~= ba.results);
}

/// No rank of a new job has answered; it is complete only where it has no ranks.
pub proof fn law_fresh_job(task_id: u128, total_ranks: u32, started_at: Instant)
    ensures
        MpiJobView::fresh(task_id, total_ranks, started_at).wf(),
        MpiJobView::fresh(task_id, total_ranks, started_at).complete() <==> total_ranks == 0,
        filled(MpiJobView::fresh(task_id, total_ranks, started_at).results) == 0,
        filled(MpiJobView::fresh(task_id, total_ranks, started_at).errors) == 0,
{
    let job = MpiJobView::fresh(task_id, total_ranks, started_at);
    if total_ranks > 0 {
        assert(!job.answered(0));
    }
    lemma_none_filled(job.results);
    lemma_none_filled(job.errors);
}

/// Where no place is filled none is counted.
proof fn lemma_none_filled<T>(places: Seq<Option<T>>)
    requires
        forall|i: int| 0 <= i < places.len() ==> #[trigger] places[i] is None,
    ensures
        filled(places) == 0,
    decreases places.len(),
{
    if places.len() > 0 {
        let front = places.drop_last();
        assert forall|i: int| 0 <= i < front.len() implies #[trigger] front[i] is None by {
            assert(places[i] is None);
        }
        lemma_none_filled(front);
    }
}

/// A complete job accounts for every rank: the ranks with a result and those
/// with an error are at least as many as the job has, and exactly as many where
/// no rank has reported both.
pub proof fn law_complete_job_counts(job: MpiJobView)
    requires
        job.wf(),
        job.complete(),
    ensures
        filled(job.results) + filled(job.errors) >= job.total_ranks,
        (forall|rank: int|
            0 <= rank < job.total_ranks ==> !(#[trigger] job.results[rank] is Some
                && job.errors[rank] is Some)) ==> filled(job.results) + filled(job.errors)
            == job.total_ranks,
{
    assert forall|i: int| 0 <= i < job.results.len() implies #[trigger] job.results[i] is Some
        || job.errors[i] is Some by {
        assert(job.answered(i));
    }
    lemma_filled_sum(job.results, job.errors);
}

/// Two lists of the same length that together leave no place empty.
proof fn lemma_filled_sum<A, B>(a: Seq<Option<A>>, b: Seq<Option<B>>)
    requires
        a.len() == b.len(),
        forall|i: int| 0 <= i < a.len() ==> #[trigger] a[i] is Some || b[i] is Some,
    ensures
        filled(a) + filled(b) >= a.len(),
        (forall|i: int| 0 <= i < a.len() ==> !(#[trigger] a[i] is Some && b[i] is Some))
            ==> filled(a) + filled(b) == a.len(),
    decreases a.len(),
{
    if a.len() > 0 {
        let fa = a.drop_last();
        let fb = b.drop_last();
        assert forall|i: int| 0 <= i < fa.len() implies #[trigger] fa[i] is Some
            || fb[i] is Some by {
            assert(a[i] is Some || b[i] is Some);
        }
        lemma_filled_sum(fa, fb);
        assert(a[a.len() - 1] is Some || b[a.len() - 1] is Some);
        if forall|i: int| 0 <= i < a.len() ==> !(#[trigger] a[i] is Some && b[i] is Some) {
            assert forall|i: int| 0 <= i < fa.len() implies !(#[trigger] fa[i] is Some
                && fb[i] is Some) by {
                assert(!(a[i] is Some && b[i] is Some));
            }
            assert(!(a[a.len() - 1] is Some && b[a.len() - 1] is Some));
        }
    }
}

/// The outputs of a job are those of the ranks that reported a result, each
/// once, by rising rank.
pub proof fn law_outputs_by_rank(results: Seq<Option<(TaskOutputView, u128)>>)
    requires
        results.len() <= u32::MAX,
    ensures
        rank_outputs(results).len() == filled(results),
        forall|i: int, j: int|
            #![trigger rank_outputs(results)[i], rank_outputs(results)[j]]
            0 <= i < j < rank_outputs(results).len() ==> rank_outputs(results)[i].rank
                < rank_outputs(results)[j].rank,
        forall|i: int|
            0 <= i < rank_outputs(results).len() ==> (#[trigger] rank_outputs(results)[i]).rank
                < results.len() && results[rank_outputs(results)[i].rank as int] == Some(
                (rank_outputs(results)[i].output, rank_outputs(results)[i].node_id),
            ),
    decreases results.len(),
{
    if results.len() > 0 {
        let front = results.drop_last();
        law_outputs_by_rank(front);
        let some = rank_outputs(front);
        let all = rank_outputs(results);
        assert forall|i: int| 0 <= i < all.len() implies (#[trigger] all[i]).rank < results.len()
            && results[all[i].rank as int] == Some((all[i].output, all[i].node_id)) by {
            if i < some.len() {
                assert(all[i] == some[i]);
            }
        }
        assert forall|i: int, j: int|
            #![trigger all[i], all[j]]
            0 <= i < j < all.len() implies all[i].rank < all[j].rank by {
            assert(all[i] == some[i]);
            if j < some.len() {
                assert(all[j] == some[j]);
            }
        }
    }
}

} // verus!
