use vstd::prelude::*;

verus! {

use vstd::multiset::Multiset;

use crate::dispatcher::{Job, JobType};
use crate::worker::{data_prefix, has_shutdown};
use crate::{route, shutdown_all, wrap_index, lemma_route_len, routed_queues, empty_queues};

/// A stream of job messages only, with no shutdown sentinel among them.
pub open spec fn all_data<C>(intake: Seq<JobType<C>>) -> bool {
    forall|k: int| 0 <= k < intake.len() ==> intake[k] is Data
}

/// Routing only appends: whatever a queue already holds when more intake
/// arrives, it still holds afterwards, at the same position. Dispatch never
/// reorders the traffic a worker has already been sent.
pub proof fn lemma_route_appends<C>(
    queues: Seq<Seq<JobType<C>>>,
    intake: Seq<JobType<C>>,
    index: int,
    i: int,
)
    requires
        0 <= index < queues.len(),
        0 <= i < queues.len(),
    ensures
        route(queues, intake, index)[i].len() >= queues[i].len(),
        forall|p: int|
            0 <= p < queues[i].len() ==> route(queues, intake, index)[i][p] == queues[i][p],
    decreases intake.len(),
{
    if intake.len() > 0 {
        if intake[0] is Data {
            let job = intake[0]->0;
            assert(intake[0] == JobType::Data(job));
            let pushed = queues.update(index, queues[index].push(JobType::Data(job)));
            lemma_route_appends(pushed, intake.skip(1), wrap_index(index, queues.len() as int), i);
            assert(route(queues, intake, index) == route(
                pushed,
                intake.skip(1),
                wrap_index(index, queues.len() as int),
            ));
            assert forall|p: int|
                0 <= p < queues[i].len() implies route(queues, intake, index)[i][p]
                == queues[i][p] by {
                assert(pushed[i][p] == queues[i][p]);
            }
        } else {
            lemma_route_appends(shutdown_all(queues), intake.skip(1), index, i);
            assert forall|p: int|
                0 <= p < queues[i].len() implies route(queues, intake, index)[i][p]
                == queues[i][p] by {
                assert(shutdown_all(queues)[i][p] == queues[i][p]);
            }
        }
    }
}

/// Once a queue carries the shutdown sentinel, no amount of further routing
/// removes it.
proof fn lemma_route_keeps_shutdown<C>(
    queues: Seq<Seq<JobType<C>>>,
    intake: Seq<JobType<C>>,
    index: int,
    i: int,
)
    requires
        0 <= index < queues.len(),
        0 <= i < queues.len(),
        has_shutdown(queues[i]),
    ensures
        has_shutdown(route(queues, intake, index)[i]),
{
    let j = choose|j: int| 0 <= j < queues[i].len() && queues[i][j] is Shutdown;
    lemma_route_appends(queues, intake, index, i);
    assert(route(queues, intake, index)[i][j] is Shutdown);
}

/// Graceful shutdown completeness: as soon as the intake stream carries a
/// shutdown message, every routed worker queue carries the sentinel — so by
/// `Worker::run`, every worker of the pool reaches `Stopped`, and gracefully.
pub proof fn lemma_shutdown_reaches_all<C>(intake: Seq<JobType<C>>, max_workers: int)
    requires
        max_workers >= 1,
        has_shutdown(intake),
    ensures
        routed_queues(intake, max_workers).len() == max_workers,
        forall|i: int|
            0 <= i < max_workers ==> has_shutdown(#[trigger] routed_queues(intake, max_workers)[i]),
{
    lemma_route_len(empty_queues(max_workers), intake, 0);
    assert forall|i: int|
        0 <= i < max_workers implies has_shutdown(
        #[trigger] routed_queues(intake, max_workers)[i],
    ) by {
        lemma_shutdown_broadcast(empty_queues(max_workers), intake, 0, i);
    }
}

/// The general step behind `lemma_shutdown_reaches_all`, for any starting
/// queues and cursor.
proof fn lemma_shutdown_broadcast<C>(
    queues: Seq<Seq<JobType<C>>>,
    intake: Seq<JobType<C>>,
    index: int,
    i: int,
)
    requires
        0 <= index < queues.len(),
        0 <= i < queues.len(),
        has_shutdown(intake),
    ensures
        has_shutdown(route(queues, intake, index)[i]),
    decreases intake.len(),
{
    let j = choose|j: int| 0 <= j < intake.len() && intake[j] is Shutdown;
    if intake[0] is Shutdown {
        let signaled = shutdown_all(queues);
        assert(signaled[i][queues[i].len() as int] is Shutdown);
        assert(has_shutdown(signaled[i]));
        lemma_route_keeps_shutdown(signaled, intake.skip(1), index, i);
    } else {
        let job = intake[0]->0;
        assert(intake[0] == JobType::Data(job));
        let pushed = queues.update(index, queues[index].push(JobType::Data(job)));
        assert(intake.skip(1)[j - 1] is Shutdown);
        assert(has_shutdown(intake.skip(1)));
        lemma_shutdown_broadcast(
            pushed,
            intake.skip(1),
            wrap_index(index, queues.len() as int),
            i,
        );
    }
}

/// How many messages the round-robin cursor consumes to step from `cursor`
/// to `target`, both worker indices in `0..max_workers`.
spec fn cursor_distance(cursor: int, target: int, max_workers: int) -> int {
    if target >= cursor {
        target - cursor
    } else {
        target - cursor + max_workers
    }
}

/// The messages of an all-job intake stream that the round-robin cursor,
/// starting at `cursor`, hands to worker `target`, in arrival order.
spec fn assigned<C>(
    intake: Seq<JobType<C>>,
    cursor: int,
    max_workers: int,
    target: int,
) -> Seq<JobType<C>>
    decreases intake.len(),
{
    if intake.len() == 0 {
        Seq::empty()
    } else {
        let rest = assigned(intake.skip(1), wrap_index(cursor, max_workers), max_workers, target);
        if cursor == target {
            seq![intake[0]] + rest
        } else {
            rest
        }
    }
}

/// On an all-job stream, each routed queue is its old contents followed by
/// exactly the messages the cursor assigns to it.
proof fn lemma_route_all_data<C>(
    queues: Seq<Seq<JobType<C>>>,
    intake: Seq<JobType<C>>,
    cursor: int,
    target: int,
)
    requires
        all_data(intake),
        0 <= cursor < queues.len(),
        0 <= target < queues.len(),
    ensures
        route(queues, intake, cursor)[target] == queues[target] + assigned(
            intake,
            cursor,
            queues.len() as int,
            target,
        ),
    decreases intake.len(),
{
    let n = queues.len() as int;
    if intake.len() == 0 {
        assert(queues[target] + Seq::<JobType<C>>::empty() =~= queues[target]);
    } else {
        assert(intake[0] is Data);
        let job = intake[0]->0;
        assert(intake[0] == JobType::Data(job));
        let pushed = queues.update(cursor, queues[cursor].push(JobType::Data(job)));
        assert(all_data(intake.skip(1))) by {
            assert forall|k: int|
                0 <= k < intake.skip(1).len() implies intake.skip(1)[k] is Data by {
                assert(intake.skip(1)[k] == intake[k + 1]);
            }
        }
        lemma_route_all_data(pushed, intake.skip(1), wrap_index(cursor, n), target);
        let rest = assigned(intake.skip(1), wrap_index(cursor, n), n, target);
        if cursor == target {
            assert(pushed[target] == queues[target].push(intake[0]));
            assert(queues[target].push(intake[0]) + rest =~= queues[target] + (seq![intake[0]]
                + rest));
        } else {
            assert(pushed[target] == queues[target]);
        }
    }
}

/// Bounds pinning down how many messages the cursor assigns to a worker: a
/// hit lands every `max_workers` messages once the cursor has first walked
/// `cursor_distance` of them.
proof fn lemma_assigned_bounds<C>(
    intake: Seq<JobType<C>>,
    cursor: int,
    max_workers: int,
    target: int,
)
    requires
        0 <= cursor < max_workers,
        0 <= target < max_workers,
    ensures
        intake.len() <= cursor_distance(cursor, target, max_workers) ==> assigned(
            intake,
            cursor,
            max_workers,
            target,
        ).len() == 0,
        cursor_distance(cursor, target, max_workers) < intake.len() ==> {
            let d = cursor_distance(cursor, target, max_workers);
            let count = assigned(intake, cursor, max_workers, target).len() as int;
            &&& d + (count - 1) * max_workers < intake.len()
            &&& intake.len() <= d + count * max_workers
        },
    decreases intake.len(),
{
    let n = max_workers;
    let d = cursor_distance(cursor, target, n);
    if intake.len() > 0 {
        let next = wrap_index(cursor, n);
        let d2 = cursor_distance(next, target, n);
        lemma_assigned_bounds(intake.skip(1), next, n, target);
        let count = assigned(intake, cursor, n, target).len() as int;
        let count2 = assigned(intake.skip(1), next, n, target).len() as int;
        if cursor == target {
            assert(d == 0);
            assert(d2 == n - 1);
            assert(count == count2 + 1);
            if intake.skip(1).len() <= d2 {
                assert(count2 == 0);
                assert((count - 1) * n == 0) by (nonlinear_arith)
                    requires
                        count == 1,
                ;
                assert(count * n == n) by (nonlinear_arith)
                    requires
                        count == 1,
                ;
            } else {
                assert((count - 1) * n == count2 * n) by (nonlinear_arith)
                    requires
                        count == count2 + 1,
                ;
                assert(count * n == count2 * n + n) by (nonlinear_arith)
                    requires
                        count == count2 + 1,
                ;
                assert((count2 - 1) * n == count2 * n - n) by (nonlinear_arith);
            }
        } else {
            assert(d2 == d - 1);
            assert(count == count2);
        }
    }
}

/// The j-th message the cursor assigns to a worker is the intake message at
/// position `cursor_distance + j * max_workers`: hits are evenly spaced.
proof fn lemma_assigned_content<C>(
    intake: Seq<JobType<C>>,
    cursor: int,
    max_workers: int,
    target: int,
    j: int,
)
    requires
        0 <= cursor < max_workers,
        0 <= target < max_workers,
        0 <= j < assigned(intake, cursor, max_workers, target).len(),
    ensures
        ({
            let d = cursor_distance(cursor, target, max_workers);
            &&& 0 <= d + j * max_workers < intake.len()
            &&& assigned(intake, cursor, max_workers, target)[j] == intake[d + j * max_workers]
        }),
    decreases intake.len(),
{
    let n = max_workers;
    let d = cursor_distance(cursor, target, n);
    let s = assigned(intake, cursor, n, target);
    let next = wrap_index(cursor, n);
    let d2 = cursor_distance(next, target, n);
    let s2 = assigned(intake.skip(1), next, n, target);
    if cursor == target {
        assert(d == 0);
        assert(d2 == n - 1);
        if j == 0 {
            assert(s[0] == intake[0]);
            assert(0 * n == 0) by (nonlinear_arith);
        } else {
            lemma_assigned_content(intake.skip(1), next, n, target, j - 1);
            assert(s[j] == s2[j - 1]);
            assert(s2[j - 1] == intake.skip(1)[d2 + (j - 1) * n]);
            assert(intake.skip(1)[d2 + (j - 1) * n] == intake[1 + d2 + (j - 1) * n]);
            assert(1 + (n - 1) + (j - 1) * n == j * n) by (nonlinear_arith);
        }
    } else {
        assert(d2 == d - 1);
        lemma_assigned_content(intake.skip(1), next, n, target, j);
        assert(s[j] == s2[j]);
        assert(s2[j] == intake.skip(1)[d2 + j * n]);
        assert(intake.skip(1)[d2 + j * n] == intake[1 + d2 + j * n]);
    }
}

/// Round-robin fairness: over an all-job intake stream of `m` messages and
/// `n` workers with `m` a multiple of `n`, every worker receives exactly
/// `m / n` jobs, and the k-th submitted job (counting from 0) lands on worker
/// `k % n` as that worker's `(k / n)`-th job.
pub proof fn lemma_round_robin_fairness<C>(intake: Seq<JobType<C>>, max_workers: int)
    requires
        max_workers >= 1,
        all_data(intake),
        intake.len() as int % max_workers == 0,
    ensures
        routed_queues(intake, max_workers).len() == max_workers,
        forall|i: int|
            0 <= i < max_workers ==> #[trigger] routed_queues(intake, max_workers)[i].len()
                == intake.len() as int / max_workers,
        forall|k: int|
            0 <= k < intake.len() ==> routed_queues(intake, max_workers)[k % max_workers][k
                / max_workers] == #[trigger] intake[k],
{
    let n = max_workers;
    let m = intake.len() as int;
    let q = m / n;
    lemma_route_len(empty_queues(n), intake, 0);
    vstd::arithmetic::div_mod::lemma_fundamental_div_mod(m, n);
    assert(m == n * q);
    assert forall|i: int|
        0 <= i < n implies #[trigger] routed_queues(intake, n)[i].len() == q by {
        lemma_route_all_data(empty_queues(n), intake, 0, i);
        assert(empty_queues::<C>(n)[i] =~= Seq::<JobType<C>>::empty());
        assert(routed_queues(intake, n)[i] =~= assigned(intake, 0, n, i));
        lemma_assigned_bounds(intake, 0, n, i);
        let d = cursor_distance(0, i, n);
        assert(d == i);
        let count = assigned(intake, 0, n, i).len() as int;
        if m == 0 {
            assert(q == 0) by (nonlinear_arith)
                requires
                    n >= 1,
                    n * q == 0,
            ;
        } else {
            assert(q >= 1) by (nonlinear_arith)
                requires
                    n >= 1,
                    m == n * q,
                    m > 0,
            ;
            assert(m >= n) by (nonlinear_arith)
                requires
                    m == n * q,
                    q >= 1,
                    n >= 1,
            ;
            assert(d < m);
            assert(count == q) by (nonlinear_arith)
                requires
                    m == n * q,
                    0 <= d < n,
                    d + (count - 1) * n < m,
                    m <= d + count * n,
                    n >= 1,
            ;
        }
    }
    assert forall|k: int|
        0 <= k < m implies routed_queues(intake, n)[k % n][k / n] == #[trigger] intake[k] by {
        let i = k % n;
        let j = k / n;
        vstd::arithmetic::div_mod::lemma_fundamental_div_mod(k, n);
        vstd::arithmetic::div_mod::lemma_mod_division_less_than_divisor(k, n);
        vstd::arithmetic::div_mod::lemma_div_pos_is_pos(k, n);
        lemma_route_all_data(empty_queues(n), intake, 0, i);
        assert(empty_queues::<C>(n)[i] =~= Seq::<JobType<C>>::empty());
        assert(routed_queues(intake, n)[i] =~= assigned(intake, 0, n, i));
        assert(routed_queues(intake, n)[i].len() == q);
        assert(j < q) by (nonlinear_arith)
            requires
                k == n * j + i,
                0 <= i < n,
                k < m,
                m == n * q,
                n >= 1,
        ;
        lemma_assigned_content(intake, 0, n, i, j);
        assert(cursor_distance(0, i, n) == i);
        assert(i + j * n == k) by (nonlinear_arith)
            requires
                k == n * j + i,
        ;
    }
}

/// No lost ordering within a worker: two jobs of an all-job stream routed to
/// the same worker sit in that worker's queue in submission order — the
/// earlier-submitted at the strictly smaller position — and `Worker::run`
/// executes queue positions in ascending order.
pub proof fn lemma_order_within_worker<C>(
    intake: Seq<JobType<C>>,
    max_workers: int,
    first: int,
    second: int,
)
    requires
        max_workers >= 1,
        all_data(intake),
        0 <= first < second < intake.len(),
        first % max_workers == second % max_workers,
    ensures
        first / max_workers < second / max_workers,
        second / max_workers < routed_queues(intake, max_workers)[first % max_workers].len(),
        routed_queues(intake, max_workers)[first % max_workers][first / max_workers]
            == intake[first],
        routed_queues(intake, max_workers)[first % max_workers][second / max_workers]
            == intake[second],
{
    let n = max_workers;
    let w = first % n;
    let j1 = first / n;
    let j2 = second / n;
    vstd::arithmetic::div_mod::lemma_fundamental_div_mod(first, n);
    vstd::arithmetic::div_mod::lemma_fundamental_div_mod(second, n);
    vstd::arithmetic::div_mod::lemma_mod_division_less_than_divisor(first, n);
    vstd::arithmetic::div_mod::lemma_div_pos_is_pos(first, n);
    vstd::arithmetic::div_mod::lemma_div_pos_is_pos(second, n);
    assert(j1 < j2) by (nonlinear_arith)
        requires
            first == n * j1 + w,
            second == n * j2 + w,
            first < second,
            n >= 1,
    ;
    lemma_route_len(empty_queues(n), intake, 0);
    lemma_route_all_data(empty_queues(n), intake, 0, w);
    assert(empty_queues::<C>(n)[w] =~= Seq::<JobType<C>>::empty());
    assert(routed_queues(intake, n)[w] =~= assigned(intake, 0, n, w));
    lemma_assigned_bounds(intake, 0, n, w);
    let count = assigned(intake, 0, n, w).len() as int;
    assert(cursor_distance(0, w, n) == w);
    assert(j2 < count) by (nonlinear_arith)
        requires
            second == n * j2 + w,
            second < intake.len(),
            intake.len() <= w + count * n,
            n >= 1,
    ;
    lemma_assigned_content(intake, 0, n, w, j1);
    lemma_assigned_content(intake, 0, n, w, j2);
    assert(w + j1 * n == first) by (nonlinear_arith)
        requires
            first == n * j1 + w,
    ;
    assert(w + j2 * n == second) by (nonlinear_arith)
        requires
            second == n * j2 + w,
    ;
}

/// No lost ordering within a worker, for any traffic at all: a job
/// dispatched to worker `w`, followed by any mix of further dispatches and
/// shutdown broadcasts, followed by a second job dispatched to `w`, leaves
/// the first job at a strictly smaller queue position than the second — and
/// `Worker::run` executes queue positions in ascending order.
pub proof fn lemma_dispatch_order<C>(
    queues: Seq<Seq<JobType<C>>>,
    w: int,
    first: Job<C>,
    between: Seq<JobType<C>>,
    index: int,
    second: Job<C>,
)
    requires
        0 <= w < queues.len(),
        0 <= index < queues.len(),
    ensures
        ({
            let after_first = queues.update(w, queues[w].push(JobType::Data(first)));
            let mid = route(after_first, between, index);
            let after_second = mid.update(w, mid[w].push(JobType::Data(second)));
            let p1 = queues[w].len() as int;
            let p2 = after_second[w].len() - 1;
            &&& p1 < p2
            &&& after_second[w][p1] == JobType::Data(first)
            &&& after_second[w][p2] == JobType::Data(second)
        }),
{
    let after_first = queues.update(w, queues[w].push(JobType::Data(first)));
    let mid = route(after_first, between, index);
    let after_second = mid.update(w, mid[w].push(JobType::Data(second)));
    let p1 = queues[w].len() as int;
    lemma_route_len(after_first, between, index);
    lemma_route_appends(after_first, between, index, w);
    assert(after_first[w][p1] == JobType::Data(first));
    assert(mid[w][p1] == JobType::Data(first));
    assert(after_second[w][p1] == JobType::Data(first));
}

/// A queue that holds a sentinel keeps holding one when its head job is
/// peeled off.
proof fn lemma_has_shutdown_skip<C>(queue: Seq<JobType<C>>)
    requires
        queue.len() > 0,
        queue[0] is Data,
    ensures
        has_shutdown(queue) <==> has_shutdown(queue.skip(1)),
{
    if has_shutdown(queue) {
        let j = choose|j: int| 0 <= j < queue.len() && queue[j] is Shutdown;
        assert(j != 0);
        assert(queue.skip(1)[j - 1] is Shutdown);
    }
    if has_shutdown(queue.skip(1)) {
        let j = choose|j: int| 0 <= j < queue.skip(1).len() && queue.skip(1)[j] is Shutdown;
        assert(queue[j + 1] is Shutdown);
    }
}

/// Appending the sentinel adds nothing to what a worker will execute.
proof fn lemma_data_prefix_push_shutdown<C>(queue: Seq<JobType<C>>)
    ensures
        data_prefix(queue.push(JobType::Shutdown)) == data_prefix(queue),
    decreases queue.len(),
{
    let grown = queue.push(JobType::<C>::Shutdown);
    if queue.len() == 0 {
        assert(grown[0] is Shutdown);
    } else {
        assert(grown[0] == queue[0]);
        if queue[0] is Data {
            lemma_data_prefix_push_shutdown(queue.skip(1));
            assert(grown.skip(1) =~= queue.skip(1).push(JobType::Shutdown));
        }
    }
}

/// Appending a job message extends what a worker will execute by exactly
/// that job — unless a sentinel already sits ahead of it, in which case the
/// job is lost work.
proof fn lemma_data_prefix_push_data<C>(queue: Seq<JobType<C>>, job: Job<C>)
    ensures
        data_prefix(queue.push(JobType::Data(job))) == if has_shutdown(queue) {
            data_prefix(queue)
        } else {
            data_prefix(queue).push(job)
        },
    decreases queue.len(),
{
    let grown = queue.push(JobType::Data(job));
    if queue.len() == 0 {
        assert(!has_shutdown(queue));
        assert(grown[0] == JobType::Data(job));
        assert(grown.skip(1) =~= Seq::<JobType<C>>::empty());
        assert(data_prefix(Seq::<JobType<C>>::empty()) =~= Seq::<Job<C>>::empty());
        assert(data_prefix(grown) =~= seq![job]);
        assert(data_prefix(queue) =~= Seq::<Job<C>>::empty());
        assert(data_prefix(queue).push(job) =~= seq![job]);
    } else {
        assert(grown[0] == queue[0]);
        if queue[0] is Data {
            lemma_has_shutdown_skip(queue);
            lemma_data_prefix_push_data(queue.skip(1), job);
            assert(grown.skip(1) =~= queue.skip(1).push(JobType::Data(job)));
            if !has_shutdown(queue) {
                assert(seq![queue[0]->0] + data_prefix(queue.skip(1)).push(job) =~= (seq![
                    queue[0]->0,
                ] + data_prefix(queue.skip(1))).push(job));
            }
        } else {
            assert(queue[0] is Shutdown);
            assert(has_shutdown(queue));
        }
    }
}

/// Every job a set of worker queues will execute, pooled together as a
/// multiset: the executed prefixes of all queues at once.
pub open spec fn executed_jobs_of<C>(queues: Seq<Seq<JobType<C>>>) -> Multiset<Job<C>>
    decreases queues.len(),
{
    if queues.len() == 0 {
        Multiset::empty()
    } else {
        data_prefix(queues[0]).to_multiset().add(executed_jobs_of(queues.skip(1)))
    }
}

/// Every job payload the intake stream submits, as a multiset.
pub open spec fn submitted_jobs_of<C>(intake: Seq<JobType<C>>) -> Multiset<Job<C>>
    decreases intake.len(),
{
    if intake.len() == 0 {
        Multiset::empty()
    } else if intake[0] is Data {
        submitted_jobs_of(intake.skip(1)).insert(intake[0]->0)
    } else {
        submitted_jobs_of(intake.skip(1))
    }
}

/// A shutdown broadcast changes what no worker will execute.
proof fn lemma_executed_shutdown_all<C>(queues: Seq<Seq<JobType<C>>>)
    ensures
        executed_jobs_of(shutdown_all(queues)) == executed_jobs_of(queues),
    decreases queues.len(),
{
    if queues.len() == 0 {
        assert(shutdown_all(queues) =~= Seq::<Seq<JobType<C>>>::empty());
    } else {
        assert(shutdown_all(queues)[0] == queues[0].push(JobType::Shutdown));
        lemma_data_prefix_push_shutdown(queues[0]);
        assert(shutdown_all(queues).skip(1) =~= shutdown_all(queues.skip(1)));
        lemma_executed_shutdown_all(queues.skip(1));
    }
}

/// Enqueueing one job on one worker queue grows the pooled executed jobs by
/// at most that one job.
proof fn lemma_executed_push_data<C>(queues: Seq<Seq<JobType<C>>>, i: int, job: Job<C>)
    requires
        0 <= i < queues.len(),
    ensures
        executed_jobs_of(queues.update(i, queues[i].push(JobType::Data(job)))).subset_of(
            executed_jobs_of(queues).insert(job),
        ),
    decreases queues.len(),
{
    broadcast use vstd::seq_lib::group_to_multiset_ensures;

    let grown = queues.update(i, queues[i].push(JobType::Data(job)));
    if i == 0 {
        assert(grown[0] == queues[0].push(JobType::Data(job)));
        assert(grown.skip(1) =~= queues.skip(1));
        lemma_data_prefix_push_data(queues[0], job);
        if has_shutdown(queues[0]) {
            assert forall|x: Job<C>|
                executed_jobs_of(grown).count(x) <= executed_jobs_of(queues).insert(job).count(
                    x,
                ) by {}
        } else {
            assert(data_prefix(grown[0]).to_multiset() =~= data_prefix(
                queues[0],
            ).to_multiset().insert(job));
            assert forall|x: Job<C>|
                executed_jobs_of(grown).count(x) <= executed_jobs_of(queues).insert(job).count(
                    x,
                ) by {}
        }
    } else {
        assert(grown[0] == queues[0]);
        assert(grown.skip(1) =~= queues.skip(1).update(
            i - 1,
            queues.skip(1)[i - 1].push(JobType::Data(job)),
        ));
        lemma_executed_push_data(queues.skip(1), i - 1, job);
        assert forall|x: Job<C>|
            executed_jobs_of(grown).count(x) <= executed_jobs_of(queues).insert(job).count(x) by {}
    }
}

/// At-most-once execution, stated over any starting queues: whatever jobs the
/// workers will execute after more intake is routed, they are among what the
/// queues already promised plus what the intake submits — never a job more.
pub proof fn lemma_at_most_once<C>(
    queues: Seq<Seq<JobType<C>>>,
    intake: Seq<JobType<C>>,
    index: int,
)
    requires
        0 <= index < queues.len(),
    ensures
        executed_jobs_of(route(queues, intake, index)).subset_of(
            executed_jobs_of(queues).add(submitted_jobs_of(intake)),
        ),
    decreases intake.len(),
{
    if intake.len() == 0 {
        assert forall|x: Job<C>|
            executed_jobs_of(route(queues, intake, index)).count(x) <= executed_jobs_of(
                queues,
            ).add(submitted_jobs_of(intake)).count(x) by {}
    } else if intake[0] is Data {
        let job = intake[0]->0;
        assert(intake[0] == JobType::Data(job));
        let pushed = queues.update(index, queues[index].push(JobType::Data(job)));
        lemma_at_most_once(pushed, intake.skip(1), wrap_index(index, queues.len() as int));
        lemma_executed_push_data(queues, index, job);
        assert(submitted_jobs_of(intake) == submitted_jobs_of(intake.skip(1)).insert(job));
        assert forall|x: Job<C>|
            executed_jobs_of(route(queues, intake, index)).count(x) <= executed_jobs_of(
                queues,
            ).add(submitted_jobs_of(intake)).count(x) by {
            assert(executed_jobs_of(route(queues, intake, index)).count(x) <= executed_jobs_of(
                pushed,
            ).add(submitted_jobs_of(intake.skip(1))).count(x));
            assert(executed_jobs_of(pushed).count(x) <= executed_jobs_of(queues).insert(
                job,
            ).count(x));
        }
    } else {
        lemma_executed_shutdown_all(queues);
        lemma_at_most_once(shutdown_all(queues), intake.skip(1), index);
        assert forall|x: Job<C>|
            executed_jobs_of(route(queues, intake, index)).count(x) <= executed_jobs_of(
                queues,
            ).add(submitted_jobs_of(intake)).count(x) by {}
    }
}

/// At-most-once execution for a fresh pool: across the whole pool lifetime,
/// the workers execute each submitted job at most once — a job is either run
/// by the one worker it was routed to, or lost to shutdown, never duplicated.
pub proof fn lemma_at_most_once_pool<C>(intake: Seq<JobType<C>>, max_workers: int)
    requires
        max_workers >= 1,
    ensures
        executed_jobs_of(routed_queues(intake, max_workers)).subset_of(submitted_jobs_of(intake)),
{
    lemma_executed_empty_queues::<C>(max_workers);
    lemma_at_most_once(empty_queues(max_workers), intake, 0);
    assert forall|x: Job<C>|
        executed_jobs_of(routed_queues(intake, max_workers)).count(x) <= submitted_jobs_of(
            intake,
        ).count(x) by {}
}

/// A pool that has been sent nothing will execute nothing.
proof fn lemma_executed_empty_queues<C>(max_workers: int)
    requires
        max_workers >= 0,
    ensures
        executed_jobs_of(empty_queues::<C>(max_workers)) == Multiset::<Job<C>>::empty(),
    decreases max_workers,
{
    broadcast use vstd::seq_lib::group_to_multiset_ensures;

    if max_workers == 0 {
    } else {
        let fresh = empty_queues::<C>(max_workers);
        assert(fresh[0] =~= Seq::<JobType<C>>::empty());
        assert(data_prefix(Seq::<JobType<C>>::empty()) =~= Seq::<Job<C>>::empty());
        assert(fresh.skip(1) =~= empty_queues::<C>(max_workers - 1));
        lemma_executed_empty_queues::<C>(max_workers - 1);
        assert forall|x: Job<C>| executed_jobs_of(fresh).count(x) == 0 by {
            assert(!Seq::<Job<C>>::empty().contains(x));
            assert(data_prefix(fresh[0]).to_multiset().count(x) == 0);
        }
        assert(executed_jobs_of(fresh) =~= Multiset::<Job<C>>::empty());
    }
}

} // verus!
