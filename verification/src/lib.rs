use vstd::prelude::*;

pub mod dispatcher;
pub mod laws;
pub mod worker;

verus! {

use crate::dispatcher::{Callable, Dispatcher, Job, JobType};
use crate::worker::{data_prefix, has_shutdown, Worker, WorkerReport};

/// Number of messages fed into the pool by `create_jobs_and_test`: the last
/// slot is taken by the shutdown sentinel, the rest by numbered jobs.
pub const MAX_JOBS: usize = 2000000;

/// Number of persistent workers of the pool run by `run_round_robin`.
pub const MAX_WORKERS: usize = 20;

/// Creates the intake channel through which callers feed the pool.
pub fn init<C>() -> (channel: Vec<JobType<C>>)
    ensures
        channel@ == Seq::<JobType<C>>::empty(),
{
    Vec::new()
}

/// Wraps a named callable as a job message, ready to be sent on the intake
/// channel. The callable is stored, not invoked.
pub fn create_job<C>(name: String, function: C) -> (message: JobType<C>)
    ensures
        message == (JobType::Data(Job { name, function })),
{
    JobType::Data(Job::new(name, function))
}

/// Signals a graceful shutdown by appending the sentinel to the intake
/// channel.
pub fn stop<C>(channel: &mut Vec<JobType<C>>)
    ensures
        final(channel)@ == old(channel)@.push(JobType::Shutdown),
{
    channel.push(JobType::Shutdown);
}

/// The round-robin cursor rule: worker indices cycle `0, 1, ..., n-1, 0, ...`.
pub open spec fn wrap_index(index: int, max_workers: int) -> int {
    if index == max_workers - 1 {
        0
    } else {
        index + 1
    }
}

/// Every queue with the shutdown sentinel appended: the effect of one
/// shutdown broadcast.
pub open spec fn shutdown_all<C>(queues: Seq<Seq<JobType<C>>>) -> Seq<Seq<JobType<C>>> {
    queues.map_values(|q: Seq<JobType<C>>| q.push(JobType::Shutdown))
}

/// Where the intake stream ends up: each job message is appended to the queue
/// under the cursor and the cursor advances; each shutdown message is
/// broadcast to every queue and leaves the cursor alone.
pub open spec fn route<C>(
    queues: Seq<Seq<JobType<C>>>,
    intake: Seq<JobType<C>>,
    index: int,
) -> Seq<Seq<JobType<C>>>
    decreases intake.len(),
{
    if intake.len() == 0 {
        queues
    } else {
        match intake[0] {
            JobType::Data(job) => route(
                queues.update(index, queues[index].push(JobType::Data(job))),
                intake.skip(1),
                wrap_index(index, queues.len() as int),
            ),
            JobType::Shutdown => route(shutdown_all(queues), intake.skip(1), index),
        }
    }
}

/// Routing never adds or removes a queue: only their contents grow.
pub proof fn lemma_route_len<C>(
    queues: Seq<Seq<JobType<C>>>,
    intake: Seq<JobType<C>>,
    index: int,
)
    requires
        0 <= index < queues.len(),
    ensures
        route(queues, intake, index).len() == queues.len(),
    decreases intake.len(),
{
    if intake.len() > 0 {
        if intake[0] is Data {
            let job = intake[0]->0;
            assert(intake[0] == JobType::Data(job));
            lemma_route_len(
                queues.update(index, queues[index].push(JobType::Data(job))),
                intake.skip(1),
                wrap_index(index, queues.len() as int),
            );
        } else {
            lemma_route_len(shutdown_all(queues), intake.skip(1), index);
        }
    }
}

/// `max_workers` empty queues, one per worker.
pub open spec fn empty_queues<C>(max_workers: int) -> Seq<Seq<JobType<C>>> {
    Seq::new(max_workers as nat, |i: int| Seq::<JobType<C>>::empty())
}

/// The queues of a fresh pool of `max_workers` workers after the whole intake
/// stream has been routed, cursor starting at worker 0.
pub open spec fn routed_queues<C>(intake: Seq<JobType<C>>, max_workers: int) -> Seq<
    Seq<JobType<C>>,
> {
    route(empty_queues(max_workers), intake, 0)
}

/// Advances the round-robin cursor by one worker, wrapping at the end.
pub fn next_index(index: usize, max_workers: usize) -> (next: usize)
    requires
        index < max_workers,
    ensures
        next == wrap_index(index as int, max_workers as int),
        next < max_workers,
{
    if index == max_workers - 1 {
        0
    } else {
        index + 1
    }
}

/// The same elements back to front; lets a loop consume a vector front first
/// by popping.
fn reversed<T>(items: Vec<T>) -> (rev: Vec<T>)
    ensures
        rev@ == items@.reverse(),
{
    let mut items = items;
    let mut rev: Vec<T> = Vec::new();
    let ghost original = items@;
    while items.len() > 0
        invariant
            items@ == original.take(items@.len() as int),
            rev@.len() + items@.len() == original.len(),
            forall|j: int| 0 <= j < rev@.len() ==> rev@[j] == original[original.len() - 1 - j],
        decreases items@.len(),
    {
        let ghost before = items@;
        let x = items.pop().unwrap();
        rev.push(x);
        proof {
            assert(items@ =~= original.take(items@.len() as int));
        }
    }
    proof {
        assert(rev@ =~= original.reverse());
    }
    rev
}

/// Creates one queue per worker, all empty, before any worker consumes them.
pub fn create_worker_pool<C>(max_workers: usize) -> (pool: Vec<Vec<JobType<C>>>)
    ensures
        pool@.len() == max_workers,
        forall|i: int| 0 <= i < max_workers ==> pool@[i]@ == Seq::<JobType<C>>::empty(),
{
    let mut pool: Vec<Vec<JobType<C>>> = Vec::new();
    while pool.len() < max_workers
        invariant
            pool@.len() <= max_workers,
            forall|i: int| 0 <= i < pool@.len() ==> pool@[i]@ == Seq::<JobType<C>>::empty(),
        decreases max_workers - pool@.len(),
    {
        pool.push(Vec::new());
    }
    pool
}

/// The intake loop: consumes the whole intake stream in arrival order,
/// sending each job to the worker under the round-robin cursor and
/// broadcasting each shutdown message to every worker. The cursor is owned
/// here, not by the dispatcher, which stays a stateless addressed-send
/// primitive.
pub fn waiting_for_jobs<C>(receiver: Vec<JobType<C>>, dispatcher: Dispatcher<C>) -> (routed:
    Dispatcher<C>)
    requires
        dispatcher@.len() >= 1,
    ensures
        routed@ == route(dispatcher@, receiver@, 0),
{
    let ghost initial = dispatcher@;
    let ghost intake = receiver@;
    let mut dispatcher = dispatcher;
    let n = dispatcher.len();
    let mut index: usize = 0;
    let mut remaining = reversed(receiver);
    proof {
        assert(remaining@.reverse() =~= intake);
    }
    while remaining.len() > 0
        invariant
            n == dispatcher@.len(),
            n >= 1,
            index < n,
            route(initial, intake, 0) == route(dispatcher@, remaining@.reverse(), index as int),
        decreases remaining@.len(),
    {
        let ghost before = dispatcher@;
        let ghost rest = remaining@.reverse();
        let message = remaining.pop().unwrap();
        proof {
            assert(rest[0] == message);
            assert(remaining@.reverse() =~= rest.skip(1));
        }
        match message {
            JobType::Data(job) => {
                dispatcher.dispatch(job, index);
                index = next_index(index, n);
            },
            JobType::Shutdown => {
                dispatcher.graceful_shutdown();
                proof {
                    assert(dispatcher@ =~= shutdown_all(before));
                }
            },
        }
    }
    proof {
        assert(remaining@.reverse() =~= Seq::<JobType<C>>::empty());
    }
    dispatcher
}

/// Decimal digits of `n`, most significant first.
pub open spec fn decimal_of(n: nat) -> Seq<char>
    decreases n,
{
    if n < 10 {
        seq![digit_char(n)]
    } else {
        decimal_of(n / 10).push(digit_char(n % 10))
    }
}

/// The character for one decimal digit.
pub open spec fn digit_char(d: nat) -> char {
    (d + 48) as char
}

/// Relies on std's `format!`: formatting a `u64` with `{}` yields exactly its
/// decimal digits.
#[verifier::external_body]
fn decimal_string(n: u64) -> (text: String)
    ensures
        text@ == decimal_of(n as nat),
{
    format!("{}", n)
}

/// Relies on std's `format!`: `job: {n}` yields the prefix `job: ` followed
/// by the decimal digits of `n`.
#[verifier::external_body]
fn job_name(n: u64) -> (text: String)
    ensures
        text@ == "job: "@ + decimal_of(n as nat),
{
    format!("job: {}", n)
}

/// Runs a whole pool lifecycle on one intake stream: creates `max_workers`
/// worker queues, routes the stream round-robin through a dispatcher, and
/// runs every worker to termination, collecting their reports in worker
/// order. Worker identities count from 1, as the pool spawns them.
pub fn run_pool<C: Callable>(receiver: Vec<JobType<C>>, max_workers: usize) -> (reports: Vec<
    WorkerReport,
>)
    requires
        max_workers >= 1,
    ensures
        reports@.len() == max_workers,
        forall|i: int| #![auto] 0 <= i < max_workers ==> reports@[i].id == i + 1,
        forall|i: int| #![auto] 0 <= i < max_workers ==> reports@[i].state is Stopped,
        forall|i: int| #![auto]
            0 <= i < max_workers ==> (reports@[i].reason is Graceful <==> has_shutdown(
                routed_queues(receiver@, max_workers as int)[i],
            )),
        forall|i: int| #![auto]
            0 <= i < max_workers ==> reports@[i].executed@.len() == data_prefix(
                routed_queues(receiver@, max_workers as int)[i],
            ).len(),
        forall|i: int, k: int| #![auto]
            0 <= i < max_workers && 0 <= k < reports@[i].executed@.len()
                ==> reports@[i].executed@[k].name == data_prefix(
                routed_queues(receiver@, max_workers as int)[i],
            )[k].name,
{
    let ghost intake = receiver@;
    let pool = create_worker_pool(max_workers);
    let dispatcher = Dispatcher::new(pool);
    proof {
        assert(dispatcher@ =~= empty_queues(max_workers as int));
    }
    let dispatcher = waiting_for_jobs(receiver, dispatcher);
    let ghost routed = routed_queues(intake, max_workers as int);
    let queues = dispatcher.into_senders();
    let ghost qv = queues@;
    proof {
        lemma_route_len(empty_queues(max_workers as int), intake, 0);
        assert(crate::dispatcher::views_of(qv).len() == qv.len());
    }
    let mut rest = reversed(queues);
    proof {
        assert(rest@ =~= qv.reverse());
    }
    let mut reports: Vec<WorkerReport> = Vec::new();
    while rest.len() > 0
        invariant
            qv.len() == max_workers,
            crate::dispatcher::views_of(qv) == routed,
            reports@.len() + rest@.len() == max_workers,
            rest@ =~= qv.reverse().take(rest@.len() as int),
            forall|i: int| #![auto] 0 <= i < reports@.len() ==> reports@[i].id == i + 1,
            forall|i: int| #![auto] 0 <= i < reports@.len() ==> reports@[i].state is Stopped,
            forall|i: int| #![auto]
                0 <= i < reports@.len() ==> (reports@[i].reason is Graceful <==> has_shutdown(
                    routed[i],
                )),
            forall|i: int| #![auto]
                0 <= i < reports@.len() ==> reports@[i].executed@.len() == data_prefix(
                    routed[i],
                ).len(),
            forall|i: int, k: int| #![auto]
                0 <= i < reports@.len() && 0 <= k < reports@[i].executed@.len()
                    ==> reports@[i].executed@[k].name == data_prefix(routed[i])[k].name,
        decreases rest@.len(),
    {
        let ghost slot = reports@.len() as int;
        let queue = rest.pop().unwrap();
        proof {
            assert(queue == qv[slot]);
            assert(queue@ == routed[slot]);
            assert(rest@ =~= qv.reverse().take(rest@.len() as int));
        }
        let id = reports.len() + 1;
        let worker = Worker::new(queue, id, decimal_string(id as u64));
        let report = worker.run();
        reports.push(report);
    }
    reports
}

/// The callable of the self-test jobs: yields its own number in decimal.
pub struct NumberCallable {
    pub n: u64,
}

impl Callable for NumberCallable {
    fn call(&self) -> (outcome: Result<String, String>)
        ensures
            outcome matches Ok(text) && text@ == decimal_of(self.n as nat),
    {
        Ok(decimal_string(self.n))
    }
}

/// Fills the intake channel with the standard self-test traffic: jobs
/// numbered `0` up to `MAX_JOBS - 2`, each named after its number, with the
/// shutdown sentinel taking the last of the `MAX_JOBS` slots.
pub fn create_jobs_and_test(tx: &mut Vec<JobType<NumberCallable>>)
    ensures
        final(tx)@.len() == old(tx)@.len() + MAX_JOBS,
        final(tx)@.take(old(tx)@.len() as int) == old(tx)@,
        forall|k: int|
            0 <= k < MAX_JOBS - 1 ==> {
                &&& (#[trigger] final(tx)@[old(tx)@.len() + k]) is Data
                &&& final(tx)@[old(tx)@.len() + k]->0.name@ == "job: "@ + decimal_of(k as nat)
                &&& final(tx)@[old(tx)@.len() + k]->0.function == (NumberCallable { n: k as u64 })
            },
        final(tx)@[old(tx)@.len() + MAX_JOBS - 1] is Shutdown,
{
    let ghost base = old(tx)@;
    let mut n: usize = 0;
    while n < MAX_JOBS - 1
        invariant
            n <= MAX_JOBS - 1,
            tx@.len() == base.len() + n,
            tx@.take(base.len() as int) == base,
            forall|k: int|
                0 <= k < n ==> {
                    &&& (#[trigger] tx@[base.len() + k]) is Data
                    &&& tx@[base.len() + k]->0.name@ == "job: "@ + decimal_of(k as nat)
                    &&& tx@[base.len() + k]->0.function == (NumberCallable { n: k as u64 })
                },
        decreases MAX_JOBS - 1 - n,
    {
        let message = create_job(job_name(n as u64), NumberCallable { n: n as u64 });
        tx.push(message);
        proof {
            assert(tx@.take(base.len() as int) =~= base);
        }
        n = n + 1;
    }
    stop(tx);
    proof {
        assert(tx@.take(base.len() as int) =~= base);
    }
}

/// Runs the standard pool of `MAX_WORKERS` workers over the intake stream.
pub fn run_round_robin<C: Callable>(receiver: Vec<JobType<C>>) -> (reports: Vec<WorkerReport>)
    ensures
        reports@.len() == MAX_WORKERS,
        forall|i: int| #![auto] 0 <= i < MAX_WORKERS ==> reports@[i].id == i + 1,
        forall|i: int| #![auto] 0 <= i < MAX_WORKERS ==> reports@[i].state is Stopped,
        forall|i: int| #![auto]
            0 <= i < MAX_WORKERS ==> (reports@[i].reason is Graceful <==> has_shutdown(
                routed_queues(receiver@, MAX_WORKERS as int)[i],
            )),
        forall|i: int| #![auto]
            0 <= i < MAX_WORKERS ==> reports@[i].executed@.len() == data_prefix(
                routed_queues(receiver@, MAX_WORKERS as int)[i],
            ).len(),
        forall|i: int, k: int| #![auto]
            0 <= i < MAX_WORKERS && 0 <= k < reports@[i].executed@.len()
                ==> reports@[i].executed@[k].name == data_prefix(
                routed_queues(receiver@, MAX_WORKERS as int)[i],
            )[k].name,
{
    run_pool(receiver, MAX_WORKERS)
}

} // verus!
