use vstd::prelude::*;

verus! {

use crate::dispatcher::{Callable, Job, JobType};

/// The worker state machine: a worker keeps `Running` until it observes the
/// shutdown sentinel or its queue runs dry, and is then `Stopped` for good.
pub enum WorkerState {
    Running,
    Stopped,
}

/// Why a worker stopped.
pub enum StopReason {
    /// The shutdown sentinel was received.
    Graceful,
    /// The queue ran dry with no sentinel left to come: no sender remains.
    Disconnected,
}

/// What a worker records for one executed job: the job's name and whatever
/// its callable returned.
pub struct JobOutcome {
    pub name: String,
    pub result: Result<String, String>,
}

/// What a worker hands back once its loop has stopped.
pub struct WorkerReport {
    pub id: usize,
    pub name: String,
    pub executed: Vec<JobOutcome>,
    pub state: WorkerState,
    pub reason: StopReason,
}

/// The jobs a worker actually executes from its queue: every job ahead of the
/// first shutdown sentinel, in queue order. Messages behind the sentinel are
/// never delivered; that is accepted lost work.
pub open spec fn data_prefix<C>(queue: Seq<JobType<C>>) -> Seq<Job<C>>
    decreases queue.len(),
{
    if queue.len() == 0 {
        Seq::empty()
    } else {
        match queue[0] {
            JobType::Data(job) => seq![job] + data_prefix(queue.skip(1)),
            JobType::Shutdown => Seq::empty(),
        }
    }
}

/// Whether the shutdown sentinel sits anywhere in the queue.
pub open spec fn has_shutdown<C>(queue: Seq<JobType<C>>) -> bool {
    exists|i: int| 0 <= i < queue.len() && queue[i] is Shutdown
}

/// How a scan that saw `count` jobs and then stopped pins down `data_prefix`
/// and `has_shutdown`: the executed jobs are exactly the first `count`
/// messages, and a sentinel was seen if and only if the scan stopped short of
/// the queue's end.
pub proof fn lemma_queue_shape<C>(queue: Seq<JobType<C>>, count: int)
    requires
        0 <= count <= queue.len(),
        forall|k: int| 0 <= k < count ==> queue[k] is Data,
        count == queue.len() || queue[count] is Shutdown,
    ensures
        data_prefix(queue).len() == count,
        forall|k: int| 0 <= k < count ==> data_prefix(queue)[k] == queue[k]->0,
        has_shutdown(queue) <==> count < queue.len(),
    decreases count,
{
    if count == 0 {
        if queue.len() == 0 {
            assert(!has_shutdown(queue));
        } else {
            assert(queue[0] is Shutdown);
            assert(has_shutdown(queue));
        }
    } else {
        let rest = queue.skip(1);
        assert(queue[0] is Data);
        assert forall|k: int| 0 <= k < count - 1 implies rest[k] is Data by {
            assert(rest[k] == queue[k + 1]);
        }
        if count < queue.len() {
            assert(rest[count - 1] == queue[count]);
        }
        lemma_queue_shape(rest, count - 1);
        assert(data_prefix(queue) == seq![queue[0]->0] + data_prefix(rest));
        assert forall|k: int| 0 <= k < count implies data_prefix(queue)[k] == queue[k]->0 by {
            if k > 0 {
                assert(data_prefix(queue)[k] == data_prefix(rest)[k - 1]);
                assert(rest[k - 1] == queue[k]);
            }
        }
        if has_shutdown(queue) {
            let j = choose|j: int| 0 <= j < queue.len() && queue[j] is Shutdown;
            assert(j != 0);
            assert(rest[j - 1] is Shutdown);
            assert(has_shutdown(rest));
        }
        if has_shutdown(rest) {
            let j = choose|j: int| 0 <= j < rest.len() && rest[j] is Shutdown;
            assert(queue[j + 1] is Shutdown);
            assert(has_shutdown(queue));
        }
    }
}

/// A long-lived consumer of one dedicated queue. The worker owns its
/// receiving side exclusively; its numeric identity and display name are for
/// diagnostics only.
pub struct Worker<C> {
    receiver: Vec<JobType<C>>,
    id: usize,
    name: String,
}

impl<C> View for Worker<C> {
    type V = Seq<JobType<C>>;

    closed spec fn view(&self) -> Seq<JobType<C>> {
        self.receiver@
    }
}

impl<C> Worker<C> {
    pub closed spec fn spec_id(&self) -> usize {
        self.id
    }

    pub closed spec fn spec_name(&self) -> String {
        self.name
    }

    pub fn new(receiver: Vec<JobType<C>>, id: usize, name: String) -> (worker: Worker<C>)
        ensures
            worker@ == receiver@,
            worker.spec_id() == id,
            worker.spec_name() == name,
    {
        Worker { receiver, id, name }
    }
}

/// One transition of the worker state machine. A job message is executed
/// synchronously — its callable is invoked exactly once here, and a failure
/// is recorded in the outcome, never propagated — and the worker may keep
/// running; the shutdown sentinel yields `None`: stop.
pub fn worker_step<C: Callable>(message: &JobType<C>) -> (outcome: Option<JobOutcome>)
    ensures
        outcome is Some <==> *message is Data,
        *message matches JobType::Data(job) ==> outcome matches Some(done) && done.name
            == job.name,
{
    match message {
        JobType::Data(job) => {
            let result = job.function.call();
            Some(JobOutcome { name: job.name.clone(), result })
        },
        JobType::Shutdown => None,
    }
}

impl<C: Callable> Worker<C> {
    /// Runs the worker loop to termination. Every job ahead of the first
    /// shutdown sentinel is executed, in queue order, whether or not earlier
    /// jobs failed: one failed job never costs the worker its place in the
    /// pool. The worker always reaches `Stopped` — gracefully if the sentinel
    /// was present, as a dry disconnect otherwise.
    pub fn run(self) -> (report: WorkerReport)
        ensures
            report.id == self.spec_id(),
            report.name == self.spec_name(),
            report.state is Stopped,
            report.reason is Graceful <==> has_shutdown(self@),
            report.executed@.len() == data_prefix(self@).len(),
            forall|k: int|
                0 <= k < report.executed@.len() ==> report.executed@[k].name == data_prefix(
                    self@,
                )[k].name,
    {
        let n = self.receiver.len();
        let mut executed: Vec<JobOutcome> = Vec::new();
        let mut index: usize = 0;
        let mut reason = StopReason::Disconnected;
        loop
            invariant_except_break
                index <= n,
                n == self@.len(),
                executed@.len() == index,
                reason is Disconnected,
                forall|k: int| 0 <= k < index ==> self@[k] is Data,
                forall|k: int| 0 <= k < index ==> executed@[k].name == self@[k]->0.name,
            ensures
                index <= n,
                n == self@.len(),
                executed@.len() == index,
                forall|k: int| 0 <= k < index ==> self@[k] is Data,
                forall|k: int| 0 <= k < index ==> executed@[k].name == self@[k]->0.name,
                index == n || self@[index as int] is Shutdown,
                reason is Graceful <==> index < n,
            decreases n - index,
        {
            if index == n {
                break;
            }
            match worker_step(&self.receiver[index]) {
                Some(outcome) => {
                    executed.push(outcome);
                    index = index + 1;
                },
                None => {
                    reason = StopReason::Graceful;
                    break;
                },
            }
        }
        proof {
            lemma_queue_shape(self@, index as int);
        }
        WorkerReport {
            id: self.id,
            name: self.name,
            executed,
            state: WorkerState::Stopped,
            reason,
        }
    }
}

} // verus!
