use vstd::prelude::*;

verus! {

/// A caller-supplied unit of work.
///
/// The pool treats the work itself as opaque: running it yields either a
/// success payload or an error message, and nothing more is assumed of it.
pub trait Callable {
    fn call(&self) -> Result<String, String>;
}

/// An immutable named unit of work wrapping a zero-argument callable.
pub struct Job<C> {
    pub name: String,
    pub function: C,
}

/// The message envelope carried on every channel of the pool: either a job
/// payload or the shutdown sentinel, which carries no job.
pub enum JobType<C> {
    Data(Job<C>),
    Shutdown,
}

impl<C> Job<C> {
    /// Stores the callable without invoking it.
    pub fn new(name: String, function: C) -> (job: Job<C>)
        ensures
            job.name == name,
            job.function == function,
    {
        Job { name, function }
    }
}

/// The view of each queue in a sequence of worker channels, in slot order.
pub open spec fn views_of<C>(queues: Seq<Vec<JobType<C>>>) -> Seq<Seq<JobType<C>>> {
    queues.map_values(|q: Vec<JobType<C>>| q@)
}

/// The sequence-of-queues abstraction of a vector of worker channels: queue
/// `i` is the pending traffic of worker `i`, oldest message first.
pub open spec fn queues_of<C>(senders: Vec<Vec<JobType<C>>>) -> Seq<Seq<JobType<C>>> {
    views_of(senders@)
}

/// Performs addressed sends of messages to a specific worker's queue and
/// broadcasts shutdown. It holds one send slot per worker, indexed from 0,
/// and never changes the number of slots after construction; routing policy
/// is entirely the caller's.
pub struct Dispatcher<C> {
    senders: Vec<Vec<JobType<C>>>,
}

impl<C> View for Dispatcher<C> {
    type V = Seq<Seq<JobType<C>>>;

    closed spec fn view(&self) -> Seq<Seq<JobType<C>>> {
        queues_of(self.senders)
    }
}

impl<C> Dispatcher<C> {
    pub fn new(senders: Vec<Vec<JobType<C>>>) -> (dispatcher: Dispatcher<C>)
        ensures
            dispatcher@ == queues_of(senders),
    {
        Dispatcher { senders }
    }

    /// The number of worker slots, fixed at construction.
    pub fn len(&self) -> (count: usize)
        ensures
            count == self@.len(),
    {
        self.senders.len()
    }

    /// Enqueues `Data(job)` on the worker queue at `index`; every other queue
    /// is left as it was. Calling with an index outside `0..len` is a
    /// programming error, excluded by precondition.
    pub fn dispatch(&mut self, job: Job<C>, index: usize)
        requires
            index < old(self)@.len(),
        ensures
            final(self)@ == old(self)@.update(
                index as int,
                old(self)@[index as int].push(JobType::Data(job)),
            ),
    {
        let mut queue = self.senders.remove(index);
        queue.push(JobType::Data(job));
        self.senders.insert(index, queue);
        proof {
            assert(final(self)@ =~~= old(self)@.update(
                index as int,
                old(self)@[index as int].push(JobType::Data(job)),
            ));
        }
    }

    /// Broadcasts the shutdown sentinel to every worker queue, in index
    /// order: all workers are signaled, not just one.
    pub fn graceful_shutdown(&mut self)
        ensures
            final(self)@.len() == old(self)@.len(),
            forall|i: int|
                0 <= i < old(self)@.len() ==> final(self)@[i] == old(self)@[i].push(
                    JobType::<C>::Shutdown,
                ),
    {
        let ghost original = self@;
        let mut index: usize = 0;
        while index < self.senders.len()
            invariant
                index <= self@.len(),
                self@.len() == original.len(),
                forall|i: int|
                    0 <= i < index ==> self@[i] == original[i].push(JobType::<C>::Shutdown),
                forall|i: int| index <= i < original.len() ==> self@[i] == original[i],
            decreases self@.len() - index,
        {
            let ghost before = self@;
            let mut queue = self.senders.remove(index);
            queue.push(JobType::Shutdown);
            self.senders.insert(index, queue);
            proof {
                assert(self@ =~~= before.update(
                    index as int,
                    before[index as int].push(JobType::<C>::Shutdown),
                ));
            }
            index = index + 1;
        }
    }

    /// Hands the accumulated worker queues back, in slot order, so that each
    /// worker can consume its own traffic.
    pub fn into_senders(self) -> (senders: Vec<Vec<JobType<C>>>)
        ensures
            queues_of(senders) == self@,
    {
        self.senders
    }
}

} // verus!
