//! The task queue of a thread pool and the decision each worker makes on
//! every turn of its loop.
use vstd::prelude::*;
use std::collections::VecDeque;

verus! {

/// Tasks waiting for a worker, oldest first.
pub struct TaskQueue<T> {
    tasks: VecDeque<T>,
}

impl<T> View for TaskQueue<T> {
    type V = Seq<T>;

    closed spec fn view(&self) -> Seq<T> {
        self.tasks@
    }
}

impl<T> TaskQueue<T> {
    /// An empty queue.
    pub fn new() -> (q: Self)
        ensures
            q@ == Seq::<T>::empty(),
    {
        TaskQueue { tasks: VecDeque::new() }
    }

    /// Adds a task behind all the others.
    pub fn submit(&mut self, task: T)
        ensures
            final(self)@ == old(self)@.push(task),
    {
        self.tasks.push_back(task);
    }

    /// Removes and returns the oldest task, if there is one.
    pub fn take(&mut self) -> (r: Option<T>)
        ensures
            old(self)@.len() == 0 ==> r is None && final(self)@ == old(self)@,
            old(self)@.len() > 0 ==> r == Some(old(self)@[0]) && final(self)@ == old(self)@.drop_first(),
    {
        let r = self.tasks.pop_front();
        proof {
            if old(self)@.len() > 0 {
                assert(old(self)@.subrange(1, old(self)@.len() as int) =~= old(self)@.drop_first());
            }
        }
        r
    }

    /// The number of waiting tasks.
    pub fn len(&self) -> (n: usize)
        ensures
            n == self@.len(),
    {
        self.tasks.len()
    }

    /// Whether no task is waiting.
    pub fn is_empty(&self) -> (r: bool)
        ensures
            r == (self@.len() == 0),
    {
        self.tasks.len() == 0
    }
}

/// What a worker does on one turn of its loop.
pub enum WorkerStep<T> {
    /// Run the task taken from the queue and continue the loop.
    Run(T),
    /// The queue was empty: sleep a while and continue the loop.
    Sleep,
    /// The pool is stopping: leave the loop.
    Exit,
}

/// One turn of a worker's loop: leave if the pool is stopping; otherwise
/// take the oldest task to run, or sleep if there is none.
pub fn worker_step<T>(stopping: bool, queue: &mut TaskQueue<T>) -> (r: WorkerStep<T>)
    ensures
        stopping ==> r is Exit && final(queue)@ == old(queue)@,
        !stopping && old(queue)@.len() == 0 ==> r is Sleep && final(queue)@ == old(queue)@,
        !stopping && old(queue)@.len() > 0 ==> r == WorkerStep::Run(old(queue)@[0]) && final(queue)@ == old(
            queue,
        )@.drop_first(),
{
    if stopping {
        WorkerStep::Exit
    } else {
        match queue.take() {
            Some(task) => WorkerStep::Run(task),
            None => WorkerStep::Sleep,
        }
    }
}

/// An operation on the queue: a submission, or a worker taking a task.
pub enum QueueOp<T> {
    /// A task is submitted.
    Submit(T),
    /// A worker takes the oldest task, if any.
    Take,
}

/// The queue and the tasks taken so far, in the order taken, after `ops`
/// from an empty queue.
pub open spec fn queue_run<T>(ops: Seq<QueueOp<T>>) -> (Seq<T>, Seq<T>)
    decreases ops.len(),
{
    if ops.len() == 0 {
        (Seq::empty(), Seq::empty())
    } else {
        let (queue, taken) = queue_run(ops.drop_last());
        match ops.last() {
            QueueOp::Submit(t) => (queue.push(t), taken),
            QueueOp::Take => if queue.len() == 0 {
                (queue, taken)
            } else {
                (queue.drop_first(), taken.push(queue[0]))
            },
        }
    }
}

/// The tasks submitted by `ops`, in order.
pub open spec fn submitted<T>(ops: Seq<QueueOp<T>>) -> Seq<T>
    decreases ops.len(),
{
    if ops.len() == 0 {
        Seq::empty()
    } else {
        match ops.last() {
            QueueOp::Submit(t) => submitted(ops.drop_last()).push(t),
            QueueOp::Take => submitted(ops.drop_last()),
        }
    }
}

/// Tasks are taken in the order they were submitted, none is lost and none
/// is taken twice: after any sequence of submissions and takes, the tasks
/// taken followed by those still waiting are exactly the tasks submitted.
pub proof fn lemma_queue_fifo<T>(ops: Seq<QueueOp<T>>)
    ensures
        queue_run(ops).1 + queue_run(ops).0 == submitted(ops),
    decreases ops.len(),
{
    if ops.len() > 0 {
        lemma_queue_fifo(ops.drop_last());
        let (queue, taken) = queue_run(ops.drop_last());
        match ops.last() {
            QueueOp::Submit(t) => {
                assert(taken + queue.push(t) =~= (taken + queue).push(t));
            },
            QueueOp::Take => {
                if queue.len() > 0 {
                    assert(taken.push(queue[0]) + queue.drop_first() =~= taken + queue);
                }
            },
        }
    }
}

} // verus!
