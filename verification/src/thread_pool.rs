//! Worker-pool model: the shared FIFO queue that feeds the workers, and the
//! decision a worker takes on each receive. The queue stands for the
//! channel the runtime pool shares between the accept loop and its workers:
//! sending a task is a push, a worker's receive is a pop, and dropping the
//! sending side is a close. The threads themselves belong to the runtime
//! embedding, which drives this model and joins every worker on teardown.

use vstd::prelude::*;

verus! {

/// The ordered multi-producer/multi-consumer task queue, with the state of
/// its sending side.
pub struct TaskQueue<T> {
    pub tasks: Vec<T>,
    pub closed: bool,
}

impl<T> TaskQueue<T> {
    /// An open, empty queue.
    pub fn new() -> (r: TaskQueue<T>)
        ensures
            r.tasks@ == Seq::<T>::empty(),
            !r.closed,
    {
        TaskQueue { tasks: Vec::new(), closed: false }
    }

    /// Enqueue a task at the back; only an open queue accepts one.
    pub fn push(&mut self, t: T)
        requires
            !old(self).closed,
        ensures
            final(self).tasks@ == old(self).tasks@.push(t),
            !final(self).closed,
    {
        self.tasks.push(t);
    }

    /// Dequeue the oldest task: FIFO delivery, each task handed out at most
    /// once. An empty queue hands out nothing.
    pub fn pop(&mut self) -> (r: Option<T>)
        ensures
            final(self).closed == old(self).closed,
            match r {
                Some(t) => old(self).tasks@.len() > 0 && t == old(self).tasks@[0]
                    && final(self).tasks@ == old(self).tasks@.drop_first(),
                None => old(self).tasks@.len() == 0 && final(self).tasks@ == old(self).tasks@,
            },
    {
        if self.tasks.len() == 0 {
            None
        } else {
            let t = self.tasks.remove(0);
            proof {
                assert(self.tasks@ =~= old(self).tasks@.drop_first());
            }
            Some(t)
        }
    }

    /// Close the sending side: no further task will be accepted, and a
    /// worker that finds the queue closed and drained exits.
    pub fn close(&mut self)
        ensures
            final(self).tasks@ == old(self).tasks@,
            final(self).closed,
    {
        self.closed = true;
    }

    /// Whether a worker blocked on this queue is done: the sending side is
    /// closed and every task has been handed out.
    pub fn finished(&self) -> (r: bool)
        ensures
            r == (self.closed && self.tasks@.len() == 0),
    {
        self.closed && self.tasks.len() == 0
    }

    /// Hand out every queued task: they come out exactly once each, in the
    /// order they were submitted, and the queue is left empty.
    pub fn drain(&mut self) -> (r: Vec<T>)
        ensures
            r@ == old(self).tasks@,
            final(self).tasks@.len() == 0,
            final(self).closed == old(self).closed,
    {
        let mut out: Vec<T> = Vec::new();
        proof {
            assert(out@ + self.tasks@ =~= self.tasks@);
        }
        loop
            invariant
                out@ + self.tasks@ == old(self).tasks@,
                self.closed == old(self).closed,
            ensures
                out@ == old(self).tasks@,
                self.tasks@.len() == 0,
                self.closed == old(self).closed,
            decreases self.tasks@.len(),
        {
            let ghost before = self.tasks@;
            match self.pop() {
                Some(t) => {
                    let ghost old_out = out@;
                    out.push(t);
                    proof {
                        assert(old_out.push(t) + before.drop_first() =~= old_out + before);
                    }
                },
                None => {
                    proof {
                        assert(out@ + self.tasks@ =~= out@);
                    }
                    break ;
                },
            }
        }
        out
    }
}

/// What a worker does with the outcome of one receive: run the task it was
/// handed, or exit its loop when the channel reports no more tasks.
#[derive(Debug, PartialEq, Eq)]
pub enum WorkerAction<T> {
    Run(T),
    Exit,
}

/// The worker-loop decision: a received task is run; a closed, drained
/// queue ends the worker.
pub fn worker_step<T>(received: Option<T>) -> (r: WorkerAction<T>)
    ensures
        match received {
            Some(t) => r == WorkerAction::Run(t),
            None => r == WorkerAction::<T>::Exit,
        },
{
    match received {
        Some(t) => WorkerAction::Run(t),
        None => WorkerAction::Exit,
    }
}

} // verus!
