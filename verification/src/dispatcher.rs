//! The dispatch queue's decision logic.
//!
//! Recording call sites hand tasks to a single-consumer queue. Until the
//! queue is flushed for the first time, tasks pile up in a bounded
//! pre-initialization buffer; the first flush runs the buffered tasks up
//! to the bound and reports how many were beyond it. The actual execution
//! of tasks is the embedder's concern: this type decides, for each event,
//! what to do and in which order tasks run.

use vstd::prelude::*;

verus! {

/// An error from the dispatch queue.
#[derive(Copy, Clone, Debug, PartialEq, Eq, Structural)]
pub enum DispatchError {
    /// The pre-initialization buffer was already flushed.
    AlreadyFlushed,
}

/// Where the queue stands with respect to its first flush.
#[derive(Copy, Clone, Debug, PartialEq, Eq, Structural)]
pub enum FlushState {
    /// The pre-initialization buffer has not been flushed yet.
    NotFlushed,
    /// The buffer was flushed: tasks now run directly.
    IsFlushed,
    /// The queue was shut down.
    Shutdown,
}

/// What to do with a newly launched task.
#[derive(Copy, Clone, Debug, PartialEq, Eq, Structural)]
pub enum LaunchAction {
    /// Hand the task to the worker right away.
    RunNow,
    /// The task was buffered until the first flush.
    Queued,
}

/// The dispatch queue's state: its flush phase, the bound on the
/// pre-initialization buffer, and the buffered task handles.
#[derive(Debug)]
pub struct DispatchState {
    flushed: FlushState,
    max_queue_size: usize,
    preinit: Vec<u64>,
}

impl DispatchState {
    /// The current flush phase.
    pub closed spec fn flushed(self) -> FlushState {
        self.flushed
    }

    /// The buffered task handles, oldest first.
    pub closed spec fn queue(self) -> Seq<u64> {
        self.preinit@
    }

    /// The bound the queue was created with.
    pub closed spec fn max_size(self) -> int {
        self.max_queue_size as int
    }

    /// Creates a new dispatcher state with a maximum queue size.
    ///
    /// Launched tasks are buffered until [`DispatchState::flush_init`] is
    /// called.
    pub fn new(max_queue_size: usize) -> (r: DispatchState)
        ensures
            r.flushed() == FlushState::NotFlushed,
            r.queue() == Seq::<u64>::empty(),
            r.max_size() == max_queue_size,
    {
        let r = DispatchState { flushed: FlushState::NotFlushed, max_queue_size, preinit: Vec::new() };
        proof {
            assert(r.queue() =~= Seq::<u64>::empty());
        }
        r
    }

    /// Decide what to do with a launched task: run it right away once the
    /// queue is flushed, buffer it otherwise.
    pub fn launch(&mut self, task: u64) -> (a: LaunchAction)
        ensures
            final(self).flushed() == old(self).flushed(),
            final(self).max_size() == old(self).max_size(),
            old(self).flushed() == FlushState::IsFlushed ==> a == LaunchAction::RunNow && final(self).queue() == old(self).queue(),
            old(self).flushed() != FlushState::IsFlushed ==> a == LaunchAction::Queued && final(self).queue() == old(self).queue().push(task),
    {
        if self.flushed == FlushState::IsFlushed {
            LaunchAction::RunNow
        } else {
            self.preinit.push(task);
            LaunchAction::Queued
        }
    }

    /// Flush the pre-initialization buffer.
    ///
    /// Fails when the queue is past its first flush. Otherwise returns the
    /// tasks to run now — the buffered tasks in launch order, up to the
    /// bound — together with the count of tasks beyond the bound, which
    /// stay buffered and never run; afterwards launched tasks run
    /// directly.
    pub fn flush_init(&mut self) -> (r: Result<(Vec<u64>, usize), DispatchError>)
        ensures
            final(self).max_size() == old(self).max_size(),
            old(self).flushed() != FlushState::NotFlushed ==> {
                &&& r == Err::<(Vec<u64>, usize), DispatchError>(DispatchError::AlreadyFlushed)
                &&& *final(self) == *old(self)
            },
            old(self).flushed() == FlushState::NotFlushed ==> {
                let n = old(self).queue().len() as int;
                let run = if n <= old(self).max_size() {
                    n
                } else {
                    old(self).max_size()
                };
                &&& r matches Ok((to_run, overflow)) && to_run@ == old(self).queue().take(run)
                    && overflow == n - run
                &&& final(self).queue() == old(self).queue().skip(run)
                &&& final(self).flushed() == FlushState::IsFlushed
            },
    {
        if self.flushed != FlushState::NotFlushed {
            return Err(DispatchError::AlreadyFlushed);
        }
        let n = self.preinit.len();
        let run = if n <= self.max_queue_size {
            n
        } else {
            self.max_queue_size
        };
        let mut tail = self.preinit.split_off(run);
        core::mem::swap(&mut self.preinit, &mut tail);
        self.flushed = FlushState::IsFlushed;
        proof {
            assert(tail@ =~= old(self).queue().take(run as int));
            assert(self.preinit@ =~= old(self).queue().skip(run as int));
        }
        Ok((tail, n - run))
    }

    /// Shut the queue down.
    ///
    /// A first shutdown performs the initial flush if it has not happened
    /// and returns the tasks that still get to run; afterwards the queue
    /// accepts no direct execution.
    pub fn shutdown(&mut self) -> (to_run: Vec<u64>)
        ensures
            final(self).flushed() == FlushState::Shutdown,
            final(self).max_size() == old(self).max_size(),
            old(self).flushed() == FlushState::NotFlushed ==> {
                let n = old(self).queue().len() as int;
                let run = if n <= old(self).max_size() {
                    n
                } else {
                    old(self).max_size()
                };
                to_run@ == old(self).queue().take(run) && final(self).queue() == old(
                    self,
                ).queue().skip(run)
            },
            old(self).flushed() != FlushState::NotFlushed ==> to_run@ == Seq::<u64>::empty()
                && final(self).queue() == old(self).queue(),
    {
        let mut to_run: Vec<u64> = Vec::new();
        if self.flushed == FlushState::NotFlushed {
            match self.flush_init() {
                Ok((tasks, _)) => {
                    to_run = tasks;
                },
                Err(_) => {},
            }
        }
        self.flushed = FlushState::Shutdown;
        proof {
            if old(self).flushed() != FlushState::NotFlushed {
                assert(to_run@ =~= Seq::<u64>::empty());
            }
        }
        to_run
    }

    /// Tear the queue down without running anything.
    pub fn kill(&self) -> (r: Result<(), DispatchError>)
        ensures
            r is Ok,
    {
        Ok(())
    }
}

} // verus!
