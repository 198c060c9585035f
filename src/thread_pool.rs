use vstd::prelude::*;

verus! {

/// A unit of work for a pool worker, or the signal that ends one worker.
pub enum Task<F> {
    NewTask(F),
    End,
}

/// What a worker does with the task it has taken.
pub open spec fn work_of<F>(t: Task<F>) -> Option<F> {
    match t {
        Task::NewTask(f) => Some(f),
        Task::End => None,
    }
}

impl<F> Task<F> {
    /// The work to run, or `None` when the worker must leave its loop.
    pub fn into_work(self) -> (r: Option<F>)
        ensures
            r == work_of(self),
    {
        match self {
            Task::NewTask(f) => Some(f),
            Task::End => None,
        }
    }
}

/// Why a pool could not be built.
#[derive(Debug, Clone, Copy, PartialEq, Eq, Structural)]
pub enum PoolError {
    /// A pool needs at least one worker.
    NoWorkers,
}

/// Checks the size asked for a pool: at least one worker.
pub fn pool_size(max_size: usize) -> (r: Result<usize, PoolError>)
    ensures
        max_size == 0 <==> r == Err::<usize, PoolError>(PoolError::NoWorkers),
        max_size > 0 <==> r == Ok::<usize, PoolError>(max_size),
{
    if max_size == 0 {
        Err(PoolError::NoWorkers)
    } else {
        Ok(max_size)
    }
}

/// The signals that tear a pool of `workers` down: one `End` per worker.
pub fn shutdown_signals<F>(workers: usize) -> (r: Vec<Task<F>>)
    ensures
        r@.len() == workers,
        forall|i: int| 0 <= i < r@.len() ==> #[trigger] r@[i] is End,
{
    let mut r: Vec<Task<F>> = Vec::new();
    let mut i: usize = 0;
    while i < workers
        invariant
            i <= workers,
            r@.len() == i,
            forall|j: int| 0 <= j < r@.len() ==> #[trigger] r@[j] is End,
        decreases workers - i,
    {
        r.push(Task::End);
        i = i + 1;
    }
    r
}

} // verus!
