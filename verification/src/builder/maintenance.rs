//! The queue of maintenance tasks: one worker, first come first served.

use vstd::prelude::*;

use crate::error::BlobStorageError;
use crate::error::ErrorView;

verus! {

/// The number of tasks that may wait in the queue.
pub const QUEUE_CAPACITY: usize = 16;

/// Why a task could not be put into the queue.
#[derive(Clone, Copy)]
pub enum QueueFailure {
    /// The queue is full.
    Full,
    /// The worker has stopped.
    ShutDown,
}

/// The text of a failure to queue a task.
pub open spec fn queue_failure_text(failure: QueueFailure) -> Seq<char> {
    match failure {
        QueueFailure::Full => "maintenance queue full"@,
        QueueFailure::ShutDown => "maintenance queue shut down"@,
    }
}

/// The error of a task that could not be put into the queue.
pub fn queue_error(failure: QueueFailure) -> (r: BlobStorageError)
    ensures
        r@ == ErrorView::InvalidInput(queue_failure_text(failure)),
{
    match failure {
        QueueFailure::Full => BlobStorageError::InvalidInput("maintenance queue full".to_owned()),
        QueueFailure::ShutDown => BlobStorageError::InvalidInput(
            "maintenance queue shut down".to_owned(),
        ),
    }
}

/// What the worker waits for.
pub enum WorkerEvent<T> {
    /// The next task of the queue.
    Task(T),
    /// The queue is empty, and nobody can put a task into it any more.
    Closed,
    /// Cancellation was signalled.
    Cancelled,
}

/// What the worker does.
pub enum WorkerStep<T> {
    /// Run the task, then wait again.
    Run(T),
    /// Stop.
    Stop,
}

/// What the worker does after an event.
pub fn worker_step<T>(event: WorkerEvent<T>) -> (r: WorkerStep<T>)
    ensures
        r == match event {
            WorkerEvent::Task(task) => WorkerStep::Run(task),
            _ => WorkerStep::Stop,
        },
{
    match event {
        WorkerEvent::Task(task) => WorkerStep::Run(task),
        WorkerEvent::Closed => WorkerStep::Stop,
        WorkerEvent::Cancelled => WorkerStep::Stop,
    }
}

/// At most sixteen tasks wait in the queue. A task that finds it full, or shut down, is
/// refused with a text that says which.
pub proof fn law_queue_refusals()
    ensures
        QUEUE_CAPACITY == 16,
        queue_failure_text(QueueFailure::Full) == "maintenance queue full"@,
        queue_failure_text(QueueFailure::ShutDown) == "maintenance queue shut down"@,
{
}

} // verus!
