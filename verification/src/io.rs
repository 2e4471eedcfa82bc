//! Asynchronous I/O contexts: the decision half.
//!
//! The kernel calls that create a context, submit jobs and collect their
//! completions live in the embedding; the library owns the context's
//! bookkeeping and the reading of the calls' results. Error numbers are the
//! Linux ABI values.

use vstd::prelude::*;

verus! {

/// Why an asynchronous I/O call failed.
#[derive(Debug, Clone, Copy, PartialEq, Eq, Structural)]
pub enum AIoError {
    EventLimit,
    NotInitialized,
    KernelOutOfMemory,
    KernelRessources,
    NotImplemented,
    BadFileDescriptor,
    Interrupted,
}

/// Why a submitted read's completion is not a result yet.
#[derive(Debug, Clone, Copy, PartialEq, Eq, Structural)]
pub enum ReadError {
    NotSubmitted,
    Taken,
    Errno(i32),
}

/// Interrupted system call.
pub const EINTR: i64 = 4;

/// Try again.
pub const EAGAIN: i64 = 11;

/// Out of kernel memory.
pub const AIO_ENOMEM: i64 = 12;

/// Bad file descriptor.
pub const EBADF: i64 = 9;

/// Invalid argument.
pub const AIO_EINVAL: i64 = 22;

/// Function not implemented.
pub const ENOSYS: i64 = 38;

/// An asynchronous I/O context: the kernel's identifier for it, and the
/// number of in-flight events it was created for.
#[derive(Debug)]
pub struct AIoContext {
    id: u64,
    capacity: usize,
}

impl AIoContext {
    /// How many in-flight events the context was created for.
    pub closed spec fn spec_capacity(self) -> usize {
        self.capacity
    }

    /// The kernel's identifier for the context.
    pub closed spec fn spec_id(self) -> u64 {
        self.id
    }

    /// How many in-flight events the context was created for.
    pub fn capacity(&self) -> (c: usize)
        ensures
            c == self.spec_capacity(),
    {
        self.capacity
    }

    /// The kernel's identifier, for the embedding's further calls.
    pub fn id(&self) -> (i: u64)
        ensures
            i == self.spec_id(),
    {
        self.id
    }

    /// Read the raw result of the context-creation call for `nr_events`
    /// in-flight events: zero means the kernel filled `id` with the new
    /// context's identifier, a negated known error number is the matching
    /// error. Other values are not expected of the call and are left out.
    pub fn setup(nr_events: usize, id: u64, res: i64) -> (r: Result<AIoContext, AIoError>)
        requires
            res == 0 || res == -EAGAIN || res == -AIO_EINVAL || res == -AIO_ENOMEM || res
                == -ENOSYS,
        ensures
            res == 0 ==> (r matches Ok(c) && c.spec_id() == id && c.spec_capacity() == nr_events),
            res == -EAGAIN ==> r == Err::<AIoContext, AIoError>(AIoError::EventLimit),
            res == -AIO_EINVAL ==> r == Err::<AIoContext, AIoError>(AIoError::NotInitialized),
            res == -AIO_ENOMEM ==> r == Err::<AIoContext, AIoError>(AIoError::KernelOutOfMemory),
            res == -ENOSYS ==> r == Err::<AIoContext, AIoError>(AIoError::NotImplemented),
    {
        if res == 0 {
            Ok(AIoContext { id, capacity: nr_events })
        } else if res == -EAGAIN {
            Err(AIoError::EventLimit)
        } else if res == -AIO_EINVAL {
            Err(AIoError::NotInitialized)
        } else if res == -AIO_ENOMEM {
            Err(AIoError::KernelOutOfMemory)
        } else {
            Err(AIoError::NotImplemented)
        }
    }

    /// Read the raw result of submitting `count` jobs: the call succeeds
    /// exactly when it reports all of them accepted; a negated known error
    /// number is the matching error. Other values are not expected of the
    /// call and are left out.
    pub fn submit_result(&self, count: usize, res: i64) -> (r: Result<(), AIoError>)
        requires
            count <= self.spec_capacity(),
            res == count || res == -EAGAIN || res == -EBADF || res == -AIO_EINVAL || res
                == -ENOSYS,
        ensures
            res == count ==> r == Ok::<(), AIoError>(()),
            res == -EAGAIN ==> r == Err::<(), AIoError>(AIoError::KernelRessources),
            res == -EBADF ==> r == Err::<(), AIoError>(AIoError::BadFileDescriptor),
            res == -AIO_EINVAL ==> r == Err::<(), AIoError>(AIoError::NotInitialized),
            res == -ENOSYS ==> r == Err::<(), AIoError>(AIoError::NotImplemented),
    {
        if res >= 0 && res as usize == count {
            Ok(())
        } else if res == -EAGAIN {
            Err(AIoError::KernelRessources)
        } else if res == -EBADF {
            Err(AIoError::BadFileDescriptor)
        } else if res == -AIO_EINVAL {
            Err(AIoError::NotInitialized)
        } else {
            Err(AIoError::NotImplemented)
        }
    }

    /// How many completions one collection call may ask for: no more than
    /// the context allows, and no more than the buffer holds.
    pub fn event_budget(&self, buf_capacity: usize) -> (m: usize)
        ensures
            m == if self.spec_capacity() <= buf_capacity {
                self.spec_capacity()
            } else {
                buf_capacity
            },
    {
        if self.capacity <= buf_capacity {
            self.capacity
        } else {
            buf_capacity
        }
    }

    /// Read the raw result of collecting completions: a non-negative value
    /// counts the completions the kernel wrote, a negated known error number
    /// is the matching error. Other values are not expected of the call and
    /// are left out.
    pub fn get_events_result(&self, res: i64) -> (r: Result<usize, AIoError>)
        requires
            (0 <= res <= 0xFFFF_FFFF) || res == -EINTR || res == -ENOSYS,
        ensures
            res >= 0 ==> r == Ok::<usize, AIoError>(res as usize),
            res == -EINTR ==> r == Err::<usize, AIoError>(AIoError::Interrupted),
            res == -ENOSYS ==> r == Err::<usize, AIoError>(AIoError::NotImplemented),
    {
        if res >= 0 {
            Ok(res as usize)
        } else if res == -EINTR {
            Err(AIoError::Interrupted)
        } else {
            Err(AIoError::NotImplemented)
        }
    }
}

} // verus!
