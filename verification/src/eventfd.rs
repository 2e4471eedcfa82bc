//! Event-counter descriptors: the decision half.
//!
//! The kernel call that opens an event-counter descriptor lives in the
//! embedding; what the library owns is the reading of its result: a positive
//! return is the descriptor, a negated error number names one of the known
//! failure causes. Error numbers are the Linux ABI values.

use vstd::prelude::*;

verus! {

/// Why an event-counter descriptor could not be opened.
#[derive(Debug, Clone, Copy, PartialEq, Eq, Structural)]
pub enum EventFdError {
    InvalidFlags,
    TooManyOpenFilesInProcess,
    TooManyOpenFilesInSystem,
    KernelOutOfMemory,
    KernelError,
}

/// Invalid argument.
pub const EINVAL: i64 = 22;

/// Too many open files in the process.
pub const EMFILE: i64 = 24;

/// Too many open files in the system.
pub const ENFILE: i64 = 23;

/// Out of kernel memory.
pub const ENOMEM: i64 = 12;

/// No such device.
pub const ENODEV: i64 = 19;

/// Read the raw result of the descriptor-opening call: a positive value is
/// the new descriptor, a negated known error number is the matching error.
/// Other values are not expected of the call and are left out.
pub fn eventfd_result(res: i64) -> (r: Result<i32, EventFdError>)
    requires
        (0 < res <= 0x7FFF_FFFF) || res == -EINVAL || res == -EMFILE || res == -ENFILE || res
            == -ENOMEM || res == -ENODEV,
    ensures
        res > 0 ==> r == Ok::<i32, EventFdError>(res as i32),
        res == -EINVAL ==> r == Err::<i32, EventFdError>(EventFdError::InvalidFlags),
        res == -EMFILE ==> r == Err::<i32, EventFdError>(EventFdError::TooManyOpenFilesInProcess),
        res == -ENFILE ==> r == Err::<i32, EventFdError>(EventFdError::TooManyOpenFilesInSystem),
        res == -ENOMEM ==> r == Err::<i32, EventFdError>(EventFdError::KernelOutOfMemory),
        res == -ENODEV ==> r == Err::<i32, EventFdError>(EventFdError::KernelError),
{
    if res > 0 {
        Ok(res as i32)
    } else if res == -EINVAL {
        Err(EventFdError::InvalidFlags)
    } else if res == -EMFILE {
        Err(EventFdError::TooManyOpenFilesInProcess)
    } else if res == -ENFILE {
        Err(EventFdError::TooManyOpenFilesInSystem)
    } else if res == -ENOMEM {
        Err(EventFdError::KernelOutOfMemory)
    } else {
        Err(EventFdError::KernelError)
    }
}

} // verus!
