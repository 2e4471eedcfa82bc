//! Opening files and directories: the decision half.
//!
//! The kernel calls that open paths live in the embedding; the library owns
//! the reading of their results. A non-negative return is the descriptor, a
//! negated error number names the failure; the errors that carry the path's
//! name do so for diagnosis. Error numbers are the Linux ABI values.

use vstd::prelude::*;

verus! {

/// Why a path could not be opened.
#[derive(Debug)]
pub enum OpenError {
    AccessNotAllowed,
    FileAlreadyExists(String),
    FilesystemUnsupported,
    IsDirectory(String),
    TooManySymlinks,
    TooManyOpenFilesInProcess,
    TooManyOpenFilesInSystem,
    NameTooLong,
    DoesNotExist(String),
    KernelOutOfMemory,
    NoSpaceLeftOnDevice,
    PathComponentNonDirectory,
    PermissionDenied,
    FilesystemReadOnly,
}

/// Operation not permitted.
pub const EPERM: i64 = 1;

/// No such file or directory.
pub const ENOENT: i64 = 2;

/// Access not allowed.
pub const EACCES: i64 = 13;

/// File exists.
pub const EEXIST: i64 = 17;

/// Is a directory.
pub const EISDIR: i64 = 21;

/// Invalid argument.
pub const OPEN_EINVAL: i64 = 22;

/// Too many open files in the process.
pub const OPEN_EMFILE: i64 = 24;

/// Too many open files in the system.
pub const OPEN_ENFILE: i64 = 23;

/// Not a directory.
pub const ENOTDIR: i64 = 20;

/// Path name too long.
pub const ENAMETOOLONG: i64 = 36;

/// Too many levels of symbolic links.
pub const ELOOP: i64 = 40;

/// Out of kernel memory.
pub const OPEN_ENOMEM: i64 = 12;

/// No space left on device.
pub const ENOSPC: i64 = 28;

/// Read-only file system.
pub const EROFS: i64 = 30;

/// Whether a raw open result is one the mapping covers: a descriptor, or a
/// known error number negated.
pub open spec fn open_result_covered(res: i64) -> bool {
    (0 <= res <= 0xFFFF_FFFF) || res == -EPERM || res == -ENOENT || res == -EACCES || res
        == -EEXIST || res == -EISDIR || res == -OPEN_EINVAL || res == -OPEN_EMFILE || res
        == -OPEN_ENFILE || res == -ENOTDIR || res == -ENAMETOOLONG || res == -ELOOP || res
        == -OPEN_ENOMEM || res == -ENOSPC || res == -EROFS
}

/// Read the raw result of an open call on the path named `name`: a
/// non-negative value is the descriptor, a negated known error number is the
/// matching error, carrying the name where it helps diagnosis. Other values
/// are not expected of the call and are left out.
pub fn open_result(res: i64, name: String) -> (r: Result<u32, OpenError>)
    requires
        open_result_covered(res),
    ensures
        res >= 0 ==> r == Ok::<u32, OpenError>(res as u32),
        res == -EACCES ==> r == Err::<u32, OpenError>(OpenError::AccessNotAllowed),
        res == -EEXIST ==> (r matches Err(e) && e matches OpenError::FileAlreadyExists(n) && n@
            == name@),
        res == -OPEN_EINVAL ==> r == Err::<u32, OpenError>(OpenError::FilesystemUnsupported),
        res == -EISDIR ==> (r matches Err(e) && e matches OpenError::IsDirectory(n) && n@
            == name@),
        res == -ELOOP ==> r == Err::<u32, OpenError>(OpenError::TooManySymlinks),
        res == -OPEN_EMFILE ==> r == Err::<u32, OpenError>(OpenError::TooManyOpenFilesInProcess),
        res == -OPEN_ENFILE ==> r == Err::<u32, OpenError>(OpenError::TooManyOpenFilesInSystem),
        res == -ENAMETOOLONG ==> r == Err::<u32, OpenError>(OpenError::NameTooLong),
        res == -ENOENT ==> (r matches Err(e) && e matches OpenError::DoesNotExist(n) && n@
            == name@),
        res == -OPEN_ENOMEM ==> r == Err::<u32, OpenError>(OpenError::KernelOutOfMemory),
        res == -ENOSPC ==> r == Err::<u32, OpenError>(OpenError::NoSpaceLeftOnDevice),
        res == -ENOTDIR ==> r == Err::<u32, OpenError>(OpenError::PathComponentNonDirectory),
        res == -EPERM ==> r == Err::<u32, OpenError>(OpenError::PermissionDenied),
        res == -EROFS ==> r == Err::<u32, OpenError>(OpenError::FilesystemReadOnly),
{
    if res >= 0 {
        Ok(res as u32)
    } else if res == -EACCES {
        Err(OpenError::AccessNotAllowed)
    } else if res == -EEXIST {
        Err(OpenError::FileAlreadyExists(name))
    } else if res == -OPEN_EINVAL {
        Err(OpenError::FilesystemUnsupported)
    } else if res == -EISDIR {
        Err(OpenError::IsDirectory(name))
    } else if res == -ELOOP {
        Err(OpenError::TooManySymlinks)
    } else if res == -OPEN_EMFILE {
        Err(OpenError::TooManyOpenFilesInProcess)
    } else if res == -OPEN_ENFILE {
        Err(OpenError::TooManyOpenFilesInSystem)
    } else if res == -ENAMETOOLONG {
        Err(OpenError::NameTooLong)
    } else if res == -ENOENT {
        Err(OpenError::DoesNotExist(name))
    } else if res == -OPEN_ENOMEM {
        Err(OpenError::KernelOutOfMemory)
    } else if res == -ENOSPC {
        Err(OpenError::NoSpaceLeftOnDevice)
    } else if res == -ENOTDIR {
        Err(OpenError::PathComponentNonDirectory)
    } else if res == -EPERM {
        Err(OpenError::PermissionDenied)
    } else {
        Err(OpenError::FilesystemReadOnly)
    }
}

} // verus!
