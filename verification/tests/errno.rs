use corun::eventfd::{eventfd_result, EventFdError};
use corun::fs::{open_result, OpenError};
use corun::io::{AIoContext, AIoError};

#[test]
fn eventfd_ok() {
    assert_eq!(eventfd_result(5), Ok(5));
}

#[test]
fn eventfd_errors() {
    assert_eq!(eventfd_result(-22), Err(EventFdError::InvalidFlags));
    assert_eq!(eventfd_result(-24), Err(EventFdError::TooManyOpenFilesInProcess));
    assert_eq!(eventfd_result(-23), Err(EventFdError::TooManyOpenFilesInSystem));
    assert_eq!(eventfd_result(-12), Err(EventFdError::KernelOutOfMemory));
    assert_eq!(eventfd_result(-19), Err(EventFdError::KernelError));
}

#[test]
fn open_ok() {
    assert!(matches!(open_result(3, String::from("/tmp/x")), Ok(3)));
}

#[test]
fn open_errors_without_name() {
    assert!(matches!(
        open_result(-13, String::new()),
        Err(OpenError::AccessNotAllowed)
    ));
    assert!(matches!(
        open_result(-22, String::new()),
        Err(OpenError::FilesystemUnsupported)
    ));
    assert!(matches!(
        open_result(-40, String::new()),
        Err(OpenError::TooManySymlinks)
    ));
    assert!(matches!(
        open_result(-24, String::new()),
        Err(OpenError::TooManyOpenFilesInProcess)
    ));
    assert!(matches!(
        open_result(-23, String::new()),
        Err(OpenError::TooManyOpenFilesInSystem)
    ));
    assert!(matches!(open_result(-36, String::new()), Err(OpenError::NameTooLong)));
    assert!(matches!(
        open_result(-12, String::new()),
        Err(OpenError::KernelOutOfMemory)
    ));
    assert!(matches!(
        open_result(-28, String::new()),
        Err(OpenError::NoSpaceLeftOnDevice)
    ));
    assert!(matches!(
        open_result(-20, String::new()),
        Err(OpenError::PathComponentNonDirectory)
    ));
    assert!(matches!(open_result(-1, String::new()), Err(OpenError::PermissionDenied)));
    assert!(matches!(
        open_result(-30, String::new()),
        Err(OpenError::FilesystemReadOnly)
    ));
}

#[test]
fn open_errors_carry_the_name() {
    match open_result(-2, String::from("gone")) {
        Err(OpenError::DoesNotExist(n)) => assert_eq!(n, "gone"),
        other => panic!("unexpected: {:?}", other),
    }
    match open_result(-17, String::from("there")) {
        Err(OpenError::FileAlreadyExists(n)) => assert_eq!(n, "there"),
        other => panic!("unexpected: {:?}", other),
    }
    match open_result(-21, String::from("dir")) {
        Err(OpenError::IsDirectory(n)) => assert_eq!(n, "dir"),
        other => panic!("unexpected: {:?}", other),
    }
}

#[test]
fn aio_setup_and_capacity() {
    let ctx = AIoContext::setup(64, 0xABCD, 0).unwrap();
    assert_eq!(ctx.capacity(), 64);
    assert_eq!(ctx.id(), 0xABCD);
    assert_eq!(AIoContext::setup(8, 0, -11).unwrap_err(), AIoError::EventLimit);
    assert_eq!(AIoContext::setup(8, 0, -22).unwrap_err(), AIoError::NotInitialized);
    assert_eq!(AIoContext::setup(8, 0, -12).unwrap_err(), AIoError::KernelOutOfMemory);
    assert_eq!(AIoContext::setup(8, 0, -38).unwrap_err(), AIoError::NotImplemented);
}

#[test]
fn aio_submit_results() {
    let ctx = AIoContext::setup(16, 1, 0).unwrap();
    assert_eq!(ctx.submit_result(4, 4), Ok(()));
    assert_eq!(ctx.submit_result(4, -11), Err(AIoError::KernelRessources));
    assert_eq!(ctx.submit_result(4, -9), Err(AIoError::BadFileDescriptor));
    assert_eq!(ctx.submit_result(4, -22), Err(AIoError::NotInitialized));
    assert_eq!(ctx.submit_result(4, -38), Err(AIoError::NotImplemented));
}

#[test]
fn aio_event_budget_and_results() {
    let ctx = AIoContext::setup(16, 1, 0).unwrap();
    assert_eq!(ctx.event_budget(8), 8);
    assert_eq!(ctx.event_budget(100), 16);
    assert_eq!(ctx.get_events_result(3), Ok(3));
    assert_eq!(ctx.get_events_result(-4), Err(AIoError::Interrupted));
    assert_eq!(ctx.get_events_result(-38), Err(AIoError::NotImplemented));
}
