//! What errors say.
use fanotify_fid::error::{describe_init, describe_mark, describe_read, describe_write};
use fanotify_fid::error_desc::{
    errno_desc_handle, errno_desc_init, errno_desc_mark, errno_desc_read,
};
use fanotify_fid::FanotifyError;

#[test]
fn test_error_display_init() {
    let e = FanotifyError::Init(libc::EPERM);
    let msg = e.message();
    assert!(msg.contains("fanotify_init"));
    assert!(msg.contains("CAP_SYS_ADMIN"));
}

#[test]
fn test_error_display_mark() {
    let e = FanotifyError::Mark(libc::ENOENT);
    let msg = e.message();
    assert!(msg.contains("fanotify_mark"));
    assert!(msg.contains("does not exist"));
}

#[test]
fn test_error_display_read() {
    let e = FanotifyError::Read(libc::EAGAIN);
    let msg = e.message();
    assert!(msg.contains("fanotify_read"));
    assert!(msg.contains("non-blocking"));
}

#[test]
fn error_descriptions_are_specific_to_the_syscall_that_failed() {
    // The same errno means different things to different system calls, and a
    // caller sent looking in the wrong place is worse off than one told nothing.
    let init = FanotifyError::Init(libc::EINVAL).message();
    let mark = FanotifyError::Mark(libc::EINVAL).message();
    let read = FanotifyError::Read(libc::EINVAL).message();
    let write = FanotifyError::Write(libc::EINVAL).message();

    assert!(init.contains("fanotify_init"));
    assert!(mark.contains("fanotify_mark"));
    assert!(read.contains("fanotify read"));
    assert!(write.contains("response write"));

    let descriptions = [&init, &mark, &read, &write];
    for (i, a) in descriptions.iter().enumerate() {
        for b in &descriptions[i + 1..] {
            assert_ne!(a, b, "the same errno must not read the same for two syscalls");
        }
    }
}

#[test]
fn a_buffer_that_is_not_events_is_rejected_rather_than_parsed() {
    // 24 bytes of zeros have vers = 0, and saying so is better than returning an
    // empty list or inventing events.
    let err = fanotify_fid::parse_fid_events(&[0u8; 64]).expect_err("zeros are not events");
    assert!(matches!(err, FanotifyError::UnknownEventVersion(0)));
    assert_eq!(err.errno(), None, "this is not a syscall failure");
    assert!(err.message().contains("vers"));
}

#[test]
fn the_errno_is_the_kernels_own() {
    assert_eq!(FanotifyError::Init(1).errno(), Some(1));
    assert_eq!(FanotifyError::Mark(2).errno(), Some(2));
    assert_eq!(FanotifyError::Read(3).errno(), Some(3));
    assert_eq!(FanotifyError::Write(4).errno(), Some(4));
    assert_eq!(FanotifyError::UnknownEventVersion(5).errno(), None);
}

#[test]
fn only_a_read_would_block() {
    assert!(FanotifyError::Read(libc::EAGAIN).is_would_block());
    assert!(!FanotifyError::Read(libc::EINVAL).is_would_block());
    assert!(!FanotifyError::Init(libc::EAGAIN).is_would_block());
    assert!(!FanotifyError::UnknownEventVersion(11).is_would_block());
}

#[test]
fn an_unknown_errno_is_named_by_its_number() {
    assert_eq!(
        describe_init(4095),
        "Unknown errno 4095.  See fanotify_init(2) for the full list."
    );
    assert_eq!(
        describe_mark(-7),
        "Unknown errno -7.  See fanotify_mark(2) for the full list."
    );
    assert_eq!(
        describe_read(0),
        "Unknown errno 0.  See fanotify_read(2) for the full list."
    );
    assert!(describe_write(i32::MIN).starts_with("Unknown errno -2147483648."));
    assert!(describe_write(i32::MAX).starts_with("Unknown errno 2147483647."));
}

#[test]
fn a_message_holds_the_number_and_the_description() {
    assert_eq!(
        FanotifyError::UnknownEventVersion(9).message(),
        "buffer is not a fanotify event: metadata.vers = 9, expected 3.  This usually means the \
         descriptor is not a fanotify group"
    );
    let description = describe_init(libc::EMFILE);
    assert_eq!(
        FanotifyError::Init(libc::EMFILE).message(),
        format!("fanotify_init failed (errno=24): {description}")
    );
    assert!(FanotifyError::Write(110).message().starts_with(
        "fanotify response write failed (errno=110): Unknown errno 110."
    ));
}

#[test]
fn the_short_descriptions_differ_by_system_call() {
    assert_ne!(errno_desc_init(libc::EINVAL), errno_desc_mark(libc::EINVAL));
    assert_ne!(errno_desc_mark(libc::EINVAL), errno_desc_read(libc::EINVAL));
    assert!(errno_desc_init(4095).contains("4095"));
    assert!(errno_desc_mark(4095).contains("fanotify_mark(2)"));
    assert!(errno_desc_read(4095).contains("4095"));
    assert!(errno_desc_handle(4095).contains("name_to_handle_at(2)"));
    assert!(errno_desc_handle(libc::EOPNOTSUPP).contains("does not support file handles"));
}
