//! Building the flags of a group.
use fanotify_fid::consts;
use fanotify_fid::{FanotifyBuilder, FanotifyError};

#[test]
fn test_builder_default_flags() {
    let builder = FanotifyBuilder::default();
    // Default should be NOTIF (0) + CLOEXEC
    // NOTIF=0 means the class bits (0x0C) are clear
    assert!(builder.flags & 0x0C == 0, "class bits should be NOTIF");
    assert!(
        builder.flags & consts::FAN_CLOEXEC != 0,
        "CLOEXEC should be set by default"
    );
    assert!(builder.flags & consts::FAN_CLOEXEC != 0);
}

#[test]
fn test_builder_chain_all_flags() {
    let o_cloexec = libc::O_CLOEXEC as u32;
    let builder = FanotifyBuilder::default()
        .cloexec()
        .nonblock()
        .class_content()
        .report_fid()
        .report_dir_fid()
        .report_name()
        .report_tid()
        .report_pidfd()
        .report_target_fid()
        .unlimited_queue()
        .unlimited_marks()
        .enable_audit()
        .event_flags(o_cloexec)
        .raw_flags(0x1000);
    // Builder should have accumulated flags
    assert!(builder.flags & consts::FAN_NONBLOCK != 0);
    assert!(builder.flags & consts::FAN_REPORT_FID != 0);
    assert!(builder.flags & consts::FAN_REPORT_TID != 0);
    assert!(builder.flags & consts::FAN_UNLIMITED_QUEUE != 0);
    assert!(builder.flags & 0x1000 != 0);
    assert_eq!(builder.event_f_flags, o_cloexec);
}

#[test]
fn test_builder_class_modes_are_exclusive() {
    // Setting class_pre_content should clear class_content bits
    let b = FanotifyBuilder::default().class_content();
    assert!(b.flags & 0x0C == consts::FAN_CLASS_CONTENT || (b.flags & 0x0C) == 0x04);

    let b = b.class_pre_content();
    // 0x08 should be set, 0x04 should not
    assert_eq!(b.flags & 0x0C, consts::FAN_CLASS_PRE_CONTENT);
}

#[test]
fn choosing_a_class_again_touches_no_other_flag() {
    let b = FanotifyBuilder::default().nonblock().class_pre_content().class_notif();
    assert_eq!(b.flags, consts::FAN_CLOEXEC | consts::FAN_NONBLOCK);
    assert_eq!(b.event_f_flags, 0);
}

#[test]
fn every_flag_lands_where_it_belongs() {
    let b = FanotifyBuilder::default();
    assert_eq!(b.report_dir_fid().flags, b.flags | consts::FAN_REPORT_DIR_FID);
    assert_eq!(b.report_name().flags, b.flags | consts::FAN_REPORT_NAME);
    assert_eq!(b.report_pidfd().flags, b.flags | consts::FAN_REPORT_PIDFD);
    assert_eq!(b.report_target_fid().flags, b.flags | consts::FAN_REPORT_TARGET_FID);
    assert_eq!(b.unlimited_marks().flags, b.flags | consts::FAN_UNLIMITED_MARKS);
    assert_eq!(b.enable_audit().flags, b.flags | consts::FAN_ENABLE_AUDIT);
    assert_eq!(b.cloexec().flags, b.flags, "it is on already");
}

#[test]
fn a_builder_creates_the_group_it_describes() {
    let builder = FanotifyBuilder::default().nonblock().report_fid().event_flags(5);
    let group = builder
        .init(&|flags: u32, event_f_flags: u32| {
            assert_eq!(
                flags,
                consts::FAN_CLOEXEC | consts::FAN_NONBLOCK | consts::FAN_REPORT_FID
            );
            assert_eq!(event_f_flags, 5);
            Ok(9)
        })
        .unwrap();
    assert_eq!(group.as_fd(), 9);
    assert_eq!(
        builder.init(&|_flags: u32, _event_f_flags: u32| Err(libc::EMFILE)),
        Err(FanotifyError::Init(libc::EMFILE))
    );
}
