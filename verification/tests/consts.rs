//! The values of the constants, and the names of the events.
use fanotify_fid::consts::{
    EAGAIN, EBADF, EINTR, EINVAL, EIO, EMFILE, ENODEV, ENOENT, ENOMEM, ENOSPC, ENOSYS, ENOTDIR,
    EOPNOTSUPP, EOVERFLOW, EPERM, EXDEV, AT_EMPTY_PATH, AT_FDCWD, AT_HANDLE_FID,
    FANOTIFY_ADMIN_INIT_FLAGS, FANOTIFY_FID_BITS, FANOTIFY_METADATA_VERSION, FANOTIFY_MOUNT_EVENTS,
    FAN_ACCESS, FAN_ACCESS_PERM, FAN_ALLOW, FAN_ALL_CLASS_BITS, FAN_ALL_EVENTS, FAN_ALL_INIT_FLAGS,
    FAN_ALL_MARK_FLAGS, FAN_ALL_OUTGOING_EVENTS, FAN_ALL_PERM_EVENTS, FAN_ATTRIB, FAN_AUDIT,
    FAN_CLASS_CONTENT, FAN_CLASS_NOTIF, FAN_CLASS_PRE_CONTENT, FAN_CLOEXEC, FAN_CLOSE,
    FAN_CLOSE_NOWRITE, FAN_CLOSE_WRITE, FAN_CREATE, FAN_DELETE, FAN_DELETE_SELF, FAN_DENY,
    FAN_ENABLE_AUDIT, FAN_EPIDFD, FAN_ERRNO_BITS, FAN_ERRNO_MASK, FAN_ERRNO_SHIFT,
    FAN_EVENT_INFO_TYPE_DFID, FAN_EVENT_INFO_TYPE_DFID_NAME, FAN_EVENT_INFO_TYPE_ERROR,
    FAN_EVENT_INFO_TYPE_FID, FAN_EVENT_INFO_TYPE_MNT, FAN_EVENT_INFO_TYPE_NEW_DFID_NAME,
    FAN_EVENT_INFO_TYPE_OLD_DFID_NAME, FAN_EVENT_INFO_TYPE_PIDFD, FAN_EVENT_INFO_TYPE_RANGE,
    FAN_EVENT_ON_CHILD, FAN_FS_ERROR, FAN_INFO, FAN_MARK_ADD, FAN_MARK_DONT_FOLLOW,
    FAN_MARK_EVICTABLE, FAN_MARK_FILESYSTEM, FAN_MARK_FLUSH, FAN_MARK_IGNORE, FAN_MARK_IGNORED_MASK,
    FAN_MARK_IGNORED_SURV_MODIFY, FAN_MARK_IGNORE_SURV, FAN_MARK_INODE, FAN_MARK_MNTNS,
    FAN_MARK_MOUNT, FAN_MARK_ONLYDIR, FAN_MARK_REMOVE, FAN_MNT_ATTACH, FAN_MNT_DETACH, FAN_MODIFY,
    FAN_MOVE, FAN_MOVED_FROM, FAN_MOVED_TO, FAN_MOVE_SELF, FAN_NOFD, FAN_NONBLOCK, FAN_NOPIDFD,
    FAN_ONDIR, FAN_OPEN, FAN_OPEN_EXEC, FAN_OPEN_EXEC_PERM, FAN_OPEN_PERM, FAN_PRE_ACCESS,
    FAN_Q_OVERFLOW, FAN_RENAME, FAN_REPORT_DFID_NAME, FAN_REPORT_DFID_NAME_TARGET,
    FAN_REPORT_DIR_FID, FAN_REPORT_FD_ERROR, FAN_REPORT_FID, FAN_REPORT_MNT, FAN_REPORT_NAME,
    FAN_REPORT_PIDFD, FAN_REPORT_TARGET_FID, FAN_REPORT_TID, FAN_RESPONSE_INFO_AUDIT_RULE,
    FAN_RESPONSE_INFO_NONE, FAN_UNLIMITED_MARKS, FAN_UNLIMITED_QUEUE, MAX_HANDLE_SZ,
    mask_to_event_names,
};

#[test]
fn the_init_flags_are_where_the_kernel_says_they_are() {
    // The class bits are a two-bit field, with NOTIF encoded as zero — which is
    // why "no class" and "NOTIF" are the same request.
    assert_eq!(FAN_CLASS_NOTIF, 0x0000_0000);
    assert_eq!(FAN_CLASS_CONTENT, 0x0000_0004);
    assert_eq!(FAN_CLASS_PRE_CONTENT, 0x0000_0008);
    assert_eq!(FAN_CLASS_CONTENT | FAN_CLASS_PRE_CONTENT, 0x0000_000C);

    assert_eq!(FAN_CLOEXEC, 0x0000_0001);
    assert_eq!(FAN_NONBLOCK, 0x0000_0002);
    assert_eq!(FAN_UNLIMITED_QUEUE, 0x0000_0010);
    assert_eq!(FAN_UNLIMITED_MARKS, 0x0000_0020);
    assert_eq!(FAN_ENABLE_AUDIT, 0x0000_0040);
    assert_eq!(FAN_REPORT_PIDFD, 0x0000_0080);
    assert_eq!(FAN_REPORT_TID, 0x0000_0100);
    assert_eq!(FAN_REPORT_FID, 0x0000_0200);
    assert_eq!(FAN_REPORT_DIR_FID, 0x0000_0400);
    assert_eq!(FAN_REPORT_NAME, 0x0000_0800);
    assert_eq!(FAN_REPORT_TARGET_FID, 0x0000_1000);
    assert_eq!(FAN_REPORT_FD_ERROR, 0x0000_2000);
    assert_eq!(FAN_REPORT_MNT, 0x0000_4000);

    // The header's own aggregates, checked as relationships rather than values.
    assert_eq!(FAN_REPORT_DFID_NAME, FAN_REPORT_DIR_FID | FAN_REPORT_NAME);
    assert_eq!(
        FAN_REPORT_DFID_NAME_TARGET,
        FAN_REPORT_DFID_NAME | FAN_REPORT_FID | FAN_REPORT_TARGET_FID
    );
    assert_eq!(
        FANOTIFY_FID_BITS,
        FAN_REPORT_FID | FAN_REPORT_DIR_FID | FAN_REPORT_NAME | FAN_REPORT_TARGET_FID
    );
    assert_eq!(
        FANOTIFY_ADMIN_INIT_FLAGS,
        FAN_CLASS_CONTENT
            | FAN_CLASS_PRE_CONTENT
            | FAN_REPORT_TID
            | FAN_REPORT_PIDFD
            | FAN_REPORT_FD_ERROR
            | FAN_UNLIMITED_QUEUE
            | FAN_UNLIMITED_MARKS
    );

    // FAN_REPORT_MNT is deliberately NOT in the admin set.  If it ever were,
    // creating a mount group would become admin-only and the "the capability is
    // checked at the mark" note would be wrong.
    assert_eq!(
        FANOTIFY_ADMIN_INIT_FLAGS & FAN_REPORT_MNT,
        0,
        "FAN_REPORT_MNT is not an admin-only init flag in the kernel"
    );
    // And the classes are not FID bits, nor the other way round.
    assert_eq!(FANOTIFY_FID_BITS & FAN_ALL_CLASS_BITS, 0);
    // Every init flag is inside FAN_ALL_INIT_FLAGS.
    assert_eq!(FAN_ALL_INIT_FLAGS & FAN_ALL_CLASS_BITS, FAN_ALL_CLASS_BITS);
    assert_eq!(
        FAN_ALL_INIT_FLAGS & FANOTIFY_ADMIN_INIT_FLAGS,
        FANOTIFY_ADMIN_INIT_FLAGS
    );
}

#[test]
fn the_mark_flags_are_where_the_kernel_says_they_are() {
    assert_eq!(FAN_MARK_ADD, 0x0000_0001);
    assert_eq!(FAN_MARK_REMOVE, 0x0000_0002);
    assert_eq!(FAN_MARK_DONT_FOLLOW, 0x0000_0004);
    assert_eq!(FAN_MARK_ONLYDIR, 0x0000_0008);
    assert_eq!(FAN_MARK_MOUNT, 0x0000_0010);
    assert_eq!(FAN_MARK_IGNORED_MASK, 0x0000_0020);
    assert_eq!(FAN_MARK_IGNORED_SURV_MODIFY, 0x0000_0040);
    assert_eq!(FAN_MARK_FLUSH, 0x0000_0080);
    assert_eq!(FAN_MARK_FILESYSTEM, 0x0000_0100);
    assert_eq!(FAN_MARK_EVICTABLE, 0x0000_0200);
    assert_eq!(FAN_MARK_IGNORE, 0x0000_0400);

    // The inode anchor is encoded as zero, which is why "no anchor" and "inode"
    // are the same request.
    assert_eq!(FAN_MARK_INODE, 0x0000_0000);

    // FAN_MARK_MNTNS is not a fresh bit: its value is
    // FAN_MARK_FILESYSTEM | FAN_MARK_MOUNT.  A crate that invented a bit for it
    // would build a mark the kernel does not have, and one that treated it as a
    // single bit would test it wrongly.
    assert_eq!(FAN_MARK_MNTNS, 0x0000_0110);
    assert_eq!(FAN_MARK_MNTNS, FAN_MARK_FILESYSTEM | FAN_MARK_MOUNT);
    assert_eq!(FAN_MARK_MNTNS & FAN_MARK_FILESYSTEM, FAN_MARK_FILESYSTEM);
    assert_eq!(FAN_MARK_MNTNS & FAN_MARK_MOUNT, FAN_MARK_MOUNT);
    assert_eq!(FAN_MARK_MNTNS & FAN_MARK_IGNORED_MASK, 0);
    assert_eq!(
        FAN_MARK_IGNORE_SURV,
        FAN_MARK_IGNORE | FAN_MARK_IGNORED_SURV_MODIFY
    );

    // FAN_ALL_MARK_FLAGS is this crate's union of every flag the header
    // defines, because the header's own macro of that name is deprecated there
    // and frozen before FAN_MARK_FILESYSTEM, FAN_MARK_EVICTABLE and
    // FAN_MARK_IGNORE existed.  Each flag must be inside it.
    for (name, flag) in [
        ("FAN_MARK_ADD", FAN_MARK_ADD),
        ("FAN_MARK_REMOVE", FAN_MARK_REMOVE),
        ("FAN_MARK_FLUSH", FAN_MARK_FLUSH),
        ("FAN_MARK_EVICTABLE", FAN_MARK_EVICTABLE),
        ("FAN_MARK_IGNORE", FAN_MARK_IGNORE),
        ("FAN_MARK_MOUNT", FAN_MARK_MOUNT),
        ("FAN_MARK_FILESYSTEM", FAN_MARK_FILESYSTEM),
        ("FAN_MARK_IGNORED_SURV_MODIFY", FAN_MARK_IGNORED_SURV_MODIFY),
    ] {
        assert_eq!(
            FAN_ALL_MARK_FLAGS & flag,
            flag,
            "{name} must be inside FAN_ALL_MARK_FLAGS"
        );
    }
    assert_eq!(FAN_MARK_ADD & FAN_MARK_REMOVE, 0);
    assert_eq!(FAN_MARK_ADD & FAN_MARK_FLUSH, 0);
    // FAN_MARK_MNTNS is a *sum* of two other flags, so it is not a single bit
    // and must not be treated as one — that is the whole reason it is called
    // out here.
    assert_ne!(FAN_MARK_MNTNS.count_ones(), 1);

    assert_eq!(AT_FDCWD, -100);
    // AT_EMPTY_PATH is a `fcntl.h` flag for the `*at` calls that take it, and
    // it must be the header's value: `handle_from_fd` relies on it to name an
    // object by descriptor while `Fanotify::mark_fd` deliberately does not,
    // because `fanotify_mark` refuses it as an unknown flag (asserted against
    // the kernel in `tests/group.rs`).
    assert_eq!(AT_EMPTY_PATH, libc::AT_EMPTY_PATH);
    assert_eq!(AT_EMPTY_PATH, 0x1000);
    assert_eq!(AT_EMPTY_PATH as u32 & FAN_ALL_MARK_FLAGS, 0);
}

#[test]
fn the_event_mask_bits_are_where_the_kernel_says_they_are() {
    // The event types occupy the low 25 bits in the header's order, one bit
    // each, and every one of them is distinct.  Checking distinctness catches
    // the typo that matters most — a duplicated bit would make two different
    // events indistinguishable.
    let single_bits: &[(&str, u64)] = &[
        ("FAN_ACCESS", FAN_ACCESS),
        ("FAN_MODIFY", FAN_MODIFY),
        ("FAN_ATTRIB", FAN_ATTRIB),
        ("FAN_CLOSE_WRITE", FAN_CLOSE_WRITE),
        ("FAN_CLOSE_NOWRITE", FAN_CLOSE_NOWRITE),
        ("FAN_OPEN", FAN_OPEN),
        ("FAN_MOVED_FROM", FAN_MOVED_FROM),
        ("FAN_MOVED_TO", FAN_MOVED_TO),
        ("FAN_CREATE", FAN_CREATE),
        ("FAN_DELETE", FAN_DELETE),
        ("FAN_DELETE_SELF", FAN_DELETE_SELF),
        ("FAN_MOVE_SELF", FAN_MOVE_SELF),
        ("FAN_OPEN_EXEC", FAN_OPEN_EXEC),
        ("FAN_Q_OVERFLOW", FAN_Q_OVERFLOW),
        ("FAN_FS_ERROR", FAN_FS_ERROR),
        ("FAN_OPEN_PERM", FAN_OPEN_PERM),
        ("FAN_ACCESS_PERM", FAN_ACCESS_PERM),
        ("FAN_OPEN_EXEC_PERM", FAN_OPEN_EXEC_PERM),
        ("FAN_PRE_ACCESS", FAN_PRE_ACCESS),
        ("FAN_MNT_ATTACH", FAN_MNT_ATTACH),
        ("FAN_MNT_DETACH", FAN_MNT_DETACH),
        ("FAN_EVENT_ON_CHILD", FAN_EVENT_ON_CHILD),
        ("FAN_RENAME", FAN_RENAME),
        ("FAN_ONDIR", FAN_ONDIR),
    ];

    for (i, (name, value)) in single_bits.iter().enumerate() {
        assert_eq!(
            value.count_ones(),
            1,
            "{name} must be one bit, got 0x{value:x}"
        );
        for (other_name, other) in &single_bits[i + 1..] {
            assert_ne!(
                value, other,
                "{name} and {other_name} must be different bits"
            );
        }
    }

    // The kernel's literal values, for the ones an event can report back.
    assert_eq!(FAN_ACCESS, 0x0000_0001);
    assert_eq!(FAN_OPEN, 0x0000_0020);
    assert_eq!(FAN_CREATE, 0x0000_0100);
    assert_eq!(FAN_DELETE, 0x0000_0200);
    assert_eq!(FAN_Q_OVERFLOW, 0x0000_4000);
    assert_eq!(FAN_MNT_ATTACH, 0x0100_0000);
    assert_eq!(FAN_MNT_DETACH, 0x0200_0000);
    assert_eq!(FAN_EVENT_ON_CHILD, 0x0800_0000);
    assert_eq!(FAN_RENAME, 0x1000_0000);
    assert_eq!(FAN_ONDIR, 0x4000_0000);

    // The aggregates, as relationships.
    assert_eq!(FAN_CLOSE, FAN_CLOSE_WRITE | FAN_CLOSE_NOWRITE);
    assert_eq!(FAN_MOVE, FAN_MOVED_FROM | FAN_MOVED_TO);
    assert_eq!(FANOTIFY_MOUNT_EVENTS, FAN_MNT_ATTACH | FAN_MNT_DETACH);
    assert_eq!(
        FAN_ALL_EVENTS & (FAN_CLOSE_WRITE | FAN_CLOSE_NOWRITE),
        FAN_CLOSE_WRITE | FAN_CLOSE_NOWRITE
    );
    assert_eq!(
        FAN_ALL_PERM_EVENTS,
        FAN_OPEN_PERM | FAN_ACCESS_PERM | FAN_OPEN_EXEC_PERM
    );
    assert_eq!(
        FAN_ALL_OUTGOING_EVENTS,
        FAN_ALL_EVENTS | FAN_ALL_PERM_EVENTS | FAN_Q_OVERFLOW
    );

    // FANOTIFY_MOUNT_EVENTS and the ordinary events are disjoint: a mount group
    // cannot carry inode events, which is what the kernel's mask check enforces.
    assert_eq!(FANOTIFY_MOUNT_EVENTS & FAN_ALL_EVENTS, 0);
    assert_eq!(FANOTIFY_MOUNT_EVENTS & FAN_ALL_PERM_EVENTS, 0);
}

#[test]
fn the_info_types_and_sentinels_are_where_the_kernel_says_they_are() {
    assert_eq!(FAN_EVENT_INFO_TYPE_FID, 1);
    assert_eq!(FAN_EVENT_INFO_TYPE_DFID_NAME, 2);
    assert_eq!(FAN_EVENT_INFO_TYPE_DFID, 3);
    assert_eq!(FAN_EVENT_INFO_TYPE_PIDFD, 4);
    assert_eq!(FAN_EVENT_INFO_TYPE_ERROR, 5);
    assert_eq!(FAN_EVENT_INFO_TYPE_RANGE, 6);
    assert_eq!(FAN_EVENT_INFO_TYPE_MNT, 7);
    // 8 and 9 are unused in the header, and 10/12 are the rename pair — a gap
    // the crate must not "tidy up" by renumbering.
    assert_eq!(FAN_EVENT_INFO_TYPE_OLD_DFID_NAME, 10);
    assert_eq!(FAN_EVENT_INFO_TYPE_NEW_DFID_NAME, 12);
    assert_eq!(FANOTIFY_METADATA_VERSION, 3);

    assert_eq!(FAN_ALLOW, 0x01);
    assert_eq!(FAN_DENY, 0x02);
    assert_eq!(FAN_AUDIT, 0x10);
    assert_eq!(FAN_INFO, 0x20);
    assert_eq!(FAN_RESPONSE_INFO_NONE, 0);
    assert_eq!(FAN_RESPONSE_INFO_AUDIT_RULE, 1);

    // The errno field is the response's upper byte.
    assert_eq!(FAN_ERRNO_BITS, 8);
    assert_eq!(FAN_ERRNO_SHIFT, 24);
    assert_eq!(FAN_ERRNO_MASK, 0xFF);

    assert_eq!(FAN_NOFD, -1);
    assert_eq!(FAN_NOPIDFD, FAN_NOFD);
    // The two pidfd sentinels are NOT interchangeable: the kernel writes
    // FAN_NOPIDFD for "the process is gone" specifically and FAN_EPIDFD for
    // every other failure.
    assert_eq!(FAN_EPIDFD, -2);
    assert_ne!(FAN_NOPIDFD, FAN_EPIDFD);

    assert_eq!(MAX_HANDLE_SZ, 128);
    assert_eq!(AT_HANDLE_FID, 0x200);
}

#[test]
fn every_named_event_bit_appears_in_the_names_table() {
    // `mask_to_event_names` is the one place a bit's name is written down, and a
    // bit missing from it makes a diagnostic silently incomplete — which is
    // exactly what an overflowing queue must not be.
    let bits: &[(&str, u64)] = &[
        ("FAN_ACCESS", FAN_ACCESS),
        ("FAN_MODIFY", FAN_MODIFY),
        ("FAN_ATTRIB", FAN_ATTRIB),
        ("FAN_CLOSE_WRITE", FAN_CLOSE_WRITE),
        ("FAN_CLOSE_NOWRITE", FAN_CLOSE_NOWRITE),
        ("FAN_OPEN", FAN_OPEN),
        ("FAN_MOVED_FROM", FAN_MOVED_FROM),
        ("FAN_MOVED_TO", FAN_MOVED_TO),
        ("FAN_CREATE", FAN_CREATE),
        ("FAN_DELETE", FAN_DELETE),
        ("FAN_DELETE_SELF", FAN_DELETE_SELF),
        ("FAN_MOVE_SELF", FAN_MOVE_SELF),
        ("FAN_OPEN_EXEC", FAN_OPEN_EXEC),
        ("FAN_Q_OVERFLOW", FAN_Q_OVERFLOW),
        ("FAN_FS_ERROR", FAN_FS_ERROR),
        ("FAN_OPEN_PERM", FAN_OPEN_PERM),
        ("FAN_ACCESS_PERM", FAN_ACCESS_PERM),
        ("FAN_OPEN_EXEC_PERM", FAN_OPEN_EXEC_PERM),
        ("FAN_PRE_ACCESS", FAN_PRE_ACCESS),
        ("FAN_MNT_ATTACH", FAN_MNT_ATTACH),
        ("FAN_MNT_DETACH", FAN_MNT_DETACH),
        ("FAN_EVENT_ON_CHILD", FAN_EVENT_ON_CHILD),
        ("FAN_RENAME", FAN_RENAME),
        ("FAN_ONDIR", FAN_ONDIR),
    ];

    for (flag_name, bit) in bits {
        let named = mask_to_event_names(*bit).len();
        assert_eq!(named, 1, "{flag_name} must have exactly one name");
    }

    // The aggregates decompose into the bits that have names, so a combined
    // mask names every bit it holds.
    assert_eq!(
        mask_to_event_names(FAN_CREATE | FAN_DELETE | FAN_ONDIR),
        ["CREATE", "DELETE", "ONDIR"],
        "names come out in the table's order, which is the header's bit order"
    );
    // A bit with no name is not invented: the mask is a bitfield and this is a
    // debugging aid, not a classification.
    assert_eq!(mask_to_event_names(0).len(), 0);
    assert_eq!(
        mask_to_event_names(0x8000_0000).len(),
        0,
        "an unassigned bit has no name rather than a wrong one"
    );
}

#[test]
fn the_errnos_are_those_of_the_system() {
    for (ours, system) in [
        (EPERM, libc::EPERM),
        (ENOENT, libc::ENOENT),
        (EINTR, libc::EINTR),
        (EIO, libc::EIO),
        (EBADF, libc::EBADF),
        (EAGAIN, libc::EAGAIN),
        (ENOMEM, libc::ENOMEM),
        (EXDEV, libc::EXDEV),
        (ENODEV, libc::ENODEV),
        (ENOTDIR, libc::ENOTDIR),
        (EINVAL, libc::EINVAL),
        (EMFILE, libc::EMFILE),
        (ENOSPC, libc::ENOSPC),
        (ENOSYS, libc::ENOSYS),
        (EOVERFLOW, libc::EOVERFLOW),
        (EOPNOTSUPP, libc::EOPNOTSUPP),
    ] {
        assert_eq!(ours, system);
    }
}
