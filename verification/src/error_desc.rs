//! Concise descriptions of errnos, one table per system call.
use std::borrow::Cow;
use vstd::prelude::*;

use crate::consts::{
    EAGAIN, EBADF, EINTR, EINVAL, EMFILE, ENODEV, ENOENT, ENOMEM, ENOSPC, ENOSYS, ENOTDIR,
    EOPNOTSUPP, EOVERFLOW, EPERM, EXDEV,
};
use crate::error::around;
use crate::text::decimal;

verus! {

/// What an errno means to `fanotify_init`, in short.
pub open spec fn errno_desc_init_text(code: i32) -> Seq<char> {
    if code == EINVAL {
        INIT_EINVAL@
    } else if code == EMFILE {
        INIT_EMFILE@
    } else if code == ENOMEM {
        INIT_ENOMEM@
    } else if code == ENOSYS {
        INIT_ENOSYS@
    } else if code == EPERM {
        INIT_EPERM@
    } else {
        INIT_BEFORE_CODE@ + decimal(code as int) + INIT_AFTER_CODE@
    }
}

/// What an errno means to `fanotify_mark`, in short.
pub open spec fn errno_desc_mark_text(code: i32) -> Seq<char> {
    if code == EBADF {
        MARK_EBADF@
    } else if code == EINVAL {
        MARK_EINVAL@
    } else if code == ENODEV {
        MARK_ENODEV@
    } else if code == ENOENT {
        MARK_ENOENT@
    } else if code == ENOMEM {
        MARK_ENOMEM@
    } else if code == ENOSPC {
        MARK_ENOSPC@
    } else if code == ENOSYS {
        MARK_ENOSYS@
    } else if code == ENOTDIR {
        MARK_ENOTDIR@
    } else if code == EOPNOTSUPP {
        MARK_EOPNOTSUPP@
    } else if code == EXDEV {
        MARK_EXDEV@
    } else {
        MARK_BEFORE_CODE@ + decimal(code as int) + MARK_AFTER_CODE@
    }
}

/// What an errno means to a read of the event queue, in short.
pub open spec fn errno_desc_read_text(code: i32) -> Seq<char> {
    if code == EAGAIN {
        READ_EAGAIN@
    } else if code == EBADF {
        READ_EBADF@
    } else if code == EINTR {
        READ_EINTR@
    } else if code == ENOMEM {
        READ_ENOMEM@
    } else {
        READ_BEFORE_CODE@ + decimal(code as int) + READ_AFTER_CODE@
    }
}

/// What an errno means to `open_by_handle_at`, in short.
pub open spec fn errno_desc_handle_text(code: i32) -> Seq<char> {
    if code == EBADF {
        HANDLE_EBADF@
    } else if code == ENOENT {
        HANDLE_ENOENT@
    } else if code == EINVAL {
        HANDLE_EINVAL@
    } else if code == EOVERFLOW {
        HANDLE_EOVERFLOW@
    } else if code == EOPNOTSUPP {
        HANDLE_EOPNOTSUPP@
    } else {
        HANDLE_BEFORE_CODE@ + decimal(code as int) + HANDLE_AFTER_CODE@
    }
}

/// What an errno means to `fanotify_init`, in short.
pub fn errno_desc_init(code: i32) -> (r: Cow<'static, str>)
    ensures
        r@ == errno_desc_init_text(code),
{
    if code == EINVAL {
        Cow::Borrowed(INIT_EINVAL)
    } else if code == EMFILE {
        Cow::Borrowed(INIT_EMFILE)
    } else if code == ENOMEM {
        Cow::Borrowed(INIT_ENOMEM)
    } else if code == ENOSYS {
        Cow::Borrowed(INIT_ENOSYS)
    } else if code == EPERM {
        Cow::Borrowed(INIT_EPERM)
    } else {
        Cow::Owned(around(INIT_BEFORE_CODE, code, INIT_AFTER_CODE))
    }
}

/// What an errno means to `fanotify_mark`, in short.
pub fn errno_desc_mark(code: i32) -> (r: Cow<'static, str>)
    ensures
        r@ == errno_desc_mark_text(code),
{
    if code == EBADF {
        Cow::Borrowed(MARK_EBADF)
    } else if code == EINVAL {
        Cow::Borrowed(MARK_EINVAL)
    } else if code == ENODEV {
        Cow::Borrowed(MARK_ENODEV)
    } else if code == ENOENT {
        Cow::Borrowed(MARK_ENOENT)
    } else if code == ENOMEM {
        Cow::Borrowed(MARK_ENOMEM)
    } else if code == ENOSPC {
        Cow::Borrowed(MARK_ENOSPC)
    } else if code == ENOSYS {
        Cow::Borrowed(MARK_ENOSYS)
    } else if code == ENOTDIR {
        Cow::Borrowed(MARK_ENOTDIR)
    } else if code == EOPNOTSUPP {
        Cow::Borrowed(MARK_EOPNOTSUPP)
    } else if code == EXDEV {
        Cow::Borrowed(MARK_EXDEV)
    } else {
        Cow::Owned(around(MARK_BEFORE_CODE, code, MARK_AFTER_CODE))
    }
}

/// What an errno means to a read of the event queue, in short.
pub fn errno_desc_read(code: i32) -> (r: Cow<'static, str>)
    ensures
        r@ == errno_desc_read_text(code),
{
    if code == EAGAIN {
        Cow::Borrowed(READ_EAGAIN)
    } else if code == EBADF {
        Cow::Borrowed(READ_EBADF)
    } else if code == EINTR {
        Cow::Borrowed(READ_EINTR)
    } else if code == ENOMEM {
        Cow::Borrowed(READ_ENOMEM)
    } else {
        Cow::Owned(around(READ_BEFORE_CODE, code, READ_AFTER_CODE))
    }
}

/// What an errno means to `open_by_handle_at`, in short.
pub fn errno_desc_handle(code: i32) -> (r: Cow<'static, str>)
    ensures
        r@ == errno_desc_handle_text(code),
{
    if code == EBADF {
        Cow::Borrowed(HANDLE_EBADF)
    } else if code == ENOENT {
        Cow::Borrowed(HANDLE_ENOENT)
    } else if code == EINVAL {
        Cow::Borrowed(HANDLE_EINVAL)
    } else if code == EOVERFLOW {
        Cow::Borrowed(HANDLE_EOVERFLOW)
    } else if code == EOPNOTSUPP {
        Cow::Borrowed(HANDLE_EOPNOTSUPP)
    } else {
        Cow::Owned(around(HANDLE_BEFORE_CODE, code, HANDLE_AFTER_CODE))
    }
}

/// What `EINVAL` means to `fanotify_init`, in short.
pub const INIT_EINVAL: &'static str =
    "Invalid flags — check FAN_REPORT_NAME requires FAN_REPORT_DIR_FID";

/// What `EMFILE` means to `fanotify_init`, in short.
pub const INIT_EMFILE: &'static str =
    "Too many fanotify groups (per-user limit: 128)";

/// What `ENOMEM` means to `fanotify_init`, in short.
pub const INIT_ENOMEM: &'static str =
    "Out of memory";

/// What `ENOSYS` means to `fanotify_init`, in short.
pub const INIT_ENOSYS: &'static str =
    "Kernel does not support fanotify (CONFIG_FANOTIFY missing)";

/// What `EPERM` means to `fanotify_init`, in short.
pub const INIT_EPERM: &'static str =
    "Need CAP_SYS_ADMIN capability";

/// What is said of any other errno, before its number.
pub const INIT_BEFORE_CODE: &'static str = "Unknown error (errno=";

/// What is said of any other errno, behind its number.
pub const INIT_AFTER_CODE: &'static str =
    ").  See fanotify_init(2) for details.";

/// What `EBADF` means to `fanotify_mark`, in short.
pub const MARK_EBADF: &'static str =
    "Invalid file descriptor";

/// What `EINVAL` means to `fanotify_mark`, in short.
pub const MARK_EINVAL: &'static str =
    "Invalid flags or mask, or wrong notification class";

/// What `ENODEV` means to `fanotify_mark`, in short.
pub const MARK_ENODEV: &'static str =
    "Filesystem does not support fsid";

/// What `ENOENT` means to `fanotify_mark`, in short.
pub const MARK_ENOENT: &'static str =
    "Path does not exist";

/// What `ENOMEM` means to `fanotify_mark`, in short.
pub const MARK_ENOMEM: &'static str =
    "Out of memory";

/// What `ENOSPC` means to `fanotify_mark`, in short.
pub const MARK_ENOSPC: &'static str =
    "Too many marks (exceeded 8192 limit)";

/// What `ENOSYS` means to `fanotify_mark`, in short.
pub const MARK_ENOSYS: &'static str =
    "Kernel does not implement fanotify_mark";

/// What `ENOTDIR` means to `fanotify_mark`, in short.
pub const MARK_ENOTDIR: &'static str =
    "FAN_MARK_ONLYDIR specified but path is not a directory";

/// What `EOPNOTSUPP` means to `fanotify_mark`, in short.
pub const MARK_EOPNOTSUPP: &'static str =
    "Filesystem does not support file handles";

/// What `EXDEV` means to `fanotify_mark`, in short.
pub const MARK_EXDEV: &'static str =
    "Filesystem subvolume uses a different fsid";

/// What is said of any other errno, before its number.
pub const MARK_BEFORE_CODE: &'static str = "Unknown error (errno=";

/// What is said of any other errno, behind its number.
pub const MARK_AFTER_CODE: &'static str =
    ").  See fanotify_mark(2) for details.";

/// What `EAGAIN` means to a read of the event queue, in short.
pub const READ_EAGAIN: &'static str =
    "No events available (non-blocking fd)";

/// What `EBADF` means to a read of the event queue, in short.
pub const READ_EBADF: &'static str =
    "Invalid file descriptor";

/// What `EINTR` means to a read of the event queue, in short.
pub const READ_EINTR: &'static str =
    "Interrupted by signal — retry";

/// What `ENOMEM` means to a read of the event queue, in short.
pub const READ_ENOMEM: &'static str =
    "Out of memory";

/// What is said of any other errno, before its number.
pub const READ_BEFORE_CODE: &'static str = "Unknown error (errno=";

/// What is said of any other errno, behind its number.
pub const READ_AFTER_CODE: &'static str =
    ").  See fanotify_read(2) for details.";

/// What `EBADF` means to `open_by_handle_at`, in short.
pub const HANDLE_EBADF: &'static str =
    "Invalid mount file descriptor";

/// What `ENOENT` means to `open_by_handle_at`, in short.
pub const HANDLE_ENOENT: &'static str =
    "File or directory does not exist (deleted or handle stale)";

/// What `EINVAL` means to `open_by_handle_at`, in short.
pub const HANDLE_EINVAL: &'static str =
    "Invalid handle or flags";

/// What `EOVERFLOW` means to `open_by_handle_at`, in short.
pub const HANDLE_EOVERFLOW: &'static str =
    "Handle buffer too small";

/// What `EOPNOTSUPP` means to `open_by_handle_at`, in short.
pub const HANDLE_EOPNOTSUPP: &'static str =
    "Filesystem does not support file handles";

/// What is said of any other errno, before its number.
pub const HANDLE_BEFORE_CODE: &'static str = "Unknown error (errno=";

/// What is said of any other errno, behind its number.
pub const HANDLE_AFTER_CODE: &'static str =
    ").  See name_to_handle_at(2) for details.";

/// An errno that a call has nothing to say about is named by its number, and every
/// other one has its own description.
pub proof fn an_errno_has_its_own_meaning(code: i32)
    ensures
        match code {
            22 => errno_desc_init_text(code) == INIT_EINVAL@,
            24 => errno_desc_init_text(code) == INIT_EMFILE@,
            12 => errno_desc_init_text(code) == INIT_ENOMEM@,
            38 => errno_desc_init_text(code) == INIT_ENOSYS@,
            1 => errno_desc_init_text(code) == INIT_EPERM@,
            _ => errno_desc_init_text(code) == "Unknown error (errno="@ + decimal(code as int)
                + INIT_AFTER_CODE@,
        },
        match code {
            9 => errno_desc_mark_text(code) == MARK_EBADF@,
            22 => errno_desc_mark_text(code) == MARK_EINVAL@,
            19 => errno_desc_mark_text(code) == MARK_ENODEV@,
            2 => errno_desc_mark_text(code) == MARK_ENOENT@,
            12 => errno_desc_mark_text(code) == MARK_ENOMEM@,
            28 => errno_desc_mark_text(code) == MARK_ENOSPC@,
            38 => errno_desc_mark_text(code) == MARK_ENOSYS@,
            20 => errno_desc_mark_text(code) == MARK_ENOTDIR@,
            95 => errno_desc_mark_text(code) == MARK_EOPNOTSUPP@,
            18 => errno_desc_mark_text(code) == MARK_EXDEV@,
            _ => errno_desc_mark_text(code) == "Unknown error (errno="@ + decimal(code as int)
                + MARK_AFTER_CODE@,
        },
        match code {
            11 => errno_desc_read_text(code) == READ_EAGAIN@,
            9 => errno_desc_read_text(code) == READ_EBADF@,
            4 => errno_desc_read_text(code) == READ_EINTR@,
            12 => errno_desc_read_text(code) == READ_ENOMEM@,
            _ => errno_desc_read_text(code) == "Unknown error (errno="@ + decimal(code as int)
                + READ_AFTER_CODE@,
        },
        match code {
            9 => errno_desc_handle_text(code) == HANDLE_EBADF@,
            2 => errno_desc_handle_text(code) == HANDLE_ENOENT@,
            22 => errno_desc_handle_text(code) == HANDLE_EINVAL@,
            75 => errno_desc_handle_text(code) == HANDLE_EOVERFLOW@,
            95 => errno_desc_handle_text(code) == HANDLE_EOPNOTSUPP@,
            _ => errno_desc_handle_text(code) == "Unknown error (errno="@ + decimal(code as int)
                + HANDLE_AFTER_CODE@,
        },
{
}

/// A description is the text that is stated for its errno.
pub proof fn a_description_is_what_is_stated()
    ensures
        forall|code: i32, r: Cow<'static, str>|
            #[trigger] call_ensures(errno_desc_init, (code,), r) ==> r@ == errno_desc_init_text(
                code,
            ),
        forall|code: i32, r: Cow<'static, str>|
            #[trigger] call_ensures(errno_desc_mark, (code,), r) ==> r@ == errno_desc_mark_text(
                code,
            ),
        forall|code: i32, r: Cow<'static, str>|
            #[trigger] call_ensures(errno_desc_read, (code,), r) ==> r@ == errno_desc_read_text(
                code,
            ),
        forall|code: i32, r: Cow<'static, str>|
            #[trigger] call_ensures(errno_desc_handle, (code,), r) ==> r@ == errno_desc_handle_text(
                code,
            ),
{
}

} // verus!
