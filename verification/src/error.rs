//! The one error type this crate returns, and what each errno means.
//!
//! The kernel's own errno is preserved; what is added is a description of what
//! it means *for that particular system call*, since the same number means
//! different things to each of them.
use std::borrow::Cow;
use vstd::prelude::*;
use vstd::string::StringExecFns;

use crate::consts::{
    EAGAIN, EBADF, EINTR, EINVAL, EMFILE, ENODEV, ENOENT, ENOMEM, ENOSPC, ENOSYS, ENOTDIR,
    EOPNOTSUPP, EPERM, EXDEV,
};
use crate::text::{decimal, push_decimal};

verus! {

/// Everything that can go wrong, with the **kernel's own errno preserved**.
///
/// The variant tells which operation failed; the payload is the raw errno.
#[non_exhaustive]
#[derive(Debug, Clone, Copy, PartialEq, Eq, Structural)]
pub enum FanotifyError {
    /// `fanotify_init` failed.
    Init(i32),
    /// `fanotify_mark` failed.
    Mark(i32),
    /// A `read` on the fanotify descriptor failed.
    Read(i32),
    /// A write of a permission response failed.
    Write(i32),
    /// The bytes read are not fanotify events: `vers` was not
    /// `FANOTIFY_METADATA_VERSION`.
    UnknownEventVersion(u8),
}

/// The message of an error.
pub open spec fn message_of(error: FanotifyError) -> Seq<char> {
    match error {
        FanotifyError::Init(code) => "fanotify_init failed (errno="@ + decimal(code as int)
            + "): "@ + describe_init_text(code),
        FanotifyError::Mark(code) => "fanotify_mark failed (errno="@ + decimal(code as int)
            + "): "@ + describe_mark_text(code),
        FanotifyError::Read(code) => "fanotify read failed (errno="@ + decimal(code as int)
            + "): "@ + describe_read_text(code),
        FanotifyError::Write(code) => "fanotify response write failed (errno="@ + decimal(
            code as int,
        ) + "): "@ + describe_write_text(code),
        FanotifyError::UnknownEventVersion(vers) =>
            "buffer is not a fanotify event: metadata.vers = "@ + decimal(vers as int)
            + UNKNOWN_VERSION_TAIL@,
    }
}

/// How the message about an unknown version ends.
pub const UNKNOWN_VERSION_TAIL: &'static str =
    ", expected 3.  This usually means the descriptor is not a fanotify group";

impl FanotifyError {
    /// The raw errno this error carries, or `None` for a variant that is not a
    /// system call's failure.
    pub fn errno(&self) -> (r: Option<i32>)
        ensures
            r == (match *self {
                FanotifyError::Init(code) => Some(code),
                FanotifyError::Mark(code) => Some(code),
                FanotifyError::Read(code) => Some(code),
                FanotifyError::Write(code) => Some(code),
                FanotifyError::UnknownEventVersion(_) => None,
            }),
    {
        match *self {
            FanotifyError::Init(code) => Some(code),
            FanotifyError::Mark(code) => Some(code),
            FanotifyError::Read(code) => Some(code),
            FanotifyError::Write(code) => Some(code),
            FanotifyError::UnknownEventVersion(_) => None,
        }
    }

    /// Whether the error says that an empty queue was read without blocking: not
    /// a failure, but the signal to wait.
    pub fn is_would_block(&self) -> (r: bool)
        ensures
            r == (*self == FanotifyError::Read(EAGAIN)),
    {
        match *self {
            FanotifyError::Read(code) => code == EAGAIN,
            _ => false,
        }
    }

    /// The error as a message: the operation, the errno, and what it means there.
    pub fn message(&self) -> (r: String)
        ensures
            r@ == message_of(*self),
    {
        match *self {
            FanotifyError::Init(code) => failed(
                "fanotify_init failed (errno=",
                code,
                &describe_init(code),
            ),
            FanotifyError::Mark(code) => failed(
                "fanotify_mark failed (errno=",
                code,
                &describe_mark(code),
            ),
            FanotifyError::Read(code) => failed(
                "fanotify read failed (errno=",
                code,
                &describe_read(code),
            ),
            FanotifyError::Write(code) => failed(
                "fanotify response write failed (errno=",
                code,
                &describe_write(code),
            ),
            FanotifyError::UnknownEventVersion(vers) => around(
                "buffer is not a fanotify event: metadata.vers = ",
                vers as i32,
                UNKNOWN_VERSION_TAIL,
            ),
        }
    }
}

/// `Result` with this crate's error type.
pub type Result<T> = std::result::Result<T, FanotifyError>;

/// A number between two texts.
pub(crate) fn around(before: &str, code: i32, after: &str) -> (r: String)
    ensures
        r@ == before@ + decimal(code as int) + after@,
{
    let mut out = String::new();
    out.append(before);
    push_decimal(&mut out, code as i64);
    out.append(after);
    assert(out@ =~= before@ + decimal(code as int) + after@);
    out
}

/// The message of a failed system call.
fn failed(operation: &str, code: i32, description: &Cow<'static, str>) -> (r: String)
    ensures
        r@ == operation@ + decimal(code as int) + "): "@ + description@,
{
    let mut out = around(operation, code, "): ");
    match description {
        Cow::Borrowed(text) => out.append(text),
        Cow::Owned(text) => out.append(text.as_str()),
    }
    out
}

/// What an errno means to `fanotify_init`.
pub open spec fn describe_init_text(code: i32) -> Seq<char> {
    if code == EINVAL {
        INIT_EINVAL@
    } else if code == EPERM {
        INIT_EPERM@
    } else if code == EMFILE {
        INIT_EMFILE@
    } else if code == ENOMEM {
        INIT_ENOMEM@
    } else if code == ENOSYS {
        INIT_ENOSYS@
    } else {
        INIT_BEFORE_CODE@ + decimal(code as int) + INIT_AFTER_CODE@
    }
}

/// What an errno means to `fanotify_mark`.
pub open spec fn describe_mark_text(code: i32) -> Seq<char> {
    if code == EINVAL {
        MARK_EINVAL@
    } else if code == EPERM {
        MARK_EPERM@
    } else if code == ENOENT {
        MARK_ENOENT@
    } else if code == EBADF {
        MARK_EBADF@
    } else if code == ENOTDIR {
        MARK_ENOTDIR@
    } else if code == EOPNOTSUPP {
        MARK_EOPNOTSUPP@
    } else if code == ENOSPC {
        MARK_ENOSPC@
    } else if code == ENODEV {
        MARK_ENODEV@
    } else if code == EXDEV {
        MARK_EXDEV@
    } else if code == ENOMEM {
        MARK_ENOMEM@
    } else if code == ENOSYS {
        MARK_ENOSYS@
    } else {
        MARK_BEFORE_CODE@ + decimal(code as int) + MARK_AFTER_CODE@
    }
}

/// What an errno means to a read of the event queue.
pub open spec fn describe_read_text(code: i32) -> Seq<char> {
    if code == EAGAIN {
        READ_EAGAIN@
    } else if code == EINTR {
        READ_EINTR@
    } else if code == EINVAL {
        READ_EINVAL@
    } else if code == EBADF {
        READ_EBADF@
    } else if code == ENOMEM {
        READ_ENOMEM@
    } else {
        READ_BEFORE_CODE@ + decimal(code as int) + READ_AFTER_CODE@
    }
}

/// What an errno means to the write of a response.
pub open spec fn describe_write_text(code: i32) -> Seq<char> {
    if code == EINVAL {
        WRITE_EINVAL@
    } else if code == ENOENT {
        WRITE_ENOENT@
    } else if code == EBADF {
        WRITE_EBADF@
    } else {
        WRITE_BEFORE_CODE@ + decimal(code as int) + WRITE_AFTER_CODE@
    }
}

/// What an errno means to `fanotify_init`.
pub fn describe_init(code: i32) -> (r: Cow<'static, str>)
    ensures
        r@ == describe_init_text(code),
{
    if code == EINVAL {
        Cow::Borrowed(INIT_EINVAL)
    } else if code == EPERM {
        Cow::Borrowed(INIT_EPERM)
    } else if code == EMFILE {
        Cow::Borrowed(INIT_EMFILE)
    } else if code == ENOMEM {
        Cow::Borrowed(INIT_ENOMEM)
    } else if code == ENOSYS {
        Cow::Borrowed(INIT_ENOSYS)
    } else {
        Cow::Owned(around(INIT_BEFORE_CODE, code, INIT_AFTER_CODE))
    }
}

/// What an errno means to `fanotify_mark`.
pub fn describe_mark(code: i32) -> (r: Cow<'static, str>)
    ensures
        r@ == describe_mark_text(code),
{
    if code == EINVAL {
        Cow::Borrowed(MARK_EINVAL)
    } else if code == EPERM {
        Cow::Borrowed(MARK_EPERM)
    } else if code == ENOENT {
        Cow::Borrowed(MARK_ENOENT)
    } else if code == EBADF {
        Cow::Borrowed(MARK_EBADF)
    } else if code == ENOTDIR {
        Cow::Borrowed(MARK_ENOTDIR)
    } else if code == EOPNOTSUPP {
        Cow::Borrowed(MARK_EOPNOTSUPP)
    } else if code == ENOSPC {
        Cow::Borrowed(MARK_ENOSPC)
    } else if code == ENODEV {
        Cow::Borrowed(MARK_ENODEV)
    } else if code == EXDEV {
        Cow::Borrowed(MARK_EXDEV)
    } else if code == ENOMEM {
        Cow::Borrowed(MARK_ENOMEM)
    } else if code == ENOSYS {
        Cow::Borrowed(MARK_ENOSYS)
    } else {
        Cow::Owned(around(MARK_BEFORE_CODE, code, MARK_AFTER_CODE))
    }
}

/// What an errno means to a read of the event queue.
pub fn describe_read(code: i32) -> (r: Cow<'static, str>)
    ensures
        r@ == describe_read_text(code),
{
    if code == EAGAIN {
        Cow::Borrowed(READ_EAGAIN)
    } else if code == EINTR {
        Cow::Borrowed(READ_EINTR)
    } else if code == EINVAL {
        Cow::Borrowed(READ_EINVAL)
    } else if code == EBADF {
        Cow::Borrowed(READ_EBADF)
    } else if code == ENOMEM {
        Cow::Borrowed(READ_ENOMEM)
    } else {
        Cow::Owned(around(READ_BEFORE_CODE, code, READ_AFTER_CODE))
    }
}

/// What an errno means to the write of a response.
pub fn describe_write(code: i32) -> (r: Cow<'static, str>)
    ensures
        r@ == describe_write_text(code),
{
    if code == EINVAL {
        Cow::Borrowed(WRITE_EINVAL)
    } else if code == ENOENT {
        Cow::Borrowed(WRITE_ENOENT)
    } else if code == EBADF {
        Cow::Borrowed(WRITE_EBADF)
    } else {
        Cow::Owned(around(WRITE_BEFORE_CODE, code, WRITE_AFTER_CODE))
    }
}

/// What `EINVAL` means to `fanotify_init`.
pub const INIT_EINVAL: &'static str =
    "The kernel rejected this flag combination.  Its rules: FAN_REPORT_PIDFD excludes \
     FAN_REPORT_TID; FAN_REPORT_MNT excludes every FID flag, FAN_REPORT_FD_ERROR, and \
     any class other than FAN_CLASS_NOTIF; any FID flag excludes FAN_CLASS_CONTENT and \
     FAN_CLASS_PRE_CONTENT; FAN_REPORT_NAME requires FAN_REPORT_DIR_FID; \
     FAN_REPORT_TARGET_FID requires both FAN_REPORT_NAME and FAN_REPORT_FID";

/// What `EPERM` means to `fanotify_init`.
pub const INIT_EPERM: &'static str =
    "Need CAP_SYS_ADMIN for the flags requested.  Without it, a group must be \
     FAN_CLASS_NOTIF and must set a FID flag or FAN_REPORT_MNT — a bare FAN_CLASS_NOTIF \
     group with no report flag is refused too, so pass FAN_REPORT_FID (or \
     FAN_REPORT_DIR_FID) if that was the intent";

/// What `EMFILE` means to `fanotify_init`.
pub const INIT_EMFILE: &'static str =
    "Too many fanotify groups (per-user limit is 128)";

/// What `ENOMEM` means to `fanotify_init`.
pub const INIT_ENOMEM: &'static str =
    "Out of memory";

/// What `ENOSYS` means to `fanotify_init`.
pub const INIT_ENOSYS: &'static str =
    "This kernel has no fanotify (CONFIG_FANOTIFY is off)";

/// What is said of any other errno, before its number.
pub const INIT_BEFORE_CODE: &'static str = "Unknown errno ";

/// What is said of any other errno, behind its number.
pub const INIT_AFTER_CODE: &'static str =
    ".  See fanotify_init(2) for the full list.";

/// What `EINVAL` means to `fanotify_mark`.
pub const MARK_EINVAL: &'static str =
    "The mark mask or anchor flags do not fit this group.  The kernel checks here (not \
     at fanotify_init): a FAN_REPORT_MNT group takes only FAN_MARK_MNTNS with a mask \
     drawn from FAN_MNT_ATTACH/FAN_MNT_DETACH, every other group rejects both of those, \
     an inode mark needs a path, and FAN_RENAME needs a group with FAN_REPORT_NAME";

/// What `EPERM` means to `fanotify_mark`.
pub const MARK_EPERM: &'static str =
    "Need CAP_SYS_ADMIN.  An unprivileged group may place FAN_MARK_INODE marks only — \
     and that limit is about the anchor, not the file: marking a root-owned file \
     succeeds";

/// What `ENOENT` means to `fanotify_mark`.
pub const MARK_ENOENT: &'static str =
    "The path does not exist";

/// What `EBADF` means to `fanotify_mark`.
pub const MARK_EBADF: &'static str =
    "The fanotify descriptor, or the dirfd, is not open";

/// What `ENOTDIR` means to `fanotify_mark`.
pub const MARK_ENOTDIR: &'static str =
    "FAN_MARK_ONLYDIR was set but the path is not a directory";

/// What `EOPNOTSUPP` means to `fanotify_mark`.
pub const MARK_EOPNOTSUPP: &'static str =
    "The filesystem cannot decode the file handles its events would carry, so only \
     FAN_MARK_INODE is allowed on it.  Filesystems that hand out synthetic \
     FILEID_INO64_GEN handles (procfs, sysfs, debugfs, ...) always answer this way";

/// What `ENOSPC` means to `fanotify_mark`.
pub const MARK_ENOSPC: &'static str =
    "Mark limit reached (8192 per group; FAN_UNLIMITED_MARKS lifts it)";

/// What `ENODEV` means to `fanotify_mark`.
pub const MARK_ENODEV: &'static str =
    "The filesystem does not support fsid";

/// What `EXDEV` means to `fanotify_mark`.
pub const MARK_EXDEV: &'static str =
    "The path crosses into a filesystem with a different fsid";

/// What `ENOMEM` means to `fanotify_mark`.
pub const MARK_ENOMEM: &'static str =
    "Out of memory";

/// What `ENOSYS` means to `fanotify_mark`.
pub const MARK_ENOSYS: &'static str =
    "This kernel does not implement fanotify_mark";

/// What is said of any other errno, before its number.
pub const MARK_BEFORE_CODE: &'static str = "Unknown errno ";

/// What is said of any other errno, behind its number.
pub const MARK_AFTER_CODE: &'static str =
    ".  See fanotify_mark(2) for the full list.";

/// What `EAGAIN` means to a read of the event queue.
pub const READ_EAGAIN: &'static str =
    "No events are queued (non-blocking group); see fanotify_read(2)";

/// What `EINTR` means to a read of the event queue.
pub const READ_EINTR: &'static str =
    "Interrupted by a signal before any event arrived; retry";

/// What `EINVAL` means to a read of the event queue.
pub const READ_EINVAL: &'static str =
    "The buffer is too small for the next event.  fanotify never delivers a partial \
     event, so the buffer must hold the largest one — a long entry name is what makes \
     an event big";

/// What `EBADF` means to a read of the event queue.
pub const READ_EBADF: &'static str =
    "The fanotify descriptor is not open for reading";

/// What `ENOMEM` means to a read of the event queue.
pub const READ_ENOMEM: &'static str =
    "Out of memory";

/// What is said of any other errno, before its number.
pub const READ_BEFORE_CODE: &'static str = "Unknown errno ";

/// What is said of any other errno, behind its number.
pub const READ_AFTER_CODE: &'static str =
    ".  See fanotify_read(2) for the full list.";

/// What `EINVAL` means to the write of a response.
pub const WRITE_EINVAL: &'static str =
    "The kernel refused the response: the group lacks FAN_ENABLE_AUDIT, the errno in a \
     deny is not one it accepts, or the record layout does not match the flags";

/// What `ENOENT` means to the write of a response.
pub const WRITE_ENOENT: &'static str =
    "There is no pending permission event to answer, or the descriptor named is not a \
     descriptor the event carried";

/// What `EBADF` means to the write of a response.
pub const WRITE_EBADF: &'static str =
    "The fanotify descriptor is not open for writing";

/// What is said of any other errno, before its number.
pub const WRITE_BEFORE_CODE: &'static str = "Unknown errno ";

/// What is said of any other errno, behind its number.
pub const WRITE_AFTER_CODE: &'static str =
    ".  See fanotify_write(2) for the full list.";

/// A message says which operation failed, then the errno as a number, then what it
/// means there.
pub proof fn a_message_names_operation_and_errno(
    error: FanotifyError,
    message: String,
    meaning: Cow<'static, str>,
)
    requires
        call_ensures(FanotifyError::message, (&error,), message),
        match error {
            FanotifyError::Init(code) => call_ensures(describe_init, (code,), meaning),
            FanotifyError::Mark(code) => call_ensures(describe_mark, (code,), meaning),
            FanotifyError::Read(code) => call_ensures(describe_read, (code,), meaning),
            FanotifyError::Write(code) => call_ensures(describe_write, (code,), meaning),
            FanotifyError::UnknownEventVersion(_) => true,
        },
    ensures
        match error {
            FanotifyError::Init(code) => message@ == "fanotify_init failed (errno="@ + decimal(
                code as int,
            ) + "): "@ + meaning@,
            FanotifyError::Mark(code) => message@ == "fanotify_mark failed (errno="@ + decimal(
                code as int,
            ) + "): "@ + meaning@,
            FanotifyError::Read(code) => message@ == "fanotify read failed (errno="@ + decimal(
                code as int,
            ) + "): "@ + meaning@,
            FanotifyError::Write(code) => message@ == "fanotify response write failed (errno="@
                + decimal(code as int) + "): "@ + meaning@,
            FanotifyError::UnknownEventVersion(vers) => exists|tail: Seq<char>|
                message@ == #[trigger] ("buffer is not a fanotify event: metadata.vers = "@
                    + decimal(vers as int) + tail),
        },
{
}

/// An errno that an operation has nothing to say about is named by its number, and
/// every other one has its own description.
pub proof fn an_errno_has_its_own_meaning(code: i32)
    ensures
        match code {
            22 => describe_init_text(code) == INIT_EINVAL@,
            1 => describe_init_text(code) == INIT_EPERM@,
            24 => describe_init_text(code) == INIT_EMFILE@,
            12 => describe_init_text(code) == INIT_ENOMEM@,
            38 => describe_init_text(code) == INIT_ENOSYS@,
            _ => describe_init_text(code) == "Unknown errno "@ + decimal(code as int)
                + INIT_AFTER_CODE@,
        },
        match code {
            22 => describe_mark_text(code) == MARK_EINVAL@,
            1 => describe_mark_text(code) == MARK_EPERM@,
            2 => describe_mark_text(code) == MARK_ENOENT@,
            9 => describe_mark_text(code) == MARK_EBADF@,
            20 => describe_mark_text(code) == MARK_ENOTDIR@,
            95 => describe_mark_text(code) == MARK_EOPNOTSUPP@,
            28 => describe_mark_text(code) == MARK_ENOSPC@,
            19 => describe_mark_text(code) == MARK_ENODEV@,
            18 => describe_mark_text(code) == MARK_EXDEV@,
            12 => describe_mark_text(code) == MARK_ENOMEM@,
            38 => describe_mark_text(code) == MARK_ENOSYS@,
            _ => describe_mark_text(code) == "Unknown errno "@ + decimal(code as int)
                + MARK_AFTER_CODE@,
        },
        match code {
            11 => describe_read_text(code) == READ_EAGAIN@,
            4 => describe_read_text(code) == READ_EINTR@,
            22 => describe_read_text(code) == READ_EINVAL@,
            9 => describe_read_text(code) == READ_EBADF@,
            12 => describe_read_text(code) == READ_ENOMEM@,
            _ => describe_read_text(code) == "Unknown errno "@ + decimal(code as int)
                + READ_AFTER_CODE@,
        },
        match code {
            22 => describe_write_text(code) == WRITE_EINVAL@,
            2 => describe_write_text(code) == WRITE_ENOENT@,
            9 => describe_write_text(code) == WRITE_EBADF@,
            _ => describe_write_text(code) == "Unknown errno "@ + decimal(code as int)
                + WRITE_AFTER_CODE@,
        },
{
}

/// An error gives back the errno that it was made of, and only an empty queue is a
/// reason to wait: 11, from a read.
pub proof fn an_error_keeps_its_errno(error: FanotifyError, code: Option<i32>, wait: bool)
    requires
        call_ensures(FanotifyError::errno, (&error,), code),
        call_ensures(FanotifyError::is_would_block, (&error,), wait),
    ensures
        code matches Some(errno) ==> error == FanotifyError::Init(errno) || error
            == FanotifyError::Mark(errno) || error == FanotifyError::Read(errno) || error
            == FanotifyError::Write(errno),
        code is None <==> error is UnknownEventVersion,
        wait <==> error == FanotifyError::Read(11),
{
}

/// A description is the text that is stated for its errno.
pub proof fn a_description_is_what_is_stated()
    ensures
        forall|code: i32, r: Cow<'static, str>|
            #[trigger] call_ensures(describe_init, (code,), r) ==> r@ == describe_init_text(code),
        forall|code: i32, r: Cow<'static, str>|
            #[trigger] call_ensures(describe_mark, (code,), r) ==> r@ == describe_mark_text(code),
        forall|code: i32, r: Cow<'static, str>|
            #[trigger] call_ensures(describe_read, (code,), r) ==> r@ == describe_read_text(code),
        forall|code: i32, r: Cow<'static, str>|
            #[trigger] call_ensures(describe_write, (code,), r) ==> r@ == describe_write_text(code),
{
}

} // verus!
