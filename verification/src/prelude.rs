//! The names most callers need, in one import.
//!
//! Listed rather than wildcarded: what is here is what an event loop uses, and
//! the modules stay for the rest.
pub use crate::consts::{
    FAN_CLOEXEC, FAN_NONBLOCK, FAN_CLASS_NOTIF, FAN_CLASS_CONTENT, FAN_CLASS_PRE_CONTENT,
    FAN_ALL_CLASS_BITS, FAN_UNLIMITED_QUEUE, FAN_UNLIMITED_MARKS, FAN_ENABLE_AUDIT,
    FAN_REPORT_PIDFD, FAN_REPORT_TID, FAN_REPORT_FID, FAN_REPORT_DIR_FID, FAN_REPORT_NAME,
    FAN_REPORT_TARGET_FID, FAN_REPORT_FD_ERROR, FAN_REPORT_MNT, FAN_REPORT_DFID_NAME,
    FAN_REPORT_DFID_NAME_TARGET, FAN_ALL_INIT_FLAGS, FAN_MARK_ADD, FAN_MARK_REMOVE,
    FAN_MARK_DONT_FOLLOW, FAN_MARK_ONLYDIR, FAN_MARK_MOUNT, FAN_MARK_IGNORED_MASK,
    FAN_MARK_IGNORED_SURV_MODIFY, FAN_MARK_FLUSH, FAN_MARK_FILESYSTEM, FAN_MARK_EVICTABLE,
    FAN_MARK_IGNORE, FAN_MARK_INODE, FAN_MARK_MNTNS, FAN_MARK_IGNORE_SURV, FAN_ALL_MARK_FLAGS,
    AT_FDCWD, AT_EMPTY_PATH, FAN_ACCESS, FAN_MODIFY, FAN_ATTRIB, FAN_CLOSE_WRITE,
    FAN_CLOSE_NOWRITE, FAN_OPEN, FAN_MOVED_FROM, FAN_MOVED_TO, FAN_CREATE, FAN_DELETE,
    FAN_DELETE_SELF, FAN_MOVE_SELF, FAN_OPEN_EXEC, FAN_Q_OVERFLOW, FAN_FS_ERROR, FAN_OPEN_PERM,
    FAN_ACCESS_PERM, FAN_OPEN_EXEC_PERM, FAN_PRE_ACCESS, FAN_MNT_ATTACH, FAN_MNT_DETACH,
    FAN_EVENT_ON_CHILD, FAN_RENAME, FAN_ONDIR, FAN_CLOSE, FAN_MOVE, FAN_ALL_EVENTS,
    FAN_ALL_PERM_EVENTS, FAN_ALL_OUTGOING_EVENTS, FAN_EVENT_INFO_TYPE_FID,
    FAN_EVENT_INFO_TYPE_DFID_NAME, FAN_EVENT_INFO_TYPE_DFID, FAN_EVENT_INFO_TYPE_PIDFD,
    FAN_EVENT_INFO_TYPE_ERROR, FAN_EVENT_INFO_TYPE_RANGE, FAN_EVENT_INFO_TYPE_MNT,
    FAN_EVENT_INFO_TYPE_OLD_DFID_NAME, FAN_EVENT_INFO_TYPE_NEW_DFID_NAME,
    FANOTIFY_METADATA_VERSION, FAN_ALLOW, FAN_DENY, FAN_AUDIT, FAN_INFO, FAN_ERRNO_BITS,
    FAN_ERRNO_SHIFT, FAN_ERRNO_MASK, FAN_RESPONSE_INFO_NONE, FAN_RESPONSE_INFO_AUDIT_RULE,
    FAN_NOFD, FAN_NOPIDFD, FAN_EPIDFD, MAX_HANDLE_SZ, AT_HANDLE_FID, mask_to_event_names,
};
pub use crate::error::{FanotifyError, Result};
pub use crate::fd::{parse_fd_events, FdEvent};
pub use crate::fid::{
    parse_fid_events, parse_fid_events_into, parse_fid_events_reported, FidEvent, Pidfd, RenameSide,
};
pub use crate::group::{EventReader, Fanotify, FdEventReader};
pub use crate::handle::{
    resolve_file_handle, resolve_file_handle_in, Candidate, FileHandle, Fsid, HandleCache, Mounts,
    NoCache, PathStore,
};
pub use crate::parse::{EventStop, ParseReport};
pub use crate::resolve::{EventResolution, PathResolver, Resolution};
pub use crate::response::FanotifyResponse;
pub use crate::sys::{fanotify_init, fanotify_mark};
