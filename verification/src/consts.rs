//! `FAN_*` constants from the Linux kernel UAPI header `linux/fanotify.h`, and
//! the errno numbers this crate tells apart.
//!
//! Each value is the numeric literal the header gives it.  No constant carries
//! behaviour, and none of them is validated here: the kernel is the authority
//! on what a given combination does.
//!
//! * Several flags are encoded as **zero** ([`FAN_CLASS_NOTIF`],
//!   [`FAN_MARK_INODE`]), so "absent" and "chosen" are the same bit pattern.
//! * The aggregates ([`FAN_ALL_INIT_FLAGS`], [`FANOTIFY_FID_BITS`], ...) are the
//!   header's own macros.  They are useful for *reading* a group's flags back,
//!   not for requesting anything.
use vstd::prelude::*;

verus! {

// fanotify_init(2) flags

/// `FAN_CLOEXEC` — set close-on-exec on the fanotify descriptor.
pub const FAN_CLOEXEC: u32 = 0x0000_0001;

/// `FAN_NONBLOCK` — `read` returns `EAGAIN` instead of waiting.
pub const FAN_NONBLOCK: u32 = 0x0000_0002;

/// `FAN_CLASS_NOTIF` — report events after they happen; no decision is awaited.
///
/// This is the class encoded as **zero**, so it is also what an omitted class
/// means.  It is not the "unprivileged" class: a group with no report flag at
/// all requires `CAP_SYS_ADMIN` regardless of its class.
pub const FAN_CLASS_NOTIF: u32 = 0x0000_0000;

/// `FAN_CLASS_CONTENT` — report permission events for content access.
///
/// An admin-only class, and **mutually exclusive with every FID flag**: the
/// kernel rejects the combination with `EINVAL`, because a permission event must
/// hand the process a descriptor to decide on, while file-handle identity exists
/// precisely so the kernel does *not* hold one.
pub const FAN_CLASS_CONTENT: u32 = 0x0000_0004;

/// `FAN_CLASS_PRE_CONTENT` — report permission events before content is
/// available.  Admin-only, and exclusive with the FID flags like
/// [`FAN_CLASS_CONTENT`].
pub const FAN_CLASS_PRE_CONTENT: u32 = 0x0000_0008;

/// `FAN_ALL_CLASS_BITS` — the union of the three classes.
pub const FAN_ALL_CLASS_BITS: u32 = FAN_CLASS_NOTIF | FAN_CLASS_CONTENT | FAN_CLASS_PRE_CONTENT;

/// `FAN_UNLIMITED_QUEUE` — lift the per-group event-queue limit.
/// Requires `CAP_SYS_ADMIN`.
pub const FAN_UNLIMITED_QUEUE: u32 = 0x0000_0010;

/// `FAN_UNLIMITED_MARKS` — lift the per-group mark limit.
/// Requires `CAP_SYS_ADMIN`.
pub const FAN_UNLIMITED_MARKS: u32 = 0x0000_0020;

/// `FAN_ENABLE_AUDIT` — allow `FAN_AUDIT` responses.
/// Requires `CAP_AUDIT_WRITE`, **not** `CAP_SYS_ADMIN`.
pub const FAN_ENABLE_AUDIT: u32 = 0x0000_0040;

/// `FAN_REPORT_PIDFD` — add a pidfd record to every event.
/// Requires `CAP_SYS_ADMIN`; mutually exclusive with [`FAN_REPORT_TID`].
pub const FAN_REPORT_PIDFD: u32 = 0x0000_0080;

/// `FAN_REPORT_TID` — report a thread id in `metadata.pid` instead of a pid.
/// Requires `CAP_SYS_ADMIN`; mutually exclusive with [`FAN_REPORT_PIDFD`].
pub const FAN_REPORT_TID: u32 = 0x0000_0100;

/// `FAN_REPORT_FID` — identify objects by file handle + fsid rather than by an
/// open descriptor.  The base flag of FID identity.
pub const FAN_REPORT_FID: u32 = 0x0000_0200;

/// `FAN_REPORT_DIR_FID` — report the parent directory's handle for
/// directory-entry events.  Requires nothing beyond being a FID group.
pub const FAN_REPORT_DIR_FID: u32 = 0x0000_0400;

/// `FAN_REPORT_NAME` — include the entry name alongside the parent handle.
/// Requires [`FAN_REPORT_DIR_FID`]; the kernel rejects it alone with `EINVAL`.
pub const FAN_REPORT_NAME: u32 = 0x0000_0800;

/// `FAN_REPORT_TARGET_FID` — include the child's own handle for directory-entry
/// events.  Requires **both** [`FAN_REPORT_NAME`] and [`FAN_REPORT_FID`].
pub const FAN_REPORT_TARGET_FID: u32 = 0x0000_1000;

/// `FAN_REPORT_FD_ERROR` — let `metadata.fd` carry a negative errno explaining
/// why an event descriptor could not be opened, instead of only `FAN_NOFD`.
/// Requires `CAP_SYS_ADMIN`; mutually exclusive with [`FAN_REPORT_MNT`].
pub const FAN_REPORT_FD_ERROR: u32 = 0x0000_2000;

/// `FAN_REPORT_MNT` — report mount attach/detach events, identified by mount ID.
///
/// Requires `CAP_SYS_ADMIN`, requires [`FAN_CLASS_NOTIF`], and is mutually
/// exclusive with every FID flag and with [`FAN_REPORT_FD_ERROR`].  A group
/// created with it can only be marked with [`FAN_MARK_MNTNS`], and only with a
/// mask drawn from [`FAN_MNT_ATTACH`] / [`FAN_MNT_DETACH`] — that second rule is
/// checked by `fanotify_mark`, not by `fanotify_init`.
pub const FAN_REPORT_MNT: u32 = 0x0000_4000;

/// `FAN_REPORT_DFID_NAME` — `FAN_REPORT_DIR_FID | FAN_REPORT_NAME`.
pub const FAN_REPORT_DFID_NAME: u32 = FAN_REPORT_DIR_FID | FAN_REPORT_NAME;

/// `FAN_REPORT_DFID_NAME_TARGET` —
/// `FAN_REPORT_DFID_NAME | FAN_REPORT_FID | FAN_REPORT_TARGET_FID`.
pub const FAN_REPORT_DFID_NAME_TARGET: u32 =
    FAN_REPORT_DFID_NAME | FAN_REPORT_FID | FAN_REPORT_TARGET_FID;

/// `FANOTIFY_FID_BITS` — the union of the four FID flags.
///
/// The kernel treats a group as having file-handle identity when **any** of
/// these bits is set, which is why "is this a FID group" is a bit test and not
/// an equality test.  Reading it back is useful; asking for it is a mistake (it
/// would set `FAN_REPORT_TARGET_FID` without its prerequisites).
pub const FANOTIFY_FID_BITS: u32 =
    FAN_REPORT_FID | FAN_REPORT_DIR_FID | FAN_REPORT_NAME | FAN_REPORT_TARGET_FID;

/// `FANOTIFY_ADMIN_INIT_FLAGS` — the init flags that require `CAP_SYS_ADMIN`.
///
/// The kernel's rule is a single test: without `CAP_SYS_ADMIN`, a request that
/// sets any of these bits, or that sets no FID bit and no [`FAN_REPORT_MNT`],
/// is refused with `EPERM`.  Note what that does *not* include — a FID group's
/// inode marks need no capability, and neither does marking a file it does not
/// own.
pub const FANOTIFY_ADMIN_INIT_FLAGS: u32 = FAN_CLASS_CONTENT
    | FAN_CLASS_PRE_CONTENT
    | FAN_REPORT_TID
    | FAN_REPORT_PIDFD
    | FAN_REPORT_FD_ERROR
    | FAN_UNLIMITED_QUEUE
    | FAN_UNLIMITED_MARKS;

/// `FAN_ALL_INIT_FLAGS` — every flag `fanotify_init` accepts.
pub const FAN_ALL_INIT_FLAGS: u32 = FAN_CLOEXEC
    | FAN_NONBLOCK
    | FAN_ALL_CLASS_BITS
    | FAN_UNLIMITED_QUEUE
    | FAN_UNLIMITED_MARKS
    | FAN_ENABLE_AUDIT
    | FAN_REPORT_PIDFD
    | FAN_REPORT_TID
    | FAN_REPORT_FID
    | FAN_REPORT_DIR_FID
    | FAN_REPORT_NAME
    | FAN_REPORT_TARGET_FID
    | FAN_REPORT_FD_ERROR
    | FAN_REPORT_MNT;

// fanotify_mark(2) flags

/// `FAN_MARK_ADD` — add the mask bits to the mark.
pub const FAN_MARK_ADD: u32 = 0x0000_0001;

/// `FAN_MARK_REMOVE` — remove the mask bits from the mark.
pub const FAN_MARK_REMOVE: u32 = 0x0000_0002;

/// `FAN_MARK_DONT_FOLLOW` — mark a symlink itself, not its target.
pub const FAN_MARK_DONT_FOLLOW: u32 = 0x0000_0004;

/// `FAN_MARK_ONLYDIR` — fail with `ENOTDIR` if the object is not a directory.
pub const FAN_MARK_ONLYDIR: u32 = 0x0000_0008;

/// `FAN_MARK_MOUNT` — anchor the mark at the mount point: every object on that
/// mount is covered.  Requires `CAP_SYS_ADMIN`.
pub const FAN_MARK_MOUNT: u32 = 0x0000_0010;

/// `FAN_MARK_IGNORED_MASK` — apply the mask to the ignore mask instead.
pub const FAN_MARK_IGNORED_MASK: u32 = 0x0000_0020;

/// `FAN_MARK_IGNORED_SURV_MODIFY` — the ignore mask survives a modify event.
pub const FAN_MARK_IGNORED_SURV_MODIFY: u32 = 0x0000_0040;

/// `FAN_MARK_FLUSH` — drop every mark the group holds.
///
/// The kernel ignores the path and requires a zero mask for this call.
pub const FAN_MARK_FLUSH: u32 = 0x0000_0080;

/// `FAN_MARK_FILESYSTEM` — anchor the mark at the filesystem: every object on it
/// is covered.  Requires `CAP_SYS_ADMIN`, and the filesystem must be able to
/// decode the handles its events will carry.
pub const FAN_MARK_FILESYSTEM: u32 = 0x0000_0100;

/// `FAN_MARK_EVICTABLE` — let the kernel evict the inode mark under memory
/// pressure (inode marks only).
pub const FAN_MARK_EVICTABLE: u32 = 0x0000_0200;

/// `FAN_MARK_IGNORE` — the modern replacement for [`FAN_MARK_IGNORED_MASK`],
/// with different semantics for which events the ignore mask suppresses.
pub const FAN_MARK_IGNORE: u32 = 0x0000_0400;

/// `FAN_MARK_INODE` — anchor the mark at the inode named by the path/fd.
///
/// Encoded as **zero**, so it is also what "no anchor flag" means.  It is the
/// only anchor an unprivileged group may use — and *not* because of file
/// ownership: marking a root-owned file succeeds.
pub const FAN_MARK_INODE: u32 = 0x0000_0000;

/// `FAN_MARK_MNTNS` — anchor the mark at a mount namespace (Linux 6.14+).
///
/// The only anchor a [`FAN_REPORT_MNT`] group can use.
///
/// Its value, `0x110`, is **not a fresh bit**: it is
/// `FAN_MARK_FILESYSTEM | FAN_MARK_MOUNT`, a combination the older kernels had
/// no name for.  Treat it as one opaque constant — testing it with `&` against
/// a single bit, or adding it to a mask that already holds either half, is a
/// mistake this value's shape invites.
pub const FAN_MARK_MNTNS: u32 = 0x0000_0110;

/// `FAN_MARK_IGNORE_SURV` — `FAN_MARK_IGNORE | FAN_MARK_IGNORED_SURV_MODIFY`.
pub const FAN_MARK_IGNORE_SURV: u32 = FAN_MARK_IGNORE | FAN_MARK_IGNORED_SURV_MODIFY;

/// The flags `fanotify_mark` accepts in `flags`.
///
/// **Not the header's [`FAN_ALL_MARK_FLAGS`]**, which is marked deprecated
/// there and frozen at the eight flags that existed when it was written — it
/// omits [`FAN_MARK_FILESYSTEM`], [`FAN_MARK_EVICTABLE`] and
/// [`FAN_MARK_IGNORE`], all of which the kernel accepts today.  This is the
/// union of every flag the header defines, which is what the name promises.
pub const FAN_ALL_MARK_FLAGS: u32 = FAN_MARK_ADD
    | FAN_MARK_REMOVE
    | FAN_MARK_DONT_FOLLOW
    | FAN_MARK_ONLYDIR
    | FAN_MARK_MOUNT
    | FAN_MARK_IGNORED_MASK
    | FAN_MARK_IGNORED_SURV_MODIFY
    | FAN_MARK_FLUSH
    | FAN_MARK_FILESYSTEM
    | FAN_MARK_EVICTABLE
    | FAN_MARK_IGNORE
    | FAN_MARK_MNTNS;

/// `AT_FDCWD` — resolve the mark's path relative to the current directory.
pub const AT_FDCWD: i32 = -100;

/// `AT_EMPTY_PATH` from `linux/fcntl.h` — operate on the object a descriptor
/// names, with an empty path.
///
/// The `*at` calls that take it — `name_to_handle_at`, `linkat`, `fstatat`,
/// `readlinkat` — then act on the `dirfd` object itself, which is the
/// TOCTOU-free way to name it: no path is walked, so no rename can change what
/// the descriptor means.
///
/// **`fanotify_mark` is not one of those calls.**  Its descriptor form is a
/// `NULL` pathname with the object's descriptor as `dirfd` — the kernel takes
/// the path straight from the descriptor — and it answers `EINVAL` for this
/// flag like any other bit it does not know.
pub const AT_EMPTY_PATH: i32 = 0x1000;

// Event mask bits

/// `FAN_ACCESS` — the object was read.
pub const FAN_ACCESS: u64 = 0x0000_0001;
/// `FAN_MODIFY` — the object was written.
pub const FAN_MODIFY: u64 = 0x0000_0002;
/// `FAN_ATTRIB` — metadata changed.
pub const FAN_ATTRIB: u64 = 0x0000_0004;
/// `FAN_CLOSE_WRITE` — a file open for writing was closed.
pub const FAN_CLOSE_WRITE: u64 = 0x0000_0008;
/// `FAN_CLOSE_NOWRITE` — a file open read-only was closed.
pub const FAN_CLOSE_NOWRITE: u64 = 0x0000_0010;
/// `FAN_OPEN` — the object was opened.
pub const FAN_OPEN: u64 = 0x0000_0020;
/// `FAN_MOVED_FROM` — a directory entry was renamed away from here.
pub const FAN_MOVED_FROM: u64 = 0x0000_0040;
/// `FAN_MOVED_TO` — a directory entry was renamed to here.
pub const FAN_MOVED_TO: u64 = 0x0000_0080;
/// `FAN_CREATE` — a directory entry was created.
pub const FAN_CREATE: u64 = 0x0000_0100;
/// `FAN_DELETE` — a directory entry was deleted.
pub const FAN_DELETE: u64 = 0x0000_0200;
/// `FAN_DELETE_SELF` — the marked object itself was deleted.
pub const FAN_DELETE_SELF: u64 = 0x0000_0400;
/// `FAN_MOVE_SELF` — the marked object itself was renamed.
pub const FAN_MOVE_SELF: u64 = 0x0000_0800;
/// `FAN_OPEN_EXEC` — the object was opened for execution.
pub const FAN_OPEN_EXEC: u64 = 0x0000_1000;

/// `FAN_Q_OVERFLOW` — the queue overflowed and events were dropped.
///
/// This is not an event about an object: it is the kernel saying that an
/// unknown number of events never arrived, and they cannot be recovered from the
/// queue.  It carries no info records, no handle and no useful pid.  The limit
/// is 16384 events unless the group was created with [`FAN_UNLIMITED_QUEUE`].
pub const FAN_Q_OVERFLOW: u64 = 0x0000_4000;

/// `FAN_FS_ERROR` — a filesystem error was detected.  Requires a filesystem
/// mark, which requires `CAP_SYS_ADMIN`.
pub const FAN_FS_ERROR: u64 = 0x0000_8000;

/// `FAN_OPEN_PERM` — permission check before an open.
pub const FAN_OPEN_PERM: u64 = 0x0001_0000;
/// `FAN_ACCESS_PERM` — permission check before a read.
pub const FAN_ACCESS_PERM: u64 = 0x0002_0000;
/// `FAN_OPEN_EXEC_PERM` — permission check before an exec open.
pub const FAN_OPEN_EXEC_PERM: u64 = 0x0004_0000;

/// `FAN_PRE_ACCESS` — pre-content access hook (Linux 6.13+): the event is
/// delivered *before* the read and carries a range record.
pub const FAN_PRE_ACCESS: u64 = 0x0010_0000;

/// `FAN_MNT_ATTACH` — a mount was attached to the namespace.  Only a
/// [`FAN_REPORT_MNT`] group can be marked for it.
pub const FAN_MNT_ATTACH: u64 = 0x0100_0000;

/// `FAN_MNT_DETACH` — a mount was detached from the namespace.
pub const FAN_MNT_DETACH: u64 = 0x0200_0000;

/// `FAN_EVENT_ON_CHILD` — also report events on the marked object's immediate
/// children.  It is a modifier, not an event type.
///
/// Two things it is easy to get wrong:
///
/// * It reaches **immediate** children only.  It never makes a mark cover a
///   subtree, so covering a tree means one mark per directory, placed by you.
/// * It only changes anything for masks that are about an **object** —
///   [`FAN_OPEN`], [`FAN_ACCESS`], [`FAN_MODIFY`],
///   [`FAN_CLOSE_WRITE`], the `_PERM` events.  Without it,
///   those are reported for the marked object alone.  The directory-**entry**
///   events ([`FAN_CREATE`], [`FAN_DELETE`], [`FAN_MOVED_FROM`],
///   [`FAN_MOVED_TO`], [`FAN_RENAME`]) are only ever about a child and need no
///   flag.
pub const FAN_EVENT_ON_CHILD: u64 = 0x0800_0000;

/// `FAN_RENAME` — an entry was renamed within the watched object.
///
/// Needs a group with [`FAN_REPORT_NAME`]; the kernel rejects the mark, not the
/// group, when that is missing.  Carries up to two records — the source side and
/// the target side — and only for the side(s) the mark matched.
pub const FAN_RENAME: u64 = 0x1000_0000;

/// `FAN_ONDIR` — report events on directories too, not only on files.
pub const FAN_ONDIR: u64 = 0x4000_0000;

/// `FAN_CLOSE` — `FAN_CLOSE_WRITE | FAN_CLOSE_NOWRITE`.
pub const FAN_CLOSE: u64 = FAN_CLOSE_WRITE | FAN_CLOSE_NOWRITE;

/// `FAN_MOVE` — `FAN_MOVED_FROM | FAN_MOVED_TO`.
pub const FAN_MOVE: u64 = FAN_MOVED_FROM | FAN_MOVED_TO;

/// `FANOTIFY_MOUNT_EVENTS` — the only mask bits a [`FAN_REPORT_MNT`] group's
/// marks may name.
pub const FANOTIFY_MOUNT_EVENTS: u64 = FAN_MNT_ATTACH | FAN_MNT_DETACH;

/// `FAN_ALL_EVENTS` — every non-permission event type, overflow excluded.
pub const FAN_ALL_EVENTS: u64 =
    FAN_ACCESS | FAN_MODIFY | FAN_ATTRIB | FAN_CLOSE | FAN_OPEN | FAN_OPEN_EXEC;

/// `FAN_ALL_PERM_EVENTS` — every permission event type.
pub const FAN_ALL_PERM_EVENTS: u64 = FAN_OPEN_PERM | FAN_ACCESS_PERM | FAN_OPEN_EXEC_PERM;

/// `FAN_ALL_OUTGOING_EVENTS` — everything a group can be marked to receive.
pub const FAN_ALL_OUTGOING_EVENTS: u64 = FAN_ALL_EVENTS | FAN_ALL_PERM_EVENTS | FAN_Q_OVERFLOW;

// `fanotify_event_info_header.info_type`

/// `FAN_EVENT_INFO_TYPE_FID` — handle of the object the event is about.
pub const FAN_EVENT_INFO_TYPE_FID: u8 = 1;
/// `FAN_EVENT_INFO_TYPE_DFID_NAME` — parent directory handle + entry name.
pub const FAN_EVENT_INFO_TYPE_DFID_NAME: u8 = 2;
/// `FAN_EVENT_INFO_TYPE_DFID` — parent directory handle, no name.
pub const FAN_EVENT_INFO_TYPE_DFID: u8 = 3;
/// `FAN_EVENT_INFO_TYPE_PIDFD` — pidfd of the process that caused the event.
pub const FAN_EVENT_INFO_TYPE_PIDFD: u8 = 4;
/// `FAN_EVENT_INFO_TYPE_ERROR` — filesystem error code and repeat count.
pub const FAN_EVENT_INFO_TYPE_ERROR: u8 = 5;
/// `FAN_EVENT_INFO_TYPE_RANGE` — byte range of a `FAN_PRE_ACCESS` event.
pub const FAN_EVENT_INFO_TYPE_RANGE: u8 = 6;
/// `FAN_EVENT_INFO_TYPE_MNT` — mount ID of a mount event.
pub const FAN_EVENT_INFO_TYPE_MNT: u8 = 7;
/// `FAN_EVENT_INFO_TYPE_OLD_DFID_NAME` — rename source: parent handle + old name.
pub const FAN_EVENT_INFO_TYPE_OLD_DFID_NAME: u8 = 10;
/// `FAN_EVENT_INFO_TYPE_NEW_DFID_NAME` — rename target: parent handle + new name.
pub const FAN_EVENT_INFO_TYPE_NEW_DFID_NAME: u8 = 12;

/// `FANOTIFY_METADATA_VERSION` — the value `metadata.vers` carries.
///
/// It has been 3 since fanotify was introduced.  A different value means the
/// header layout is not the one this crate parses, and it says so rather than
/// guessing.
pub const FANOTIFY_METADATA_VERSION: u8 = 3;

// Response flags and sentinels

/// `FAN_ALLOW` — grant the operation the permission event asked about.
pub const FAN_ALLOW: u32 = 0x01;

/// `FAN_DENY` — refuse it.  The caller sees `EPERM` unless an errno is packed
/// in (see [`FAN_ERRNO_SHIFT`]) **and** the group is `FAN_CLASS_PRE_CONTENT`.
pub const FAN_DENY: u32 = 0x02;

/// `FAN_AUDIT` — ask the kernel to emit an audit record for this response.
pub const FAN_AUDIT: u32 = 0x10;

/// `FAN_INFO` — a `fanotify_response_info_header` follows the response.
///
/// This bit is also what makes the kernel complete the oldest pending event
/// **without matching a descriptor**, which is the only way to answer a group
/// that reports no descriptor.
pub const FAN_INFO: u32 = 0x20;

/// `FAN_ERRNO_BITS` — how many bits of a deny response carry the errno.
pub const FAN_ERRNO_BITS: u32 = 8;

/// `FAN_ERRNO_SHIFT` — where those bits start.
pub const FAN_ERRNO_SHIFT: u32 = 32 - FAN_ERRNO_BITS;

/// `FAN_ERRNO_MASK` — selects the errno out of a deny response.
pub const FAN_ERRNO_MASK: u32 = 0xFF;

/// `FAN_RESPONSE_INFO_NONE` — `fanotify_response_info_header.type`: no payload.
pub const FAN_RESPONSE_INFO_NONE: u8 = 0;

/// `FAN_RESPONSE_INFO_AUDIT_RULE` — `fanotify_response_info_header.type`: the
/// payload is an audit rule number.  This is the only type the kernel defines.
pub const FAN_RESPONSE_INFO_AUDIT_RULE: u8 = 1;

/// `FAN_NOFD` — `metadata.fd` in an event that carries no descriptor.
///
/// Numerically `-1`, and ambiguous on its own: without
/// [`FAN_REPORT_FD_ERROR`] the kernel writes exactly this whether or not a
/// descriptor could have been opened.
pub const FAN_NOFD: i32 = -1;

/// `FAN_NOPIDFD` — a pidfd record that could not create a pidfd because the
/// target process was already gone.
///
/// The kernel's rule is `pidfd = pidfd == -ESRCH ? FAN_NOPIDFD : FAN_EPIDFD`,
/// so this sentinel means "gone" specifically — which is **not** what
/// [`FAN_EPIDFD`] means.
pub const FAN_NOPIDFD: i32 = FAN_NOFD;

/// `FAN_EPIDFD` — a pidfd record that failed for a reason other than the target
/// being gone.
pub const FAN_EPIDFD: i32 = -2;

/// `MAX_HANDLE_SZ` from `linux/exportfs.h` — the largest file handle any
/// filesystem may produce, and therefore the largest buffer
/// `name_to_handle_at` accepts.  A larger capacity is refused with `EINVAL`.
pub const MAX_HANDLE_SZ: usize = 128;

/// `AT_HANDLE_FID` from `linux/fcntl.h` (Linux 6.13+).
///
/// Asks `name_to_handle_at` for a **FID** — the flavour fanotify reports —
/// rather than an openable handle.  The two are not the same request:
/// filesystems with no `fh_to_dentry` operation (procfs, sysfs, debugfs,
/// tracefs, bpf, devpts) hand out synthetic `FILEID_INO64_GEN` FIDs that no
/// handle can be opened from, and a plain `name_to_handle_at` fails on them with
/// `EOPNOTSUPP`.
pub const AT_HANDLE_FID: i32 = 0x200;

// errno numbers, from Linux's generic table (`asm-generic/errno.h`).  MIPS and
// SPARC number some of them otherwise.

/// `EPERM`: operation not permitted.
pub const EPERM: i32 = 1;

/// `ENOENT`: no such file or directory.
pub const ENOENT: i32 = 2;

/// `EINTR`: interrupted by a signal.
pub const EINTR: i32 = 4;

/// `EIO`: input/output error.
pub const EIO: i32 = 5;

/// `EBADF`: bad file descriptor.
pub const EBADF: i32 = 9;

/// `EAGAIN`: nothing to read on a non-blocking descriptor.
pub const EAGAIN: i32 = 11;

/// `ENOMEM`: out of memory.
pub const ENOMEM: i32 = 12;

/// `EXDEV`: no descriptor on that filesystem.
pub const EXDEV: i32 = 18;

/// `ENODEV`: the filesystem has no fsid.
pub const ENODEV: i32 = 19;

/// `ENOTDIR`: not a directory.
pub const ENOTDIR: i32 = 20;

/// `EINVAL`: invalid argument.
pub const EINVAL: i32 = 22;

/// `EMFILE`: too many open groups.
pub const EMFILE: i32 = 24;

/// `ENOSPC`: mark limit reached.
pub const ENOSPC: i32 = 28;

/// `ENOSYS`: the kernel has no such call.
pub const ENOSYS: i32 = 38;

/// `EOVERFLOW`: handle buffer too small.
pub const EOVERFLOW: i32 = 75;

/// `EOPNOTSUPP`: the filesystem has no file handles.
pub const EOPNOTSUPP: i32 = 95;

// Event names

/// Event mask bits paired with the name of the bit, for
/// [`mask_to_event_names`].
pub const EVENT_NAMES: [(u64, &'static str); 24] = [
    (FAN_ACCESS, "ACCESS"),
    (FAN_MODIFY, "MODIFY"),
    (FAN_ATTRIB, "ATTRIB"),
    (FAN_CLOSE_WRITE, "CLOSE_WRITE"),
    (FAN_CLOSE_NOWRITE, "CLOSE_NOWRITE"),
    (FAN_OPEN, "OPEN"),
    (FAN_OPEN_EXEC, "OPEN_EXEC"),
    (FAN_MOVED_FROM, "MOVED_FROM"),
    (FAN_MOVED_TO, "MOVED_TO"),
    (FAN_CREATE, "CREATE"),
    (FAN_DELETE, "DELETE"),
    (FAN_DELETE_SELF, "DELETE_SELF"),
    (FAN_MOVE_SELF, "MOVE_SELF"),
    (FAN_Q_OVERFLOW, "Q_OVERFLOW"),
    (FAN_FS_ERROR, "FS_ERROR"),
    (FAN_OPEN_PERM, "OPEN_PERM"),
    (FAN_ACCESS_PERM, "ACCESS_PERM"),
    (FAN_OPEN_EXEC_PERM, "OPEN_EXEC_PERM"),
    (FAN_PRE_ACCESS, "PRE_ACCESS"),
    (FAN_MNT_ATTACH, "MNT_ATTACH"),
    (FAN_MNT_DETACH, "MNT_DETACH"),
    (FAN_EVENT_ON_CHILD, "EVENT_ON_CHILD"),
    (FAN_RENAME, "RENAME"),
    (FAN_ONDIR, "ONDIR"),
];

/// The names of the bits of `mask` among the first `count` rows of
/// [`EVENT_NAMES`], in the table's order.
pub open spec fn names_among(mask: u64, count: nat) -> Seq<Seq<char>>
    decreases count,
{
    if count == 0 {
        Seq::empty()
    } else {
        let row = EVENT_NAMES@[count - 1];
        let before = names_among(mask, (count - 1) as nat);
        if mask & row.0 != 0 {
            before.push(row.1@)
        } else {
            before
        }
    }
}

/// The names of every bit of `mask` that has one.
pub open spec fn event_names_of(mask: u64) -> Seq<Seq<char>> {
    names_among(mask, EVENT_NAMES@.len())
}

/// A list of string slices, each taken by its characters.
pub open spec fn texts(names: Seq<&'static str>) -> Seq<Seq<char>> {
    names.map_values(|name: &'static str| name@)
}

/// The names of the event bits set in `mask`, in the order of [`EVENT_NAMES`].
///
/// This is a debugging aid, not a classification: the mask is a bitfield, and
/// several bits are commonly set at once.  A bit with no name is left out.
pub fn mask_to_event_names(mask: u64) -> (names: Vec<&'static str>)
    ensures
        texts(names@) == event_names_of(mask),
{
    let mut names: Vec<&'static str> = Vec::new();
    let mut row: usize = 0;
    while row < EVENT_NAMES.len()
        invariant
            row <= EVENT_NAMES@.len(),
            texts(names@) == names_among(mask, row as nat),
        decreases EVENT_NAMES@.len() - row,
    {
        let (bit, name) = EVENT_NAMES[row];
        if mask & bit != 0 {
            let ghost before = names@;
            names.push(name);
            proof {
                assert(texts(names@) =~= texts(before).push(name@));
            }
        }
        row = row + 1;
    }
    names
}

/// A name is listed exactly if a bit it stands for is set.
pub proof fn a_name_is_listed_if_its_bit_is_set(mask: u64, name: Seq<char>)
    ensures
        event_names_of(mask).contains(name) <==> exists|row: int|
            0 <= row < EVENT_NAMES@.len() && mask & (#[trigger] EVENT_NAMES@[row]).0 != 0
                && EVENT_NAMES@[row].1@ == name,
{
    named_among(mask, name, EVENT_NAMES@.len());
}

/// A name is listed among the first rows exactly if one of them stands for a set
/// bit.
proof fn named_among(mask: u64, name: Seq<char>, count: nat)
    requires
        count <= EVENT_NAMES@.len(),
    ensures
        names_among(mask, count).contains(name) <==> exists|row: int|
            0 <= row < count && mask & (#[trigger] EVENT_NAMES@[row]).0 != 0
                && EVENT_NAMES@[row].1@ == name,
    decreases count,
{
    if count > 0 {
        let last = count - 1;
        let before = names_among(mask, last as nat);
        named_among(mask, name, last as nat);
        if mask & EVENT_NAMES@[last].0 != 0 {
            let names = before.push(EVENT_NAMES@[last].1@);
            if before.contains(name) {
                let k = choose|k: int| 0 <= k < before.len() && before[k] == name;
                assert(names[k] == name);
            }
            if EVENT_NAMES@[last].1@ == name {
                assert(names[before.len() as int] == name);
            }
            if names.contains(name) {
                let k = choose|k: int| 0 <= k < names.len() && names[k] == name;
                if k < before.len() {
                    assert(before[k] == name);
                }
            }
        }
    }
}

/// The names of a mask are those of the rows whose bit it has, in the order of the
/// table, each once.
pub proof fn the_names_are_the_rows_that_match(mask: u64)
    ensures
        event_names_of(mask) == EVENT_NAMES@.filter(
            |row: (u64, &'static str)| mask & row.0 != 0,
        ).map_values(|row: (u64, &'static str)| row.1@),
{
    let all = EVENT_NAMES@.len();
    named_rows(mask, all);
    assert(EVENT_NAMES@.take(all as int) =~= EVENT_NAMES@);
}

/// The same of the first rows.
proof fn named_rows(mask: u64, count: nat)
    requires
        count <= EVENT_NAMES@.len(),
    ensures
        names_among(mask, count) == EVENT_NAMES@.take(count as int).filter(
            |row: (u64, &'static str)| mask & row.0 != 0,
        ).map_values(|row: (u64, &'static str)| row.1@),
    decreases count,
{
    let matching = |row: (u64, &'static str)| mask & row.0 != 0;
    let text = |row: (u64, &'static str)| row.1@;
    let rows = EVENT_NAMES@.take(count as int);
    reveal(Seq::filter);
    if count == 0 {
        assert(rows.filter(matching).map_values(text) =~= Seq::<Seq<char>>::empty());
    } else {
        named_rows(mask, (count - 1) as nat);
        let front = EVENT_NAMES@.take(count - 1);
        assert(rows.drop_last() =~= front);
        assert(rows.last() == EVENT_NAMES@[count - 1]);
        if matching(rows.last()) {
            assert(front.filter(matching).push(rows.last()).map_values(text) =~= front.filter(
                matching,
            ).map_values(text).push(text(rows.last())));
        }
    }
}

/// Each name stands for the bit that the kernel gives it.
pub proof fn each_name_stands_for_its_bit()
    ensures
        EVENT_NAMES@[0] == (0x1u64, "ACCESS"),
        EVENT_NAMES@[1] == (0x2u64, "MODIFY"),
        EVENT_NAMES@[2] == (0x4u64, "ATTRIB"),
        EVENT_NAMES@[3] == (0x8u64, "CLOSE_WRITE"),
        EVENT_NAMES@[4] == (0x10u64, "CLOSE_NOWRITE"),
        EVENT_NAMES@[5] == (0x20u64, "OPEN"),
        EVENT_NAMES@[6] == (0x1000u64, "OPEN_EXEC"),
        EVENT_NAMES@[7] == (0x40u64, "MOVED_FROM"),
        EVENT_NAMES@[8] == (0x80u64, "MOVED_TO"),
        EVENT_NAMES@[9] == (0x100u64, "CREATE"),
        EVENT_NAMES@[10] == (0x200u64, "DELETE"),
        EVENT_NAMES@[11] == (0x400u64, "DELETE_SELF"),
        EVENT_NAMES@[12] == (0x800u64, "MOVE_SELF"),
        EVENT_NAMES@[13] == (0x4000u64, "Q_OVERFLOW"),
        EVENT_NAMES@[14] == (0x8000u64, "FS_ERROR"),
        EVENT_NAMES@[15] == (0x1_0000u64, "OPEN_PERM"),
        EVENT_NAMES@[16] == (0x2_0000u64, "ACCESS_PERM"),
        EVENT_NAMES@[17] == (0x4_0000u64, "OPEN_EXEC_PERM"),
        EVENT_NAMES@[18] == (0x10_0000u64, "PRE_ACCESS"),
        EVENT_NAMES@[19] == (0x100_0000u64, "MNT_ATTACH"),
        EVENT_NAMES@[20] == (0x200_0000u64, "MNT_DETACH"),
        EVENT_NAMES@[21] == (0x800_0000u64, "EVENT_ON_CHILD"),
        EVENT_NAMES@[22] == (0x1000_0000u64, "RENAME"),
        EVENT_NAMES@[23] == (0x4000_0000u64, "ONDIR"),
        EVENT_NAMES@.len() == 24,
{
}

/// The names of a mask are listed as the table has them.
pub proof fn a_mask_is_listed_by_its_names(mask: u64, names: Vec<&'static str>)
    requires
        call_ensures(mask_to_event_names, (mask,), names),
    ensures
        texts(names@) == EVENT_NAMES@.filter(
            |row: (u64, &'static str)| mask & row.0 != 0,
        ).map_values(|row: (u64, &'static str)| row.1@),
{
    the_names_are_the_rows_that_match(mask);
}

} // verus!
