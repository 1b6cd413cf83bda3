//! Linux `fanotify`: what the kernel reports, parsed, owned and resolved.
//!
//! # What fanotify is
//!
//! One system call creates a **group** (`fanotify_init`), another says **what to
//! watch** (`fanotify_mark`), and `read` and `write` on the group are the event
//! queue and the place permission decisions are answered.
//!
//! Every group is a point in a space of three axes:
//!
//! | Axis | Values |
//! |---|---|
//! | **Identity**: how an event names its object | descriptor, file handle + fsid (FID), mount id |
//! | **Class**: whether the kernel waits for a decision | `FAN_CLASS_NOTIF`, `FAN_CLASS_CONTENT`, `FAN_CLASS_PRE_CONTENT` |
//! | **Anchor**: what a mark is attached to | inode, mount, filesystem, mount namespace |
//!
//! # What the library holds
//!
//! * [`fid`] and [`fd`] parse the two event formats, on the one walk of
//!   [`parse`]; a FID event borrows the buffer it was parsed from.
//! * [`response`] builds the bytes that answer a permission event.
//! * [`handle`], [`store`] and [`resolve`] turn a file handle into a path: on its
//!   own filesystem only, and from what is already known where that suffices.
//! * [`deleted`] and [`path`] read the paths that `/proc` reports.
//! * [`builder`], [`sys`] and [`group`] hold the arguments of the system calls and
//!   what their replies come to; [`error`] says what went wrong.
//! * [`types`], [`owned`] and [`read`] are the owned records, for a caller that
//!   keeps whole events and a plain map from handle to path.
//!
//! # What is proved of it as a whole
//!
//! Each module states the laws of its own functions.  Those that span modules
//! stand apart: [`written`] is the bytes of an event as the kernel writes them,
//! [`readback`] what every parser makes of them, and [`answers`] what a resolver
//! answers and learns.
//!
//! # What it does not do
//!
//! It makes no system call: the caller passes each as a function, or hands over
//! its reply.  A descriptor is its number here, and a path its bytes.  It judges
//! no combination of flags, because the kernel is the authority; it keeps no
//! record of marks, walks no trees, and attributes no processes.
pub mod answers;
pub mod builder;
pub mod bytes;
pub mod consts;
pub mod deleted;
pub mod error;
pub mod error_desc;
pub mod fd;
pub mod fid;
pub mod group;
pub mod handle;
pub mod owned;
pub mod parse;
pub mod path;
pub mod prelude;
pub mod read;
pub mod readback;
pub mod records;
pub mod resolve;
pub mod response;
pub mod store;
pub mod sys;
pub mod text;
pub mod types;
pub mod wire;
pub mod written;

pub use builder::FanotifyBuilder;
pub use error::{FanotifyError, Result};
pub use fd::{parse_fd_events, FdEvent};
pub use fid::{
    parse_fid_events, parse_fid_events_into, parse_fid_events_reported, FidEvent, Pidfd, RenameSide,
};
pub use group::{EventReader, Fanotify, FdEventReader};
pub use handle::{
    resolve_file_handle, resolve_file_handle_in, Candidate, FileHandle, Fsid, HandleCache, Mounts,
    NoCache, PathStore,
};
pub use parse::{EventStop, ParseReport};
pub use resolve::{EventResolution, PathResolver, Resolution};
pub use response::FanotifyResponse;
