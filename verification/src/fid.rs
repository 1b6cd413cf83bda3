//! FID identity: the event format that identifies objects by file handle.
//!
//! A FID group's event is a fixed header followed by info records of their own
//! lengths:
//!
//! ```text
//! struct fanotify_event_info_header    4 bytes
//!   u8  info_type
//!   u8  pad
//!   u16 len            total size of the record
//! payload, laid out per info_type (see `records`)
//! ```
//!
//! The header says *what happened*, the records say *which object*.  A mask bit
//! with no record is normal: [`FAN_Q_OVERFLOW`] names no object at all, because
//! it is not about one.
//!
//! There is no path in an event.  The kernel reports an fsid, a handle and a
//! name; turning those into a path is the resolver's work, because it needs a
//! privilege the event does not and can fail for reasons that say nothing about
//! the event.
//!
//! # Events borrow the buffer they were parsed from
//!
//! Handles and names are `Cow<'buf, [u8]>`, borrowed for every event the parser
//! produces.  An event that must outlive its buffer is made owned explicitly,
//! with [`FidEvent::into_owned`].
use std::borrow::Cow;
use vstd::prelude::*;

use crate::bytes::{
    as_bytes, duplicate, into_static, opt_as_bytes, opt_borrowed, opt_bytes, opt_duplicate,
    opt_into_static, opt_owned, opt_same, opt_slice, opt_text, opt_vec, text_of, utf8_text,
};
use crate::consts::{
    event_names_of, mask_to_event_names, texts, FAN_EVENT_INFO_TYPE_DFID,
    FAN_EVENT_INFO_TYPE_DFID_NAME, FAN_EVENT_INFO_TYPE_ERROR, FAN_EVENT_INFO_TYPE_FID,
    FAN_EVENT_INFO_TYPE_MNT, FAN_EVENT_INFO_TYPE_NEW_DFID_NAME, FAN_EVENT_INFO_TYPE_OLD_DFID_NAME,
    FAN_EVENT_INFO_TYPE_PIDFD, FAN_EVENT_INFO_TYPE_RANGE, FAN_NOFD, FAN_Q_OVERFLOW,
};
use crate::deleted::{carries_deleted_marker, carries_marker, cleaned, without_marker};
use crate::error::FanotifyError;
use crate::handle::Fsid;
use crate::parse::{
    fd_of, frames, frames_are_bounded, joined, mask_of, next_event, pid_of, records_start_of,
    reports, rest, walk_stop, EventMetadata, EventStop, ParseReport,
};
use crate::path::{paths_equal, same_path};
use crate::records::{
    fsid_handle_name_of, fsid_handle_of, opt_u32, opt_u64, read_u32, read_u64, split_fsid_handle,
    split_fsid_handle_name,
};
use crate::wire::{same_bytes, to_bytes, u16_at, u16_of};
use crate::written::{
    all_bytes, can_be_written, event_bytes, frames_of_a_batch, header_fields, is_batch, Event,
};

pub use crate::parse::METADATA_SIZE;
pub use crate::records::FSID_SIZE;

verus! {

/// `sizeof(struct fanotify_event_info_header)`.
pub const INFO_HEADER_SIZE: usize = 4;

/// One side of a `FAN_RENAME` event.
///
/// A rename reports the **parent directory's handle plus the entry name**, on
/// each side the mark matched.  The two sides are independent records, so a
/// rename that moves an entry into or out of the watched object reports only the
/// side that was watched.
#[derive(Debug)]
pub struct RenameSide<'buf> {
    /// Handle of the parent directory the entry was, or is, in.
    pub handle: Cow<'buf, [u8]>,
    /// Entry name within that parent, as raw bytes: a Linux filename need not be
    /// UTF-8.
    pub name: Cow<'buf, [u8]>,
}

/// A rename side, its fields taken as sequences.
#[verifier::ext_equal]
pub struct RenameSideView {
    /// See [`RenameSide::handle`].
    pub handle: Seq<u8>,
    /// See [`RenameSide::name`].
    pub name: Seq<u8>,
}

impl<'buf> View for RenameSide<'buf> {
    type V = RenameSideView;

    open spec fn view(&self) -> RenameSideView {
        RenameSideView { handle: self.handle@, name: self.name@ }
    }
}

/// Whether both fields of a rename side, if there is one, are borrows.
pub open spec fn side_borrows(side: Option<RenameSide<'_>>) -> bool {
    side matches Some(side) ==> side.handle is Borrowed && side.name is Borrowed
}

/// Whether both fields of a rename side, if there is one, are owned.
pub open spec fn side_owns(side: Option<RenameSide<'_>>) -> bool {
    side matches Some(side) ==> side.handle is Owned && side.name is Owned
}

/// The view of an optional rename side.
pub open spec fn opt_side(side: Option<RenameSide<'_>>) -> Option<RenameSideView> {
    match side {
        Some(side) => Some(side@),
        None => None,
    }
}

impl<'buf> RenameSide<'buf> {
    /// Handle of the parent directory the entry was, or is, in.
    ///
    /// A handle is only meaningful together with the fsid its event reported.
    pub fn handle(&self) -> (r: &[u8])
        ensures
            r@ == self@.handle,
    {
        as_bytes(&self.handle)
    }

    /// The entry name, as bytes.
    pub fn name(&self) -> (r: &[u8])
        ensures
            r@ == self@.name,
    {
        as_bytes(&self.name)
    }

    /// The entry name as text, or `None` if it is not valid UTF-8.
    pub fn name_str(&self) -> (r: Option<&str>)
        ensures
            opt_text(r) == utf8_text(self@.name),
    {
        text_of(as_bytes(&self.name))
    }

    /// The entry name, owned.
    pub fn name_os_string(&self) -> (r: Vec<u8>)
        ensures
            r@ == self@.name,
    {
        to_bytes(as_bytes(&self.name))
    }

    /// Take ownership of both fields, so the side outlives the buffer it came
    /// from: the same bytes, now owned.
    pub fn into_owned(self) -> (r: RenameSide<'static>)
        ensures
            r@ == self@,
            r.handle is Owned,
            r.name is Owned,
    {
        RenameSide { handle: into_static(self.handle), name: into_static(self.name) }
    }
}

impl<'buf> Clone for RenameSide<'buf> {
    fn clone(&self) -> (r: Self)
        ensures
            r@ == self@,
            r.handle is Borrowed == self.handle is Borrowed,
            r.name is Borrowed == self.name is Borrowed,
    {
        RenameSide { handle: duplicate(&self.handle), name: duplicate(&self.name) }
    }
}

impl<'buf> PartialEq for RenameSide<'buf> {
    fn eq(&self, other: &Self) -> (r: bool) {
        same_bytes(as_bytes(&self.handle), as_bytes(&other.handle)) && same_bytes(
            as_bytes(&self.name),
            as_bytes(&other.name),
        )
    }
}

impl<'buf> vstd::std_specs::cmp::PartialEqSpecImpl for RenameSide<'buf> {
    open spec fn obeys_eq_spec() -> bool {
        true
    }

    open spec fn eq_spec(&self, other: &Self) -> bool {
        self@ == other@
    }
}

impl<'buf> Eq for RenameSide<'buf> {

}

/// Whether two optional sides are the same.
fn same_side(a: &Option<RenameSide<'_>>, b: &Option<RenameSide<'_>>) -> (r: bool)
    ensures
        r == (opt_side(*a) == opt_side(*b)),
{
    match (a, b) {
        (Some(x), Some(y)) => same_bytes(x.handle(), y.handle()) && same_bytes(
            x.name(),
            y.name(),
        ),
        (None, None) => true,
        _ => false,
    }
}

/// The pidfd a `FAN_REPORT_PIDFD` group attaches to an event.
///
/// A pidfd is a descriptor, and the record that carries it holds a *number*, so
/// the three cases are kept apart: reading `-1` or `-2` as a descriptor number
/// would be reading a sentinel as a descriptor.
#[non_exhaustive]
#[derive(Debug, Clone, Copy)]
pub enum Pidfd {
    /// No pidfd record: the group was not created with `FAN_REPORT_PIDFD`.
    Absent,
    /// The number of a pidfd for the process that caused the event, which the
    /// event's reader adopted.  The reader owns the descriptor and closes it; the
    /// event, and every clone of it, only names it.
    Fd(i32),
    /// A pidfd record whose number was not adopted: a negative one is the
    /// kernel's own verdict, and a non-negative one came from bytes that prove
    /// nothing about themselves.
    Unavailable(i32),
}

/// What a pidfd record said about the process: the number it carried.
pub open spec fn pidfd_number(pidfd: Pidfd) -> Option<i32> {
    match pidfd {
        Pidfd::Absent => None,
        Pidfd::Fd(fd) => Some(fd),
        Pidfd::Unavailable(raw) => Some(raw),
    }
}

impl PartialEq for Pidfd {
    /// Compares what the record said about the process, not who holds the
    /// descriptor: an event from a reader equals the same bytes parsed from a
    /// buffer.
    fn eq(&self, other: &Self) -> (r: bool) {
        match (*self, *other) {
            (Pidfd::Absent, Pidfd::Absent) => true,
            (Pidfd::Fd(a), Pidfd::Fd(b)) => a == b,
            (Pidfd::Unavailable(a), Pidfd::Unavailable(b)) => a == b,
            (Pidfd::Fd(a), Pidfd::Unavailable(b)) => a == b,
            (Pidfd::Unavailable(a), Pidfd::Fd(b)) => a == b,
            _ => false,
        }
    }
}

impl vstd::std_specs::cmp::PartialEqSpecImpl for Pidfd {
    open spec fn obeys_eq_spec() -> bool {
        true
    }

    open spec fn eq_spec(&self, other: &Self) -> bool {
        pidfd_number(*self) == pidfd_number(*other)
    }
}

impl Eq for Pidfd {

}

impl From<i32> for Pidfd {
    /// Attach the number of a descriptor the caller already owns.
    fn from(fd: i32) -> (r: Self) {
        Pidfd::Fd(fd)
    }
}

impl vstd::std_specs::convert::FromSpecImpl<i32> for Pidfd {
    open spec fn obeys_from_spec() -> bool {
        true
    }

    open spec fn from_spec(fd: i32) -> Self {
        Pidfd::Fd(fd)
    }
}

impl Pidfd {
    /// The descriptor's number, if this is one.
    pub fn as_fd(&self) -> (r: Option<i32>)
        ensures
            r == (match *self {
                Pidfd::Fd(fd) => Some(fd),
                _ => None,
            }),
    {
        match *self {
            Pidfd::Fd(fd) => Some(fd),
            _ => None,
        }
    }

    /// Take the descriptor's number out, if this is one.
    ///
    /// The descriptor stays its reader's: a caller that keeps it beyond the
    /// reader's batch duplicates it first.
    pub fn into_fd(self) -> (r: Option<i32>)
        ensures
            r == (match self {
                Pidfd::Fd(fd) => Some(fd),
                _ => None,
            }),
    {
        match self {
            Pidfd::Fd(fd) => Some(fd),
            Pidfd::Absent => None,
            Pidfd::Unavailable(_) => None,
        }
    }
}

/// A parsed event of a FID group.
///
/// Every record the kernel defines has a typed accessor, and a record this crate
/// does not recognise is kept verbatim, header included; see
/// [`unknown_info_records`](Self::unknown_info_records).
#[derive(Debug)]
pub struct FidEvent<'buf> {
    mask: u64,
    pid: i32,
    fsid: Option<Fsid>,
    dfid_name_handle: Option<Cow<'buf, [u8]>>,
    dfid_name_name: Option<Cow<'buf, [u8]>>,
    self_handle: Option<Cow<'buf, [u8]>>,
    pidfd: Pidfd,
    fd_error: Option<i32>,
    fs_error: Option<(i32, u32)>,
    access_range: Option<(u64, u64)>,
    mnt_id: Option<u64>,
    rename_source: Option<RenameSide<'buf>>,
    rename_target: Option<RenameSide<'buf>>,
    unknown_info_records: Vec<(u8, Cow<'buf, [u8]>)>,
    path: Option<Vec<u8>>,
}

/// An event, its byte strings taken as sequences.
#[verifier::ext_equal]
pub struct FidEventView {
    /// See [`FidEvent::mask`].
    pub mask: u64,
    /// See [`FidEvent::pid`].
    pub pid: i32,
    /// See [`FidEvent::fsid`].
    pub fsid: Option<Fsid>,
    /// See [`FidEvent::dfid_name_handle`].
    pub dfid_name_handle: Option<Seq<u8>>,
    /// See [`FidEvent::dfid_name`].
    pub dfid_name_name: Option<Seq<u8>>,
    /// See [`FidEvent::self_handle`].
    pub self_handle: Option<Seq<u8>>,
    /// See [`FidEvent::pidfd`].
    pub pidfd: Pidfd,
    /// See [`FidEvent::fd_error`].
    pub fd_error: Option<i32>,
    /// See [`FidEvent::fs_error`].
    pub fs_error: Option<(i32, u32)>,
    /// See [`FidEvent::access_range`].
    pub access_range: Option<(u64, u64)>,
    /// See [`FidEvent::mnt_id`].
    pub mnt_id: Option<u64>,
    /// See [`FidEvent::rename_source`].
    pub rename_source: Option<RenameSideView>,
    /// See [`FidEvent::rename_target`].
    pub rename_target: Option<RenameSideView>,
    /// See [`FidEvent::unknown_info_records`].
    pub unknown_info_records: Seq<(u8, Seq<u8>)>,
    /// See [`FidEvent::path`].
    pub path: Option<Seq<u8>>,
}

/// Records kept verbatim, their bytes taken as sequences.
pub open spec fn record_views(records: Seq<(u8, Cow<'_, [u8]>)>) -> Seq<(u8, Seq<u8>)> {
    records.map_values(|record: (u8, Cow<'_, [u8]>)| (record.0, record.1@))
}

impl<'buf> View for FidEvent<'buf> {
    type V = FidEventView;

    closed spec fn view(&self) -> FidEventView {
        FidEventView {
            mask: self.mask,
            pid: self.pid,
            fsid: self.fsid,
            dfid_name_handle: opt_bytes(self.dfid_name_handle),
            dfid_name_name: opt_bytes(self.dfid_name_name),
            self_handle: opt_bytes(self.self_handle),
            pidfd: self.pidfd,
            fd_error: self.fd_error,
            fs_error: self.fs_error,
            access_range: self.access_range,
            mnt_id: self.mnt_id,
            rename_source: opt_side(self.rename_source),
            rename_target: opt_side(self.rename_target),
            unknown_info_records: record_views(self.unknown_info_records@),
            path: opt_vec(self.path),
        }
    }
}

/// Whether records kept verbatim are all borrows.
pub open spec fn records_borrow(records: Seq<(u8, Cow<'_, [u8]>)>) -> bool {
    forall|i: int| 0 <= i < records.len() ==> (#[trigger] records[i]).1 is Borrowed
}

/// Whether records kept verbatim are all owned.
pub open spec fn records_own(records: Seq<(u8, Cow<'_, [u8]>)>) -> bool {
    forall|i: int| 0 <= i < records.len() ==> (#[trigger] records[i]).1 is Owned
}

impl<'buf> FidEvent<'buf> {
    /// Whether every handle, name, rename side and kept record is a borrow of the
    /// buffer the event was parsed from, so that nothing was copied.
    pub closed spec fn borrows_throughout(&self) -> bool {
        &&& opt_borrowed(self.dfid_name_handle)
        &&& opt_borrowed(self.dfid_name_name)
        &&& opt_borrowed(self.self_handle)
        &&& side_borrows(self.rename_source)
        &&& side_borrows(self.rename_target)
        &&& records_borrow(self.unknown_info_records@)
    }

    /// Whether every handle, name, rename side and kept record is the event's
    /// own, so that it outlives any buffer.
    pub closed spec fn owns_everything(&self) -> bool {
        &&& opt_owned(self.dfid_name_handle)
        &&& opt_owned(self.dfid_name_name)
        &&& opt_owned(self.self_handle)
        &&& side_owns(self.rename_source)
        &&& side_owns(self.rename_target)
        &&& records_own(self.unknown_info_records@)
    }
}

/// Whether every event of a list borrows throughout.
pub open spec fn all_borrow(events: Seq<FidEvent<'_>>) -> bool {
    forall|i: int| 0 <= i < events.len() ==> (#[trigger] events[i]).borrows_throughout()
}

/// An event that says nothing.
pub open spec fn blank_event() -> FidEventView {
    FidEventView {
        mask: 0,
        pid: 0,
        fsid: None,
        dfid_name_handle: None,
        dfid_name_name: None,
        self_handle: None,
        pidfd: Pidfd::Absent,
        fd_error: None,
        fs_error: None,
        access_range: None,
        mnt_id: None,
        rename_source: None,
        rename_target: None,
        unknown_info_records: Seq::empty(),
        path: None,
    }
}

/// An event with one more record kept verbatim.
pub open spec fn with_kept(event: FidEventView, info_type: u8, record: Seq<u8>) -> FidEventView {
    FidEventView {
        unknown_info_records: event.unknown_info_records.push((info_type, record)),
        ..event
    }
}

/// The fsid an event reports once a record has named one: the first one stays.
pub open spec fn fsid_or(known: Option<Fsid>, named: Fsid) -> Option<Fsid> {
    match known {
        Some(fsid) => Some(fsid),
        None => Some(named),
    }
}

/// What one record whose length is sound adds to an event.
///
/// A record is either understood, and fills the field it is for, or kept
/// verbatim.  The first `DFID_NAME` and the first `PIDFD` record count; of any
/// other type, the last.
pub open spec fn with_record(event: FidEventView, record: Seq<u8>) -> FidEventView {
    let info_type = record[0];
    let payload = record.skip(INFO_HEADER_SIZE as int);
    let kept = with_kept(event, info_type, record);
    if info_type == FAN_EVENT_INFO_TYPE_DFID_NAME {
        match fsid_handle_name_of(payload) {
            Some((fsid, handle, name)) => if event.dfid_name_name is None {
                FidEventView {
                    fsid: fsid_or(event.fsid, fsid),
                    dfid_name_handle: Some(handle),
                    dfid_name_name: Some(name),
                    ..event
                }
            } else {
                kept
            },
            None => kept,
        }
    } else if info_type == FAN_EVENT_INFO_TYPE_FID || info_type == FAN_EVENT_INFO_TYPE_DFID {
        match fsid_handle_of(payload) {
            Some((fsid, handle)) => FidEventView {
                fsid: fsid_or(event.fsid, fsid),
                self_handle: Some(handle),
                ..event
            },
            None => kept,
        }
    } else if info_type == FAN_EVENT_INFO_TYPE_OLD_DFID_NAME {
        match fsid_handle_name_of(payload) {
            Some((fsid, handle, name)) => FidEventView {
                fsid: fsid_or(event.fsid, fsid),
                rename_source: Some(RenameSideView { handle, name }),
                ..event
            },
            None => kept,
        }
    } else if info_type == FAN_EVENT_INFO_TYPE_NEW_DFID_NAME {
        match fsid_handle_name_of(payload) {
            Some((fsid, handle, name)) => FidEventView {
                fsid: fsid_or(event.fsid, fsid),
                rename_target: Some(RenameSideView { handle, name }),
                ..event
            },
            None => kept,
        }
    } else if info_type == FAN_EVENT_INFO_TYPE_PIDFD {
        match opt_u32(payload, 0) {
            Some(raw) => if event.pidfd is Absent {
                FidEventView { pidfd: Pidfd::Unavailable(raw as i32), ..event }
            } else {
                kept
            },
            None => kept,
        }
    } else if info_type == FAN_EVENT_INFO_TYPE_ERROR {
        match (opt_u32(payload, 0), opt_u32(payload, 4)) {
            (Some(error), Some(count)) => FidEventView {
                fs_error: Some((error as i32, count)),
                ..event
            },
            _ => kept,
        }
    } else if info_type == FAN_EVENT_INFO_TYPE_RANGE {
        match (opt_u64(payload, 0), opt_u64(payload, 8)) {
            (Some(offset), Some(count)) => FidEventView {
                access_range: Some((offset, count)),
                ..event
            },
            _ => kept,
        }
    } else if info_type == FAN_EVENT_INFO_TYPE_MNT {
        match opt_u64(payload, 0) {
            Some(mnt_id) => FidEventView { mnt_id: Some(mnt_id), ..event },
            None => kept,
        }
    } else {
        kept
    }
}

/// Whether the length of the record that `s` starts with is sound.
pub open spec fn record_fits(s: Seq<u8>) -> bool {
    INFO_HEADER_SIZE <= record_len_of(s) <= s.len()
}

/// `len` of the record that `s` starts with.
pub open spec fn record_len_of(s: Seq<u8>) -> int {
    u16_of(s.subrange(2, 4)) as int
}

/// What the records in `s` add to an event, in order.
///
/// A record whose length does not fit cannot be walked past, so what is left of
/// the event is kept from its header on.
pub open spec fn with_records(event: FidEventView, s: Seq<u8>) -> FidEventView
    decreases s.len(),
{
    if s.len() < INFO_HEADER_SIZE {
        event
    } else if !record_fits(s) {
        with_kept(event, s[0], s)
    } else {
        with_records(with_record(event, s.take(record_len_of(s))), s.skip(record_len_of(s)))
    }
}

/// What the header of a frame says: no descriptor, but possibly why not.
pub open spec fn header_event(frame: Seq<u8>) -> FidEventView {
    FidEventView {
        mask: mask_of(frame),
        pid: pid_of(frame),
        fd_error: if fd_of(frame) < 0 && fd_of(frame) != FAN_NOFD {
            Some(fd_of(frame))
        } else {
            None
        },
        ..blank_event()
    }
}

/// The event that the bytes of one frame are.
pub open spec fn event_of(frame: Seq<u8>) -> FidEventView {
    with_records(header_event(frame), frame.skip(records_start_of(frame)))
}

/// The events that frames are.
pub open spec fn events_of(frames: Seq<Seq<u8>>) -> Seq<FidEventView> {
    frames.map_values(|frame: Seq<u8>| event_of(frame))
}

/// The events that a buffer holds.
pub open spec fn parsed_events(buf: Seq<u8>) -> Seq<FidEventView> {
    events_of(frames(buf, true))
}

/// The views of a list of events.
pub open spec fn event_views(events: Seq<FidEvent<'_>>) -> Seq<FidEventView> {
    events.map_values(|event: FidEvent<'_>| event@)
}

impl<'buf> FidEvent<'buf> {
    /// An event that says nothing, for building one by hand.
    pub fn new() -> (r: Self)
        ensures
            r@ == blank_event(),
            r.borrows_throughout(),
            r.owns_everything(),
    {
        let r = FidEvent {
            mask: 0,
            pid: 0,
            fsid: None,
            dfid_name_handle: None,
            dfid_name_name: None,
            self_handle: None,
            pidfd: Pidfd::Absent,
            fd_error: None,
            fs_error: None,
            access_range: None,
            mnt_id: None,
            rename_source: None,
            rename_target: None,
            unknown_info_records: Vec::new(),
            path: None,
        };
        assert(r@ =~= blank_event());
        r
    }

    /// Return the event to the state [`new`](Self::new) makes, keeping the
    /// storage of its record list for the next parse.
    pub(crate) fn reset(&mut self)
        ensures
            final(self)@ == blank_event(),
            final(self).borrows_throughout(),
    {
        self.mask = 0;
        self.pid = 0;
        self.fsid = None;
        self.dfid_name_handle = None;
        self.dfid_name_name = None;
        self.self_handle = None;
        self.pidfd = Pidfd::Absent;
        self.fd_error = None;
        self.fs_error = None;
        self.access_range = None;
        self.mnt_id = None;
        self.rename_source = None;
        self.rename_target = None;
        self.unknown_info_records.clear();
        self.path = None;
        assert(self@ =~= blank_event());
    }

    /// Keep a record verbatim, header included.
    fn preserve(&mut self, info_type: u8, record: &'buf [u8])
        ensures
            final(self)@ == with_kept(old(self)@, info_type, record@),
            old(self).borrows_throughout() ==> final(self).borrows_throughout(),
    {
        self.unknown_info_records.push((info_type, Cow::Borrowed(record)));
        assert(self@ =~= with_kept(old(self)@, info_type, record@));
    }

    /// Note the filesystem a record named; the first one stays.
    fn note_fsid(&mut self, fsid: Fsid)
        ensures
            final(self)@ == (FidEventView { fsid: fsid_or(old(self)@.fsid, fsid), ..old(self)@ }),
            old(self).borrows_throughout() ==> final(self).borrows_throughout(),
    {
        if self.fsid.is_none() {
            self.fsid = Some(fsid);
        }
        assert(self@ =~= (FidEventView { fsid: fsid_or(old(self)@.fsid, fsid), ..old(self)@ }));
    }
}

/// Take one record whose length is sound into an event.
fn apply_record<'buf>(event: &mut FidEvent<'buf>, record: &'buf [u8])
    requires
        record@.len() >= INFO_HEADER_SIZE,
    ensures
        final(event)@ == with_record(old(event)@, record@),
        old(event).borrows_throughout() ==> final(event).borrows_throughout(),
{
    let info_type: u8 = record[0];
    let payload: &'buf [u8] = &record[INFO_HEADER_SIZE..record.len()];
    assert(payload@ =~= record@.skip(INFO_HEADER_SIZE as int));
    if info_type == FAN_EVENT_INFO_TYPE_DFID_NAME {
        // A well-formed event has one such record.  A malformed one may hold
        // several; the first wins, and the rest are kept verbatim.
        match split_fsid_handle_name(payload) {
            Some((fsid, handle, name)) => {
                if event.dfid_name_name.is_none() {
                    event.note_fsid(fsid);
                    event.dfid_name_handle = Some(Cow::Borrowed(handle));
                    event.dfid_name_name = Some(Cow::Borrowed(name));
                } else {
                    event.preserve(info_type, record);
                }
            },
            None => event.preserve(info_type, record),
        }
    } else if info_type == FAN_EVENT_INFO_TYPE_FID || info_type == FAN_EVENT_INFO_TYPE_DFID {
        match split_fsid_handle(payload) {
            Some((fsid, handle)) => {
                event.note_fsid(fsid);
                event.self_handle = Some(Cow::Borrowed(handle));
            },
            None => event.preserve(info_type, record),
        }
    } else if info_type == FAN_EVENT_INFO_TYPE_OLD_DFID_NAME {
        match split_fsid_handle_name(payload) {
            Some((fsid, handle, name)) => {
                event.note_fsid(fsid);
                event.rename_source = Some(
                    RenameSide { handle: Cow::Borrowed(handle), name: Cow::Borrowed(name) },
                );
            },
            None => event.preserve(info_type, record),
        }
    } else if info_type == FAN_EVENT_INFO_TYPE_NEW_DFID_NAME {
        match split_fsid_handle_name(payload) {
            Some((fsid, handle, name)) => {
                event.note_fsid(fsid);
                event.rename_target = Some(
                    RenameSide { handle: Cow::Borrowed(handle), name: Cow::Borrowed(name) },
                );
            },
            None => event.preserve(info_type, record),
        }
    } else if info_type == FAN_EVENT_INFO_TYPE_PIDFD {
        // Not adopted here: bytes prove nothing about where a number came from.
        match read_u32(payload, 0) {
            Some(raw) => {
                if matches!(event.pidfd, Pidfd::Absent) {
                    event.pidfd = Pidfd::Unavailable(raw as i32);
                } else {
                    event.preserve(info_type, record);
                }
            },
            None => event.preserve(info_type, record),
        }
    } else if info_type == FAN_EVENT_INFO_TYPE_ERROR {
        match (read_u32(payload, 0), read_u32(payload, 4)) {
            (Some(error), Some(count)) => {
                event.fs_error = Some((error as i32, count));
            },
            _ => event.preserve(info_type, record),
        }
    } else if info_type == FAN_EVENT_INFO_TYPE_RANGE {
        match (read_u64(payload, 0), read_u64(payload, 8)) {
            (Some(offset), Some(count)) => {
                event.access_range = Some((offset, count));
            },
            _ => event.preserve(info_type, record),
        }
    } else if info_type == FAN_EVENT_INFO_TYPE_MNT {
        match read_u64(payload, 0) {
            Some(mnt_id) => {
                event.mnt_id = Some(mnt_id);
            },
            None => event.preserve(info_type, record),
        }
    } else {
        // A type this crate does not know, kept so that a newer kernel's
        // addition is survivable.
        event.preserve(info_type, record);
    }
    assert(event@ =~= with_record(old(event)@, record@));
}

/// Fill an event from the bytes of one frame.
#[verifier::rlimit(50)]
#[verifier::spinoff_prover]
fn parse_one_event<'buf>(event: &mut FidEvent<'buf>, frame: &'buf [u8], meta: EventMetadata)
    requires
        old(event)@ == blank_event(),
        old(event).borrows_throughout(),
        METADATA_SIZE <= meta.records_start <= frame@.len(),
        meta.records_start == records_start_of(frame@),
        meta.mask == mask_of(frame@),
        meta.fd == fd_of(frame@),
        meta.pid == pid_of(frame@),
    ensures
        final(event)@ == event_of(frame@),
        final(event).borrows_throughout(),
{
    event.mask = meta.mask;
    event.pid = meta.pid;
    // In a FID group `fd` is `FAN_NOFD`; a different negative value is the reason
    // a descriptor could not be opened.  `-1` is both the sentinel and `EPERM`,
    // so it is not reported.
    event.fd_error = if meta.fd < 0 && meta.fd != FAN_NOFD {
        Some(meta.fd)
    } else {
        None
    };
    assert(event@ =~= header_event(frame@));
    let mut at: usize = meta.records_start;
    while frame.len() - at >= INFO_HEADER_SIZE
        invariant_except_break
            at <= frame.len(),
            with_records(event@, frame@.skip(at as int)) == event_of(frame@),
            event.borrows_throughout(),
        ensures
            event@ == event_of(frame@),
            event.borrows_throughout(),
        decreases frame.len() - at,
    {
        let ghost tail = frame@.skip(at as int);
        let record_len: usize = u16_at(frame, at + 2) as usize;
        assert(frame@.subrange(at + 2, at + 4) =~= tail.subrange(2, 4));
        if record_len < INFO_HEADER_SIZE || record_len > frame.len() - at {
            let left: &'buf [u8] = &frame[at..frame.len()];
            assert(left@ =~= tail);
            event.preserve(frame[at], left);
            break;
        }
        let record: &'buf [u8] = &frame[at..at + record_len];
        assert(record@ =~= tail.take(record_len as int));
        assert(tail.skip(record_len as int) =~= frame@.skip(at + record_len));
        apply_record(event, record);
        at = at + record_len;
    }
}

/// Parse a buffer of FID events into an existing list, reusing its storage.
///
/// What the list held before does not matter: its events are returned to blank
/// and filled again, and those the buffer does not use are dropped.  An unknown
/// version is reported, not returned as an error.
pub fn parse_fid_events_into<'buf>(events: &mut Vec<FidEvent<'buf>>, buf: &'buf [u8]) -> (report:
    ParseReport)
    ensures
        event_views(final(events)@) == parsed_events(buf@),
        all_borrow(final(events)@),
        reports(report, buf@),
{
    let mut parsed: usize = 0;
    let mut offset: usize = 0;
    let mut stop = EventStop::End;
    proof {
        assert(buf@.skip(0) =~= buf@);
        assert(event_views(events@.take(0)) + parsed_events(buf@) =~= parsed_events(buf@));
    }
    loop
        invariant_except_break
            parsed <= events@.len(),
            parsed <= offset <= buf.len(),
            event_views(events@.take(parsed as int)) + events_of(
                frames(buf@.skip(offset as int), parsed == 0),
            ) == parsed_events(buf@),
            all_borrow(events@.take(parsed as int)),
            rest(buf@.skip(offset as int), parsed == 0) == rest(buf@, true),
            walk_stop(buf@.skip(offset as int), parsed == 0) == walk_stop(buf@, true),
        ensures
            parsed <= events@.len(),
            offset <= buf.len(),
            event_views(events@.take(parsed as int)) == parsed_events(buf@),
            all_borrow(events@.take(parsed as int)),
            buf@.skip(offset as int) == rest(buf@, true),
            stop == walk_stop(buf@, true),
        decreases buf.len() - offset,
    {
        let ghost tail = buf@.skip(offset as int);
        let meta = match next_event(buf, offset, parsed == 0) {
            Ok(meta) => meta,
            Err(found) => {
                stop = found;
                proof {
                    assert(events_of(frames(tail, parsed == 0)) =~= Seq::<FidEventView>::empty());
                    assert(event_views(events@.take(parsed as int)) + Seq::<FidEventView>::empty()
                        =~= event_views(events@.take(parsed as int)));
                }
                break;
            },
        };
        let ghost before = events@.take(parsed as int);
        // Reuse the slot if there is one: `reset` keeps its storage.
        if parsed < events.len() {
            let event = &mut events[parsed];
            event.reset();
        } else {
            events.push(FidEvent::new());
        }
        let frame: &'buf [u8] = &buf[offset..offset + meta.event_len];
        proof {
            assert(frame@ =~= tail.take(meta.event_len as int));
            assert(frame@.subrange(6, 8) =~= tail.subrange(6, 8));
            assert(tail.skip(meta.event_len as int) =~= buf@.skip(offset + meta.event_len));
        }
        let event = &mut events[parsed];
        parse_one_event(event, frame, meta);
        proof {
            let after = events@.take(parsed + 1);
            assert(after =~= before.push(events@[parsed as int]));
            assert(event_views(after) =~= event_views(before).push(event_of(frame@)));
            let next = frames(tail.skip(meta.event_len as int), false);
            assert(frames(tail, parsed == 0) == seq![frame@] + next);
            assert(events_of(frames(tail, parsed == 0)) =~= seq![event_of(frame@)] + events_of(
                next,
            ));
            assert(event_views(before) + (seq![event_of(frame@)] + events_of(next))
                =~= event_views(before).push(event_of(frame@)) + events_of(next));
        }
        parsed = parsed + 1;
        offset = offset + meta.event_len;
    }
    // Anything past the parsed prefix is left over from a longer buffer.
    events.truncate(parsed);
    ParseReport { bytes_consumed: offset, bytes_left: buf.len() - offset, stop }
}

/// Parse a buffer of FID events and say how far the walk got.
///
/// This never fails: an unknown version lands in the report like every other
/// reason to stop, and the events before it are returned.
pub fn parse_fid_events_reported<'buf>(buf: &'buf [u8]) -> (r: (Vec<FidEvent<'buf>>, ParseReport))
    ensures
        event_views(r.0@) == parsed_events(buf@),
        all_borrow(r.0@),
        reports(r.1, buf@),
{
    let mut events: Vec<FidEvent<'buf>> = Vec::new();
    let report = parse_fid_events_into(&mut events, buf);
    (events, report)
}

/// Parse a buffer of FID events.
///
/// A buffer that ends in the middle of an event yields the events before it and
/// no error: a short read is a fact about the buffer, and
/// [`parse_fid_events_reported`] makes it visible.  A first header of an unknown
/// version is the one failure, because every field after it is read according to
/// that version.
///
/// No descriptor is ever adopted: bytes prove nothing about where a number came
/// from.
pub fn parse_fid_events<'buf>(buf: &'buf [u8]) -> (r: Result<Vec<FidEvent<'buf>>, FanotifyError>)
    ensures
        match r {
            Ok(events) => {
                &&& event_views(events@) == parsed_events(buf@)
                &&& all_borrow(events@)
                &&& walk_stop(buf@, true) !is UnknownVersion
            },
            Err(error) => walk_stop(buf@, true) matches EventStop::UnknownVersion(vers)
                && error == FanotifyError::UnknownEventVersion(vers),
        },
{
    let (events, report) = parse_fid_events_reported(buf);
    if let EventStop::UnknownVersion(vers) = report.stop {
        return Err(FanotifyError::UnknownEventVersion(vers));
    }
    Ok(events)
}

impl<'buf> Default for FidEvent<'buf> {
    /// The same event [`new`](FidEvent::new) makes: one that says nothing.
    fn default() -> (r: Self)
        ensures
            r@ == blank_event(),
    {
        FidEvent::new()
    }
}

impl<'buf> FidEvent<'buf> {
    /// Take ownership of every borrowed field, so the event outlives the buffer
    /// it was parsed from: exactly what was borrowed is copied.
    pub fn into_owned(self) -> (r: FidEvent<'static>)
        ensures
            r@ == self@,
            r.owns_everything(),
    {
        let ghost before = self@;
        let records = self.unknown_info_records;
        let r = FidEvent {
            mask: self.mask,
            pid: self.pid,
            fsid: self.fsid,
            dfid_name_handle: opt_into_static(self.dfid_name_handle),
            dfid_name_name: opt_into_static(self.dfid_name_name),
            self_handle: opt_into_static(self.self_handle),
            pidfd: self.pidfd,
            fd_error: self.fd_error,
            fs_error: self.fs_error,
            access_range: self.access_range,
            mnt_id: self.mnt_id,
            rename_source: match self.rename_source {
                Some(side) => Some(side.into_owned()),
                None => None,
            },
            rename_target: match self.rename_target {
                Some(side) => Some(side.into_owned()),
                None => None,
            },
            unknown_info_records: records_into_static(records),
            path: self.path,
        };
        assert(r@ =~= before);
        r
    }

    /// Set the event mask.
    pub fn set_mask(&mut self, mask: u64) -> (r: &mut Self)
        ensures
            r@ == (FidEventView { mask: mask, ..old(self)@ }),
            *final(self) == *final(r),
    {
        self.mask = mask;
        assert(self@ =~= (FidEventView { mask: mask, ..old(self)@ }));
        self
    }

    /// Set the pid.
    pub fn set_pid(&mut self, pid: i32) -> (r: &mut Self)
        ensures
            r@ == (FidEventView { pid: pid, ..old(self)@ }),
            *final(self) == *final(r),
    {
        self.pid = pid;
        assert(self@ =~= (FidEventView { pid: pid, ..old(self)@ }));
        self
    }

    /// Set the filesystem id the event's handles belong to.
    pub fn set_fsid(&mut self, fsid: Fsid) -> (r: &mut Self)
        ensures
            r@ == (FidEventView { fsid: Some(fsid), ..old(self)@ }),
            *final(self) == *final(r),
    {
        self.fsid = Some(fsid);
        assert(self@ =~= (FidEventView { fsid: Some(fsid), ..old(self)@ }));
        self
    }

    /// Set the parent handle and the entry name, as a `DFID_NAME` record carries
    /// them.
    pub fn set_dfid_name(
        &mut self,
        handle: Cow<'buf, [u8]>,
        name: Cow<'buf, [u8]>,
    ) -> (r: &mut Self)
        ensures
            r@ == (FidEventView {
                dfid_name_handle: Some(handle@),
                dfid_name_name: Some(name@),
                ..old(self)@
            }),
            *final(self) == *final(r),
    {
        self.dfid_name_handle = Some(handle);
        self.dfid_name_name = Some(name);
        assert(self@ =~= (FidEventView {
            dfid_name_handle: Some(handle@),
            dfid_name_name: Some(name@),
            ..old(self)@
        }));
        self
    }

    /// Set the object's own handle, as a `FID`/`DFID` record carries it.
    pub fn set_self_handle(&mut self, handle: Cow<'buf, [u8]>) -> (r: &mut Self)
        ensures
            r@ == (FidEventView { self_handle: Some(handle@), ..old(self)@ }),
            *final(self) == *final(r),
    {
        self.self_handle = Some(handle);
        assert(self@ =~= (FidEventView { self_handle: Some(handle@), ..old(self)@ }));
        self
    }

    /// Set the mount id, as a `MNT` record carries it.
    pub fn set_mnt_id(&mut self, mnt_id: u64) -> (r: &mut Self)
        ensures
            r@ == (FidEventView { mnt_id: Some(mnt_id), ..old(self)@ }),
            *final(self) == *final(r),
    {
        self.mnt_id = Some(mnt_id);
        assert(self@ =~= (FidEventView { mnt_id: Some(mnt_id), ..old(self)@ }));
        self
    }

    /// Set the access range, as a `RANGE` record carries it.
    pub fn set_access_range(&mut self, offset: u64, count: u64) -> (r: &mut Self)
        ensures
            r@ == (FidEventView { access_range: Some((offset, count)), ..old(self)@ }),
            *final(self) == *final(r),
    {
        self.access_range = Some((offset, count));
        assert(self@ =~= (FidEventView { access_range: Some((offset, count)), ..old(self)@ }));
        self
    }

    /// Set the filesystem error and merged error count, as an `ERROR` record
    /// carries them.
    pub fn set_fs_error(&mut self, error: i32, error_count: u32) -> (r: &mut Self)
        ensures
            r@ == (FidEventView { fs_error: Some((error, error_count)), ..old(self)@ }),
            *final(self) == *final(r),
    {
        self.fs_error = Some((error, error_count));
        assert(self@ =~= (FidEventView { fs_error: Some((error, error_count)), ..old(self)@ }));
        self
    }

    /// Set the negative errno the kernel put in the header's `fd`, which only a
    /// `FAN_REPORT_FD_ERROR` group produces.
    pub fn set_fd_error(&mut self, error: i32) -> (r: &mut Self)
        ensures
            r@ == (FidEventView { fd_error: Some(error), ..old(self)@ }),
            *final(self) == *final(r),
    {
        self.fd_error = Some(error);
        assert(self@ =~= (FidEventView { fd_error: Some(error), ..old(self)@ }));
        self
    }

    /// Set the rename source: the parent handle and the entry's old name.
    pub fn set_rename_source(&mut self, side: RenameSide<'buf>) -> (r: &mut Self)
        ensures
            r@ == (FidEventView { rename_source: Some(side@), ..old(self)@ }),
            *final(self) == *final(r),
    {
        self.rename_source = Some(side);
        assert(self@ =~= (FidEventView { rename_source: Some(side@), ..old(self)@ }));
        self
    }

    /// Set the rename target: the parent handle and the entry's new name.
    pub fn set_rename_target(&mut self, side: RenameSide<'buf>) -> (r: &mut Self)
        ensures
            r@ == (FidEventView { rename_target: Some(side@), ..old(self)@ }),
            *final(self) == *final(r),
    {
        self.rename_target = Some(side);
        assert(self@ =~= (FidEventView { rename_target: Some(side@), ..old(self)@ }));
        self
    }

    /// Attach a pidfd.
    pub fn set_pidfd(&mut self, pidfd: Pidfd) -> (r: &mut Self)
        ensures
            r@ == (FidEventView { pidfd: pidfd, ..old(self)@ }),
            *final(self) == *final(r),
    {
        self.pidfd = pidfd;
        assert(self@ =~= (FidEventView { pidfd: pidfd, ..old(self)@ }));
        self
    }

    /// Add a record the crate has no typed field for, verbatim and **header
    /// included**.
    pub fn push_unknown_info_record(&mut self, info_type: u8, record: Cow<'buf, [u8]>) -> (r:
        &mut Self)
        ensures
            r@ == with_kept(old(self)@, info_type, record@),
            *final(self) == *final(r),
    {
        self.unknown_info_records.push((info_type, record));
        assert(self@ =~= with_kept(old(self)@, info_type, record@));
        self
    }

    /// Attach a resolved path.
    pub fn set_path(&mut self, path: Vec<u8>)
        ensures
            final(self)@ == (FidEventView { path: Some(path@), ..old(self)@ }),
    {
        self.path = Some(path);
        assert(self@ =~= (FidEventView { path: Some(path@), ..old(self)@ }));
    }

    /// Drop the resolved path, leaving the event as parsed.
    pub fn clear_path(&mut self)
        ensures
            final(self)@ == (FidEventView { path: None, ..old(self)@ }),
    {
        self.path = None;
        assert(self@ =~= (FidEventView { path: None, ..old(self)@ }));
    }

    /// Take the pidfd out of the event, leaving [`Pidfd::Absent`] behind.
    pub fn take_pidfd(&mut self) -> (r: Pidfd)
        ensures
            r == old(self)@.pidfd,
            final(self)@ == (FidEventView { pidfd: Pidfd::Absent, ..old(self)@ }),
    {
        let pidfd = self.pidfd;
        self.pidfd = Pidfd::Absent;
        assert(self@ =~= (FidEventView { pidfd: Pidfd::Absent, ..old(self)@ }));
        pidfd
    }

    /// The event mask: which bits fired.
    pub fn mask(&self) -> (r: u64)
        ensures
            r == self@.mask,
    {
        self.mask
    }

    /// The pid of the process that caused the event, or zero when the kernel had
    /// no answer.
    pub fn pid(&self) -> (r: i32)
        ensures
            r == self@.pid,
    {
        self.pid
    }

    /// The filesystem the event's handles belong to, as the record reported it.
    ///
    /// `None` for an event that carries no FID-style record: an overflow, or a
    /// mount event.
    pub fn fsid(&self) -> (r: Option<Fsid>)
        ensures
            r == self@.fsid,
    {
        self.fsid
    }

    /// The path this event was resolved to, exactly as it was reported: the
    /// marker of a deleted object is not removed.
    ///
    /// `None` means no resolution has happened, not that the event has no path.
    pub fn path(&self) -> (r: Option<&[u8]>)
        ensures
            opt_slice(r) == self@.path,
    {
        match &self.path {
            Some(path) => Some(path.as_slice()),
            None => None,
        }
    }

    /// Whether resolution has put a path on this event.
    pub fn has_path(&self) -> (r: bool)
        ensures
            r == (self@.path is Some),
    {
        self.path.is_some()
    }

    /// Whether the resolved path names an object that lost that name: whether
    /// **any** component ends in the deleted-object marker.
    ///
    /// A live object may be named that way too, so `true` means "do not treat
    /// this as a usable path".  `false` when nothing was resolved.
    pub fn is_deleted(&self) -> (r: bool)
        ensures
            r == (self@.path matches Some(path) && carries_marker(path)),
    {
        match &self.path {
            Some(path) => carries_deleted_marker(path.as_slice()),
            None => false,
        }
    }

    /// The resolved path with one marker removed from every component that ends
    /// in one.
    ///
    /// The result may name a different, existing file, which is why this is the
    /// caller's to ask for and [`path`](Self::path) keeps the marker.
    pub fn without_deleted_suffix(&self) -> (r: Option<Vec<u8>>)
        ensures
            opt_vec(r) == (match self@.path {
                Some(path) => Some(cleaned(path)),
                None => None,
            }),
    {
        match &self.path {
            Some(path) => Some(without_marker(path.as_slice())),
            None => None,
        }
    }

    /// The parent directory's handle, from a `DFID_NAME` record.
    pub fn dfid_name_handle(&self) -> (r: Option<&[u8]>)
        ensures
            opt_slice(r) == self@.dfid_name_handle,
    {
        opt_as_bytes(&self.dfid_name_handle)
    }

    /// The entry name, as raw bytes; empty when the event carries no name record.
    pub fn dfid_name_raw(&self) -> (r: &[u8])
        ensures
            r@ == (match self@.dfid_name_name {
                Some(name) => name,
                None => Seq::empty(),
            }),
    {
        match &self.dfid_name_name {
            Some(name) => as_bytes(name),
            None => {
                let none: &[u8] = &[];
                assert(none@ =~= Seq::<u8>::empty());
                none
            },
        }
    }

    /// The entry name, or `None` when there is no name record.
    ///
    /// An empty name is real: it is a directory's entry for itself.
    pub fn dfid_name(&self) -> (r: Option<&[u8]>)
        ensures
            opt_slice(r) == self@.dfid_name_name,
    {
        opt_as_bytes(&self.dfid_name_name)
    }

    /// The entry name as text, or `None` when there is no name record **or** the
    /// name is not valid UTF-8.
    pub fn dfid_name_str(&self) -> (r: Option<&str>)
        ensures
            opt_text(r) == (match self@.dfid_name_name {
                Some(name) => utf8_text(name),
                None => None,
            }),
    {
        match &self.dfid_name_name {
            Some(name) => text_of(as_bytes(name)),
            None => None,
        }
    }

    /// The entry name, owned, accepting any bytes.
    pub fn dfid_name_os_string(&self) -> (r: Option<Vec<u8>>)
        ensures
            opt_vec(r) == self@.dfid_name_name,
    {
        match &self.dfid_name_name {
            Some(name) => Some(to_bytes(as_bytes(name))),
            None => None,
        }
    }

    /// The object's own handle, from a `FID` or `DFID` record.
    pub fn self_handle(&self) -> (r: Option<&[u8]>)
        ensures
            opt_slice(r) == self@.self_handle,
    {
        opt_as_bytes(&self.self_handle)
    }

    /// How the event names the process that caused it.
    pub fn pidfd(&self) -> (r: &Pidfd)
        ensures
            *r == self@.pidfd,
    {
        &self.pidfd
    }

    /// The negative errno the kernel put in the header's `fd` instead of a
    /// descriptor; [`FAN_NOFD`] is not reported here.
    pub fn fd_error(&self) -> (r: Option<i32>)
        ensures
            r == self@.fd_error,
    {
        self.fd_error
    }

    /// The filesystem error code and the number of errors merged into this
    /// event, from an `ERROR` record.
    pub fn fs_error(&self) -> (r: Option<(i32, u32)>)
        ensures
            r == self@.fs_error,
    {
        self.fs_error
    }

    /// The byte range a `FAN_PRE_ACCESS` event is about, as `(offset, count)`.
    pub fn access_range(&self) -> (r: Option<(u64, u64)>)
        ensures
            r == self@.access_range,
    {
        self.access_range
    }

    /// The mount ID of a mount event.
    pub fn mnt_id(&self) -> (r: Option<u64>)
        ensures
            r == self@.mnt_id,
    {
        self.mnt_id
    }

    /// The rename source: the parent handle and the entry's **old** name.
    pub fn rename_source(&self) -> (r: Option<&RenameSide<'buf>>)
        ensures
            (match r {
                Some(side) => Some(side@),
                None => None,
            }) == self@.rename_source,
            self.borrows_throughout() ==> side_borrows(
                match r {
                    Some(side) => Some(*side),
                    None => None,
                },
            ),
            self.owns_everything() ==> side_owns(
                match r {
                    Some(side) => Some(*side),
                    None => None,
                },
            ),
    {
        self.rename_source.as_ref()
    }

    /// The rename target: the parent handle and the entry's **new** name.
    pub fn rename_target(&self) -> (r: Option<&RenameSide<'buf>>)
        ensures
            (match r {
                Some(side) => Some(side@),
                None => None,
            }) == self@.rename_target,
            self.borrows_throughout() ==> side_borrows(
                match r {
                    Some(side) => Some(*side),
                    None => None,
                },
            ),
            self.owns_everything() ==> side_owns(
                match r {
                    Some(side) => Some(*side),
                    None => None,
                },
            ),
    {
        self.rename_target.as_ref()
    }

    /// Records this crate could not turn into a typed field, as
    /// `(info_type, raw_record)`.
    ///
    /// `raw_record` is the record **verbatim, its 4-byte header included**.  A
    /// record whose `len` does not fit its event cannot be walked past: its entry
    /// holds the **rest of the event** from that header on.
    pub fn unknown_info_records(&self) -> (r: &[(u8, Cow<'buf, [u8]>)])
        ensures
            record_views(r@) == self@.unknown_info_records,
            self.borrows_throughout() ==> records_borrow(r@),
            self.owns_everything() ==> records_own(r@),
    {
        self.unknown_info_records.as_slice()
    }

    /// Whether this event says the queue overflowed and events were lost.
    pub fn is_overflow(&self) -> (r: bool)
        ensures
            r == (self@.mask & FAN_Q_OVERFLOW != 0),
    {
        self.mask & FAN_Q_OVERFLOW != 0
    }

    /// The names of the event bits set in the mask, for logging and debugging.
    pub fn event_names(&self) -> (r: Vec<&'static str>)
        ensures
            texts(r@) == event_names_of(self@.mask),
    {
        mask_to_event_names(self.mask)
    }
}

/// The same records, no longer tied to a buffer.
fn records_into_static(records: Vec<(u8, Cow<'_, [u8]>)>) -> (r: Vec<(u8, Cow<'static, [u8]>)>)
    ensures
        record_views(r@) == record_views(records@),
        records_own(r@),
{
    let ghost before = records@;
    let mut records = records;
    let mut r: Vec<(u8, Cow<'static, [u8]>)> = Vec::new();
    let mut i: usize = 0;
    while i < records.len()
        invariant
            i <= records@.len(),
            records@.len() == before.len(),
            r@.len() == i,
            forall|k: int|
                0 <= k < i ==> (#[trigger] r@[k]).0 == before[k].0 && r@[k].1@ == before[k].1@,
            records_own(r@),
            forall|k: int| i <= k < records@.len() ==> #[trigger] records@[k] == before[k],
        decreases records@.len() - i,
    {
        let info_type: u8 = records[i].0;
        // What the record holds moves out; a borrow of nothing takes its place.
        let mut bytes: Cow<'_, [u8]> = Cow::Borrowed(&[]);
        let slot = &mut records[i];
        std::mem::swap(&mut slot.1, &mut bytes);
        r.push((info_type, into_static(bytes)));
        i = i + 1;
    }
    assert(record_views(r@) =~= record_views(before));
    r
}

/// A second list of the same records.
fn duplicate_records<'buf>(records: &Vec<(u8, Cow<'buf, [u8]>)>) -> (r: Vec<
    (u8, Cow<'buf, [u8]>),
>)
    ensures
        record_views(r@) == record_views(records@),
        records_borrow(records@) ==> records_borrow(r@),
        records_own(records@) ==> records_own(r@),
{
    let mut r: Vec<(u8, Cow<'buf, [u8]>)> = Vec::new();
    let mut i: usize = 0;
    while i < records.len()
        invariant
            i <= records@.len(),
            r@.len() == i,
            forall|k: int|
                0 <= k < i ==> (#[trigger] r@[k]).0 == records@[k].0 && r@[k].1@
                    == records@[k].1@,
            records_borrow(records@) ==> records_borrow(r@),
            records_own(records@) ==> records_own(r@),
        decreases records@.len() - i,
    {
        r.push((records[i].0, duplicate(&records[i].1)));
        i = i + 1;
    }
    assert(record_views(r@) =~= record_views(records@));
    r
}

/// Whether two lists hold the same records.
fn same_records(a: &Vec<(u8, Cow<'_, [u8]>)>, b: &Vec<(u8, Cow<'_, [u8]>)>) -> (r: bool)
    ensures
        r == (record_views(a@) == record_views(b@)),
{
    proof {
        assert(record_views(a@).len() == a@.len());
        assert(record_views(b@).len() == b@.len());
    }
    if a.len() != b.len() {
        return false;
    }
    let mut i: usize = 0;
    while i < a.len()
        invariant
            i <= a@.len(),
            a@.len() == b@.len(),
            forall|k: int| 0 <= k < i ==> record_views(a@)[k] == record_views(b@)[k],
        decreases a@.len() - i,
    {
        if a[i].0 != b[i].0 || !same_bytes(as_bytes(&a[i].1), as_bytes(&b[i].1)) {
            proof {
                assert(record_views(a@)[i as int] != record_views(b@)[i as int]);
            }
            return false;
        }
        i = i + 1;
    }
    assert(record_views(a@) =~= record_views(b@));
    true
}

impl<'buf> Clone for FidEvent<'buf> {
    /// An event that says the same; a borrowed field stays borrowed.
    fn clone(&self) -> (r: Self)
        ensures
            r@ == self@,
            self.borrows_throughout() ==> r.borrows_throughout(),
            self.owns_everything() ==> r.owns_everything(),
    {
        let r = FidEvent {
            mask: self.mask,
            pid: self.pid,
            fsid: self.fsid,
            dfid_name_handle: opt_duplicate(&self.dfid_name_handle),
            dfid_name_name: opt_duplicate(&self.dfid_name_name),
            self_handle: opt_duplicate(&self.self_handle),
            pidfd: self.pidfd,
            fd_error: self.fd_error,
            fs_error: self.fs_error,
            access_range: self.access_range,
            mnt_id: self.mnt_id,
            rename_source: match &self.rename_source {
                Some(side) => Some(side.clone()),
                None => None,
            },
            rename_target: match &self.rename_target {
                Some(side) => Some(side.clone()),
                None => None,
            },
            unknown_info_records: duplicate_records(&self.unknown_info_records),
            path: match &self.path {
                Some(path) => Some(to_bytes(path.as_slice())),
                None => None,
            },
        };
        assert(r@ =~= self@);
        r
    }
}

/// Whether two optional paths are equal, as paths are.
pub open spec fn same_opt_path(a: Option<Seq<u8>>, b: Option<Seq<u8>>) -> bool {
    match (a, b) {
        (Some(x), Some(y)) => same_path(x, y),
        (None, None) => true,
        _ => false,
    }
}

/// Whether two events say the same: every field, the pidfd by the number its
/// record carried and the path by its components.
pub open spec fn same_event(a: FidEventView, b: FidEventView) -> bool {
    &&& (FidEventView { pidfd: Pidfd::Absent, path: None, ..a }) == (FidEventView {
        pidfd: Pidfd::Absent,
        path: None,
        ..b
    })
    &&& pidfd_number(a.pidfd) == pidfd_number(b.pidfd)
    &&& same_opt_path(a.path, b.path)
}

impl<'buf> PartialEq for FidEvent<'buf> {
    /// Compares every field; the pidfd comparison is [`Pidfd`]'s.
    fn eq(&self, other: &Self) -> (r: bool) {
        let same_paths = match (&self.path, &other.path) {
            (Some(x), Some(y)) => paths_equal(x.as_slice(), y.as_slice()),
            (None, None) => true,
            _ => false,
        };
        let r = self.mask == other.mask && self.pid == other.pid && self.fsid == other.fsid
            && opt_same(&self.dfid_name_handle, &other.dfid_name_handle) && opt_same(
            &self.dfid_name_name,
            &other.dfid_name_name,
        ) && opt_same(&self.self_handle, &other.self_handle) && self.pidfd == other.pidfd
            && self.fd_error == other.fd_error && self.fs_error == other.fs_error
            && self.access_range == other.access_range && self.mnt_id == other.mnt_id
            && same_side(&self.rename_source, &other.rename_source) && same_side(
            &self.rename_target,
            &other.rename_target,
        ) && same_records(&self.unknown_info_records, &other.unknown_info_records) && same_paths;
        r
    }
}

impl<'buf> vstd::std_specs::cmp::PartialEqSpecImpl for FidEvent<'buf> {
    open spec fn obeys_eq_spec() -> bool {
        true
    }

    open spec fn eq_spec(&self, other: &Self) -> bool {
        same_event(self@, other@)
    }
}

impl<'buf> Eq for FidEvent<'buf> {

}

/// The descriptor numbers adopted from the first `count` events: each
/// non-negative number that a pidfd record carried, once.
pub open spec fn taken_before(events: Seq<FidEventView>, count: int) -> Seq<i32>
    decreases count,
{
    if count <= 0 {
        Seq::empty()
    } else {
        let taken = taken_before(events, count - 1);
        match events[count - 1].pidfd {
            Pidfd::Unavailable(raw) => if raw >= 0 && !taken.contains(raw) {
                taken.push(raw)
            } else {
                taken
            },
            _ => taken,
        }
    }
}

/// The event at `i` once its pidfd has been adopted, if it can be.
pub open spec fn adopted_at(events: Seq<FidEventView>, i: int) -> FidEventView {
    match events[i].pidfd {
        Pidfd::Unavailable(raw) => if raw >= 0 && !taken_before(events, i).contains(raw) {
            FidEventView { pidfd: Pidfd::Fd(raw), ..events[i] }
        } else {
            events[i]
        },
        _ => events[i],
    }
}

/// The events of a batch once their pidfds have been adopted.
pub open spec fn adopted(events: Seq<FidEventView>) -> Seq<FidEventView> {
    Seq::new(events.len(), |i: int| adopted_at(events, i))
}

/// Decide whether a reported pidfd number becomes a descriptor.
///
/// A negative number is a sentinel.  The kernel installs a fresh descriptor per
/// record, so a repeat means the buffer is not what it claims, and adopting it
/// twice would close one descriptor from two owners: a repeat is left unowned.
pub fn adopt_reported_pidfd(raw: i32, already_adopted: &mut Vec<i32>) -> (r: Pidfd)
    ensures
        raw < 0 || old(already_adopted)@.contains(raw) ==> r == Pidfd::Unavailable(raw)
            && final(already_adopted)@ == old(already_adopted)@,
        raw >= 0 && !old(already_adopted)@.contains(raw) ==> r == Pidfd::Fd(raw)
            && final(already_adopted)@ == old(already_adopted)@.push(raw),
{
    if raw < 0 || holds(already_adopted.as_slice(), raw) {
        return Pidfd::Unavailable(raw);
    }
    already_adopted.push(raw);
    Pidfd::Fd(raw)
}

/// Whether a list holds a number.
pub(crate) fn holds(list: &[i32], number: i32) -> (r: bool)
    ensures
        r == list@.contains(number),
{
    let mut i: usize = 0;
    while i < list.len()
        invariant
            i <= list@.len(),
            forall|k: int| 0 <= k < i ==> list@[k] != number,
        decreases list@.len() - i,
    {
        if list[i] == number {
            return true;
        }
        i = i + 1;
    }
    false
}

/// The raw number a pidfd record carried, if the event carries no descriptor.
pub fn reported_pidfd_number(pidfd: &Pidfd) -> (r: Option<i32>)
    ensures
        r == (match *pidfd {
            Pidfd::Unavailable(raw) => Some(raw),
            _ => None,
        }),
{
    match *pidfd {
        Pidfd::Unavailable(raw) => Some(raw),
        _ => None,
    }
}

/// Adopt the pidfds of a batch that came straight from a `read(2)` on a group.
pub fn adopt_pidfds(events: &mut Vec<FidEvent<'_>>)
    ensures
        event_views(final(events)@) == adopted(event_views(old(events)@)),
        all_borrow(old(events)@) ==> all_borrow(final(events)@),
{
    let ghost before = event_views(events@);
    let mut taken: Vec<i32> = Vec::new();
    let mut i: usize = 0;
    while i < events.len()
        invariant
            i <= events@.len(),
            before.len() == events@.len(),
            taken@ == taken_before(before, i as int),
            forall|k: int| 0 <= k < i ==> (#[trigger] events@[k])@ == adopted_at(before, k),
            forall|k: int| i <= k < events@.len() ==> (#[trigger] events@[k])@ == before[k],
            all_borrow(old(events)@) ==> all_borrow(events@),
        decreases events@.len() - i,
    {
        let event = &mut events[i];
        if let Some(raw) = reported_pidfd_number(&event.pidfd) {
            event.pidfd = adopt_reported_pidfd(raw, &mut taken);
            assert(event@ =~= adopted_at(before, i as int));
        }
        i = i + 1;
    }
    assert(event_views(events@) =~= adopted(before));
}

/// A number adopted earlier in a batch is never adopted again.
proof fn taken_numbers_stay_taken(events: Seq<FidEventView>, i: int, j: int)
    requires
        0 <= i < j <= events.len(),
        adopted_at(events, i).pidfd is Fd,
        events[i].pidfd !is Fd,
    ensures
        taken_before(events, j).contains(adopted_at(events, i).pidfd->Fd_0),
    decreases j,
{
    let raw = adopted_at(events, i).pidfd->Fd_0;
    let before = taken_before(events, j - 1);
    if i == j - 1 {
        assert(taken_before(events, j) == before.push(raw));
        assert(before.push(raw)[before.len() as int] == raw);
    } else {
        taken_numbers_stay_taken(events, i, j - 1);
        let k = choose|k: int| 0 <= k < before.len() && before[k] == raw;
        assert(taken_before(events, j)[k] == raw);
    }
}

/// No two events of a parsed batch own the same descriptor, and none owns a
/// negative one.
pub proof fn no_pidfd_has_two_owners(buf: Seq<u8>, i: int, j: int)
    requires
        0 <= i < parsed_events(buf).len(),
        0 <= j < parsed_events(buf).len(),
        adopted(parsed_events(buf))[i].pidfd is Fd,
        adopted(parsed_events(buf))[j].pidfd is Fd,
        i != j,
    ensures
        adopted(parsed_events(buf))[i].pidfd->Fd_0 >= 0,
        adopted(parsed_events(buf))[i].pidfd->Fd_0 != adopted(parsed_events(buf))[j].pidfd->Fd_0,
{
    let events = parsed_events(buf);
    parsing_adopts_and_resolves_nothing(buf, i);
    parsing_adopts_and_resolves_nothing(buf, j);
    if i < j {
        taken_numbers_stay_taken(events, i, j);
    } else {
        taken_numbers_stay_taken(events, j, i);
    }
}

/// Adopting a descriptor changes nothing of what an event says: an event from a
/// group equals the same bytes parsed from a buffer.
pub proof fn adoption_keeps_events_equal(events: Seq<FidEventView>, i: int)
    requires
        0 <= i < events.len(),
    ensures
        same_event(adopted(events)[i], events[i]),
{
}

/// The records added to an event leave its path alone and adopt nothing.
proof fn records_adopt_nothing(event: FidEventView, s: Seq<u8>)
    requires
        event.pidfd !is Fd,
        event.path is None,
    ensures
        with_records(event, s).pidfd !is Fd,
        with_records(event, s).path is None,
    decreases s.len(),
{
    if s.len() >= INFO_HEADER_SIZE && record_fits(s) {
        records_adopt_nothing(
            with_record(event, s.take(record_len_of(s))),
            s.skip(record_len_of(s)),
        );
    }
}

/// An event parsed from bytes owns no descriptor and carries no path.
pub proof fn parsing_adopts_and_resolves_nothing(buf: Seq<u8>, i: int)
    requires
        0 <= i < parsed_events(buf).len(),
    ensures
        parsed_events(buf)[i].pidfd !is Fd,
        parsed_events(buf)[i].path is None,
{
    let frame = frames(buf, true)[i];
    records_adopt_nothing(header_event(frame), frame.skip(records_start_of(frame)));
}

/// A record is either understood or kept, never both and never neither: the list
/// of kept records stays as it was, or the whole event stays as it was but for
/// this record, verbatim, at the end of that list.
pub proof fn a_record_is_understood_or_kept(event: FidEventView, record: Seq<u8>)
    ensures
        with_record(event, record).unknown_info_records == event.unknown_info_records || with_record(
            event,
            record,
        ) == with_kept(event, record[0], record),
{
}

/// What a first record said is not overwritten: the fsid, the entry name with its
/// parent handle, and the pidfd.
pub proof fn first_records_win(event: FidEventView, record: Seq<u8>)
    ensures
        event.fsid is Some ==> with_record(event, record).fsid == event.fsid,
        event.dfid_name_name is Some ==> with_record(event, record).dfid_name_name
            == event.dfid_name_name && with_record(event, record).dfid_name_handle
            == event.dfid_name_handle,
        event.pidfd !is Absent ==> with_record(event, record).pidfd == event.pidfd,
{
}

/// The bytes each record of an event accounts for: one record, or from a record
/// whose length does not fit to the end of the event.
pub open spec fn record_list(s: Seq<u8>) -> Seq<Seq<u8>>
    decreases s.len(),
{
    if s.len() < INFO_HEADER_SIZE {
        Seq::empty()
    } else if !record_fits(s) {
        seq![s]
    } else {
        seq![s.take(record_len_of(s))] + record_list(s.skip(record_len_of(s)))
    }
}

/// What one entry of [`record_list`] adds to an event.
pub open spec fn with_entry(event: FidEventView, entry: Seq<u8>) -> FidEventView {
    if record_fits(entry) {
        with_record(event, entry)
    } else {
        with_kept(event, entry[0], entry)
    }
}

/// What entries add to an event, in order.
pub open spec fn with_entries(event: FidEventView, entries: Seq<Seq<u8>>) -> FidEventView
    decreases entries.len(),
{
    if entries.len() == 0 {
        event
    } else {
        with_entries(with_entry(event, entries[0]), entries.skip(1))
    }
}

/// No byte of an event's records is lost and none is charged to two of them: the
/// entries, one after the other, are the record area but for at most three bytes
/// that are too few for a header, and the event is what those entries add up to.
pub proof fn records_cover_the_event(event: FidEventView, s: Seq<u8>)
    ensures
        joined(record_list(s)).len() <= s.len() < joined(record_list(s)).len() + INFO_HEADER_SIZE,
        joined(record_list(s)) == s.take(joined(record_list(s)).len() as int),
        with_records(event, s) == with_entries(event, record_list(s)),
    decreases s.len(),
{
    if s.len() < INFO_HEADER_SIZE {
        assert(s.take(0) =~= Seq::<u8>::empty());
    } else if !record_fits(s) {
        reveal_with_fuel(joined, 2);
        reveal_with_fuel(with_entries, 2);
        assert(seq![s].skip(1) =~= Seq::<Seq<u8>>::empty());
        assert(joined(seq![s]) =~= s);
        assert(s.take(s.len() as int) =~= s);
    } else {
        let n = record_len_of(s);
        let first = s.take(n);
        let tail = s.skip(n);
        assert(first.subrange(2, 4) =~= s.subrange(2, 4));
        records_cover_the_event(with_record(event, first), tail);
        assert(record_list(s).skip(1) =~= record_list(tail));
        let cut = joined(record_list(tail)).len() as int;
        assert(joined(record_list(s)) == first + joined(record_list(tail)));
        assert(first + tail.take(cut) =~= s.take(n + cut));
    }
}

/// What an event says is compared by an equivalence: every event equals itself,
/// in either order, and events equal to one another are equal to the same.
pub proof fn event_equality_is_an_equivalence(a: FidEventView, b: FidEventView, c: FidEventView)
    ensures
        same_event(a, a),
        same_event(a, b) ==> same_event(b, a),
        same_event(a, b) && same_event(b, c) ==> same_event(a, c),
{
}

/// A buffer holds no more events than headers fit in it.
pub proof fn events_are_bounded(buf: Seq<u8>)
    ensures
        parsed_events(buf).len() * METADATA_SIZE <= buf.len(),
{
    frames_are_bounded(buf, true);
}

/// The numbers adopted before an event are the non-negative ones that the events
/// before it reported.
proof fn taken_numbers_are_those_seen(events: Seq<FidEventView>, count: int, number: i32)
    requires
        0 <= count <= events.len(),
    ensures
        taken_before(events, count).contains(number) <==> number >= 0 && exists|k: int|
            0 <= k < count && (#[trigger] events[k]).pidfd == Pidfd::Unavailable(number),
    decreases count,
{
    if count > 0 {
        let before = taken_before(events, count - 1);
        taken_numbers_are_those_seen(events, count - 1, number);
        if let Pidfd::Unavailable(last) = events[count - 1].pidfd {
            taken_numbers_are_those_seen(events, count - 1, last);
            let after = before.push(last);
            assert(after[before.len() as int] == last);
            if before.contains(number) {
                let k = choose|k: int| 0 <= k < before.len() && before[k] == number;
                assert(after[k] == number);
            }
            if after.contains(number) {
                let k = choose|k: int| 0 <= k < after.len() && after[k] == number;
                if k < before.len() {
                    assert(before[k] == number);
                }
            }
        }
    }
}

/// The first event of a batch that reports a pidfd owns it, if the number can be a
/// descriptor, and no other event does.  Nothing else of an event changes.
pub proof fn the_first_to_report_a_pidfd_owns_it(events: Seq<FidEventView>, i: int)
    requires
        0 <= i < events.len(),
    ensures
        adopted(events).len() == events.len(),
        match events[i].pidfd {
            Pidfd::Unavailable(number) => {
                let first = forall|j: int|
                    0 <= j < i ==> (#[trigger] events[j]).pidfd != Pidfd::Unavailable(number);
                &&& number >= 0 && first ==> adopted(events)[i] == (FidEventView {
                    pidfd: Pidfd::Fd(number),
                    ..events[i]
                })
                &&& number < 0 || !first ==> adopted(events)[i] == events[i]
            },
            _ => adopted(events)[i] == events[i],
        },
{
    if let Pidfd::Unavailable(number) = events[i].pidfd {
        taken_numbers_are_those_seen(events, i, number);
    }
}

/// Two events are equal exactly if each field of the one is that of the other: a
/// pidfd by the number that it was reported with, whether it was adopted or not,
/// and a path by its components.
pub proof fn equal_events_agree_in_every_field(a: FidEventView, b: FidEventView)
    ensures
        same_event(a, b) <==> {
            &&& a.mask == b.mask
            &&& a.pid == b.pid
            &&& a.fsid == b.fsid
            &&& a.dfid_name_handle == b.dfid_name_handle
            &&& a.dfid_name_name == b.dfid_name_name
            &&& a.self_handle == b.self_handle
            &&& match (a.pidfd, b.pidfd) {
                (Pidfd::Absent, Pidfd::Absent) => true,
                (Pidfd::Fd(x), Pidfd::Fd(y)) => x == y,
                (Pidfd::Fd(x), Pidfd::Unavailable(y)) => x == y,
                (Pidfd::Unavailable(x), Pidfd::Fd(y)) => x == y,
                (Pidfd::Unavailable(x), Pidfd::Unavailable(y)) => x == y,
                _ => false,
            }
            &&& a.fd_error == b.fd_error
            &&& a.fs_error == b.fs_error
            &&& a.access_range == b.access_range
            &&& a.mnt_id == b.mnt_id
            &&& a.rename_source == b.rename_source
            &&& a.rename_target == b.rename_target
            &&& a.unknown_info_records == b.unknown_info_records
            &&& (a.path is None <==> b.path is None)
            &&& (a.path is Some && b.path is Some ==> crate::path::parts(a.path->0)
                == crate::path::parts(b.path->0))
        },
{
    let x = FidEventView { pidfd: Pidfd::Absent, path: None, ..a };
    let y = FidEventView { pidfd: Pidfd::Absent, path: None, ..b };
    if x == y {
        assert(x.mask == y.mask && x.pid == y.pid && x.fsid == y.fsid);
    }
}

/// An event is deleted exactly if some component of its path is a name that ends
/// in the marker, and an event without a path is not.
pub proof fn a_deleted_event_carries_the_marker(event: FidEvent<'_>, r: bool)
    requires
        call_ensures(FidEvent::<'_>::is_deleted, (&event,), r),
    ensures
        r <==> event@.path is Some && exists|i: int, stem: Seq<u8>|
            0 <= i < crate::path::parts(event@.path->0).len() && #[trigger] crate::path::parts(
                event@.path->0,
            )[i] == crate::path::Part::Name(#[trigger] (stem + crate::deleted::marker())),
{
    if event@.path is Some {
        crate::deleted::a_marked_path_has_a_marked_name(event@.path->0);
    }
}

/// Every part of an event that can be set is set to exactly what was given, and
/// nothing else of the event changes.
pub proof fn what_is_set_is_what_was_given()
    ensures
        forall|event: &mut FidEvent<'_>, mask: u64, r: &mut FidEvent<'_>|
            #[trigger] call_ensures(FidEvent::<'_>::set_mask, (event, mask), r) ==> (*r)@ == (
            FidEventView { mask: mask, ..(*event)@ }) && *final(event) == *final(r),
        forall|event: &mut FidEvent<'_>, pid: i32, r: &mut FidEvent<'_>|
            #[trigger] call_ensures(FidEvent::<'_>::set_pid, (event, pid), r) ==> (*r)@ == (
            FidEventView { pid: pid, ..(*event)@ }) && *final(event) == *final(r),
        forall|event: &mut FidEvent<'_>, fsid: Fsid, r: &mut FidEvent<'_>|
            #[trigger] call_ensures(FidEvent::<'_>::set_fsid, (event, fsid), r) ==> (*r)@ == (
            FidEventView { fsid: Some(fsid), ..(*event)@ }) && *final(event) == *final(r),
        forall|event: &mut FidEvent<'_>, handle: Cow<'_, [u8]>, r: &mut FidEvent<'_>|
            #[trigger] call_ensures(FidEvent::<'_>::set_self_handle, (event, handle), r)
                ==> (*r)@ == (
            FidEventView { self_handle: Some(handle@), ..(*event)@ }) && *final(event) == *final(r),
        forall|event: &mut FidEvent<'_>, mnt_id: u64, r: &mut FidEvent<'_>|
            #[trigger] call_ensures(FidEvent::<'_>::set_mnt_id, (event, mnt_id), r) ==> (*r)@ == (
            FidEventView { mnt_id: Some(mnt_id), ..(*event)@ }) && *final(event) == *final(r),
        forall|event: &mut FidEvent<'_>, error: i32, r: &mut FidEvent<'_>|
            #[trigger] call_ensures(FidEvent::<'_>::set_fd_error, (event, error), r) ==> (*r)@ == (
            FidEventView { fd_error: Some(error), ..(*event)@ }) && *final(event) == *final(r),
        forall|event: &mut FidEvent<'_>, pidfd: Pidfd, r: &mut FidEvent<'_>|
            #[trigger] call_ensures(FidEvent::<'_>::set_pidfd, (event, pidfd), r) ==> (*r)@ == (
            FidEventView { pidfd: pidfd, ..(*event)@ }) && *final(event) == *final(r),
        forall|event: &mut FidEvent<'_>, side: RenameSide<'_>, r: &mut FidEvent<'_>|
            #[trigger] call_ensures(FidEvent::<'_>::set_rename_source, (event, side), r)
                ==> (*r)@ == (
            FidEventView { rename_source: Some(side@), ..(*event)@ }) && *final(event) == *final(r),
        forall|event: &mut FidEvent<'_>, side: RenameSide<'_>, r: &mut FidEvent<'_>|
            #[trigger] call_ensures(FidEvent::<'_>::set_rename_target, (event, side), r)
                ==> (*r)@ == (
            FidEventView { rename_target: Some(side@), ..(*event)@ }) && *final(event) == *final(r),
        forall|event: &mut FidEvent<'_>, offset: u64, count: u64, r: &mut FidEvent<'_>|
            #[trigger] call_ensures(FidEvent::<'_>::set_access_range, (event, offset, count), r)
                ==> (*r)@ == (
            FidEventView { access_range: Some((offset, count)), ..(*event)@ }) && *final(event) == *final(r),
        forall|event: &mut FidEvent<'_>, error: i32, count: u32, r: &mut FidEvent<'_>|
            #[trigger] call_ensures(FidEvent::<'_>::set_fs_error, (event, error, count), r)
                ==> (*r)@ == (
            FidEventView { fs_error: Some((error, count)), ..(*event)@ }) && *final(event) == *final(r),
        forall|
            event: &mut FidEvent<'_>,
            handle: Cow<'_, [u8]>,
            name: Cow<'_, [u8]>,
            r: &mut FidEvent<'_>,
        |
            #[trigger] call_ensures(FidEvent::<'_>::set_dfid_name, (event, handle, name), r)
                ==> (*r)@ == (
            FidEventView { dfid_name_handle: Some(handle@), dfid_name_name: Some(name@), ..(*event)@ }) && *final(event) == *final(r),
        forall|event: &mut FidEvent<'_>, path: Vec<u8>|
            #[trigger] call_ensures(FidEvent::<'_>::set_path, (event, path), ()) ==> final(event)@
                == (FidEventView { path: Some(path@), ..(*event)@ }),
        forall|event: &mut FidEvent<'_>|
            #[trigger] call_ensures(FidEvent::<'_>::clear_path, (event,), ()) ==> final(event)@
                == (FidEventView { path: None, ..(*event)@ }),
        forall|event: &mut FidEvent<'_>, r: Pidfd|
            #[trigger] call_ensures(FidEvent::<'_>::take_pidfd, (event,), r) ==> r
                == (*event)@.pidfd && final(event)@ == (FidEventView {
                pidfd: Pidfd::Absent,
                ..(*event)@
            }),
        forall|event: &mut FidEvent<'_>, info_type: u8, record: Cow<'_, [u8]>, r: &mut FidEvent<'_>|
            #[trigger] call_ensures(
                FidEvent::<'_>::push_unknown_info_record,
                (event, info_type, record),
                r,
            ) ==> (*r)@ == (FidEventView {
                unknown_info_records: (*event)@.unknown_info_records.push((info_type, record@)),
                ..(*event)@
            }) && *final(event) == *final(r),
{
}

/// Every question about an event is answered with what the event holds.
pub proof fn what_is_asked_is_what_is_held()
    ensures
        forall|event: &FidEvent<'_>, r: u64|
            #[trigger] call_ensures(FidEvent::<'_>::mask, (event,), r) ==> (r == event@.mask),
        forall|event: &FidEvent<'_>, r: i32|
            #[trigger] call_ensures(FidEvent::<'_>::pid, (event,), r) ==> (r == event@.pid),
        forall|event: &FidEvent<'_>, r: Option<Fsid>|
            #[trigger] call_ensures(FidEvent::<'_>::fsid, (event,), r) ==> (r == event@.fsid),
        forall|event: &FidEvent<'_>, r: bool|
            #[trigger] call_ensures(FidEvent::<'_>::has_path, (event,), r)
                ==> (r <==> event@.path is Some),
        forall|event: &FidEvent<'_>, r: Option<i32>|
            #[trigger] call_ensures(FidEvent::<'_>::fd_error, (event,), r)
                ==> (r == event@.fd_error),
        forall|event: &FidEvent<'_>, r: Option<(i32, u32)>|
            #[trigger] call_ensures(FidEvent::<'_>::fs_error, (event,), r)
                ==> (r == event@.fs_error),
        forall|event: &FidEvent<'_>, r: Option<(u64, u64)>|
            #[trigger] call_ensures(FidEvent::<'_>::access_range, (event,), r)
                ==> (r == event@.access_range),
        forall|event: &FidEvent<'_>, r: Option<u64>|
            #[trigger] call_ensures(FidEvent::<'_>::mnt_id, (event,), r) ==> (r == event@.mnt_id),
        forall|event: &FidEvent<'_>, r: &Pidfd|
            #[trigger] call_ensures(FidEvent::<'_>::pidfd, (event,), r) ==> (*r == event@.pidfd),
        forall|event: &FidEvent<'_>, r: Option<&[u8]>|
            #[trigger] call_ensures(FidEvent::<'_>::dfid_name_handle, (event,), r)
                ==> (opt_slice(r) == event@.dfid_name_handle),
        forall|event: &FidEvent<'_>, r: Option<&[u8]>|
            #[trigger] call_ensures(FidEvent::<'_>::dfid_name, (event,), r)
                ==> (opt_slice(r) == event@.dfid_name_name),
        forall|event: &FidEvent<'_>, r: Option<&[u8]>|
            #[trigger] call_ensures(FidEvent::<'_>::self_handle, (event,), r)
                ==> (opt_slice(r) == event@.self_handle),
        forall|event: &FidEvent<'_>, r: Option<&[u8]>|
            #[trigger] call_ensures(FidEvent::<'_>::path, (event,), r)
                ==> (opt_slice(r) == event@.path),
        forall|event: &FidEvent<'_>, r: &[u8]|
            #[trigger] call_ensures(FidEvent::<'_>::dfid_name_raw, (event,), r)
                ==> ((event@.dfid_name_name is None ==> r@.len() == 0)
                    && (event@.dfid_name_name is Some ==> r@ == event@.dfid_name_name->0)),
        forall|event: &FidEvent<'_>, r: Option<Vec<u8>>|
            #[trigger] call_ensures(FidEvent::<'_>::dfid_name_os_string, (event,), r)
                ==> (opt_vec(r) == event@.dfid_name_name),
        forall|event: &FidEvent<'_>, r: bool|
            #[trigger] call_ensures(FidEvent::<'_>::is_overflow, (event,), r)
                ==> (r <==> event@.mask & 0x4000 != 0),
{
}

/// A buffer of whole events is parsed into exactly those, and one that begins with
/// an event of another version is refused with that version.
pub proof fn a_batch_parses_into_its_events(
    events: Seq<Event>,
    buf: &[u8],
    r: Result<Vec<FidEvent<'_>>, FanotifyError>,
)
    requires
        call_ensures(parse_fid_events, (buf,), r),
        buf@ == joined(all_bytes(events)),
        events.len() > 0,
        is_batch(events) || (can_be_written(events[0].header, events[0].records)
            && events[0].header.vers != 3),
    ensures
        events[0].header.vers == 3 ==> (r matches Ok(list) && list@.len() == events.len()
            && event_views(list@) == parsed_events(buf@)),
        events[0].header.vers != 3 ==> (r matches Err(error) && error
            == FanotifyError::UnknownEventVersion(events[0].header.vers)),
{
    if is_batch(events) {
        frames_of_a_batch(events);
        assert(parsed_events(buf@).len() == events.len());
        if let Ok(list) = r {
            assert(event_views(list@).len() == list@.len());
        }
    } else {
        let list = all_bytes(events);
        let first = event_bytes(events[0].header, events[0].records);
        header_fields(events[0].header, events[0].records);
        assert(list[0] == first);
        assert(buf@ == first + joined(list.skip(1)));
        assert(buf@[4] == first[4]);
    }
}

/// A pidfd's number is that of its descriptor, and there is none without one; a
/// number is adopted if it can be a descriptor and was not adopted before.
pub proof fn a_number_is_adopted_once()
    ensures
        forall|pidfd: &Pidfd, r: Option<i32>|
            #[trigger] call_ensures(Pidfd::as_fd, (pidfd,), r) ==> match r {
                Some(fd) => *pidfd == Pidfd::Fd(fd),
                None => *pidfd !is Fd,
            },
        forall|pidfd: Pidfd, r: Option<i32>|
            #[trigger] call_ensures(Pidfd::into_fd, (pidfd,), r) ==> match r {
                Some(fd) => pidfd == Pidfd::Fd(fd),
                None => pidfd !is Fd,
            },
        forall|pidfd: &Pidfd, r: Option<i32>|
            #[trigger] call_ensures(reported_pidfd_number, (pidfd,), r) ==> match r {
                Some(number) => *pidfd == Pidfd::Unavailable(number),
                None => *pidfd !is Unavailable,
            },
        forall|raw: i32, taken: &mut Vec<i32>, r: Pidfd|
            #[trigger] call_ensures(adopt_reported_pidfd, (raw, taken), r) ==> {
                let seen = exists|i: int| 0 <= i < (*taken)@.len() && (*taken)@[i] == raw;
                &&& raw >= 0 && !seen ==> r == Pidfd::Fd(raw) && final(taken)@ == (*taken)@ + seq![
                    raw,
                ]
                &&& raw < 0 || seen ==> r == Pidfd::Unavailable(raw) && final(taken)@ == (
                *taken)@
            },
{
}

/// An event that is made owned says what it said, and holds all of it itself.
pub proof fn an_owned_event_says_the_same()
    ensures
        forall|event: FidEvent<'_>, r: FidEvent<'static>|
            #[trigger] call_ensures(FidEvent::<'_>::into_owned, (event,), r) ==> r@ == event@
                && r.owns_everything(),
        forall|side: RenameSide<'_>, r: RenameSide<'static>|
            #[trigger] call_ensures(RenameSide::<'_>::into_owned, (side,), r) ==> r@ == side@,
        forall|side: &RenameSide<'_>, r: &[u8]|
            #[trigger] call_ensures(RenameSide::<'_>::handle, (side,), r) ==> r@ == side@.handle,
        forall|side: &RenameSide<'_>, r: &[u8]|
            #[trigger] call_ensures(RenameSide::<'_>::name, (side,), r) ==> r@ == side@.name,
        forall|side: &RenameSide<'_>, r: Vec<u8>|
            #[trigger] call_ensures(RenameSide::<'_>::name_os_string, (side,), r) ==> r@
                == side@.name,
{
}

/// A new event says nothing at all.
pub proof fn a_new_event_says_nothing(event: FidEvent<'_>)
    requires
        call_ensures(FidEvent::<'_>::new, (), event),
    ensures
        event@ == (FidEventView {
            mask: 0,
            pid: 0,
            fsid: None,
            dfid_name_handle: None,
            dfid_name_name: None,
            self_handle: None,
            pidfd: Pidfd::Absent,
            fd_error: None,
            fs_error: None,
            access_range: None,
            mnt_id: None,
            rename_source: None,
            rename_target: None,
            unknown_info_records: Seq::empty(),
            path: None,
        }),
{
}

/// A name is text exactly if its bytes are UTF-8, and is then the text that they
/// encode; a cleaned path is the event's own without its markers; and the names of
/// an event are those of its mask.
pub proof fn an_event_is_read_as_text()
    ensures
        forall|event: &FidEvent<'_>, r: Option<&str>|
            #[trigger] call_ensures(FidEvent::<'_>::dfid_name_str, (event,), r) ==> {
                &&& r is Some <==> event@.dfid_name_name is Some && vstd::utf8::valid_utf8(
                    event@.dfid_name_name->0,
                )
                &&& r is Some ==> (r->0)@ == vstd::utf8::decode_utf8(event@.dfid_name_name->0)
            },
        forall|side: &RenameSide<'_>, r: Option<&str>|
            #[trigger] call_ensures(RenameSide::<'_>::name_str, (side,), r) ==> {
                &&& r is Some <==> vstd::utf8::valid_utf8(side@.name)
                &&& r is Some ==> (r->0)@ == vstd::utf8::decode_utf8(side@.name)
            },
        forall|event: &FidEvent<'_>, r: Option<Vec<u8>>|
            #[trigger] call_ensures(FidEvent::<'_>::without_deleted_suffix, (event,), r) ==> {
                &&& r is Some <==> event@.path is Some
                &&& r is Some ==> (r->0)@ == cleaned(event@.path->0)
            },
        forall|event: &FidEvent<'_>, r: Vec<&'static str>|
            #[trigger] call_ensures(FidEvent::<'_>::event_names, (event,), r) ==> texts(r@)
                == event_names_of(event@.mask),
{
}

/// However a buffer is parsed, its events are the same, whatever the list held
/// before.
pub proof fn every_parser_finds_the_same_events(
    buf: &[u8],
    r: (Vec<FidEvent<'_>>, ParseReport),
)
    requires
        call_ensures(parse_fid_events_reported, (buf,), r),
    ensures
        event_views(r.0@) == parsed_events(buf@),
        reports(r.1, buf@),
        forall|events: &mut Vec<FidEvent<'_>>, report: ParseReport|
            #[trigger] call_ensures(parse_fid_events_into, (events, buf), report) ==> event_views(
                final(events)@,
            ) == parsed_events(buf@) && reports(report, buf@),
        forall|events: &mut Vec<FidEvent<'_>>|
            #[trigger] call_ensures(adopt_pidfds, (events,), ()) ==> event_views(final(events)@)
                == adopted(event_views((*events)@)),
{
}

/// Two pidfds are equal exactly if both are absent or both were reported with the
/// same number; two sides of a rename, if their handles and their names are; and a
/// number that is attached is a descriptor.
pub proof fn equal_parts_are_the_same(
    a: Pidfd,
    b: Pidfd,
    x: RenameSide<'_>,
    y: RenameSide<'_>,
    same: bool,
    same_sides: bool,
    fd: i32,
    attached: Pidfd,
)
    requires
        call_ensures(Pidfd::eq, (&a, &b), same),
        call_ensures(RenameSide::<'_>::eq, (&x, &y), same_sides),
        call_ensures(Pidfd::from, (fd,), attached),
    ensures
        same <==> match (a, b) {
            (Pidfd::Absent, Pidfd::Absent) => true,
            (Pidfd::Fd(m), Pidfd::Fd(n)) => m == n,
            (Pidfd::Fd(m), Pidfd::Unavailable(n)) => m == n,
            (Pidfd::Unavailable(m), Pidfd::Fd(n)) => m == n,
            (Pidfd::Unavailable(m), Pidfd::Unavailable(n)) => m == n,
            _ => false,
        },
        same_sides <==> x@.handle == y@.handle && x@.name == y@.name,
        attached == Pidfd::Fd(fd),
{
}

/// The sides of a rename and the kept records are given back as they are held.
pub proof fn what_is_kept_is_given_back()
    ensures
        forall|event: &FidEvent<'_>, r: Option<&RenameSide<'_>>|
            #[trigger] call_ensures(FidEvent::<'_>::rename_source, (event,), r) ==> (r is Some
                <==> event@.rename_source is Some) && (r is Some ==> (*(r->0))@
                == event@.rename_source->0),
        forall|event: &FidEvent<'_>, r: Option<&RenameSide<'_>>|
            #[trigger] call_ensures(FidEvent::<'_>::rename_target, (event,), r) ==> (r is Some
                <==> event@.rename_target is Some) && (r is Some ==> (*(r->0))@
                == event@.rename_target->0),
        forall|event: &FidEvent<'_>, r: &[(u8, Cow<'_, [u8]>)]|
            #[trigger] call_ensures(FidEvent::<'_>::unknown_info_records, (event,), r)
                ==> r@.len() == event@.unknown_info_records.len() && forall|i: int|
                0 <= i < r@.len() ==> (#[trigger] r@[i]).0 == event@.unknown_info_records[i].0
                    && r@[i].1@ == event@.unknown_info_records[i].1,
{
    assert forall|event: &FidEvent<'_>, r: &[(u8, Cow<'_, [u8]>)]|
        #[trigger] call_ensures(FidEvent::<'_>::unknown_info_records, (event,), r) implies r@.len()
        == event@.unknown_info_records.len() && forall|i: int|
        0 <= i < r@.len() ==> (#[trigger] r@[i]).0 == event@.unknown_info_records[i].0 && r@[i].1@
            == event@.unknown_info_records[i].1 by {
        assert forall|i: int| 0 <= i < r@.len() implies (#[trigger] r@[i]).0
            == event@.unknown_info_records[i].0 && r@[i].1@ == event@.unknown_info_records[i].1 by {
            assert(record_views(r@)[i] == (r@[i].0, r@[i].1@));
        }
    }
}

/// A list of events is taken by what each of them says, in their order.
pub proof fn a_list_is_taken_event_by_event(events: Seq<FidEvent<'_>>, i: int)
    requires
        0 <= i < events.len(),
    ensures
        event_views(events).len() == events.len(),
        event_views(events)[i] == events[i]@,
{
}

/// A copy of an event says what the event says, and so does a copy of a side.
pub proof fn a_copy_says_the_same()
    ensures
        forall|event: &FidEvent<'_>, r: FidEvent<'_>|
            #[trigger] call_ensures(FidEvent::<'_>::clone, (event,), r) ==> r@ == event@,
        forall|side: &RenameSide<'_>, r: RenameSide<'_>|
            #[trigger] call_ensures(RenameSide::<'_>::clone, (side,), r) ==> r@ == side@,
{
}

/// What is kept of a parsed event is borrowed from its buffer, and what is kept of
/// an owned one is its own.
pub proof fn what_is_kept_is_borrowed_until_it_is_owned(
    event: &FidEvent<'_>,
    kept: &[(u8, Cow<'_, [u8]>)],
    i: int,
)
    requires
        call_ensures(FidEvent::<'_>::unknown_info_records, (event,), kept),
        0 <= i < kept@.len(),
    ensures
        event.borrows_throughout() ==> kept@[i].1 is Borrowed,
        event.owns_everything() ==> kept@[i].1 is Owned,
        forall|buf: &[u8], r: (Vec<FidEvent<'_>>, ParseReport), k: int|
            #[trigger] call_ensures(parse_fid_events_reported, (buf,), r) && 0 <= k < r.0@.len()
                ==> (#[trigger] r.0@[k]).borrows_throughout(),
{
}

} // verus!
