//! The group: reads, marks and answers, and the readers that keep their storage.
//!
//! A fanotify group is a descriptor.  **Marks are kernel state**, not objects
//! tracked here: a mark lives in the inode, mount or filesystem it is on and goes
//! with it or with the group.
//!
//! A mark never covers a subtree.  It covers the object it names and, for events
//! that can be about a child, that object's immediate children.
//!
//! # Where descriptors are adopted
//!
//! An fd-based event carries a descriptor the kernel installed for this process,
//! and a FID event may carry a pidfd.  Owning either number is sound only if the
//! bytes are the kernel's answer to the `read(2)` that just happened, which is
//! why adoption stands here and not with the parsers.
use vstd::prelude::*;

use crate::consts::{AT_FDCWD, FAN_MARK_ADD, FAN_MARK_FLUSH, FAN_MARK_MOUNT};
use crate::error::FanotifyError;
use crate::fd::{
    adopt_first, adopted_fd_events, fd_event_views, fd_events_are_bounded, fill_fd_events, larger,
    parsed_fd_events, FdEvent, FdEventView, METADATA_SIZE,
};
use crate::fid::{
    adopt_pidfds, adopted, all_borrow, event_views, parse_fid_events_into,
    parse_fid_events_reported, parsed_events, FidEvent,
};
use crate::parse::{reports, walk_stop, EventStop, ParseReport};
use crate::path::SLASH;
use crate::response::{self, encoded, has_wire_form, write_outcome, FanotifyResponse};
use crate::sys::{
    self, init_outcome, mark_outcome, marks, poll_timeout, read_size, DEFAULT_BUF_BYTES,
};

verus! {

/// A fanotify group, named by its descriptor.
#[derive(Debug, Clone, Copy, PartialEq, Eq, Structural)]
pub struct Fanotify {
    fd: i32,
}

/// What `poll` came to: whether something is readable.
pub open spec fn poll_outcome(reply: Result<i32, i32>) -> Result<bool, FanotifyError> {
    match reply {
        Ok(ready) => Ok(ready > 0),
        Err(code) => Err(FanotifyError::Read(code)),
    }
}

impl Fanotify {
    /// The group's descriptor.
    pub closed spec fn descriptor(self) -> i32 {
        self.fd
    }

    /// Create a group with flags alone.
    pub fn new<F: Fn(u32, u32) -> Result<i32, i32>>(flags: u32, call: &F) -> (r: Result<
        Self,
        FanotifyError,
    >)
        requires
            call.requires((flags, 0u32)),
        ensures
            exists|reply: Result<i32, i32>|
                {
                    &&& #[trigger] call.ensures((flags, 0u32), reply)
                    &&& match init_outcome(reply) {
                        Ok(fd) => r matches Ok(group) && group.descriptor() == fd,
                        Err(error) => r == Err::<Self, FanotifyError>(error),
                    }
                },
    {
        Fanotify::init(flags, 0, call)
    }

    /// Create a group: `fanotify_init` and nothing else.
    pub fn init<F: Fn(u32, u32) -> Result<i32, i32>>(
        flags: u32,
        event_f_flags: u32,
        call: &F,
    ) -> (r: Result<Self, FanotifyError>)
        requires
            call.requires((flags, event_f_flags)),
        ensures
            exists|reply: Result<i32, i32>|
                {
                    &&& #[trigger] call.ensures((flags, event_f_flags), reply)
                    &&& match init_outcome(reply) {
                        Ok(fd) => r matches Ok(group) && group.descriptor() == fd,
                        Err(error) => r == Err::<Self, FanotifyError>(error),
                    }
                },
    {
        match sys::fanotify_init(flags, event_f_flags, call) {
            Ok(fd) => Ok(Fanotify { fd }),
            Err(error) => Err(error),
        }
    }

    /// A group that was created elsewhere: inherited, received, set up before
    /// privileges were dropped.  Nothing is probed.
    pub fn from_fd(fd: i32) -> (r: Self)
        ensures
            r.descriptor() == fd,
    {
        Fanotify { fd }
    }

    /// Add or remove a mark on a path, read from the working directory.
    pub fn mark<F: Fn(i32, u32, u64, i32, &[u8]) -> Result<i32, i32>>(
        &self,
        flags: u32,
        mask: u64,
        path: &[u8],
        call: &F,
    ) -> (r: Result<(), FanotifyError>)
        requires
            forall|c_path: &[u8]|
                #[trigger] call.requires((self.descriptor(), flags, mask, AT_FDCWD, c_path)),
        ensures
            marks(self.descriptor(), flags, mask, AT_FDCWD, path@, *call, r),
    {
        assert(self.descriptor() == self.fd);
        sys::fanotify_mark(self.fd, flags, mask, AT_FDCWD, path, call)
    }

    /// Add or remove a mark on a path, read from a directory descriptor: no
    /// rename can change which directory that is.
    pub fn mark_at<F: Fn(i32, u32, u64, i32, &[u8]) -> Result<i32, i32>>(
        &self,
        dir_fd: i32,
        flags: u32,
        mask: u64,
        path: &[u8],
        call: &F,
    ) -> (r: Result<(), FanotifyError>)
        requires
            forall|c_path: &[u8]|
                #[trigger] call.requires((self.descriptor(), flags, mask, dir_fd, c_path)),
        ensures
            marks(self.descriptor(), flags, mask, dir_fd, path@, *call, r),
    {
        assert(self.descriptor() == self.fd);
        sys::fanotify_mark(self.fd, flags, mask, dir_fd, path, call)
    }

    /// Add or remove a mark on the object a descriptor names: no path is read.
    ///
    /// The descriptor must not be `O_PATH`.
    pub fn mark_fd<F: Fn(i32, u32, u64, i32) -> Result<i32, i32>>(
        &self,
        fd: i32,
        flags: u32,
        mask: u64,
        call: &F,
    ) -> (r: Result<(), FanotifyError>)
        requires
            call.requires((self.descriptor(), flags, mask, fd)),
        ensures
            exists|reply: Result<i32, i32>|
                #[trigger] call.ensures((self.descriptor(), flags, mask, fd), reply) && r
                    == mark_outcome(reply),
    {
        assert(self.descriptor() == self.fd);
        sys::fanotify_mark_by_fd(self.fd, flags, mask, fd, call)
    }

    /// Add a mark on a mount point.
    pub fn mark_mount<F: Fn(i32, u32, u64, i32, &[u8]) -> Result<i32, i32>>(
        &self,
        mask: u64,
        path: &[u8],
        call: &F,
    ) -> (r: Result<(), FanotifyError>)
        requires
            forall|c_path: &[u8]|
                #[trigger] call.requires(
                    (
                        self.descriptor(),
                        FAN_MARK_ADD | FAN_MARK_MOUNT,
                        mask,
                        AT_FDCWD,
                        c_path,
                    ),
                ),
        ensures
            marks(
                self.descriptor(),
                FAN_MARK_ADD | FAN_MARK_MOUNT,
                mask,
                AT_FDCWD,
                path@,
                *call,
                r,
            ),
    {
        assert(self.descriptor() == self.fd);
        sys::fanotify_mark(self.fd, FAN_MARK_ADD | FAN_MARK_MOUNT, mask, AT_FDCWD, path, call)
    }

    /// Remove every mark this group holds.
    ///
    /// The kernel ignores the path of a flush and requires the mask to be zero, so
    /// there is nothing to pass and nothing to get wrong; the path that is passed
    /// is the one that always exists.
    pub fn flush_marks<F: Fn(i32, u32, u64, i32, &[u8]) -> Result<i32, i32>>(&self, call: &F) -> (r:
        Result<(), FanotifyError>)
        requires
            forall|c_path: &[u8]|
                #[trigger] call.requires(
                    (self.descriptor(), FAN_MARK_FLUSH, 0u64, AT_FDCWD, c_path),
                ),
        ensures
            exists|c_path: &[u8], reply: Result<i32, i32>|
                {
                    &&& c_path@ == seq![SLASH, 0u8]
                    &&& #[trigger] call.ensures(
                        (self.descriptor(), FAN_MARK_FLUSH, 0u64, AT_FDCWD, c_path),
                        reply,
                    )
                    &&& r == mark_outcome(reply)
                },
    {
        assert(self.descriptor() == self.fd);
        let mut root: Vec<u8> = Vec::new();
        root.push(SLASH);
        let r = sys::fanotify_mark(
            self.fd,
            FAN_MARK_FLUSH,
            0,
            AT_FDCWD,
            root.as_slice(),
            call,
        );
        proof {
            assert(root@ =~= seq![SLASH]);
            assert(root@.push(0) =~= seq![SLASH, 0u8]);
            assert(crate::handle::no_nul(root@));
        }
        r
    }

    /// The events of a FID group, from the read that filled `buf`.
    ///
    /// Pidfds are adopted here.  A buffer that is not events at all is refused,
    /// because a header read under the wrong layout is a wrong answer, not a short
    /// one.
    pub fn read_events<'buf>(
        &self,
        buf: &'buf mut Vec<u8>,
        reply: Result<usize, FanotifyError>,
    ) -> (r: Result<Vec<FidEvent<'buf>>, FanotifyError>)
        requires
            reply matches Ok(n) ==> n <= old(buf)@.len(),
        ensures
            match reply {
                Err(error) => {
                    &&& r == Err::<Vec<FidEvent<'buf>>, FanotifyError>(error)
                    &&& final(buf)@.len() == 0
                },
                Ok(n) => {
                    &&& final(buf)@ == old(buf)@.take(n as int)
                    &&& match walk_stop(final(buf)@, true) {
                        EventStop::UnknownVersion(vers) => r == Err::<
                            Vec<FidEvent<'buf>>,
                            FanotifyError,
                        >(FanotifyError::UnknownEventVersion(vers)),
                        _ => r matches Ok(events) && event_views(events@) == adopted(
                            parsed_events(final(buf)@),
                        ) && all_borrow(events@),
                    }
                },
            },
    {
        match self.read_events_reported(buf, reply) {
            Err(error) => Err(error),
            Ok((events, report)) => {
                if let EventStop::UnknownVersion(vers) = report.stop {
                    return Err(FanotifyError::UnknownEventVersion(vers));
                }
                Ok(events)
            },
        }
    }

    /// [`read_events`](Self::read_events), reporting how far the parse got.
    ///
    /// An unknown version is in the report here, and the events before it are
    /// returned.
    pub fn read_events_reported<'buf>(
        &self,
        buf: &'buf mut Vec<u8>,
        reply: Result<usize, FanotifyError>,
    ) -> (r: Result<(Vec<FidEvent<'buf>>, ParseReport), FanotifyError>)
        requires
            reply matches Ok(n) ==> n <= old(buf)@.len(),
        ensures
            match reply {
                Err(error) => {
                    &&& r == Err::<(Vec<FidEvent<'buf>>, ParseReport), FanotifyError>(error)
                    &&& final(buf)@.len() == 0
                },
                Ok(n) => {
                    &&& final(buf)@ == old(buf)@.take(n as int)
                    &&& r matches Ok((events, report)) && event_views(events@) == adopted(
                        parsed_events(final(buf)@),
                    ) && all_borrow(events@) && reports(report, final(buf)@)
                },
            },
    {
        if let Err(error) = sys::read_events(buf, reply) {
            return Err(error);
        }
        let (mut events, report) = parse_fid_events_reported(buf.as_slice());
        adopt_pidfds(&mut events);
        Ok((events, report))
    }

    /// Answer a permission event: `write` performs one `write(2)` on the group.
    pub fn send_response<W: Fn(&[u8]) -> Result<usize, i32>>(
        &self,
        response: &FanotifyResponse<'_>,
        write: &W,
    ) -> (r: Result<(), FanotifyError>)
        requires
            forall|body: &[u8]| #[trigger] write.requires((body,)),
        ensures
            !has_wire_form(response@) ==> r == Err::<(), FanotifyError>(
                FanotifyError::Write(crate::consts::EINVAL),
            ),
            has_wire_form(response@) ==> exists|body: &[u8], reply: Result<usize, i32>|
                {
                    &&& body@ == encoded(response@)
                    &&& #[trigger] write.ensures((body,), reply)
                    &&& r == write_outcome(reply, body@.len() as int)
                },
    {
        response::write_response(response, write)
    }

    /// Wait until the group has events to read, or until the timeout elapses:
    /// `poll` performs one `poll(2)` on the descriptor it is given.
    ///
    /// Without a timeout the wait has no limit.  An interrupted wait is reported.
    pub fn wait_readable<P: Fn(i32, i32) -> Result<i32, i32>>(
        &self,
        timeout_ms: Option<u128>,
        poll: &P,
    ) -> (r: Result<bool, FanotifyError>)
        requires
            forall|timeout: i32| #[trigger] poll.requires((self.descriptor(), timeout)),
        ensures
            exists|timeout: i32, reply: Result<i32, i32>|
                {
                    &&& #[trigger] poll.ensures((self.descriptor(), timeout), reply)
                    &&& timeout == (match timeout_ms {
                        None => -1i32,
                        Some(ms) => if ms > i32::MAX {
                            i32::MAX
                        } else {
                            ms as i32
                        },
                    })
                    &&& r == poll_outcome(reply)
                },
    {
        assert(self.descriptor() == self.fd);
        match poll(self.fd, poll_timeout(timeout_ms)) {
            Ok(ready) => Ok(ready > 0),
            Err(code) => Err(FanotifyError::Read(code)),
        }
    }

    /// The group's descriptor, to register with an event loop.
    pub fn as_fd(&self) -> (r: i32)
        ensures
            r == self.descriptor(),
    {
        self.fd
    }

    /// Give up the group and hand back its descriptor.
    pub fn into_inner(self) -> (r: i32)
        ensures
            r == self.descriptor(),
    {
        self.fd
    }
}

/// A reader of a FID group that keeps its buffer between reads.
///
/// A read has two steps: [`buffer_mut`](EventReader::buffer_mut) gives up the
/// previous batch and hands out the buffer to read into, and
/// [`read`](EventReader::read) takes the reply and parses the batch.  The events
/// borrow the buffer, so no record's bytes are copied and no batch outlives the
/// next read.
#[derive(Debug)]
pub struct EventReader {
    buf: Vec<u8>,
    bytes_read: usize,
    slots: usize,
}

/// What a reader of a FID group holds.
#[verifier::ext_equal]
pub struct EventReaderView {
    /// The whole buffer.
    pub buffer: Seq<u8>,
    /// How much of it the last read filled.
    pub bytes_read: int,
    /// How many events the largest batch had.
    pub slots: nat,
}

impl View for EventReader {
    type V = EventReaderView;

    closed spec fn view(&self) -> EventReaderView {
        EventReaderView {
            buffer: self.buf@,
            bytes_read: self.bytes_read as int,
            slots: self.slots as nat,
        }
    }
}

/// The size of a reader's buffer.
pub open spec fn buffer_size(capacity: usize) -> nat {
    if capacity == 0 {
        DEFAULT_BUF_BYTES as nat
    } else {
        capacity as nat
    }
}

/// A zeroed buffer.
fn zeroed(capacity: usize) -> (r: Vec<u8>)
    ensures
        r@ == Seq::new(buffer_size(capacity), |i: int| 0u8),
{
    let r: Vec<u8> = vec![0u8; read_size(capacity)];
    assert(r@ =~= Seq::new(buffer_size(capacity), |i: int| 0u8));
    r
}

impl EventReader {
    /// Whether the batch lies inside the buffer.
    pub open spec fn wf(&self) -> bool {
        0 <= self@.bytes_read <= self@.buffer.len()
    }

    /// A reader with a buffer of `capacity` bytes, which is the read size; zero is
    /// the default size rather than a read that can never succeed.
    pub fn new(capacity: usize) -> (r: Self)
        ensures
            r.wf(),
            r@.buffer == Seq::new(buffer_size(capacity), |i: int| 0u8),
            r@.bytes_read == 0,
            r@.slots == 0,
    {
        EventReader { buf: zeroed(capacity), bytes_read: 0, slots: 0 }
    }

    /// Give up the last batch and hand out the buffer for the next read.
    ///
    /// The batch is given up before the read, not after it succeeds: a read that
    /// fails produced nothing, so nothing of the read before may still be there.
    pub fn buffer_mut(&mut self) -> (r: &mut [u8])
        ensures
            r@ == old(self)@.buffer,
            final(self)@ == (EventReaderView {
                buffer: final(r)@,
                bytes_read: 0,
                slots: old(self)@.slots,
            }),
    {
        self.bytes_read = 0;
        self.buf.as_mut_slice()
    }

    /// The batch that a read into the buffer produced; an unknown version is an
    /// error.
    pub fn read(&mut self, reply: Result<usize, FanotifyError>) -> (r: Result<
        Vec<FidEvent<'_>>,
        FanotifyError,
    >)
        requires
            reply matches Ok(n) ==> n <= old(self)@.buffer.len(),
        ensures
            final(self)@.buffer == old(self)@.buffer,
            match reply {
                Err(error) => {
                    &&& r matches Err(e) && e == error
                    &&& final(self)@.bytes_read == 0
                    &&& final(self)@.slots == old(self)@.slots
                },
                Ok(n) => {
                    let batch = old(self)@.buffer.take(n as int);
                    &&& final(self)@.bytes_read == n
                    &&& final(self)@.slots == larger(old(self)@.slots, parsed_events(batch).len())
                    &&& match walk_stop(batch, true) {
                        EventStop::UnknownVersion(vers) => r matches Err(e) && e
                            == FanotifyError::UnknownEventVersion(vers),
                        _ => r matches Ok(events) && event_views(events@) == adopted(
                            parsed_events(batch),
                        ) && all_borrow(events@),
                    }
                },
            },
    {
        match self.read_reported(reply) {
            Err(error) => Err(error),
            Ok((events, report)) => {
                if let EventStop::UnknownVersion(vers) = report.stop {
                    return Err(FanotifyError::UnknownEventVersion(vers));
                }
                Ok(events)
            },
        }
    }

    /// [`read`](Self::read), reporting how far the parse got: an unknown version
    /// is in the report, and the events before it are returned.
    ///
    /// The list is made with room for the largest batch so far, so it grows only
    /// for a larger one; an empty read makes none.
    pub fn read_reported(&mut self, reply: Result<usize, FanotifyError>) -> (r: Result<
        (Vec<FidEvent<'_>>, ParseReport),
        FanotifyError,
    >)
        requires
            reply matches Ok(n) ==> n <= old(self)@.buffer.len(),
        ensures
            final(self)@.buffer == old(self)@.buffer,
            match reply {
                Err(error) => {
                    &&& r matches Err(e) && e == error
                    &&& final(self)@.bytes_read == 0
                    &&& final(self)@.slots == old(self)@.slots
                },
                Ok(n) => {
                    let batch = old(self)@.buffer.take(n as int);
                    &&& final(self)@.bytes_read == n
                    &&& final(self)@.slots == larger(old(self)@.slots, parsed_events(batch).len())
                    &&& r matches Ok((events, report)) && event_views(events@) == adopted(
                        parsed_events(batch),
                    ) && all_borrow(events@) && reports(report, batch)
                },
            },
    {
        self.bytes_read = 0;
        let n: usize = match reply {
            Ok(n) => n,
            Err(error) => return Err(error),
        };
        self.bytes_read = n;
        let batch: &[u8] = &self.buf[0..n];
        assert(batch@ =~= old(self)@.buffer.take(n as int));
        let mut events: Vec<FidEvent<'_>> = if n == 0 {
            Vec::new()
        } else {
            Vec::with_capacity(self.slots)
        };
        let report = parse_fid_events_into(&mut events, batch);
        assert(event_views(events@).len() == events@.len());
        adopt_pidfds(&mut events);
        assert(event_views(events@).len() == events@.len());
        if self.slots < events.len() {
            self.slots = events.len();
        }
        Ok((events, report))
    }

    /// The bytes the last read produced, as the kernel wrote them: for a caller
    /// that copies a batch once and parses it elsewhere.
    pub fn raw_bytes(&self) -> (r: &[u8])
        requires
            self.wf(),
        ensures
            r@ == self@.buffer.take(self@.bytes_read),
    {
        let r: &[u8] = &self.buf[0..self.bytes_read];
        assert(r@ =~= self@.buffer.take(self@.bytes_read));
        r
    }

    /// The read size.
    pub fn capacity(&self) -> (r: usize)
        ensures
            r == self@.buffer.len(),
    {
        self.buf.len()
    }

    /// How many events a read has room for from the start: as many as the largest
    /// batch had.
    pub fn event_capacity(&self) -> (r: usize)
        ensures
            r == self@.slots,
    {
        self.slots
    }
}

/// [`EventReader`] for a group that reports descriptors.
///
/// A batch is valid until the next read: an event that is given up gives up the
/// descriptor it adopted.  The slots for the events are made with the reader, as
/// many as its buffer can hold events, and every read fills the same ones.
#[derive(Debug)]
pub struct FdEventReader {
    buf: Vec<u8>,
    bytes_read: usize,
    slots: Vec<FdEvent>,
    filled: usize,
}

/// What a reader of an fd-based group holds.
#[verifier::ext_equal]
pub struct FdEventReaderView {
    /// The whole buffer.
    pub buffer: Seq<u8>,
    /// How much of it the last read filled.
    pub bytes_read: int,
    /// The events of the last read.
    pub events: Seq<FdEventView>,
    /// How many slots there are for events.
    pub slots: nat,
}

impl View for FdEventReader {
    type V = FdEventReaderView;

    closed spec fn view(&self) -> FdEventReaderView {
        FdEventReaderView {
            buffer: self.buf@,
            bytes_read: self.bytes_read as int,
            events: fd_event_views(self.slots@.take(self.filled as int)),
            slots: self.slots@.len(),
        }
    }
}

/// How many events a buffer of `len` bytes may hold, its last one cut short.
pub open spec fn event_slots(len: nat) -> nat {
    (len + METADATA_SIZE - 1) as nat / METADATA_SIZE as nat
}

/// [`event_slots`], computed.
fn slots_for(len: usize) -> (r: usize)
    ensures
        r == event_slots(len as nat),
{
    if len % METADATA_SIZE == 0 {
        len / METADATA_SIZE
    } else {
        len / METADATA_SIZE + 1
    }
}

/// This many events that say nothing.
fn blank_slots(count: usize) -> (r: Vec<FdEvent>)
    ensures
        r@.len() == count,
{
    let mut r: Vec<FdEvent> = Vec::with_capacity(count);
    while r.len() < count
        invariant
            r@.len() <= count,
        decreases count - r@.len(),
    {
        r.push(FdEvent::new(0, None, 0));
    }
    r
}

impl FdEventReader {
    /// Whether the batch lies inside the buffer and the slots.
    pub closed spec fn wf(&self) -> bool {
        self.bytes_read <= self.buf@.len() && self.filled <= self.slots@.len()
    }

    /// Give up the last batch, with the descriptors its events adopted.
    fn vacate(&mut self)
        requires
            old(self).wf(),
        ensures
            final(self).wf(),
            final(self)@ == (FdEventReaderView {
                bytes_read: 0,
                events: Seq::empty(),
                ..old(self)@
            }),
    {
        self.bytes_read = 0;
        while self.filled > 0
            invariant
                self.wf(),
                self.bytes_read == 0,
                self.buf@ == old(self).buf@,
                self.slots@.len() == old(self).slots@.len(),
            decreases self.filled,
        {
            self.filled = self.filled - 1;
            let slot = &mut self.slots[self.filled];
            slot.reset();
        }
        assert(self@.events =~= Seq::<FdEventView>::empty());
    }

    /// A reader with a buffer of `capacity` bytes, as [`EventReader::new`], and a
    /// slot for every event it can hold.
    pub fn new(capacity: usize) -> (r: Self)
        ensures
            r.wf(),
            r@.buffer == Seq::new(buffer_size(capacity), |i: int| 0u8),
            r@.bytes_read == 0,
            r@.events == Seq::<FdEventView>::empty(),
            r@.slots == event_slots(buffer_size(capacity)),
    {
        let buf: Vec<u8> = zeroed(capacity);
        let slots: Vec<FdEvent> = blank_slots(slots_for(buf.len()));
        let r = FdEventReader { buf, bytes_read: 0, slots, filled: 0 };
        assert(r@.events =~= Seq::<FdEventView>::empty());
        r
    }

    /// Give up the last batch and hand out the buffer for the next read, as
    /// [`EventReader::buffer_mut`].
    pub fn buffer_mut(&mut self) -> (r: &mut [u8])
        requires
            old(self).wf(),
        ensures
            r@ == old(self)@.buffer,
            final(self).wf(),
            final(self)@ == (FdEventReaderView {
                buffer: final(r)@,
                bytes_read: 0,
                events: Seq::empty(),
                slots: old(self)@.slots,
            }),
    {
        self.vacate();
        self.buf.as_mut_slice()
    }

    /// Hold the batch that a read into the buffer produced.
    pub fn read(&mut self, reply: Result<usize, FanotifyError>) -> (r: Result<
        &[FdEvent],
        FanotifyError,
    >)
        requires
            old(self).wf(),
            reply matches Ok(n) ==> n <= old(self)@.buffer.len(),
        ensures
            final(self).wf(),
            final(self)@.buffer == old(self)@.buffer,
            final(self)@.slots == larger(old(self)@.slots, final(self)@.events.len()),
            match reply {
                Err(error) => {
                    &&& r matches Err(e) && e == error
                    &&& final(self)@.bytes_read == 0
                    &&& final(self)@.events.len() == 0
                },
                Ok(n) => {
                    &&& final(self)@.bytes_read == n
                    &&& final(self)@.events == adopted_fd_events(
                        parsed_fd_events(old(self)@.buffer.take(n as int)),
                    )
                    &&& r matches Ok(events) && fd_event_views(events@) == final(self)@.events
                },
            },
    {
        match self.read_reported(reply) {
            Err(error) => Err(error),
            Ok((events, _)) => Ok(events),
        }
    }

    /// [`read`](Self::read), reporting how far the parse got.
    pub fn read_reported(&mut self, reply: Result<usize, FanotifyError>) -> (r: Result<
        (&[FdEvent], ParseReport),
        FanotifyError,
    >)
        requires
            old(self).wf(),
            reply matches Ok(n) ==> n <= old(self)@.buffer.len(),
        ensures
            final(self).wf(),
            final(self)@.buffer == old(self)@.buffer,
            final(self)@.slots == larger(old(self)@.slots, final(self)@.events.len()),
            match reply {
                Err(error) => {
                    &&& r matches Err(e) && e == error
                    &&& final(self)@.bytes_read == 0
                    &&& final(self)@.events.len() == 0
                },
                Ok(n) => {
                    let batch = old(self)@.buffer.take(n as int);
                    &&& final(self)@.bytes_read == n
                    &&& final(self)@.events == adopted_fd_events(parsed_fd_events(batch))
                    &&& r matches Ok((events, report)) && fd_event_views(events@)
                        == final(self)@.events && reports(report, batch)
                },
            },
    {
        self.vacate();
        let n: usize = match reply {
            Ok(n) => n,
            Err(error) => return Err(error),
        };
        self.bytes_read = n;
        let batch: &[u8] = &self.buf[0..n];
        assert(batch@ =~= old(self)@.buffer.take(n as int));
        let (filled, report) = fill_fd_events(&mut self.slots, batch);
        adopt_first(&mut self.slots, filled);
        self.filled = filled;
        let events: &[FdEvent] = &self.slots[0..filled];
        assert(events@ =~= self.slots@.take(filled as int));
        Ok((events, report))
    }

    /// The bytes the last read produced, as the kernel wrote them.
    pub fn raw_bytes(&self) -> (r: &[u8])
        requires
            self.wf(),
        ensures
            r@ == self@.buffer.take(self@.bytes_read),
    {
        let r: &[u8] = &self.buf[0..self.bytes_read];
        assert(r@ =~= self@.buffer.take(self@.bytes_read));
        r
    }

    /// The read size.
    pub fn capacity(&self) -> (r: usize)
        ensures
            r == self@.buffer.len(),
    {
        self.buf.len()
    }

    /// How many event slots the reader holds.
    pub fn event_capacity(&self) -> (r: usize)
        ensures
            r == self@.slots,
    {
        self.slots.len()
    }
}

/// A read never produces more events than a new reader has slots for, so no read
/// makes more of them.
pub proof fn a_read_fits_its_slots(buffer: Seq<u8>, n: int)
    requires
        0 <= n <= buffer.len(),
    ensures
        adopted_fd_events(parsed_fd_events(buffer.take(n))).len() <= event_slots(buffer.len()),
        larger(
            event_slots(buffer.len()),
            adopted_fd_events(parsed_fd_events(buffer.take(n))).len(),
        ) == event_slots(buffer.len()),
{
    fd_events_are_bounded(buffer.take(n));
}

/// A wait is over exactly if the poll reported something, and a poll that failed
/// is a failed read with that errno.
pub proof fn a_poll_comes_to_what_it_returned(reply: Result<i32, i32>)
    ensures
        match reply {
            Ok(ready) => poll_outcome(reply) == Ok::<bool, FanotifyError>(ready > 0),
            Err(code) => poll_outcome(reply) == Err::<bool, FanotifyError>(
                FanotifyError::Read(code),
            ),
        },
{
}

/// A reader's buffer is as large as was asked for, and 65536 bytes where nothing
/// was asked for.  It has a slot for every 24 bytes of it, begun ones included,
/// and not one more.
pub proof fn a_reader_has_room(capacity: usize, len: nat)
    ensures
        capacity > 0 ==> buffer_size(capacity) == capacity,
        capacity == 0 ==> buffer_size(capacity) == 65536,
        24 * event_slots(len) >= len,
        event_slots(len) > 0 ==> 24 * (event_slots(len) - 1) < len,
{
}

/// A wait polls the group's own descriptor once, for as long as it was asked to:
/// in milliseconds, at most the longest that can be said, and without a limit for
/// -1.  It is over if the poll reported something.
pub proof fn a_wait_polls_once<P: Fn(i32, i32) -> Result<i32, i32>>(
    fd: i32,
    group: Fanotify,
    ms: Option<u128>,
    poll: P,
    r: Result<bool, FanotifyError>,
)
    requires
        call_ensures(Fanotify::from_fd, (fd,), group),
        call_ensures(Fanotify::wait_readable::<P>, (&group, ms, &poll), r),
    ensures
        exists|timeout: i32, reply: Result<i32, i32>|
            {
                &&& #[trigger] poll.ensures((fd, timeout), reply)
                &&& ms is None ==> timeout == -1
                &&& ms matches Some(limit) ==> if limit <= 0x7fff_ffff {
                    timeout == limit
                } else {
                    timeout == 0x7fff_ffff
                }
                &&& match reply {
                    Ok(ready) => r == Ok::<bool, FanotifyError>(ready > 0),
                    Err(code) => r == Err::<bool, FanotifyError>(FanotifyError::Read(code)),
                }
            },
{
}

/// A group is made with the flags that were asked for, and is the descriptor that
/// the call returned.
pub proof fn a_group_is_made_with_its_flags<F: Fn(u32, u32) -> Result<i32, i32>>(
    builder: crate::builder::FanotifyBuilder,
    call: F,
    plain: Result<Fanotify, FanotifyError>,
    full: Result<Fanotify, FanotifyError>,
    built: Result<Fanotify, FanotifyError>,
    group: Fanotify,
    fd: i32,
)
    requires
        call_ensures(Fanotify::new::<F>, (builder.flags, &call), plain),
        call_ensures(Fanotify::init::<F>, (builder.flags, builder.event_f_flags, &call), full),
        call_ensures(crate::builder::FanotifyBuilder::init::<F>, (builder, &call), built),
        call_ensures(Fanotify::as_fd, (&group,), fd),
    ensures
        exists|reply: Result<i32, i32>|
            {
                &&& #[trigger] call.ensures((builder.flags, 0u32), reply)
                &&& match reply {
                    Ok(number) => plain is Ok && (plain == Ok::<Fanotify, FanotifyError>(group)
                        ==> fd == number),
                    Err(code) => plain == Err::<Fanotify, FanotifyError>(
                        FanotifyError::Init(code),
                    ),
                }
            },
        exists|reply: Result<i32, i32>|
            {
                &&& #[trigger] call.ensures((builder.flags, builder.event_f_flags), reply)
                &&& match reply {
                    Ok(number) => full is Ok && (full == Ok::<Fanotify, FanotifyError>(group)
                        ==> fd == number),
                    Err(code) => full == Err::<Fanotify, FanotifyError>(
                        FanotifyError::Init(code),
                    ),
                }
            },
        exists|reply: Result<i32, i32>|
            {
                &&& #[trigger] call.ensures((builder.flags, builder.event_f_flags), reply)
                &&& match reply {
                    Ok(number) => built is Ok && (built == Ok::<Fanotify, FanotifyError>(group)
                        ==> fd == number),
                    Err(code) => built == Err::<Fanotify, FanotifyError>(
                        FanotifyError::Init(code),
                    ),
                }
            },
{
}

/// A mark is asked for on the group's own descriptor, with the flags, the mask and
/// the path that were given: read from the working directory, -100, unless another
/// directory was named; with the mount flag for a mount; and on a descriptor
/// without a path.
pub proof fn a_mark_is_asked_for_as_it_was_given<
    F: Fn(i32, u32, u64, i32, &[u8]) -> Result<i32, i32>,
    G: Fn(i32, u32, u64, i32) -> Result<i32, i32>,
>(
    fd: i32,
    group: Fanotify,
    dir_fd: i32,
    flags: u32,
    mask: u64,
    path: &[u8],
    call: F,
    call_fd: G,
    here: Result<(), FanotifyError>,
    there: Result<(), FanotifyError>,
    mount: Result<(), FanotifyError>,
    object: Result<(), FanotifyError>,
)
    requires
        call_ensures(Fanotify::from_fd, (fd,), group),
        call_ensures(Fanotify::mark::<F>, (&group, flags, mask, path, &call), here),
        call_ensures(Fanotify::mark_at::<F>, (&group, dir_fd, flags, mask, path, &call), there),
        call_ensures(Fanotify::mark_mount::<F>, (&group, mask, path, &call), mount),
        call_ensures(Fanotify::mark_fd::<G>, (&group, dir_fd, flags, mask, &call_fd), object),
    ensures
        marks(fd, flags, mask, -100i32, path@, call, here),
        marks(fd, flags, mask, dir_fd, path@, call, there),
        marks(fd, 0x11u32, mask, -100i32, path@, call, mount),
        exists|reply: Result<i32, i32>|
            #[trigger] call_fd.ensures((fd, flags, mask, dir_fd), reply) && match reply {
                Ok(_) => object == Ok::<(), FanotifyError>(()),
                Err(code) => object == Err::<(), FanotifyError>(FanotifyError::Mark(code)),
            },
{
    assert(0x1u32 | 0x10u32 == 0x11u32) by (bit_vector);
}

/// A reader gives the events of the bytes that a read left in its buffer, and the
/// bytes themselves on request; a read that failed leaves it empty.
pub proof fn a_reader_gives_what_was_read(events: Seq<crate::written::Event>)
    requires
        crate::written::is_batch(events),
    ensures
        forall|
            reader: &mut EventReader,
            reply: Result<usize, FanotifyError>,
            r: Result<Vec<FidEvent<'_>>, FanotifyError>,
        |
            #[trigger] call_ensures(EventReader::read, (reader, reply), r) ==> match reply {
                Err(error) => r is Err && r->Err_0 == error && final(reader)@.bytes_read == 0,
                Ok(n) => (*reader)@.buffer.take(n as int) == crate::parse::joined(
                    crate::written::all_bytes(events),
                ) ==> r is Ok && r->Ok_0@.len() == events.len() && event_views(r->Ok_0@)
                    == adopted(parsed_events((*reader)@.buffer.take(n as int)))
                    && final(reader)@.bytes_read == n && final(reader)@.buffer == (
                *reader)@.buffer,
            },
        forall|
            reader: &mut FdEventReader,
            reply: Result<usize, FanotifyError>,
            r: Result<&[FdEvent], FanotifyError>,
        |
            #[trigger] call_ensures(FdEventReader::read, (reader, reply), r) ==> match reply {
                Err(error) => r is Err && r->Err_0 == error && final(reader)@.bytes_read == 0
                    && final(reader)@.events.len() == 0,
                Ok(n) => (*reader)@.buffer.take(n as int) == crate::parse::joined(
                    crate::written::all_bytes(events),
                ) ==> r is Ok && r->Ok_0@.len() == events.len() && fd_event_views(r->Ok_0@)
                    == adopted_fd_events(
                    parsed_fd_events((*reader)@.buffer.take(n as int)),
                ) && final(reader)@.bytes_read == n,
            },
        forall|reader: &EventReader, r: &[u8]|
            #[trigger] call_ensures(EventReader::raw_bytes, (reader,), r) ==> r@
                == reader@.buffer.take(reader@.bytes_read),
{
    crate::written::frames_of_a_batch(events);
    let batch = crate::parse::joined(crate::written::all_bytes(events));
    assert(parsed_events(batch).len() == events.len());
    assert(parsed_fd_events(batch).len() == events.len());
    assert forall|
        reader: &mut EventReader,
        reply: Result<usize, FanotifyError>,
        r: Result<Vec<FidEvent<'_>>, FanotifyError>,
    |
        #[trigger] call_ensures(EventReader::read, (reader, reply), r) implies match reply {
        Err(error) => r is Err && r->Err_0 == error && final(reader)@.bytes_read == 0,
        Ok(n) => (*reader)@.buffer.take(n as int) == batch ==> r is Ok && r->Ok_0@.len()
            == events.len() && event_views(r->Ok_0@) == adopted(
            parsed_events((*reader)@.buffer.take(n as int)),
        ) && final(reader)@.bytes_read == n && final(reader)@.buffer == (*reader)@.buffer,
    } by {
        if let Ok(list) = r {
            assert(event_views(list@).len() == list@.len());
        }
    }
    assert forall|
        reader: &mut FdEventReader,
        reply: Result<usize, FanotifyError>,
        r: Result<&[FdEvent], FanotifyError>,
    |
        #[trigger] call_ensures(FdEventReader::read, (reader, reply), r) implies match reply {
        Err(error) => r is Err && r->Err_0 == error && final(reader)@.bytes_read == 0
            && final(reader)@.events.len() == 0,
        Ok(n) => (*reader)@.buffer.take(n as int) == batch ==> r is Ok && r->Ok_0@.len()
            == events.len() && fd_event_views(r->Ok_0@) == adopted_fd_events(
            parsed_fd_events((*reader)@.buffer.take(n as int)),
        ) && final(reader)@.bytes_read == n,
    } by {
        if let Ok(list) = r {
            assert(fd_event_views(list@).len() == list@.len());
        }
    }
}

/// Flushing asks once, for the flush alone: on the group's own descriptor, with an
/// empty mask, from the working directory, for the root.
pub proof fn a_flush_asks_for_nothing_else<F: Fn(i32, u32, u64, i32, &[u8]) -> Result<i32, i32>>(
    fd: i32,
    group: Fanotify,
    call: F,
    r: Result<(), FanotifyError>,
)
    requires
        call_ensures(Fanotify::from_fd, (fd,), group),
        call_ensures(Fanotify::flush_marks::<F>, (&group, &call), r),
    ensures
        exists|path: &[u8], reply: Result<i32, i32>|
            {
                &&& path@ == seq![0x2fu8, 0u8]
                &&& #[trigger] call.ensures((fd, 0x80u32, 0u64, -100i32, path), reply)
                &&& match reply {
                    Ok(_) => r == Ok::<(), FanotifyError>(()),
                    Err(code) => r == Err::<(), FanotifyError>(FanotifyError::Mark(code)),
                }
            },
{
}

/// An answer goes to the group as it is encoded, and is given if the write took all
/// of it.
pub proof fn an_answer_goes_out_as_it_is_encoded<W: Fn(&[u8]) -> Result<usize, i32>>(
    group: Fanotify,
    answer: &FanotifyResponse<'_>,
    write: W,
    out: Result<Vec<u8>, FanotifyError>,
    r: Result<(), FanotifyError>,
)
    requires
        call_ensures(crate::response::encode_response, (answer,), out),
        call_ensures(Fanotify::send_response::<W>, (&group, answer, &write), r),
    ensures
        out matches Err(error) ==> r == Err::<(), FanotifyError>(error),
        out matches Ok(whole) ==> exists|body: &[u8], reply: Result<usize, i32>|
            {
                &&& body@ == whole@
                &&& #[trigger] write.ensures((body,), reply)
                &&& (r is Ok <==> reply is Ok && reply->Ok_0 >= whole@.len())
                &&& (reply matches Err(code) ==> r == Err::<(), FanotifyError>(
                    FanotifyError::Write(code),
                ))
            },
{
}

/// A new reader has the buffer that was asked for, zeroed, and nothing read.
pub proof fn a_new_reader_has_read_nothing(
    capacity: usize,
    reader: EventReader,
    fd_reader: FdEventReader,
)
    requires
        call_ensures(EventReader::new, (capacity,), reader),
        call_ensures(FdEventReader::new, (capacity,), fd_reader),
    ensures
        reader@.buffer.len() == (if capacity == 0 {
            65536
        } else {
            capacity as int
        }),
        fd_reader@.buffer.len() == reader@.buffer.len(),
        reader@.bytes_read == 0,
        fd_reader@.bytes_read == 0,
        fd_reader@.events.len() == 0,
        24 * fd_reader@.slots >= fd_reader@.buffer.len(),
{
}

/// A buffer that is handed out is the reader's whole buffer, and what was read
/// before is gone.
pub proof fn a_buffer_is_handed_out_whole()
    ensures
        forall|reader: &mut EventReader, r: &mut [u8]|
            #[trigger] call_ensures(EventReader::buffer_mut, (reader,), r) ==> (*r)@ == (
            *reader)@.buffer && final(reader)@.buffer == final(r)@ && final(reader)@.bytes_read
                == 0,
        forall|reader: &mut FdEventReader, r: &mut [u8]|
            #[trigger] call_ensures(FdEventReader::buffer_mut, (reader,), r) ==> (*r)@ == (
            *reader)@.buffer && final(reader)@.buffer == final(r)@ && final(reader)@.bytes_read
                == 0 && final(reader)@.events.len() == 0,
{
}

/// A report comes with the events that it accounts for, whichever reader it is from
/// and whatever the version of the bytes is; a read that failed has no report.
pub proof fn a_report_comes_with_its_events()
    ensures
        forall|
            reader: &mut EventReader,
            reply: Result<usize, FanotifyError>,
            r: Result<(Vec<FidEvent<'_>>, ParseReport), FanotifyError>,
        |
            #[trigger] call_ensures(EventReader::read_reported, (reader, reply), r) ==> match reply {
                Err(error) => r is Err && r->Err_0 == error && final(reader)@.bytes_read == 0,
                Ok(n) => r is Ok && event_views(r->Ok_0.0@) == adopted(
                    parsed_events((*reader)@.buffer.take(n as int)),
                ) && reports(r->Ok_0.1, (*reader)@.buffer.take(n as int)),
            },
        forall|
            reader: &mut FdEventReader,
            reply: Result<usize, FanotifyError>,
            r: Result<(&[FdEvent], ParseReport), FanotifyError>,
        |
            #[trigger] call_ensures(FdEventReader::read_reported, (reader, reply), r)
                ==> match reply {
                Err(error) => r is Err && r->Err_0 == error && final(reader)@.bytes_read == 0,
                Ok(n) => r is Ok && fd_event_views(r->Ok_0.0@) == adopted_fd_events(
                    parsed_fd_events((*reader)@.buffer.take(n as int)),
                ) && reports(r->Ok_0.1, (*reader)@.buffer.take(n as int)),
            },
        forall|
            group: &Fanotify,
            buf: &mut Vec<u8>,
            reply: Result<usize, FanotifyError>,
            r: Result<(Vec<FidEvent<'_>>, ParseReport), FanotifyError>,
        |
            #[trigger] call_ensures(Fanotify::read_events_reported, (group, buf, reply), r)
                ==> match reply {
                Err(error) => r is Err && r->Err_0 == error && final(buf)@.len() == 0,
                Ok(n) => r is Ok && final(buf)@ == (*buf)@.take(n as int) && event_views(
                    r->Ok_0.0@,
                ) == adopted(parsed_events((*buf)@.take(n as int))) && reports(
                    r->Ok_0.1,
                    (*buf)@.take(n as int),
                ),
            },
{
}

/// A group reads the events that a read left in its caller's buffer, and refuses a
/// buffer of another version.
pub proof fn a_group_gives_what_was_read()
    ensures
        forall|
            group: &Fanotify,
            buf: &mut Vec<u8>,
            reply: Result<usize, FanotifyError>,
            r: Result<Vec<FidEvent<'_>>, FanotifyError>,
        |
            #[trigger] call_ensures(Fanotify::read_events, (group, buf, reply), r) ==> match reply {
                Err(error) => r is Err && r->Err_0 == error && final(buf)@.len() == 0,
                Ok(n) => {
                    let batch = (*buf)@.take(n as int);
                    &&& final(buf)@ == batch
                    &&& batch.len() >= 24 && batch[4] != 3 ==> r is Err && r->Err_0
                        == FanotifyError::UnknownEventVersion(batch[4])
                    &&& batch.len() < 24 || batch[4] == 3 ==> r is Ok && event_views(r->Ok_0@)
                        == adopted(parsed_events(batch))
                },
            },
        forall|reader: &EventReader, r: usize|
            #[trigger] call_ensures(EventReader::capacity, (reader,), r) ==> r
                == reader@.buffer.len(),
        forall|reader: &FdEventReader, r: usize|
            #[trigger] call_ensures(FdEventReader::capacity, (reader,), r) ==> r
                == reader@.buffer.len(),
        forall|reader: &FdEventReader, r: &[u8]|
            #[trigger] call_ensures(FdEventReader::raw_bytes, (reader,), r) ==> r@
                == reader@.buffer.take(reader@.bytes_read),
{
    assert forall|batch: Seq<u8>| (batch.len() < 24 || batch[4] == 3) implies !(#[trigger] walk_stop(
        batch,
        true,
    ) is UnknownVersion) by {
        only_the_first_header_has_a_version(batch, true);
    }
}

/// A walk stops at a version only at the first header.
proof fn only_the_first_header_has_a_version(s: Seq<u8>, first: bool)
    requires
        !first || s.len() < 24 || s[4] == 3,
    ensures
        !(walk_stop(s, first) is UnknownVersion),
    decreases s.len(),
{
    if crate::parse::stop_at(s, first) is None {
        only_the_first_header_has_a_version(s.skip(crate::parse::event_len_of(s)), false);
    }
}

/// A reader of FID events refuses a buffer that begins with a header of another
/// version, with that version; a reader of descriptor events finds nothing in it.
pub proof fn another_version_is_refused()
    ensures
        forall|
            reader: &mut EventReader,
            n: usize,
            r: Result<Vec<FidEvent<'_>>, FanotifyError>,
        |
            #[trigger] call_ensures(EventReader::read, (reader, Ok::<usize, FanotifyError>(n)), r)
                && 24 <= n <= (*reader)@.buffer.len() && (*reader)@.buffer[4] != 3 ==> r is Err
                && r->Err_0 == FanotifyError::UnknownEventVersion((*reader)@.buffer[4]),
        forall|reader: &mut FdEventReader, n: usize, r: Result<&[FdEvent], FanotifyError>|
            #[trigger] call_ensures(FdEventReader::read, (reader, Ok::<usize, FanotifyError>(n)), r)
                && 24 <= n <= (*reader)@.buffer.len() && (*reader)@.buffer[4] != 3 ==> r is Ok
                && r->Ok_0@.len() == 0,
{
    assert forall|reader: &mut FdEventReader, n: usize, r: Result<&[FdEvent], FanotifyError>|
        #[trigger] call_ensures(FdEventReader::read, (reader, Ok::<usize, FanotifyError>(n)), r)
            && 24 <= n <= (*reader)@.buffer.len() && (*reader)@.buffer[4] != 3 implies r is Ok
        && r->Ok_0@.len() == 0 by {
        let batch = (*reader)@.buffer.take(n as int);
        assert(batch[4] == (*reader)@.buffer[4]);
        assert(crate::parse::frames(batch, true).len() == 0);
        assert(parsed_fd_events(batch).len() == 0);
        assert(adopted_fd_events(parsed_fd_events(batch)).len() == 0);
        assert(fd_event_views(r->Ok_0@).len() == r->Ok_0@.len());
    }
}

/// A group is its descriptor, and gives it back.
pub proof fn a_group_is_its_descriptor(fd: i32, group: Fanotify, shown: i32, given: i32)
    requires
        call_ensures(Fanotify::from_fd, (fd,), group),
        call_ensures(Fanotify::as_fd, (&group,), shown),
        call_ensures(Fanotify::into_inner, (group,), given),
    ensures
        shown == fd,
        given == fd,
{
}

} // verus!
