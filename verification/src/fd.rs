//! Descriptor identity: the event format that hands over an open descriptor.
//!
//! This is what fanotify reports when the group was created **without** any FID
//! flag: the kernel opens the object the event is about and puts the descriptor
//! in the event's header.  There are no info records, but `event_len` still says
//! how long an event is, and the walk follows it.
//!
//! # A number is not a descriptor
//!
//! A descriptor number may be adopted only where the bytes are the kernel's
//! answer to the `read(2)` that just happened.  [`parse_fd_events`] adopts
//! nothing and leaves each event with the raw number in [`FdEvent::fd_field`];
//! [`adopt_descriptors`] is what a reader calls on a batch it has just read.  The
//! reader then owns the descriptors and closes them; an event names its own.
//!
//! | `fd` | Meaning |
//! |---|---|
//! | `>= 0` | an open descriptor, the event's once adopted |
//! | [`FAN_NOFD`] | no descriptor |
//! | other negative | the errno that stopped the open (`FAN_REPORT_FD_ERROR`) |
use vstd::prelude::*;

use crate::consts::{event_names_of, mask_to_event_names, texts, FAN_NOFD, FAN_Q_OVERFLOW};
use crate::error::FanotifyError;
use crate::fid::holds;
use crate::parse::{
    fd_of, frames, frames_are_bounded, mask_of, next_event, pid_of, reports, rest, walk_stop,
    EventStop, ParseReport,
};

pub use crate::parse::METADATA_SIZE;

verus! {

/// One fd-based event: a mask, a pid, and optionally an adopted descriptor.
#[derive(Debug)]
pub struct FdEvent {
    mask: u64,
    pid: i32,
    fd: Option<i32>,
    fd_field: i32,
}

/// What an fd-based event holds.
#[verifier::ext_equal]
pub struct FdEventView {
    /// See [`FdEvent::mask`].
    pub mask: u64,
    /// See [`FdEvent::pid`].
    pub pid: i32,
    /// See [`FdEvent::fd`].
    pub fd: Option<i32>,
    /// See [`FdEvent::fd_field`].
    pub fd_field: i32,
}

impl View for FdEvent {
    type V = FdEventView;

    closed spec fn view(&self) -> FdEventView {
        FdEventView { mask: self.mask, pid: self.pid, fd: self.fd, fd_field: self.fd_field }
    }
}

/// The event that the bytes of one frame are: a number, and no descriptor.
pub open spec fn fd_event_of(frame: Seq<u8>) -> FdEventView {
    FdEventView { mask: mask_of(frame), pid: pid_of(frame), fd: None, fd_field: fd_of(frame) }
}

/// The events that frames are.
pub open spec fn fd_events_of(frames: Seq<Seq<u8>>) -> Seq<FdEventView> {
    frames.map_values(|frame: Seq<u8>| fd_event_of(frame))
}

/// The events that a buffer holds.
pub open spec fn parsed_fd_events(buf: Seq<u8>) -> Seq<FdEventView> {
    fd_events_of(frames(buf, true))
}

/// The views of a list of events.
pub open spec fn fd_event_views(events: Seq<FdEvent>) -> Seq<FdEventView> {
    events.map_values(|event: FdEvent| event@)
}

/// The descriptor numbers that the first `count` events of a batch adopt: each
/// non-negative number, once.
pub open spec fn fds_taken_before(events: Seq<FdEventView>, count: int) -> Seq<i32>
    decreases count,
{
    if count <= 0 {
        Seq::empty()
    } else {
        let taken = fds_taken_before(events, count - 1);
        if adopts(events[count - 1], taken) {
            taken.push(events[count - 1].fd_field)
        } else {
            taken
        }
    }
}

/// Whether an event adopts its number, given the numbers already adopted.
pub open spec fn adopts(event: FdEventView, taken: Seq<i32>) -> bool {
    event.fd is None && event.fd_field >= 0 && !taken.contains(event.fd_field)
}

/// An event with its number adopted, if it can be.
pub open spec fn with_adopted(event: FdEventView, taken: Seq<i32>) -> FdEventView {
    if adopts(event, taken) {
        FdEventView { fd: Some(event.fd_field), ..event }
    } else {
        event
    }
}

/// The events of a batch once their numbers have been adopted.
pub open spec fn adopted_fd_events(events: Seq<FdEventView>) -> Seq<FdEventView> {
    Seq::new(events.len(), |i: int| with_adopted(events[i], fds_taken_before(events, i)))
}

impl FdEvent {
    /// Build an event by hand: a mask, the number of a descriptor the caller
    /// owns, if any, and a pid.
    ///
    /// The reported `fd` field becomes the descriptor's number, so the event
    /// reports exactly what the kernel would have written for the same object.
    pub fn new(mask: u64, fd: Option<i32>, pid: i32) -> (r: Self)
        ensures
            r@ == (FdEventView {
                mask,
                pid,
                fd,
                fd_field: match fd {
                    Some(number) => number,
                    None => FAN_NOFD,
                },
            }),
    {
        let fd_field: i32 = match fd {
            Some(number) => number,
            None => FAN_NOFD,
        };
        FdEvent { mask, pid, fd, fd_field }
    }

    /// Overwrite the reported `fd` field, claiming nothing: no descriptor is
    /// adopted or given up.
    pub fn set_fd_field(&mut self, field: i32) -> (r: &mut Self)
        ensures
            r@ == (FdEventView { fd_field: field, ..old(self)@ }),
            *final(self) == *final(r),
    {
        self.fd_field = field;
        self
    }

    /// The event mask: which bits fired.
    pub fn mask(&self) -> (r: u64)
        ensures
            r == self@.mask,
    {
        self.mask
    }

    /// The pid of the process that caused the event, or zero.
    pub fn pid(&self) -> (r: i32)
        ensures
            r == self@.pid,
    {
        self.pid
    }

    /// The number of the descriptor that was adopted for the event.
    pub fn fd(&self) -> (r: Option<i32>)
        ensures
            r == self@.fd,
    {
        self.fd
    }

    /// Take the descriptor's number out of the event.  The descriptor stays its
    /// reader's, which closes it.
    pub fn into_fd(self) -> (r: Option<i32>)
        ensures
            r == self@.fd,
    {
        self.fd
    }

    /// The path of the object: `read_link` says what a descriptor's link in
    /// `/proc/self/fd` holds.
    ///
    /// It is the path at that moment, and an unlinked object keeps the marker that
    /// `/proc` appends.  `None` when the event carries no descriptor, or when
    /// `/proc` cannot answer.
    pub fn path<R: Fn(i32) -> Option<Vec<u8>>>(&self, read_link: &R) -> (r: Option<Vec<u8>>)
        requires
            self@.fd matches Some(fd) ==> read_link.requires((fd,)),
        ensures
            match self@.fd {
                Some(fd) => read_link.ensures((fd,), r),
                None => r is None,
            },
    {
        match self.fd {
            Some(fd) => read_link(fd),
            None => None,
        }
    }

    /// The raw value of the event's `fd` field, as the bytes reported it.
    pub fn fd_field(&self) -> (r: i32)
        ensures
            r == self@.fd_field,
    {
        self.fd_field
    }

    /// Why the event carries no descriptor.
    ///
    /// `None` when it carries one, and for a non-negative field with no
    /// descriptor held: a non-negative number is not a reason for anything.
    pub fn no_fd_reason(&self) -> (r: Option<i32>)
        ensures
            r == (if self@.fd is Some || self@.fd_field >= 0 {
                None
            } else {
                Some(self@.fd_field)
            }),
    {
        if self.fd.is_some() || self.fd_field >= 0 {
            return None;
        }
        Some(self.fd_field)
    }

    /// Whether this event says the queue overflowed and events were lost.
    pub fn is_overflow(&self) -> (r: bool)
        ensures
            r == (self@.mask & FAN_Q_OVERFLOW != 0),
    {
        self.mask & FAN_Q_OVERFLOW != 0
    }

    /// The names of the event bits set in the mask, for logging and debugging.
    pub fn event_names(&self) -> (r: Vec<&'static str>)
        ensures
            texts(r@) == event_names_of(self@.mask),
    {
        mask_to_event_names(self.mask)
    }

    /// Return the event to the state [`new`](Self::new) makes, giving up any
    /// descriptor the previous parse adopted.
    pub(crate) fn reset(&mut self)
        ensures
            final(self)@ == (FdEventView { mask: 0, pid: 0, fd: None, fd_field: FAN_NOFD }),
    {
        self.mask = 0;
        self.pid = 0;
        self.fd = None;
        self.fd_field = FAN_NOFD;
    }

    /// Turn the reported number into an owned descriptor, if it is one that no
    /// event of the same buffer has adopted.
    ///
    /// The kernel installs a fresh descriptor per event, so a repeat means the
    /// buffer is not what it claims; it is left unowned, because adopting it
    /// twice would close one descriptor from two owners.
    pub fn adopt_reported(&mut self, already_adopted: &mut Vec<i32>)
        ensures
            final(self)@ == with_adopted(old(self)@, old(already_adopted)@),
            final(already_adopted)@ == (if adopts(old(self)@, old(already_adopted)@) {
                old(already_adopted)@.push(old(self)@.fd_field)
            } else {
                old(already_adopted)@
            }),
    {
        let raw: i32 = self.fd_field;
        if self.fd.is_some() || raw < 0 || holds(already_adopted.as_slice(), raw) {
            return ;
        }
        already_adopted.push(raw);
        self.fd = Some(raw);
    }
}

/// The larger of two counts.
pub open spec fn larger(a: nat, b: nat) -> nat {
    if a < b {
        b
    } else {
        a
    }
}

/// Walk fd-format events into the first slots of a list, which grows only if it
/// has too few, and say how many were filled.
///
/// A slot that is filled gives up what it held; one that is not stays as it was.
pub(crate) fn fill_fd_events(events: &mut Vec<FdEvent>, buf: &[u8]) -> (r: (usize, ParseReport))
    ensures
        r.0 == parsed_fd_events(buf@).len(),
        final(events)@.len() == larger(old(events)@.len(), r.0 as nat),
        fd_event_views(final(events)@.take(r.0 as int)) == parsed_fd_events(buf@),
        reports(r.1, buf@),
{
    let ghost slots = events@.len();
    let mut parsed: usize = 0;
    let mut offset: usize = 0;
    let mut stop = EventStop::End;
    proof {
        assert(buf@.skip(0) =~= buf@);
        assert(fd_event_views(events@.take(0)) + parsed_fd_events(buf@) =~= parsed_fd_events(
            buf@,
        ));
    }
    loop
        invariant_except_break
            events@.len() == larger(slots, parsed as nat),
            parsed <= offset <= buf.len(),
            fd_event_views(events@.take(parsed as int)) + fd_events_of(
                frames(buf@.skip(offset as int), parsed == 0),
            ) == parsed_fd_events(buf@),
            rest(buf@.skip(offset as int), parsed == 0) == rest(buf@, true),
            walk_stop(buf@.skip(offset as int), parsed == 0) == walk_stop(buf@, true),
        ensures
            events@.len() == larger(slots, parsed as nat),
            offset <= buf.len(),
            fd_event_views(events@.take(parsed as int)) == parsed_fd_events(buf@),
            buf@.skip(offset as int) == rest(buf@, true),
            stop == walk_stop(buf@, true),
        decreases buf.len() - offset,
    {
        let ghost tail = buf@.skip(offset as int);
        let meta = match next_event(buf, offset, parsed == 0) {
            Ok(meta) => meta,
            Err(found) => {
                stop = found;
                proof {
                    assert(fd_events_of(frames(tail, parsed == 0)) =~= Seq::<FdEventView>::empty());
                    assert(fd_event_views(events@.take(parsed as int)) + Seq::<FdEventView>::empty()
                        =~= fd_event_views(events@.take(parsed as int)));
                }
                break;
            },
        };
        let ghost before = events@.take(parsed as int);
        if parsed < events.len() {
            let event = &mut events[parsed];
            event.reset();
        } else {
            events.push(FdEvent::new(0, None, 0));
        }
        let event = &mut events[parsed];
        event.mask = meta.mask;
        event.pid = meta.pid;
        event.fd_field = meta.fd;
        proof {
            let frame = tail.take(meta.event_len as int);
            let after = events@.take(parsed + 1);
            assert(after =~= before.push(events@[parsed as int]));
            assert(fd_event_views(after) =~= fd_event_views(before).push(fd_event_of(frame)));
            let next = frames(tail.skip(meta.event_len as int), false);
            assert(frames(tail, parsed == 0) == seq![frame] + next);
            assert(fd_events_of(frames(tail, parsed == 0)) =~= seq![fd_event_of(frame)]
                + fd_events_of(next));
            assert(fd_event_views(before) + (seq![fd_event_of(frame)] + fd_events_of(next))
                =~= fd_event_views(before).push(fd_event_of(frame)) + fd_events_of(next));
            assert(tail.skip(meta.event_len as int) =~= buf@.skip(offset + meta.event_len));
        }
        parsed = parsed + 1;
        offset = offset + meta.event_len;
    }
    assert(fd_event_views(events@.take(parsed as int)).len() == parsed);
    (parsed, ParseReport { bytes_consumed: offset, bytes_left: buf.len() - offset, stop })
}

/// Walk fd-format events into an existing list, reusing its storage and
/// **adopting no descriptors**.
///
/// What the list held before does not matter; its events are given up, with any
/// descriptors they had adopted.
pub fn parse_fd_events_into(events: &mut Vec<FdEvent>, buf: &[u8]) -> (report: ParseReport)
    ensures
        fd_event_views(final(events)@) == parsed_fd_events(buf@),
        reports(report, buf@),
{
    let (parsed, report) = fill_fd_events(events, buf);
    events.truncate(parsed);
    report
}

/// Walk fd-format events from a byte buffer, **adopting no descriptors**.
///
/// For the jobs that are not a live group: replaying a capture, comparing two
/// parses.  The report says where and why the walk stopped.
pub fn parse_fd_events(buf: &[u8]) -> (r: (Vec<FdEvent>, ParseReport))
    ensures
        fd_event_views(r.0@) == parsed_fd_events(buf@),
        reports(r.1, buf@),
{
    let mut events: Vec<FdEvent> = Vec::new();
    let report = parse_fd_events_into(&mut events, buf);
    (events, report)
}

/// Adopt the descriptors of the first `count` events of a list, which are a batch.
pub(crate) fn adopt_first(events: &mut Vec<FdEvent>, count: usize)
    requires
        count <= old(events)@.len(),
    ensures
        final(events)@.len() == old(events)@.len(),
        fd_event_views(final(events)@.take(count as int)) == adopted_fd_events(
            fd_event_views(old(events)@.take(count as int)),
        ),
{
    let ghost before = fd_event_views(events@.take(count as int));
    let mut taken: Vec<i32> = Vec::new();
    let mut i: usize = 0;
    while i < count
        invariant
            i <= count <= events@.len(),
            events@.len() == old(events)@.len(),
            before.len() == count,
            taken@ == fds_taken_before(before, i as int),
            forall|k: int|
                0 <= k < i ==> (#[trigger] events@[k])@ == with_adopted(
                    before[k],
                    fds_taken_before(before, k),
                ),
            forall|k: int| i <= k < count ==> (#[trigger] events@[k])@ == before[k],
        decreases count - i,
    {
        let event = &mut events[i];
        event.adopt_reported(&mut taken);
        i = i + 1;
    }
    assert(fd_event_views(events@.take(count as int)) =~= adopted_fd_events(before));
}

/// Adopt the descriptors of a batch that came straight from a `read(2)` on a
/// group.
pub fn adopt_descriptors(events: &mut Vec<FdEvent>)
    ensures
        fd_event_views(final(events)@) == adopted_fd_events(fd_event_views(old(events)@)),
{
    let count: usize = events.len();
    assert(events@.take(count as int) =~= events@);
    adopt_first(events, count);
    assert(events@.take(count as int) =~= events@);
}

/// What a `read(2)` on an fd-based group returned, parsed and adopted, with a
/// report of how far the parse got.
pub fn read_fd_events_reported(buf: &[u8]) -> (r: (Vec<FdEvent>, ParseReport))
    ensures
        fd_event_views(r.0@) == adopted_fd_events(parsed_fd_events(buf@)),
        reports(r.1, buf@),
{
    let (mut events, report) = parse_fd_events(buf);
    adopt_descriptors(&mut events);
    (events, report)
}

/// What a `read(2)` on an fd-based group returned, parsed and adopted; an unknown
/// version is an error.
pub fn read_fd_events(buf: &[u8]) -> (r: Result<Vec<FdEvent>, FanotifyError>)
    ensures
        match r {
            Ok(events) => {
                &&& fd_event_views(events@) == adopted_fd_events(parsed_fd_events(buf@))
                &&& walk_stop(buf@, true) !is UnknownVersion
            },
            Err(error) => walk_stop(buf@, true) matches EventStop::UnknownVersion(vers)
                && error == FanotifyError::UnknownEventVersion(vers),
        },
{
    let (events, report) = read_fd_events_reported(buf);
    if let EventStop::UnknownVersion(vers) = report.stop {
        return Err(FanotifyError::UnknownEventVersion(vers));
    }
    Ok(events)
}

/// A number adopted earlier in a batch stays taken.
proof fn taken_fds_stay_taken(events: Seq<FdEventView>, i: int, j: int)
    requires
        0 <= i < j <= events.len(),
        adopts(events[i], fds_taken_before(events, i)),
    ensures
        fds_taken_before(events, j).contains(events[i].fd_field),
    decreases j,
{
    let before = fds_taken_before(events, j - 1);
    if i == j - 1 {
        assert(before.push(events[i].fd_field)[before.len() as int] == events[i].fd_field);
    } else {
        taken_fds_stay_taken(events, i, j - 1);
        let k = choose|k: int| 0 <= k < before.len() && before[k] == events[i].fd_field;
        assert(fds_taken_before(events, j)[k] == events[i].fd_field);
    }
}

/// No two events of a parsed batch own the same descriptor, and none owns a
/// negative one.
pub proof fn no_descriptor_has_two_owners(buf: Seq<u8>, i: int, j: int)
    requires
        0 <= i < parsed_fd_events(buf).len(),
        0 <= j < parsed_fd_events(buf).len(),
        adopted_fd_events(parsed_fd_events(buf))[i].fd is Some,
        adopted_fd_events(parsed_fd_events(buf))[j].fd is Some,
        i != j,
    ensures
        adopted_fd_events(parsed_fd_events(buf))[i].fd->0 >= 0,
        adopted_fd_events(parsed_fd_events(buf))[i].fd != adopted_fd_events(
            parsed_fd_events(buf),
        )[j].fd,
{
    let events = parsed_fd_events(buf);
    if i < j {
        taken_fds_stay_taken(events, i, j);
    } else {
        taken_fds_stay_taken(events, j, i);
    }
}

/// An event of a batch carries a descriptor or explains why it does not, unless
/// its number is one that an earlier event of the batch already adopted.
pub proof fn a_descriptor_or_a_reason(buf: Seq<u8>, i: int)
    requires
        0 <= i < parsed_fd_events(buf).len(),
    ensures
        ({
            let event = adopted_fd_events(parsed_fd_events(buf))[i];
            event.fd is Some || event.fd_field < 0 || fds_taken_before(
                parsed_fd_events(buf),
                i,
            ).contains(event.fd_field)
        }),
{
}

/// A buffer holds no more events than headers fit in it.
pub proof fn fd_events_are_bounded(buf: Seq<u8>)
    ensures
        parsed_fd_events(buf).len() * METADATA_SIZE <= buf.len(),
{
    frames_are_bounded(buf, true);
}

/// Both formats are cut into events at the same places.
pub proof fn both_formats_hold_as_many_events(buf: Seq<u8>)
    ensures
        parsed_fd_events(buf).len() == crate::fid::parsed_events(buf).len(),
{
}

/// The numbers adopted before an event are the non-negative ones of the events
/// before it.
proof fn taken_fds_are_those_seen(events: Seq<FdEventView>, count: int, number: i32)
    requires
        0 <= count <= events.len(),
        forall|k: int| 0 <= k < events.len() ==> (#[trigger] events[k]).fd is None,
    ensures
        fds_taken_before(events, count).contains(number) <==> number >= 0 && exists|k: int|
            0 <= k < count && (#[trigger] events[k]).fd_field == number,
    decreases count,
{
    if count > 0 {
        let before = fds_taken_before(events, count - 1);
        let last = events[count - 1].fd_field;
        taken_fds_are_those_seen(events, count - 1, number);
        taken_fds_are_those_seen(events, count - 1, last);
        if adopts(events[count - 1], before) {
            let after = before.push(last);
            if before.contains(number) {
                let k = choose|k: int| 0 <= k < before.len() && before[k] == number;
                assert(after[k] == number);
            }
            assert(after[before.len() as int] == last);
            if after.contains(number) {
                let k = choose|k: int| 0 <= k < after.len() && after[k] == number;
                if k < before.len() {
                    assert(before[k] == number);
                }
            }
        }
    }
}

/// The first event of a batch that reports a number owns it as its descriptor, if
/// the number can be one, and no other event does.  Nothing else of an event
/// changes.
pub proof fn the_first_to_report_a_descriptor_owns_it(buf: Seq<u8>, i: int)
    requires
        0 <= i < parsed_fd_events(buf).len(),
    ensures
        adopted_fd_events(parsed_fd_events(buf)).len() == parsed_fd_events(buf).len(),
        ({
            let events = parsed_fd_events(buf);
            let first = forall|j: int|
                0 <= j < i ==> (#[trigger] events[j]).fd_field != events[i].fd_field;
            &&& events[i].fd_field >= 0 && first ==> adopted_fd_events(events)[i] == (FdEventView {
                fd: Some(events[i].fd_field),
                ..events[i]
            })
            &&& events[i].fd_field < 0 || !first ==> adopted_fd_events(events)[i] == events[i]
                && adopted_fd_events(events)[i].fd is None
        }),
{
    taken_fds_are_those_seen(parsed_fd_events(buf), i, parsed_fd_events(buf)[i].fd_field);
}

/// Why an event has no descriptor is said exactly where there is a reason: it has
/// none, and what the kernel wrote in its place is negative.
pub proof fn a_reason_is_what_the_kernel_wrote(event: FdEvent, r: Option<i32>)
    requires
        call_ensures(FdEvent::no_fd_reason, (&event,), r),
    ensures
        r is Some <==> event@.fd is None && event@.fd_field < 0,
        r is Some ==> r == Some(event@.fd_field),
{
}

/// An overflow is bit 14 of the mask, and no other.
pub proof fn an_overflow_is_one_bit(event: FdEvent, r: bool)
    requires
        call_ensures(FdEvent::is_overflow, (&event,), r),
    ensures
        r <==> event@.mask & 0x4000 == 0x4000,
{
    let mask = event@.mask;
    assert(mask & 0x4000 != 0 <==> mask & 0x4000 == 0x4000) by (bit_vector);
}

/// An event that is built says what it was built of: its number is that of its
/// descriptor, and -1 where it has none.  What is asked of an event is what it
/// holds.
pub proof fn an_event_says_what_it_was_built_of()
    ensures
        forall|mask: u64, fd: Option<i32>, pid: i32, r: FdEvent|
            #[trigger] call_ensures(FdEvent::new, (mask, fd, pid), r) ==> r@ == (FdEventView {
                mask,
                pid,
                fd,
                fd_field: if fd is Some {
                    fd->0
                } else {
                    -1i32
                },
            }),
        forall|event: &mut FdEvent, field: i32, r: &mut FdEvent|
            #[trigger] call_ensures(FdEvent::set_fd_field, (event, field), r) ==> (*r)@ == (
            FdEventView { fd_field: field, ..(*event)@ }) && *final(event) == *final(r),
        forall|event: &FdEvent, r: u64|
            #[trigger] call_ensures(FdEvent::mask, (event,), r) ==> r == event@.mask,
        forall|event: &FdEvent, r: i32|
            #[trigger] call_ensures(FdEvent::pid, (event,), r) ==> r == event@.pid,
        forall|event: &FdEvent, r: Option<i32>|
            #[trigger] call_ensures(FdEvent::fd, (event,), r) ==> r == event@.fd,
        forall|event: &FdEvent, r: i32|
            #[trigger] call_ensures(FdEvent::fd_field, (event,), r) ==> r == event@.fd_field,
        forall|event: FdEvent, r: Option<i32>|
            #[trigger] call_ensures(FdEvent::into_fd, (event,), r) ==> r == event@.fd,
{
}

/// The path of an event is what the link of its descriptor holds, and there is none
/// without a descriptor.
pub proof fn a_path_is_what_the_link_holds<L: Fn(i32) -> Option<Vec<u8>>>(
    event: &FdEvent,
    read_link: L,
    r: Option<Vec<u8>>,
)
    requires
        call_ensures(FdEvent::path::<L>, (event, &read_link), r),
    ensures
        event@.fd is None ==> r is None,
        event@.fd matches Some(fd) ==> read_link.ensures((fd,), r),
{
}

/// Parsing a buffer gives its events with the numbers that stand in them; reading
/// one adopts those numbers too, and refuses a buffer of another version.
pub proof fn reading_adopts_what_parsing_finds(
    buf: &[u8],
    parsed: (Vec<FdEvent>, ParseReport),
    reported: (Vec<FdEvent>, ParseReport),
    read: Result<Vec<FdEvent>, FanotifyError>,
)
    requires
        call_ensures(parse_fd_events, (buf,), parsed),
        call_ensures(read_fd_events_reported, (buf,), reported),
        call_ensures(read_fd_events, (buf,), read),
    ensures
        fd_event_views(parsed.0@) == parsed_fd_events(buf@),
        fd_event_views(reported.0@) == adopted_fd_events(parsed_fd_events(buf@)),
        reports(parsed.1, buf@),
        reports(reported.1, buf@),
        match parsed.1.stop {
            EventStop::UnknownVersion(vers) => read == Err::<Vec<FdEvent>, FanotifyError>(
                FanotifyError::UnknownEventVersion(vers),
            ),
            _ => read matches Ok(events) && fd_event_views(events@) == fd_event_views(
                reported.0@,
            ),
        },
{
}

/// However a buffer is parsed, its events are the same, whatever the list held
/// before.
pub proof fn every_fd_parser_finds_the_same_events(buf: &[u8])
    ensures
        forall|events: &mut Vec<FdEvent>, report: ParseReport|
            #[trigger] call_ensures(parse_fd_events_into, (events, buf), report) ==> fd_event_views(
                final(events)@,
            ) == parsed_fd_events(buf@) && reports(report, buf@),
        forall|events: &mut Vec<FdEvent>|
            #[trigger] call_ensures(adopt_descriptors, (events,), ()) ==> fd_event_views(
                final(events)@,
            ) == adopted_fd_events(fd_event_views((*events)@)),
{
}

/// One event adopts its number exactly if it has no descriptor, the number can be
/// one, and no event before it took it; it is then the last of those taken.
pub proof fn an_event_adopts_a_free_number()
    ensures
        forall|event: &mut FdEvent, taken: &mut Vec<i32>|
            #[trigger] call_ensures(FdEvent::adopt_reported, (event, taken), ()) ==> {
                let number = (*event)@.fd_field;
                let seen = exists|i: int| 0 <= i < (*taken)@.len() && (*taken)@[i] == number;
                if (*event)@.fd is None && number >= 0 && !seen {
                    &&& final(event)@ == (FdEventView { fd: Some(number), ..(*event)@ })
                    &&& final(taken)@ == (*taken)@ + seq![number]
                } else {
                    &&& final(event)@ == (*event)@
                    &&& final(taken)@ == (*taken)@
                }
            },
{
}

/// A list of events is taken by what each of them says, in their order.
pub proof fn a_list_is_taken_event_by_event(events: Seq<FdEvent>, i: int)
    requires
        0 <= i < events.len(),
    ensures
        fd_event_views(events).len() == events.len(),
        fd_event_views(events)[i] == events[i]@,
{
}

/// The larger of two counts is one of them, and neither is larger than it.
pub proof fn the_larger_is_one_of_the_two(a: nat, b: nat)
    ensures
        larger(a, b) == a || larger(a, b) == b,
        larger(a, b) >= a,
        larger(a, b) >= b,
{
}

} // verus!
