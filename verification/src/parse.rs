//! Where one event ends and the next begins.
//!
//! Both event formats are a run of frames, each led by the 24 bytes of
//! `struct fanotify_event_metadata`:
//!
//! ```text
//! u32 event_len      total size of this event
//! u8  vers           FANOTIFY_METADATA_VERSION
//! u8  reserved
//! u16 metadata_len   where info records start
//! u64 mask           which bits fired
//! i32 fd             a descriptor, FAN_NOFD or -errno
//! i32 pid            who caused it
//! ```
//!
//! `event_len`, not a fixed stride, is what leads from one event to the next.
//! The bytes are treated as untrusted: a length that does not fit stops the
//! walk, and the [`ParseReport`] says where and why, so that a short buffer and
//! an empty queue do not look alike.
use vstd::prelude::*;

use crate::consts::FANOTIFY_METADATA_VERSION;
use crate::wire::{u16_at, u16_of, u32_at, u32_of, u64_at, u64_of};

verus! {

/// `sizeof(struct fanotify_event_metadata)`.
pub const METADATA_SIZE: usize = 24;

/// Why a walk over a buffer stopped.
#[non_exhaustive]
#[derive(Debug, Clone, Copy, PartialEq, Eq, Structural)]
pub enum EventStop {
    /// The buffer ended where an event would begin: everything was read.
    End,
    /// Fewer bytes than a header were left.
    ShortHeader,
    /// `event_len` was smaller than a header or reached past the buffer.
    BadEventLen(u32),
    /// `metadata_len` reached past the event it belongs to.
    BadMetadataLen,
    /// The first header's `vers` was not the one this crate reads.
    UnknownVersion(u8),
}

/// How far a walk over a buffer got.
#[derive(Debug, Clone, Copy, PartialEq, Eq, Structural)]
pub struct ParseReport {
    /// Bytes that whole events accounted for.
    pub bytes_consumed: usize,
    /// Bytes after the last whole event.
    pub bytes_left: usize,
    /// Why the walk stopped.
    pub stop: EventStop,
}

impl ParseReport {
    /// Whether every byte of the buffer was read.
    pub fn is_complete(&self) -> (r: bool)
        ensures
            r == (self.stop is End),
    {
        matches!(self.stop, EventStop::End)
    }
}

/// `event_len` of the frame that `s` begins with.
pub open spec fn event_len_of(s: Seq<u8>) -> int {
    u32_of(s.subrange(0, 4)) as int
}

/// Where the info records of the frame that `s` begins with start: never inside
/// the header, whatever `metadata_len` claims.
pub open spec fn records_start_of(s: Seq<u8>) -> int {
    let claimed = u16_of(s.subrange(6, 8));
    if claimed < METADATA_SIZE {
        METADATA_SIZE as int
    } else {
        claimed as int
    }
}

/// Why no event can be taken from the front of `s`, or `None` if one can.
/// `first` says that no header has been read before this one: the version is a
/// property of the group, and only the first header is held to it.
pub open spec fn stop_at(s: Seq<u8>, first: bool) -> Option<EventStop> {
    if s.len() == 0 {
        Some(EventStop::End)
    } else if s.len() < METADATA_SIZE {
        Some(EventStop::ShortHeader)
    } else if first && s[4] != FANOTIFY_METADATA_VERSION {
        Some(EventStop::UnknownVersion(s[4]))
    } else if event_len_of(s) < METADATA_SIZE || event_len_of(s) > s.len() {
        Some(EventStop::BadEventLen(u32_of(s.subrange(0, 4))))
    } else if records_start_of(s) > event_len_of(s) {
        Some(EventStop::BadMetadataLen)
    } else {
        None
    }
}

/// The bytes of each whole event at the front of `s`, in order.
pub open spec fn frames(s: Seq<u8>, first: bool) -> Seq<Seq<u8>>
    decreases s.len(),
{
    if stop_at(s, first) is Some {
        Seq::empty()
    } else {
        seq![s.take(event_len_of(s))] + frames(s.skip(event_len_of(s)), false)
    }
}

/// What is left of `s` after its whole events.
pub open spec fn rest(s: Seq<u8>, first: bool) -> Seq<u8>
    decreases s.len(),
{
    if stop_at(s, first) is Some {
        s
    } else {
        rest(s.skip(event_len_of(s)), false)
    }
}

/// Why the walk over `s` stops.
pub open spec fn walk_stop(s: Seq<u8>, first: bool) -> EventStop
    decreases s.len(),
{
    match stop_at(s, first) {
        Some(stop) => stop,
        None => walk_stop(s.skip(event_len_of(s)), false),
    }
}

/// Whether `report` accounts for a walk over `s`.
pub open spec fn reports(report: ParseReport, s: Seq<u8>) -> bool {
    &&& report.bytes_left == rest(s, true).len()
    &&& report.bytes_consumed == s.len() - rest(s, true).len()
    &&& report.stop == walk_stop(s, true)
}

/// The byte strings of `parts`, one after the other.
pub open spec fn joined(parts: Seq<Seq<u8>>) -> Seq<u8>
    decreases parts.len(),
{
    if parts.len() == 0 {
        Seq::empty()
    } else {
        parts[0] + joined(parts.skip(1))
    }
}

/// No byte is lost, invented or counted twice: the whole events, followed by
/// what is left, are the buffer.
pub proof fn frames_cover_the_buffer(s: Seq<u8>, first: bool)
    ensures
        joined(frames(s, first)) + rest(s, first) == s,
    decreases s.len(),
{
    if stop_at(s, first) is None {
        let n = event_len_of(s);
        frames_cover_the_buffer(s.skip(n), false);
        let tail = frames(s.skip(n), false);
        assert(frames(s, first).skip(1) =~= tail);
        assert(joined(frames(s, first)) == s.take(n) + joined(tail));
        assert(s.take(n) + joined(tail) + rest(s, first) =~= s.take(n) + s.skip(n));
        assert(s.take(n) + s.skip(n) =~= s);
    } else {
        assert(joined(frames(s, first)) + rest(s, first) =~= s);
    }
}

/// Every event is at least one header, so a buffer holds no more events than
/// headers would fit in it.
pub proof fn frames_are_bounded(s: Seq<u8>, first: bool)
    ensures
        frames(s, first).len() * METADATA_SIZE + rest(s, first).len() <= s.len(),
        forall|i: int|
            0 <= i < frames(s, first).len() ==> METADATA_SIZE <= (#[trigger] frames(
                s,
                first,
            )[i]).len() <= s.len(),
    decreases s.len(),
{
    if stop_at(s, first) is None {
        let n = event_len_of(s);
        let tail = frames(s.skip(n), false);
        frames_are_bounded(s.skip(n), false);
        assert forall|i: int| 0 <= i < frames(s, first).len() implies METADATA_SIZE <= (
        #[trigger] frames(s, first)[i]).len() <= s.len() by {
            if i > 0 {
                assert(frames(s, first)[i] == tail[i - 1]);
            }
        }
    }
}

/// A walk is complete exactly when nothing is left of the buffer.
pub proof fn complete_means_nothing_left(s: Seq<u8>, first: bool)
    ensures
        walk_stop(s, first) is End <==> rest(s, first).len() == 0,
    decreases s.len(),
{
    if stop_at(s, first) is None {
        complete_means_nothing_left(s.skip(event_len_of(s)), false);
    }
}

/// Walking what whole events are followed by adds what it holds: a buffer cut
/// between two events gives the same events as the two halves.
pub proof fn frames_of_a_split_buffer(a: Seq<u8>, b: Seq<u8>, first: bool)
    requires
        walk_stop(a, first) is End,
        a.len() > 0,
    ensures
        frames(a + b, first) == frames(a, first) + frames(b, false),
        rest(a + b, first) == rest(b, false),
        walk_stop(a + b, first) == walk_stop(b, false),
    decreases a.len(),
{
    let n = event_len_of(a);
    assert((a + b).subrange(0, 4) =~= a.subrange(0, 4));
    assert((a + b).subrange(6, 8) =~= a.subrange(6, 8));
    assert(stop_at(a + b, first) is None);
    assert((a + b).take(n) =~= a.take(n));
    assert((a + b).skip(n) =~= a.skip(n) + b);
    if a.skip(n).len() == 0 {
        assert(a.skip(n) + b =~= b);
        assert(frames(a.skip(n), false) =~= Seq::<Seq<u8>>::empty());
        assert(frames(a, first) =~= seq![a.take(n)]);
    } else {
        frames_of_a_split_buffer(a.skip(n), b, false);
        assert(seq![a.take(n)] + (frames(a.skip(n), false) + frames(b, false)) =~= (seq![
            a.take(n),
        ] + frames(a.skip(n), false)) + frames(b, false));
    }
}

/// `struct fanotify_event_metadata`: the fixed header of every event.
#[derive(Debug, Clone, Copy)]
pub struct EventMetadata {
    /// Total size of the event.
    pub event_len: usize,
    /// Where its info records start.
    pub records_start: usize,
    /// Which bits fired.
    pub mask: u64,
    /// A descriptor number, `FAN_NOFD` or a negative errno.
    pub fd: i32,
    /// Who caused it.
    pub pid: i32,
}

/// `mask` of a frame.
pub open spec fn mask_of(frame: Seq<u8>) -> u64 {
    u64_of(frame.subrange(8, 16))
}

/// `fd` of a frame.
pub open spec fn fd_of(frame: Seq<u8>) -> i32 {
    u32_of(frame.subrange(16, 20)) as i32
}

/// `pid` of a frame.
pub open spec fn pid_of(frame: Seq<u8>) -> i32 {
    u32_of(frame.subrange(20, 24)) as i32
}

/// Read the header at `offset` and decide whether a whole event begins there.
pub fn next_event(buf: &[u8], offset: usize, first: bool) -> (r: Result<EventMetadata, EventStop>)
    requires
        offset <= buf@.len(),
    ensures
        match r {
            Ok(meta) => {
                let s = buf@.skip(offset as int);
                &&& stop_at(s, first) is None
                &&& meta.event_len == event_len_of(s)
                &&& meta.records_start == records_start_of(s)
                &&& meta.mask == mask_of(s.take(meta.event_len as int))
                &&& meta.fd == fd_of(s.take(meta.event_len as int))
                &&& meta.pid == pid_of(s.take(meta.event_len as int))
                &&& METADATA_SIZE <= meta.records_start <= meta.event_len
                &&& offset + meta.event_len <= buf@.len()
            },
            Err(stop) => stop_at(buf@.skip(offset as int), first) == Some(stop),
        },
{
    let left: usize = buf.len() - offset;
    let ghost s = buf@.skip(offset as int);
    if left < METADATA_SIZE {
        return Err(
            if left == 0 {
                EventStop::End
            } else {
                EventStop::ShortHeader
            },
        );
    }
    if first && buf[offset + 4] != FANOTIFY_METADATA_VERSION {
        return Err(EventStop::UnknownVersion(buf[offset + 4]));
    }
    let event_len: u32 = u32_at(buf, offset);
    assert(buf@.subrange(offset as int, offset + 4) =~= s.subrange(0, 4));
    if (event_len as usize) < METADATA_SIZE || event_len as usize > left {
        return Err(EventStop::BadEventLen(event_len));
    }
    let claimed: usize = u16_at(buf, offset + 6) as usize;
    assert(buf@.subrange(offset + 6, offset + 8) =~= s.subrange(6, 8));
    let records_start: usize = if claimed < METADATA_SIZE {
        METADATA_SIZE
    } else {
        claimed
    };
    if records_start > event_len as usize {
        return Err(EventStop::BadMetadataLen);
    }
    proof {
        let frame = s.take(event_len as int);
        assert(buf@.subrange(offset + 8, offset + 16) =~= frame.subrange(8, 16));
        assert(buf@.subrange(offset + 16, offset + 20) =~= frame.subrange(16, 20));
        assert(buf@.subrange(offset + 20, offset + 24) =~= frame.subrange(20, 24));
    }
    Ok(
        EventMetadata {
            event_len: event_len as usize,
            records_start,
            mask: u64_at(buf, offset + 8),
            fd: u32_at(buf, offset + 16) as i32,
            pid: u32_at(buf, offset + 20) as i32,
        },
    )
}

/// A report is complete exactly if every byte of the buffer was read.
pub proof fn a_complete_report_leaves_nothing(buf: Seq<u8>, report: ParseReport, r: bool)
    requires
        reports(report, buf),
        call_ensures(ParseReport::is_complete, (&report,), r),
    ensures
        r <==> report.bytes_left == 0,
        r <==> report.bytes_consumed == buf.len(),
        report.bytes_consumed + report.bytes_left == buf.len(),
{
    complete_means_nothing_left(buf, true);
}

/// Why nothing can be read from the front of a buffer, in the order in which it is
/// found out: it is empty, it is shorter than a header, its version is not 3, its
/// event is shorter than a header or longer than the buffer, or its header is
/// longer than its event.  Nothing is read then, and all of it is left.
pub proof fn the_first_header_decides(buf: Seq<u8>, report: ParseReport)
    requires
        reports(report, buf),
    ensures
        ({
            let claimed = u32_of(buf.subrange(0, 4));
            let metadata_len = u16_of(buf.subrange(6, 8));
            let stops = |stop: EventStop|
                {
                    &&& frames(buf, true).len() == 0
                    &&& report.bytes_consumed == 0
                    &&& report.bytes_left == buf.len()
                    &&& report.stop == stop
                };
            if buf.len() == 0 {
                stops(EventStop::End)
            } else if buf.len() < 24 {
                stops(EventStop::ShortHeader)
            } else if buf[4] != 3 {
                stops(EventStop::UnknownVersion(buf[4]))
            } else if claimed < 24 || claimed > buf.len() {
                stops(EventStop::BadEventLen(claimed))
            } else if metadata_len > claimed {
                stops(EventStop::BadMetadataLen)
            } else {
                frames(buf, true).len() > 0 && frames(buf, true)[0] == buf.take(claimed as int)
                    && report.bytes_consumed >= claimed
            }
        }),
{
    if stop_at(buf, true) is None {
        let n = event_len_of(buf);
        frames_cover_the_buffer(buf.skip(n), false);
        frames_are_bounded(buf.skip(n), false);
    }
}

} // verus!
