//! What an event looks like before it is read: the bytes that the kernel writes
//! for a header, its info records and their payloads.
//!
//! Nothing here runs.  It is the other side of [`parse`](crate::parse),
//! [`fid`](crate::fid), [`fd`](crate::fd) and [`owned`](crate::owned): each of
//! them states in terms of these bytes what comes back out of them.
use vstd::prelude::*;

use crate::handle::Fsid;
use crate::parse::{frames, joined, reports, rest, walk_stop, EventStop, ParseReport};
use crate::wire::{
    i32_bytes, i32_round_trip, u16_bytes, u16_of, u16_round_trip, u32_bytes, u32_of,
    u32_round_trip, u64_bytes, u64_of, u64_round_trip,
};

verus! {

/// The fixed part of an event.
pub struct Header {
    /// The version of the format.
    pub vers: u8,
    /// A byte that means nothing.
    pub reserved: u8,
    /// How long the header says it is.  One that is shorter than the fields below
    /// is taken for one that ends behind them.
    pub metadata_len: u16,
    /// What happened.
    pub mask: u64,
    /// The descriptor, or the reason there is none.
    pub fd: i32,
    /// The process that caused it.
    pub pid: i32,
    /// What a longer header than this crate knows holds behind the pid.
    pub extra: Seq<u8>,
}

/// The bytes of an event: `event_len`, `vers`, `reserved`, `metadata_len`,
/// `mask`, `fd`, `pid`, whatever else the header holds, and the records.
pub open spec fn event_bytes(header: Header, records: Seq<u8>) -> Seq<u8> {
    u32_bytes((24 + header.extra.len() + records.len()) as u32) + seq![
        header.vers,
        header.reserved,
    ] + u16_bytes(header.metadata_len) + u64_bytes(header.mask) + i32_bytes(header.fd)
        + i32_bytes(header.pid) + header.extra + records
}

/// Whether these are the bytes of an event: its lengths fit into the fields that
/// hold them, and the header is as long as it says, or at least as its fields.
pub open spec fn can_be_written(header: Header, records: Seq<u8>) -> bool {
    &&& 24 + header.extra.len() + records.len() <= 0xffff_ffff
    &&& header.metadata_len >= 24 ==> header.metadata_len == 24 + header.extra.len()
    &&& header.metadata_len < 24 ==> header.extra.len() == 0
}

/// The bytes of an info record: its type, a byte of padding, its length, and its
/// payload.
pub open spec fn record_bytes(info_type: u8, payload: Seq<u8>) -> Seq<u8> {
    seq![info_type, 0u8] + u16_bytes((4 + payload.len()) as u16) + payload
}

/// An info record, by its type and its payload.
pub struct Record {
    /// What kind of record it is.
    pub info_type: u8,
    /// What it says.
    pub payload: Seq<u8>,
}

/// The bytes of a list of info records.
pub open spec fn records_bytes(list: Seq<Record>) -> Seq<u8>
    decreases list.len(),
{
    if list.len() == 0 {
        Seq::empty()
    } else {
        record_bytes(list[0].info_type, list[0].payload) + records_bytes(list.skip(1))
    }
}

/// Whether every record of a list is short enough for its length field.
pub open spec fn all_fit(list: Seq<Record>) -> bool {
    forall|i: int| 0 <= i < list.len() ==> 4 + (#[trigger] list[i]).payload.len() <= 0xffff
}

/// The bytes of an fsid.
pub open spec fn fsid_bytes(fsid: Fsid) -> Seq<u8> {
    i32_bytes(fsid.0) + i32_bytes(fsid.1)
}

/// The bytes of a `struct file_handle`: the length of its body, its type, and its
/// body.
pub open spec fn handle_bytes(handle_type: i32, body: Seq<u8>) -> Seq<u8> {
    u32_bytes(body.len() as u32) + i32_bytes(handle_type) + body
}

/// The bytes of an error record's payload.
pub open spec fn error_bytes(errno: i32, count: u32) -> Seq<u8> {
    i32_bytes(errno) + u32_bytes(count)
}

/// The bytes of a range record's payload.
pub open spec fn range_bytes(offset: u64, count: u64) -> Seq<u8> {
    u64_bytes(offset) + u64_bytes(count)
}

/// Where the fields of an event's header are, and what is read back from there.
pub(crate) proof fn header_fields(header: Header, records: Seq<u8>)
    requires
        can_be_written(header, records),
    ensures
        ({
            let s = event_bytes(header, records);
            &&& s.len() == 24 + header.extra.len() + records.len()
            &&& u32_of(s.subrange(0, 4)) == 24 + header.extra.len() + records.len()
            &&& s[4] == header.vers
            &&& s[5] == header.reserved
            &&& u16_of(s.subrange(6, 8)) == header.metadata_len
            &&& u64_of(s.subrange(8, 16)) == header.mask
            &&& u32_of(s.subrange(16, 20)) as i32 == header.fd
            &&& u32_of(s.subrange(20, 24)) as i32 == header.pid
            &&& s.skip((24 + header.extra.len()) as int) == records
        }),
{
    let s = event_bytes(header, records);
    let len = (24 + header.extra.len() + records.len()) as u32;
    u32_round_trip(len);
    u16_round_trip(header.metadata_len);
    u64_round_trip(header.mask);
    i32_round_trip(header.fd);
    i32_round_trip(header.pid);
    assert(s.subrange(0, 4) =~= u32_bytes(len));
    assert(s.subrange(6, 8) =~= u16_bytes(header.metadata_len));
    assert(s.subrange(8, 16) =~= u64_bytes(header.mask));
    assert(s.subrange(16, 20) =~= i32_bytes(header.fd));
    assert(s.subrange(20, 24) =~= i32_bytes(header.pid));
    assert(s.skip((24 + header.extra.len()) as int) =~= records);
}

/// An event that is written whole is one frame, whatever follows it.  The first
/// one has to be of the version that this crate reads.
pub(crate) proof fn an_event_is_one_frame(
    header: Header,
    records: Seq<u8>,
    tail: Seq<u8>,
    first: bool,
)
    requires
        can_be_written(header, records),
        first ==> header.vers == 3,
    ensures
        frames(event_bytes(header, records) + tail, first) == seq![event_bytes(header, records)]
            + frames(tail, false),
        rest(event_bytes(header, records) + tail, first) == rest(tail, false),
        walk_stop(event_bytes(header, records) + tail, first) == walk_stop(tail, false),
        frames(event_bytes(header, records), first) == seq![event_bytes(header, records)],
{
    let s = event_bytes(header, records);
    let whole = s + tail;
    header_fields(header, records);
    assert(whole.subrange(0, 4) =~= s.subrange(0, 4));
    assert(whole.subrange(6, 8) =~= s.subrange(6, 8));
    assert(whole.take(s.len() as int) =~= s);
    assert(whole.skip(s.len() as int) =~= tail);
    assert(s.take(s.len() as int) =~= s);
    assert(s.skip(s.len() as int) =~= Seq::<u8>::empty());
    assert(frames(Seq::<u8>::empty(), false) =~= Seq::<Seq<u8>>::empty());
    assert(frames(s, first) =~= seq![s]);
}

/// Events that stand one behind the other, each by its header and its records.
pub struct Event {
    /// The header.
    pub header: Header,
    /// The bytes of the records.
    pub records: Seq<u8>,
}

/// The bytes of each event of a list.
pub open spec fn all_bytes(events: Seq<Event>) -> Seq<Seq<u8>> {
    events.map_values(|event: Event| event_bytes(event.header, event.records))
}

/// Whether a list of events can be written and read: each fits, and the first is
/// of version 3.
pub open spec fn is_batch(events: Seq<Event>) -> bool {
    &&& events.len() > 0 ==> events[0].header.vers == 3
    &&& forall|i: int|
        0 <= i < events.len() ==> can_be_written(
            (#[trigger] events[i]).header,
            events[i].records,
        )
}

proof fn a_batch_is_its_events_from(events: Seq<Event>, tail: Seq<u8>, first: bool)
    requires
        forall|i: int|
            0 <= i < events.len() ==> can_be_written(
                (#[trigger] events[i]).header,
                events[i].records,
            ),
        first && events.len() > 0 ==> events[0].header.vers == 3,
    ensures
        events.len() > 0 ==> frames(joined(all_bytes(events)) + tail, first) == all_bytes(events)
            + frames(tail, false),
        events.len() > 0 ==> rest(joined(all_bytes(events)) + tail, first) == rest(tail, false),
        events.len() > 0 ==> walk_stop(joined(all_bytes(events)) + tail, first) == walk_stop(
            tail,
            false,
        ),
        !first ==> frames(joined(all_bytes(events)) + tail, first) == all_bytes(events) + frames(
            tail,
            false,
        ),
        !first ==> rest(joined(all_bytes(events)) + tail, first) == rest(tail, false),
        !first ==> walk_stop(joined(all_bytes(events)) + tail, first) == walk_stop(tail, false),
    decreases events.len(),
{
    let list = all_bytes(events);
    if events.len() == 0 {
        assert(joined(list) + tail =~= tail);
        assert(list + frames(tail, false) =~= frames(tail, false));
    } else {
        let others = events.skip(1);
        assert(all_bytes(others) =~= list.skip(1));
        a_batch_is_its_events_from(others, tail, false);
        let later = joined(list.skip(1)) + tail;
        an_event_is_one_frame(events[0].header, events[0].records, later, first);
        assert(joined(list) + tail =~= list[0] + later);
        assert(list + frames(tail, false) =~= seq![list[0]] + (list.skip(1) + frames(
            tail,
            false,
        )));
    }
}

/// The frames of a batch are the events that were written.
pub(crate) proof fn frames_of_a_batch(events: Seq<Event>)
    requires
        is_batch(events),
    ensures
        frames(joined(all_bytes(events)), true) == all_bytes(events),
        rest(joined(all_bytes(events)), true).len() == 0,
        walk_stop(joined(all_bytes(events)), true) == EventStop::End,
{
    let s = joined(all_bytes(events));
    a_batch_is_its_events_from(events, Seq::empty(), true);
    assert(s + Seq::<u8>::empty() =~= s);
    assert(frames(Seq::<u8>::empty(), false) =~= Seq::<Seq<u8>>::empty());
    assert(all_bytes(events) + Seq::<Seq<u8>>::empty() =~= all_bytes(events));
    if events.len() == 0 {
        assert(frames(s, true) =~= all_bytes(events));
    }
}

/// A batch is read as exactly the events that were written, in order, with
/// nothing left over.
pub proof fn a_batch_is_read_whole(events: Seq<Event>, report: ParseReport)
    requires
        is_batch(events),
        reports(report, joined(all_bytes(events))),
    ensures
        frames(joined(all_bytes(events)), true) == all_bytes(events),
        report.bytes_consumed == joined(all_bytes(events)).len(),
        report.bytes_left == 0,
        report.stop == EventStop::End,
{
    frames_of_a_batch(events);
}

/// A walk that stops says where and why.  Behind the events of a batch, fewer
/// bytes than a header are a short header, an `event_len` that is too small or
/// reaches past the buffer is reported as it stands, and a header that is longer
/// than its event is refused; what was read before stays read.
pub proof fn a_walk_says_where_it_stopped(events: Seq<Event>, tail: Seq<u8>, report: ParseReport)
    requires
        is_batch(events),
        events.len() > 0,
        tail.len() > 0,
        reports(report, joined(all_bytes(events)) + tail),
    ensures
        frames(joined(all_bytes(events)) + tail, true).len() >= events.len(),
        forall|i: int|
            0 <= i < events.len() ==> #[trigger] frames(
                joined(all_bytes(events)) + tail,
                true,
            )[i] == event_bytes(events[i].header, events[i].records),
        ({
            let claimed = u32_of(tail.subrange(0, 4));
            let metadata_len = u16_of(tail.subrange(6, 8));
            let stops = |stop: EventStop|
                {
                    &&& frames(joined(all_bytes(events)) + tail, true) == all_bytes(events)
                    &&& report.bytes_consumed == joined(all_bytes(events)).len()
                    &&& report.bytes_left == tail.len()
                    &&& report.stop == stop
                };
            &&& tail.len() < 24 ==> stops(EventStop::ShortHeader)
            &&& tail.len() >= 24 && (claimed < 24 || claimed > tail.len()) ==> stops(
                EventStop::BadEventLen(claimed),
            )
            &&& tail.len() >= 24 && 24 <= claimed <= tail.len() && metadata_len > claimed ==> stops(
                EventStop::BadMetadataLen,
            )
        }),
{
    let s = joined(all_bytes(events));
    a_batch_is_its_events_from(events, tail, true);
    let later = frames(tail, false);
    assert forall|i: int| 0 <= i < events.len() implies #[trigger] frames(s + tail, true)[i]
        == event_bytes(events[i].header, events[i].records) by {
        assert((all_bytes(events) + later)[i] == all_bytes(events)[i]);
    }
    if rest(tail, false) == tail && later.len() == 0 {
        assert(all_bytes(events) + later =~= all_bytes(events));
    }
}

/// A buffer that does not begin with an event of version 3 holds no events: not
/// one byte of it is read.
pub proof fn another_version_is_not_read(header: Header, records: Seq<u8>, tail: Seq<u8>, report:
    ParseReport)
    requires
        can_be_written(header, records),
        header.vers != 3,
        reports(report, event_bytes(header, records) + tail),
    ensures
        frames(event_bytes(header, records) + tail, true).len() == 0,
        report.bytes_consumed == 0,
        report.bytes_left == event_bytes(header, records).len() + tail.len(),
        report.stop == EventStop::UnknownVersion(header.vers),
{
    header_fields(header, records);
    let s = event_bytes(header, records);
    assert((s + tail)[4] == s[4]);
}

/// A record at the front of other bytes is found by its own length.
pub(crate) proof fn a_record_is_found(info_type: u8, payload: Seq<u8>, tail: Seq<u8>)
    requires
        4 + payload.len() <= 0xffff,
    ensures
        ({
            let record = record_bytes(info_type, payload);
            let s = record + tail;
            &&& record.len() == 4 + payload.len()
            &&& record[0] == info_type
            &&& record.skip(4) == payload
            &&& s[0] == info_type
            &&& u16_of(s.subrange(2, 4)) == 4 + payload.len()
            &&& s.take((4 + payload.len()) as int) == record
            &&& s.skip((4 + payload.len()) as int) == tail
        }),
{
    let record = record_bytes(info_type, payload);
    let s = record + tail;
    u16_round_trip((4 + payload.len()) as u16);
    assert(s.subrange(2, 4) =~= u16_bytes((4 + payload.len()) as u16));
    assert(s.take((4 + payload.len()) as int) =~= record);
    assert(s.skip((4 + payload.len()) as int) =~= tail);
    assert(record.skip(4) =~= payload);
}

/// The bytes of a list end in those of its last record.
pub(crate) proof fn records_bytes_of_one_more(list: Seq<Record>, record: Record)
    ensures
        records_bytes(list.push(record)) == records_bytes(list) + record_bytes(
            record.info_type,
            record.payload,
        ),
    decreases list.len(),
{
    let longer = list.push(record);
    let last = record_bytes(record.info_type, record.payload);
    if list.len() == 0 {
        assert(longer.skip(1) =~= Seq::<Record>::empty());
        assert(records_bytes(Seq::<Record>::empty()) =~= Seq::<u8>::empty());
        assert(records_bytes(longer) =~= last);
        assert(records_bytes(list) + last =~= last);
    } else {
        assert(longer.skip(1) =~= list.skip(1).push(record));
        records_bytes_of_one_more(list.skip(1), record);
        let head = record_bytes(list[0].info_type, list[0].payload);
        assert(head + (records_bytes(list.skip(1)) + last) =~= (head + records_bytes(list.skip(1)))
            + last);
    }
}

/// Where the numbers of an fsid are, and what is read back from there.
pub(crate) proof fn fsid_fields(fsid: Fsid, tail: Seq<u8>)
    ensures
        ({
            let s = fsid_bytes(fsid) + tail;
            &&& fsid_bytes(fsid).len() == 8
            &&& u32_of(s.subrange(0, 4)) as i32 == fsid.0
            &&& u32_of(s.subrange(4, 8)) as i32 == fsid.1
            &&& s.skip(8) == tail
        }),
{
    let s = fsid_bytes(fsid) + tail;
    i32_round_trip(fsid.0);
    i32_round_trip(fsid.1);
    assert(s.subrange(0, 4) =~= i32_bytes(fsid.0));
    assert(s.subrange(4, 8) =~= i32_bytes(fsid.1));
    assert(s.skip(8) =~= tail);
}

/// Where the length of a handle is, and what is read back from there.
pub(crate) proof fn handle_fields(handle_type: i32, body: Seq<u8>, tail: Seq<u8>)
    requires
        body.len() <= 0xffff_ffff,
    ensures
        ({
            let handle = handle_bytes(handle_type, body);
            let s = handle + tail;
            &&& handle.len() == 8 + body.len()
            &&& u32_of(s.subrange(0, 4)) == body.len()
            &&& u32_of(handle.subrange(0, 4)) == body.len()
            &&& s.take((8 + body.len()) as int) == handle
            &&& s.skip((8 + body.len()) as int) == tail
        }),
{
    let handle = handle_bytes(handle_type, body);
    let s = handle + tail;
    u32_round_trip(body.len() as u32);
    i32_round_trip(handle_type);
    assert(s.subrange(0, 4) =~= u32_bytes(body.len() as u32));
    assert(handle.subrange(0, 4) =~= u32_bytes(body.len() as u32));
    assert(s.take((8 + body.len()) as int) =~= handle);
    assert(s.skip((8 + body.len()) as int) =~= tail);
}

/// Where the numbers of an error record are, and what is read back from there.
pub(crate) proof fn error_fields(errno: i32, count: u32, tail: Seq<u8>)
    ensures
        ({
            let s = error_bytes(errno, count) + tail;
            &&& error_bytes(errno, count).len() == 8
            &&& u32_of(s.subrange(0, 4)) as i32 == errno
            &&& u32_of(s.subrange(4, 8)) == count
        }),
{
    let s = error_bytes(errno, count) + tail;
    i32_round_trip(errno);
    u32_round_trip(count);
    assert(s.subrange(0, 4) =~= i32_bytes(errno));
    assert(s.subrange(4, 8) =~= u32_bytes(count));
}

/// Where the numbers of a range record are, and what is read back from there.
pub(crate) proof fn range_fields(offset: u64, count: u64, tail: Seq<u8>)
    ensures
        ({
            let s = range_bytes(offset, count) + tail;
            &&& range_bytes(offset, count).len() == 16
            &&& u64_of(s.subrange(0, 8)) == offset
            &&& u64_of(s.subrange(8, 16)) == count
        }),
{
    let s = range_bytes(offset, count) + tail;
    u64_round_trip(offset);
    u64_round_trip(count);
    assert(s.subrange(0, 8) =~= u64_bytes(offset));
    assert(s.subrange(8, 16) =~= u64_bytes(count));
}

/// One number in front of other bytes is read back from there.
pub(crate) proof fn number_fields(small: i32, large: u64, tail: Seq<u8>)
    ensures
        i32_bytes(small).len() == 4,
        u64_bytes(large).len() == 8,
        u32_of((i32_bytes(small) + tail).subrange(0, 4)) as i32 == small,
        u64_of((u64_bytes(large) + tail).subrange(0, 8)) == large,
{
    i32_round_trip(small);
    u64_round_trip(large);
    assert((i32_bytes(small) + tail).subrange(0, 4) =~= i32_bytes(small));
    assert((u64_bytes(large) + tail).subrange(0, 8) =~= u64_bytes(large));
}

} // verus!
