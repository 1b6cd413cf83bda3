//! What comes back out of the bytes that the kernel writes.
//!
//! Each law takes an event as it is [`written`](crate::written), for every value
//! that its fields can have, and says what the three parsers make of it: which
//! field of the result holds which value, and that nothing else changes.
use vstd::prelude::*;

use crate::bytes::name_text;
use crate::fd::{parsed_fd_events, FdEventView};
use crate::fid::{
    event_of, header_event, parsed_events, with_record, with_records, FidEventView, Pidfd,
    RenameSideView,
};
use crate::handle::Fsid;
use crate::owned::{parsed_records, record_of};
use crate::parse::{frames, joined};
use crate::records::{
    fsid_handle_name_of, fsid_handle_of, fsid_of, until_nul, until_nul_is_a_prefix,
};
use crate::types;
use crate::wire::{i32_bytes, u16_of, u32_of, u64_bytes};
use crate::written::{
    a_record_is_found, all_bytes, all_fit, an_event_is_one_frame, can_be_written, error_bytes,
    error_fields, event_bytes, frames_of_a_batch, fsid_bytes, fsid_fields, handle_bytes,
    handle_fields, header_fields, is_batch, number_fields, range_bytes, range_fields,
    record_bytes, records_bytes, records_bytes_of_one_more, Event, Header, Record,
};

verus! {

/// The event that comes back out of a header and a list of records.
pub open spec fn read_event(header: Header, list: Seq<Record>) -> FidEventView {
    parsed_events(event_bytes(header, records_bytes(list)))[0]
}

/// The owned record that comes back out of a header and a list of records.
pub open spec fn read_record(header: Header, list: Seq<Record>) -> types::FidEventView {
    parsed_records(event_bytes(header, records_bytes(list)))[0]
}

/// Whether a header and a list of records can be written and read.
pub open spec fn is_event(header: Header, list: Seq<Record>) -> bool {
    header.vers == 3 && all_fit(list) && can_be_written(header, records_bytes(list))
}

/// Whether `payload` is one that a record about an object can be read from: 8
/// bytes of fsid, and a handle of at most 128 bytes that is there in full.
pub open spec fn names_an_object(payload: Seq<u8>) -> bool {
    &&& payload.len() >= 16
    &&& u32_of(payload.subrange(8, 12)) <= 128
    &&& 16 + u32_of(payload.subrange(8, 12)) <= payload.len()
}

/// Whether no parser can understand a record: its type is none of the nine known
/// ones, or its payload is too short for the layout of its type.
pub open spec fn cannot_be_understood(record: Record) -> bool {
    let payload = record.payload;
    match record.info_type {
        1 | 2 | 3 | 10 | 12 => !names_an_object(payload),
        4 => payload.len() < 4,
        5 => payload.len() < 8,
        6 => payload.len() < 16,
        7 => payload.len() < 8,
        _ => true,
    }
}

/// Whether `name` is what a name field that holds `field` names: the bytes in
/// front of the first NUL.
pub open spec fn names(field: Seq<u8>, name: Seq<u8>) -> bool {
    &&& name.len() <= field.len()
    &&& name == field.take(name.len() as int)
    &&& !name.contains(0u8)
    &&& name.len() < field.len() ==> field[name.len() as int] == 0u8
}

/// What records add is added one record after the other.
proof fn records_are_taken_in_turn(event: FidEventView, list: Seq<Record>, tail: Seq<u8>)
    requires
        all_fit(list),
    ensures
        with_records(event, records_bytes(list) + tail) == with_records(
            with_records(event, records_bytes(list)),
            tail,
        ),
    decreases list.len(),
{
    if list.len() == 0 {
        assert(records_bytes(list) + tail =~= tail);
    } else {
        let first = list[0];
        let record = record_bytes(first.info_type, first.payload);
        let others = records_bytes(list.skip(1));
        a_record_is_found(first.info_type, first.payload, others);
        a_record_is_found(first.info_type, first.payload, others + tail);
        assert(records_bytes(list) + tail =~= record + (others + tail));
        assert(all_fit(list.skip(1)));
        records_are_taken_in_turn(with_record(event, record), list.skip(1), tail);
    }
}

/// The same for owned records.
proof fn owned_records_are_taken_in_turn(
    event: types::FidEventView,
    list: Seq<Record>,
    tail: Seq<u8>,
)
    requires
        all_fit(list),
    ensures
        crate::owned::with_records(event, records_bytes(list) + tail)
            == crate::owned::with_records(
            crate::owned::with_records(event, records_bytes(list)),
            tail,
        ),
    decreases list.len(),
{
    if list.len() == 0 {
        assert(records_bytes(list) + tail =~= tail);
    } else {
        let first = list[0];
        let record = record_bytes(first.info_type, first.payload);
        let others = records_bytes(list.skip(1));
        a_record_is_found(first.info_type, first.payload, others);
        a_record_is_found(first.info_type, first.payload, others + tail);
        assert(records_bytes(list) + tail =~= record + (others + tail));
        assert(all_fit(list.skip(1)));
        owned_records_are_taken_in_turn(
            crate::owned::with_record(event, record),
            list.skip(1),
            tail,
        );
    }
}

/// What parsing an event that was written comes to.
proof fn parsing_what_was_written(header: Header, records: Seq<u8>)
    requires
        header.vers == 3,
        can_be_written(header, records),
    ensures
        parsed_events(event_bytes(header, records)) == seq![
            event_of(event_bytes(header, records)),
        ],
        parsed_records(event_bytes(header, records)) == seq![
            record_of(event_bytes(header, records)),
        ],
        event_of(event_bytes(header, records)) == with_records(
            event_of(event_bytes(header, Seq::empty())),
            records,
        ),
        record_of(event_bytes(header, records)) == crate::owned::with_records(
            record_of(event_bytes(header, Seq::empty())),
            records,
        ),
        event_of(event_bytes(header, Seq::empty())) == header_event(
            event_bytes(header, Seq::empty()),
        ),
{
    let s = event_bytes(header, records);
    let bare = event_bytes(header, Seq::empty());
    an_event_is_one_frame(header, records, Seq::empty(), true);
    header_fields(header, records);
    header_fields(header, Seq::empty());
    assert(parsed_events(s) =~= seq![event_of(s)]);
    assert(parsed_records(s) =~= seq![record_of(s)]);
    assert(header_event(s) =~= header_event(bare));
    assert(crate::owned::header_record(s) =~= crate::owned::header_record(bare));
}

/// A list of one record adds what that record says.
proof fn one_record(event: FidEventView, owned: types::FidEventView, record: Record)
    requires
        4 + record.payload.len() <= 0xffff,
    ensures
        with_records(event, record_bytes(record.info_type, record.payload)) == with_record(
            event,
            record_bytes(record.info_type, record.payload),
        ),
        crate::owned::with_records(owned, record_bytes(record.info_type, record.payload))
            == crate::owned::with_record(owned, record_bytes(record.info_type, record.payload)),
{
    let s = record_bytes(record.info_type, record.payload);
    a_record_is_found(record.info_type, record.payload, Seq::empty());
    assert(s + Seq::<u8>::empty() =~= s);
    let with = with_record(event, s);
    let with_owned = crate::owned::with_record(owned, s);
    assert(with_records(with, Seq::empty()) == with);
    assert(crate::owned::with_records(with_owned, Seq::empty()) == with_owned);
}

/// One more record at the end of an event adds what that record says to what the
/// event said without it.
proof fn one_more_record(header: Header, list: Seq<Record>, record: Record)
    requires
        is_event(header, list.push(record)),
    ensures
        is_event(header, list),
        4 + record.payload.len() <= 0xffff,
        read_event(header, list.push(record)) == with_record(
            read_event(header, list),
            record_bytes(record.info_type, record.payload),
        ),
        read_record(header, list.push(record)) == crate::owned::with_record(
            read_record(header, list),
            record_bytes(record.info_type, record.payload),
        ),
{
    let longer = list.push(record);
    let last = record_bytes(record.info_type, record.payload);
    records_bytes_of_one_more(list, record);
    assert(longer[list.len() as int] == record);
    assert forall|i: int| 0 <= i < list.len() implies 4 + (#[trigger] list[i]).payload.len()
        <= 0xffff by {
        assert(longer[i] == list[i]);
    }
    parsing_what_was_written(header, records_bytes(list));
    parsing_what_was_written(header, records_bytes(longer));
    let bare = event_bytes(header, Seq::empty());
    records_are_taken_in_turn(event_of(bare), list, last);
    owned_records_are_taken_in_turn(record_of(bare), list, last);
    let event = with_records(event_of(bare), records_bytes(list));
    let owned = crate::owned::with_records(record_of(bare), records_bytes(list));
    one_record(event, owned, record);
    assert(read_event(header, list) == event);
    assert(read_record(header, list) == owned);
}

/// The name behind a handle is what stands in front of the first NUL.
proof fn a_name_is_found(field: Seq<u8>, name: Seq<u8>)
    requires
        names(field, name),
    ensures
        until_nul(field) == name,
{
    assert forall|k: int| 0 <= k < name.len() implies field[k] != 0 by {
        assert(name[k] == field[k]);
        assert(name.contains(name[k]));
    }
    until_nul_is_a_prefix(field, name.len() as int);
}

/// A payload that begins with an fsid and a handle is read as those.
proof fn an_object_is_found(fsid: Fsid, handle_type: i32, body: Seq<u8>, field: Seq<u8>)
    requires
        body.len() <= 128,
    ensures
        ({
            let payload = fsid_bytes(fsid) + handle_bytes(handle_type, body) + field;
            &&& payload.len() == 16 + body.len() + field.len()
            &&& fsid_handle_of(payload) == Some((fsid, handle_bytes(handle_type, body)))
            &&& fsid_handle_name_of(payload) == Some(
                (fsid, handle_bytes(handle_type, body), until_nul(field)),
            )
        }),
{
    let handle = handle_bytes(handle_type, body);
    let payload = fsid_bytes(fsid) + handle + field;
    assert(payload =~= fsid_bytes(fsid) + (handle + field));
    fsid_fields(fsid, handle + field);
    handle_fields(handle_type, body, field);
    assert(fsid_of(payload) == Some(fsid));
    assert(payload.skip((8 + handle.len()) as int) =~= (handle + field).skip(handle.len() as int));
}

/// What is too short to name an object is not read as one.
proof fn no_object_is_found(payload: Seq<u8>)
    requires
        !names_an_object(payload),
    ensures
        fsid_handle_of(payload) is None,
        fsid_handle_name_of(payload) is None,
{
    if payload.len() >= 12 {
        assert(payload.skip(8).subrange(0, 4) =~= payload.subrange(8, 12));
    }
}

/// An event without records says what its header says and nothing else: the mask,
/// the pid, and a negative descriptor other than -1 as the reason for having none.
pub proof fn a_header_reads_back(header: Header)
    requires
        is_event(header, Seq::empty()),
    ensures
        parsed_events(event_bytes(header, records_bytes(Seq::empty()))).len() == 1,
        read_event(header, Seq::empty()) == (FidEventView {
            mask: header.mask,
            pid: header.pid,
            fsid: None,
            dfid_name_handle: None,
            dfid_name_name: None,
            self_handle: None,
            pidfd: Pidfd::Absent,
            fd_error: if header.fd < -1 {
                Some(header.fd)
            } else {
                None
            },
            fs_error: None,
            access_range: None,
            mnt_id: None,
            rename_source: None,
            rename_target: None,
            unknown_info_records: Seq::empty(),
            path: None,
        }),
        parsed_records(event_bytes(header, records_bytes(Seq::empty()))).len() == 1,
        read_record(header, Seq::empty()) == (types::FidEventView {
            mask: header.mask,
            pid: header.pid,
            path: Seq::empty(),
            dfid_name_handle: None,
            dfid_name_filename: None,
            self_handle: None,
            pidfd: None,
            fs_error: None,
            rename_source: None,
            rename_target: None,
            unknown_info_records: Seq::empty(),
        }),
{
    assert(records_bytes(Seq::empty()) =~= Seq::<u8>::empty());
    parsing_what_was_written(header, Seq::empty());
    header_fields(header, Seq::empty());
}

/// A record about an object, `FID` or `DFID`, names the object's own handle.  Its
/// filesystem is the event's, unless an earlier record has named one.
pub proof fn an_object_record_reads_back(
    header: Header,
    list: Seq<Record>,
    info_type: u8,
    fsid: Fsid,
    handle_type: i32,
    body: Seq<u8>,
    rest: Seq<u8>,
)
    requires
        info_type == 1 || info_type == 3,
        body.len() <= 128,
        is_event(
            header,
            list.push(
                (Record {
                    info_type,
                    payload: fsid_bytes(fsid) + handle_bytes(handle_type, body) + rest,
                }),
            ),
        ),
    ensures
        ({
            let record = Record {
                info_type,
                payload: fsid_bytes(fsid) + handle_bytes(handle_type, body) + rest,
            };
            let before = read_event(header, list);
            let before_owned = read_record(header, list);
            &&& read_event(header, list.push(record)) == (FidEventView {
                fsid: if before.fsid is None {
                    Some(fsid)
                } else {
                    before.fsid
                },
                self_handle: Some(handle_bytes(handle_type, body)),
                ..before
            })
            &&& read_record(header, list.push(record)) == (types::FidEventView {
                self_handle: Some(handle_bytes(handle_type, body)),
                ..before_owned
            })
        }),
{
    let record = Record {
        info_type,
        payload: fsid_bytes(fsid) + handle_bytes(handle_type, body) + rest,
    };
    one_more_record(header, list, record);
    a_record_is_found(info_type, record.payload, Seq::empty());
    an_object_is_found(fsid, handle_type, body, rest);
}

/// A `DFID_NAME` record names a directory and an entry in it.  The first one
/// counts; a further one is kept as it came, header included.  In an owned record
/// it is kept by its payload.
pub proof fn an_entry_record_reads_back(
    header: Header,
    list: Seq<Record>,
    fsid: Fsid,
    handle_type: i32,
    body: Seq<u8>,
    field: Seq<u8>,
    name: Seq<u8>,
)
    requires
        body.len() <= 128,
        names(field, name),
        is_event(
            header,
            list.push(
                (Record {
                    info_type: 2,
                    payload: fsid_bytes(fsid) + handle_bytes(handle_type, body) + field,
                }),
            ),
        ),
    ensures
        ({
            let payload = fsid_bytes(fsid) + handle_bytes(handle_type, body) + field;
            let record = Record { info_type: 2, payload };
            let before = read_event(header, list);
            let before_owned = read_record(header, list);
            &&& before.dfid_name_name is None ==> read_event(header, list.push(record)) == (
            FidEventView {
                fsid: if before.fsid is None {
                    Some(fsid)
                } else {
                    before.fsid
                },
                dfid_name_handle: Some(handle_bytes(handle_type, body)),
                dfid_name_name: Some(name),
                ..before
            })
            &&& before.dfid_name_name is Some ==> read_event(header, list.push(record)) == (
            FidEventView {
                unknown_info_records: before.unknown_info_records.push(
                    (2u8, record_bytes(2, payload)),
                ),
                ..before
            })
            &&& before_owned.dfid_name_filename is None ==> read_record(header, list.push(record))
                == (types::FidEventView {
                dfid_name_handle: Some(handle_bytes(handle_type, body)),
                dfid_name_filename: Some(name_text(name)),
                ..before_owned
            })
            &&& before_owned.dfid_name_filename is Some ==> read_record(header, list.push(record))
                == (types::FidEventView {
                unknown_info_records: before_owned.unknown_info_records.push((2u8, payload)),
                ..before_owned
            })
        }),
{
    let payload = fsid_bytes(fsid) + handle_bytes(handle_type, body) + field;
    let record = Record { info_type: 2, payload };
    one_more_record(header, list, record);
    a_record_is_found(2, payload, Seq::empty());
    an_object_is_found(fsid, handle_type, body, field);
    a_name_is_found(field, name);
}

/// The two records of a rename each name their own side of it: `OLD_DFID_NAME`
/// the source and `NEW_DFID_NAME` the target.
pub proof fn a_rename_record_reads_back(
    header: Header,
    list: Seq<Record>,
    info_type: u8,
    fsid: Fsid,
    handle_type: i32,
    body: Seq<u8>,
    field: Seq<u8>,
    name: Seq<u8>,
)
    requires
        info_type == 10 || info_type == 12,
        body.len() <= 128,
        names(field, name),
        is_event(
            header,
            list.push(
                (Record {
                    info_type,
                    payload: fsid_bytes(fsid) + handle_bytes(handle_type, body) + field,
                }),
            ),
        ),
    ensures
        ({
            let payload = fsid_bytes(fsid) + handle_bytes(handle_type, body) + field;
            let record = Record { info_type, payload };
            let handle = handle_bytes(handle_type, body);
            let before = read_event(header, list);
            let before_owned = read_record(header, list);
            let named = FidEventView {
                fsid: if before.fsid is None {
                    Some(fsid)
                } else {
                    before.fsid
                },
                ..before
            };
            let side = RenameSideView { handle, name };
            let owned_side = types::RenameSideView { handle, name: name_text(name) };
            &&& info_type == 10 ==> read_event(header, list.push(record)) == (FidEventView {
                rename_source: Some(side),
                ..named
            })
            &&& info_type == 12 ==> read_event(header, list.push(record)) == (FidEventView {
                rename_target: Some(side),
                ..named
            })
            &&& info_type == 10 ==> read_record(header, list.push(record)) == (
            types::FidEventView { rename_source: Some(owned_side), ..before_owned })
            &&& info_type == 12 ==> read_record(header, list.push(record)) == (
            types::FidEventView { rename_target: Some(owned_side), ..before_owned })
        }),
{
    let payload = fsid_bytes(fsid) + handle_bytes(handle_type, body) + field;
    let record = Record { info_type, payload };
    one_more_record(header, list, record);
    a_record_is_found(info_type, payload, Seq::empty());
    an_object_is_found(fsid, handle_type, body, field);
    a_name_is_found(field, name);
}

/// A `PIDFD` record gives the number that stands in it, and the parser adopts
/// nothing: the number is only a number until the caller says where the bytes are
/// from.  The first record counts.  An owned record takes no number below zero.
pub proof fn a_pidfd_record_reads_back(
    header: Header,
    list: Seq<Record>,
    pidfd: i32,
    rest: Seq<u8>,
)
    requires
        is_event(
            header,
            list.push((Record { info_type: 4, payload: i32_bytes(pidfd) + rest })),
        ),
    ensures
        ({
            let payload = i32_bytes(pidfd) + rest;
            let record = Record { info_type: 4, payload };
            let before = read_event(header, list);
            let before_owned = read_record(header, list);
            &&& before.pidfd == Pidfd::Absent ==> read_event(header, list.push(record)) == (
            FidEventView { pidfd: Pidfd::Unavailable(pidfd), ..before })
            &&& before.pidfd != Pidfd::Absent ==> read_event(header, list.push(record)) == (
            FidEventView {
                unknown_info_records: before.unknown_info_records.push(
                    (4u8, record_bytes(4, payload)),
                ),
                ..before
            })
            &&& before_owned.pidfd is None && pidfd >= 0 ==> read_record(header, list.push(record))
                == (types::FidEventView { pidfd: Some(pidfd), ..before_owned })
            &&& before_owned.pidfd is Some || pidfd < 0 ==> read_record(header, list.push(record))
                == (types::FidEventView {
                unknown_info_records: before_owned.unknown_info_records.push((4u8, payload)),
                ..before_owned
            })
        }),
{
    let payload = i32_bytes(pidfd) + rest;
    let record = Record { info_type: 4, payload };
    one_more_record(header, list, record);
    a_record_is_found(4, payload, Seq::empty());
    number_fields(pidfd, 0, rest);
}

/// An `ERROR` record gives the errno and the count that stand in it.
pub proof fn an_error_record_reads_back(
    header: Header,
    list: Seq<Record>,
    errno: i32,
    count: u32,
    rest: Seq<u8>,
)
    requires
        is_event(
            header,
            list.push((Record { info_type: 5, payload: error_bytes(errno, count) + rest })),
        ),
    ensures
        ({
            let record = Record { info_type: 5, payload: error_bytes(errno, count) + rest };
            &&& read_event(header, list.push(record)) == (FidEventView {
                fs_error: Some((errno, count)),
                ..read_event(header, list)
            })
            &&& read_record(header, list.push(record)) == (types::FidEventView {
                fs_error: Some((errno, count)),
                ..read_record(header, list)
            })
        }),
{
    let payload = error_bytes(errno, count) + rest;
    let record = Record { info_type: 5, payload };
    one_more_record(header, list, record);
    a_record_is_found(5, payload, Seq::empty());
    error_fields(errno, count, rest);
}

/// A `RANGE` record gives both 64-bit numbers that stand in it.  An owned record
/// has no field for them and keeps the payload.
pub proof fn a_range_record_reads_back(
    header: Header,
    list: Seq<Record>,
    offset: u64,
    count: u64,
    rest: Seq<u8>,
)
    requires
        is_event(
            header,
            list.push((Record { info_type: 6, payload: range_bytes(offset, count) + rest })),
        ),
    ensures
        ({
            let payload = range_bytes(offset, count) + rest;
            let record = Record { info_type: 6, payload };
            let before_owned = read_record(header, list);
            &&& read_event(header, list.push(record)) == (FidEventView {
                access_range: Some((offset, count)),
                ..read_event(header, list)
            })
            &&& read_record(header, list.push(record)) == (types::FidEventView {
                unknown_info_records: before_owned.unknown_info_records.push((6u8, payload)),
                ..before_owned
            })
        }),
{
    let payload = range_bytes(offset, count) + rest;
    let record = Record { info_type: 6, payload };
    one_more_record(header, list, record);
    a_record_is_found(6, payload, Seq::empty());
    range_fields(offset, count, rest);
}

/// An `MNT` record gives the 64-bit mount id that stands in it.  An owned record
/// has no field for it and keeps the payload.
pub proof fn a_mount_record_reads_back(
    header: Header,
    list: Seq<Record>,
    mnt_id: u64,
    rest: Seq<u8>,
)
    requires
        is_event(
            header,
            list.push((Record { info_type: 7, payload: u64_bytes(mnt_id) + rest })),
        ),
    ensures
        ({
            let payload = u64_bytes(mnt_id) + rest;
            let record = Record { info_type: 7, payload };
            let before_owned = read_record(header, list);
            &&& read_event(header, list.push(record)) == (FidEventView {
                mnt_id: Some(mnt_id),
                ..read_event(header, list)
            })
            &&& read_record(header, list.push(record)) == (types::FidEventView {
                unknown_info_records: before_owned.unknown_info_records.push((7u8, payload)),
                ..before_owned
            })
        }),
{
    let payload = u64_bytes(mnt_id) + rest;
    let record = Record { info_type: 7, payload };
    one_more_record(header, list, record);
    a_record_is_found(7, payload, Seq::empty());
    number_fields(0, mnt_id, rest);
}

/// A record that cannot be understood is kept, and changes nothing else: with its
/// header in an event, without it in an owned record.
pub proof fn any_other_record_is_kept(header: Header, list: Seq<Record>, record: Record)
    requires
        is_event(header, list.push(record)),
        cannot_be_understood(record),
    ensures
        ({
            let before = read_event(header, list);
            let before_owned = read_record(header, list);
            &&& read_event(header, list.push(record)) == (FidEventView {
                unknown_info_records: before.unknown_info_records.push(
                    (record.info_type, record_bytes(record.info_type, record.payload)),
                ),
                ..before
            })
            &&& read_record(header, list.push(record)) == (types::FidEventView {
                unknown_info_records: before_owned.unknown_info_records.push(
                    (record.info_type, record.payload),
                ),
                ..before_owned
            })
        }),
{
    one_more_record(header, list, record);
    a_record_is_found(record.info_type, record.payload, Seq::empty());
    if !names_an_object(record.payload) {
        no_object_is_found(record.payload);
    }
}

/// What stands behind the last whole record is kept from its first byte on when
/// it begins with a record header whose length does not fit, and is no record at
/// all when it is shorter than such a header.
pub proof fn a_broken_record_is_kept(header: Header, list: Seq<Record>, tail: Seq<u8>)
    requires
        header.vers == 3,
        all_fit(list),
        can_be_written(header, records_bytes(list) + tail),
        tail.len() < 4 || u16_of(tail.subrange(2, 4)) < 4 || u16_of(tail.subrange(2, 4))
            > tail.len(),
    ensures
        ({
            let before = read_event(header, list);
            let before_owned = read_record(header, list);
            let s = event_bytes(header, records_bytes(list) + tail);
            &&& tail.len() < 4 ==> parsed_events(s) == seq![before]
            &&& tail.len() < 4 ==> parsed_records(s) == seq![before_owned]
            &&& tail.len() >= 4 ==> parsed_events(s) == seq![
                FidEventView {
                    unknown_info_records: before.unknown_info_records.push((tail[0], tail)),
                    ..before
                },
            ]
            &&& tail.len() >= 4 ==> parsed_records(s) == seq![
                types::FidEventView {
                    unknown_info_records: before_owned.unknown_info_records.push(
                        (tail[0], tail.skip(4)),
                    ),
                    ..before_owned
                },
            ]
        }),
{
    parsing_what_was_written(header, records_bytes(list));
    parsing_what_was_written(header, records_bytes(list) + tail);
    let bare = event_bytes(header, Seq::empty());
    records_are_taken_in_turn(event_of(bare), list, tail);
    owned_records_are_taken_in_turn(record_of(bare), list, tail);
}

/// An event reads the same in a batch as alone, and a batch has as many events as
/// were written, in the order in which they were written.
pub proof fn an_event_reads_the_same_in_a_batch(events: Seq<Event>, i: int)
    requires
        is_batch(events),
        0 <= i < events.len(),
    ensures
        ({
            let batch = joined(all_bytes(events));
            let alone = event_bytes(
                Header { vers: 3, ..events[i].header },
                events[i].records,
            );
            &&& parsed_events(batch).len() == events.len()
            &&& parsed_events(batch)[i] == parsed_events(alone)[0]
            &&& parsed_records(batch).len() == events.len()
            &&& parsed_records(batch)[i] == parsed_records(alone)[0]
            &&& parsed_fd_events(batch).len() == events.len()
            &&& parsed_fd_events(batch)[i] == parsed_fd_events(alone)[0]
        }),
{
    let batch = joined(all_bytes(events));
    let header = events[i].header;
    let records = events[i].records;
    let same = Header { vers: 3, ..header };
    frames_of_a_batch(events);
    assert(frames(batch, true)[i] == event_bytes(header, records));
    an_event_is_one_frame(same, records, Seq::empty(), true);
    header_fields(header, records);
    header_fields(same, records);
    assert(parsed_events(batch)[i] == event_of(event_bytes(header, records)));
    assert(parsed_records(batch)[i] == record_of(event_bytes(header, records)));
    assert(header_event(event_bytes(header, records)) =~= header_event(
        event_bytes(same, records),
    ));
}

/// An fd event is its header: the whole mask, the whole signed pid and the whole
/// signed descriptor field, and no descriptor.
pub proof fn an_fd_event_reads_back(events: Seq<Event>, i: int)
    requires
        is_batch(events),
        0 <= i < events.len(),
    ensures
        parsed_fd_events(joined(all_bytes(events))).len() == events.len(),
        parsed_fd_events(joined(all_bytes(events)))[i] == (FdEventView {
            mask: events[i].header.mask,
            pid: events[i].header.pid,
            fd: None,
            fd_field: events[i].header.fd,
        }),
{
    frames_of_a_batch(events);
    header_fields(events[i].header, events[i].records);
}

/// All three parsers read the same mask and the same pid from the same event, of
/// any buffer: the 64-bit number in bytes 8 to 16 of its header, and the signed
/// 32-bit number in bytes 20 to 24.
pub proof fn every_format_reads_the_same_header(buf: Seq<u8>, i: int)
    requires
        0 <= i < frames(buf, true).len(),
    ensures
        parsed_fd_events(buf).len() == frames(buf, true).len(),
        parsed_events(buf).len() == frames(buf, true).len(),
        parsed_records(buf).len() == frames(buf, true).len(),
        parsed_fd_events(buf)[i].mask == crate::wire::u64_of(frames(buf, true)[i].subrange(8, 16)),
        parsed_fd_events(buf)[i].pid == u32_of(frames(buf, true)[i].subrange(20, 24)) as i32,
        parsed_fd_events(buf)[i].fd_field == u32_of(frames(buf, true)[i].subrange(16, 20)) as i32,
        parsed_events(buf)[i].mask == parsed_fd_events(buf)[i].mask,
        parsed_events(buf)[i].pid == parsed_fd_events(buf)[i].pid,
        parsed_records(buf)[i].mask == parsed_fd_events(buf)[i].mask,
        parsed_records(buf)[i].pid == parsed_fd_events(buf)[i].pid,
{
    let frame = frames(buf, true)[i];
    let records = frame.skip(crate::parse::records_start_of(frame));
    records_keep_the_header(header_event(frame), records);
    owned_records_keep_the_header(crate::owned::header_record(frame), records);
}

/// No record changes what the header said.
proof fn records_keep_the_header(event: FidEventView, s: Seq<u8>)
    ensures
        with_records(event, s).mask == event.mask,
        with_records(event, s).pid == event.pid,
    decreases s.len(),
{
    if s.len() >= 4 && crate::fid::record_fits(s) {
        let len = crate::fid::record_len_of(s);
        records_keep_the_header(with_record(event, s.take(len)), s.skip(len));
    }
}

/// No record changes what the header said to an owned record.
proof fn owned_records_keep_the_header(event: types::FidEventView, s: Seq<u8>)
    ensures
        crate::owned::with_records(event, s).mask == event.mask,
        crate::owned::with_records(event, s).pid == event.pid,
    decreases s.len(),
{
    if s.len() >= 4 && crate::fid::record_fits(s) {
        let len = crate::fid::record_len_of(s);
        owned_records_keep_the_header(
            crate::owned::with_record(event, s.take(len)),
            s.skip(len),
        );
    }
}

} // verus!
