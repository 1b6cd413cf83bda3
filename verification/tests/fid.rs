//! Parsing FID events.
use std::borrow::Cow;

use fanotify_fid::consts::{
    FANOTIFY_METADATA_VERSION, FAN_CREATE, FAN_DELETE, FAN_EVENT_INFO_TYPE_DFID_NAME,
    FAN_EVENT_INFO_TYPE_ERROR, FAN_EVENT_INFO_TYPE_FID, FAN_EVENT_INFO_TYPE_MNT,
    FAN_EVENT_INFO_TYPE_NEW_DFID_NAME, FAN_EVENT_INFO_TYPE_OLD_DFID_NAME, FAN_EVENT_INFO_TYPE_PIDFD,
    FAN_EVENT_INFO_TYPE_RANGE, FAN_FS_ERROR, FAN_MNT_ATTACH, FAN_NOFD, FAN_OPEN, FAN_PRE_ACCESS,
    FAN_Q_OVERFLOW, FAN_RENAME,
};
use fanotify_fid::fid::{
    parse_fid_events, parse_fid_events_into, parse_fid_events_reported, FidEvent, Pidfd,
    INFO_HEADER_SIZE,
};
use fanotify_fid::handle::FILE_HANDLE_HEADER_SIZE;
use fanotify_fid::parse::{EventStop, METADATA_SIZE};
use fanotify_fid::FanotifyError;

/// A `fanotify_event_metadata` with the given length, mask and fd.
fn metadata(event_len: u32, mask: u64, fd: i32) -> Vec<u8> {
    let mut out = Vec::with_capacity(METADATA_SIZE);
    out.extend_from_slice(&event_len.to_ne_bytes());
    out.push(FANOTIFY_METADATA_VERSION);
    out.push(0);
    out.extend_from_slice(&(METADATA_SIZE as u16).to_ne_bytes());
    out.extend_from_slice(&mask.to_ne_bytes());
    out.extend_from_slice(&fd.to_ne_bytes());
    out.extend_from_slice(&0i32.to_ne_bytes());
    out
}

/// An info record with the given type and payload.
fn record(info_type: u8, payload: &[u8]) -> Vec<u8> {
    let len = (INFO_HEADER_SIZE + payload.len()) as u16;
    let mut out = Vec::with_capacity(len as usize);
    out.push(info_type);
    out.push(0);
    out.extend_from_slice(&len.to_ne_bytes());
    out.extend_from_slice(payload);
    out
}

/// A `struct file_handle` with `payload_len` bytes of handle.
fn file_handle(payload_len: usize) -> Vec<u8> {
    let mut out = Vec::with_capacity(FILE_HANDLE_HEADER_SIZE + payload_len);
    out.extend_from_slice(&(payload_len as u32).to_ne_bytes());
    out.extend_from_slice(&1i32.to_ne_bytes());
    out.extend((0..payload_len).map(|i| i as u8));
    out
}

/// The body of a `FID`/`DFID` record: an fsid followed by a file handle.
fn fid_record_payload(fsid: (i32, i32), handle_len: usize) -> Vec<u8> {
    let mut out = Vec::new();
    out.extend_from_slice(&fsid.0.to_ne_bytes());
    out.extend_from_slice(&fsid.1.to_ne_bytes());
    out.extend_from_slice(&file_handle(handle_len));
    out
}

fn with_len_prefix(records: &[Vec<u8>], mask: u64, fd: i32) -> Vec<u8> {
    let records_len: usize = records.iter().map(Vec::len).sum();
    let event_len = (METADATA_SIZE + records_len) as u32;
    let mut out = metadata(event_len, mask, fd);
    for r in records {
        out.extend_from_slice(r);
    }
    out
}

#[test]
fn empty_buffer_yields_no_events() {
    assert!(parse_fid_events(&[]).unwrap().is_empty());
}

#[test]
fn truncated_header_yields_no_events() {
    let buf = vec![0u8; METADATA_SIZE - 1];
    assert!(parse_fid_events(&buf).unwrap().is_empty());
}

#[test]
fn fid_a_foreign_buffer_is_rejected_by_version() {
    // A regular file's first bytes are not events, and 24 bytes of zeros
    // have vers = 0.  Saying so is better than reporting an empty list.
    let buf = vec![0u8; 64];
    assert!(matches!(
        parse_fid_events(&buf),
        Err(FanotifyError::UnknownEventVersion(0))
    ));
}

#[test]
fn fid_a_zero_length_event_stops_the_walk() {
    let mut buf = metadata(0, FAN_CREATE, FAN_NOFD);
    buf.extend_from_slice(&metadata(0, FAN_CREATE, FAN_NOFD));
    assert!(parse_fid_events(&buf).unwrap().is_empty());
}

#[test]
fn dfid_name_record_yields_parent_handle_and_name() {
    let mut payload = Vec::new();
    payload.extend_from_slice(&7i32.to_ne_bytes());
    payload.extend_from_slice(&42i32.to_ne_bytes());
    payload.extend_from_slice(&file_handle(12));
    payload.extend_from_slice(b"hello\0\0\0");

    let buf = with_len_prefix(
        &[record(FAN_EVENT_INFO_TYPE_DFID_NAME, &payload)],
        FAN_CREATE,
        FAN_NOFD,
    );
    let events = parse_fid_events(&buf).unwrap();

    assert_eq!(events.len(), 1);
    let ev = &events[0];
    assert_eq!(ev.mask(), FAN_CREATE);
    assert_eq!(ev.fsid(), Some((7, 42)));
    assert_eq!(ev.dfid_name_str(), Some("hello"));
    assert_eq!(ev.dfid_name_raw(), b"hello");
    assert_eq!(
        ev.dfid_name_handle().unwrap().len(),
        FILE_HANDLE_HEADER_SIZE + 12
    );
    assert!(ev.unknown_info_records().is_empty());
}

#[test]
fn a_non_utf8_name_survives_intact() {
    let mut payload = Vec::new();
    payload.extend_from_slice(&0i32.to_ne_bytes());
    payload.extend_from_slice(&0i32.to_ne_bytes());
    payload.extend_from_slice(&file_handle(8));
    payload.extend_from_slice(&[0xff, 0xfe, 0x00, 0x00]);

    let buf = with_len_prefix(
        &[record(FAN_EVENT_INFO_TYPE_DFID_NAME, &payload)],
        FAN_CREATE,
        FAN_NOFD,
    );
    let events = parse_fid_events(&buf).unwrap();
    let ev = &events[0];

    assert_eq!(ev.dfid_name_raw(), &[0xff, 0xfe]);
    assert_eq!(ev.dfid_name_str(), None, "not UTF-8, so no &str");
    assert!(ev.dfid_name().is_some(), "but the bytes are still a name");
}

#[test]
fn fid_record_yields_the_object_handle() {
    let mut payload = Vec::new();
    payload.extend_from_slice(&1i32.to_ne_bytes());
    payload.extend_from_slice(&2i32.to_ne_bytes());
    payload.extend_from_slice(&file_handle(16));

    let buf = with_len_prefix(
        &[record(FAN_EVENT_INFO_TYPE_FID, &payload)],
        FAN_OPEN,
        FAN_NOFD,
    );
    let events = parse_fid_events(&buf).unwrap();

    assert_eq!(
        events[0].self_handle().unwrap().len(),
        FILE_HANDLE_HEADER_SIZE + 16
    );
    assert_eq!(events[0].fsid(), Some((1, 2)));
}

#[test]
fn both_rename_sides_are_kept_apart() {
    let side = |name: &[u8]| {
        let mut payload = Vec::new();
        payload.extend_from_slice(&3i32.to_ne_bytes());
        payload.extend_from_slice(&4i32.to_ne_bytes());
        payload.extend_from_slice(&file_handle(8));
        payload.extend_from_slice(name);
        payload
    };
    let buf = with_len_prefix(
        &[
            record(FAN_EVENT_INFO_TYPE_OLD_DFID_NAME, &side(b"before\0\0")),
            record(FAN_EVENT_INFO_TYPE_NEW_DFID_NAME, &side(b"after\0\0\0")),
        ],
        FAN_RENAME,
        FAN_NOFD,
    );
    let events = parse_fid_events(&buf).unwrap();
    let ev = &events[0];

    assert_eq!(ev.rename_source().unwrap().name_str(), Some("before"));
    assert_eq!(ev.rename_target().unwrap().name_str(), Some("after"));
    // A rename names parents, not the object, so there is no self handle.
    assert_eq!(ev.self_handle(), None);
}

#[test]
fn mnt_record_yields_a_mount_id_and_no_handle() {
    let mut payload = Vec::new();
    payload.extend_from_slice(&99u64.to_ne_bytes());

    let buf = with_len_prefix(
        &[record(FAN_EVENT_INFO_TYPE_MNT, &payload)],
        FAN_MNT_ATTACH,
        FAN_NOFD,
    );
    let events = parse_fid_events(&buf).unwrap();

    assert_eq!(events[0].mnt_id(), Some(99));
    assert_eq!(events[0].fsid(), None);
    assert_eq!(events[0].self_handle(), None);
}

#[test]
fn range_and_error_records_are_typed() {
    let mut range = Vec::new();
    range.extend_from_slice(&4096u64.to_ne_bytes());
    range.extend_from_slice(&512u64.to_ne_bytes());
    let mut error = Vec::new();
    error.extend_from_slice(&(-5i32).to_ne_bytes());
    error.extend_from_slice(&3u32.to_ne_bytes());

    let buf = with_len_prefix(
        &[
            record(FAN_EVENT_INFO_TYPE_RANGE, &range),
            record(FAN_EVENT_INFO_TYPE_ERROR, &error),
        ],
        FAN_PRE_ACCESS | FAN_FS_ERROR,
        FAN_NOFD,
    );
    let events = parse_fid_events(&buf).unwrap();

    assert_eq!(events[0].access_range(), Some((4096, 512)));
    assert_eq!(events[0].fs_error(), Some((-5, 3)));
}

#[test]
fn an_unknown_record_type_is_preserved_not_dropped() {
    let raw = record(200, b"future payload");
    let buf = with_len_prefix(std::slice::from_ref(&raw), FAN_OPEN, FAN_NOFD);
    let events = parse_fid_events(&buf).unwrap();

    let unknown = events[0].unknown_info_records();
    assert_eq!(unknown.len(), 1);
    assert_eq!(unknown[0].0, 200);
    assert_eq!(
        unknown[0].1.as_ref(),
        raw.as_slice(),
        "verbatim means header included, so the record can be re-parsed"
    );
    // And it is self-describing: `len` reads back off the front.
    let stored_len = u16::from_ne_bytes([unknown[0].1[2], unknown[0].1[3]]);
    assert_eq!(stored_len as usize, raw.len());
}

#[test]
fn a_following_record_is_not_charged_to_an_unknown_one() {
    // An unknown record ends where its own `len` says, not where the event
    // ends: otherwise the next record's bytes would stand in two places, once
    // behind the unknown one and once in the event's typed fields.
    let unknown = record(200, b"future bytes");
    let fid = record(FAN_EVENT_INFO_TYPE_FID, &fid_record_payload((7, 9), 8));
    let buf = with_len_prefix(&[unknown.clone(), fid.clone()], FAN_OPEN, FAN_NOFD);
    let events = parse_fid_events(&buf).unwrap();

    let kept = events[0].unknown_info_records();
    assert_eq!(
        kept.len(),
        1,
        "the FID record has a typed field, not an entry"
    );
    assert_eq!(
        kept[0].1.as_ref(),
        unknown.as_slice(),
        "the unknown entry is its own record and stops at its own end"
    );
    assert!(
        !kept[0].1.ends_with(&fid),
        "the next record's bytes must not appear inside this entry"
    );

    // The next record is parsed, exactly once.
    assert_eq!(events[0].fsid(), Some((7, 9)));
    assert_eq!(events[0].self_handle().map(<[u8]>::len), Some(16));
}

#[test]
fn a_record_longer_than_its_event_is_preserved_and_stops_the_walk() {
    // Claim 1000 bytes of payload inside an event that has 4.
    let mut record = record(FAN_EVENT_INFO_TYPE_FID, &[]);
    record[2..4].copy_from_slice(&1000u16.to_ne_bytes());

    let buf = with_len_prefix(&[record], FAN_OPEN, FAN_NOFD);
    let events = parse_fid_events(&buf).unwrap();

    assert_eq!(events.len(), 1);
    assert_eq!(events[0].unknown_info_records().len(), 1);
    assert_eq!(
        events[0].unknown_info_records()[0].0,
        FAN_EVENT_INFO_TYPE_FID
    );
}

#[test]
fn a_truncated_payload_is_preserved_rather_than_interpreted() {
    // A FID record with 4 payload bytes cannot hold an 8-byte fsid.
    let buf = with_len_prefix(
        &[record(FAN_EVENT_INFO_TYPE_FID, &[0u8; 4])],
        FAN_OPEN,
        FAN_NOFD,
    );
    let events = parse_fid_events(&buf).unwrap();

    assert_eq!(events[0].fsid(), None);
    assert_eq!(events[0].self_handle(), None);
    assert_eq!(events[0].unknown_info_records().len(), 1);
}

#[test]
fn a_handle_longer_than_max_handle_sz_is_refused() {
    // handle_bytes = 4096, which no filesystem may produce.
    let mut payload = Vec::new();
    payload.extend_from_slice(&0i32.to_ne_bytes());
    payload.extend_from_slice(&0i32.to_ne_bytes());
    payload.extend_from_slice(&4096u32.to_ne_bytes());
    payload.extend_from_slice(&0i32.to_ne_bytes());
    payload.extend(std::iter::repeat(0u8).take(16));

    let buf = with_len_prefix(
        &[record(FAN_EVENT_INFO_TYPE_FID, &payload)],
        FAN_OPEN,
        FAN_NOFD,
    );
    let events = parse_fid_events(&buf).unwrap();

    assert_eq!(events[0].self_handle(), None);
    assert_eq!(events[0].unknown_info_records().len(), 1);
}

#[test]
fn a_pidfd_record_is_never_adopted_from_a_byte_buffer() {
    // A pidfd record whose "descriptor" is 1 — stdout.  Adopting it would
    // close the caller's stdout, which is exactly why the byte-level parser
    // reports instead of owning.
    let buf = with_len_prefix(
        &[record(FAN_EVENT_INFO_TYPE_PIDFD, &1i32.to_ne_bytes())],
        FAN_OPEN,
        FAN_NOFD,
    );
    let events = parse_fid_events(&buf).unwrap();

    match events[0].pidfd() {
        Pidfd::Unavailable(1) => {}
        other => panic!("a byte buffer must not yield an owned descriptor, got {other:?}"),
    }
}

#[test]
fn fd_error_is_reported_but_no_fd_is_not() {
    let buf = metadata(METADATA_SIZE as u32, FAN_OPEN, -13); // -EACCES
    let events = parse_fid_events(&buf).unwrap();
    assert_eq!(events[0].fd_error(), Some(-13));

    let buf = metadata(METADATA_SIZE as u32, FAN_OPEN, FAN_NOFD);
    let events = parse_fid_events(&buf).unwrap();
    assert_eq!(
        events[0].fd_error(),
        None,
        "-1 is the sentinel, not an errno"
    );
}

#[test]
fn several_events_in_one_buffer_are_all_parsed() {
    let first = metadata(METADATA_SIZE as u32, FAN_CREATE, FAN_NOFD);
    let second = metadata(METADATA_SIZE as u32, FAN_DELETE, FAN_NOFD);
    let buf = [first, second].concat();

    let events = parse_fid_events(&buf).unwrap();
    assert_eq!(events.len(), 2);
    assert_eq!(events[0].mask(), FAN_CREATE);
    assert_eq!(events[1].mask(), FAN_DELETE);
}

#[test]
fn a_trailing_partial_event_is_ignored_not_guessed_at() {
    let complete = metadata(METADATA_SIZE as u32, FAN_CREATE, FAN_NOFD);
    let mut buf = complete.clone();
    buf.extend_from_slice(&complete[..METADATA_SIZE - 4]);

    let events = parse_fid_events(&buf).unwrap();
    assert_eq!(events.len(), 1);
}

#[test]
fn overflow_carries_no_identity_at_all() {
    let buf = metadata(METADATA_SIZE as u32, FAN_Q_OVERFLOW, FAN_NOFD);
    let events = parse_fid_events(&buf).unwrap();

    assert!(events[0].is_overflow());
    assert_eq!(events[0].self_handle(), None);
    assert_eq!(events[0].fsid(), None);
    assert_eq!(events[0].event_names(), ["Q_OVERFLOW"]);
}

#[test]
fn a_parsed_event_owns_nothing_and_a_converted_one_owns_everything() {
    let mut payload = Vec::new();
    payload.extend_from_slice(&7i32.to_ne_bytes());
    payload.extend_from_slice(&42i32.to_ne_bytes());
    payload.extend_from_slice(&file_handle(12));
    payload.extend_from_slice(b"hello\0\0\0");
    let buf = with_len_prefix(
        &[record(FAN_EVENT_INFO_TYPE_DFID_NAME, &payload)],
        FAN_CREATE,
        FAN_NOFD,
    );

    let owned: Vec<FidEvent<'static>> = parse_fid_events(&buf)
        .unwrap()
        .into_iter()
        .map(FidEvent::into_owned)
        .collect();
    // The buffer can now be dropped or overwritten while the events live.
    drop(buf);

    assert_eq!(owned.len(), 1);
    assert_eq!(owned[0].dfid_name_str(), Some("hello"));
    assert_eq!(owned[0].fsid(), Some((7, 42)));
    assert_eq!(owned[0].dfid_name_handle().unwrap().len(), 20);
}

// ── What the walk reports ──
//
// A parser whose only output is a `Vec` cannot distinguish "the buffer held
// no events" from "the buffer held the beginning of one", and a consumer of
// a stream has to distinguish them: one means wait for more, the other means
// reconcile.  These tests pin both facts down.

#[test]
fn a_complete_buffer_reports_complete() {
    let buf = metadata(METADATA_SIZE as u32, FAN_OPEN, FAN_NOFD);
    let (events, report) = parse_fid_events_reported(&buf);

    assert_eq!(events.len(), 1);
    assert!(report.is_complete());
    assert_eq!(report.bytes_consumed, buf.len());
    assert_eq!(report.bytes_left, 0);
}

#[test]
fn a_truncated_header_is_reported_with_the_bytes_left() {
    let buf = metadata(METADATA_SIZE as u32, FAN_OPEN, FAN_NOFD);
    let (events, report) = parse_fid_events_reported(&buf[..METADATA_SIZE - 1]);

    assert!(events.is_empty());
    assert_eq!(report.stop, EventStop::ShortHeader);
    assert_eq!(report.bytes_consumed, 0);
    assert_eq!(report.bytes_left, METADATA_SIZE - 1);
}

#[test]
fn a_zero_length_event_is_reported_as_such() {
    let buf = metadata(0, FAN_OPEN, FAN_NOFD);
    let (events, report) = parse_fid_events_reported(&buf);

    assert!(events.is_empty());
    assert_eq!(report.stop, EventStop::BadEventLen(0));
}

#[test]
fn an_event_length_past_the_buffer_is_reported_as_such() {
    let buf = metadata(METADATA_SIZE as u32 + 1, FAN_OPEN, FAN_NOFD);
    let (events, report) = parse_fid_events_reported(&buf);

    assert!(events.is_empty());
    assert_eq!(
        report.stop,
        EventStop::BadEventLen(METADATA_SIZE as u32 + 1)
    );
    assert_eq!(report.bytes_left, METADATA_SIZE);
}

#[test]
fn a_metadata_len_past_the_event_is_reported_as_such() {
    let mut buf = metadata(METADATA_SIZE as u32, FAN_OPEN, FAN_NOFD);
    buf[6..8].copy_from_slice(&64u16.to_ne_bytes());
    let (events, report) = parse_fid_events_reported(&buf);

    assert!(events.is_empty());
    assert_eq!(report.stop, EventStop::BadMetadataLen);
    assert_eq!(report.bytes_consumed, 0);
    assert_eq!(report.bytes_left, buf.len());
}

#[test]
fn a_metadata_len_below_the_header_is_clamped_rather_than_fatal() {
    // The kernel writes 24 here.  A smaller value cannot point the record
    // walk anywhere but the header, so it is clamped; there is no record
    // layout it could produce that the header end does not already give.
    let mut buf = metadata(METADATA_SIZE as u32, FAN_CREATE, FAN_NOFD);
    buf[6..8].copy_from_slice(&4u16.to_ne_bytes());
    let (events, report) = parse_fid_events_reported(&buf);

    assert!(report.is_complete());
    assert_eq!(events.len(), 1);
}

#[test]
fn an_unknown_version_is_reported_and_a_hard_error_in_the_plain_parser() {
    let mut buf = metadata(METADATA_SIZE as u32, FAN_OPEN, FAN_NOFD);
    buf[4] = 9;

    let (events, report) = parse_fid_events_reported(&buf);
    assert!(events.is_empty());
    assert_eq!(report.stop, EventStop::UnknownVersion(9));
    assert_eq!(report.bytes_consumed, 0, "nothing after vers is readable");
    assert_eq!(report.bytes_left, buf.len());

    assert!(matches!(
        parse_fid_events(&buf),
        Err(FanotifyError::UnknownEventVersion(9))
    ));
}

#[test]
fn garbage_after_valid_events_is_left_over_not_parsed() {
    let mut buf = metadata(METADATA_SIZE as u32, FAN_CREATE, FAN_NOFD);
    let complete = buf.len();
    buf.extend_from_slice(b"junk");

    let (events, report) = parse_fid_events_reported(&buf);
    assert_eq!(events.len(), 1);
    assert_eq!(report.stop, EventStop::ShortHeader);
    assert_eq!(report.bytes_consumed, complete);
    assert_eq!(report.bytes_left, 4);
}

#[test]
fn a_record_overrunning_its_event_is_consumed_with_the_event() {
    // The event was read whole, so the buffer position is past it; the
    // record-level overrun is preserved on the event, not left in the
    // buffer, because the remainder is only meaningful with that event.
    let mut record = record(FAN_EVENT_INFO_TYPE_FID, &[]);
    record[2..4].copy_from_slice(&1000u16.to_ne_bytes());
    let buf = with_len_prefix(&[record], FAN_OPEN, FAN_NOFD);

    let (events, report) = parse_fid_events_reported(&buf);
    assert_eq!(events.len(), 1);
    assert!(report.is_complete());
    assert_eq!(events[0].unknown_info_records().len(), 1);
}

#[test]
fn a_reused_vec_is_refilled_in_place() {
    let first = metadata(METADATA_SIZE as u32, FAN_CREATE, FAN_NOFD);
    let second = metadata(METADATA_SIZE as u32, FAN_DELETE, FAN_NOFD);

    let mut events: Vec<FidEvent<'_>> = Vec::new();
    assert!(parse_fid_events_into(&mut events, &first).is_complete());
    let capacity = events.capacity();
    assert!(parse_fid_events_into(&mut events, &second).is_complete());

    assert_eq!(events.len(), 1);
    assert_eq!(events[0].mask(), FAN_DELETE);
    assert_eq!(events.capacity(), capacity, "the Vec was not reallocated");
}

/// A `DFID_NAME` event about the entry `hello`.
fn hello_event() -> Vec<u8> {
    let mut payload = Vec::new();
    payload.extend_from_slice(&7i32.to_ne_bytes());
    payload.extend_from_slice(&42i32.to_ne_bytes());
    payload.extend_from_slice(&file_handle(12));
    payload.extend_from_slice(b"hello\0\0\0");
    with_len_prefix(
        &[record(FAN_EVENT_INFO_TYPE_DFID_NAME, &payload)],
        FAN_CREATE,
        FAN_NOFD,
    )
}

#[test]
fn a_static_buffer_and_its_vec_reuse_both_allocations() {
    // One buffer and one `Vec` serve every parse.
    let buf = hello_event();

    let mut events: Vec<FidEvent<'_>> = Vec::new();
    assert!(parse_fid_events_into(&mut events, &buf).is_complete());
    let capacity = events.capacity();
    assert!(capacity > 0);
    let storage = events.as_ptr();

    for _ in 0..64 {
        let report = parse_fid_events_into(&mut events, &buf);
        assert!(report.is_complete());
        assert_eq!(events.len(), 1);
        assert_eq!(events.capacity(), capacity, "and must not regrow");
        assert_eq!(events.as_ptr(), storage);
        assert_eq!(events[0].dfid_name_str(), Some("hello"));
    }
}

#[test]
fn parsing_a_known_shape_allocates_nothing() {
    // Two events that each name a parent handle and an entry: the fields that
    // would be the per-record copies in an owning parser.
    let one = hello_event();
    let buf = [one.clone(), one].concat();

    let mut events: Vec<FidEvent<'_>> = Vec::with_capacity(2);
    assert!(parse_fid_events_into(&mut events, &buf).is_complete());
    assert_eq!(events.len(), 2);

    let report = parse_fid_events_into(&mut events, &buf);
    assert!(report.is_complete());
    assert_eq!(events.len(), 2);
    assert_eq!(events[0].dfid_name_str(), Some("hello"));
    // The bytes shown are the buffer's own.
    let inside = buf.as_ptr_range();
    for event in &events {
        assert!(inside.contains(&event.dfid_name().unwrap().as_ptr()));
        assert!(inside.contains(&event.dfid_name_handle().unwrap().as_ptr()));
    }
}

#[test]
fn a_parsed_event_borrows_and_an_owned_one_does_not() {
    let buf = with_len_prefix(&[record(200, b"future bytes")], FAN_OPEN, FAN_NOFD);
    let events = parse_fid_events(&buf).unwrap();
    assert!(matches!(events[0].unknown_info_records()[0].1, Cow::Borrowed(_)));

    let owned = events[0].clone().into_owned();
    assert!(matches!(owned.unknown_info_records()[0].1, Cow::Owned(_)));
    assert_eq!(owned, events[0]);

    // What is owned already moves: its bytes stay where they are.
    let at = owned.unknown_info_records()[0].1.as_ptr();
    let again = owned.into_owned();
    assert_eq!(again.unknown_info_records()[0].1.as_ptr(), at);
}
