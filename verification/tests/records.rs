//! Info records, each of which reaches the event.
use fanotify_fid::consts::{
    FAN_CREATE, FAN_EVENT_INFO_TYPE_DFID, FAN_EVENT_INFO_TYPE_DFID_NAME, FAN_EVENT_INFO_TYPE_ERROR,
    FAN_EVENT_INFO_TYPE_FID, FAN_EVENT_INFO_TYPE_MNT, FAN_EVENT_INFO_TYPE_NEW_DFID_NAME,
    FAN_EVENT_INFO_TYPE_OLD_DFID_NAME, FAN_EVENT_INFO_TYPE_PIDFD, FAN_EVENT_INFO_TYPE_RANGE,
    FAN_FS_ERROR, FAN_RENAME,
};
use fanotify_fid::fid;
use fanotify_fid::handle::Mounts;
use fanotify_fid::owned::{self, own_pidfds_once};
use fanotify_fid::resolve::PathResolver;
use fanotify_fid::types::FidEvent;

/// The records of a buffer, with no mount to resolve them on.
fn parse_fid_events(buf: &[u8]) -> Vec<FidEvent> {
    let mut resolver = PathResolver::new(Mounts::new());
    owned::parse_fid_events(buf, &mut resolver, &|_fd: i32, _handle: &[u8]| {
        panic!("there is no mount to open a handle on")
    })
}

const META_SIZE: usize = 24;

fn metadata(event_len: u32, mask: u64, pid: i32) -> Vec<u8> {
    let mut buf = Vec::with_capacity(META_SIZE);
    buf.extend_from_slice(&event_len.to_ne_bytes());
    buf.push(3); // FANOTIFY_METADATA_VERSION
    buf.push(0);
    buf.extend_from_slice(&(META_SIZE as u16).to_ne_bytes());
    buf.extend_from_slice(&mask.to_ne_bytes());
    buf.extend_from_slice(&(-1i32).to_ne_bytes()); // FAN_NOFD
    buf.extend_from_slice(&pid.to_ne_bytes());
    buf
}

fn info_header(info_type: u8, payload_len: u16) -> Vec<u8> {
    let mut buf = Vec::with_capacity(4);
    buf.push(info_type);
    buf.push(0);
    buf.extend_from_slice(&(4 + payload_len).to_ne_bytes());
    buf
}

fn dfid_name_payload(filename: &str, handle: &[u8]) -> Vec<u8> {
    let mut payload = Vec::new();
    payload.extend_from_slice(&100i32.to_ne_bytes()); // fsid
    payload.extend_from_slice(&200i32.to_ne_bytes());
    payload.extend_from_slice(&(handle.len() as u32).to_ne_bytes()); // handle_bytes
    payload.extend_from_slice(&1i32.to_ne_bytes()); // handle_type
    payload.extend_from_slice(handle);
    payload.extend_from_slice(filename.as_bytes());
    payload.push(0);
    while payload.len() % 4 != 0 {
        payload.push(0);
    }
    payload
}

fn rename_side(info_type: u8, filename: &str, handle: &[u8]) -> Vec<u8> {
    let payload = dfid_name_payload(filename, handle);
    let mut record = info_header(info_type, payload.len() as u16);
    record.extend_from_slice(&payload);
    record
}

fn single_event(info: &[u8], mask: u64, pid: i32) -> Vec<u8> {
    let mut buf = metadata((META_SIZE + info.len()) as u32, mask, pid);
    buf.extend_from_slice(info);
    buf
}

#[test]
fn rename_sides_survive_parsing() {
    let mut info = rename_side(FAN_EVENT_INFO_TYPE_OLD_DFID_NAME, "before.txt", b"\xaa\x01");
    info.extend_from_slice(&rename_side(
        FAN_EVENT_INFO_TYPE_NEW_DFID_NAME,
        "after.txt",
        b"\xbb\x02",
    ));
    let buf = single_event(&info, FAN_RENAME, 4242);

    let events = parse_fid_events(&buf);
    assert_eq!(events.len(), 1);
    let ev = &events[0];

    assert_eq!(ev.event_names(), vec!["RENAME"]);
    assert_eq!(
        ev.rename_source().map(|s| s.name.as_str()),
        Some("before.txt"),
        "rename source must not be dropped"
    );
    assert_eq!(
        ev.rename_target().map(|s| s.name.as_str()),
        Some("after.txt"),
        "rename target must not be dropped"
    );
    // An empty list proves that nothing was thrown away.
    assert!(ev.unknown_info_records().is_empty());
}

#[test]
fn unrecognised_record_is_observable() {
    let mut info = info_header(99, 12);
    info.extend_from_slice(&[0xde, 0xad, 0xbe, 0xef]);
    info.extend_from_slice(&[0u8; 8]);
    let buf = single_event(&info, FAN_CREATE, 7);

    let events = parse_fid_events(&buf);
    let unknown = events[0].unknown_info_records();
    assert_eq!(unknown.len(), 1);
    assert_eq!(unknown[0].0, 99);
    assert_eq!(&unknown[0].1[..4], &[0xde, 0xad, 0xbe, 0xef]);
}

#[test]
fn fs_error_payload_is_exposed() {
    let mut info = info_header(FAN_EVENT_INFO_TYPE_ERROR, 8);
    info.extend_from_slice(&(-5i32).to_ne_bytes()); // -EIO
    info.extend_from_slice(&3u32.to_ne_bytes());
    let buf = single_event(&info, FAN_FS_ERROR, 1);

    let events = parse_fid_events(&buf);
    assert_eq!(events[0].fs_error(), Some((-5, 3)));
}

#[test]
fn every_info_type_constant_reaches_the_parser() {
    // Each record below is structurally valid for its type, and must produce
    // *some* observable result rather than vanishing.
    let cases: &[(u8, Vec<u8>)] = &[
        // fsid + file_handle(8 + 4 bytes of handle)
        (
            FAN_EVENT_INFO_TYPE_FID,
            dfid_name_payload("", b"\x01\x02\x03\x04"),
        ),
        (
            FAN_EVENT_INFO_TYPE_DFID,
            dfid_name_payload("", b"\x01\x02\x03\x04"),
        ),
        (
            FAN_EVENT_INFO_TYPE_DFID_NAME,
            dfid_name_payload("entry.txt", b"\x01\x02\x03\x04"),
        ),
        // pidfd: -1 keeps this test from opening real descriptors.
        (FAN_EVENT_INFO_TYPE_PIDFD, (-1i32).to_ne_bytes().to_vec()),
        // error + error_count
        (
            FAN_EVENT_INFO_TYPE_ERROR,
            (-5i32)
                .to_ne_bytes()
                .iter()
                .chain(2u32.to_ne_bytes().iter())
                .copied()
                .collect(),
        ),
        // pad + offset + count
        (
            FAN_EVENT_INFO_TYPE_RANGE,
            0u32.to_ne_bytes()
                .iter()
                .chain(4096u64.to_ne_bytes().iter())
                .chain(512u64.to_ne_bytes().iter())
                .copied()
                .collect(),
        ),
        // mnt_id
        (FAN_EVENT_INFO_TYPE_MNT, 77u64.to_ne_bytes().to_vec()),
        (
            FAN_EVENT_INFO_TYPE_OLD_DFID_NAME,
            dfid_name_payload("old.txt", b"\x01\x02\x03\x04"),
        ),
        (
            FAN_EVENT_INFO_TYPE_NEW_DFID_NAME,
            dfid_name_payload("new.txt", b"\x01\x02\x03\x04"),
        ),
    ];

    for (info_type, payload) in cases {
        let mut info = info_header(*info_type, payload.len() as u16);
        info.extend_from_slice(payload);
        let buf = single_event(&info, FAN_CREATE, 1);

        let events = parse_fid_events(&buf);
        assert_eq!(events.len(), 1, "info type {info_type} broke event framing");

        let ev = &events[0];
        let observed = ev.self_handle().is_some()
            || ev.dfid_name_handle().is_some()
            || ev.fs_error().is_some()
            || ev.rename_source().is_some()
            || ev.rename_target().is_some()
            || !ev.unknown_info_records().is_empty();
        assert!(
            observed,
            "info type {info_type} is exported but produced no observable result"
        );
    }
}

#[test]
fn recognised_type_with_truncated_payload_is_preserved() {
    // A record whose type we know but whose payload is too short to parse must
    // still be visible, so the no-silent-loss rule has no exception.
    let mut info = info_header(FAN_EVENT_INFO_TYPE_ERROR, 4);
    info.extend_from_slice(&(-5i32).to_ne_bytes()); // error_count missing
    let buf = single_event(&info, FAN_FS_ERROR, 1);

    let events = parse_fid_events(&buf);
    assert!(events[0].fs_error().is_none());
    assert_eq!(
        events[0].unknown_info_records(),
        &[(FAN_EVENT_INFO_TYPE_ERROR, (-5i32).to_ne_bytes().to_vec())]
    );
}

fn pidfd_record(number: i32) -> Vec<u8> {
    let mut record = info_header(FAN_EVENT_INFO_TYPE_PIDFD, 4);
    record.extend_from_slice(&number.to_ne_bytes());
    record
}

#[test]
fn a_pidfd_has_one_owner_in_a_batch() {
    let mut two = pidfd_record(9);
    two.extend_from_slice(&pidfd_record(10));
    let buf = [
        single_event(&pidfd_record(7), FAN_CREATE, 1),
        single_event(&pidfd_record(7), FAN_CREATE, 2),
        single_event(&pidfd_record(-2), FAN_CREATE, 3),
        single_event(&two, FAN_CREATE, 4),
    ]
    .concat();

    let mut events = parse_fid_events(&buf);
    assert_eq!(events[0].pidfd(), Some(7));
    assert!(events[0].unknown_info_records().is_empty());
    assert_eq!(events[1].pidfd(), None, "an earlier event owns it");
    assert_eq!(
        events[1].unknown_info_records(),
        &[(FAN_EVENT_INFO_TYPE_PIDFD, 7i32.to_ne_bytes().to_vec())]
    );
    assert_eq!(events[2].pidfd(), None, "a sentinel is no descriptor");
    assert_eq!(
        events[2].unknown_info_records(),
        &[(FAN_EVENT_INFO_TYPE_PIDFD, (-2i32).to_ne_bytes().to_vec())]
    );
    assert_eq!(events[3].pidfd(), Some(9), "the first of an event counts");
    assert_eq!(
        events[3].unknown_info_records(),
        &[(FAN_EVENT_INFO_TYPE_PIDFD, 10i32.to_ne_bytes().to_vec())]
    );
    let settled: Vec<FidEvent> = events.clone();
    own_pidfds_once(&mut events);
    assert_eq!(events, settled);
}

#[test]
fn a_record_with_a_wild_length_takes_the_rest_of_its_event() {
    let mut info = info_header(FAN_EVENT_INFO_TYPE_FID, 200);
    info.extend_from_slice(&[1, 2, 3, 4]);
    let events = parse_fid_events(&single_event(&info, FAN_CREATE, 1));
    assert_eq!(
        events[0].unknown_info_records(),
        &[(FAN_EVENT_INFO_TYPE_FID, vec![1, 2, 3, 4])]
    );
}

#[test]
fn a_name_that_is_not_text_is_shown_with_replacements() {
    let mut payload = dfid_name_payload("", b"\x01");
    payload.truncate(17); // fsid, handle header, handle
    payload.extend_from_slice(b"a\xffb\0");
    let mut info = info_header(FAN_EVENT_INFO_TYPE_DFID_NAME, payload.len() as u16);
    info.extend_from_slice(&payload);
    let events = parse_fid_events(&single_event(&info, FAN_CREATE, 1));
    assert_eq!(events[0].dfid_name_filename(), Some("a\u{fffd}b"));
    assert_eq!(events[0].dfid_name_handle(), Some(&payload[8..17]));
}

#[test]
fn a_second_name_is_kept_and_not_taken() {
    let mut info = rename_side(FAN_EVENT_INFO_TYPE_DFID_NAME, "first", b"\x01");
    let second = rename_side(FAN_EVENT_INFO_TYPE_DFID_NAME, "second", b"\x02");
    info.extend_from_slice(&second);
    let events = parse_fid_events(&single_event(&info, FAN_CREATE, 1));
    assert_eq!(events[0].dfid_name_filename(), Some("first"));
    assert_eq!(
        events[0].unknown_info_records(),
        &[(FAN_EVENT_INFO_TYPE_DFID_NAME, second[4..].to_vec())]
    );
}

#[test]
fn a_record_agrees_with_the_event_of_the_same_bytes() {
    let mut info = rename_side(FAN_EVENT_INFO_TYPE_DFID_NAME, "entry", b"\x01\x02");
    info.extend_from_slice(&rename_side(FAN_EVENT_INFO_TYPE_OLD_DFID_NAME, "old", b"\x03"));
    info.extend_from_slice(&rename_side(FAN_EVENT_INFO_TYPE_FID, "", b"\x04\x05"));
    let buf = single_event(&info, FAN_RENAME, 9);

    let records = parse_fid_events(&buf);
    let events = fid::parse_fid_events(&buf).unwrap();
    assert_eq!(records.len(), events.len());
    let (record, event) = (&records[0], &events[0]);
    assert_eq!(record.mask(), event.mask());
    assert_eq!(record.pid(), event.pid());
    assert_eq!(record.dfid_name_handle(), event.dfid_name_handle());
    assert_eq!(record.dfid_name_filename(), event.dfid_name_str());
    assert_eq!(record.self_handle(), event.self_handle());
    assert_eq!(record.fs_error(), event.fs_error());
    let (side, same) = (record.rename_source().unwrap(), event.rename_source().unwrap());
    assert_eq!(side.handle, same.handle());
    assert_eq!(Some(side.name.as_str()), same.name_str());
    assert!(record.rename_target().is_none() && event.rename_target().is_none());
}
