//! Parsing fd-based events.
use fanotify_fid::consts::{
    FANOTIFY_METADATA_VERSION, FAN_CREATE, FAN_DELETE, FAN_NOFD, FAN_OPEN, FAN_Q_OVERFLOW,
};
use fanotify_fid::fd::{parse_fd_events, parse_fd_events_into, FdEvent};
use fanotify_fid::parse::{EventStop, METADATA_SIZE};

fn metadata(event_len: u32, mask: u64, fd: i32, pid: i32) -> Vec<u8> {
    let mut out = Vec::with_capacity(METADATA_SIZE);
    out.extend_from_slice(&event_len.to_ne_bytes());
    out.push(FANOTIFY_METADATA_VERSION);
    out.push(0);
    out.extend_from_slice(&(METADATA_SIZE as u16).to_ne_bytes());
    out.extend_from_slice(&mask.to_ne_bytes());
    out.extend_from_slice(&fd.to_ne_bytes());
    out.extend_from_slice(&pid.to_ne_bytes());
    out
}

#[test]
fn fd_a_foreign_buffer_is_rejected_by_version() {
    let (events, report) = parse_fd_events(&[0u8; 64]);
    assert!(events.is_empty());
    assert_eq!(report.stop, EventStop::UnknownVersion(0));
    assert_eq!(report.bytes_consumed, 0);
    assert_eq!(report.bytes_left, 64);
}

#[test]
fn an_event_with_no_descriptor_reports_the_sentinel() {
    let buf = metadata(METADATA_SIZE as u32, FAN_OPEN, FAN_NOFD, 7);
    let (events, report) = parse_fd_events(&buf);

    assert!(report.is_complete());
    assert_eq!(events.len(), 1);
    assert_eq!(events[0].pid(), 7);
    assert_eq!(events[0].fd_field(), FAN_NOFD);
    assert!(events[0].fd().is_none());
    assert_eq!(events[0].no_fd_reason(), Some(FAN_NOFD));
    assert!(!events[0].is_overflow());
}

#[test]
fn a_negative_fd_other_than_the_sentinel_is_the_reason() {
    let buf = metadata(METADATA_SIZE as u32, FAN_OPEN, -13, 7);
    let (events, _) = parse_fd_events(&buf);

    assert_eq!(events[0].no_fd_reason(), Some(-13), "-EACCES");
}

#[test]
fn a_parsed_descriptor_number_is_reported_but_not_adopted() {
    // The number in the bytes is what it is, and adopting it would close
    // whatever descriptor this process happens to hold under that number.
    let buf = metadata(METADATA_SIZE as u32, FAN_OPEN, 1, 7);
    let (events, _) = parse_fd_events(&buf);

    assert_eq!(events[0].fd_field(), 1);
    assert!(events[0].fd().is_none());
    assert_eq!(
        events[0].no_fd_reason(),
        None,
        "a non-negative number is not a reason for a missing descriptor"
    );
}

#[test]
fn a_descriptor_number_is_never_adopted_twice() {
    // The kernel installs a fresh descriptor per event, so a buffer naming one
    // twice is not what it claims, and adopting both would close it from two
    // owners.
    let raw = 11;
    let buf = [
        metadata(METADATA_SIZE as u32, FAN_OPEN, raw, 1),
        metadata(METADATA_SIZE as u32, FAN_OPEN, raw, 2),
    ]
    .concat();
    let (mut events, _) = parse_fd_events(&buf);
    assert_eq!(events.len(), 2);

    let mut adopted = Vec::new();
    events[0].adopt_reported(&mut adopted);
    events[1].adopt_reported(&mut adopted);

    assert_eq!(events[0].fd(), Some(raw), "the first adopts it");
    assert!(events[1].fd().is_none(), "the repeat stays unowned");
    assert_eq!(events[1].fd_field(), raw, "the field is still reported");
    assert_eq!(adopted, vec![raw], "so it is closed exactly once");
}

#[test]
fn the_walk_advances_by_event_len_not_by_a_fixed_stride() {
    // The first event is padded to 40 bytes.  Walking by 24 would read the
    // padding as a second event and never see the real one.
    let mut first = metadata(40, FAN_CREATE, FAN_NOFD, 1);
    first.extend_from_slice(&[0u8; 16]);
    let second = metadata(METADATA_SIZE as u32, FAN_DELETE, FAN_NOFD, 2);
    let buf = [first, second].concat();

    let (events, report) = parse_fd_events(&buf);
    assert!(report.is_complete());
    assert_eq!(events.len(), 2);
    assert_eq!(events[0].mask(), FAN_CREATE);
    assert_eq!(events[0].pid(), 1);
    assert_eq!(events[1].mask(), FAN_DELETE);
    assert_eq!(events[1].pid(), 2);
}

#[test]
fn a_malformed_length_stops_the_walk_and_is_reported() {
    let good = metadata(METADATA_SIZE as u32, FAN_OPEN, FAN_NOFD, 1);
    let bad = metadata(9999, FAN_OPEN, FAN_NOFD, 2);
    let buf = [good, bad].concat();

    let (events, report) = parse_fd_events(&buf);
    assert_eq!(events.len(), 1);
    assert_eq!(report.stop, EventStop::BadEventLen(9999));
    assert_eq!(report.bytes_consumed, METADATA_SIZE);
    assert_eq!(report.bytes_left, METADATA_SIZE);
}

#[test]
fn fd_a_zero_length_event_stops_the_walk() {
    let buf = metadata(0, FAN_OPEN, FAN_NOFD, 1);
    let (events, report) = parse_fd_events(&buf);

    assert!(events.is_empty());
    assert_eq!(report.stop, EventStop::BadEventLen(0));
    assert_eq!(report.bytes_left, METADATA_SIZE);
}

#[test]
fn a_metadata_len_past_the_event_stops_the_walk() {
    let mut buf = metadata(METADATA_SIZE as u32, FAN_OPEN, FAN_NOFD, 1);
    buf[6..8].copy_from_slice(&64u16.to_ne_bytes());

    let (events, report) = parse_fd_events(&buf);
    assert!(events.is_empty());
    assert_eq!(report.stop, EventStop::BadMetadataLen);
}

#[test]
fn an_overflow_event_is_recognised() {
    let buf = metadata(METADATA_SIZE as u32, FAN_Q_OVERFLOW, FAN_NOFD, 0);
    let (events, _) = parse_fd_events(&buf);

    assert!(events[0].is_overflow());
    assert_eq!(events[0].event_names(), ["Q_OVERFLOW"]);
}

#[test]
fn a_truncated_final_event_is_ignored_and_reported() {
    let good = metadata(METADATA_SIZE as u32, FAN_OPEN, FAN_NOFD, 1);
    let mut buf = good.clone();
    buf.extend_from_slice(&good[..METADATA_SIZE - 8]);

    let (events, report) = parse_fd_events(&buf);
    assert_eq!(events.len(), 1);
    assert_eq!(report.stop, EventStop::ShortHeader);
    assert_eq!(report.bytes_consumed, METADATA_SIZE);
    assert_eq!(report.bytes_left, METADATA_SIZE - 8);
}

#[test]
fn a_reused_vec_parses_the_second_buffer_in_place() {
    let first = metadata(METADATA_SIZE as u32, FAN_OPEN, FAN_NOFD, 1);
    let second = metadata(METADATA_SIZE as u32, FAN_DELETE, FAN_NOFD, 2);

    let mut events = Vec::new();
    assert!(parse_fd_events_into(&mut events, &first).is_complete());
    assert_eq!(events[0].mask(), FAN_OPEN);

    // Same `Vec`, different buffer: the slot is reset, not reallocated.
    let capacity = events.capacity();
    assert!(parse_fd_events_into(&mut events, &second).is_complete());
    assert_eq!(events.len(), 1);
    assert_eq!(events[0].mask(), FAN_DELETE);
    assert_eq!(events[0].pid(), 2);
    assert_eq!(events.capacity(), capacity);
}

#[test]
fn a_hand_built_event_reports_what_it_was_given() {
    let event = FdEvent::new(FAN_OPEN, None, 7);
    assert_eq!(event.mask(), FAN_OPEN);
    assert_eq!(event.pid(), 7);
    assert_eq!(event.fd_field(), FAN_NOFD);
    assert!(event.fd().is_none());
    assert_eq!(event.no_fd_reason(), Some(FAN_NOFD));

    let number = 5;
    let event = FdEvent::new(FAN_OPEN, Some(number), 7);
    assert_eq!(event.fd_field(), number);
    assert!(event.fd().is_some());
    assert_eq!(event.no_fd_reason(), None);
}

#[test]
fn reusing_a_slot_closes_the_descriptor_the_previous_parse_adopted() {
    // A slot that held a descriptor gives it up when the next batch takes it.
    let raw = 11;
    let first = metadata(METADATA_SIZE as u32, FAN_OPEN, raw, 1);
    let mut events = Vec::new();
    assert!(parse_fd_events_into(&mut events, &first).is_complete());
    let mut adopted = Vec::new();
    events[0].adopt_reported(&mut adopted);
    assert!(events[0].fd().is_some());

    let second = metadata(METADATA_SIZE as u32, FAN_DELETE, FAN_NOFD, 2);
    assert!(parse_fd_events_into(&mut events, &second).is_complete());
    assert_eq!(events[0].mask(), FAN_DELETE, "the slot was rewritten");
    assert!(events[0].fd().is_none(), "and holds the descriptor no longer");
}

#[test]
fn a_path_is_the_descriptors_link() {
    let link = |fd: i32| -> Option<Vec<u8>> {
        if fd == 5 {
            Some(b"/srv/data".to_vec())
        } else {
            None
        }
    };
    assert_eq!(FdEvent::new(0, Some(5), 1).path(&link), Some(b"/srv/data".to_vec()));
    assert_eq!(FdEvent::new(0, Some(6), 1).path(&link), None, "no answer");
    let never = |_fd: i32| -> Option<Vec<u8>> { panic!("there is no descriptor to ask about") };
    assert_eq!(FdEvent::new(0, None, 1).path(&never), None);
}
