//! Reading batches of owned records.
use fanotify_fid::consts::{
    FAN_CREATE, FAN_DELETE, FAN_DELETE_SELF, FAN_EVENT_INFO_TYPE_DFID_NAME, FAN_MODIFY,
    FAN_Q_OVERFLOW,
};
use fanotify_fid::handle::Mounts;
use fanotify_fid::read::{
    fid_read_size, learn, legacy_buffer_events, owned_descriptors, parse_legacy, read_fid_events,
    read_legacy,
    recover_paths, resolve_with_cache, set_legacy_buffer_events, write_response, LegacyBuffer,
    LegacyConfig,
};
use fanotify_fid::resolve::PathResolver;
use fanotify_fid::types::{FanMetadata, FanotifyResponse, FidEvent, HandleCache, LegacyEvent};
use fanotify_fid::FanotifyError;

#[test]
fn test_buffer_config_default() {
    let config = LegacyConfig::default();
    assert_eq!(legacy_buffer_events(&config), 200);
}

#[test]
fn test_buffer_config_set_and_get() {
    let mut config = LegacyConfig::default();
    set_legacy_buffer_events(&mut config, 50);
    assert_eq!(legacy_buffer_events(&config), 50);
    set_legacy_buffer_events(&mut config, 200); // reset
}

#[test]
fn test_buffer_config_min_one() {
    let mut config = LegacyConfig::default();
    set_legacy_buffer_events(&mut config, 0);
    assert_eq!(legacy_buffer_events(&config), 1);
    set_legacy_buffer_events(&mut config, 200); // reset
}

/// The path of a descriptor.
fn link_of(fd: i32) -> Vec<u8> {
    format!("/open/{fd}").into_bytes()
}

#[test]
fn test_buffer_config_large_spills_to_heap() {
    // 1000 events = 24000 bytes, way beyond the inline 4800
    let mut config = LegacyConfig::default();
    set_legacy_buffer_events(&mut config, 1000);
    assert_eq!(legacy_buffer_events(&config), 1000);
    let buffer = LegacyBuffer::new(&config);
    assert_eq!(buffer.bytes(), vec![0u8; 24000]);
    // A read of nothing with a large buffer still works (returns empty)
    let result = read_legacy(Ok(0), &buffer, &link_of);
    assert!(result.is_ok());
    assert!(result.unwrap().is_empty());
}

fn build_legacy_raw(mask: u64, pid: i32, fd: i32, event_len: u32) -> Vec<u8> {
    let mut buf = Vec::with_capacity(24);
    buf.extend_from_slice(&event_len.to_ne_bytes());
    buf.push(3); // vers = FANOTIFY_METADATA_VERSION
    buf.push(0); // reserved
    buf.extend_from_slice(&24u16.to_ne_bytes()); // metadata_len
    buf.extend_from_slice(&mask.to_ne_bytes());
    buf.extend_from_slice(&fd.to_ne_bytes());
    buf.extend_from_slice(&pid.to_ne_bytes());
    buf
}

#[test]
fn test_legacy_parse_single_event() {
    let raw = build_legacy_raw(0x0000_0001, 1234, 5, 24);
    let meta = FanMetadata::read_at(&raw, 0);
    assert_eq!(meta.mask, 0x0000_0001);
    assert_eq!(meta.pid, 1234);
    assert_eq!(meta.fd, 5);
    assert_eq!(meta.event_len, 24);
    assert_eq!(meta.vers, 3);
    assert_eq!(meta.reserved, 0);
    assert_eq!(meta.metadata_len, 24);
}

#[test]
fn test_legacy_dev_null_read_empty() {
    // A read that gives EOF (0 bytes) is no events.
    let buffer = LegacyBuffer::new(&LegacyConfig::default());
    let result = read_legacy(Ok(0), &buffer, &link_of);
    assert!(result.is_ok());
    assert!(result.unwrap().is_empty());
}

#[test]
fn test_legacy_parse_multiple_raw_events() {
    let ev1 = build_legacy_raw(0x0000_0001, 10, 3, 24);
    let ev2 = build_legacy_raw(0x0000_0002, 20, 4, 30); // larger event_len
    let combined = [ev1, ev2].concat();

    // Manually parse: event 1
    let meta1 = FanMetadata::read_at(&combined, 0);
    assert_eq!(meta1.mask, 0x0000_0001);
    assert_eq!(meta1.pid, 10);
    // event 2 offset
    let off2 = meta1.event_len as usize;
    let meta2 = FanMetadata::read_at(&combined, off2);
    assert_eq!(meta2.mask, 0x0000_0002);
    assert_eq!(meta2.pid, 20);

    // The second event is cut short, so the walk ends before it.
    assert_eq!(parse_legacy(&combined, &link_of).len(), 1);
}

#[test]
fn test_legacy_overflow_flag() {
    let ev = LegacyEvent { mask: FAN_Q_OVERFLOW, fd: -1, pid: 0, path: Vec::new() };
    assert!(ev.is_overflow());
}

#[test]
fn test_legacy_event_names() {
    let ev = LegacyEvent { mask: FAN_CREATE | FAN_MODIFY, fd: -1, pid: 0, path: Vec::new() };
    let names = ev.event_names();
    assert_eq!(names, vec!["MODIFY", "CREATE"]);
}

#[test]
fn test_legacy_drop_closes_fd() {
    // An event without a descriptor is dropped like any other.
    let ev = LegacyEvent {
        mask: 0,
        fd: -1, // FAN_NOFD
        pid: 0,
        path: Vec::new(),
    };
    drop(ev); // should not panic or crash
}

#[test]
fn test_fanotify_response_size() {
    assert_eq!(std::mem::size_of::<libc::fanotify_response>(), 8);
}

#[test]
fn a_read_fills_the_buffer_that_the_walk_reads() {
    let mut buffer = LegacyBuffer::new(&LegacyConfig::default());
    let batch = [
        build_legacy_raw(FAN_CREATE, 7, 3, 24),
        build_legacy_raw(FAN_DELETE, 8, -1, 24),
    ]
    .concat();
    buffer.bytes_mut()[..48].copy_from_slice(&batch);
    let events = read_legacy(Ok(48), &buffer, &link_of).unwrap();
    assert_eq!(events.len(), 2);
    assert_eq!(events[0].mask, FAN_CREATE);
    assert_eq!(events[0].fd, 3);
    assert_eq!(events[0].pid, 7);
    assert_eq!(events[0].path, b"/open/3");
    assert_eq!(events[1].fd, -1);
    assert_eq!(events[1].path, b"", "no descriptor, no path");

    // Only what was read counts.
    assert_eq!(read_legacy(Ok(47), &buffer, &link_of).unwrap().len(), 1);
    assert!(matches!(
        read_legacy(Err(libc::EAGAIN), &buffer, &link_of),
        Err(FanotifyError::Read(libc::EAGAIN))
    ));
}

#[test]
fn a_plain_answer_is_its_descriptor_and_its_word() {
    let response = FanotifyResponse::new(5, 1);
    let ok = write_response(&response, &|body: &[u8]| {
        assert_eq!(&body[..4], &5i32.to_ne_bytes());
        assert_eq!(&body[4..], &1u32.to_ne_bytes());
        Ok(body.len())
    });
    assert_eq!(ok, Ok(()));
    assert_eq!(
        write_response(&response, &|_body: &[u8]| Err(libc::ENOENT)),
        Err(FanotifyError::Read(libc::ENOENT))
    );
}

/// An event about an entry of a directory.
fn entry(path: &str, parent: &[u8], name: &str, own: Option<&[u8]>) -> FidEvent {
    FidEvent::new(
        FAN_DELETE,
        1,
        path.as_bytes().to_vec(),
        Some(parent.to_vec()),
        Some(name.to_string()),
        own.map(<[u8]>::to_vec),
    )
}

#[test]
fn a_known_object_gives_a_deleted_one_its_path() {
    let mut cache = HandleCache::new();
    cache.or_insert(&[9], b"/tmp/sub");
    let mut events = vec![FidEvent::new(FAN_DELETE_SELF, 1, Vec::new(), None, None, Some(vec![9]))];
    assert!(resolve_with_cache(&mut events, &cache));
    assert_eq!(events[0].path(), b"/tmp/sub");
    assert!(!resolve_with_cache(&mut events, &cache), "it has its path now");
}

#[test]
fn an_event_with_a_path_teaches_its_directory() {
    let mut cache = HandleCache::new();
    learn(
        &mut cache,
        &vec![
            entry("/a/b", &[1], "b", Some(&[2])),
            entry("/other/dir", &[3], "", None),
            entry("", &[4], "x", Some(&[5])),
            entry("/", &[6], "x", None),
        ],
    );
    assert_eq!(cache.path_of(&[1]), Some(&b"/a"[..]));
    assert_eq!(cache.path_of(&[2]), Some(&b"/a/b"[..]));
    assert_eq!(cache.path_of(&[3]), Some(&b"/other/dir"[..]), "no name: the directory itself");
    assert_eq!(cache.path_of(&[4]), None, "an event without a path teaches nothing");
    assert_eq!(cache.path_of(&[5]), None);
    assert_eq!(cache.path_of(&[6]), None, "the root has no parent");
}

#[test]
fn nested_deletions_are_recovered_level_by_level() {
    // Each event's own handle is the next one's parent, and only the first
    // parent is known.
    let mut cache = HandleCache::new();
    cache.or_insert(&[0], b"/top");
    let mut events: Vec<FidEvent> =
        (0u8..4).map(|i| entry("", &[i], "d", Some(&[i + 1]))).collect();
    recover_paths(&mut events, &mut cache);
    assert_eq!(events[0].path(), b"/top/d");
    assert_eq!(events[3].path(), b"/top/d/d/d/d");
    assert_eq!(cache.path_of(&[4]), Some(&b"/top/d/d/d/d"[..]));
}

#[test]
fn ten_rounds_are_the_most_a_batch_gets() {
    let mut cache = HandleCache::new();
    cache.or_insert(&[0], b"/t");
    // In reverse, so that each round recovers one level only.
    let mut events: Vec<FidEvent> =
        (0u8..12).rev().map(|i| entry("", &[i], "d", Some(&[i + 1]))).collect();
    recover_paths(&mut events, &mut cache);
    let recovered = events.iter().filter(|event| !event.path().is_empty()).count();
    assert_eq!(recovered, 10);
}

/// A FID event about an entry `name` of the directory with this handle.
fn raw_entry(mask: u64, handle: &[u8], name: &str) -> Vec<u8> {
    let mut payload = Vec::new();
    payload.extend_from_slice(&1i32.to_ne_bytes()); // fsid
    payload.extend_from_slice(&2i32.to_ne_bytes());
    payload.extend_from_slice(&(handle.len() as u32).to_ne_bytes());
    payload.extend_from_slice(&1i32.to_ne_bytes());
    payload.extend_from_slice(handle);
    payload.extend_from_slice(name.as_bytes());
    payload.push(0);
    let mut buf = build_legacy_raw(mask, 77, -1, 28 + payload.len() as u32);
    buf.push(FAN_EVENT_INFO_TYPE_DFID_NAME);
    buf.push(0);
    buf.extend_from_slice(&(4 + payload.len() as u16).to_ne_bytes());
    buf.extend_from_slice(&payload);
    buf
}

/// The handle of a directory, as an event carries it.
fn handle_bytes(handle: &[u8]) -> Vec<u8> {
    let mut bytes = (handle.len() as u32).to_ne_bytes().to_vec();
    bytes.extend_from_slice(&1i32.to_ne_bytes());
    bytes.extend_from_slice(handle);
    bytes
}

#[test]
fn a_fid_read_reports_its_errno_and_parses_what_was_read() {
    // Descriptor 4 is on the events' filesystem, and knows one directory.
    let live = handle_bytes(b"live");
    let open = |fd: i32, bytes: &[u8]| {
        assert_eq!(fd, 4);
        if bytes == live.as_slice() {
            Ok(b"/srv/data".to_vec())
        } else {
            Err(Some(libc::ESTALE))
        }
    };
    let mut mounts = Mounts::new();
    mounts.add(4, Some((1, 2)));
    let mut resolver = PathResolver::new(mounts);

    assert!(matches!(
        read_fid_events(Err(libc::EBADF), &[], &mut resolver, &open, None),
        Err(FanotifyError::Read(libc::EBADF))
    ));
    let first = raw_entry(FAN_CREATE, b"live", "one");
    let batch = [first.clone(), raw_entry(FAN_DELETE, b"gone", "two")].concat();
    assert!(read_fid_events(Ok(0), &batch, &mut resolver, &open, None).unwrap().is_empty());

    let events = read_fid_events(Ok(batch.len()), &batch, &mut resolver, &open, None).unwrap();
    assert_eq!(events.len(), 2);
    assert_eq!(events[0].mask(), FAN_CREATE);
    assert_eq!(events[0].pid(), 77);
    assert_eq!(events[0].path(), b"/srv/data/one");
    assert_eq!(events[0].dfid_name_filename(), Some("one"));
    assert_eq!(events[1].path(), b"", "the directory is gone");

    // Only what was read counts.
    let events = read_fid_events(Ok(first.len()), &batch, &mut resolver, &open, None).unwrap();
    assert_eq!(events.len(), 1);

    // A map that knows the deleted directory gives its entry a path, and learns
    // the other one.
    let mut cache = HandleCache::new();
    cache.or_insert(&handle_bytes(b"gone"), b"/srv/old");
    let events =
        read_fid_events(Ok(batch.len()), &batch, &mut resolver, &open, Some(&mut cache)).unwrap();
    assert_eq!(events[1].path(), b"/srv/old/two");
    assert_eq!(cache.path_of(&live), Some(&b"/srv/data"[..]));
}

#[test]
fn a_read_of_records_asks_for_64_kib_at_least() {
    assert_eq!(fid_read_size(0), 65536);
    assert_eq!(fid_read_size(65535), 65536);
    assert_eq!(fid_read_size(65536), 65536);
    assert_eq!(fid_read_size(256 * 1024), 256 * 1024);
}

#[test]
fn a_legacy_descriptor_has_one_owner() {
    let batch = [
        build_legacy_raw(FAN_CREATE, 1, 3, 24),
        build_legacy_raw(FAN_CREATE, 2, 3, 24),
        build_legacy_raw(FAN_CREATE, 3, -1, 24),
        build_legacy_raw(FAN_CREATE, 4, 0, 24),
    ]
    .concat();
    let events = parse_legacy(&batch, &link_of);
    assert_eq!(owned_descriptors(&events), [Some(3), None, None, Some(0)]);
}
