//! The owned records.
use fanotify_fid::consts::{FAN_ALLOW, FAN_CREATE, FAN_DELETE, FAN_MODIFY, FAN_Q_OVERFLOW};
use fanotify_fid::types::{FanotifyResponse, FdEvent, FidEvent, HandleCache, PathStore, RenameSide};

#[test]
fn test_fid_event_methods() {
    let ev = FidEvent::new(FAN_CREATE | FAN_MODIFY, 42, b"/tmp/foo".to_vec(), None, None, None);
    assert!(!ev.is_overflow());
    let names: Vec<&str> = ev.event_names();
    assert_eq!(names, vec!["MODIFY", "CREATE"]);
}

#[test]
fn test_fid_event_overflow() {
    let ev = FidEvent::new(FAN_Q_OVERFLOW, 0, Vec::new(), None, None, None);
    assert!(ev.is_overflow());
}

#[test]
fn test_fd_event_auto_close_fd() {
    // An event without a descriptor has nothing to close.
    let ev = FdEvent::new(0, None, 0, Vec::new());
    drop(ev);
}

#[test]
fn test_fd_event_methods() {
    let ev = FdEvent::new(FAN_CREATE | FAN_MODIFY, None, 0, Vec::new());
    assert!(!ev.is_overflow());
    let names: Vec<&str> = ev.event_names();
    assert_eq!(names, vec!["MODIFY", "CREATE"]);
}

#[test]
fn test_fd_event_into_fd_none() {
    let ev = FdEvent::new(0, None, 0, Vec::new());
    assert!(ev.into_fd().is_none());
}

#[test]
fn test_fanotify_response_struct() {
    let resp = FanotifyResponse::new(5, FAN_ALLOW);
    assert_eq!(resp.fd(), 5);
    assert_eq!(resp.response(), 0x01);
}

#[test]
fn test_handle_cache_type() {
    let _cache: HandleCache = HandleCache::new();
}

#[test]
fn fid_event_equality_unchanged_for_constructor_built_events() {
    fn ev(mask: u64, path: &str, name: Option<&str>) -> FidEvent {
        FidEvent::new(
            mask,
            7,
            path.as_bytes().to_vec(),
            Some(vec![1, 2, 3]),
            name.map(str::to_string),
            None,
        )
    }

    assert_eq!(
        ev(FAN_CREATE, "/a/b", Some("b")),
        ev(FAN_CREATE, "/a/b", Some("b")),
        "identical events must compare equal"
    );
    assert_ne!(
        ev(FAN_CREATE, "/a/b", Some("b")),
        ev(FAN_DELETE, "/a/b", Some("b")),
        "a differing mask must compare unequal"
    );
    assert_ne!(
        ev(FAN_CREATE, "/a/b", Some("b")),
        ev(FAN_CREATE, "/a/c", Some("b")),
        "a differing path must compare unequal"
    );
    assert_ne!(
        ev(FAN_CREATE, "/a/b", Some("b")),
        ev(FAN_CREATE, "/a/b", Some("c")),
        "a differing filename must compare unequal"
    );
    assert_ne!(
        ev(FAN_CREATE, "/a/b", Some("b")),
        ev(FAN_CREATE, "/a/b", None),
        "a differing dfid_name must compare unequal"
    );
}

#[test]
fn fid_event_clone_is_still_available() {
    let original = FidEvent::new(FAN_CREATE, 1, b"/x".to_vec(), None, None, None);
    let copy = original.clone();
    assert_eq!(original, copy);
}

#[test]
fn an_owned_event_reports_what_it_was_given() {
    let mut ev = FidEvent::new(FAN_CREATE, 3, b"/d/e".to_vec(), None, None, None)
        .with_pidfd(9)
        .with_fs_error(-5, 2)
        .with_rename_source(vec![1], "from".to_string())
        .with_rename_target(vec![2], "to".to_string());
    ev.push_unknown_info_record(6, vec![7, 7]);
    ev.set_dfid_name(vec![3], "name".to_string());
    ev.set_self_handle(vec![4]);
    ev.set_path(b"/other".to_vec());

    assert_eq!(ev.mask(), FAN_CREATE);
    assert_eq!(ev.pid(), 3);
    assert_eq!(ev.path(), b"/other");
    assert_eq!(ev.pidfd(), Some(9));
    assert_eq!(ev.fs_error(), Some((-5, 2)));
    assert_eq!(
        ev.rename_source(),
        Some(&RenameSide { handle: vec![1], name: "from".to_string() })
    );
    assert_eq!(ev.rename_target().map(|side| side.name.as_str()), Some("to"));
    assert_eq!(ev.unknown_info_records(), &[(6, vec![7, 7])]);
    assert_eq!(ev.dfid_name_handle(), Some(&[3u8][..]));
    assert_eq!(ev.dfid_name_filename(), Some("name"));
    assert_eq!(ev.self_handle(), Some(&[4u8][..]));
    assert_eq!(ev.into_pidfd(), Some(9));
}

#[test]
fn events_with_the_same_path_components_are_equal() {
    let a = FidEvent::new(FAN_CREATE, 1, b"/x//y/".to_vec(), None, None, None);
    let b = FidEvent::new(FAN_CREATE, 1, b"/x/./y".to_vec(), None, None, None);
    assert_eq!(a, b);
    // Which descriptor names the process is not part of what an event says.
    assert_eq!(a.clone().with_pidfd(3), b.clone().with_pidfd(4));
    assert_ne!(a.clone().with_pidfd(3), b, "one names the process, the other does not");
    assert_eq!(a.with_pidfd(3), b.with_pidfd(3));
}

#[test]
fn a_map_keeps_the_first_answer_unless_it_is_replaced() {
    let mut cache = HandleCache::new();
    assert!(cache.is_empty());
    cache.or_insert(&[1], b"/first");
    cache.or_insert(&[1], b"/second");
    assert_eq!(cache.path_of(&[1]), Some(&b"/first"[..]));
    cache.insert(vec![1], b"/third".to_vec());
    cache.insert(vec![2], b"/two".to_vec());
    assert_eq!(cache.get(&[1]), Some(b"/third".to_vec()));
    assert_eq!(cache.get(&[3]), None);
    assert_eq!(cache.len(), 2);
    assert!(!cache.is_empty());
}
