//! The pieces underneath: paths, words, handles, walks and stores.
use std::borrow::Cow;

use fanotify_fid::consts::{AT_EMPTY_PATH, AT_FDCWD, AT_HANDLE_FID, FAN_NOFD, FAN_OPEN};
use fanotify_fid::deleted::{carries_deleted_marker, ends_with_deleted_marker, without_marker};
use fanotify_fid::fd::{adopt_descriptors, parse_fd_events, read_fd_events, read_fd_events_reported};
use fanotify_fid::fid::{parse_fid_events, FidEvent, RenameSide};
use fanotify_fid::handle::{
    c_path, fsid_of_fd, fsid_of_path, handle_from_fd, handle_request_buffer, name_to_handle_at,
    open_by_handle_at, wanted_filesystem, Fsid, HandleCache, HandleError, Mounts, PathStore,
};
use fanotify_fid::parse::{EventStop, ParseReport};
use fanotify_fid::path::{components, joined_path, parent, paths_equal};
use fanotify_fid::text::push_decimal;
use fanotify_fid::wire::{is_little_endian, push_u16, push_u32, u16_at, u32_at, u64_at};
use fanotify_fid::FanotifyError;

#[test]
fn a_complete_walk_is_the_only_complete_report() {
    let complete = ParseReport {
        bytes_consumed: 24,
        bytes_left: 0,
        stop: EventStop::End,
    };
    assert!(complete.is_complete());

    for stop in [
        EventStop::ShortHeader,
        EventStop::BadEventLen(0),
        EventStop::BadMetadataLen,
        EventStop::UnknownVersion(0),
    ] {
        let report = ParseReport {
            bytes_consumed: 0,
            bytes_left: 24,
            stop,
        };
        assert!(!report.is_complete(), "{stop:?} must not read as complete");
    }
}

#[test]
fn words_are_in_the_order_of_the_machine() {
    assert_eq!(is_little_endian(), 1u16.to_ne_bytes()[0] == 1);
    assert_eq!(u16_at(&0x1234u16.to_ne_bytes(), 0), 0x1234);
    assert_eq!(u32_at(&0xdead_beefu32.to_ne_bytes(), 0), 0xdead_beef);
    assert_eq!(u64_at(&0x0102_0304_0506_0708u64.to_ne_bytes(), 0), 0x0102_0304_0506_0708);
    let mut out = Vec::new();
    push_u16(&mut out, 0xabcd);
    push_u32(&mut out, 0x0102_0304);
    assert_eq!(&out[..2], &0xabcdu16.to_ne_bytes());
    assert_eq!(&out[2..], &0x0102_0304u32.to_ne_bytes());
    // What was written reads back.
    assert_eq!(u16_at(&out, 0), 0xabcd);
    assert_eq!(u32_at(&out, 2), 0x0102_0304);
}

#[test]
fn numbers_are_written_in_decimal() {
    for n in [0i64, 7, 10, 42, 1234567890, -1, -100, i64::MAX, i64::MIN + 1] {
        let mut out = String::from("n=");
        push_decimal(&mut out, n);
        assert_eq!(out, format!("n={n}"));
    }
}

#[test]
fn a_parent_is_the_path_without_its_last_component() {
    let cases: &[(&str, Option<&str>)] = &[
        ("/a/b", Some("/a")),
        ("/a", Some("/")),
        ("/", None),
        ("", None),
        ("a", Some("")),
        ("a/b", Some("a")),
        ("a/b/", Some("a")),
        ("a//b", Some("a")),
        ("a/./b", Some("a")),
        ("a/b/.", Some("a")),
        ("./a", Some(".")),
        (".", Some("")),
        ("..", Some("")),
        ("a/..", Some("a")),
        ("//a", Some("/")),
        ("//", None),
        ("/.", None),
        (".a", Some("")),
        (".a/b", Some(".a")),
    ];
    for (path, expected) in cases {
        assert_eq!(
            parent(path.as_bytes()),
            expected.map(str::as_bytes),
            "{path:?}"
        );
        assert_eq!(
            std::path::Path::new(path).parent().map(|p| p.to_str().unwrap()),
            *expected,
            "{path:?}"
        );
        if let Some(dir) = parent(path.as_bytes()) {
            assert_eq!(components(dir).len() + 1, components(path.as_bytes()).len(), "{path:?}");
        }
    }
}

#[test]
fn paths_are_equal_by_their_components() {
    assert!(paths_equal(b"/a/b", b"/a//b/."));
    assert!(!paths_equal(b"/a/b", b"a/b"));
    assert!(!paths_equal(b"./a", b"a"));
    assert!(!paths_equal(b"a", b"a/b"));
    assert_eq!(components(b"/a/../b").len(), 4);
}

#[test]
fn joining_appends_one_component() {
    assert_eq!(joined_path(b"/a", b"b"), b"/a/b");
    assert_eq!(joined_path(b"/a/", b"b"), b"/a/b");
    assert_eq!(joined_path(b"", b"b"), b"b");
    assert_eq!(joined_path(b"/a", b"/b"), b"/b", "an absolute name stands for itself");
}

#[test]
fn a_marker_is_a_suffix_of_a_component() {
    assert!(ends_with_deleted_marker(b"x (deleted)"));
    assert!(!ends_with_deleted_marker(b" (deleted)x"));
    assert!(!ends_with_deleted_marker(b"(deleted)"));
    assert!(carries_deleted_marker(b"/a (deleted)/b"));
    assert!(!carries_deleted_marker(b"/a/b"));
    assert_eq!(without_marker(b"/a (deleted)/b (deleted)"), b"/a/b");
}

#[test]
fn a_c_path_ends_in_a_nul_and_holds_none() {
    assert_eq!(c_path(b"/a"), Ok(b"/a\0".to_vec()));
    assert_eq!(c_path(b"/a\0b"), Err(HandleError::InvalidInput));
}

/// A reply of `name_to_handle_at` with a handle of `used` bytes.
fn named_reply(request: Vec<u8>, used: u32) -> Vec<u8> {
    let mut buf = request;
    buf[..4].copy_from_slice(&used.to_ne_bytes());
    buf[8] = 0x5a;
    buf
}

#[test]
fn a_handle_is_as_long_as_the_kernel_says() {
    let request = handle_request_buffer();
    assert_eq!(request.len(), 136);
    assert_eq!(&request[..4], &128u32.to_ne_bytes());
    let handle = handle_from_fd(7, &|dir: i32, path: &[u8], request: Vec<u8>, flags: i32| {
        assert_eq!((dir, flags), (7, AT_EMPTY_PATH | AT_HANDLE_FID));
        assert_eq!(path, b"\0");
        Ok(named_reply(request, 4))
    })
    .unwrap();
    assert_eq!(handle.len(), 12);
    assert_eq!(handle[8], 0x5a);
    // A length beyond the capacity is clamped to it.
    let long = handle_from_fd(7, &|_d: i32, _p: &[u8], request: Vec<u8>, _f: i32| {
        Ok(named_reply(request, 4096))
    });
    assert_eq!(long.map(|handle| handle.len()), Ok(136));
}

#[test]
fn only_einval_is_retried_without_the_fid_flag() {
    let old_kernel = |dir: i32, path: &[u8], request: Vec<u8>, flags: i32| {
        assert_eq!(dir, AT_FDCWD);
        assert_eq!(path, b"/tmp\0");
        if flags & AT_HANDLE_FID != 0 {
            Err(libc::EINVAL)
        } else {
            Ok(named_reply(request, 8))
        }
    };
    assert_eq!(name_to_handle_at(b"/tmp", &old_kernel).map(|h| h.len()), Ok(16));
    let refused = |_d: i32, _p: &[u8], _r: Vec<u8>, flags: i32| -> Result<Vec<u8>, i32> {
        assert!(flags & AT_HANDLE_FID != 0);
        Err(libc::EOPNOTSUPP)
    };
    assert_eq!(
        name_to_handle_at(b"/tmp", &refused),
        Err(HandleError::Os(libc::EOPNOTSUPP))
    );
    assert_eq!(
        name_to_handle_at(b"/t\0mp", &refused),
        Err(HandleError::InvalidInput)
    );
}

#[test]
fn a_malformed_handle_never_reaches_the_kernel() {
    let call = |fd: i32, handle: &[u8]| -> Result<i32, i32> {
        assert!(handle.len() >= 8 && handle.len() <= 136);
        if fd == 3 {
            Ok(9)
        } else {
            Err(libc::ESTALE)
        }
    };
    assert_eq!(open_by_handle_at(3, &[0; 7], &call), Err(HandleError::InvalidInput));
    assert_eq!(open_by_handle_at(3, &[0; 137], &call), Err(HandleError::InvalidInput));
    assert_eq!(open_by_handle_at(3, &[0; 8], &call), Ok(9));
    assert_eq!(open_by_handle_at(4, &[0; 136], &call), Err(HandleError::Os(libc::ESTALE)));
}

#[test]
fn a_filesystem_is_asked_by_path_or_by_descriptor() {
    let by_path = |path: &[u8]| -> Result<Fsid, i32> {
        assert_eq!(path, b"/srv\0");
        Ok((1, 2))
    };
    assert_eq!(fsid_of_path(b"/srv", &by_path), Ok((1, 2)));
    assert_eq!(fsid_of_path(b"/\0", &by_path), Err(HandleError::InvalidInput));
    let by_fd = |fd: i32| -> Result<Fsid, i32> {
        if fd == 3 {
            Ok((3, 4))
        } else {
            Err(libc::EBADF)
        }
    };
    assert_eq!(fsid_of_fd(3, &by_fd), Ok((3, 4)));
    assert_eq!(fsid_of_fd(4, &by_fd), Err(HandleError::Os(libc::EBADF)));
}

#[test]
fn an_unknown_filesystem_is_no_evidence_against_a_descriptor() {
    assert!(wanted_filesystem(None, Some((1, 2))));
    assert!(wanted_filesystem(Some((1, 2)), None));
    assert!(wanted_filesystem(Some((0, 0)), Some((0, 0))));
    assert!(!wanted_filesystem(Some((0, 0)), Some((0, 1))));
    let mounts = Mounts::new().with_fd(3, Some((1, 2))).with_fd(4, None).with_fd(5, Some((9, 9)));
    assert_eq!(mounts.on_filesystem((1, 2)), [3, 4]);
    assert_eq!(mounts.matching((9, 9)), [4, 5]);
    assert_eq!(mounts.iter(), [3, 4, 5]);
    assert_eq!(mounts.len(), 3);
    assert!(!mounts.is_empty());
    assert_eq!(mounts.fsid_at(0), Some((1, 2)));
    assert_eq!(mounts.fsid_at(7), None);
    assert_eq!(mounts.index(2), 5);
    assert_eq!(mounts.candidates().len(), 3);
}

#[test]
fn a_store_lists_what_it_holds() {
    let mut store = HandleCache::new();
    PathStore::insert(&mut store, (1, 1), &[1], b"/one");
    PathStore::insert(&mut store, (2, 2), &[1], b"/two");
    PathStore::insert(&mut store, (1, 1), &[1], b"/again");
    let listed = store.iter();
    assert_eq!(listed.len(), 2);
    assert!(listed.contains(&((1, 1), &[1u8][..], &b"/again"[..])));
    let copy = store.clone();
    store.forget_filesystem((1, 1));
    assert_eq!(store.path_of((1, 1), &[1]), None);
    assert_eq!(store.len(), 1);
    store.clear();
    assert!(store.is_empty());
    assert_eq!(copy.len(), 2);
}

fn metadata(mask: u64, fd: i32) -> Vec<u8> {
    let mut out = Vec::new();
    out.extend_from_slice(&24u32.to_ne_bytes());
    out.push(3);
    out.push(0);
    out.extend_from_slice(&24u16.to_ne_bytes());
    out.extend_from_slice(&mask.to_ne_bytes());
    out.extend_from_slice(&fd.to_ne_bytes());
    out.extend_from_slice(&1i32.to_ne_bytes());
    out
}

#[test]
fn a_batch_of_descriptors_is_adopted_once_each() {
    let buf = [metadata(FAN_OPEN, 4), metadata(FAN_OPEN, 4), metadata(FAN_OPEN, FAN_NOFD)].concat();
    let (mut events, _) = parse_fd_events(&buf);
    adopt_descriptors(&mut events);
    assert_eq!(events[0].fd(), Some(4));
    assert_eq!(events[1].fd(), None);
    assert_eq!(events[2].fd(), None);
    let (events, report) = read_fd_events_reported(&buf);
    assert_eq!(events[0].fd(), Some(4));
    assert!(report.is_complete());
    assert!(matches!(
        read_fd_events(&[0u8; 30]),
        Err(FanotifyError::UnknownEventVersion(0))
    ));
}

#[test]
fn both_formats_cut_a_buffer_at_the_same_places() {
    let mut buf = [metadata(FAN_OPEN, 4), metadata(FAN_OPEN, 5)].concat();
    buf.extend_from_slice(b"tail");
    assert_eq!(parse_fid_events(&buf).unwrap().len(), parse_fd_events(&buf).0.len());
}

#[test]
fn a_rename_side_reads_as_bytes_and_as_text() {
    let side = RenameSide {
        handle: Cow::Borrowed(&[1u8, 2][..]),
        name: Cow::Borrowed(&b"caf\xc3\xa9"[..]),
    };
    assert_eq!(side.handle(), &[1, 2]);
    assert_eq!(side.name(), b"caf\xc3\xa9");
    assert_eq!(side.name_str(), Some("caf\u{e9}"));
    assert_eq!(side.name_os_string(), b"caf\xc3\xa9");
    let owned = side.clone().into_owned();
    assert_eq!(owned, side);
    let broken = RenameSide { handle: Cow::Borrowed(&[][..]), name: Cow::Borrowed(&b"\xff"[..]) };
    assert_eq!(broken.name_str(), None);
}

#[test]
fn a_clone_of_an_event_says_the_same() {
    let mut event = FidEvent::new();
    event.set_mask(FAN_OPEN);
    event.set_fsid((1, 2));
    event.set_self_handle(Cow::Owned(vec![1; 12]));
    event.set_access_range(1, 2);
    event.push_unknown_info_record(200, Cow::Owned(vec![1, 2, 3]));
    event.set_path(b"/a//b".to_vec());
    let mut copy = event.clone();
    assert_eq!(event, copy);
    copy.set_path(b"/a/b/".to_vec());
    assert_eq!(event, copy, "paths are equal by their components");
    copy.set_pid(9);
    assert_ne!(event, copy);
}
