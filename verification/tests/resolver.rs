//! Resolving handles and events to paths.
use std::borrow::Cow;

use fanotify_fid::consts::{FAN_CREATE, FAN_MNT_ATTACH, FAN_Q_OVERFLOW};
use fanotify_fid::fid::{FidEvent, RenameSide};
use fanotify_fid::handle::{
    fsid_of_fd, resolve_file_handle, resolve_file_handle_in, FileHandle, Fsid, HandleCache,
    HandleError, Mounts, NoCache, OpenReply, PathStore,
};
use fanotify_fid::prelude;
use fanotify_fid::resolve::{EventResolution, PathResolver};

/// The filesystem, where it must not be asked.
fn never(_fd: i32, _handle: &[u8]) -> OpenReply {
    panic!("the filesystem must not be asked")
}

/// A filesystem that knows the handle `[1; 8]` as `/real` and no other.
fn one_directory(_fd: i32, handle: &[u8]) -> OpenReply {
    if handle == [1; 8] {
        Ok(b"/real".to_vec())
    } else {
        Err(Some(libc::ESTALE))
    }
}

/// An event naming one entry in a directory, with no path resolved.
fn naming(fsid: Fsid, parent: &[u8], entry: &str) -> FidEvent<'static> {
    let mut event = FidEvent::new();
    event.set_mask(FAN_CREATE);
    event.set_fsid(fsid);
    event.set_dfid_name(
        Cow::Owned(parent.to_vec()),
        Cow::Owned(entry.as_bytes().to_vec()),
    );
    event
}

#[test]
fn a_known_handle_is_answered_without_asking_the_filesystem() {
    let fsid: Fsid = (0x1234, 0x5678);
    let handle: FileHandle = vec![9, 8, 7, 6, 5, 4, 3, 2];

    // Deliberately not a real handle on a real filesystem: if this resolves, it
    // resolved from the store, because nothing else could have answered it.
    let mut store = HandleCache::new();
    PathStore::insert(&mut store, fsid, &handle, b"/learned/elsewhere");

    let mut resolver = PathResolver::with_store(Mounts::new(), store);
    assert_eq!(
        resolver.resolve_handle(fsid, &handle, &never).unwrap(),
        b"/learned/elsewhere",
    );
    // A directory plus a name is the same lookup plus a join, so a store hit
    // must answer that too.
    assert_eq!(
        resolver.resolve_dir(fsid, &handle, b"child", &never).unwrap(),
        b"/learned/elsewhere/child",
    );
}

#[test]
fn with_the_syscall_refused_a_store_miss_is_exdev_rather_than_a_silent_none() {
    let mut resolver = PathResolver::new(Mounts::new());
    resolver.set_syscall_fallback(false);
    let err = resolver
        .resolve_handle((1, 2), &[0u8; 12], &never)
        .expect_err("nothing knows this handle");
    assert_eq!(err.raw_os_error(), Some(libc::EXDEV));
}

#[test]
fn knowledge_survives_across_calls_and_across_events() {
    let fsid: Fsid = (7, 7);
    let handle: FileHandle = vec![1, 1, 1, 1, 1, 1, 1, 1];
    let mut store = HandleCache::new();
    PathStore::insert(&mut store, fsid, &handle, b"/one/answer");

    let mut resolver = PathResolver::with_store(Mounts::new(), store);
    for _ in 0..3 {
        assert_eq!(
            resolver.resolve_handle(fsid, &handle, &never).unwrap(),
            b"/one/answer",
        );
    }
    // And a caller can read the store back out, which is what makes pre-seeding
    // and inspection possible.
    assert_eq!(
        PathStore::get(resolver.store_mut(), fsid, &handle),
        Some(b"/one/answer".to_vec()),
    );
}

#[test]
fn a_deleted_marker_is_reported_raw_and_stripped_only_on_request() {
    let mut event = FidEvent::new();
    event.set_path(b"/srv/data/report.pdf (deleted)".to_vec());

    // Raw: the kernel's answer is not cleaned up behind the caller.
    assert_eq!(event.path(), Some(&b"/srv/data/report.pdf (deleted)"[..]));
    assert!(event.is_deleted());
    assert_eq!(
        event.without_deleted_suffix(),
        Some(b"/srv/data/report.pdf".to_vec()),
    );
}

#[test]
fn a_name_that_merely_contains_the_marker_is_not_rewritten() {
    // A file legitimately named `notes (deleted)` reports the marker *twice*, so
    // stripping once yields its name.
    let mut event = FidEvent::new();
    event.set_path(b"/srv/data/notes (deleted) (deleted)".to_vec());
    assert!(event.is_deleted());
    assert_eq!(
        event.without_deleted_suffix(),
        Some(b"/srv/data/notes (deleted)".to_vec()),
    );
    assert_eq!(
        event.path(),
        Some(&b"/srv/data/notes (deleted) (deleted)"[..]),
    );
}

#[test]
fn a_path_without_the_marker_is_left_exactly_as_it_is() {
    let mut event = FidEvent::new();
    event.set_path(b"/srv/data/live.txt".to_vec());
    assert!(!event.is_deleted());
    assert_eq!(
        event.without_deleted_suffix(),
        Some(b"/srv/data/live.txt".to_vec()),
    );
}

#[test]
fn an_unresolved_event_claims_nothing_about_being_deleted() {
    let event = FidEvent::new();
    assert!(!event.has_path());
    assert!(!event.is_deleted());
    assert_eq!(event.without_deleted_suffix(), None);
}

#[test]
fn a_mount_learns_its_own_filesystem_from_the_kernel() {
    let kernel = |fd: i32| -> Result<Fsid, i32> { Ok((fd, 42)) };
    let mounts = Mounts::new().with_fd(3, fsid_of_fd(3, &kernel).ok());
    assert_eq!(mounts.len(), 1);
    assert!(!mounts.is_empty());

    let learned = mounts.fsid_at(0).expect("the kernel must answer");
    assert_eq!(learned, (3, 42));
    // And asking for it selects the descriptor, while another does not.
    assert_eq!(mounts.on_filesystem(learned).len(), 1);
    assert_eq!(mounts.on_filesystem((learned.0 ^ 1, learned.1)).len(), 0);
    assert_eq!(mounts.candidates().len(), 1);
}

#[test]
fn the_pre_probed_resolution_answers_for_the_fsids_it_was_given() {
    let claimed = (0xfeed, 7);
    let mut mounts = Mounts::new();
    mounts.add_with_fsid(3, claimed);
    let handle: FileHandle = vec![0u8; 12];

    // The fsid it was told: the descriptor is selected and the filesystem asked,
    // so the answer is the filesystem's, never `EXDEV`, which means "nothing was
    // tried".
    let tried =
        resolve_file_handle_in(mounts.candidates(), Some(claimed), &handle, &one_directory)
            .unwrap_err();
    assert_ne!(
        tried.raw_os_error(),
        Some(libc::EXDEV),
        "a matching fsid must reach the descriptor: {tried:?}",
    );
    assert_eq!(tried, HandleError::Os(libc::ESTALE));

    // A different fsid: nothing matches, so nothing is tried and the caller hears
    // the registration gap rather than an errno about the handle.
    let gap =
        resolve_file_handle_in(mounts.candidates(), Some((claimed.0 ^ 1, 0)), &handle, &never)
            .unwrap_err();
    assert_eq!(gap.raw_os_error(), Some(libc::EXDEV));

    // The shape check runs before any descriptor is used, on the same grounds.
    let short = resolve_file_handle_in(mounts.candidates(), Some(claimed), b"short", &never)
        .unwrap_err();
    assert_eq!(short, HandleError::InvalidInput);
}

#[test]
fn one_handles_bytes_on_two_filesystems_are_two_entries() {
    let handle: FileHandle = vec![4, 4, 4, 4, 4, 4, 4, 4];
    let mut store = HandleCache::new();
    PathStore::insert(&mut store, (1, 0), &handle, b"/fs-one/root");
    PathStore::insert(&mut store, (2, 0), &handle, b"/fs-two/root");

    assert_eq!(
        PathStore::get(&mut store, (1, 0), &handle),
        Some(b"/fs-one/root".to_vec()),
    );
    assert_eq!(
        PathStore::get(&mut store, (2, 0), &handle),
        Some(b"/fs-two/root".to_vec()),
    );
}

#[test]
fn an_event_that_names_no_object_is_not_reported_as_a_failure() {
    let mut resolver = PathResolver::new(Mounts::new());
    // An overflow event: a mask, no identity record, no fsid.
    let mut overflow = FidEvent::new();
    overflow.set_mask(FAN_Q_OVERFLOW);
    assert_eq!(
        resolver.resolve_event(&mut overflow, &never),
        EventResolution::NothingToResolve,
    );
    assert!(!overflow.has_path());

    // A mount event names a mount, not a file, so there is nothing to resolve.
    let mut mount_event = FidEvent::new();
    mount_event.set_mask(FAN_MNT_ATTACH);
    mount_event.set_mnt_id(42);
    assert_eq!(
        resolver.resolve_event(&mut mount_event, &never),
        EventResolution::NothingToResolve,
    );
}

#[test]
fn an_event_whose_answer_is_unavailable_is_distinguishable_from_one_with_nothing_to_ask() {
    let mut event = naming((3, 4), &[0u8; 12], "entry");
    // No mounts and no store: the identity is there, the answer is not.
    let mut resolver = PathResolver::new(Mounts::new());
    assert_eq!(
        resolver.resolve_event(&mut event, &never),
        EventResolution::Unresolvable,
    );
    assert!(!event.has_path());
    // The kernel's own facts are untouched by a failed resolution.
    assert!(event.dfid_name_handle().is_some());
    assert_eq!(event.dfid_name(), Some(&b"entry"[..]));
}

#[test]
fn an_event_that_already_carries_a_path_is_not_resolved_twice() {
    let mut event = naming((3, 4), &[0u8; 12], "entry");
    event.set_path(b"/already/known".to_vec());

    let mut resolver = PathResolver::new(Mounts::new());
    assert_eq!(
        resolver.resolve_event(&mut event, &never),
        EventResolution::AlreadyResolved,
    );
    assert_eq!(event.path(), Some(&b"/already/known"[..]));

    // And clearing it puts the event back to as-parsed, so the resolver will try
    // again rather than believing a stale answer.
    event.clear_path();
    assert!(!event.has_path());
    assert_eq!(
        resolver.resolve_event(&mut event, &never),
        EventResolution::Unresolvable,
    );
}

#[test]
fn a_resolution_failure_is_not_reported_as_an_io_error() {
    let mut resolver = PathResolver::new(Mounts::new());
    let err = resolver
        .resolve_handle((3, 4), &[0u8; 4], &never)
        .expect_err("four bytes is not a file handle");
    assert_eq!(err, HandleError::InvalidInput);
}

#[test]
fn a_directorys_own_entry_name_does_not_end_up_in_the_path() {
    let fsid: Fsid = (3, 4);
    let handle: FileHandle = vec![2, 2, 2, 2, 2, 2, 2, 2];
    let mut store = HandleCache::new();
    PathStore::insert(&mut store, fsid, &handle, b"/srv/data");
    let mut resolver = PathResolver::with_store(Mounts::new(), store);

    let path = resolver.resolve_dir(fsid, &handle, b".", &never).unwrap();
    assert_eq!(
        path, b"/srv/data",
        "the answer must be the same bytes, not merely the same components",
    );
}

#[test]
fn resolve_events_separates_resolving_from_re_seeing() {
    let fsid: Fsid = (5, 6);
    let known: FileHandle = vec![1, 2, 3, 4, 5, 6, 7, 8];
    let unknown: FileHandle = vec![8, 7, 6, 5, 4, 3, 2, 1];

    let mut store = HandleCache::new();
    PathStore::insert(&mut store, fsid, &known, b"/known");
    let mut resolver = PathResolver::with_store(Mounts::new(), store);
    resolver.set_syscall_fallback(false);

    let mut events = vec![
        naming(fsid, &known, "a"),
        naming(fsid, &known, "b"),
        naming(fsid, &unknown, "c"),
    ];

    let first = resolver.resolve_events(&mut events, &never);
    assert_eq!(first.resolved, 2, "two events name the known parent");
    assert_eq!(first.already_resolved, 0);
    assert_eq!(first.unresolved, 1, "the third handle is in no store");
    assert_eq!(first.passes, 1);

    // A second call did no work, and says so.
    let second = resolver.resolve_events(&mut events, &never);
    assert_eq!(second.resolved, 0, "nothing was left to resolve");
    assert_eq!(second.already_resolved, 2);
    assert_eq!(second.unresolved, 1);
    assert_eq!(
        second.passes, 1,
        "the confirming pass is the only one needed"
    );
}

#[test]
fn resolve_events_counts_a_pass_per_level_of_recovery() {
    let fsid: Fsid = (7, 8);
    let root: FileHandle = vec![1, 1, 1, 1, 1, 1, 1, 1];

    let mut store = HandleCache::new();
    PathStore::insert(&mut store, fsid, &root, b"/root");
    let mut resolver = PathResolver::with_store(Mounts::new(), store);
    resolver.set_syscall_fallback(false);

    let mut events = vec![naming(fsid, &root, "one")];
    let one = resolver.resolve_events(&mut events, &never);
    assert_eq!(one.resolved, 1);
    assert_eq!(one.passes, 1);
    // The parent handle is known, so it resolves from the store rather than from
    // the filesystem.
    assert_eq!(
        resolver.resolve_handle(fsid, &root, &never).unwrap(),
        b"/root",
    );
}

#[test]
fn forgetting_the_last_handle_of_a_filesystem_drops_its_level() {
    let fsid: Fsid = (1, 1);
    let other: Fsid = (2, 2);
    let one: FileHandle = vec![1; 8];
    let two: FileHandle = vec![2; 8];

    let mut store = HandleCache::new();
    PathStore::insert(&mut store, fsid, &one, b"/one");
    PathStore::insert(&mut store, fsid, &two, b"/two");
    PathStore::insert(&mut store, other, &one, b"/other-one");
    assert_eq!(store.len(), 3);
    assert_eq!(store.filesystems(), 2);

    PathStore::forget(&mut store, fsid, &one);
    assert_eq!(PathStore::get(&mut store, fsid, &one), None);
    assert_eq!(
        PathStore::get(&mut store, fsid, &two),
        Some(b"/two".to_vec()),
        "the other handle of the same filesystem must survive",
    );
    assert_eq!(
        PathStore::get(&mut store, other, &one),
        Some(b"/other-one".to_vec()),
        "the same bytes on another filesystem are a different entry",
    );
    assert_eq!(store.filesystems(), 2, "one handle left on each filesystem");

    PathStore::forget(&mut store, fsid, &two);
    assert_eq!(store.filesystems(), 1, "the emptied level is gone");
    assert!(!store.is_empty(), "the other filesystem is still known");

    PathStore::forget(&mut store, other, &one);
    assert!(store.is_empty(), "nothing is known now");
    assert_eq!(store.len(), 0);
    assert_eq!(store.filesystems(), 0);
}

#[test]
fn known_answers_without_spending_a_syscall_and_keeps_no_borrow() {
    let fsid: Fsid = (4, 2);
    let handle: FileHandle = vec![6; 8];
    let mut store = HandleCache::new();
    PathStore::insert(&mut store, fsid, &handle, b"/known/answer");
    let mut resolver = PathResolver::with_store(Mounts::new(), store);

    let known: Vec<u8> = resolver.known(fsid, &handle).unwrap();
    assert_eq!(known, b"/known/answer");
    assert_eq!(resolver.known(fsid, &[0u8; 8]), None);

    // The path is the caller's now, not a borrow of the store: invalidating the
    // entry does not reach it.
    PathStore::forget(resolver.store_mut(), fsid, &handle);
    assert_eq!(resolver.known(fsid, &handle), None);
    assert_eq!(known, b"/known/answer");

    // The default store's own accessor is a borrow, which needs no copy.
    PathStore::insert(resolver.store_mut(), fsid, &handle, b"/known/answer");
    let borrowed: &[u8] = resolver.store().path_of(fsid, &handle).unwrap();
    assert_eq!(borrowed, b"/known/answer");
    assert_eq!(resolver.store().path_of(fsid, &[0u8; 8]), None);
}

#[test]
fn a_learned_handle_costs_no_further_call() {
    let mut mounts = Mounts::new();
    mounts.add_with_fsid(3, (1, 2));
    let mut resolver = PathResolver::new(mounts);
    assert_eq!(
        resolver.resolve_handle_memo((1, 2), &[1; 8], &one_directory).unwrap(),
        b"/real"
    );
    resolver.set_syscall_fallback(false);
    assert_eq!(
        resolver.resolve_handle_memo((1, 2), &[1; 8], &never).unwrap(),
        b"/real"
    );
}

#[test]
fn a_batch_learns_its_parents() {
    let mut mounts = Mounts::new();
    mounts.add(3, None);
    let mut resolver = PathResolver::new(mounts);
    let mut events = vec![naming((1, 2), &[1; 8], "a"), naming((1, 2), &[1; 8], "b")];
    let outcome = resolver.resolve_events_memo(&mut events, &one_directory);
    assert_eq!(outcome.resolved + outcome.already_resolved, 2);
    assert_eq!(outcome.unresolved, 0);
    assert_eq!(events[0].path(), Some(&b"/real/a"[..]));
    assert_eq!(events[1].path(), Some(&b"/real/b"[..]));
    assert_eq!(resolver.known((1, 2), &[1; 8]), Some(b"/real".to_vec()));
}

#[test]
fn a_name_that_leaves_its_directory_is_refused() {
    let mut store = HandleCache::new();
    PathStore::insert(&mut store, (1, 2), &[1; 8], b"/dir");
    let mut resolver = PathResolver::with_store(Mounts::new(), store);
    for name in [&b".."[..], &b"a/b"[..], &b"/etc"[..]] {
        assert_eq!(
            resolver.resolve_dir((1, 2), &[1; 8], name, &never),
            Err(HandleError::InvalidInput),
            "{name:?}"
        );
    }
}

#[test]
fn the_target_of_a_rename_resolves_by_its_own_side() {
    let mut store = HandleCache::new();
    PathStore::insert(&mut store, (1, 2), &[1; 8], b"/dir");
    let mut resolver = PathResolver::with_store(Mounts::new(), store);
    let mut event = FidEvent::new();
    assert!(resolver.resolve_rename_target(&event, &never).is_none());
    event.set_fsid((1, 2));
    event.set_rename_target(RenameSide {
        handle: Cow::Owned(vec![1; 8]),
        name: Cow::Owned(b"new".to_vec()),
    });
    assert_eq!(
        resolver.resolve_rename_target(&event, &never),
        Some(Ok(b"/dir/new".to_vec()))
    );
}

#[test]
fn a_store_that_keeps_nothing_asks_every_time() {
    let mut mounts = Mounts::new();
    mounts.add(3, Some((1, 2)));
    let mut resolver = PathResolver::with_store(mounts, NoCache);
    assert_eq!(
        resolver.resolve_handle_memo((1, 2), &[1; 8], &one_directory).unwrap(),
        b"/real"
    );
    assert_eq!(resolver.known((1, 2), &[1; 8]), None);
}

#[test]
fn no_descriptors_at_all_is_einval() {
    let probe = |_fd: i32| -> Option<Fsid> { None };
    assert_eq!(
        resolve_file_handle(&[], None, &[1; 8], &probe, &never),
        Err(HandleError::Os(libc::EINVAL))
    );
    assert_eq!(
        resolve_file_handle(&[3, 4], Some((1, 2)), &[1; 8], &probe, &one_directory),
        Ok(b"/real".to_vec())
    );
    let silent = |_fd: i32, _handle: &[u8]| -> OpenReply { Err(None) };
    assert_eq!(
        resolve_file_handle(&[3], None, &[1; 8], &probe, &silent),
        Err(HandleError::Os(libc::EIO))
    );
}

#[test]
fn a_descriptor_is_probed_only_when_the_walk_gets_to_it() {
    let probe = |fd: i32| -> Option<Fsid> {
        match fd {
            3 => Some((9, 9)),
            4 => Some((1, 2)),
            _ => panic!("the path was already found"),
        }
    };
    let open = |fd: i32, _handle: &[u8]| -> OpenReply {
        assert_eq!(fd, 4, "the other one is on another filesystem");
        Ok(b"/real".to_vec())
    };
    assert_eq!(
        resolve_file_handle(&[3, 4, 5], Some((1, 2)), &[1; 8], &probe, &open),
        Ok(b"/real".to_vec())
    );
    assert_eq!(
        resolve_file_handle(&[3], Some((1, 2)), &[1; 8], &probe, &never),
        Err(HandleError::Os(libc::EXDEV))
    );
    // A malformed handle is refused before any descriptor is used.
    let unasked = |_fd: i32| -> Option<Fsid> { panic!("no descriptor may be used") };
    assert_eq!(
        resolve_file_handle(&[3], None, b"short", &unasked, &never),
        Err(HandleError::InvalidInput)
    );
}

#[test]
fn the_resolver_and_its_store_are_reachable_through_the_prelude() {
    let mut store = prelude::HandleCache::new();
    prelude::PathStore::insert(&mut store, (1, 2), &[0u8; 12], b"/via/store");

    let mut resolver = prelude::PathResolver::with_store(prelude::Mounts::new(), store);
    let path = resolver.resolve_handle((1, 2), &[0u8; 12], &never).unwrap();
    assert_eq!(path, b"/via/store");
    let _ = prelude::EventResolution::Resolved;

    // Refusing the call is what makes a store miss EXDEV.
    resolver.set_syscall_fallback(false);
    assert_eq!(
        resolver
            .resolve_handle((9, 9), &[0u8; 12], &never)
            .unwrap_err()
            .raw_os_error(),
        Some(libc::EXDEV),
    );
}

#[test]
fn a_group_is_constructed_and_marked_without_naming_the_crate_root() {
    let fan = prelude::Fanotify::new(
        prelude::FAN_CLASS_NOTIF
            | prelude::FAN_CLOEXEC
            | prelude::FAN_NONBLOCK
            | prelude::FAN_REPORT_FID
            | prelude::FAN_REPORT_DIR_FID
            | prelude::FAN_REPORT_NAME,
        &|_flags: u32, _event_f_flags: u32| Ok(7),
    )
    .unwrap();
    // A filesystem that holds one directory.
    let mark = |_group: i32, _flags: u32, _mask: u64, _dir: i32, path: &[u8]| {
        if path == b"/tmp/dir\0" {
            Ok(0)
        } else {
            Err(libc::ENOENT)
        }
    };
    fan.mark(prelude::FAN_MARK_ADD, prelude::FAN_CREATE, b"/tmp/dir", &mark).unwrap();

    // A failure really is this crate's error type through the prelude, and
    // its errno is reachable without matching on a variant path.
    let err = fan
        .mark(prelude::FAN_MARK_ADD, prelude::FAN_CREATE, b"/definitely/not/here", &mark)
        .expect_err("marking a missing path must fail");
    assert_eq!(err.errno(), Some(libc::ENOENT));
    let _: prelude::FanotifyError = err;
    let _: prelude::Result<()> = Ok(());
}

#[test]
fn a_cleared_cache_knows_nothing() {
    let mut store = HandleCache::new();
    store.insert((1, 2), &[1; 8], b"/a");
    store.insert((3, 4), &[1; 8], b"/b");
    store.clear();
    assert!(store.is_empty());
    assert_eq!(store.filesystems(), 0);
    store.insert((1, 2), &[1; 8], b"/c");
    assert_eq!(store.path_of((1, 2), &[1; 8]), Some(&b"/c"[..]));
}
