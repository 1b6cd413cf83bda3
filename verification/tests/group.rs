//! Groups and their readers.
use std::borrow::Cow;

use fanotify_fid::consts::{
    AT_FDCWD, FAN_CLASS_NOTIF, FAN_CLOEXEC, FAN_CREATE, FAN_DELETE, FAN_EVENT_INFO_TYPE_PIDFD,
    FAN_MARK_ADD, FAN_MARK_FLUSH, FAN_MARK_MOUNT, FAN_MARK_ONLYDIR, FAN_NOFD, FAN_NONBLOCK,
    FAN_OPEN, FAN_REPORT_FID,
};
use fanotify_fid::fid::Pidfd;
use fanotify_fid::parse::{EventStop, METADATA_SIZE};
use fanotify_fid::response::FanotifyResponse;
use fanotify_fid::sys::{
    fanotify_init, fanotify_mark, fanotify_mark_by_fd, poll_timeout, read_events, read_size,
    read_step, ReadStep,
};
use fanotify_fid::{EventReader, Fanotify, FanotifyError, FdEventReader};

fn metadata(event_len: u32, mask: u64, fd: i32) -> Vec<u8> {
    let mut out = Vec::new();
    out.extend_from_slice(&event_len.to_ne_bytes());
    out.push(3);
    out.push(0);
    out.extend_from_slice(&24u16.to_ne_bytes());
    out.extend_from_slice(&mask.to_ne_bytes());
    out.extend_from_slice(&fd.to_ne_bytes());
    out.extend_from_slice(&1i32.to_ne_bytes());
    out
}

/// An event with a pidfd record.
fn with_pidfd(pidfd: i32) -> Vec<u8> {
    let mut out = metadata(32, FAN_OPEN, FAN_NOFD);
    out.push(FAN_EVENT_INFO_TYPE_PIDFD);
    out.push(0);
    out.extend_from_slice(&8u16.to_ne_bytes());
    out.extend_from_slice(&pidfd.to_ne_bytes());
    out
}

#[test]
fn a_group_is_created_with_the_flags_it_is_given() {
    let fan = Fanotify::init(0x0200, 3, &|flags: u32, event_f_flags: u32| {
        assert_eq!((flags, event_f_flags), (0x0200, 3));
        Ok(7)
    })
    .unwrap();
    assert_eq!(fan.as_fd(), 7);
    assert_eq!(fan.into_inner(), 7);
    let fan = Fanotify::new(1, &|_flags: u32, event_f_flags: u32| {
        assert_eq!(event_f_flags, 0);
        Ok(8)
    });
    assert_eq!(fan, Ok(Fanotify::from_fd(8)));
    assert_eq!(
        fanotify_init(1, 0, &|_flags: u32, _event_f_flags: u32| Err(libc::EPERM)),
        Err(FanotifyError::Init(libc::EPERM))
    );
}

#[test]
fn a_mark_passes_its_arguments_through() {
    let fan = Fanotify::from_fd(7);
    let r = fan.mark(
        FAN_MARK_ADD,
        FAN_CREATE,
        b"/srv",
        &|group: i32, flags: u32, mask: u64, dir: i32, path: &[u8]| {
            assert_eq!((group, flags, mask, dir), (7, FAN_MARK_ADD, FAN_CREATE, AT_FDCWD));
            assert_eq!(path, b"/srv\0");
            Ok(0)
        },
    );
    assert_eq!(r, Ok(()));
    let r = fan.mark_at(
        9,
        FAN_MARK_ADD,
        FAN_OPEN,
        b".",
        &|_group: i32, _flags: u32, _mask: u64, dir: i32, path: &[u8]| {
            assert_eq!(dir, 9);
            assert_eq!(path, b".\0");
            Err(libc::ENOENT)
        },
    );
    assert_eq!(r, Err(FanotifyError::Mark(libc::ENOENT)));
    let r = fan.mark_fd(5, FAN_MARK_ADD, FAN_OPEN, &|group: i32, _f: u32, _m: u64, fd: i32| {
        assert_eq!((group, fd), (7, 5));
        Err(libc::EBADF)
    });
    assert_eq!(r, Err(FanotifyError::Mark(libc::EBADF)));
    assert_eq!(
        fanotify_mark_by_fd(7, 1, 2, 3, &|_g: i32, _f: u32, _m: u64, _fd: i32| Ok(0)),
        Ok(())
    );
    let r = fan.mark_mount(
        FAN_OPEN,
        b"/mnt",
        &|_group: i32, flags: u32, _mask: u64, _dir: i32, _path: &[u8]| {
            assert_eq!(flags, FAN_MARK_ADD | FAN_MARK_MOUNT);
            Ok(0)
        },
    );
    assert_eq!(r, Ok(()));
}

#[test]
fn a_path_with_an_interior_nul_is_refused_before_the_syscall() {
    // A path containing NUL cannot be a path, so this is a caller error and is
    // reported as EINVAL without ever reaching the kernel.
    let never = |_group: i32, _flags: u32, _mask: u64, _dir: i32, _path: &[u8]| -> Result<i32, i32> {
        panic!("the kernel must not be asked")
    };
    let err = Fanotify::from_fd(7)
        .mark(FAN_MARK_ADD, FAN_OPEN, b"/tmp/has\0nul", &never)
        .expect_err("a path with an interior NUL must be refused");
    assert_eq!(err.errno(), Some(libc::EINVAL));
    assert_eq!(
        fanotify_mark(7, FAN_MARK_ADD, FAN_OPEN, AT_FDCWD, b"a\0b", &never),
        Err(FanotifyError::Mark(libc::EINVAL))
    );
}

#[test]
fn a_flush_needs_neither_path_nor_mask() {
    let r = Fanotify::from_fd(7).flush_marks(
        &|group: i32, flags: u32, mask: u64, dir: i32, path: &[u8]| {
            assert_eq!((group, flags, mask, dir), (7, FAN_MARK_FLUSH, 0, AT_FDCWD));
            assert_eq!(path, b"/\0");
            Ok(0)
        },
    );
    assert_eq!(r, Ok(()));
}

#[test]
fn a_signal_is_retried_and_everything_else_reported() {
    assert_eq!(read_step(Err(libc::EINTR)), ReadStep::Retry);
    assert_eq!(
        read_step(Err(libc::EAGAIN)),
        ReadStep::Failed(FanotifyError::Read(libc::EAGAIN))
    );
    assert_eq!(read_step(Ok(24)), ReadStep::Done(24));
}

#[test]
fn a_failed_read_empties_the_buffer() {
    let mut buf = vec![1u8, 2, 3];
    assert_eq!(read_events(&mut buf, Ok(2)), Ok(()));
    assert_eq!(buf, [1, 2]);
    assert_eq!(
        read_events(&mut buf, Err(FanotifyError::Read(libc::EAGAIN))),
        Err(FanotifyError::Read(libc::EAGAIN))
    );
    assert!(buf.is_empty());
    assert_eq!(read_size(0), 64 * 1024);
    assert_eq!(read_size(100), 100);
}

#[test]
fn a_wait_saturates_rather_than_wraps() {
    assert_eq!(poll_timeout(None), -1);
    assert_eq!(poll_timeout(Some(0)), 0);
    assert_eq!(poll_timeout(Some(250)), 250);
    assert_eq!(poll_timeout(Some(u128::MAX)), i32::MAX);
    assert_eq!(poll_timeout(Some(i32::MAX as u128 + 1)), i32::MAX);
    let fan = Fanotify::from_fd(7);
    let ready = |fd: i32, timeout: i32| -> Result<i32, i32> {
        assert_eq!((fd, timeout), (7, 50));
        Ok(1)
    };
    assert_eq!(fan.wait_readable(Some(50), &ready), Ok(true));
    assert_eq!(fan.wait_readable(None, &|_fd: i32, _timeout: i32| Ok(0)), Ok(false));
    assert_eq!(
        fan.wait_readable(None, &|_fd: i32, _timeout: i32| Err(libc::EINTR)),
        Err(FanotifyError::Read(libc::EINTR))
    );
}

#[test]
fn a_read_adopts_each_pidfd_once() {
    let fan = Fanotify::from_fd(7);
    let mut buf = [with_pidfd(11), with_pidfd(11), with_pidfd(-1)].concat();
    let len = buf.len();
    let events = fan.read_events(&mut buf, Ok(len)).unwrap();
    assert!(matches!(events[0].pidfd(), Pidfd::Fd(11)));
    assert!(matches!(events[1].pidfd(), Pidfd::Unavailable(11)));
    assert!(matches!(events[2].pidfd(), Pidfd::Unavailable(-1)));
}

#[test]
fn a_read_reports_an_unknown_version_or_raises_it() {
    let fan = Fanotify::from_fd(7);
    let mut buf = metadata(24, FAN_OPEN, FAN_NOFD);
    buf[4] = 9;
    assert!(matches!(
        fan.read_events(&mut buf.clone(), Ok(24)),
        Err(FanotifyError::UnknownEventVersion(9))
    ));
    let (events, report) = fan.read_events_reported(&mut buf, Ok(24)).unwrap();
    assert!(events.is_empty());
    assert_eq!(report.stop, EventStop::UnknownVersion(9));
    // An empty read is complete.
    let (events, report) = fan.read_events_reported(&mut buf, Ok(0)).unwrap();
    assert!(events.is_empty());
    assert!(report.is_complete());
    assert_eq!((report.bytes_consumed, report.bytes_left), (0, 0));
}

#[test]
fn an_answer_goes_out_as_it_is_encoded() {
    let fan = Fanotify::from_fd(7);
    let r = fan.send_response(&FanotifyResponse::allow(5), &|body: &[u8]| {
        assert_eq!(body.len(), 8);
        Ok(8)
    });
    assert_eq!(r, Ok(()));
}

#[test]
fn a_reader_holds_one_batch_at_a_time() {
    let mut reader = EventReader::new(256);
    assert_eq!(reader.capacity(), 256);
    assert_eq!(reader.raw_bytes(), b"");

    let batch = [metadata(24, FAN_CREATE, FAN_NOFD), with_pidfd(12)].concat();
    reader.buffer_mut()[..batch.len()].copy_from_slice(&batch);
    let mut events = reader.read(Ok(batch.len())).unwrap();
    assert_eq!(events.len(), 2);
    assert_eq!(events[0].mask(), FAN_CREATE);
    assert!(matches!(events[1].pidfd(), Pidfd::Fd(12)));
    // The events may be changed in place.
    events[0].set_path(b"/x".to_vec());
    assert_eq!(reader.raw_bytes(), &batch[..]);
    assert_eq!(reader.event_capacity(), 2);

    // A read that fails leaves nothing of the batch before.
    let _ = reader.buffer_mut();
    assert!(matches!(
        reader.read(Err(FanotifyError::Read(libc::EAGAIN))),
        Err(FanotifyError::Read(libc::EAGAIN))
    ));
    assert_eq!(reader.raw_bytes(), b"");

    // Nor does one that was only begun.
    reader.buffer_mut()[..24].copy_from_slice(&metadata(24, FAN_DELETE, FAN_NOFD));
    assert_eq!(reader.raw_bytes(), b"");
    let (events, report) = reader.read_reported(Ok(24)).unwrap();
    assert_eq!(events[0].mask(), FAN_DELETE);
    assert!(events[0].path().is_none());
    assert!(report.is_complete());
}

#[test]
fn a_reader_keeps_the_bytes_of_an_unknown_version() {
    let mut reader = EventReader::new(0);
    assert_eq!(reader.capacity(), 64 * 1024);
    let mut batch = metadata(24, FAN_CREATE, FAN_NOFD);
    batch[4] = 9;
    reader.buffer_mut()[..24].copy_from_slice(&batch);
    assert!(matches!(
        reader.read(Ok(24)),
        Err(FanotifyError::UnknownEventVersion(9))
    ));
    assert_eq!(reader.raw_bytes(), &batch[..]);
}

#[test]
fn an_fd_reader_has_a_slot_for_every_event() {
    let mut reader = FdEventReader::new(4096);
    assert_eq!(reader.event_capacity(), 4096usize.div_ceil(METADATA_SIZE));
    assert_eq!(FdEventReader::new(48).event_capacity(), 2);
    assert_eq!(FdEventReader::new(0).capacity(), 64 * 1024);

    let batch = [
        metadata(24, FAN_OPEN, 5),
        metadata(24, FAN_OPEN, 5),
        metadata(24, FAN_OPEN, FAN_NOFD),
    ]
    .concat();
    reader.buffer_mut()[..72].copy_from_slice(&batch);
    let (events, report) = reader.read_reported(Ok(72)).unwrap();
    assert!(report.is_complete());
    assert_eq!(events.len(), 3);
    assert_eq!(events[0].fd(), Some(5));
    assert_eq!(events[1].fd(), None, "one number, one owner");
    assert_eq!(events[2].no_fd_reason(), Some(FAN_NOFD));
    assert_eq!(reader.raw_bytes(), &batch[..]);

    let _ = reader.buffer_mut();
    assert!(reader.read(Err(FanotifyError::Read(libc::EAGAIN))).is_err());
    assert_eq!(reader.raw_bytes(), b"");
    assert_eq!(reader.event_capacity(), 4096usize.div_ceil(METADATA_SIZE));
    assert!(reader.read(Ok(0)).unwrap().is_empty());
}

#[test]
fn a_reader_fixes_its_capacity_because_its_events_point_into_it() {
    let reader = EventReader::new(24);
    assert!(reader.capacity() >= 24);
    // A zero capacity is the default rather than a zero-byte read.
    let default = EventReader::new(0);
    assert!(default.capacity() >= 24);
}

#[test]
fn an_fd_reader_fixes_its_storage_before_the_first_read() {
    let mut reader = FdEventReader::new(4096);

    // 4096 bytes of 24-byte events: the upper bound on one read's events.
    assert_eq!(reader.capacity(), 4096);
    // Ceiling division: 4096 bytes holds 170 whole events plus 16 spare bytes.
    assert_eq!(reader.event_capacity(), 4096usize.div_ceil(24));
    for _ in 0..3 {
        // An empty queue on a non-blocking group.
        let _ = reader.buffer_mut();
        assert!(matches!(
            reader.read(Err(FanotifyError::Read(libc::EAGAIN))),
            Err(FanotifyError::Read(libc::EAGAIN))
        ));
    }
    assert_eq!(
        reader.event_capacity(),
        4096usize.div_ceil(24),
        "an empty read must not have touched the storage"
    );
}

#[test]
fn an_fd_reader_keeps_the_bytes_of_its_last_read() {
    // The bytes are those of the *last* read and not of the first.
    let mut reader = FdEventReader::new(4096);
    reader.buffer_mut()[..24].copy_from_slice(&metadata(24, FAN_OPEN, 5));
    assert_eq!(reader.read(Ok(24)).unwrap().len(), 1);
    assert_eq!(reader.raw_bytes().len(), 24);
    for _ in 0..2 {
        let _ = reader.buffer_mut();
        let _ = reader.read(Err(FanotifyError::Read(libc::EAGAIN)));
        assert_eq!(reader.raw_bytes(), b"");
    }
}

#[test]
fn a_failed_read_does_not_leave_the_previous_batch_behind() {
    let mut reader = EventReader::new(4096);
    reader.buffer_mut()[..24].copy_from_slice(&metadata(24, FAN_CREATE, FAN_NOFD));
    assert_eq!(reader.read(Ok(24)).unwrap().len(), 1);
    for _ in 0..3 {
        let _ = reader.buffer_mut();
        assert!(matches!(
            reader.read(Err(FanotifyError::Read(libc::EAGAIN))),
            Err(FanotifyError::Read(libc::EAGAIN))
        ));
        assert_eq!(reader.raw_bytes(), b"");
    }
    // And no event of the previous batch is still reachable either.
    assert_eq!(reader.read(Ok(0)).map(|events| events.len()).unwrap_or(0), 0);
}

/// A kernel that answers every mark with an errno.
fn refuse(code: i32) -> impl Fn(i32, u32, u64, i32, &[u8]) -> Result<i32, i32> {
    move |_group: i32, _flags: u32, _mask: u64, _dir: i32, _path: &[u8]| Err(code)
}

#[test]
fn marking_a_path_that_does_not_exist_reports_the_kernels_enoent() {
    // The point is not the errno but where it came from: there is no validation
    // layer that would decide which one to report.
    let fan = Fanotify::from_fd(7);
    let err = fan
        .mark(FAN_MARK_ADD, FAN_OPEN, b"/no/such/path/anywhere", &refuse(libc::ENOENT))
        .expect_err("marking a nonexistent path must fail");

    match err {
        FanotifyError::Mark(libc::ENOENT) => {}
        other => panic!("expected the kernel's ENOENT, got {other:?}"),
    }
    assert_eq!(err.errno(), Some(libc::ENOENT));
}

#[test]
fn marking_a_file_with_onlydir_reports_the_kernels_enotdir() {
    let fan = Fanotify::from_fd(7);
    let err = fan
        .mark(FAN_MARK_ADD | FAN_MARK_ONLYDIR, FAN_OPEN, b"/tmp/plain", &refuse(libc::ENOTDIR))
        .expect_err("FAN_MARK_ONLYDIR on a file must fail");

    // ENOTDIR, not the EINVAL a hand-written check would have chosen.
    assert_eq!(err.errno(), Some(libc::ENOTDIR), "got {err:?}");
}

#[test]
fn marking_without_privilege_is_the_only_capability_this_crate_checks_nothing_about() {
    // The request is passed through and the kernel's EPERM reported: neither
    // pre-empted nor translated.
    let fan = Fanotify::from_fd(7);
    let err = fan
        .mark(FAN_MARK_ADD | FAN_MARK_MOUNT, FAN_OPEN, b"/tmp/dir", &refuse(libc::EPERM))
        .err()
        .and_then(|e| e.errno());

    assert_eq!(err, Some(libc::EPERM), "the kernel's answer, reported as it came");
}

#[test]
fn an_empty_queue_on_a_non_blocking_group_is_eagain_not_an_empty_list() {
    // An empty list would mean "read succeeded, there is nothing", while EAGAIN
    // is the signal to wait.
    let fan = Fanotify::init(
        FAN_CLASS_NOTIF | FAN_CLOEXEC | FAN_NONBLOCK | FAN_REPORT_FID,
        0,
        &|_flags: u32, _event_f_flags: u32| Ok(7),
    )
    .unwrap();
    let mut buf = Vec::new();

    match fan.read_events(&mut buf, Err(FanotifyError::Read(libc::EAGAIN))) {
        Err(FanotifyError::Read(libc::EAGAIN)) => {}
        other => panic!("expected EAGAIN from an empty non-blocking group, got {other:?}"),
    };
}

#[test]
fn a_reader_owns_its_buffer_and_resolves_in_place() {
    // One buffer and one event list for the whole loop, events reached through
    // `&mut` so a path can be written onto them without copying.
    let mut reader = EventReader::new(256 * 1024);
    assert_eq!(reader.capacity(), 256 * 1024);

    reader.buffer_mut()[..24].copy_from_slice(&metadata(24, FAN_CREATE, FAN_NOFD));
    let mut events = reader.read(Ok(24)).unwrap();
    for ev in events.iter_mut() {
        ev.set_path(b"/resolved/in/place".to_vec());
    }
    assert_eq!(events.len(), 1, "the create event must arrive");
    assert_eq!(events[0].path(), Some(&b"/resolved/in/place"[..]));
}

#[test]
fn a_reader_reuses_the_same_storage_for_every_read() {
    let mut reader = EventReader::new(4096);
    for _ in 0..3 {
        let _ = reader.buffer_mut();
        match reader.read(Err(FanotifyError::Read(libc::EAGAIN))) {
            Err(FanotifyError::Read(libc::EAGAIN)) => {}
            Ok(events) => assert!(events.is_empty()),
            Err(e) => panic!("unexpected: {e:?}"),
        }
    }
    assert_eq!(
        reader.event_capacity(),
        0,
        "an empty read must not have grown the event storage"
    );

    reader.buffer_mut()[..24].copy_from_slice(&metadata(24, FAN_CREATE, FAN_NOFD));
    assert!(!reader.read(Ok(24)).unwrap().is_empty());
    let capacity = reader.event_capacity();
    assert!(capacity > 0, "the event storage grew once");
    // A second read must reuse it rather than start over.
    reader.buffer_mut()[..24].copy_from_slice(&metadata(24, FAN_DELETE, FAN_NOFD));
    assert!(reader.read(Ok(24)).unwrap().len() <= capacity);
    assert_eq!(reader.event_capacity(), capacity, "no re-allocation");
}

#[test]
fn an_fd_reader_gives_up_its_batch_when_a_read_fails() {
    let mut reader = FdEventReader::new(64 * 1024);
    reader.buffer_mut()[..24].copy_from_slice(&metadata(24, FAN_CREATE, 5));
    assert_eq!(reader.read(Ok(24)).unwrap()[0].fd(), Some(5));
    assert!(!reader.raw_bytes().is_empty());

    // A read that finds nothing is a read that produced nothing, so the batch
    // goes with it.
    let _ = reader.buffer_mut();
    assert!(matches!(
        reader.read(Err(FanotifyError::Read(libc::EAGAIN))),
        Err(FanotifyError::Read(libc::EAGAIN))
    ));
    assert!(reader.raw_bytes().is_empty());
}

#[test]
fn an_fd_reader_reuses_its_storage_across_batches() {
    let mut reader = FdEventReader::new(64 * 1024);
    let slots = reader.event_capacity();
    // Sized for a whole buffer of events before the first read.
    assert_eq!(slots, (64 * 1024usize).div_ceil(24));

    reader.buffer_mut()[..24].copy_from_slice(&metadata(24, FAN_CREATE, 5));
    assert_eq!(reader.read(Ok(24)).unwrap()[0].fd(), Some(5));
    assert_eq!(reader.event_capacity(), slots, "no re-allocation");

    // A second batch reuses those slots, so the same storage holds it.
    reader.buffer_mut()[..24].copy_from_slice(&metadata(24, FAN_CREATE, 6));
    assert_eq!(reader.read(Ok(24)).unwrap()[0].fd(), Some(6));
    assert_eq!(reader.event_capacity(), slots, "no re-allocation");
}

#[test]
fn a_full_buffer_fills_every_slot_and_makes_no_more() {
    let mut reader = FdEventReader::new(72);
    assert_eq!(reader.event_capacity(), 3);
    let batch = [
        metadata(24, FAN_OPEN, 5),
        metadata(24, FAN_OPEN, 6),
        metadata(24, FAN_OPEN, 7),
    ]
    .concat();
    for _ in 0..2 {
        reader.buffer_mut().copy_from_slice(&batch);
        let events = reader.read(Ok(72)).unwrap();
        let fds: Vec<Option<i32>> = events.iter().map(|event| event.fd()).collect();
        assert_eq!(fds, [Some(5), Some(6), Some(7)]);
        assert_eq!(reader.event_capacity(), 3);
    }
    // A shorter batch leaves the other slots empty, not gone.
    reader.buffer_mut()[..24].copy_from_slice(&metadata(24, FAN_OPEN, 8));
    assert_eq!(reader.read(Ok(24)).unwrap().len(), 1);
    assert_eq!(reader.event_capacity(), 3);
}

#[test]
fn a_readers_events_are_its_buffers_own_bytes() {
    let mut unknown = metadata(24 + 16, FAN_CREATE, FAN_NOFD);
    unknown.extend_from_slice(&[200, 0]);
    unknown.extend_from_slice(&16u16.to_ne_bytes());
    unknown.extend_from_slice(b"future bytes");
    let mut reader = EventReader::new(4096);
    reader.buffer_mut()[..40].copy_from_slice(&unknown);
    let inside = reader.raw_bytes().as_ptr_range();
    let events = reader.read(Ok(40)).unwrap();
    let (info_type, bytes) = &events[0].unknown_info_records()[0];
    assert_eq!(*info_type, 200);
    assert!(matches!(bytes, Cow::Borrowed(_)));
    assert!(bytes.as_ptr() >= inside.start, "a borrow of the buffer, not a copy");
    drop(events);
    assert_eq!(reader.raw_bytes(), &unknown[..]);

    // Room for the largest batch so far, and no less after a smaller one.
    let three = [
        metadata(24, FAN_OPEN, FAN_NOFD),
        metadata(24, FAN_OPEN, FAN_NOFD),
        metadata(24, FAN_OPEN, FAN_NOFD),
    ]
    .concat();
    reader.buffer_mut()[..72].copy_from_slice(&three);
    assert_eq!(reader.read(Ok(72)).unwrap().len(), 3);
    assert_eq!(reader.event_capacity(), 3);
    assert!(reader.read(Ok(24)).unwrap().capacity() >= 3);
    assert_eq!(reader.event_capacity(), 3);
    assert_eq!(reader.read(Ok(0)).unwrap().capacity(), 0, "an empty read makes no list");
}
