//! FID events as owned records.
//!
//! The same walk as in [`fid`](crate::fid), for a caller that keeps whole events:
//! names become text, and an info record without a field of its own is kept as
//! its type and body.  Byte ranges and mount ids have no field here.
use vstd::prelude::*;

use crate::bytes::{lossy_text_of, name_text};
use crate::consts::{
    FAN_EVENT_INFO_TYPE_DFID, FAN_EVENT_INFO_TYPE_DFID_NAME, FAN_EVENT_INFO_TYPE_ERROR,
    FAN_EVENT_INFO_TYPE_FID, FAN_EVENT_INFO_TYPE_NEW_DFID_NAME, FAN_EVENT_INFO_TYPE_OLD_DFID_NAME,
    FAN_EVENT_INFO_TYPE_PIDFD,
};
use crate::fid::{holds, parse_fid_events_reported, record_fits, record_len_of, INFO_HEADER_SIZE};
use crate::handle::{can_open, OpenReply};
use crate::parse::{
    frames, mask_of, next_event, pid_of, records_start_of, EventMetadata, METADATA_SIZE,
};
use crate::records::{
    fsid_handle_name_of, fsid_handle_of, opt_u32, read_u32, split_fsid_handle,
    split_fsid_handle_name,
};
use crate::resolve::{is_pass, Pass, PathResolver, Sources};
use crate::store::{KnownPaths, PathStore};
use crate::types::{event_views, FidEvent, FidEventView, RenameSideView};
use crate::wire::{push_u32, to_bytes, u16_at, u32_bytes};

verus! {

/// A record with one more info record kept, by its type and its body.
pub open spec fn with_kept(event: FidEventView, record: Seq<u8>) -> FidEventView {
    FidEventView {
        unknown_info_records: event.unknown_info_records.push(
            (record[0], record.skip(INFO_HEADER_SIZE as int)),
        ),
        ..event
    }
}

/// What one info record whose length is sound adds to an owned record.
///
/// It is either understood, and fills the field it is for, or kept.  The first
/// `DFID_NAME` and the first descriptor count; of any other type, the last.
pub open spec fn with_record(event: FidEventView, record: Seq<u8>) -> FidEventView {
    let info_type = record[0];
    let payload = record.skip(INFO_HEADER_SIZE as int);
    if info_type == FAN_EVENT_INFO_TYPE_DFID_NAME {
        match fsid_handle_name_of(payload) {
            Some((_, handle, name)) if event.dfid_name_filename is None => FidEventView {
                dfid_name_handle: Some(handle),
                dfid_name_filename: Some(name_text(name)),
                ..event
            },
            _ => with_kept(event, record),
        }
    } else if info_type == FAN_EVENT_INFO_TYPE_FID || info_type == FAN_EVENT_INFO_TYPE_DFID {
        match fsid_handle_of(payload) {
            Some((_, handle)) => FidEventView { self_handle: Some(handle), ..event },
            None => with_kept(event, record),
        }
    } else if info_type == FAN_EVENT_INFO_TYPE_OLD_DFID_NAME {
        match fsid_handle_name_of(payload) {
            Some((_, handle, name)) => FidEventView {
                rename_source: Some(RenameSideView { handle, name: name_text(name) }),
                ..event
            },
            None => with_kept(event, record),
        }
    } else if info_type == FAN_EVENT_INFO_TYPE_NEW_DFID_NAME {
        match fsid_handle_name_of(payload) {
            Some((_, handle, name)) => FidEventView {
                rename_target: Some(RenameSideView { handle, name: name_text(name) }),
                ..event
            },
            None => with_kept(event, record),
        }
    } else if info_type == FAN_EVENT_INFO_TYPE_PIDFD {
        match opt_u32(payload, 0) {
            Some(raw) if event.pidfd is None && raw as i32 >= 0 => FidEventView {
                pidfd: Some(raw as i32),
                ..event
            },
            _ => with_kept(event, record),
        }
    } else if info_type == FAN_EVENT_INFO_TYPE_ERROR {
        match (opt_u32(payload, 0), opt_u32(payload, 4)) {
            (Some(error), Some(count)) => FidEventView {
                fs_error: Some((error as i32, count)),
                ..event
            },
            _ => with_kept(event, record),
        }
    } else {
        with_kept(event, record)
    }
}

/// What the info records in `s` add to an owned record, in order; one whose
/// length does not fit takes what is left of the event with it.
pub open spec fn with_records(event: FidEventView, s: Seq<u8>) -> FidEventView
    decreases s.len(),
{
    if s.len() < INFO_HEADER_SIZE {
        event
    } else if !record_fits(s) {
        with_kept(event, s)
    } else {
        with_records(with_record(event, s.take(record_len_of(s))), s.skip(record_len_of(s)))
    }
}

/// What the header of a frame says.
pub open spec fn header_record(frame: Seq<u8>) -> FidEventView {
    FidEventView {
        mask: mask_of(frame),
        pid: pid_of(frame),
        path: Seq::empty(),
        dfid_name_handle: None,
        dfid_name_filename: None,
        self_handle: None,
        pidfd: None,
        fs_error: None,
        rename_source: None,
        rename_target: None,
        unknown_info_records: Seq::empty(),
    }
}

/// The owned record that the bytes of one frame are, without a path.
pub open spec fn record_of(frame: Seq<u8>) -> FidEventView {
    with_records(header_record(frame), frame.skip(records_start_of(frame)))
}

/// The owned records that frames are.
pub open spec fn records_of(frames: Seq<Seq<u8>>) -> Seq<FidEventView> {
    frames.map_values(|frame: Seq<u8>| record_of(frame))
}

/// The owned records that a buffer holds, without paths.
pub open spec fn parsed_records(buf: Seq<u8>) -> Seq<FidEventView> {
    records_of(frames(buf, true))
}

/// Keep an info record by its type and its body.
fn keep(event: &mut FidEvent, record: &[u8])
    requires
        record@.len() >= INFO_HEADER_SIZE,
    ensures
        final(event)@ == with_kept(old(event)@, record@),
{
    let body: &[u8] = &record[INFO_HEADER_SIZE..record.len()];
    assert(body@ =~= record@.skip(INFO_HEADER_SIZE as int));
    event.push_unknown_info_record(record[0], to_bytes(body));
}

/// Take one info record whose length is sound into an owned record.
fn apply_record(event: FidEvent, record: &[u8]) -> (r: FidEvent)
    requires
        record@.len() >= INFO_HEADER_SIZE,
    ensures
        r@ == with_record(event@, record@),
{
    let mut event = event;
    let info_type: u8 = record[0];
    let payload: &[u8] = &record[INFO_HEADER_SIZE..record.len()];
    assert(payload@ =~= record@.skip(INFO_HEADER_SIZE as int));
    if info_type == FAN_EVENT_INFO_TYPE_DFID_NAME {
        if event.dfid_name_filename().is_none() {
            if let Some((_, handle, name)) = split_fsid_handle_name(payload) {
                event.set_dfid_name(to_bytes(handle), lossy_text_of(name));
                return event;
            }
        }
    } else if info_type == FAN_EVENT_INFO_TYPE_FID || info_type == FAN_EVENT_INFO_TYPE_DFID {
        if let Some((_, handle)) = split_fsid_handle(payload) {
            event.set_self_handle(to_bytes(handle));
            return event;
        }
    } else if info_type == FAN_EVENT_INFO_TYPE_OLD_DFID_NAME {
        if let Some((_, handle, name)) = split_fsid_handle_name(payload) {
            return event.with_rename_source(to_bytes(handle), lossy_text_of(name));
        }
    } else if info_type == FAN_EVENT_INFO_TYPE_NEW_DFID_NAME {
        if let Some((_, handle, name)) = split_fsid_handle_name(payload) {
            return event.with_rename_target(to_bytes(handle), lossy_text_of(name));
        }
    } else if info_type == FAN_EVENT_INFO_TYPE_PIDFD {
        if let Some(raw) = read_u32(payload, 0) {
            let fd: i32 = raw as i32;
            if event.pidfd().is_none() && fd >= 0 {
                return event.with_pidfd(fd);
            }
        }
    } else if info_type == FAN_EVENT_INFO_TYPE_ERROR {
        if let (Some(error), Some(count)) = (read_u32(payload, 0), read_u32(payload, 4)) {
            return event.with_fs_error(error as i32, count);
        }
    }
    keep(&mut event, record);
    event
}

/// The owned record that the bytes of one frame are.
fn parse_one_record(frame: &[u8], meta: EventMetadata) -> (r: FidEvent)
    requires
        METADATA_SIZE <= meta.records_start <= frame@.len(),
        meta.records_start == records_start_of(frame@),
        meta.mask == mask_of(frame@),
        meta.pid == pid_of(frame@),
    ensures
        r@ == record_of(frame@),
{
    let mut event = FidEvent::new(meta.mask, meta.pid, Vec::new(), None, None, None);
    assert(event@ =~= header_record(frame@));
    let mut at: usize = meta.records_start;
    while frame.len() - at >= INFO_HEADER_SIZE
        invariant_except_break
            at <= frame.len(),
            with_records(event@, frame@.skip(at as int)) == record_of(frame@),
        ensures
            event@ == record_of(frame@),
        decreases frame.len() - at,
    {
        let ghost tail = frame@.skip(at as int);
        let record_len: usize = u16_at(frame, at + 2) as usize;
        assert(frame@.subrange(at + 2, at + 4) =~= tail.subrange(2, 4));
        if record_len < INFO_HEADER_SIZE || record_len > frame.len() - at {
            let left: &[u8] = &frame[at..frame.len()];
            assert(left@ =~= tail);
            keep(&mut event, left);
            break;
        }
        let record: &[u8] = &frame[at..at + record_len];
        assert(record@ =~= tail.take(record_len as int));
        assert(tail.skip(record_len as int) =~= frame@.skip(at + record_len));
        event = apply_record(event, record);
        at = at + record_len;
    }
    event
}

/// Parse a buffer of FID events into owned records, without paths.
///
/// The walk ends where no whole event is left, or at once if the first header is
/// of an unknown version.
pub fn parse_records(buf: &[u8]) -> (records: Vec<FidEvent>)
    ensures
        event_views(records@) == parsed_records(buf@),
{
    let mut records: Vec<FidEvent> = Vec::new();
    let mut offset: usize = 0;
    let mut first = true;
    proof {
        assert(buf@.skip(0) =~= buf@);
        assert(event_views(records@) + parsed_records(buf@) =~= parsed_records(buf@));
    }
    loop
        invariant_except_break
            offset <= buf.len(),
            event_views(records@) + records_of(frames(buf@.skip(offset as int), first))
                == parsed_records(buf@),
        ensures
            event_views(records@) == parsed_records(buf@),
        decreases buf.len() - offset,
    {
        let ghost tail = buf@.skip(offset as int);
        let meta = match next_event(buf, offset, first) {
            Ok(meta) => meta,
            Err(_) => {
                proof {
                    assert(records_of(frames(tail, first)) =~= Seq::<FidEventView>::empty());
                    assert(event_views(records@) + Seq::<FidEventView>::empty() =~= event_views(
                        records@,
                    ));
                }
                break;
            },
        };
        let ghost before = event_views(records@);
        let frame: &[u8] = &buf[offset..offset + meta.event_len];
        proof {
            assert(frame@ =~= tail.take(meta.event_len as int));
            assert(frame@.subrange(6, 8) =~= tail.subrange(6, 8));
            assert(tail.skip(meta.event_len as int) =~= buf@.skip(offset + meta.event_len));
        }
        records.push(parse_one_record(frame, meta));
        proof {
            let next = frames(tail.skip(meta.event_len as int), false);
            assert(event_views(records@) =~= before.push(record_of(frame@)));
            assert(frames(tail, first) == seq![frame@] + next);
            assert(records_of(frames(tail, first)) =~= seq![record_of(frame@)] + records_of(next));
            assert(before + (seq![record_of(frame@)] + records_of(next)) =~= before.push(
                record_of(frame@),
            ) + records_of(next));
        }
        first = false;
        offset = offset + meta.event_len;
    }
    records
}

/// Whether the pidfd number of a record is one that an earlier record carries.
pub open spec fn repeats_pidfd(records: Seq<FidEventView>, i: int) -> bool {
    &&& records[i].pidfd is Some
    &&& exists|j: int| 0 <= j < i && (#[trigger] records[j]).pidfd == records[i].pidfd
}

/// The record at `i` once each number has one owner: a number that an earlier
/// record carries is kept as a pidfd record's body instead.
pub open spec fn with_sole_pidfd(records: Seq<FidEventView>, i: int) -> FidEventView {
    if repeats_pidfd(records, i) {
        FidEventView {
            pidfd: None,
            unknown_info_records: records[i].unknown_info_records.push(
                (FAN_EVENT_INFO_TYPE_PIDFD, u32_bytes(records[i].pidfd->0 as u32)),
            ),
            ..records[i]
        }
    } else {
        records[i]
    }
}

/// The records of a batch once each pidfd number has one owner.
pub open spec fn sole_pidfds(records: Seq<FidEventView>) -> Seq<FidEventView> {
    Seq::new(records.len(), |i: int| with_sole_pidfd(records, i))
}

/// Leave each pidfd number of a batch to the first record that carries it.
///
/// The kernel installs a fresh descriptor per record, so a repeat means the
/// buffer is not what it claims, and two owners would close it twice.
pub fn own_pidfds_once(records: &mut Vec<FidEvent>)
    ensures
        event_views(final(records)@) == sole_pidfds(event_views(old(records)@)),
{
    let ghost before = event_views(records@);
    let mut taken: Vec<i32> = Vec::new();
    let mut i: usize = 0;
    while i < records.len()
        invariant
            i <= records@.len(),
            before.len() == records@.len(),
            forall|k: int| 0 <= k < i ==> (#[trigger] records@[k])@ == with_sole_pidfd(before, k),
            forall|k: int| i <= k < records@.len() ==> (#[trigger] records@[k])@ == before[k],
            forall|k: int|
                0 <= k < i && (#[trigger] before[k]).pidfd is Some ==> taken@.contains(
                    before[k].pidfd->0,
                ),
            forall|t: int|
                0 <= t < taken@.len() ==> exists|k: int|
                    0 <= k < i && (#[trigger] before[k]).pidfd == Some(#[trigger] taken@[t]),
        decreases records@.len() - i,
    {
        let ghost taken_before = taken@;
        if let Some(fd) = records[i].pidfd() {
            if holds(taken.as_slice(), fd) {
                proof {
                    let t = choose|t: int| 0 <= t < taken@.len() && taken@[t] == fd;
                    assert(taken@[t] == fd);
                    assert(repeats_pidfd(before, i as int));
                }
                let mut body: Vec<u8> = Vec::new();
                push_u32(&mut body, fd as u32);
                assert(body@ =~= u32_bytes(fd as u32));
                let record = &mut records[i];
                record.disown_pidfd();
                record.push_unknown_info_record(FAN_EVENT_INFO_TYPE_PIDFD, body);
            } else {
                taken.push(fd);
                proof {
                    assert(taken@[taken_before.len() as int] == fd);
                    assert forall|k: int|
                        0 <= k < i && (#[trigger] before[k]).pidfd is Some implies taken@.contains(
                        before[k].pidfd->0,
                    ) by {
                        let t = choose|t: int|
                            0 <= t < taken_before.len() && taken_before[t] == before[k].pidfd->0;
                        assert(taken@[t] == taken_before[t]);
                    }
                    assert(!repeats_pidfd(before, i as int));
                    assert(before[i as int].pidfd == Some(fd));
                    assert forall|t: int| 0 <= t < taken@.len() implies exists|k: int|
                        0 <= k < i + 1 && (#[trigger] before[k]).pidfd == Some(
                            #[trigger] taken@[t],
                        ) by {
                        if t < taken_before.len() {
                            assert(taken@[t] == taken_before[t]);
                        }
                    }
                }
            }
        }
        i = i + 1;
    }
    assert(event_views(records@) =~= sole_pidfds(before));
}

/// A record with the path that its event was resolved to, if it was.
pub open spec fn with_path(record: FidEventView, event: crate::fid::FidEventView) -> FidEventView {
    match event.path {
        Some(path) => FidEventView { path, ..record },
        None => record,
    }
}

/// Records with the paths that their events were resolved to.
pub open spec fn with_paths(
    records: Seq<FidEventView>,
    events: Seq<crate::fid::FidEventView>,
) -> Seq<FidEventView> {
    Seq::new(records.len(), |i: int| with_path(records[i], events[i]))
}

/// Whether parsing and resolving a buffer may give these records, and leave what
/// is known `after`: the records that the buffer holds, each with the path that a
/// pass over its events found.
pub open spec fn is_parse<F: Fn(i32, &[u8]) -> OpenReply>(
    open: F,
    sources: Sources,
    after: KnownPaths,
    keeps_all: bool,
    buf: Seq<u8>,
    records: Seq<FidEventView>,
) -> bool {
    exists|pass: Pass|
        {
            &&& #[trigger] is_pass(open, sources.mounts, sources.may_ask, keeps_all, pass)
            &&& pass.before == crate::fid::parsed_events(buf)
            &&& pass.known[0] == sources.known
            &&& pass.known.last() == after
            &&& records == with_paths(sole_pidfds(parsed_records(buf)), pass.after)
        }
}

/// Parse a buffer of FID events into owned records with the paths that
/// `resolver` finds for them; one it finds none for has an empty path.
///
/// The pidfd numbers are descriptors only if the bytes are what a `read(2)` on a
/// group has just returned.
pub fn parse_fid_events<C: PathStore, F: Fn(i32, &[u8]) -> OpenReply>(
    buf: &[u8],
    resolver: &mut PathResolver<C>,
    open: &F,
) -> (records: Vec<FidEvent>)
    requires
        can_open(*open),
    ensures
        is_parse(
            *open,
            old(resolver).sources(),
            final(resolver).sources().known,
            C::keeps_all(),
            buf@,
            event_views(records@),
        ),
        final(resolver).sources() == (Sources {
            known: final(resolver).sources().known,
            ..old(resolver).sources()
        }),
{
    let mut records = parse_records(buf);
    own_pidfds_once(&mut records);
    let ghost bare = event_views(records@);
    let (mut events, _) = parse_fid_events_reported(buf);
    resolver.resolve_events(events.as_mut_slice(), open);
    let ghost resolved = crate::fid::event_views(events@);
    proof {
        assert(bare.len() == records@.len());
        assert(resolved.len() == events@.len());
        assert(crate::fid::parsed_events(buf@).len() == frames(buf@, true).len());
        assert(bare.len() == frames(buf@, true).len());
    }
    let mut i: usize = 0;
    while i < records.len()
        invariant
            i <= records@.len(),
            bare.len() == records@.len(),
            resolved == crate::fid::event_views(events@),
            events@.len() == records@.len(),
            forall|k: int|
                0 <= k < i ==> (#[trigger] records@[k])@ == with_path(bare[k], resolved[k]),
            forall|k: int| i <= k < records@.len() ==> (#[trigger] records@[k])@ == bare[k],
        decreases records@.len() - i,
    {
        if let Some(path) = events[i].path() {
            let record = &mut records[i];
            record.set_path(to_bytes(path));
        }
        i = i + 1;
    }
    assert(event_views(records@) =~= with_paths(bare, resolved));
    records
}

/// Whether a record says of its object what an event says.
pub open spec fn agrees(event: crate::fid::FidEventView, record: FidEventView) -> bool {
    &&& record.mask == event.mask
    &&& record.pid == event.pid
    &&& record.dfid_name_handle == event.dfid_name_handle
    &&& record.dfid_name_filename == (match event.dfid_name_name {
        Some(name) => Some(name_text(name)),
        None => None,
    })
    &&& record.self_handle == event.self_handle
    &&& record.fs_error == event.fs_error
    &&& record.rename_source == side_text(event.rename_source)
    &&& record.rename_target == side_text(event.rename_target)
}

/// A rename side, its name as text.
pub open spec fn side_text(side: Option<crate::fid::RenameSideView>) -> Option<RenameSideView> {
    match side {
        Some(side) => Some(RenameSideView { handle: side.handle, name: name_text(side.name) }),
        None => None,
    }
}

/// Info records keep a record and an event in agreement.
proof fn records_keep_agreement(
    event: crate::fid::FidEventView,
    record: FidEventView,
    s: Seq<u8>,
)
    requires
        agrees(event, record),
    ensures
        agrees(crate::fid::with_records(event, s), with_records(record, s)),
    decreases s.len(),
{
    if s.len() >= INFO_HEADER_SIZE && record_fits(s) {
        let first = s.take(record_len_of(s));
        records_keep_agreement(
            crate::fid::with_record(event, first),
            with_record(record, first),
            s.skip(record_len_of(s)),
        );
    }
}

/// A record says of its object what the event parsed from the same bytes says:
/// the same handles, the same error, and the names as text.
pub proof fn a_record_agrees_with_its_event(buf: Seq<u8>, i: int)
    requires
        0 <= i < frames(buf, true).len(),
    ensures
        parsed_records(buf).len() == crate::fid::parsed_events(buf).len(),
        agrees(crate::fid::parsed_events(buf)[i], parsed_records(buf)[i]),
{
    let frame = frames(buf, true)[i];
    records_keep_agreement(
        crate::fid::header_event(frame),
        header_record(frame),
        frame.skip(records_start_of(frame)),
    );
}

/// An info record is either understood or kept, never both and never neither.
pub proof fn a_record_is_understood_or_kept(event: FidEventView, record: Seq<u8>)
    ensures
        with_record(event, record).unknown_info_records == event.unknown_info_records
            || with_record(event, record) == with_kept(event, record),
{
}

/// No two records of a batch own the same pidfd.
pub proof fn no_pidfd_has_two_owners(records: Seq<FidEventView>, i: int, j: int)
    requires
        0 <= i < records.len(),
        0 <= j < records.len(),
        i != j,
        sole_pidfds(records)[i].pidfd is Some,
    ensures
        sole_pidfds(records)[i].pidfd != sole_pidfds(records)[j].pidfd,
{
    if sole_pidfds(records)[i].pidfd == sole_pidfds(records)[j].pidfd {
        if i < j {
            assert(records[i].pidfd == records[j].pidfd);
            assert(repeats_pidfd(records, j));
        } else {
            assert(records[j].pidfd == records[i].pidfd);
            assert(repeats_pidfd(records, i));
        }
    }
}

/// The first record of a batch that carries a pidfd keeps it.  A later one with the
/// same number gives it up and keeps the number as the record that it came from, of
/// type 4.  Nothing else of a record changes.
pub proof fn the_first_to_carry_a_pidfd_keeps_it(records: Seq<FidEventView>, i: int)
    requires
        0 <= i < records.len(),
    ensures
        sole_pidfds(records).len() == records.len(),
        match records[i].pidfd {
            Some(number) => {
                let first = forall|j: int|
                    0 <= j < i ==> (#[trigger] records[j]).pidfd != Some(number);
                &&& first ==> sole_pidfds(records)[i] == records[i]
                &&& !first ==> sole_pidfds(records)[i] == (FidEventView {
                    pidfd: None,
                    unknown_info_records: records[i].unknown_info_records.push(
                        (4u8, crate::wire::i32_bytes(number)),
                    ),
                    ..records[i]
                })
            },
            None => sole_pidfds(records)[i] == records[i],
        },
{
}

/// A parsed record is the record that its bytes are, with the path that its event
/// was resolved to, or an empty one if it was resolved to none.
pub proof fn a_parsed_record_has_its_events_path<F: Fn(i32, &[u8]) -> OpenReply>(
    open: F,
    sources: Sources,
    after: KnownPaths,
    keeps_all: bool,
    buf: Seq<u8>,
    records: Seq<FidEventView>,
) -> (pass: Pass)
    requires
        is_parse(open, sources, after, keeps_all, buf, records),
    ensures
        is_pass(open, sources.mounts, sources.may_ask, keeps_all, pass),
        pass.before == crate::fid::parsed_events(buf),
        pass.known[0] == sources.known,
        pass.known.last() == after,
        records.len() == parsed_records(buf).len(),
        forall|i: int|
            0 <= i < records.len() ==> {
                &&& (#[trigger] records[i]) == (FidEventView {
                    path: records[i].path,
                    ..sole_pidfds(parsed_records(buf))[i]
                })
                &&& records[i].path == (match pass.after[i].path {
                    Some(path) => path,
                    None => Seq::empty(),
                })
            },
{
    let pass = choose|pass: Pass|
        {
            &&& #[trigger] is_pass(open, sources.mounts, sources.may_ask, keeps_all, pass)
            &&& pass.before == crate::fid::parsed_events(buf)
            &&& pass.known[0] == sources.known
            &&& pass.known.last() == after
            &&& records == with_paths(sole_pidfds(parsed_records(buf)), pass.after)
        };
    assert forall|i: int| 0 <= i < records.len() implies (#[trigger] records[i]).path == (
    match pass.after[i].path {
        Some(path) => path,
        None => Seq::empty(),
    }) by {
        let frame = frames(buf, true)[i];
        records_have_no_path(header_record(frame), frame.skip(records_start_of(frame)));
    }
    pass
}

/// No info record gives an owned record a path.
proof fn records_have_no_path(event: FidEventView, s: Seq<u8>)
    ensures
        with_records(event, s).path == event.path,
    decreases s.len(),
{
    if s.len() >= INFO_HEADER_SIZE && record_fits(s) {
        records_have_no_path(
            with_record(event, s.take(record_len_of(s))),
            s.skip(record_len_of(s)),
        );
    }
}

/// A buffer is parsed into its records, and the pidfds of a batch are left to the
/// first records that carry them, in place.
pub proof fn records_are_parsed_and_owned_in_place()
    ensures
        forall|buf: &[u8], r: Vec<FidEvent>|
            #[trigger] call_ensures(parse_records, (buf,), r) ==> event_views(r@)
                == parsed_records(buf@),
        forall|records: &mut Vec<FidEvent>|
            #[trigger] call_ensures(own_pidfds_once, (records,), ()) ==> event_views(
                final(records)@,
            ) == sole_pidfds(event_views((*records)@)),
{
}

} // verus!
