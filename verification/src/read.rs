//! Reading whole batches of owned records.
//!
//! The `read(2)` itself is the caller's: what stands here is what follows from
//! its reply.  A FID batch is recovered against a map from handle to path, which
//! is what gives an event about a deleted directory its path; a batch of a group
//! without FID identity is walked header by header.
use smallvec::SmallVec;
use vstd::prelude::*;
use vstd::utf8::encode_utf8;

use crate::error::FanotifyError;
use crate::handle::{can_open, OpenReply};
use crate::owned::{is_parse, parse_fid_events};
use crate::path::{
    a_parent_is_the_front_of_its_path, a_parent_lacks_the_last_component, joined_path, parent,
    parent_of, parts, pushed, Part,
};
use crate::resolve::{PathResolver, Sources};
use crate::store::PathStore;
use crate::types::{
    event_views, metadata_of, path_for, with_first, FanMetadata, FanotifyResponse, FidEvent,
    FidEventView, HandleCache, KnownHandles, LegacyEvent, METADATA_SIZE,
};
use crate::wire::{
    i32_bytes, i32_round_trip, to_bytes, u32_array, u32_bytes, u32_of, u32_round_trip,
};
use crate::written::{can_be_written, event_bytes, header_fields, Header};

verus! {

/// The directory that `path` shows the entry `name` to be in: with no name the
/// path is the directory itself.
pub open spec fn directory_of(path: Seq<u8>, name: Seq<char>) -> Option<Seq<u8>> {
    if name.len() > 0 {
        parent_of(path)
    } else {
        Some(path)
    }
}

/// What is known once an event with a path was learned from: its own handle has
/// that path and its parent's handle the directory, unless they were known.
pub open spec fn learned_from(known: KnownHandles, event: FidEventView) -> KnownHandles {
    if event.path.len() == 0 {
        known
    } else {
        let known = match event.self_handle {
            Some(key) => with_first(known, key, event.path),
            None => known,
        };
        match (event.dfid_name_handle, event.dfid_name_filename) {
            (Some(key), Some(name)) => match directory_of(event.path, name) {
                Some(dir) => with_first(known, key, dir),
                None => known,
            },
            _ => known,
        }
    }
}

/// What is known once every event was learned from, in order.
pub open spec fn learned(known: KnownHandles, events: Seq<FidEventView>) -> KnownHandles
    decreases events.len(),
{
    if events.len() == 0 {
        known
    } else {
        learned_from(learned(known, events.drop_last()), events.last())
    }
}

/// The path of the entry `name` in a directory.
pub open spec fn entry_path(dir: Seq<u8>, name: Seq<char>) -> Seq<u8> {
    if name.len() > 0 {
        pushed(dir, encode_utf8(name))
    } else {
        dir
    }
}

/// A path that is not empty.
pub open spec fn non_empty(path: Option<Seq<u8>>) -> Option<Seq<u8>> {
    match path {
        Some(path) if path.len() > 0 => Some(path),
        _ => None,
    }
}

/// The path that what is known gives an event by its parent's handle and its
/// name.
pub open spec fn path_by_entry(known: KnownHandles, event: FidEventView) -> Option<Seq<u8>> {
    match (event.dfid_name_handle, event.dfid_name_filename) {
        (Some(key), Some(name)) => match path_for(known, key) {
            Some(dir) => non_empty(Some(entry_path(dir, name))),
            None => None,
        },
        _ => None,
    }
}

/// The path that what is known gives an event by its own handle.
pub open spec fn path_by_self(known: KnownHandles, event: FidEventView) -> Option<Seq<u8>> {
    match event.self_handle {
        Some(key) => non_empty(path_for(known, key)),
        None => None,
    }
}

/// The path an event without one recovers: as an entry of a known directory, or
/// else as a known object.
pub open spec fn recovered_path(known: KnownHandles, event: FidEventView) -> Option<Seq<u8>> {
    if event.path.len() > 0 {
        None
    } else if path_by_entry(known, event) is Some {
        path_by_entry(known, event)
    } else {
        path_by_self(known, event)
    }
}

/// An event with the path it recovers.
pub open spec fn with_recovered(known: KnownHandles, event: FidEventView) -> FidEventView {
    match recovered_path(known, event) {
        Some(path) => FidEventView { path, ..event },
        None => event,
    }
}

/// Events with the paths they recover.
pub open spec fn all_recovered(known: KnownHandles, events: Seq<FidEventView>) -> Seq<
    FidEventView,
> {
    events.map_values(|event: FidEventView| with_recovered(known, event))
}

/// Whether an event recovers a path.
pub open spec fn any_recovers(known: KnownHandles, events: Seq<FidEventView>) -> bool {
    exists|i: int| 0 <= i < events.len() && (#[trigger] recovered_path(known, events[i])) is Some
}

/// What is known, and what the events say, after at most `passes` rounds of
/// learning from the events and recovering paths; a round that recovers nothing
/// is the last.
pub open spec fn after_passes(
    known: KnownHandles,
    events: Seq<FidEventView>,
    passes: nat,
) -> (KnownHandles, Seq<FidEventView>)
    decreases passes,
{
    if passes == 0 {
        (known, events)
    } else {
        let now = learned(known, events);
        if any_recovers(now, events) {
            after_passes(now, all_recovered(now, events), (passes - 1) as nat)
        } else {
            (now, events)
        }
    }
}

/// How many rounds a batch gets: one per level of nested deletions.
pub const MAX_PASSES: usize = 10;

/// Learn what an event with a path shows.
fn learn_from(cache: &mut HandleCache, event: &FidEvent)
    ensures
        final(cache)@ == learned_from(old(cache)@, event@),
{
    let path: &[u8] = event.path();
    if path.len() == 0 {
        return ;
    }
    if let Some(key) = event.self_handle() {
        cache.or_insert(key, path);
    }
    if let (Some(key), Some(name)) = (event.dfid_name_handle(), event.dfid_name_filename()) {
        let dir: Option<&[u8]> = if name.is_empty() {
            Some(path)
        } else {
            parent(path)
        };
        if let Some(dir) = dir {
            cache.or_insert(key, dir);
        }
    }
}

/// Learn the handles of every event that has a path.
///
/// A handle that is already known keeps its path.
pub fn learn(cache: &mut HandleCache, events: &Vec<FidEvent>)
    ensures
        final(cache)@ == learned(old(cache)@, event_views(events@)),
{
    let ghost views = event_views(events@);
    let mut i: usize = 0;
    assert(views.take(0) =~= Seq::<FidEventView>::empty());
    while i < events.len()
        invariant
            i <= events@.len(),
            views == event_views(events@),
            cache@ == learned(old(cache)@, views.take(i as int)),
        decreases events@.len() - i,
    {
        learn_from(cache, &events[i]);
        proof {
            assert(views.take(i + 1).drop_last() =~= views.take(i as int));
            assert(views.take(i + 1).last() == events@[i as int]@);
        }
        i = i + 1;
    }
    assert(views.take(i as int) =~= views);
}

/// The path an event recovers, if it has none.
fn recover(event: &FidEvent, cache: &HandleCache) -> (r: Option<Vec<u8>>)
    ensures
        crate::bytes::opt_vec(r) == recovered_path(cache@, event@),
{
    if event.path().len() > 0 {
        return None;
    }
    if let (Some(key), Some(name)) = (event.dfid_name_handle(), event.dfid_name_filename()) {
        if let Some(dir) = cache.path_of(key) {
            let path: Vec<u8> = if name.is_empty() {
                to_bytes(dir)
            } else {
                joined_path(dir, name.as_bytes())
            };
            if path.len() > 0 {
                return Some(path);
            }
        }
    }
    if let Some(key) = event.self_handle() {
        if let Some(path) = cache.path_of(key) {
            if path.len() > 0 {
                return Some(to_bytes(path));
            }
        }
    }
    None
}

/// Give every event without a path the one that is known for it: as an entry of
/// a known directory, or else by its own handle.  Says whether any got one.
pub fn resolve_with_cache(events: &mut Vec<FidEvent>, cache: &HandleCache) -> (r: bool)
    ensures
        event_views(final(events)@) == all_recovered(cache@, event_views(old(events)@)),
        r == any_recovers(cache@, event_views(old(events)@)),
{
    let ghost before = event_views(events@);
    let mut any = false;
    let mut i: usize = 0;
    while i < events.len()
        invariant
            i <= events@.len(),
            before.len() == events@.len(),
            forall|k: int|
                0 <= k < i ==> (#[trigger] events@[k])@ == with_recovered(cache@, before[k]),
            forall|k: int| i <= k < events@.len() ==> (#[trigger] events@[k])@ == before[k],
            any == exists|k: int|
                0 <= k < i && (#[trigger] recovered_path(cache@, before[k])) is Some,
        decreases events@.len() - i,
    {
        let found = recover(&events[i], cache);
        let ghost path = recovered_path(cache@, before[i as int]);
        if let Some(path) = found {
            let event = &mut events[i];
            event.set_path(path);
            any = true;
        }
        assert(path == recovered_path(cache@, before[i as int]));
        i = i + 1;
    }
    assert(event_views(events@) =~= all_recovered(cache@, before));
    any
}

/// Recover the paths of a batch: learn from the events that have one, give the
/// others what is known, and repeat while that helps, for nested deletions.
pub fn recover_paths(events: &mut Vec<FidEvent>, cache: &mut HandleCache)
    ensures
        (final(cache)@, event_views(final(events)@)) == after_passes(
            old(cache)@,
            event_views(old(events)@),
            MAX_PASSES as nat,
        ),
{
    let mut left: usize = MAX_PASSES;
    while left > 0
        invariant_except_break
            after_passes(cache@, event_views(events@), left as nat) == after_passes(
                old(cache)@,
                event_views(old(events)@),
                MAX_PASSES as nat,
            ),
        ensures
            (cache@, event_views(events@)) == after_passes(
                old(cache)@,
                event_views(old(events)@),
                MAX_PASSES as nat,
            ),
        decreases left,
    {
        learn(cache, events);
        let ghost before = event_views(events@);
        let helped = resolve_with_cache(events, cache);
        if !helped {
            proof {
                assert forall|i: int| 0 <= i < before.len() implies with_recovered(
                    cache@,
                    #[trigger] before[i],
                ) == before[i] by {
                    assert(recovered_path(cache@, before[i]) is None);
                }
                assert(event_views(events@) =~= before);
            }
            break;
        }
        left = left - 1;
    }
}

/// The least size of a read of owned records.
pub const FID_READ_BYTES: usize = 65536;

/// How many bytes a read into a buffer of this capacity asks for: what it holds,
/// and at least [`FID_READ_BYTES`], to which the buffer grows.
pub fn fid_read_size(capacity: usize) -> (r: usize)
    ensures
        r == (if capacity < 65536 {
            65536
        } else {
            capacity
        }),
{
    if capacity < FID_READ_BYTES {
        FID_READ_BYTES
    } else {
        capacity
    }
}

/// What a `read(2)` on a FID group gives: its errno as an error, nothing for an
/// empty read, and otherwise the records of the bytes that were read, with the
/// paths that `resolver` finds, and recovered if the caller keeps a map.
pub fn read_fid_events<C: PathStore, F: Fn(i32, &[u8]) -> OpenReply>(
    reply: Result<usize, i32>,
    buf: &[u8],
    resolver: &mut PathResolver<C>,
    open: &F,
    cache: Option<&mut HandleCache>,
) -> (r: Result<Vec<FidEvent>, FanotifyError>)
    requires
        reply matches Ok(n) ==> n <= buf@.len(),
        can_open(*open),
    ensures
        final(resolver).sources() == (Sources {
            known: final(resolver).sources().known,
            ..old(resolver).sources()
        }),
        match reply {
            Err(code) => {
                &&& r == Err::<Vec<FidEvent>, FanotifyError>(FanotifyError::Read(code))
                &&& final(resolver).sources() == old(resolver).sources()
                &&& cache matches Some(cache) ==> final(cache)@ == (*cache)@
            },
            Ok(n) => r is Ok && (if n == 0 {
                &&& r->Ok_0@.len() == 0
                &&& final(resolver).sources() == old(resolver).sources()
                &&& cache matches Some(cache) ==> final(cache)@ == (*cache)@
            } else {
                exists|parsed: Seq<FidEventView>|
                    {
                        &&& #[trigger] is_parse(
                            *open,
                            old(resolver).sources(),
                            final(resolver).sources().known,
                            C::keeps_all(),
                            buf@.take(n as int),
                            parsed,
                        )
                        &&& match cache {
                            Some(cache) => (final(cache)@, event_views(r->Ok_0@)) == after_passes(
                                (*cache)@,
                                parsed,
                                MAX_PASSES as nat,
                            ),
                            None => event_views(r->Ok_0@) == parsed,
                        }
                    }
            }),
        },
{
    let n: usize = match reply {
        Ok(n) => n,
        Err(code) => return Err(FanotifyError::Read(code)),
    };
    if n == 0 {
        return Ok(Vec::new());
    }
    let bytes: &[u8] = &buf[0..n];
    assert(bytes@ =~= buf@.take(n as int));
    let mut events: Vec<FidEvent> = parse_fid_events(bytes, resolver, open);
    if let Some(cache) = cache {
        recover_paths(&mut events, cache);
    }
    Ok(events)
}

/// Learning keeps what is known.
proof fn learning_from_one_forgets_nothing(known: KnownHandles, event: FidEventView)
    ensures
        known.submap_of(learned_from(known, event)),
{
}

/// Learning keeps what is known: a handle that has a path keeps that path.
pub proof fn learning_forgets_nothing(known: KnownHandles, events: Seq<FidEventView>)
    ensures
        known.submap_of(learned(known, events)),
    decreases events.len(),
{
    if events.len() > 0 {
        learning_forgets_nothing(known, events.drop_last());
        learning_from_one_forgets_nothing(learned(known, events.drop_last()), events.last());
    }
}

/// What holds no more than a map that holds no more than a third holds no more
/// than the third.
proof fn submaps_chain(a: KnownHandles, b: KnownHandles, c: KnownHandles)
    requires
        a.submap_of(b),
        b.submap_of(c),
    ensures
        a.submap_of(c),
{
    assert forall|key: Seq<u8>| #[trigger] a.dom().contains(key) implies c.dom().contains(key)
        && a[key] == c[key] by {
        assert(b.dom().contains(key));
        assert(c.dom().contains(key));
    }
}

/// What an event teaches is already in a map that learned from it.
proof fn learned_events_teach_nothing(
    known: KnownHandles,
    events: Seq<FidEventView>,
    i: int,
    more: KnownHandles,
)
    requires
        0 <= i < events.len(),
        learned(known, events).submap_of(more),
    ensures
        learned_from(more, events[i]) == more,
    decreases events.len(),
{
    let before = learned(known, events.drop_last());
    learning_from_one_forgets_nothing(before, events.last());
    if i == events.len() - 1 {
        let after = learned_from(before, events[i]);
        assert forall|key: Seq<u8>| #[trigger] after.dom().contains(key) implies more.dom().contains(
            key,
        ) by {}
        if events[i].path.len() > 0 {
            if let Some(key) = events[i].self_handle {
                assert(after.dom().contains(key));
            }
            if let (Some(key), Some(name)) = (
                events[i].dfid_name_handle,
                events[i].dfid_name_filename,
            ) {
                if directory_of(events[i].path, name) is Some {
                    assert(after.dom().contains(key));
                }
            }
        }
    } else {
        assert(events.drop_last()[i] == events[i]);
        submaps_chain(before, learned(known, events), more);
        learned_events_teach_nothing(known, events.drop_last(), i, more);
    }
}

/// Learning from the same events again teaches nothing.
pub proof fn learning_twice_is_learning_once(known: KnownHandles, events: Seq<FidEventView>)
    ensures
        learned(learned(known, events), events) == learned(known, events),
{
    learning_again(known, events, events.len() as int);
    assert(events.take(events.len() as int) =~= events);
}

/// Learning again from the first `count` events teaches nothing.
proof fn learning_again(known: KnownHandles, events: Seq<FidEventView>, count: int)
    requires
        0 <= count <= events.len(),
    ensures
        learned(learned(known, events), events.take(count)) == learned(known, events),
    decreases count,
{
    let now = learned(known, events);
    if count > 0 {
        learning_again(known, events, count - 1);
        assert(events.take(count).drop_last() =~= events.take(count - 1));
        assert(events.take(count).last() == events[count - 1]);
        learned_events_teach_nothing(known, events, count - 1, now);
    }
}

/// A recovered event says what it said before, and its path only if it had one:
/// nothing but a missing path is ever filled in.
pub proof fn recovery_fills_missing_paths_only(
    known: KnownHandles,
    events: Seq<FidEventView>,
    passes: nat,
    i: int,
)
    requires
        0 <= i < events.len(),
    ensures
        after_passes(known, events, passes).1.len() == events.len(),
        (FidEventView { path: events[i].path, ..after_passes(known, events, passes).1[i] })
            == events[i],
        events[i].path.len() > 0 ==> after_passes(known, events, passes).1[i] == events[i],
    decreases passes,
{
    if passes > 0 {
        let now = learned(known, events);
        if any_recovers(now, events) {
            let next = all_recovered(now, events);
            assert(next[i] == with_recovered(now, events[i]));
            recovery_fills_missing_paths_only(now, next, (passes - 1) as nat, i);
        }
    }
}

/// Recovering paths keeps what is known.
pub proof fn recovery_forgets_nothing(
    known: KnownHandles,
    events: Seq<FidEventView>,
    passes: nat,
)
    ensures
        known.submap_of(after_passes(known, events, passes).0),
    decreases passes,
{
    if passes > 0 {
        let now = learned(known, events);
        learning_forgets_nothing(known, events);
        if any_recovers(now, events) {
            recovery_forgets_nothing(now, all_recovered(now, events), (passes - 1) as nat);
            submaps_chain(known, now, after_passes(known, events, passes).0);
        }
    }
}

/// Once a round recovers nothing, the batch is settled: more rounds change
/// neither the events nor what is known.
pub proof fn a_settled_batch_stays_settled(
    known: KnownHandles,
    events: Seq<FidEventView>,
    passes: nat,
)
    requires
        !any_recovers(learned(known, events), events),
    ensures
        after_passes(learned(known, events), events, passes) == (learned(known, events), events),
{
    learning_twice_is_learning_once(known, events);
}

/// How many events one read of a group without FID identity asks for.
#[derive(Debug)]
pub struct LegacyConfig {
    events: usize,
}

/// The number of events per read, unless another is set.
pub const DEFAULT_LEGACY_EVENTS: usize = 200;

impl View for LegacyConfig {
    type V = nat;

    closed spec fn view(&self) -> nat {
        self.events as nat
    }
}

impl LegacyConfig {
    #[verifier::type_invariant]
    spec fn inv(&self) -> bool {
        self.events >= 1
    }

    /// The default number of events.
    pub fn new() -> (r: Self)
        ensures
            r@ == DEFAULT_LEGACY_EVENTS,
    {
        LegacyConfig { events: DEFAULT_LEGACY_EVENTS }
    }
}

impl Default for LegacyConfig {
    fn default() -> (r: Self)
        ensures
            r@ == DEFAULT_LEGACY_EVENTS,
    {
        LegacyConfig::new()
    }
}

/// How many events one read asks for: never none.
pub fn legacy_buffer_events(config: &LegacyConfig) -> (r: usize)
    ensures
        r == config@,
        r >= 1,
{
    proof {
        use_type_invariant(config);
    }
    config.events
}

/// Set how many events one read asks for; none is taken as one.
pub fn set_legacy_buffer_events(config: &mut LegacyConfig, n: usize)
    ensures
        final(config)@ == (if n == 0 {
            1
        } else {
            n as nat
        }),
{
    config.events = if n == 0 {
        1
    } else {
        n
    };
}

/// The buffer of a read: on the stack up to the default number of events, on the
/// heap beyond it.
#[verifier::external_body]
#[derive(Debug)]
pub struct LegacyBuffer {
    bytes: SmallVec<[u8; 4800]>,
}

/// The bytes a buffer holds.
pub uninterp spec fn legacy_bytes(buffer: LegacyBuffer) -> Seq<u8>;

/// `SmallVec::new`: a vector without elements.
#[verifier::external_body]
fn empty_buffer() -> (r: LegacyBuffer)
    ensures
        legacy_bytes(r) == Seq::<u8>::empty(),
{
    LegacyBuffer { bytes: SmallVec::new() }
}

/// `SmallVec::resize`: cuts the vector to `len` elements, or appends copies of
/// `value` until it has `len`.  Its storage grows to a power of two, which an
/// allocation holds if `len` is at most half of `isize::MAX`.
#[verifier::external_body]
fn resize_buffer(buffer: &mut LegacyBuffer, len: usize, value: u8)
    requires
        len <= isize::MAX / 2,
    ensures
        legacy_bytes(*final(buffer)).len() == len,
        forall|i: int|
            0 <= i < len ==> #[trigger] legacy_bytes(*final(buffer))[i] == (if i < legacy_bytes(
                *old(buffer),
            ).len() {
                legacy_bytes(*old(buffer))[i]
            } else {
                value
            }),
{
    buffer.bytes.resize(len, value)
}

/// `SmallVec::as_slice`: the elements of the vector, in order.
#[verifier::external_body]
fn buffer_bytes(buffer: &LegacyBuffer) -> (r: &[u8])
    ensures
        r@ == legacy_bytes(*buffer),
{
    buffer.bytes.as_slice()
}

/// `SmallVec::as_mut_slice`: the elements of the vector, in order; what is
/// written to the slice is what the vector then holds.
#[verifier::external_body]
fn buffer_bytes_mut(buffer: &mut LegacyBuffer) -> (r: &mut [u8])
    ensures
        r@ == legacy_bytes(*old(buffer)),
        legacy_bytes(*final(buffer)) == final(r)@,
{
    buffer.bytes.as_mut_slice()
}

impl View for LegacyBuffer {
    type V = Seq<u8>;

    open spec fn view(&self) -> Seq<u8> {
        legacy_bytes(*self)
    }
}

impl LegacyBuffer {
    /// A zeroed buffer for as many events as `config` says.
    pub fn new(config: &LegacyConfig) -> (r: Self)
        requires
            METADATA_SIZE * config@ <= isize::MAX / 2,
        ensures
            r@ == Seq::new(METADATA_SIZE as nat * config@, |i: int| 0u8),
    {
        let count: usize = legacy_buffer_events(config);
        let mut buffer = empty_buffer();
        resize_buffer(&mut buffer, METADATA_SIZE * count, 0);
        assert(buffer@ =~= Seq::new(METADATA_SIZE as nat * config@, |i: int| 0u8));
        buffer
    }

    /// What the buffer holds.
    pub fn bytes(&self) -> (r: &[u8])
        ensures
            r@ == self@,
    {
        buffer_bytes(self)
    }

    /// What the buffer holds, for a read to write to.
    pub fn bytes_mut(&mut self) -> (r: &mut [u8])
        ensures
            r@ == old(self)@,
            final(self)@ == final(r)@,
    {
        buffer_bytes_mut(self)
    }
}

/// Whether a whole event stands at the start of `s`.
pub open spec fn legacy_event_fits(s: Seq<u8>) -> bool {
    &&& s.len() >= METADATA_SIZE
    &&& METADATA_SIZE <= metadata_of(s).event_len <= s.len()
}

/// The headers of the whole events that `s` starts with.
pub open spec fn legacy_headers(s: Seq<u8>) -> Seq<FanMetadata>
    decreases s.len(),
{
    if legacy_event_fits(s) {
        seq![metadata_of(s)] + legacy_headers(s.skip(metadata_of(s).event_len as int))
    } else {
        Seq::empty()
    }
}

/// Whether `event` is the one with this header: a descriptor's path is what
/// `read_link` says, and without a descriptor there is none.
pub open spec fn is_legacy_event<R: Fn(i32) -> Vec<u8>>(
    event: LegacyEvent,
    header: FanMetadata,
    read_link: R,
) -> bool {
    &&& event.mask == header.mask
    &&& event.fd == header.fd
    &&& event.pid == header.pid
    &&& if header.fd >= 0 {
        read_link.ensures((header.fd,), event.path)
    } else {
        event.path@.len() == 0
    }
}

/// Whether `events` are those with these headers, in order.
pub open spec fn are_legacy_events<R: Fn(i32) -> Vec<u8>>(
    events: Seq<LegacyEvent>,
    headers: Seq<FanMetadata>,
    read_link: R,
) -> bool {
    &&& events.len() == headers.len()
    &&& forall|i: int|
        0 <= i < events.len() ==> is_legacy_event(#[trigger] events[i], headers[i], read_link)
}

/// Walk the events of a group without FID identity.
///
/// The walk ends where no whole event is left.  `read_link` gives the path of a
/// descriptor, or an empty one.
pub fn parse_legacy<R: Fn(i32) -> Vec<u8>>(buf: &[u8], read_link: &R) -> (events: Vec<LegacyEvent>)
    requires
        forall|fd: i32| read_link.requires((fd,)),
    ensures
        are_legacy_events(events@, legacy_headers(buf@), *read_link),
{
    let mut events: Vec<LegacyEvent> = Vec::new();
    let mut offset: usize = 0;
    let ghost headers = legacy_headers(buf@);
    proof {
        assert(buf@.skip(0) =~= buf@);
        assert(headers.skip(0) =~= headers);
    }
    while buf.len() - offset >= METADATA_SIZE
        invariant
            offset <= buf.len(),
            headers == legacy_headers(buf@),
            events@.len() <= headers.len(),
            headers.skip(events@.len() as int) == legacy_headers(buf@.skip(offset as int)),
            forall|fd: i32| read_link.requires((fd,)),
            forall|i: int|
                0 <= i < events@.len() ==> is_legacy_event(
                    #[trigger] events@[i],
                    headers[i],
                    *read_link,
                ),
        ensures
            events@.len() == headers.len(),
        decreases buf.len() - offset,
    {
        let ghost tail = buf@.skip(offset as int);
        let meta = FanMetadata::read_at(buf, offset);
        let event_len: usize = meta.event_len as usize;
        if event_len < METADATA_SIZE || event_len > buf.len() - offset {
            proof {
                assert(legacy_headers(tail).len() == 0);
            }
            break;
        }
        let ghost rest = headers.skip(events@.len() as int);
        proof {
            assert(rest[0] == meta);
            assert(headers[events@.len() as int] == rest[0]);
            assert(tail.skip(event_len as int) =~= buf@.skip(offset + event_len));
            assert(headers.skip(events@.len() as int + 1) =~= rest.skip(1));
            assert(rest.skip(1) =~= legacy_headers(tail.skip(event_len as int)));
        }
        let path: Vec<u8> = if meta.fd >= 0 {
            read_link(meta.fd)
        } else {
            Vec::new()
        };
        events.push(LegacyEvent { mask: meta.mask, fd: meta.fd, pid: meta.pid, path });
        offset = offset + event_len;
    }
    events
}

/// What a `read(2)` into `buffer` on a group without FID identity gives: its
/// errno as an error, or the events that were read.
pub fn read_legacy<R: Fn(i32) -> Vec<u8>>(
    reply: Result<usize, i32>,
    buffer: &LegacyBuffer,
    read_link: &R,
) -> (r: Result<Vec<LegacyEvent>, FanotifyError>)
    requires
        reply matches Ok(n) ==> n <= buffer@.len(),
        forall|fd: i32| read_link.requires((fd,)),
    ensures
        match reply {
            Err(code) => r == Err::<Vec<LegacyEvent>, FanotifyError>(FanotifyError::Read(code)),
            Ok(n) => r matches Ok(events) && are_legacy_events(
                events@,
                legacy_headers(buffer@.take(n as int)),
                *read_link,
            ),
        },
{
    match reply {
        Err(code) => Err(FanotifyError::Read(code)),
        Ok(n) => {
            let bytes: &[u8] = buffer.bytes();
            let filled: &[u8] = &bytes[0..n];
            assert(filled@ =~= buffer@.take(n as int));
            Ok(parse_legacy(filled, read_link))
        },
    }
}

/// The descriptor that the event at `i` owns: its number, unless it is negative or
/// an earlier event of the batch carries it.
pub open spec fn owned_descriptor(events: Seq<LegacyEvent>, i: int) -> Option<i32> {
    if events[i].fd < 0 || exists|j: int| 0 <= j < i && (#[trigger] events[j]).fd == events[i].fd {
        None
    } else {
        Some(events[i].fd)
    }
}

/// The descriptor that each event of a batch owns.
///
/// The kernel installs a fresh descriptor per event, so a repeat means the bytes
/// are not what they claim, and two owners would close it twice.
pub fn owned_descriptors(events: &Vec<LegacyEvent>) -> (r: Vec<Option<i32>>)
    ensures
        r@.len() == events@.len(),
        forall|i: int|
            0 <= i < r@.len() ==> (#[trigger] r@[i]) == owned_descriptor(events@, i),
{
    let mut r: Vec<Option<i32>> = Vec::new();
    let mut i: usize = 0;
    while i < events.len()
        invariant
            i <= events@.len(),
            r@.len() == i,
            forall|k: int| 0 <= k < i ==> (#[trigger] r@[k]) == owned_descriptor(events@, k),
        decreases events@.len() - i,
    {
        let fd: i32 = events[i].fd;
        let mut repeated = false;
        let mut j: usize = 0;
        while j < i
            invariant
                j <= i < events@.len(),
                repeated == exists|k: int| 0 <= k < j && (#[trigger] events@[k]).fd == fd,
            decreases i - j,
        {
            if events[j].fd == fd {
                repeated = true;
            }
            j = j + 1;
        }
        r.push(
            if fd < 0 || repeated {
                None
            } else {
                Some(fd)
            },
        );
        i = i + 1;
    }
    r
}

/// No two events of a batch own the same descriptor.
pub proof fn no_descriptor_has_two_owners(events: Seq<LegacyEvent>, i: int, j: int)
    requires
        0 <= i < events.len(),
        0 <= j < events.len(),
        i != j,
        owned_descriptor(events, i) is Some,
    ensures
        owned_descriptor(events, i) != owned_descriptor(events, j),
{
    if i < j {
        assert(events[i].fd == events[i].fd);
    } else {
        assert(events[j].fd == events[j].fd);
    }
}

/// The bytes of a plain answer: `struct fanotify_response`.
pub open spec fn plain_answer(response: FanotifyResponse) -> Seq<u8> {
    u32_bytes(response.spec_fd() as u32) + u32_bytes(response.spec_response())
}

/// Answer an event plainly: `write` performs one `write(2)` on the group.
pub fn write_response<W: Fn(&[u8]) -> Result<usize, i32>>(
    response: &FanotifyResponse,
    write: &W,
) -> (r: Result<(), FanotifyError>)
    requires
        forall|body: &[u8]| #[trigger] write.requires((body,)),
    ensures
        exists|body: &[u8], reply: Result<usize, i32>|
            {
                &&& body@ == plain_answer(*response)
                &&& #[trigger] write.ensures((body,), reply)
                &&& r == (match reply {
                    Ok(_) => Ok(()),
                    Err(code) => Err(FanotifyError::Read(code)),
                })
            },
{
    let f: [u8; 4] = u32_array(response.fd() as u32);
    let w: [u8; 4] = u32_array(response.response());
    let body: [u8; 8] = [f[0], f[1], f[2], f[3], w[0], w[1], w[2], w[3]];
    assert(body@ =~= plain_answer(*response));
    match write(body.as_slice()) {
        Ok(_) => Ok(()),
        Err(code) => Err(FanotifyError::Read(code)),
    }
}

/// A buffer holds no more events than headers fit in it.
pub proof fn legacy_events_are_bounded(buf: Seq<u8>)
    ensures
        legacy_headers(buf).len() * METADATA_SIZE <= buf.len(),
    decreases buf.len(),
{
    if legacy_event_fits(buf) {
        legacy_events_are_bounded(buf.skip(metadata_of(buf).event_len as int));
    }
}

/// What one more event of a batch teaches.
///
/// Nothing that was known changes.  An event without a path teaches nothing.  One
/// with a path teaches it as the path of its own handle; and of the directory that
/// its `DFID_NAME` record names it teaches the path in front of the last component,
/// or the path itself where the record's name is empty.  It teaches nothing else.
pub proof fn an_event_teaches_its_path(
    known: KnownHandles,
    events: Seq<FidEventView>,
    event: FidEventView,
)
    ensures
        ({
            let before = learned(known, events);
            let after = learned(known, events.push(event));
            let names_dir = event.dfid_name_handle is Some && event.dfid_name_filename is Some;
            let dir = event.dfid_name_handle->0;
            let name = event.dfid_name_filename->0;
            let in_a_directory = parts(event.path).len() > 0 && parts(event.path) != seq![
                Part::Root,
            ];
            &&& forall|key: Seq<u8>| #[trigger]
                before.dom().contains(key) ==> after.dom().contains(key) && after[key] == before[key]
            &&& event.path.len() == 0 ==> after == before
            &&& event.path.len() > 0 && event.self_handle is Some ==> after.dom().contains(
                event.self_handle->0,
            )
            &&& event.path.len() > 0 && event.self_handle is Some && !before.dom().contains(
                event.self_handle->0,
            ) ==> after[event.self_handle->0] == event.path
            &&& event.path.len() > 0 && names_dir && (name.len() == 0 || in_a_directory)
                ==> after.dom().contains(dir)
            &&& event.path.len() > 0 && names_dir && !before.dom().contains(dir)
                && event.self_handle != Some(dir) && after.dom().contains(dir) ==> {
                &&& name.len() == 0 ==> after[dir] == event.path
                &&& name.len() > 0 ==> parts(after[dir]) == parts(event.path).drop_last()
                    && after[dir] == event.path.take(after[dir].len() as int)
            }
            &&& forall|key: Seq<u8>| #[trigger]
                after.dom().contains(key) && !before.dom().contains(key) ==> event.self_handle
                    == Some(key) || event.dfid_name_handle == Some(key)
        }),
{
    let longer = events.push(event);
    assert(longer.drop_last() =~= events);
    assert(longer.last() == event);
    a_parent_lacks_the_last_component(event.path);
    a_parent_is_the_front_of_its_path(event.path);
}

/// What an event is given from what is known.
///
/// One that has a path keeps it.  Otherwise the directory of its `DFID_NAME` record
/// is asked for first, and its path with the name behind it is the event's; then
/// its own handle, whose path is the event's as it stands.  An empty path is no
/// answer.  Nothing but the path changes.
pub proof fn a_path_is_recovered_from_what_is_known(
    known: KnownHandles,
    events: Seq<FidEventView>,
    i: int,
)
    requires
        0 <= i < events.len(),
    ensures
        ({
            let event = events[i];
            let after = all_recovered(known, events)[i];
            let named = event.dfid_name_handle is Some && event.dfid_name_filename is Some
                && known.dom().contains(event.dfid_name_handle->0);
            let dir = known[event.dfid_name_handle->0];
            let name = event.dfid_name_filename->0;
            let bytes = encode_utf8(name);
            let owned = event.self_handle is Some && known.dom().contains(event.self_handle->0);
            &&& all_recovered(known, events).len() == events.len()
            &&& after == (FidEventView { path: after.path, ..event })
            &&& event.path.len() > 0 ==> after == event
            &&& event.path.len() == 0 && named && name.len() == 0 && dir.len() > 0 ==> after.path
                == dir
            &&& event.path.len() == 0 && named && name.len() > 0 && bytes.len() > 0 && bytes[0]
                != 0x2f ==> after.path == (if dir.len() > 0 && dir.last() != 0x2f {
                dir + seq![0x2fu8] + bytes
            } else {
                dir + bytes
            })
            &&& event.path.len() == 0 && named && name.len() > 0 && bytes.len() > 0 && bytes[0]
                == 0x2f ==> after.path == bytes
            &&& event.path.len() == 0 && !named && owned ==> after.path
                == known[event.self_handle->0]
            &&& event.path.len() == 0 && named && name.len() == 0 && dir.len() == 0 && owned
                ==> after.path == known[event.self_handle->0]
            &&& !named && !owned ==> after == event
        }),
{
    let event = events[i];
    if event.dfid_name_handle is Some && event.dfid_name_filename is Some {
        let dir = known[event.dfid_name_handle->0];
        let bytes = encode_utf8(event.dfid_name_filename->0);
        assert(dir.push(0x2fu8) + bytes =~= dir + seq![0x2fu8] + bytes);
    }
    if event.self_handle is Some && known.dom().contains(event.self_handle->0) {
        let path = known[event.self_handle->0];
        if path.len() == 0 && event.path.len() == 0 {
            assert(path =~= event.path);
        }
    }
}

/// It is said that something was recovered exactly if some event got a path that
/// had none.
pub proof fn a_recovery_is_reported(known: KnownHandles, events: Seq<FidEventView>)
    ensures
        any_recovers(known, events) <==> exists|i: int|
            0 <= i < events.len() && (#[trigger] events[i]).path.len() == 0 && all_recovered(
                known,
                events,
            )[i].path.len() > 0,
{
    if any_recovers(known, events) {
        let i = choose|i: int|
            0 <= i < events.len() && (#[trigger] recovered_path(known, events[i])) is Some;
        assert(events[i].path.len() == 0);
        assert(all_recovered(known, events)[i].path.len() > 0);
    }
    assert forall|i: int|
        0 <= i < events.len() && (#[trigger] events[i]).path.len() == 0 && all_recovered(
            known,
            events,
        )[i].path.len() > 0 implies any_recovers(known, events) by {
        assert(recovered_path(known, events[i]) is Some);
    }
}

/// How many events of a batch have no path.
pub open spec fn without_path(events: Seq<FidEventView>) -> nat
    decreases events.len(),
{
    if events.len() == 0 {
        0
    } else {
        without_path(events.drop_last()) + if events.last().path.len() == 0 {
            1nat
        } else {
            0nat
        }
    }
}

/// A batch that gains paths and loses none has fewer events without one.
proof fn paths_gained(before: Seq<FidEventView>, after: Seq<FidEventView>)
    requires
        before.len() == after.len(),
        forall|i: int|
            0 <= i < before.len() && (#[trigger] before[i]).path.len() > 0 ==> after[i].path.len()
                > 0,
    ensures
        without_path(after) <= without_path(before),
        (exists|i: int|
            0 <= i < before.len() && (#[trigger] before[i]).path.len() == 0 && after[i].path.len()
                > 0) ==> without_path(after) < without_path(before),
    decreases before.len(),
{
    if before.len() > 0 {
        let x = before.drop_last();
        let y = after.drop_last();
        assert forall|i: int| 0 <= i < x.len() && (#[trigger] x[i]).path.len() > 0 implies y[i]
            .path.len() > 0 by {
            assert(x[i] == before[i]);
        }
        paths_gained(x, y);
        if exists|i: int|
            0 <= i < before.len() && (#[trigger] before[i]).path.len() == 0 && after[i].path.len()
                > 0 {
            let i = choose|i: int|
                0 <= i < before.len() && (#[trigger] before[i]).path.len() == 0
                    && after[i].path.len() > 0;
            if i < x.len() {
                assert(x[i].path.len() == 0 && y[i].path.len() > 0);
            } else {
                assert(before.last() == before[i]);
                assert(after.last() == after[i]);
            }
        }
        if before.last().path.len() > 0 {
            assert(before[before.len() - 1].path.len() > 0);
            assert(after[before.len() - 1].path.len() > 0);
        }
    }
}

/// Recovery leaves nothing that could still be recovered, as long as it is given
/// more passes than events have no path: what it ends with has been learned in
/// full, and gives no event that is left without a path one.
pub proof fn recovery_goes_on_until_nothing_is_left(
    known: KnownHandles,
    events: Seq<FidEventView>,
    passes: nat,
)
    requires
        without_path(events) < passes,
    ensures
        ({
            let after = after_passes(known, events, passes);
            &&& learned(after.0, after.1) == after.0
            &&& all_recovered(after.0, after.1) == after.1
            &&& learned(known, events).submap_of(after.0)
        }),
    decreases passes,
{
    let now = learned(known, events);
    let found = all_recovered(now, events);
    learning_twice_is_learning_once(known, events);
    a_recovery_is_reported(now, events);
    if any_recovers(now, events) {
        assert forall|i: int| 0 <= i < events.len() && (#[trigger] events[i]).path.len()
            > 0 implies found[i].path.len() > 0 by {}
        paths_gained(events, found);
        recovery_goes_on_until_nothing_is_left(now, found, (passes - 1) as nat);
        learning_forgets_nothing(now, found);
        let after = after_passes(known, events, passes);
        submaps_chain(now, learned(now, found), after.0);
    } else {
        assert forall|i: int| 0 <= i < events.len() implies #[trigger] found[i] == events[i] by {
            assert(recovered_path(now, events[i]) is None);
        }
        assert(found =~= events);
    }
}

/// An event that is as long as it says is walked past.
proof fn a_legacy_event_is_walked_past(s: Seq<u8>, tail: Seq<u8>)
    requires
        s.len() >= 24,
        u32_of(s.subrange(0, 4)) == s.len(),
    ensures
        legacy_headers(s + tail) == seq![metadata_of(s)] + legacy_headers(tail),
{
    let whole = s + tail;
    assert(whole.subrange(0, 4) =~= s.subrange(0, 4));
    assert(whole.subrange(6, 8) =~= s.subrange(6, 8));
    assert(whole.subrange(8, 16) =~= s.subrange(8, 16));
    assert(whole.subrange(16, 20) =~= s.subrange(16, 20));
    assert(whole.subrange(20, 24) =~= s.subrange(20, 24));
    assert(metadata_of(whole) == metadata_of(s));
    assert(whole.skip(s.len() as int) =~= tail);
}

/// A header that was written is read back, all of it, and the walk goes on behind
/// the event it belongs to, of whatever version that is.
pub proof fn a_legacy_header_reads_back(header: Header, records: Seq<u8>, tail: Seq<u8>)
    requires
        can_be_written(header, records),
    ensures
        legacy_headers(event_bytes(header, records) + tail) == seq![
            FanMetadata {
                event_len: (24 + header.extra.len() + records.len()) as u32,
                vers: header.vers,
                reserved: header.reserved,
                metadata_len: header.metadata_len,
                mask: header.mask,
                fd: header.fd,
                pid: header.pid,
            },
        ] + legacy_headers(tail),
{
    header_fields(header, records);
    a_legacy_event_is_walked_past(event_bytes(header, records), tail);
}

/// Bytes that are too few for a header, or that claim an event which is shorter
/// than one or reaches past them, end the walk.
pub proof fn a_broken_legacy_header_ends_the_walk(tail: Seq<u8>)
    requires
        tail.len() < 24 || u32_of(tail.subrange(0, 4)) < 24 || u32_of(tail.subrange(0, 4))
            > tail.len(),
    ensures
        legacy_headers(tail).len() == 0,
{
}

/// A legacy event says what its header says.  Its path is what the link of its
/// descriptor holds, and empty where there is no descriptor.
pub proof fn a_legacy_event_says_what_its_header_says<R: Fn(i32) -> Vec<u8>>(
    events: Seq<LegacyEvent>,
    headers: Seq<FanMetadata>,
    read_link: R,
    i: int,
)
    requires
        are_legacy_events(events, headers, read_link),
        0 <= i < headers.len(),
    ensures
        events.len() == headers.len(),
        events[i].mask == headers[i].mask,
        events[i].fd == headers[i].fd,
        events[i].pid == headers[i].pid,
        headers[i].fd < 0 ==> events[i].path@ == Seq::<u8>::empty(),
        headers[i].fd >= 0 ==> read_link.ensures((headers[i].fd,), events[i].path),
{
    assert(is_legacy_event(events[i], headers[i], read_link));
}

/// The first event of a batch that carries a descriptor owns it, and no other
/// event does.
pub proof fn the_first_to_carry_a_descriptor_owns_it(events: Seq<LegacyEvent>, i: int)
    requires
        0 <= i < events.len(),
    ensures
        events[i].fd >= 0 && (forall|j: int|
            0 <= j < i ==> (#[trigger] events[j]).fd != events[i].fd) ==> owned_descriptor(
            events,
            i,
        ) == Some(events[i].fd),
        events[i].fd < 0 ==> owned_descriptor(events, i) is None,
        forall|j: int|
            0 <= j < i && (#[trigger] events[j]).fd == events[i].fd ==> owned_descriptor(
                events,
                i,
            ) is None,
{
}

/// A plain answer is the descriptor and the word that it was made of.
pub proof fn a_plain_answer_is_eight_bytes(fd: i32, word: u32, response: FanotifyResponse)
    requires
        call_ensures(FanotifyResponse::new, (fd, word), response),
    ensures
        plain_answer(response) == i32_bytes(fd) + u32_bytes(word),
        plain_answer(response).len() == 8,
{
    i32_round_trip(fd);
    u32_round_trip(word);
}

/// A read is given the caller's buffer, or 65536 bytes where that is smaller.
pub proof fn a_read_is_never_small(capacity: usize, r: usize)
    requires
        call_ensures(fid_read_size, (capacity,), r),
    ensures
        r >= 65536,
        r >= capacity,
        r == capacity || r == 65536,
{
}

/// A batch of which fewer than ten events have no path is recovered as far as it
/// can be.
pub proof fn a_small_batch_is_recovered_in_full(known: KnownHandles, events: Seq<FidEventView>)
    requires
        without_path(events) < 10,
    ensures
        ({
            let after = after_passes(known, events, MAX_PASSES as nat);
            &&& learned(after.0, after.1) == after.0
            &&& all_recovered(after.0, after.1) == after.1
        }),
{
    recovery_goes_on_until_nothing_is_left(known, events, MAX_PASSES as nat);
}

/// A cache learns from a batch and a batch is recovered from a cache in place, ten
/// passes at most.
pub proof fn a_batch_is_recovered_in_place()
    ensures
        forall|cache: &mut HandleCache, events: &Vec<FidEvent>|
            #[trigger] call_ensures(learn, (cache, events), ()) ==> final(cache)@ == learned(
                (*cache)@,
                event_views(events@),
            ),
        forall|events: &mut Vec<FidEvent>, cache: &HandleCache, r: bool|
            #[trigger] call_ensures(resolve_with_cache, (events, cache), r) ==> event_views(
                final(events)@,
            ) == all_recovered(cache@, event_views((*events)@)) && r == any_recovers(
                cache@,
                event_views((*events)@),
            ),
        forall|events: &mut Vec<FidEvent>, cache: &mut HandleCache|
            #[trigger] call_ensures(recover_paths, (events, cache), ()) ==> (
                final(cache)@,
                event_views(final(events)@),
            ) == after_passes((*cache)@, event_views((*events)@), 10),
{
}

/// The number of events to read at a time is what was asked for, and never zero; it
/// is 200 where nothing was asked for.
pub proof fn a_legacy_read_asks_for_an_event()
    ensures
        forall|config: &mut LegacyConfig, n: usize|
            #[trigger] call_ensures(set_legacy_buffer_events, (config, n), ()) ==> final(config)@
                >= 1 && (n > 0 ==> final(config)@ == n) && (n == 0 ==> final(config)@ == 1),
        forall|config: LegacyConfig|
            #[trigger] call_ensures(LegacyConfig::new, (), config) ==> config@ == 200,
        forall|config: &LegacyConfig, r: usize|
            #[trigger] call_ensures(legacy_buffer_events, (config,), r) ==> r == config@,
        forall|config: &LegacyConfig, r: LegacyBuffer|
            #[trigger] call_ensures(LegacyBuffer::new, (config,), r) ==> r@.len() == 24 * config@
                && forall|i: int| 0 <= i < r@.len() ==> #[trigger] r@[i] == 0,
{
}

/// What a read returned is parsed as far as it went, and a failure keeps its errno.
pub proof fn a_legacy_read_is_parsed_as_far_as_it_went<R: Fn(i32) -> Vec<u8>>(
    reply: Result<usize, i32>,
    buffer: &LegacyBuffer,
    read_link: R,
    r: Result<Vec<LegacyEvent>, FanotifyError>,
)
    requires
        call_ensures(read_legacy::<R>, (reply, buffer, &read_link), r),
    ensures
        reply matches Err(code) ==> r == Err::<Vec<LegacyEvent>, FanotifyError>(
            FanotifyError::Read(code),
        ),
        reply matches Ok(n) ==> r is Ok && are_legacy_events(
            r->Ok_0@,
            legacy_headers(buffer@.take(n as int)),
            read_link,
        ),
{
}

/// A plain answer is written whole, and a failed write keeps its errno.
pub proof fn a_plain_answer_is_written<W: Fn(&[u8]) -> Result<usize, i32>>(
    fd: i32,
    word: u32,
    response: FanotifyResponse,
    write: W,
    r: Result<(), FanotifyError>,
)
    requires
        call_ensures(FanotifyResponse::new, (fd, word), response),
        call_ensures(write_response::<W>, (&response, &write), r),
    ensures
        exists|body: &[u8], reply: Result<usize, i32>|
            {
                &&& body@ == i32_bytes(fd) + u32_bytes(word)
                &&& #[trigger] write.ensures((body,), reply)
                &&& (r is Ok <==> reply is Ok)
                &&& (reply matches Err(code) ==> r == Err::<(), FanotifyError>(
                    FanotifyError::Read(code),
                ))
            },
{
    a_plain_answer_is_eight_bytes(fd, word, response);
}

/// A read that failed is reported with its errno and teaches nothing, and one that
/// returned nothing gives no events.
pub proof fn a_failed_read_gives_nothing<C: PathStore, F: Fn(i32, &[u8]) -> OpenReply>()
    ensures
        forall|
            reply: Result<usize, i32>,
            buf: &[u8],
            resolver: &mut PathResolver<C>,
            open: &F,
            r: Result<Vec<FidEvent>, FanotifyError>,
        |
            #[trigger] call_ensures(
                read_fid_events::<C, F>,
                (reply, buf, resolver, open, None::<&mut HandleCache>),
                r,
            ) ==> match reply {
                Err(code) => r == Err::<Vec<FidEvent>, FanotifyError>(FanotifyError::Read(code))
                    && final(resolver).sources() == (*resolver).sources(),
                Ok(n) => r is Ok && (n == 0 ==> r->Ok_0@.len() == 0) && (n > 0 ==> is_parse(
                    *open,
                    (*resolver).sources(),
                    final(resolver).sources().known,
                    C::keeps_all(),
                    buf@.take(n as int),
                    event_views(r->Ok_0@),
                )),
            },
{
}

} // verus!
