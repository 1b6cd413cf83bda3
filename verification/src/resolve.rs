//! Turning the handles an event carries into paths, consistently.
//!
//! A stream of events asks about one handle again and again, and a handle costs a
//! privileged system call every time the filesystem is asked.  Worse, an answer
//! that changes between two calls about one handle is not a slower answer but a
//! wrong one.  So what was learned lives in a [`PathStore`], which is asked first,
//! and the resolver holds the guarantee that one handle resolves to one answer.
//!
//! The forms with `memo` in their name record what they learn; the others only
//! read.  The system calls are made through `open`, which the caller supplies: see
//! [`handle`](crate::handle).
use vstd::prelude::*;

use crate::bytes::opt_vec;
use crate::consts::EXDEV;
use crate::fid::{event_views, FidEvent, FidEventView};
use crate::handle::{
    can_open, is_handle_shaped, is_walk, may_reply, may_resolve, resolve_file_handle_in,
    result_view, selected, walk_result, Candidate, HandleError, Mounts, OpenReply,
};
use crate::path::{
    joined_path, no_slash, part_of, parts, pushed, pushing_a_name_appends_one_component, Part, DOT,
    SLASH,
};
use crate::store::{
    left_by_lookup, lookup, recorded, Fsid, HandleCache, KnownPaths, PathStore,
};

verus! {

/// What a resolver answers from.
pub struct Sources {
    /// What its store knows.
    pub known: KnownPaths,
    /// The mount descriptors it may use.
    pub mounts: Seq<Candidate>,
    /// Whether it may ask the filesystem at all.
    pub may_ask: bool,
}

/// Whether resolving a handle may come to `result`: what the store knows, and
/// only where it knows nothing what the filesystem says.
pub open spec fn handle_result<F: Fn(i32, &[u8]) -> OpenReply>(
    open: F,
    sources: Sources,
    fsid: Fsid,
    handle: Seq<u8>,
    result: Result<Seq<u8>, HandleError>,
) -> bool {
    match lookup(sources.known, fsid, handle) {
        Some(path) => result == Ok::<Seq<u8>, HandleError>(path),
        None => if !sources.may_ask {
            result == Err::<Seq<u8>, HandleError>(HandleError::Os(EXDEV))
        } else {
            may_resolve(open, sources.mounts, Some(fsid), handle, result)
        },
    }
}

/// Whether resolving a handle and recording the answer may come to `result`, and
/// to what is known `after`.
pub open spec fn handle_memo<F: Fn(i32, &[u8]) -> OpenReply>(
    open: F,
    sources: Sources,
    after: KnownPaths,
    keeps_all: bool,
    fsid: Fsid,
    handle: Seq<u8>,
    result: Result<Seq<u8>, HandleError>,
) -> bool {
    exists|left: KnownPaths|
        {
            &&& #[trigger] left_by_lookup(sources.known, left, keeps_all)
            &&& handle_result(open, Sources { known: left, ..sources }, fsid, handle, result)
            &&& match result {
                Ok(path) => recorded(left, after, (fsid, handle), path, keeps_all),
                Err(_) => after == left,
            }
        }
}

/// Whether a resolver that only looked things up may have gone from `before` to
/// `after`.
pub open spec fn only_looked_up(before: Sources, after: Sources, keeps_all: bool) -> bool {
    &&& after == (Sources { known: after.known, ..before })
    &&& left_by_lookup(before.known, after.known, keeps_all)
}

/// Whether an entry name stands for the directory itself.
pub open spec fn names_the_directory(name: Seq<u8>) -> bool {
    name.len() == 0 || name == seq![DOT]
}

/// Whether bytes can be an entry name: one path component, and not `..`, which
/// is no entry of a directory.
pub open spec fn is_entry_name(name: Seq<u8>) -> bool {
    names_the_directory(name) || (!name.contains(SLASH) && !name.contains(0u8) && name != seq![
        DOT,
        DOT,
    ])
}

/// The path of an entry of a directory.
pub open spec fn entry_path(dir: Seq<u8>, name: Seq<u8>) -> Seq<u8> {
    if names_the_directory(name) {
        dir
    } else {
        pushed(dir, name)
    }
}

/// Whether the directory half of an entry may resolve to `dir`.  A name that
/// cannot be one is refused before anything is asked.
pub open spec fn dir_half<F: Fn(i32, &[u8]) -> OpenReply>(
    open: F,
    sources: Sources,
    fsid: Fsid,
    handle: Seq<u8>,
    name: Seq<u8>,
    dir: Result<Seq<u8>, HandleError>,
) -> bool {
    if !is_entry_name(name) {
        dir == Err::<Seq<u8>, HandleError>(HandleError::InvalidInput)
    } else {
        handle_result(open, sources, fsid, handle, dir)
    }
}

/// The path of an entry, given its directory.
pub open spec fn entry_result(
    dir: Result<Seq<u8>, HandleError>,
    name: Seq<u8>,
) -> Result<Seq<u8>, HandleError> {
    match dir {
        Ok(dir) => Ok(entry_path(dir, name)),
        Err(error) => Err(error),
    }
}

/// Whether resolving an entry of a directory may come to `result`.
pub open spec fn dir_result<F: Fn(i32, &[u8]) -> OpenReply>(
    open: F,
    sources: Sources,
    fsid: Fsid,
    handle: Seq<u8>,
    name: Seq<u8>,
    result: Result<Seq<u8>, HandleError>,
) -> bool {
    exists|dir: Result<Seq<u8>, HandleError>| #[trigger]
        dir_half(open, sources, fsid, handle, name, dir) && result == entry_result(dir, name)
}

/// A directory handle and an entry name in it.
pub struct Shape {
    /// The directory's handle, or an object's own.
    pub handle: Seq<u8>,
    /// The entry's name; empty for the object itself.
    pub name: Seq<u8>,
}

/// The parent and name of a `DFID_NAME` record, if the event has one.
pub open spec fn entry_shape(event: FidEventView) -> Seq<Shape> {
    match event.dfid_name_handle {
        Some(handle) => seq![
            Shape {
                handle,
                name: match event.dfid_name_name {
                    Some(name) => name,
                    None => Seq::empty(),
                },
            },
        ],
        None => Seq::empty(),
    }
}

/// The source side of a rename, if the event has one.
pub open spec fn source_shape(event: FidEventView) -> Seq<Shape> {
    match event.rename_source {
        Some(side) => seq![Shape { handle: side.handle, name: side.name }],
        None => Seq::empty(),
    }
}

/// The object's own handle, if the event has one.
pub open spec fn object_shape(event: FidEventView) -> Seq<Shape> {
    match event.self_handle {
        Some(handle) => seq![Shape { handle, name: Seq::empty() }],
        None => Seq::empty(),
    }
}

/// What an event names, in the order it is tried.
pub open spec fn shapes(event: FidEventView) -> Seq<Shape> {
    entry_shape(event) + source_shape(event) + object_shape(event)
}

/// One attempt: what the directory half of a shape came to, and what the store
/// knew once it had been asked.
pub struct Attempt {
    /// What the store's lookup left.
    pub left: KnownPaths,
    /// What the directory half came to.
    pub dir: Result<Seq<u8>, HandleError>,
}

/// What the store knows before the `k`-th attempt.
pub open spec fn known_before(known: KnownPaths, tries: Seq<Attempt>, k: int) -> KnownPaths {
    if k <= 0 {
        known
    } else {
        tries[k - 1].left
    }
}

/// What the store knows after all attempts.
pub open spec fn left_by(known: KnownPaths, tries: Seq<Attempt>) -> KnownPaths {
    known_before(known, tries, tries.len() as int)
}

/// Whether an attempt at a shape may have gone this way, from what was known.  A
/// name that cannot be one is refused before the store is asked.
pub open spec fn is_attempt<F: Fn(i32, &[u8]) -> OpenReply>(
    open: F,
    sources: Sources,
    keeps_all: bool,
    fsid: Fsid,
    shape: Shape,
    attempt: Attempt,
) -> bool {
    &&& left_by_lookup(sources.known, attempt.left, keeps_all)
    &&& !is_entry_name(shape.name) ==> attempt.left == sources.known
    &&& dir_half(
        open,
        Sources { known: attempt.left, ..sources },
        fsid,
        shape.handle,
        shape.name,
        attempt.dir,
    )
}

/// Whether trying `list` in turn may have gone this way: each attempt is at its
/// shape, and the first success ends it.
pub open spec fn are_attempts<F: Fn(i32, &[u8]) -> OpenReply>(
    open: F,
    sources: Sources,
    keeps_all: bool,
    fsid: Fsid,
    list: Seq<Shape>,
    tries: Seq<Attempt>,
) -> bool {
    &&& tries.len() <= list.len()
    &&& forall|k: int|
        0 <= k < tries.len() ==> is_attempt(
            open,
            Sources { known: known_before(sources.known, tries, k), ..sources },
            keeps_all,
            fsid,
            list[k],
            #[trigger] tries[k],
        )
    &&& forall|k: int| 0 <= k < tries.len() - 1 ==> (#[trigger] tries[k]).dir is Err
    &&& tries.len() < list.len() ==> succeeded(tries)
}

/// Whether attempts ended in a path.
pub open spec fn succeeded(tries: Seq<Attempt>) -> bool {
    tries.len() > 0 && tries.last().dir is Ok
}

/// The path that successful attempts ended in.
pub open spec fn found_path(list: Seq<Shape>, tries: Seq<Attempt>) -> Seq<u8> {
    entry_path(tries.last().dir->Ok_0, list[tries.len() - 1].name)
}

/// What resolving one event did.
#[non_exhaustive]
#[derive(Debug, Clone, Copy, PartialEq, Eq, Structural)]
pub enum EventResolution {
    /// The event now carries a path.
    Resolved,
    /// It already carried one, so nothing was done.
    AlreadyResolved,
    /// Its records name no object with a filesystem: an overflow, or a mount
    /// event, which names a mount rather than a file.
    NothingToResolve,
    /// It names an object, and the answer was not available.  The handles and
    /// names are still on the event.
    Unresolvable,
}

/// Whether attempts turn an event `before` into `after` with this outcome.
pub open spec fn attempts_outcome(
    before: FidEventView,
    after: FidEventView,
    outcome: EventResolution,
    tries: Seq<Attempt>,
) -> bool {
    if succeeded(tries) {
        &&& outcome == EventResolution::Resolved
        &&& after == (FidEventView { path: Some(found_path(shapes(before), tries)), ..before })
    } else {
        &&& outcome == EventResolution::Unresolvable
        &&& after == before
    }
}

/// Whether an event needs no attempt, and what is said of it then.
pub open spec fn settled_outcome(before: FidEventView) -> Option<EventResolution> {
    if before.path is Some {
        Some(EventResolution::AlreadyResolved)
    } else if before.fsid is None {
        Some(EventResolution::NothingToResolve)
    } else {
        None
    }
}

/// Whether resolving an event may turn `before` into `after`, and what was known
/// into `known_after`, with this outcome.
pub open spec fn event_step<F: Fn(i32, &[u8]) -> OpenReply>(
    open: F,
    sources: Sources,
    known_after: KnownPaths,
    keeps_all: bool,
    before: FidEventView,
    after: FidEventView,
    outcome: EventResolution,
) -> bool {
    match settled_outcome(before) {
        Some(settled) => outcome == settled && after == before && known_after == sources.known,
        None => exists|tries: Seq<Attempt>| #[trigger]
            are_attempts(open, sources, keeps_all, before.fsid->0, shapes(before), tries)
                && attempts_outcome(before, after, outcome, tries) && known_after == left_by(
                sources.known,
                tries,
            ),
    }
}

/// Whether recording the result of attempts may lead to what is known `after`:
/// the directory is recorded under its handle, and an entry's path under the
/// entry's own handle, if the event carries one.
pub open spec fn attempts_recorded(
    known: KnownPaths,
    after: KnownPaths,
    event: FidEventView,
    tries: Seq<Attempt>,
    keeps_all: bool,
) -> bool {
    let left = left_by(known, tries);
    if !succeeded(tries) {
        after == left
    } else {
        let fsid = event.fsid->0;
        let shape = shapes(event)[tries.len() - 1];
        let dir = tries.last().dir->Ok_0;
        if tries.len() <= entry_shape(event).len() && event.self_handle is Some {
            exists|middle: KnownPaths| #[trigger]
                recorded(left, middle, (fsid, shape.handle), dir, keeps_all) && recorded(
                    middle,
                    after,
                    (fsid, event.self_handle->0),
                    found_path(shapes(event), tries),
                    keeps_all,
                )
        } else {
            recorded(left, after, (fsid, shape.handle), dir, keeps_all)
        }
    }
}

/// Whether resolving an event and recording what was learned may turn `before`
/// into `after`, and what was known into `known_after`, with this outcome.
pub open spec fn event_step_memo<F: Fn(i32, &[u8]) -> OpenReply>(
    open: F,
    sources: Sources,
    known_after: KnownPaths,
    keeps_all: bool,
    before: FidEventView,
    after: FidEventView,
    outcome: EventResolution,
) -> bool {
    match settled_outcome(before) {
        Some(settled) => outcome == settled && after == before && known_after == sources.known,
        None => exists|tries: Seq<Attempt>| #[trigger]
            are_attempts(open, sources, keeps_all, before.fsid->0, shapes(before), tries)
                && attempts_outcome(before, after, outcome, tries) && attempts_recorded(
                sources.known,
                known_after,
                before,
                tries,
                keeps_all,
            ),
    }
}

/// How many outcomes are `which`.
pub open spec fn count_of(outcomes: Seq<EventResolution>, which: EventResolution) -> nat
    decreases outcomes.len(),
{
    if outcomes.len() == 0 {
        0
    } else {
        count_of(outcomes.drop_last(), which) + if outcomes.last() == which {
            1nat
        } else {
            0nat
        }
    }
}

/// What a call did to a batch.
///
/// The counts describe **the last pass that resolved something**, `passes`
/// included; a batch that never resolved anything reports its first pass.
#[derive(Debug, Clone, Copy, PartialEq, Eq, Structural)]
pub struct Resolution {
    /// Events that pass **newly** resolved.
    pub resolved: usize,
    /// Events that already carried a path when that pass reached them.
    pub already_resolved: usize,
    /// Events left without a path.
    pub unresolved: usize,
    /// Passes it took, at least one.
    pub passes: usize,
}

impl Default for Resolution {
    fn default() -> (r: Self)
        ensures
            r == (Resolution { resolved: 0, already_resolved: 0, unresolved: 0, passes: 0 }),
    {
        Resolution { resolved: 0, already_resolved: 0, unresolved: 0, passes: 0 }
    }
}

/// Whether `r` is the account of the `passes`-th pass with these outcomes.
pub open spec fn is_account(r: Resolution, outcomes: Seq<EventResolution>, passes: int) -> bool {
    &&& r.resolved == count_of(outcomes, EventResolution::Resolved)
    &&& r.already_resolved == count_of(outcomes, EventResolution::AlreadyResolved)
    &&& r.unresolved == count_of(outcomes, EventResolution::NothingToResolve) + count_of(
        outcomes,
        EventResolution::Unresolvable,
    )
    &&& r.passes == passes
}

/// One pass over a batch.
pub struct Pass {
    /// What was known before each event, and after the last.
    pub known: Seq<KnownPaths>,
    /// The events before the pass.
    pub before: Seq<FidEventView>,
    /// The events after it.
    pub after: Seq<FidEventView>,
    /// What became of each.
    pub outcomes: Seq<EventResolution>,
}

/// Whether a pass that records nothing may have gone this way.
pub open spec fn is_pass<F: Fn(i32, &[u8]) -> OpenReply>(
    open: F,
    mounts: Seq<Candidate>,
    may_ask: bool,
    keeps_all: bool,
    pass: Pass,
) -> bool {
    &&& pass.after.len() == pass.before.len()
    &&& pass.outcomes.len() == pass.before.len()
    &&& pass.known.len() == pass.before.len() + 1
    &&& forall|i: int|
        0 <= i < pass.before.len() ==> event_step(
            open,
            Sources { known: pass.known[i], mounts, may_ask },
            pass.known[i + 1],
            keeps_all,
            #[trigger] pass.before[i],
            pass.after[i],
            pass.outcomes[i],
        )
}

/// Whether a pass that records what it learns may have gone this way.
pub open spec fn is_pass_memo<F: Fn(i32, &[u8]) -> OpenReply>(
    open: F,
    mounts: Seq<Candidate>,
    may_ask: bool,
    keeps_all: bool,
    pass: Pass,
) -> bool {
    &&& pass.after.len() == pass.before.len()
    &&& pass.outcomes.len() == pass.before.len()
    &&& pass.known.len() == pass.before.len() + 1
    &&& forall|i: int|
        0 <= i < pass.before.len() ==> event_step_memo(
            open,
            Sources { known: pass.known[i], mounts, may_ask },
            pass.known[i + 1],
            keeps_all,
            #[trigger] pass.before[i],
            pass.after[i],
            pass.outcomes[i],
        )
}

/// Whether a pass resolved something.
pub open spec fn is_productive(pass: Pass) -> bool {
    count_of(pass.outcomes, EventResolution::Resolved) > 0
}

/// Whether passes follow one another, from `known` and `events` on: each starts
/// where the one before it ended, and each resolved something.
pub open spec fn are_productive_passes<F: Fn(i32, &[u8]) -> OpenReply>(
    open: F,
    mounts: Seq<Candidate>,
    may_ask: bool,
    keeps_all: bool,
    known: KnownPaths,
    events: Seq<FidEventView>,
    passes: Seq<Pass>,
) -> bool {
    forall|k: int|
        0 <= k < passes.len() ==> {
            &&& is_pass_memo(open, mounts, may_ask, keeps_all, #[trigger] passes[k])
            &&& is_productive(passes[k])
            &&& passes[k].before == events_after(events, passes, k)
            &&& passes[k].known[0] == known_after_passes(known, passes, k)
        }
}

/// The events after the first `k` passes.
pub open spec fn events_after(events: Seq<FidEventView>, passes: Seq<Pass>, k: int) -> Seq<
    FidEventView,
> {
    if k <= 0 {
        events
    } else {
        passes[k - 1].after
    }
}

/// What is known after the first `k` passes.
pub open spec fn known_after_passes(known: KnownPaths, passes: Seq<Pass>, k: int) -> KnownPaths {
    if k <= 0 {
        known
    } else {
        passes[k - 1].known.last()
    }
}

/// Whether `passes` followed by `last` are a whole run: every pass but the last
/// resolved something, and the last resolved nothing.
pub open spec fn is_run<F: Fn(i32, &[u8]) -> OpenReply>(
    open: F,
    sources: Sources,
    keeps_all: bool,
    events: Seq<FidEventView>,
    passes: Seq<Pass>,
    last: Pass,
) -> bool {
    &&& are_productive_passes(
        open,
        sources.mounts,
        sources.may_ask,
        keeps_all,
        sources.known,
        events,
        passes,
    )
    &&& is_pass_memo(open, sources.mounts, sources.may_ask, keeps_all, last)
    &&& !is_productive(last)
    &&& last.before == events_after(events, passes, passes.len() as int)
    &&& last.known[0] == known_after_passes(sources.known, passes, passes.len() as int)
}

/// Whether `r` reports a run: its last pass that resolved something, or its only
/// pass.
pub open spec fn reports_run(r: Resolution, passes: Seq<Pass>, last: Pass) -> bool {
    if passes.len() == 0 {
        is_account(r, last.outcomes, 1)
    } else {
        is_account(r, passes.last().outcomes, passes.len() as int)
    }
}

/// How many events of a batch carry no path.
pub open spec fn pathless(events: Seq<FidEventView>) -> nat
    decreases events.len(),
{
    if events.len() == 0 {
        0
    } else {
        pathless(events.drop_last()) + if events.last().path is None {
            1nat
        } else {
            0nat
        }
    }
}

/// No more events carry no path than there are.
proof fn pathless_is_bounded(events: Seq<FidEventView>)
    ensures
        pathless(events) <= events.len(),
    decreases events.len(),
{
    if events.len() > 0 {
        pathless_is_bounded(events.drop_last());
    }
}

/// Every event a pass resolves carries a path from then on, and no other gains
/// or loses one.
proof fn settling_counts(
    before: Seq<FidEventView>,
    after: Seq<FidEventView>,
    outcomes: Seq<EventResolution>,
)
    requires
        after.len() == before.len(),
        outcomes.len() == before.len(),
        forall|i: int|
            0 <= i < before.len() ==> ((#[trigger] outcomes[i]) is Resolved ==> before[i].path is None
                && after[i].path is Some) && (outcomes[i] !is Resolved ==> (before[i].path is None)
                == (after[i].path is None)),
    ensures
        pathless(after) + count_of(outcomes, EventResolution::Resolved) == pathless(before),
    decreases before.len(),
{
    if before.len() > 0 {
        let n = before.len() - 1;
        assert(outcomes.last() == outcomes[n]);
        assert forall|i: int| 0 <= i < n implies ((#[trigger] outcomes.drop_last()[i]) is Resolved
            ==> before.drop_last()[i].path is None && after.drop_last()[i].path is Some) && (
        outcomes.drop_last()[i] !is Resolved ==> (before.drop_last()[i].path is None) == (
        after.drop_last()[i].path is None)) by {
            assert(outcomes.drop_last()[i] == outcomes[i]);
        }
        settling_counts(before.drop_last(), after.drop_last(), outcomes.drop_last());
    }
}

/// A pass leaves as many fewer events without a path as it resolved.
proof fn a_pass_settles_what_it_resolves<F: Fn(i32, &[u8]) -> OpenReply>(
    open: F,
    mounts: Seq<Candidate>,
    may_ask: bool,
    keeps_all: bool,
    pass: Pass,
)
    requires
        is_pass_memo(open, mounts, may_ask, keeps_all, pass),
    ensures
        pathless(pass.after) + count_of(pass.outcomes, EventResolution::Resolved) == pathless(
            pass.before,
        ),
{
    assert forall|i: int| 0 <= i < pass.before.len() implies ((
    #[trigger] pass.outcomes[i]) is Resolved ==> pass.before[i].path is None
        && pass.after[i].path is Some) && (pass.outcomes[i] !is Resolved ==> (
    pass.before[i].path is None) == (pass.after[i].path is None)) by {
        let event = pass.before[i];
    }
    settling_counts(pass.before, pass.after, pass.outcomes);
}

/// Resolves the handles of FID events from a store and a set of mounts.
#[derive(Debug)]
pub struct PathResolver<C = HandleCache> {
    store: C,
    mounts: Mounts,
    syscall_fallback: bool,
}

impl PathResolver<HandleCache> {
    /// A resolver that knows nothing yet and may ask the filesystem.
    pub fn new(mounts: Mounts) -> (r: Self)
        ensures
            r.stored()@ == Map::<(Fsid, Seq<u8>), Seq<u8>>::empty(),
            r.sources() == (Sources { known: Map::empty(), mounts: mounts@, may_ask: true }),
    {
        PathResolver { store: HandleCache::new(), mounts, syscall_fallback: true }
    }
}

impl<C: PathStore> PathResolver<C> {
    /// The store.
    pub closed spec fn stored(&self) -> C {
        self.store
    }

    /// What the resolver answers from.
    pub closed spec fn sources(&self) -> Sources {
        Sources {
            known: self.store.known(),
            mounts: self.mounts@,
            may_ask: self.syscall_fallback,
        }
    }

    /// A resolver that reads from `store` and may ask the filesystem for the
    /// rest.
    pub fn with_store(mounts: Mounts, store: C) -> (r: Self)
        ensures
            r.stored() == store,
            r.sources() == (Sources { known: store.known(), mounts: mounts@, may_ask: true }),
    {
        PathResolver { store, mounts, syscall_fallback: true }
    }

    /// Allow or forbid asking the filesystem.
    ///
    /// With it off, a handle the store does not know is `EXDEV` and no system
    /// call is made.
    pub fn set_syscall_fallback(&mut self, enabled: bool) -> (r: &mut Self)
        ensures
            r.stored() == old(self).stored(),
            r.sources() == (Sources { may_ask: enabled, ..old(self).sources() }),
            *final(self) == *final(r),
    {
        self.syscall_fallback = enabled;
        self
    }

    /// The store this resolver reads.
    pub fn store(&self) -> (r: &C)
        ensures
            *r == self.stored(),
            r.known() == self.sources().known,
    {
        &self.store
    }

    /// The store, to record or forget in.
    pub fn store_mut(&mut self) -> (r: &mut C)
        ensures
            *r == old(self).stored(),
            r.known() == old(self).sources().known,
            final(self).stored() == *final(r),
            final(self).sources() == (Sources {
                known: final(r).known(),
                ..old(self).sources()
            }),
    {
        &mut self.store
    }

    /// The mount descriptors this resolver may use.
    pub fn mounts(&self) -> (r: &Mounts)
        ensures
            r@ == self.sources().mounts,
    {
        &self.mounts
    }

    /// The path this resolver already knows for a handle.
    ///
    /// No system call: the way to ask "do I already know?".
    pub fn known(&mut self, fsid: Fsid, handle: &[u8]) -> (r: Option<Vec<u8>>)
        ensures
            opt_vec(r) == lookup(final(self).sources().known, fsid, handle@),
            only_looked_up(old(self).sources(), final(self).sources(), C::keeps_all()),
    {
        self.store.get(fsid, handle)
    }

    /// Resolve one handle: from the store if it knows it, and otherwise by asking
    /// the filesystem.  Nothing is recorded.
    pub fn resolve_handle<F: Fn(i32, &[u8]) -> OpenReply>(
        &mut self,
        fsid: Fsid,
        handle: &[u8],
        open: &F,
    ) -> (r: Result<Vec<u8>, HandleError>)
        requires
            can_open(*open),
        ensures
            handle_result(*open, final(self).sources(), fsid, handle@, result_view(r)),
            only_looked_up(old(self).sources(), final(self).sources(), C::keeps_all()),
    {
        match self.store.get(fsid, handle) {
            Some(path) => Ok(path),
            None => {
                if !self.syscall_fallback {
                    return Err(HandleError::Os(EXDEV));
                }
                resolve_file_handle_in(self.mounts.candidates(), Some(fsid), handle, open)
            },
        }
    }

    /// Resolve one handle and record the answer.
    pub fn resolve_handle_memo<F: Fn(i32, &[u8]) -> OpenReply>(
        &mut self,
        fsid: Fsid,
        handle: &[u8],
        open: &F,
    ) -> (r: Result<Vec<u8>, HandleError>)
        requires
            can_open(*open),
        ensures
            final(self).sources() == (Sources {
                known: final(self).sources().known,
                ..old(self).sources()
            }),
            handle_memo(
                *open,
                old(self).sources(),
                final(self).sources().known,
                C::keeps_all(),
                fsid,
                handle@,
                result_view(r),
            ),
    {
        let r = self.resolve_handle(fsid, handle, open);
        let ghost left = self.sources().known;
        if let Ok(path) = &r {
            self.store.insert(fsid, handle, path.as_slice());
        }
        proof {
            assert(left_by_lookup(old(self).sources().known, left, C::keeps_all()));
        }
        r
    }

    /// Resolve a parent directory handle plus an entry name into a full path.
    ///
    /// An empty name and `.` mean the directory itself.  A name that holds a
    /// separator or a NUL, and `..`, are refused before anything is asked: joining
    /// one could only produce a path outside the directory.
    pub fn resolve_dir<F: Fn(i32, &[u8]) -> OpenReply>(
        &mut self,
        fsid: Fsid,
        handle: &[u8],
        name: &[u8],
        open: &F,
    ) -> (r: Result<Vec<u8>, HandleError>)
        requires
            can_open(*open),
        ensures
            dir_result(*open, final(self).sources(), fsid, handle@, name@, result_view(r)),
            only_looked_up(old(self).sources(), final(self).sources(), C::keeps_all()),
            !is_entry_name(name@) ==> final(self).sources() == old(self).sources(),
    {
        if !check_entry_name(name) {
            proof {
                let dir = Err::<Seq<u8>, HandleError>(HandleError::InvalidInput);
                assert(dir_half(*open, self.sources(), fsid, handle@, name@, dir));
            }
            return Err(HandleError::InvalidInput);
        }
        let dir = self.resolve_handle(fsid, handle, open);
        proof {
            assert(dir_half(*open, self.sources(), fsid, handle@, name@, result_view(dir)));
        }
        match dir {
            Ok(dir) => Ok(join_entry(dir, name)),
            Err(error) => Err(error),
        }
    }

    /// Resolve an event, if the records it carries name something resolvable.
    ///
    /// Tried in order: the parent and name of a `DFID_NAME` record, the source
    /// side of a rename, and the object's own handle.  The first that answers
    /// lands on the event as its path; nothing else of the event changes.
    pub fn resolve_event<F: Fn(i32, &[u8]) -> OpenReply>(
        &mut self,
        event: &mut FidEvent<'_>,
        open: &F,
    ) -> (outcome: EventResolution)
        requires
            can_open(*open),
        ensures
            event_step(
                *open,
                old(self).sources(),
                final(self).sources().known,
                C::keeps_all(),
                old(event)@,
                final(event)@,
                outcome,
            ),
            final(self).sources() == (Sources {
                known: final(self).sources().known,
                ..old(self).sources()
            }),
    {
        if event.has_path() {
            return EventResolution::AlreadyResolved;
        }
        let fsid: Fsid = match event.fsid() {
            Some(fsid) => fsid,
            None => {
                return EventResolution::NothingToResolve;
            },
        };
        let ghost before = event@;
        let ghost sources = self.sources();
        let ghost mut tries: Seq<Attempt> = Seq::empty();
        let mut found: Option<Vec<u8>> = None;
        if let Some(handle) = event.dfid_name_handle() {
            let name = event.dfid_name_raw();
            let dir = self.dir_half_of(fsid, handle, name, open);
            proof {
                tries = tries.push(Attempt { left: self.sources().known, dir: result_view(dir) });
            }
            if let Ok(dir) = dir {
                found = Some(join_entry(dir, name));
            }
        }
        proof {
            assert(entry_shape(before).len() <= 1);
            assert(shapes(before).len() == entry_shape(before).len() + source_shape(before).len()
                + object_shape(before).len());
        }
        if found.is_none() {
            if let Some(side) = event.rename_source() {
                let dir = self.dir_half_of(fsid, side.handle(), side.name(), open);
                proof {
                    tries = tries.push(Attempt { left: self.sources().known, dir: result_view(dir) });
                    assert(shapes(before)[entry_shape(before).len() as int] == source_shape(
                        before,
                    )[0]);
                }
                if let Ok(dir) = dir {
                    found = Some(join_entry(dir, side.name()));
                }
            }
        }
        if found.is_none() {
            if let Some(handle) = event.self_handle() {
                let dir = self.dir_half_of(fsid, handle, &[], open);
                proof {
                    tries = tries.push(Attempt { left: self.sources().known, dir: result_view(dir) });
                    let at = (entry_shape(before).len() + source_shape(before).len()) as int;
                    assert(shapes(before)[at] == object_shape(before)[0]);
                }
                if let Ok(path) = dir {
                    found = Some(path);
                }
            }
        }
        proof {
            assert(are_attempts(*open, sources, C::keeps_all(), fsid, shapes(before), tries));
            assert(self.sources().known == left_by(sources.known, tries));
        }
        match found {
            Some(path) => {
                event.set_path(path);
                EventResolution::Resolved
            },
            None => EventResolution::Unresolvable,
        }
    }

    /// [`resolve_event`](Self::resolve_event), recording what it learns.
    ///
    /// The directory that answered is recorded under its handle, so that the next
    /// event about it costs no system call; so is the entry itself, when the event
    /// carries the entry's own handle beside its parent and name.
    pub fn resolve_event_memo<F: Fn(i32, &[u8]) -> OpenReply>(
        &mut self,
        event: &mut FidEvent<'_>,
        open: &F,
    ) -> (outcome: EventResolution)
        requires
            can_open(*open),
        ensures
            event_step_memo(
                *open,
                old(self).sources(),
                final(self).sources().known,
                C::keeps_all(),
                old(event)@,
                final(event)@,
                outcome,
            ),
            final(self).sources() == (Sources {
                known: final(self).sources().known,
                ..old(self).sources()
            }),
    {
        if event.has_path() {
            return EventResolution::AlreadyResolved;
        }
        let fsid: Fsid = match event.fsid() {
            Some(fsid) => fsid,
            None => {
                return EventResolution::NothingToResolve;
            },
        };
        let ghost before = event@;
        let ghost sources = self.sources();
        let ghost mut tries: Seq<Attempt> = Seq::empty();
        let mut found: Option<Vec<u8>> = None;
        if let Some(handle) = event.dfid_name_handle() {
            let name = event.dfid_name_raw();
            let (dir, Ghost(attempt)) = self.dir_half_memo_of(fsid, handle, name, open);
            proof {
                tries = tries.push(attempt);
            }
            if let Ok(dir) = dir {
                let path = join_entry(dir, name);
                let ghost middle = self.sources().known;
                if let Some(own) = event.self_handle() {
                    self.store.insert(fsid, own, path.as_slice());
                }
                proof {
                    assert(shapes(before)[0] == entry_shape(before)[0]);
                    assert(tries.last().dir->Ok_0 == dir@);
                    assert(found_path(shapes(before), tries) == path@);
                    assert(recorded(
                        left_by(sources.known, tries),
                        middle,
                        (fsid, handle@),
                        dir@,
                        C::keeps_all(),
                    ));
                    assert(attempts_recorded(
                        sources.known,
                        self.sources().known,
                        before,
                        tries,
                        C::keeps_all(),
                    ));
                }
                found = Some(path);
            }
        }
        proof {
            assert(entry_shape(before).len() <= 1);
            assert(shapes(before).len() == entry_shape(before).len() + source_shape(before).len()
                + object_shape(before).len());
        }
        if found.is_none() {
            if let Some(side) = event.rename_source() {
                let (dir, Ghost(attempt)) = self.dir_half_memo_of(fsid, side.handle(), side.name(), open);
                proof {
                    tries = tries.push(attempt);
                    assert(shapes(before)[entry_shape(before).len() as int] == source_shape(
                        before,
                    )[0]);
                }
                if let Ok(dir) = dir {
                    found = Some(join_entry(dir, side.name()));
                }
            }
        }
        if found.is_none() {
            if let Some(handle) = event.self_handle() {
                let (dir, Ghost(attempt)) = self.dir_half_memo_of(fsid, handle, &[], open);
                proof {
                    tries = tries.push(attempt);
                    let at = (entry_shape(before).len() + source_shape(before).len()) as int;
                    assert(shapes(before)[at] == object_shape(before)[0]);
                }
                if let Ok(path) = dir {
                    found = Some(path);
                }
            }
        }
        proof {
            assert(are_attempts(*open, sources, C::keeps_all(), fsid, shapes(before), tries));
            assert(attempts_recorded(
                sources.known,
                self.sources().known,
                before,
                tries,
                C::keeps_all(),
            ));
        }
        match found {
            Some(path) => {
                event.set_path(path);
                EventResolution::Resolved
            },
            None => EventResolution::Unresolvable,
        }
    }

    /// Resolve the target side of a rename event, which
    /// [`resolve_event`](Self::resolve_event) leaves alone: it names a different
    /// parent.  `None` when the event has no target side or no filesystem.
    pub fn resolve_rename_target<F: Fn(i32, &[u8]) -> OpenReply>(
        &mut self,
        event: &FidEvent<'_>,
        open: &F,
    ) -> (r: Option<Result<Vec<u8>, HandleError>>)
        requires
            can_open(*open),
        ensures
            r is Some <==> event@.fsid is Some && event@.rename_target is Some,
            r matches Some(result) ==> dir_result(
                *open,
                final(self).sources(),
                event@.fsid->0,
                event@.rename_target->0.handle,
                event@.rename_target->0.name,
                result_view(result),
            ),
            only_looked_up(old(self).sources(), final(self).sources(), C::keeps_all()),
            r is None ==> final(self).sources() == old(self).sources(),
    {
        match (event.fsid(), event.rename_target()) {
            (Some(fsid), Some(side)) => Some(
                self.resolve_dir(fsid, side.handle(), side.name(), open),
            ),
            _ => None,
        }
    }

    /// Resolve a batch in one pass, recording nothing.
    ///
    /// An event that already carried a path is not counted as resolved, so a
    /// second call on a settled batch reports that it resolved nothing.
    pub fn resolve_events<F: Fn(i32, &[u8]) -> OpenReply>(
        &mut self,
        events: &mut [FidEvent<'_>],
        open: &F,
    ) -> (r: Resolution)
        requires
            can_open(*open),
        ensures
            exists|pass: Pass|
                {
                    &&& #[trigger] is_pass(
                        *open,
                        old(self).sources().mounts,
                        old(self).sources().may_ask,
                        C::keeps_all(),
                        pass,
                    )
                    &&& pass.before == event_views(old(events)@)
                    &&& pass.after == event_views(final(events)@)
                    &&& pass.known[0] == old(self).sources().known
                    &&& final(self).sources() == (Sources {
                        known: pass.known.last(),
                        ..old(self).sources()
                    })
                    &&& is_account(r, pass.outcomes, 1)
                },
    {
        let ghost before = event_views(events@);
        let ghost sources = self.sources();
        let ghost mut known: Seq<KnownPaths> = seq![sources.known];
        let ghost mut outcomes: Seq<EventResolution> = Seq::empty();
        let mut newly: usize = 0;
        let mut already: usize = 0;
        let mut unresolved: usize = 0;
        let mut i: usize = 0;
        while i < events.len()
            invariant
                can_open(*open),
                i <= events@.len(),
                events@.len() == before.len(),
                known.len() == i + 1,
                known[0] == sources.known,
                self.sources() == (Sources { known: known[i as int], ..sources }),
                outcomes.len() == i,
                newly + already + unresolved == i,
                newly == count_of(outcomes, EventResolution::Resolved),
                already == count_of(outcomes, EventResolution::AlreadyResolved),
                unresolved == count_of(outcomes, EventResolution::NothingToResolve) + count_of(
                    outcomes,
                    EventResolution::Unresolvable,
                ),
                forall|k: int|
                    0 <= k < i ==> event_step(
                        *open,
                        Sources { known: known[k], ..sources },
                        known[k + 1],
                        C::keeps_all(),
                        #[trigger] before[k],
                        events@[k]@,
                        outcomes[k],
                    ),
                forall|k: int| i <= k < events@.len() ==> (#[trigger] events@[k])@ == before[k],
            decreases events@.len() - i,
        {
            let event = &mut events[i];
            let outcome = self.resolve_event(event, open);
            proof {
                assert(outcomes.push(outcome).drop_last() =~= outcomes);
                outcomes = outcomes.push(outcome);
                known = known.push(self.sources().known);
            }
            match outcome {
                EventResolution::Resolved => {
                    newly = newly + 1;
                },
                EventResolution::AlreadyResolved => {
                    already = already + 1;
                },
                EventResolution::NothingToResolve => {
                    unresolved = unresolved + 1;
                },
                EventResolution::Unresolvable => {
                    unresolved = unresolved + 1;
                },
            }
            i = i + 1;
        }
        let r = Resolution { resolved: newly, already_resolved: already, unresolved, passes: 1 };
        proof {
            let pass = Pass { known, before, after: event_views(events@), outcomes };
            assert(is_pass(*open, sources.mounts, sources.may_ask, C::keeps_all(), pass));
            assert(is_account(r, pass.outcomes, 1));
        }
        r
    }

    /// [`resolve_events`](Self::resolve_events), recording what it learns and
    /// repeating until a pass resolves nothing new.
    ///
    /// A pass that resolves a parent teaches the store, and the next pass reaches
    /// events that only that parent can place.  Every pass but the last resolves
    /// at least one event, so there are no more of them than events.
    pub fn resolve_events_memo<F: Fn(i32, &[u8]) -> OpenReply>(
        &mut self,
        events: &mut [FidEvent<'_>],
        open: &F,
    ) -> (r: Resolution)
        requires
            can_open(*open),
        ensures
            exists|passes: Seq<Pass>, last: Pass|
                {
                    &&& #[trigger] is_run(
                        *open,
                        old(self).sources(),
                        C::keeps_all(),
                        event_views(old(events)@),
                        passes,
                        last,
                    )
                    &&& reports_run(r, passes, last)
                    &&& event_views(final(events)@) == last.after
                    &&& final(self).sources() == (Sources {
                        known: last.known.last(),
                        ..old(self).sources()
                    })
                },
    {
        let ghost before = event_views(events@);
        let ghost sources = self.sources();
        let ghost mut passes: Seq<Pass> = Seq::empty();
        let mut productive: usize = 0;
        let mut best = Resolution { resolved: 0, already_resolved: 0, unresolved: 0, passes: 0 };
        proof {
            pathless_is_bounded(before);
        }
        loop
            invariant
                can_open(*open),
                before.len() == events.len(),
                events@.len() == before.len(),
                are_productive_passes(
                    *open,
                    sources.mounts,
                    sources.may_ask,
                    C::keeps_all(),
                    sources.known,
                    before,
                    passes,
                ),
                productive == passes.len(),
                event_views(events@) == events_after(before, passes, passes.len() as int),
                self.sources() == (Sources {
                    known: known_after_passes(sources.known, passes, passes.len() as int),
                    ..sources
                }),
                productive + pathless(event_views(events@)) <= events.len(),
                passes.len() > 0 ==> is_account(
                    best,
                    passes.last().outcomes,
                    passes.len() as int,
                ),
                sources == old(self).sources(),
                before == event_views(old(events)@),
            decreases pathless(event_views(events@)),
        {
            let (this, Ghost(pass)) = self.pass_memo(events, open);
            proof {
                assert(events@.len() == pass.after.len());
                a_pass_settles_what_it_resolves(
                    *open,
                    sources.mounts,
                    sources.may_ask,
                    C::keeps_all(),
                    pass,
                );
            }
            if this.resolved == 0 {
                proof {
                    assert(is_run(*open, sources, C::keeps_all(), before, passes, pass));
                }
                // The pass that resolves nothing proves the fixed point and is no
                // work, so the last one that did work is reported.
                if productive == 0 {
                    return this;
                }
                return best;
            }
            productive = productive + 1;
            best = Resolution {
                resolved: this.resolved,
                already_resolved: this.already_resolved,
                unresolved: this.unresolved,
                passes: productive,
            };
            proof {
                let extended = passes.push(pass);
                assert forall|k: int| 0 <= k < extended.len() implies {
                    &&& is_pass_memo(
                        *open,
                        sources.mounts,
                        sources.may_ask,
                        C::keeps_all(),
                        #[trigger] extended[k],
                    )
                    &&& is_productive(extended[k])
                    &&& extended[k].before == events_after(before, extended, k)
                    &&& extended[k].known[0] == known_after_passes(sources.known, extended, k)
                } by {
                    if k < passes.len() {
                        assert(extended[k] == passes[k]);
                        if k > 0 {
                            assert(extended[k - 1] == passes[k - 1]);
                        }
                    } else if k > 0 {
                        assert(extended[k - 1] == passes[k - 1]);
                    }
                }
                passes = extended;
            }
        }
    }

    /// One pass over a batch, recording what it learns.
    fn pass_memo<F: Fn(i32, &[u8]) -> OpenReply>(
        &mut self,
        events: &mut [FidEvent<'_>],
        open: &F,
    ) -> (r: (Resolution, Ghost<Pass>))
        requires
            can_open(*open),
        ensures
            is_pass_memo(
                *open,
                old(self).sources().mounts,
                old(self).sources().may_ask,
                C::keeps_all(),
                r.1@,
            ),
            r.1@.before == event_views(old(events)@),
            r.1@.after == event_views(final(events)@),
            r.1@.known[0] == old(self).sources().known,
            r.1@.known.last() == final(self).sources().known,
            is_account(r.0, r.1@.outcomes, 1),
            final(self).sources() == (Sources {
                known: final(self).sources().known,
                ..old(self).sources()
            }),
    {
        let ghost before = event_views(events@);
        let ghost sources = self.sources();
        let ghost mut known: Seq<KnownPaths> = seq![sources.known];
        let ghost mut outcomes: Seq<EventResolution> = Seq::empty();
        let mut newly: usize = 0;
        let mut already: usize = 0;
        let mut unresolved: usize = 0;
        let mut i: usize = 0;
        while i < events.len()
            invariant
                can_open(*open),
                i <= events@.len(),
                events@.len() == before.len(),
                known.len() == i + 1,
                known[0] == sources.known,
                self.sources() == (Sources { known: known[i as int], ..sources }),
                outcomes.len() == i,
                newly + already + unresolved == i,
                newly == count_of(outcomes, EventResolution::Resolved),
                already == count_of(outcomes, EventResolution::AlreadyResolved),
                unresolved == count_of(outcomes, EventResolution::NothingToResolve) + count_of(
                    outcomes,
                    EventResolution::Unresolvable,
                ),
                forall|k: int|
                    0 <= k < i ==> event_step_memo(
                        *open,
                        Sources { known: known[k], ..sources },
                        known[k + 1],
                        C::keeps_all(),
                        #[trigger] before[k],
                        events@[k]@,
                        outcomes[k],
                    ),
                forall|k: int| i <= k < events@.len() ==> (#[trigger] events@[k])@ == before[k],
            decreases events@.len() - i,
        {
            let event = &mut events[i];
            let outcome = self.resolve_event_memo(event, open);
            proof {
                assert(outcomes.push(outcome).drop_last() =~= outcomes);
                outcomes = outcomes.push(outcome);
                known = known.push(self.sources().known);
            }
            match outcome {
                EventResolution::Resolved => {
                    newly = newly + 1;
                },
                EventResolution::AlreadyResolved => {
                    already = already + 1;
                },
                EventResolution::NothingToResolve => {
                    unresolved = unresolved + 1;
                },
                EventResolution::Unresolvable => {
                    unresolved = unresolved + 1;
                },
            }
            i = i + 1;
        }
        let r = Resolution { resolved: newly, already_resolved: already, unresolved, passes: 1 };
        let ghost done = Pass { known, before, after: event_views(events@), outcomes };
        proof {
            assert(is_account(r, outcomes, 1));
        }
        (r, Ghost(done))
    }

    /// Resolve the directory half of an entry, once its name has been checked,
    /// and record the answer.
    fn dir_half_memo_of<F: Fn(i32, &[u8]) -> OpenReply>(
        &mut self,
        fsid: Fsid,
        handle: &[u8],
        name: &[u8],
        open: &F,
    ) -> (r: (Result<Vec<u8>, HandleError>, Ghost<Attempt>))
        requires
            can_open(*open),
        ensures
            final(self).sources() == (Sources {
                known: final(self).sources().known,
                ..old(self).sources()
            }),
            is_attempt(
                *open,
                old(self).sources(),
                C::keeps_all(),
                fsid,
                Shape { handle: handle@, name: name@ },
                r.1@,
            ),
            r.1@.dir == result_view(r.0),
            match r.0 {
                Ok(dir) => recorded(
                    r.1@.left,
                    final(self).sources().known,
                    (fsid, handle@),
                    dir@,
                    C::keeps_all(),
                ),
                Err(_) => final(self).sources().known == r.1@.left,
            },
    {
        let dir = self.dir_half_of(fsid, handle, name, open);
        let ghost attempt = Attempt { left: self.sources().known, dir: result_view(dir) };
        if let Ok(dir) = &dir {
            self.store.insert(fsid, handle, dir.as_slice());
        }
        (dir, Ghost(attempt))
    }

    /// Resolve the directory half of an entry, once its name has been checked.
    fn dir_half_of<F: Fn(i32, &[u8]) -> OpenReply>(
        &mut self,
        fsid: Fsid,
        handle: &[u8],
        name: &[u8],
        open: &F,
    ) -> (r: Result<Vec<u8>, HandleError>)
        requires
            can_open(*open),
        ensures
            only_looked_up(old(self).sources(), final(self).sources(), C::keeps_all()),
            is_attempt(
                *open,
                old(self).sources(),
                C::keeps_all(),
                fsid,
                Shape { handle: handle@, name: name@ },
                Attempt { left: final(self).sources().known, dir: result_view(r) },
            ),
    {
        if !check_entry_name(name) {
            return Err(HandleError::InvalidInput);
        }
        self.resolve_handle(fsid, handle, open)
    }
}

/// Whether bytes can be an entry name.
pub fn check_entry_name(name: &[u8]) -> (r: bool)
    ensures
        r == is_entry_name(name@),
{
    if is_directory_name(name) {
        return true;
    }
    if name.len() == 2 && name[0] == DOT && name[1] == DOT {
        assert(name@ =~= seq![DOT, DOT]);
        return false;
    }
    assert(name@ != seq![DOT, DOT]);
    let mut i: usize = 0;
    while i < name.len()
        invariant
            i <= name@.len(),
            !names_the_directory(name@),
            forall|k: int| 0 <= k < i ==> name@[k] != SLASH && name@[k] != 0,
        decreases name@.len() - i,
    {
        if name[i] == SLASH || name[i] == 0 {
            assert(name@.contains(name@[i as int]));
            return false;
        }
        i = i + 1;
    }
    true
}

/// Whether an entry name stands for the directory itself.
fn is_directory_name(name: &[u8]) -> (r: bool)
    ensures
        r == names_the_directory(name@),
{
    if name.len() == 1 && name[0] == DOT {
        assert(name@ =~= seq![DOT]);
        return true;
    }
    assert(name@ != seq![DOT]);
    name.len() == 0
}

/// The path of an entry of `dir`.
fn join_entry(dir: Vec<u8>, name: &[u8]) -> (r: Vec<u8>)
    ensures
        r@ == entry_path(dir@, name@),
{
    if is_directory_name(name) {
        dir
    } else {
        joined_path(dir.as_slice(), name)
    }
}

/// A handle the store still knows when it is asked is answered from it, whatever
/// the filesystem would say: one handle, one answer.
pub proof fn a_known_handle_is_answered_from_the_store<F: Fn(i32, &[u8]) -> OpenReply>(
    open: F,
    sources: Sources,
    fsid: Fsid,
    handle: Seq<u8>,
    result: Result<Seq<u8>, HandleError>,
)
    requires
        sources.known.dom().contains((fsid, handle)),
        handle_result(open, sources, fsid, handle, result),
    ensures
        result == Ok::<Seq<u8>, HandleError>(sources.known[(fsid, handle)]),
{
}

/// What was once recorded for a handle is its answer from then on, in a store
/// that keeps what it is given.
pub proof fn a_learned_handle_keeps_its_answer<F: Fn(i32, &[u8]) -> OpenReply>(
    open: F,
    before: KnownPaths,
    known: KnownPaths,
    sources: Sources,
    fsid: Fsid,
    handle: Seq<u8>,
    path: Seq<u8>,
    result: Result<Seq<u8>, HandleError>,
)
    requires
        recorded(before, known, (fsid, handle), path, true),
        left_by_lookup(known, sources.known, true),
        handle_result(open, sources, fsid, handle, result),
    ensures
        result == Ok::<Seq<u8>, HandleError>(path),
{
}

/// A lookup never makes an answer up: what the store knows after it, it knew
/// before.
pub proof fn a_lookup_invents_nothing(
    before: KnownPaths,
    after: KnownPaths,
    keeps_all: bool,
    fsid: Fsid,
    handle: Seq<u8>,
)
    requires
        left_by_lookup(before, after, keeps_all),
        lookup(after, fsid, handle) is Some,
    ensures
        lookup(after, fsid, handle) == lookup(before, fsid, handle),
{
    assert(after.dom().contains((fsid, handle)));
}

/// Without leave to ask, the store alone decides: a handle it does not know is
/// `EXDEV`.
pub proof fn without_asking_the_store_decides<F: Fn(i32, &[u8]) -> OpenReply>(
    open: F,
    sources: Sources,
    fsid: Fsid,
    handle: Seq<u8>,
    result: Result<Seq<u8>, HandleError>,
)
    requires
        !sources.may_ask,
        handle_result(open, sources, fsid, handle, result),
    ensures
        result == (match lookup(sources.known, fsid, handle) {
            Some(path) => Ok::<Seq<u8>, HandleError>(path),
            None => Err(HandleError::Os(EXDEV)),
        }),
{
}

/// No name moves the resolved path out of its directory: the path is the
/// directory, or the directory with that one name behind it.
pub proof fn an_entry_stays_in_its_directory(dir: Seq<u8>, name: Seq<u8>)
    requires
        is_entry_name(name),
    ensures
        parts(entry_path(dir, name)) == (if names_the_directory(name) {
            parts(dir)
        } else {
            parts(dir).push(Part::Name(name))
        }),
{
    if !names_the_directory(name) {
        assert(no_slash(name));
        assert(part_of(name) == Some(Part::Name(name)));
        pushing_a_name_appends_one_component(dir, name);
    }
}

/// What attempts leave is part of what was known, and all of it in a store that
/// keeps everything.
pub(crate) proof fn attempts_leave_what_was_known<F: Fn(i32, &[u8]) -> OpenReply>(
    open: F,
    sources: Sources,
    keeps_all: bool,
    fsid: Fsid,
    list: Seq<Shape>,
    tries: Seq<Attempt>,
    i: int,
    j: int,
)
    requires
        are_attempts(open, sources, keeps_all, fsid, list, tries),
        0 <= i <= j <= tries.len(),
    ensures
        left_by_lookup(
            known_before(sources.known, tries, i),
            known_before(sources.known, tries, j),
            keeps_all,
        ),
    decreases j,
{
    if i < j {
        attempts_leave_what_was_known(open, sources, keeps_all, fsid, list, tries, i, j - 1);
        assert(is_attempt(
            open,
            Sources { known: known_before(sources.known, tries, j - 1), ..sources },
            keeps_all,
            fsid,
            list[j - 1],
            tries[j - 1],
        ));
        lookups_chain(
            known_before(sources.known, tries, i),
            known_before(sources.known, tries, j - 1),
            known_before(sources.known, tries, j),
            keeps_all,
        );
    }
}

/// What two lookups leave is what one may leave.
pub(crate) proof fn lookups_chain(a: KnownPaths, b: KnownPaths, c: KnownPaths, keeps_all: bool)
    requires
        left_by_lookup(a, b, keeps_all),
        left_by_lookup(b, c, keeps_all),
    ensures
        left_by_lookup(a, c, keeps_all),
{
    assert forall|key: (Fsid, Seq<u8>)| #[trigger] c.dom().contains(key) implies a.dom().contains(
        key,
    ) && c[key] == a[key] by {
        assert(b.dom().contains(key));
        assert(a.dom().contains(key));
    }
}

/// The outcome says whether the event ended with a path, and nothing of the event
/// but its path changes; a path that was there stays.  Nothing is learned.
pub proof fn the_outcome_says_whether_there_is_a_path<F: Fn(i32, &[u8]) -> OpenReply>(
    open: F,
    sources: Sources,
    known_after: KnownPaths,
    keeps_all: bool,
    before: FidEventView,
    after: FidEventView,
    outcome: EventResolution,
)
    requires
        event_step(open, sources, known_after, keeps_all, before, after, outcome),
    ensures
        (outcome is Resolved || outcome is AlreadyResolved) <==> after.path is Some,
        after == (FidEventView { path: after.path, ..before }),
        before.path is Some ==> after == before && outcome is AlreadyResolved,
        left_by_lookup(sources.known, known_after, keeps_all),
{
    if settled_outcome(before) is None {
        let tries = choose|tries: Seq<Attempt>| #[trigger]
            are_attempts(open, sources, keeps_all, before.fsid->0, shapes(before), tries)
                && attempts_outcome(before, after, outcome, tries) && known_after == left_by(
                sources.known,
                tries,
            );
        attempts_leave_what_was_known(
            open,
            sources,
            keeps_all,
            before.fsid->0,
            shapes(before),
            tries,
            0,
            tries.len() as int,
        );
    }
}

/// The same of the form that records what it learns: without a path nothing is
/// learned.
pub proof fn the_memo_outcome_says_whether_there_is_a_path<F: Fn(i32, &[u8]) -> OpenReply>(
    open: F,
    sources: Sources,
    known_after: KnownPaths,
    keeps_all: bool,
    before: FidEventView,
    after: FidEventView,
    outcome: EventResolution,
)
    requires
        event_step_memo(open, sources, known_after, keeps_all, before, after, outcome),
    ensures
        (outcome is Resolved || outcome is AlreadyResolved) <==> after.path is Some,
        after == (FidEventView { path: after.path, ..before }),
        before.path is Some ==> after == before && outcome is AlreadyResolved,
        outcome !is Resolved ==> left_by_lookup(sources.known, known_after, keeps_all),
{
    if settled_outcome(before) is None {
        let tries = choose|tries: Seq<Attempt>| #[trigger]
            are_attempts(open, sources, keeps_all, before.fsid->0, shapes(before), tries)
                && attempts_outcome(before, after, outcome, tries) && attempts_recorded(
                sources.known,
                known_after,
                before,
                tries,
                keeps_all,
            );
        attempts_leave_what_was_known(
            open,
            sources,
            keeps_all,
            before.fsid->0,
            shapes(before),
            tries,
            0,
            tries.len() as int,
        );
    }
}

/// The counts of a pass add up to the events of the batch.
pub proof fn the_counts_add_up(r: Resolution, outcomes: Seq<EventResolution>, passes: int)
    requires
        is_account(r, outcomes, passes),
    ensures
        r.resolved + r.already_resolved + r.unresolved == outcomes.len(),
{
    counts_cover(outcomes);
}

/// Every outcome is one of four.
proof fn counts_cover(outcomes: Seq<EventResolution>)
    ensures
        count_of(outcomes, EventResolution::Resolved) + count_of(
            outcomes,
            EventResolution::AlreadyResolved,
        ) + count_of(outcomes, EventResolution::NothingToResolve) + count_of(
            outcomes,
            EventResolution::Unresolvable,
        ) == outcomes.len(),
    decreases outcomes.len(),
{
    if outcomes.len() > 0 {
        counts_cover(outcomes.drop_last());
    }
}

/// Whether what could not be opened before still cannot.
pub open spec fn failures_repeat<F: Fn(i32, &[u8]) -> OpenReply, G: Fn(i32, &[u8]) -> OpenReply>(
    open: F,
    again: G,
) -> bool {
    forall|fd: i32, handle: Seq<u8>, reply: OpenReply, other: OpenReply|
        reply is Err && #[trigger] may_reply(open, fd, handle, reply) && #[trigger] may_reply(
            again,
            fd,
            handle,
            other,
        ) ==> other is Err
}

/// A handle that could not be resolved cannot be resolved later from no more
/// knowledge.
proof fn a_failed_handle_fails_again<F: Fn(i32, &[u8]) -> OpenReply, G: Fn(
    i32,
    &[u8],
) -> OpenReply>(
    open: F,
    again: G,
    sources: Sources,
    later: KnownPaths,
    fsid: Fsid,
    handle: Seq<u8>,
    result: Result<Seq<u8>, HandleError>,
    other: Result<Seq<u8>, HandleError>,
)
    requires
        sources.may_ask ==> failures_repeat(open, again),
        later.submap_of(sources.known),
        handle_result(open, sources, fsid, handle, result),
        handle_result(again, Sources { known: later, ..sources }, fsid, handle, other),
        result is Err,
    ensures
        other is Err,
{
    assert(lookup(sources.known, fsid, handle) is None);
    assert(lookup(later, fsid, handle) is None) by {
        if later.dom().contains((fsid, handle)) {
            assert(sources.known.dom().contains((fsid, handle)));
        }
    }
    if sources.may_ask && is_handle_shaped(handle) {
        let fds = selected(sources.mounts, Some(fsid));
        let replies = choose|replies: Seq<OpenReply>|
            is_walk(open, fds, handle, replies) && result == #[trigger] walk_result(replies);
        let others = choose|replies: Seq<OpenReply>|
            is_walk(again, fds, handle, replies) && other == #[trigger] walk_result(replies);
        assert(replies.len() == fds.len());
        if other is Ok {
            let k = others.len() - 1;
            assert(others[k] == others.last());
            if k == replies.len() - 1 {
                assert(replies[k] == replies.last());
            }
            assert(replies[k] is Err);
            assert(may_reply(open, fds[k], handle, replies[k]));
            assert(may_reply(again, fds[k], handle, others[k]));
        }
    }
}

/// An event that could not be resolved cannot be resolved later from no more
/// knowledge than the attempts left.
proof fn a_failure_repeats<F: Fn(i32, &[u8]) -> OpenReply, G: Fn(i32, &[u8]) -> OpenReply>(
    open: F,
    again: G,
    sources: Sources,
    later: KnownPaths,
    keeps_all: bool,
    event: FidEventView,
    tries: Seq<Attempt>,
    others: Seq<Attempt>,
)
    requires
        sources.may_ask ==> failures_repeat(open, again),
        event.fsid is Some,
        are_attempts(open, sources, keeps_all, event.fsid->0, shapes(event), tries),
        later.submap_of(left_by(sources.known, tries)),
        are_attempts(
            again,
            Sources { known: later, ..sources },
            keeps_all,
            event.fsid->0,
            shapes(event),
            others,
        ),
        !succeeded(tries),
    ensures
        !succeeded(others),
{
    if succeeded(others) {
        let fsid = event.fsid->0;
        let list = shapes(event);
        let k = others.len() - 1;
        assert(tries.len() == list.len());
        assert(tries[k].dir is Err) by {
            if k == tries.len() - 1 {
                assert(tries.last() == tries[k]);
            }
        }
        assert(others[k] == others.last());
        let shape = list[k];
        let at = Sources { known: known_before(sources.known, tries, k), ..sources };
        let then = Sources { known: later, ..sources };
        assert(is_attempt(open, at, keeps_all, fsid, shape, tries[k]));
        assert(is_attempt(
            again,
            Sources { known: known_before(later, others, k), ..then },
            keeps_all,
            fsid,
            shape,
            others[k],
        ));
        let n = tries.len() as int;
        attempts_leave_what_was_known(open, sources, keeps_all, fsid, list, tries, k + 1, n);
        attempts_leave_what_was_known(again, then, keeps_all, fsid, list, others, 0, k + 1);
        assert(others[k].left.submap_of(tries[k].left)) by {
            assert(tries[k].left == known_before(sources.known, tries, k + 1));
            assert(others[k].left == known_before(later, others, k + 1));
            assert forall|key: (Fsid, Seq<u8>)| #[trigger]
                others[k].left.dom().contains(key) implies tries[k].left.dom().contains(key)
                && others[k].left[key] == tries[k].left[key] by {
                assert(later.dom().contains(key));
                assert(left_by(sources.known, tries).dom().contains(key));
                assert(tries[k].left.dom().contains(key));
            }
        }
        if is_entry_name(shape.name) {
            a_failed_handle_fails_again(
                open,
                again,
                Sources { known: tries[k].left, ..sources },
                others[k].left,
                fsid,
                shape.handle,
                tries[k].dir,
                others[k].dir,
            );
        }
    }
}

/// A pass that records nothing leaves part of what was known.
proof fn a_pass_leaves_what_was_known<F: Fn(i32, &[u8]) -> OpenReply>(
    open: F,
    mounts: Seq<Candidate>,
    may_ask: bool,
    keeps_all: bool,
    pass: Pass,
    i: int,
    j: int,
)
    requires
        is_pass(open, mounts, may_ask, keeps_all, pass),
        0 <= i <= j <= pass.before.len(),
    ensures
        left_by_lookup(pass.known[i], pass.known[j], keeps_all),
    decreases j,
{
    if i < j {
        a_pass_leaves_what_was_known(open, mounts, may_ask, keeps_all, pass, i, j - 1);
        let event = pass.before[j - 1];
        the_outcome_says_whether_there_is_a_path(
            open,
            Sources { known: pass.known[j - 1], mounts, may_ask },
            pass.known[j],
            keeps_all,
            event,
            pass.after[j - 1],
            pass.outcomes[j - 1],
        );
        lookups_chain(pass.known[i], pass.known[j - 1], pass.known[j], keeps_all);
    }
}

/// A second pass over a batch changes nothing: it resolves no event and re-sees
/// exactly those that carry a path.  If the filesystem may be asked, that is so
/// as long as it does not open what it could not open before.
pub proof fn a_settled_batch_stays_settled<F: Fn(i32, &[u8]) -> OpenReply, G: Fn(
    i32,
    &[u8],
) -> OpenReply>(
    open: F,
    again: G,
    mounts: Seq<Candidate>,
    may_ask: bool,
    keeps_all: bool,
    first: Pass,
    second: Pass,
)
    requires
        may_ask ==> failures_repeat(open, again),
        is_pass(open, mounts, may_ask, keeps_all, first),
        is_pass(again, mounts, may_ask, keeps_all, second),
        second.before == first.after,
        second.known[0] == first.known.last(),
    ensures
        second.after == second.before,
        count_of(second.outcomes, EventResolution::Resolved) == 0,
        count_of(second.outcomes, EventResolution::AlreadyResolved) == count_of(
            first.outcomes,
            EventResolution::Resolved,
        ) + count_of(first.outcomes, EventResolution::AlreadyResolved),
{
    let n = first.before.len() as int;
    assert forall|i: int|
        #![trigger second.before[i]]
        #![trigger second.outcomes[i]]
        0 <= i < n implies second.after[i] == second.before[i] && second.outcomes[i] !is Resolved
        && (second.outcomes[i] is AlreadyResolved <==> first.outcomes[i] is Resolved
        || first.outcomes[i] is AlreadyResolved) by {
        let sources = Sources { known: first.known[i], mounts, may_ask };
        let then = Sources { known: second.known[i], mounts, may_ask };
        let event = second.before[i];
        assert(event_step(
            open,
            sources,
            first.known[i + 1],
            keeps_all,
            first.before[i],
            first.after[i],
            first.outcomes[i],
        ));
        assert(event_step(
            again,
            then,
            second.known[i + 1],
            keeps_all,
            event,
            second.after[i],
            second.outcomes[i],
        ));
        if settled_outcome(event) is None {
            assert(first.before[i] == event);
            let tries = choose|tries: Seq<Attempt>| #[trigger]
                are_attempts(open, sources, keeps_all, event.fsid->0, shapes(event), tries)
                    && attempts_outcome(event, first.after[i], first.outcomes[i], tries)
                    && first.known[i + 1] == left_by(sources.known, tries);
            let others = choose|tries: Seq<Attempt>| #[trigger]
                are_attempts(again, then, keeps_all, event.fsid->0, shapes(event), tries)
                    && attempts_outcome(event, second.after[i], second.outcomes[i], tries)
                    && second.known[i + 1] == left_by(then.known, tries);
            a_pass_leaves_what_was_known(open, mounts, may_ask, keeps_all, first, i + 1, n);
            a_pass_leaves_what_was_known(again, mounts, may_ask, keeps_all, second, 0, i);
            lookups_chain(first.known[i + 1], first.known[n], second.known[i], keeps_all);
            a_failure_repeats(
                open,
                again,
                sources,
                then.known,
                keeps_all,
                event,
                tries,
                others,
            );
        }
    }
    assert(second.after =~= second.before);
    re_seen_counts(first.outcomes, second.outcomes);
}

/// Counting what a second pass re-sees.
proof fn re_seen_counts(first: Seq<EventResolution>, second: Seq<EventResolution>)
    requires
        first.len() == second.len(),
        forall|i: int|
            0 <= i < first.len() ==> (#[trigger] second[i]) !is Resolved && (
            second[i] is AlreadyResolved <==> first[i] is Resolved || first[i] is AlreadyResolved),
    ensures
        count_of(second, EventResolution::Resolved) == 0,
        count_of(second, EventResolution::AlreadyResolved) == count_of(
            first,
            EventResolution::Resolved,
        ) + count_of(first, EventResolution::AlreadyResolved),
    decreases first.len(),
{
    if first.len() > 0 {
        assert(second.last() == second[first.len() - 1]);
        assert forall|i: int| 0 <= i < first.len() - 1 implies (
        #[trigger] second.drop_last()[i]) !is Resolved && (
        second.drop_last()[i] is AlreadyResolved <==> first.drop_last()[i] is Resolved
            || first.drop_last()[i] is AlreadyResolved) by {
            assert(second.drop_last()[i] == second[i]);
        }
        re_seen_counts(first.drop_last(), second.drop_last());
    }
}

/// No outcome is `which` when none is counted.
proof fn none_counted(outcomes: Seq<EventResolution>, which: EventResolution, i: int)
    requires
        count_of(outcomes, which) == 0,
        0 <= i < outcomes.len(),
    ensures
        outcomes[i] != which,
    decreases outcomes.len(),
{
    if i < outcomes.len() - 1 {
        none_counted(outcomes.drop_last(), which, i);
        assert(outcomes.drop_last()[i] == outcomes[i]);
    }
}

/// An outcome that is counted is somewhere.
proof fn one_counted(outcomes: Seq<EventResolution>, which: EventResolution)
    requires
        forall|i: int| 0 <= i < outcomes.len() ==> (#[trigger] outcomes[i]) != which,
    ensures
        count_of(outcomes, which) == 0,
    decreases outcomes.len(),
{
    if outcomes.len() > 0 {
        assert(outcomes.last() == outcomes[outcomes.len() - 1]);
        assert forall|i: int| 0 <= i < outcomes.len() - 1 implies (
        #[trigger] outcomes.drop_last()[i]) != which by {
            assert(outcomes.drop_last()[i] == outcomes[i]);
        }
        one_counted(outcomes.drop_last(), which);
    }
}

/// The first `j` events of a pass that resolves none of them teach nothing and
/// stay as they are.
proof fn an_unproductive_pass_learns_nothing<F: Fn(i32, &[u8]) -> OpenReply>(
    open: F,
    mounts: Seq<Candidate>,
    may_ask: bool,
    keeps_all: bool,
    pass: Pass,
    i: int,
    j: int,
)
    requires
        is_pass_memo(open, mounts, may_ask, keeps_all, pass),
        0 <= i <= j <= pass.before.len(),
        forall|k: int| i <= k < j ==> (#[trigger] pass.outcomes[k]) !is Resolved,
    ensures
        left_by_lookup(pass.known[i], pass.known[j], keeps_all),
        forall|k: int| i <= k < j ==> #[trigger] pass.after[k] == pass.before[k],
    decreases j,
{
    if i < j {
        an_unproductive_pass_learns_nothing(open, mounts, may_ask, keeps_all, pass, i, j - 1);
        let event = pass.before[j - 1];
        assert(pass.outcomes[j - 1] !is Resolved);
        the_memo_outcome_says_whether_there_is_a_path(
            open,
            Sources { known: pass.known[j - 1], mounts, may_ask },
            pass.known[j],
            keeps_all,
            event,
            pass.after[j - 1],
            pass.outcomes[j - 1],
        );
        lookups_chain(pass.known[i], pass.known[j - 1], pass.known[j], keeps_all);
    }
}

/// A pass from where an unproductive one ended is unproductive too.
proof fn an_unproductive_pass_repeats<F: Fn(i32, &[u8]) -> OpenReply, G: Fn(
    i32,
    &[u8],
) -> OpenReply>(
    open: F,
    again: G,
    mounts: Seq<Candidate>,
    may_ask: bool,
    keeps_all: bool,
    pass: Pass,
    next: Pass,
    i: int,
)
    requires
        may_ask ==> failures_repeat(open, again),
        is_pass_memo(open, mounts, may_ask, keeps_all, pass),
        !is_productive(pass),
        is_pass_memo(again, mounts, may_ask, keeps_all, next),
        next.before == pass.after,
        next.known[0] == pass.known.last(),
        0 <= i <= next.before.len(),
    ensures
        forall|k: int| 0 <= k < i ==> (#[trigger] next.outcomes[k]) !is Resolved,
    decreases i,
{
    if i > 0 {
        an_unproductive_pass_repeats(
            open,
            again,
            mounts,
            may_ask,
            keeps_all,
            pass,
            next,
            i - 1,
        );
        let k = i - 1;
        let n = pass.before.len() as int;
        assert forall|m: int| 0 <= m < n implies (#[trigger] pass.outcomes[m]) !is Resolved by {
            none_counted(pass.outcomes, EventResolution::Resolved, m);
        }
        an_unproductive_pass_learns_nothing(open, mounts, may_ask, keeps_all, pass, 0, n);
        assert(pass.after[k] == pass.before[k]);
        let event = next.before[k];
        let sources = Sources { known: pass.known[k], mounts, may_ask };
        let then = Sources { known: next.known[k], mounts, may_ask };
        assert(event_step_memo(
            open,
            sources,
            pass.known[k + 1],
            keeps_all,
            pass.before[k],
            pass.after[k],
            pass.outcomes[k],
        ));
        assert(event_step_memo(
            again,
            then,
            next.known[k + 1],
            keeps_all,
            next.before[k],
            next.after[k],
            next.outcomes[k],
        ));
        if settled_outcome(event) is None {
            let tries = choose|tries: Seq<Attempt>| #[trigger]
                are_attempts(open, sources, keeps_all, event.fsid->0, shapes(event), tries)
                    && attempts_outcome(event, pass.after[k], pass.outcomes[k], tries)
                    && attempts_recorded(
                    sources.known,
                    pass.known[k + 1],
                    event,
                    tries,
                    keeps_all,
                );
            let others = choose|tries: Seq<Attempt>| #[trigger]
                are_attempts(again, then, keeps_all, event.fsid->0, shapes(event), tries)
                    && attempts_outcome(event, next.after[k], next.outcomes[k], tries)
                    && attempts_recorded(
                    then.known,
                    next.known[k + 1],
                    event,
                    tries,
                    keeps_all,
                );
            an_unproductive_pass_learns_nothing(
                open,
                mounts,
                may_ask,
                keeps_all,
                pass,
                k + 1,
                n,
            );
            an_unproductive_pass_learns_nothing(again, mounts, may_ask, keeps_all, next, 0, k);
            lookups_chain(pass.known[k + 1], pass.known[n], next.known[k], keeps_all);
            a_failure_repeats(
                open,
                again,
                sources,
                then.known,
                keeps_all,
                event,
                tries,
                others,
            );
        }
    }
}

/// A run leaves nothing to resolve: a second run over the same batch has no pass
/// that resolves anything, so its report says zero.  If the filesystem may be
/// asked, that is so as long as it does not open what it could not open before.
pub proof fn a_run_leaves_nothing_to_resolve<F: Fn(i32, &[u8]) -> OpenReply, G: Fn(
    i32,
    &[u8],
) -> OpenReply>(
    open: F,
    again: G,
    sources: Sources,
    keeps_all: bool,
    events: Seq<FidEventView>,
    passes: Seq<Pass>,
    last: Pass,
    more: Seq<Pass>,
    end: Pass,
    r: Resolution,
)
    requires
        sources.may_ask ==> failures_repeat(open, again),
        is_run(open, sources, keeps_all, events, passes, last),
        is_run(
            again,
            Sources { known: last.known.last(), ..sources },
            keeps_all,
            last.after,
            more,
            end,
        ),
        reports_run(r, more, end),
    ensures
        more.len() == 0,
        r.resolved == 0,
        r.passes == 1,
{
    if more.len() > 0 {
        let next = more[0];
        assert(is_pass_memo(again, sources.mounts, sources.may_ask, keeps_all, next));
        an_unproductive_pass_repeats(
            open,
            again,
            sources.mounts,
            sources.may_ask,
            keeps_all,
            last,
            next,
            next.before.len() as int,
        );
        one_counted(next.outcomes, EventResolution::Resolved);
    }
}

/// A run has no more productive passes than events without a path.
pub proof fn a_run_is_bounded<F: Fn(i32, &[u8]) -> OpenReply>(
    open: F,
    sources: Sources,
    keeps_all: bool,
    events: Seq<FidEventView>,
    passes: Seq<Pass>,
    last: Pass,
)
    requires
        is_run(open, sources, keeps_all, events, passes, last),
    ensures
        passes.len() <= pathless(events) <= events.len(),
{
    pathless_is_bounded(events);
    passes_use_up_events(open, sources, keeps_all, events, passes, passes.len() as int);
}

/// Each productive pass leaves at least one event fewer without a path.
proof fn passes_use_up_events<F: Fn(i32, &[u8]) -> OpenReply>(
    open: F,
    sources: Sources,
    keeps_all: bool,
    events: Seq<FidEventView>,
    passes: Seq<Pass>,
    k: int,
)
    requires
        are_productive_passes(
            open,
            sources.mounts,
            sources.may_ask,
            keeps_all,
            sources.known,
            events,
            passes,
        ),
        0 <= k <= passes.len(),
    ensures
        pathless(events_after(events, passes, k)) + k <= pathless(events),
    decreases k,
{
    if k > 0 {
        passes_use_up_events(open, sources, keeps_all, events, passes, k - 1);
        let pass = passes[k - 1];
        assert(is_pass_memo(open, sources.mounts, sources.may_ask, keeps_all, pass));
        a_pass_settles_what_it_resolves(
            open,
            sources.mounts,
            sources.may_ask,
            keeps_all,
            pass,
        );
    }
}

/// A pass is accounted for by the paths that the events have: as many were already
/// resolved as had a path before it, as many are unresolved as have none after it,
/// and the difference was resolved.
pub proof fn the_account_is_of_the_paths<F: Fn(i32, &[u8]) -> OpenReply>(
    memo: bool,
    open: F,
    mounts: Seq<Candidate>,
    may_ask: bool,
    keeps_all: bool,
    pass: Pass,
    r: Resolution,
    passes: int,
)
    requires
        memo ==> is_pass_memo(open, mounts, may_ask, keeps_all, pass),
        !memo ==> is_pass(open, mounts, may_ask, keeps_all, pass),
        is_account(r, pass.outcomes, passes),
    ensures
        r.unresolved == pathless(pass.after),
        r.already_resolved == pass.before.len() - pathless(pass.before),
        r.resolved == pathless(pass.before) - pathless(pass.after),
        r.passes == passes,
{
    outcomes_follow_paths(memo, open, mounts, may_ask, keeps_all, pass);
    paths_are_counted(pass.before, pass.after, pass.outcomes);
}

/// The outcome of each event of a pass says what became of its path.
proof fn outcomes_follow_paths<F: Fn(i32, &[u8]) -> OpenReply>(
    memo: bool,
    open: F,
    mounts: Seq<Candidate>,
    may_ask: bool,
    keeps_all: bool,
    pass: Pass,
)
    requires
        memo ==> is_pass_memo(open, mounts, may_ask, keeps_all, pass),
        !memo ==> is_pass(open, mounts, may_ask, keeps_all, pass),
    ensures
        forall|i: int|
            0 <= i < pass.before.len() ==> {
                &&& (#[trigger] pass.outcomes[i] is AlreadyResolved <==> pass.before[i].path
                    is Some)
                &&& (pass.outcomes[i] is Resolved <==> pass.before[i].path is None
                    && pass.after[i].path is Some)
                &&& (pass.outcomes[i] is AlreadyResolved ==> pass.after[i].path is Some)
            },
{
    assert forall|i: int| 0 <= i < pass.before.len() implies {
        &&& (#[trigger] pass.outcomes[i] is AlreadyResolved <==> pass.before[i].path is Some)
        &&& (pass.outcomes[i] is Resolved <==> pass.before[i].path is None && pass.after[i].path
            is Some)
        &&& (pass.outcomes[i] is AlreadyResolved ==> pass.after[i].path is Some)
    } by {
        let sources = Sources { known: pass.known[i], mounts, may_ask };
        let before = pass.before[i];
        if memo {
            the_memo_outcome_says_whether_there_is_a_path(
                open,
                sources,
                pass.known[i + 1],
                keeps_all,
                before,
                pass.after[i],
                pass.outcomes[i],
            );
        } else {
            the_outcome_says_whether_there_is_a_path(
                open,
                sources,
                pass.known[i + 1],
                keeps_all,
                before,
                pass.after[i],
                pass.outcomes[i],
            );
        }
    }
}

/// Outcomes that follow the paths count them.
proof fn paths_are_counted(
    before: Seq<FidEventView>,
    after: Seq<FidEventView>,
    outcomes: Seq<EventResolution>,
)
    requires
        before.len() == after.len(),
        before.len() == outcomes.len(),
        forall|i: int|
            0 <= i < before.len() ==> {
                &&& (#[trigger] outcomes[i] is AlreadyResolved <==> before[i].path is Some)
                &&& (outcomes[i] is Resolved <==> before[i].path is None && after[i].path is Some)
                &&& (outcomes[i] is AlreadyResolved ==> after[i].path is Some)
            },
    ensures
        count_of(outcomes, EventResolution::NothingToResolve) + count_of(
            outcomes,
            EventResolution::Unresolvable,
        ) == pathless(after),
        count_of(outcomes, EventResolution::AlreadyResolved) == before.len() - pathless(before),
        count_of(outcomes, EventResolution::Resolved) == pathless(before) - pathless(after),
    decreases before.len(),
{
    if before.len() > 0 {
        let x = before.drop_last();
        let y = after.drop_last();
        let o = outcomes.drop_last();
        assert forall|i: int| 0 <= i < x.len() implies {
            &&& (#[trigger] o[i] is AlreadyResolved <==> x[i].path is Some)
            &&& (o[i] is Resolved <==> x[i].path is None && y[i].path is Some)
            &&& (o[i] is AlreadyResolved ==> y[i].path is Some)
        } by {
            assert(o[i] == outcomes[i]);
        }
        paths_are_counted(x, y, o);
        assert(outcomes.last() == outcomes[before.len() - 1]);
    }
}

/// A run reports how it ended: as many events are unresolved as have no path in the
/// end.  It counts the passes that resolved something, and one if there was none.
pub proof fn a_run_accounts_for_its_end<F: Fn(i32, &[u8]) -> OpenReply>(
    open: F,
    sources: Sources,
    keeps_all: bool,
    events: Seq<FidEventView>,
    passes: Seq<Pass>,
    last: Pass,
    r: Resolution,
)
    requires
        is_run(open, sources, keeps_all, events, passes, last),
        reports_run(r, passes, last),
    ensures
        r.unresolved == pathless(last.after),
        r.resolved + r.already_resolved == last.after.len() - pathless(last.after),
        passes.len() == 0 ==> r.passes == 1 && r.resolved == 0,
        passes.len() > 0 ==> r.passes == passes.len() && r.resolved > 0,
{
    let mounts = sources.mounts;
    outcomes_follow_paths(true, open, mounts, sources.may_ask, keeps_all, last);
    paths_are_counted(last.before, last.after, last.outcomes);
    if passes.len() == 0 {
        the_account_is_of_the_paths(true, open, mounts, sources.may_ask, keeps_all, last, r, 1);
    } else {
        let k = passes.len() - 1;
        assert(is_pass_memo(open, mounts, sources.may_ask, keeps_all, passes[k]));
        assert(is_productive(passes[k]));
        the_account_is_of_the_paths(
            true,
            open,
            mounts,
            sources.may_ask,
            keeps_all,
            passes[k],
            r,
            passes.len() as int,
        );
    }
}

} // verus!
