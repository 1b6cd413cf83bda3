//! What resolving comes to.
//!
//! The laws of the resolver as its caller sees them: which of the things that an
//! event names its path comes from, what that path is, and what was learned on
//! the way.  They speak of the records of the event, of the store and of the
//! mounts, and of every way in which both forms of
//! [`resolve_event`](crate::resolve::PathResolver::resolve_event) may go.
use vstd::prelude::*;

use crate::fid::{event_views, FidEvent, FidEventView};
use crate::handle::{
    candidates_of, is_walk, may_reply, may_resolve, resolve_file_handle, resolve_file_handle_in,
    result_view, selected, selected_from_a_prefix, walk_result, Candidate, HandleError, Mounts,
    OpenReply,
};
use crate::path::{no_slash, part_of, parts, pushing_a_name_appends_one_component, Part};
use crate::resolve::{
    a_run_accounts_for_its_end, are_attempts, attempts_leave_what_was_known, attempts_outcome,
    attempts_recorded, check_entry_name, dir_half, dir_result, entry_path, event_step,
    event_step_memo, found_path, handle_memo, handle_result, is_account, is_attempt,
    is_entry_name, is_pass, is_run, known_before, left_by, lookups_chain, pathless, reports_run,
    shapes, succeeded, the_account_is_of_the_paths, Attempt, EventResolution, Pass,
    PathResolver, Resolution, Shape, Sources,
};
use crate::store::{left_by_lookup, Fsid, KnownPaths, PathStore};

verus! {

/// Whether bytes are a name that a directory entry can have, and that is not the
/// directory's own: not empty, neither `.` nor `..`, and without a slash or a NUL.
pub open spec fn is_plain_name(name: Seq<u8>) -> bool {
    &&& name.len() > 0
    &&& name != seq![0x2eu8]
    &&& name != seq![0x2eu8, 0x2eu8]
    &&& forall|i: int| 0 <= i < name.len() ==> #[trigger] name[i] != 0x2f && name[i] != 0
}

/// Whether a name stands for the directory itself: it is empty, or one dot.
pub open spec fn is_own_name(name: Seq<u8>) -> bool {
    name.len() == 0 || name == seq![0x2eu8]
}

/// Whether `path` is the entry `name` of `dir`: the bytes of the one, a slash
/// unless one stands there already, and the bytes of the other.
pub open spec fn is_entry_of(path: Seq<u8>, dir: Seq<u8>, name: Seq<u8>) -> bool {
    &&& path == (if dir.len() > 0 && dir.last() != 0x2f {
        dir + seq![0x2fu8] + name
    } else {
        dir + name
    })
    &&& parts(path) == parts(dir).push(Part::Name(name))
}

/// Whether `path` is what `name` names in `dir`: the directory, or an entry.
pub open spec fn is_named_in(path: Seq<u8>, dir: Seq<u8>, name: Seq<u8>) -> bool {
    ||| is_own_name(name) && path == dir
    ||| is_plain_name(name) && is_entry_of(path, dir, name)
}

/// Whether a handle resolves to `path` whenever it is asked for.
pub open spec fn answers<F: Fn(i32, &[u8]) -> OpenReply>(
    open: F,
    sources: Sources,
    keeps_all: bool,
    fsid: Fsid,
    handle: Seq<u8>,
    path: Seq<u8>,
) -> bool {
    forall|left: KnownPaths, result: Result<Seq<u8>, HandleError>|
        left_by_lookup(sources.known, left, keeps_all) && #[trigger] handle_result(
            open,
            Sources { known: left, ..sources },
            fsid,
            handle,
            result,
        ) ==> result == Ok::<Seq<u8>, HandleError>(path)
}

/// Whether a handle never resolves to anything.
pub open spec fn never_answers<F: Fn(i32, &[u8]) -> OpenReply>(
    open: F,
    sources: Sources,
    keeps_all: bool,
    fsid: Fsid,
    handle: Seq<u8>,
) -> bool {
    forall|left: KnownPaths, result: Result<Seq<u8>, HandleError>|
        left_by_lookup(sources.known, left, keeps_all) && #[trigger] handle_result(
            open,
            Sources { known: left, ..sources },
            fsid,
            handle,
            result,
        ) ==> result is Err
}

/// Whether an event may be resolved this way, by the form that records what it
/// learns if `memo` says so, and by the other if not.
pub open spec fn resolves<F: Fn(i32, &[u8]) -> OpenReply>(
    memo: bool,
    open: F,
    sources: Sources,
    known_after: KnownPaths,
    keeps_all: bool,
    before: FidEventView,
    after: FidEventView,
    outcome: EventResolution,
) -> bool {
    if memo {
        event_step_memo(open, sources, known_after, keeps_all, before, after, outcome)
    } else {
        event_step(open, sources, known_after, keeps_all, before, after, outcome)
    }
}

/// Whether the directory of a name cannot be asked for, or never answers.
pub open spec fn fails<F: Fn(i32, &[u8]) -> OpenReply>(
    open: F,
    sources: Sources,
    keeps_all: bool,
    fsid: Fsid,
    handle: Seq<u8>,
    name: Seq<u8>,
) -> bool {
    (!is_own_name(name) && !is_plain_name(name)) || never_answers(
        open,
        sources,
        keeps_all,
        fsid,
        handle,
    )
}

/// What can be an entry name.
proof fn entry_names(name: Seq<u8>)
    ensures
        is_entry_name(name) <==> is_own_name(name) || is_plain_name(name),
        is_plain_name(name) ==> no_slash(name) && part_of(name) == Some(Part::Name(name)),
{
    if is_plain_name(name) {
        assert(!name.contains(0x2fu8));
        assert(!name.contains(0u8));
    } else if !is_own_name(name) && is_entry_name(name) {
        assert forall|i: int| 0 <= i < name.len() implies #[trigger] name[i] != 0x2f && name[i]
            != 0 by {
            assert(name.contains(name[i]));
        }
    }
}

/// The path of an entry is the entry of its directory.
proof fn entry_paths(dir: Seq<u8>, name: Seq<u8>)
    requires
        is_own_name(name) || is_plain_name(name),
    ensures
        is_named_in(entry_path(dir, name), dir, name),
        is_own_name(name) ==> entry_path(dir, name) == dir,
        is_plain_name(name) ==> is_entry_of(entry_path(dir, name), dir, name),
{
    entry_names(name);
    if is_plain_name(name) {
        assert(name[0] != 0x2f);
        pushing_a_name_appends_one_component(dir, name);
        assert(dir.push(0x2fu8) + name =~= dir + seq![0x2fu8] + name);
    }
}

/// The attempts at an event stop at the first one that answers.
proof fn attempts_stop_at<F: Fn(i32, &[u8]) -> OpenReply>(
    open: F,
    sources: Sources,
    keeps_all: bool,
    fsid: Fsid,
    list: Seq<Shape>,
    tries: Seq<Attempt>,
    k: int,
    dir: Seq<u8>,
)
    requires
        are_attempts(open, sources, keeps_all, fsid, list, tries),
        0 <= k <= list.len(),
        k < list.len() ==> answers(open, sources, keeps_all, fsid, list[k].handle, dir)
            && is_entry_name(list[k].name),
        forall|j: int|
            0 <= j < k ==> fails(
                open,
                sources,
                keeps_all,
                fsid,
                (#[trigger] list[j]).handle,
                list[j].name,
            ),
    ensures
        k < list.len() ==> tries.len() == k + 1 && tries[k].dir == Ok::<Seq<u8>, HandleError>(dir),
        k == list.len() ==> !succeeded(tries) && tries.len() == k,
{
    assert forall|j: int| 0 <= j < k && j < tries.len() implies (#[trigger] tries[j]).dir is Err by {
        attempt_reads_the_store(open, sources, keeps_all, fsid, list, tries, j);
        entry_names(list[j].name);
        assert(fails(open, sources, keeps_all, fsid, list[j].handle, list[j].name));
    }
    if k < tries.len() {
        attempt_reads_the_store(open, sources, keeps_all, fsid, list, tries, k);
    }
}

/// Each attempt is answered from what the lookups before it left.
proof fn attempt_reads_the_store<F: Fn(i32, &[u8]) -> OpenReply>(
    open: F,
    sources: Sources,
    keeps_all: bool,
    fsid: Fsid,
    list: Seq<Shape>,
    tries: Seq<Attempt>,
    j: int,
)
    requires
        are_attempts(open, sources, keeps_all, fsid, list, tries),
        0 <= j < tries.len(),
    ensures
        left_by_lookup(sources.known, tries[j].left, keeps_all),
        if is_entry_name(list[j].name) {
            handle_result(
                open,
                Sources { known: tries[j].left, ..sources },
                fsid,
                list[j].handle,
                tries[j].dir,
            )
        } else {
            tries[j].dir is Err
        },
{
    attempts_leave_what_was_known(open, sources, keeps_all, fsid, list, tries, 0, j);
    let known = known_before(sources.known, tries, j);
    assert(is_attempt(
        open,
        Sources { known, ..sources },
        keeps_all,
        fsid,
        list[j],
        tries[j],
    ));
    lookups_chain(sources.known, known, tries[j].left, keeps_all);
}

/// The attempts that an event was resolved by.
spec fn attempts_of<F: Fn(i32, &[u8]) -> OpenReply>(
    memo: bool,
    open: F,
    sources: Sources,
    known_after: KnownPaths,
    keeps_all: bool,
    before: FidEventView,
    after: FidEventView,
    outcome: EventResolution,
    tries: Seq<Attempt>,
) -> bool {
    &&& are_attempts(open, sources, keeps_all, before.fsid->0, shapes(before), tries)
    &&& attempts_outcome(before, after, outcome, tries)
    &&& if memo {
        attempts_recorded(sources.known, known_after, before, tries, keeps_all)
    } else {
        known_after == left_by(sources.known, tries)
    }
}

/// An event that has to be tried is.
proof fn there_are_attempts<F: Fn(i32, &[u8]) -> OpenReply>(
    memo: bool,
    open: F,
    sources: Sources,
    known_after: KnownPaths,
    keeps_all: bool,
    before: FidEventView,
    after: FidEventView,
    outcome: EventResolution,
) -> (tries: Seq<Attempt>)
    requires
        resolves(memo, open, sources, known_after, keeps_all, before, after, outcome),
        before.path is None,
        before.fsid is Some,
    ensures
        attempts_of(memo, open, sources, known_after, keeps_all, before, after, outcome, tries),
{
    if memo {
        choose|tries: Seq<Attempt>| #[trigger]
            are_attempts(open, sources, keeps_all, before.fsid->0, shapes(before), tries)
                && attempts_outcome(before, after, outcome, tries) && attempts_recorded(
                sources.known,
                known_after,
                before,
                tries,
                keeps_all,
            )
    } else {
        choose|tries: Seq<Attempt>| #[trigger]
            are_attempts(open, sources, keeps_all, before.fsid->0, shapes(before), tries)
                && attempts_outcome(before, after, outcome, tries) && known_after == left_by(
                sources.known,
                tries,
            )
    }
}

/// A store that keeps what it is given answers with what it knows, whatever the
/// filesystem would say.
pub proof fn a_kept_handle_answers<F: Fn(i32, &[u8]) -> OpenReply>(
    open: F,
    sources: Sources,
    fsid: Fsid,
    handle: Seq<u8>,
)
    requires
        sources.known.dom().contains((fsid, handle)),
    ensures
        answers(open, sources, true, fsid, handle, sources.known[(fsid, handle)]),
{
}

/// What the store does not know never answers where the filesystem may not be
/// asked.
pub proof fn an_unknown_handle_never_answers<F: Fn(i32, &[u8]) -> OpenReply>(
    open: F,
    sources: Sources,
    keeps_all: bool,
    fsid: Fsid,
    handle: Seq<u8>,
)
    requires
        !sources.known.dom().contains((fsid, handle)),
        !sources.may_ask,
    ensures
        never_answers(open, sources, keeps_all, fsid, handle),
{
    assert forall|left: KnownPaths, result: Result<Seq<u8>, HandleError>|
        left_by_lookup(sources.known, left, keeps_all) && #[trigger] handle_result(
            open,
            Sources { known: left, ..sources },
            fsid,
            handle,
            result,
        ) implies result is Err by {
        if left.dom().contains((fsid, handle)) {
            assert(sources.known.dom().contains((fsid, handle)));
        }
    }
}

/// An event with a `DFID_NAME` record is found where that record says, whatever
/// else it carries: its directory's path with the name behind it, or that path
/// itself for an empty name and `.`.  The form that records what it learns
/// records the directory, and the entry if the event carries its handle.
pub proof fn an_entry_is_found_in_its_directory<F: Fn(i32, &[u8]) -> OpenReply>(
    memo: bool,
    open: F,
    sources: Sources,
    known_after: KnownPaths,
    keeps_all: bool,
    before: FidEventView,
    after: FidEventView,
    outcome: EventResolution,
    name: Seq<u8>,
    dir: Seq<u8>,
)
    requires
        resolves(memo, open, sources, known_after, keeps_all, before, after, outcome),
        before.path is None,
        before.fsid is Some,
        before.dfid_name_handle is Some,
        name == (match before.dfid_name_name {
            Some(name) => name,
            None => Seq::empty(),
        }),
        is_own_name(name) || is_plain_name(name),
        answers(open, sources, keeps_all, before.fsid->0, before.dfid_name_handle->0, dir),
    ensures
        outcome == EventResolution::Resolved,
        after.path is Some,
        after == (FidEventView { path: after.path, ..before }),
        is_own_name(name) ==> after.path->0 == dir,
        is_plain_name(name) ==> is_entry_of(after.path->0, dir, name),
        memo && keeps_all ==> known_after == ({
            let with_dir = sources.known.insert((before.fsid->0, before.dfid_name_handle->0), dir);
            match before.self_handle {
                Some(own) => with_dir.insert((before.fsid->0, own), after.path->0),
                None => with_dir,
            }
        }),
        !memo && keeps_all ==> known_after == sources.known,
{
    let fsid = before.fsid->0;
    let list = shapes(before);
    let tries = there_are_attempts(
        memo,
        open,
        sources,
        known_after,
        keeps_all,
        before,
        after,
        outcome,
    );
    assert(list[0].handle == before.dfid_name_handle->0);
    assert(list[0].name == name);
    entry_names(name);
    entry_paths(dir, name);
    attempts_stop_at(open, sources, keeps_all, fsid, list, tries, 0, dir);
    attempt_reads_the_store(open, sources, keeps_all, fsid, list, tries, 0);
    assert(found_path(list, tries) == entry_path(dir, name));
}

/// A rename event is found at its source, whatever its target side says and
/// whether it has one or not: where there is no `DFID_NAME` record, or that record
/// does not answer, its path is the path of the source's directory with the
/// source's name behind it.
pub proof fn a_rename_is_found_at_its_source<F: Fn(i32, &[u8]) -> OpenReply>(
    memo: bool,
    open: F,
    sources: Sources,
    known_after: KnownPaths,
    keeps_all: bool,
    before: FidEventView,
    after: FidEventView,
    outcome: EventResolution,
    dir: Seq<u8>,
)
    requires
        resolves(memo, open, sources, known_after, keeps_all, before, after, outcome),
        before.path is None,
        before.fsid is Some,
        before.dfid_name_handle is Some ==> fails(
            open,
            sources,
            keeps_all,
            before.fsid->0,
            before.dfid_name_handle->0,
            (match before.dfid_name_name {
                Some(name) => name,
                None => Seq::empty(),
            }),
        ),
        before.rename_source is Some,
        is_own_name(before.rename_source->0.name) || is_plain_name(before.rename_source->0.name),
        answers(open, sources, keeps_all, before.fsid->0, before.rename_source->0.handle, dir),
    ensures
        outcome == EventResolution::Resolved,
        after.path is Some,
        after == (FidEventView { path: after.path, ..before }),
        is_own_name(before.rename_source->0.name) ==> after.path->0 == dir,
        is_plain_name(before.rename_source->0.name) ==> is_entry_of(
            after.path->0,
            dir,
            before.rename_source->0.name,
        ),
        memo && keeps_all ==> known_after == sources.known.insert(
            (before.fsid->0, before.rename_source->0.handle),
            dir,
        ),
        !memo && keeps_all ==> known_after == sources.known,
{
    let fsid = before.fsid->0;
    let list = shapes(before);
    let name = before.rename_source->0.name;
    let tries = there_are_attempts(
        memo,
        open,
        sources,
        known_after,
        keeps_all,
        before,
        after,
        outcome,
    );
    let k: int = if before.dfid_name_handle is Some {
        1
    } else {
        0
    };
    assert(list[k].handle == before.rename_source->0.handle);
    assert(list[k].name == name);
    if k == 1 {
        assert(list[0].handle == before.dfid_name_handle->0);
    }
    entry_names(name);
    entry_paths(dir, name);
    attempts_stop_at(open, sources, keeps_all, fsid, list, tries, k, dir);
    attempt_reads_the_store(open, sources, keeps_all, fsid, list, tries, k);
    assert(found_path(list, tries) == entry_path(dir, name));
}

/// An event that is found neither as an entry nor as a rename is found by its own
/// handle, and its path is what that handle resolves to, unchanged.
pub proof fn an_object_is_found_by_its_own_handle<F: Fn(i32, &[u8]) -> OpenReply>(
    memo: bool,
    open: F,
    sources: Sources,
    known_after: KnownPaths,
    keeps_all: bool,
    before: FidEventView,
    after: FidEventView,
    outcome: EventResolution,
    path: Seq<u8>,
)
    requires
        resolves(memo, open, sources, known_after, keeps_all, before, after, outcome),
        before.path is None,
        before.fsid is Some,
        before.dfid_name_handle is Some ==> fails(
            open,
            sources,
            keeps_all,
            before.fsid->0,
            before.dfid_name_handle->0,
            (match before.dfid_name_name {
                Some(name) => name,
                None => Seq::empty(),
            }),
        ),
        before.rename_source is Some ==> fails(
            open,
            sources,
            keeps_all,
            before.fsid->0,
            before.rename_source->0.handle,
            before.rename_source->0.name,
        ),
        before.self_handle is Some,
        answers(open, sources, keeps_all, before.fsid->0, before.self_handle->0, path),
    ensures
        outcome == EventResolution::Resolved,
        after == (FidEventView { path: Some(path), ..before }),
        memo && keeps_all ==> known_after == sources.known.insert(
            (before.fsid->0, before.self_handle->0),
            path,
        ),
        !memo && keeps_all ==> known_after == sources.known,
{
    let fsid = before.fsid->0;
    let list = shapes(before);
    let tries = there_are_attempts(
        memo,
        open,
        sources,
        known_after,
        keeps_all,
        before,
        after,
        outcome,
    );
    let k = list.len() - 1;
    assert(list[k].handle == before.self_handle->0);
    assert(list[k].name.len() == 0);
    others_fail(open, sources, keeps_all, before, k);
    entry_names(list[k].name);
    entry_paths(path, list[k].name);
    attempts_stop_at(open, sources, keeps_all, fsid, list, tries, k, path);
    attempt_reads_the_store(open, sources, keeps_all, fsid, list, tries, k);
    assert(found_path(list, tries) == path);
}

/// What an event names in front of its own handle fails if it does not answer.
proof fn others_fail<F: Fn(i32, &[u8]) -> OpenReply>(
    open: F,
    sources: Sources,
    keeps_all: bool,
    event: FidEventView,
    k: int,
)
    requires
        event.dfid_name_handle is Some ==> fails(
            open,
            sources,
            keeps_all,
            event.fsid->0,
            event.dfid_name_handle->0,
            (match event.dfid_name_name {
                Some(name) => name,
                None => Seq::empty(),
            }),
        ),
        event.rename_source is Some ==> fails(
            open,
            sources,
            keeps_all,
            event.fsid->0,
            event.rename_source->0.handle,
            event.rename_source->0.name,
        ),
        k == shapes(event).len() - (if event.self_handle is Some {
            1int
        } else {
            0
        }),
    ensures
        forall|j: int|
            0 <= j < k ==> fails(
                open,
                sources,
                keeps_all,
                event.fsid->0,
                (#[trigger] shapes(event)[j]).handle,
                shapes(event)[j].name,
            ),
{
    let list = shapes(event);
    assert forall|j: int| 0 <= j < k implies fails(
        open,
        sources,
        keeps_all,
        event.fsid->0,
        (#[trigger] list[j]).handle,
        list[j].name,
    ) by {
        if j == 0 && event.dfid_name_handle is Some {
            assert(list[0].handle == event.dfid_name_handle->0);
        } else {
            assert(list[j].handle == event.rename_source->0.handle);
        }
    }
}

/// An event none of whose handles answers stays as it is, is called unresolvable,
/// and teaches nothing.  A rename's target is not asked for.
pub proof fn an_unanswered_event_stays_as_it_is<F: Fn(i32, &[u8]) -> OpenReply>(
    memo: bool,
    open: F,
    sources: Sources,
    known_after: KnownPaths,
    keeps_all: bool,
    before: FidEventView,
    after: FidEventView,
    outcome: EventResolution,
)
    requires
        resolves(memo, open, sources, known_after, keeps_all, before, after, outcome),
        before.path is None,
        before.fsid is Some,
        before.dfid_name_handle is Some ==> fails(
            open,
            sources,
            keeps_all,
            before.fsid->0,
            before.dfid_name_handle->0,
            (match before.dfid_name_name {
                Some(name) => name,
                None => Seq::empty(),
            }),
        ),
        before.rename_source is Some ==> fails(
            open,
            sources,
            keeps_all,
            before.fsid->0,
            before.rename_source->0.handle,
            before.rename_source->0.name,
        ),
        before.self_handle is Some ==> never_answers(
            open,
            sources,
            keeps_all,
            before.fsid->0,
            before.self_handle->0,
        ),
    ensures
        outcome == EventResolution::Unresolvable,
        after == before,
        keeps_all ==> known_after == sources.known,
{
    let fsid = before.fsid->0;
    let list = shapes(before);
    let tries = there_are_attempts(
        memo,
        open,
        sources,
        known_after,
        keeps_all,
        before,
        after,
        outcome,
    );
    let own: int = if before.self_handle is Some {
        1
    } else {
        0
    };
    others_fail(open, sources, keeps_all, before, list.len() - own);
    if own == 1 {
        assert(list[list.len() - 1].handle == before.self_handle->0);
    }
    attempts_stop_at(
        open,
        sources,
        keeps_all,
        fsid,
        list,
        tries,
        list.len() as int,
        Seq::empty(),
    );
    attempts_leave_what_was_known(
        open,
        sources,
        keeps_all,
        fsid,
        list,
        tries,
        0,
        tries.len() as int,
    );
}

/// An event that has a path keeps it, and one that names no filesystem has
/// nothing to resolve; neither is changed, and nothing is asked on its account.
pub proof fn a_settled_event_is_not_tried<F: Fn(i32, &[u8]) -> OpenReply>(
    memo: bool,
    open: F,
    sources: Sources,
    known_after: KnownPaths,
    keeps_all: bool,
    before: FidEventView,
    after: FidEventView,
    outcome: EventResolution,
)
    requires
        resolves(memo, open, sources, known_after, keeps_all, before, after, outcome),
    ensures
        before.path is Some ==> outcome == EventResolution::AlreadyResolved,
        before.path is None && before.fsid is None ==> outcome
            == EventResolution::NothingToResolve,
        before.path is None && before.fsid is Some ==> outcome == EventResolution::Resolved
            || outcome == EventResolution::Unresolvable,
        before.path is Some || before.fsid is None ==> after == before && known_after
            == sources.known,
{
}

/// Whether a path is what a handle and a name come to, for some answer that the
/// handle may have.
pub open spec fn may_be_named_by<F: Fn(i32, &[u8]) -> OpenReply>(
    open: F,
    sources: Sources,
    keeps_all: bool,
    fsid: Fsid,
    handle: Seq<u8>,
    name: Seq<u8>,
    path: Seq<u8>,
) -> bool {
    exists|left: KnownPaths, dir: Seq<u8>|
        {
            &&& left_by_lookup(sources.known, left, keeps_all)
            &&& #[trigger] handle_result(
                open,
                Sources { known: left, ..sources },
                fsid,
                handle,
                Ok(dir),
            )
            &&& is_named_in(path, dir, name)
        }
}

/// A path that an event is resolved to comes from something that the event names,
/// on its own filesystem: the entry of its `DFID_NAME` record, the source of its
/// rename, or its own handle.  It comes from nothing else, the target of a rename
/// least of all.
pub proof fn a_path_comes_from_what_the_event_names<F: Fn(i32, &[u8]) -> OpenReply>(
    memo: bool,
    open: F,
    sources: Sources,
    known_after: KnownPaths,
    keeps_all: bool,
    before: FidEventView,
    after: FidEventView,
    outcome: EventResolution,
)
    requires
        resolves(memo, open, sources, known_after, keeps_all, before, after, outcome),
        outcome == EventResolution::Resolved,
    ensures
        before.fsid is Some,
        after.path is Some,
        ({
            let fsid = before.fsid->0;
            let path = after.path->0;
            ||| before.dfid_name_handle is Some && may_be_named_by(
                open,
                sources,
                keeps_all,
                fsid,
                before.dfid_name_handle->0,
                (match before.dfid_name_name {
                    Some(name) => name,
                    None => Seq::empty(),
                }),
                path,
            )
            ||| before.rename_source is Some && may_be_named_by(
                open,
                sources,
                keeps_all,
                fsid,
                before.rename_source->0.handle,
                before.rename_source->0.name,
                path,
            )
            ||| before.self_handle is Some && may_be_named_by(
                open,
                sources,
                keeps_all,
                fsid,
                before.self_handle->0,
                Seq::empty(),
                path,
            )
        }),
{
    let fsid = before.fsid->0;
    let list = shapes(before);
    let tries = there_are_attempts(
        memo,
        open,
        sources,
        known_after,
        keeps_all,
        before,
        after,
        outcome,
    );
    let k = tries.len() - 1;
    let name = list[k].name;
    let dir = tries[k].dir->Ok_0;
    attempt_reads_the_store(open, sources, keeps_all, fsid, list, tries, k);
    entry_names(name);
    entry_paths(dir, name);
    assert(may_be_named_by(open, sources, keeps_all, fsid, list[k].handle, name, after.path->0));
    let entry: int = if before.dfid_name_handle is Some {
        1
    } else {
        0
    };
    if k < entry {
        assert(list[k].handle == before.dfid_name_handle->0);
    } else if k == entry && before.rename_source is Some {
        assert(list[k].handle == before.rename_source->0.handle);
    } else {
        assert(list[k].handle == before.self_handle->0);
        assert(name =~= Seq::<u8>::empty());
    }
}

/// A rename event whose source's directory the store knows is resolved from the
/// store alone: to that directory with the source's name behind it, whatever the
/// target side says, and without one too.
pub proof fn a_known_source_is_enough<F: Fn(i32, &[u8]) -> OpenReply>(
    memo: bool,
    open: F,
    sources: Sources,
    known_after: KnownPaths,
    before: FidEventView,
    after: FidEventView,
    outcome: EventResolution,
)
    requires
        resolves(memo, open, sources, known_after, true, before, after, outcome),
        before.path is None,
        before.fsid is Some,
        before.dfid_name_handle is None,
        before.rename_source is Some,
        is_plain_name(before.rename_source->0.name),
        sources.known.dom().contains((before.fsid->0, before.rename_source->0.handle)),
    ensures
        outcome == EventResolution::Resolved,
        after.path is Some,
        is_entry_of(
            after.path->0,
            sources.known[(before.fsid->0, before.rename_source->0.handle)],
            before.rename_source->0.name,
        ),
        after == (FidEventView { path: after.path, ..before }),
{
    let fsid = before.fsid->0;
    let handle = before.rename_source->0.handle;
    a_kept_handle_answers(open, sources, fsid, handle);
    a_rename_is_found_at_its_source(
        memo,
        open,
        sources,
        known_after,
        true,
        before,
        after,
        outcome,
        sources.known[(fsid, handle)],
    );
}

/// What a name comes to in a directory.  An empty name and `.` are the directory;
/// any other name without a slash or a NUL, but for `..`, is one component behind
/// it; and every other name is refused without asking anybody.  So a path is its
/// directory's only for an empty name and `.`.
pub proof fn a_name_is_one_component<F: Fn(i32, &[u8]) -> OpenReply>(
    open: F,
    sources: Sources,
    fsid: Fsid,
    handle: Seq<u8>,
    name: Seq<u8>,
    result: Result<Seq<u8>, HandleError>,
)
    requires
        dir_result(open, sources, fsid, handle, name, result),
    ensures
        is_own_name(name) ==> handle_result(open, sources, fsid, handle, result),
        is_plain_name(name) ==> match result {
            Ok(path) => exists|dir: Seq<u8>| #[trigger]
                handle_result(open, sources, fsid, handle, Ok(dir)) && is_entry_of(
                    path,
                    dir,
                    name,
                ) && parts(path) != parts(dir) && path != dir,
            Err(_) => handle_result(open, sources, fsid, handle, result),
        },
        !is_own_name(name) && !is_plain_name(name) ==> result == Err::<Seq<u8>, HandleError>(
            HandleError::InvalidInput,
        ),
{
    let dir = choose|dir: Result<Seq<u8>, HandleError>| #[trigger]
        dir_half(open, sources, fsid, handle, name, dir) && result
            == crate::resolve::entry_result(dir, name);
    entry_names(name);
    if is_own_name(name) || is_plain_name(name) {
        if let Ok(found) = dir {
            entry_paths(found, name);
            assert(handle_result(open, sources, fsid, handle, Ok(found)));
            assert(parts(found).push(Part::Name(name)).len() == parts(found).len() + 1);
        }
    }
}

/// Whether a mount may be on the wanted filesystem: it is on that one, or one of
/// the two is not known.
pub open spec fn may_hold(mount: Candidate, wanted: Option<Fsid>) -> bool {
    match (mount.fsid, wanted) {
        (Some(on), Some(want)) => on.0 == want.0 && on.1 == want.1,
        _ => true,
    }
}

/// Whether opening a handle on a descriptor may give a path.
pub open spec fn may_give<F: Fn(i32, &[u8]) -> OpenReply>(
    open: F,
    fd: i32,
    handle: Seq<u8>,
    path: Seq<u8>,
) -> bool {
    exists|bytes: &[u8], found: Vec<u8>|
        {
            &&& bytes@ == handle
            &&& #[trigger] open.ensures((fd, bytes), Ok(found))
            &&& found@ == path
        }
}

/// Whether opening a handle on a descriptor may fail, with an errno or without.
pub open spec fn may_fail<F: Fn(i32, &[u8]) -> OpenReply>(
    open: F,
    fd: i32,
    handle: Seq<u8>,
) -> bool {
    exists|errno: Option<i32>| #[trigger] may_fail_with(open, fd, handle, errno)
}

/// Whether opening a handle on a descriptor may fail with this errno, or without
/// one.
pub open spec fn may_fail_with<F: Fn(i32, &[u8]) -> OpenReply>(
    open: F,
    fd: i32,
    handle: Seq<u8>,
    errno: Option<i32>,
) -> bool {
    exists|bytes: &[u8]|
        bytes@ == handle && #[trigger] open.ensures((fd, bytes), Err::<Vec<u8>, Option<i32>>(errno))
}

/// A mount that may hold the handle is selected, behind those selected before it.
proof fn a_mount_is_selected(mounts: Seq<Candidate>, wanted: Option<Fsid>, i: int)
    requires
        0 <= i < mounts.len(),
        may_hold(mounts[i], wanted),
    ensures
        selected(mounts.take(i), wanted).len() < selected(mounts, wanted).len(),
        selected(mounts, wanted)[selected(mounts.take(i), wanted).len() as int] == mounts[i].fd,
{
    let k = selected(mounts.take(i), wanted).len() as int;
    assert(mounts.take(i + 1).drop_last() =~= mounts.take(i));
    assert(mounts.take(i + 1).last() == mounts[i]);
    selected_from_a_prefix(mounts, wanted, i + 1);
    assert(selected(mounts.take(i + 1), wanted)[k] == mounts[i].fd);
}

/// What is selected is a mount that may hold the handle.
proof fn a_selected_mount(mounts: Seq<Candidate>, wanted: Option<Fsid>, k: int) -> (i: int)
    requires
        0 <= k < selected(mounts, wanted).len(),
    ensures
        0 <= i < mounts.len(),
        may_hold(mounts[i], wanted),
        selected(mounts.take(i), wanted).len() == k,
        selected(mounts, wanted)[k] == mounts[i].fd,
    decreases mounts.len(),
{
    let init = mounts.drop_last();
    if k < selected(init, wanted).len() {
        let i = a_selected_mount(init, wanted, k);
        assert(init.take(i) =~= mounts.take(i));
        i
    } else {
        assert(mounts.take(mounts.len() - 1) =~= init);
        mounts.len() - 1
    }
}

/// The mounts that may hold a handle are selected in their own order.
proof fn mounts_are_selected_in_order(
    mounts: Seq<Candidate>,
    wanted: Option<Fsid>,
    j: int,
    i: int,
)
    requires
        0 <= j < i <= mounts.len(),
        may_hold(mounts[j], wanted),
    ensures
        selected(mounts.take(j), wanted).len() < selected(mounts.take(i), wanted).len(),
{
    let front = mounts.take(i);
    assert(front.take(j) =~= mounts.take(j));
    assert(front[j] == mounts[j]);
    a_mount_is_selected(front, wanted, j);
}

/// A handle is opened on no filesystem but its own, on the mounts in their order,
/// until one gives a path.
///
/// A path is what a mount that may hold the handle gave, after every such mount in
/// front of it had failed.  An error means that every such mount failed: the errno
/// is the one that the last of them gave, 5 where it gave none, and 18 where there
/// was no such mount.  Bytes that are too short or too long for a handle are
/// refused, and that alone is refused.
pub proof fn a_handle_is_opened_on_its_own_filesystem<F: Fn(i32, &[u8]) -> OpenReply>(
    open: F,
    mounts: Seq<Candidate>,
    wanted: Option<Fsid>,
    handle: Seq<u8>,
    result: Result<Seq<u8>, HandleError>,
)
    requires
        may_resolve(open, mounts, wanted, handle, result),
    ensures
        handle.len() < 8 || handle.len() > 136 <==> result == Err::<Seq<u8>, HandleError>(
            HandleError::InvalidInput,
        ),
        result matches Ok(path) ==> exists|i: int|
            {
                &&& 0 <= i < mounts.len()
                &&& may_hold(#[trigger] mounts[i], wanted)
                &&& may_give(open, mounts[i].fd, handle, path)
                &&& forall|j: int|
                    0 <= j < i && may_hold(#[trigger] mounts[j], wanted) ==> may_fail(
                        open,
                        mounts[j].fd,
                        handle,
                    )
            },
        result matches Err(HandleError::Os(errno)) ==> {
            &&& forall|j: int|
                0 <= j < mounts.len() && may_hold(#[trigger] mounts[j], wanted) ==> may_fail(
                    open,
                    mounts[j].fd,
                    handle,
                )
            &&& forall|i: int|
                0 <= i < mounts.len() && may_hold(#[trigger] mounts[i], wanted) && (forall|j: int|
                    i < j < mounts.len() ==> !may_hold(#[trigger] mounts[j], wanted))
                    ==> may_fail_with(open, mounts[i].fd, handle, Some(errno)) || (may_fail_with(
                    open,
                    mounts[i].fd,
                    handle,
                    None,
                ) && errno == 5)
            &&& (forall|j: int|
                0 <= j < mounts.len() ==> !may_hold(#[trigger] mounts[j], wanted)) ==> errno == 18
        },
{
    if 8 <= handle.len() <= 136 {
        let fds = selected(mounts, wanted);
        let replies = choose|replies: Seq<OpenReply>|
            is_walk(open, fds, handle, replies) && result == #[trigger] walk_result(replies);
        if replies.len() > 0 {
            let last = replies.len() - 1;
            let i = a_selected_mount(mounts, wanted, last);
            assert(may_reply(open, fds[last], handle, replies[last]));
            assert forall|j: int|
                0 <= j < mounts.len() && may_hold(#[trigger] mounts[j], wanted) && (j < i
                    || result is Err) implies may_fail(open, mounts[j].fd, handle) by {
                let k = selected(mounts.take(j), wanted).len() as int;
                a_mount_is_selected(mounts, wanted, j);
                if j < i {
                    mounts_are_selected_in_order(mounts, wanted, j, i);
                }
                assert(may_reply(open, fds[k], handle, replies[k]));
                assert(replies[k] is Err);
                assert(may_reply(open, mounts[j].fd, handle, Err(replies[k]->Err_0)));
                assert(may_fail_with(open, mounts[j].fd, handle, replies[k]->Err_0));
            }
            assert forall|j: int|
                0 <= j < mounts.len() && may_hold(#[trigger] mounts[j], wanted) && result
                    is Err implies j <= i by {
                if j > i {
                    a_mount_is_selected(mounts, wanted, j);
                    mounts_are_selected_in_order(mounts, wanted, i, j);
                }
            }
            if result is Ok {
                assert(may_reply(open, mounts[i].fd, handle, Ok(replies[last]->Ok_0)));
                assert(may_give(open, mounts[i].fd, handle, result->Ok_0));
            } else {
                assert(may_fail_with(open, mounts[i].fd, handle, replies[last]->Err_0));
            }
        } else {
            assert forall|j: int| 0 <= j < mounts.len() implies !may_hold(
                #[trigger] mounts[j],
                wanted,
            ) by {
                if may_hold(mounts[j], wanted) {
                    a_mount_is_selected(mounts, wanted, j);
                }
            }
        }
    }
}

/// A handle is answered by the store if the store knows it, by the mounts if not
/// and they may be asked, and with 18 if they may not.
pub proof fn the_store_is_asked_first<F: Fn(i32, &[u8]) -> OpenReply>(
    open: F,
    sources: Sources,
    fsid: Fsid,
    handle: Seq<u8>,
    result: Result<Seq<u8>, HandleError>,
)
    requires
        handle_result(open, sources, fsid, handle, result),
    ensures
        sources.known.dom().contains((fsid, handle)) ==> result == Ok::<Seq<u8>, HandleError>(
            sources.known[(fsid, handle)],
        ),
        !sources.known.dom().contains((fsid, handle)) && sources.may_ask ==> may_resolve(
            open,
            sources.mounts,
            Some(fsid),
            handle,
            result,
        ),
        !sources.known.dom().contains((fsid, handle)) && !sources.may_ask ==> result == Err::<
            Seq<u8>,
            HandleError,
        >(HandleError::Os(18)),
{
}

/// Learning a handle records its answer under that handle and that filesystem,
/// and a failure records nothing.
pub proof fn an_answer_is_recorded_under_its_handle<F: Fn(i32, &[u8]) -> OpenReply>(
    open: F,
    sources: Sources,
    after: KnownPaths,
    fsid: Fsid,
    handle: Seq<u8>,
    result: Result<Seq<u8>, HandleError>,
)
    requires
        handle_memo(open, sources, after, true, fsid, handle, result),
    ensures
        handle_result(open, sources, fsid, handle, result),
        match result {
            Ok(path) => after.dom().contains((fsid, handle)) && after[(fsid, handle)] == path,
            Err(_) => after == sources.known,
        },
        forall|key: (Fsid, Seq<u8>)|
            key != (fsid, handle) ==> (after.dom().contains(key)
                <==> sources.known.dom().contains(key)) && (after.dom().contains(key)
                ==> #[trigger] after[key] == sources.known[key]),
{
}

/// A resolver whose store knows a handle answers from it, and changes nothing.
pub proof fn a_resolver_answers_from_its_store<C: PathStore, F: Fn(i32, &[u8]) -> OpenReply>()
    requires
        C::keeps_all(),
    ensures
        forall|
            resolver: &mut PathResolver<C>,
            fsid: Fsid,
            handle: &[u8],
            open: &F,
            r: Result<Vec<u8>, HandleError>,
        |
            #[trigger] call_ensures(
                PathResolver::<C>::resolve_handle::<F>,
                (resolver, fsid, handle, open),
                r,
            ) && (*resolver).sources().known.dom().contains((fsid, handle@)) ==> final(resolver).sources()
                == (*resolver).sources() && (r matches Ok(path) && path@
                == (*resolver).sources().known[(fsid, handle@)]),
        forall|
            resolver: &mut PathResolver<C>,
            fsid: Fsid,
            handle: &[u8],
            r: Option<Vec<u8>>,
        |
            #[trigger] call_ensures(PathResolver::<C>::known, (resolver, fsid, handle), r)
                ==> final(resolver).sources() == (*resolver).sources() && match r {
                Some(path) => (*resolver).sources().known.dom().contains((fsid, handle@)) && path@
                    == (*resolver).sources().known[(fsid, handle@)],
                None => !(*resolver).sources().known.dom().contains((fsid, handle@)),
            },
        forall|
            resolver: &mut PathResolver<C>,
            fsid: Fsid,
            handle: &[u8],
            name: &[u8],
            open: &F,
            r: Result<Vec<u8>, HandleError>,
        |
            #[trigger] call_ensures(
                PathResolver::<C>::resolve_dir::<F>,
                (resolver, fsid, handle, name, open),
                r,
            ) && (*resolver).sources().known.dom().contains((fsid, handle@)) ==> {
                let dir = (*resolver).sources().known[(fsid, handle@)];
                &&& final(resolver).sources() == (*resolver).sources()
                &&& is_own_name(name@) ==> (r matches Ok(path) && path@ == dir)
                &&& is_plain_name(name@) ==> (r matches Ok(path) && is_entry_of(
                    path@,
                    dir,
                    name@,
                ))
                &&& !is_own_name(name@) && !is_plain_name(name@) ==> r == Err::<
                    Vec<u8>,
                    HandleError,
                >(HandleError::InvalidInput)
            },
{
    assert forall|
        resolver: &mut PathResolver<C>,
        fsid: Fsid,
        handle: &[u8],
        name: &[u8],
        open: &F,
        r: Result<Vec<u8>, HandleError>,
    |
        #[trigger] call_ensures(
            PathResolver::<C>::resolve_dir::<F>,
            (resolver, fsid, handle, name, open),
            r,
        ) && (*resolver).sources().known.dom().contains((fsid, handle@)) implies {
        let dir = (*resolver).sources().known[(fsid, handle@)];
        &&& final(resolver).sources() == (*resolver).sources()
        &&& is_own_name(name@) ==> (r matches Ok(path) && path@ == dir)
        &&& is_plain_name(name@) ==> (r matches Ok(path) && is_entry_of(path@, dir, name@))
        &&& !is_own_name(name@) && !is_plain_name(name@) ==> r == Err::<Vec<u8>, HandleError>(
            HandleError::InvalidInput,
        )
    } by {
        a_name_is_one_component(
            *open,
            final(resolver).sources(),
            fsid,
            handle@,
            name@,
            result_view(r),
        );
    }
}

/// The target of a rename is resolved by its own directory and its own name,
/// whatever the source says; there is an answer exactly if the event has a target
/// and a filesystem.
pub proof fn a_target_is_found_in_its_own_directory<
    C: PathStore,
    F: Fn(i32, &[u8]) -> OpenReply,
>()
    requires
        C::keeps_all(),
    ensures
        forall|
            resolver: &mut PathResolver<C>,
            event: &FidEvent<'_>,
            open: &F,
            r: Option<Result<Vec<u8>, HandleError>>,
        |
            #[trigger] call_ensures(
                PathResolver::<C>::resolve_rename_target::<F>,
                (resolver, event, open),
                r,
            ) ==> {
                &&& (r is Some <==> event@.fsid is Some && event@.rename_target is Some)
                &&& r is Some && (*resolver).sources().known.dom().contains(
                    (event@.fsid->0, event@.rename_target->0.handle),
                ) && is_plain_name(event@.rename_target->0.name) ==> (r->0 matches Ok(path)
                    && is_entry_of(
                    path@,
                    (*resolver).sources().known[(
                        event@.fsid->0,
                        event@.rename_target->0.handle,
                    )],
                    event@.rename_target->0.name,
                ))
            },
{
    assert forall|
        resolver: &mut PathResolver<C>,
        event: &FidEvent<'_>,
        open: &F,
        r: Option<Result<Vec<u8>, HandleError>>,
    |
        #[trigger] call_ensures(
            PathResolver::<C>::resolve_rename_target::<F>,
            (resolver, event, open),
            r,
        ) implies {
        &&& (r is Some <==> event@.fsid is Some && event@.rename_target is Some)
        &&& r is Some && (*resolver).sources().known.dom().contains(
            (event@.fsid->0, event@.rename_target->0.handle),
        ) && is_plain_name(event@.rename_target->0.name) ==> (r->0 matches Ok(path) && is_entry_of(
            path@,
            (*resolver).sources().known[(event@.fsid->0, event@.rename_target->0.handle)],
            event@.rename_target->0.name,
        ))
    } by {
        if r is Some {
            a_name_is_one_component(
                *open,
                final(resolver).sources(),
                event@.fsid->0,
                event@.rename_target->0.handle,
                event@.rename_target->0.name,
                result_view(r->0),
            );
        }
    }
}

/// Both forms of resolving an event go the ways that are stated of them here, for
/// the event as it was and as it is left, and for the store as it was and as it is
/// left; neither touches the mounts.
pub proof fn an_event_is_resolved_in_place<C: PathStore, F: Fn(i32, &[u8]) -> OpenReply>()
    ensures
        forall|
            resolver: &mut PathResolver<C>,
            event: &mut FidEvent<'_>,
            open: &F,
            outcome: EventResolution,
        |
            #[trigger] call_ensures(
                PathResolver::<C>::resolve_event::<F>,
                (resolver, event, open),
                outcome,
            ) ==> resolves(
                false,
                *open,
                (*resolver).sources(),
                final(resolver).sources().known,
                C::keeps_all(),
                (*event)@,
                final(event)@,
                outcome,
            ) && final(resolver).sources().mounts == (*resolver).sources().mounts,
        forall|
            resolver: &mut PathResolver<C>,
            event: &mut FidEvent<'_>,
            open: &F,
            outcome: EventResolution,
        |
            #[trigger] call_ensures(
                PathResolver::<C>::resolve_event_memo::<F>,
                (resolver, event, open),
                outcome,
            ) ==> resolves(
                true,
                *open,
                (*resolver).sources(),
                final(resolver).sources().known,
                C::keeps_all(),
                (*event)@,
                final(event)@,
                outcome,
            ) && final(resolver).sources().mounts == (*resolver).sources().mounts,
{
}

/// A resolver starts from the store and the mounts that it is given, with leave to
/// ask, and the leave can be taken and given back.
pub proof fn a_resolver_starts_from_what_it_is_given<C: PathStore>()
    ensures
        forall|mounts: Mounts, store: C, r: PathResolver<C>|
            #[trigger] call_ensures(PathResolver::<C>::with_store, (mounts, store), r)
                ==> r.sources() == (Sources {
                known: store.known(),
                mounts: mounts@,
                may_ask: true,
            }),
        forall|resolver: &mut PathResolver<C>, enabled: bool, r: &mut PathResolver<C>|
            #[trigger] call_ensures(
                PathResolver::<C>::set_syscall_fallback,
                (resolver, enabled),
                r,
            ) ==> (*r).sources() == (Sources { may_ask: enabled, ..(*resolver).sources() })
                && *final(resolver) == *final(r),
{
}

/// A batch is reported as it is left: as many events are unresolved as have no path
/// in the end, in one pass or in as many as it takes, and no event is lost.
pub proof fn a_batch_is_reported_as_it_is_left<C: PathStore, F: Fn(i32, &[u8]) -> OpenReply>()
    ensures
        forall|
            resolver: &mut PathResolver<C>,
            events: &mut [FidEvent<'_>],
            open: &F,
            r: Resolution,
        |
            #[trigger] call_ensures(
                PathResolver::<C>::resolve_events::<F>,
                (resolver, events, open),
                r,
            ) ==> {
                &&& final(events)@.len() == (*events)@.len()
                &&& r.unresolved == pathless(event_views(final(events)@))
                &&& r.already_resolved == (*events)@.len() - pathless(event_views((*events)@))
                &&& r.resolved == pathless(event_views((*events)@)) - pathless(
                    event_views(final(events)@),
                )
                &&& r.passes == 1
            },
        forall|
            resolver: &mut PathResolver<C>,
            events: &mut [FidEvent<'_>],
            open: &F,
            r: Resolution,
        |
            #[trigger] call_ensures(
                PathResolver::<C>::resolve_events_memo::<F>,
                (resolver, events, open),
                r,
            ) ==> {
                &&& r.unresolved == pathless(event_views(final(events)@))
                &&& r.passes >= 1
            },
{
    assert forall|
        resolver: &mut PathResolver<C>,
        events: &mut [FidEvent<'_>],
        open: &F,
        r: Resolution,
    |
        #[trigger] call_ensures(
            PathResolver::<C>::resolve_events::<F>,
            (resolver, events, open),
            r,
        ) implies {
        &&& final(events)@.len() == (*events)@.len()
        &&& r.unresolved == pathless(event_views(final(events)@))
        &&& r.already_resolved == (*events)@.len() - pathless(event_views((*events)@))
        &&& r.resolved == pathless(event_views((*events)@)) - pathless(
            event_views(final(events)@),
        )
        &&& r.passes == 1
    } by {
        let sources = (*resolver).sources();
        let pass = choose|pass: Pass|
            {
                &&& #[trigger] is_pass(
                    *open,
                    sources.mounts,
                    sources.may_ask,
                    C::keeps_all(),
                    pass,
                )
                &&& pass.before == event_views((*events)@)
                &&& pass.after == event_views(final(events)@)
                &&& is_account(r, pass.outcomes, 1)
            };
        assert(event_views((*events)@).len() == (*events)@.len());
        assert(event_views(final(events)@).len() == final(events)@.len());
        the_account_is_of_the_paths(
            false,
            *open,
            sources.mounts,
            sources.may_ask,
            C::keeps_all(),
            pass,
            r,
            1,
        );
    }
    assert forall|
        resolver: &mut PathResolver<C>,
        events: &mut [FidEvent<'_>],
        open: &F,
        r: Resolution,
    |
        #[trigger] call_ensures(
            PathResolver::<C>::resolve_events_memo::<F>,
            (resolver, events, open),
            r,
        ) implies {
        &&& r.unresolved == pathless(event_views(final(events)@))
        &&& r.passes >= 1
    } by {
        let before = event_views((*events)@);
        let (passes, last) = choose|passes: Seq<Pass>, last: Pass|
            {
                &&& #[trigger] is_run(
                    *open,
                    (*resolver).sources(),
                    C::keeps_all(),
                    before,
                    passes,
                    last,
                )
                &&& reports_run(r, passes, last)
                &&& event_views(final(events)@) == last.after
            };
        a_run_accounts_for_its_end(
            *open,
            (*resolver).sources(),
            C::keeps_all(),
            before,
            passes,
            last,
            r,
        );
    }
}

/// A handle that is resolved and recorded is known from then on, under its own
/// filesystem; a failure teaches nothing.
pub proof fn a_resolver_learns_what_it_answers<C: PathStore, F: Fn(i32, &[u8]) -> OpenReply>()
    requires
        C::keeps_all(),
    ensures
        forall|
            resolver: &mut PathResolver<C>,
            fsid: Fsid,
            handle: &[u8],
            open: &F,
            r: Result<Vec<u8>, HandleError>,
        |
            #[trigger] call_ensures(
                PathResolver::<C>::resolve_handle_memo::<F>,
                (resolver, fsid, handle, open),
                r,
            ) ==> match r {
                Ok(path) => final(resolver).sources().known == (*resolver).sources().known.insert(
                    (fsid, handle@),
                    path@,
                ),
                Err(_) => final(resolver).sources() == (*resolver).sources(),
            } && handle_result(*open, (*resolver).sources(), fsid, handle@, result_view(r)),
{
}

/// A name can be an entry's exactly if it is empty, or one dot, or one component
/// that is not the parent.
pub proof fn an_entry_name_is_one_component(name: &[u8], r: bool)
    requires
        call_ensures(check_entry_name, (name,), r),
    ensures
        r <==> is_own_name(name@) || is_plain_name(name@),
{
    entry_names(name@);
}

/// Whether a probe may say of a descriptor that it may hold what is wanted.
pub open spec fn may_be_on<P: Fn(i32) -> Option<Fsid>>(
    probe: P,
    fd: i32,
    wanted: Option<Fsid>,
) -> bool {
    exists|on: Option<Fsid>| #[trigger]
        probe.ensures((fd,), on) && may_hold(Candidate { fd, fsid: on }, wanted)
}

/// Descriptors whose filesystems have to be asked for are tried in their order, and
/// only those that may be on the wanted one: a path is what such a descriptor gave,
/// and an error means that none did.  No descriptors at all are 22.
pub proof fn a_probed_descriptor_is_tried_on_its_own_filesystem<
    P: Fn(i32) -> Option<Fsid>,
    F: Fn(i32, &[u8]) -> OpenReply,
>(
    fds: &[i32],
    wanted: Option<Fsid>,
    handle: &[u8],
    probe: P,
    open: F,
    r: Result<Vec<u8>, HandleError>,
)
    requires
        call_ensures(resolve_file_handle::<P, F>, (fds, wanted, handle, &probe, &open), r),
    ensures
        fds@.len() == 0 ==> r == Err::<Vec<u8>, HandleError>(HandleError::Os(22)),
        fds@.len() > 0 && (handle@.len() < 8 || handle@.len() > 136) ==> r == Err::<
            Vec<u8>,
            HandleError,
        >(HandleError::InvalidInput),
        r matches Ok(path) ==> exists|i: int|
            0 <= i < fds@.len() && may_be_on(probe, #[trigger] fds@[i], wanted) && may_give(
                open,
                fds@[i],
                handle@,
                path@,
            ),
        fds@.len() > 0 && 8 <= handle@.len() <= 136 && r is Err ==> forall|i: int|
            0 <= i < fds@.len() ==> may_fail(open, #[trigger] fds@[i], handle@) || exists|
                on: Option<Fsid>,
            | #[trigger]
                probe.ensures((fds@[i],), on) && !may_hold(
                    Candidate { fd: fds@[i], fsid: on },
                    wanted,
                ),
{
    if fds@.len() > 0 && 8 <= handle@.len() <= 136 {
        let known = choose|known: Seq<Option<Fsid>>|
            {
                &&& known.len() <= fds@.len()
                &&& known.len() < fds@.len() ==> r is Ok
                &&& forall|k: int|
                    0 <= k < known.len() ==> probe.ensures((fds@[k],), #[trigger] known[k])
                &&& #[trigger] may_resolve(
                    open,
                    candidates_of(fds@.take(known.len() as int), known),
                    wanted,
                    handle@,
                    result_view(r),
                )
            };
        let mounts = candidates_of(fds@.take(known.len() as int), known);
        a_handle_is_opened_on_its_own_filesystem(open, mounts, wanted, handle@, result_view(r));
        if let Ok(path) = r {
            let i = choose|i: int|
                {
                    &&& 0 <= i < mounts.len()
                    &&& may_hold(#[trigger] mounts[i], wanted)
                    &&& may_give(open, mounts[i].fd, handle@, path@)
                };
            assert(mounts[i].fd == fds@[i]);
            assert(probe.ensures((fds@[i],), known[i]));
            assert(mounts[i] == (Candidate { fd: fds@[i], fsid: known[i] }));
            assert(may_be_on(probe, fds@[i], wanted));
        } else {
            assert forall|i: int| 0 <= i < fds@.len() implies may_fail(
                open,
                #[trigger] fds@[i],
                handle@,
            ) || exists|on: Option<Fsid>| #[trigger]
                probe.ensures((fds@[i],), on) && !may_hold(
                    Candidate { fd: fds@[i], fsid: on },
                    wanted,
                ) by {
                assert(mounts[i] == (Candidate { fd: fds@[i], fsid: known[i] }));
                assert(probe.ensures((fds@[i],), known[i]));
            }
        }
    }
}

/// Mounts whose filesystems are known are tried as they are given.
pub proof fn given_mounts_are_tried_as_they_are<F: Fn(i32, &[u8]) -> OpenReply>(
    mounts: &[Candidate],
    wanted: Option<Fsid>,
    handle: &[u8],
    open: F,
    r: Result<Vec<u8>, HandleError>,
)
    requires
        call_ensures(resolve_file_handle_in::<F>, (mounts, wanted, handle, &open), r),
    ensures
        may_resolve(open, mounts@, wanted, handle@, result_view(r)),
        r matches Ok(path) ==> exists|i: int|
            0 <= i < mounts@.len() && may_hold(#[trigger] mounts@[i], wanted) && may_give(
                open,
                mounts@[i].fd,
                handle@,
                path@,
            ),
{
    a_handle_is_opened_on_its_own_filesystem(open, mounts@, wanted, handle@, result_view(r));
}

/// A resolver shows the store and the mounts that it answers from.
pub proof fn a_resolver_shows_what_it_answers_from<C: PathStore>()
    ensures
        forall|resolver: &PathResolver<C>, r: &C|
            #[trigger] call_ensures(PathResolver::<C>::store, (resolver,), r) ==> r.known()
                == resolver.sources().known,
        forall|resolver: &PathResolver<C>, r: &Mounts|
            #[trigger] call_ensures(PathResolver::<C>::mounts, (resolver,), r) ==> r@
                == resolver.sources().mounts,
        forall|resolver: &mut PathResolver<C>, r: &mut C|
            #[trigger] call_ensures(PathResolver::<C>::store_mut, (resolver,), r) ==> (*r).known()
                == (*resolver).sources().known && final(resolver).sources() == (Sources {
                known: final(r).known(),
                ..(*resolver).sources()
            }),
{
}

} // verus!
