//! File handles: the identity a FID event carries, and what is needed to make it
//! usable.
//!
//! A FID event carries an **fsid** and a **file handle**, an opaque byte string
//! the filesystem produced.  Opening a handle needs a descriptor on the handle's
//! own filesystem: on another one the same bytes can open a *different, existing*
//! file, and nothing in the answer says so.  [`Mounts`] keeps each descriptor
//! with the filesystem it is on, and [`resolve_file_handle_in`] tries only those
//! that may answer.
//!
//! # What the caller performs
//!
//! The system calls are the caller's: a function here takes them as arguments and
//! decides when to make them and what their replies mean.  `open` stands for
//! `open_by_handle_at` on a mount descriptor followed by a `readlink` under
//! `/proc/self/fd`, and `probe` for `fstatfs`.
use vstd::prelude::*;

use crate::consts::{AT_EMPTY_PATH, AT_FDCWD, AT_HANDLE_FID, EINVAL, EIO, EXDEV, MAX_HANDLE_SZ};
use crate::wire::{push_bytes, push_u32, u32_at, u32_bytes, u32_of};

pub use crate::store::{FileHandle, Fsid, HandleCache, NoCache, PathStore};

verus! {

/// Size of `struct file_handle`'s fixed part: `handle_bytes` (u32) +
/// `handle_type` (i32).
pub const FILE_HANDLE_HEADER_SIZE: usize = 8;

/// The largest buffer `name_to_handle_at` accepts: the header plus
/// [`MAX_HANDLE_SZ`] bytes of payload.
pub const MAX_FILE_HANDLE_SIZE: usize = 136;

/// Why a handle could not be produced or used.
#[derive(Debug, Clone, Copy, PartialEq, Eq, Structural)]
pub enum HandleError {
    /// The request could not be one, whatever the filesystem: the system was not
    /// asked.
    InvalidInput,
    /// The errno of the answer.
    Os(i32),
}

impl HandleError {
    /// The errno, if the system gave the answer.
    pub fn raw_os_error(&self) -> (r: Option<i32>)
        ensures
            r == (match *self {
                HandleError::Os(errno) => Some(errno),
                HandleError::InvalidInput => None,
            }),
    {
        match *self {
            HandleError::Os(errno) => Some(errno),
            HandleError::InvalidInput => None,
        }
    }
}

/// One descriptor a handle may be opened against, with what is known about the
/// filesystem it is on.
///
/// `None` is "not known", which is not the same as "does not match".
#[derive(Debug, Clone, Copy)]
pub struct Candidate {
    /// The mount descriptor that may answer.
    pub fd: i32,
    /// The filesystem that descriptor is on, when the kernel would say.
    pub fsid: Option<Fsid>,
}

/// A reply to an attempt to open a handle and read its path back: the path, or
/// the errno if there was one.
pub type OpenReply = Result<Vec<u8>, Option<i32>>;

/// Whether a descriptor on `known` may be tried for a handle reported on
/// `wanted`.
pub open spec fn may_answer(known: Option<Fsid>, wanted: Option<Fsid>) -> bool {
    match (wanted, known) {
        (Some(want), Some(on)) => want == on,
        _ => true,
    }
}

/// The descriptors of `candidates` that may be tried, in order.
pub open spec fn selected(candidates: Seq<Candidate>, wanted: Option<Fsid>) -> Seq<i32>
    decreases candidates.len(),
{
    if candidates.len() == 0 {
        Seq::empty()
    } else {
        let before = selected(candidates.drop_last(), wanted);
        if may_answer(candidates.last().fsid, wanted) {
            before.push(candidates.last().fd)
        } else {
            before
        }
    }
}

/// Whether bytes have the shape of a `struct file_handle`.
pub open spec fn is_handle_shaped(handle: Seq<u8>) -> bool {
    FILE_HANDLE_HEADER_SIZE <= handle.len() <= MAX_FILE_HANDLE_SIZE
}

/// Whether `open` may reply `reply` for a handle on a descriptor.
pub open spec fn may_reply<F: Fn(i32, &[u8]) -> OpenReply>(
    open: F,
    fd: i32,
    handle: Seq<u8>,
    reply: OpenReply,
) -> bool {
    exists|bytes: &[u8]| bytes@ == handle && #[trigger] open.ensures((fd, bytes), reply)
}

/// Whether `open` may be called at all.
pub open spec fn can_open<F: Fn(i32, &[u8]) -> OpenReply>(open: F) -> bool {
    forall|fd: i32, bytes: &[u8]| #[trigger] open.requires((fd, bytes))
}

/// Whether trying `fds` in turn may have given `replies`: each is a reply of
/// `open`, and the first path ends the walk.
pub open spec fn is_walk<F: Fn(i32, &[u8]) -> OpenReply>(
    open: F,
    fds: Seq<i32>,
    handle: Seq<u8>,
    replies: Seq<OpenReply>,
) -> bool {
    &&& replies.len() <= fds.len()
    &&& forall|k: int|
        0 <= k < replies.len() ==> may_reply(open, fds[k], handle, #[trigger] replies[k])
    &&& forall|k: int| 0 <= k < replies.len() - 1 ==> (#[trigger] replies[k]) is Err
    &&& replies.len() < fds.len() ==> replies.len() > 0 && replies.last() is Ok
}

/// What a walk's replies come to: the path that ended it, or the last errno.  A
/// failure without an errno counts as `EIO`, and a walk that tried nothing as
/// `EXDEV`, which is about the descriptors rather than the handle.
pub open spec fn walk_result(replies: Seq<OpenReply>) -> Result<Seq<u8>, HandleError> {
    if replies.len() == 0 {
        Err(HandleError::Os(EXDEV))
    } else {
        match replies.last() {
            Ok(path) => Ok(path@),
            Err(Some(errno)) => Err(HandleError::Os(errno)),
            Err(None) => Err(HandleError::Os(EIO)),
        }
    }
}

/// A path or an error, the path taken as a sequence.
pub open spec fn result_view(r: Result<Vec<u8>, HandleError>) -> Result<Seq<u8>, HandleError> {
    match r {
        Ok(path) => Ok(path@),
        Err(error) => Err(error),
    }
}

/// Whether asking the filesystem for a handle may come to `result`.
///
/// A malformed handle is refused before any descriptor is used.
pub open spec fn may_resolve<F: Fn(i32, &[u8]) -> OpenReply>(
    open: F,
    candidates: Seq<Candidate>,
    wanted: Option<Fsid>,
    handle: Seq<u8>,
    result: Result<Seq<u8>, HandleError>,
) -> bool {
    if !is_handle_shaped(handle) {
        result == Err::<Seq<u8>, HandleError>(HandleError::InvalidInput)
    } else {
        exists|replies: Seq<OpenReply>|
            is_walk(open, selected(candidates, wanted), handle, replies) && result
                == #[trigger] walk_result(replies)
    }
}

/// The descriptors selected from a prefix are a prefix of those selected.
pub(crate) proof fn selected_from_a_prefix(candidates: Seq<Candidate>, wanted: Option<Fsid>, i: int)
    requires
        0 <= i <= candidates.len(),
    ensures
        selected(candidates.take(i), wanted).len() <= selected(candidates, wanted).len(),
        forall|k: int|
            0 <= k < selected(candidates.take(i), wanted).len() ==> selected(
                candidates.take(i),
                wanted,
            )[k] == #[trigger] selected(candidates, wanted)[k],
    decreases candidates.len() - i,
{
    if i < candidates.len() {
        selected_from_a_prefix(candidates, wanted, i + 1);
        assert(candidates.take(i + 1).drop_last() =~= candidates.take(i));
        let shorter = selected(candidates.take(i), wanted);
        let longer = selected(candidates.take(i + 1), wanted);
        assert forall|k: int| 0 <= k < shorter.len() implies shorter[k] == #[trigger] selected(
            candidates,
            wanted,
        )[k] by {
            assert(longer[k] == selected(candidates, wanted)[k]);
        }
    } else {
        assert(candidates.take(i) =~= candidates);
    }
}

/// When no descriptor may answer, nothing is tried and the answer is `EXDEV`,
/// whatever the filesystem would have said.
pub proof fn a_registration_gap_is_exdev<F: Fn(i32, &[u8]) -> OpenReply>(
    open: F,
    candidates: Seq<Candidate>,
    wanted: Option<Fsid>,
    handle: Seq<u8>,
    result: Result<Seq<u8>, HandleError>,
)
    requires
        is_handle_shaped(handle),
        forall|i: int| 0 <= i < candidates.len() ==> !may_answer((#[trigger] candidates[i]).fsid, wanted),
        may_resolve(open, candidates, wanted, handle, result),
    ensures
        result == Err::<Seq<u8>, HandleError>(HandleError::Os(EXDEV)),
{
    nothing_selected(candidates, wanted);
}

/// If no candidate may answer, none is selected.
proof fn nothing_selected(candidates: Seq<Candidate>, wanted: Option<Fsid>)
    requires
        forall|i: int| 0 <= i < candidates.len() ==> !may_answer((#[trigger] candidates[i]).fsid, wanted),
    ensures
        selected(candidates, wanted).len() == 0,
    decreases candidates.len(),
{
    if candidates.len() > 0 {
        assert(candidates.last() == candidates[candidates.len() - 1]);
        let init = candidates.drop_last();
        assert forall|i: int| 0 <= i < init.len() implies !may_answer(
            (#[trigger] init[i]).fsid,
            wanted,
        ) by {
            assert(init[i] == candidates[i]);
        }
        nothing_selected(init, wanted);
    }
}

/// Whether a descriptor on `known` may be tried for a handle reported on
/// `wanted`.
///
/// An unknown fsid on either side matches: no evidence is not evidence against.
/// `(0, 0)` is matched like any other value.
pub fn wanted_filesystem(known: Option<Fsid>, wanted: Option<Fsid>) -> (r: bool)
    ensures
        r == may_answer(known, wanted),
{
    match (wanted, known) {
        (Some(want), Some(on)) => want.0 == on.0 && want.1 == on.1,
        _ => true,
    }
}

/// Refuse bytes that do not have the shape of a handle.
pub fn check_handle(handle: &[u8]) -> (r: Result<(), HandleError>)
    ensures
        r == (if is_handle_shaped(handle@) {
            Ok::<(), HandleError>(())
        } else {
            Err(HandleError::InvalidInput)
        }),
{
    if handle.len() < FILE_HANDLE_HEADER_SIZE || handle.len() > MAX_FILE_HANDLE_SIZE {
        Err(HandleError::InvalidInput)
    } else {
        Ok(())
    }
}

/// Turn a handle into a path, over descriptors whose filesystems are already
/// known.
///
/// Each candidate on a matching filesystem is tried in turn, and the first path
/// is the answer.  Otherwise the error is that of the last attempt; `EXDEV` when
/// nothing was tried, and [`HandleError::InvalidInput`] for a malformed handle,
/// before any descriptor is used.
pub fn resolve_file_handle_in<F: Fn(i32, &[u8]) -> OpenReply>(
    candidates: &[Candidate],
    fsid: Option<Fsid>,
    handle: &[u8],
    open: &F,
) -> (r: Result<Vec<u8>, HandleError>)
    requires
        can_open(*open),
    ensures
        may_resolve(*open, candidates@, fsid, handle@, result_view(r)),
{
    if handle.len() < FILE_HANDLE_HEADER_SIZE || handle.len() > MAX_FILE_HANDLE_SIZE {
        return Err(HandleError::InvalidInput);
    }
    let ghost mut replies: Seq<OpenReply> = Seq::empty();
    let mut attempted = false;
    let mut last: i32 = EXDEV;
    let mut i: usize = 0;
    while i < candidates.len()
        invariant
            can_open(*open),
            is_handle_shaped(handle@),
            i <= candidates@.len(),
            replies.len() == selected(candidates@.take(i as int), fsid).len(),
            attempted == (replies.len() > 0),
            forall|k: int| 0 <= k < replies.len() ==> (#[trigger] replies[k]) is Err,
            forall|k: int|
                0 <= k < replies.len() ==> may_reply(
                    *open,
                    selected(candidates@.take(i as int), fsid)[k],
                    handle@,
                    #[trigger] replies[k],
                ),
            walk_result(replies) == Err::<Seq<u8>, HandleError>(HandleError::Os(last)),
        decreases candidates@.len() - i,
    {
        let candidate = candidates[i];
        proof {
            assert(candidates@.take(i + 1).drop_last() =~= candidates@.take(i as int));
            assert(candidates@.take(i + 1).last() == candidate);
        }
        if wanted_filesystem(candidate.fsid, fsid) {
            attempted = true;
            let reply = open(candidate.fd, handle);
            proof {
                assert(may_reply(*open, candidate.fd, handle@, reply));
                replies = replies.push(reply);
            }
            match reply {
                Ok(path) => {
                    proof {
                        let all = selected(candidates@, fsid);
                        selected_from_a_prefix(candidates@, fsid, i + 1);
                        assert forall|k: int| 0 <= k < replies.len() implies may_reply(
                            *open,
                            all[k],
                            handle@,
                            #[trigger] replies[k],
                        ) by {
                            assert(all[k] == selected(candidates@.take(i + 1), fsid)[k]);
                        }
                        assert(is_walk(*open, all, handle@, replies));
                        assert(walk_result(replies) == Ok::<Seq<u8>, HandleError>(path@));
                    }
                    return Ok(path);
                },
                Err(Some(errno)) => {
                    last = errno;
                },
                Err(None) => {
                    last = EIO;
                },
            }
        }
        i = i + 1;
    }
    proof {
        assert(candidates@.take(i as int) =~= candidates@);
        assert(is_walk(*open, selected(candidates@, fsid), handle@, replies));
    }
    if !attempted {
        // Reporting the last errno would blame the handle for a descriptor that
        // never got used.
        return Err(HandleError::Os(EXDEV));
    }
    Err(HandleError::Os(last))
}

/// The candidates that descriptors and what is known of them make.
pub open spec fn candidates_of(fds: Seq<i32>, known: Seq<Option<Fsid>>) -> Seq<Candidate> {
    Seq::new(fds.len(), |i: int| Candidate { fd: fds[i], fsid: known[i] })
}

/// Turn a handle into a path, over descriptors whose filesystems have to be
/// asked for.
///
/// `probe` is asked for a descriptor when the walk gets to it; one whose
/// filesystem it cannot say is tried anyway.  No descriptors at all is `EINVAL`.
/// [`Mounts`] learns each filesystem once instead.
pub fn resolve_file_handle<P: Fn(i32) -> Option<Fsid>, F: Fn(i32, &[u8]) -> OpenReply>(
    mount_fds: &[i32],
    fsid: Option<Fsid>,
    handle: &[u8],
    probe: &P,
    open: &F,
) -> (r: Result<Vec<u8>, HandleError>)
    requires
        forall|fd: i32| #[trigger] probe.requires((fd,)),
        can_open(*open),
    ensures
        mount_fds@.len() == 0 ==> r == Err::<Vec<u8>, HandleError>(HandleError::Os(EINVAL)),
        mount_fds@.len() > 0 && !is_handle_shaped(handle@) ==> r == Err::<Vec<u8>, HandleError>(
            HandleError::InvalidInput,
        ),
        mount_fds@.len() > 0 && is_handle_shaped(handle@) ==> exists|known: Seq<Option<Fsid>>|
            {
                &&& known.len() <= mount_fds@.len()
                &&& known.len() < mount_fds@.len() ==> r is Ok
                &&& forall|k: int|
                    0 <= k < known.len() ==> probe.ensures((mount_fds@[k],), #[trigger] known[k])
                &&& #[trigger] may_resolve(
                    *open,
                    candidates_of(mount_fds@.take(known.len() as int), known),
                    fsid,
                    handle@,
                    result_view(r),
                )
            },
{
    if mount_fds.len() == 0 {
        return Err(HandleError::Os(EINVAL));
    }
    if handle.len() < FILE_HANDLE_HEADER_SIZE || handle.len() > MAX_FILE_HANDLE_SIZE {
        return Err(HandleError::InvalidInput);
    }
    let ghost mut known: Seq<Option<Fsid>> = Seq::empty();
    let ghost mut replies: Seq<OpenReply> = Seq::empty();
    let mut last: i32 = EXDEV;
    let mut i: usize = 0;
    while i < mount_fds.len()
        invariant
            forall|fd: i32| #[trigger] probe.requires((fd,)),
            can_open(*open),
            is_handle_shaped(handle@),
            i <= mount_fds@.len(),
            known.len() == i,
            forall|k: int|
                0 <= k < i ==> probe.ensures((mount_fds@[k],), #[trigger] known[k]),
            is_walk(
                *open,
                selected(candidates_of(mount_fds@.take(i as int), known), fsid),
                handle@,
                replies,
            ),
            forall|k: int| 0 <= k < replies.len() ==> (#[trigger] replies[k]) is Err,
            walk_result(replies) == Err::<Seq<u8>, HandleError>(HandleError::Os(last)),
        decreases mount_fds@.len() - i,
    {
        let fd: i32 = mount_fds[i];
        let on = probe(fd);
        let ghost before = candidates_of(mount_fds@.take(i as int), known);
        proof {
            known = known.push(on);
            let candidates = candidates_of(mount_fds@.take(i + 1), known);
            assert(candidates.drop_last() =~= before);
            assert(candidates.last() == (Candidate { fd, fsid: on }));
            assert(replies.len() == selected(before, fsid).len()) by {
                if replies.len() > 0 {
                    assert(replies.last() == replies[replies.len() - 1]);
                }
            }
        }
        if wanted_filesystem(on, fsid) {
            let reply = open(fd, handle);
            let ghost earlier = replies;
            proof {
                let fds = selected(candidates_of(mount_fds@.take(i + 1), known), fsid);
                assert(may_reply(*open, fd, handle@, reply));
                replies = replies.push(reply);
                assert forall|k: int| 0 <= k < replies.len() implies may_reply(
                    *open,
                    fds[k],
                    handle@,
                    #[trigger] replies[k],
                ) by {
                    if k < earlier.len() {
                        assert(replies[k] == earlier[k]);
                    }
                }
                assert(is_walk(*open, fds, handle@, replies));
            }
            match reply {
                Ok(path) => {
                    assert(walk_result(replies) == Ok::<Seq<u8>, HandleError>(path@));
                    assert(may_resolve(
                        *open,
                        candidates_of(mount_fds@.take(known.len() as int), known),
                        fsid,
                        handle@,
                        Ok(path@),
                    ));
                    return Ok(path);
                },
                Err(Some(errno)) => {
                    last = errno;
                },
                Err(None) => {
                    last = EIO;
                },
            }
        }
        i = i + 1;
    }
    assert(may_resolve(
        *open,
        candidates_of(mount_fds@.take(known.len() as int), known),
        fsid,
        handle@,
        Err(HandleError::Os(last)),
    ));
    Err(HandleError::Os(last))
}

/// The mount descriptors a caller can resolve handles against, each paired with
/// the filesystem it is on.
///
/// Keeping the pair is what stops every caller from maintaining a parallel list
/// of fsids and getting it out of step: a mismatch is silent.
#[derive(Debug)]
pub struct Mounts {
    entries: Vec<Candidate>,
}

impl View for Mounts {
    type V = Seq<Candidate>;

    closed spec fn view(&self) -> Seq<Candidate> {
        self.entries@
    }
}

impl Mounts {
    /// An empty collection.
    pub fn new() -> (r: Self)
        ensures
            r@ == Seq::<Candidate>::empty(),
    {
        Mounts { entries: Vec::new() }
    }

    /// Add a descriptor with what asking the kernel for its fsid gave; `None`
    /// costs only the filter, since resolution still tries the descriptor.
    pub fn add(&mut self, fd: i32, fsid: Option<Fsid>) -> (r: &mut Self)
        ensures
            r@ == old(self)@.push(Candidate { fd, fsid }),
            *final(self) == *final(r),
    {
        self.entries.push(Candidate { fd, fsid });
        self
    }

    /// [`add`](Self::add), for building a collection in one expression.
    pub fn with_fd(self, fd: i32, fsid: Option<Fsid>) -> (r: Self)
        ensures
            r@ == self@.push(Candidate { fd, fsid }),
    {
        let mut entries = self.entries;
        entries.push(Candidate { fd, fsid });
        Mounts { entries }
    }

    /// Add a descriptor whose filesystem is already known.
    pub fn add_with_fsid(&mut self, fd: i32, fsid: Fsid) -> (r: &mut Self)
        ensures
            r@ == old(self)@.push(Candidate { fd, fsid: Some(fsid) }),
            *final(self) == *final(r),
    {
        self.entries.push(Candidate { fd, fsid: Some(fsid) });
        self
    }

    /// The descriptors that may be on this filesystem, in the order they were
    /// added.
    ///
    /// A descriptor whose fsid could not be learned is among them: its
    /// filesystem cannot be shown to differ.
    pub fn on_filesystem(&self, fsid: Fsid) -> (r: Vec<i32>)
        ensures
            r@ == selected(self@, Some(fsid)),
    {
        let mut r: Vec<i32> = Vec::new();
        let mut i: usize = 0;
        proof {
            assert(self.entries@.take(0) =~= Seq::<Candidate>::empty());
            assert(r@ =~= selected(self.entries@.take(0), Some(fsid)));
        }
        while i < self.entries.len()
            invariant
                i <= self.entries@.len(),
                r@ == selected(self.entries@.take(i as int), Some(fsid)),
            decreases self.entries@.len() - i,
        {
            proof {
                assert(self.entries@.take(i + 1).drop_last() =~= self.entries@.take(i as int));
            }
            if wanted_filesystem(self.entries[i].fsid, Some(fsid)) {
                r.push(self.entries[i].fd);
            }
            i = i + 1;
        }
        proof {
            assert(self.entries@.take(i as int) =~= self.entries@);
        }
        r
    }

    /// The descriptors that may be on this filesystem, for a resolution call: the
    /// same as [`on_filesystem`](Self::on_filesystem) selects.
    pub fn matching(&self, fsid: Fsid) -> (r: Vec<i32>)
        ensures
            r@ == selected(self@, Some(fsid)),
    {
        self.on_filesystem(fsid)
    }

    /// Every descriptor with what is known about its filesystem.
    pub fn candidates(&self) -> (r: &[Candidate])
        ensures
            r@ == self@,
    {
        self.entries.as_slice()
    }

    /// Every descriptor, for iteration when the fsid is not in question.
    pub fn iter(&self) -> (r: Vec<i32>)
        ensures
            r@ == self@.map_values(|c: Candidate| c.fd),
    {
        let mut r: Vec<i32> = Vec::new();
        let mut i: usize = 0;
        while i < self.entries.len()
            invariant
                i <= self.entries@.len(),
                r@.len() == i,
                forall|k: int| 0 <= k < i ==> r@[k] == self.entries@[k].fd,
            decreases self.entries@.len() - i,
        {
            r.push(self.entries[i].fd);
            i = i + 1;
        }
        assert(r@ =~= self@.map_values(|c: Candidate| c.fd));
        r
    }

    /// How many descriptors were added.
    pub fn len(&self) -> (r: usize)
        ensures
            r == self@.len(),
    {
        self.entries.len()
    }

    /// Whether none were added.
    pub fn is_empty(&self) -> (r: bool)
        ensures
            r == (self@.len() == 0),
    {
        self.entries.len() == 0
    }

    /// The fsid learned for the descriptor at `index`, if it was learned.
    pub fn fsid_at(&self, index: usize) -> (r: Option<Fsid>)
        ensures
            r == (if index < self@.len() {
                self@[index as int].fsid
            } else {
                None
            }),
    {
        if index < self.entries.len() {
            self.entries[index].fsid
        } else {
            None
        }
    }

    /// The descriptor at `index`.
    pub fn index(&self, index: usize) -> (r: i32)
        requires
            index < self@.len(),
        ensures
            r == self@[index as int].fd,
    {
        self.entries[index].fd
    }
}

impl Default for Mounts {
    fn default() -> (r: Self)
        ensures
            r@ == Seq::<Candidate>::empty(),
    {
        Mounts::new()
    }
}

/// The request that `name_to_handle_at` is handed: room for the largest handle
/// the kernel produces, with that capacity in its first word.
pub open spec fn handle_request() -> Seq<u8> {
    u32_bytes(MAX_HANDLE_SZ as u32) + Seq::new(132, |i: int| 0u8)
}

/// Make the request for `name_to_handle_at`.
pub fn handle_request_buffer() -> (r: Vec<u8>)
    ensures
        r@ == handle_request(),
        r@.len() == MAX_FILE_HANDLE_SIZE,
{
    let mut r: Vec<u8> = Vec::new();
    push_u32(&mut r, MAX_HANDLE_SZ as u32);
    let mut i: usize = 0;
    while i < 132
        invariant
            i <= 132,
            r@ =~= u32_bytes(MAX_HANDLE_SZ as u32) + Seq::new(i as nat, |k: int| 0u8),
        decreases 132 - i,
    {
        r.push(0);
        i = i + 1;
    }
    r
}

/// How much of the buffer a reply of `name_to_handle_at` uses: the header and
/// the length in its first word, clamped to the capacity that was offered.
pub open spec fn reply_len(buf: Seq<u8>) -> int {
    let used = u32_of(buf.subrange(0, 4));
    FILE_HANDLE_HEADER_SIZE + if used < MAX_HANDLE_SZ {
        used as int
    } else {
        MAX_HANDLE_SZ as int
    }
}

/// What a reply to one `name_to_handle_at` comes to: the part of the buffer that
/// the kernel used, or the errno.
pub open spec fn named(reply: Result<Vec<u8>, i32>) -> Result<Seq<u8>, HandleError> {
    match reply {
        Ok(buf) => Ok(buf@.take(reply_len(buf@))),
        Err(code) => Err(HandleError::Os(code)),
    }
}

/// Whether `call` may be made, and leaves the size of the buffer it is handed as
/// it is.
pub open spec fn can_name<F: Fn(i32, &[u8], Vec<u8>, i32) -> Result<Vec<u8>, i32>>(call: F) -> bool {
    &&& forall|dir_fd: i32, path: &[u8], request: Vec<u8>, flags: i32|
        #[trigger] call.requires((dir_fd, path, request, flags))
    &&& forall|dir_fd: i32, path: &[u8], request: Vec<u8>, flags: i32, buf: Vec<u8>|
        #[trigger] call.ensures((dir_fd, path, request, flags), Ok(buf)) ==> buf@.len()
            == request@.len()
}

/// Whether `call`, handed the request for a handle, may reply `reply`.
pub open spec fn may_name<F: Fn(i32, &[u8], Vec<u8>, i32) -> Result<Vec<u8>, i32>>(
    call: F,
    dir_fd: i32,
    path: Seq<u8>,
    flags: i32,
    reply: Result<Vec<u8>, i32>,
) -> bool {
    exists|text: &[u8], request: Vec<u8>|
        {
            &&& text@ == path
            &&& request@ == handle_request()
            &&& #[trigger] call.ensures((dir_fd, text, request, flags), reply)
        }
}

/// Whether asking for a handle with exactly these flags may come to `result`.
pub open spec fn may_come_to<F: Fn(i32, &[u8], Vec<u8>, i32) -> Result<Vec<u8>, i32>>(
    call: F,
    dir_fd: i32,
    path: Seq<u8>,
    flags: i32,
    result: Result<Seq<u8>, HandleError>,
) -> bool {
    exists|reply: Result<Vec<u8>, i32>|
        #[trigger] may_name(call, dir_fd, path, flags, reply) && result == named(reply)
}

/// Whether asking for a handle may come to `result`: the FID flag is asked for
/// first, and `EINVAL`, which is how an older kernel answers it, is retried
/// without it.
pub open spec fn may_be_named<F: Fn(i32, &[u8], Vec<u8>, i32) -> Result<Vec<u8>, i32>>(
    call: F,
    dir_fd: i32,
    path: Seq<u8>,
    flags: i32,
    result: Result<Seq<u8>, HandleError>,
) -> bool {
    exists|first: Result<Seq<u8>, HandleError>|
        {
            &&& #[trigger] may_come_to(call, dir_fd, path, flags | AT_HANDLE_FID, first)
            &&& if first == Err::<Seq<u8>, HandleError>(HandleError::Os(EINVAL)) {
                may_come_to(call, dir_fd, path, flags, result)
            } else {
                result == first
            }
        }
}

/// One `name_to_handle_at(2)`: `call` makes it with the directory, the C string,
/// the request and the flags it is handed, and answers with the buffer as the
/// kernel left it.
fn name_to_handle_at_flags<F: Fn(i32, &[u8], Vec<u8>, i32) -> Result<Vec<u8>, i32>>(
    dir_fd: i32,
    path: &[u8],
    flags: i32,
    call: &F,
) -> (r: Result<FileHandle, HandleError>)
    requires
        can_name(*call),
    ensures
        may_come_to(*call, dir_fd, path@, flags, result_view(r)),
{
    let request: Vec<u8> = handle_request_buffer();
    let ghost asked = request;
    let reply = call(dir_fd, path, request, flags);
    assert(call.ensures((dir_fd, path, asked, flags), reply));
    assert(may_name(*call, dir_fd, path@, flags, reply));
    match reply {
        Err(code) => Err(HandleError::Os(code)),
        Ok(buf) => {
            let used: u32 = u32_at(buf.as_slice(), 0);
            // Clamped to the capacity offered, whatever the reply says.
            let payload: usize = if used < MAX_HANDLE_SZ as u32 {
                used as usize
            } else {
                MAX_HANDLE_SZ
            };
            let mut handle = buf;
            handle.truncate(FILE_HANDLE_HEADER_SIZE + payload);
            Ok(handle)
        },
    }
}

/// Ask for a handle, first for a FID.
///
/// Older kernels answer `EINVAL` for the FID flag, so that error alone is retried
/// without it.
fn name_to_handle_at_raw<F: Fn(i32, &[u8], Vec<u8>, i32) -> Result<Vec<u8>, i32>>(
    dir_fd: i32,
    path: &[u8],
    flags: i32,
    call: &F,
) -> (r: Result<FileHandle, HandleError>)
    requires
        can_name(*call),
    ensures
        may_be_named(*call, dir_fd, path@, flags, result_view(r)),
{
    let first = name_to_handle_at_flags(dir_fd, path, flags | AT_HANDLE_FID, call);
    assert(may_come_to(*call, dir_fd, path@, flags | AT_HANDLE_FID, result_view(first)));
    if let Err(HandleError::Os(errno)) = first {
        if errno == EINVAL {
            return name_to_handle_at_flags(dir_fd, path, flags, call);
        }
    }
    first
}

/// The handle of the object a descriptor names: an empty path, which the kernel
/// reads as the descriptor itself.
pub fn handle_from_fd<F: Fn(i32, &[u8], Vec<u8>, i32) -> Result<Vec<u8>, i32>>(
    fd: i32,
    call: &F,
) -> (r: Result<FileHandle, HandleError>)
    requires
        can_name(*call),
    ensures
        may_be_named(*call, fd, seq![0u8], AT_EMPTY_PATH, result_view(r)),
{
    let mut empty: Vec<u8> = Vec::new();
    empty.push(0);
    assert(empty@ =~= seq![0u8]);
    name_to_handle_at_raw(fd, empty.as_slice(), AT_EMPTY_PATH, call)
}

/// The handle of the object a path names, read from the working directory.
///
/// A path with a NUL in it is refused before the system is asked.
pub fn name_to_handle_at<F: Fn(i32, &[u8], Vec<u8>, i32) -> Result<Vec<u8>, i32>>(
    path: &[u8],
    call: &F,
) -> (r: Result<FileHandle, HandleError>)
    requires
        can_name(*call),
    ensures
        no_nul(path@) ==> may_be_named(*call, AT_FDCWD, path@.push(0), 0, result_view(r)),
        !no_nul(path@) ==> r == Err::<FileHandle, HandleError>(HandleError::InvalidInput),
{
    match c_path(path) {
        Ok(text) => name_to_handle_at_raw(AT_FDCWD, text.as_slice(), 0, call),
        Err(error) => Err(error),
    }
}

/// `open_by_handle_at(2)`: `call` makes it on the mount descriptor it is handed
/// and answers with a descriptor.
///
/// Bytes that do not have the shape of a handle are refused before the system is
/// asked.
pub fn open_by_handle_at<F: Fn(i32, &[u8]) -> Result<i32, i32>>(
    mount_fd: i32,
    handle: &[u8],
    call: &F,
) -> (r: Result<i32, HandleError>)
    requires
        call.requires((mount_fd, handle)),
    ensures
        !is_handle_shaped(handle@) ==> r == Err::<i32, HandleError>(HandleError::InvalidInput),
        is_handle_shaped(handle@) ==> exists|reply: Result<i32, i32>|
            #[trigger] call.ensures((mount_fd, handle), reply) && r == os_result(reply),
{
    match check_handle(handle) {
        Err(error) => Err(error),
        Ok(()) => match call(mount_fd, handle) {
            Ok(fd) => Ok(fd),
            Err(code) => Err(HandleError::Os(code)),
        },
    }
}

/// A reply of the system, its errno as an error.
pub open spec fn os_result<T>(reply: Result<T, i32>) -> Result<T, HandleError> {
    match reply {
        Ok(value) => Ok(value),
        Err(code) => Err(HandleError::Os(code)),
    }
}

/// The filesystem a path is on: `call` is `statfs(2)` on the C string it is
/// handed.
pub fn fsid_of_path<F: Fn(&[u8]) -> Result<Fsid, i32>>(path: &[u8], call: &F) -> (r: Result<
    Fsid,
    HandleError,
>)
    requires
        forall|text: &[u8]| #[trigger] call.requires((text,)),
    ensures
        !no_nul(path@) ==> r == Err::<Fsid, HandleError>(HandleError::InvalidInput),
        no_nul(path@) ==> exists|text: &[u8], reply: Result<Fsid, i32>|
            {
                &&& text@ == path@.push(0)
                &&& #[trigger] call.ensures((text,), reply)
                &&& r == os_result(reply)
            },
{
    match c_path(path) {
        Err(error) => Err(error),
        Ok(text) => match call(text.as_slice()) {
            Ok(fsid) => Ok(fsid),
            Err(code) => Err(HandleError::Os(code)),
        },
    }
}

/// The filesystem a descriptor is on: `call` is `fstatfs(2)` on it.
pub fn fsid_of_fd<F: Fn(i32) -> Result<Fsid, i32>>(fd: i32, call: &F) -> (r: Result<
    Fsid,
    HandleError,
>)
    requires
        call.requires((fd,)),
    ensures
        exists|reply: Result<Fsid, i32>|
            #[trigger] call.ensures((fd,), reply) && r == os_result(reply),
{
    match call(fd) {
        Ok(fsid) => Ok(fsid),
        Err(code) => Err(HandleError::Os(code)),
    }
}

/// A handle the kernel names is never longer than one it can open.
pub proof fn a_named_handle_can_be_opened(buf: Seq<u8>)
    requires
        buf.len() == MAX_FILE_HANDLE_SIZE,
    ensures
        is_handle_shaped(buf.take(reply_len(buf))),
{
}

/// Whether bytes hold no NUL.
pub open spec fn no_nul(bytes: Seq<u8>) -> bool {
    !bytes.contains(0u8)
}

/// A path as a C string: its bytes and a NUL, if none of them is one.
pub fn c_path(path: &[u8]) -> (r: Result<Vec<u8>, HandleError>)
    ensures
        result_view(r) == (if no_nul(path@) {
            Ok(path@.push(0))
        } else {
            Err(HandleError::InvalidInput)
        }),
{
    let mut i: usize = 0;
    while i < path.len()
        invariant
            i <= path@.len(),
            forall|k: int| 0 <= k < i ==> path@[k] != 0,
        decreases path@.len() - i,
    {
        if path[i] == 0 {
            assert(path@.contains(0u8));
            return Err(HandleError::InvalidInput);
        }
        i = i + 1;
    }
    let mut out: Vec<u8> = Vec::new();
    push_bytes(&mut out, path);
    out.push(0);
    assert(out@ =~= path@.push(0));
    Ok(out)
}

/// The descriptors that may be tried for a filesystem are those of the mounts that
/// are on it or might be, in the order of the mounts, and no others.
pub proof fn a_selection_leaves_out_other_filesystems(
    candidates: Seq<Candidate>,
    wanted: Option<Fsid>,
)
    ensures
        selected(candidates, wanted) == candidates.filter(
            |mount: Candidate|
                mount.fsid is None || wanted is None || mount.fsid == wanted,
        ).map_values(|mount: Candidate| mount.fd),
    decreases candidates.len(),
{
    let fits = |mount: Candidate|
        mount.fsid is None || wanted is None || mount.fsid == wanted;
    let number = |mount: Candidate| mount.fd;
    reveal(Seq::filter);
    if candidates.len() == 0 {
        assert(candidates.filter(fits).map_values(number) =~= Seq::<i32>::empty());
    } else {
        let front = candidates.drop_last();
        a_selection_leaves_out_other_filesystems(front, wanted);
        if fits(candidates.last()) {
            assert(front.filter(fits).push(candidates.last()).map_values(number) =~= front.filter(
                fits,
            ).map_values(number).push(number(candidates.last())));
        }
    }
}

/// A mount may be tried unless both filesystems are known and differ.
pub proof fn only_a_known_difference_rules_out(
    known: Option<Fsid>,
    wanted: Option<Fsid>,
    r: bool,
)
    requires
        call_ensures(wanted_filesystem, (known, wanted), r),
    ensures
        !r <==> known is Some && wanted is Some && known != wanted,
{
}

/// Bytes are taken for a handle exactly if they are as long as one can be: a header
/// of 8 bytes, and up to 128 behind it.
pub proof fn a_handle_has_eight_to_136_bytes(handle: &[u8], r: Result<(), HandleError>)
    requires
        call_ensures(check_handle, (handle,), r),
    ensures
        8 <= handle@.len() <= 136 ==> r == Ok::<(), HandleError>(()),
        handle@.len() < 8 || handle@.len() > 136 ==> r == Err::<(), HandleError>(
            HandleError::InvalidInput,
        ),
{
}

/// A path goes to the system as its bytes and a NUL, and not at all if it holds a
/// NUL of its own.
pub proof fn a_c_path_ends_in_its_only_nul(path: &[u8], r: Result<Vec<u8>, HandleError>)
    requires
        call_ensures(c_path, (path,), r),
    ensures
        (forall|i: int| 0 <= i < path@.len() ==> path@[i] != 0) ==> (r matches Ok(text) && text@
            == path@ + seq![0u8]),
        (exists|i: int| 0 <= i < path@.len() && path@[i] == 0) ==> r == Err::<
            Vec<u8>,
            HandleError,
        >(HandleError::InvalidInput),
{
    assert(path@.push(0) =~= path@ + seq![0u8]);
    if no_nul(path@) {
        assert forall|i: int| 0 <= i < path@.len() implies path@[i] != 0 by {
            assert(path@.contains(path@[i]));
        }
    }
}

/// A handle that the kernel named is exactly what it wrote: a header that counts
/// the body, and that body; what stands behind it in the buffer is not part of it.
/// A failure keeps its errno.
pub proof fn a_named_handle_is_what_the_kernel_wrote(
    handle_type: i32,
    body: Seq<u8>,
    rest: Seq<u8>,
    buf: Vec<u8>,
    code: i32,
)
    requires
        body.len() <= 128,
        buf@ == crate::written::handle_bytes(handle_type, body) + rest,
    ensures
        named(Ok(buf)) == Ok::<Seq<u8>, HandleError>(
            crate::written::handle_bytes(handle_type, body),
        ),
        named(Err(code)) == Err::<Seq<u8>, HandleError>(HandleError::Os(code)),
{
    crate::written::handle_fields(handle_type, body, rest);
}

/// The request for a handle offers room for 128 bytes behind the header, and says
/// so in its first word.
pub proof fn a_request_offers_the_largest_handle()
    ensures
        handle_request().len() == 8 + 128,
        u32_of(handle_request().subrange(0, 4)) == 128,
        forall|i: int| 4 <= i < 136 ==> #[trigger] handle_request()[i] == 0,
{
    crate::wire::u32_round_trip(128);
    assert(handle_request().subrange(0, 4) =~= u32_bytes(128));
}

/// A handle is asked for with the FID flag first.  Where the answer can only be 22,
/// the flag is dropped and the other answer counts; where it can never be 22,
/// nothing else is asked.
pub proof fn only_a_refused_flag_is_dropped<
    F: Fn(i32, &[u8], Vec<u8>, i32) -> Result<Vec<u8>, i32>,
>(
    call: F,
    dir_fd: i32,
    path: Seq<u8>,
    flags: i32,
    result: Result<Seq<u8>, HandleError>,
)
    requires
        may_be_named(call, dir_fd, path, flags, result),
    ensures
        (forall|reply: Result<Vec<u8>, i32>| #[trigger]
            may_name(call, dir_fd, path, flags | 0x200, reply) ==> reply == Err::<Vec<u8>, i32>(
                22,
            )) ==> may_come_to(call, dir_fd, path, flags, result),
        (forall|reply: Result<Vec<u8>, i32>| #[trigger]
            may_name(call, dir_fd, path, flags | 0x200, reply) ==> reply != Err::<Vec<u8>, i32>(
                22,
            )) ==> may_come_to(call, dir_fd, path, flags | 0x200, result),
{
    let first = choose|first: Result<Seq<u8>, HandleError>|
        {
            &&& #[trigger] may_come_to(call, dir_fd, path, flags | AT_HANDLE_FID, first)
            &&& if first == Err::<Seq<u8>, HandleError>(HandleError::Os(EINVAL)) {
                may_come_to(call, dir_fd, path, flags, result)
            } else {
                result == first
            }
        };
    let reply = choose|reply: Result<Vec<u8>, i32>| #[trigger]
        may_name(call, dir_fd, path, flags | AT_HANDLE_FID, reply) && first == named(reply);
    assert(may_name(call, dir_fd, path, flags | 0x200, reply));
}

/// What the system replied is what comes back, its errno included, and an error
/// has an errno exactly if it is the system's.
pub proof fn a_reply_keeps_its_errno<T>(
    reply: Result<T, i32>,
    error: HandleError,
    errno: Option<i32>,
)
    requires
        call_ensures(HandleError::raw_os_error, (&error,), errno),
    ensures
        reply matches Ok(value) ==> os_result(reply) == Ok::<T, HandleError>(value),
        reply matches Err(code) ==> os_result(reply) == Err::<T, HandleError>(
            HandleError::Os(code),
        ),
        errno is None <==> error == HandleError::InvalidInput,
        errno matches Some(code) ==> error == HandleError::Os(code),
{
}

/// A collection of mounts holds what was added, in the order in which it was added.
pub proof fn mounts_are_kept_in_order()
    ensures
        forall|mounts: &mut Mounts, fd: i32, fsid: Option<Fsid>, r: &mut Mounts|
            #[trigger] call_ensures(Mounts::add, (mounts, fd, fsid), r) ==> (*r)@ == (*mounts)@
                + seq![Candidate { fd, fsid }] && *final(mounts) == *final(r),
        forall|mounts: &mut Mounts, fd: i32, fsid: Fsid, r: &mut Mounts|
            #[trigger] call_ensures(Mounts::add_with_fsid, (mounts, fd, fsid), r) ==> (*r)@ == (
            *mounts)@ + seq![Candidate { fd, fsid: Some(fsid) }] && *final(mounts) == *final(r),
        forall|mounts: Mounts, fd: i32, fsid: Option<Fsid>, r: Mounts|
            #[trigger] call_ensures(Mounts::with_fd, (mounts, fd, fsid), r) ==> r@ == mounts@
                + seq![Candidate { fd, fsid }],
        forall|mounts: &Mounts, r: usize|
            #[trigger] call_ensures(Mounts::len, (mounts,), r) ==> r == mounts@.len(),
        forall|mounts: &Mounts, i: usize, r: i32|
            #[trigger] call_ensures(Mounts::index, (mounts, i), r) ==> r == mounts@[i as int].fd,
        forall|mounts: &Mounts, i: usize, r: Option<Fsid>|
            #[trigger] call_ensures(Mounts::fsid_at, (mounts, i), r)
                ==> r == (if i < mounts@.len() {
                mounts@[i as int].fsid
            } else {
                None
            }),
        forall|mounts: &Mounts, r: &[Candidate]|
            #[trigger] call_ensures(Mounts::candidates, (mounts,), r) ==> r@ == mounts@,
        forall|mounts: &Mounts, r: Vec<i32>|
            #[trigger] call_ensures(Mounts::iter, (mounts,), r) ==> r@.len() == mounts@.len()
                && forall|i: int| 0 <= i < r@.len() ==> #[trigger] r@[i] == mounts@[i].fd,
        forall|mounts: &Mounts, fsid: Fsid, r: Vec<i32>|
            #[trigger] call_ensures(Mounts::on_filesystem, (mounts, fsid), r) ==> r@ == selected(
                mounts@,
                Some(fsid),
            ),
        forall|mounts: &Mounts, fsid: Fsid, r: Vec<i32>|
            #[trigger] call_ensures(Mounts::matching, (mounts, fsid), r) ==> r@ == selected(
                mounts@,
                Some(fsid),
            ),
{
}

/// A handle is asked for by a path from the working directory, -100, without flags,
/// and by a descriptor with an empty path and the flag that says so, 0x1000.  A
/// path that holds a NUL is not asked for.
pub proof fn a_handle_is_asked_for_as_it_was_given<
    F: Fn(i32, &[u8], Vec<u8>, i32) -> Result<Vec<u8>, i32>,
>(
    fd: i32,
    path: &[u8],
    call: F,
    by_fd: Result<FileHandle, HandleError>,
    by_path: Result<FileHandle, HandleError>,
)
    requires
        call_ensures(handle_from_fd::<F>, (fd, &call), by_fd),
        call_ensures(name_to_handle_at::<F>, (path, &call), by_path),
    ensures
        may_be_named(call, fd, seq![0u8], 0x1000, result_view(by_fd)),
        (forall|i: int| 0 <= i < path@.len() ==> path@[i] != 0) ==> may_be_named(
            call,
            -100i32,
            path@ + seq![0u8],
            0,
            result_view(by_path),
        ),
        (exists|i: int| 0 <= i < path@.len() && path@[i] == 0) ==> by_path == Err::<
            FileHandle,
            HandleError,
        >(HandleError::InvalidInput),
{
    assert(path@.push(0) =~= path@ + seq![0u8]);
    if no_nul(path@) {
        assert forall|i: int| 0 <= i < path@.len() implies path@[i] != 0 by {
            assert(path@.contains(path@[i]));
        }
    }
}

/// A handle is opened on the mount that was given, and only bytes that can be one
/// are; the reply comes back as it is.
pub proof fn a_handle_is_opened_where_it_was_asked<F: Fn(i32, &[u8]) -> Result<i32, i32>>(
    mount_fd: i32,
    handle: &[u8],
    call: F,
    r: Result<i32, HandleError>,
)
    requires
        call_ensures(open_by_handle_at::<F>, (mount_fd, handle, &call), r),
    ensures
        handle@.len() < 8 || handle@.len() > 136 ==> r == Err::<i32, HandleError>(
            HandleError::InvalidInput,
        ),
        8 <= handle@.len() <= 136 ==> exists|reply: Result<i32, i32>|
            #[trigger] call.ensures((mount_fd, handle), reply) && match reply {
                Ok(fd) => r == Ok::<i32, HandleError>(fd),
                Err(code) => r == Err::<i32, HandleError>(HandleError::Os(code)),
            },
{
}

/// A result is taken by the bytes of its path, or by its error.
pub proof fn a_result_is_taken_by_its_bytes(path: Vec<u8>, error: HandleError)
    ensures
        result_view(Ok(path)) == Ok::<Seq<u8>, HandleError>(path@),
        result_view(Err(error)) == Err::<Seq<u8>, HandleError>(error),
{
}

/// Asking for a handle hands the call the directory, the path and the flags as they
/// are, with the request; and comes to what the call replied.
pub proof fn a_request_is_handed_over_as_it_is<
    F: Fn(i32, &[u8], Vec<u8>, i32) -> Result<Vec<u8>, i32>,
>(
    call: F,
    dir_fd: i32,
    path: Seq<u8>,
    flags: i32,
    result: Result<Seq<u8>, HandleError>,
)
    requires
        may_come_to(call, dir_fd, path, flags, result),
    ensures
        exists|text: &[u8], request: Vec<u8>, reply: Result<Vec<u8>, i32>|
            {
                &&& text@ == path
                &&& request@ == u32_bytes(128) + Seq::new(132, |i: int| 0u8)
                &&& #[trigger] call.ensures((dir_fd, text, request, flags), reply)
                &&& match reply {
                    Ok(buf) => result is Ok && result->Ok_0 == buf@.take(
                        if u32_of(buf@.subrange(0, 4)) < 128 {
                            8 + u32_of(buf@.subrange(0, 4))
                        } else {
                            136
                        },
                    ),
                    Err(code) => result == Err::<Seq<u8>, HandleError>(HandleError::Os(code)),
                }
            },
{
    let reply = choose|reply: Result<Vec<u8>, i32>| #[trigger]
        may_name(call, dir_fd, path, flags, reply) && result == named(reply);
    let (text, request) = choose|text: &[u8], request: Vec<u8>|
        {
            &&& text@ == path
            &&& request@ == handle_request()
            &&& #[trigger] call.ensures((dir_fd, text, request, flags), reply)
        };
    assert(call.ensures((dir_fd, text, request, flags), reply));
}

/// The filesystem of a path and of a descriptor is what the call replied for it; a
/// path goes to the call with a NUL behind it, and not at all if it holds one.
pub proof fn a_filesystem_is_what_the_call_replied<
    F: Fn(&[u8]) -> Result<Fsid, i32>,
    G: Fn(i32) -> Result<Fsid, i32>,
>(
    path: &[u8],
    fd: i32,
    by_path: F,
    by_fd: G,
    of_path: Result<Fsid, HandleError>,
    of_fd: Result<Fsid, HandleError>,
)
    requires
        call_ensures(fsid_of_path::<F>, (path, &by_path), of_path),
        call_ensures(fsid_of_fd::<G>, (fd, &by_fd), of_fd),
    ensures
        (exists|i: int| 0 <= i < path@.len() && path@[i] == 0) ==> of_path == Err::<
            Fsid,
            HandleError,
        >(HandleError::InvalidInput),
        (forall|i: int| 0 <= i < path@.len() ==> path@[i] != 0) ==> exists|
            text: &[u8],
            reply: Result<Fsid, i32>,
        |
            {
                &&& text@ == path@ + seq![0u8]
                &&& #[trigger] by_path.ensures((text,), reply)
                &&& match reply {
                    Ok(fsid) => of_path == Ok::<Fsid, HandleError>(fsid),
                    Err(code) => of_path == Err::<Fsid, HandleError>(HandleError::Os(code)),
                }
            },
        exists|reply: Result<Fsid, i32>|
            #[trigger] by_fd.ensures((fd,), reply) && match reply {
                Ok(fsid) => of_fd == Ok::<Fsid, HandleError>(fsid),
                Err(code) => of_fd == Err::<Fsid, HandleError>(HandleError::Os(code)),
            },
{
    assert(path@.push(0) =~= path@ + seq![0u8]);
    if no_nul(path@) {
        assert forall|i: int| 0 <= i < path@.len() implies path@[i] != 0 by {
            assert(path@.contains(path@[i]));
        }
    }
}

} // verus!
