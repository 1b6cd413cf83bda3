//! The system calls of a group: what goes into them and what comes of them.
//!
//! The calls themselves are the caller's, which passes each as a function: it
//! makes the call with the arguments it is given and answers with what the call
//! returned, or with the errno.  Nothing here judges a combination of arguments;
//! the kernel's answer is the one that comes back.
use vstd::prelude::*;

use crate::consts::{EINTR, EINVAL};
use crate::error::FanotifyError;
use crate::handle::{c_path, no_nul};

verus! {

/// The read size of a buffer that nobody sized: more than one event fits,
/// whatever the format.
pub const DEFAULT_BUF_BYTES: usize = 65536;

/// What `fanotify_init` came to.
pub open spec fn init_outcome(reply: Result<i32, i32>) -> Result<i32, FanotifyError> {
    match reply {
        Ok(fd) => Ok(fd),
        Err(code) => Err(FanotifyError::Init(code)),
    }
}

/// What `fanotify_mark` came to.
pub open spec fn mark_outcome(reply: Result<i32, i32>) -> Result<(), FanotifyError> {
    match reply {
        Ok(_) => Ok(()),
        Err(code) => Err(FanotifyError::Mark(code)),
    }
}

/// `fanotify_init(2)`: create a group and answer with its descriptor.
///
/// `call` is handed both arguments unchanged.
pub fn fanotify_init<F: Fn(u32, u32) -> Result<i32, i32>>(
    flags: u32,
    event_f_flags: u32,
    call: &F,
) -> (r: Result<i32, FanotifyError>)
    requires
        call.requires((flags, event_f_flags)),
    ensures
        exists|reply: Result<i32, i32>|
            #[trigger] call.ensures((flags, event_f_flags), reply) && r == init_outcome(reply),
{
    match call(flags, event_f_flags) {
        Ok(fd) => Ok(fd),
        Err(code) => Err(FanotifyError::Init(code)),
    }
}

/// `fanotify_mark(2)` with a path, read from the directory `dir_fd`.
///
/// `call` is handed the arguments unchanged, the path as a C string.  A path with
/// a NUL in it cannot be a path, and the kernel is not asked about it.
pub fn fanotify_mark<F: Fn(i32, u32, u64, i32, &[u8]) -> Result<i32, i32>>(
    fanotify_fd: i32,
    flags: u32,
    mask: u64,
    dir_fd: i32,
    path: &[u8],
    call: &F,
) -> (r: Result<(), FanotifyError>)
    requires
        forall|c_path: &[u8]|
            #[trigger] call.requires((fanotify_fd, flags, mask, dir_fd, c_path)),
    ensures
        marks(fanotify_fd, flags, mask, dir_fd, path@, *call, r),
{
    let text: Vec<u8> = match c_path(path) {
        Ok(text) => text,
        Err(_) => return Err(FanotifyError::Mark(EINVAL)),
    };
    match call(fanotify_fd, flags, mask, dir_fd, text.as_slice()) {
        Ok(_) => Ok(()),
        Err(code) => Err(FanotifyError::Mark(code)),
    }
}

/// Whether `r` is what a mark by path comes to: the outcome of one call with
/// these arguments, or `EINVAL` without a call if the path holds a NUL.
pub open spec fn marks<F: Fn(i32, u32, u64, i32, &[u8]) -> Result<i32, i32>>(
    fanotify_fd: i32,
    flags: u32,
    mask: u64,
    dir_fd: i32,
    path: Seq<u8>,
    call: F,
    r: Result<(), FanotifyError>,
) -> bool {
    if no_nul(path) {
        exists|c_path: &[u8], reply: Result<i32, i32>|
            {
                &&& c_path@ == path.push(0)
                &&& #[trigger] call.ensures((fanotify_fd, flags, mask, dir_fd, c_path), reply)
                &&& r == mark_outcome(reply)
            }
    } else {
        r == Err::<(), FanotifyError>(FanotifyError::Mark(EINVAL))
    }
}

/// `fanotify_mark(2)` on the object a descriptor names, with no path at all.
pub fn fanotify_mark_by_fd<F: Fn(i32, u32, u64, i32) -> Result<i32, i32>>(
    fanotify_fd: i32,
    flags: u32,
    mask: u64,
    object_fd: i32,
    call: &F,
) -> (r: Result<(), FanotifyError>)
    requires
        call.requires((fanotify_fd, flags, mask, object_fd)),
    ensures
        exists|reply: Result<i32, i32>|
            #[trigger] call.ensures((fanotify_fd, flags, mask, object_fd), reply) && r
                == mark_outcome(reply),
{
    match call(fanotify_fd, flags, mask, object_fd) {
        Ok(_) => Ok(()),
        Err(code) => Err(FanotifyError::Mark(code)),
    }
}

/// What to do with the reply to a `read(2)` on a group.
#[derive(Debug, Clone, Copy, PartialEq, Eq, Structural)]
pub enum ReadStep {
    /// A signal arrived before anything was transferred: read again.
    Retry,
    /// So many bytes were read.
    Done(usize),
    /// The read failed.
    Failed(FanotifyError),
}

/// What to do with the reply to a `read(2)` on a group: an interrupted read is
/// repeated, and everything else comes back as the kernel gave it.
pub open spec fn step_of(reply: Result<usize, i32>) -> ReadStep {
    match reply {
        Ok(n) => ReadStep::Done(n),
        Err(code) => if code == EINTR {
            ReadStep::Retry
        } else {
            ReadStep::Failed(FanotifyError::Read(code))
        },
    }
}

/// What to do with the reply to a `read(2)` on a group.
///
/// An interrupted read transferred nothing and says nothing about the queue, so
/// it is repeated.
pub fn read_step(reply: Result<usize, i32>) -> (r: ReadStep)
    ensures
        r == step_of(reply),
{
    match reply {
        Ok(n) => ReadStep::Done(n),
        Err(code) => {
            if code == EINTR {
                ReadStep::Retry
            } else {
                ReadStep::Failed(FanotifyError::Read(code))
            }
        },
    }
}

/// How many bytes to read into a buffer of this capacity: one without capacity is
/// one the caller did not size.
pub fn read_size(capacity: usize) -> (r: usize)
    ensures
        r == (if capacity == 0 {
            DEFAULT_BUF_BYTES
        } else {
            capacity
        }),
{
    if capacity == 0 {
        DEFAULT_BUF_BYTES
    } else {
        capacity
    }
}

/// Keep of a buffer what the read into it produced: as many bytes as were
/// written, and none if it failed, so that a failed read does not go on answering
/// with the previous batch.
pub fn read_events(buf: &mut Vec<u8>, reply: Result<usize, FanotifyError>) -> (r: Result<
    (),
    FanotifyError,
>)
    requires
        reply matches Ok(n) ==> n <= old(buf)@.len(),
    ensures
        match reply {
            Ok(n) => r is Ok && final(buf)@ == old(buf)@.take(n as int),
            Err(error) => r == Err::<(), FanotifyError>(error) && final(buf)@.len() == 0,
        },
{
    match reply {
        Ok(n) => {
            buf.truncate(n);
            Ok(())
        },
        Err(error) => {
            buf.clear();
            Err(error)
        },
    }
}

/// The timeout of a `poll(2)`, in milliseconds: a wait without a limit is -1, and
/// one that is too long for the argument is as long as it can say.
pub fn poll_timeout(timeout_ms: Option<u128>) -> (r: i32)
    ensures
        r == (match timeout_ms {
            None => -1i32,
            Some(ms) => if ms > i32::MAX {
                i32::MAX
            } else {
                ms as i32
            },
        }),
{
    match timeout_ms {
        None => -1,
        Some(ms) => {
            if ms > i32::MAX as u128 {
                i32::MAX
            } else {
                ms as i32
            }
        },
    }
}

/// A read is repeated for no other reason than a signal, and an interrupted read
/// is never reported.
pub proof fn a_signal_is_never_an_answer(reply: Result<usize, i32>)
    ensures
        step_of(reply) == ReadStep::Retry <==> reply == Err::<usize, i32>(EINTR),
        step_of(reply) != ReadStep::Failed(FanotifyError::Read(EINTR)),
{
}

/// What a read transferred is what it is said to have transferred, and a failure
/// keeps its errno.
pub proof fn a_reply_is_passed_on(reply: Result<usize, i32>)
    ensures
        match reply {
            Ok(n) => step_of(reply) == ReadStep::Done(n),
            Err(4) => step_of(reply) == ReadStep::Retry,
            Err(code) => step_of(reply) == ReadStep::Failed(FanotifyError::Read(code)),
        },
{
}

/// A group is created exactly if the call gave a descriptor, and it is that one; a
/// mark is placed exactly if the call did not fail.  A failure keeps its errno and
/// says which call it was.
pub proof fn a_call_comes_to_what_it_returned(reply: Result<i32, i32>)
    ensures
        match reply {
            Ok(fd) => init_outcome(reply) == Ok::<i32, FanotifyError>(fd) && mark_outcome(reply)
                == Ok::<(), FanotifyError>(()),
            Err(code) => init_outcome(reply) == Err::<i32, FanotifyError>(FanotifyError::Init(code))
                && mark_outcome(reply) == Err::<(), FanotifyError>(FanotifyError::Mark(code)),
        },
{
}

/// A path that holds a NUL is refused with 22 whatever the call would say.  Any
/// other goes to the call with a NUL behind it: where the call can only succeed
/// the mark is placed, and where it can only fail its errno comes back.
pub proof fn a_mark_asks_for_the_whole_path<
    F: Fn(i32, u32, u64, i32, &[u8]) -> Result<i32, i32>,
>(
    fanotify_fd: i32,
    flags: u32,
    mask: u64,
    dir_fd: i32,
    path: Seq<u8>,
    call: F,
    r: Result<(), FanotifyError>,
    code: i32,
)
    requires
        marks(fanotify_fd, flags, mask, dir_fd, path, call, r),
    ensures
        (exists|i: int| 0 <= i < path.len() && path[i] == 0) ==> r == Err::<(), FanotifyError>(
            FanotifyError::Mark(22),
        ),
        (forall|i: int| 0 <= i < path.len() ==> path[i] != 0) && (forall|
            text: &[u8],
            reply: Result<i32, i32>,
        |
            #[trigger] call.ensures((fanotify_fd, flags, mask, dir_fd, text), reply) && text@ == path
                + seq![0u8] ==> reply is Ok) ==> r == Ok::<(), FanotifyError>(()),
        (forall|i: int| 0 <= i < path.len() ==> path[i] != 0) && (forall|
            text: &[u8],
            reply: Result<i32, i32>,
        |
            #[trigger] call.ensures((fanotify_fd, flags, mask, dir_fd, text), reply) && text@ == path
                + seq![0u8] ==> reply == Err::<i32, i32>(code)) ==> r == Err::<(), FanotifyError>(
            FanotifyError::Mark(code),
        ),
{
    assert(path.push(0) =~= path + seq![0u8]);
    if no_nul(path) {
        assert forall|i: int| 0 <= i < path.len() implies path[i] != 0 by {
            assert(path.contains(path[i]));
        }
    } else {
        let i = choose|i: int| 0 <= i < path.len() && path[i] == 0u8;
        assert(path[i] == 0);
    }
}

/// A wait is as long as it was asked to be, up to the longest that can be asked
/// for; a longer request waits longer or as long, and a wait without a limit is
/// the only negative one.
pub proof fn a_timeout_is_kept(ms: u128, longer: u128, r: i32, s: i32, unlimited: i32)
    requires
        ms <= longer,
        call_ensures(poll_timeout, (Some(ms),), r),
        call_ensures(poll_timeout, (Some(longer),), s),
        call_ensures(poll_timeout, (None,), unlimited),
    ensures
        unlimited == -1,
        0 <= r <= s,
        ms <= 0x7fff_ffff ==> r == ms,
        ms > 0x7fff_ffff ==> r == 0x7fff_ffff,
{
}

/// A buffer is read into as far as it goes, and one without a size is given one.
pub proof fn a_read_fills_its_buffer(capacity: usize, r: usize)
    requires
        call_ensures(read_size, (capacity,), r),
    ensures
        r > 0,
        capacity > 0 ==> r == capacity,
        capacity == 0 ==> r == 65536,
{
}

/// A buffer holds after a read exactly the bytes that were read, and nothing after
/// a read that failed.
pub proof fn a_buffer_holds_what_was_read()
    ensures
        forall|
            buf: &mut Vec<u8>,
            reply: Result<usize, FanotifyError>,
            r: Result<(), FanotifyError>,
        |
            #[trigger] call_ensures(read_events, (buf, reply), r) ==> match reply {
                Ok(n) => r is Ok && final(buf)@ == (*buf)@.take(n as int),
                Err(error) => r == Err::<(), FanotifyError>(error) && final(buf)@.len() == 0,
            },
{
}

/// Each call is made once, with the arguments that were given, and comes to what it
/// returned.
pub proof fn a_call_is_made_as_it_was_given<
    F: Fn(u32, u32) -> Result<i32, i32>,
    G: Fn(i32, u32, u64, i32, &[u8]) -> Result<i32, i32>,
    H: Fn(i32, u32, u64, i32) -> Result<i32, i32>,
>(
    flags: u32,
    event_f_flags: u32,
    group: i32,
    mask: u64,
    dir: i32,
    path: &[u8],
    init: F,
    mark: G,
    mark_fd: H,
    made: Result<i32, FanotifyError>,
    marked: Result<(), FanotifyError>,
    marked_fd: Result<(), FanotifyError>,
)
    requires
        call_ensures(fanotify_init::<F>, (flags, event_f_flags, &init), made),
        call_ensures(fanotify_mark::<G>, (group, flags, mask, dir, path, &mark), marked),
        call_ensures(fanotify_mark_by_fd::<H>, (group, flags, mask, dir, &mark_fd), marked_fd),
    ensures
        exists|reply: Result<i32, i32>|
            #[trigger] init.ensures((flags, event_f_flags), reply) && match reply {
                Ok(fd) => made == Ok::<i32, FanotifyError>(fd),
                Err(code) => made == Err::<i32, FanotifyError>(FanotifyError::Init(code)),
            },
        marks(group, flags, mask, dir, path@, mark, marked),
        exists|reply: Result<i32, i32>|
            #[trigger] mark_fd.ensures((group, flags, mask, dir), reply) && match reply {
                Ok(_) => marked_fd == Ok::<(), FanotifyError>(()),
                Err(code) => marked_fd == Err::<(), FanotifyError>(FanotifyError::Mark(code)),
            },
{
}

} // verus!
