//! The payloads of info records.
//!
//! ```text
//! FID / DFID:   fsid(8) + file_handle
//! DFID_NAME:    fsid(8) + file_handle + name, NUL-terminated and padded
//! PIDFD:        i32
//! ERROR:        i32 errno + u32 count
//! RANGE:        u64 offset + u64 count
//! MNT:          u64 mount id
//! ```
//!
//! A payload too short for its layout yields `None`; the caller keeps the record
//! as it came.
use vstd::prelude::*;

use crate::consts::MAX_HANDLE_SZ;
use crate::handle::{Fsid, FILE_HANDLE_HEADER_SIZE};
use crate::wire::{u32_at, u32_of, u64_at, u64_of};

verus! {

/// Size of the `fsid` field at the start of a FID/DFID/DFID_NAME payload.
pub const FSID_SIZE: usize = 8;

/// The `u32` at `at` in a payload, if it is there.
pub open spec fn opt_u32(p: Seq<u8>, at: int) -> Option<u32> {
    if at + 4 <= p.len() {
        Some(u32_of(p.subrange(at, at + 4)))
    } else {
        None
    }
}

/// The `u64` at `at` in a payload, if it is there.
pub open spec fn opt_u64(p: Seq<u8>, at: int) -> Option<u64> {
    if at + 8 <= p.len() {
        Some(u64_of(p.subrange(at, at + 8)))
    } else {
        None
    }
}

/// The fsid a payload starts with: the pair of `int`s that `statfs` reports.
pub open spec fn fsid_of(p: Seq<u8>) -> Option<Fsid> {
    if p.len() >= FSID_SIZE {
        Some((u32_of(p.subrange(0, 4)) as i32, u32_of(p.subrange(4, 8)) as i32))
    } else {
        None
    }
}

/// The `struct file_handle` that `p` starts with, header included.  Its first
/// word counts the bytes behind the 8-byte header.
pub open spec fn handle_of(p: Seq<u8>) -> Option<Seq<u8>> {
    if p.len() < 4 {
        None
    } else {
        let handle_bytes = u32_of(p.subrange(0, 4)) as int;
        if handle_bytes > MAX_HANDLE_SZ || FILE_HANDLE_HEADER_SIZE + handle_bytes > p.len() {
            None
        } else {
            Some(p.take(FILE_HANDLE_HEADER_SIZE + handle_bytes))
        }
    }
}

/// An fsid and the handle behind it.
pub open spec fn fsid_handle_of(p: Seq<u8>) -> Option<(Fsid, Seq<u8>)> {
    match fsid_of(p) {
        Some(fsid) => match handle_of(p.skip(FSID_SIZE as int)) {
            Some(handle) => Some((fsid, handle)),
            None => None,
        },
        None => None,
    }
}

/// The bytes of `s` before its first NUL; all of them if it has none.
pub open spec fn until_nul(s: Seq<u8>) -> Seq<u8>
    decreases s.len(),
{
    if s.len() == 0 || s[0] == 0 {
        Seq::empty()
    } else {
        seq![s[0]] + until_nul(s.skip(1))
    }
}

/// An fsid, the handle behind it, and the name behind that.
pub open spec fn fsid_handle_name_of(p: Seq<u8>) -> Option<(Fsid, Seq<u8>, Seq<u8>)> {
    match fsid_handle_of(p) {
        Some((fsid, handle)) => Some(
            (fsid, handle, until_nul(p.skip(FSID_SIZE + handle.len()))),
        ),
        None => None,
    }
}

/// `until_nul` ends at the first NUL and nowhere else.
pub(crate) proof fn until_nul_is_a_prefix(s: Seq<u8>, end: int)
    requires
        0 <= end <= s.len(),
        forall|k: int| 0 <= k < end ==> s[k] != 0,
        end < s.len() ==> s[end] == 0,
    ensures
        until_nul(s) == s.take(end),
    decreases s.len(),
{
    if end > 0 {
        until_nul_is_a_prefix(s.skip(1), end - 1);
        assert(seq![s[0]] + s.skip(1).take(end - 1) =~= s.take(end));
    } else {
        assert(s.take(0) =~= Seq::<u8>::empty());
    }
}

/// Read a `u32`, if it is there.
pub fn read_u32(payload: &[u8], at: usize) -> (r: Option<u32>)
    requires
        at <= usize::MAX - 4,
    ensures
        r == opt_u32(payload@, at as int),
{
    if at + 4 <= payload.len() {
        Some(u32_at(payload, at))
    } else {
        None
    }
}

/// Read a `u64`, if it is there.
pub fn read_u64(payload: &[u8], at: usize) -> (r: Option<u64>)
    requires
        at <= usize::MAX - 8,
    ensures
        r == opt_u64(payload@, at as int),
{
    if at + 8 <= payload.len() {
        Some(u64_at(payload, at))
    } else {
        None
    }
}

/// Read the `fsid` field, as the pair of `int`s a later `statfs` also reports.
pub fn read_fsid(payload: &[u8]) -> (r: Option<Fsid>)
    ensures
        r == fsid_of(payload@),
{
    if payload.len() < FSID_SIZE {
        return None;
    }
    let first: i32 = u32_at(payload, 0) as i32;
    let second: i32 = u32_at(payload, 4) as i32;
    Some((first, second))
}

/// Read a `struct file_handle` as the exact bytes the filesystem produced.
///
/// The whole structure is returned, because that is what `open_by_handle_at`
/// wants.  The slice borrows the payload, so nothing is copied.
pub fn read_file_handle<'buf>(payload: &'buf [u8]) -> (r: Option<&'buf [u8]>)
    ensures
        match r {
            Some(handle) => handle_of(payload@) == Some(handle@),
            None => handle_of(payload@) is None,
        },
{
    if payload.len() < 4 {
        return None;
    }
    let handle_bytes: u32 = u32_at(payload, 0);
    if handle_bytes > MAX_HANDLE_SZ as u32 {
        return None;
    }
    let total: usize = FILE_HANDLE_HEADER_SIZE + handle_bytes as usize;
    if total > payload.len() {
        return None;
    }
    Some(&payload[0..total])
}

/// Split a `fsid + file_handle` payload.
pub fn split_fsid_handle<'buf>(payload: &'buf [u8]) -> (r: Option<(Fsid, &'buf [u8])>)
    ensures
        match r {
            Some((fsid, handle)) => fsid_handle_of(payload@) == Some((fsid, handle@)),
            None => fsid_handle_of(payload@) is None,
        },
{
    let fsid = match read_fsid(payload) {
        Some(fsid) => fsid,
        None => {
            return None;
        },
    };
    let after: &'buf [u8] = &payload[FSID_SIZE..payload.len()];
    assert(after@ =~= payload@.skip(FSID_SIZE as int));
    match read_file_handle(after) {
        Some(handle) => Some((fsid, handle)),
        None => None,
    }
}

/// Split a `fsid + file_handle + name` payload, the layout of `DFID_NAME`.
///
/// The kernel NUL-terminates the name and pads the record; the first NUL is
/// where the name ends.
pub fn split_fsid_handle_name<'buf>(payload: &'buf [u8]) -> (r: Option<
    (Fsid, &'buf [u8], &'buf [u8]),
>)
    ensures
        match r {
            Some((fsid, handle, name)) => fsid_handle_name_of(payload@) == Some(
                (fsid, handle@, name@),
            ),
            None => fsid_handle_name_of(payload@) is None,
        },
{
    let (fsid, handle) = match split_fsid_handle(payload) {
        Some(split) => split,
        None => {
            return None;
        },
    };
    let name_at: usize = FSID_SIZE + handle.len();
    let raw: &'buf [u8] = &payload[name_at..payload.len()];
    let mut end: usize = 0;
    while end < raw.len() && raw[end] != 0
        invariant
            end <= raw@.len(),
            forall|k: int| 0 <= k < end ==> raw@[k] != 0,
        decreases raw@.len() - end,
    {
        end = end + 1;
    }
    proof {
        until_nul_is_a_prefix(raw@, end as int);
        assert(raw@ =~= payload@.skip(name_at as int));
    }
    Some((fsid, handle, &raw[0..end]))
}

} // verus!
