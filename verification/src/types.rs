//! Owned event records, and a plain map from handle to path.
//!
//! For a caller that collects whole events and keys what it knows by handle
//! bytes alone, on one filesystem.  A record says what the kernel reported and
//! the best path that is known for it; an empty path is a path that is not
//! known.
use vstd::prelude::*;
use vstd::utf8::encode_utf8_decode_utf8;

use crate::bytes::{opt_slice, opt_text, opt_vec};
use crate::consts::{event_names_of, mask_to_event_names, texts, FAN_Q_OVERFLOW};
use crate::path::{paths_equal, same_path};
use crate::wire::{same_bytes, to_bytes, u16_at, u16_of, u32_at, u32_of, u64_at, u64_of};

pub use crate::parse::METADATA_SIZE;

verus! {

/// The header at the start of every event: `struct fanotify_event_metadata`.
#[derive(Debug, Clone, Copy, PartialEq, Eq, Structural)]
pub struct FanMetadata {
    /// Length of the event, header and info records together.
    pub event_len: u32,
    /// `FANOTIFY_METADATA_VERSION`, if the bytes are events.
    pub vers: u8,
    /// Reserved.
    pub reserved: u8,
    /// Where the info records start.
    pub metadata_len: u16,
    /// Which events the record is about.
    pub mask: u64,
    /// A descriptor, or `FAN_NOFD`.
    pub fd: i32,
    /// The process behind the event.
    pub pid: i32,
}

/// The header that 24 bytes hold.
pub open spec fn metadata_of(s: Seq<u8>) -> FanMetadata {
    FanMetadata {
        event_len: u32_of(s.subrange(0, 4)),
        vers: s[4],
        reserved: s[5],
        metadata_len: u16_of(s.subrange(6, 8)),
        mask: u64_of(s.subrange(8, 16)),
        fd: u32_of(s.subrange(16, 20)) as i32,
        pid: u32_of(s.subrange(20, 24)) as i32,
    }
}

impl FanMetadata {
    /// The header at `at`.
    pub fn read_at(buf: &[u8], at: usize) -> (r: Self)
        requires
            at + METADATA_SIZE <= buf.len(),
        ensures
            r == metadata_of(buf@.skip(at as int)),
    {
        let ghost s = buf@.skip(at as int);
        let event: &[u8] = &buf[at..at + METADATA_SIZE];
        proof {
            assert(event@.subrange(0, 4) =~= s.subrange(0, 4));
            assert(event@.subrange(6, 8) =~= s.subrange(6, 8));
            assert(event@.subrange(8, 16) =~= s.subrange(8, 16));
            assert(event@.subrange(16, 20) =~= s.subrange(16, 20));
            assert(event@.subrange(20, 24) =~= s.subrange(20, 24));
        }
        FanMetadata {
            event_len: u32_at(event, 0),
            vers: event[4],
            reserved: event[5],
            metadata_len: u16_at(event, 6),
            mask: u64_at(event, 8),
            fd: u32_at(event, 16) as i32,
            pid: u32_at(event, 20) as i32,
        }
    }
}

/// A file handle: header and payload, as an info record carries it.
pub type HandleKey = Vec<u8>;

/// What a map from handle to path holds.
pub type KnownHandles = Map<Seq<u8>, Seq<u8>>;

/// What is known for a handle.
pub open spec fn path_for(known: KnownHandles, key: Seq<u8>) -> Option<Seq<u8>> {
    if known.dom().contains(key) {
        Some(known[key])
    } else {
        None
    }
}

/// A store from handle to path, for callers that plug in their own: bounded,
/// expiring, shared.
///
/// A store may decline to keep what it is given and may drop what it holds; it
/// never answers with anything but what was recorded for that very handle.
pub trait PathStore {
    /// What a lookup is answered from.
    spec fn known(&self) -> KnownHandles;

    /// Whether the store keeps everything it is given.
    spec fn keeps_all() -> bool;

    /// The path known for this handle, if any.
    fn get(&self, key: &[u8]) -> (r: Option<Vec<u8>>)
        ensures
            opt_vec(r) == path_for(self.known(), key@),
    ;

    /// Record a path for this handle, in place of any recorded before.
    fn insert(&mut self, key: Vec<u8>, path: Vec<u8>)
        ensures
            final(self).known().submap_of(old(self).known().insert(key@, path@)),
            Self::keeps_all() ==> final(self).known() == old(self).known().insert(key@, path@),
    ;
}

/// A handle and its path.
#[derive(Debug)]
struct Entry {
    key: HandleKey,
    path: Vec<u8>,
}

/// The map from handle to path that recovers the paths of deleted directories.
///
/// It is unbounded and keeps what it is given.
#[derive(Debug)]
pub struct HandleCache {
    entries: Vec<Entry>,
}

/// Whether the entry at `i` is the one for `key`.
spec fn holds_at(entries: Seq<Entry>, i: int, key: Seq<u8>) -> bool {
    0 <= i < entries.len() && entries[i].key@ == key
}

/// What entries hold, as a map.
spec fn known_in(entries: Seq<Entry>) -> KnownHandles {
    Map::new(
        |key: Seq<u8>| exists|i: int| holds_at(entries, i, key),
        |key: Seq<u8>| entries[choose|i: int| holds_at(entries, i, key)].path@,
    )
}

/// Whether no handle occurs twice.
spec fn distinct_keys(entries: Seq<Entry>) -> bool {
    forall|a: int, b: int|
        0 <= a < b < entries.len() ==> (#[trigger] entries[a]).key@ != (
        #[trigger] entries[b]).key@
}

/// The entry at a place is what the map holds for its handle.
proof fn known_at(entries: Seq<Entry>, i: int)
    requires
        distinct_keys(entries),
        0 <= i < entries.len(),
    ensures
        known_in(entries).dom().contains(entries[i].key@),
        known_in(entries)[entries[i].key@] == entries[i].path@,
{
    let key = entries[i].key@;
    assert(holds_at(entries, i, key));
    let k = choose|k: int| holds_at(entries, k, key);
    assert(holds_at(entries, k, key));
    if k < i {
        assert(entries[k].key@ != entries[i].key@);
    } else if i < k {
        assert(entries[i].key@ != entries[k].key@);
    }
}

/// A list that differs from another in one entry only, which is new or has a new
/// path, holds the same but for that entry.
proof fn recording_one_entry(before: Seq<Entry>, after: Seq<Entry>, i: int)
    requires
        distinct_keys(before),
        0 <= i < after.len(),
        after.len() == before.len() || (i == before.len() && after.len() == before.len() + 1),
        forall|k: int| 0 <= k < before.len() && k != i ==> #[trigger] after[k] == before[k],
        i < before.len() ==> after[i].key@ == before[i].key@,
        i == before.len() ==> !known_in(before).dom().contains(after[i].key@),
    ensures
        distinct_keys(after),
        known_in(after) == known_in(before).insert(after[i].key@, after[i].path@),
{
    let key = after[i].key@;
    assert(distinct_keys(after)) by {
        assert forall|a: int, b: int| 0 <= a < b < after.len() implies (#[trigger] after[a]).key@
            != (#[trigger] after[b]).key@ by {
            if b == before.len() {
                assert(holds_at(before, a, before[a].key@));
            } else {
                assert(before[a].key@ != before[b].key@);
            }
        }
    }
    let expected = known_in(before).insert(key, after[i].path@);
    assert forall|k: Seq<u8>| #[trigger] known_in(after).dom().contains(k)
        == expected.dom().contains(k) by {
        if known_in(after).dom().contains(k) {
            let j = choose|j: int| holds_at(after, j, k);
            if j != i {
                assert(holds_at(before, j, k));
            }
        }
        if known_in(before).dom().contains(k) {
            let j = choose|j: int| holds_at(before, j, k);
            assert(holds_at(after, j, k));
        }
        assert(holds_at(after, i, key));
    }
    assert forall|k: Seq<u8>| #[trigger] known_in(after).dom().contains(k) implies known_in(
        after,
    )[k] == expected[k] by {
        let j = choose|j: int| holds_at(after, j, k);
        assert(after[j].key@ == k);
        known_at(after, j);
        if k != key {
            assert(j != i);
            assert(before[j].key@ == k);
            known_at(before, j);
        } else {
            known_at(after, i);
        }
    }
    assert(known_in(after) =~= expected);
}

/// The map holds as many handles as there are entries.
proof fn known_has_len(entries: Seq<Entry>)
    requires
        distinct_keys(entries),
    ensures
        known_in(entries).dom().finite(),
        known_in(entries).dom().len() == entries.len(),
{
    let keys = entries.map_values(|e: Entry| e.key@);
    assert(keys.no_duplicates()) by {
        assert forall|a: int, b: int|
            0 <= a < keys.len() && 0 <= b < keys.len() && a != b implies keys[a] != keys[b] by {
            if a < b {
                assert(entries[a].key@ != entries[b].key@);
            } else {
                assert(entries[b].key@ != entries[a].key@);
            }
        }
    }
    keys.unique_seq_to_set();
    vstd::seq_lib::seq_to_set_is_finite(keys);
    assert forall|key: Seq<u8>| #[trigger] known_in(entries).dom().contains(key)
        == keys.to_set().contains(key) by {
        if known_in(entries).dom().contains(key) {
            let i = choose|i: int| holds_at(entries, i, key);
            assert(keys[i] == key);
        }
        if keys.to_set().contains(key) {
            let i = choose|i: int| 0 <= i < keys.len() && keys[i] == key;
            assert(holds_at(entries, i, key));
        }
    }
    assert(known_in(entries).dom() =~= keys.to_set());
}

impl View for HandleCache {
    type V = KnownHandles;

    closed spec fn view(&self) -> KnownHandles {
        known_in(self.entries@)
    }
}

impl HandleCache {
    #[verifier::type_invariant]
    spec fn inv(&self) -> bool {
        distinct_keys(self.entries@)
    }

    /// A map that knows nothing.
    pub fn new() -> (r: Self)
        ensures
            r@ == Map::<Seq<u8>, Seq<u8>>::empty(),
    {
        let r = HandleCache { entries: Vec::new() };
        assert(r@ =~= Map::<Seq<u8>, Seq<u8>>::empty());
        r
    }

    /// How many handles are known.
    pub fn len(&self) -> (r: usize)
        ensures
            self@.dom().finite(),
            r == self@.dom().len(),
    {
        proof {
            use_type_invariant(self);
            known_has_len(self.entries@);
        }
        self.entries.len()
    }

    /// Whether nothing is known.
    pub fn is_empty(&self) -> (r: bool)
        ensures
            r == (self@ == Map::<Seq<u8>, Seq<u8>>::empty()),
    {
        proof {
            if self.entries@.len() > 0 {
                assert(holds_at(self.entries@, 0, self.entries@[0].key@));
                assert(self@.dom().contains(self.entries@[0].key@));
            } else {
                assert(self@ =~= Map::<Seq<u8>, Seq<u8>>::empty());
            }
        }
        self.entries.len() == 0
    }

    /// Where the entry of a handle is.
    fn entry_of(&self, key: &[u8]) -> (r: Option<usize>)
        ensures
            match r {
                Some(i) => i < self.entries@.len() && self.entries@[i as int].key@ == key@,
                None => !self@.dom().contains(key@),
            },
    {
        let mut i: usize = 0;
        while i < self.entries.len()
            invariant
                i <= self.entries@.len(),
                forall|k: int| 0 <= k < i ==> (#[trigger] self.entries@[k]).key@ != key@,
            decreases self.entries@.len() - i,
        {
            if same_bytes(self.entries[i].key.as_slice(), key) {
                return Some(i);
            }
            i = i + 1;
        }
        None
    }

    /// The path known for this handle, borrowed.
    pub fn path_of(&self, key: &[u8]) -> (r: Option<&[u8]>)
        ensures
            opt_slice(r) == path_for(self@, key@),
    {
        proof {
            use_type_invariant(self);
        }
        match self.entry_of(key) {
            Some(i) => {
                proof {
                    known_at(self.entries@, i as int);
                }
                Some(self.entries[i].path.as_slice())
            },
            None => None,
        }
    }

    /// Record a path for this handle, unless one is known.
    pub fn or_insert(&mut self, key: &[u8], path: &[u8])
        ensures
            final(self)@ == with_first(old(self)@, key@, path@),
    {
        if self.path_of(key).is_none() {
            self.insert(to_bytes(key), to_bytes(path));
        }
    }
}

/// What is known once a path was recorded for a handle unless one was known.
pub open spec fn with_first(known: KnownHandles, key: Seq<u8>, path: Seq<u8>) -> KnownHandles {
    if known.dom().contains(key) {
        known
    } else {
        known.insert(key, path)
    }
}

impl PathStore for HandleCache {
    open spec fn known(&self) -> KnownHandles {
        self@
    }

    open spec fn keeps_all() -> bool {
        true
    }

    fn get(&self, key: &[u8]) -> (r: Option<Vec<u8>>) {
        match self.path_of(key) {
            Some(path) => Some(to_bytes(path)),
            None => None,
        }
    }

    fn insert(&mut self, key: Vec<u8>, path: Vec<u8>)
        ensures
            final(self)@ == old(self)@.insert(key@, path@),
    {
        proof {
            use_type_invariant(&*self);
        }
        let ghost before = self.entries@;
        let place = self.entry_of(key.as_slice());
        let mut entries: Vec<Entry> = Vec::new();
        std::mem::swap(&mut entries, &mut self.entries);
        match place {
            Some(i) => {
                let entry = &mut entries[i];
                entry.path = path;
                proof {
                    recording_one_entry(before, entries@, i as int);
                }
            },
            None => {
                entries.push(Entry { key, path });
                proof {
                    recording_one_entry(before, entries@, before.len() as int);
                }
            },
        }
        self.entries = entries;
    }
}

impl Default for HandleCache {
    fn default() -> (r: Self)
        ensures
            r@ == Map::<Seq<u8>, Seq<u8>>::empty(),
    {
        HandleCache::new()
    }
}

/// One side of a `FAN_RENAME` event: the parent directory's handle and the entry
/// name in it.
///
/// The two sides are independent records, so a rename that leaves what is
/// watched reports only the side the mark matched.
#[derive(Debug)]
pub struct RenameSide {
    /// Handle of the parent directory.
    pub handle: HandleKey,
    /// Entry name within that directory.
    pub name: String,
}

/// A rename side, its fields taken as sequences.
#[verifier::ext_equal]
pub struct RenameSideView {
    /// See [`RenameSide::handle`].
    pub handle: Seq<u8>,
    /// See [`RenameSide::name`].
    pub name: Seq<char>,
}

impl View for RenameSide {
    type V = RenameSideView;

    open spec fn view(&self) -> RenameSideView {
        RenameSideView { handle: self.handle@, name: self.name@ }
    }
}

/// The view of an optional rename side.
pub open spec fn opt_side(side: Option<RenameSide>) -> Option<RenameSideView> {
    match side {
        Some(side) => Some(side@),
        None => None,
    }
}

/// The view of an optional borrowed rename side.
pub open spec fn opt_side_ref(side: Option<&RenameSide>) -> Option<RenameSideView> {
    match side {
        Some(side) => Some(side@),
        None => None,
    }
}

/// The characters of an optional string.
pub open spec fn opt_string(text: Option<String>) -> Option<Seq<char>> {
    match text {
        Some(text) => Some(text@),
        None => None,
    }
}

/// Whether two texts are equal.
fn same_text(a: &str, b: &str) -> (r: bool)
    ensures
        r == (a@ == b@),
{
    proof {
        encode_utf8_decode_utf8(a@);
        encode_utf8_decode_utf8(b@);
    }
    same_bytes(a.as_bytes(), b.as_bytes())
}

impl Clone for RenameSide {
    fn clone(&self) -> (r: Self)
        ensures
            r@ == self@,
    {
        RenameSide { handle: to_bytes(self.handle.as_slice()), name: self.name.as_str().to_owned() }
    }
}

impl PartialEq for RenameSide {
    fn eq(&self, other: &Self) -> (r: bool) {
        same_bytes(self.handle.as_slice(), other.handle.as_slice()) && same_text(
            self.name.as_str(),
            other.name.as_str(),
        )
    }
}

impl vstd::std_specs::cmp::PartialEqSpecImpl for RenameSide {
    open spec fn obeys_eq_spec() -> bool {
        true
    }

    open spec fn eq_spec(&self, other: &Self) -> bool {
        self@ == other@
    }
}

impl Eq for RenameSide {

}

/// A parsed FID event that owns everything it says.
///
/// An info record without a field of its own is not discarded: its type and
/// payload are kept in [`unknown_info_records`](FidEvent::unknown_info_records).
#[derive(Debug)]
pub struct FidEvent {
    mask: u64,
    pid: i32,
    path: Vec<u8>,
    dfid_name_handle: Option<HandleKey>,
    dfid_name_filename: Option<String>,
    self_handle: Option<HandleKey>,
    pidfd: Option<i32>,
    fs_error: Option<(i32, u32)>,
    rename_source: Option<RenameSide>,
    rename_target: Option<RenameSide>,
    unknown_info_records: Vec<(u8, Vec<u8>)>,
}

/// What an owned event says.
#[verifier::ext_equal]
pub struct FidEventView {
    /// See [`FidEvent::mask`].
    pub mask: u64,
    /// See [`FidEvent::pid`].
    pub pid: i32,
    /// See [`FidEvent::path`].
    pub path: Seq<u8>,
    /// See [`FidEvent::dfid_name_handle`].
    pub dfid_name_handle: Option<Seq<u8>>,
    /// See [`FidEvent::dfid_name_filename`].
    pub dfid_name_filename: Option<Seq<char>>,
    /// See [`FidEvent::self_handle`].
    pub self_handle: Option<Seq<u8>>,
    /// See [`FidEvent::pidfd`].
    pub pidfd: Option<i32>,
    /// See [`FidEvent::fs_error`].
    pub fs_error: Option<(i32, u32)>,
    /// See [`FidEvent::rename_source`].
    pub rename_source: Option<RenameSideView>,
    /// See [`FidEvent::rename_target`].
    pub rename_target: Option<RenameSideView>,
    /// See [`FidEvent::unknown_info_records`].
    pub unknown_info_records: Seq<(u8, Seq<u8>)>,
}

/// The info records of a list, their payloads taken as sequences.
pub open spec fn record_views(records: Seq<(u8, Vec<u8>)>) -> Seq<(u8, Seq<u8>)> {
    records.map_values(|record: (u8, Vec<u8>)| (record.0, record.1@))
}

impl View for FidEvent {
    type V = FidEventView;

    closed spec fn view(&self) -> FidEventView {
        FidEventView {
            mask: self.mask,
            pid: self.pid,
            path: self.path@,
            dfid_name_handle: opt_vec(self.dfid_name_handle),
            dfid_name_filename: opt_string(self.dfid_name_filename),
            self_handle: opt_vec(self.self_handle),
            pidfd: self.pidfd,
            fs_error: self.fs_error,
            rename_source: opt_side(self.rename_source),
            rename_target: opt_side(self.rename_target),
            unknown_info_records: record_views(self.unknown_info_records@),
        }
    }
}

/// The views of a list of events.
pub open spec fn event_views(events: Seq<FidEvent>) -> Seq<FidEventView> {
    events.map_values(|event: FidEvent| event@)
}

/// Borrow an optional vector.
fn opt_borrow(bytes: &Option<Vec<u8>>) -> (r: Option<&[u8]>)
    ensures
        opt_slice(r) == opt_vec(*bytes),
{
    match bytes {
        Some(bytes) => Some(bytes.as_slice()),
        None => None,
    }
}

impl FidEvent {
    /// An event of the three basic record kinds.
    pub fn new(
        mask: u64,
        pid: i32,
        path: Vec<u8>,
        dfid_name_handle: Option<HandleKey>,
        dfid_name_filename: Option<String>,
        self_handle: Option<HandleKey>,
    ) -> (r: Self)
        ensures
            r@ == (FidEventView {
                mask,
                pid,
                path: path@,
                dfid_name_handle: opt_vec(dfid_name_handle),
                dfid_name_filename: opt_string(dfid_name_filename),
                self_handle: opt_vec(self_handle),
                pidfd: None,
                fs_error: None,
                rename_source: None,
                rename_target: None,
                unknown_info_records: Seq::empty(),
            }),
    {
        let r = FidEvent {
            mask,
            pid,
            path,
            dfid_name_handle,
            dfid_name_filename,
            self_handle,
            pidfd: None,
            fs_error: None,
            rename_source: None,
            rename_target: None,
            unknown_info_records: Vec::new(),
        };
        assert(r@.unknown_info_records =~= Seq::empty());
        r
    }

    /// Attach the number of the pidfd reported for this event.
    pub fn with_pidfd(self, pidfd: i32) -> (r: Self)
        ensures
            r@ == (FidEventView { pidfd: Some(pidfd), ..self@ }),
    {
        let mut r = self;
        r.pidfd = Some(pidfd);
        r
    }

    /// Attach the filesystem error: a negative errno, and how many errors the
    /// kernel merged into this event.
    pub fn with_fs_error(self, error: i32, error_count: u32) -> (r: Self)
        ensures
            r@ == (FidEventView { fs_error: Some((error, error_count)), ..self@ }),
    {
        let mut r = self;
        r.fs_error = Some((error, error_count));
        r
    }

    /// Attach the side a rename moved an entry from.
    pub fn with_rename_source(self, handle: HandleKey, name: String) -> (r: Self)
        ensures
            r@ == (FidEventView {
                rename_source: Some(RenameSideView { handle: handle@, name: name@ }),
                ..self@
            }),
    {
        let mut r = self;
        r.rename_source = Some(RenameSide { handle, name });
        r
    }

    /// Attach the side a rename moved an entry to.
    pub fn with_rename_target(self, handle: HandleKey, name: String) -> (r: Self)
        ensures
            r@ == (FidEventView {
                rename_target: Some(RenameSideView { handle: handle@, name: name@ }),
                ..self@
            }),
    {
        let mut r = self;
        r.rename_target = Some(RenameSide { handle, name });
        r
    }

    /// Keep an info record that has no field of its own: its type, and its body
    /// behind the header.
    pub fn push_unknown_info_record(&mut self, info_type: u8, payload: Vec<u8>)
        ensures
            final(self)@ == (FidEventView {
                unknown_info_records: old(self)@.unknown_info_records.push((info_type, payload@)),
                ..old(self)@
            }),
    {
        self.unknown_info_records.push((info_type, payload));
        assert(self@.unknown_info_records =~= old(self)@.unknown_info_records.push(
            (info_type, payload@),
        ));
    }

    /// Which events this one is about.
    pub fn mask(&self) -> (r: u64)
        ensures
            r == self@.mask,
    {
        self.mask
    }

    /// The process behind the event.
    pub fn pid(&self) -> (r: i32)
        ensures
            r == self@.pid,
    {
        self.pid
    }

    /// The path, as bytes; empty if it is not known.
    pub fn path(&self) -> (r: &[u8])
        ensures
            r@ == self@.path,
    {
        self.path.as_slice()
    }

    /// The parent directory's handle.
    pub fn dfid_name_handle(&self) -> (r: Option<&[u8]>)
        ensures
            opt_slice(r) == self@.dfid_name_handle,
    {
        opt_borrow(&self.dfid_name_handle)
    }

    /// The entry name within the parent directory.
    pub fn dfid_name_filename(&self) -> (r: Option<&str>)
        ensures
            opt_text(r) == self@.dfid_name_filename,
    {
        match &self.dfid_name_filename {
            Some(name) => Some(name.as_str()),
            None => None,
        }
    }

    /// The object's own handle.
    pub fn self_handle(&self) -> (r: Option<&[u8]>)
        ensures
            opt_slice(r) == self@.self_handle,
    {
        opt_borrow(&self.self_handle)
    }

    /// The pidfd of the process behind the event: unlike a pid it names one
    /// process only.
    pub fn pidfd(&self) -> (r: Option<i32>)
        ensures
            r == self@.pidfd,
    {
        self.pidfd
    }

    /// The pidfd's number, giving up the event.
    ///
    /// The descriptor stays its reader's, which closes it: an event and its clone
    /// name the same one, so a caller that keeps it duplicates it first.
    pub fn into_pidfd(self) -> (r: Option<i32>)
        ensures
            r == self@.pidfd,
    {
        self.pidfd
    }

    /// Leave the pidfd to the record that carries it too.
    pub(crate) fn disown_pidfd(&mut self)
        ensures
            final(self)@ == (FidEventView { pidfd: None, ..old(self)@ }),
    {
        self.pidfd = None;
    }

    /// The filesystem error and how often it occurred.
    pub fn fs_error(&self) -> (r: Option<(i32, u32)>)
        ensures
            r == self@.fs_error,
    {
        self.fs_error
    }

    /// The side a rename moved an entry from, if that side was watched.
    pub fn rename_source(&self) -> (r: Option<&RenameSide>)
        ensures
            opt_side_ref(r) == self@.rename_source,
    {
        match &self.rename_source {
            Some(side) => Some(side),
            None => None,
        }
    }

    /// The side a rename moved an entry to, if that side was watched.
    pub fn rename_target(&self) -> (r: Option<&RenameSide>)
        ensures
            opt_side_ref(r) == self@.rename_target,
    {
        match &self.rename_target {
            Some(side) => Some(side),
            None => None,
        }
    }

    /// The info records without a field of their own; an empty list means the
    /// event was understood in full.
    pub fn unknown_info_records(&self) -> (r: &[(u8, Vec<u8>)])
        ensures
            record_views(r@) == self@.unknown_info_records,
    {
        self.unknown_info_records.as_slice()
    }

    /// Whether events were lost.
    pub fn is_overflow(&self) -> (r: bool)
        ensures
            r == (self@.mask & FAN_Q_OVERFLOW != 0),
    {
        self.mask & FAN_Q_OVERFLOW != 0
    }

    /// The names of the events in the mask.
    pub fn event_names(&self) -> (r: Vec<&'static str>)
        ensures
            texts(r@) == event_names_of(self@.mask),
    {
        mask_to_event_names(self.mask)
    }

    /// Set the path.
    pub fn set_path(&mut self, path: Vec<u8>)
        ensures
            final(self)@ == (FidEventView { path: path@, ..old(self)@ }),
    {
        self.path = path;
    }

    /// Set the parent directory's handle and the entry name.
    ///
    /// This is how one event is made from another, such as the two sides of a
    /// rename, with what path resolution needs.
    pub fn set_dfid_name(&mut self, handle: HandleKey, filename: String)
        ensures
            final(self)@ == (FidEventView {
                dfid_name_handle: Some(handle@),
                dfid_name_filename: Some(filename@),
                ..old(self)@
            }),
    {
        self.dfid_name_handle = Some(handle);
        self.dfid_name_filename = Some(filename);
    }

    /// Set the object's own handle.
    pub fn set_self_handle(&mut self, handle: HandleKey)
        ensures
            final(self)@ == (FidEventView { self_handle: Some(handle@), ..old(self)@ }),
    {
        self.self_handle = Some(handle);
    }
}

/// A second optional vector with the same bytes.
fn opt_copy(bytes: &Option<Vec<u8>>) -> (r: Option<Vec<u8>>)
    ensures
        opt_vec(r) == opt_vec(*bytes),
{
    match bytes {
        Some(bytes) => Some(to_bytes(bytes.as_slice())),
        None => None,
    }
}

/// A second list of the same records.
fn copy_records(records: &Vec<(u8, Vec<u8>)>) -> (r: Vec<(u8, Vec<u8>)>)
    ensures
        record_views(r@) == record_views(records@),
{
    let mut r: Vec<(u8, Vec<u8>)> = Vec::new();
    let mut i: usize = 0;
    while i < records.len()
        invariant
            i <= records@.len(),
            r@.len() == i,
            forall|k: int|
                0 <= k < i ==> (#[trigger] r@[k]).0 == records@[k].0 && r@[k].1@ == records@[k].1@,
        decreases records@.len() - i,
    {
        r.push((records[i].0, to_bytes(records[i].1.as_slice())));
        i = i + 1;
    }
    assert(record_views(r@) =~= record_views(records@));
    r
}

impl Clone for FidEvent {
    fn clone(&self) -> (r: Self)
        ensures
            r@ == self@,
    {
        let r = FidEvent {
            mask: self.mask,
            pid: self.pid,
            path: to_bytes(self.path.as_slice()),
            dfid_name_handle: opt_copy(&self.dfid_name_handle),
            dfid_name_filename: match &self.dfid_name_filename {
                Some(name) => Some(name.as_str().to_owned()),
                None => None,
            },
            self_handle: opt_copy(&self.self_handle),
            pidfd: self.pidfd,
            fs_error: self.fs_error,
            rename_source: match &self.rename_source {
                Some(side) => Some(side.clone()),
                None => None,
            },
            rename_target: match &self.rename_target {
                Some(side) => Some(side.clone()),
                None => None,
            },
            unknown_info_records: copy_records(&self.unknown_info_records),
        };
        assert(r@ =~= self@);
        r
    }
}

/// Whether two events say the same: every field but which descriptor a pidfd is,
/// and the path by its components.
pub open spec fn same_event(a: FidEventView, b: FidEventView) -> bool {
    &&& (FidEventView { path: Seq::empty(), pidfd: None, ..a }) == (FidEventView {
        path: Seq::empty(),
        pidfd: None,
        ..b
    })
    &&& a.pidfd is Some == b.pidfd is Some
    &&& same_path(a.path, b.path)
}

/// Whether two optional handles are equal.
fn opt_same(a: &Option<Vec<u8>>, b: &Option<Vec<u8>>) -> (r: bool)
    ensures
        r == (opt_vec(*a) == opt_vec(*b)),
{
    match (a, b) {
        (Some(x), Some(y)) => same_bytes(x.as_slice(), y.as_slice()),
        (None, None) => true,
        _ => false,
    }
}

/// Whether two optional rename sides are equal.
fn same_side(a: &Option<RenameSide>, b: &Option<RenameSide>) -> (r: bool)
    ensures
        r == (opt_side(*a) == opt_side(*b)),
{
    match (a, b) {
        (Some(x), Some(y)) => x == y,
        (None, None) => true,
        _ => false,
    }
}

/// Whether two lists hold the same records.
fn same_records(a: &Vec<(u8, Vec<u8>)>, b: &Vec<(u8, Vec<u8>)>) -> (r: bool)
    ensures
        r == (record_views(a@) == record_views(b@)),
{
    proof {
        assert(record_views(a@).len() == a@.len());
        assert(record_views(b@).len() == b@.len());
    }
    if a.len() != b.len() {
        return false;
    }
    let mut i: usize = 0;
    while i < a.len()
        invariant
            i <= a@.len(),
            a@.len() == b@.len(),
            forall|k: int| 0 <= k < i ==> record_views(a@)[k] == record_views(b@)[k],
        decreases a@.len() - i,
    {
        if a[i].0 != b[i].0 || !same_bytes(a[i].1.as_slice(), b[i].1.as_slice()) {
            proof {
                assert(record_views(a@)[i as int] != record_views(b@)[i as int]);
            }
            return false;
        }
        i = i + 1;
    }
    assert(record_views(a@) =~= record_views(b@));
    true
}

impl PartialEq for FidEvent {
    /// Compares every field except the identity of the pidfd.
    ///
    /// A descriptor has no meaningful value equality, and two events that differ
    /// only in which descriptor names the process are the same event: two that
    /// both carry a pidfd are equal there.
    fn eq(&self, other: &Self) -> (r: bool) {
        let same_names = match (&self.dfid_name_filename, &other.dfid_name_filename) {
            (Some(x), Some(y)) => same_text(x.as_str(), y.as_str()),
            (None, None) => true,
            _ => false,
        };
        self.mask == other.mask && self.pid == other.pid && opt_same(
            &self.dfid_name_handle,
            &other.dfid_name_handle,
        ) && same_names && opt_same(&self.self_handle, &other.self_handle) && self.pidfd.is_some()
            == other.pidfd.is_some() && self.fs_error == other.fs_error && same_side(
            &self.rename_source,
            &other.rename_source,
        ) && same_side(&self.rename_target, &other.rename_target) && same_records(
            &self.unknown_info_records,
            &other.unknown_info_records,
        ) && paths_equal(self.path.as_slice(), other.path.as_slice())
    }
}

impl vstd::std_specs::cmp::PartialEqSpecImpl for FidEvent {
    open spec fn obeys_eq_spec() -> bool {
        true
    }

    open spec fn eq_spec(&self, other: &Self) -> bool {
        same_event(self@, other@)
    }
}

impl Eq for FidEvent {

}

/// An fd-based event with a path: a mask, a descriptor, a pid.
#[derive(Debug)]
pub struct FdEvent {
    mask: u64,
    fd: Option<i32>,
    pid: i32,
    path: Vec<u8>,
}

/// What an fd-based event with a path says.
#[verifier::ext_equal]
pub struct FdEventView {
    /// See [`FdEvent::mask`].
    pub mask: u64,
    /// See [`FdEvent::fd`].
    pub fd: Option<i32>,
    /// See [`FdEvent::pid`].
    pub pid: i32,
    /// See [`FdEvent::path`].
    pub path: Seq<u8>,
}

impl View for FdEvent {
    type V = FdEventView;

    closed spec fn view(&self) -> FdEventView {
        FdEventView { mask: self.mask, fd: self.fd, pid: self.pid, path: self.path@ }
    }
}

impl FdEvent {
    /// An event; an overflow has no descriptor.
    pub fn new(mask: u64, fd: Option<i32>, pid: i32, path: Vec<u8>) -> (r: Self)
        ensures
            r@ == (FdEventView { mask, fd, pid, path: path@ }),
    {
        FdEvent { mask, fd, pid, path }
    }

    /// Which events this one is about.
    pub fn mask(&self) -> (r: u64)
        ensures
            r == self@.mask,
    {
        self.mask
    }

    /// The descriptor of the object, if there is one.
    pub fn fd(&self) -> (r: Option<i32>)
        ensures
            r == self@.fd,
    {
        self.fd
    }

    /// The descriptor's number, giving up the event.  The descriptor stays its
    /// reader's, which closes it.
    pub fn into_fd(self) -> (r: Option<i32>)
        ensures
            r == self@.fd,
    {
        self.fd
    }

    /// The process behind the event.
    pub fn pid(&self) -> (r: i32)
        ensures
            r == self@.pid,
    {
        self.pid
    }

    /// The path of the object, as bytes.
    pub fn path(&self) -> (r: &[u8])
        ensures
            r@ == self@.path,
    {
        self.path.as_slice()
    }

    /// Whether events were lost.
    pub fn is_overflow(&self) -> (r: bool)
        ensures
            r == (self@.mask & FAN_Q_OVERFLOW != 0),
    {
        self.mask & FAN_Q_OVERFLOW != 0
    }

    /// The names of the events in the mask.
    pub fn event_names(&self) -> (r: Vec<&'static str>)
        ensures
            texts(r@) == event_names_of(self@.mask),
    {
        mask_to_event_names(self.mask)
    }
}

/// An event of a group without FID identity, with the descriptor number and the
/// path `/proc` reports for it.
#[derive(Debug)]
pub struct LegacyEvent {
    /// Which events this one is about.
    pub mask: u64,
    /// The descriptor, or a negative number if there is none.
    pub fd: i32,
    /// The process behind the event.
    pub pid: i32,
    /// The path of the object, as bytes; empty if it is not known.
    pub path: Vec<u8>,
}

impl LegacyEvent {
    /// Whether events were lost.
    pub fn is_overflow(&self) -> (r: bool)
        ensures
            r == (self.mask & FAN_Q_OVERFLOW != 0),
    {
        self.mask & FAN_Q_OVERFLOW != 0
    }

    /// The names of the events in the mask.
    pub fn event_names(&self) -> (r: Vec<&'static str>)
        ensures
            texts(r@) == event_names_of(self.mask),
    {
        mask_to_event_names(self.mask)
    }
}

/// A plain answer to a permission event: a descriptor and a decision.
#[derive(Debug, Clone, Copy, PartialEq, Eq, Structural)]
pub struct FanotifyResponse {
    fd: i32,
    response: u32,
}

impl FanotifyResponse {
    /// The descriptor this answer is about.
    pub closed spec fn spec_fd(self) -> i32 {
        self.fd
    }

    /// The decision.
    pub closed spec fn spec_response(self) -> u32 {
        self.response
    }

    /// An answer for the event that carried `fd`: `FAN_ALLOW` or `FAN_DENY`.
    pub fn new(fd: i32, response: u32) -> (r: Self)
        ensures
            r.spec_fd() == fd,
            r.spec_response() == response,
    {
        FanotifyResponse { fd, response }
    }

    /// The descriptor this answer is about.
    pub fn fd(&self) -> (r: i32)
        ensures
            r == self.spec_fd(),
    {
        self.fd
    }

    /// The decision.
    pub fn response(&self) -> (r: u32)
        ensures
            r == self.spec_response(),
    {
        self.response
    }
}

/// Recording a path unless one is known keeps every known path, and the handle
/// is known afterwards.
pub proof fn the_first_answer_stays(known: KnownHandles, key: Seq<u8>, path: Seq<u8>)
    ensures
        known.submap_of(with_first(known, key, path)),
        path_for(with_first(known, key, path), key) == (if known.dom().contains(key) {
            path_for(known, key)
        } else {
            Some(path)
        }),
{
}

/// Equality of owned events is an equivalence.
pub proof fn event_equality_is_an_equivalence(a: FidEventView, b: FidEventView, c: FidEventView)
    ensures
        same_event(a, a),
        same_event(a, b) ==> same_event(b, a),
        same_event(a, b) && same_event(b, c) ==> same_event(a, c),
{
}

/// Two owned events are equal exactly if each field of the one is that of the
/// other: a path by its components, and a pidfd by whether there is one.
pub proof fn equal_events_agree_in_every_field(a: FidEventView, b: FidEventView)
    ensures
        same_event(a, b) <==> {
            &&& a.mask == b.mask
            &&& a.pid == b.pid
            &&& crate::path::parts(a.path) == crate::path::parts(b.path)
            &&& a.dfid_name_handle == b.dfid_name_handle
            &&& a.dfid_name_filename == b.dfid_name_filename
            &&& a.self_handle == b.self_handle
            &&& (a.pidfd is Some <==> b.pidfd is Some)
            &&& a.fs_error == b.fs_error
            &&& a.rename_source == b.rename_source
            &&& a.rename_target == b.rename_target
            &&& a.unknown_info_records == b.unknown_info_records
        },
{
    let x = FidEventView { path: Seq::empty(), pidfd: None, ..a };
    let y = FidEventView { path: Seq::empty(), pidfd: None, ..b };
    if x == y {
        assert(x.mask == y.mask && x.pid == y.pid);
    }
}

/// A header that was written is read back, wherever in a buffer it stands.
pub proof fn a_header_reads_back(
    header: crate::written::Header,
    records: Seq<u8>,
    before: Seq<u8>,
    buf: &[u8],
    r: FanMetadata,
)
    requires
        crate::written::can_be_written(header, records),
        before + crate::written::event_bytes(header, records) == buf@,
        call_ensures(FanMetadata::read_at, (buf, before.len() as usize), r),
        before.len() <= usize::MAX,
    ensures
        r == (FanMetadata {
            event_len: (24 + header.extra.len() + records.len()) as u32,
            vers: header.vers,
            reserved: header.reserved,
            metadata_len: header.metadata_len,
            mask: header.mask,
            fd: header.fd,
            pid: header.pid,
        }),
{
    let s = crate::written::event_bytes(header, records);
    crate::written::header_fields(header, records);
    assert(buf@.skip(before.len() as int) =~= s);
}

/// Every question about an owned event is answered with what the event holds.
pub proof fn what_is_asked_is_what_is_held()
    ensures
        forall|event: &FidEvent, r: u64|
            #[trigger] call_ensures(FidEvent::mask, (event,), r) ==> (r == event@.mask),
        forall|event: &FidEvent, r: i32|
            #[trigger] call_ensures(FidEvent::pid, (event,), r) ==> (r == event@.pid),
        forall|event: &FidEvent, r: &[u8]|
            #[trigger] call_ensures(FidEvent::path, (event,), r) ==> (r@ == event@.path),
        forall|event: &FidEvent, r: Option<&[u8]>|
            #[trigger] call_ensures(FidEvent::dfid_name_handle, (event,), r)
                ==> (opt_slice(r) == event@.dfid_name_handle),
        forall|event: &FidEvent, r: Option<&str>|
            #[trigger] call_ensures(FidEvent::dfid_name_filename, (event,), r)
                ==> (crate::bytes::opt_text(r) == event@.dfid_name_filename),
        forall|event: &FidEvent, r: Option<&[u8]>|
            #[trigger] call_ensures(FidEvent::self_handle, (event,), r)
                ==> (opt_slice(r) == event@.self_handle),
        forall|event: &FidEvent, r: Option<i32>|
            #[trigger] call_ensures(FidEvent::pidfd, (event,), r) ==> (r == event@.pidfd),
        forall|event: &FidEvent, r: Option<(i32, u32)>|
            #[trigger] call_ensures(FidEvent::fs_error, (event,), r) ==> (r == event@.fs_error),
        forall|event: &FidEvent, r: Option<&RenameSide>|
            #[trigger] call_ensures(FidEvent::rename_source, (event,), r)
                ==> (opt_side_ref(r) == event@.rename_source),
        forall|event: &FidEvent, r: Option<&RenameSide>|
            #[trigger] call_ensures(FidEvent::rename_target, (event,), r)
                ==> (opt_side_ref(r) == event@.rename_target),
        forall|event: &FidEvent, r: bool|
            #[trigger] call_ensures(FidEvent::is_overflow, (event,), r)
                ==> (r <==> event@.mask & 0x4000 != 0),
{
}

/// An owned event is built of exactly what it is given, and each step adds its own
/// part and changes nothing else.
pub proof fn what_is_given_is_what_is_held()
    ensures
        forall|
            mask: u64,
            pid: i32,
            path: Vec<u8>,
            dir: Option<HandleKey>,
            name: Option<String>,
            own: Option<HandleKey>,
            r: FidEvent,
        |
            #[trigger] call_ensures(FidEvent::new, (mask, pid, path, dir, name, own), r) ==> r@ == (
            FidEventView {
                mask,
                pid,
                path: path@,
                dfid_name_handle: opt_vec(dir),
                dfid_name_filename: opt_string(name),
                self_handle: opt_vec(own),
                pidfd: None,
                fs_error: None,
                rename_source: None,
                rename_target: None,
                unknown_info_records: Seq::empty(),
            }),
        forall|event: FidEvent, pidfd: i32, r: FidEvent|
            #[trigger] call_ensures(FidEvent::with_pidfd, (event, pidfd), r) ==> r@ == (
            FidEventView { pidfd: Some(pidfd), ..event@ }),
        forall|event: FidEvent, error: i32, count: u32, r: FidEvent|
            #[trigger] call_ensures(FidEvent::with_fs_error, (event, error, count), r) ==> r@ == (
            FidEventView { fs_error: Some((error, count)), ..event@ }),
        forall|event: FidEvent, handle: HandleKey, name: String, r: FidEvent|
            #[trigger] call_ensures(FidEvent::with_rename_source, (event, handle, name), r) ==> r@
                == (FidEventView {
                rename_source: Some(RenameSideView { handle: handle@, name: name@ }),
                ..event@
            }),
        forall|event: FidEvent, handle: HandleKey, name: String, r: FidEvent|
            #[trigger] call_ensures(FidEvent::with_rename_target, (event, handle, name), r) ==> r@
                == (FidEventView {
                rename_target: Some(RenameSideView { handle: handle@, name: name@ }),
                ..event@
            }),
        forall|event: &mut FidEvent, info_type: u8, payload: Vec<u8>|
            #[trigger] call_ensures(
                FidEvent::push_unknown_info_record,
                (event, info_type, payload),
                (),
            ) ==> final(event)@ == (FidEventView {
                unknown_info_records: (*event)@.unknown_info_records.push((info_type, payload@)),
                ..(*event)@
            }),
        forall|event: &mut FidEvent, path: Vec<u8>|
            #[trigger] call_ensures(FidEvent::set_path, (event, path), ()) ==> final(event)@ == (
            FidEventView { path: path@, ..(*event)@ }),
        forall|event: &mut FidEvent, handle: HandleKey, name: String|
            #[trigger] call_ensures(FidEvent::set_dfid_name, (event, handle, name), ())
                ==> final(event)@
                == (FidEventView {
                dfid_name_handle: Some(handle@),
                dfid_name_filename: Some(name@),
                ..(*event)@
            }),
        forall|event: &mut FidEvent, handle: HandleKey|
            #[trigger] call_ensures(FidEvent::set_self_handle, (event, handle), ())
                ==> final(event)@
                == (FidEventView { self_handle: Some(handle@), ..(*event)@ }),
{
}

/// An event with a descriptor says what it was built of, and so does a plain answer.
pub proof fn a_plain_value_says_what_it_was_built_of()
    ensures
        forall|mask: u64, fd: Option<i32>, pid: i32, path: Vec<u8>, r: FdEvent|
            #[trigger] call_ensures(FdEvent::new, (mask, fd, pid, path), r) ==> r@ == (
            FdEventView { mask, fd, pid, path: path@ }),
        forall|event: &FdEvent, r: u64|
            #[trigger] call_ensures(FdEvent::mask, (event,), r) ==> r == event@.mask,
        forall|event: &FdEvent, r: Option<i32>|
            #[trigger] call_ensures(FdEvent::fd, (event,), r) ==> r == event@.fd,
        forall|event: &FdEvent, r: i32|
            #[trigger] call_ensures(FdEvent::pid, (event,), r) ==> r == event@.pid,
        forall|event: &FdEvent, r: &[u8]|
            #[trigger] call_ensures(FdEvent::path, (event,), r) ==> r@ == event@.path,
        forall|event: &FdEvent, r: bool|
            #[trigger] call_ensures(FdEvent::is_overflow, (event,), r) ==> (r <==> event@.mask
                & 0x4000 != 0),
        forall|event: &LegacyEvent, r: bool|
            #[trigger] call_ensures(LegacyEvent::is_overflow, (event,), r) ==> (r <==> event.mask
                & 0x4000 != 0),
        forall|fd: i32, word: u32, answer: FanotifyResponse, r: i32|
            #[trigger] call_ensures(FanotifyResponse::new, (fd, word), answer)
                && #[trigger] call_ensures(FanotifyResponse::fd, (&answer,), r) ==> r == fd,
        forall|fd: i32, word: u32, answer: FanotifyResponse, r: u32|
            #[trigger] call_ensures(FanotifyResponse::new, (fd, word), answer)
                && #[trigger] call_ensures(FanotifyResponse::response, (&answer,), r) ==> r == word,
{
}

/// The first path recorded for a handle stays its answer, and no other handle is
/// touched.
pub proof fn the_first_path_is_kept()
    ensures
        forall|cache: &mut HandleCache, key: &[u8], path: &[u8], other: Seq<u8>|
            #[trigger] call_ensures(HandleCache::or_insert, (cache, key, path), ()) ==> {
                &&& (#[trigger] final(cache)@.dom().contains(other) <==> (*cache)@.dom().contains(
                    other,
                ) || other == key@)
                &&& (*cache)@.dom().contains(other) ==> final(cache)@[other] == (*cache)@[other]
                &&& !(*cache)@.dom().contains(other) && other == key@ ==> final(cache)@[other]
                    == path@
            },
        forall|cache: &HandleCache, key: &[u8], r: Option<&[u8]>|
            #[trigger] call_ensures(HandleCache::path_of, (cache, key), r) ==> match r {
                Some(path) => cache@.dom().contains(key@) && path@ == cache@[key@],
                None => !cache@.dom().contains(key@),
            },
        forall|cache: &HandleCache, r: usize|
            #[trigger] call_ensures(HandleCache::len, (cache,), r) ==> r == cache@.dom().len(),
{
}

/// The kept records of an owned event are given back as they are held, and so are
/// the handle and the name of a rename's side.
pub proof fn what_is_kept_is_given_back()
    ensures
        forall|event: &FidEvent, r: &[(u8, Vec<u8>)]|
            #[trigger] call_ensures(FidEvent::unknown_info_records, (event,), r) ==> r@.len()
                == event@.unknown_info_records.len() && forall|i: int|
                0 <= i < r@.len() ==> (#[trigger] r@[i]).0 == event@.unknown_info_records[i].0
                    && r@[i].1@ == event@.unknown_info_records[i].1,
{
    assert forall|event: &FidEvent, r: &[(u8, Vec<u8>)]|
        #[trigger] call_ensures(FidEvent::unknown_info_records, (event,), r) implies r@.len()
        == event@.unknown_info_records.len() && forall|i: int|
        0 <= i < r@.len() ==> (#[trigger] r@[i]).0 == event@.unknown_info_records[i].0 && r@[i].1@
            == event@.unknown_info_records[i].1 by {
        assert forall|i: int| 0 <= i < r@.len() implies (#[trigger] r@[i]).0
            == event@.unknown_info_records[i].0 && r@[i].1@ == event@.unknown_info_records[i].1 by {
            assert(record_views(r@)[i] == (r@[i].0, r@[i].1@));
        }
    }
}

/// A list of events is taken by what each of them says, in their order; and a side
/// and a text that are there are taken by what they hold.
pub proof fn a_list_is_taken_event_by_event(
    events: Seq<FidEvent>,
    i: int,
    side: RenameSide,
    text: String,
)
    requires
        0 <= i < events.len(),
    ensures
        event_views(events).len() == events.len(),
        event_views(events)[i] == events[i]@,
        opt_side(Some(side)) == Some(side@),
        opt_side_ref(Some(&side)) == Some(side@),
        opt_string(Some(text)) == Some(text@),
        opt_side(None) is None,
        opt_side_ref(None) is None,
        opt_string(None) is None,
{
}

/// A copy of an owned event says what the event says.
pub proof fn a_copy_says_the_same()
    ensures
        forall|event: &FidEvent, r: FidEvent|
            #[trigger] call_ensures(FidEvent::clone, (event,), r) ==> r@ == event@,
        forall|side: &RenameSide, r: RenameSide|
            #[trigger] call_ensures(RenameSide::clone, (side,), r) ==> r@ == side@,
{
}

/// The names of an event are those of its mask, whatever kind of event it is.
pub proof fn an_event_is_named_by_its_mask()
    ensures
        forall|event: &FidEvent, r: Vec<&'static str>|
            #[trigger] call_ensures(FidEvent::event_names, (event,), r) ==> texts(r@)
                == event_names_of(event@.mask),
        forall|event: &FdEvent, r: Vec<&'static str>|
            #[trigger] call_ensures(FdEvent::event_names, (event,), r) ==> texts(r@)
                == event_names_of(event@.mask),
        forall|event: &LegacyEvent, r: Vec<&'static str>|
            #[trigger] call_ensures(LegacyEvent::event_names, (event,), r) ==> texts(r@)
                == event_names_of(event.mask),
{
}

} // verus!
