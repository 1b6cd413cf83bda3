//! What is already known about handles.
//!
//! A handle costs a privileged `open_by_handle_at` plus a `readlink` to become a
//! path, and an event stream asks about the same directory handle again and
//! again.  A store is where the answers live between calls.
//!
//! The key is the **pair** of fsid and handle: handle bytes are only meaningful
//! together with their filesystem, and two filesystems really do hand out the
//! same bytes for different objects.
use vstd::prelude::*;

use crate::bytes::{opt_slice, opt_vec};
use crate::wire::{same_bytes, to_bytes};

verus! {

/// A filesystem id, as a FID info record reports it: the two `int`s of
/// `statfs(2)`'s `f_fsid`.
///
/// **No value is reserved**: `(0, 0)` is a filesystem that reports zero, not a
/// missing one.
pub type Fsid = (i32, i32);

/// A raw file handle: the bytes of `struct file_handle`, header included.
pub type FileHandle = Vec<u8>;

/// Which handle, on which filesystem.
pub type HandleKeyView = (Fsid, Seq<u8>);

/// What a store holds: a path for each handle it knows.
pub type KnownPaths = Map<HandleKeyView, Seq<u8>>;

/// What is known for a handle.
pub open spec fn lookup(known: KnownPaths, fsid: Fsid, handle: Seq<u8>) -> Option<Seq<u8>> {
    if known.dom().contains((fsid, handle)) {
        Some(known[(fsid, handle)])
    } else {
        None
    }
}

/// Whether recording `path` for `key` may lead from what was known `before` to
/// what is known `after`: nothing but that path is added, and nothing is lost if
/// the store keeps everything.
pub open spec fn recorded(
    before: KnownPaths,
    after: KnownPaths,
    key: HandleKeyView,
    path: Seq<u8>,
    keeps_all: bool,
) -> bool {
    &&& after.submap_of(before.insert(key, path))
    &&& keeps_all ==> after == before.insert(key, path)
}

/// Whether a lookup may leave `after` of what was known `before`: nothing is
/// added, and nothing is lost if the store keeps everything.
pub open spec fn left_by_lookup(before: KnownPaths, after: KnownPaths, keeps_all: bool) -> bool {
    &&& after.submap_of(before)
    &&& keeps_all ==> after == before
}

/// What a caller already knows about handles, kept across calls.
///
/// It holds what the kernel said and nothing else: an unlinked object is stored
/// with the marker `/proc` appends.
///
/// Implement it to bound the cache, to share it, to persist it, or to keep
/// nothing at all ([`NoCache`]).  A store may decline to keep what it is given
/// and may drop what it holds, at a lookup too, so a miss costs a privileged call;
/// it never answers with anything but what was recorded for that very handle.
pub trait PathStore {
    /// What a lookup is answered from.
    spec fn known(&self) -> KnownPaths;

    /// Whether the store keeps everything it is given until it is forgotten.
    spec fn keeps_all() -> bool;

    /// The path already known for this handle, if any.
    ///
    /// Takes `&mut self`: a hit is what updates a recency, an expiry or a counter,
    /// so a lookup may write.  The answer is what the store knows once the lookup
    /// has dropped what expired.
    fn get(&mut self, fsid: Fsid, handle: &[u8]) -> (r: Option<Vec<u8>>)
        ensures
            opt_vec(r) == lookup(final(self).known(), fsid, handle@),
            left_by_lookup(old(self).known(), final(self).known(), Self::keeps_all()),
    ;

    /// Record a path for this handle, in place of any recorded before.
    fn insert(&mut self, fsid: Fsid, handle: &[u8], path: &[u8])
        ensures
            recorded(
                old(self).known(),
                final(self).known(),
                (fsid, handle@),
                path@,
                Self::keeps_all(),
            ),
    ;

    /// Drop what is known about this handle, so that the next lookup asks the
    /// filesystem again.
    fn forget(&mut self, fsid: Fsid, handle: &[u8])
        ensures
            final(self).known().submap_of(old(self).known().remove((fsid, handle@))),
            Self::keeps_all() ==> final(self).known() == old(self).known().remove((fsid, handle@)),
    ;
}

/// A handle of one filesystem and its path.
#[derive(Debug)]
struct Entry {
    handle: FileHandle,
    path: Vec<u8>,
}

/// The handles known on one filesystem.
#[derive(Debug)]
struct Level {
    fsid: Fsid,
    handles: Vec<Entry>,
}

/// The store this crate uses when the caller has no reason to choose one.
///
/// Two levels, the outer by filesystem and the inner by handle bytes.  It is
/// unbounded: a bound would be a guess that silently discards knowledge.
#[derive(Debug)]
pub struct HandleCache {
    by_filesystem: Vec<Level>,
}

/// Whether the entry at `(i, j)` is the one for `key`.
spec fn holds_at(levels: Seq<Level>, i: int, j: int, key: HandleKeyView) -> bool {
    &&& 0 <= i < levels.len()
    &&& 0 <= j < levels[i].handles@.len()
    &&& levels[i].fsid == key.0
    &&& levels[i].handles@[j].handle@ == key.1
}

/// What levels hold, as a map.
spec fn known_in(levels: Seq<Level>) -> KnownPaths {
    Map::new(
        |key: HandleKeyView| exists|i: int, j: int| holds_at(levels, i, j, key),
        |key: HandleKeyView|
            {
                let (i, j) = choose|i: int, j: int| holds_at(levels, i, j, key);
                levels[i].handles@[j].path@
            },
    )
}

/// Whether the handles of a level are distinct.
spec fn distinct_handles(handles: Seq<Entry>) -> bool {
    forall|a: int, b: int|
        0 <= a < b < handles.len() ==> (#[trigger] handles[a]).handle@ != (
        #[trigger] handles[b]).handle@
}

/// Whether no filesystem has two levels.
spec fn distinct_levels(levels: Seq<Level>) -> bool {
    forall|a: int, b: int|
        0 <= a < b < levels.len() ==> (#[trigger] levels[a]).fsid != (#[trigger] levels[b]).fsid
}

/// No filesystem has two levels, no level is empty, and no level holds a handle
/// twice.
spec fn levels_are_sound(levels: Seq<Level>) -> bool {
    &&& distinct_levels(levels)
    &&& forall|i: int|
        0 <= i < levels.len() ==> (#[trigger] levels[i]).handles@.len() > 0 && distinct_handles(
            levels[i].handles@,
        )
}

/// The entry at a place is what the map holds for its key.
proof fn known_at(levels: Seq<Level>, i: int, j: int)
    requires
        levels_are_sound(levels),
        0 <= i < levels.len(),
        0 <= j < levels[i].handles@.len(),
    ensures
        known_in(levels).dom().contains((levels[i].fsid, levels[i].handles@[j].handle@)),
        known_in(levels)[(levels[i].fsid, levels[i].handles@[j].handle@)]
            == levels[i].handles@[j].path@,
{
    let key = (levels[i].fsid, levels[i].handles@[j].handle@);
    assert(holds_at(levels, i, j, key));
    let (a, b) = choose|a: int, b: int| holds_at(levels, a, b, key);
    assert(holds_at(levels, a, b, key));
    assert(a == i) by {
        if a < i {
            assert(levels[a].fsid != levels[i].fsid);
        } else if i < a {
            assert(levels[i].fsid != levels[a].fsid);
        }
    }
    let handles = levels[i].handles@;
    assert(b == j) by {
        assert(distinct_handles(handles));
        if b < j {
            assert(handles[b].handle@ != handles[j].handle@);
        } else if j < b {
            assert(handles[j].handle@ != handles[b].handle@);
        }
    }
}

/// How many handles levels hold.
spec fn total(levels: Seq<Level>) -> nat
    decreases levels.len(),
{
    if levels.len() == 0 {
        0
    } else {
        total(levels.drop_last()) + levels.last().handles@.len()
    }
}

/// The keys of one level, in order.
spec fn level_keys(level: Level) -> Seq<HandleKeyView> {
    level.handles@.map_values(|e: Entry| (level.fsid, e.handle@))
}

/// The map holds as many handles as the levels do.
proof fn known_has_total(levels: Seq<Level>)
    requires
        levels_are_sound(levels),
    ensures
        known_in(levels).dom().finite(),
        known_in(levels).dom().len() == total(levels),
    decreases levels.len(),
{
    let dom = known_in(levels).dom();
    if levels.len() == 0 {
        assert(dom =~= Set::<HandleKeyView>::empty());
    } else {
        let init = levels.drop_last();
        let last = levels.last();
        assert(last == levels[levels.len() - 1]);
        assert(levels_are_sound(init)) by {
            assert forall|i: int| 0 <= i < init.len() implies (#[trigger] init[i]).handles@.len()
                > 0 && distinct_handles(init[i].handles@) by {
                assert(init[i] == levels[i]);
            }
            assert forall|a: int, b: int| 0 <= a < b < init.len() implies (#[trigger] init[a]).fsid
                != (#[trigger] init[b]).fsid by {
                assert(init[a] == levels[a] && init[b] == levels[b]);
            }
        }
        known_has_total(init);
        let keys = level_keys(last);
        assert(keys.no_duplicates()) by {
            assert forall|a: int, b: int|
                0 <= a < keys.len() && 0 <= b < keys.len() && a != b implies keys[a]
                != keys[b] by {
                let handles = last.handles@;
                assert(distinct_handles(handles));
                if a < b {
                    assert(handles[a].handle@ != handles[b].handle@);
                } else {
                    assert(handles[b].handle@ != handles[a].handle@);
                }
            }
        }
        keys.unique_seq_to_set();
        vstd::seq_lib::seq_to_set_is_finite(keys);
        let before = known_in(init).dom();
        assert forall|key: HandleKeyView| #[trigger] dom.contains(key) == (before + keys.to_set()).contains(
        key) by {
            if dom.contains(key) {
                let (i, j) = choose|i: int, j: int| holds_at(levels, i, j, key);
                if i < init.len() {
                    assert(holds_at(init, i, j, key));
                } else {
                    assert(keys[j] == key);
                }
            }
            if before.contains(key) {
                let (i, j) = choose|i: int, j: int| holds_at(init, i, j, key);
                assert(holds_at(levels, i, j, key));
            }
            if keys.to_set().contains(key) {
                let j = choose|j: int| 0 <= j < keys.len() && keys[j] == key;
                assert(holds_at(levels, levels.len() - 1, j, key));
            }
        }
        assert(dom =~= before + keys.to_set());
        assert(before.disjoint(keys.to_set())) by {
            assert forall|key: HandleKeyView| before.contains(key) && keys.to_set().contains(
                key,
            ) implies false by {
                let (i, j) = choose|i: int, j: int| holds_at(init, i, j, key);
                let k = choose|k: int| 0 <= k < keys.len() && keys[k] == key;
                assert(levels[i].fsid != levels[levels.len() - 1].fsid);
            }
        }
        vstd::set_lib::lemma_set_disjoint_lens(before, keys.to_set());
    }
}

/// The filesystems that a map knows a handle of.
pub open spec fn filesystems_of(known: KnownPaths) -> Set<Fsid> {
    known.dom().map(|key: HandleKeyView| key.0)
}

impl View for HandleCache {
    type V = KnownPaths;

    closed spec fn view(&self) -> KnownPaths {
        known_in(self.by_filesystem@)
    }
}

impl HandleCache {
    #[verifier::type_invariant]
    spec fn inv(&self) -> bool {
        levels_are_sound(self.by_filesystem@)
    }

    /// A cache that knows nothing.
    pub fn new() -> (r: Self)
        ensures
            r@ == Map::<HandleKeyView, Seq<u8>>::empty(),
    {
        let r = HandleCache { by_filesystem: Vec::new() };
        assert(r@ =~= Map::<HandleKeyView, Seq<u8>>::empty());
        r
    }

    /// How many handles are known, across every filesystem, as far as the result
    /// can say it.
    pub fn len(&self) -> (r: usize)
        ensures
            self@.dom().finite(),
            r == (if self@.dom().len() <= usize::MAX {
                self@.dom().len() as int
            } else {
                usize::MAX as int
            }),
    {
        proof {
            use_type_invariant(self);
            known_has_total(self.by_filesystem@);
        }
        let mut count: usize = 0;
        let mut i: usize = 0;
        while i < self.by_filesystem.len()
            invariant
                i <= self.by_filesystem@.len(),
                count == (if total(self.by_filesystem@.take(i as int)) <= usize::MAX {
                    total(self.by_filesystem@.take(i as int)) as int
                } else {
                    usize::MAX as int
                }),
            decreases self.by_filesystem@.len() - i,
        {
            let ghost levels = self.by_filesystem@;
            proof {
                assert(levels.take(i + 1).drop_last() =~= levels.take(i as int));
                assert(levels.take(i + 1).last() == levels[i as int]);
            }
            count = count.saturating_add(self.by_filesystem[i].handles.len());
            i = i + 1;
        }
        proof {
            assert(self.by_filesystem@.take(i as int) =~= self.by_filesystem@);
        }
        count
    }

    /// Whether nothing is known.
    pub fn is_empty(&self) -> (r: bool)
        ensures
            r == (self@ == Map::<HandleKeyView, Seq<u8>>::empty()),
    {
        proof {
            use_type_invariant(self);
            if self.by_filesystem@.len() > 0 {
                known_at(self.by_filesystem@, 0, 0);
            } else {
                assert(self@ =~= Map::<HandleKeyView, Seq<u8>>::empty());
            }
        }
        self.by_filesystem.len() == 0
    }

    /// How many filesystems have at least one handle recorded.
    pub fn filesystems(&self) -> (r: usize)
        ensures
            filesystems_of(self@).finite(),
            r == filesystems_of(self@).len(),
    {
        proof {
            use_type_invariant(self);
            let levels = self.by_filesystem@;
            let fsids = levels.map_values(|level: Level| level.fsid);
            assert(fsids.no_duplicates()) by {
                assert forall|a: int, b: int|
                    0 <= a < fsids.len() && 0 <= b < fsids.len() && a != b implies fsids[a]
                    != fsids[b] by {
                    if a < b {
                        assert(levels[a].fsid != levels[b].fsid);
                    } else {
                        assert(levels[b].fsid != levels[a].fsid);
                    }
                }
            }
            fsids.unique_seq_to_set();
            vstd::seq_lib::seq_to_set_is_finite(fsids);
            assert forall|fsid: Fsid| #[trigger] filesystems_of(self@).contains(fsid)
                == fsids.to_set().contains(fsid) by {
                if filesystems_of(self@).contains(fsid) {
                    let key = choose|key: HandleKeyView|
                        self@.dom().contains(key) && key.0 == fsid;
                    let (i, j) = choose|i: int, j: int| holds_at(levels, i, j, key);
                    assert(fsids[i] == fsid);
                }
                if fsids.to_set().contains(fsid) {
                    let i = choose|i: int| 0 <= i < fsids.len() && fsids[i] == fsid;
                    assert(levels[i].handles@.len() > 0);
                    known_at(levels, i, 0);
                    let key = (levels[i].fsid, levels[i].handles@[0].handle@);
                    assert(self@.dom().contains(key) && key.0 == fsid);
                }
            }
            assert(filesystems_of(self@) =~= fsids.to_set());
        }
        self.by_filesystem.len()
    }

    /// Where the level of a filesystem is.
    fn level_of(&self, fsid: Fsid) -> (r: Option<usize>)
        ensures
            match r {
                Some(i) => i < self.by_filesystem@.len() && self.by_filesystem@[i as int].fsid
                    == fsid,
                None => forall|i: int|
                    0 <= i < self.by_filesystem@.len() ==> (
                    #[trigger] self.by_filesystem@[i]).fsid != fsid,
            },
    {
        let mut i: usize = 0;
        while i < self.by_filesystem.len()
            invariant
                i <= self.by_filesystem@.len(),
                forall|k: int| 0 <= k < i ==> (#[trigger] self.by_filesystem@[k]).fsid != fsid,
            decreases self.by_filesystem@.len() - i,
        {
            let found = self.by_filesystem[i].fsid;
            if found.0 == fsid.0 && found.1 == fsid.1 {
                return Some(i);
            }
            i = i + 1;
        }
        None
    }

    /// The path known for this handle, **borrowed**: a hit allocates nothing.
    pub fn path_of(&self, fsid: Fsid, handle: &[u8]) -> (r: Option<&[u8]>)
        ensures
            opt_slice(r) == lookup(self@, fsid, handle@),
    {
        proof {
            use_type_invariant(self);
        }
        let i: usize = match self.level_of(fsid) {
            Some(i) => i,
            None => {
                return None;
            },
        };
        let level = &self.by_filesystem[i];
        match entry_of(&level.handles, handle) {
            Some(j) => {
                proof {
                    known_at(self.by_filesystem@, i as int, j as int);
                }
                Some(level.handles[j].path.as_slice())
            },
            None => {
                proof {
                    let levels = self.by_filesystem@;
                    assert forall|a: int, b: int| !holds_at(levels, a, b, (fsid, handle@)) by {
                        if holds_at(levels, a, b, (fsid, handle@)) {
                            if a < i {
                                assert(levels[a].fsid != levels[i as int].fsid);
                            } else if i < a {
                                assert(levels[i as int].fsid != levels[a].fsid);
                            }
                            assert(levels[i as int].handles@[b].handle@ == handle@);
                        }
                    }
                }
                None
            },
        }
    }

    /// Forget every handle of one filesystem, the way
    /// [`forget`](PathStore::forget) forgets one.
    pub fn forget_filesystem(&mut self, fsid: Fsid)
        ensures
            final(self)@ == old(self)@.remove_keys(
                Set::new(|key: HandleKeyView| key.0 == fsid),
            ),
    {
        proof {
            use_type_invariant(&*self);
        }
        let ghost before = self.by_filesystem@;
        let ghost gone = Set::new(|key: HandleKeyView| key.0 == fsid);
        match self.level_of(fsid) {
            Some(i) => {
                let mut levels: Vec<Level> = Vec::new();
                std::mem::swap(&mut levels, &mut self.by_filesystem);
                levels.remove(i);
                proof {
                    removing_a_level(before, i as int);
                    assert(known_in(levels@) =~= known_in(before).remove_keys(gone));
                }
                self.by_filesystem = levels;
            },
            None => {
                proof {
                    assert(known_in(before).remove_keys(gone) =~= known_in(before));
                }
            },
        }
    }

    /// Drop everything, keeping the outer level's allocation for reuse.
    pub fn clear(&mut self)
        ensures
            final(self)@ == Map::<HandleKeyView, Seq<u8>>::empty(),
    {
        let mut levels: Vec<Level> = Vec::new();
        std::mem::swap(&mut levels, &mut self.by_filesystem);
        levels.clear();
        self.by_filesystem = levels;
        assert(self@ =~= Map::<HandleKeyView, Seq<u8>>::empty());
    }

    /// Every entry, once, for inspection or persistence.
    pub fn iter(&self) -> (r: Vec<(Fsid, &[u8], &[u8])>)
        ensures
            is_listing(r@, self@),
            self@.dom().finite(),
            r@.len() == self@.dom().len(),
    {
        proof {
            use_type_invariant(self);
            known_has_total(self.by_filesystem@);
        }
        let mut r: Vec<(Fsid, &[u8], &[u8])> = Vec::new();
        let mut i: usize = 0;
        while i < self.by_filesystem.len()
            invariant
                levels_are_sound(self.by_filesystem@),
                i <= self.by_filesystem@.len(),
                listed(self.by_filesystem@, r@, i as int, 0),
            decreases self.by_filesystem@.len() - i,
        {
            let level = &self.by_filesystem[i];
            let mut j: usize = 0;
            while j < level.handles.len()
                invariant
                    levels_are_sound(self.by_filesystem@),
                    i < self.by_filesystem@.len(),
                    *level == self.by_filesystem@[i as int],
                    j <= level.handles@.len(),
                    listed(self.by_filesystem@, r@, i as int, j as int),
                decreases level.handles@.len() - j,
            {
                let entry = &level.handles[j];
                let ghost before = r@;
                r.push((level.fsid, entry.handle.as_slice(), entry.path.as_slice()));
                proof {
                    listing_one_more(self.by_filesystem@, before, i as int, j as int, r@);
                }
                j = j + 1;
            }
            proof {
                let levels = self.by_filesystem@;
                assert(levels.take(i + 1).drop_last() =~= levels.take(i as int));
                assert(levels.take(i + 1).last() == levels[i as int]);
                assert forall|k: int| 0 <= k < r@.len() implies listed_before(
                    levels,
                    #[trigger] r@[k],
                    i + 1,
                    0,
                ) by {
                    assert(listed_before(levels, r@[k], i as int, j as int));
                }
            }
            i = i + 1;
        }
        proof {
            let levels = self.by_filesystem@;
            assert(levels.take(i as int) =~= levels);
            assert forall|k: int| 0 <= k < r@.len() implies lookup(
                self@,
                (#[trigger] r@[k]).0,
                r@[k].1@,
            ) == Some(r@[k].2@) by {
                assert(listed_before(levels, r@[k], i as int, 0));
                let (a, b) = choose|a: int, b: int|
                    entry_is(levels, a, b, r@[k]) && (a < i || a == i && b < 0);
                known_at(levels, a, b);
            }
            assert forall|key: HandleKeyView| #[trigger]
                self@.dom().contains(key) implies listing_has(r@, key) by {
                let (a, b) = choose|a: int, b: int| holds_at(levels, a, b, key);
                assert(holds_at(levels, a, b, key));
            }
        }
        r
    }
}

/// Whether `list` holds each entry of `known` exactly once, and nothing else.
pub open spec fn is_listing(list: Seq<(Fsid, &[u8], &[u8])>, known: KnownPaths) -> bool {
    &&& forall|k: int|
        0 <= k < list.len() ==> lookup(known, (#[trigger] list[k]).0, list[k].1@) == Some(
            list[k].2@,
        )
    &&& forall|k: int, l: int|
        0 <= k < l < list.len() ==> ((#[trigger] list[k]).0, list[k].1@) != ((
        #[trigger] list[l]).0, list[l].1@)
    &&& forall|key: HandleKeyView| #[trigger]
        known.dom().contains(key) ==> listing_has(list, key)
}

/// Whether `list` has an entry for `key`.
pub open spec fn listing_has(list: Seq<(Fsid, &[u8], &[u8])>, key: HandleKeyView) -> bool {
    exists|k: int| 0 <= k < list.len() && (#[trigger] list[k]).0 == key.0 && list[k].1@ == key.1
}

/// Whether a listed entry is the one at `(a, b)`.
spec fn entry_is(levels: Seq<Level>, a: int, b: int, item: (Fsid, &[u8], &[u8])) -> bool {
    &&& 0 <= a < levels.len()
    &&& 0 <= b < levels[a].handles@.len()
    &&& item.0 == levels[a].fsid
    &&& item.1@ == levels[a].handles@[b].handle@
    &&& item.2@ == levels[a].handles@[b].path@
}

/// Whether a listed entry is one of those before `(i, j)`.
spec fn listed_before(levels: Seq<Level>, item: (Fsid, &[u8], &[u8]), i: int, j: int) -> bool {
    exists|a: int, b: int| entry_is(levels, a, b, item) && (a < i || a == i && b < j)
}

/// Whether `list` holds, once each, the entries before `(i, j)`.
spec fn listed(levels: Seq<Level>, list: Seq<(Fsid, &[u8], &[u8])>, i: int, j: int) -> bool {
    &&& list.len() == total(levels.take(i)) + j
    &&& forall|k: int| 0 <= k < list.len() ==> listed_before(levels, #[trigger] list[k], i, j)
    &&& forall|a: int, b: int, key: HandleKeyView| #[trigger]
        holds_at(levels, a, b, key) && (a < i || a == i && b < j) ==> listing_has(list, key)
    &&& forall|k: int, l: int|
        0 <= k < l < list.len() ==> ((#[trigger] list[k]).0, list[k].1@) != ((
        #[trigger] list[l]).0, list[l].1@)
}

/// Listing the next entry keeps a listing sound.
proof fn listing_one_more(
    levels: Seq<Level>,
    before: Seq<(Fsid, &[u8], &[u8])>,
    i: int,
    j: int,
    after: Seq<(Fsid, &[u8], &[u8])>,
)
    requires
        levels_are_sound(levels),
        0 <= i < levels.len(),
        0 <= j < levels[i].handles@.len(),
        listed(levels, before, i, j),
        after.len() == before.len() + 1,
        forall|k: int| 0 <= k < before.len() ==> after[k] == before[k],
        entry_is(levels, i, j, after[before.len() as int]),
    ensures
        listed(levels, after, i, j + 1),
{
    assert forall|k: int| 0 <= k < after.len() implies listed_before(
        levels,
        #[trigger] after[k],
        i,
        j + 1,
    ) by {
        if k < before.len() {
            assert(listed_before(levels, before[k], i, j));
        }
    }
    assert forall|a: int, b: int, key: HandleKeyView| #[trigger]
        holds_at(levels, a, b, key) && (a < i || a == i && b < j + 1) implies listing_has(
        after,
        key,
    ) by {
        if a < i || b < j {
            assert(listing_has(before, key));
            let k = choose|k: int|
                0 <= k < before.len() && (#[trigger] before[k]).0 == key.0 && before[k].1@ == key.1;
            assert(after[k] == before[k]);
        } else {
            assert(after[before.len() as int].0 == key.0);
        }
    }
    assert forall|k: int, l: int| 0 <= k < l < after.len() implies ((#[trigger] after[k]).0,
        after[k].1@) != ((#[trigger] after[l]).0, after[l].1@) by {
        if l == before.len() {
            assert(listed_before(levels, before[k], i, j));
            let (a, b) = choose|a: int, b: int|
                entry_is(levels, a, b, before[k]) && (a < i || a == i && b < j);
            if a < i {
                assert(levels[a].fsid != levels[i].fsid);
            } else {
                assert(distinct_handles(levels[i].handles@));
                assert(levels[i].handles@[b].handle@ != levels[i].handles@[j].handle@);
            }
        } else {
            assert(after[k] == before[k] && after[l] == before[l]);
        }
    }
}

/// Where the entry of a handle is in a level.
fn entry_of(handles: &Vec<Entry>, handle: &[u8]) -> (r: Option<usize>)
    ensures
        match r {
            Some(j) => j < handles@.len() && handles@[j as int].handle@ == handle@,
            None => forall|j: int|
                0 <= j < handles@.len() ==> (#[trigger] handles@[j]).handle@ != handle@,
        },
{
    let mut j: usize = 0;
    while j < handles.len()
        invariant
            j <= handles@.len(),
            forall|k: int| 0 <= k < j ==> (#[trigger] handles@[k]).handle@ != handle@,
        decreases handles@.len() - j,
    {
        if same_bytes(handles[j].handle.as_slice(), handle) {
            return Some(j);
        }
        j = j + 1;
    }
    None
}

/// Removing a level removes its filesystem's handles and nothing else.
proof fn removing_a_level(levels: Seq<Level>, i: int)
    requires
        levels_are_sound(levels),
        0 <= i < levels.len(),
    ensures
        levels_are_sound(levels.remove(i)),
        known_in(levels.remove(i)) == known_in(levels).remove_keys(
            Set::new(|key: HandleKeyView| key.0 == levels[i].fsid),
        ),
{
    let after = levels.remove(i);
    let gone = Set::new(|key: HandleKeyView| key.0 == levels[i].fsid);
    let expected = known_in(levels).remove_keys(gone);
    assert forall|k: int| 0 <= k < after.len() implies #[trigger] after[k] == levels[if k < i {
        k
    } else {
        k + 1
    }] by {}
    assert(levels_are_sound(after));
    assert forall|key: HandleKeyView| #[trigger]
        known_in(after).dom().contains(key) == expected.dom().contains(key) by {
        if known_in(after).dom().contains(key) {
            let (a, b) = choose|a: int, b: int| holds_at(after, a, b, key);
            let c = if a < i {
                a
            } else {
                a + 1
            };
            assert(holds_at(levels, c, b, key));
            if c < i {
                assert(levels[c].fsid != levels[i].fsid);
            } else {
                assert(levels[i].fsid != levels[c].fsid);
            }
        }
        if expected.dom().contains(key) {
            let (a, b) = choose|a: int, b: int| holds_at(levels, a, b, key);
            let c = if a < i {
                a
            } else {
                a - 1
            };
            assert(holds_at(after, c, b, key));
        }
    }
    assert forall|key: HandleKeyView| known_in(after).dom().contains(key) implies known_in(
        after,
    )[key] == #[trigger] expected[key] by {
        let (a, b) = choose|a: int, b: int| holds_at(after, a, b, key);
        known_at(after, a, b);
        known_at(
            levels,
            if a < i {
                a
            } else {
                a + 1
            },
            b,
        );
    }
    assert(known_in(after) =~= expected);
}

/// Recording a path for a key changes the map at that key and nowhere else, if
/// every other entry stays where it was.
proof fn recording_a_path(
    before: Seq<Level>,
    after: Seq<Level>,
    i: int,
    j: int,
    key: HandleKeyView,
    path: Seq<u8>,
)
    requires
        levels_are_sound(before),
        levels_are_sound(after),
        holds_at(after, i, j, key),
        after[i].handles@[j].path@ == path,
        forall|a: int, b: int, k: HandleKeyView|
            k != key ==> (#[trigger] holds_at(before, a, b, k) <==> holds_at(after, a, b, k)),
        forall|a: int, b: int, k: HandleKeyView|
            k != key && #[trigger] holds_at(before, a, b, k) ==> before[a].handles@[b].path@
                == after[a].handles@[b].path@,
    ensures
        known_in(after) == known_in(before).insert(key, path),
{
    let expected = known_in(before).insert(key, path);
    known_at(after, i, j);
    assert forall|k: HandleKeyView| #[trigger]
        known_in(after).dom().contains(k) == expected.dom().contains(k) by {
        if k != key {
            if known_in(after).dom().contains(k) {
                let (a, b) = choose|a: int, b: int| holds_at(after, a, b, k);
                assert(holds_at(before, a, b, k));
            }
            if known_in(before).dom().contains(k) {
                let (a, b) = choose|a: int, b: int| holds_at(before, a, b, k);
                assert(holds_at(after, a, b, k));
            }
        }
    }
    assert forall|k: HandleKeyView| known_in(after).dom().contains(k) implies known_in(after)[k]
        == #[trigger] expected[k] by {
        if k != key {
            let (a, b) = choose|a: int, b: int| holds_at(after, a, b, k);
            assert(holds_at(before, a, b, k));
            known_at(after, a, b);
            known_at(before, a, b);
        }
    }
    assert(known_in(after) =~= expected);
}

/// Removing one of several entries of a level removes its key and nothing else.
proof fn removing_an_entry(before: Seq<Level>, after: Seq<Level>, i: int, j: int)
    requires
        levels_are_sound(before),
        0 <= i < before.len(),
        0 <= j < before[i].handles@.len(),
        before[i].handles@.len() > 1,
        after.len() == before.len(),
        forall|a: int| 0 <= a < before.len() && a != i ==> #[trigger] after[a] == before[a],
        after[i].fsid == before[i].fsid,
        after[i].handles@ == before[i].handles@.remove(j),
    ensures
        levels_are_sound(after),
        known_in(after) == known_in(before).remove(
            (before[i].fsid, before[i].handles@[j].handle@),
        ),
{
    let key = (before[i].fsid, before[i].handles@[j].handle@);
    let expected = known_in(before).remove(key);
    let was = before[i].handles@;
    let now = after[i].handles@;
    assert(distinct_handles(was));
    assert forall|b: int| 0 <= b < now.len() implies #[trigger] now[b] == was[if b < j {
        b
    } else {
        b + 1
    }] by {}
    assert(distinct_handles(now)) by {
        assert forall|a: int, b: int| 0 <= a < b < now.len() implies (#[trigger] now[a]).handle@
            != (#[trigger] now[b]).handle@ by {
            let c = if a < j {
                a
            } else {
                a + 1
            };
            let d = if b < j {
                b
            } else {
                b + 1
            };
            assert(was[c].handle@ != was[d].handle@);
        }
    }
    assert(levels_are_sound(after)) by {
        assert forall|a: int| 0 <= a < after.len() implies (#[trigger] after[a]).handles@.len() > 0
            && distinct_handles(after[a].handles@) by {
            if a != i {
                assert(after[a] == before[a]);
            }
        }
        assert forall|a: int, b: int| 0 <= a < b < after.len() implies (#[trigger] after[a]).fsid
            != (#[trigger] after[b]).fsid by {
            assert(after[a].fsid == before[a].fsid && after[b].fsid == before[b].fsid);
        }
    }
    assert forall|k: HandleKeyView| #[trigger]
        known_in(after).dom().contains(k) == expected.dom().contains(k) by {
        if known_in(after).dom().contains(k) {
            let (a, b) = choose|a: int, b: int| holds_at(after, a, b, k);
            entry_came_from(before, after, i, j, a, b, k);
        }
        if expected.dom().contains(k) {
            let (a, b) = choose|a: int, b: int| holds_at(before, a, b, k);
            if a != i {
                assert(after[a] == before[a]);
                assert(holds_at(after, a, b, k));
            } else {
                assert(b != j);
                let c = if b < j {
                    b
                } else {
                    b - 1
                };
                assert(now[c] == was[b]);
                assert(holds_at(after, a, c, k));
            }
        }
    }
    assert forall|k: HandleKeyView| known_in(after).dom().contains(k) implies known_in(after)[k]
        == #[trigger] expected[k] by {
        let (a, b) = choose|a: int, b: int| holds_at(after, a, b, k);
        entry_came_from(before, after, i, j, a, b, k);
        known_at(after, a, b);
        if a != i {
            known_at(before, a, b);
        } else {
            known_at(
                before,
                a,
                if b < j {
                    b
                } else {
                    b + 1
                },
            );
        }
    }
    assert(known_in(after) =~= expected);
}

/// Where an entry was before one of its level's entries was removed.
proof fn entry_came_from(
    before: Seq<Level>,
    after: Seq<Level>,
    i: int,
    j: int,
    a: int,
    b: int,
    key: HandleKeyView,
)
    requires
        levels_are_sound(before),
        0 <= i < before.len(),
        0 <= j < before[i].handles@.len(),
        after.len() == before.len(),
        forall|a: int| 0 <= a < before.len() && a != i ==> #[trigger] after[a] == before[a],
        after[i].fsid == before[i].fsid,
        after[i].handles@ == before[i].handles@.remove(j),
        holds_at(after, a, b, key),
    ensures
        a != i ==> holds_at(before, a, b, key),
        a == i ==> holds_at(
            before,
            a,
            if b < j {
                b
            } else {
                b + 1
            },
            key,
        ),
        key != (before[i].fsid, before[i].handles@[j].handle@),
{
    let was = before[i].handles@;
    if a != i {
        assert(after[a] == before[a]);
        if a < i {
            assert(before[a].fsid != before[i].fsid);
        } else {
            assert(before[i].fsid != before[a].fsid);
        }
    } else {
        let c = if b < j {
            b
        } else {
            b + 1
        };
        assert(after[i].handles@[b] == was[c]);
        assert(distinct_handles(was));
        if c < j {
            assert(was[c].handle@ != was[j].handle@);
        } else {
            assert(was[j].handle@ != was[c].handle@);
        }
    }
}

impl PathStore for HandleCache {
    open spec fn known(&self) -> KnownPaths {
        self@
    }

    open spec fn keeps_all() -> bool {
        true
    }

    fn get(&mut self, fsid: Fsid, handle: &[u8]) -> (r: Option<Vec<u8>>)
        ensures
            final(self)@ == old(self)@,
            opt_vec(r) == lookup(old(self)@, fsid, handle@),
    {
        match self.path_of(fsid, handle) {
            Some(path) => Some(to_bytes(path)),
            None => None,
        }
    }

    fn insert(&mut self, fsid: Fsid, handle: &[u8], path: &[u8])
        ensures
            final(self)@ == old(self)@.insert((fsid, handle@), path@),
    {
        proof {
            use_type_invariant(&*self);
        }
        let ghost before = self.by_filesystem@;
        let ghost key = (fsid, handle@);
        let place = self.level_of(fsid);
        let mut levels: Vec<Level> = Vec::new();
        std::mem::swap(&mut levels, &mut self.by_filesystem);
        match place {
            Some(i) => {
                let found = entry_of(&levels[i].handles, handle);
                match found {
                    Some(j) => {
                        let entry = &mut levels[i].handles[j];
                        entry.path = to_bytes(path);
                        proof {
                            updating_in_place(before, levels@, i as int, j as int);
                            recording_a_path(before, levels@, i as int, j as int, key, path@);
                        }
                    },
                    None => {
                        let level = &mut levels[i];
                        level.handles.push(
                            Entry { handle: to_bytes(handle), path: to_bytes(path) },
                        );
                        proof {
                            let j = before[i as int].handles@.len() as int;
                            assert(levels@[i as int].handles@.drop_last()
                                =~= before[i as int].handles@);
                            appending_an_entry(before, levels@, i as int);
                            recording_a_path(before, levels@, i as int, j, key, path@);
                        }
                    },
                }
            },
            None => {
                let mut handles: Vec<Entry> = Vec::new();
                handles.push(Entry { handle: to_bytes(handle), path: to_bytes(path) });
                levels.push(Level { fsid, handles });
                proof {
                    let i = before.len() as int;
                    assert(levels@.drop_last() =~= before);
                    appending_a_level(before, levels@);
                    recording_a_path(before, levels@, i, 0, key, path@);
                }
            },
        }
        self.by_filesystem = levels;
    }

    fn forget(&mut self, fsid: Fsid, handle: &[u8])
        ensures
            final(self)@ == old(self)@.remove((fsid, handle@)),
    {
        proof {
            use_type_invariant(&*self);
        }
        let ghost before = self.by_filesystem@;
        let ghost key = (fsid, handle@);
        let known = self.path_of(fsid, handle).is_some();
        if !known {
            proof {
                assert(self@.remove(key) =~= self@);
            }
            return ;
        }
        let place = self.level_of(fsid);
        let mut levels: Vec<Level> = Vec::new();
        std::mem::swap(&mut levels, &mut self.by_filesystem);
        if let Some(i) = place {
            let found = entry_of(&levels[i].handles, handle);
            if let Some(j) = found {
                // A filesystem with no handles left is a level with nothing in it.
                if levels[i].handles.len() == 1 {
                    levels.remove(i);
                    proof {
                        removing_a_level(before, i as int);
                        only_entry_of_its_filesystem(before, i as int);
                    }
                } else {
                    let level = &mut levels[i];
                    level.handles.remove(j);
                    proof {
                        removing_an_entry(before, levels@, i as int, j as int);
                    }
                }
            }
        }
        proof {
            let (a, b) = choose|a: int, b: int| holds_at(before, a, b, key);
            assert(holds_at(before, a, b, key));
            assert(before[a].fsid == fsid);
        }
        self.by_filesystem = levels;
    }
}

/// Replacing the path of an entry moves nothing.
proof fn updating_in_place(before: Seq<Level>, after: Seq<Level>, i: int, j: int)
    requires
        levels_are_sound(before),
        0 <= i < before.len(),
        0 <= j < before[i].handles@.len(),
        after.len() == before.len(),
        forall|a: int| 0 <= a < before.len() && a != i ==> #[trigger] after[a] == before[a],
        after[i].fsid == before[i].fsid,
        after[i].handles@.len() == before[i].handles@.len(),
        forall|b: int|
            0 <= b < before[i].handles@.len() && b != j ==> #[trigger] after[i].handles@[b]
                == before[i].handles@[b],
        after[i].handles@[j].handle@ == before[i].handles@[j].handle@,
    ensures
        levels_are_sound(after),
        forall|a: int, b: int, k: HandleKeyView|
            #[trigger] holds_at(before, a, b, k) <==> holds_at(after, a, b, k),
        forall|a: int, b: int, k: HandleKeyView|
            k != (before[i].fsid, before[i].handles@[j].handle@) && #[trigger] holds_at(
                before,
                a,
                b,
                k,
            ) ==> before[a].handles@[b].path@ == after[a].handles@[b].path@,
{
    assert forall|a: int| 0 <= a < after.len() implies (#[trigger] after[a]).fsid
        == before[a].fsid && after[a].handles@.len() == before[a].handles@.len() by {
        if a != i {
            assert(after[a] == before[a]);
        }
    }
    assert forall|a: int, b: int| 0 <= a < after.len() && 0 <= b < after[a].handles@.len() implies (
    #[trigger] after[a].handles@[b]).handle@ == before[a].handles@[b].handle@ by {
        if a != i {
            assert(after[a] == before[a]);
        } else if b != j {
            assert(after[i].handles@[b] == before[i].handles@[b]);
        }
    }
    assert forall|a: int| 0 <= a < after.len() implies distinct_handles(
        (#[trigger] after[a]).handles@,
    ) by {
        let was = before[a].handles@;
        let now = after[a].handles@;
        assert(distinct_handles(was));
        assert forall|c: int, d: int| 0 <= c < d < now.len() implies (#[trigger] now[c]).handle@
            != (#[trigger] now[d]).handle@ by {
            assert(was[c].handle@ != was[d].handle@);
        }
    }
    assert(distinct_levels(after)) by {
        assert forall|a: int, b: int| 0 <= a < b < after.len() implies (#[trigger] after[a]).fsid
            != (#[trigger] after[b]).fsid by {
            assert(before[a].fsid != before[b].fsid);
        }
    }
    assert forall|a: int| 0 <= a < after.len() implies (#[trigger] after[a]).handles@.len() > 0 by {
        assert(before[a].handles@.len() > 0);
    }
    assert forall|a: int, b: int, k: HandleKeyView|
        k != (before[i].fsid, before[i].handles@[j].handle@) && #[trigger] holds_at(
            before,
            a,
            b,
            k,
        ) implies before[a].handles@[b].path@ == after[a].handles@[b].path@ by {
        if a != i {
            assert(after[a] == before[a]);
        } else {
            assert(b != j);
            assert(after[i].handles@[b] == before[i].handles@[b]);
        }
    }
}

/// Adding an entry to a level that does not hold its handle moves nothing.
proof fn appending_an_entry(before: Seq<Level>, after: Seq<Level>, i: int)
    requires
        levels_are_sound(before),
        0 <= i < before.len(),
        after.len() == before.len(),
        forall|a: int| 0 <= a < before.len() && a != i ==> #[trigger] after[a] == before[a],
        after[i].fsid == before[i].fsid,
        after[i].handles@.len() == before[i].handles@.len() + 1,
        after[i].handles@.drop_last() == before[i].handles@,
        forall|b: int|
            0 <= b < before[i].handles@.len() ==> (#[trigger] before[i].handles@[b]).handle@
                != after[i].handles@.last().handle@,
    ensures
        levels_are_sound(after),
        forall|a: int, b: int, k: HandleKeyView|
            k != (before[i].fsid, after[i].handles@.last().handle@) ==> (#[trigger] holds_at(
                before,
                a,
                b,
                k,
            ) <==> holds_at(after, a, b, k)),
        forall|a: int, b: int, k: HandleKeyView|
            #[trigger] holds_at(before, a, b, k) ==> before[a].handles@[b].path@
                == after[a].handles@[b].path@,
{
    let was = before[i].handles@;
    let now = after[i].handles@;
    assert forall|b: int| 0 <= b < was.len() implies #[trigger] now[b] == was[b] by {
        assert(now.drop_last()[b] == now[b]);
    }
    assert(distinct_handles(now)) by {
        assert(distinct_handles(was));
        assert forall|c: int, d: int| 0 <= c < d < now.len() implies (#[trigger] now[c]).handle@
            != (#[trigger] now[d]).handle@ by {
            if d < was.len() {
                assert(was[c].handle@ != was[d].handle@);
            } else {
                assert(was[c].handle@ != now.last().handle@);
            }
        }
    }
    assert forall|a: int| 0 <= a < after.len() implies (#[trigger] after[a]).handles@.len() > 0
        && distinct_handles(after[a].handles@) by {
        if a != i {
            assert(after[a] == before[a]);
        }
    }
    assert(distinct_levels(after)) by {
        assert forall|a: int, b: int| 0 <= a < b < after.len() implies (#[trigger] after[a]).fsid
            != (#[trigger] after[b]).fsid by {
            assert(after[a].fsid == before[a].fsid && after[b].fsid == before[b].fsid);
        }
    }
    assert forall|a: int, b: int, k: HandleKeyView|
        k != (before[i].fsid, now.last().handle@) implies (#[trigger] holds_at(before, a, b, k)
        <==> holds_at(after, a, b, k)) by {
        if a != i && 0 <= a < before.len() {
            assert(after[a] == before[a]);
        }
    }
    assert forall|a: int, b: int, k: HandleKeyView| #[trigger] holds_at(before, a, b, k) implies
        before[a].handles@[b].path@ == after[a].handles@[b].path@ by {
        if a != i {
            assert(after[a] == before[a]);
        }
    }
}

/// Adding a level for a filesystem that has none moves nothing.
proof fn appending_a_level(before: Seq<Level>, after: Seq<Level>)
    requires
        levels_are_sound(before),
        after.len() == before.len() + 1,
        after.drop_last() == before,
        after.last().handles@.len() == 1,
        forall|a: int|
            0 <= a < before.len() ==> (#[trigger] before[a]).fsid != after.last().fsid,
    ensures
        levels_are_sound(after),
        forall|a: int, b: int, k: HandleKeyView|
            k != (after.last().fsid, after.last().handles@[0].handle@) ==> (#[trigger] holds_at(
                before,
                a,
                b,
                k,
            ) <==> holds_at(after, a, b, k)),
        forall|a: int, b: int, k: HandleKeyView|
            #[trigger] holds_at(before, a, b, k) ==> before[a].handles@[b].path@
                == after[a].handles@[b].path@,
{
    assert forall|a: int| 0 <= a < before.len() implies #[trigger] after[a] == before[a] by {
        assert(after.drop_last()[a] == after[a]);
    }
    assert(distinct_levels(after)) by {
        assert forall|a: int, b: int| 0 <= a < b < after.len() implies (#[trigger] after[a]).fsid
            != (#[trigger] after[b]).fsid by {
            if b < before.len() {
                assert(before[a].fsid != before[b].fsid);
            } else {
                assert(before[a].fsid != after.last().fsid);
            }
        }
    }
}

/// The single entry of a level is all that is known of its filesystem.
proof fn only_entry_of_its_filesystem(levels: Seq<Level>, i: int)
    requires
        levels_are_sound(levels),
        0 <= i < levels.len(),
        levels[i].handles@.len() == 1,
    ensures
        known_in(levels).remove_keys(Set::new(|key: HandleKeyView| key.0 == levels[i].fsid))
            == known_in(levels).remove((levels[i].fsid, levels[i].handles@[0].handle@)),
{
    let only = (levels[i].fsid, levels[i].handles@[0].handle@);
    let gone = Set::new(|key: HandleKeyView| key.0 == levels[i].fsid);
    assert forall|key: HandleKeyView|
        known_in(levels).dom().contains(key) && #[trigger] gone.contains(key) implies key
        == only by {
        let (a, b) = choose|a: int, b: int| holds_at(levels, a, b, key);
        if a < i {
            assert(levels[a].fsid != levels[i].fsid);
        } else if i < a {
            assert(levels[i].fsid != levels[a].fsid);
        }
    }
    assert(gone.contains(only));
    assert(known_in(levels).remove_keys(gone) =~= known_in(levels).remove(only));
}

/// A store that remembers nothing, so every resolution asks the filesystem.
#[derive(Debug, Clone, Copy)]
pub struct NoCache;

impl PathStore for NoCache {
    open spec fn known(&self) -> KnownPaths {
        Map::empty()
    }

    open spec fn keeps_all() -> bool {
        false
    }

    /// Nothing is ever known.
    fn get(&mut self, _fsid: Fsid, _handle: &[u8]) -> (r: Option<Vec<u8>>) {
        None
    }

    /// Nothing is recorded: keeping it is the one thing this store does not do.
    fn insert(&mut self, _fsid: Fsid, _handle: &[u8], _path: &[u8]) {
    }

    /// Nothing to forget.
    fn forget(&mut self, _fsid: Fsid, _handle: &[u8]) {
    }
}

impl Default for NoCache {
    fn default() -> (r: Self)
        ensures
            r == NoCache,
    {
        NoCache
    }
}

impl Clone for HandleCache {
    /// A cache that knows the same.
    fn clone(&self) -> (r: Self)
        ensures
            r@ == self@,
    {
        let list: Vec<(Fsid, &[u8], &[u8])> = self.iter();
        let mut r = HandleCache::new();
        let mut i: usize = 0;
        while i < list.len()
            invariant
                i <= list@.len(),
                is_listing(list@, self@),
                forall|key: HandleKeyView| #[trigger]
                    r@.dom().contains(key) ==> self@.dom().contains(key) && r@[key] == self@[key],
                forall|k: int|
                    0 <= k < i ==> r@.dom().contains(((#[trigger] list@[k]).0, list@[k].1@)),
            decreases list@.len() - i,
        {
            let (fsid, handle, path) = list[i];
            r.insert(fsid, handle, path);
            i = i + 1;
        }
        proof {
            assert forall|key: HandleKeyView| #[trigger] self@.dom().contains(key) implies r@.dom().contains(
            key) by {
                assert(listing_has(list@, key));
                let k = choose|k: int|
                    0 <= k < list@.len() && (#[trigger] list@[k]).0 == key.0 && list@[k].1@
                        == key.1;
                assert((list@[k].0, list@[k].1@) == key);
            }
            assert(r@ =~= self@);
        }
        r
    }
}

impl Default for HandleCache {
    /// A cache that knows nothing.
    fn default() -> (r: Self)
        ensures
            r@ == Map::<HandleKeyView, Seq<u8>>::empty(),
    {
        HandleCache::new()
    }
}

/// What was recorded for a handle is what is known for it, and what is known for
/// any other handle, or for the same bytes on any other filesystem, stays.
pub proof fn recording_touches_one_handle(
    known: KnownPaths,
    fsid: Fsid,
    handle: Seq<u8>,
    path: Seq<u8>,
    other_fsid: Fsid,
    other: Seq<u8>,
)
    ensures
        lookup(known.insert((fsid, handle), path), fsid, handle) == Some(path),
        other_fsid != fsid || other != handle ==> lookup(
            known.insert((fsid, handle), path),
            other_fsid,
            other,
        ) == lookup(known, other_fsid, other),
{
}

/// A forgotten handle is unknown, and its neighbours stay known.
pub proof fn forgetting_touches_one_handle(
    known: KnownPaths,
    fsid: Fsid,
    handle: Seq<u8>,
    other_fsid: Fsid,
    other: Seq<u8>,
)
    ensures
        lookup(known.remove((fsid, handle)), fsid, handle) is None,
        other_fsid != fsid || other != handle ==> lookup(
            known.remove((fsid, handle)),
            other_fsid,
            other,
        ) == lookup(known, other_fsid, other),
{
}

/// A filesystem counts for as long as one of its handles is known: forgetting
/// one handle drops its filesystem exactly when no other handle of it is known,
/// and drops no other filesystem.
pub proof fn forgetting_the_last_handle_drops_its_filesystem(
    known: KnownPaths,
    fsid: Fsid,
    handle: Seq<u8>,
)
    ensures
        filesystems_of(known.remove((fsid, handle))).contains(fsid) <==> exists|other: Seq<u8>|
            other != handle && #[trigger] known.dom().contains((fsid, other)),
        forall|other: Fsid|
            other != fsid ==> (#[trigger] filesystems_of(known.remove((fsid, handle))).contains(
                other,
            ) <==> filesystems_of(known).contains(other)),
{
    let after = known.remove((fsid, handle));
    if filesystems_of(after).contains(fsid) {
        let key = choose|key: HandleKeyView| after.dom().contains(key) && key.0 == fsid;
        assert(known.dom().contains((fsid, key.1)));
        assert(key.1 != handle);
    }
    if exists|other: Seq<u8>| other != handle && #[trigger] known.dom().contains((fsid, other)) {
        let other = choose|other: Seq<u8>|
            other != handle && #[trigger] known.dom().contains((fsid, other));
        let key = (fsid, other);
        assert(after.dom().contains(key) && key.0 == fsid);
    }
    assert forall|other: Fsid| other != fsid implies (#[trigger] filesystems_of(after).contains(
        other,
    ) <==> filesystems_of(known).contains(other)) by {
        if filesystems_of(after).contains(other) {
            let key = choose|key: HandleKeyView| after.dom().contains(key) && key.0 == other;
            assert(known.dom().contains(key) && key.0 == other);
        }
        if filesystems_of(known).contains(other) {
            let key = choose|key: HandleKeyView| known.dom().contains(key) && key.0 == other;
            assert(after.dom().contains(key) && key.0 == other);
        }
    }
}

/// What is recorded is what is found, and only under the filesystem and the handle
/// that it was recorded under; what is forgotten is not found again.  Every other
/// handle keeps its answer.
pub proof fn a_cache_holds_what_was_recorded()
    ensures
        forall|cache: &mut HandleCache, fsid: Fsid, handle: &[u8], path: &[u8]|
            #[trigger] call_ensures(
                HandleCache::insert,
                (cache, fsid, handle, path),
                (),
            ) ==> final(cache)@ == (*cache)@.insert((fsid, handle@), path@),
        forall|cache: &mut HandleCache, fsid: Fsid, handle: &[u8]|
            #[trigger] call_ensures(HandleCache::forget, (cache, fsid, handle), ())
                ==> final(cache)@ == (*cache)@.remove((fsid, handle@)),
        forall|cache: &mut HandleCache, fsid: Fsid, handle: &[u8], r: Option<Vec<u8>>|
            #[trigger] call_ensures(HandleCache::get, (cache, fsid, handle), r) ==> final(cache)@
                == (*cache)@ && match r {
                Some(path) => (*cache)@.dom().contains((fsid, handle@)) && path@ == (*cache)@[(
                    fsid,
                    handle@,
                )],
                None => !(*cache)@.dom().contains((fsid, handle@)),
            },
        forall|cache: &HandleCache, fsid: Fsid, handle: &[u8], r: Option<&[u8]>|
            #[trigger] call_ensures(HandleCache::path_of, (cache, fsid, handle), r) ==> match r {
                Some(path) => cache@.dom().contains((fsid, handle@)) && path@ == cache@[(
                    fsid,
                    handle@,
                )],
                None => !cache@.dom().contains((fsid, handle@)),
            },
        HandleCache::keeps_all(),
        forall|cache: HandleCache| #[trigger] cache.known() == cache@,
{
}

/// Forgetting a filesystem forgets every handle on it and none on any other, and
/// clearing forgets everything.
pub proof fn a_filesystem_is_forgotten_whole()
    ensures
        forall|cache: &mut HandleCache, fsid: Fsid, key: HandleKeyView|
            #[trigger] call_ensures(HandleCache::forget_filesystem, (cache, fsid), ()) ==> (
            #[trigger] final(cache)@.dom().contains(key) <==> (*cache)@.dom().contains(key)
                && key.0 != fsid) && (final(cache)@.dom().contains(key) ==> final(cache)@[key] == (
            *cache)@[key]),
        forall|cache: &mut HandleCache, key: HandleKeyView|
            #[trigger] call_ensures(HandleCache::clear, (cache,), ()) ==> !(
            #[trigger] final(cache)@.dom().contains(key)),
        forall|cache: HandleCache, key: HandleKeyView|
            #[trigger] call_ensures(HandleCache::new, (), cache) ==> !(
            #[trigger] cache@.dom().contains(key)),
{
}

/// A filesystem is counted exactly if a handle on it is known.
pub proof fn a_filesystem_is_known_by_its_handles(known: KnownPaths, fsid: Fsid)
    ensures
        filesystems_of(known).contains(fsid) <==> exists|handle: Seq<u8>|
            #[trigger] known.dom().contains((fsid, handle)),
{
    if filesystems_of(known).contains(fsid) {
        let key = choose|key: HandleKeyView| known.dom().contains(key) && key.0 == fsid;
        assert(known.dom().contains((fsid, key.1)));
    }
    assert forall|handle: Seq<u8>| #[trigger] known.dom().contains((fsid, handle)) implies
        filesystems_of(known).contains(fsid) by {
        let key = (fsid, handle);
        assert(key.0 == fsid);
    }
}

/// A listing holds every entry once: its filesystem, its handle and its path.
pub proof fn a_listing_is_the_whole_cache(
    cache: &HandleCache,
    list: Vec<(Fsid, &[u8], &[u8])>,
    handle: &[u8],
    fsid: Fsid,
)
    requires
        call_ensures(HandleCache::iter, (cache,), list),
    ensures
        list@.len() == cache@.dom().len(),
        forall|k: int|
            0 <= k < list@.len() ==> cache@.dom().contains(
                ((#[trigger] list@[k]).0, list@[k].1@),
            ) && cache@[(list@[k].0, list@[k].1@)] == list@[k].2@,
        cache@.dom().contains((fsid, handle@)) ==> exists|k: int|
            0 <= k < list@.len() && (#[trigger] list@[k]).0 == fsid && list@[k].1@ == handle@,
{
    if cache@.dom().contains((fsid, handle@)) {
        assert(listing_has(list@, (fsid, handle@)));
    }
}

/// A cache counts its handles and its filesystems.
pub proof fn a_cache_counts_what_it_holds(cache: &HandleCache, len: usize, count: usize, none: bool)
    requires
        call_ensures(HandleCache::len, (cache,), len),
        call_ensures(HandleCache::filesystems, (cache,), count),
        call_ensures(HandleCache::is_empty, (cache,), none),
    ensures
        cache@.dom().finite(),
        cache@.dom().len() <= usize::MAX ==> len == cache@.dom().len(),
        count == filesystems_of(cache@).len(),
        none <==> forall|key: HandleKeyView| !(#[trigger] cache@.dom().contains(key)),
{
    if forall|key: HandleKeyView| !(#[trigger] cache@.dom().contains(key)) {
        assert(cache@ =~= Map::<HandleKeyView, Seq<u8>>::empty());
    }
}

/// Recording never makes an answer up, whatever the store keeps: what is known
/// afterwards was known before, or is the path that was recorded for its handle.
pub proof fn recording_invents_nothing(
    before: KnownPaths,
    after: KnownPaths,
    fsid: Fsid,
    handle: Seq<u8>,
    path: Seq<u8>,
    keeps_all: bool,
    key: HandleKeyView,
)
    requires
        recorded(before, after, (fsid, handle), path, keeps_all),
        after.dom().contains(key),
    ensures
        key == (fsid, handle) ==> after[key] == path,
        key != (fsid, handle) ==> before.dom().contains(key) && after[key] == before[key],
{
    assert(before.insert((fsid, handle), path).dom().contains(key));
}

/// A store that keeps what it is given loses nothing by being asked, and nothing
/// but what was recorded changes by recording.
pub proof fn a_store_that_keeps_all_loses_nothing(
    before: KnownPaths,
    asked: KnownPaths,
    after: KnownPaths,
    fsid: Fsid,
    handle: Seq<u8>,
    path: Seq<u8>,
    key: HandleKeyView,
)
    requires
        left_by_lookup(before, asked, true),
        recorded(asked, after, (fsid, handle), path, true),
        before.dom().contains(key),
    ensures
        asked.dom().contains(key) && asked[key] == before[key],
        after.dom().contains((fsid, handle)) && after[(fsid, handle)] == path,
        key != (fsid, handle) ==> after.dom().contains(key) && after[key] == before[key],
{
}

/// A copy of a cache knows what the cache knows.
pub proof fn a_copy_knows_the_same(cache: &HandleCache, r: HandleCache)
    requires
        call_ensures(HandleCache::clone, (cache,), r),
    ensures
        r@ == cache@,
{
}

} // verus!
