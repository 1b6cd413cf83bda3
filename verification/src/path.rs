//! Unix paths as bytes.
//!
//! A Linux path is a byte string, and `/proc` reports paths that need not be
//! UTF-8, so the library keeps them as bytes.  This module holds what it needs
//! of their structure, with the rules `std::path` has on Unix: how a path splits
//! into components, how a component is appended, and what a parent is.
use vstd::prelude::*;

use crate::bytes::opt_slice;
use crate::wire::{push_bytes, same_bytes, to_bytes};

verus! {

/// The separator.
pub const SLASH: u8 = 0x2f;

/// A full stop.
pub const DOT: u8 = 0x2e;

/// One component of a path.
#[derive(Debug, Clone, Copy)]
pub enum Component<'a> {
    /// The leading separator of an absolute path.
    RootDir,
    /// A leading `.`; anywhere else it is dropped.
    CurDir,
    /// `..`.
    ParentDir,
    /// A name.
    Normal(&'a [u8]),
}

/// A component, its name taken as a sequence.
pub enum Part {
    /// See [`Component::RootDir`].
    Root,
    /// See [`Component::CurDir`].
    Cur,
    /// See [`Component::ParentDir`].
    Parent,
    /// See [`Component::Normal`].
    Name(Seq<u8>),
}

impl<'a> View for Component<'a> {
    type V = Part;

    open spec fn view(&self) -> Part {
        match self {
            Component::RootDir => Part::Root,
            Component::CurDir => Part::Cur,
            Component::ParentDir => Part::Parent,
            Component::Normal(name) => Part::Name(name@),
        }
    }
}

/// Where the first separator of `s` is, or its length if it has none.
pub open spec fn segment_end(s: Seq<u8>) -> int
    decreases s.len(),
{
    if s.len() == 0 || s[0] == SLASH {
        0
    } else {
        1 + segment_end(s.skip(1))
    }
}

/// What stands behind the first separator of `s`.
pub open spec fn after_segment(s: Seq<u8>) -> Seq<u8> {
    if segment_end(s) < s.len() {
        s.skip(segment_end(s) + 1)
    } else {
        Seq::empty()
    }
}

/// The component a segment inside a path is, if it is one: an empty segment and
/// `.` are dropped.
pub open spec fn part_of(segment: Seq<u8>) -> Option<Part> {
    if segment.len() == 0 || segment == seq![DOT] {
        None
    } else if segment == seq![DOT, DOT] {
        Some(Part::Parent)
    } else {
        Some(Part::Name(segment))
    }
}

/// A list of no or one element.
pub open spec fn listed(part: Option<Part>) -> Seq<Part> {
    match part {
        Some(part) => seq![part],
        None => Seq::empty(),
    }
}

/// The components of the part of a path that follows its start.
pub open spec fn body_parts(s: Seq<u8>) -> Seq<Part>
    decreases s.len(),
{
    if s.len() == 0 {
        Seq::empty()
    } else {
        proof {
            segment_end_is_the_first_slash(s);
        }
        listed(part_of(s.take(segment_end(s)))) + body_parts(after_segment(s))
    }
}

/// How many bytes the start of a path takes: its leading separator, or a
/// leading `.` that is a component.
pub open spec fn start_len(path: Seq<u8>) -> int {
    if path.len() > 0 && path[0] == SLASH {
        1
    } else if path.len() > 0 && path[0] == DOT && segment_end(path) == 1 {
        1
    } else {
        0
    }
}

/// The component that the start of a path is, if it is one.
pub open spec fn start_part(path: Seq<u8>) -> Option<Part> {
    if start_len(path) == 0 {
        None
    } else if path[0] == SLASH {
        Some(Part::Root)
    } else {
        Some(Part::Cur)
    }
}

/// The components of a path.
pub open spec fn parts(path: Seq<u8>) -> Seq<Part> {
    listed(start_part(path)) + body_parts(path.skip(start_len(path)))
}

/// Whether two paths name the same components: the equality of `std::path`.
pub open spec fn same_path(a: Seq<u8>, b: Seq<u8>) -> bool {
    parts(a) == parts(b)
}

/// The path `name` names when it is read in the directory `base`: an absolute
/// `name` stands for itself, any other is appended behind one separator.
pub open spec fn pushed(base: Seq<u8>, name: Seq<u8>) -> Seq<u8> {
    if name.len() > 0 && name[0] == SLASH {
        name
    } else if base.len() > 0 && base.last() != SLASH {
        base.push(SLASH) + name
    } else {
        base + name
    }
}

/// The text of a component.
pub open spec fn part_text(part: Part) -> Seq<u8> {
    match part {
        Part::Root => seq![SLASH],
        Part::Cur => seq![DOT],
        Part::Parent => seq![DOT, DOT],
        Part::Name(name) => name,
    }
}

/// Whether `name` holds no separator.
pub open spec fn no_slash(name: Seq<u8>) -> bool {
    forall|i: int| 0 <= i < name.len() ==> name[i] != SLASH
}

/// `segment_end` is what its name says.
pub proof fn segment_end_is_the_first_slash(s: Seq<u8>)
    ensures
        0 <= segment_end(s) <= s.len(),
        no_slash(s.take(segment_end(s))),
        segment_end(s) < s.len() ==> s[segment_end(s)] == SLASH,
    decreases s.len(),
{
    if s.len() > 0 && s[0] != SLASH {
        segment_end_is_the_first_slash(s.skip(1));
        assert forall|i: int| 0 <= i < segment_end(s) implies s[i] != SLASH by {
            if i > 0 {
                assert(s.skip(1).take(segment_end(s.skip(1)))[i - 1] == s[i]);
            }
        }
    }
}

/// The first separator is the only index with no separator before it.
proof fn segment_end_is_unique(s: Seq<u8>, end: int)
    requires
        0 <= end <= s.len(),
        no_slash(s.take(end)),
        end < s.len() ==> s[end] == SLASH,
    ensures
        segment_end(s) == end,
{
    segment_end_is_the_first_slash(s);
    let found = segment_end(s);
    if found < end {
        assert(s.take(end)[found] == SLASH);
    } else if end < found {
        assert(s.take(found)[end] == SLASH);
    }
}

/// Appending a segment behind a separator appends its component.
proof fn body_parts_append(s: Seq<u8>, name: Seq<u8>)
    requires
        no_slash(name),
    ensures
        body_parts(s.push(SLASH) + name) == body_parts(s) + listed(part_of(name)),
    decreases s.len(),
{
    let whole = s.push(SLASH) + name;
    let end = segment_end(s);
    segment_end_is_the_first_slash(s);
    assert(whole.take(end) =~= s.take(end));
    assert(whole[end] == SLASH);
    segment_end_is_unique(whole, end);
    if end < s.len() {
        assert(after_segment(whole) =~= after_segment(s).push(SLASH) + name);
        body_parts_append(after_segment(s), name);
        assert(body_parts(whole) =~= body_parts(s) + listed(part_of(name)));
    } else {
        assert(s.take(end) =~= s);
        assert(after_segment(whole) =~= name);
        body_parts_of_a_segment(name);
        assert(no_slash(s));
        body_parts_of_a_segment(s);
        assert(body_parts(whole) =~= listed(part_of(s)) + listed(part_of(name)));
    }
}

/// A segment alone is its component.
proof fn body_parts_of_a_segment(name: Seq<u8>)
    requires
        no_slash(name),
    ensures
        body_parts(name) == listed(part_of(name)),
{
    if name.len() > 0 {
        assert(name.take(name.len() as int) =~= name);
        segment_end_is_unique(name, name.len() as int);
        assert(after_segment(name) =~= Seq::<u8>::empty());
        assert(body_parts(Seq::<u8>::empty()) =~= Seq::<Part>::empty());
        assert(body_parts(name) =~= listed(part_of(name)));
    }
}

/// A trailing separator changes no component.
proof fn body_parts_trailing_slash(s: Seq<u8>)
    ensures
        body_parts(s.push(SLASH)) == body_parts(s),
{
    body_parts_append(s, Seq::empty());
    assert(s.push(SLASH) + Seq::<u8>::empty() =~= s.push(SLASH));
    assert(body_parts(s) + listed(part_of(Seq::<u8>::empty())) =~= body_parts(s));
}

/// Appending one name to a path appends exactly that component, whatever the
/// path: nothing of the path is replaced and nothing else is added.
pub proof fn pushing_a_name_appends_one_component(base: Seq<u8>, name: Seq<u8>)
    requires
        no_slash(name),
        part_of(name) is Some,
    ensures
        parts(pushed(base, name)) == parts(base).push(part_of(name)->0),
{
    let whole = pushed(base, name);
    let n = start_len(base);
    segment_end_is_the_first_slash(base);
    if base.len() == 0 {
        assert(whole =~= name);
        assert(name.take(name.len() as int) =~= name);
        segment_end_is_unique(name, name.len() as int);
        assert(start_len(name) == 0) by {
            if name[0] == DOT && name.len() == 1 {
                assert(name =~= seq![DOT]);
            }
        }
        assert(name.skip(0) =~= name);
        body_parts_of_a_segment(name);
        assert(base.skip(0) =~= Seq::<u8>::empty());
        assert(parts(whole) =~= parts(base).push(part_of(name)->0));
    } else {
        // What the path is when it ends in exactly one separator.
        let cut = if base.last() == SLASH {
            base.drop_last()
        } else {
            base
        };
        assert(whole =~= cut.push(SLASH) + name);
        if cut.len() == 0 {
            assert(base =~= seq![SLASH]);
            assert(whole.skip(1) =~= name);
            assert(base.skip(1) =~= Seq::<u8>::empty());
            body_parts_of_a_segment(name);
            assert(parts(whole) =~= parts(base).push(part_of(name)->0));
        } else {
            start_survives_appending(cut, name);
            if base.last() == SLASH {
                start_survives_appending(cut, Seq::empty());
                assert(cut.push(SLASH) + Seq::<u8>::empty() =~= base);
                assert(base.skip(n) =~= cut.skip(n).push(SLASH));
                body_parts_trailing_slash(cut.skip(n));
            }
            assert(whole.skip(n) =~= cut.skip(n).push(SLASH) + name);
            body_parts_append(cut.skip(n), name);
            assert(parts(whole) =~= parts(base).push(part_of(name)->0));
        }
    }
}

/// Appending behind a separator does not change how a path starts.
proof fn start_survives_appending(cut: Seq<u8>, name: Seq<u8>)
    requires
        cut.len() > 0,
        no_slash(name),
    ensures
        start_len(cut.push(SLASH) + name) == start_len(cut),
        start_part(cut.push(SLASH) + name) == start_part(cut),
{
    let whole = cut.push(SLASH) + name;
    segment_end_is_the_first_slash(cut);
    let end = segment_end(cut);
    assert(whole.take(end) =~= cut.take(end));
    assert(whole[end] == SLASH);
    segment_end_is_unique(whole, end);
}

/// Split a path into its components.
pub fn components(path: &[u8]) -> (out: Vec<Component<'_>>)
    ensures
        views(out@) == parts(path@),
{
    let mut out: Vec<Component<'_>> = Vec::new();
    let mut at: usize = 0;
    proof {
        segment_end_is_the_first_slash(path@);
    }
    if path.len() > 0 && path[0] == SLASH {
        out.push(Component::RootDir);
        at = 1;
    } else if path.len() > 0 && path[0] == DOT && (path.len() == 1 || path[1] == SLASH) {
        out.push(Component::CurDir);
        at = 1;
        proof {
            assert(no_slash(path@.take(1)));
            segment_end_is_unique(path@, 1);
        }
    }
    proof {
        if path@.len() > 0 && path@[0] == DOT && segment_end(path@) == 1 {
            assert(path@.len() == 1 || path@[1] == SLASH);
        }
        assert(views(out@) =~= listed(start_part(path@)));
        assert(views(out@) + body_parts(path@.skip(at as int)) =~= parts(path@));
    }
    while at < path.len()
        invariant
            at <= path@.len(),
            views(out@) + body_parts(path@.skip(at as int)) == parts(path@),
        decreases path@.len() - at,
    {
        let ghost tail = path@.skip(at as int);
        let start: usize = at;
        while at < path.len() && path[at] != SLASH
            invariant
                start <= at <= path@.len(),
                forall|k: int| start <= k < at ==> path@[k] != SLASH,
            decreases path@.len() - at,
        {
            at = at + 1;
        }
        let segment: &[u8] = &path[start..at];
        proof {
            assert(tail.take(at - start) =~= segment@);
            segment_end_is_unique(tail, at - start);
            assert(after_segment(tail) =~= path@.skip(if at < path@.len() {
                at + 1
            } else {
                at as int
            }));
        }
        let ghost before = out@;
        let is_dot = segment.len() == 1 && segment[0] == DOT;
        proof {
            assert(is_dot == (segment@ =~= seq![DOT]));
        }
        if segment.len() != 0 && !is_dot {
            let is_parent = segment.len() == 2 && segment[0] == DOT && segment[1] == DOT;
            proof {
                assert(is_parent == (segment@ =~= seq![DOT, DOT]));
            }
            if is_parent {
                out.push(Component::ParentDir);
            } else {
                out.push(Component::Normal(segment));
            }
        }
        proof {
            assert(views(out@) =~= views(before) + listed(part_of(segment@)));
            assert(body_parts(tail) == listed(part_of(segment@)) + body_parts(
                after_segment(tail),
            ));
        }
        if at < path.len() {
            at = at + 1;
        }
        proof {
            assert(views(out@) + body_parts(path@.skip(at as int)) =~= views(before) + body_parts(
                tail,
            ));
        }
    }
    proof {
        assert(path@.skip(at as int) =~= Seq::<u8>::empty());
        assert(views(out@) + Seq::<Part>::empty() =~= views(out@));
    }
    out
}

/// The components of a list, each taken by its view.
pub open spec fn views(components: Seq<Component<'_>>) -> Seq<Part> {
    components.map_values(|c: Component<'_>| c@)
}

/// Append `name` to `path`, the way a path joins.
pub fn push(path: &mut Vec<u8>, name: &[u8])
    ensures
        final(path)@ == pushed(old(path)@, name@),
{
    if name.len() > 0 && name[0] == SLASH {
        path.clear();
    } else if path.len() > 0 && path[path.len() - 1] != SLASH {
        path.push(SLASH);
    }
    push_bytes(path, name);
    assert(path@ =~= pushed(old(path)@, name@));
}

/// `dir` with `name` appended.
pub fn joined_path(dir: &[u8], name: &[u8]) -> (out: Vec<u8>)
    ensures
        out@ == pushed(dir@, name@),
{
    let mut out: Vec<u8> = to_bytes(dir);
    push(&mut out, name);
    out
}

/// Whether two components are the same.
fn same_component(a: &Component<'_>, b: &Component<'_>) -> (r: bool)
    ensures
        r == (a@ == b@),
{
    match (a, b) {
        (Component::RootDir, Component::RootDir) => true,
        (Component::CurDir, Component::CurDir) => true,
        (Component::ParentDir, Component::ParentDir) => true,
        (Component::Normal(x), Component::Normal(y)) => same_bytes(x, y),
        _ => false,
    }
}

/// Whether two paths are equal: the same components, whatever separators and
/// dots stand between them.
pub fn paths_equal(a: &[u8], b: &[u8]) -> (r: bool)
    ensures
        r == same_path(a@, b@),
{
    let x: Vec<Component<'_>> = components(a);
    let y: Vec<Component<'_>> = components(b);
    proof {
        assert(views(x@).len() == x@.len());
        assert(views(y@).len() == y@.len());
    }
    if x.len() != y.len() {
        return false;
    }
    let mut i: usize = 0;
    while i < x.len()
        invariant
            i <= x@.len(),
            x@.len() == y@.len(),
            views(x@) == parts(a@),
            views(y@) == parts(b@),
            forall|k: int| 0 <= k < i ==> x@[k]@ == y@[k]@,
        decreases x@.len() - i,
    {
        if !same_component(&x[i], &y[i]) {
            proof {
                assert(views(x@)[i as int] != views(y@)[i as int]);
            }
            return false;
        }
        i = i + 1;
    }
    proof {
        assert(views(x@) =~= views(y@));
    }
    true
}

/// Where the last separator of `s` is, or -1 if it has none.
pub open spec fn last_slash(s: Seq<u8>) -> int
    decreases s.len(),
{
    if s.len() == 0 {
        -1
    } else if s.last() == SLASH {
        s.len() - 1
    } else {
        last_slash(s.drop_last())
    }
}

/// What stands behind the last separator of `s`.
pub open spec fn last_segment(s: Seq<u8>) -> Seq<u8> {
    s.skip(last_slash(s) + 1)
}

/// What stands before the last separator of `s`.
pub open spec fn before_last(s: Seq<u8>) -> Seq<u8> {
    if last_slash(s) < 0 {
        Seq::empty()
    } else {
        s.take(last_slash(s))
    }
}

/// `s` without the segments at its end that are no components.
pub open spec fn trimmed(s: Seq<u8>) -> Seq<u8>
    decreases s.len(),
{
    if s.len() == 0 || part_of(last_segment(s)) is Some {
        s
    } else {
        proof {
            last_slash_is_the_last(s);
        }
        trimmed(before_last(s))
    }
}

/// The directory a path stands in: the path without its last component, and
/// without what separated the two.  The root has none, nor has the empty path.
pub open spec fn parent_of(path: Seq<u8>) -> Option<Seq<u8>> {
    let start = start_len(path);
    let body = trimmed(path.skip(start));
    if body.len() > 0 {
        Some(path.take(start) + trimmed(before_last(body)))
    } else if path.len() > 0 && path[0] != SLASH {
        Some(Seq::empty())
    } else {
        None
    }
}

/// `last_slash` is what its name says.
pub proof fn last_slash_is_the_last(s: Seq<u8>)
    ensures
        -1 <= last_slash(s) < s.len(),
        last_slash(s) >= 0 ==> s[last_slash(s)] == SLASH,
        forall|i: int| last_slash(s) < i < s.len() ==> s[i] != SLASH,
    decreases s.len(),
{
    if s.len() > 0 && s.last() != SLASH {
        last_slash_is_the_last(s.drop_last());
        assert forall|i: int| last_slash(s) < i < s.len() implies s[i] != SLASH by {
            if i < s.len() - 1 {
                assert(s.drop_last()[i] == s[i]);
            }
        }
    }
}

/// The last separator is the only one with none behind it.
proof fn last_slash_is_unique(s: Seq<u8>, at: int)
    requires
        -1 <= at < s.len(),
        at >= 0 ==> s[at] == SLASH,
        forall|i: int| at < i < s.len() ==> s[i] != SLASH,
    ensures
        last_slash(s) == at,
{
    last_slash_is_the_last(s);
}

/// Cutting the last segment off takes its component off.
proof fn body_parts_split(s: Seq<u8>)
    ensures
        body_parts(s) == body_parts(before_last(s)) + listed(part_of(last_segment(s))),
{
    last_slash_is_the_last(s);
    let name = last_segment(s);
    assert(no_slash(name));
    if last_slash(s) >= 0 {
        assert(s =~= before_last(s).push(SLASH) + name);
        body_parts_append(before_last(s), name);
    } else {
        assert(name =~= s);
        body_parts_of_a_segment(s);
        assert(body_parts(Seq::<u8>::empty()) + listed(part_of(name)) =~= listed(part_of(name)));
    }
}

/// Trimming takes no component off.
proof fn trimming_keeps_the_components(s: Seq<u8>)
    ensures
        body_parts(trimmed(s)) == body_parts(s),
        trimmed(s).len() <= s.len(),
        trimmed(s) == s.take(trimmed(s).len() as int),
        trimmed(s).len() > 0 ==> part_of(last_segment(trimmed(s))) is Some,
    decreases s.len(),
{
    last_slash_is_the_last(s);
    if s.len() == 0 || part_of(last_segment(s)) is Some {
        assert(s =~= s.take(s.len() as int));
    } else {
        let cut = before_last(s);
        body_parts_split(s);
        assert(body_parts(cut) + listed(part_of(last_segment(s))) =~= body_parts(cut));
        trimming_keeps_the_components(cut);
        let t = trimmed(cut).len() as int;
        assert(s.take(t) =~= cut.take(t));
    }
}

/// The parent of a path has all of its components but the last, and is missing
/// for no other path than the root and the empty one.
pub proof fn a_parent_lacks_the_last_component(path: Seq<u8>)
    ensures
        match parent_of(path) {
            Some(parent) => parts(path).len() > 0 && parts(parent) == parts(path).drop_last(),
            None => parts(path).len() == 0 || parts(path) == seq![Part::Root],
        },
{
    let start = start_len(path);
    let whole = path.skip(start);
    let body = trimmed(whole);
    trimming_keeps_the_components(whole);
    segment_end_is_the_first_slash(path);
    if body.len() > 0 {
        let cut = before_last(body);
        let kept = trimmed(cut);
        last_slash_is_the_last(body);
        body_parts_split(body);
        trimming_keeps_the_components(cut);
        let parent = path.take(start) + kept;
        let n = kept.len() as int;
        assert(parent =~= path.take(start + n)) by {
            assert(kept =~= whole.take(n));
        }
        assert(parent.skip(start) =~= kept);
        // The start of the path is the start of its parent.
        assert(start_len(parent) == start) by {
            let end = segment_end(path);
            segment_end_is_the_first_slash(parent);
            if start == 1 && path[0] == DOT {
                if n > 0 {
                    assert(parent[1] == path[1]);
                }
                assert(no_slash(parent.take(1)));
                segment_end_is_unique(parent, 1);
            }
            if start == 0 && parent.len() > 0 && parent[0] == DOT && segment_end(parent) == 1 {
                if parent.len() > 1 {
                    assert(path[1] == SLASH);
                    assert(no_slash(path.take(1)));
                    segment_end_is_unique(path, 1);
                } else {
                    // A trimmed prefix cannot end in `.`.
                    assert(kept =~= seq![DOT]);
                    last_slash_is_unique(kept, -1);
                    assert(last_segment(kept) =~= kept);
                }
            }
        }
        assert(start_part(parent) == start_part(path));
        assert(parts(path) =~= parts(parent) + listed(part_of(last_segment(body))));
        assert(parts(path).drop_last() =~= parts(parent));
    } else {
        assert(body_parts(whole) =~= Seq::<Part>::empty());
        if start == 1 {
            assert(parts(path) =~= listed(start_part(path)));
            if path[0] != SLASH {
                let none = Seq::<u8>::empty();
                assert(none.skip(0) =~= none);
                assert(parts(none) =~= Seq::<Part>::empty());
                assert(parts(path).drop_last() =~= parts(none));
            }
        } else if path.len() > 0 {
            // A path that does not start with a separator or a `.` starts with
            // a component.
            assert(whole =~= path);
            let end = segment_end(path);
            let first = path.take(end);
            assert(part_of(first) is Some) by {
                if first =~= seq![DOT] {
                    assert(path[0] == first[0]);
                }
                assert(end > 0);
            }
            assert(body_parts(path)[0] == part_of(first)->0);
        } else {
            assert(parts(path) =~= Seq::<Part>::empty());
        }
    }
}

/// Where a body that ends at `end` ends once its end is trimmed.
fn trim_end(path: &[u8], start: usize, end: usize) -> (r: usize)
    requires
        start <= end <= path@.len(),
    ensures
        start <= r <= end,
        path@.subrange(start as int, r as int) == trimmed(path@.subrange(start as int, end as int)),
{
    let mut r: usize = end;
    while r > start
        invariant
            start <= r <= end <= path@.len(),
            trimmed(path@.subrange(start as int, r as int)) == trimmed(
                path@.subrange(start as int, end as int),
            ),
        ensures
            path@.subrange(start as int, r as int) == trimmed(
                path@.subrange(start as int, end as int),
            ),
        decreases r,
    {
        let ghost body = path@.subrange(start as int, r as int);
        let at: usize = segment_start(path, start, r);
        let segment: &[u8] = &path[at..r];
        proof {
            assert(segment@ =~= last_segment(body));
            assert((segment@.len() == 1 && segment@[0] == DOT) == (segment@ =~= seq![DOT]));
        }
        if segment.len() != 0 && !(segment.len() == 1 && segment[0] == DOT) {
            break;
        }
        if at > start {
            proof {
                assert(path@.subrange(start as int, at - 1) =~= before_last(body));
            }
            r = at - 1;
        } else {
            proof {
                assert(path@.subrange(start as int, start as int) =~= before_last(body));
            }
            r = start;
        }
    }
    r
}

/// Where the last segment of a body starts.
fn segment_start(path: &[u8], start: usize, end: usize) -> (r: usize)
    requires
        start <= end <= path@.len(),
    ensures
        start <= r <= end,
        last_slash(path@.subrange(start as int, end as int)) == r - start - 1,
{
    let mut r: usize = end;
    while r > start && path[r - 1] != SLASH
        invariant
            start <= r <= end <= path@.len(),
            forall|k: int| r <= k < end ==> path@[k] != SLASH,
        decreases r,
    {
        r = r - 1;
    }
    proof {
        last_slash_is_unique(path@.subrange(start as int, end as int), r - start - 1);
    }
    r
}

/// The directory a path stands in, or `None` for the root and the empty path.
pub fn parent(path: &[u8]) -> (r: Option<&[u8]>)
    ensures
        opt_slice(r) == parent_of(path@),
{
    let mut start: usize = 0;
    proof {
        segment_end_is_the_first_slash(path@);
        trimming_keeps_the_components(path@.skip(start_len(path@)));
    }
    if path.len() > 0 && path[0] == SLASH {
        start = 1;
    } else if path.len() > 0 && path[0] == DOT && (path.len() == 1 || path[1] == SLASH) {
        start = 1;
        proof {
            assert(no_slash(path@.take(1)));
            segment_end_is_unique(path@, 1);
        }
    }
    proof {
        assert(start == start_len(path@));
        assert(path@.subrange(start as int, path@.len() as int) =~= path@.skip(start as int));
    }
    let end: usize = trim_end(path, start, path.len());
    if end > start {
        let ghost body = path@.subrange(start as int, end as int);
        let at: usize = segment_start(path, start, end);
        let cut: usize = if at > start {
            at - 1
        } else {
            start
        };
        assert(path@.subrange(start as int, cut as int) =~= before_last(body));
        let kept: usize = trim_end(path, start, cut);
        let r: &[u8] = &path[0..kept];
        assert(r@ =~= path@.take(start as int) + path@.subrange(start as int, kept as int));
        Some(r)
    } else if path.len() > 0 && path[0] != SLASH {
        let r: &[u8] = &path[0..0];
        assert(r@ =~= Seq::<u8>::empty());
        Some(r)
    } else {
        None
    }
}

/// A segment behind a separator adds the component that it is, if it is one.
proof fn a_segment_behind_a_slash(cut: Seq<u8>, segment: Seq<u8>)
    requires
        cut.len() > 0,
        no_slash(segment),
    ensures
        parts(cut.push(SLASH) + segment) == parts(cut) + listed(part_of(segment)),
{
    let whole = cut.push(SLASH) + segment;
    let n = start_len(cut);
    segment_end_is_the_first_slash(cut);
    start_survives_appending(cut, segment);
    assert(whole.skip(n) =~= cut.skip(n).push(SLASH) + segment);
    body_parts_append(cut.skip(n), segment);
    assert(parts(whole) =~= parts(cut) + listed(part_of(segment)));
}

/// A path is made of what stands between its slashes, from the front to the back.
///
/// Behind any path, one more segment that holds no slash is one more component:
/// `..` is the parent, and every other segment is a name, byte for byte.  An empty
/// segment is none, and `.` is one only where the path begins with it.
pub proof fn a_path_grows_by_its_segments(base: Seq<u8>, segment: Seq<u8>)
    requires
        forall|i: int| 0 <= i < segment.len() ==> #[trigger] segment[i] != 0x2f,
    ensures
        ({
            let whole = if base.len() == 0 || base.last() == 0x2f {
                base + segment
            } else {
                base + seq![0x2fu8] + segment
            };
            if segment.len() == 0 {
                parts(whole) == parts(base)
            } else if segment == seq![0x2eu8] {
                parts(whole) == (if base.len() == 0 {
                    seq![Part::Cur]
                } else {
                    parts(base)
                })
            } else if segment == seq![0x2eu8, 0x2eu8] {
                parts(whole) == parts(base).push(Part::Parent)
            } else {
                parts(whole) == parts(base).push(Part::Name(segment))
            }
        }),
{
    let part = part_of(segment);
    if part is Some {
        pushing_a_name_appends_one_component(base, segment);
        assert(base.push(SLASH) + segment =~= base + seq![0x2fu8] + segment);
    } else if base.len() == 0 {
        assert(base + segment =~= segment);
        if segment.len() == 0 {
            assert(segment =~= base);
        } else {
            reveal_with_fuel(segment_end, 2);
            assert(segment_end(seq![DOT]) == 1);
            assert(seq![DOT].skip(1) =~= Seq::<u8>::empty());
            assert(body_parts(Seq::<u8>::empty()) =~= Seq::<Part>::empty());
            assert(parts(seq![DOT]) =~= seq![Part::Cur]);
        }
    } else if base.last() == SLASH && base.len() == 1 {
        assert(base =~= seq![SLASH]);
        let whole = base + segment;
        assert(whole.skip(1) =~= segment);
        assert(base.skip(1) =~= Seq::<u8>::empty());
        body_parts_of_a_segment(segment);
        assert(parts(whole) =~= parts(base));
    } else if base.last() == SLASH {
        let cut = base.drop_last();
        assert(base + segment =~= cut.push(SLASH) + segment);
        assert(base =~= cut.push(SLASH) + Seq::<u8>::empty());
        a_segment_behind_a_slash(cut, segment);
        a_segment_behind_a_slash(cut, Seq::empty());
    } else {
        assert(base.push(SLASH) + segment =~= base + seq![0x2fu8] + segment);
        a_segment_behind_a_slash(base, segment);
        assert(parts(base) + listed(part) =~= parts(base));
    }
}

/// The empty path has no component, a slash alone is the root, and one more slash
/// behind a path adds nothing.
pub proof fn a_slash_is_the_root_or_nothing(base: Seq<u8>)
    ensures
        parts(Seq::empty()) == Seq::<Part>::empty(),
        parts(seq![0x2fu8]) == seq![Part::Root],
        base.len() > 0 ==> parts(base.push(0x2f)) == parts(base),
{
    let none = Seq::<u8>::empty();
    assert(none.skip(0) =~= none);
    assert(parts(none) =~= Seq::<Part>::empty());
    assert(seq![SLASH].skip(1) =~= none);
    assert(parts(seq![SLASH]) =~= seq![Part::Root]);
    if base.len() > 0 {
        a_segment_behind_a_slash(base, none);
        assert(base.push(SLASH) + none =~= base.push(SLASH));
        assert(parts(base) + listed(part_of(none)) =~= parts(base));
    }
}

/// Joining puts exactly one slash between a directory and a relative name, and an
/// absolute name stands alone.
pub proof fn a_join_has_one_slash_between(base: Seq<u8>, name: Seq<u8>)
    ensures
        name.len() > 0 && name[0] == 0x2f ==> pushed(base, name) == name,
        name.len() == 0 ==> pushed(base, name) == (if base.len() == 0 || base.last() == 0x2f {
            base
        } else {
            base + seq![0x2fu8]
        }),
        name.len() > 0 && name[0] != 0x2f ==> {
            let joined = pushed(base, name);
            &&& joined.skip(joined.len() - name.len()) == name
            &&& joined.len() >= base.len() + name.len()
            &&& joined.take(base.len() as int) == base
            &&& base.len() == 0 || base.last() == 0x2f ==> joined.len() == base.len() + name.len()
            &&& base.len() > 0 && base.last() != 0x2f ==> joined.len() == base.len() + 1
                + name.len() && joined[base.len() as int] == 0x2f
        },
{
    if name.len() == 0 {
        assert(base + name =~= base);
        assert(base.push(SLASH) + name =~= base + seq![0x2fu8]);
    } else if name[0] != SLASH {
        let joined = pushed(base, name);
        assert(joined.skip(joined.len() - name.len()) =~= name);
        assert(joined.take(base.len() as int) =~= base);
    }
}

/// A parent is the front of its path, byte for byte, and does not end in a slash
/// unless it is the root.
pub proof fn a_parent_is_the_front_of_its_path(path: Seq<u8>)
    ensures
        parent_of(path) matches Some(parent) ==> {
            &&& parent.len() < path.len()
            &&& parent == path.take(parent.len() as int)
            &&& parent.len() > 1 ==> parent.last() != 0x2f
        },
{
    let start = start_len(path);
    let whole = path.skip(start);
    let body = trimmed(whole);
    segment_end_is_the_first_slash(path);
    trimming_keeps_the_components(whole);
    if body.len() > 0 {
        let cut = before_last(body);
        let kept = trimmed(cut);
        last_slash_is_the_last(body);
        trimming_keeps_the_components(cut);
        let parent = path.take(start) + kept;
        assert(kept =~= whole.take(kept.len() as int));
        assert(parent =~= path.take(start + kept.len()));
        if cut.len() == body.len() {
            assert(last_slash(body) == body.len());
        }
        if kept.len() > 0 {
            last_slash_is_the_last(kept);
            if kept.last() == SLASH {
                assert(last_segment(kept) =~= Seq::<u8>::empty());
            }
            assert(parent.last() == kept.last());
        }
    }
}

/// Two paths compare equal exactly if they have the same components.
pub proof fn equal_paths_have_equal_components(a: &[u8], b: &[u8], r: bool)
    requires
        call_ensures(paths_equal, (a, b), r),
    ensures
        r <==> parts(a@) == parts(b@),
{
}

/// What a path splits into are its components, in their order, each name byte for
/// byte.
pub proof fn a_path_splits_into_its_components(path: &[u8], r: Vec<Component<'_>>, i: int)
    requires
        call_ensures(components, (path,), r),
        0 <= i < r@.len(),
    ensures
        r@.len() == parts(path@).len(),
        match r@[i] {
            Component::RootDir => parts(path@)[i] == Part::Root,
            Component::CurDir => parts(path@)[i] == Part::Cur,
            Component::ParentDir => parts(path@)[i] == Part::Parent,
            Component::Normal(name) => parts(path@)[i] == Part::Name(name@),
        },
{
    assert(views(r@)[i] == r@[i]@);
}

/// A path is joined in place as it is joined into a new one.  A path has a parent
/// unless it has no component but the root: its front, without its last component.
pub proof fn paths_are_joined_and_parted(
    dir: &[u8],
    name: &[u8],
    joined: Vec<u8>,
    above: Option<&[u8]>,
)
    requires
        call_ensures(joined_path, (dir, name), joined),
        call_ensures(parent, (dir,), above),
    ensures
        joined@ == pushed(dir@, name@),
        above is Some <==> parts(dir@).len() > 0 && parts(dir@) != seq![Part::Root],
        above matches Some(front) ==> parts(front@) == parts(dir@).drop_last() && front@
            == dir@.take(front@.len() as int),
        forall|path: &mut Vec<u8>|
            #[trigger] call_ensures(push, (path, name), ()) ==> final(path)@ == pushed(
                (*path)@,
                name@,
            ),
{
    a_parent_lacks_the_last_component(dir@);
    a_parent_is_the_front_of_its_path(dir@);
    if above is Some && parts(dir@) == seq![Part::Root] {
        a_root_has_no_parent(dir@);
    }
}

/// A path whose only component is the root has no parent.
proof fn a_root_has_no_parent(path: Seq<u8>)
    requires
        parts(path) == seq![Part::Root],
    ensures
        parent_of(path) is None,
{
    let start = start_len(path);
    let whole = path.skip(start);
    trimming_keeps_the_components(whole);
    let body = trimmed(whole);
    let head = listed(start_part(path));
    assert(parts(path)[0] == Part::Root);
    if start == 0 || path[0] != SLASH {
        if head.len() == 0 {
            root_is_no_segment(whole);
            assert(parts(path) =~= body_parts(whole));
        } else {
            assert(parts(path)[0] == head[0]);
        }
    } else {
        assert(parts(path)[0] == head[0]);
        assert(parts(path).len() == head.len() + body_parts(whole).len());
        if body.len() > 0 {
            body_parts_split(body);
        }
    }
}

/// No segment behind the start of a path is the root.
proof fn root_is_no_segment(s: Seq<u8>)
    ensures
        forall|i: int| 0 <= i < body_parts(s).len() ==> #[trigger] body_parts(s)[i] != Part::Root,
    decreases s.len(),
{
    if s.len() > 0 {
        segment_end_is_the_first_slash(s);
        root_is_no_segment(after_segment(s));
        let head = listed(part_of(s.take(segment_end(s))));
        let tail = body_parts(after_segment(s));
        assert forall|i: int| 0 <= i < body_parts(s).len() implies #[trigger] body_parts(s)[i]
            != Part::Root by {
            if i >= head.len() {
                assert(body_parts(s)[i] == tail[i - head.len()]);
            }
        }
    }
}

} // verus!
