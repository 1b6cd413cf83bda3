//! The marker `/proc` appends to the path of an object that lost its name.
//!
//! A link under `/proc/self/fd` ends in `" (deleted)"` when its object was
//! unlinked.  A file may also *be* named that way, and nothing in the bytes
//! tells the two apart, so the marker is reported as it came and removed only on
//! request.
use vstd::prelude::*;

use crate::path::{
    components, listed, no_slash, part_of, part_text, parts, push, pushed,
    pushing_a_name_appends_one_component, segment_end_is_the_first_slash, views, Component, Part,
    DOT, SLASH,
};
use crate::path::{after_segment, body_parts, segment_end, start_len, start_part};
use crate::wire::to_bytes;

verus! {

/// `" (deleted)"`.
pub const DELETED_MARKER: [u8; 10] = [
    0x20,
    0x28,
    0x64,
    0x65,
    0x6c,
    0x65,
    0x74,
    0x65,
    0x64,
    0x29,
];

/// Whether a name ends in the marker.
pub open spec fn is_marked(name: Seq<u8>) -> bool {
    name.len() >= 10 && name.skip(name.len() - 10) == DELETED_MARKER@
}

/// A name without the marker it ends in; a name that does not end in it as it
/// is.  At most one marker comes off.
pub open spec fn unmarked(name: Seq<u8>) -> Seq<u8> {
    if is_marked(name) {
        name.take(name.len() - 10)
    } else {
        name
    }
}

/// Whether a component is a name that ends in the marker.
pub open spec fn is_marked_part(part: Part) -> bool {
    part is Name && is_marked(part->Name_0)
}

/// Whether any component of a path ends in the marker.
pub open spec fn carries_marker(path: Seq<u8>) -> bool {
    exists|i: int| 0 <= i < parts(path).len() && is_marked_part(#[trigger] parts(path)[i])
}

/// The text of a component, without the marker if it is a name that ends in it.
pub open spec fn unmarked_text(part: Part) -> Seq<u8> {
    match part {
        Part::Name(name) => unmarked(name),
        other => part_text(other),
    }
}

/// The path made of the texts of `list`, each without its marker.
pub open spec fn rebuilt(list: Seq<Part>) -> Seq<u8>
    decreases list.len(),
{
    if list.len() == 0 {
        Seq::empty()
    } else {
        pushed(rebuilt(list.drop_last()), unmarked_text(list.last()))
    }
}

/// A path with one marker removed from every component that ends in one; byte
/// for byte the same path if none does.
pub open spec fn cleaned(path: Seq<u8>) -> Seq<u8> {
    if carries_marker(path) {
        rebuilt(parts(path))
    } else {
        path
    }
}

/// A component with its name's marker removed.
pub open spec fn cleaned_part(part: Part) -> Part {
    match part {
        Part::Name(name) => match part_of(unmarked(name)) {
            Some(cleaned) => cleaned,
            None => part,
        },
        other => other,
    }
}

/// Whether something is left of every component once its marker is gone: no
/// name is the marker alone, or the marker behind one dot.
pub open spec fn nothing_vanishes(path: Seq<u8>) -> bool {
    forall|i: int|
        0 <= i < parts(path).len() && (#[trigger] parts(path)[i]) is Name ==> part_of(
            unmarked(parts(path)[i]->Name_0),
        ) is Some
}

/// Where a component can stand: only the first can be the root or the leading
/// dot, and a name holds no separator and is neither empty nor a dot.
spec fn well_placed(list: Seq<Part>) -> bool {
    forall|i: int|
        0 <= i < list.len() ==> match #[trigger] list[i] {
            Part::Root => i == 0,
            Part::Cur => i == 0,
            Part::Parent => true,
            Part::Name(name) => no_slash(name) && part_of(name) == Some(Part::Name(name)),
        }
}

/// The components behind a path's start are names and `..` only.
proof fn body_parts_are_names(s: Seq<u8>)
    ensures
        forall|i: int|
            0 <= i < body_parts(s).len() ==> match #[trigger] body_parts(s)[i] {
                Part::Root => false,
                Part::Cur => false,
                Part::Parent => true,
                Part::Name(name) => no_slash(name) && part_of(name) == Some(Part::Name(name)),
            },
    decreases s.len(),
{
    if s.len() > 0 {
        segment_end_is_the_first_slash(s);
        body_parts_are_names(after_segment(s));
        let head = listed(part_of(s.take(segment_end(s))));
        let tail = body_parts(after_segment(s));
        assert forall|i: int| 0 <= i < body_parts(s).len() implies match #[trigger] body_parts(
            s,
        )[i] {
            Part::Root => false,
            Part::Cur => false,
            Part::Parent => true,
            Part::Name(name) => no_slash(name) && part_of(name) == Some(Part::Name(name)),
        } by {
            if i < head.len() {
                assert(body_parts(s)[i] == head[i]);
            } else {
                assert(body_parts(s)[i] == tail[i - head.len()]);
            }
        }
    }
}

/// The components of a path stand where they can.
proof fn parts_are_well_placed(path: Seq<u8>)
    ensures
        well_placed(parts(path)),
{
    body_parts_are_names(path.skip(start_len(path)));
    let head = listed(start_part(path));
    let tail = body_parts(path.skip(start_len(path)));
    assert forall|i: int| 0 <= i < parts(path).len() implies match #[trigger] parts(path)[i] {
        Part::Root => i == 0,
        Part::Cur => i == 0,
        Part::Parent => true,
        Part::Name(name) => no_slash(name) && part_of(name) == Some(Part::Name(name)),
    } by {
        if i < head.len() {
            assert(parts(path)[i] == head[i]);
        } else {
            assert(parts(path)[i] == tail[i - head.len()]);
        }
    }
}

/// Rebuilding a list of components gives a path with those components, each
/// without its marker.
proof fn rebuilt_has_the_cleaned_parts(list: Seq<Part>)
    requires
        well_placed(list),
        forall|i: int|
            0 <= i < list.len() && (#[trigger] list[i]) is Name ==> part_of(
                unmarked(list[i]->Name_0),
            ) is Some,
    ensures
        parts(rebuilt(list)) == list.map_values(|p: Part| cleaned_part(p)),
    decreases list.len(),
{
    let mapped = list.map_values(|p: Part| cleaned_part(p));
    if list.len() == 0 {
        assert(Seq::<u8>::empty().skip(0) =~= Seq::<u8>::empty());
        assert(parts(Seq::<u8>::empty()) =~= mapped);
    } else {
        let init = list.drop_last();
        let part = list.last();
        assert(part == list[list.len() - 1]);
        assert forall|i: int| 0 <= i < init.len() implies #[trigger] init[i] == list[i] by {}
        rebuilt_has_the_cleaned_parts(init);
        let base = rebuilt(init);
        let text = unmarked_text(part);
        match part {
            Part::Root => {
                assert(init =~= Seq::<Part>::empty());
                assert(base =~= Seq::<u8>::empty());
                assert(rebuilt(list) =~= seq![SLASH]);
                assert(seq![SLASH].skip(1) =~= Seq::<u8>::empty());
                assert(body_parts(Seq::<u8>::empty()) =~= Seq::<Part>::empty());
                assert(parts(rebuilt(list)) =~= mapped);
            },
            Part::Cur => {
                assert(init =~= Seq::<Part>::empty());
                assert(base =~= Seq::<u8>::empty());
                assert(rebuilt(list) =~= seq![DOT]);
                reveal_with_fuel(segment_end, 2);
                assert(segment_end(seq![DOT]) == 1);
                assert(seq![DOT].skip(1) =~= Seq::<u8>::empty());
                assert(body_parts(Seq::<u8>::empty()) =~= Seq::<Part>::empty());
                assert(parts(rebuilt(list)) =~= mapped);
            },
            Part::Parent => {
                assert(no_slash(text));
                pushing_a_name_appends_one_component(base, text);
                assert(mapped =~= init.map_values(|p: Part| cleaned_part(p)).push(part));
            },
            Part::Name(name) => {
                assert(no_slash(text));
                pushing_a_name_appends_one_component(base, text);
                assert(mapped =~= init.map_values(|p: Part| cleaned_part(p)).push(
                    cleaned_part(part),
                ));
            },
        }
    }
}

/// Removing markers never changes how many components a path has, nor any
/// component but those that end in a marker.
pub proof fn cleaning_keeps_the_other_components(path: Seq<u8>)
    requires
        nothing_vanishes(path),
    ensures
        parts(cleaned(path)) == parts(path).map_values(|p: Part| cleaned_part(p)),
        parts(cleaned(path)).len() == parts(path).len(),
{
    parts_are_well_placed(path);
    let list = parts(path);
    if carries_marker(path) {
        rebuilt_has_the_cleaned_parts(list);
    } else {
        assert forall|i: int| 0 <= i < list.len() implies cleaned_part(#[trigger] list[i])
            == list[i] by {
            assert(!is_marked_part(list[i]));
        }
        assert(list.map_values(|p: Part| cleaned_part(p)) =~= list);
    }
}

/// Whether a name ends in the marker.
///
/// Matching on bytes keeps this correct for a path that is not valid UTF-8.
pub fn ends_with_deleted_marker(name: &[u8]) -> (r: bool)
    ensures
        r == is_marked(name@),
{
    if name.len() < 10 {
        return false;
    }
    let start: usize = name.len() - 10;
    let mut i: usize = 0;
    while i < 10
        invariant
            i <= 10,
            start + 10 == name.len(),
            forall|k: int| 0 <= k < i ==> name@[start + k] == DELETED_MARKER@[k],
        decreases 10 - i,
    {
        if name[start + i] != DELETED_MARKER[i] {
            proof {
                assert(name@.skip(start as int)[i as int] != DELETED_MARKER@[i as int]);
            }
            return false;
        }
        i = i + 1;
    }
    assert(name@.skip(start as int) =~= DELETED_MARKER@);
    true
}

/// Whether **any** component of a path ends in the marker.
///
/// A deleted directory puts the marker in the middle of the paths derived from
/// it, so looking only at the last component would call a path usable that names
/// nothing.
pub fn carries_deleted_marker(path: &[u8]) -> (r: bool)
    ensures
        r == carries_marker(path@),
{
    let list: Vec<Component<'_>> = components(path);
    let mut i: usize = 0;
    while i < list.len()
        invariant
            i <= list@.len(),
            views(list@) == parts(path@),
            forall|k: int| 0 <= k < i ==> !is_marked_part(#[trigger] parts(path@)[k]),
        decreases list@.len() - i,
    {
        proof {
            assert(views(list@)[i as int] == list@[i as int]@);
        }
        if let Component::Normal(name) = list[i] {
            if ends_with_deleted_marker(name) {
                proof {
                    assert(is_marked_part(parts(path@)[i as int]));
                }
                return true;
            }
        }
        i = i + 1;
    }
    proof {
        assert(views(list@).len() == list@.len());
    }
    false
}

/// A path with one marker removed from every component that ends in one.
///
/// The path is returned byte for byte when no component does.
pub fn without_marker(path: &[u8]) -> (out: Vec<u8>)
    ensures
        out@ == cleaned(path@),
{
    let list: Vec<Component<'_>> = components(path);
    let mut out: Vec<u8> = Vec::new();
    let mut changed = false;
    let mut i: usize = 0;
    proof {
        assert(parts(path@).take(0) =~= Seq::<Part>::empty());
        assert(out@ =~= Seq::<u8>::empty());
    }
    while i < list.len()
        invariant
            i <= list@.len(),
            views(list@) == parts(path@),
            out@ == rebuilt(parts(path@).take(i as int)),
            changed <==> exists|k: int| 0 <= k < i && is_marked_part(#[trigger] parts(path@)[k]),
        decreases list@.len() - i,
    {
        proof {
            assert(views(list@)[i as int] == list@[i as int]@);
            assert(views(list@).len() == list@.len());
            assert(parts(path@).take(i + 1).drop_last() =~= parts(path@).take(i as int));
            assert(parts(path@).take(i + 1).last() == parts(path@)[i as int]);
        }
        match list[i] {
            Component::Normal(name) => {
                if ends_with_deleted_marker(name) {
                    let stripped: &[u8] = &name[0..name.len() - 10];
                    proof {
                        assert(stripped@ =~= unmarked(name@));
                        assert(is_marked_part(parts(path@)[i as int]));
                    }
                    push(&mut out, stripped);
                    changed = true;
                } else {
                    push(&mut out, name);
                }
            },
            Component::RootDir => {
                push(&mut out, &[SLASH]);
                assert([SLASH]@ =~= seq![SLASH]);
            },
            Component::CurDir => {
                push(&mut out, &[DOT]);
                assert([DOT]@ =~= seq![DOT]);
            },
            Component::ParentDir => {
                push(&mut out, &[DOT, DOT]);
                assert([DOT, DOT]@ =~= seq![DOT, DOT]);
            },
        }
        i = i + 1;
    }
    proof {
        assert(views(list@).len() == list@.len());
        assert(parts(path@).take(i as int) =~= parts(path@));
    }
    if changed {
        out
    } else {
        to_bytes(path)
    }
}

/// The bytes of `" (deleted)"`.
pub open spec fn marker() -> Seq<u8> {
    seq![0x20u8, 0x28u8, 0x64u8, 0x65u8, 0x6cu8, 0x65u8, 0x74u8, 0x65u8, 0x64u8, 0x29u8]
}

/// A name ends in the marker exactly if it is some other name with the marker
/// behind it, and taking the marker off gives that other name back.
pub proof fn a_marker_is_a_suffix(name: Seq<u8>, stem: Seq<u8>)
    ensures
        is_marked(stem + marker()),
        unmarked(stem + marker()) == stem,
        is_marked(name) ==> name == unmarked(name) + marker(),
        !is_marked(name) ==> unmarked(name) == name,
{
    let whole = stem + marker();
    assert(DELETED_MARKER@ =~= marker());
    assert(whole.skip(stem.len() as int) =~= marker());
    assert(whole.take(stem.len() as int) =~= stem);
    if is_marked(name) {
        assert(name.take(name.len() - 10) + name.skip(name.len() - 10) =~= name);
    }
}

/// A path carries the marker exactly if one of its components is a name with the
/// marker behind it, wherever in the path that component stands.
pub proof fn a_marked_path_has_a_marked_name(path: Seq<u8>)
    ensures
        carries_marker(path) <==> exists|i: int, stem: Seq<u8>|
            0 <= i < parts(path).len() && #[trigger] parts(path)[i] == Part::Name(
                #[trigger] (stem + marker()),
            ),
{
    if carries_marker(path) {
        let i = choose|i: int|
            0 <= i < parts(path).len() && is_marked_part(#[trigger] parts(path)[i]);
        let name = parts(path)[i]->Name_0;
        a_marker_is_a_suffix(name, Seq::empty());
        assert(parts(path)[i] == Part::Name(unmarked(name) + marker()));
    }
    assert forall|i: int, stem: Seq<u8>|
        0 <= i < parts(path).len() && #[trigger] parts(path)[i] == Part::Name(
            #[trigger] (stem + marker()),
        ) implies carries_marker(path) by {
        a_marker_is_a_suffix(Seq::empty(), stem);
        assert(is_marked_part(parts(path)[i]));
    }
}

/// Cleaning a path takes one marker off every name that ends in one and changes no
/// other component; a path without such a name stays as it is, byte for byte.
///
/// Where nothing but the marker, or one dot, stands in front of it, the component
/// is gone: such paths are left out here.
pub proof fn one_marker_comes_off_each_name(path: Seq<u8>)
    requires
        forall|i: int|
            0 <= i < parts(path).len() ==> #[trigger] parts(path)[i] != Part::Name(marker())
                && parts(path)[i] != Part::Name(seq![0x2eu8] + marker()),
    ensures
        parts(cleaned(path)).len() == parts(path).len(),
        forall|i: int, stem: Seq<u8>|
            0 <= i < parts(path).len() && #[trigger] parts(path)[i] == Part::Name(
                #[trigger] (stem + marker()),
            ) ==> parts(cleaned(path))[i] == (if stem == seq![0x2eu8, 0x2eu8] {
                Part::Parent
            } else {
                Part::Name(stem)
            }),
        forall|i: int|
            0 <= i < parts(path).len() && (forall|stem: Seq<u8>|
                parts(path)[i] != Part::Name(#[trigger] (stem + marker())))
                ==> #[trigger] parts(cleaned(path))[i] == parts(path)[i],
        !carries_marker(path) ==> cleaned(path) == path,
{
    let list = parts(path);
    parts_are_well_placed(path);
    assert forall|i: int| 0 <= i < list.len() && (#[trigger] list[i]) is Name implies part_of(
        unmarked(list[i]->Name_0),
    ) is Some by {
        let name = list[i]->Name_0;
        a_marker_is_a_suffix(name, Seq::empty());
        if is_marked(name) {
            let stem = unmarked(name);
            assert(Seq::<u8>::empty() + marker() =~= marker());
            if stem.len() == 0 {
                assert(stem =~= Seq::<u8>::empty());
            }
        }
    }
    cleaning_keeps_the_other_components(path);
    let mapped = list.map_values(|p: Part| cleaned_part(p));
    assert forall|i: int, stem: Seq<u8>|
        0 <= i < list.len() && #[trigger] list[i] == Part::Name(
            #[trigger] (stem + marker()),
        ) implies parts(cleaned(path))[i] == (if stem == seq![0x2eu8, 0x2eu8] {
        Part::Parent
    } else {
        Part::Name(stem)
    }) by {
        a_marker_is_a_suffix(Seq::empty(), stem);
        assert(part_of(unmarked(list[i]->Name_0)) is Some);
        assert(mapped[i] == cleaned_part(list[i]));
    }
    assert forall|i: int|
        0 <= i < list.len() && (forall|stem: Seq<u8>|
            list[i] != Part::Name(#[trigger] (stem + marker()))) implies #[trigger] parts(
        cleaned(path),
    )[i] == list[i] by {
        assert(mapped[i] == cleaned_part(list[i]));
        if let Part::Name(name) = list[i] {
            a_marker_is_a_suffix(name, Seq::empty());
            if is_marked(name) {
                assert(list[i] == Part::Name(unmarked(name) + marker()));
            }
        }
    }
}

/// The three questions about the marker are answered by the names of a path.
pub proof fn the_marker_is_looked_for_in_every_name(
    name: &[u8],
    path: &[u8],
    ends: bool,
    carries: bool,
    clean: Vec<u8>,
)
    requires
        call_ensures(ends_with_deleted_marker, (name,), ends),
        call_ensures(carries_deleted_marker, (path,), carries),
        call_ensures(without_marker, (path,), clean),
    ensures
        ends <==> exists|stem: Seq<u8>| name@ == #[trigger] (stem + marker()),
        carries <==> exists|i: int, stem: Seq<u8>|
            0 <= i < parts(path@).len() && #[trigger] parts(path@)[i] == Part::Name(
                #[trigger] (stem + marker()),
            ),
        !carries ==> clean@ == path@,
        clean@ == cleaned(path@),
{
    a_marked_path_has_a_marked_name(path@);
    a_marker_is_a_suffix(name@, Seq::empty());
    if ends {
        assert(name@ == unmarked(name@) + marker());
    }
    assert forall|stem: Seq<u8>| name@ == #[trigger] (stem + marker()) implies ends by {
        a_marker_is_a_suffix(Seq::empty(), stem);
    }
}

} // verus!
