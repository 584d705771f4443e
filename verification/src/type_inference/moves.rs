//! Which places have been moved out of.

use crate::collections::{
    place_entries, place_get, place_insert, place_map_clone, place_remove, place_set_clone,
    place_set_insert, place_set_items, place_set_remove, set_contains, PlaceKey,
};
use crate::cst::Context;
#[allow(unused_imports)]
use crate::cst::ContextState;
use crate::ids::{Location, NameId};
use rustc_hash::{FxHashMap, FxHashSet};
use vstd::prelude::*;

verus! {

broadcast use vstd::seq_lib::group_seq_properties;

/// A place: the variable it is in, and the fields that lead to it.
pub type Place = (NameId, Seq<Seq<char>>);

/// The place `field` of `place`.
pub open spec fn field_of(place: Place, field: Seq<char>) -> Place {
    (place.0, place.1.push(field))
}

/// `place` lies strictly under `ancestor`.
pub open spec fn is_under(place: Place, ancestor: Place) -> bool {
    &&& place.0 == ancestor.0
    &&& ancestor.1.len() < place.1.len()
    &&& ancestor.1 == place.1.take(ancestor.1.len() as int)
}

/// `place`, which lies under `prefix`, as the same part of `new_root`.
pub open spec fn moved_under(place: Place, prefix: Place, new_root: Place) -> Place {
    (new_root.0, new_root.1 + place.1.skip(prefix.1.len() as int))
}

/// A path that can be moved: a variable, or a chain of field accesses such as `x.one.two`.
#[derive(Debug)]
pub enum MovePath {
    Variable(NameId),
    Field(Box<MovePath>, String),
}

impl View for MovePath {
    type V = Place;

    open spec fn view(&self) -> Place {
        self.place()
    }
}

impl MovePath {
    /// The place this path leads to.
    pub open spec fn place(self) -> Place
        decreases self,
    {
        match self {
            MovePath::Variable(name) => (name, Seq::empty()),
            MovePath::Field(parent, field) => field_of(parent.place(), field@),
        }
    }
}

impl Clone for MovePath {
    fn clone(&self) -> (copy: Self)
        ensures
            copy@ == self@,
        decreases self,
    {
        match self {
            MovePath::Variable(name) => MovePath::Variable(*name),
            MovePath::Field(parent, field) => MovePath::Field(
                Box::new((**parent).clone()),
                field.clone(),
            ),
        }
    }
}

impl MovePath {
    /// Project a field out of a parent place: `whole` and `a` make `whole.a`.
    pub fn field(parent: MovePath, field: String) -> (path: MovePath)
        ensures
            path@ == field_of(parent@, field@),
    {
        MovePath::Field(Box::new(parent), field)
    }

    /// Whether both are the same place.
    pub fn same_place(&self, other: &MovePath) -> (same: bool)
        ensures
            same == (self@ == other@),
        decreases self,
    {
        match (self, other) {
            (MovePath::Variable(a), MovePath::Variable(b)) => *a == *b,
            (MovePath::Field(parent, field), MovePath::Field(other_parent, other_field)) => {
                proof {
                    assert(self@.1.drop_last() =~= parent@.1);
                    assert(other@.1.drop_last() =~= other_parent@.1);
                    assert(self@.1.last() == field@);
                    assert(other@.1.last() == other_field@);
                }
                parent.same_place(other_parent) && *field == *other_field
            },
            _ => {
                assert(self@.1.len() != other@.1.len());
                false
            },
        }
    }

    /// Whether this place lies strictly under `ancestor`: `x.a.b` does under `x.a` and `x`, but
    /// not under `x.a.b`.
    pub fn is_descendant_of(&self, ancestor: &MovePath) -> (under: bool)
        ensures
            under == is_under(self@, ancestor@),
        decreases self,
    {
        match self {
            MovePath::Field(parent, field) => {
                proof {
                    let fields = self@.1;
                    let length = ancestor@.1.len() as int;
                    assert(fields == parent@.1.push(field@));
                    if length <= parent@.1.len() {
                        assert(fields.take(length) =~= parent@.1.take(length));
                        assert(parent@.1.take(parent@.1.len() as int) =~= parent@.1);
                    }
                }
                parent.same_place(ancestor) || parent.is_descendant_of(ancestor)
            },
            MovePath::Variable(_) => false,
        }
    }

    /// If this place lies strictly under `prefix`, the same part of `new_root`: `x.a.b` with the
    /// prefix `x.a` and the new root `p` becomes `p.b`.
    pub fn reroot(&self, prefix: &MovePath, new_root: &MovePath) -> (path: Option<MovePath>)
        ensures
            match path {
                Some(path) => is_under(self@, prefix@) && path@ == moved_under(
                    self@,
                    prefix@,
                    new_root@,
                ),
                None => !is_under(self@, prefix@),
            },
        decreases self,
    {
        match self {
            MovePath::Field(parent, field) => {
                proof {
                    let fields = self@.1;
                    let length = prefix@.1.len() as int;
                    assert(fields == parent@.1.push(field@));
                    if length <= parent@.1.len() {
                        assert(fields.take(length) =~= parent@.1.take(length));
                        assert(parent@.1.take(parent@.1.len() as int) =~= parent@.1);
                        assert(fields.skip(length) =~= parent@.1.skip(length).push(field@));
                        assert(moved_under(self@, prefix@, new_root@).1 =~= (new_root@.1
                            + parent@.1.skip(length)).push(field@));
                    }
                }
                if parent.same_place(prefix) {
                    assert(parent@.1.skip(prefix@.1.len() as int) =~= Seq::<Seq<char>>::empty());
                    assert(new_root@.1 + Seq::<Seq<char>>::empty() =~= new_root@.1);
                    Some(MovePath::field(new_root.clone(), field.clone()))
                } else {
                    match parent.reroot(prefix, new_root) {
                        Some(path) => Some(MovePath::field(path, field.clone())),
                        None => None,
                    }
                }
            },
            MovePath::Variable(_) => None,
        }
    }

    /// The variable this path starts in.
    pub fn root_variable(&self) -> (name: NameId)
        ensures
            name == self@.0,
        decreases self,
    {
        match self {
            MovePath::Variable(name) => *name,
            MovePath::Field(parent, _) => parent.root_variable(),
        }
    }

    /// How a place is written: `c.one.two`.
    pub open spec fn displayed(names: ContextState, place: Place) -> Seq<char>
        decreases place.1.len(),
    {
        if place.1.len() == 0 {
            names.name(place.0)
        } else {
            MovePath::displayed(names, (place.0, place.1.drop_last())) + "."@ + place.1.last()
        }
    }

    pub fn display_name(&self, context: &Context) -> (name: String)
        ensures
            name@ == MovePath::displayed(context@, self@),
        decreases self,
    {
        match self {
            MovePath::Variable(name) => context.name(*name),
            MovePath::Field(parent, field) => {
                assert(self@.1.drop_last() =~= parent@.1);
                let mut name = parent.display_name(context);
                name.append(".");
                name.append(field.as_str());
                name
            },
        }
    }

    /// The place as a key of a map.
    pub(crate) fn to_key(&self) -> (key: PlaceKey)
        ensures
            key.deep_view() == self@,
        decreases self,
    {
        match self {
            MovePath::Variable(name) => {
                let fields: Vec<String> = Vec::new();
                assert(fields.deep_view() =~= Seq::<Seq<char>>::empty());
                (*name, fields)
            },
            MovePath::Field(parent, field) => {
                let (root, mut fields) = parent.to_key();
                let ghost before = fields;
                fields.push(field.clone());
                assert(fields.deep_view() =~= before.deep_view().push(field@));
                (root, fields)
            },
        }
    }

    /// The place a key of a map stands for.
    pub(crate) fn from_key(key: &PlaceKey) -> (path: MovePath)
        ensures
            path@ == key.deep_view(),
    {
        let mut path = MovePath::Variable(key.0);
        let mut i: usize = 0;
        while i < key.1.len()
            invariant
                i <= key.1.len(),
                path@.0 == key.0,
                path@.1 == key.1.deep_view().take(i as int),
            decreases key.1.len() - i,
        {
            path = MovePath::field(path, key.1[i].clone());
            assert(key.1.deep_view().take(i + 1) =~= key.1.deep_view().take(i as int).push(
                key.1@[i as int]@,
            ));
            i += 1;
        }
        assert(key.1.deep_view().take(i as int) =~= key.1.deep_view());
        path
    }
}

/// Moving a place under a new root and back leads to where it was.
pub proof fn law_moving_under_is_undone(place: Place, prefix: Place, new_root: Place)
    requires
        is_under(place, prefix),
    ensures
        is_under(moved_under(place, prefix, new_root), new_root),
        moved_under(moved_under(place, prefix, new_root), new_root, prefix) == place,
{
    let moved = moved_under(place, prefix, new_root);
    let length = new_root.1.len() as int;
    assert(moved.1.take(length) =~= new_root.1);
    assert(moved.1.skip(length) =~= place.1.skip(prefix.1.len() as int));
    assert(prefix.1 + place.1.skip(prefix.1.len() as int) =~= place.1);
}

/// Which places have been moved, and where; and for which of them that was reported.
#[verifier::ext_equal]
pub struct Moves {
    pub moved: Map<Place, Location>,
    pub errored: Set<Place>,
}

/// Tracks which places have been moved in the current scope: a value that is not `Copy` may be
/// used once.
pub struct MoveTracker {
    pub moved: FxHashMap<PlaceKey, Location>,
    pub errored: FxHashSet<PlaceKey>,
}

impl View for MoveTracker {
    type V = Moves;

    open spec fn view(&self) -> Moves {
        Moves { moved: self.moved.deep_view(), errored: self.errored.deep_view() }
    }
}

/// The move record of a path before an expression was inferred.
pub struct SavedMove {
    pub path: MovePath,
    pub location: Option<Location>,
}

impl Moves {
    pub open spec fn none() -> Moves {
        Moves { moved: Map::empty(), errored: Set::empty() }
    }

    pub open spec fn with_move(self, place: Place, location: Location) -> Moves {
        Moves { moved: self.moved.insert(place, location), ..self }
    }

    /// These moves without those of `place` and of what lies under it.
    pub open spec fn cleared(self, place: Place) -> Moves {
        Moves {
            moved: Map::new(
                |p: Place| self.moved.contains_key(p) && p != place && !is_under(p, place),
                |p: Place| self.moved[p],
            ),
            errored: Set::new(
                |p: Place| self.errored.contains(p) && p != place && !is_under(p, place),
            ),
        }
    }

    /// Where `place` itself was moved.
    pub open spec fn record(self, place: Place) -> Option<Location> {
        if self.moved.contains_key(place) {
            Some(self.moved[place])
        } else {
            None
        }
    }

    /// These moves with the record of `place` set back to `saved`.
    pub open spec fn restored(self, place: Place, saved: Option<Location>) -> Moves {
        Moves {
            moved: match saved {
                Some(location) => self.moved.insert(place, location),
                None => self.moved.remove(place),
            },
            ..self
        }
    }

    /// Where `place`, or else the closest place above it that was moved, was moved.
    pub open spec fn moved_at(self, place: Place) -> Option<Location>
        decreases place.1.len(),
    {
        if self.moved.contains_key(place) {
            Some(self.moved[place])
        } else if place.1.len() > 0 {
            self.moved_at((place.0, place.1.drop_last()))
        } else {
            None
        }
    }

    /// Something strictly under `place` was moved.
    pub open spec fn moved_below(self, place: Place) -> bool {
        exists|p: Place| #[trigger] self.moved.contains_key(p) && is_under(p, place)
    }

    /// The moves strictly under `prefix`, as moves of the same parts of `new_root`.
    pub open spec fn rerooted(self, prefix: Place, new_root: Place) -> Moves {
        Moves {
            moved: Map::new(
                |p: Place|
                    is_under(p, new_root) && self.moved.contains_key(
                        moved_under(p, new_root, prefix),
                    ),
                |p: Place| self.moved[moved_under(p, new_root, prefix)],
            ),
            errored: Set::empty(),
        }
    }

    /// The variables that were moved whole.
    pub open spec fn whole(self) -> Set<NameId> {
        Set::new(|name: NameId| self.moved.contains_key((name, Seq::empty())))
    }

    /// These moves, and those of `other` that start in `roots`.
    pub open spec fn merged(self, other: Moves, roots: Set<NameId>) -> Moves {
        Moves {
            moved: Map::new(
                |p: Place|
                    self.moved.contains_key(p) || (other.moved.contains_key(p) && roots.contains(
                        p.0,
                    )),
                |p: Place|
                    if self.moved.contains_key(p) {
                        self.moved[p]
                    } else {
                        other.moved[p]
                    },
            ),
            errored: Set::new(
                |p: Place| self.errored.contains(p) || (other.errored.contains(p) && roots.contains(
                    p.0,
                )),
            ),
        }
    }

    /// What was moved before or in one of the first `count` branches.
    pub open spec fn after_branches(self, branches: Seq<Moves>, count: int) -> Moves
        decreases count,
    {
        if count <= 0 {
            self
        } else {
            self.after_branches(branches, count - 1).merged(branches[count - 1], Set::full())
        }
    }
}

/// What the trackers of branches hold.
pub open spec fn all_moves(branches: Seq<MoveTracker>) -> Seq<Moves> {
    branches.map_values(|branch: MoveTracker| branch@)
}

impl Clone for MoveTracker {
    fn clone(&self) -> (copy: Self)
        ensures
            copy@ == self@,
    {
        MoveTracker {
            moved: place_map_clone(&self.moved),
            errored: place_set_clone(&self.errored),
        }
    }
}

impl Default for MoveTracker {
    fn default() -> (tracker: Self)
        ensures
            tracker@ == Moves::none(),
    {
        let tracker = MoveTracker { moved: FxHashMap::default(), errored: FxHashSet::default() };
        proof {
            reveal(vstd::std_specs::hash::hash_map_deep_view_impl);
            assert(tracker@.moved =~= Map::<Place, Location>::empty());
            assert(tracker@.errored =~= Set::<Place>::empty());
        }
        tracker
    }
}

impl MoveTracker {
    /// Record that a path has been moved at the given location.
    pub fn record_move(&mut self, path: MovePath, location: Location)
        ensures
            final(self)@ == old(self)@.with_move(path@, location),
    {
        place_insert(&mut self.moved, path.to_key(), location);
    }

    /// Forget the moves of `path` and of what lies under it: `path` is being assigned to.
    pub fn clear_moves(&mut self, path: &MovePath)
        ensures
            final(self)@ == old(self)@.cleared(path@),
    {
        let entries = place_entries(&self.moved);
        let ghost before = self@.moved;
        let mut i: usize = 0;
        while i < entries.len()
            invariant
                i <= entries.len(),
                self@.errored == old(self)@.errored,
                forall|p: Place| #[trigger]
                    self@.moved.contains_key(p) ==> before.contains_key(p) && self@.moved[p]
                        == before[p],
                forall|p: Place|
                    before.contains_key(p) && p != path@ && !is_under(p, path@) ==> #[trigger]
                        self@.moved.contains_key(p),
                forall|j: int|
                    0 <= j < i && ((#[trigger] entries@[j]).0.deep_view() == path@ || is_under(
                        entries@[j].0.deep_view(),
                        path@,
                    )) ==> !self@.moved.contains_key(entries@[j].0.deep_view()),
            decreases entries.len() - i,
        {
            let ghost start = self@;
            let place = MovePath::from_key(&entries[i].0);
            if place.same_place(path) || place.is_descendant_of(path) {
                place_remove(&mut self.moved, &entries[i].0);
            }
            assert forall|p: Place| #[trigger] self@.moved.contains_key(
                p,
            ) implies start.moved.contains_key(p) && self@.moved[p] == start.moved[p] by {
            }
            assert forall|p: Place|
                before.contains_key(p) && p != path@ && !is_under(p, path@) implies #[trigger]
            self@.moved.contains_key(p) by {
                assert(start.moved.contains_key(p));
            }
            i += 1;
        }
        proof {
            assert forall|p: Place| #[trigger] self@.moved.contains_key(p) implies p != path@
                && !is_under(p, path@) by {
                let j = choose|j: int|
                    0 <= j < entries@.len() && (#[trigger] entries@[j]).0.deep_view() == p;
                assert(entries@[j].0.deep_view() == p);
            }
            assert(self@.moved =~= old(self)@.cleared(path@).moved);
        }
        let items = place_set_items(&self.errored);
        let ghost before = self@.errored;
        let mut i: usize = 0;
        while i < items.len()
            invariant
                i <= items.len(),
                self@.moved == old(self)@.cleared(path@).moved,
                self@.errored.subset_of(before),
                forall|p: Place|
                    before.contains(p) && p != path@ && !is_under(p, path@) ==> #[trigger]
                        self@.errored.contains(p),
                forall|j: int|
                    0 <= j < i && ((#[trigger] items@[j]).deep_view() == path@ || is_under(
                        items@[j].deep_view(),
                        path@,
                    )) ==> !self@.errored.contains(items@[j].deep_view()),
            decreases items.len() - i,
        {
            let place = MovePath::from_key(&items[i]);
            if place.same_place(path) || place.is_descendant_of(path) {
                place_set_remove(&mut self.errored, &items[i]);
            }
            i += 1;
        }
        proof {
            assert forall|p: Place| #[trigger] self@.errored.contains(p) implies p != path@
                && !is_under(p, path@) by {
                let j = choose|j: int|
                    0 <= j < items@.len() && (#[trigger] items@[j]).deep_view() == p;
                assert(items@[j].deep_view() == p);
            }
            assert(self@.errored =~= old(self)@.cleared(path@).errored);
        }
    }

    /// The move record of `path`, so that it can be restored.
    pub fn save_move(&self, path: &MovePath) -> (saved: Option<Location>)
        ensures
            saved == self@.record(path@),
    {
        place_get(&self.moved, &path.to_key())
    }

    /// Set the move record of `path` back to a saved one.
    pub fn restore_move(&mut self, path: &MovePath, saved: Option<Location>)
        ensures
            final(self)@ == old(self)@.restored(path@, saved),
    {
        match saved {
            Some(location) => {
                place_insert(&mut self.moved, path.to_key(), location);
            },
            None => {
                place_remove(&mut self.moved, &path.to_key());
            },
        }
    }

    /// Where this path, or else the closest one above it, was moved.
    pub fn is_moved(&self, path: &MovePath) -> (location: Option<Location>)
        ensures
            location == self@.moved_at(path@),
        decreases path,
    {
        match place_get(&self.moved, &path.to_key()) {
            Some(location) => Some(location),
            None => match path {
                MovePath::Field(parent, _) => {
                    assert(path@.1.drop_last() =~= parent@.1);
                    self.is_moved(parent)
                },
                MovePath::Variable(_) => None,
            },
        }
    }

    /// A path under this one that was moved, and where. Of several, any one may be returned.
    pub fn has_child_moved(&self, path: &MovePath) -> (found: Option<(MovePath, Location)>)
        ensures
            match found {
                Some((child, location)) => is_under(child@, path@) && self@.record(child@) == Some(
                    location,
                ),
                None => !self@.moved_below(path@),
            },
    {
        let entries = place_entries(&self.moved);
        let mut i: usize = 0;
        while i < entries.len()
            invariant
                i <= entries.len(),
                forall|j: int|
                    0 <= j < entries@.len() ==> self@.moved.contains_key(
                        (#[trigger] entries@[j]).0.deep_view(),
                    ) && self@.moved[entries@[j].0.deep_view()] == entries@[j].1,
                forall|j: int|
                    0 <= j < i ==> !is_under((#[trigger] entries@[j]).0.deep_view(), path@),
            decreases entries.len() - i,
        {
            let place = MovePath::from_key(&entries[i].0);
            if place.is_descendant_of(path) {
                return Some((place, entries[i].1));
            }
            i += 1;
        }
        assert(!self@.moved_below(path@)) by {
            if self@.moved_below(path@) {
                let p = choose|p: Place| #[trigger]
                    self@.moved.contains_key(p) && is_under(p, path@);
                let j = choose|j: int|
                    0 <= j < entries@.len() && (#[trigger] entries@[j]).0.deep_view() == p;
                assert(entries@[j].0.deep_view() == p);
            }
        }
        None
    }

    /// A fresh tracker with the moves strictly under `prefix`, as moves of the same parts of
    /// `new_root`: what was moved out of a payload, for the binding the payload is projected into.
    pub fn reroot_descendants(&self, prefix: &MovePath, new_root: &MovePath) -> (result: MoveTracker)
        ensures
            result@ == self@.rerooted(prefix@, new_root@),
    {
        let mut result = MoveTracker::default();
        let ghost wanted = self@.rerooted(prefix@, new_root@).moved;
        let entries = place_entries(&self.moved);
        let mut i: usize = 0;
        while i < entries.len()
            invariant
                i <= entries.len(),
                wanted == self@.rerooted(prefix@, new_root@).moved,
                result@.errored == Set::<Place>::empty(),
                forall|j: int|
                    0 <= j < entries@.len() ==> self@.moved.contains_key(
                        (#[trigger] entries@[j]).0.deep_view(),
                    ) && self@.moved[entries@[j].0.deep_view()] == entries@[j].1,
                forall|p: Place| #[trigger]
                    result@.moved.contains_key(p) ==> wanted.contains_key(p) && result@.moved[p]
                        == wanted[p],
                forall|j: int|
                    0 <= j < i && is_under((#[trigger] entries@[j]).0.deep_view(), prefix@)
                        ==> result@.moved.contains_key(
                        moved_under(entries@[j].0.deep_view(), prefix@, new_root@),
                    ),
            decreases entries.len() - i,
        {
            let place = MovePath::from_key(&entries[i].0);
            match place.reroot(prefix, new_root) {
                Some(rerooted) => {
                    let ghost start = result@;
                    proof {
                        law_moving_under_is_undone(place@, prefix@, new_root@);
                    }
                    place_insert(&mut result.moved, rerooted.to_key(), entries[i].1);
                    assert forall|p: Place| #[trigger] result@.moved.contains_key(
                        p,
                    ) implies wanted.contains_key(p) && result@.moved[p] == wanted[p] by {
                        if p != rerooted@ {
                            assert(start.moved.contains_key(p));
                        }
                    }
                },
                None => {},
            }
            i += 1;
        }
        proof {
            assert forall|p: Place| #[trigger] wanted.contains_key(
                p,
            ) implies result@.moved.contains_key(p) by {
                let from = moved_under(p, new_root@, prefix@);
                law_moving_under_is_undone(p, new_root@, prefix@);
                let j = choose|j: int|
                    0 <= j < entries@.len() && (#[trigger] entries@[j]).0.deep_view() == from;
                assert(entries@[j].0.deep_view() == from);
            }
            assert(result@.moved =~= wanted);
        }
        result
    }

    /// The variables that were moved whole, in any order.
    pub fn whole_moved_locals(&self) -> (names: Vec<NameId>)
        ensures
            names@.to_set() == self@.whole(),
    {
        let mut names: Vec<NameId> = Vec::new();
        let entries = place_entries(&self.moved);
        let mut i: usize = 0;
        while i < entries.len()
            invariant
                i <= entries.len(),
                forall|j: int|
                    0 <= j < entries@.len() ==> self@.moved.contains_key(
                        (#[trigger] entries@[j]).0.deep_view(),
                    ),
                forall|name: NameId| #[trigger]
                    names@.contains(name) ==> self@.whole().contains(name),
                forall|j: int|
                    0 <= j < i && (#[trigger] entries@[j]).0.1@.len() == 0 ==> names@.contains(
                        entries@[j].0.0,
                    ),
            decreases entries.len() - i,
        {
            broadcast use vstd::seq_lib::group_seq_properties;

            if entries[i].0.1.len() == 0 {
                assert(entries@[i as int].0.deep_view().1 =~= Seq::<Seq<char>>::empty());
                names.push(entries[i].0.0);
            }
            i += 1;
        }
        assert forall|name: NameId| self@.whole().contains(name) implies #[trigger] names@.contains(
            name,
        ) by {
            let place: Place = (name, Seq::empty());
            assert(self@.moved.contains_key(place));
            let j = choose|j: int|
                0 <= j < entries@.len() && (#[trigger] entries@[j]).0.deep_view() == place;
            assert(entries@[j].0.deep_view().1.len() == entries@[j].0.1@.len());
        }
        assert(names@.to_set() =~= self@.whole());
        names
    }

    /// Add the moves of `other` that are `wanted`, and are not recorded here.
    fn add_moves(&mut self, other: &MoveTracker, roots: Option<&FxHashSet<NameId>>)
        ensures
            final(self)@ == old(self)@.merged(
                other@,
                match roots {
                    Some(roots) => roots@,
                    None => Set::full(),
                },
            ),
    {
        let ghost wanted: Set<NameId> = match roots {
            Some(roots) => roots@,
            None => Set::full(),
        };
        let ghost goal = self@.merged(other@, wanted);
        let entries = place_entries(&other.moved);
        let mut i: usize = 0;
        while i < entries.len()
            invariant
                i <= entries.len(),
                goal == old(self)@.merged(other@, wanted),
                wanted == (match roots {
                    Some(roots) => roots@,
                    None => Set::full(),
                }),
                self@.errored == old(self)@.errored,
                forall|j: int|
                    0 <= j < entries@.len() ==> other@.moved.contains_key(
                        (#[trigger] entries@[j]).0.deep_view(),
                    ) && other@.moved[entries@[j].0.deep_view()] == entries@[j].1,
                forall|p: Place| #[trigger]
                    self@.moved.contains_key(p) ==> goal.moved.contains_key(p) && self@.moved[p]
                        == goal.moved[p],
                forall|p: Place|
                    old(self)@.moved.contains_key(p) ==> #[trigger] self@.moved.contains_key(p),
                forall|j: int|
                    0 <= j < i && wanted.contains((#[trigger] entries@[j]).0.0)
                        ==> self@.moved.contains_key(entries@[j].0.deep_view()),
            decreases entries.len() - i,
        {
            let root = entries[i].0.0;
            let is_wanted = match roots {
                Some(roots) => set_contains(roots, root),
                None => true,
            };
            let ghost start = self@;
            if is_wanted && place_get(&self.moved, &entries[i].0).is_none() {
                let place = MovePath::from_key(&entries[i].0);
                place_insert(&mut self.moved, place.to_key(), entries[i].1);
                assert forall|p: Place| #[trigger] self@.moved.contains_key(
                    p,
                ) implies goal.moved.contains_key(p) && self@.moved[p] == goal.moved[p] by {
                    if p != place@ {
                        assert(start.moved.contains_key(p));
                    } else {
                        assert(!start.moved.contains_key(p));
                        assert(other@.moved.contains_key(entries@[i as int].0.deep_view()));
                        assert(wanted.contains(p.0));
                    }
                }
            }
            assert forall|p: Place| start.moved.contains_key(
                p,
            ) implies #[trigger] self@.moved.contains_key(p) by {
            }
            i += 1;
        }
        proof {
            assert forall|p: Place| #[trigger] goal.moved.contains_key(
                p,
            ) implies self@.moved.contains_key(p) by {
                if !old(self)@.moved.contains_key(p) {
                    let j = choose|j: int|
                        0 <= j < entries@.len() && (#[trigger] entries@[j]).0.deep_view() == p;
                    assert(entries@[j].0.deep_view() == p);
                }
            }
            assert(self@.moved =~= goal.moved);
        }
        let items = place_set_items(&other.errored);
        let mut i: usize = 0;
        while i < items.len()
            invariant
                i <= items.len(),
                goal == old(self)@.merged(other@, wanted),
                wanted == (match roots {
                    Some(roots) => roots@,
                    None => Set::full(),
                }),
                self@.moved == goal.moved,
                forall|j: int|
                    0 <= j < items@.len() ==> other@.errored.contains(
                        (#[trigger] items@[j]).deep_view(),
                    ),
                forall|p: Place| #[trigger]
                    self@.errored.contains(p) ==> goal.errored.contains(p),
                forall|p: Place|
                    old(self)@.errored.contains(p) ==> #[trigger] self@.errored.contains(p),
                forall|j: int|
                    0 <= j < i && wanted.contains((#[trigger] items@[j]).0)
                        ==> self@.errored.contains(items@[j].deep_view()),
            decreases items.len() - i,
        {
            let is_wanted = match roots {
                Some(roots) => set_contains(roots, items[i].0),
                None => true,
            };
            let ghost start = self@;
            if is_wanted {
                let place = MovePath::from_key(&items[i]);
                place_set_insert(&mut self.errored, place.to_key());
            }
            assert forall|p: Place| #[trigger] self@.errored.contains(p) implies goal.errored.contains(
                p,
            ) by {
                if !start.errored.contains(p) {
                    assert(p == items@[i as int].deep_view());
                }
            }
            assert forall|p: Place| start.errored.contains(p) implies #[trigger] self@.errored.contains(
                p,
            ) by {
            }
            i += 1;
        }
        proof {
            assert forall|p: Place| #[trigger] goal.errored.contains(
                p,
            ) implies self@.errored.contains(p) by {
                if !old(self)@.errored.contains(p) {
                    let j = choose|j: int|
                        0 <= j < items@.len() && (#[trigger] items@[j]).deep_view() == p;
                    assert(items@[j].deep_view() == p);
                }
            }
            assert(self@.errored =~= goal.errored);
        }
    }

    /// Merge in the moves of `other` that start in `roots`: what the body of a closure moves out
    /// of captured variables is gone from the enclosing scope.
    pub fn merge_moves_rooted_in(&mut self, other: &MoveTracker, roots: &FxHashSet<NameId>)
        ensures
            final(self)@ == old(self)@.merged(other@, roots@),
    {
        self.add_moves(other, Some(roots));
    }

    /// What is moved behind branches: what was moved before, or in any of the branches.
    pub fn merge_branches(base: &MoveTracker, branches: &Vec<MoveTracker>) -> (result: MoveTracker)
        ensures
            result@ == base@.after_branches(all_moves(branches@), branches@.len() as int),
    {
        let mut result = base.clone();
        let mut i: usize = 0;
        while i < branches.len()
            invariant
                i <= branches.len(),
                result@ == base@.after_branches(all_moves(branches@), i as int),
            decreases branches.len() - i,
        {
            result.add_moves(&branches[i], None);
            i += 1;
        }
        result
    }
}

impl Moves {
    /// Clearing a place leaves nothing of it moved, and nothing under it.
    pub proof fn law_cleared_is_owned(self, place: Place)
        requires
            place.1.len() > 0 ==> self.moved_at((place.0, place.1.drop_last())) is None,
        ensures
            self.cleared(place).moved_at(place) is None,
            !self.cleared(place).moved_below(place),
    {
        if place.1.len() > 0 {
            let above = (place.0, place.1.drop_last());
            assert(!is_under(above, place));
            self.cleared_above(place, above);
        }
    }

    proof fn cleared_above(self, place: Place, above: Place)
        requires
            self.moved_at(above) is None,
        ensures
            self.cleared(place).moved_at(above) is None,
        decreases above.1.len(),
    {
        if above.1.len() > 0 {
            self.cleared_above(place, (above.0, above.1.drop_last()));
        }
    }

    /// A place is moved behind branches exactly if it was before, or is in one of them.
    pub proof fn law_moved_in_any_branch(self, branches: Seq<Moves>, count: int, place: Place)
        requires
            0 <= count <= branches.len(),
        ensures
            self.after_branches(branches, count).moved.contains_key(place) <==> (
            self.moved.contains_key(place) || exists|i: int|
                0 <= i < count && (#[trigger] branches[i]).moved.contains_key(place)),
            self.moved.contains_key(place) ==> self.after_branches(branches, count).moved[place]
                == self.moved[place],
        decreases count,
    {
        if count > 0 {
            self.law_moved_in_any_branch(branches, count - 1, place);
        }
    }

    /// Restoring a saved move undoes a move.
    pub proof fn law_restore_undoes_move(self, place: Place, location: Location)
        ensures
            self.with_move(place, location).restored(place, self.record(place)) == self,
    {
        assert(self.with_move(place, location).restored(place, self.record(place)).moved
            =~= self.moved);
    }

    /// A place whose variable, or anything on the way to it, was moved counts as moved.
    pub proof fn law_parts_move_with_the_whole(self, place: Place, part: Place)
        requires
            self.moved.contains_key(place),
            is_under(part, place),
        ensures
            self.moved_at(part) is Some,
        decreases part.1.len(),
    {
        let above = (part.0, part.1.drop_last());
        if above.1.len() == place.1.len() {
            assert(above.1 =~= place.1);
        } else {
            assert(above.1.take(place.1.len() as int) =~= place.1);
            self.law_parts_move_with_the_whole(place, above);
        }
    }
}

} // verus!
