//! The ids of the definitions of a program, shared by all items that are lowered.

use crate::ids::{DefinitionId, TopLevelName};
use dashmap::DashMap;
use std::hash::RandomState;
use vstd::prelude::*;

verus! {

/// `dashmap::DashMap`, a map that may be shared between threads.
#[verifier::external_type_specification]
#[verifier::external_body]
#[verifier::reject_recursive_types(K)]
#[verifier::reject_recursive_types(V)]
#[verifier::reject_recursive_types(S)]
pub struct ExDashMap<K, V, S>(DashMap<K, V, S>);

/// A name as its file, its item in the file, and its number in the item.
pub type NameKey = (u32, u32, u32);

/// The map from names to the ids of what they define.
pub type IdMap = DashMap<NameKey, u32, RandomState>;

/// What a map of ids holds.
pub uninterp spec fn ids_in(map: IdMap) -> Map<(u32, u32, u32), u32>;

pub open spec fn no_ids() -> Map<NameKey, u32> {
    Map::empty()
}

/// `DashMap::new`: a map that holds nothing.
#[verifier::external_body]
fn new_ids() -> (map: IdMap)
    ensures
        ids_in(map) == no_ids(),
{
    DashMap::new()
}

/// `DashMap::get`: what the map holds for a key.
#[verifier::external_body]
fn get_id(map: &IdMap, key: NameKey) -> (id: Option<u32>)
    ensures
        id == (if ids_in(*map).contains_key(key) {
            Some(ids_in(*map)[key])
        } else {
            None
        }),
{
    map.get(&key).map(|entry| *entry.value())
}

/// `DashMap::insert`: the map then holds the value for the key, whatever it held for it before.
/// The map is borrowed uniquely, so that no other thread writes to it meanwhile.
#[verifier::external_body]
fn insert_id(map: &mut IdMap, key: NameKey, id: u32)
    ensures
        ids_in(*final(map)) == ids_in(*old(map)).insert(key, id),
{
    map.insert(key, id);
}

/// `DashMap::entry` and `Entry::or_insert`: what the map holds for the key, which is `fresh` if it
/// held nothing. The map is borrowed uniquely, so that no other thread writes to it meanwhile.
#[verifier::external_body]
fn get_or_insert_id(map: &mut IdMap, key: NameKey, fresh: u32) -> (id: u32)
    ensures
        ids_in(*old(map)).contains_key(key) ==> id == ids_in(*old(map))[key] && ids_in(*final(map))
            == ids_in(*old(map)),
        !ids_in(*old(map)).contains_key(key) ==> id == fresh && ids_in(*final(map)) == ids_in(
            *old(map),
        ).insert(key, fresh),
{
    *map.entry(key).or_insert(fresh)
}

/// The ids of definitions, by their names, and the next one to give out.
pub struct SharedIds {
    pub map: IdMap,
    pub next: DefinitionId,
}

/// What a `SharedIds` holds.
#[verifier::ext_equal]
pub struct IdState {
    pub map: Map<TopLevelName, DefinitionId>,
    pub next: DefinitionId,
}

/// The key of a name.
pub open spec fn key_of(name: TopLevelName) -> NameKey {
    (name.top_level_item.source_file, name.top_level_item.index, name.local_name_id)
}

impl View for SharedIds {
    type V = IdState;

    open spec fn view(&self) -> IdState {
        IdState {
            map: Map::new(
                |name: TopLevelName| ids_in(self.map).contains_key(key_of(name)),
                |name: TopLevelName| ids_in(self.map)[key_of(name)],
            ),
            next: self.next,
        }
    }
}

impl IdState {
    pub open spec fn nothing() -> IdState {
        IdState { map: Map::empty(), next: 0 }
    }

    /// The id behind the last one that was given out.
    pub open spec fn advanced(self) -> IdState {
        IdState {
            next: if self.next == 0xffff_ffff {
                0
            } else {
                (self.next + 1) as u32
            },
            ..self
        }
    }

    pub open spec fn lookup(self, name: TopLevelName) -> Option<DefinitionId> {
        if self.map.contains_key(name) {
            Some(self.map[name])
        } else {
            None
        }
    }

    pub open spec fn with_id(self, name: TopLevelName, id: DefinitionId) -> IdState {
        IdState { map: self.map.insert(name, id), ..self }
    }

    /// The id of a name, which is a new one if it has none yet.
    pub open spec fn id_of(self, name: TopLevelName) -> (DefinitionId, IdState) {
        match self.lookup(name) {
            Some(id) => (id, self),
            None => (self.next, self.advanced().with_id(name, self.next)),
        }
    }

    /// A name keeps its id.
    pub proof fn law_ids_are_kept(self, name: TopLevelName, other: TopLevelName)
        ensures
            self.id_of(name).1.lookup(name) == Some(self.id_of(name).0),
            self.lookup(other) is Some ==> self.id_of(name).1.lookup(other) == self.lookup(other),
            self.id_of(name).1.id_of(name) == self.id_of(name),
    {
    }
}

fn to_key(name: &TopLevelName) -> (key: NameKey)
    ensures
        key == key_of(*name),
{
    (name.top_level_item.source_file, name.top_level_item.index, name.local_name_id)
}

impl SharedIds {
    pub fn new() -> (ids: SharedIds)
        ensures
            ids@ == IdState::nothing(),
    {
        let ids = SharedIds { map: new_ids(), next: 0 };
        assert(ids@ =~= IdState::nothing());
        ids
    }

    /// A new id.
    pub fn next_definition_id(&mut self) -> (id: DefinitionId)
        ensures
            id == old(self)@.next,
            final(self)@ == old(self)@.advanced(),
    {
        let id = self.next;
        self.next = if id == 0xffff_ffff {
            0
        } else {
            id + 1
        };
        id
    }

    /// The id of a name, if it has one.
    pub fn lookup_definition_id(&self, name: &TopLevelName) -> (id: Option<DefinitionId>)
        ensures
            id == self@.lookup(*name),
    {
        get_id(&self.map, to_key(name))
    }

    /// The id of a name. One that has none gets the next one.
    pub fn get_definition_id(&mut self, name: &TopLevelName) -> (id: DefinitionId)
        ensures
            (id, final(self)@) == old(self)@.id_of(*name),
    {
        let key = to_key(name);
        let fresh = self.next;
        let known = get_id(&self.map, key).is_some();
        let id = get_or_insert_id(&mut self.map, key, fresh);
        if !known {
            self.next_definition_id();
        }
        assert(self@ =~= old(self)@.id_of(*name).1);
        id
    }

    /// Let `name` have `id`.
    pub fn insert(&mut self, name: &TopLevelName, id: DefinitionId)
        ensures
            final(self)@ == old(self)@.with_id(*name, id),
    {
        insert_id(&mut self.map, to_key(name), id);
        assert(self@ =~= old(self)@.with_id(*name, id));
    }
}

} // verus!
