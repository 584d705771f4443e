//! The maps, sets and tables the passes keep their facts in.

use crate::ids::Location;
use rustc_hash::{FxBuildHasher, FxHashMap, FxHashSet};
use vstd::prelude::*;

verus! {

/// The hasher behind the maps and sets of `rustc_hash`. Nothing looks into a value of it.
#[verifier::external_type_specification]
#[verifier::external_body]
pub struct ExFxBuildHasher(FxBuildHasher);

/// Keys that are equal where their `Eq` says so, and hash alike then.
pub(crate) trait HashKey {

}

impl HashKey for u32 {

}

impl HashKey for (u32, u32) {

}

/// `FxHashSet::insert`: adds `key`, and says whether it was absent.
#[verifier::external_body]
pub(crate) fn set_insert<K: HashKey + Copy + Eq + std::hash::Hash>(
    set: &mut FxHashSet<K>,
    key: K,
) -> (added: bool)
    ensures
        final(set)@ == old(set)@.insert(key),
        added == !old(set)@.contains(key),
{
    set.insert(key)
}

/// `FxHashSet::remove`: takes `key` out, and says whether it was there.
#[verifier::external_body]
pub(crate) fn set_remove<K: HashKey + Copy + Eq + std::hash::Hash>(
    set: &mut FxHashSet<K>,
    key: K,
) -> (removed: bool)
    ensures
        final(set)@ == old(set)@.remove(key),
        removed == old(set)@.contains(key),
{
    set.remove(&key)
}

/// `FxHashSet::contains`: whether `key` is a member.
#[verifier::external_body]
pub(crate) fn set_contains<K: HashKey + Copy + Eq + std::hash::Hash>(
    set: &FxHashSet<K>,
    key: K,
) -> (found: bool)
    ensures
        found == set@.contains(key),
{
    set.contains(&key)
}

/// `FxHashSet::iter`: every member once, in an order that is not promised.
#[verifier::external_body]
pub(crate) fn set_items<K: HashKey + Copy + Eq + std::hash::Hash>(
    set: &FxHashSet<K>,
) -> (items: Vec<K>)
    ensures
        items@.no_duplicates(),
        items@.to_set() == set@,
{
    set.iter().copied().collect()
}

/// `FxHashMap::insert`: binds `key` to `value`, whatever it was bound to before.
#[verifier::external_body]
pub(crate) fn map_insert<K: HashKey + Copy + Eq + std::hash::Hash, V>(
    map: &mut FxHashMap<K, V>,
    key: K,
    value: V,
)
    ensures
        final(map)@ == old(map)@.insert(key, value),
{
    map.insert(key, value);
}

/// `FxHashMap::remove`: takes out the binding of `key` and hands its value back.
#[verifier::external_body]
pub(crate) fn map_remove<K: HashKey + Copy + Eq + std::hash::Hash, V>(
    map: &mut FxHashMap<K, V>,
    key: K,
) -> (removed: Option<V>)
    ensures
        final(map)@ == old(map)@.remove(key),
        removed == (if old(map)@.contains_key(key) { Some(old(map)@[key]) } else { None }),
{
    map.remove(&key)
}

/// `FxHashMap::get`: the value `key` is bound to.
#[verifier::external_body]
pub(crate) fn map_get<K: HashKey + Copy + Eq + std::hash::Hash, V>(
    map: &FxHashMap<K, V>,
    key: K,
) -> (found: Option<&V>)
    ensures
        found == (if map@.contains_key(key) { Some(&map@[key]) } else { None }),
{
    map.get(&key)
}

/// `FxHashMap::len`: how many keys are bound.
#[verifier::external_body]
pub(crate) fn map_len<K: HashKey + Copy + Eq + std::hash::Hash, V>(
    map: &FxHashMap<K, V>,
) -> (count: usize)
    ensures
        count == map@.len(),
{
    map.len()
}

/// `FxHashMap::keys`: every key once, in an order that is not promised.
#[verifier::external_body]
pub(crate) fn map_keys<K: HashKey + Copy + Eq + std::hash::Hash, V>(
    map: &FxHashMap<K, V>,
) -> (keys: Vec<K>)
    ensures
        keys@.no_duplicates(),
        keys@.to_set() == map@.dom(),
{
    map.keys().copied().collect()
}

/// Take `keys` out of a set.
pub fn remove_all(set: &mut FxHashSet<u32>, keys: &Vec<u32>)
    ensures
        final(set)@ == old(set)@.difference(keys@.to_set()),
{
    let mut i: usize = 0;
    assert(set@ =~= old(set)@.difference(keys@.take(0).to_set()));
    while i < keys.len()
        invariant
            i <= keys.len(),
            set@ == old(set)@.difference(keys@.take(i as int).to_set()),
        decreases keys.len() - i,
    {
        broadcast use vstd::seq_lib::group_seq_properties;

        set_remove(set, keys[i]);
        assert(keys@.take(i + 1) =~= keys@.take(i as int).push(keys@[i as int]));
        assert(set@ =~= old(set)@.difference(keys@.take(i + 1).to_set()));
        i += 1;
    }
    assert(keys@.take(i as int) =~= keys@);
}

/// Add `keys` to a set.
pub fn insert_all(set: &mut FxHashSet<u32>, keys: &Vec<u32>)
    ensures
        final(set)@ == old(set)@.union(keys@.to_set()),
{
    let mut i: usize = 0;
    assert(set@ =~= old(set)@.union(keys@.take(0).to_set()));
    while i < keys.len()
        invariant
            i <= keys.len(),
            set@ == old(set)@.union(keys@.take(i as int).to_set()),
        decreases keys.len() - i,
    {
        broadcast use vstd::seq_lib::group_seq_properties;

        set_insert(set, keys[i]);
        assert(keys@.take(i + 1) =~= keys@.take(i as int).push(keys@[i as int]));
        assert(set@ =~= old(set)@.union(keys@.take(i + 1).to_set()));
        i += 1;
    }
    assert(keys@.take(i as int) =~= keys@);
}

/// Whether `key` is one of `keys`.
pub fn is_listed(keys: &Vec<u32>, key: u32) -> (listed: bool)
    ensures
        listed == keys@.contains(key),
{
    let mut i: usize = 0;
    while i < keys.len()
        invariant
            i <= keys.len(),
            forall|j: int| 0 <= j < i ==> keys@[j] != key,
        decreases keys.len() - i,
    {
        if keys[i] == key {
            return true;
        }
        i += 1;
    }
    false
}

/// A place by what it is made of: the variable it is in, and the fields that lead to it.
pub type PlaceKey = (u32, Vec<String>);

/// `FxHashMap::insert`, with a place for a key.
#[verifier::external_body]
pub(crate) fn place_insert(map: &mut FxHashMap<PlaceKey, Location>, key: PlaceKey, value: Location)
    ensures
        final(map).deep_view() == old(map).deep_view().insert(key.deep_view(), value),
{
    map.insert(key, value);
}

/// `FxHashMap::remove`, with a place for a key.
#[verifier::external_body]
pub(crate) fn place_remove(map: &mut FxHashMap<PlaceKey, Location>, key: &PlaceKey)
    ensures
        final(map).deep_view() == old(map).deep_view().remove(key.deep_view()),
{
    map.remove(key);
}

/// `FxHashMap::get`, with a place for a key.
#[verifier::external_body]
pub(crate) fn place_get(
    map: &FxHashMap<PlaceKey, Location>,
    key: &PlaceKey,
) -> (found: Option<Location>)
    ensures
        found == (if map.deep_view().contains_key(key.deep_view()) {
            Some(map.deep_view()[key.deep_view()])
        } else {
            None
        }),
{
    map.get(key).copied()
}

/// `FxHashMap::iter`, with places for keys: every entry once, in an order that is not promised.
#[verifier::external_body]
pub(crate) fn place_entries(
    map: &FxHashMap<PlaceKey, Location>,
) -> (entries: Vec<(PlaceKey, Location)>)
    ensures
        forall|i: int, j: int|
            0 <= i < j < entries@.len() ==> (#[trigger] entries@[i]).0.deep_view() != (
            #[trigger] entries@[j]).0.deep_view(),
        forall|i: int|
            0 <= i < entries@.len() ==> map.deep_view().contains_key(
                (#[trigger] entries@[i]).0.deep_view(),
            ) && map.deep_view()[entries@[i].0.deep_view()] == entries@[i].1,
        forall|key: (u32, Seq<Seq<char>>)| #[trigger]
            map.deep_view().contains_key(key) ==> exists|i: int|
                0 <= i < entries@.len() && (#[trigger] entries@[i]).0.deep_view() == key,
{
    map.iter().map(|(key, value)| (key.clone(), *value)).collect()
}

/// `FxHashMap::clone`, with places for keys.
#[verifier::external_body]
pub(crate) fn place_map_clone(
    map: &FxHashMap<PlaceKey, Location>,
) -> (copy: FxHashMap<PlaceKey, Location>)
    ensures
        copy.deep_view() == map.deep_view(),
{
    map.clone()
}

/// `FxHashSet::insert`, with places for members.
#[verifier::external_body]
pub(crate) fn place_set_insert(set: &mut FxHashSet<PlaceKey>, key: PlaceKey) -> (added: bool)
    ensures
        final(set).deep_view() == old(set).deep_view().insert(key.deep_view()),
        added == !old(set).deep_view().contains(key.deep_view()),
{
    set.insert(key)
}

/// `FxHashSet::remove`, with places for members.
#[verifier::external_body]
pub(crate) fn place_set_remove(set: &mut FxHashSet<PlaceKey>, key: &PlaceKey)
    ensures
        final(set).deep_view() == old(set).deep_view().remove(key.deep_view()),
{
    set.remove(key);
}

/// `FxHashSet::contains`, with places for members.
#[verifier::external_body]
pub(crate) fn place_set_contains(set: &FxHashSet<PlaceKey>, key: &PlaceKey) -> (found: bool)
    ensures
        found == set.deep_view().contains(key.deep_view()),
{
    set.contains(key)
}

/// `FxHashSet::iter`, with places for members: every member once, in an order that is not promised.
#[verifier::external_body]
pub(crate) fn place_set_items(set: &FxHashSet<PlaceKey>) -> (items: Vec<PlaceKey>)
    ensures
        forall|i: int|
            0 <= i < items@.len() ==> set.deep_view().contains((#[trigger] items@[i]).deep_view()),
        forall|key: (u32, Seq<Seq<char>>)| #[trigger]
            set.deep_view().contains(key) ==> exists|i: int|
                0 <= i < items@.len() && (#[trigger] items@[i]).deep_view() == key,
{
    set.iter().cloned().collect()
}

/// `FxHashSet::clone`, with places for members.
#[verifier::external_body]
pub(crate) fn place_set_clone(set: &FxHashSet<PlaceKey>) -> (copy: FxHashSet<PlaceKey>)
    ensures
        copy.deep_view() == set.deep_view(),
{
    set.clone()
}

/// An equality test that decides the mathematical equality of two values.
pub trait Key: Sized {
    fn same(&self, other: &Self) -> (equal: bool)
        ensures
            equal == (*self == *other),
    ;
}

impl Key for u32 {
    fn same(&self, other: &Self) -> (equal: bool) {
        *self == *other
    }
}

impl<A: Key, B: Key> Key for (A, B) {
    fn same(&self, other: &Self) -> (equal: bool) {
        self.0.same(&other.0) && self.1.same(&other.1)
    }
}

/// What the first entry of `entries` under `key` holds.
pub open spec fn lookup<K, V>(entries: Seq<(K, V)>, key: K) -> Option<V>
    decreases entries.len(),
{
    if entries.len() == 0 {
        None
    } else if entries[0].0 == key {
        Some(entries[0].1)
    } else {
        lookup(entries.drop_first(), key)
    }
}

/// `entries` with `value` under `key`, in place of what was there.
pub open spec fn put<K, V>(entries: Seq<(K, V)>, key: K, value: V) -> Seq<(K, V)>
    decreases entries.len(),
{
    if entries.len() == 0 {
        seq![(key, value)]
    } else if entries[0].0 == key {
        entries.update(0, (key, value))
    } else {
        seq![entries[0]] + put(entries.drop_first(), key, value)
    }
}

/// What is put under a key is found there, and nothing changes under other keys.
pub proof fn law_put<K, V>(entries: Seq<(K, V)>, key: K, value: V, other: K)
    ensures
        lookup(put(entries, key, value), key) == Some(value),
        other != key ==> lookup(put(entries, key, value), other) == lookup(entries, other),
    decreases entries.len(),
{
    let after = put(entries, key, value);
    reveal_with_fuel(lookup, 2);
    if entries.len() == 0 {
        assert(after.drop_first() =~= Seq::<(K, V)>::empty());
    } else if entries[0].0 == key {
        assert(after.drop_first() =~= entries.drop_first());
    } else {
        law_put(entries.drop_first(), key, value, other);
        assert(after.drop_first() =~= put(entries.drop_first(), key, value));
    }
}

proof fn put_at<K, V>(entries: Seq<(K, V)>, key: K, value: V, at: int)
    requires
        0 <= at < entries.len(),
        entries[at].0 == key,
        forall|i: int| 0 <= i < at ==> (#[trigger] entries[i]).0 != key,
    ensures
        put(entries, key, value) == entries.update(at, (key, value)),
    decreases entries.len(),
{
    if at > 0 {
        assert(entries[0].0 != key);
        let rest = entries.drop_first();
        assert forall|i: int| 0 <= i < at - 1 implies (#[trigger] rest[i]).0 != key by {
            assert(rest[i] == entries[i + 1]);
        }
        put_at(rest, key, value, at - 1);
        assert(put(entries, key, value) =~= entries.update(at, (key, value)));
    }
}

proof fn put_behind<K, V>(entries: Seq<(K, V)>, key: K, value: V)
    requires
        forall|i: int| 0 <= i < entries.len() ==> (#[trigger] entries[i]).0 != key,
    ensures
        put(entries, key, value) == entries.push((key, value)),
    decreases entries.len(),
{
    if entries.len() > 0 {
        assert(entries[0].0 != key);
        let rest = entries.drop_first();
        assert forall|i: int| 0 <= i < rest.len() implies (#[trigger] rest[i]).0 != key by {
            assert(rest[i] == entries[i + 1]);
        }
        put_behind(rest, key, value);
    }
    assert(put(entries, key, value) =~= entries.push((key, value)));
}

/// A list of answers, each under the question it answers. The first answer to a question counts.
pub struct Table<K, V> {
    pub entries: Vec<(K, V)>,
}

impl<K: Key, V> Table<K, V> {
    pub fn new() -> (table: Self)
        ensures
            table@ == Seq::<(K, V)>::empty(),
    {
        Table { entries: Vec::new() }
    }

    /// Set the answer under `key`.
    pub fn put(&mut self, key: K, value: V)
        ensures
            final(self)@ == put(old(self)@, key, value),
    {
        let mut i: usize = 0;
        while i < self.entries.len()
            invariant
                i <= self.entries.len(),
                self@ == old(self)@,
                forall|j: int| 0 <= j < i ==> (#[trigger] self@[j]).0 != key,
            decreases self.entries.len() - i,
        {
            if self.entries[i].0.same(&key) {
                proof {
                    put_at(self@, key, value, i as int);
                }
                self.entries.set(i, (key, value));
                return ;
            }
            i += 1;
        }
        proof {
            put_behind(self@, key, value);
        }
        self.entries.push((key, value));
    }

    /// Add an answer, behind those that are there.
    pub fn push(&mut self, key: K, value: V)
        ensures
            final(self)@ == old(self)@.push((key, value)),
    {
        self.entries.push((key, value));
    }

    pub fn get(&self, key: &K) -> (found: Option<&V>)
        ensures
            match found {
                Some(value) => lookup(self@, *key) == Some(*value),
                None => lookup(self@, *key) is None,
            },
    {
        let mut i: usize = 0;
        assert(self@.skip(0) == self@);
        while i < self.entries.len()
            invariant
                i <= self.entries.len(),
                lookup(self@, *key) == lookup(self@.skip(i as int), *key),
            decreases self.entries.len() - i,
        {
            if self.entries[i].0.same(key) {
                return Some(&self.entries[i].1);
            }
            assert(self@.skip(i as int).drop_first() == self@.skip(i + 1));
            i += 1;
        }
        None
    }
}

impl<K, V> View for Table<K, V> {
    type V = Seq<(K, V)>;

    open spec fn view(&self) -> Seq<(K, V)> {
        self.entries@
    }
}

} // verus!
