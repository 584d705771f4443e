//! The global implicits an item can see, sorted for the search of an implicit.

#[allow(unused_imports)]
use crate::collections::lookup;
#[allow(unused_imports)]
use crate::database::names_in;
use crate::database::{Database, ItemKind};
use crate::ids::{Origin, TopLevelId, TopLevelName, DROP_IMPL, PRELUDE};
use crate::types::{FloatKind, Generic, IntegerKind, PrimitiveType, ReferenceKind, Type};
#[allow(unused_imports)]
use crate::types::TypeList;
use std::sync::Arc;
use vstd::prelude::*;

verus! {

broadcast use vstd::seq_lib::group_seq_properties;

/// Asks for the implicits visible in a file.
pub struct VisibleImplicits(pub u32);

/// An implicit: its name, and the definition it names.
pub struct Implicit {
    pub name: String,
    pub id: TopLevelName,
}

/// An implicit, with its name as a sequence of characters.
#[verifier::ext_equal]
pub struct Candidate {
    pub name: Seq<char>,
    pub id: TopLevelName,
}

impl View for Implicit {
    type V = Candidate;

    open spec fn view(&self) -> Candidate {
        Candidate { name: self.name@, id: self.id }
    }
}

/// Keys each type by its variant. A type application goes by the key of its constructor.
#[derive(Clone, Copy, Debug, PartialEq, Eq, Structural)]
pub enum TypeKey {
    Primitive(PrimitiveType),
    UserDefined(Origin),
    Function,
    Tuple,
    Effects,
}

/// How an implicit of a known ability is filed.
#[derive(Clone, Copy, Debug, PartialEq, Eq, Structural)]
pub enum KeyKind {
    Key(TypeKey),
    /// An implicit function can be called for what it returns: it is filed both as a function and
    /// under its return type.
    Function(TypeKey),
    /// The argument is generic, or nothing is known of it.
    GenericOrUnknown,
}

/// The implicits of one ability.
pub struct ImplicitImpls {
    /// For each first argument, in the order of the keys, the implicits that may apply to it.
    pub type_to_impls: Vec<(TypeKey, Vec<Implicit>)>,
    /// The implicits for generic types, which may apply to any argument.
    pub generic_type_impls: Vec<Implicit>,
}

/// Each ability with its implicits.
///
/// An implicit for `Print (Vec t)` is filed under the ability `Print` and the key of `Vec`; one
/// for `Print t` under `Print` alone; one of an unknown ability under neither. A search for
/// `Ability Arg` has to look at the implicits of that pair, at those of the ability for generic
/// types, and at those of unknown abilities.
pub struct Implicits {
    /// Each ability, in the order of the abilities, with its implicits.
    pub known_ability_to_impls: Vec<(TopLevelId, ImplicitImpls)>,
    /// The implicits of unknown abilities, which may apply to any ability.
    pub unknown_ability_to_impls: Vec<Implicit>,
    /// The written `Drop` impls of shared types, under the type. They are no witnesses for
    /// `Drop <SharedType>`: the death of a handle is a release, and a search that came upon the
    /// written impl would run it for every handle that dies.
    pub shared_drop_impls: Vec<(TopLevelId, Implicit)>,
}

/// What an `ImplicitImpls` holds.
#[verifier::ext_equal]
pub struct Impls {
    pub by_key: Seq<(TypeKey, Seq<Candidate>)>,
    pub generic: Seq<Candidate>,
}

/// What an `Implicits` holds.
#[verifier::ext_equal]
pub struct Registry {
    pub known: Seq<(TopLevelId, Impls)>,
    pub unknown: Seq<Candidate>,
    pub shared_drops: Seq<(TopLevelId, Candidate)>,
}

pub open spec fn candidates(implicits: Seq<Implicit>) -> Seq<Candidate> {
    implicits.map_values(|implicit: Implicit| implicit@)
}

/// `listed`, with each implicit only at the first place it is listed at.
pub open spec fn distinct(listed: Seq<Candidate>) -> Seq<Candidate>
    decreases listed.len(),
{
    if listed.len() == 0 {
        listed
    } else {
        let before = distinct(listed.drop_last());
        if before.contains(listed.last()) {
            before
        } else {
            before.push(listed.last())
        }
    }
}

/// What is listed is listed once then, and nothing else is.
proof fn distinct_is_a_set(listed: Seq<Candidate>)
    ensures
        distinct(listed).no_duplicates(),
        distinct(listed).len() <= listed.len(),
        forall|candidate: Candidate| #[trigger]
            distinct(listed).contains(candidate) <==> listed.contains(candidate),
    decreases listed.len(),
{
    if listed.len() > 0 {
        let rest = listed.drop_last();
        distinct_is_a_set(rest);
        assert(listed =~= rest.push(listed.last()));
        let before = distinct(rest);
        assert forall|candidate: Candidate| #[trigger]
            distinct(listed).contains(candidate) <==> listed.contains(candidate) by {
            assert(before.contains(candidate) <==> rest.contains(candidate));
            assert(listed.contains(candidate) <==> rest.contains(candidate) || candidate
                == listed.last());
            assert(before.push(listed.last()).contains(candidate) <==> before.contains(candidate)
                || candidate == listed.last());
        }
    }
}

/// The definitions behind `listed`.
pub open spec fn ids_of(listed: Seq<Candidate>) -> Seq<TopLevelName> {
    listed.map_values(|candidate: Candidate| candidate.id)
}

impl View for ImplicitImpls {
    type V = Impls;

    open spec fn view(&self) -> Impls {
        Impls {
            by_key: self.type_to_impls@.map_values(
                |entry: (TypeKey, Vec<Implicit>)| (entry.0, candidates(entry.1@)),
            ),
            generic: candidates(self.generic_type_impls@),
        }
    }
}

impl View for Implicits {
    type V = Registry;

    open spec fn view(&self) -> Registry {
        Registry {
            known: self.known_ability_to_impls@.map_values(
                |entry: (TopLevelId, ImplicitImpls)| (entry.0, entry.1@),
            ),
            unknown: candidates(self.unknown_ability_to_impls@),
            shared_drops: self.shared_drop_impls@.map_values(
                |entry: (TopLevelId, Implicit)| (entry.0, entry.1@),
            ),
        }
    }
}

/// Keys with a number that orders them.
pub trait Ranked: Sized {
    spec fn rank_spec(self) -> int;

    proof fn rank_is_injective(a: Self, b: Self)
        ensures
            a.rank_spec() == b.rank_spec() ==> a == b,
    ;

    fn rank(&self) -> (rank: u128)
        ensures
            rank == self.rank_spec(),
    ;
}

impl Ranked for TopLevelId {
    open spec fn rank_spec(self) -> int {
        self.source_file * 0x1_0000_0000 + self.index
    }

    proof fn rank_is_injective(a: Self, b: Self) {
    }

    fn rank(&self) -> (rank: u128) {
        self.source_file as u128 * 0x1_0000_0000 + self.index as u128
    }
}

impl PrimitiveType {
    pub open spec fn number_spec(self) -> int {
        match self {
            PrimitiveType::Error => 0,
            PrimitiveType::Unit => 1,
            PrimitiveType::Bool => 2,
            PrimitiveType::Pointer => 3,
            PrimitiveType::Char => 4,
            PrimitiveType::Never => 5,
            PrimitiveType::NoClosureEnv => 6,
            PrimitiveType::Int(kind) => 7 + match kind {
                IntegerKind::I8 => 0int,
                IntegerKind::I16 => 1,
                IntegerKind::I32 => 2,
                IntegerKind::I64 => 3,
                IntegerKind::Isz => 4,
                IntegerKind::U8 => 5,
                IntegerKind::U16 => 6,
                IntegerKind::U32 => 7,
                IntegerKind::U64 => 8,
                IntegerKind::Usz => 9,
            },
            PrimitiveType::Float(kind) => 17 + match kind {
                FloatKind::F32 => 0int,
                FloatKind::F64 => 1,
            },
            PrimitiveType::Reference(kind) => 19 + match kind {
                ReferenceKind::Ref => 0int,
                ReferenceKind::Mut => 1,
                ReferenceKind::Imm => 2,
                ReferenceKind::Uniq => 3,
            },
        }
    }

    /// The place of this type among the primitive types.
    pub fn number(&self) -> (number: u128)
        ensures
            number == self.number_spec(),
    {
        match self {
            PrimitiveType::Error => 0,
            PrimitiveType::Unit => 1,
            PrimitiveType::Bool => 2,
            PrimitiveType::Pointer => 3,
            PrimitiveType::Char => 4,
            PrimitiveType::Never => 5,
            PrimitiveType::NoClosureEnv => 6,
            PrimitiveType::Int(kind) => match kind {
                IntegerKind::I8 => 7,
                IntegerKind::I16 => 8,
                IntegerKind::I32 => 9,
                IntegerKind::I64 => 10,
                IntegerKind::Isz => 11,
                IntegerKind::U8 => 12,
                IntegerKind::U16 => 13,
                IntegerKind::U32 => 14,
                IntegerKind::U64 => 15,
                IntegerKind::Usz => 16,
            },
            PrimitiveType::Float(kind) => match kind {
                FloatKind::F32 => 17,
                FloatKind::F64 => 18,
            },
            PrimitiveType::Reference(kind) => match kind {
                ReferenceKind::Ref => 19,
                ReferenceKind::Mut => 20,
                ReferenceKind::Imm => 21,
                ReferenceKind::Uniq => 22,
            },
        }
    }
}

/// Primitive types come first, then user-defined types by their origin, then the other keys.
impl Ranked for TypeKey {
    open spec fn rank_spec(self) -> int {
        match self {
            TypeKey::Primitive(primitive) => primitive.number_spec(),
            TypeKey::UserDefined(Origin::TopLevelDefinition(name)) => 0x1_0000_0000_0000_0000_0000_0000
                + name.top_level_item.source_file * 0x1_0000_0000_0000_0000
                + name.top_level_item.index * 0x1_0000_0000 + name.local_name_id,
            TypeKey::UserDefined(Origin::Local(name)) => 0x2_0000_0000_0000_0000_0000_0000 + name,
            TypeKey::UserDefined(Origin::TypeResolution) => 0x3_0000_0000_0000_0000_0000_0000,
            TypeKey::UserDefined(Origin::Builtin(id)) => 0x4_0000_0000_0000_0000_0000_0000 + id,
            TypeKey::Function => 0x5_0000_0000_0000_0000_0000_0000,
            TypeKey::Tuple => 0x6_0000_0000_0000_0000_0000_0000,
            TypeKey::Effects => 0x7_0000_0000_0000_0000_0000_0000,
        }
    }

    proof fn rank_is_injective(a: Self, b: Self) {
    }

    fn rank(&self) -> (rank: u128) {
        match self {
            TypeKey::Primitive(primitive) => primitive.number(),
            TypeKey::UserDefined(Origin::TopLevelDefinition(name)) => 0x1_0000_0000_0000_0000_0000_0000u128
                + name.top_level_item.source_file as u128 * 0x1_0000_0000_0000_0000
                + name.top_level_item.index as u128 * 0x1_0000_0000 + name.local_name_id as u128,
            TypeKey::UserDefined(Origin::Local(name)) => 0x2_0000_0000_0000_0000_0000_0000u128
                + *name as u128,
            TypeKey::UserDefined(Origin::TypeResolution) => 0x3_0000_0000_0000_0000_0000_0000,
            TypeKey::UserDefined(Origin::Builtin(id)) => 0x4_0000_0000_0000_0000_0000_0000u128
                + *id as u128,
            TypeKey::Function => 0x5_0000_0000_0000_0000_0000_0000,
            TypeKey::Tuple => 0x6_0000_0000_0000_0000_0000_0000,
            TypeKey::Effects => 0x7_0000_0000_0000_0000_0000_0000,
        }
    }
}

/// Where `key` is, or belongs, among `entries`: behind every entry of a lower rank.
pub open spec fn place<K: Ranked, V>(entries: Seq<(K, V)>, key: K) -> int
    decreases entries.len(),
{
    if entries.len() == 0 || key.rank_spec() <= entries[0].0.rank_spec() {
        0
    } else {
        1 + place(entries.drop_first(), key)
    }
}

/// What `entries` hold under `key`.
pub open spec fn filed<K: Ranked, V>(entries: Seq<(K, V)>, key: K) -> Option<V> {
    let at = place(entries, key);
    if at < entries.len() && entries[at].0 == key {
        Some(entries[at].1)
    } else {
        None
    }
}

/// `entries` with `value` under `key`.
pub open spec fn file<K: Ranked, V>(entries: Seq<(K, V)>, key: K, value: V) -> Seq<(K, V)> {
    let at = place(entries, key);
    if filed(entries, key) is Some {
        entries.update(at, (key, value))
    } else {
        entries.insert(at, (key, value))
    }
}

/// Every key of `entries` has a higher rank than the keys before it.
pub open spec fn in_order<K: Ranked, V>(entries: Seq<(K, V)>) -> bool {
    forall|i: int, j: int|
        0 <= i < j < entries.len() ==> (#[trigger] entries[i]).0.rank_spec() < (
        #[trigger] entries[j]).0.rank_spec()
}

proof fn place_is_within<K: Ranked, V>(entries: Seq<(K, V)>, key: K)
    ensures
        0 <= place(entries, key) <= entries.len(),
        forall|i: int|
            0 <= i < place(entries, key) ==> (#[trigger] entries[i]).0.rank_spec()
                < key.rank_spec(),
        place(entries, key) < entries.len() ==> key.rank_spec() <= entries[place(
            entries,
            key,
        )].0.rank_spec(),
    decreases entries.len(),
{
    if entries.len() > 0 && key.rank_spec() > entries[0].0.rank_spec() {
        let rest = entries.drop_first();
        place_is_within(rest, key);
        assert forall|i: int| 0 <= i < place(entries, key) implies (
        #[trigger] entries[i]).0.rank_spec() < key.rank_spec() by {
            if i > 0 {
                assert(rest[i - 1] == entries[i]);
            }
        }
    }
}

/// A position behind the lower keys and before the first other one is the place of `key`.
proof fn place_is_first<K: Ranked, V>(entries: Seq<(K, V)>, key: K, at: int)
    requires
        0 <= at <= entries.len(),
        forall|i: int| 0 <= i < at ==> (#[trigger] entries[i]).0.rank_spec() < key.rank_spec(),
        at < entries.len() ==> key.rank_spec() <= entries[at].0.rank_spec(),
    ensures
        place(entries, key) == at,
    decreases entries.len(),
{
    if at > 0 {
        assert(entries[0].0.rank_spec() < key.rank_spec());
        let rest = entries.drop_first();
        assert forall|i: int| 0 <= i < at - 1 implies (#[trigger] rest[i]).0.rank_spec()
            < key.rank_spec() by {
            assert(rest[i] == entries[i + 1]);
        }
        place_is_first(rest, key, at - 1);
    }
}

/// Filing a value keeps the entries in order, makes it what is found under its key, and changes
/// nothing under the other keys.
pub proof fn law_filing<K: Ranked, V>(entries: Seq<(K, V)>, key: K, value: V, other: K)
    requires
        in_order(entries),
    ensures
        in_order(file(entries, key, value)),
        filed(file(entries, key, value), key) == Some(value),
        other != key ==> filed(file(entries, key, value), other) == filed(entries, other),
{
    let at = place(entries, key);
    let after = file(entries, key, value);
    place_is_within(entries, key);
    K::rank_is_injective(key, other);
    if at < entries.len() {
        K::rank_is_injective(key, entries[at].0);
    }
    place_is_first(after, key, at);
    if other != key {
        let before_at = place(entries, other);
        place_is_within(entries, other);
        if at < entries.len() && entries[at].0 == key {
            place_is_first(after, other, before_at);
        } else {
            let moved = if before_at <= at && other.rank_spec() < key.rank_spec() {
                before_at
            } else {
                before_at + 1
            };
            place_is_first(after, other, moved);
        }
    }
}

/// Find the place of `key`.
fn find_place<K: Ranked, V>(entries: &Vec<(K, V)>, key: &K) -> (at: usize)
    ensures
        at == place(entries@, *key),
        at <= entries.len(),
{
    let rank: u128 = key.rank();
    let mut i: usize = 0;
    while i < entries.len()
        invariant
            i <= entries.len(),
            rank == key.rank_spec(),
            forall|j: int| 0 <= j < i ==> (#[trigger] entries@[j]).0.rank_spec() < rank,
        decreases entries.len() - i,
    {
        if rank <= entries[i].0.rank() {
            proof {
                place_is_first(entries@, *key, i as int);
            }
            return i;
        }
        i += 1;
    }
    proof {
        place_is_first(entries@, *key, i as int);
    }
    i
}

/// The place of a key depends on the keys alone.
proof fn place_by_keys<K: Ranked, V, W>(a: Seq<(K, V)>, b: Seq<(K, W)>, key: K)
    requires
        a.len() == b.len(),
        forall|i: int| 0 <= i < a.len() ==> (#[trigger] a[i]).0 == b[i].0,
    ensures
        place(a, key) == place(b, key),
    decreases a.len(),
{
    if a.len() > 0 {
        assert(a[0].0 == b[0].0);
        assert forall|i: int| 0 <= i < a.len() - 1 implies (#[trigger] a.drop_first()[i]).0
            == b.drop_first()[i].0 by {
            assert(a[i + 1].0 == b[i + 1].0);
        }
        place_by_keys(a.drop_first(), b.drop_first(), key);
    }
}

impl TypeKey {
    /// The key of a type without bound variables. A generic or a type variable has none: it has to
    /// be checked against every other type.
    pub open spec fn of(typ: Type) -> Option<TypeKey>
        decreases typ,
    {
        match typ {
            Type::Primitive(primitive) => Some(TypeKey::Primitive(primitive)),
            Type::Generic(_) | Type::Variable(_) | Type::U32(_) => None,
            Type::Function(_) => Some(TypeKey::Function),
            Type::Application(constructor, _) => TypeKey::of(*constructor),
            Type::UserDefined(origin) => Some(TypeKey::UserDefined(origin)),
            Type::Forall(_, inner) => TypeKey::of(*inner),
            Type::Tuple(_) => Some(TypeKey::Tuple),
            Type::Effects(_, _) => Some(TypeKey::Effects),
        }
    }

    pub fn from_type(typ: &Type) -> (key: Option<TypeKey>)
        ensures
            key == TypeKey::of(*typ),
        decreases typ,
    {
        match typ {
            Type::Primitive(primitive) => Some(TypeKey::Primitive(*primitive)),
            Type::Generic(_) | Type::Variable(_) | Type::U32(_) => None,
            Type::Function(_) => Some(TypeKey::Function),
            Type::Application(constructor, _) => TypeKey::from_type(constructor),
            Type::UserDefined(origin) => Some(TypeKey::UserDefined(*origin)),
            Type::Forall(_, inner) => TypeKey::from_type(inner),
            Type::Tuple(_) => Some(TypeKey::Tuple),
            Type::Effects(_, _) => Some(TypeKey::Effects),
        }
    }
}

/// The ability a type is an instance of, and how its first argument is filed. With
/// `through_functions`, a function counts as what it returns.
pub open spec fn ability_of(typ: Type, through_functions: bool) -> Option<(TopLevelId, KeyKind)>
    decreases typ,
{
    match typ {
        Type::Application(constructor, args) => match *constructor {
            Type::UserDefined(Origin::TopLevelDefinition(ability)) => {
                let key = match args.head() {
                    Some(first) => TypeKey::of(first),
                    None => None,
                };
                Some(
                    (
                        ability.top_level_item,
                        match key {
                            Some(key) => KeyKind::Key(key),
                            None => KeyKind::GenericOrUnknown,
                        },
                    ),
                )
            },
            _ => None,
        },
        Type::Function(function) => if through_functions {
            match ability_of(function.return_type, through_functions) {
                Some((ability, KeyKind::Key(key))) => Some((ability, KeyKind::Function(key))),
                other => other,
            }
        } else {
            None
        },
        _ => None,
    }
}

/// Set `do_function_check` to file an implicit, which may be called for what it returns, and clear
/// it to look for one.
pub fn get_ability_id_and_first_argument(typ: &Type, do_function_check: bool) -> (found: Option<
    (TopLevelId, KeyKind),
>)
    ensures
        found == ability_of(*typ, do_function_check),
    decreases typ,
{
    match typ {
        Type::Application(constructor, args) => match &**constructor {
            Type::UserDefined(Origin::TopLevelDefinition(ability)) => {
                let key = match args.first() {
                    Some(first) => TypeKey::from_type(first),
                    None => None,
                };
                let kind = match key {
                    Some(key) => KeyKind::Key(key),
                    None => KeyKind::GenericOrUnknown,
                };
                Some((ability.top_level_item, kind))
            },
            _ => None,
        },
        Type::Function(function) => {
            if !do_function_check {
                return None;
            }
            match get_ability_id_and_first_argument(&function.return_type, do_function_check) {
                Some((ability, KeyKind::Key(key))) => Some((ability, KeyKind::Function(key))),
                other => other,
            }
        },
        _ => None,
    }
}

impl Impls {
    pub open spec fn none() -> Impls {
        Impls { by_key: Seq::empty(), generic: Seq::empty() }
    }

    /// The implicits under `key`.
    pub open spec fn under(self, key: TypeKey) -> Seq<Candidate> {
        match filed(self.by_key, key) {
            Some(candidates) => candidates,
            None => Seq::empty(),
        }
    }

    pub open spec fn with_key(self, key: TypeKey, candidate: Candidate) -> Impls {
        Impls { by_key: file(self.by_key, key, self.under(key).push(candidate)), ..self }
    }

    /// These implicits with `candidate` filed as `kind`.
    pub open spec fn with(self, kind: KeyKind, candidate: Candidate) -> Impls {
        match kind {
            KeyKind::Function(return_key) => self.with_key(TypeKey::Function, candidate).with_key(
                return_key,
                candidate,
            ),
            KeyKind::Key(key) => self.with_key(key, candidate),
            KeyKind::GenericOrUnknown => Impls { generic: self.generic.push(candidate), ..self },
        }
    }

    /// The implicits under the first `count` keys, in the order of the keys.
    pub open spec fn under_first(self, count: int) -> Seq<Candidate>
        decreases count,
    {
        if count <= 0 {
            Seq::empty()
        } else {
            self.under_first(count - 1) + self.by_key[count - 1].1
        }
    }

    /// All implicits, in the order of their keys, the generic ones last.
    pub open spec fn all(self) -> Seq<Candidate> {
        self.under_first(self.by_key.len() as int) + self.generic
    }
}

impl Registry {
    pub open spec fn none() -> Registry {
        Registry { known: Seq::empty(), unknown: Seq::empty(), shared_drops: Seq::empty() }
    }

    /// The implicits of `ability`.
    pub open spec fn of_ability(self, ability: TopLevelId) -> Impls {
        match filed(self.known, ability) {
            Some(impls) => impls,
            None => Impls::none(),
        }
    }

    pub open spec fn with_known(
        self,
        ability: TopLevelId,
        kind: KeyKind,
        candidate: Candidate,
    ) -> Registry {
        Registry {
            known: file(self.known, ability, self.of_ability(ability).with(kind, candidate)),
            ..self
        }
    }

    /// This registry with an implicit of type `typ`.
    pub open spec fn with(self, typ: Type, candidate: Candidate) -> Registry {
        match ability_of(typ, true) {
            Some((ability, kind)) => self.with_known(ability, kind, candidate),
            None => Registry { unknown: self.unknown.push(candidate), ..self },
        }
    }

    pub open spec fn with_shared_drop(self, shared_type: TopLevelId, candidate: Candidate) -> Registry {
        Registry { shared_drops: file(self.shared_drops, shared_type, candidate), ..self }
    }

    /// The implicits of the first `count` abilities, in the order of the abilities.
    pub open spec fn of_first(self, count: int) -> Seq<Candidate>
        decreases count,
    {
        if count <= 0 {
            Seq::empty()
        } else {
            self.of_first(count - 1) + self.known[count - 1].1.all()
        }
    }

    /// What is filed where an implicit of the type `target` may be. A function may be filed in two
    /// of these places.
    pub open spec fn listed_for(self, target: Type) -> Seq<Candidate> {
        (match ability_of(target, false) {
            Some((ability, KeyKind::Key(argument))) => {
                let impls = self.of_ability(ability);
                impls.under(argument) + impls.generic
            },
            Some((ability, _)) => self.of_ability(ability).all(),
            None => self.of_first(self.known.len() as int),
        }) + self.unknown
    }

    /// The implicits that may be of the type `target`, each of them once.
    pub open spec fn candidates_for(self, target: Type) -> Seq<Candidate> {
        distinct(self.listed_for(target))
    }

    /// No implicit is a candidate twice, and the candidates are those that are filed where an
    /// implicit of the type may be.
    pub proof fn law_no_implicit_is_a_candidate_twice(self, target: Type)
        ensures
            self.candidates_for(target).no_duplicates(),
            forall|candidate: Candidate| #[trigger]
                self.candidates_for(target).contains(candidate) <==> self.listed_for(
                    target,
                ).contains(candidate),
    {
        distinct_is_a_set(self.listed_for(target));
    }

    /// The entries of every level are in the order of their keys.
    pub open spec fn is_sorted(self) -> bool {
        &&& in_order(self.known)
        &&& in_order(self.shared_drops)
        &&& forall|i: int| 0 <= i < self.known.len() ==> in_order((#[trigger] self.known[i]).1.by_key)
    }
}

impl Database {
    /// The prelude's `Drop` ability. There is none while values are not dropped automatically.
    pub open spec fn drop_ability(self) -> Option<TopLevelId> {
        if !self.auto_drop {
            None
        } else {
            match self.exported_type(PRELUDE, "Drop"@) {
                Some(name) => Some(name.top_level_item),
                None => None,
            }
        }
    }

    /// The type of a definition that takes part in the search of implicits. One whose type cannot
    /// be derived is reported elsewhere, and would fail every search.
    pub open spec fn implicit_type(self, item: TopLevelId) -> Option<Type> {
        match lookup(self.items@, item) {
            Some(
                ItemKind::Definition { implicit: true, type_is_derivable: true, partial_type, .. },
            ) => Some(partial_type),
            _ => None,
        }
    }

    /// The shared type that an impl of type `typ` implements the drop ability for.
    pub open spec fn shared_drop_target(self, typ: Type) -> Option<TopLevelId> {
        match self.drop_ability() {
            None => None,
            Some(drop_ability) => match ability_of(typ, true) {
                Some((ability, kind)) => {
                    let key = match kind {
                        KeyKind::Key(key) | KeyKind::Function(key) => Some(key),
                        KeyKind::GenericOrUnknown => None,
                    };
                    match key {
                        Some(TypeKey::UserDefined(Origin::TopLevelDefinition(name))) => if ability
                            == drop_ability && self.is_shared_type(name.top_level_item) {
                            Some(name.top_level_item)
                        } else {
                            None
                        },
                        _ => None,
                    }
                },
                None => None,
            },
        }
    }

    /// `registry` with what the definition `id` adds to it under `name`.
    pub open spec fn with_definition(
        self,
        registry: Registry,
        name: Seq<char>,
        id: TopLevelName,
    ) -> Registry {
        let candidate = Candidate { name, id };
        match self.implicit_type(id.top_level_item) {
            None => registry,
            Some(typ) => match self.shared_drop_target(typ) {
                Some(shared_type) => registry.with_shared_drop(shared_type, candidate),
                None => registry.with(typ, candidate),
            },
        }
    }

    /// The registry of the first `count` of `names`.
    pub open spec fn with_definitions(
        self,
        names: Seq<(String, TopLevelName)>,
        count: int,
    ) -> Registry
        decreases count,
    {
        if count <= 0 {
            Registry::none()
        } else {
            self.with_definition(
                self.with_definitions(names, count - 1),
                names[count - 1].0@,
                names[count - 1].1,
            )
        }
    }

    /// `registry` with the drop impl of `type_id`, where that is a shared type: the release of a
    /// handle is its drop.
    pub open spec fn with_shared_type(
        self,
        registry: Registry,
        drop_ability: TopLevelId,
        shared_name: Seq<char>,
        type_id: TopLevelName,
    ) -> Registry {
        if self.is_shared_type(type_id.top_level_item) {
            registry.with_known(
                drop_ability,
                KeyKind::Key(TypeKey::UserDefined(Origin::TopLevelDefinition(type_id))),
                Candidate {
                    name: "drop_"@ + shared_name,
                    id: TopLevelName {
                        top_level_item: type_id.top_level_item,
                        local_name_id: DROP_IMPL,
                    },
                },
            )
        } else {
            registry
        }
    }

    /// `registry` with the drop impls of the first `count` of `types`.
    pub open spec fn with_shared_types(
        self,
        registry: Registry,
        drop_ability: TopLevelId,
        types: Seq<(String, TopLevelName)>,
        count: int,
    ) -> Registry
        decreases count,
    {
        if count <= 0 {
            registry
        } else {
            self.with_shared_type(
                self.with_shared_types(registry, drop_ability, types, count - 1),
                drop_ability,
                types[count - 1].0@,
                types[count - 1].1,
            )
        }
    }

    /// `registry` with the drop impls of the shared types visible in `file`.
    pub open spec fn with_shared_drops(self, registry: Registry, file: u32) -> Registry {
        match self.drop_ability() {
            None => registry,
            Some(drop_ability) => {
                let types = names_in(self.visible_types@, file);
                self.with_shared_types(registry, drop_ability, types, types.len() as int)
            },
        }
    }

    /// The implicits visible in `file`.
    pub open spec fn implicits_of(self, file: u32) -> Registry {
        let names = names_in(self.visible_definitions@, file);
        self.with_shared_drops(self.with_definitions(names, names.len() as int), file)
    }

    /// The prelude's `Drop` ability, or nothing while values are not dropped automatically.
    pub fn drop_ability_id(&self) -> (ability: Option<TopLevelId>)
        ensures
            ability == self.drop_ability(),
    {
        if !self.auto_drop {
            return None;
        }
        match self.find_exported_type(PRELUDE, "Drop") {
            Some(name) => Some(name.top_level_item),
            None => None,
        }
    }

    /// The shared type a written impl of type `typ` implements the drop ability for, if that is
    /// what the impl is. A constrained impl is a function that returns the ability.
    pub fn shared_drop_impl_target(&self, typ: &Type) -> (target: Option<TopLevelId>)
        ensures
            target == self.shared_drop_target(*typ),
    {
        match self.drop_ability_id() {
            None => None,
            Some(drop_ability) => match get_ability_id_and_first_argument(typ, true) {
                Some((ability, kind)) => {
                    if ability != drop_ability {
                        return None;
                    }
                    let key = match kind {
                        KeyKind::Key(key) => key,
                        KeyKind::Function(key) => key,
                        KeyKind::GenericOrUnknown => {
                            return None;
                        },
                    };
                    match key {
                        TypeKey::UserDefined(Origin::TopLevelDefinition(name)) => {
                            if self.defines_shared_type(name.top_level_item) {
                                Some(name.top_level_item)
                            } else {
                                None
                            }
                        },
                        _ => None,
                    }
                },
                None => None,
            },
        }
    }
}

impl Implicit {
    fn new(name: &String, id: TopLevelName) -> (implicit: Implicit)
        ensures
            implicit@ == (Candidate { name: name@, id }),
    {
        Implicit { name: name.clone(), id }
    }
}

impl ImplicitImpls {
    fn new() -> (impls: ImplicitImpls)
        ensures
            impls@ == Impls::none(),
    {
        ImplicitImpls { type_to_impls: Vec::new(), generic_type_impls: Vec::new() }
    }

    /// File `implicit` under `key`, behind what is there.
    fn push(&mut self, key: TypeKey, implicit: Implicit)
        ensures
            final(self)@ == old(self)@.with_key(key, implicit@),
    {
        let at = find_place(&self.type_to_impls, &key);
        proof {
            place_by_keys(self.type_to_impls@, self@.by_key, key);
        }
        if at < self.type_to_impls.len() && self.type_to_impls[at].0 == key {
            self.type_to_impls[at].1.push(implicit);
        } else {
            let mut implicits: Vec<Implicit> = Vec::new();
            implicits.push(implicit);
            self.type_to_impls.insert(at, (key, implicits));
        }
        assert(self@.by_key =~~= old(self)@.with_key(key, implicit@).by_key);
    }

    /// File an implicit as `kind`.
    fn add(&mut self, kind: KeyKind, name: &String, id: TopLevelName)
        ensures
            final(self)@ == old(self)@.with(kind, Candidate { name: name@, id }),
    {
        match kind {
            KeyKind::Function(return_key) => {
                self.push(TypeKey::Function, Implicit::new(name, id));
                self.push(return_key, Implicit::new(name, id));
            },
            KeyKind::Key(key) => {
                self.push(key, Implicit::new(name, id));
            },
            KeyKind::GenericOrUnknown => {
                self.generic_type_impls.push(Implicit::new(name, id));
                assert(self@ =~= old(self)@.with(kind, Candidate { name: name@, id }));
            },
        }
    }
}

impl Implicits {
    pub fn new() -> (implicits: Implicits)
        ensures
            implicits@ == Registry::none(),
    {
        let implicits = Implicits {
            known_ability_to_impls: Vec::new(),
            unknown_ability_to_impls: Vec::new(),
            shared_drop_impls: Vec::new(),
        };
        assert(implicits@ =~= Registry::none());
        implicits
    }

    /// File an implicit of a known ability.
    fn add_known(&mut self, ability: TopLevelId, kind: KeyKind, name: &String, id: TopLevelName)
        ensures
            final(self)@ == old(self)@.with_known(ability, kind, Candidate { name: name@, id }),
    {
        let at = find_place(&self.known_ability_to_impls, &ability);
        proof {
            place_by_keys(self.known_ability_to_impls@, self@.known, ability);
        }
        if at < self.known_ability_to_impls.len() && self.known_ability_to_impls[at].0 == ability {
            self.known_ability_to_impls[at].1.add(kind, name, id);
        } else {
            let mut impls = ImplicitImpls::new();
            impls.add(kind, name, id);
            self.known_ability_to_impls.insert(at, (ability, impls));
        }
        assert(self@ =~~= old(self)@.with_known(ability, kind, Candidate { name: name@, id }));
    }

    /// Hold aside the drop impl of a shared type, in place of an earlier one.
    fn add_shared_drop(&mut self, shared_type: TopLevelId, implicit: Implicit)
        ensures
            final(self)@ == old(self)@.with_shared_drop(shared_type, implicit@),
    {
        let at = find_place(&self.shared_drop_impls, &shared_type);
        proof {
            place_by_keys(self.shared_drop_impls@, self@.shared_drops, shared_type);
        }
        if at < self.shared_drop_impls.len() && self.shared_drop_impls[at].0 == shared_type {
            self.shared_drop_impls[at].1 = implicit;
        } else {
            self.shared_drop_impls.insert(at, (shared_type, implicit));
        }
        assert(self@ =~~= old(self)@.with_shared_drop(shared_type, implicit@));
    }

    /// File what the definition `id` adds under `name`.
    fn add_definition(&mut self, db: &Database, name: &String, id: TopLevelName)
        ensures
            final(self)@ == db.with_definition(old(self)@, name@, id),
    {
        let typ = match db.items.get(&id.top_level_item) {
            Some(ItemKind::Definition { implicit: true, type_is_derivable: true, partial_type, .. }) => {
                partial_type
            },
            _ => {
                return ;
            },
        };
        // A drop impl of a shared type is held aside: no search comes upon it.
        match db.shared_drop_impl_target(typ) {
            Some(shared_type) => {
                self.add_shared_drop(shared_type, Implicit::new(name, id));
            },
            None => match get_ability_id_and_first_argument(typ, true) {
                Some((ability, kind)) => {
                    self.add_known(ability, kind, name, id);
                },
                None => {
                    self.unknown_ability_to_impls.push(Implicit::new(name, id));
                    assert(self@ =~= old(self)@.with(*typ, Candidate { name: name@, id }));
                },
            },
        }
    }
}

/// Register the drop impl of every shared type visible in `file`.
///
/// The witness is registered wherever the type is visible, since the type's own module cannot be
/// assumed to import `Drop`. From there on it is keyed and searched like any other impl.
pub fn register_shared_drop_impls(implicits: &mut Implicits, file: u32, db: &Database)
    ensures
        final(implicits)@ == db.with_shared_drops(old(implicits)@, file),
{
    let drop_ability = match db.drop_ability_id() {
        Some(drop_ability) => drop_ability,
        None => {
            return ;
        },
    };
    let types = match db.visible_types.get(&file) {
        Some(types) => types,
        None => {
            return ;
        },
    };
    let mut i: usize = 0;
    while i < types.len()
        invariant
            i <= types.len(),
            implicits@ == db.with_shared_types(old(implicits)@, drop_ability, types@, i as int),
        decreases types.len() - i,
    {
        let type_id = types[i].1;
        if db.defines_shared_type(type_id.top_level_item) {
            let key = TypeKey::UserDefined(Origin::TopLevelDefinition(type_id));
            let witness = TopLevelName::new(type_id.top_level_item, DROP_IMPL);
            let mut name = String::new();
            name.append("drop_");
            name.append(types[i].0.as_str());
            assert(name@ == "drop_"@ + types@[i as int].0@);
            implicits.add_known(drop_ability, KeyKind::Key(key), &name, witness);
        }
        i += 1;
    }
}

/// The global implicits visible in the file of `context`. They are among the definitions visible
/// there, and the drop impls of the shared types visible there.
pub fn visible_implicits_impl(context: &VisibleImplicits, db: &Database) -> (implicits: Arc<Implicits>)
    ensures
        implicits@ == db.implicits_of(context.0),
{
    let mut implicits = Implicits::new();
    let ghost names = names_in(db.visible_definitions@, context.0);
    match db.visible_definitions.get(&context.0) {
        None => {},
        Some(definitions) => {
            let mut i: usize = 0;
            while i < definitions.len()
                invariant
                    i <= definitions.len(),
                    names == definitions@,
                    implicits@ == db.with_definitions(names, i as int),
                decreases definitions.len() - i,
            {
                implicits.add_definition(db, &definitions[i].0, definitions[i].1);
                i += 1;
            }
        },
    }
    assert(implicits@ == db.with_definitions(names, names.len() as int));
    register_shared_drop_impls(&mut implicits, context.0, db);
    Arc::new(implicits)
}

/// `references` point to `implicits`, one to one.
spec fn point_to(references: Seq<&Implicit>, implicits: Seq<Candidate>) -> bool {
    &&& references.len() == implicits.len()
    &&& forall|i: int| 0 <= i < implicits.len() ==> (#[trigger] references[i])@ == implicits[i]
}

fn add_references<'a>(references: &mut Vec<&'a Implicit>, implicits: &'a Vec<Implicit>)
    ensures
        forall|before: Seq<Candidate>|
            point_to(old(references)@, before) ==> #[trigger] point_to(
                final(references)@,
                before + candidates(implicits@),
            ),
{
    let mut i: usize = 0;
    while i < implicits.len()
        invariant
            i <= implicits.len(),
            references@.len() == old(references)@.len() + i,
            forall|j: int| 0 <= j < old(references)@.len() ==> references@[j] == old(references)@[j],
            forall|j: int| 0 <= j < i ==> references@[old(references)@.len() + j] == implicits@[j],
        decreases implicits.len() - i,
    {
        references.push(&implicits[i]);
        i += 1;
    }
    assert forall|before: Seq<Candidate>|
        point_to(old(references)@, before) implies #[trigger] point_to(
        references@,
        before + candidates(implicits@),
    ) by {
        let all = before + candidates(implicits@);
        assert forall|j: int| 0 <= j < all.len() implies (#[trigger] references@[j])@ == all[j] by {
            if j < before.len() {
                assert(old(references)@[j]@ == before[j]);
            } else {
                assert(references@[old(references)@.len() + (j - before.len())] == implicits@[j
                    - before.len()]);
            }
        }
    }
}

/// Whether an implicit is among those listed.
fn is_among(
    references: &Vec<&Implicit>,
    implicit: &Implicit,
    Ghost(listed): Ghost<Seq<Candidate>>,
) -> (among: bool)
    requires
        point_to(references@, listed),
    ensures
        among == listed.contains(implicit@),
{
    let mut i: usize = 0;
    while i < references.len()
        invariant
            i <= references.len(),
            point_to(references@, listed),
            forall|j: int| 0 <= j < i ==> #[trigger] listed[j] != implicit@,
        decreases references.len() - i,
    {
        let other = references[i];
        assert(other@ == listed[i as int]);
        if other.id == implicit.id && other.name == implicit.name {
            return true;
        }
        i += 1;
    }
    false
}

impl ImplicitImpls {
    fn add_all_references<'a>(&'a self, references: &mut Vec<&'a Implicit>)
        ensures
            forall|before: Seq<Candidate>|
                point_to(old(references)@, before) ==> #[trigger] point_to(
                    final(references)@,
                    before + self@.all(),
                ),
    {
        let mut i: usize = 0;
        proof {
            assert forall|before: Seq<Candidate>|
                point_to(old(references)@, before) implies #[trigger] point_to(
                references@,
                before + self@.under_first(0),
            ) by {
                assert(before + self@.under_first(0) =~= before);
            }
        }
        while i < self.type_to_impls.len()
            invariant
                i <= self.type_to_impls.len(),
                forall|before: Seq<Candidate>|
                    point_to(old(references)@, before) ==> #[trigger] point_to(
                        references@,
                        before + self@.under_first(i as int),
                    ),
            decreases self.type_to_impls.len() - i,
        {
            let ghost middle = references@;
            add_references(references, &self.type_to_impls[i].1);
            proof {
                assert forall|before: Seq<Candidate>|
                    point_to(old(references)@, before) implies #[trigger] point_to(
                    references@,
                    before + self@.under_first(i + 1),
                ) by {
                    assert(point_to(middle, before + self@.under_first(i as int)));
                    assert(before + self@.under_first(i + 1) =~= (before + self@.under_first(
                        i as int,
                    )) + candidates(self.type_to_impls@[i as int].1@));
                }
            }
            i += 1;
        }
        let ghost middle = references@;
        add_references(references, &self.generic_type_impls);
        proof {
            assert forall|before: Seq<Candidate>|
                point_to(old(references)@, before) implies #[trigger] point_to(
                references@,
                before + self@.all(),
            ) by {
                let listed = self@.under_first(self@.by_key.len() as int);
                assert(point_to(middle, before + listed));
                assert(before + self@.all() =~= (before + listed) + candidates(
                    self.generic_type_impls@,
                ));
            }
        }
    }
}

/// `f` was asked about the candidates from the front, and said `true` to none but the last one it
/// was asked about. It was asked about all of them unless it said `true`.
pub open spec fn asked_in_order<F: FnMut(&String, &TopLevelName) -> bool>(
    f: F,
    asked: Seq<(Implicit, bool)>,
    all: Seq<Candidate>,
) -> bool {
    &&& asked.len() <= all.len()
    &&& forall|i: int|
        0 <= i < asked.len() ==> {
            let (implicit, answer) = #[trigger] asked[i];
            implicit@ == all[i] && call_ensures(f, (&implicit.name, &implicit.id), answer) && (
            answer ==> i == asked.len() - 1)
        }
    &&& asked.len() < all.len() ==> asked.len() > 0 && asked.last().1
}

impl Implicits {
    /// The written drop impl of a shared type, which is held aside from every search.
    pub fn shared_drop_impl(&self, shared_type: TopLevelId) -> (name: Option<TopLevelName>)
        ensures
            match filed(self@.shared_drops, shared_type) {
                Some(candidate) => name == Some(candidate.id),
                None => name is None,
            },
    {
        let at = find_place(&self.shared_drop_impls, &shared_type);
        proof {
            place_by_keys(self.shared_drop_impls@, self@.shared_drops, shared_type);
        }
        if at < self.shared_drop_impls.len() && self.shared_drop_impls[at].0 == shared_type {
            Some(self.shared_drop_impls[at].1.id)
        } else {
            None
        }
    }

    /// The implicits of an ability.
    fn impls_of(&self, ability: TopLevelId) -> (impls: Option<&ImplicitImpls>)
        ensures
            match impls {
                Some(impls) => filed(self@.known, ability) == Some(impls@),
                None => filed(self@.known, ability) is None,
            },
    {
        let at = find_place(&self.known_ability_to_impls, &ability);
        proof {
            place_by_keys(self.known_ability_to_impls@, self@.known, ability);
        }
        if at < self.known_ability_to_impls.len() && self.known_ability_to_impls[at].0 == ability {
            Some(&self.known_ability_to_impls[at].1)
        } else {
            None
        }
    }

    /// What is filed where an implicit of the type `target` may be.
    fn filed_impls(&self, target: &Type) -> (references: Vec<&Implicit>)
        ensures
            point_to(references@, self@.listed_for(*target)),
    {
        let mut references: Vec<&Implicit> = Vec::new();
        let ghost none = Seq::<Candidate>::empty();
        let ghost found = none;
        assert(point_to(references@, none));
        match get_ability_id_and_first_argument(target, false) {
            Some((ability, KeyKind::Key(argument))) => {
                match self.impls_of(ability) {
                    Some(impls) => {
                        let at = find_place(&impls.type_to_impls, &argument);
                        proof {
                            place_by_keys(impls.type_to_impls@, impls@.by_key, argument);
                        }
                        if at < impls.type_to_impls.len() && impls.type_to_impls[at].0 == argument {
                            add_references(&mut references, &impls.type_to_impls[at].1);
                            assert(none + candidates(impls.type_to_impls@[at as int].1@)
                                =~= impls@.under(argument));
                        }
                        assert(point_to(references@, impls@.under(argument)));
                        add_references(&mut references, &impls.generic_type_impls);
                    },
                    None => {},
                }
                proof {
                    let impls = self@.of_ability(ability);
                    found = impls.under(argument) + impls.generic;
                    if filed(self@.known, ability) is None {
                        assert(filed(impls.by_key, argument) is None);
                        assert(found =~= none);
                    }
                }
                assert(point_to(references@, found));
            },
            Some((ability, _)) => {
                match self.impls_of(ability) {
                    Some(impls) => {
                        impls.add_all_references(&mut references);
                    },
                    None => {},
                }
                proof {
                    found = self@.of_ability(ability).all();
                    assert(none + found =~= found);
                    if filed(self@.known, ability) is None {
                        assert(found =~= none);
                    }
                }
                assert(point_to(references@, found));
            },
            None => {
                let mut i: usize = 0;
                while i < self.known_ability_to_impls.len()
                    invariant
                        i <= self.known_ability_to_impls.len(),
                        point_to(references@, self@.of_first(i as int)),
                    decreases self.known_ability_to_impls.len() - i,
                {
                    self.known_ability_to_impls[i].1.add_all_references(&mut references);
                    assert(self@.of_first(i + 1) == self@.of_first(i as int)
                        + self.known_ability_to_impls@[i as int].1@.all());
                    i += 1;
                }
                proof {
                    found = self@.of_first(self@.known.len() as int);
                }
                assert(point_to(references@, found));
            },
        }
        add_references(&mut references, &self.unknown_ability_to_impls);
        references
    }

    /// The implicits that may be of the type `target`, each of them once.
    fn possibly_matching_impls(&self, target: &Type) -> (references: Vec<&Implicit>)
        ensures
            point_to(references@, self@.candidates_for(*target)),
    {
        let filed = self.filed_impls(target);
        let ghost listed = self@.listed_for(*target);
        let mut references: Vec<&Implicit> = Vec::new();
        let mut i: usize = 0;
        while i < filed.len()
            invariant
                i <= filed.len(),
                point_to(filed@, listed),
                point_to(references@, distinct(listed.take(i as int))),
            decreases filed.len() - i,
        {
            proof {
                let more = listed.take(i + 1);
                assert(more.drop_last() =~= listed.take(i as int));
                assert(more.last() == filed@[i as int]@);
            }
            if !is_among(&references, filed[i], Ghost(distinct(listed.take(i as int)))) {
                references.push(filed[i]);
            }
            i += 1;
        }
        assert(listed.take(i as int) =~= listed);
        references
    }

    /// The definitions behind the implicits that may be of the type `target_type`. A function that
    /// is filed in two of the places that are searched is listed twice.
    pub fn possibly_matching_ids(&self, target_type: &Type) -> (ids: Vec<TopLevelName>)
        ensures
            ids@ == ids_of(self@.listed_for(*target_type)),
    {
        let references = self.filed_impls(target_type);
        let ghost all = self@.listed_for(*target_type);
        let mut ids: Vec<TopLevelName> = Vec::new();
        let mut i: usize = 0;
        while i < references.len()
            invariant
                i <= references.len(),
                point_to(references@, all),
                ids@ == ids_of(all.take(i as int)),
            decreases references.len() - i,
        {
            ids.push(references[i].id);
            assert(all.take(i + 1) =~= all.take(i as int).push(all[i as int]));
            assert(references@[i as int]@ == all[i as int]);
            i += 1;
        }
        assert(all.take(i as int) =~= all);
        ids
    }

    /// Ask `f` about each of the implicits that may be of the type `target_type`, until it says
    /// `true`. It may be asked about implicits that do not match in the end, and twice about a
    /// function that is filed in two of the places that are searched, but no implicit that matches
    /// is passed over.
    pub fn iter_possibly_matching_impls(
        &self,
        target_type: &Type,
        mut f: impl FnMut(&String, &TopLevelName) -> bool,
    )
        requires
            forall|name: &String, id: &TopLevelName| #[trigger] call_requires(f, (name, id)),
        ensures
            exists|asked: Seq<(Implicit, bool)>| #[trigger]
                asked_in_order(f, asked, self@.listed_for(*target_type)),
    {
        let references = self.filed_impls(target_type);
        let ghost all = self@.listed_for(*target_type);
        let ghost mut asked: Seq<(Implicit, bool)> = Seq::empty();
        let ghost asker = f;
        let mut done = false;
        let mut i: usize = 0;
        while i < references.len() && !done
            invariant
                i <= references.len(),
                f == asker,
                point_to(references@, all),
                forall|name: &String, id: &TopLevelName| #[trigger] call_requires(f, (name, id)),
                asked.len() == i,
                done ==> i > 0 && asked.last().1,
                forall|j: int|
                    0 <= j < i ==> {
                        let (implicit, answer) = #[trigger] asked[j];
                        implicit@ == all[j] && call_ensures(
                            f,
                            (&implicit.name, &implicit.id),
                            answer,
                        ) && (answer ==> done && j == i - 1)
                    },
            decreases references.len() - i,
        {
            let candidate = references[i];
            done = f(&candidate.name, &candidate.id);
            proof {
                asked = asked.push((*candidate, done));
            }
            i += 1;
        }
        assert(asked_in_order(f, asked, all));
    }

    /// Whether no more than one implicit may be of the type `target_type`.
    pub fn at_most_1_candidate(&self, target_type: &Type) -> (at_most_1: bool)
        ensures
            at_most_1 == (self@.candidates_for(*target_type).len() <= 1),
    {
        self.possibly_matching_impls(target_type).len() <= 1
    }
}

/// A value of type `typ` gives one of type `wanted`: it is one, or a function that can be called
/// for a value that gives one.
pub open spec fn offers(typ: Type, wanted: Type) -> bool
    decreases typ,
{
    typ == wanted || match typ {
        Type::Function(function) => offers(function.return_type, wanted),
        _ => false,
    }
}

/// Instances of a type with a key have the same key.
pub proof fn law_key_of_instance(typ: Type, choice: spec_fn(Generic) -> Type)
    requires
        TypeKey::of(typ) is Some,
    ensures
        TypeKey::of(typ.instance(choice)) == TypeKey::of(typ),
    decreases typ,
{
    match typ {
        Type::Application(constructor, _) => law_key_of_instance(*constructor, choice),
        Type::Forall(_, inner) => law_key_of_instance(*inner, choice),
        _ => {},
    }
}

impl Impls {
    /// `candidate` was filed as `kind`.
    pub open spec fn has(self, kind: KeyKind, candidate: Candidate) -> bool {
        match kind {
            KeyKind::Key(key) => self.under(key).contains(candidate),
            KeyKind::Function(key) => self.under(TypeKey::Function).contains(candidate)
                && self.under(key).contains(candidate),
            KeyKind::GenericOrUnknown => self.generic.contains(candidate),
        }
    }

    proof fn filing_keeps(self, key: TypeKey, candidate: Candidate, other: TypeKey)
        requires
            in_order(self.by_key),
        ensures
            in_order(self.with_key(key, candidate).by_key),
            self.with_key(key, candidate).under(key) == self.under(key).push(candidate),
            other != key ==> self.with_key(key, candidate).under(other) == self.under(other),
    {
        law_filing(self.by_key, key, self.under(key).push(candidate), other);
    }

    proof fn with_has(self, kind: KeyKind, candidate: Candidate)
        requires
            in_order(self.by_key),
        ensures
            in_order(self.with(kind, candidate).by_key),
            self.with(kind, candidate).has(kind, candidate),
            forall|old_kind: KeyKind, old: Candidate|
                self.has(old_kind, old) ==> #[trigger] self.with(kind, candidate).has(old_kind, old),
    {
        let after = self.with(kind, candidate);
        match kind {
            KeyKind::Key(key) => {
                assert forall|other: TypeKey, old: Candidate| #[trigger]
                    self.under(other).contains(old) implies after.under(other).contains(old) by {
                    self.filing_keeps(key, candidate, other);
                }
                self.filing_keeps(key, candidate, key);
            },
            KeyKind::Function(key) => {
                let middle = self.with_key(TypeKey::Function, candidate);
                self.filing_keeps(TypeKey::Function, candidate, key);
                middle.filing_keeps(key, candidate, TypeKey::Function);
                assert forall|other: TypeKey, old: Candidate| #[trigger]
                    self.under(other).contains(old) implies after.under(other).contains(old) by {
                    self.filing_keeps(TypeKey::Function, candidate, other);
                    middle.filing_keeps(key, candidate, other);
                }
            },
            KeyKind::GenericOrUnknown => {},
        }
    }

    /// What was filed under a key is among all implicits.
    proof fn all_has(self, kind: KeyKind, candidate: Candidate)
        requires
            self.has(kind, candidate),
        ensures
            self.all().contains(candidate),
    {
        let key = match kind {
            KeyKind::Key(key) => Some(key),
            KeyKind::Function(key) => Some(key),
            KeyKind::GenericOrUnknown => None,
        };
        match key {
            Some(key) => {
                place_is_within(self.by_key, key);
                self.under_first_has(self.by_key.len() as int, place(self.by_key, key), candidate);
            },
            None => {},
        }
    }

    proof fn under_first_has(self, count: int, at: int, candidate: Candidate)
        requires
            0 <= at < count <= self.by_key.len(),
            self.by_key[at].1.contains(candidate),
        ensures
            self.under_first(count).contains(candidate),
        decreases count,
    {
        if at < count - 1 {
            self.under_first_has(count - 1, at, candidate);
        }
    }
}

impl Registry {
    /// `candidate` was registered as an implicit of type `typ`.
    pub open spec fn has(self, typ: Type, candidate: Candidate) -> bool {
        match ability_of(typ, true) {
            Some((ability, kind)) => self.of_ability(ability).has(kind, candidate),
            None => self.unknown.contains(candidate),
        }
    }

    proof fn with_known_keeps(self, ability: TopLevelId, kind: KeyKind, candidate: Candidate)
        requires
            self.is_sorted(),
        ensures
            self.with_known(ability, kind, candidate).is_sorted(),
            self.with_known(ability, kind, candidate).of_ability(ability).has(kind, candidate),
            forall|typ: Type, old: Candidate|
                self.has(typ, old) ==> #[trigger] self.with_known(ability, kind, candidate).has(
                    typ,
                    old,
                ),
    {
        let after = self.with_known(ability, kind, candidate);
        let impls = self.of_ability(ability);
        place_is_within(self.known, ability);
        assert(in_order(impls.by_key));
        impls.with_has(kind, candidate);
        let value = impls.with(kind, candidate);
        law_filing(self.known, ability, value, ability);
        assert forall|i: int| 0 <= i < after.known.len() implies in_order(
            (#[trigger] after.known[i]).1.by_key,
        ) by {
            let at = place(self.known, ability);
            if i != at {
                if filed(self.known, ability) is Some || i < at {
                    assert(after.known[i] == self.known[i]);
                } else {
                    assert(after.known[i] == self.known[i - 1]);
                }
            }
        }
        assert forall|typ: Type, old: Candidate| self.has(typ, old) implies #[trigger] after.has(
            typ,
            old,
        ) by {
            match ability_of(typ, true) {
                Some((other, _)) => {
                    law_filing(self.known, ability, value, other);
                },
                None => {},
            }
        }
    }

    proof fn with_keeps(self, typ: Type, candidate: Candidate)
        requires
            self.is_sorted(),
        ensures
            self.with(typ, candidate).is_sorted(),
            self.with(typ, candidate).has(typ, candidate),
            forall|other: Type, old: Candidate|
                self.has(other, old) ==> #[trigger] self.with(typ, candidate).has(other, old),
    {
        match ability_of(typ, true) {
            Some((ability, kind)) => self.with_known_keeps(ability, kind, candidate),
            None => {
                let after = self.with(typ, candidate);
                assert forall|other: Type, old: Candidate|
                    self.has(other, old) implies #[trigger] after.has(other, old) by {
                    match ability_of(other, true) {
                        Some((ability, _)) => {
                            assert(after.of_ability(ability) == self.of_ability(ability));
                        },
                        None => {},
                    }
                }
            },
        }
    }

    proof fn with_shared_drop_keeps(self, shared_type: TopLevelId, candidate: Candidate)
        requires
            self.is_sorted(),
        ensures
            self.with_shared_drop(shared_type, candidate).is_sorted(),
            forall|typ: Type, old: Candidate|
                self.has(typ, old) ==> #[trigger] self.with_shared_drop(shared_type, candidate).has(
                    typ,
                    old,
                ),
    {
        law_filing(self.shared_drops, shared_type, candidate, shared_type);
        let after = self.with_shared_drop(shared_type, candidate);
        assert forall|typ: Type, old: Candidate| self.has(typ, old) implies #[trigger] after.has(
            typ,
            old,
        ) by {
            match ability_of(typ, true) {
                Some((ability, _)) => {
                    assert(after.of_ability(ability) == self.of_ability(ability));
                },
                None => {},
            }
        }
    }

    proof fn of_first_has(self, count: int, at: int, candidate: Candidate)
        requires
            0 <= at < count <= self.known.len(),
            self.known[at].1.all().contains(candidate),
        ensures
            self.of_first(count).contains(candidate),
        decreases count,
    {
        if at < count - 1 {
            self.of_first_has(count - 1, at, candidate);
        }
    }

    /// A registered implicit is searched for every type that it offers an instance of, and is a
    /// candidate for it, whatever its own generics and those of the wanted type come to stand for.
    pub proof fn law_no_match_is_missed(
        self,
        typ: Type,
        candidate: Candidate,
        choice: spec_fn(Generic) -> Type,
        wanted: Type,
        wanted_choice: spec_fn(Generic) -> Type,
    )
        requires
            self.has(typ, candidate),
            offers(typ.instance(choice), wanted.instance(wanted_choice)),
        ensures
            self.listed_for(wanted).contains(candidate),
            self.candidates_for(wanted).contains(candidate),
    {
        self.law_no_implicit_is_a_candidate_twice(wanted);
        match ability_of(typ, true) {
            None => {},
            Some((ability, kind)) => {
                let impls = self.of_ability(ability);
                impls.all_has(kind, candidate);
                match ability_of(wanted, false) {
                    None => {
                        place_is_within(self.known, ability);
                        if filed(self.known, ability) is None {
                            assert(impls.all() =~= Seq::<Candidate>::empty());
                        }
                        self.of_first_has(
                            self.known.len() as int,
                            place(self.known, ability),
                            candidate,
                        );
                    },
                    Some((wanted_ability, wanted_kind)) => {
                        offered_ability(typ, choice, wanted, wanted_choice);
                    },
                }
            },
        }
    }
}

/// What a type offers an instance of is of the same ability, with the same key where both have one.
proof fn offered_ability(
    typ: Type,
    choice: spec_fn(Generic) -> Type,
    wanted: Type,
    wanted_choice: spec_fn(Generic) -> Type,
)
    requires
        offers(typ.instance(choice), wanted.instance(wanted_choice)),
        ability_of(typ, true) is Some,
        ability_of(wanted, false) is Some,
    ensures
        ability_of(typ, true).unwrap().0 == ability_of(wanted, false).unwrap().0,
        match (ability_of(typ, true).unwrap().1, ability_of(wanted, false).unwrap().1) {
            (KeyKind::GenericOrUnknown, _) => true,
            (_, KeyKind::GenericOrUnknown) => true,
            (KeyKind::Key(a) | KeyKind::Function(a), KeyKind::Key(b)) => a == b,
            (_, KeyKind::Function(_)) => false,
        },
    decreases typ,
{
    assert(wanted.instance(wanted_choice) is Application);
    reveal_with_fuel(Type::instance, 2);
    match typ {
        Type::Function(function) => {
            assert(typ.instance(choice) == Type::Function(Box::new(function.instance(choice))));
            assert(function.instance(choice).return_type == function.return_type.instance(choice));
            offered_ability(function.return_type, choice, wanted, wanted_choice);
        },
        Type::Application(_, args) => {
            match wanted {
                Type::Application(_, wanted_args) => {
                    assert(args.instance(choice) == wanted_args.instance(wanted_choice));
                    match (args.head(), wanted_args.head()) {
                        (Some(first), Some(wanted_first)) => {
                            assert(first.instance(choice) == wanted_first.instance(wanted_choice));
                            if TypeKey::of(first) is Some {
                                law_key_of_instance(first, choice);
                            }
                            if TypeKey::of(wanted_first) is Some {
                                law_key_of_instance(wanted_first, wanted_choice);
                            }
                        },
                        _ => {},
                    }
                },
                _ => {},
            }
        },
        _ => {},
    }
}

impl Database {
    proof fn definitions_are_registered(self, names: Seq<(String, TopLevelName)>, count: int)
        requires
            0 <= count <= names.len(),
        ensures
            self.with_definitions(names, count).is_sorted(),
            forall|i: int|
                0 <= i < count ==> self.is_registered(
                    self.with_definitions(names, count),
                    #[trigger] names[i],
                ),
        decreases count,
    {
        if count > 0 {
            self.definitions_are_registered(names, count - 1);
            let before = self.with_definitions(names, count - 1);
            let candidate = Candidate { name: names[count - 1].0@, id: names[count - 1].1 };
            match self.implicit_type(candidate.id.top_level_item) {
                None => {},
                Some(typ) => match self.shared_drop_target(typ) {
                    Some(shared_type) => before.with_shared_drop_keeps(shared_type, candidate),
                    None => before.with_keeps(typ, candidate),
                },
            }
        }
    }

    /// The definition behind `name` is registered under its type, if it is an implicit that takes
    /// part in the search.
    pub open spec fn is_registered(self, registry: Registry, name: (String, TopLevelName)) -> bool {
        match self.implicit_type(name.1.top_level_item) {
            Some(typ) => self.shared_drop_target(typ) is Some || registry.has(
                typ,
                Candidate { name: name.0@, id: name.1 },
            ),
            None => true,
        }
    }

    proof fn shared_types_keep(
        self,
        registry: Registry,
        drop_ability: TopLevelId,
        types: Seq<(String, TopLevelName)>,
        count: int,
    )
        requires
            registry.is_sorted(),
            0 <= count <= types.len(),
        ensures
            self.with_shared_types(registry, drop_ability, types, count).is_sorted(),
            forall|typ: Type, old: Candidate|
                registry.has(typ, old) ==> #[trigger] self.with_shared_types(
                    registry,
                    drop_ability,
                    types,
                    count,
                ).has(typ, old),
        decreases count,
    {
        if count > 0 {
            self.shared_types_keep(registry, drop_ability, types, count - 1);
            let before = self.with_shared_types(registry, drop_ability, types, count - 1);
            let type_id = types[count - 1].1;
            before.with_known_keeps(
                drop_ability,
                KeyKind::Key(TypeKey::UserDefined(Origin::TopLevelDefinition(type_id))),
                Candidate {
                    name: "drop_"@ + types[count - 1].0@,
                    id: TopLevelName {
                        top_level_item: type_id.top_level_item,
                        local_name_id: DROP_IMPL,
                    },
                },
            );
        }
    }

    /// What drops the shared type, as an implicit: the ability applied to the type.
    pub open spec fn drop_of_shared(drop_ability: TopLevelId, type_id: TopLevelName) -> Type {
        let ability = TopLevelName { top_level_item: drop_ability, local_name_id: 0 };
        Type::Application(
            Box::new(Type::UserDefined(Origin::TopLevelDefinition(ability))),
            Box::new(
                TypeList::Cons(
                    Box::new(Type::UserDefined(Origin::TopLevelDefinition(type_id))),
                    Box::new(TypeList::Nil),
                ),
            ),
        )
    }

    proof fn shared_types_have_drops(
        self,
        registry: Registry,
        drop_ability: TopLevelId,
        types: Seq<(String, TopLevelName)>,
        count: int,
        index: int,
    )
        requires
            registry.is_sorted(),
            0 <= index < count <= types.len(),
            self.is_shared_type(types[index].1.top_level_item),
        ensures
            self.with_shared_types(registry, drop_ability, types, count).has(
                Database::drop_of_shared(drop_ability, types[index].1),
                Candidate {
                    name: "drop_"@ + types[index].0@,
                    id: TopLevelName {
                        top_level_item: types[index].1.top_level_item,
                        local_name_id: DROP_IMPL,
                    },
                },
            ),
        decreases count,
    {
        self.shared_types_keep(registry, drop_ability, types, count - 1);
        let before = self.with_shared_types(registry, drop_ability, types, count - 1);
        let type_id = types[count - 1].1;
        let kind = KeyKind::Key(TypeKey::UserDefined(Origin::TopLevelDefinition(type_id)));
        let candidate = Candidate {
            name: "drop_"@ + types[count - 1].0@,
            id: TopLevelName {
                top_level_item: type_id.top_level_item,
                local_name_id: DROP_IMPL,
            },
        };
        before.with_known_keeps(drop_ability, kind, candidate);
        let typ = Database::drop_of_shared(drop_ability, types[index].1);
        assert(ability_of(typ, true) == Some(
            (
                drop_ability,
                KeyKind::Key(TypeKey::UserDefined(Origin::TopLevelDefinition(types[index].1))),
            ),
        ));
        if index < count - 1 {
            self.shared_types_have_drops(registry, drop_ability, types, count - 1, index);
        }
    }

    /// Every shared type that is visible in a file has a drop there, while values are dropped
    /// automatically: the release of the type, filed under the type for the ability that drops.
    pub proof fn law_every_shared_type_has_a_drop(self, file: u32, index: int)
        requires
            0 <= index < names_in(self.visible_types@, file).len(),
            self.is_shared_type(names_in(self.visible_types@, file)[index].1.top_level_item),
            self.drop_ability() is Some,
        ensures
            ({
                let (name, id) = names_in(self.visible_types@, file)[index];
                self.implicits_of(file).has(
                    Database::drop_of_shared(self.drop_ability().unwrap(), id),
                    Candidate {
                        name: "drop_"@ + name@,
                        id: TopLevelName {
                            top_level_item: id.top_level_item,
                            local_name_id: DROP_IMPL,
                        },
                    },
                )
            }),
    {
        let names = names_in(self.visible_definitions@, file);
        self.definitions_are_registered(names, names.len() as int);
        let registry = self.with_definitions(names, names.len() as int);
        let types = names_in(self.visible_types@, file);
        self.shared_types_have_drops(
            registry,
            self.drop_ability().unwrap(),
            types,
            types.len() as int,
            index,
        );
    }

    /// Of the definitions visible in a file, every implicit with a derivable type is registered
    /// under its type, but for the drop impls of shared types. The entries are in order.
    pub proof fn law_visible_implicits_are_registered(self, file: u32)
        ensures
            self.implicits_of(file).is_sorted(),
            forall|i: int|
                0 <= i < names_in(self.visible_definitions@, file).len() ==> self.is_registered(
                    self.implicits_of(file),
                    #[trigger] names_in(self.visible_definitions@, file)[i],
                ),
    {
        let names = names_in(self.visible_definitions@, file);
        self.definitions_are_registered(names, names.len() as int);
        let registry = self.with_definitions(names, names.len() as int);
        match self.drop_ability() {
            None => {},
            Some(drop_ability) => {
                let types = names_in(self.visible_types@, file);
                self.shared_types_keep(registry, drop_ability, types, types.len() as int);
            },
        }
    }
}

/// Every candidate of `listed` satisfies `allowed`.
spec fn all_allowed(listed: Seq<Candidate>, allowed: spec_fn(Candidate) -> bool) -> bool {
    forall|i: int| 0 <= i < listed.len() ==> allowed(#[trigger] listed[i])
}

impl Impls {
    spec fn allows(self, allowed: spec_fn(Candidate) -> bool) -> bool {
        &&& all_allowed(self.generic, allowed)
        &&& forall|i: int|
            0 <= i < self.by_key.len() ==> all_allowed((#[trigger] self.by_key[i]).1, allowed)
    }

    proof fn with_key_allows(
        self,
        key: TypeKey,
        candidate: Candidate,
        allowed: spec_fn(Candidate) -> bool,
    )
        requires
            self.allows(allowed),
            allowed(candidate),
        ensures
            self.with_key(key, candidate).allows(allowed),
    {
        let at = place(self.by_key, key);
        let after = self.with_key(key, candidate);
        place_is_within(self.by_key, key);
        assert(all_allowed(self.under(key).push(candidate), allowed));
        assert forall|i: int| 0 <= i < after.by_key.len() implies all_allowed(
            (#[trigger] after.by_key[i]).1,
            allowed,
        ) by {
            if i != at {
                if filed(self.by_key, key) is Some || i < at {
                    assert(after.by_key[i] == self.by_key[i]);
                } else {
                    assert(after.by_key[i] == self.by_key[i - 1]);
                }
            }
        }
    }

    proof fn with_allows(self, kind: KeyKind, candidate: Candidate, allowed: spec_fn(Candidate) -> bool)
        requires
            self.allows(allowed),
            allowed(candidate),
        ensures
            self.with(kind, candidate).allows(allowed),
    {
        match kind {
            KeyKind::Key(key) => self.with_key_allows(key, candidate, allowed),
            KeyKind::Function(key) => {
                self.with_key_allows(TypeKey::Function, candidate, allowed);
                self.with_key(TypeKey::Function, candidate).with_key_allows(key, candidate, allowed);
            },
            KeyKind::GenericOrUnknown => {},
        }
    }

    proof fn listed_allows(self, count: int, allowed: spec_fn(Candidate) -> bool)
        requires
            self.allows(allowed),
            0 <= count <= self.by_key.len(),
        ensures
            all_allowed(self.under_first(count), allowed),
        decreases count,
    {
        if count > 0 {
            self.listed_allows(count - 1, allowed);
            assert(all_allowed(self.by_key[count - 1].1, allowed));
        }
    }
}

impl Registry {
    spec fn allows(self, allowed: spec_fn(Candidate) -> bool) -> bool {
        &&& all_allowed(self.unknown, allowed)
        &&& forall|i: int| 0 <= i < self.known.len() ==> (#[trigger] self.known[i]).1.allows(allowed)
    }

    proof fn with_known_allows(
        self,
        ability: TopLevelId,
        kind: KeyKind,
        candidate: Candidate,
        allowed: spec_fn(Candidate) -> bool,
    )
        requires
            self.allows(allowed),
            allowed(candidate),
        ensures
            self.with_known(ability, kind, candidate).allows(allowed),
    {
        let at = place(self.known, ability);
        let after = self.with_known(ability, kind, candidate);
        place_is_within(self.known, ability);
        self.of_ability(ability).with_allows(kind, candidate, allowed);
        assert forall|i: int| 0 <= i < after.known.len() implies (
        #[trigger] after.known[i]).1.allows(allowed) by {
            if i != at {
                if filed(self.known, ability) is Some || i < at {
                    assert(after.known[i] == self.known[i]);
                } else {
                    assert(after.known[i] == self.known[i - 1]);
                }
            }
        }
    }

    proof fn of_first_allows(self, count: int, allowed: spec_fn(Candidate) -> bool)
        requires
            self.allows(allowed),
            0 <= count <= self.known.len(),
        ensures
            all_allowed(self.of_first(count), allowed),
        decreases count,
    {
        if count > 0 {
            self.of_first_allows(count - 1, allowed);
            let impls = self.known[count - 1].1;
            assert(impls.allows(allowed));
            impls.listed_allows(impls.by_key.len() as int, allowed);
            assert(all_allowed(impls.all(), allowed));
        }
    }

    proof fn listed_are_allowed(self, target: Type, allowed: spec_fn(Candidate) -> bool)
        requires
            self.allows(allowed),
        ensures
            all_allowed(self.listed_for(target), allowed),
    {
        match ability_of(target, false) {
            Some((ability, kind)) => {
                let impls = self.of_ability(ability);
                place_is_within(self.known, ability);
                assert(impls.allows(allowed));
                impls.listed_allows(impls.by_key.len() as int, allowed);
                match kind {
                    KeyKind::Key(key) => {
                        place_is_within(impls.by_key, key);
                        assert(all_allowed(impls.under(key), allowed));
                    },
                    _ => {},
                }
            },
            None => {
                self.of_first_allows(self.known.len() as int, allowed);
            },
        }
    }
}

impl Database {
    /// `candidate` is a visible definition, and one that takes part in the search of implicits.
    pub open spec fn is_visible_definition(self, file: u32, candidate: Candidate) -> bool {
        exists|i: int|
            0 <= i < names_in(self.visible_definitions@, file).len() && {
                let (name, id) = #[trigger] names_in(self.visible_definitions@, file)[i];
                &&& candidate == Candidate { name: name@, id }
                &&& match self.implicit_type(id.top_level_item) {
                    Some(typ) => self.shared_drop_target(typ) is None,
                    None => false,
                }
            }
    }

    /// `candidate` is the release of a visible shared type.
    pub open spec fn is_visible_release(self, file: u32, candidate: Candidate) -> bool {
        exists|i: int|
            0 <= i < names_in(self.visible_types@, file).len() && {
                let (name, id) = #[trigger] names_in(self.visible_types@, file)[i];
                &&& self.drop_ability() is Some
                &&& self.is_shared_type(id.top_level_item)
                &&& candidate == Candidate {
                    name: "drop_"@ + name@,
                    id: TopLevelName { top_level_item: id.top_level_item, local_name_id: DROP_IMPL },
                }
            }
    }

    proof fn definitions_allow(self, file: u32, count: int, allowed: spec_fn(Candidate) -> bool)
        requires
            0 <= count <= names_in(self.visible_definitions@, file).len(),
            forall|candidate: Candidate|
                self.is_visible_definition(file, candidate) ==> #[trigger] allowed(candidate),
        ensures
            self.with_definitions(names_in(self.visible_definitions@, file), count).allows(allowed),
        decreases count,
    {
        if count > 0 {
            self.definitions_allow(file, count - 1, allowed);
            let names = names_in(self.visible_definitions@, file);
            let before = self.with_definitions(names, count - 1);
            let candidate = Candidate { name: names[count - 1].0@, id: names[count - 1].1 };
            match self.implicit_type(candidate.id.top_level_item) {
                None => {},
                Some(typ) => match self.shared_drop_target(typ) {
                    Some(_) => {},
                    None => {
                        assert(self.is_visible_definition(file, candidate));
                        match ability_of(typ, true) {
                            Some((ability, kind)) => {
                                before.with_known_allows(ability, kind, candidate, allowed);
                            },
                            None => {},
                        }
                    },
                },
            }
        }
    }

    proof fn shared_types_allow(
        self,
        registry: Registry,
        drop_ability: TopLevelId,
        file: u32,
        count: int,
        allowed: spec_fn(Candidate) -> bool,
    )
        requires
            registry.allows(allowed),
            self.drop_ability() == Some(drop_ability),
            0 <= count <= names_in(self.visible_types@, file).len(),
            forall|candidate: Candidate|
                self.is_visible_release(file, candidate) ==> #[trigger] allowed(candidate),
        ensures
            self.with_shared_types(
                registry,
                drop_ability,
                names_in(self.visible_types@, file),
                count,
            ).allows(allowed),
        decreases count,
    {
        if count > 0 {
            self.shared_types_allow(registry, drop_ability, file, count - 1, allowed);
            let types = names_in(self.visible_types@, file);
            let before = self.with_shared_types(registry, drop_ability, types, count - 1);
            let type_id = types[count - 1].1;
            let candidate = Candidate {
                name: "drop_"@ + types[count - 1].0@,
                id: TopLevelName {
                    top_level_item: type_id.top_level_item,
                    local_name_id: DROP_IMPL,
                },
            };
            if self.is_shared_type(type_id.top_level_item) {
                assert(self.is_visible_release(file, candidate));
                before.with_known_allows(
                    drop_ability,
                    KeyKind::Key(TypeKey::UserDefined(Origin::TopLevelDefinition(type_id))),
                    candidate,
                    allowed,
                );
            }
        }
    }

    /// The implicits of a file are among the definitions visible there and the releases of the
    /// shared types visible there. No search comes upon a written drop impl of a shared type.
    pub proof fn law_candidates_are_visible(self, file: u32, target: Type, candidate: Candidate)
        requires
            self.implicits_of(file).listed_for(target).contains(candidate),
        ensures
            self.is_visible_definition(file, candidate) || self.is_visible_release(file, candidate),
    {
        let allowed = |candidate: Candidate|
            self.is_visible_definition(file, candidate) || self.is_visible_release(file, candidate);
        let names = names_in(self.visible_definitions@, file);
        self.definitions_allow(file, names.len() as int, allowed);
        let registry = self.with_definitions(names, names.len() as int);
        match self.drop_ability() {
            None => {},
            Some(drop_ability) => {
                let types = names_in(self.visible_types@, file);
                self.shared_types_allow(
                    registry,
                    drop_ability,
                    file,
                    types.len() as int,
                    allowed,
                );
            },
        }
        self.implicits_of(file).listed_are_allowed(target, allowed);
    }
}

impl KeyKind {
    /// An implicit that is filed as this is filed under `key`.
    pub open spec fn names(self, key: TypeKey) -> bool {
        match self {
            KeyKind::Key(own) => key == own,
            KeyKind::Function(own) => key == own || key == TypeKey::Function,
            KeyKind::GenericOrUnknown => false,
        }
    }
}

impl Impls {
    proof fn with_adds_only(
        self,
        kind: KeyKind,
        candidate: Candidate,
        key: TypeKey,
        other: Candidate,
    )
        requires
            in_order(self.by_key),
        ensures
            self.with(kind, candidate).under(key).contains(other) ==> self.under(key).contains(other)
                || (other == candidate && kind.names(key)),
            self.with(kind, candidate).generic.contains(other) ==> self.generic.contains(other) || (
            other == candidate && kind == KeyKind::GenericOrUnknown),
    {
        match kind {
            KeyKind::Key(own) => {
                self.filing_keeps(own, candidate, key);
            },
            KeyKind::Function(own) => {
                self.filing_keeps(TypeKey::Function, candidate, key);
                self.filing_keeps(TypeKey::Function, candidate, own);
                self.with_key(TypeKey::Function, candidate).filing_keeps(own, candidate, key);
            },
            KeyKind::GenericOrUnknown => {},
        }
    }
}

impl Registry {
    proof fn with_known_adds_only(
        self,
        own: TopLevelId,
        kind: KeyKind,
        candidate: Candidate,
        ability: TopLevelId,
        key: TypeKey,
        other: Candidate,
    )
        requires
            self.is_sorted(),
        ensures
            self.with_known(own, kind, candidate).of_ability(ability).under(key).contains(other)
                ==> self.of_ability(ability).under(key).contains(other) || (other == candidate
                && ability == own && kind.names(key)),
            self.with_known(own, kind, candidate).of_ability(ability).generic.contains(other)
                ==> self.of_ability(ability).generic.contains(other) || (other == candidate
                && ability == own && kind == KeyKind::GenericOrUnknown),
    {
        place_is_within(self.known, own);
        let impls = self.of_ability(own);
        assert(in_order(impls.by_key));
        impls.with_adds_only(kind, candidate, key, other);
        law_filing(self.known, own, impls.with(kind, candidate), ability);
    }
}

impl Database {
    proof fn definitions_are_filed_only_so(
        self,
        names: Seq<(String, TopLevelName)>,
        count: int,
        ability: TopLevelId,
        key: TypeKey,
        candidate: Candidate,
    )
        requires
            0 <= count <= names.len(),
        ensures
            ({
                let registry = self.with_definitions(names, count);
                let typ = self.implicit_type(candidate.id.top_level_item);
                let own = ability_of(typ.unwrap(), true);
                &&& registry.of_ability(ability).under(key).contains(candidate) ==> typ is Some
                    && (own matches Some((named, kind)) && named == ability && kind.names(key))
                &&& registry.of_ability(ability).generic.contains(candidate) ==> typ is Some && own
                    == Some((ability, KeyKind::GenericOrUnknown))
                &&& registry.unknown.contains(candidate) ==> typ is Some && own is None
                &&& filed(registry.shared_drops, ability) == Some(candidate) ==> typ is Some
                    && self.shared_drop_target(typ.unwrap()) is Some
            }),
        decreases count,
    {
        if count > 0 {
            self.definitions_are_filed_only_so(names, count - 1, ability, key, candidate);
            self.definitions_are_registered(names, count - 1);
            let before = self.with_definitions(names, count - 1);
            let last = Candidate { name: names[count - 1].0@, id: names[count - 1].1 };
            match self.implicit_type(last.id.top_level_item) {
                None => {},
                Some(typ) => match self.shared_drop_target(typ) {
                    Some(shared_type) => {
                        law_filing(before.shared_drops, shared_type, last, ability);
                    },
                    None => match ability_of(typ, true) {
                        Some((own, kind)) => {
                            before.with_known_adds_only(own, kind, last, ability, key, candidate);
                        },
                        None => {},
                    },
                },
            }
        }
    }

    proof fn releases_are_filed_only_so(
        self,
        registry: Registry,
        drop_ability: TopLevelId,
        types: Seq<(String, TopLevelName)>,
        count: int,
        ability: TopLevelId,
        key: TypeKey,
        candidate: Candidate,
    )
        requires
            registry.is_sorted(),
            0 <= count <= types.len(),
            !self.is_shared_type(candidate.id.top_level_item),
        ensures
            ({
                let after = self.with_shared_types(registry, drop_ability, types, count);
                &&& after.of_ability(ability).under(key).contains(candidate)
                    ==> registry.of_ability(ability).under(key).contains(candidate)
                &&& after.of_ability(ability).generic.contains(candidate) ==> registry.of_ability(
                    ability,
                ).generic.contains(candidate)
                &&& after.unknown == registry.unknown
                &&& after.shared_drops == registry.shared_drops
            }),
        decreases count,
    {
        if count > 0 {
            self.releases_are_filed_only_so(
                registry,
                drop_ability,
                types,
                count - 1,
                ability,
                key,
                candidate,
            );
            self.shared_types_keep(registry, drop_ability, types, count - 1);
            let before = self.with_shared_types(registry, drop_ability, types, count - 1);
            let type_id = types[count - 1].1;
            before.with_known_adds_only(
                drop_ability,
                KeyKind::Key(TypeKey::UserDefined(Origin::TopLevelDefinition(type_id))),
                Candidate {
                    name: "drop_"@ + types[count - 1].0@,
                    id: TopLevelName {
                        top_level_item: type_id.top_level_item,
                        local_name_id: DROP_IMPL,
                    },
                },
                ability,
                key,
                candidate,
            );
        }
    }

    /// A visible implicit stands in the lists that its type names, and in no other. An implicit of
    /// `Ability Arg` stands under the ability and the key of the argument; a function that returns
    /// such stands there and under the key of functions; one for a generic argument stands among
    /// the generic ones of its ability; and one of no known ability among those of unknown ones. It
    /// is not held aside.
    pub proof fn law_an_implicit_is_filed_by_its_type(
        self,
        file: u32,
        candidate: Candidate,
        typ: Type,
        ability: TopLevelId,
        key: TypeKey,
    )
        requires
            self.is_visible_definition(file, candidate),
            self.implicit_type(candidate.id.top_level_item) == Some(typ),
        ensures
            ({
                let registry = self.implicits_of(file);
                let own = ability_of(typ, true);
                &&& registry.of_ability(ability).under(key).contains(candidate) <==> (
                own matches Some((named, kind)) && named == ability && kind.names(key))
                &&& registry.of_ability(ability).generic.contains(candidate) <==> own == Some(
                    (ability, KeyKind::GenericOrUnknown),
                )
                &&& registry.unknown.contains(candidate) <==> own is None
                &&& filed(registry.shared_drops, ability) != Some(candidate)
            }),
    {
        let names = names_in(self.visible_definitions@, file);
        let count = names.len() as int;
        let index = choose|i: int|
            0 <= i < names.len() && {
                let (name, id) = #[trigger] names[i];
                &&& candidate == Candidate { name: name@, id }
                &&& match self.implicit_type(id.top_level_item) {
                    Some(typ) => self.shared_drop_target(typ) is None,
                    None => false,
                }
            };
        self.law_visible_implicits_are_registered(file);
        assert(self.is_registered(self.implicits_of(file), names[index]));
        self.definitions_are_registered(names, count);
        self.definitions_are_filed_only_so(names, count, ability, key, candidate);
        let registry = self.with_definitions(names, count);
        match self.drop_ability() {
            None => {},
            Some(drop_ability) => {
                let types = names_in(self.visible_types@, file);
                self.releases_are_filed_only_so(
                    registry,
                    drop_ability,
                    types,
                    types.len() as int,
                    ability,
                    key,
                    candidate,
                );
            },
        }
    }

    /// Where a file sees each definition and each type under one name, no definition is a candidate
    /// twice for a type.
    pub proof fn law_no_definition_is_a_candidate_twice(self, file: u32, target: Type)
        requires
            forall|i: int, j: int|
                0 <= i < j < names_in(self.visible_definitions@, file).len() ==> (
                #[trigger] names_in(self.visible_definitions@, file)[i]).1 != (
                #[trigger] names_in(self.visible_definitions@, file)[j]).1,
            forall|i: int, j: int|
                0 <= i < j < names_in(self.visible_types@, file).len() ==> (
                #[trigger] names_in(self.visible_types@, file)[i]).1.top_level_item != (
                #[trigger] names_in(self.visible_types@, file)[j]).1.top_level_item,
        ensures
            ids_of(self.implicits_of(file).candidates_for(target)).no_duplicates(),
    {
        let registry = self.implicits_of(file);
        let listed = registry.candidates_for(target);
        let ids = ids_of(listed);
        registry.law_no_implicit_is_a_candidate_twice(target);
        assert forall|i: int, j: int| 0 <= i < ids.len() && 0 <= j < ids.len() && i != j implies ids[i]
            != ids[j] by {
            assert(listed.contains(listed[i]) && listed.contains(listed[j]));
            self.law_candidates_are_visible(file, target, listed[i]);
            self.law_candidates_are_visible(file, target, listed[j]);
            assert(listed[i] != listed[j]);
        }
    }
}

} // verus!
