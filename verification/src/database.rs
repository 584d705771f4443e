//! What is known of the program from the passes that ran before.

use crate::collections::Table;
#[allow(unused_imports)]
use crate::collections::lookup;
use crate::ids::{NameId, TopLevelId, TopLevelName};
use crate::types::{Type, TypeList};
use vstd::prelude::*;

verus! {

#[derive(Clone, Copy, Debug, PartialEq, Eq, Structural)]
pub enum AbilityKind {
    NotAbility,
    Trait,
    Effect,
}

/// A trait or an effect.
pub struct AbilityDefinition {
    pub kind: AbilityKind,
    pub name: NameId,
    /// The operations, in the order they are declared.
    pub body: Vec<NameId>,
}

pub enum TypeDefinitionBody {
    /// The fields, in the order they are declared.
    Struct(Vec<NameId>),
    /// The variants, in the order they are declared.
    Enum(Vec<NameId>),
    Alias,
    Error,
}

pub struct TypeDefinition {
    pub name: NameId,
    pub generics: Vec<NameId>,
    /// Whether values are handles to a counted cell.
    pub shared: bool,
    pub mutable: bool,
    /// What the type was before abilities became types.
    pub kind: AbilityKind,
    pub body: TypeDefinitionBody,
}

/// What kind of item a top-level item is.
pub enum ItemKind {
    Definition {
        implicit: bool,
        /// Whether the type follows from the annotation or from the shape of the right hand side.
        type_is_derivable: bool,
        partial_type: Type,
        /// Whether the right hand side declares a symbol of the target.
        is_extern: bool,
    },
    TypeDefinition(TypeDefinition),
    AbilityDefinition(AbilityDefinition),
    Other,
}

/// What a value of a type is made of.
pub enum TypeBody {
    /// Each field with its type.
    Product(Vec<(String, Type)>),
    /// Each variant with the types of its payloads.
    Sum(Vec<(String, Vec<Type>)>),
}

/// A field of a type.
pub struct FieldType {
    pub name: String,
    pub typ: Type,
    /// The place of the field among the fields.
    pub index: u32,
}

/// What a `FieldType` says.
#[verifier::ext_equal]
pub struct FieldForm {
    pub name: Seq<char>,
    pub typ: Type,
    pub index: u32,
}

impl View for FieldType {
    type V = FieldForm;

    open spec fn view(&self) -> FieldForm {
        FieldForm { name: self.name@, typ: self.typ, index: self.index }
    }
}

/// What fields say.
pub open spec fn field_forms(fields: Seq<FieldType>) -> Seq<FieldForm> {
    fields.map_values(|field: FieldType| field@)
}

/// How many of the first `fields` stand no later than `index`.
pub open spec fn fields_up_to(fields: Seq<FieldForm>, index: u32) -> int
    decreases fields.len(),
{
    if fields.len() == 0 || index < fields[0].index {
        0
    } else {
        1 + fields_up_to(fields.drop_first(), index)
    }
}

/// `fields`, which are in order, with `field` in its place.
pub open spec fn with_field(fields: Seq<FieldForm>, field: FieldForm) -> Seq<FieldForm> {
    fields.insert(fields_up_to(fields, field.index), field)
}

/// The first `count` of `fields`, in the order of their places.
pub open spec fn in_order(fields: Seq<FieldForm>, count: int) -> Seq<FieldForm>
    decreases count,
{
    if count <= 0 {
        Seq::empty()
    } else {
        with_field(in_order(fields, count - 1), fields[count - 1])
    }
}

/// The answers to what is asked of other items.
pub struct Database {
    /// Whether values are dropped automatically.
    pub auto_drop: bool,
    pub items: Table<TopLevelId, ItemKind>,
    /// How each name is written.
    pub names: Table<TopLevelName, String>,
    /// The definitions visible in each file, each under its name.
    pub visible_definitions: Table<u32, Vec<(String, TopLevelName)>>,
    /// The types visible in each file, each under its name.
    pub visible_types: Table<u32, Vec<(String, TopLevelName)>>,
    /// The types each file exports, each under its name.
    pub exported_types: Table<u32, Vec<(String, TopLevelName)>>,
    /// The definitions each file exports, each under its name.
    pub exported_definitions: Table<u32, Vec<(String, TopLevelName)>>,
    /// The body of each type at given arguments.
    pub type_bodies: Table<(TopLevelId, TypeList), TypeBody>,
    /// The fields of each product type.
    pub field_types: Table<Type, Vec<FieldType>>,
}

impl Database {
    /// A program without items.
    pub fn new(auto_drop: bool) -> (database: Database)
        ensures
            database.auto_drop == auto_drop,
            database.items@.len() == 0,
            database.names@.len() == 0,
            database.visible_definitions@.len() == 0,
            database.visible_types@.len() == 0,
            database.exported_types@.len() == 0,
            database.exported_definitions@.len() == 0,
            database.type_bodies@.len() == 0,
            database.field_types@.len() == 0,
    {
        Database {
            auto_drop,
            items: Table::new(),
            names: Table::new(),
            visible_definitions: Table::new(),
            visible_types: Table::new(),
            exported_types: Table::new(),
            exported_definitions: Table::new(),
            type_bodies: Table::new(),
            field_types: Table::new(),
        }
    }
}

/// The names a table has for `file`.
pub open spec fn names_in(
    table: Seq<(u32, Vec<(String, TopLevelName)>)>,
    file: u32,
) -> Seq<(String, TopLevelName)> {
    match lookup(table, file) {
        Some(names) => names@,
        None => Seq::empty(),
    }
}

/// What the first of `names` that reads `name` stands for.
pub open spec fn named(names: Seq<(String, TopLevelName)>, name: Seq<char>) -> Option<TopLevelName>
    decreases names.len(),
{
    if names.len() == 0 {
        None
    } else if names[0].0@ == name {
        Some(names[0].1)
    } else {
        named(names.drop_first(), name)
    }
}

pub fn find_named(names: &Vec<(String, TopLevelName)>, name: &str) -> (found: Option<TopLevelName>)
    ensures
        found == named(names@, name@),
{
    let wanted: String = name.to_owned();
    let mut i: usize = 0;
    assert(names@.skip(0) == names@);
    while i < names.len()
        invariant
            i <= names.len(),
            wanted@ == name@,
            named(names@, name@) == named(names@.skip(i as int), name@),
        decreases names.len() - i,
    {
        if names[i].0 == wanted {
            return Some(names[i].1);
        }
        assert(names@.skip(i as int).drop_first() == names@.skip(i + 1));
        i += 1;
    }
    None
}

impl Database {
    /// The type definition behind `item`, if it is one.
    pub open spec fn type_definition(self, item: TopLevelId) -> Option<TypeDefinition> {
        match lookup(self.items@, item) {
            Some(ItemKind::TypeDefinition(definition)) => Some(definition),
            _ => None,
        }
    }

    pub fn get_type_definition(&self, item: TopLevelId) -> (definition: Option<&TypeDefinition>)
        ensures
            match definition {
                Some(definition) => self.type_definition(item) == Some(*definition),
                None => self.type_definition(item) is None,
            },
    {
        match self.items.get(&item) {
            Some(ItemKind::TypeDefinition(definition)) => Some(definition),
            _ => None,
        }
    }

    /// Whether `item` defines a shared type.
    pub open spec fn is_shared_type(self, item: TopLevelId) -> bool {
        match self.type_definition(item) {
            Some(definition) => definition.shared,
            None => false,
        }
    }

    pub fn defines_shared_type(&self, item: TopLevelId) -> (shared: bool)
        ensures
            shared == self.is_shared_type(item),
    {
        match self.get_type_definition(item) {
            Some(definition) => definition.shared,
            None => false,
        }
    }

    /// Whether `item` is a trait, an effect, or neither.
    pub open spec fn ability_kind_of(self, item: TopLevelId) -> AbilityKind {
        match lookup(self.items@, item) {
            Some(ItemKind::AbilityDefinition(definition)) => definition.kind,
            _ => AbilityKind::NotAbility,
        }
    }

    pub fn ability_kind(&self, item: TopLevelId) -> (kind: AbilityKind)
        ensures
            kind == self.ability_kind_of(item),
    {
        match self.items.get(&item) {
            Some(ItemKind::AbilityDefinition(definition)) => definition.kind,
            _ => AbilityKind::NotAbility,
        }
    }

    /// What `file` exports as the type `name`.
    pub open spec fn exported_type(self, file: u32, name: Seq<char>) -> Option<TopLevelName> {
        named(names_in(self.exported_types@, file), name)
    }

    pub fn find_exported_type(&self, file: u32, name: &str) -> (found: Option<TopLevelName>)
        ensures
            found == self.exported_type(file, name@),
    {
        match self.exported_types.get(&file) {
            Some(names) => find_named(names, name),
            None => None,
        }
    }

    /// What `file` exports as the definition `name`.
    pub open spec fn exported_definition(self, file: u32, name: Seq<char>) -> Option<TopLevelName> {
        named(names_in(self.exported_definitions@, file), name)
    }

    pub fn find_exported_definition(&self, file: u32, name: &str) -> (found: Option<TopLevelName>)
        ensures
            found == self.exported_definition(file, name@),
    {
        match self.exported_definitions.get(&file) {
            Some(names) => find_named(names, name),
            None => None,
        }
    }
}

/// No field stands before one of a lower place.
pub open spec fn is_in_order(fields: Seq<FieldForm>) -> bool {
    forall|i: int, j: int| 0 <= i < j < fields.len() ==> fields[i].index <= fields[j].index
}

proof fn fields_up_to_splits(fields: Seq<FieldForm>, index: u32)
    requires
        is_in_order(fields),
    ensures
        0 <= fields_up_to(fields, index) <= fields.len(),
        forall|i: int|
            0 <= i < fields_up_to(fields, index) ==> (#[trigger] fields[i]).index <= index,
        forall|i: int|
            fields_up_to(fields, index) <= i < fields.len() ==> index < (#[trigger] fields[i]).index,
    decreases fields.len(),
{
    if fields.len() > 0 && fields[0].index <= index {
        let rest = fields.drop_first();
        assert forall|i: int, j: int| 0 <= i < j < rest.len() implies rest[i].index
            <= rest[j].index by {
            assert(rest[i] == fields[i + 1]);
            assert(rest[j] == fields[j + 1]);
        }
        fields_up_to_splits(rest, index);
        assert forall|i: int| 0 <= i < fields_up_to(fields, index) implies (
        #[trigger] fields[i]).index <= index by {
            if i > 0 {
                assert(rest[i - 1] == fields[i]);
            }
        }
        assert forall|i: int| fields_up_to(fields, index) <= i < fields.len() implies index < (
        #[trigger] fields[i]).index by {
            assert(rest[i - 1] == fields[i]);
        }
    } else if fields.len() > 0 {
        assert forall|i: int| 0 <= i < fields.len() implies index < (
        #[trigger] fields[i]).index by {
            assert(fields[0].index <= fields[i].index);
        }
    }
}

/// Putting fields in order keeps each of them as often as it was there, and puts none before one
/// of a lower place.
pub proof fn law_fields_in_order(fields: Seq<FieldForm>, count: int)
    requires
        0 <= count <= fields.len(),
    ensures
        is_in_order(in_order(fields, count)),
        in_order(fields, count).to_multiset() == fields.take(count).to_multiset(),
    decreases count,
{
    broadcast use vstd::seq_lib::group_to_multiset_ensures;

    if count > 0 {
        law_fields_in_order(fields, count - 1);
        let before = in_order(fields, count - 1);
        let field = fields[count - 1];
        fields_up_to_splits(before, field.index);
        let at = fields_up_to(before, field.index);
        let after = before.insert(at, field);
        assert forall|i: int, j: int| 0 <= i < j < after.len() implies after[i].index
            <= after[j].index by {
            let a = if i < at {
                before[i]
            } else if i == at {
                field
            } else {
                before[i - 1]
            };
            let b = if j < at {
                before[j]
            } else if j == at {
                field
            } else {
                before[j - 1]
            };
            assert(after[i] == a && after[j] == b);
        }
        assert(fields.take(count) =~= fields.take(count - 1).push(field));
        assert(after.to_multiset() == before.to_multiset().insert(field));
    } else {
        assert(fields.take(count) =~= in_order(fields, count));
    }
}

fn place_field(fields: &mut Vec<FieldType>, field: FieldType)
    requires
        is_in_order(field_forms(old(fields)@)),
    ensures
        field_forms(final(fields)@) == with_field(field_forms(old(fields)@), field@),
        is_in_order(field_forms(final(fields)@)),
{
    let ghost before = field_forms(fields@);
    let mut at: usize = 0;
    while at < fields.len() && fields[at].index <= field.index
        invariant
            at <= fields.len(),
            before == field_forms(fields@),
            forall|i: int| 0 <= i < at ==> (#[trigger] before[i]).index <= field.index,
        decreases fields.len() - at,
    {
        assert(before[at as int].index == fields@[at as int].index);
        at += 1;
    }
    proof {
        fields_up_to_splits(before, field.index);
        let count = fields_up_to(before, field.index);
        if at < count {
            assert(before[at as int].index == fields@[at as int].index);
        }
        if count < at {
            assert(before[count].index <= field.index);
        }
    }
    let ghost added = field@;
    fields.insert(at, field);
    assert(field_forms(fields@) =~= before.insert(at as int, added));
    proof {
        placed_in_order(before, added);
    }
}

proof fn placed_in_order(before: Seq<FieldForm>, field: FieldForm)
    requires
        is_in_order(before),
    ensures
        is_in_order(with_field(before, field)),
{
    fields_up_to_splits(before, field.index);
}

impl Database {
    /// The fields of a product type, in the order of their places.
    pub open spec fn fields_of(self, typ: Type) -> Seq<FieldForm> {
        match lookup(self.field_types@, typ) {
            Some(fields) => in_order(field_forms(fields@), fields@.len() as int),
            None => Seq::empty(),
        }
    }

    /// The fields of a product type, in the order of their places.
    pub fn get_field_types(&self, typ: &Type) -> (fields: Vec<FieldType>)
        ensures
            field_forms(fields@) == self.fields_of(*typ),
    {
        let mut ordered: Vec<FieldType> = Vec::new();
        assert(field_forms(ordered@) =~= Seq::<FieldForm>::empty());
        match self.field_types.get(typ) {
            Some(fields) => {
                let mut i: usize = 0;
                while i < fields.len()
                    invariant
                        i <= fields.len(),
                        is_in_order(field_forms(ordered@)),
                        field_forms(ordered@) == in_order(field_forms(fields@), i as int),
                    decreases fields.len() - i,
                {
                    let field = FieldType {
                        name: fields[i].name.clone(),
                        typ: fields[i].typ.clone(),
                        index: fields[i].index,
                    };
                    assert(field@ == field_forms(fields@)[i as int]);
                    place_field(&mut ordered, field);
                    i += 1;
                }
            },
            None => {},
        }
        ordered
    }
}

} // verus!
