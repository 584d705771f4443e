//! How items are lowered.

use crate::collections::{map_keys, map_remove, Table};
use crate::cst::Definition as CstDefinition;
use crate::database::{AbilityKind, TypeDefinition, TypeDefinitionBody};
use crate::ids::{
    NameId, Origin, TopLevelId, TopLevelName, ENTRY_BLOCK, NESTING_LIMIT, RELEASE_FUNCTION,
};
use crate::mir::builder::counted::release_function_mir_type;
#[allow(unused_imports)]
use crate::mir::builder::counted::release_signature;
#[allow(unused_imports)]
use crate::mir::builder::expressions::recursion;
use crate::mir::builder::ids::SharedIds;
#[allow(unused_imports)]
use crate::mir::builder::ids::IdState;
use crate::mir::builder::state::{Answers, Builder, TCType};
#[allow(unused_imports)]
use crate::mir::builder::state::Lowering;
use crate::mir::builder::variables::{ignore_forall, list_entry_parameters};
#[allow(unused_imports)]
use crate::mir::builder::variables::{entry_parameters, unquantified};
use crate::mir::{
    FunctionType, Instruction, IntConstant, Mir, PrimitiveType, TerminatorInstruction, Type, Value,
};
#[allow(unused_imports)]
use crate::mir::{Operation, Program, Terminator};
use crate::types::{Generic, IntegerKind, TypeList};
use rustc_hash::{FxHashMap, FxHashSet};
use vstd::prelude::*;

verus! {

/// What an item is.
pub enum Item {
    Definition(CstDefinition),
    TypeDefinition(TypeDefinition),
    /// A trait or an effect, which is a type by the time it is lowered.
    Ability,
    /// An impl of a trait, which is a definition by the time it is lowered.
    Impl,
    /// What runs while the program is compiled.
    Comptime,
}

/// The item held what no item holds once it was checked.
#[derive(Clone, Copy, Debug, PartialEq, Eq, Structural)]
pub struct Malformed;

/// How many variants can be told apart by a tag.
pub const TAG_LIMIT: usize = 256;

pub open spec fn named_generics(names: Seq<NameId>) -> Seq<Generic> {
    names.map_values(|name: NameId| Generic::Named(Origin::Local(name)))
}

pub open spec fn generic_types(names: Seq<NameId>) -> Seq<TCType> {
    names.map_values(|name: NameId| TCType::Generic(Generic::Named(Origin::Local(name))))
}

/// A type at its own generics.
pub open spec fn own_type(name: TopLevelName, generics: Seq<NameId>) -> TCType {
    let typ = TCType::UserDefined(Origin::TopLevelDefinition(name));
    if generics.len() == 0 {
        typ
    } else {
        TCType::Application(Box::new(typ), Box::new(TypeList::of(generic_types(generics))))
    }
}

/// What a constructor of the given type takes.
pub open spec fn taken(typ: TCType) -> Seq<TCType> {
    match unquantified(typ) {
        TCType::Function(function) => function.parameters.types(),
        _ => Seq::empty(),
    }
}

/// What a constructor of the given type gives.
pub open spec fn given(typ: TCType) -> TCType {
    match unquantified(typ) {
        TCType::Function(function) => function.return_type,
        other => other,
    }
}

/// What a layout returns, or the layout itself if it is no function's.
pub open spec fn returned_or_self(layout: Type) -> Type {
    match layout.returned() {
        Some(returned) => returned,
        None => layout,
    }
}

/// The parameters of the function a method of an ability is called by: what the method takes, then
/// the capability it is taken from, then the evidence.
pub open spec fn method_parameters(own: Seq<Type>, struct_type: Type) -> Seq<Type> {
    if own.len() == 0 {
        seq![struct_type, Type::tuple(Seq::empty())]
    } else {
        own.drop_last().push(struct_type).push(own.last())
    }
}

impl Lowering {
    /// Nothing is lowered yet.
    pub open spec fn nothing(answers: Answers, top_level_id: TopLevelId, ids: IdState) -> Lowering {
        Lowering {
            answers,
            top_level_id,
            generics: Seq::empty(),
            function: None,
            block: ENTRY_BLOCK,
            globals: Seq::empty(),
            locals: Map::empty(),
            mutable_locals: Set::empty(),
            loop_targets: Seq::empty(),
            finished: Map::empty(),
            ids,
            external: Map::empty(),
            op_indices: Map::empty(),
            effects: Seq::empty(),
            handles: Seq::empty(),
            bundle: None,
            failed: false,
        }
    }

    /// The name of the item with the given number.
    pub open spec fn own_name(self, name: NameId) -> TopLevelName {
        TopLevelName { top_level_item: self.top_level_id, local_name_id: name }
    }

    /// What a constructor gives before it is put behind a handle.
    #[verifier::opaque]
    pub open spec fn constructor_payload(self, fields: Seq<Type>, tag: Option<u8>, payload: Type) -> (
        Value,
        Lowering,
    ) {
        let made = self.with_plain_parameters(fields, fields.len() as int);
        let made = if fields.len() == 0 {
            made
        } else {
            made.with_parameter(Type::tuple(Seq::empty()))
        };
        let (value, made) = made.pushed(
            Operation::MakeTuple(entry_parameters(fields.len() as int)),
            Type::tuple(fields),
        );
        match tag {
            Some(tag) => match payload.tagged_union() {
                Some((union, _)) => {
                    let (cast, made) = made.pushed(Operation::Transmute(value), union);
                    made.pushed(
                        Operation::MakeTuple(seq![Value::Integer(IntConstant::U8(tag)), cast]),
                        payload,
                    )
                },
                None => (Value::Error, made.fails()),
            },
            None => (value, made),
        }
    }

    /// The body of a constructor. One that takes nothing is a global.
    #[verifier::opaque]
    pub open spec fn constructor_body(
        self,
        fields: Seq<Type>,
        tag: Option<u8>,
        payload: Type,
        shared: bool,
    ) -> Lowering {
        let (value, made) = self.constructor_payload(fields, tag, payload);
        let (value, made) = if shared {
            made.pushed(Operation::AllocShared(value), Type::pointer())
        } else {
            (value, made)
        };
        made.terminated(
            if fields.len() == 0 {
                Terminator::Result(value)
            } else {
                Terminator::Return(value)
            },
        )
    }

    /// The layout of what a constructor builds.
    pub open spec fn payload_layout(self, typ: TCType, shared: bool) -> Option<Type> {
        if shared {
            self.shared_layout(given(typ))
        } else {
            Some(returned_or_self(self.layout(typ)))
        }
    }

    /// This state with a constructor defined.
    #[verifier::opaque]
    pub open spec fn constructor_defined(self, name: NameId, tag: Option<u8>, shared: bool) -> Lowering {
        let typ = self.generalized(name);
        let scoped = self.with_generics_of(typ);
        let fields = scoped.layouts_of(taken(typ));
        match scoped.payload_layout(typ, shared) {
            Some(payload) => {
                let (id, made) = scoped.definition_started(
                    self.answers.context@.name(name),
                    Some(name),
                    scoped.generic_count(),
                    scoped.layout(typ),
                ).constructor_body(fields, tag, payload, shared).definition_finished(scoped);
                made.with_id(self.own_name(name), id)
            },
            None => scoped.fails(),
        }
    }

    /// This state with the constructors of the first `count` variants defined.
    #[verifier::opaque]
    pub open spec fn variants_defined(self, variants: Seq<NameId>, shared: bool, count: int) -> Lowering
        decreases count,
    {
        if count <= 0 {
            self
        } else {
            self.variants_defined(variants, shared, count - 1).constructor_defined(
                variants[count - 1],
                Some((count - 1) as u8),
                shared,
            )
        }
    }

    /// This state without locals.
    pub open spec fn without_locals(self) -> Lowering {
        Lowering { locals: Map::empty(), mutable_locals: Set::empty(), ..self }
    }

    /// This state with the locals of `outer`.
    pub open spec fn with_locals_of(self, outer: Lowering) -> Lowering {
        Lowering { locals: outer.locals, mutable_locals: outer.mutable_locals, ..self }
    }

    /// A release that ends with the cell it is called on: the cell is freed once its count reached
    /// zero and what it holds was released.
    #[verifier::opaque]
    pub open spec fn release_once(self, handle: Value, typ: TCType, args: Seq<TCType>) -> Lowering {
        let (zero, made) = self.pushed(Operation::RcDecrement(handle), Type::boolean());
        let (glue, made) = made.with_block(Seq::empty());
        let (rest, made) = made.with_block(Seq::empty());
        let made = made.terminated(
            Terminator::If { cond: zero, then: glue, else_: rest, end: rest },
        ).switched_to(glue).cell_released(handle, typ, args, None);
        made.pushed(Operation::FreeShared(handle), Type::unit()).1.terminated(
            Terminator::Jmp(rest, None),
        ).switched_to(rest).terminated(Terminator::Return(Value::Unit))
    }

    /// A release that goes on with the last handle of its own type the cell held, so that a chain
    /// of any length is released in one frame.
    #[verifier::opaque]
    pub open spec fn release_chain(self, handle: Value, typ: TCType, args: Seq<TCType>) -> Lowering {
        let (null, made) = self.pushed(
            Operation::Transmute(Value::Integer(IntConstant::Usz(0))),
            Type::pointer(),
        );
        let (next_slot, made) = made.pushed(Operation::StackAlloc(null), Type::pointer());
        let (cur_slot, made) = made.pushed(Operation::StackAlloc(handle), Type::pointer());
        let (header, made) = made.with_block(Seq::empty());
        let (glue, made) = made.with_block(Seq::empty());
        let (advance, made) = made.with_block(Seq::empty());
        let (exit, made) = made.with_block(Seq::empty());
        let made = made.terminated(Terminator::Jmp(header, None)).switched_to(header);
        let (cur, made) = made.pushed(Operation::Deref(cur_slot), Type::pointer());
        let (zero, made) = made.pushed(Operation::RcDecrement(cur), Type::boolean());
        let made = made.terminated(
            Terminator::If { cond: zero, then: glue, else_: exit, end: exit },
        ).switched_to(glue);
        let made = made.pushed(
            Operation::Store { pointer: next_slot, value: null },
            Type::unit(),
        ).1.cell_released(cur, typ, args, Some(next_slot));
        let made = made.pushed(Operation::FreeShared(cur), Type::unit()).1;
        made.chain_advanced(next_slot, cur_slot, header, advance, exit)
    }

    /// The end of a release that goes on: it stops where there is no further handle.
    #[verifier::opaque]
    pub open spec fn chain_advanced(
        self,
        next_slot: Value,
        cur_slot: Value,
        header: u32,
        advance: u32,
        exit: u32,
    ) -> Lowering {
        let number = Type::Primitive(PrimitiveType::Int(IntegerKind::Usz));
        let (next, made) = self.pushed(Operation::Deref(next_slot), Type::pointer());
        let (next_int, made) = made.pushed(Operation::Transmute(next), number);
        let (is_null, made) = made.pushed(
            Operation::EqInt(next_int, Value::Integer(IntConstant::Usz(0))),
            Type::boolean(),
        );
        let made = made.terminated(
            Terminator::If { cond: is_null, then: exit, else_: advance, end: exit },
        ).switched_to(advance);
        made.pushed(Operation::Store { pointer: cur_slot, value: next }, Type::unit()).1.terminated(
            Terminator::Jmp(header, None),
        ).switched_to(exit).terminated(Terminator::Return(Value::Unit))
    }

    /// The body of a release function.
    #[verifier::opaque]
    pub open spec fn release_body(self, typ: TCType, args: Seq<TCType>, is_chain: bool) -> Lowering {
        let handle = Value::Parameter(self.block, 0);
        let made = self.with_parameter(Type::pointer());
        if is_chain {
            made.release_chain(handle, typ, args)
        } else {
            made.release_once(handle, typ, args)
        }
    }

    /// This state with the release function of a shared type defined.
    #[verifier::opaque]
    pub open spec fn release_defined(self, name: NameId, generics: Seq<NameId>) -> Lowering {
        let scoped = Lowering { generics: named_generics(generics), ..self };
        let args = generic_types(generics);
        let (id, made) = scoped.without_locals().definition_started(
            "release_"@ + self.answers.context@.name(name),
            Some(RELEASE_FUNCTION),
            scoped.generic_count(),
            release_signature(),
        ).release_body(
            own_type(self.own_name(name), generics),
            args,
            scoped.has_self_field(args),
        ).definition_finished(scoped);
        made.with_locals_of(self).with_id(self.own_name(RELEASE_FUNCTION), id)
    }

    /// The body of the function a method of an ability is called by.
    #[verifier::opaque]
    pub open spec fn method_body(self, index: u32, method: FunctionType, parameters: Seq<Type>) -> Lowering {
        let typ = Type::Function(Box::new(method));
        let count = parameters.len() as int;
        let made = self.with_plain_parameters(parameters, count);
        let (extracted, made) = made.pushed(
            Operation::IndexTuple {
                tuple: Value::Parameter(ENTRY_BLOCK, (count - 2) as u32),
                index,
            },
            typ,
        );
        let arguments = entry_parameters(count - 2).push(
            Value::Parameter(ENTRY_BLOCK, (count - 1) as u32),
        );
        let (result, made) = made.pushed(
            if typ.is_closure() {
                Operation::CallClosure { closure: extracted, arguments }
            } else {
                Operation::Call { function: extracted, arguments }
            },
            method.return_type,
        );
        made.terminated(Terminator::Return(result))
    }

    /// This state with the function defined that a method of an ability is called by.
    #[verifier::opaque]
    pub open spec fn method_defined(
        self,
        name: NameId,
        index: u32,
        method: FunctionType,
        struct_type: Type,
    ) -> Lowering {
        let parameters = method_parameters(method.parameters.items(), struct_type);
        let (id, made) = self.definition_started(
            self.answers.context@.name(name),
            Some(name),
            self.generic_count(),
            Type::function(parameters, Type::no_env(), method.return_type),
        ).method_body(index, method, parameters).definition_finished(self);
        made.with_id(self.own_name(name), id)
    }

    /// This state with a function for each of the first `count` methods of an ability.
    #[verifier::opaque]
    pub open spec fn methods_defined(
        self,
        names: Seq<NameId>,
        fields: Seq<Type>,
        struct_type: Type,
        count: int,
    ) -> Lowering
        decreases count,
    {
        if count <= 0 {
            self
        } else {
            let made = self.methods_defined(names, fields, struct_type, count - 1);
            if count - 1 < fields.len() {
                match fields[count - 1] {
                    Type::Function(method) => made.method_defined(
                        names[count - 1],
                        (count - 1) as u32,
                        *method,
                        struct_type,
                    ),
                    _ => made,
                }
            } else {
                made
            }
        }
    }

    /// This state with a function for each method of an ability.
    #[verifier::opaque]
    pub open spec fn ability_defined(self, name: NameId, fields: Seq<NameId>) -> Lowering {
        let typ = self.generalized(name);
        let scoped = self.with_generics_of(typ);
        let layout = scoped.layout(typ);
        let parameters = match layout {
            Type::Function(function) => function.parameters.items(),
            _ => Seq::empty(),
        };
        scoped.methods_defined(fields, parameters, returned_or_self(layout), fields.len() as int)
    }

    /// This state with the constructors of a type defined. A type with one variant has no tag.
    #[verifier::opaque]
    pub open spec fn constructors_defined(
        self,
        name: NameId,
        body: TypeDefinitionBody,
        shared: bool,
    ) -> Lowering {
        match body {
            TypeDefinitionBody::Struct(_) => self.constructor_defined(name, None, shared),
            TypeDefinitionBody::Enum(variants) => if variants@.len() == 1 {
                self.constructor_defined(variants@[0], None, shared)
            } else if variants@.len() > TAG_LIMIT {
                self.fails()
            } else {
                self.variants_defined(variants@, shared, variants@.len() as int)
            },
            _ => self,
        }
    }

    /// This state with all that a type needs defined: its constructors, the release function of a
    /// shared type, and the methods of a trait. The operations of an effect need nothing.
    #[verifier::opaque]
    pub open spec fn type_defined(self, definition: TypeDefinition) -> Lowering {
        if definition.kind == AbilityKind::Effect || definition.body is Alias
            || definition.body is Error {
            self
        } else {
            let made = self.constructors_defined(
                definition.name,
                definition.body,
                definition.shared,
            );
            let made = if definition.shared {
                made.release_defined(definition.name, definition.generics@)
            } else {
                made
            };
            match definition.body {
                TypeDefinitionBody::Struct(fields) => if definition.kind == AbilityKind::Trait {
                    made.ability_defined(definition.name, fields@)
                } else {
                    made
                },
                _ => made,
            }
        }
    }

    /// The lowered item. What the item defines itself is not defined elsewhere.
    pub open spec fn program(self) -> Program {
        Program {
            definitions: self.finished,
            externals: self.external.remove_keys(self.finished.dom()),
            preserved_op_indices: self.op_indices,
        }
    }

    /// The state once an item is lowered.
    pub open spec fn item_lowered(self, item: Item) -> Lowering {
        match item {
            Item::Definition(definition) => self.definition_lowered(
                recursion(NESTING_LIMIT as nat),
                definition,
                true,
            ).1,
            Item::TypeDefinition(definition) => self.type_defined(definition),
            Item::Ability | Item::Impl => self.fails(),
            Item::Comptime => self,
        }
    }
}

fn list_named_generics(names: &Vec<NameId>) -> (generics: Vec<Generic>)
    ensures
        generics@ == named_generics(names@),
{
    let mut generics: Vec<Generic> = Vec::new();
    let mut i: usize = 0;
    while i < names.len()
        invariant
            i <= names.len(),
            generics@ == named_generics(names@.take(i as int)),
        decreases names.len() - i,
    {
        generics.push(Generic::Named(Origin::Local(names[i])));
        assert(generics@ =~= named_generics(names@.take(i + 1)));
        i += 1;
    }
    assert(names@.take(i as int) =~= names@);
    generics
}

fn list_generic_types(names: &Vec<NameId>) -> (types: Vec<TCType>)
    ensures
        types@ == generic_types(names@),
{
    let mut types: Vec<TCType> = Vec::new();
    let mut i: usize = 0;
    while i < names.len()
        invariant
            i <= names.len(),
            types@ == generic_types(names@.take(i as int)),
        decreases names.len() - i,
    {
        types.push(TCType::Generic(Generic::Named(Origin::Local(names[i]))));
        assert(types@ =~= generic_types(names@.take(i + 1)));
        i += 1;
    }
    assert(names@.take(i as int) =~= names@);
    types
}

fn make_own_type(name: TopLevelName, generics: &Vec<NameId>) -> (typ: TCType)
    ensures
        typ == own_type(name, generics@),
{
    let typ = TCType::UserDefined(Origin::TopLevelDefinition(name));
    if generics.len() == 0 {
        typ
    } else {
        let types = list_generic_types(generics);
        TCType::Application(Box::new(typ), Box::new(TypeList::from_vec(&types)))
    }
}

fn list_taken(typ: &TCType) -> (types: Vec<TCType>)
    ensures
        types@ == taken(*typ),
{
    match ignore_forall(typ) {
        TCType::Function(function) => function.parameters.list_types(),
        _ => Vec::new(),
    }
}

fn find_given(typ: &TCType) -> (returned: &TCType)
    ensures
        *returned == given(*typ),
{
    match ignore_forall(typ) {
        TCType::Function(function) => &function.return_type,
        other => other,
    }
}

fn find_returned(layout: &Type) -> (returned: Type)
    ensures
        returned == returned_or_self(*layout),
{
    match layout.function_return_type() {
        Some(returned) => returned,
        None => layout.clone(),
    }
}

fn list_method_parameters(own: &Vec<Type>, struct_type: &Type) -> (parameters: Vec<Type>)
    ensures
        parameters@ == method_parameters(own@, *struct_type),
        parameters@.len() >= 2,
{
    let mut parameters = crate::mir::layouts::copy_types(own);
    if parameters.len() == 0 {
        parameters.push(struct_type.clone());
        let empty: Vec<Type> = Vec::new();
        parameters.push(Type::tuple_of(&empty));
        assert(parameters@ =~= method_parameters(own@, *struct_type));
        return parameters;
    }
    match parameters.pop() {
        Some(evidence) => {
            parameters.push(struct_type.clone());
            parameters.push(evidence);
        },
        None => {},
    }
    assert(parameters@ =~= method_parameters(own@, *struct_type));
    parameters
}

impl<'a> Builder<'a> {
    /// A builder that has lowered nothing yet.
    pub fn new(answers: &'a Answers, top_level_id: TopLevelId, ids: SharedIds) -> (builder: Self)
        ensures
            builder@ == Lowering::nothing(*answers, top_level_id, ids@),
    {
        let builder = Builder {
            answers,
            top_level_id,
            generics: Vec::new(),
            current_function: None,
            current_block: ENTRY_BLOCK,
            global_variables: Table::new(),
            local_variables: FxHashMap::default(),
            mutable_locals: FxHashSet::default(),
            loop_targets: Vec::new(),
            finished_functions: FxHashMap::default(),
            ids,
            external: FxHashMap::default(),
            effect_op_indices: FxHashMap::default(),
            effects: Vec::new(),
            handle_capabilities: Table::new(),
            capability_bundle: None,
            failed: false,
        };
        assert(builder@ =~= Lowering::nothing(*answers, top_level_id, ids@));
        builder
    }

    fn own_name(&self, name: NameId) -> (result: TopLevelName)
        ensures
            result == self@.own_name(name),
    {
        TopLevelName::new(self.top_level_id, name)
    }

    fn build_constructor_payload(&mut self, fields: &Vec<Type>, tag: Option<u8>, payload: &Type) -> (value:
        Value)
        ensures
            (value, final(self)@) == old(self)@.constructor_payload(fields@, tag, *payload),
    {
        proof {
            reveal(Lowering::constructor_payload);
        }
        self.push_parameters(fields);
        if fields.len() > 0 {
            let empty: Vec<Type> = Vec::new();
            self.push_parameter(Type::tuple_of(&empty));
        }
        let values = list_entry_parameters(fields.len());
        let value = self.push_instruction(
            Instruction::MakeTuple(values),
            Type::tuple_of(fields),
        );
        match tag {
            Some(tag) => match payload.split_tagged_union() {
                Some((union, _)) => {
                    let cast = self.push_instruction(Instruction::Transmute(value), union);
                    let mut pair: Vec<Value> = Vec::new();
                    pair.push(Value::Integer(IntConstant::U8(tag)));
                    pair.push(cast);
                    assert(pair@ =~= seq![Value::Integer(IntConstant::U8(tag)), cast]);
                    self.push_instruction(Instruction::MakeTuple(pair), payload.clone())
                },
                None => {
                    self.fail();
                    Value::Error
                },
            },
            None => value,
        }
    }

    fn build_constructor_body(
        &mut self,
        fields: &Vec<Type>,
        tag: Option<u8>,
        payload: &Type,
        shared: bool,
    )
        ensures
            final(self)@ == old(self)@.constructor_body(fields@, tag, *payload, shared),
    {
        proof {
            reveal(Lowering::constructor_body);
        }
        let value = self.build_constructor_payload(fields, tag, payload);
        let value = if shared {
            self.push_instruction(
                Instruction::AllocShared(value),
                Type::Primitive(PrimitiveType::Pointer),
            )
        } else {
            value
        };
        if fields.len() == 0 {
            self.terminate_block(TerminatorInstruction::Result(value));
        } else {
            self.terminate_block(TerminatorInstruction::Return(value));
        }
    }

    fn find_payload_layout(&self, typ: &TCType, shared: bool) -> (layout: Option<Type>)
        ensures
            layout == self@.payload_layout(*typ, shared),
    {
        if shared {
            self.shared_inner_layout_of(find_given(typ))
        } else {
            Some(find_returned(&self.convert_type(typ)))
        }
    }

    fn define_type_constructor(&mut self, name: NameId, tag: Option<u8>, shared: bool)
        ensures
            final(self)@ == old(self)@.constructor_defined(name, tag, shared),
    {
        proof {
            reveal(Lowering::constructor_defined);
        }
        let typ = self.get_generalized(name);
        let text = self.answers.context.name(name);
        let own_name = self.own_name(name);
        self.set_generics_in_scope(&typ);
        let ghost scoped = self@;
        let types = list_taken(&typ);
        let fields = self.convert_types(&types);
        match self.find_payload_layout(&typ, shared) {
            Some(payload) => {
                let count = self.generic_count();
                let layout = self.convert_type(&typ);
                let outer = self.start_global(text, Some(name), count, layout);
                self.build_constructor_body(&fields, tag, &payload, shared);
                let id = self.end_global(outer, Ghost(scoped));
                self.set_definition_id(&own_name, id);
            },
            None => {
                self.fail();
            },
        }
    }

    fn define_variants(&mut self, variants: &Vec<NameId>, shared: bool)
        requires
            variants@.len() <= TAG_LIMIT,
        ensures
            final(self)@ == old(self)@.variants_defined(variants@, shared, variants@.len() as int),
    {
        let mut i: usize = 0;
        proof {
            reveal(Lowering::variants_defined);
        }
        while i < variants.len()
            invariant
                i <= variants.len(),
                variants@.len() <= TAG_LIMIT,
                self@ == old(self)@.variants_defined(variants@, shared, i as int),
            decreases variants.len() - i,
        {
            proof {
                reveal(Lowering::variants_defined);
            }
            self.define_type_constructor(variants[i], Some(i as u8), shared);
            i += 1;
        }
    }

    fn build_release_once(&mut self, handle: Value, typ: &TCType, args: &Vec<TCType>)
        ensures
            final(self)@ == old(self)@.release_once(handle, *typ, args@),
    {
        proof {
            reveal(Lowering::release_once);
        }
        let zero = self.push_instruction(
            Instruction::RcDecrement(handle),
            Type::Primitive(PrimitiveType::Bool),
        );
        let glue = self.push_block_no_params();
        let rest = self.push_block_no_params();
        self.terminate_block(
            TerminatorInstruction::If { cond: zero, then: glue, else_: rest, end: rest },
        );
        self.switch_to_block(glue);
        self.build_release_glue(handle, typ, args, None);
        self.push_instruction(
            Instruction::FreeShared(handle),
            Type::Primitive(PrimitiveType::Unit),
        );
        self.terminate_with_jump(rest, None);
        self.switch_to_block(rest);
        self.terminate_block(TerminatorInstruction::Return(Value::Unit));
    }

    fn build_release_chain(&mut self, handle: Value, typ: &TCType, args: &Vec<TCType>)
        ensures
            final(self)@ == old(self)@.release_chain(handle, *typ, args@),
    {
        proof {
            reveal(Lowering::release_chain);
        }
        let null = self.push_instruction(
            Instruction::Transmute(Value::Integer(IntConstant::Usz(0))),
            Type::Primitive(PrimitiveType::Pointer),
        );
        let next_slot = self.push_instruction(
            Instruction::StackAlloc(null),
            Type::Primitive(PrimitiveType::Pointer),
        );
        let cur_slot = self.push_instruction(
            Instruction::StackAlloc(handle),
            Type::Primitive(PrimitiveType::Pointer),
        );
        let header = self.push_block_no_params();
        let glue = self.push_block_no_params();
        let advance = self.push_block_no_params();
        let exit = self.push_block_no_params();
        self.terminate_with_jump(header, None);
        self.switch_to_block(header);
        let cur = self.push_instruction(
            Instruction::Deref(cur_slot),
            Type::Primitive(PrimitiveType::Pointer),
        );
        let zero = self.push_instruction(
            Instruction::RcDecrement(cur),
            Type::Primitive(PrimitiveType::Bool),
        );
        self.terminate_block(
            TerminatorInstruction::If { cond: zero, then: glue, else_: exit, end: exit },
        );
        self.switch_to_block(glue);
        self.push_instruction(
            Instruction::Store { pointer: next_slot, value: null },
            Type::Primitive(PrimitiveType::Unit),
        );
        self.build_release_glue(cur, typ, args, Some(next_slot));
        self.push_instruction(
            Instruction::FreeShared(cur),
            Type::Primitive(PrimitiveType::Unit),
        );
        self.advance_chain(next_slot, cur_slot, header, advance, exit);
    }

    fn advance_chain(
        &mut self,
        next_slot: Value,
        cur_slot: Value,
        header: u32,
        advance: u32,
        exit: u32,
    )
        ensures
            final(self)@ == old(self)@.chain_advanced(next_slot, cur_slot, header, advance, exit),
    {
        proof {
            reveal(Lowering::chain_advanced);
        }
        let next = self.push_instruction(
            Instruction::Deref(next_slot),
            Type::Primitive(PrimitiveType::Pointer),
        );
        let next_int = self.push_instruction(
            Instruction::Transmute(next),
            Type::Primitive(PrimitiveType::Int(IntegerKind::Usz)),
        );
        let is_null = self.push_instruction(
            Instruction::EqInt(next_int, Value::Integer(IntConstant::Usz(0))),
            Type::Primitive(PrimitiveType::Bool),
        );
        self.terminate_block(
            TerminatorInstruction::If { cond: is_null, then: exit, else_: advance, end: exit },
        );
        self.switch_to_block(advance);
        self.push_instruction(
            Instruction::Store { pointer: cur_slot, value: next },
            Type::Primitive(PrimitiveType::Unit),
        );
        self.terminate_with_jump(header, None);
        self.switch_to_block(exit);
        self.terminate_block(TerminatorInstruction::Return(Value::Unit));
    }

    fn build_release_body(&mut self, typ: &TCType, args: &Vec<TCType>, is_chain: bool)
        ensures
            final(self)@ == old(self)@.release_body(*typ, args@, is_chain),
    {
        proof {
            reveal(Lowering::release_body);
        }
        let handle = Value::Parameter(self.current_block, 0);
        self.push_parameter(Type::Primitive(PrimitiveType::Pointer));
        if is_chain {
            self.build_release_chain(handle, typ, args);
        } else {
            self.build_release_once(handle, typ, args);
        }
    }

    /// Define the release function of a shared type.
    fn define_release_function(&mut self, name: NameId, generics: &Vec<NameId>)
        ensures
            final(self)@ == old(self)@.release_defined(name, generics@),
    {
        proof {
            reveal(Lowering::release_defined);
        }
        let mut text = "release_".to_owned();
        text.append(self.answers.context.name(name).as_str());
        let own_name = self.own_name(RELEASE_FUNCTION);
        let typ = make_own_type(self.own_name(name), generics);
        let args = list_generic_types(generics);
        self.generics = list_named_generics(generics);
        let ghost scoped = self@;
        let is_chain = self.type_has_self_release_field(&args);
        let count = self.generic_count();
        let mut locals: FxHashMap<NameId, Value> = FxHashMap::default();
        let mut mutable_locals: FxHashSet<NameId> = FxHashSet::default();
        std::mem::swap(&mut locals, &mut self.local_variables);
        std::mem::swap(&mut mutable_locals, &mut self.mutable_locals);
        assert(self@ =~= scoped.without_locals());
        let outer = self.start_global(
            text,
            Some(RELEASE_FUNCTION),
            count,
            release_function_mir_type(),
        );
        self.build_release_body(&typ, &args, is_chain);
        let id = self.end_global(outer, Ghost(scoped));
        self.local_variables = locals;
        self.mutable_locals = mutable_locals;
        self.set_definition_id(&own_name, id);
    }

    fn build_method_body(&mut self, index: u32, method: &FunctionType, parameters: &Vec<Type>)
        requires
            parameters@.len() >= 2,
        ensures
            final(self)@ == old(self)@.method_body(index, *method, parameters@),
    {
        proof {
            reveal(Lowering::method_body);
        }
        let typ = Type::Function(Box::new(method.clone()));
        let is_closure = typ.has_environment();
        let count = parameters.len();
        self.push_parameters(parameters);
        let extracted = self.push_instruction(
            Instruction::IndexTuple {
                tuple: Value::Parameter(ENTRY_BLOCK, (count - 2) as u32),
                index,
            },
            typ,
        );
        let mut arguments = list_entry_parameters(count - 2);
        arguments.push(Value::Parameter(ENTRY_BLOCK, (count - 1) as u32));
        let result = if is_closure {
            self.push_instruction(
                Instruction::CallClosure { closure: extracted, arguments },
                method.return_type.clone(),
            )
        } else {
            self.push_instruction(
                Instruction::Call { function: extracted, arguments },
                method.return_type.clone(),
            )
        };
        self.terminate_block(TerminatorInstruction::Return(result));
    }

    fn define_method(&mut self, name: NameId, index: u32, method: &FunctionType, struct_type: &Type)
        ensures
            final(self)@ == old(self)@.method_defined(name, index, *method, *struct_type),
    {
        proof {
            reveal(Lowering::method_defined);
        }
        let own = method.parameters.to_vec();
        let parameters = list_method_parameters(&own, struct_type);
        let text = self.answers.context.name(name);
        let own_name = self.own_name(name);
        let count = self.generic_count();
        let typ = Type::function_of(
            &parameters,
            Type::Primitive(PrimitiveType::NoClosureEnv),
            method.return_type.clone(),
        );
        let ghost before = self@;
        let outer = self.start_global(text, Some(name), count, typ);
        self.build_method_body(index, method, &parameters);
        let id = self.end_global(outer, Ghost(before));
        self.set_definition_id(&own_name, id);
    }

    fn define_methods(&mut self, names: &Vec<NameId>, fields: &Vec<Type>, struct_type: &Type)
        ensures
            final(self)@ == old(self)@.methods_defined(
                names@,
                fields@,
                *struct_type,
                names@.len() as int,
            ),
    {
        let mut i: usize = 0;
        proof {
            reveal(Lowering::methods_defined);
        }
        while i < names.len()
            invariant
                i <= names.len(),
                self@ == old(self)@.methods_defined(names@, fields@, *struct_type, i as int),
            decreases names.len() - i,
        {
            proof {
                reveal(Lowering::methods_defined);
            }
            if i < fields.len() {
                match &fields[i] {
                    Type::Function(method) => {
                        self.define_method(names[i], i as u32, method, struct_type);
                    },
                    _ => {},
                }
            }
            i += 1;
        }
    }

    /// Define a function for each method of an ability.
    fn define_ability_methods(&mut self, name: NameId, fields: &Vec<NameId>)
        ensures
            final(self)@ == old(self)@.ability_defined(name, fields@),
    {
        proof {
            reveal(Lowering::ability_defined);
        }
        let typ = self.get_generalized(name);
        self.set_generics_in_scope(&typ);
        let layout = self.convert_type(&typ);
        let parameters = match &layout {
            Type::Function(function) => function.parameters.to_vec(),
            _ => Vec::new(),
        };
        let struct_type = find_returned(&layout);
        self.define_methods(fields, &parameters, &struct_type);
    }

    fn define_constructors(&mut self, name: NameId, body: &TypeDefinitionBody, shared: bool)
        ensures
            final(self)@ == old(self)@.constructors_defined(name, *body, shared),
    {
        proof {
            reveal(Lowering::constructors_defined);
        }
        match body {
            TypeDefinitionBody::Struct(_) => {
                self.define_type_constructor(name, None, shared);
            },
            TypeDefinitionBody::Enum(variants) => {
                if variants.len() == 1 {
                    self.define_type_constructor(variants[0], None, shared);
                } else if variants.len() > TAG_LIMIT {
                    self.fail();
                } else {
                    self.define_variants(variants, shared);
                }
            },
            TypeDefinitionBody::Alias => {},
            TypeDefinitionBody::Error => {},
        }
    }

    /// Define all that a type needs.
    pub fn type_definition(&mut self, definition: &TypeDefinition)
        ensures
            final(self)@ == old(self)@.type_defined(*definition),
    {
        proof {
            reveal(Lowering::type_defined);
        }
        match definition.kind {
            AbilityKind::Effect => {
                return ;
            },
            _ => {},
        }
        match definition.body {
            TypeDefinitionBody::Alias => {
                return ;
            },
            TypeDefinitionBody::Error => {
                return ;
            },
            _ => {},
        }
        self.define_constructors(definition.name, &definition.body, definition.shared);
        if definition.shared {
            self.define_release_function(definition.name, &definition.generics);
        }
        match definition.kind {
            AbilityKind::Trait => match &definition.body {
                TypeDefinitionBody::Struct(fields) => {
                    self.define_ability_methods(definition.name, fields);
                },
                _ => {},
            },
            _ => {},
        }
    }

    /// What was lowered.
    pub fn finish(self) -> (mir: Mir)
        ensures
            mir@ == self@.program(),
    {
        let mut external = self.external;
        let finished = self.finished_functions;
        let keys = map_keys(&finished);
        let ghost before = external@;
        let mut i: usize = 0;
        while i < keys.len()
            invariant
                i <= keys.len(),
                external@ == before.remove_keys(keys@.take(i as int).to_set()),
            decreases keys.len() - i,
        {
            map_remove(&mut external, keys[i]);
            proof {
                assert(keys@.take(i + 1) =~= keys@.take(i as int).push(keys@[i as int]));
                keys@.take(i as int).lemma_push_to_set_commute(keys@[i as int]);
                assert(external@ =~= before.remove_keys(keys@.take(i + 1).to_set()));
            }
            i += 1;
        }
        assert(keys@.take(i as int) =~= keys@);
        let mir = Mir {
            definitions: finished,
            externals: external,
            preserved_op_indices: self.effect_op_indices,
        };
        assert(mir@.externals =~= self@.program().externals);
        mir
    }

    /// Lower an item.
    pub fn item(&mut self, item: &Item)
        ensures
            final(self)@ == old(self)@.item_lowered(*item),
    {
        match item {
            Item::Definition(definition) => {
                self.definition(*definition, true, NESTING_LIMIT);
            },
            Item::TypeDefinition(definition) => {
                self.type_definition(definition);
            },
            Item::Ability => {
                self.fail();
            },
            Item::Impl => {
                self.fail();
            },
            Item::Comptime => {},
        }
    }
}

/// Lower an item. What runs while the program is compiled gives nothing, and an item that holds
/// what no item holds once it was checked is refused. Names that are met get their ids from `ids`,
/// so that the items of a program agree on them.
pub fn build_initial_mir(
    answers: &Answers,
    ids: &mut SharedIds,
    top_level_id: TopLevelId,
    item: &Item,
) -> (mir: Result<Option<Mir>, Malformed>)
    ensures
        ({
            let made = Lowering::nothing(*answers, top_level_id, old(ids)@).item_lowered(*item);
            &&& final(ids)@ == made.ids
            &&& match mir {
                Ok(Some(mir)) => !made.failed && !(item is Comptime) && mir@ == made.program(),
                Ok(None) => item is Comptime,
                Err(Malformed) => made.failed,
            }
        }),
{
    let mut own = SharedIds::new();
    std::mem::swap(&mut own, ids);
    let mut builder = Builder::new(answers, top_level_id, own);
    builder.item(item);
    std::mem::swap(&mut builder.ids, ids);
    match item {
        Item::Comptime => {
            return Ok(None);
        },
        _ => {},
    }
    if builder.failed {
        return Err(Malformed);
    }
    Ok(Some(builder.finish()))
}

} // verus!
