//! What items define, and what their names stand for.

#[allow(unused_imports)]
use crate::collections::lookup;
#[allow(unused_imports)]
use crate::cst::{Definition, ExprForm};
#[allow(unused_imports)]
use crate::database::{AbilityKind, ItemKind, TypeBody, TypeDefinition, TypeDefinitionBody};
#[allow(unused_imports)]
use crate::ids::{
    DefinitionId, ExprId, NameId, Origin, PathId, TopLevelName, ENTRY_BLOCK, NESTING_LIMIT,
    RELEASE_FUNCTION,
};
#[allow(unused_imports)]
use crate::mir::builder::counted::types_of_fields;
#[allow(unused_imports)]
use crate::mir::builder::expressions::Lower;
#[allow(unused_imports)]
use crate::mir::builder::laws::bodies::are_first_parameters;
#[allow(unused_imports)]
use crate::mir::builder::laws::data::kind_of;
#[allow(unused_imports)]
use crate::mir::builder::state::Lowering;
#[allow(unused_imports)]
use crate::mir::{
    FloatConstant, FunctionType, IntConstant, Operation, PrimitiveType, Terminator, Type, Value,
};
#[allow(unused_imports)]
use crate::types::{FloatKind, Type as TCType};
use vstd::prelude::*;

verus! {

impl Lowering {
    /// A result has the layout it was made with, a parameter the one it was declared with, and a
    /// constant that of its kind.
    pub proof fn law_a_value_has_the_layout_it_was_made_with(
        self,
        operation: Operation,
        typ: Type,
        constant: IntConstant,
    )
        requires
            self.is_running(),
            self.function.unwrap().instructions.len() < u32::MAX,
            self.function.unwrap().instructions.len()
                == self.function.unwrap().instruction_result_types.len(),
            self.current().parameter_types.len() < u32::MAX,
        ensures
            ({
                let (value, after) = self.pushed(operation, typ);
                let taken = self.with_parameter(typ);
                let index = self.current().parameter_types.len() as u32;
                &&& after.value_type(value) == typ
                &&& after.operation_of(value) == Some(operation)
                &&& taken.value_type(Value::Parameter(self.block, index)) == typ
                &&& self.value_type(Value::Integer(constant)) == Type::Primitive(
                    PrimitiveType::Int(kind_of(constant)),
                )
                &&& self.value_type(Value::Unit) == Type::Primitive(PrimitiveType::Unit)
                &&& forall|b: bool| #[trigger]
                    self.value_type(Value::Bool(b)) == Type::Primitive(PrimitiveType::Bool)
                &&& forall|c: char| #[trigger]
                    self.value_type(Value::Char(c)) == Type::Primitive(PrimitiveType::Char)
            }),
    {
        reveal(Lowering::pushed);
        reveal(Lowering::value_type);
        reveal(Lowering::with_parameter);
    }

    /// A match evaluates what it is on first, and then decides.
    pub proof fn law_a_match_decides_on_its_value(self, lower: Lower, expr: ExprId)
        requires
            self.answers.context@.expr(expr) is Match,
        ensures
            self.inner_lowered(lower, expr) == if self.answers.decision_trees@.contains_key(expr) {
                let (define, tree) = self.answers.decision_trees@[expr];
                let (_, defined) = lower(self, define);
                defined.tree_lowered(lower, tree, expr, NESTING_LIMIT as nat)
            } else {
                (Value::Error, self)
            },
    {
        reveal(Lowering::inner_lowered);
        reveal(Lowering::match_lowered);
    }

    /// A name of the program stands for its definition, and is used at the types it is instantiated
    /// at. Gives the definition, and the state in which it is referred to.
    pub proof fn law_a_name_stands_for_its_definition(self, path: PathId, name: TopLevelName) -> (
        stages: (DefinitionId, Lowering))
        requires
            self.is_running(),
            self.answers.context@.path_origin(path) == Some(Origin::TopLevelDefinition(name)),
            name.local_name_id != RELEASE_FUNCTION,
            !self.is_extern_name(name),
            self.ability_method(path) == (None::<(u32, u32, AbilityKind)>, self),
        ensures
            ({
                let (id, named) = stages;
                let (value, after) = self.variable_made(path);
                let typ = self.layout(self.path_type(path));
                &&& id == self.id_of(name).0
                &&& named == self.id_of(name).1.definition_value(id, self.name_of(name), typ).1
                &&& if self.answers.instantiations@.contains_key(path) {
                    named.does(
                        Operation::Instantiate(
                            id,
                            named.layouts_of(self.answers.instantiations@[path]@),
                        ),
                        value,
                        after,
                    )
                } else {
                    (value, after) == (Value::Definition(id), named)
                }
            }),
    {
        reveal(Lowering::variable_made);
        reveal(Lowering::path_value);
        reveal(Lowering::instantiated);
        reveal(Lowering::id_of);
        reveal(Lowering::definition_value);
        let (id, made) = self.id_of(name);
        let typ = self.layout(self.path_type(path));
        let (_, named) = made.definition_value(id, self.name_of(name), typ);
        let instantiate = Operation::Instantiate(
            id,
            named.layouts_of(self.answers.instantiations@[path]@),
        );
        named.pushing_does(instantiate, typ);
        (id, named)
    }

    /// A definition that is referred to is noted as defined elsewhere, under its name and layout,
    /// unless it is finished here or being lowered.
    pub proof fn law_what_is_not_defined_here_is_noted(
        self,
        id: DefinitionId,
        name: Seq<char>,
        typ: Type,
    )
        ensures
            ({
                let (value, after) = self.definition_value(id, name, typ);
                let is_here = self.finished.contains_key(id) || (self.function is Some
                    && self.function.unwrap().id == id);
                &&& value == Value::Definition(id)
                &&& is_here ==> after == self
                &&& !is_here ==> after.external.contains_key(id) && after.external[id].name == name
                    && after.external[id].typ == typ && after.external.remove(id)
                    == self.external.remove(id)
            }),
    {
        reveal(Lowering::definition_value);
        let after = self.definition_value(id, name, typ).1;
        assert(after.external.remove(id) =~= self.external.remove(id));
    }

    /// A definition that is started has no code yet, and one that is finished is kept under its id:
    /// what was lowered around it goes on where it was.
    pub proof fn law_a_definition_is_kept_under_its_id(
        self,
        outer: Lowering,
        name: Seq<char>,
        name_id: NameId,
        generic_count: u32,
        typ: Type,
    )
        ensures
            ({
                let own = TopLevelName {
                    top_level_item: self.top_level_id,
                    local_name_id: name_id,
                };
                let started = self.definition_started(name, Some(name_id), generic_count, typ);
                let function = started.function.unwrap();
                &&& started.function is Some
                &&& function.id == self.id_of(own).0
                &&& function.name == name && function.typ == typ && function.generic_count
                    == generic_count
                &&& function.instructions.len() == 0
                &&& function.blocks.len() == 1 && started.is_at_a_start()
                &&& started.block == ENTRY_BLOCK
                &&& self.function is Some ==> {
                    let (id, finished) = self.definition_finished(outer);
                    &&& id == self.function.unwrap().id
                    &&& finished.finished == self.finished.insert(id, self.function.unwrap())
                    &&& finished.function == outer.function && finished.block == outer.block
                    &&& finished.locals == self.locals
                }
            }),
    {
        reveal(Lowering::definition_started);
        reveal(Lowering::definition_finished);
        reveal(Lowering::id_of);
    }

    /// The methods of a trait are each defined as a function that takes the method from its place.
    /// Gives the state before the last.
    pub proof fn law_each_method_is_defined_with_its_place(
        self,
        names: Seq<NameId>,
        fields: Seq<Type>,
        struct_type: Type,
        count: int,
    ) -> (before: Lowering)
        requires
            0 < count <= names.len() <= u32::MAX,
        ensures
            ({
                let after = self.methods_defined(names, fields, struct_type, count);
                &&& before == self.methods_defined(names, fields, struct_type, count - 1)
                &&& count <= fields.len() && fields[count - 1] is Function ==> {
                    let method = *fields[count - 1]->Function_0;
                    after == before.method_defined(
                        names[count - 1],
                        (count - 1) as u32,
                        method,
                        struct_type,
                    )
                }
                &&& !(count <= fields.len() && fields[count - 1] is Function) ==> after == before
            }),
    {
        reveal_with_fuel(Lowering::methods_defined, 2);
        self.methods_defined(names, fields, struct_type, count - 1)
    }

    /// A struct has one constructor, under its own name and without a tag, and so has an enum of one
    /// variant, under the name of that. The constructors of other enums are tagged. A tag is a byte.
    pub proof fn law_only_variants_among_others_are_tagged(
        self,
        name: NameId,
        body: TypeDefinitionBody,
        shared: bool,
    )
        ensures
            ({
                let after = self.constructors_defined(name, body, shared);
                match body {
                    TypeDefinitionBody::Struct(_) => after == self.constructor_defined(
                        name,
                        None,
                        shared,
                    ),
                    TypeDefinitionBody::Enum(variants) => {
                        &&& variants@.len() == 1 ==> after == self.constructor_defined(
                            variants@[0],
                            None,
                            shared,
                        )
                        &&& variants@.len() != 1 && variants@.len() <= 256 ==> after
                            == self.variants_defined(variants@, shared, variants@.len() as int)
                        &&& variants@.len() > 256 ==> after.failed
                    },
                    _ => after == self,
                }
            }),
    {
        reveal(Lowering::constructors_defined);
    }

    /// A type is defined by its constructors, the release function of a shared type behind them, and
    /// the methods of a trait last. An effect and an alias need nothing.
    pub proof fn law_a_type_is_defined_with_what_it_needs(self, definition: TypeDefinition)
        ensures
            ({
                let after = self.type_defined(definition);
                let made = self.constructors_defined(
                    definition.name,
                    definition.body,
                    definition.shared,
                );
                let releasable = if definition.shared {
                    made.release_defined(definition.name, definition.generics@)
                } else {
                    made
                };
                let nothing = definition.kind == AbilityKind::Effect || definition.body is Alias
                    || definition.body is Error;
                &&& nothing ==> after == self
                &&& !nothing && definition.kind == AbilityKind::Trait ==> match definition.body {
                    TypeDefinitionBody::Struct(fields) => after == releasable.ability_defined(
                        definition.name,
                        fields@,
                    ),
                    _ => after == releasable,
                }
                &&& !nothing && definition.kind == AbilityKind::NotAbility ==> after == releasable
            }),
    {
        reveal(Lowering::type_defined);
    }

    /// A release goes on along a chain if and only if a cell of the type may point at another one of
    /// the same type directly, at the same arguments.
    pub proof fn law_a_release_goes_on_if_cells_are_linked(self, args: Seq<TCType>)
        ensures
            ({
                let links = |typ: TCType| self.shared_target(typ) == Some(
                    (self.top_level_id, args),
                );
                self.has_self_field(args) <==> match self.body_of(self.top_level_id, args) {
                    Some(TypeBody::Product(fields)) => exists|i: int|
                        0 <= i < fields@.len() && links((#[trigger] fields@[i]).1),
                    Some(TypeBody::Sum(variants)) => exists|i: int, j: int|
                        0 <= i < variants@.len() && 0 <= j < variants@[i].1@.len() && links(
                            #[trigger] variants@[i].1@[j],
                        ),
                    None => false,
                }
            }),
    {
        reveal(Lowering::has_self_field);
        let links = |typ: TCType| self.shared_target(typ) == Some((self.top_level_id, args));
        match self.body_of(self.top_level_id, args) {
            Some(TypeBody::Product(fields)) => {
                let types = types_of_fields(fields@);
                let count = fields@.len() as int;
                self.law_a_chain_goes_on_with_the_last_of_its_kind(types, args, count);
                let is_own = |i: int| self.shared_target(types[i]) == Some(
                    (self.top_level_id, args),
                );
                match self.last_self(types, args, count) {
                    Some(last) => {
                        assert(is_own(last));
                        assert(links(fields@[last].1));
                    },
                    None => {
                        assert forall|i: int| 0 <= i < count implies !links(
                            (#[trigger] fields@[i]).1,
                        ) by {
                            assert(!is_own(i));
                        }
                    },
                }
            },
            Some(TypeBody::Sum(variants)) => {
                self.variants_are_linked(variants@, args, variants@.len() as int);
            },
            None => {},
        }
    }

    proof fn variants_are_linked(
        self,
        variants: Seq<(String, Vec<TCType>)>,
        args: Seq<TCType>,
        count: int,
    )
        requires
            0 <= count <= variants.len(),
        ensures
            self.some_variant_is_self(variants, args, count) <==> exists|i: int, j: int|
                0 <= i < count && 0 <= j < variants[i].1@.len() && self.shared_target(
                    #[trigger] variants[i].1@[j],
                ) == Some((self.top_level_id, args)),
        decreases count,
    {
        reveal_with_fuel(Lowering::some_variant_is_self, 2);
        if count > 0 {
            self.variants_are_linked(variants, args, count - 1);
            let types = variants[count - 1].1@;
            let length = types.len() as int;
            self.law_a_chain_goes_on_with_the_last_of_its_kind(types, args, length);
            let is_own = |i: int| self.shared_target(types[i]) == Some((self.top_level_id, args));
            if self.some_variant_is_self(variants, args, count - 1) {
                let (i, j) = choose|i: int, j: int|
                    0 <= i < count - 1 && 0 <= j < variants[i].1@.len() && self.shared_target(
                        #[trigger] variants[i].1@[j],
                    ) == Some((self.top_level_id, args));
                assert(self.shared_target(variants[i].1@[j]) == Some((self.top_level_id, args)));
            }
            match self.last_self(types, args, length) {
                Some(last) => {
                    assert(is_own(last));
                    assert(self.shared_target(variants[count - 1].1@[last]) == Some(
                        (self.top_level_id, args),
                    ));
                },
                None => {
                    assert forall|j: int| 0 <= j < length implies self.shared_target(
                        #[trigger] types[j],
                    ) != Some((self.top_level_id, args)) by {
                        assert(!is_own(j));
                    }
                },
            }
        }
    }

    /// A release function releases along a chain or once, with the handle that is its parameter.
    pub proof fn law_a_release_takes_its_handle_as_a_parameter(
        self,
        typ: TCType,
        args: Seq<TCType>,
        is_chain: bool,
    )
        ensures
            ({
                let handle = Value::Parameter(self.block, 0);
                let ready = self.with_parameter(Type::Primitive(PrimitiveType::Pointer));
                self.release_body(typ, args, is_chain) == if is_chain {
                    ready.release_chain(handle, typ, args)
                } else {
                    ready.release_once(handle, typ, args)
                }
            }),
    {
        reveal(Lowering::release_body);
    }

    /// A function without an environment is a closure whose environment is null.
    pub proof fn law_a_function_without_an_environment_is_closed_with_null(
        self,
        value: Value,
        expected: Type,
    ) -> (stages: (Value, Lowering))
        requires
            self.is_running(),
        ensures
            ({
                let (environment, ready) = stages;
                let (closure, after) = self.packed_without_env(value, expected);
                &&& self.does(Operation::Transmute(Value::Unit), environment, ready)
                &&& ready.does(
                    Operation::PackClosure { function: value, environment },
                    closure,
                    after,
                )
            }),
    {
        reveal(Lowering::packed_without_env);
        self.pushing_does(Operation::Transmute(Value::Unit), Type::pointer());
        let (environment, ready) = self.pushed(Operation::Transmute(Value::Unit), Type::pointer());
        ready.pushing_does(Operation::PackClosure { function: value, environment }, expected);
        (environment, ready)
    }

    proof fn taking_more_goes_on(self, types: Seq<Type>, count: int)
        requires
            self.is_running(),
        ensures
            ({
                let after = self.with_plain_parameters(types, count);
                &&& after.is_running()
                &&& after == self.moved_to(after)
                &&& after.block == self.block
            }),
        decreases count,
    {
        reveal_with_fuel(Lowering::with_plain_parameters, 2);
        if count > 0 {
            self.taking_more_goes_on(types, count - 1);
            reveal(Lowering::with_parameter);
        }
    }

    /// The function that stands in the field of an ability for a definition calls the definition with
    /// its parameters, without the environment that it is given behind them. Gives what it passes,
    /// the definition, and the states around the call.
    pub proof fn law_a_field_calls_its_definition_without_the_environment(
        self,
        expected: FunctionType,
        target: (DefinitionId, Option<Seq<Type>>),
        target_type: Type,
    ) -> (stages: (Seq<Value>, (Value, Lowering), (Value, Lowering)))
        requires
            self.is_running(),
        ensures
            ({
                let (arguments, (function, named), (result, called)) = stages;
                let after = self.field_wrapper_body(expected, target, target_type);
                &&& are_first_parameters(arguments, expected.parameters.items().len() as int)
                &&& named.is_running() && named.block == self.block
                &&& target.1 is None ==> function == Value::Definition(target.0)
                &&& named.does(Operation::Call { function, arguments }, result, called)
                &&& after.end_of(self.block) == Some(Terminator::Return(result))
            }),
    {
        reveal(Lowering::field_wrapper_body);
        reveal(Lowering::target_value);
        reveal(Lowering::with_parameter);
        let parameters = expected.parameters.items();
        let count = parameters.len() as int;
        self.taking_more_goes_on(parameters, count);
        let ready = self.with_plain_parameters(parameters, count).with_parameter(
            expected.environment,
        );
        match target.1 {
            Some(types) => {
                ready.pushing_does(Operation::Instantiate(target.0, types), target_type);
            },
            None => {},
        }
        let (function, named) = ready.target_value(target.0, target.1, target_type);
        crate::mir::builder::laws::bodies::entry_parameters_are_first(count);
        let arguments = crate::mir::builder::variables::entry_parameters(count);
        let call = Operation::Call { function, arguments };
        named.pushing_does(call, expected.return_type);
        let (result, called) = named.pushed(call, expected.return_type);
        called.a_block_ends(Terminator::Return(result));
        (arguments, (function, named), (result, called))
    }

    /// A field of an ability is passed as it is, unless a closure is expected there and the value is
    /// a function without an environment: a definition is wrapped then, and the result of an
    /// instruction closed with null.
    pub proof fn law_only_functions_without_an_environment_are_closed(
        self,
        value: Value,
        expected: Option<Type>,
    )
        ensures
            ({
                let bare = match (expected, self.value_type(value)) {
                    (Some(Type::Function(wanted)), Type::Function(own)) => wanted.environment
                        == Type::Primitive(PrimitiveType::Pointer) && own.environment
                        == Type::Primitive(PrimitiveType::NoClosureEnv),
                    _ => false,
                };
                let done = self.field_coerced(value, expected);
                &&& !bare ==> done == (value, self)
                &&& bare && self.static_function(value) is None && value is InstructionResult ==> done
                    == self.packed_without_env(value, expected.unwrap())
                &&& bare && self.static_function(value) is None && !(value is InstructionResult)
                    ==> done == (value, self)
                &&& bare && self.static_function(value) is Some ==> done == self.field_wrapped(
                    *expected.unwrap()->Function_0,
                    self.static_function(value).unwrap(),
                    self.value_type(value),
                )
            }),
    {
        reveal(Lowering::field_coerced);
    }

    /// A place is a chain of members, through any annotations, of a local with a slot or of what a
    /// handle that can be written through points at.
    pub open spec fn leads_to_a_slot(self, expr: ExprId, depth: nat) -> bool
        decreases depth,
    {
        depth > 0 && match self.answers.context@.expr(expr) {
            ExprForm::Variable(path) => {
                ||| self.answers.context@.path_origin(path) matches Some(Origin::Local(name))
                    && self.mutable_locals.contains(name)
                ||| self.shared_mut_layout(self.follow(self.expr_type(expr))) is Some
            },
            ExprForm::MemberAccess { object, .. } => self.leads_to_a_slot(
                object,
                (depth - 1) as nat,
            ),
            ExprForm::TypeAnnotation { lhs } => self.leads_to_a_slot(lhs, (depth - 1) as nat),
            _ => false,
        }
    }

    proof fn addressable_leads_to_a_slot(self, expr: ExprId, depth: nat)
        ensures
            self.addressable_at(expr, depth) == self.leads_to_a_slot(expr, depth),
        decreases depth,
    {
        if depth > 0 {
            match self.answers.context@.expr(expr) {
                ExprForm::MemberAccess { object, .. } => {
                    self.addressable_leads_to_a_slot(object, (depth - 1) as nat);
                },
                ExprForm::TypeAnnotation { lhs } => {
                    self.addressable_leads_to_a_slot(lhs, (depth - 1) as nat);
                },
                _ => {},
            }
        }
    }

    /// A place has an address if and only if it leads to a slot.
    pub proof fn law_what_leads_to_a_slot_has_an_address(self, expr: ExprId)
        ensures
            self.is_addressable(expr) <==> self.leads_to_a_slot(expr, NESTING_LIMIT as nat),
    {
        reveal(Lowering::is_addressable);
        self.addressable_leads_to_a_slot(expr, NESTING_LIMIT as nat);
    }
}

} // verus!
