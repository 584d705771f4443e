//! Where handles to counted cells are retained and released.

#[allow(unused_imports)]
use crate::collections::lookup;
use crate::cst::Expr;
use crate::collections::set_contains;
use crate::database::TypeBody;
use crate::ids::{BlockId, ExprId, Origin, TopLevelId, TopLevelName, NESTING_LIMIT, RELEASE_FUNCTION};
use crate::mir::builder::state::{Answers, Builder, TCType};
#[allow(unused_imports)]
use crate::mir::builder::state::Lowering;
use crate::mir::{Instruction, IntConstant, PrimitiveType, TerminatorInstruction, Type, Value};
#[allow(unused_imports)]
use crate::mir::{Operation, Terminator};
use crate::types::TypeList;
use vstd::prelude::*;

verus! {

/// The layout of every release function: from a handle to nothing. It takes no evidence.
pub open spec fn release_signature() -> Type {
    Type::function(seq![Type::pointer()], Type::no_env(), Type::unit())
}

/// The types of fields.
pub open spec fn types_of_fields(fields: Seq<(String, TCType)>) -> Seq<TCType> {
    fields.map_values(|field: (String, TCType)| field.1)
}

/// The edges of a switch.
pub type Edges = Seq<(u32, (BlockId, Option<Value>))>;

impl Lowering {
    /// The user defined type that a type is, with its arguments.
    pub open spec fn user_type(self, typ: TCType) -> Option<(TopLevelId, Seq<TCType>)> {
        match self.follow(typ) {
            TCType::Application(constructor, args) => match self.follow(*constructor) {
                TCType::UserDefined(Origin::TopLevelDefinition(name)) => Some(
                    (name.top_level_item, args.items()),
                ),
                _ => None,
            },
            TCType::UserDefined(Origin::TopLevelDefinition(name)) => Some(
                (name.top_level_item, Seq::empty()),
            ),
            _ => None,
        }
    }

    /// The shared type that a type is, with its arguments: what its release function is named by.
    #[verifier::opaque]
    pub open spec fn shared_target(self, typ: TCType) -> Option<(TopLevelId, Seq<TCType>)> {
        match self.user_type(typ) {
            Some((item, args)) => if self.answers.database.is_shared_type(item) {
                Some((item, args))
            } else {
                None
            },
            None => None,
        }
    }

    /// The user defined type that is no shared one that a type is, with its arguments.
    #[verifier::opaque]
    pub open spec fn aggregate_target(self, typ: TCType) -> Option<(TopLevelId, Seq<TCType>)> {
        match self.user_type(typ) {
            Some((item, args)) => if self.answers.database.is_shared_type(item) {
                None
            } else {
                Some((item, args))
            },
            None => None,
        }
    }

    /// The type is one of closures whose environment is a counted cell.
    pub open spec fn has_heap_env(self, typ: TCType) -> bool {
        match self.follow(typ) {
            TCType::Function(function) => self.follow(function.environment) == TCType::Primitive(
                crate::types::PrimitiveType::Pointer,
            ),
            _ => false,
        }
    }

    /// What values of a type at given arguments are made of.
    pub open spec fn body_of(self, item: TopLevelId, args: Seq<TCType>) -> Option<TypeBody> {
        lookup(self.answers.database.type_bodies@, (item, TypeList::of(args)))
    }

    /// A value of the type holds a handle to a counted cell, not counting those behind pointers
    /// and handles.
    pub open spec fn owns_count(self, typ: TCType, depth: nat) -> bool
        decreases depth, 0nat, 0int,
    {
        depth > 0 && (self.shared_target(typ) is Some || self.has_heap_env(typ) || match self.follow(
            typ,
        ) {
            TCType::Tuple(elements) => self.some_owns_count(
                elements.items(),
                elements.items().len() as int,
                (depth - 1) as nat,
            ),
            _ => match self.aggregate_target(typ) {
                Some((item, args)) => match self.body_of(item, args) {
                    Some(TypeBody::Product(fields)) => self.some_owns_count(
                        types_of_fields(fields@),
                        fields@.len() as int,
                        (depth - 1) as nat,
                    ),
                    Some(TypeBody::Sum(variants)) => self.some_variant_owns_count(
                        variants@,
                        variants@.len() as int,
                        (depth - 1) as nat,
                    ),
                    None => false,
                },
                None => false,
            },
        })
    }

    pub open spec fn some_owns_count(self, types: Seq<TCType>, count: int, depth: nat) -> bool
        decreases depth, 1nat, count,
    {
        count > 0 && (self.some_owns_count(types, count - 1, depth) || self.owns_count(
            types[count - 1],
            depth,
        ))
    }

    pub open spec fn some_variant_owns_count(
        self,
        variants: Seq<(String, Vec<TCType>)>,
        count: int,
        depth: nat,
    ) -> bool
        decreases depth, 2nat, count,
    {
        count > 0 && (self.some_variant_owns_count(variants, count - 1, depth)
            || self.some_owns_count(
            variants[count - 1].1@,
            variants[count - 1].1@.len() as int,
            depth,
        ))
    }

    /// A value of the type holds a handle to a counted cell.
    #[verifier::opaque]
    pub open spec fn is_counted(self, typ: TCType) -> bool {
        self.owns_count(typ, NESTING_LIMIT as nat)
    }

    /// The value that tells the variant of a value: its tag, itself if it is no tuple, or the first
    /// variant if there is but one.
    #[verifier::opaque]
    pub open spec fn tag_of(self, value: Value) -> (Value, Lowering) {
        match self.value_type(value) {
            Type::Primitive(_) => (value, self),
            Type::Tuple(fields) => if fields.items().len() == 0 {
                (Value::Error, self.fails())
            } else if self.value_type(value).tagged_union() is Some {
                self.pushed(Operation::IndexTuple { tuple: value, index: 0 }, fields.items()[0])
            } else {
                (Value::Integer(IntConstant::U8(0)), self)
            },
            _ => (Value::Error, self.fails()),
        }
    }

    /// The payloads of a value, taken as the variant `index`.
    #[verifier::opaque]
    pub open spec fn variant_of(self, value: Value, index: u32) -> (Value, Lowering) {
        match self.value_type(value).tagged_union() {
            Some((union, variants)) => if index < variants.len() {
                let (extracted, made) = self.pushed(
                    Operation::IndexTuple { tuple: value, index: 1 },
                    union,
                );
                made.pushed(Operation::Transmute(extracted), variants[index as int])
            } else {
                (Value::Error, self.fails())
            },
            None => match self.value_type(value) {
                Type::Tuple(_) => (value, self),
                _ => (Value::Error, self.fails()),
            },
        }
    }

    /// What a handle of the shared type points at; any other value itself.
    #[verifier::opaque]
    pub open spec fn dereferenced(self, value: Value, typ: TCType) -> (Value, Lowering) {
        match self.shared_layout(typ) {
            Some(layout) => self.pushed(Operation::Deref(value), layout),
            None => (value, self),
        }
    }

    /// A block for each of `count` variants.
    #[verifier::opaque]
    pub open spec fn with_case_blocks(self, count: int) -> (Edges, Lowering)
        decreases count,
    {
        if count <= 0 {
            (Seq::empty(), self)
        } else {
            let (edges, made) = self.with_case_blocks(count - 1);
            let (block, made) = made.with_block(Seq::empty());
            (edges.push(((count - 1) as u32, (block, None))), made)
        }
    }

    /// A switch on the variant of a value: the block of each variant, the block behind them all,
    /// and the state inside none of them.
    #[verifier::opaque]
    pub open spec fn variants_switched(self, value: Value, count: int) -> (Edges, BlockId, Lowering) {
        let (tag, made) = self.tag_of(value);
        let (otherwise, made) = made.with_block(Seq::empty());
        let (end, made) = made.with_block(Seq::empty());
        let (cases, made) = made.with_case_blocks(count);
        let switched = made.terminated(
            Terminator::Switch { int_value: tag, cases, otherwise: (otherwise, None), end },
        );
        (cases, end, switched.switched_to(otherwise).terminated(Terminator::Jmp(end, None)))
    }

    /// This state with the environment of a closure retained.
    #[verifier::opaque]
    pub open spec fn env_retained(self, closure: Value) -> Lowering {
        let (env, made) = self.pushed(
            Operation::IndexTuple { tuple: closure, index: 1 },
            Type::pointer(),
        );
        made.pushed(Operation::RetainClosureEnv(env), Type::unit()).1
    }

    /// This state with every handle that a value holds retained.
    pub open spec fn retained(self, value: Value, typ: TCType, depth: nat) -> Lowering
        decreases depth, 0nat, 0int,
    {
        if depth == 0 || !self.is_counted(typ) {
            self
        } else if self.shared_target(typ) is Some {
            self.pushed(Operation::RcRetain(value), Type::unit()).1
        } else if self.has_heap_env(typ) {
            self.env_retained(value)
        } else {
            match self.follow(typ) {
                TCType::Tuple(elements) => self.fields_retained(
                    value,
                    elements.items(),
                    elements.items().len() as int,
                    (depth - 1) as nat,
                ),
                _ => match self.aggregate_target(typ) {
                    Some((item, args)) => self.body_retained(value, item, args, (depth - 1) as nat),
                    None => self,
                },
            }
        }
    }

    /// This state with the handles of a field retained. A field without any is not even read.
    pub open spec fn field_retained(self, tuple: Value, index: u32, typ: TCType, depth: nat) -> Lowering
        decreases depth, 1nat, 0int,
    {
        if !self.is_counted(typ) {
            self
        } else {
            let (field, made) = self.pushed(Operation::IndexTuple { tuple, index }, self.layout(typ));
            made.retained(field, typ, depth)
        }
    }

    pub open spec fn fields_retained(
        self,
        tuple: Value,
        types: Seq<TCType>,
        count: int,
        depth: nat,
    ) -> Lowering
        decreases depth, 2nat, count,
    {
        if count <= 0 {
            self
        } else {
            self.fields_retained(tuple, types, count - 1, depth).field_retained(
                tuple,
                (count - 1) as u32,
                types[count - 1],
                depth,
            )
        }
    }

    /// This state with the handles of the payloads of the first `count` variants retained, each in
    /// the block of its variant.
    pub open spec fn variants_retained(
        self,
        value: Value,
        variants: Seq<(String, Vec<TCType>)>,
        edges: Edges,
        end: BlockId,
        count: int,
        depth: nat,
    ) -> Lowering
        decreases depth, 3nat, count,
    {
        if count <= 0 {
            self
        } else {
            let made = self.variants_retained(value, variants, edges, end, count - 1, depth);
            let inside = made.switched_to(edges[count - 1].1.0);
            let payloads = variants[count - 1].1@;
            let done = if payloads.len() == 0 {
                inside
            } else {
                let (variant, extracted) = inside.variant_of(value, (count - 1) as u32);
                extracted.fields_retained(variant, payloads, payloads.len() as int, depth)
            };
            done.terminated(Terminator::Jmp(end, None))
        }
    }

    /// This state with the handles of a value retained that is laid out as a user defined type: of
    /// its fields, or of the payloads of the variant it is.
    pub open spec fn body_retained(
        self,
        value: Value,
        item: TopLevelId,
        args: Seq<TCType>,
        depth: nat,
    ) -> Lowering
        decreases depth, 4nat, 0int,
    {
        match self.body_of(item, args) {
            Some(TypeBody::Product(fields)) => {
                let (variant, made) = self.variant_of(value, 0);
                made.fields_retained(
                    variant,
                    types_of_fields(fields@),
                    fields@.len() as int,
                    depth,
                )
            },
            Some(TypeBody::Sum(variants)) => {
                let (edges, end, made) = self.variants_switched(value, variants@.len() as int);
                made.variants_retained(
                    value,
                    variants@,
                    edges,
                    end,
                    variants@.len() as int,
                    depth,
                ).switched_to(end)
            },
            None => self,
        }
    }

    /// This state with every handle that a value holds retained.
    #[verifier::opaque]
    pub open spec fn value_retained(self, value: Value, typ: TCType) -> Lowering {
        self.retained(value, typ, NESTING_LIMIT as nat)
    }

    pub open spec fn is_place(self, expr: ExprId) -> bool {
        self.answers.context@.expr(expr) is Variable || self.answers.context@.expr(
            expr,
        ) is MemberAccess
    }

    /// This state with the handles retained that the place `expr` holds, whose value is `value`.
    #[verifier::opaque]
    pub open spec fn place_retained(self, expr: ExprId, value: Value) -> Lowering {
        let typ = self.expr_type(expr);
        if self.shared_target(typ) is Some {
            self.pushed(Operation::RcRetain(value), Type::unit()).1
        } else if self.has_heap_env(typ) {
            self.env_retained(value)
        } else if self.answers.copy_places@.contains(expr) {
            self.value_retained(value, self.follow(typ))
        } else {
            self
        }
    }

    /// This state with the value of `expr` retained, unless it is a new one.
    #[verifier::opaque]
    pub open spec fn retained_if_place(self, expr: ExprId, value: Value) -> Lowering {
        if self.is_place(expr) {
            self.place_retained(expr, value)
        } else {
            self
        }
    }

    /// The layouts of types.
    pub open spec fn layouts_of(self, types: Seq<TCType>) -> Seq<Type> {
        types.map_values(|typ: TCType| self.layout(typ))
    }

    /// A call of the release function of a shared type.
    #[verifier::opaque]
    pub open spec fn release_called(self, handle: Value, item: TopLevelId, args: Seq<TCType>) -> (
        Value,
        Lowering,
    ) {
        let (id, made) = self.id_of(
            TopLevelName { top_level_item: item, local_name_id: RELEASE_FUNCTION },
        );
        let (function, made) = if args.len() == 0 {
            made.definition_value(id, "release"@, release_signature())
        } else {
            made.pushed(Operation::Instantiate(id, made.layouts_of(args)), release_signature())
        };
        made.pushed(Operation::Call { function, arguments: seq![handle] }, Type::unit())
    }

    /// The release of the value of `expr`, if it is a handle of a shared type.
    #[verifier::opaque]
    pub open spec fn expr_released(self, value: Value, expr: ExprId) -> (Option<Value>, Lowering) {
        match self.shared_target(self.follow(self.expr_type(expr))) {
            Some((item, args)) => {
                let (call, made) = self.release_called(value, item, args);
                (Some(call), made)
            },
            None => (None, self),
        }
    }

    /// The type is the one this item defines, at `args`.
    pub open spec fn is_self(self, typ: TCType, args: Seq<TCType>) -> bool {
        self.shared_target(typ) == Some((self.top_level_id, args))
    }

    /// The last of the first `count` of `types` that is the type this item defines, at `args`.
    #[verifier::opaque]
    pub open spec fn last_self(self, types: Seq<TCType>, args: Seq<TCType>, count: int) -> Option<int>
        decreases count,
    {
        if count <= 0 {
            None
        } else if self.is_self(types[count - 1], args) {
            Some(count - 1)
        } else {
            self.last_self(types, args, count - 1)
        }
    }

    /// One of `variants` has a payload of the type this item defines, at `args`.
    #[verifier::opaque]
    pub open spec fn some_variant_is_self(
        self,
        variants: Seq<(String, Vec<TCType>)>,
        args: Seq<TCType>,
        count: int,
    ) -> bool
        decreases count,
    {
        count > 0 && (self.some_variant_is_self(variants, args, count - 1) || self.last_self(
            variants[count - 1].1@,
            args,
            variants[count - 1].1@.len() as int,
        ) is Some)
    }

    /// A cell of the type this item defines points at another one directly.
    #[verifier::opaque]
    pub open spec fn has_self_field(self, args: Seq<TCType>) -> bool {
        match self.body_of(self.top_level_id, args) {
            Some(TypeBody::Product(fields)) => self.last_self(
                types_of_fields(fields@),
                args,
                fields@.len() as int,
            ) is Some,
            Some(TypeBody::Sum(variants)) => self.some_variant_is_self(
                variants@,
                args,
                variants@.len() as int,
            ),
            None => false,
        }
    }

    /// This state with a field stored into `slot`.
    #[verifier::opaque]
    pub open spec fn field_deferred(
        self,
        tuple: Value,
        index: u32,
        typ: TCType,
        slot: Value,
    ) -> Lowering {
        let (field, made) = self.pushed(Operation::IndexTuple { tuple, index }, self.layout(typ));
        made.pushed(Operation::Store { pointer: slot, value: field }, Type::unit()).1
    }

    /// This state with every handle of a shared type that a value holds released.
    pub open spec fn released(self, value: Value, typ: TCType, depth: nat) -> Lowering
        decreases depth, 0nat, 0int,
    {
        if depth == 0 {
            self
        } else {
            match self.shared_target(typ) {
                Some((item, args)) => self.release_called(value, item, args).1,
                None => match self.follow(typ) {
                    TCType::Tuple(elements) => self.fields_released(
                        value,
                        elements.items(),
                        Seq::empty(),
                        None,
                        elements.items().len() as int,
                        (depth - 1) as nat,
                    ),
                    _ => match self.aggregate_target(typ) {
                        Some((item, args)) => self.body_released(
                            value,
                            item,
                            args,
                            None,
                            (depth - 1) as nat,
                        ),
                        None => self,
                    },
                },
            }
        }
    }

    pub open spec fn field_released(self, tuple: Value, index: u32, typ: TCType, depth: nat) -> Lowering
        decreases depth, 1nat, 0int,
    {
        if self.shared_target(typ) is None && self.aggregate_target(typ) is None && !(self.follow(
            typ,
        ) is Tuple) {
            self
        } else {
            let (field, made) = self.pushed(Operation::IndexTuple { tuple, index }, self.layout(typ));
            made.released(field, typ, depth)
        }
    }

    /// This state with the handles of the first `count` fields released. With a slot, the last
    /// field of the type this item defines is stored there instead.
    pub open spec fn fields_released(
        self,
        tuple: Value,
        types: Seq<TCType>,
        args: Seq<TCType>,
        slot: Option<Value>,
        count: int,
        depth: nat,
    ) -> Lowering
        decreases depth, 2nat, count,
    {
        if count <= 0 {
            self
        } else {
            let made = self.fields_released(tuple, types, args, slot, count - 1, depth);
            let index = (count - 1) as u32;
            let is_last = made.last_self(types, args, types.len() as int) == Some(count - 1);
            if slot is Some && is_last {
                made.field_deferred(tuple, index, types[count - 1], slot.unwrap())
            } else {
                made.field_released(tuple, index, types[count - 1], depth)
            }
        }
    }

    pub open spec fn variants_released(
        self,
        value: Value,
        variants: Seq<(String, Vec<TCType>)>,
        args: Seq<TCType>,
        slot: Option<Value>,
        edges: Edges,
        end: BlockId,
        count: int,
        depth: nat,
    ) -> Lowering
        decreases depth, 3nat, count,
    {
        if count <= 0 {
            self
        } else {
            let made = self.variants_released(
                value,
                variants,
                args,
                slot,
                edges,
                end,
                count - 1,
                depth,
            );
            let inside = made.switched_to(edges[count - 1].1.0);
            let payloads = variants[count - 1].1@;
            let done = if payloads.len() == 0 {
                inside
            } else {
                let (variant, extracted) = inside.variant_of(value, (count - 1) as u32);
                extracted.fields_released(
                    variant,
                    payloads,
                    args,
                    slot,
                    payloads.len() as int,
                    depth,
                )
            };
            done.terminated(Terminator::Jmp(end, None))
        }
    }

    /// This state with the handles of a value released that is laid out as a user defined type.
    pub open spec fn body_released(
        self,
        value: Value,
        item: TopLevelId,
        args: Seq<TCType>,
        slot: Option<Value>,
        depth: nat,
    ) -> Lowering
        decreases depth, 4nat, 0int,
    {
        match self.body_of(item, args) {
            Some(TypeBody::Product(fields)) => {
                let (variant, made) = self.variant_of(value, 0);
                made.fields_released(
                    variant,
                    types_of_fields(fields@),
                    args,
                    slot,
                    fields@.len() as int,
                    depth,
                )
            },
            Some(TypeBody::Sum(variants)) => {
                let (edges, end, made) = self.variants_switched(value, variants@.len() as int);
                made.variants_released(
                    value,
                    variants@,
                    args,
                    slot,
                    edges,
                    end,
                    variants@.len() as int,
                    depth,
                ).switched_to(end)
            },
            None => self,
        }
    }

    /// This state with the handles released that the cell of this item's type at `handle` holds.
    #[verifier::opaque]
    pub open spec fn cell_released(
        self,
        handle: Value,
        typ: TCType,
        args: Seq<TCType>,
        slot: Option<Value>,
    ) -> Lowering {
        let (inner, made) = self.dereferenced(handle, typ);
        made.body_released(inner, self.top_level_id, args, slot, NESTING_LIMIT as nat)
    }
}

fn list_field_types(fields: &Vec<(String, TCType)>) -> (types: Vec<TCType>)
    ensures
        types@ == types_of_fields(fields@),
{
    let mut types: Vec<TCType> = Vec::new();
    let mut i: usize = 0;
    while i < fields.len()
        invariant
            i <= fields.len(),
            types@ == types_of_fields(fields@.take(i as int)),
        decreases fields.len() - i,
    {
        types.push(fields[i].1.clone());
        assert(types@ =~= types_of_fields(fields@.take(i + 1)));
        i += 1;
    }
    assert(fields@.take(i as int) =~= fields@);
    types
}

fn unit() -> (typ: Type)
    ensures
        typ == Type::unit(),
{
    Type::Primitive(PrimitiveType::Unit)
}

fn pointer() -> (typ: Type)
    ensures
        typ == Type::pointer(),
{
    Type::Primitive(PrimitiveType::Pointer)
}

/// The layout of every release function.
pub fn release_function_mir_type() -> (typ: Type)
    ensures
        typ == release_signature(),
{
    let mut parameters: Vec<Type> = Vec::new();
    parameters.push(pointer());
    assert(parameters@ =~= seq![Type::pointer()]);
    Type::function_of(&parameters, Type::Primitive(PrimitiveType::NoClosureEnv), unit())
}

impl<'a> Builder<'a> {
    fn find_user_type(&self, typ: &TCType) -> (found: Option<(TopLevelId, Vec<TCType>)>)
        ensures
            match found {
                Some((item, args)) => self@.user_type(*typ) == Some((item, args@)),
                None => self@.user_type(*typ) is None,
            },
    {
        match self.follow(typ) {
            TCType::Application(constructor, args) => match self.follow(constructor) {
                TCType::UserDefined(Origin::TopLevelDefinition(name)) => Some(
                    (name.top_level_item, args.to_vec()),
                ),
                _ => None,
            },
            TCType::UserDefined(Origin::TopLevelDefinition(name)) => {
                let args: Vec<TCType> = Vec::new();
                assert(args@ =~= Seq::empty());
                Some((name.top_level_item, args))
            },
            _ => None,
        }
    }

    /// The shared type that a type is, with its arguments.
    pub fn shared_release_target(&self, typ: &TCType) -> (found: Option<(TopLevelId, Vec<TCType>)>)
        ensures
            match found {
                Some((item, args)) => self@.shared_target(*typ) == Some((item, args@)),
                None => self@.shared_target(*typ) is None,
            },
    {
        proof {
            reveal(Lowering::shared_target);
        }
        match self.find_user_type(typ) {
            Some((item, args)) => {
                if self.answers.database.defines_shared_type(item) {
                    Some((item, args))
                } else {
                    None
                }
            },
            None => None,
        }
    }

    /// The user defined type that is no shared one that a type is, with its arguments.
    pub fn aggregate_type_target(&self, typ: &TCType) -> (found: Option<(TopLevelId, Vec<TCType>)>)
        ensures
            match found {
                Some((item, args)) => self@.aggregate_target(*typ) == Some((item, args@)),
                None => self@.aggregate_target(*typ) is None,
            },
    {
        proof {
            reveal(Lowering::aggregate_target);
        }
        match self.find_user_type(typ) {
            Some((item, args)) => {
                if self.answers.database.defines_shared_type(item) {
                    None
                } else {
                    Some((item, args))
                }
            },
            None => None,
        }
    }

    pub fn tc_is_heap_env_closure(&self, typ: &TCType) -> (heap: bool)
        ensures
            heap == self@.has_heap_env(*typ),
    {
        match self.follow(typ) {
            TCType::Function(function) => match self.follow(&function.environment) {
                TCType::Primitive(crate::types::PrimitiveType::Pointer) => true,
                _ => false,
            },
            _ => false,
        }
    }

    fn find_body(&self, item: TopLevelId, args: &Vec<TCType>) -> (body: Option<&'a TypeBody>)
        ensures
            match body {
                Some(body) => self@.body_of(item, args@) == Some(*body),
                None => self@.body_of(item, args@) is None,
            },
    {
        let key = (item, TypeList::from_vec(args));
        let answers: &'a Answers = self.answers;
        answers.database.type_bodies.get(&key)
    }

    fn owns_count(&self, typ: &TCType, depth: u64) -> (owns: bool)
        ensures
            owns == self@.owns_count(*typ, depth as nat),
        decreases depth, 0nat,
    {
        if depth == 0 {
            return false;
        }
        if self.shared_release_target(typ).is_some() || self.tc_is_heap_env_closure(typ) {
            return true;
        }
        match self.follow(typ) {
            TCType::Tuple(elements) => {
                return self.some_owns_count(&elements.to_vec(), depth - 1);
            },
            _ => {},
        }
        match self.aggregate_type_target(typ) {
            Some((item, args)) => match self.find_body(item, &args) {
                Some(body) => match body {
                    TypeBody::Product(fields) => self.some_owns_count(
                        &list_field_types(fields),
                        depth - 1,
                    ),
                    TypeBody::Sum(variants) => self.some_variant_owns_count(variants, depth - 1),
                },
                None => false,
            },
            None => false,
        }
    }

    fn some_owns_count(&self, types: &Vec<TCType>, depth: u64) -> (owns: bool)
        ensures
            owns == self@.some_owns_count(types@, types@.len() as int, depth as nat),
        decreases depth, 1nat,
    {
        let mut owns = false;
        let mut i: usize = 0;
        while i < types.len()
            invariant
                i <= types.len(),
                owns == self@.some_owns_count(types@, i as int, depth as nat),
            decreases types.len() - i,
        {
            owns = owns || self.owns_count(&types[i], depth);
            i += 1;
        }
        owns
    }

    fn some_variant_owns_count(&self, variants: &Vec<(String, Vec<TCType>)>, depth: u64) -> (owns: bool)
        ensures
            owns == self@.some_variant_owns_count(variants@, variants@.len() as int, depth as nat),
        decreases depth, 2nat,
    {
        let mut owns = false;
        let mut i: usize = 0;
        while i < variants.len()
            invariant
                i <= variants.len(),
                owns == self@.some_variant_owns_count(variants@, i as int, depth as nat),
            decreases variants.len() - i,
        {
            owns = owns || self.some_owns_count(&variants[i].1, depth);
            i += 1;
        }
        owns
    }

    /// Whether a value of the type holds a handle to a counted cell. Asked before anything is
    /// emitted, so that copying any other value costs nothing.
    pub fn type_owns_refcount_inline(&self, typ: &TCType) -> (owns: bool)
        ensures
            owns == self@.is_counted(*typ),
    {
        proof {
            reveal(Lowering::is_counted);
        }
        self.owns_count(typ, NESTING_LIMIT)
    }

    /// The value that tells the variant of a value.
    pub fn extract_tag_value(&mut self, value: Value) -> (tag: Value)
        ensures
            (tag, final(self)@) == old(self)@.tag_of(value),
    {
        proof {
            reveal(Lowering::tag_of);
        }
        let typ = self.type_of_value(&value);
        match &typ {
            Type::Primitive(_) => value,
            Type::Tuple(fields) => {
                let fields = fields.to_vec();
                if fields.len() == 0 {
                    self.fail();
                    return Value::Error;
                }
                if typ.split_tagged_union().is_some() {
                    self.push_instruction(
                        Instruction::IndexTuple { tuple: value, index: 0 },
                        fields[0].clone(),
                    )
                } else {
                    Value::Integer(IntConstant::U8(0))
                }
            },
            _ => {
                self.fail();
                Value::Error
            },
        }
    }

    /// The payloads of a value, taken as the variant `index`. A value of a type with one variant
    /// holds them directly.
    pub fn extract_variant(&mut self, value: Value, index: u32) -> (variant: Value)
        ensures
            (variant, final(self)@) == old(self)@.variant_of(value, index),
    {
        proof {
            reveal(Lowering::variant_of);
        }
        let typ = self.type_of_value(&value);
        match typ.split_tagged_union() {
            Some((union, variants)) => {
                if (index as usize) < variants.len() {
                    let extracted = self.push_instruction(
                        Instruction::IndexTuple { tuple: value, index: 1 },
                        union,
                    );
                    self.push_instruction(
                        Instruction::Transmute(extracted),
                        variants[index as usize].clone(),
                    )
                } else {
                    self.fail();
                    Value::Error
                }
            },
            None => match &typ {
                Type::Tuple(_) => value,
                _ => {
                    self.fail();
                    Value::Error
                },
            },
        }
    }

    /// What a handle of the shared type points at; any other value itself.
    pub fn deref_if_shared(&mut self, value: Value, typ: &TCType) -> (inner: Value)
        ensures
            (inner, final(self)@) == old(self)@.dereferenced(value, *typ),
    {
        proof {
            reveal(Lowering::dereferenced);
        }
        match self.shared_inner_layout_of(typ) {
            Some(layout) => self.push_instruction(Instruction::Deref(value), layout),
            None => value,
        }
    }

    /// Start a switch on the variant of a value. Each variant gets a block, and all of them meet
    /// in one.
    fn switch_on_variants(&mut self, value: Value, count: usize) -> (result: (
        Vec<(u32, (BlockId, Option<Value>))>,
        BlockId,
    ))
        ensures
            (result.0@, result.1, final(self)@) == old(self)@.variants_switched(
                value,
                count as int,
            ),
            result.0@.len() == count,
    {
        proof {
            reveal(Lowering::variants_switched);
        }
        let tag = self.extract_tag_value(value);
        let otherwise = self.push_block_no_params();
        let end = self.push_block_no_params();
        let ghost before = self@;
        let mut cases: Vec<(u32, (BlockId, Option<Value>))> = Vec::new();
        let mut copies: Vec<(u32, (BlockId, Option<Value>))> = Vec::new();
        let mut i: usize = 0;
        proof {
            reveal(Lowering::with_case_blocks);
        }
        while i < count
            invariant
                i <= count,
                cases@.len() == i,
                copies@ == cases@,
                (cases@, self@) == before.with_case_blocks(i as int),
            decreases count - i,
        {
            proof {
                reveal(Lowering::with_case_blocks);
            }
            let block = self.push_block_no_params();
            cases.push((i as u32, (block, None)));
            copies.push((i as u32, (block, None)));
            i += 1;
        }
        self.terminate_block(
            TerminatorInstruction::Switch {
                int_value: tag,
                cases: copies,
                otherwise: (otherwise, None),
                end,
            },
        );
        // Every variant has a case.
        self.switch_to_block(otherwise);
        self.terminate_with_jump(end, None);
        (cases, end)
    }

    fn retain_closure_env(&mut self, closure: Value)
        ensures
            final(self)@ == old(self)@.env_retained(closure),
    {
        proof {
            reveal(Lowering::env_retained);
        }
        let env = self.push_instruction(
            Instruction::IndexTuple { tuple: closure, index: 1 },
            pointer(),
        );
        self.push_instruction(Instruction::RetainClosureEnv(env), unit());
    }

    fn retain_at(&mut self, value: Value, typ: &TCType, depth: u64)
        ensures
            final(self)@ == old(self)@.retained(value, *typ, depth as nat),
        decreases depth, 0nat,
    {
        if depth == 0 || !self.type_owns_refcount_inline(typ) {
            return ;
        }
        if self.shared_release_target(typ).is_some() {
            self.push_instruction(Instruction::RcRetain(value), unit());
            return ;
        }
        if self.tc_is_heap_env_closure(typ) {
            self.retain_closure_env(value);
            return ;
        }
        let elements: Option<Vec<TCType>> = match self.follow(typ) {
            TCType::Tuple(elements) => Some(elements.to_vec()),
            _ => None,
        };
        match elements {
            Some(elements) => {
                self.retain_fields(value, &elements, depth - 1);
            },
            None => match self.aggregate_type_target(typ) {
                Some((item, args)) => {
                    self.retain_inline_body(value, item, &args, depth - 1);
                },
                None => {},
            },
        }
    }

    fn retain_inline_field(&mut self, tuple: Value, index: u32, typ: &TCType, depth: u64)
        ensures
            final(self)@ == old(self)@.field_retained(tuple, index, *typ, depth as nat),
        decreases depth, 1nat,
    {
        if !self.type_owns_refcount_inline(typ) {
            return ;
        }
        let layout = self.convert_type(typ);
        let field = self.push_instruction(Instruction::IndexTuple { tuple, index }, layout);
        self.retain_at(field, typ, depth);
    }

    fn retain_fields(&mut self, tuple: Value, types: &Vec<TCType>, depth: u64)
        ensures
            final(self)@ == old(self)@.fields_retained(
                tuple,
                types@,
                types@.len() as int,
                depth as nat,
            ),
        decreases depth, 2nat,
    {
        let mut i: usize = 0;
        while i < types.len()
            invariant
                i <= types.len(),
                self@ == old(self)@.fields_retained(tuple, types@, i as int, depth as nat),
            decreases types.len() - i,
        {
            self.retain_inline_field(tuple, i as u32, &types[i], depth);
            i += 1;
        }
    }

    fn retain_variants(
        &mut self,
        value: Value,
        variants: &Vec<(String, Vec<TCType>)>,
        edges: &Vec<(u32, (BlockId, Option<Value>))>,
        end: BlockId,
        depth: u64,
    )
        requires
            edges@.len() == variants@.len(),
        ensures
            final(self)@ == old(self)@.variants_retained(
                value,
                variants@,
                edges@,
                end,
                variants@.len() as int,
                depth as nat,
            ),
        decreases depth, 3nat,
    {
        let mut i: usize = 0;
        while i < variants.len()
            invariant
                i <= variants.len(),
                edges@.len() == variants@.len(),
                self@ == old(self)@.variants_retained(
                    value,
                    variants@,
                    edges@,
                    end,
                    i as int,
                    depth as nat,
                ),
            decreases variants.len() - i,
        {
            self.switch_to_block(edges[i].1.0);
            if variants[i].1.len() > 0 {
                let variant = self.extract_variant(value, i as u32);
                self.retain_fields(variant, &variants[i].1, depth);
            }
            self.terminate_with_jump(end, None);
            i += 1;
        }
    }

    fn retain_inline_body(&mut self, value: Value, item: TopLevelId, args: &Vec<TCType>, depth: u64)
        ensures
            final(self)@ == old(self)@.body_retained(value, item, args@, depth as nat),
        decreases depth, 4nat,
    {
        match self.find_body(item, args) {
            Some(body) => match body {
                TypeBody::Product(fields) => {
                    let types = list_field_types(fields);
                    let variant = self.extract_variant(value, 0);
                    self.retain_fields(variant, &types, depth);
                },
                TypeBody::Sum(variants) => {
                    let (edges, end) = self.switch_on_variants(value, variants.len());
                    self.retain_variants(value, variants, &edges, end, depth);
                    self.switch_to_block(end);
                },
            },
            None => {},
        }
    }

    /// Retain every handle that a value holds which was copied out of a place. What this retains
    /// is what the drop of the copy releases: it ends at pointers, which own nothing, and at
    /// handles.
    pub fn retain_inline_value(&mut self, value: Value, typ: &TCType)
        ensures
            final(self)@ == old(self)@.value_retained(value, *typ),
    {
        proof {
            reveal(Lowering::value_retained);
        }
        self.retain_at(value, typ, NESTING_LIMIT);
    }

    pub fn is_place(&self, expr: ExprId) -> (place: bool)
        ensures
            place == self@.is_place(expr),
    {
        match self.answers.context.expr(expr) {
            Expr::Variable(_) => true,
            Expr::MemberAccess { .. } => true,
            _ => false,
        }
    }

    /// Retain the handles that a place holds.
    pub fn emit_place_retain(&mut self, expr: ExprId, value: Value)
        ensures
            final(self)@ == old(self)@.place_retained(expr, value),
    {
        proof {
            reveal(Lowering::place_retained);
        }
        let typ = self.type_of_expr(expr);
        if self.shared_release_target(&typ).is_some() {
            self.push_instruction(Instruction::RcRetain(value), unit());
        } else if self.tc_is_heap_env_closure(&typ) {
            self.retain_closure_env(value);
        } else if set_contains(&self.answers.copy_places, expr) {
            let typ = self.follow(&typ).clone();
            self.retain_inline_value(value, &typ);
        }
    }

    /// Retain the value of `expr` where it gets another owner. The value of a call or of a
    /// constructor has none yet, and is moved there.
    pub fn retain_if_shared_place(&mut self, expr: ExprId, value: Value)
        ensures
            final(self)@ == old(self)@.retained_if_place(expr, value),
    {
        proof {
            reveal(Lowering::retained_if_place);
        }
        if self.is_place(expr) {
            self.emit_place_retain(expr, value);
        }
    }

    pub fn convert_types(&self, types: &Vec<TCType>) -> (layouts: Vec<Type>)
        ensures
            layouts@ == self@.layouts_of(types@),
    {
        let mut layouts: Vec<Type> = Vec::new();
        let mut i: usize = 0;
        while i < types.len()
            invariant
                i <= types.len(),
                layouts@ == self@.layouts_of(types@.take(i as int)),
            decreases types.len() - i,
        {
            layouts.push(self.convert_type(&types[i]));
            assert(layouts@ =~= self@.layouts_of(types@.take(i + 1)));
            i += 1;
        }
        assert(types@.take(i as int) =~= types@);
        layouts
    }

    /// Call the release function of a shared type.
    pub fn emit_release_call(&mut self, handle: Value, item: TopLevelId, args: &Vec<TCType>) -> (call:
        Value)
        ensures
            (call, final(self)@) == old(self)@.release_called(handle, item, args@),
    {
        proof {
            reveal(Lowering::release_called);
        }
        let id = self.get_definition_id(&TopLevelName::new(item, RELEASE_FUNCTION));
        let function = if args.len() == 0 {
            self.make_definition_value(id, "release".to_owned(), release_function_mir_type())
        } else {
            let layouts = self.convert_types(args);
            self.push_instruction(
                Instruction::Instantiate(id, layouts),
                release_function_mir_type(),
            )
        };
        let mut arguments: Vec<Value> = Vec::new();
        arguments.push(handle);
        assert(arguments@ =~= seq![handle]);
        self.push_instruction(Instruction::Call { function, arguments }, unit())
    }

    /// Release the value of `expr`, which the caller owns behind a call.
    pub fn emit_shared_release_for_expr(&mut self, value: Value, expr: ExprId) -> (call: Option<Value>)
        ensures
            (call, final(self)@) == old(self)@.expr_released(value, expr),
    {
        proof {
            reveal(Lowering::expr_released);
        }
        let typ = self.type_of_expr(expr);
        let typ = self.follow(&typ).clone();
        match self.shared_release_target(&typ) {
            Some((item, args)) => Some(self.emit_release_call(value, item, &args)),
            None => None,
        }
    }

    fn is_self(&self, typ: &TCType, args: &Vec<TCType>) -> (own: bool)
        ensures
            own == self@.is_self(*typ, args@),
    {
        match self.shared_release_target(typ) {
            Some((item, own_args)) => item == self.top_level_id && same_types(&own_args, args),
            None => false,
        }
    }

    fn find_last_self(&self, types: &Vec<TCType>, args: &Vec<TCType>) -> (last: Option<usize>)
        ensures
            match last {
                Some(last) => self@.last_self(types@, args@, types@.len() as int) == Some(
                    last as int,
                ),
                None => self@.last_self(types@, args@, types@.len() as int) is None,
            },
    {
        let mut last: Option<usize> = None;
        let mut i: usize = 0;
        proof {
            reveal(Lowering::last_self);
        }
        while i < types.len()
            invariant
                i <= types.len(),
                match last {
                    Some(last) => self@.last_self(types@, args@, i as int) == Some(last as int),
                    None => self@.last_self(types@, args@, i as int) is None,
                },
            decreases types.len() - i,
        {
            proof {
                reveal(Lowering::last_self);
            }
            if self.is_self(&types[i], args) {
                last = Some(i);
            }
            i += 1;
        }
        last
    }

    fn some_variant_is_self(&self, variants: &Vec<(String, Vec<TCType>)>, args: &Vec<TCType>) -> (some:
        bool)
        ensures
            some == self@.some_variant_is_self(variants@, args@, variants@.len() as int),
    {
        let mut some = false;
        let mut i: usize = 0;
        proof {
            reveal(Lowering::some_variant_is_self);
        }
        while i < variants.len()
            invariant
                i <= variants.len(),
                some == self@.some_variant_is_self(variants@, args@, i as int),
            decreases variants.len() - i,
        {
            proof {
                reveal(Lowering::some_variant_is_self);
            }
            some = some || self.find_last_self(&variants[i].1, args).is_some();
            i += 1;
        }
        some
    }

    /// Whether a cell of the type this item defines points at another one directly. Then its
    /// release is a loop.
    pub fn type_has_self_release_field(&self, args: &Vec<TCType>) -> (found: bool)
        ensures
            found == self@.has_self_field(args@),
    {
        proof {
            reveal(Lowering::has_self_field);
        }
        match self.find_body(self.top_level_id, args) {
            Some(body) => match body {
                TypeBody::Product(fields) => self.find_last_self(
                    &list_field_types(fields),
                    args,
                ).is_some(),
                TypeBody::Sum(variants) => self.some_variant_is_self(variants, args),
            },
            None => false,
        }
    }

    fn defer_release_into_slot(&mut self, tuple: Value, index: u32, typ: &TCType, slot: Value)
        ensures
            final(self)@ == old(self)@.field_deferred(tuple, index, *typ, slot),
    {
        proof {
            reveal(Lowering::field_deferred);
        }
        let layout = self.convert_type(typ);
        let field = self.push_instruction(Instruction::IndexTuple { tuple, index }, layout);
        self.push_instruction(Instruction::Store { pointer: slot, value: field }, unit());
    }

    fn release_inline_value(&mut self, value: Value, typ: &TCType, depth: u64)
        ensures
            final(self)@ == old(self)@.released(value, *typ, depth as nat),
        decreases depth, 0nat,
    {
        if depth == 0 {
            return ;
        }
        match self.shared_release_target(typ) {
            Some((item, args)) => {
                self.emit_release_call(value, item, &args);
                return ;
            },
            None => {},
        }
        let elements: Option<Vec<TCType>> = match self.follow(typ) {
            TCType::Tuple(elements) => Some(elements.to_vec()),
            _ => None,
        };
        match elements {
            Some(elements) => {
                let args: Vec<TCType> = Vec::new();
                assert(args@ =~= Seq::empty());
                self.release_fields(value, &elements, &args, None, depth - 1);
            },
            None => match self.aggregate_type_target(typ) {
                Some((item, args)) => {
                    self.release_inline_body(value, item, &args, None, depth - 1);
                },
                None => {},
            },
        }
    }

    fn release_inline_field(&mut self, tuple: Value, index: u32, typ: &TCType, depth: u64)
        ensures
            final(self)@ == old(self)@.field_released(tuple, index, *typ, depth as nat),
        decreases depth, 1nat,
    {
        let is_tuple = match self.follow(typ) {
            TCType::Tuple(_) => true,
            _ => false,
        };
        if self.shared_release_target(typ).is_none() && self.aggregate_type_target(typ).is_none()
            && !is_tuple {
            return ;
        }
        let layout = self.convert_type(typ);
        let field = self.push_instruction(Instruction::IndexTuple { tuple, index }, layout);
        self.release_inline_value(field, typ, depth);
    }

    fn release_fields(
        &mut self,
        tuple: Value,
        types: &Vec<TCType>,
        args: &Vec<TCType>,
        slot: Option<Value>,
        depth: u64,
    )
        ensures
            final(self)@ == old(self)@.fields_released(
                tuple,
                types@,
                args@,
                slot,
                types@.len() as int,
                depth as nat,
            ),
        decreases depth, 2nat,
    {
        let mut i: usize = 0;
        while i < types.len()
            invariant
                i <= types.len(),
                self@ == old(self)@.fields_released(
                    tuple,
                    types@,
                    args@,
                    slot,
                    i as int,
                    depth as nat,
                ),
            decreases types.len() - i,
        {
            let is_last = match self.find_last_self(types, args) {
                Some(last) => last == i,
                None => false,
            };
            match slot {
                Some(slot) => {
                    if is_last {
                        self.defer_release_into_slot(tuple, i as u32, &types[i], slot);
                    } else {
                        self.release_inline_field(tuple, i as u32, &types[i], depth);
                    }
                },
                None => {
                    self.release_inline_field(tuple, i as u32, &types[i], depth);
                },
            }
            i += 1;
        }
    }

    fn release_variants(
        &mut self,
        value: Value,
        variants: &Vec<(String, Vec<TCType>)>,
        args: &Vec<TCType>,
        slot: Option<Value>,
        edges: &Vec<(u32, (BlockId, Option<Value>))>,
        end: BlockId,
        depth: u64,
    )
        requires
            edges@.len() == variants@.len(),
        ensures
            final(self)@ == old(self)@.variants_released(
                value,
                variants@,
                args@,
                slot,
                edges@,
                end,
                variants@.len() as int,
                depth as nat,
            ),
        decreases depth, 3nat,
    {
        let mut i: usize = 0;
        while i < variants.len()
            invariant
                i <= variants.len(),
                edges@.len() == variants@.len(),
                self@ == old(self)@.variants_released(
                    value,
                    variants@,
                    args@,
                    slot,
                    edges@,
                    end,
                    i as int,
                    depth as nat,
                ),
            decreases variants.len() - i,
        {
            self.switch_to_block(edges[i].1.0);
            if variants[i].1.len() > 0 {
                let variant = self.extract_variant(value, i as u32);
                self.release_fields(variant, &variants[i].1, args, slot, depth);
            }
            self.terminate_with_jump(end, None);
            i += 1;
        }
    }

    /// Release every handle of a shared type that a value holds which is laid out as a user
    /// defined type. With a slot, the last payload of the type this item defines is stored there
    /// instead, for a loop to release.
    fn release_inline_body(
        &mut self,
        value: Value,
        item: TopLevelId,
        args: &Vec<TCType>,
        slot: Option<Value>,
        depth: u64,
    )
        ensures
            final(self)@ == old(self)@.body_released(value, item, args@, slot, depth as nat),
        decreases depth, 4nat,
    {
        match self.find_body(item, args) {
            Some(body) => match body {
                TypeBody::Product(fields) => {
                    let types = list_field_types(fields);
                    let variant = self.extract_variant(value, 0);
                    self.release_fields(variant, &types, args, slot, depth);
                },
                TypeBody::Sum(variants) => {
                    let (edges, end) = self.switch_on_variants(value, variants.len());
                    self.release_variants(value, variants, args, slot, &edges, end, depth);
                    self.switch_to_block(end);
                },
            },
            None => {},
        }
    }

    /// Release the handles that the cell of this item's type at `handle` holds.
    pub fn build_release_glue(
        &mut self,
        handle: Value,
        typ: &TCType,
        args: &Vec<TCType>,
        slot: Option<Value>,
    )
        ensures
            final(self)@ == old(self)@.cell_released(handle, *typ, args@, slot),
    {
        proof {
            reveal(Lowering::cell_released);
        }
        let item = self.top_level_id;
        let inner = self.deref_if_shared(handle, typ);
        self.release_inline_body(inner, item, args, slot, NESTING_LIMIT);
    }
}

/// Whether two lists hold the same types.
pub fn same_types(a: &Vec<TCType>, b: &Vec<TCType>) -> (same: bool)
    ensures
        same == (a@ == b@),
{
    if a.len() != b.len() {
        return false;
    }
    let mut i: usize = 0;
    while i < a.len()
        invariant
            i <= a.len(),
            a@.len() == b@.len(),
            forall|j: int| 0 <= j < i ==> a@[j] == b@[j],
        decreases a.len() - i,
    {
        if a[i] != b[i] {
            return false;
        }
        i += 1;
    }
    assert(a@ =~= b@);
    true
}

} // verus!
