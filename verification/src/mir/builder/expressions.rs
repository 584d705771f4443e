//! How expressions are lowered.

use crate::collections::{map_get, set_contains};
use crate::cst::{list_at, Assignment, Definition, Expr, Integer};
#[allow(unused_imports)]
use crate::cst::{ContextState, ExprForm};
use crate::ids::{BlockId, ExprId, NameId, Origin, NESTING_LIMIT};
use crate::mir::builder::lambdas::{LambdaRole, LambdaShape};
use crate::mir::builder::patterns::integer;
#[allow(unused_imports)]
use crate::mir::builder::patterns::constant;
use crate::mir::builder::places::check_signed;
#[allow(unused_imports)]
use crate::mir::builder::places::{is_signed, values_of};
use crate::mir::builder::state::Builder;
#[allow(unused_imports)]
use crate::mir::builder::state::Lowering;
use crate::mir::{Instruction, PrimitiveType, TerminatorInstruction, Type, Value};
#[allow(unused_imports)]
use crate::mir::{Operation, Terminator};
use crate::types::IntegerKind;
use vstd::prelude::*;

verus! {

/// How the expressions inside an expression are lowered.
pub type Lower = spec_fn(Lowering, ExprId) -> (Value, Lowering);

/// How expressions that nest at most `depth` deep are lowered.
pub open spec fn recursion(depth: nat) -> Lower
    decreases depth, 1nat,
{
    |state: Lowering, expr: ExprId| state.lowered(expr, depth)
}

impl Lowering {
    /// The value of an expression, and the state once it is lowered.
    pub open spec fn lowered(self, expr: ExprId, depth: nat) -> (Value, Lowering)
        decreases depth, 0nat,
    {
        if depth == 0 {
            (Value::Error, self.fails())
        } else {
            self.value_lowered(recursion((depth - 1) as nat), expr)
        }
    }

    /// The values of the first `count` expressions, lowered in order.
    #[verifier::opaque]
    pub open spec fn all_lowered(self, lower: Lower, exprs: Seq<ExprId>, count: int) -> (
        Seq<Value>,
        Lowering,
    )
        decreases count,
    {
        if count <= 0 {
            (Seq::empty(), self)
        } else {
            let (values, made) = self.all_lowered(lower, exprs, count - 1);
            let (value, made) = lower(made, exprs[count - 1]);
            (values.push(value), made)
        }
    }

    /// Drops, which are run for what they do.
    pub open spec fn drops_lowered(self, lower: Lower, drops: Seq<ExprId>) -> Lowering {
        self.all_lowered(lower, drops, drops.len() as int).1
    }

    /// What the environment of a closure holds in a slot.
    #[verifier::opaque]
    pub open spec fn slot_extracted(self, closure: Value, index: u32) -> (Value, Lowering) {
        match self.value_type(closure) {
            Type::Function(function) => match function.environment.fields() {
                Some(fields) => if index < fields.len() {
                    let (environment, made) = self.pushed(
                        Operation::IndexTuple { tuple: closure, index: 1 },
                        function.environment,
                    );
                    made.pushed(
                        Operation::IndexTuple { tuple: environment, index },
                        fields[index as int],
                    )
                } else {
                    (Value::Error, self.fails())
                },
                None => (Value::Error, self.fails()),
            },
            _ => (Value::Error, self.fails()),
        }
    }

    /// The value of an expression, or of a slot of the closure it is. What is recorded for it
    /// follows: a handle that leaves the function is retained before the drops of the scope run,
    /// and the environment of a closure is released last.
    #[verifier::opaque]
    pub open spec fn value_lowered(self, lower: Lower, expr: ExprId) -> (Value, Lowering) {
        let context = self.answers.context@;
        let (value, made) = self.inner_lowered(lower, expr);
        let (value, made) = if context.closure_env_slots.contains_key(expr) {
            made.slot_extracted(value, context.closure_env_slots[expr])
        } else {
            (value, made)
        };
        let made = if context.escape_retains.contains(expr) {
            made.place_retained(expr, value)
        } else {
            made
        };
        let made = made.drops_lowered(
            lower,
            ContextState::drops_in(context.post_expr_drops, expr),
        );
        if context.closure_env_releases.contains(expr) {
            let (environment, made) = made.pushed(
                Operation::IndexTuple { tuple: value, index: 1 },
                Type::pointer(),
            );
            (value, made.pushed(Operation::ReleaseClosureEnv(environment), Type::unit()).1)
        } else {
            (value, made)
        }
    }

    /// The value of an expression, by its form.
    #[verifier::opaque]
    pub open spec fn inner_lowered(self, lower: Lower, expr: ExprId) -> (Value, Lowering) {
        match self.answers.context@.expr(expr) {
            ExprForm::Literal(literal) => self.literal_made(literal, expr),
            ExprForm::Variable(path) => self.variable_made(path),
            ExprForm::Sequence(items) => self.sequence_lowered(lower, items),
            ExprForm::Definition(definition) => self.definition_lowered(lower, definition, false),
            ExprForm::MemberAccess { object, .. } => self.member_lowered(lower, object, expr),
            ExprForm::Call { function, arguments } => self.call_lowered(
                lower,
                function,
                arguments,
                expr,
            ),
            ExprForm::Lambda { parameters, body, .. } => self.lambda_lowered(
                lower,
                LambdaShape {
                    expr,
                    body,
                    name_id: None,
                    is_global: false,
                    role: LambdaRole::Plain,
                },
                parameters,
                "lambda"@,
            ),
            ExprForm::If { condition, then_expr, else_expr } => self.if_lowered(
                lower,
                condition,
                then_expr,
                else_expr,
                expr,
            ),
            ExprForm::Match { .. } => self.match_lowered(lower, expr),
            ExprForm::Handle { expression, handler_name, handlers } => self.handle_lowered(
                lower,
                expression,
                handler_name,
                handlers,
                expr,
            ),
            ExprForm::Reference { rhs, .. } => self.reference_lowered(lower, rhs),
            ExprForm::TypeAnnotation { lhs } => lower(self, lhs),
            ExprForm::Constructor { fields } => self.constructor_lowered(lower, fields, expr),
            ExprForm::While { condition, body } => self.while_lowered(lower, condition, body),
            ExprForm::For { variable, start, end, body } => self.for_lowered(
                lower,
                variable,
                start,
                end,
                body,
            ),
            ExprForm::Break => self.exit_lowered(lower, expr, false),
            ExprForm::Continue => self.exit_lowered(lower, expr, true),
            ExprForm::Return { expression } => self.return_lowered(lower, expression),
            ExprForm::Assignment(assignment) => self.assignment_lowered(lower, assignment, expr),
            ExprForm::Extern(name) => self.pushed(
                Operation::Extern(name),
                self.c_layout(self.expr_type(expr)),
            ),
            ExprForm::ArrayLiteral(elements) => self.array_lowered(lower, elements, expr),
            ExprForm::Error | ExprForm::Quoted | ExprForm::Sugar => (Value::Error, self.fails()),
        }
    }

    #[verifier::opaque]
    pub open spec fn array_lowered(self, lower: Lower, elements: Seq<ExprId>, expr: ExprId) -> (
        Value,
        Lowering,
    ) {
        let layout = self.layout(self.expr_type(expr));
        let (values, made) = self.all_lowered(lower, elements, elements.len() as int);
        made.pushed(Operation::MakeArray(values), layout)
    }

    /// The value of a sequence is that of its last expression.
    #[verifier::opaque]
    pub open spec fn sequence_lowered(self, lower: Lower, items: Seq<ExprId>) -> (Value, Lowering) {
        let (values, made) = self.all_lowered(lower, items, items.len() as int);
        (
            if values.len() == 0 {
                Value::Unit
            } else {
                values.last()
            },
            made,
        )
    }

    /// The value a definition binds. The impl of `Copy` for a shared type is not the one that is
    /// written.
    #[verifier::opaque]
    pub open spec fn definition_value_lowered(
        self,
        lower: Lower,
        definition: Definition,
        name_id: Option<NameId>,
        is_global: bool,
    ) -> (Value, Lowering) {
        let impl_type = self.layout(self.pattern_type(definition.pattern));
        let is_copy = is_global && match name_id {
            Some(name) => self.is_shared_copy(name),
            None => false,
        };
        let method = if is_copy {
            Lowering::copy_method(impl_type)
        } else {
            None
        };
        match method {
            Some(method) => self.copy_impl_made(impl_type, method),
            None => match self.answers.context@.expr(definition.rhs) {
                ExprForm::Lambda { parameters, body, .. } => self.lambda_lowered(
                    lower,
                    LambdaShape {
                        expr: definition.rhs,
                        body,
                        name_id,
                        is_global,
                        role: LambdaRole::Plain,
                    },
                    parameters,
                    match name_id {
                        Some(name) => self.answers.context@.name(name),
                        None => "lambda"@,
                    },
                ),
                _ => lower(self, definition.rhs),
            },
        }
    }

    /// This state with the names of a definition bound.
    #[verifier::opaque]
    pub open spec fn definition_bound(self, definition: Definition, value: Value) -> Lowering {
        let bound = self.pattern_bound(definition.pattern, value);
        let bound = if self.answers.retain_bindings@.contains(definition.rhs) {
            bound.retained_if_place(definition.rhs, value)
        } else {
            bound
        };
        if definition.mutable {
            let names = self.pattern_names(definition.pattern);
            bound.made_mutable(names, names.len() as int)
        } else {
            bound
        }
    }

    /// The layout of a global.
    pub open spec fn global_layout(self, definition: Definition) -> Type {
        let typ = self.pattern_type(definition.pattern);
        if self.is_extern_rhs(definition.rhs) {
            self.c_layout(typ)
        } else {
            self.layout(typ)
        }
    }

    /// The definition starts a global that is no function.
    pub open spec fn starts_global(self, definition: Definition) -> bool {
        self.function is None && !(self.answers.context@.expr(definition.rhs) is Lambda)
    }

    /// A definition, of the item or inside an expression.
    #[verifier::opaque]
    pub open spec fn definition_lowered(
        self,
        lower: Lower,
        definition: Definition,
        is_global: bool,
    ) -> (Value, Lowering) {
        let name_id = self.pattern_name(definition.pattern);
        let text = match name_id {
            Some(name) => self.answers.context@.name(name),
            None => "global"@,
        };
        let scoped = if !is_global {
            self
        } else {
            match name_id {
                Some(name) => self.with_generics_of(self.generalized(name)),
                None => self.fails(),
            }
        };
        let starts = scoped.starts_global(definition);
        let started = if starts {
            scoped.definition_started(
                text,
                name_id,
                scoped.generic_count(),
                scoped.global_layout(definition),
            )
        } else {
            scoped
        };
        let (value, made) = started.definition_value_lowered(
            lower,
            definition,
            name_id,
            is_global,
        );
        let made = made.definition_bound(definition, value);
        (
            Value::Unit,
            if starts {
                made.terminated(Terminator::Result(value)).definition_finished(scoped).1
            } else {
                made
            },
        )
    }

    /// A member. One of a reference is a pointer into what it refers to.
    #[verifier::opaque]
    pub open spec fn member_lowered(self, lower: Lower, object: ExprId, expr: ExprId) -> (
        Value,
        Lowering,
    ) {
        let index = self.member_index(expr);
        let typ = self.follow(self.expr_type(object));
        let (value, made) = lower(self, object);
        match self.place_element(typ) {
            Some(element) => made.pushed(
                Operation::GetFieldPtr {
                    struct_ptr: value,
                    struct_type: self.layout(element),
                    index,
                },
                Type::pointer(),
            ),
            None => {
                let (tuple, made) = made.dereferenced(value, typ);
                let field = match made.value_type(tuple).fields() {
                    Some(fields) => if index < fields.len() {
                        fields[index as int]
                    } else {
                        Type::error()
                    },
                    None => Type::error(),
                };
                made.pushed(Operation::IndexTuple { tuple, index }, field)
            },
        }
    }

    /// This state in one more loop.
    pub open spec fn with_loop(self, header: BlockId, exit: BlockId) -> Lowering {
        Lowering { loop_targets: self.loop_targets.push((header, exit)), ..self }
    }

    /// This state out of its innermost loop.
    pub open spec fn without_loop(self) -> Lowering {
        Lowering {
            loop_targets: if self.loop_targets.len() > 0 {
                self.loop_targets.drop_last()
            } else {
                self.loop_targets
            },
            ..self
        }
    }

    #[verifier::opaque]
    pub open spec fn while_lowered(self, lower: Lower, condition: ExprId, body: ExprId) -> (
        Value,
        Lowering,
    ) {
        let (header, made) = self.with_block(Seq::empty());
        let (block, made) = made.with_block(Seq::empty());
        let (exit, made) = made.with_block(Seq::empty());
        let made = made.terminated(Terminator::Jmp(header, None)).switched_to(header);
        let (cond, made) = lower(made, condition);
        let made = made.terminated(
            Terminator::If { cond, then: block, else_: exit, end: exit },
        ).switched_to(block).with_loop(header, exit);
        let made = lower(made, body).1.without_loop().terminated(
            Terminator::Jmp(header, None),
        ).switched_to(exit);
        (Value::Unit, made)
    }

    /// A loop over a range. Its variable is the parameter of its header, and `continue` goes to
    /// the block that counts up.
    #[verifier::opaque]
    pub open spec fn counted_loop(
        self,
        lower: Lower,
        variable: NameId,
        start: Value,
        end: Value,
        body: ExprId,
        kind: IntegerKind,
    ) -> (Value, Lowering) {
        let typ = Type::Primitive(PrimitiveType::Int(kind));
        let (header, made) = self.with_block(seq![typ]);
        let (block, made) = made.with_block(Seq::empty());
        let (step, made) = made.with_block(Seq::empty());
        let (exit, made) = made.with_block(Seq::empty());
        let current = Value::Parameter(header, 0);
        let made = made.with_local(variable, current).terminated(
            Terminator::Jmp(header, Some(start)),
        ).switched_to(header);
        let (cond, made) = made.pushed(
            if is_signed(kind) {
                Operation::LessSigned(current, end)
            } else {
                Operation::LessUnsigned(current, end)
            },
            Type::boolean(),
        );
        let made = made.terminated(
            Terminator::If { cond, then: block, else_: exit, end: exit },
        ).switched_to(block).with_loop(step, exit);
        let made = lower(made, body).1.without_loop().terminated(
            Terminator::Jmp(step, None),
        ).switched_to(step);
        let one = Value::Integer(constant(Integer { magnitude: 1, negative: false }, kind));
        let (next, made) = made.pushed(Operation::AddInt(current, one), typ);
        let made = made.terminated(Terminator::Jmp(header, Some(next))).switched_to(exit);
        (Value::Unit, made)
    }

    #[verifier::opaque]
    pub open spec fn for_lowered(
        self,
        lower: Lower,
        variable: NameId,
        start: ExprId,
        end: ExprId,
        body: ExprId,
    ) -> (Value, Lowering) {
        match self.layout(self.expr_type(start)) {
            Type::Primitive(PrimitiveType::Int(kind)) => {
                let (start, made) = lower(self, start);
                let (end, made) = lower(made, end);
                made.counted_loop(lower, variable, start, end, body, kind)
            },
            _ => (Value::Error, self.fails()),
        }
    }

    /// A `break`, or a `continue`, which goes back to the start of the loop.
    #[verifier::opaque]
    pub open spec fn exit_lowered(self, lower: Lower, expr: ExprId, repeats: bool) -> (
        Value,
        Lowering,
    ) {
        let made = self.drops_lowered(
            lower,
            ContextState::drops_in(self.answers.context@.pre_exit_drops, expr),
        );
        (
            Value::Error,
            if made.loop_targets.len() == 0 {
                made.fails()
            } else {
                let (header, exit) = made.loop_targets.last();
                made.terminated(
                    Terminator::Jmp(
                        if repeats {
                            header
                        } else {
                            exit
                        },
                        None,
                    ),
                )
            },
        )
    }

    /// A `return`. The drops of the scopes it leaves run once its value is there.
    #[verifier::opaque]
    pub open spec fn return_lowered(self, lower: Lower, expression: ExprId) -> (Value, Lowering) {
        let (value, made) = lower(self, expression);
        let made = made.drops_lowered(
            lower,
            ContextState::drops_in(self.answers.context@.pre_exit_drops, expression),
        );
        (Value::Error, made.terminated(Terminator::Return(value)))
    }

    /// The drops of the edge an `if` without `else` takes where its condition fails, if it has
    /// such an edge.
    pub open spec fn else_drops(self, expr: ExprId) -> Option<Seq<ExprId>> {
        if self.answers.context@.implicit_else_drops.contains_key(expr) {
            Some(self.answers.context@.implicit_else_drops[expr])
        } else {
            None
        }
    }

    #[verifier::opaque]
    pub open spec fn if_lowered(
        self,
        lower: Lower,
        condition: ExprId,
        then_expr: ExprId,
        else_expr: Option<ExprId>,
        expr: ExprId,
    ) -> (Value, Lowering) {
        let drops = self.else_drops(expr);
        let layout = self.layout(self.expr_type(expr));
        let (cond, made) = lower(self, condition);
        let (then, made) = made.with_block(Seq::empty());
        let (else_, made) = made.with_block(Seq::empty());
        let (end, made) = if else_expr is Some || drops is Some {
            made.with_block(Seq::empty())
        } else {
            (else_, made)
        };
        let made = made.terminated(Terminator::If { cond, then, else_, end }).switched_to(then);
        let (value, made) = lower(made, then_expr);
        match else_expr {
            Some(else_expr) => {
                let made = made.terminated(Terminator::Jmp(end, Some(value))).switched_to(else_);
                let (value, made) = lower(made, else_expr);
                let made = made.terminated(Terminator::Jmp(end, Some(value))).switched_to(end);
                (Value::Parameter(end, 0), made.with_parameter(layout))
            },
            None => {
                let made = made.terminated(Terminator::Jmp(end, None));
                let made = match drops {
                    Some(drops) => made.switched_to(else_).drops_lowered(lower, drops).terminated(
                        Terminator::Jmp(end, None),
                    ),
                    None => made,
                };
                (Value::Unit, made.switched_to(end))
            },
        }
    }

    /// The value of a local.
    pub open spec fn local_value(self, name: NameId) -> (Value, Lowering) {
        if self.locals.contains_key(name) {
            (self.locals[name], self)
        } else {
            (Value::Error, self.fails())
        }
    }

    /// A pointer to the place of an expression.
    #[verifier::opaque]
    pub open spec fn pointer_lowered(self, lower: Lower, lhs: ExprId, depth: nat) -> (
        Value,
        Lowering,
    )
        decreases depth,
    {
        if depth == 0 {
            (Value::Error, self.fails())
        } else if self.shared_mut_layout(self.follow(self.expr_type(lhs))) is Some {
            lower(self, lhs)
        } else {
            match self.answers.context@.expr(lhs) {
                ExprForm::Variable(path) => match self.answers.context@.path_origin(path) {
                    Some(Origin::Local(name)) => self.local_value(name),
                    _ => (Value::Error, self.fails()),
                },
                ExprForm::Call { arguments, .. } => if arguments.len() > 0 {
                    lower(self, arguments[0].expr)
                } else {
                    (Value::Error, self.fails())
                },
                ExprForm::TypeAnnotation { lhs } => self.pointer_lowered(
                    lower,
                    lhs,
                    (depth - 1) as nat,
                ),
                ExprForm::MemberAccess { object, .. } => {
                    let (struct_ptr, made) = self.pointer_lowered(
                        lower,
                        object,
                        (depth - 1) as nat,
                    );
                    made.pushed(
                        Operation::GetFieldPtr {
                            struct_ptr,
                            struct_type: self.pointed_layout(object),
                            index: self.member_index(lhs),
                        },
                        Type::pointer(),
                    )
                },
                _ => (Value::Error, self.fails()),
            }
        }
    }

    /// A reference. What has a place is pointed at; what has none is put into a slot.
    #[verifier::opaque]
    pub open spec fn reference_lowered(self, lower: Lower, rhs: ExprId) -> (Value, Lowering) {
        match self.mutable_place(rhs) {
            Some(name) => self.local_value(name),
            None => if self.follow(self.expr_type(rhs)).referent(
                self.answers.bindings@,
            ) is Some {
                lower(self, rhs)
            } else if self.answers.context@.expr(rhs) is MemberAccess && self.is_addressable(rhs) {
                self.pointer_lowered(lower, rhs, NESTING_LIMIT as nat)
            } else {
                let (value, made) = lower(self, rhs);
                made.pushed(Operation::StackAlloc(value), Type::pointer())
            },
        }
    }

    /// The value a compound assignment stores. The place is found once.
    #[verifier::opaque]
    pub open spec fn compound_lowered(
        self,
        lower: Lower,
        pointer: Value,
        lhs: ExprId,
        rhs: ExprId,
        op: ExprId,
    ) -> (Value, Lowering) {
        let layout = self.assigned_layout(lhs);
        let (current, made) = self.pushed(Operation::Deref(pointer), layout);
        let (value, made) = lower(made, rhs);
        let (function, made) = lower(made, op);
        let (arguments, made) = made.with_evidence(op, function, seq![current, value]);
        made.called(function, arguments, layout)
    }

    /// The value an assignment stores, which has one more owner then. What a handle points at is
    /// overwritten by what the other handle points at.
    #[verifier::opaque]
    pub open spec fn stored_lowered(self, lower: Lower, lhs: ExprId, rhs: ExprId) -> (
        Value,
        Lowering,
    ) {
        let (value, made) = lower(self, rhs);
        match self.shared_mut_layout(self.follow(self.expr_type(lhs))) {
            Some(layout) => made.pushed(Operation::Deref(value), layout),
            None => (value, made.retained_if_place(rhs, value)),
        }
    }

    /// An assignment. The old value is dropped once the new one is there, and before it is stored.
    #[verifier::opaque]
    pub open spec fn assignment_lowered(self, lower: Lower, assignment: Assignment, expr: ExprId) -> (
        Value,
        Lowering,
    ) {
        let (pointer, made) = self.pointer_lowered(lower, assignment.lhs, NESTING_LIMIT as nat);
        let (value, made) = match assignment.op {
            Some(op) => made.compound_lowered(lower, pointer, assignment.lhs, assignment.rhs, op),
            None => made.stored_lowered(lower, assignment.lhs, assignment.rhs),
        };
        let made = made.drops_lowered(
            lower,
            ContextState::drops_in(self.answers.context@.pre_exit_drops, expr),
        );
        (Value::Unit, made.pushed(Operation::Store { pointer, value }, Type::unit()).1)
    }

    /// The first `count` fields as the layout of the type expects them.
    #[verifier::opaque]
    pub open spec fn fields_coerced(
        self,
        values: Seq<Value>,
        expected: Option<Seq<Type>>,
        count: int,
    ) -> (Seq<Value>, Lowering)
        decreases count,
    {
        if count <= 0 {
            (Seq::empty(), self)
        } else {
            let (coerced, made) = self.fields_coerced(values, expected, count - 1);
            let typ = match expected {
                Some(fields) => if count - 1 < fields.len() {
                    Some(fields[count - 1])
                } else {
                    None
                },
                None => None,
            };
            let (value, made) = made.field_coerced(values[count - 1], typ);
            (coerced.push(value), made)
        }
    }

    /// The values of the first `count` fields. The struct is one more owner of what it holds.
    #[verifier::opaque]
    pub open spec fn fields_lowered(
        self,
        lower: Lower,
        fields: Seq<(NameId, ExprId)>,
        count: int,
    ) -> (Seq<Value>, Lowering)
        decreases count,
    {
        if count <= 0 {
            (Seq::empty(), self)
        } else {
            let (values, made) = self.fields_lowered(lower, fields, count - 1);
            let (value, made) = lower(made, fields[count - 1].1);
            (values.push(value), made.retained_if_place(fields[count - 1].1, value))
        }
    }

    /// A value of a struct. Its fields are lowered in the order they are written in, and packed in
    /// the order they are declared in.
    #[verifier::opaque]
    pub open spec fn constructor_lowered(
        self,
        lower: Lower,
        fields: Seq<(NameId, ExprId)>,
        expr: ExprId,
    ) -> (Value, Lowering) {
        let (values, made) = self.fields_lowered(lower, fields, fields.len() as int);
        let ordered = values_of(
            made.fields_by_place(expr, fields, values, fields.len() as int),
        );
        let (values, made) = made.fields_coerced(
            ordered,
            made.layout(made.expr_type(expr)).fields(),
            ordered.len() as int,
        );
        made.pushed(
            Operation::MakeTuple(values),
            Type::tuple(made.types_of_values(values)),
        )
    }
}

impl<'a> Builder<'a> {
    /// Lower an expression.
    pub fn expression(&mut self, expr: ExprId, depth: u64) -> (value: Value)
        ensures
            (value, final(self)@) == (recursion(depth as nat))(old(self)@, expr),
        decreases depth, 0nat, 0nat, 0nat,
    {
        if depth == 0 {
            self.fail();
            return Value::Error;
        }
        self.lower_value(expr, depth - 1)
    }

    fn lower_value(&mut self, expr: ExprId, depth: u64) -> (value: Value)
        ensures
            (value, final(self)@) == old(self)@.value_lowered(recursion(depth as nat), expr),
        decreases depth, 9nat, 0nat, 0nat,
    {
        proof {
            reveal(Lowering::value_lowered);
        }
        let answers = self.answers;
        let value = self.expression_inner(expr, depth);
        let value = match map_get(&answers.context.closure_env_slots, expr) {
            Some(index) => self.extract_env_slot(value, *index),
            None => value,
        };
        if set_contains(&answers.context.escape_retains, expr) {
            self.emit_place_retain(expr, value);
        }
        let drops = list_at(&answers.context.post_expr_drops, expr);
        self.lower_all(&drops, depth);
        if set_contains(&answers.context.closure_env_releases, expr) {
            let environment = self.push_instruction(
                Instruction::IndexTuple { tuple: value, index: 1 },
                Type::Primitive(PrimitiveType::Pointer),
            );
            self.push_instruction(
                Instruction::ReleaseClosureEnv(environment),
                Type::Primitive(PrimitiveType::Unit),
            );
        }
        value
    }

    fn extract_env_slot(&mut self, closure: Value, index: u32) -> (value: Value)
        ensures
            (value, final(self)@) == old(self)@.slot_extracted(closure, index),
    {
        proof {
            reveal(Lowering::slot_extracted);
        }
        let environment = match self.type_of_value(&closure) {
            Type::Function(function) => Some(function.environment),
            _ => None,
        };
        let fields = match &environment {
            Some(environment) => environment.tuple_fields(),
            None => None,
        };
        match (environment, fields) {
            (Some(environment), Some(fields)) => {
                if (index as usize) < fields.len() {
                    let tuple = self.push_instruction(
                        Instruction::IndexTuple { tuple: closure, index: 1 },
                        environment,
                    );
                    let slot = fields[index as usize].clone();
                    return self.push_instruction(Instruction::IndexTuple { tuple, index }, slot);
                }
            },
            _ => {},
        }
        self.fail();
        Value::Error
    }

    fn expression_inner(&mut self, expr: ExprId, depth: u64) -> (value: Value)
        ensures
            (value, final(self)@) == old(self)@.inner_lowered(recursion(depth as nat), expr),
        decreases depth, 8nat, 0nat, 0nat,
    {
        proof {
            reveal(Lowering::inner_lowered);
        }
        let answers = self.answers;
        match answers.context.expr(expr) {
            Expr::Literal(literal) => self.literal(literal, expr),
            Expr::Variable(path) => self.variable(*path),
            Expr::Sequence(items) => self.sequence(items, depth),
            Expr::Definition(definition) => self.definition(*definition, false, depth),
            Expr::MemberAccess { object, .. } => self.member_access(*object, expr, depth),
            Expr::Call { function, arguments } => self.call(*function, arguments, expr, depth),
            Expr::Lambda { parameters, body, .. } => self.lambda(
                LambdaShape {
                    expr,
                    body: *body,
                    name_id: None,
                    is_global: false,
                    role: LambdaRole::Plain,
                },
                parameters,
                "lambda".to_owned(),
                depth,
            ),
            Expr::If { condition, then_expr, else_expr } => self.if_(
                *condition,
                *then_expr,
                *else_expr,
                expr,
                depth,
            ),
            Expr::Match { .. } => self.match_(expr, depth),
            Expr::Handle { expression, handler_name, handlers } => self.handle(
                *expression,
                *handler_name,
                handlers,
                expr,
                depth,
            ),
            Expr::Reference { rhs, .. } => self.reference(*rhs, depth),
            Expr::TypeAnnotation { lhs } => self.expression(*lhs, depth),
            Expr::Constructor { fields } => self.constructor(fields, expr, depth),
            Expr::While { condition, body } => self.while_(*condition, *body, depth),
            Expr::For { variable, start, end, body } => self.for_(
                *variable,
                *start,
                *end,
                *body,
                depth,
            ),
            Expr::Break => self.exit_loop(expr, false, depth),
            Expr::Continue => self.exit_loop(expr, true, depth),
            Expr::Return { expression } => self.return_(*expression, depth),
            Expr::Assignment(assignment) => self.assignment(*assignment, expr, depth),
            Expr::Extern(name) => {
                let typ = self.type_of_expr(expr);
                let layout = self.convert_c_function_type(&typ);
                self.push_instruction(Instruction::Extern(name.clone()), layout)
            },
            Expr::ArrayLiteral(elements) => self.array_literal(elements, expr, depth),
            Expr::Error => {
                self.fail();
                Value::Error
            },
            Expr::Quoted => {
                self.fail();
                Value::Error
            },
            Expr::Sugar => {
                self.fail();
                Value::Error
            },
        }
    }

    fn array_literal(&mut self, elements: &Vec<ExprId>, expr: ExprId, depth: u64) -> (value: Value)
        ensures
            (value, final(self)@) == old(self)@.array_lowered(
                recursion(depth as nat),
                elements@,
                expr,
            ),
        decreases depth, 2nat, 0nat, 0nat,
    {
        proof {
            reveal(Lowering::array_lowered);
        }
        let layout = self.expr_layout(expr);
        let values = self.lower_all(elements, depth);
        self.push_instruction(Instruction::MakeArray(values), layout)
    }

    fn sequence(&mut self, items: &Vec<ExprId>, depth: u64) -> (value: Value)
        ensures
            (value, final(self)@) == old(self)@.sequence_lowered(recursion(depth as nat), items@),
        decreases depth, 2nat, 0nat, 0nat,
    {
        proof {
            reveal(Lowering::sequence_lowered);
        }
        let values = self.lower_all(items, depth);
        if values.len() == 0 {
            Value::Unit
        } else {
            values[values.len() - 1]
        }
    }

    fn define_value(
        &mut self,
        definition: Definition,
        name_id: Option<NameId>,
        is_global: bool,
        depth: u64,
    ) -> (value: Value)
        ensures
            (value, final(self)@) == old(self)@.definition_value_lowered(
                recursion(depth as nat),
                definition,
                name_id,
                is_global,
            ),
        decreases depth, 4nat, 0nat, 0nat,
    {
        proof {
            reveal(Lowering::definition_value_lowered);
        }
        let answers = self.answers;
        let is_copy = is_global && match name_id {
            Some(name) => self.is_shared_copy_impl(name),
            None => false,
        };
        if is_copy {
            let impl_type = self.convert_pattern_type(definition.pattern);
            match self.build_shared_copy_impl(impl_type) {
                Some(value) => {
                    return value;
                },
                None => {},
            }
        }
        match answers.context.expr(definition.rhs) {
            Expr::Lambda { parameters, body, .. } => {
                let text = match name_id {
                    Some(name) => answers.context.name(name),
                    None => "lambda".to_owned(),
                };
                self.lambda(
                    LambdaShape {
                        expr: definition.rhs,
                        body: *body,
                        name_id,
                        is_global,
                        role: LambdaRole::Plain,
                    },
                    parameters,
                    text,
                    depth,
                )
            },
            _ => self.expression(definition.rhs, depth),
        }
    }

    fn bind_definition(&mut self, definition: Definition, value: Value)
        ensures
            final(self)@ == old(self)@.definition_bound(definition, value),
    {
        proof {
            reveal(Lowering::definition_bound);
        }
        let answers = self.answers;
        let names = self.collect_pattern_names(definition.pattern);
        self.bind_pattern(definition.pattern, value);
        if set_contains(&answers.retain_bindings, definition.rhs) {
            self.retain_if_shared_place(definition.rhs, value);
        }
        if definition.mutable {
            self.make_mutable(&names);
        }
    }

    fn find_global_layout(&self, definition: Definition) -> (layout: Type)
        ensures
            layout == self@.global_layout(definition),
    {
        let typ = self.type_of_pattern(definition.pattern);
        if self.rhs_is_extern(definition.rhs) {
            self.convert_c_function_type(&typ)
        } else {
            self.convert_type(&typ)
        }
    }

    /// Whether the definition starts a global that is no function.
    fn is_non_function_global(&self, definition: Definition) -> (starts: bool)
        ensures
            starts == self@.starts_global(definition),
    {
        self.current_function.is_none() && match self.answers.context.expr(definition.rhs) {
            Expr::Lambda { .. } => false,
            _ => true,
        }
    }

    /// Lower a definition.
    pub fn definition(&mut self, definition: Definition, is_global: bool, depth: u64) -> (value:
        Value)
        ensures
            (value, final(self)@) == old(self)@.definition_lowered(
                recursion(depth as nat),
                definition,
                is_global,
            ),
        decreases depth, 5nat, 0nat, 0nat,
    {
        proof {
            reveal(Lowering::definition_lowered);
        }
        let name_id = self.try_find_name(definition.pattern);
        let text = match name_id {
            Some(name) => self.answers.context.name(name),
            None => "global".to_owned(),
        };
        if is_global {
            match name_id {
                Some(name) => {
                    let typ = self.get_generalized(name);
                    self.set_generics_in_scope(&typ);
                },
                None => {
                    self.fail();
                },
            }
        }
        let ghost scoped = self@;
        if self.is_non_function_global(definition) {
            let count = self.generic_count();
            let layout = self.find_global_layout(definition);
            let outer = self.start_global(text, name_id, count, layout);
            let value = self.define_value(definition, name_id, is_global, depth);
            self.bind_definition(definition, value);
            self.terminate_block(TerminatorInstruction::Result(value));
            self.end_global(outer, Ghost(scoped));
        } else {
            let value = self.define_value(definition, name_id, is_global, depth);
            self.bind_definition(definition, value);
        }
        Value::Unit
    }

    fn member_access(&mut self, object: ExprId, expr: ExprId, depth: u64) -> (value: Value)
        ensures
            (value, final(self)@) == old(self)@.member_lowered(
                recursion(depth as nat),
                object,
                expr,
            ),
        decreases depth, 1nat, 0nat, 0nat,
    {
        proof {
            reveal(Lowering::member_lowered);
        }
        let index = self.member_access_index(expr);
        let typ = self.type_of_expr(object);
        let followed = self.follow(&typ).clone();
        let element = self.element_layout_of(object);
        let value = self.expression(object, depth);
        match element {
            Some(struct_type) => self.push_instruction(
                Instruction::GetFieldPtr { struct_ptr: value, struct_type, index },
                Type::Primitive(PrimitiveType::Pointer),
            ),
            None => {
                let tuple = self.deref_if_shared(value, &followed);
                let field = match self.type_of_value(&tuple).tuple_fields() {
                    Some(fields) => {
                        if (index as usize) < fields.len() {
                            fields[index as usize].clone()
                        } else {
                            Type::Primitive(PrimitiveType::Error)
                        }
                    },
                    None => Type::Primitive(PrimitiveType::Error),
                };
                self.push_instruction(Instruction::IndexTuple { tuple, index }, field)
            },
        }
    }

    fn enter_loop(&mut self, header: BlockId, exit: BlockId)
        ensures
            final(self)@ == old(self)@.with_loop(header, exit),
    {
        self.loop_targets.push((header, exit));
    }

    fn leave_loop(&mut self)
        ensures
            final(self)@ == old(self)@.without_loop(),
    {
        self.loop_targets.pop();
        assert(self@.loop_targets =~= old(self)@.without_loop().loop_targets);
    }

    fn while_(&mut self, condition: ExprId, body: ExprId, depth: u64) -> (value: Value)
        ensures
            (value, final(self)@) == old(self)@.while_lowered(
                recursion(depth as nat),
                condition,
                body,
            ),
        decreases depth, 1nat, 0nat, 0nat,
    {
        proof {
            reveal(Lowering::while_lowered);
        }
        let header = self.push_block_no_params();
        let block = self.push_block_no_params();
        let exit = self.push_block_no_params();
        self.terminate_with_jump(header, None);
        self.switch_to_block(header);
        let cond = self.expression(condition, depth);
        self.terminate_block(
            TerminatorInstruction::If { cond, then: block, else_: exit, end: exit },
        );
        self.switch_to_block(block);
        self.enter_loop(header, exit);
        self.expression(body, depth);
        self.leave_loop();
        self.terminate_with_jump(header, None);
        self.switch_to_block(exit);
        Value::Unit
    }

    fn push_typed_block(&mut self, typ: &Type) -> (block: BlockId)
        ensures
            (block, final(self)@) == old(self)@.with_block(seq![*typ]),
    {
        let mut types: Vec<Type> = Vec::new();
        types.push(typ.clone());
        assert(types@ =~= seq![*typ]);
        self.push_block(types)
    }

    fn count_loop(
        &mut self,
        variable: NameId,
        start: Value,
        end: Value,
        body: ExprId,
        kind: IntegerKind,
        depth: u64,
    ) -> (value: Value)
        ensures
            (value, final(self)@) == old(self)@.counted_loop(
                recursion(depth as nat),
                variable,
                start,
                end,
                body,
                kind,
            ),
        decreases depth, 1nat, 0nat, 0nat,
    {
        proof {
            reveal(Lowering::counted_loop);
        }
        let typ = Type::Primitive(PrimitiveType::Int(kind));
        let header = self.push_typed_block(&typ);
        let block = self.push_block_no_params();
        let step = self.push_block_no_params();
        let exit = self.push_block_no_params();
        let current = Value::Parameter(header, 0);
        self.set_local(variable, current);
        self.terminate_with_jump(header, Some(start));
        self.switch_to_block(header);
        let test = if check_signed(kind) {
            Instruction::LessSigned(current, end)
        } else {
            Instruction::LessUnsigned(current, end)
        };
        let cond = self.push_instruction(test, Type::Primitive(PrimitiveType::Bool));
        self.terminate_block(
            TerminatorInstruction::If { cond, then: block, else_: exit, end: exit },
        );
        self.switch_to_block(block);
        self.enter_loop(step, exit);
        self.expression(body, depth);
        self.leave_loop();
        self.terminate_with_jump(step, None);
        self.switch_to_block(step);
        let one = integer(Integer { magnitude: 1, negative: false }, kind);
        let next = self.push_instruction(Instruction::AddInt(current, one), typ);
        self.terminate_with_jump(header, Some(next));
        self.switch_to_block(exit);
        Value::Unit
    }

    fn for_(
        &mut self,
        variable: NameId,
        start: ExprId,
        end: ExprId,
        body: ExprId,
        depth: u64,
    ) -> (value: Value)
        ensures
            (value, final(self)@) == old(self)@.for_lowered(
                recursion(depth as nat),
                variable,
                start,
                end,
                body,
            ),
        decreases depth, 2nat, 0nat, 0nat,
    {
        proof {
            reveal(Lowering::for_lowered);
        }
        match self.expr_layout(start) {
            Type::Primitive(PrimitiveType::Int(kind)) => {
                let start = self.expression(start, depth);
                let end = self.expression(end, depth);
                self.count_loop(variable, start, end, body, kind, depth)
            },
            _ => {
                self.fail();
                Value::Error
            },
        }
    }

    fn exit_loop(&mut self, expr: ExprId, repeats: bool, depth: u64) -> (value: Value)
        ensures
            (value, final(self)@) == old(self)@.exit_lowered(
                recursion(depth as nat),
                expr,
                repeats,
            ),
        decreases depth, 2nat, 0nat, 0nat,
    {
        proof {
            reveal(Lowering::exit_lowered);
        }
        let drops = list_at(&self.answers.context.pre_exit_drops, expr);
        self.lower_all(&drops, depth);
        if self.loop_targets.len() == 0 {
            self.fail();
        } else {
            let (header, exit) = self.loop_targets[self.loop_targets.len() - 1];
            if repeats {
                self.terminate_with_jump(header, None);
            } else {
                self.terminate_with_jump(exit, None);
            }
        }
        Value::Error
    }

    fn return_(&mut self, expression: ExprId, depth: u64) -> (value: Value)
        ensures
            (value, final(self)@) == old(self)@.return_lowered(
                recursion(depth as nat),
                expression,
            ),
        decreases depth, 2nat, 0nat, 0nat,
    {
        proof {
            reveal(Lowering::return_lowered);
        }
        let drops = list_at(&self.answers.context.pre_exit_drops, expression);
        let value = self.expression(expression, depth);
        self.lower_all(&drops, depth);
        self.terminate_block(TerminatorInstruction::Return(value));
        Value::Error
    }

    fn find_else_drops(&self, expr: ExprId) -> (drops: Option<&'a Vec<ExprId>>)
        ensures
            match drops {
                Some(drops) => self@.else_drops(expr) == Some(drops@),
                None => self@.else_drops(expr) is None,
            },
    {
        let answers = self.answers;
        map_get(&answers.context.implicit_else_drops, expr)
    }

    fn if_(
        &mut self,
        condition: ExprId,
        then_expr: ExprId,
        else_expr: Option<ExprId>,
        expr: ExprId,
        depth: u64,
    ) -> (value: Value)
        ensures
            (value, final(self)@) == old(self)@.if_lowered(
                recursion(depth as nat),
                condition,
                then_expr,
                else_expr,
                expr,
            ),
        decreases depth, 2nat, 0nat, 0nat,
    {
        proof {
            reveal(Lowering::if_lowered);
        }
        let drops = self.find_else_drops(expr);
        let layout = self.expr_layout(expr);
        let cond = self.expression(condition, depth);
        let then = self.push_block_no_params();
        let else_ = self.push_block_no_params();
        let end = if else_expr.is_some() || drops.is_some() {
            self.push_block_no_params()
        } else {
            else_
        };
        self.terminate_block(TerminatorInstruction::If { cond, then, else_, end });
        self.switch_to_block(then);
        let value = self.expression(then_expr, depth);
        match else_expr {
            Some(else_expr) => {
                self.terminate_with_jump(end, Some(value));
                self.switch_to_block(else_);
                let value = self.expression(else_expr, depth);
                self.terminate_with_jump(end, Some(value));
                self.switch_to_block(end);
                self.push_parameter(layout);
                Value::Parameter(end, 0)
            },
            None => {
                self.terminate_with_jump(end, None);
                match drops {
                    Some(drops) => {
                        self.switch_to_block(else_);
                        self.lower_all(drops, depth);
                        self.terminate_with_jump(end, None);
                    },
                    None => {},
                }
                self.switch_to_block(end);
                Value::Unit
            },
        }
    }

    fn read_local(&mut self, name: NameId) -> (value: Value)
        ensures
            (value, final(self)@) == old(self)@.local_value(name),
    {
        let known = match map_get(&self.local_variables, name) {
            Some(value) => Some(*value),
            None => None,
        };
        match known {
            Some(value) => value,
            None => {
                self.fail();
                Value::Error
            },
        }
    }

    fn lhs_as_pointer(&mut self, lhs: ExprId, depth: u64, nesting: u64) -> (value: Value)
        ensures
            (value, final(self)@) == old(self)@.pointer_lowered(
                recursion(depth as nat),
                lhs,
                nesting as nat,
            ),
        decreases depth, 1nat, nesting, 0nat,
    {
        proof {
            reveal(Lowering::pointer_lowered);
        }
        if nesting == 0 {
            self.fail();
            return Value::Error;
        }
        if self.shared_mut_layout_of_expr(lhs).is_some() {
            return self.expression(lhs, depth);
        }
        let answers = self.answers;
        match answers.context.expr(lhs) {
            Expr::Variable(path) => match answers.context.path_origin(*path) {
                Some(Origin::Local(name)) => self.read_local(name),
                _ => {
                    self.fail();
                    Value::Error
                },
            },
            Expr::Call { arguments, .. } => {
                if arguments.len() > 0 {
                    self.expression(arguments[0].expr, depth)
                } else {
                    self.fail();
                    Value::Error
                }
            },
            Expr::TypeAnnotation { lhs } => self.lhs_as_pointer(*lhs, depth, nesting - 1),
            Expr::MemberAccess { object, .. } => {
                let struct_type = self.pointed_layout(*object);
                let index = self.member_access_index(lhs);
                let struct_ptr = self.lhs_as_pointer(*object, depth, nesting - 1);
                self.push_instruction(
                    Instruction::GetFieldPtr { struct_ptr, struct_type, index },
                    Type::Primitive(PrimitiveType::Pointer),
                )
            },
            _ => {
                self.fail();
                Value::Error
            },
        }
    }

    fn expr_is_reference(&self, expr: ExprId) -> (reference: bool)
        ensures
            reference == (self@.follow(self@.expr_type(expr)).referent(
                self@.answers.bindings@,
            ) is Some),
    {
        let typ = self.type_of_expr(expr);
        self.follow(&typ).reference_element(&self.answers.bindings).is_some()
    }

    fn reference(&mut self, rhs: ExprId, depth: u64) -> (value: Value)
        ensures
            (value, final(self)@) == old(self)@.reference_lowered(recursion(depth as nat), rhs),
        decreases depth, 2nat, 0nat, 0nat,
    {
        proof {
            reveal(Lowering::reference_lowered);
        }
        match self.find_mutable_place(rhs) {
            Some(name) => {
                return self.read_local(name);
            },
            None => {},
        }
        if self.expr_is_reference(rhs) {
            return self.expression(rhs, depth);
        }
        let is_member = match self.answers.context.expr(rhs) {
            Expr::MemberAccess { .. } => true,
            _ => false,
        };
        if is_member && self.reference_target_is_addressable(rhs) {
            return self.lhs_as_pointer(rhs, depth, NESTING_LIMIT);
        }
        let value = self.expression(rhs, depth);
        self.push_instruction(
            Instruction::StackAlloc(value),
            Type::Primitive(PrimitiveType::Pointer),
        )
    }

    fn lower_compound(
        &mut self,
        pointer: Value,
        lhs: ExprId,
        rhs: ExprId,
        op: ExprId,
        depth: u64,
    ) -> (value: Value)
        ensures
            (value, final(self)@) == old(self)@.compound_lowered(
                recursion(depth as nat),
                pointer,
                lhs,
                rhs,
                op,
            ),
        decreases depth, 1nat, 0nat, 0nat,
    {
        proof {
            reveal(Lowering::compound_lowered);
        }
        let layout = self.compound_assign_value_type(lhs);
        let current = self.push_instruction(Instruction::Deref(pointer), layout.clone());
        let value = self.expression(rhs, depth);
        let function = self.expression(op, depth);
        let mut operands: Vec<Value> = Vec::new();
        operands.push(current);
        operands.push(value);
        assert(operands@ =~= seq![current, value]);
        let arguments = self.append_evidence_argument(op, function, operands);
        self.emit_call(function, arguments, layout)
    }

    fn lower_stored(&mut self, lhs: ExprId, rhs: ExprId, depth: u64) -> (value: Value)
        ensures
            (value, final(self)@) == old(self)@.stored_lowered(
                recursion(depth as nat),
                lhs,
                rhs,
            ),
        decreases depth, 1nat, 0nat, 0nat,
    {
        proof {
            reveal(Lowering::stored_lowered);
        }
        let layout = self.shared_mut_layout_of_expr(lhs);
        let value = self.expression(rhs, depth);
        match layout {
            Some(layout) => self.push_instruction(Instruction::Deref(value), layout),
            None => {
                self.retain_if_shared_place(rhs, value);
                value
            },
        }
    }

    fn assignment(&mut self, assignment: Assignment, expr: ExprId, depth: u64) -> (value: Value)
        ensures
            (value, final(self)@) == old(self)@.assignment_lowered(
                recursion(depth as nat),
                assignment,
                expr,
            ),
        decreases depth, 2nat, 0nat, 0nat,
    {
        proof {
            reveal(Lowering::assignment_lowered);
        }
        let drops = list_at(&self.answers.context.pre_exit_drops, expr);
        let pointer = self.lhs_as_pointer(assignment.lhs, depth, NESTING_LIMIT);
        let value = match assignment.op {
            Some(op) => self.lower_compound(pointer, assignment.lhs, assignment.rhs, op, depth),
            None => self.lower_stored(assignment.lhs, assignment.rhs, depth),
        };
        self.lower_all(&drops, depth);
        self.push_instruction(
            Instruction::Store { pointer, value },
            Type::Primitive(PrimitiveType::Unit),
        );
        Value::Unit
    }

    fn coerce_fields(&mut self, values: &Vec<Value>, expected: &Option<Vec<Type>>) -> (coerced: Vec<
        Value,
    >)
        ensures
            (coerced@, final(self)@) == old(self)@.fields_coerced(
                values@,
                match *expected {
                    Some(fields) => Some(fields@),
                    None => None,
                },
                values@.len() as int,
            ),
    {
        let mut coerced: Vec<Value> = Vec::new();
        let ghost fields = match expected {
            Some(fields) => Some(fields@),
            None => None,
        };
        let mut i: usize = 0;
        proof {
            reveal(Lowering::fields_coerced);
        }
        while i < values.len()
            invariant
                i <= values.len(),
                fields == (match *expected {
                    Some(fields) => Some(fields@),
                    None => None,
                }),
                (coerced@, self@) == old(self)@.fields_coerced(values@, fields, i as int),
            decreases values.len() - i,
        {
            proof {
                reveal(Lowering::fields_coerced);
            }
            let typ = match expected {
                Some(fields) => {
                    if i < fields.len() {
                        Some(&fields[i])
                    } else {
                        None
                    }
                },
                None => None,
            };
            let value = self.coerce_field_to_pointer_env(values[i], typ);
            coerced.push(value);
            i += 1;
        }
        coerced
    }

    fn constructor(&mut self, fields: &Vec<(NameId, ExprId)>, expr: ExprId, depth: u64) -> (value:
        Value)
        ensures
            (value, final(self)@) == old(self)@.constructor_lowered(
                recursion(depth as nat),
                fields@,
                expr,
            ),
        decreases depth, 2nat, 0nat, 0nat,
    {
        proof {
            reveal(Lowering::constructor_lowered);
        }
        let values = self.lower_fields(fields, depth);
        let ordered = self.order_fields(expr, fields, &values);
        let expected = self.expr_layout(expr).tuple_fields();
        let values = self.coerce_fields(&ordered, &expected);
        let types = self.types_of_values(&values);
        self.push_instruction(Instruction::MakeTuple(values), Type::tuple_of(&types))
    }

    /// Lower the fields of a struct in order.
    fn lower_fields(&mut self, fields: &Vec<(NameId, ExprId)>, depth: u64) -> (values: Vec<Value>)
        ensures
            (values@, final(self)@) == old(self)@.fields_lowered(
                recursion(depth as nat),
                fields@,
                fields@.len() as int,
            ),
            values@.len() == fields@.len(),
        decreases depth, 1nat, 0nat, 0nat,
    {
        let mut values: Vec<Value> = Vec::new();
        let mut i: usize = 0;
        proof {
            reveal(Lowering::fields_lowered);
        }
        while i < fields.len()
            invariant
                i <= fields.len(),
                values@.len() == i,
                (values@, self@) == old(self)@.fields_lowered(
                    recursion(depth as nat),
                    fields@,
                    i as int,
                ),
            decreases fields.len() - i,
        {
            proof {
                reveal(Lowering::fields_lowered);
            }
            let value = self.expression(fields[i].1, depth);
            self.retain_if_shared_place(fields[i].1, value);
            values.push(value);
            i += 1;
        }
        values
    }

    /// Lower expressions in order.
    pub fn lower_all(&mut self, exprs: &Vec<ExprId>, depth: u64) -> (values: Vec<Value>)
        ensures
            (values@, final(self)@) == old(self)@.all_lowered(
                recursion(depth as nat),
                exprs@,
                exprs@.len() as int,
            ),
            values@.len() == exprs@.len(),
        decreases depth, 1nat, 0nat, 0nat,
    {
        let mut values: Vec<Value> = Vec::new();
        let mut i: usize = 0;
        proof {
            reveal(Lowering::all_lowered);
        }
        while i < exprs.len()
            invariant
                i <= exprs.len(),
                values@.len() == i,
                (values@, self@) == old(self)@.all_lowered(
                    recursion(depth as nat),
                    exprs@,
                    i as int,
                ),
            decreases exprs.len() - i,
        {
            proof {
                reveal(Lowering::all_lowered);
            }
            let value = self.expression(exprs[i], depth);
            values.push(value);
            i += 1;
        }
        values
    }
}

} // verus!
