//! What calls do with handles, and how values tell what they are.

#[allow(unused_imports)]
use crate::cst::{Argument, ExprForm};
#[allow(unused_imports)]
use crate::database::TypeBody;
#[allow(unused_imports)]
use crate::ids::{ExprId, TopLevelId, TopLevelName, NESTING_LIMIT, RELEASE_FUNCTION};
#[allow(unused_imports)]
use crate::mir::builder::calls::{implicit_places, instruction_id, Pending};
#[allow(unused_imports)]
use crate::mir::builder::counted::types_of_fields;
#[allow(unused_imports)]
use crate::mir::builder::state::Lowering;
#[allow(unused_imports)]
use crate::mir::{InstructionId, IntConstant, Operation, Pair, Type, Value};
#[allow(unused_imports)]
use crate::types::Type as TCType;
use vstd::prelude::*;

verus! {

/// The positions of the implicit arguments are listed in their order, and no others.
pub proof fn law_implicit_arguments_are_listed(arguments: Seq<Argument>, count: int, place: u32)
    requires
        0 <= count <= arguments.len() <= u32::MAX,
    ensures
        implicit_places(arguments, count).contains(place) <==> place < count
            && arguments[place as int].is_implicit,
        forall|i: int, j: int|
            0 <= i < j < implicit_places(arguments, count).len() ==> implicit_places(
                arguments,
                count,
            )[i] < implicit_places(arguments, count)[j],
        forall|i: int|
            0 <= i < implicit_places(arguments, count).len() ==> #[trigger] implicit_places(
                arguments,
                count,
            )[i] < count,
    decreases count,
{
    if count > 0 {
        law_implicit_arguments_are_listed(arguments, count - 1, place);
        let before = implicit_places(arguments, count - 1);
        let all = implicit_places(arguments, count);
        if before.contains(place) {
            let i = choose|i: int| 0 <= i < before.len() && before[i] == place;
            assert(all[i] == place);
        }
        if all.contains(place) {
            let i = choose|i: int| 0 <= i < all.len() && all[i] == place;
            if i < before.len() {
                assert(before[i] == place);
            }
        }
        if place == count - 1 && arguments[count - 1].is_implicit {
            assert(all[before.len() as int] == place);
        }
        assert forall|i: int, j: int| 0 <= i < j < all.len() implies all[i] < all[j] by {
            if j < before.len() {
                assert(before[i] < before[j]);
            } else {
                assert(before[i] < count - 1);
            }
        }
    }
}

impl Lowering {
    /// An argument is released behind the call if and only if the callee borrows it, it is a handle
    /// to a shared cell, and the caller has a count of its own to give back: because the handle is a
    /// new one, or because it was retained for the call. It is retained for the call where it is read
    /// from a place and the callee may suspend, and the retain is noted then.
    pub proof fn law_a_borrowed_handle_is_given_back(
        self,
        argument: Argument,
        value: Value,
        borrowed: bool,
        pure: bool,
        is_release: bool,
    )
        requires
            self.is_running(),
        ensures
            ({
                let (pending, after) = self.argument_counted(
                    argument,
                    value,
                    borrowed,
                    pure,
                    is_release,
                );
                let form = self.answers.context@.expr(argument.expr);
                let is_read = form is Variable || form is MemberAccess;
                let lent = !is_release && !argument.is_implicit && borrowed && self.shared_target(
                    self.expr_type(argument.expr),
                ) is Some;
                &&& pending is Some <==> lent && (!is_read || !pure)
                &&& pending matches Some((handle, expr, retain)) ==> {
                    &&& handle == value
                    &&& expr == argument.expr
                    &&& retain is Some <==> is_read
                    &&& retain matches Some(id) ==> self.does(
                        Operation::RcRetain(value),
                        Value::InstructionResult(id),
                        after,
                    )
                }
            }),
    {
        reveal(Lowering::argument_counted);
        self.pushing_does(Operation::RcRetain(value), Type::unit());
    }

    /// The release of a handle is a call of the release function of its type, at the arguments of
    /// the type, with the handle. Gives the function, and the state before the call.
    pub proof fn law_a_release_is_a_call_with_the_handle(
        self,
        handle: Value,
        item: TopLevelId,
        args: Seq<TCType>,
    ) -> (stages: (Value, Lowering))
        requires
            self.is_running(),
        ensures
            ({
                let (function, ready) = stages;
                let (value, after) = self.release_called(handle, item, args);
                let name = TopLevelName { top_level_item: item, local_name_id: RELEASE_FUNCTION };
                let (id, named) = self.id_of(name);
                &&& args.len() == 0 ==> function == Value::Definition(id) && ready.block
                    == self.block
                &&& args.len() > 0 ==> named.does(
                    Operation::Instantiate(id, named.layouts_of(args)),
                    function,
                    ready,
                )
                &&& ready.is_running()
                &&& ready.does(
                    Operation::Call { function, arguments: seq![handle] },
                    value,
                    after,
                )
            }),
    {
        reveal(Lowering::release_called);
        reveal(Lowering::id_of);
        reveal(Lowering::definition_value);
        let name = TopLevelName { top_level_item: item, local_name_id: RELEASE_FUNCTION };
        let (id, named) = self.id_of(name);
        let signature = crate::mir::builder::counted::release_signature();
        let instantiate = Operation::Instantiate(id, named.layouts_of(args));
        named.pushing_does(instantiate, signature);
        let (function, ready) = if args.len() == 0 {
            named.definition_value(id, "release"@, signature)
        } else {
            named.pushed(instantiate, signature)
        };
        ready.pushing_does(
            Operation::Call { function, arguments: seq![handle] },
            Type::unit(),
        );
        (function, ready)
    }

    /// What is left to release behind a call is released in turn, and a retain is paired with the
    /// release that gives it back. Gives the state before the last of them.
    pub proof fn law_what_is_pending_is_released_in_turn(
        self,
        pending: Seq<Pending>,
        call: Option<InstructionId>,
        implicit_args: Seq<u32>,
        count: int,
    ) -> (before: Lowering)
        requires
            0 < count <= pending.len(),
        ensures
            ({
                let (value, expr, retain) = pending[count - 1];
                let after = self.releases_made(pending, call, implicit_args, count);
                let target = before.shared_target(before.follow(before.expr_type(expr)));
                &&& before == self.releases_made(pending, call, implicit_args, count - 1)
                &&& target is None ==> after == before
                &&& target matches Some((item, args)) ==> {
                    let (release, released) = before.release_called(value, item, args);
                    after == if retain is Some && call is Some && release is InstructionResult {
                        released.with_borrow_pair(
                            Pair {
                                retain: retain->0,
                                release_call: release->InstructionResult_0,
                                call: call->0,
                                implicit_args,
                            },
                        )
                    } else {
                        released
                    }
                }
            }),
    {
        reveal_with_fuel(Lowering::releases_made, 2);
        reveal(Lowering::expr_released);
        self.releases_made(pending, call, implicit_args, count - 1)
    }

    /// What is read from a place is retained as what it is: a handle to a shared cell, a closure by
    /// its environment, and a value that is copied by the handles in it.
    pub proof fn law_what_is_read_is_retained_as_what_it_is(self, expr: ExprId, value: Value) -> (
        gone: Value)
        requires
            self.is_running(),
        ensures
            ({
                let typ = self.expr_type(expr);
                let after = self.place_retained(expr, value);
                if self.shared_target(typ) is Some {
                    self.does(Operation::RcRetain(value), gone, after)
                } else if self.has_heap_env(typ) {
                    after == self.env_retained(value)
                } else if self.answers.copy_places@.contains(expr) {
                    after == self.value_retained(value, self.follow(typ))
                } else {
                    after == self
                }
            }),
    {
        reveal(Lowering::place_retained);
        self.pushing_does(Operation::RcRetain(value), Type::unit());
        self.pushed(Operation::RcRetain(value), Type::unit()).0
    }

    /// The tag of a value is the value itself if that is a plain one, and its first field if it is
    /// tagged. A value that is not tagged is of the first variant.
    pub proof fn law_a_tag_tells_the_variant(self, value: Value)
        requires
            self.is_running(),
        ensures
            ({
                let (tag, after) = self.tag_of(value);
                match self.value_type(value) {
                    Type::Primitive(_) => (tag, after) == (value, self),
                    Type::Tuple(fields) => {
                        &&& fields.items().len() > 0 && self.value_type(value).tagged_union() is Some
                            ==> self.does(
                            Operation::IndexTuple { tuple: value, index: 0 },
                            tag,
                            after,
                        )
                        &&& fields.items().len() > 0 && self.value_type(value).tagged_union() is None
                            ==> (tag, after) == (Value::Integer(IntConstant::U8(0)), self)
                    },
                    _ => true,
                }
            }),
    {
        reveal(Lowering::tag_of);
        match self.value_type(value) {
            Type::Tuple(fields) => {
                let take = Operation::IndexTuple { tuple: value, index: 0 };
                self.pushing_does(take, fields.items()[0]);
            },
            _ => {},
        }
    }

    /// The payloads of a tagged value are its second field, taken as those of the variant, and those
    /// of one that is not tagged are the value itself. Gives what is taken out, and the state then.
    pub proof fn law_payloads_lie_behind_the_tag(self, value: Value, index: u32) -> (stages: (
        Value,
        Lowering,
    ))
        requires
            self.is_running(),
        ensures
            ({
                let (extracted, taken) = stages;
                let (payloads, after) = self.variant_of(value, index);
                match self.value_type(value).tagged_union() {
                    Some((_, variants)) => index < variants.len() ==> {
                        &&& self.does(
                            Operation::IndexTuple { tuple: value, index: 1 },
                            extracted,
                            taken,
                        )
                        &&& taken.does(Operation::Transmute(extracted), payloads, after)
                        &&& after.function.unwrap().instruction_result_types.last()
                            == variants[index as int]
                    },
                    None => self.value_type(value) is Tuple ==> (payloads, after) == (value, self),
                }
            }),
    {
        reveal(Lowering::variant_of);
        match self.value_type(value).tagged_union() {
            Some((union, variants)) => {
                let take = Operation::IndexTuple { tuple: value, index: 1 };
                let (extracted, taken) = self.pushed(take, union);
                self.pushing_does(take, union);
                let cast = Operation::Transmute(extracted);
                taken.pushing_does(cast, variants[index as int]);
                reveal(Lowering::pushed);
                (extracted, taken)
            },
            None => (value, self),
        }
    }

    /// A slot of a closure is taken out of the environment, which is the second part of the closure.
    /// Gives the environment, and the state then.
    pub proof fn law_a_slot_lies_in_the_environment(self, closure: Value, index: u32) -> (stages: (
        Value,
        Lowering,
    ))
        requires
            self.is_running(),
            self.value_type(closure) matches Type::Function(function)
                && function.environment.fields() matches Some(fields) && index < fields.len(),
        ensures
            ({
                let (environment, taken) = stages;
                let (slot, after) = self.slot_extracted(closure, index);
                &&& self.does(
                    Operation::IndexTuple { tuple: closure, index: 1 },
                    environment,
                    taken,
                )
                &&& taken.does(Operation::IndexTuple { tuple: environment, index }, slot, after)
            }),
    {
        reveal(Lowering::slot_extracted);
        let function = self.value_type(closure)->Function_0;
        let fields = function.environment.fields().unwrap();
        let take = Operation::IndexTuple { tuple: closure, index: 1 };
        self.pushing_does(take, function.environment);
        let (environment, taken) = self.pushed(take, function.environment);
        let slot = Operation::IndexTuple { tuple: environment, index };
        taken.pushing_does(slot, fields[index as int]);
        (environment, taken)
    }

    /// A value of the type holds a handle, as far as `depth` levels show: it is one, it is a closure
    /// with an environment that is counted, or one of its parts holds one.
    pub open spec fn holds_a_handle(self, typ: TCType, depth: nat) -> bool
        decreases depth,
    {
        &&& depth > 0
        &&& {
            ||| self.shared_target(typ) is Some
            ||| self.has_heap_env(typ)
            ||| match self.follow(typ) {
                TCType::Tuple(elements) => exists|i: int|
                    0 <= i < elements.items().len() && self.holds_a_handle(
                        #[trigger] elements.items()[i],
                        (depth - 1) as nat,
                    ),
                _ => match self.aggregate_target(typ) {
                    Some((item, args)) => match self.body_of(item, args) {
                        Some(TypeBody::Product(fields)) => exists|i: int|
                            0 <= i < fields@.len() && self.holds_a_handle(
                                (#[trigger] fields@[i]).1,
                                (depth - 1) as nat,
                            ),
                        Some(TypeBody::Sum(variants)) => exists|i: int, j: int|
                            0 <= i < variants@.len() && 0 <= j < variants@[i].1@.len()
                                && self.holds_a_handle(
                                #[trigger] variants@[i].1@[j],
                                (depth - 1) as nat,
                            ),
                        None => false,
                    },
                    None => false,
                },
            }
        }
    }

    proof fn counted_types_hold_handles(self, typ: TCType, depth: nat)
        ensures
            self.owns_count(typ, depth) == self.holds_a_handle(typ, depth),
        decreases depth, 0nat, 0int,
    {
        if depth > 0 {
            let inner = (depth - 1) as nat;
            match self.follow(typ) {
                TCType::Tuple(elements) => {
                    let items = elements.items();
                    self.some_hold_handles(items, items.len() as int, inner);
                },
                _ => match self.aggregate_target(typ) {
                    Some((item, args)) => match self.body_of(item, args) {
                        Some(TypeBody::Product(fields)) => {
                            let types = types_of_fields(fields@);
                            self.some_hold_handles(types, fields@.len() as int, inner);
                            if self.some_owns_count(types, fields@.len() as int, inner) {
                                let i = choose|i: int|
                                    0 <= i < fields@.len() && self.holds_a_handle(
                                        #[trigger] types[i],
                                        inner,
                                    );
                                assert(self.holds_a_handle(fields@[i].1, inner));
                            }
                            if exists|i: int|
                                0 <= i < fields@.len() && self.holds_a_handle(
                                    (#[trigger] fields@[i]).1,
                                    inner,
                                ) {
                                let i = choose|i: int|
                                    0 <= i < fields@.len() && self.holds_a_handle(
                                        (#[trigger] fields@[i]).1,
                                        inner,
                                    );
                                assert(self.holds_a_handle(types[i], inner));
                            }
                        },
                        Some(TypeBody::Sum(variants)) => {
                            self.some_variants_hold_handles(
                                variants@,
                                variants@.len() as int,
                                inner,
                            );
                        },
                        None => {},
                    },
                    None => {},
                },
            }
        }
    }

    proof fn some_hold_handles(self, types: Seq<TCType>, count: int, depth: nat)
        requires
            count <= types.len(),
        ensures
            self.some_owns_count(types, count, depth) <==> exists|i: int|
                0 <= i < count && self.holds_a_handle(#[trigger] types[i], depth),
        decreases depth, 1nat, count,
    {
        if count > 0 {
            self.some_hold_handles(types, count - 1, depth);
            self.counted_types_hold_handles(types[count - 1], depth);
            assert(types[count - 1] == types[count - 1]);
            if self.holds_a_handle(types[count - 1], depth) {
                assert(self.some_owns_count(types, count, depth));
            }
        }
    }

    proof fn some_variants_hold_handles(
        self,
        variants: Seq<(String, Vec<TCType>)>,
        count: int,
        depth: nat,
    )
        requires
            count <= variants.len(),
        ensures
            self.some_variant_owns_count(variants, count, depth) <==> exists|i: int, j: int|
                0 <= i < count && 0 <= j < variants[i].1@.len() && self.holds_a_handle(
                    #[trigger] variants[i].1@[j],
                    depth,
                ),
        decreases depth, 2nat, count,
    {
        if count > 0 {
            self.some_variants_hold_handles(variants, count - 1, depth);
            let last = variants[count - 1].1@;
            self.some_hold_handles(last, last.len() as int, depth);
            if self.some_owns_count(last, last.len() as int, depth) {
                let j = choose|j: int|
                    0 <= j < last.len() && self.holds_a_handle(#[trigger] last[j], depth);
                assert(self.holds_a_handle(variants[count - 1].1@[j], depth));
            }
            if self.some_variant_owns_count(variants, count - 1, depth) {
                let (i, j) = choose|i: int, j: int|
                    0 <= i < count - 1 && 0 <= j < variants[i].1@.len() && self.holds_a_handle(
                        #[trigger] variants[i].1@[j],
                        depth,
                    );
                assert(self.holds_a_handle(variants[i].1@[j], depth));
            }
        }
    }

    /// Values of a type are counted if and only if they hold handles.
    pub proof fn law_what_holds_handles_is_counted(self, typ: TCType)
        ensures
            self.is_counted(typ) <==> self.holds_a_handle(typ, NESTING_LIMIT as nat),
    {
        reveal(Lowering::is_counted);
        self.counted_types_hold_handles(typ, NESTING_LIMIT as nat);
    }

    /// A user defined type is either shared or an aggregate, by how it is defined, and another type
    /// is neither.
    pub proof fn law_a_type_is_shared_or_an_aggregate(self, typ: TCType)
        ensures
            ({
                let own = self.user_type(typ);
                &&& self.shared_target(typ) is Some <==> own is Some
                    && self.answers.database.is_shared_type(own.unwrap().0)
                &&& self.aggregate_target(typ) is Some <==> own is Some
                    && !self.answers.database.is_shared_type(own.unwrap().0)
                &&& self.shared_target(typ) is Some ==> self.shared_target(typ) == own
                &&& self.aggregate_target(typ) is Some ==> self.aggregate_target(typ) == own
            }),
    {
        reveal(Lowering::shared_target);
        reveal(Lowering::aggregate_target);
    }

    /// The part that a chain goes on with is the last that is of the type itself.
    pub proof fn law_a_chain_goes_on_with_the_last_of_its_kind(
        self,
        types: Seq<TCType>,
        args: Seq<TCType>,
        count: int,
    )
        requires
            0 <= count <= types.len(),
        ensures
            ({
                let is_own = |i: int| self.shared_target(types[i]) == Some(
                    (self.top_level_id, args),
                );
                match self.last_self(types, args, count) {
                    Some(last) => 0 <= last < count && is_own(last) && forall|i: int|
                        last < i < count ==> !#[trigger] is_own(i),
                    None => forall|i: int| 0 <= i < count ==> !#[trigger] is_own(i),
                }
            }),
        decreases count,
    {
        reveal_with_fuel(Lowering::last_self, 2);
        if count > 0 {
            self.law_a_chain_goes_on_with_the_last_of_its_kind(types, args, count - 1);
            let is_own = |i: int| self.shared_target(types[i]) == Some((self.top_level_id, args));
            assert(is_own(count - 1) == self.is_self(types[count - 1], args));
        }
    }
}

} // verus!
