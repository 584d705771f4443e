//! What is retained of a value that is copied is what is released of it where it dies.

#[allow(unused_imports)]
use crate::database::TypeBody;
#[allow(unused_imports)]
use crate::ids::{BlockId, TopLevelId, TopLevelName, NESTING_LIMIT, RELEASE_FUNCTION};
#[allow(unused_imports)]
use crate::mir::builder::counted::{release_signature, types_of_fields, Edges};
#[allow(unused_imports)]
use crate::mir::builder::laws::{
    carried, keeps_dereferenced, keeps_field_deferred, keeps_retained, keeps_switched_to,
    keeps_terminated, keeps_variant_of, keeps_variants_switched, keeps_with_block, keeps_with_case_blocks, kept, kept_is_reflexive, kept_is_transitive,
    releasing_a_field_keeps, releasing_fields_keeps, releasing_keeps, releasing_variants_keeps,
    retaining_a_field_keeps, retaining_fields_keeps, retaining_variants_keeps, INSTRUCTION_LIMIT,
};
#[allow(unused_imports)]
use crate::mir::builder::state::{Lowering, TCType};
#[allow(unused_imports)]
use crate::mir::{BlockState, Operation, Terminator, Type, Value};
#[allow(unused_imports)]
use vstd::multiset::Multiset;
use vstd::prelude::*;

verus! {

/// A step into a value: which variant it is taken as, and the field or payload. What is no sum is
/// taken as its first variant.
pub type Part = (u32, u32);

/// What is done with a handle.
pub enum Touch {
    /// The count of a cell goes up.
    Retain,
    /// The count of the environment of a closure goes up.
    RetainEnv,
    /// The release function of a shared type is called.
    Release,
    /// It is stored into this slot, to be released next.
    KeepBack(Value),
}

/// What an instruction does that to.
pub open spec fn touched(operation: Operation, touch: Touch) -> Option<Value> {
    match (touch, operation) {
        (Touch::Retain, Operation::RcRetain(handle)) => Some(handle),
        (Touch::RetainEnv, Operation::RetainClosureEnv(environment)) => Some(environment),
        (Touch::Release, Operation::Call { arguments, .. }) => if arguments.len() == 1 {
            Some(arguments[0])
        } else {
            None
        },
        (Touch::KeepBack(slot), Operation::Store { pointer, value }) => if pointer == slot {
            Some(value)
        } else {
            None
        },
        _ => None,
    }
}

/// What a release does that keeps a handle back in `slot`, if there is one.
spec fn is_of_a_release(touch: Touch, slot: Option<Value>) -> bool {
    match touch {
        Touch::Release => true,
        Touch::KeepBack(kept) => slot is None || slot == Some(kept),
        _ => false,
    }
}

/// What instructions do that to, in order.
pub open spec fn all_touched(operations: Seq<Operation>, touch: Touch) -> Seq<Value>
    decreases operations.len(),
{
    if operations.len() == 0 {
        Seq::empty()
    } else {
        let earlier = all_touched(operations.drop_last(), touch);
        match touched(operations.last(), touch) {
            Some(value) => earlier.push(value),
            None => earlier,
        }
    }
}

/// The instruction that gives a value.
pub open spec fn operation_at(operations: Seq<Operation>, value: Value) -> Option<Operation> {
    match value {
        Value::InstructionResult(id) => if id < operations.len() {
            Some(operations[id as int])
        } else {
            None
        },
        _ => None,
    }
}

/// What `payloads` are the payloads of: a variant is taken out of a sum, and anything else is its
/// own variant.
pub open spec fn sum_of(operations: Seq<Operation>, payloads: Value) -> Option<Value> {
    match operation_at(operations, payloads) {
        Some(Operation::Transmute(union)) => match operation_at(operations, union) {
            Some(Operation::IndexTuple { tuple, index }) => if index == 1 {
                Some(tuple)
            } else {
                None
            },
            _ => None,
        },
        _ => None,
    }
}

/// `payloads` is what `value` holds as one of its variants.
pub open spec fn holds_payloads(
    operations: Seq<Operation>,
    value: Value,
    payloads: Value,
) -> bool {
    payloads == value || sum_of(operations, payloads) == Some(value)
}

/// `part` was taken out of `value` along `path`.
pub open spec fn holds_part(
    operations: Seq<Operation>,
    value: Value,
    path: Seq<Part>,
    part: Value,
) -> bool
    decreases path.len(),
{
    if path.len() == 0 {
        part == value
    } else {
        match operation_at(operations, part) {
            Some(Operation::IndexTuple { tuple, index }) => index == path.last().1 && (holds_part(
                operations,
                value,
                path.drop_last(),
                tuple,
            ) || match sum_of(operations, tuple) {
                Some(whole) => holds_part(operations, value, path.drop_last(), whole),
                None => false,
            }),
            _ => false,
        }
    }
}

/// What is touched is the part at `path`, or the environment of the closure there.
pub open spec fn is_at(
    operations: Seq<Operation>,
    value: Value,
    path: Seq<Part>,
    handle: Value,
    touch: Touch,
) -> bool {
    match touch {
        Touch::RetainEnv => operation_at(operations, handle) matches Some(
            Operation::IndexTuple { tuple, index },
        ) && index == 1 && holds_part(operations, value, path, tuple),
        _ => holds_part(operations, value, path, handle),
    }
}

/// Between two states of a definition, exactly the given parts of a value are touched, in order.
pub open spec fn touches(
    before: Seq<Operation>,
    after: Seq<Operation>,
    value: Value,
    paths: Seq<Seq<Part>>,
    touch: Touch,
) -> bool {
    let handles = all_touched(after.skip(before.len() as int), touch);
    &&& handles.len() == paths.len()
    &&& forall|i: int|
        0 <= i < paths.len() ==> is_at(after, value, #[trigger] paths[i], handles[i], touch)
}

/// The paths that go on behind `part`.
pub open spec fn under(part: Part, paths: Seq<Seq<Part>>) -> Seq<Seq<Part>> {
    paths.map_values(|path: Seq<Part>| seq![part] + path)
}

proof fn touched_in_order(first: Seq<Operation>, second: Seq<Operation>, touch: Touch)
    ensures
        all_touched(first + second, touch) == all_touched(first, touch) + all_touched(
            second,
            touch,
        ),
    decreases second.len(),
{
    let all = first + second;
    if second.len() == 0 {
        assert(all =~= first);
        assert(all_touched(first, touch) + Seq::empty() =~= all_touched(first, touch));
    } else {
        assert(all.drop_last() =~= first + second.drop_last());
        assert(all.last() == second.last());
        touched_in_order(first, second.drop_last(), touch);
        match touched(second.last(), touch) {
            Some(value) => {
                assert(all_touched(first, touch) + all_touched(second.drop_last(), touch).push(
                    value,
                ) =~= (all_touched(first, touch) + all_touched(second.drop_last(), touch)).push(
                    value,
                ));
            },
            None => {},
        }
    }
}

proof fn parts_stay(
    before: Seq<Operation>,
    after: Seq<Operation>,
    value: Value,
    path: Seq<Part>,
    part: Value,
)
    requires
        before.is_prefix_of(after),
        holds_part(before, value, path, part),
    ensures
        holds_part(after, value, path, part),
    decreases path.len(),
{
    assert forall|v: Value| operation_at(before, v) is Some implies #[trigger] operation_at(
        after,
        v,
    ) == operation_at(before, v) by {}
    if path.len() > 0 {
        let tuple = operation_at(before, part)->Some_0->IndexTuple_tuple;
        assert(sum_of(before, tuple) is Some ==> sum_of(after, tuple) == sum_of(before, tuple));
        if holds_part(before, value, path.drop_last(), tuple) {
            parts_stay(before, after, value, path.drop_last(), tuple);
        } else {
            parts_stay(before, after, value, path.drop_last(), sum_of(before, tuple)->0);
        }
    }
}

proof fn payloads_stay(
    before: Seq<Operation>,
    after: Seq<Operation>,
    value: Value,
    payloads: Value,
)
    requires
        before.is_prefix_of(after),
        holds_payloads(before, value, payloads),
    ensures
        holds_payloads(after, value, payloads),
{
    assert forall|v: Value| operation_at(before, v) is Some implies #[trigger] operation_at(
        after,
        v,
    ) == operation_at(before, v) by {}
}

/// A part of a field is a part of what has the field.
proof fn parts_of_a_field(
    operations: Seq<Operation>,
    value: Value,
    part: Part,
    field: Value,
    path: Seq<Part>,
    inner: Value,
)
    requires
        holds_part(operations, value, seq![part], field),
        holds_part(operations, field, path, inner),
    ensures
        holds_part(operations, value, seq![part] + path, inner),
    decreases path.len(),
{
    let whole_path = seq![part] + path;
    if path.len() == 0 {
        assert(whole_path =~= seq![part]);
    } else {
        assert(whole_path.drop_last() =~= seq![part] + path.drop_last());
        assert(whole_path.last() == path.last());
        let tuple = operation_at(operations, inner)->Some_0->IndexTuple_tuple;
        let rest = path.drop_last();
        if holds_part(operations, field, rest, tuple) {
            parts_of_a_field(operations, value, part, field, rest, tuple);
        } else {
            parts_of_a_field(operations, value, part, field, rest, sum_of(operations, tuple)->0);
        }
    }
}

proof fn touching_goes_on(
    first: Seq<Operation>,
    second: Seq<Operation>,
    third: Seq<Operation>,
    value: Value,
    earlier: Seq<Seq<Part>>,
    later: Seq<Seq<Part>>,
    touch: Touch,
)
    requires
        first.is_prefix_of(second),
        second.is_prefix_of(third),
        touches(first, second, value, earlier, touch),
        touches(second, third, value, later, touch),
    ensures
        touches(first, third, value, earlier + later, touch),
{
    let a = second.skip(first.len() as int);
    let b = third.skip(second.len() as int);
    assert(third.skip(first.len() as int) =~= a + b);
    touched_in_order(a, b, touch);
    let handles = all_touched(a, touch) + all_touched(b, touch);
    let paths = earlier + later;
    assert forall|i: int| 0 <= i < paths.len() implies is_at(
        third,
        value,
        #[trigger] paths[i],
        handles[i],
        touch,
    ) by {
        if i < earlier.len() {
            let handle = all_touched(a, touch)[i];
            assert(is_at(second, value, earlier[i], handle, touch));
            match touch {
                Touch::RetainEnv => {
                    let tuple = operation_at(second, handle)->Some_0->IndexTuple_tuple;
                    parts_stay(second, third, value, earlier[i], tuple);
                },
                _ => {
                    parts_stay(second, third, value, earlier[i], handle);
                },
            }
        } else {
            assert(is_at(third, value, later[i - earlier.len()], handles[i], touch));
        }
    }
}

proof fn touching_under_a_field(
    before: Seq<Operation>,
    after: Seq<Operation>,
    value: Value,
    part: Part,
    field: Value,
    paths: Seq<Seq<Part>>,
    touch: Touch,
)
    requires
        holds_part(after, value, seq![part], field),
        touches(before, after, field, paths, touch),
    ensures
        touches(before, after, value, under(part, paths), touch),
{
    let handles = all_touched(after.skip(before.len() as int), touch);
    assert forall|i: int| 0 <= i < paths.len() implies is_at(
        after,
        value,
        #[trigger] under(part, paths)[i],
        handles[i],
        touch,
    ) by {
        assert(is_at(after, field, paths[i], handles[i], touch));
        match touch {
            Touch::RetainEnv => {
                let tuple = operation_at(after, handles[i])->Some_0->IndexTuple_tuple;
                parts_of_a_field(after, value, part, field, paths[i], tuple);
            },
            _ => {
                parts_of_a_field(after, value, part, field, paths[i], handles[i]);
            },
        }
    }
}

proof fn one_step_touches(before: Seq<Operation>, operation: Operation, value: Value, touch: Touch)
    ensures
        all_touched(before.push(operation).skip(before.len() as int), touch) == match touched(
            operation,
            touch,
        ) {
            Some(value) => seq![value],
            None => Seq::empty(),
        },
        touched(operation, touch) is None ==> touches(
            before,
            before.push(operation),
            value,
            Seq::empty(),
            touch,
        ),
{
    let added = before.push(operation).skip(before.len() as int);
    assert(added =~= seq![operation]);
    reveal_with_fuel(all_touched, 2);
    assert(added.drop_last() =~= Seq::empty());
    assert(all_touched(added.drop_last(), touch) =~= Seq::empty());
    assert(Seq::<Value>::empty().push(value) =~= seq![value]);
}

proof fn no_step_touches(operations: Seq<Operation>, value: Value, touch: Touch)
    ensures
        touches(operations, operations, value, Seq::empty(), touch),
{
    assert(operations.skip(operations.len() as int) =~= Seq::empty());
}

proof fn no_parts_are_no_multiset()
    ensures
        Seq::<Seq<Part>>::empty().to_multiset() == Multiset::<Seq<Part>>::empty(),
{
    broadcast use {
        vstd::seq_lib::group_to_multiset_ensures,
        vstd::multiset::group_multiset_axioms,
    };

}

impl Lowering {
    /// The instructions of the current definition.
    pub open spec fn operations(self) -> Seq<Operation> {
        self.function.unwrap().instructions
    }

    /// The blocks of the current definition.
    pub open spec fn blocks(self) -> Seq<BlockState> {
        self.function.unwrap().blocks
    }

    /// Something can be added to the current block.
    pub open spec fn is_open(self) -> bool {
        self.has_block() && !self.is_terminated()
    }

    /// The instructions and the blocks of the current definition have ids of their own.
    pub open spec fn fits(self) -> bool {
        &&& self.function is Some
        &&& self.operations().len() <= INSTRUCTION_LIMIT
        &&& self.blocks().len() <= INSTRUCTION_LIMIT
    }

    /// The parts of a value of the type that are handles: to cells, or, with `closures`, to the
    /// environments of closures. What handles and pointers lead to is not part of the value.
    pub open spec fn counted_parts(self, typ: TCType, closures: bool, depth: nat) -> Seq<Seq<Part>>
        decreases depth, 0nat, 0int,
    {
        if depth == 0 {
            Seq::empty()
        } else if self.shared_target(typ) is Some {
            if closures {
                Seq::empty()
            } else {
                seq![Seq::empty()]
            }
        } else if self.has_heap_env(typ) {
            if closures {
                seq![Seq::empty()]
            } else {
                Seq::empty()
            }
        } else {
            match self.follow(typ) {
                TCType::Tuple(elements) => self.counted_fields(
                    elements.items(),
                    0,
                    closures,
                    elements.items().len() as int,
                    (depth - 1) as nat,
                ),
                _ => match self.aggregate_target(typ) {
                    Some((item, args)) => self.counted_in_body(
                        item,
                        args,
                        closures,
                        (depth - 1) as nat,
                    ),
                    None => Seq::empty(),
                },
            }
        }
    }

    /// Such parts of the first `count` fields or payloads of a variant.
    pub open spec fn counted_fields(
        self,
        types: Seq<TCType>,
        variant: u32,
        closures: bool,
        count: int,
        depth: nat,
    ) -> Seq<Seq<Part>>
        decreases depth, 2nat, count,
    {
        if count <= 0 {
            Seq::empty()
        } else {
            self.counted_fields(types, variant, closures, count - 1, depth) + under(
                (variant, (count - 1) as u32),
                self.counted_parts(types[count - 1], closures, depth),
            )
        }
    }

    /// Such parts of the first `count` variants.
    pub open spec fn counted_variants(
        self,
        variants: Seq<(String, Vec<TCType>)>,
        closures: bool,
        count: int,
        depth: nat,
    ) -> Seq<Seq<Part>>
        decreases depth, 3nat, count,
    {
        if count <= 0 {
            Seq::empty()
        } else {
            let payloads = variants[count - 1].1@;
            self.counted_variants(variants, closures, count - 1, depth) + self.counted_fields(
                payloads,
                (count - 1) as u32,
                closures,
                payloads.len() as int,
                depth,
            )
        }
    }

    /// Such parts of a value that is laid out as a user defined type.
    pub open spec fn counted_in_body(
        self,
        item: TopLevelId,
        args: Seq<TCType>,
        closures: bool,
        depth: nat,
    ) -> Seq<Seq<Part>>
        decreases depth, 4nat, 0int,
    {
        match self.body_of(item, args) {
            Some(TypeBody::Product(fields)) => self.counted_fields(
                types_of_fields(fields@),
                0,
                closures,
                fields@.len() as int,
                depth,
            ),
            Some(TypeBody::Sum(variants)) => self.counted_variants(
                variants@,
                closures,
                variants@.len() as int,
                depth,
            ),
            None => Seq::empty(),
        }
    }

    /// The parts of a value of the type that `touch` happens to where the value dies: its handles
    /// to cells are released, and none is kept back.
    pub open spec fn dying_parts(self, typ: TCType, touch: Touch, depth: nat) -> Seq<Seq<Part>> {
        if touch is KeepBack {
            Seq::empty()
        } else {
            self.counted_parts(typ, false, depth)
        }
    }

    /// The parts of the first `count` fields or payloads of a variant of a dying cell that `touch`
    /// happens to. In a chain the last field of the type this item defines is not released: that
    /// handle is kept back.
    pub open spec fn dying_fields(
        self,
        types: Seq<TCType>,
        args: Seq<TCType>,
        variant: u32,
        chain: bool,
        touch: Touch,
        count: int,
        depth: nat,
    ) -> Seq<Seq<Part>>
        decreases count,
    {
        if count <= 0 {
            Seq::empty()
        } else {
            let is_last = self.last_self(types, args, types.len() as int) == Some(count - 1);
            let parts = if !chain || !is_last {
                self.dying_parts(types[count - 1], touch, depth)
            } else if touch is KeepBack {
                seq![Seq::empty()]
            } else {
                Seq::empty()
            };
            self.dying_fields(types, args, variant, chain, touch, count - 1, depth) + under(
                (variant, (count - 1) as u32),
                parts,
            )
        }
    }

    /// Such parts of the first `count` variants of a dying cell.
    pub open spec fn dying_variants(
        self,
        variants: Seq<(String, Vec<TCType>)>,
        args: Seq<TCType>,
        chain: bool,
        touch: Touch,
        count: int,
        depth: nat,
    ) -> Seq<Seq<Part>>
        decreases count,
    {
        if count <= 0 {
            Seq::empty()
        } else {
            let payloads = variants[count - 1].1@;
            self.dying_variants(variants, args, chain, touch, count - 1, depth)
                + self.dying_fields(
                payloads,
                args,
                (count - 1) as u32,
                chain,
                touch,
                payloads.len() as int,
                depth,
            )
        }
    }

    /// Such parts of a dying cell that is laid out as a user defined type.
    pub open spec fn dying_body(
        self,
        item: TopLevelId,
        args: Seq<TCType>,
        chain: bool,
        touch: Touch,
        depth: nat,
    ) -> Seq<Seq<Part>> {
        match self.body_of(item, args) {
            Some(TypeBody::Product(fields)) => self.dying_fields(
                types_of_fields(fields@),
                args,
                0,
                chain,
                touch,
                fields@.len() as int,
                depth,
            ),
            Some(TypeBody::Sum(variants)) => self.dying_variants(
                variants@,
                args,
                chain,
                touch,
                variants@.len() as int,
                depth,
            ),
            None => Seq::empty(),
        }
    }

    /// `after` goes on where this state is: what there is stays, and other blocks are left alone.
    pub open spec fn goes_on(self, after: Lowering) -> bool {
        &&& self.is_open()
        &&& after.is_open()
        &&& after.answers == self.answers
        &&& self.operations().is_prefix_of(after.operations())
        &&& self.blocks().len() <= after.blocks().len()
        &&& after.block == self.block || after.block >= self.blocks().len()
        &&& forall|b: int|
            0 <= b < self.blocks().len() && b != self.block ==> #[trigger] after.blocks()[b]
                == self.blocks()[b]
    }

    proof fn goes_on_through(self, between: Lowering, after: Lowering)
        requires
            self.goes_on(between),
            between.goes_on(after),
        ensures
            self.goes_on(after),
    {
        assert forall|b: int| 0 <= b < self.blocks().len() && b != self.block
        implies #[trigger] after.blocks()[b]
            == self.blocks()[b] by {
            assert(between.blocks()[b] == self.blocks()[b]);
        }
    }

    proof fn fitting_goes_back(self, after: Lowering)
        requires
            kept(self, after),
            after.fits(),
            !after.failed,
        ensures
            self.fits(),
            !self.failed,
    {
        reveal(kept);
        reveal(carried);
    }

    proof fn pushing_goes_on(self, operation: Operation, typ: Type)
        requires
            self.is_open(),
        ensures
            self.goes_on(self.pushed(operation, typ).1),
            self.pushed(operation, typ).1.block == self.block,
            self.pushed(operation, typ).1.failed == self.failed,
            self.pushed(operation, typ).1.operations() == self.operations().push(operation),
            self.pushed(operation, typ).1.blocks().len() == self.blocks().len(),
            self.pushed(operation, typ).1.fits() ==> operation_at(
                self.pushed(operation, typ).1.operations(),
                self.pushed(operation, typ).0,
            ) == Some(operation),
    {
        reveal(Lowering::pushed);
    }

    proof fn taking_a_variant_goes_on(self, value: Value, index: u32, touch: Touch)
        requires
            self.is_open(),
            self.variant_of(value, index).1.fits(),
            !self.variant_of(value, index).1.failed,
        ensures
            self.goes_on(self.variant_of(value, index).1),
            holds_payloads(
                self.variant_of(value, index).1.operations(),
                value,
                self.variant_of(value, index).0,
            ),
            touches(
                self.operations(),
                self.variant_of(value, index).1.operations(),
                value,
                Seq::empty(),
                touch,
            ),
    {
        reveal(Lowering::variant_of);
        no_step_touches(self.operations(), value, touch);
        match self.value_type(value).tagged_union() {
            Some((union, variants)) => {
                let taken = Operation::IndexTuple { tuple: value, index: 1 };
                let (extracted, made) = self.pushed(taken, union);
                self.pushing_goes_on(taken, union);
                let cast = Operation::Transmute(extracted);
                made.pushing_goes_on(cast, variants[index as int]);
                let after = made.pushed(cast, variants[index as int]).1;
                self.goes_on_through(made, after);
                one_step_touches(self.operations(), taken, value, touch);
                one_step_touches(made.operations(), cast, value, touch);
                touching_goes_on(
                    self.operations(),
                    made.operations(),
                    after.operations(),
                    value,
                    Seq::empty(),
                    Seq::empty(),
                    touch,
                );
                assert(Seq::<Seq<Part>>::empty() + Seq::empty() =~= Seq::empty());
                assert(operation_at(after.operations(), extracted) == Some(taken));
            },
            None => {},
        }
    }

    proof fn taking_a_tag_goes_on(self, value: Value, touch: Touch)
        requires
            self.is_open(),
        ensures
            self.goes_on(self.tag_of(value).1),
            self.tag_of(value).1.block == self.block,
            self.tag_of(value).1.blocks().len() == self.blocks().len(),
            touches(
                self.operations(),
                self.tag_of(value).1.operations(),
                value,
                Seq::empty(),
                touch,
            ),
    {
        reveal(Lowering::tag_of);
        no_step_touches(self.operations(), value, touch);
        match self.value_type(value) {
            Type::Tuple(fields) => {
                let taken = Operation::IndexTuple { tuple: value, index: 0 };
                self.pushing_goes_on(taken, fields.items()[0]);
                one_step_touches(self.operations(), taken, value, touch);
            },
            _ => {},
        }
    }

    proof fn case_blocks_are_new(self, count: int)
        requires
            self.function is Some,
            0 <= count,
            self.with_case_blocks(count).1.fits(),
        ensures
            ({
                let (edges, after) = self.with_case_blocks(count);
                &&& edges.len() == count
                &&& forall|i: int|
                    0 <= i < count ==> (#[trigger] edges[i]).1.0 == self.blocks().len() + i
                &&& after.block == self.block
                &&& after.answers == self.answers
                &&& after.failed == self.failed
                &&& after.operations() == self.operations()
                &&& after.blocks().len() == self.blocks().len() + count
                &&& forall|b: int|
                    0 <= b < self.blocks().len() ==> #[trigger] after.blocks()[b]
                        == self.blocks()[b]
                &&& forall|b: int|
                    self.blocks().len() <= b < after.blocks().len() ==> (
                    #[trigger] after.blocks()[b]).terminator is None
            }),
        decreases count,
    {
        reveal(Lowering::with_case_blocks);
        reveal(Lowering::with_block);
        if count > 0 {
            let made = self.with_case_blocks(count - 1).1;
            keeps_with_case_blocks(self, count - 1);
            keeps_with_block(made, Seq::empty());
            reveal(kept);
            self.case_blocks_are_new(count - 1);
        }
    }

    /// Inside a switch on the variant of a value: `first` is the block of its first variant, and
    /// the block before it is the one behind them all. The blocks of `count` variants are open.
    pub open spec fn is_switched(self, edges: Edges, end: BlockId, first: int, count: int) -> bool {
        &&& self.function is Some
        &&& edges.len() == count
        &&& end == first - 1
        &&& 0 < first
        &&& first + count <= self.blocks().len()
        &&& self.blocks()[end as int].terminator is None
        &&& forall|i: int| 0 <= i < count ==> (#[trigger] edges[i]).1.0 == first + i
        &&& forall|b: int|
            first <= b < first + count ==> (#[trigger] self.blocks()[b]).terminator is None
    }

    proof fn switching_opens_the_cases(self, value: Value, count: int, touch: Touch)
        requires
            self.is_open(),
            0 <= count,
            self.variants_switched(value, count).2.fits(),
        ensures
            ({
                let (edges, end, after) = self.variants_switched(value, count);
                &&& after.is_switched(edges, end, self.blocks().len() + 2int, count)
                &&& after.answers == self.answers
                &&& self.operations().is_prefix_of(after.operations())
                &&& forall|b: int|
                    0 <= b < self.blocks().len() && b != self.block ==> #[trigger] after.blocks()[b]
                        == self.blocks()[b]
                &&& touches(self.operations(), after.operations(), value, Seq::empty(), touch)
            }),
    {
        reveal(Lowering::variants_switched);
        self.taking_a_tag_goes_on(value, touch);
        let (tag, tagged) = self.tag_of(value);
        let (otherwise, one) = tagged.with_block(Seq::empty());
        let (end, two) = one.with_block(Seq::empty());
        let (cases, made) = two.with_case_blocks(count);
        let switch = Terminator::Switch {
            int_value: tag,
            cases,
            otherwise: (otherwise, None),
            end,
        };
        let switched = made.terminated(switch);
        keeps_with_block(tagged, Seq::empty());
        keeps_with_block(one, Seq::empty());
        keeps_with_case_blocks(two, count);
        keeps_terminated(made, switch);
        let away = switched.switched_to(otherwise);
        keeps_switched_to(switched, otherwise);
        keeps_terminated(away, Terminator::Jmp(end, None));
        reveal(kept);
        reveal(Lowering::with_block);
        reveal(Lowering::terminated);
        two.case_blocks_are_new(count);
    }

    proof fn parts_go_by_the_answers(
        self,
        other: Lowering,
        typ: TCType,
        closures: bool,
        depth: nat,
    )
        requires
            self.answers == other.answers,
        ensures
            self.counted_parts(typ, closures, depth) == other.counted_parts(typ, closures, depth),
        decreases depth, 0nat, 0int,
    {
        reveal(Lowering::shared_target);
        reveal(Lowering::aggregate_target);
        if depth > 0 {
            let depth = (depth - 1) as nat;
            match self.follow(typ) {
                TCType::Tuple(elements) => {
                    let types = elements.items();
                    self.fields_go_by_the_answers(
                        other,
                        types,
                        0,
                        closures,
                        types.len() as int,
                        depth,
                    );
                },
                _ => match self.aggregate_target(typ) {
                    Some((item, args)) => match self.body_of(item, args) {
                        Some(TypeBody::Product(fields)) => {
                            let types = types_of_fields(fields@);
                            self.fields_go_by_the_answers(
                                other,
                                types,
                                0,
                                closures,
                                fields@.len() as int,
                                depth,
                            );
                        },
                        Some(TypeBody::Sum(variants)) => {
                            self.variants_go_by_the_answers(
                                other,
                                variants@,
                                closures,
                                variants@.len() as int,
                                depth,
                            );
                        },
                        None => {},
                    },
                    None => {},
                },
            }
        }
    }

    proof fn fields_go_by_the_answers(
        self,
        other: Lowering,
        types: Seq<TCType>,
        variant: u32,
        closures: bool,
        count: int,
        depth: nat,
    )
        requires
            self.answers == other.answers,
        ensures
            self.counted_fields(types, variant, closures, count, depth) == other.counted_fields(
                types,
                variant,
                closures,
                count,
                depth,
            ),
        decreases depth, 2nat, count,
    {
        if count > 0 {
            self.fields_go_by_the_answers(other, types, variant, closures, count - 1, depth);
            self.parts_go_by_the_answers(other, types[count - 1], closures, depth);
        }
    }

    proof fn variants_go_by_the_answers(
        self,
        other: Lowering,
        variants: Seq<(String, Vec<TCType>)>,
        closures: bool,
        count: int,
        depth: nat,
    )
        requires
            self.answers == other.answers,
        ensures
            self.counted_variants(variants, closures, count, depth) == other.counted_variants(
                variants,
                closures,
                count,
                depth,
            ),
        decreases depth, 3nat, count,
    {
        if count > 0 {
            self.variants_go_by_the_answers(other, variants, closures, count - 1, depth);
            let payloads = variants[count - 1].1@;
            self.fields_go_by_the_answers(
                other,
                payloads,
                (count - 1) as u32,
                closures,
                payloads.len() as int,
                depth,
            );
        }
    }

    /// A type with a part that is counted is counted.
    proof fn parts_are_counted(self, typ: TCType, closures: bool, depth: nat, limit: nat)
        requires
            depth <= limit,
            self.counted_parts(typ, closures, depth).len() > 0,
        ensures
            self.owns_count(typ, limit),
        decreases depth, 0nat, 0int,
    {
        let inner = (depth - 1) as nat;
        let below = (limit - 1) as nat;
        if self.shared_target(typ) is None && !self.has_heap_env(typ) {
            match self.follow(typ) {
                TCType::Tuple(elements) => {
                    let types = elements.items();
                    self.counted_fields_are_counted(
                        types,
                        0,
                        closures,
                        types.len() as int,
                        inner,
                        below,
                    );
                },
                _ => match self.aggregate_target(typ) {
                    Some((item, args)) => match self.body_of(item, args) {
                        Some(TypeBody::Product(fields)) => {
                            self.counted_fields_are_counted(
                                types_of_fields(fields@),
                                0,
                                closures,
                                fields@.len() as int,
                                inner,
                                below,
                            );
                        },
                        Some(TypeBody::Sum(variants)) => {
                            self.counted_variants_are_counted(
                                variants@,
                                closures,
                                variants@.len() as int,
                                inner,
                                below,
                            );
                        },
                        None => {},
                    },
                    None => {},
                },
            }
        }
    }

    proof fn counted_fields_are_counted(
        self,
        types: Seq<TCType>,
        variant: u32,
        closures: bool,
        count: int,
        depth: nat,
        limit: nat,
    )
        requires
            depth <= limit,
            self.counted_fields(types, variant, closures, count, depth).len() > 0,
        ensures
            self.some_owns_count(types, count, limit),
        decreases depth, 2nat, count,
    {
        if count > 0 {
            if self.counted_fields(types, variant, closures, count - 1, depth).len() > 0 {
                self.counted_fields_are_counted(
                    types,
                    variant,
                    closures,
                    count - 1,
                    depth,
                    limit,
                );
            } else {
                self.parts_are_counted(types[count - 1], closures, depth, limit);
            }
        }
    }

    proof fn counted_variants_are_counted(
        self,
        variants: Seq<(String, Vec<TCType>)>,
        closures: bool,
        count: int,
        depth: nat,
        limit: nat,
    )
        requires
            depth <= limit,
            self.counted_variants(variants, closures, count, depth).len() > 0,
        ensures
            self.some_variant_owns_count(variants, count, limit),
        decreases depth, 3nat, count,
    {
        if count > 0 {
            if self.counted_variants(variants, closures, count - 1, depth).len() > 0 {
                self.counted_variants_are_counted(variants, closures, count - 1, depth, limit);
            } else {
                let payloads = variants[count - 1].1@;
                self.counted_fields_are_counted(
                    payloads,
                    (count - 1) as u32,
                    closures,
                    payloads.len() as int,
                    depth,
                    limit,
                );
            }
        }
    }

    proof fn uncounted_has_no_parts(self, typ: TCType, closures: bool, depth: nat)
        requires
            depth <= NESTING_LIMIT,
            !self.is_counted(typ),
        ensures
            self.counted_parts(typ, closures, depth) == Seq::<Seq<Part>>::empty(),
    {
        reveal(Lowering::is_counted);
        let parts = self.counted_parts(typ, closures, depth);
        if parts.len() > 0 {
            self.parts_are_counted(typ, closures, depth, NESTING_LIMIT as nat);
        }
        assert(parts =~= Seq::empty());
    }

    /// A field that is taken out is a part.
    proof fn a_field_is_a_part(
        self,
        value: Value,
        payloads: Value,
        part: Part,
        typ: Type,
        touch: Touch,
    )
        requires
            self.is_open(),
            holds_payloads(self.operations(), value, payloads),
            self.pushed(
                Operation::IndexTuple { tuple: payloads, index: part.1 },
                typ,
            ).1.fits(),
        ensures
            ({
                let (field, after) = self.pushed(
                    Operation::IndexTuple { tuple: payloads, index: part.1 },
                    typ,
                );
                &&& self.goes_on(after)
                &&& holds_part(after.operations(), value, seq![part], field)
                &&& touches(self.operations(), after.operations(), value, Seq::empty(), touch)
            }),
    {
        let taken = Operation::IndexTuple { tuple: payloads, index: part.1 };
        let (field, after) = self.pushed(taken, typ);
        self.pushing_goes_on(taken, typ);
        one_step_touches(self.operations(), taken, value, touch);
        payloads_stay(self.operations(), after.operations(), value, payloads);
        assert(seq![part].drop_last() =~= Seq::empty());
        reveal_with_fuel(holds_part, 2);
    }

    proof fn retaining_touches(self, value: Value, typ: TCType, depth: nat, touch: Touch)
        requires
            self.is_open(),
            depth <= NESTING_LIMIT,
            touch is Retain || touch is RetainEnv,
            self.retained(value, typ, depth).fits(),
            !self.retained(value, typ, depth).failed,
        ensures
            self.goes_on(self.retained(value, typ, depth)),
            touches(
                self.operations(),
                self.retained(value, typ, depth).operations(),
                value,
                self.counted_parts(typ, touch is RetainEnv, depth),
                touch,
            ),
        decreases depth, 0nat, 0int,
    {
        let closures = touch is RetainEnv;
        no_step_touches(self.operations(), value, touch);
        if depth > 0 && !self.is_counted(typ) {
            self.uncounted_has_no_parts(typ, closures, depth);
        } else if depth > 0 {
            let inner = (depth - 1) as nat;
            if self.shared_target(typ) is Some {
                let retain = Operation::RcRetain(value);
                self.pushing_goes_on(retain, Type::unit());
                one_step_touches(self.operations(), retain, value, touch);
            } else if self.has_heap_env(typ) {
                reveal(Lowering::env_retained);
                let taken = Operation::IndexTuple { tuple: value, index: 1 };
                let (env, made) = self.pushed(taken, Type::pointer());
                let retain = Operation::RetainClosureEnv(env);
                self.pushing_goes_on(taken, Type::pointer());
                made.pushing_goes_on(retain, Type::unit());
                let after = made.pushed(retain, Type::unit()).1;
                self.goes_on_through(made, after);
                one_step_touches(self.operations(), taken, value, touch);
                one_step_touches(made.operations(), retain, value, touch);
                let parts = self.counted_parts(typ, closures, depth);
                assert(operation_at(after.operations(), env) == Some(taken));
                touching_goes_on(
                    self.operations(),
                    made.operations(),
                    after.operations(),
                    value,
                    Seq::empty(),
                    parts,
                    touch,
                );
                assert(Seq::empty() + parts =~= parts);
            } else {
                match self.follow(typ) {
                    TCType::Tuple(elements) => {
                        let types = elements.items();
                        self.retaining_fields_touches(
                            value,
                            value,
                            types,
                            0,
                            types.len() as int,
                            inner,
                            touch,
                        );
                    },
                    _ => match self.aggregate_target(typ) {
                        Some((item, args)) => {
                            self.retaining_a_body_touches(value, item, args, inner, touch);
                        },
                        None => {},
                    },
                }
            }
        }
    }

    proof fn retaining_a_field_touches(
        self,
        value: Value,
        payloads: Value,
        part: Part,
        typ: TCType,
        depth: nat,
        touch: Touch,
    )
        requires
            self.is_open(),
            depth <= NESTING_LIMIT,
            touch is Retain || touch is RetainEnv,
            holds_payloads(self.operations(), value, payloads),
            self.field_retained(payloads, part.1, typ, depth).fits(),
            !self.field_retained(payloads, part.1, typ, depth).failed,
        ensures
            self.goes_on(self.field_retained(payloads, part.1, typ, depth)),
            touches(
                self.operations(),
                self.field_retained(payloads, part.1, typ, depth).operations(),
                value,
                under(part, self.counted_parts(typ, touch is RetainEnv, depth)),
                touch,
            ),
        decreases depth, 1nat, 0int,
    {
        let closures = touch is RetainEnv;
        let parts = self.counted_parts(typ, closures, depth);
        let after = self.field_retained(payloads, part.1, typ, depth);
        if !self.is_counted(typ) {
            self.uncounted_has_no_parts(typ, closures, depth);
            no_step_touches(self.operations(), value, touch);
            assert(under(part, parts) =~= Seq::empty());
        } else {
            let taken = Operation::IndexTuple { tuple: payloads, index: part.1 };
            let (field, made) = self.pushed(taken, self.layout(typ));
            keeps_retained(made, field, typ, depth);
            made.fitting_goes_back(after);
            self.a_field_is_a_part(value, payloads, part, self.layout(typ), touch);
            made.retaining_touches(field, typ, depth, touch);
            self.goes_on_through(made, after);
            self.parts_go_by_the_answers(made, typ, closures, depth);
            parts_stay(made.operations(), after.operations(), value, seq![part], field);
            touching_under_a_field(
                made.operations(),
                after.operations(),
                value,
                part,
                field,
                parts,
                touch,
            );
            touching_goes_on(
                self.operations(),
                made.operations(),
                after.operations(),
                value,
                Seq::empty(),
                under(part, parts),
                touch,
            );
            assert(Seq::empty() + under(part, parts) =~= under(part, parts));
        }
    }

    proof fn retaining_fields_touches(
        self,
        value: Value,
        payloads: Value,
        types: Seq<TCType>,
        variant: u32,
        count: int,
        depth: nat,
        touch: Touch,
    )
        requires
            self.is_open(),
            depth <= NESTING_LIMIT,
            touch is Retain || touch is RetainEnv,
            holds_payloads(self.operations(), value, payloads),
            self.fields_retained(payloads, types, count, depth).fits(),
            !self.fields_retained(payloads, types, count, depth).failed,
        ensures
            self.goes_on(self.fields_retained(payloads, types, count, depth)),
            touches(
                self.operations(),
                self.fields_retained(payloads, types, count, depth).operations(),
                value,
                self.counted_fields(types, variant, touch is RetainEnv, count, depth),
                touch,
            ),
        decreases depth, 2nat, count,
    {
        let closures = touch is RetainEnv;
        if count <= 0 {
            no_step_touches(self.operations(), value, touch);
        } else {
            let made = self.fields_retained(payloads, types, count - 1, depth);
            let after = self.fields_retained(payloads, types, count, depth);
            let part: Part = (variant, (count - 1) as u32);
            let typ = types[count - 1];
            retaining_a_field_keeps(made, payloads, part.1, typ, depth);
            made.fitting_goes_back(after);
            self.retaining_fields_touches(value, payloads, types, variant, count - 1, depth, touch);
            payloads_stay(self.operations(), made.operations(), value, payloads);
            made.retaining_a_field_touches(value, payloads, part, typ, depth, touch);
            self.goes_on_through(made, after);
            self.parts_go_by_the_answers(made, typ, closures, depth);
            touching_goes_on(
                self.operations(),
                made.operations(),
                after.operations(),
                value,
                self.counted_fields(types, variant, closures, count - 1, depth),
                under(part, self.counted_parts(typ, closures, depth)),
                touch,
            );
        }
    }

    proof fn retaining_variants_touches(
        self,
        value: Value,
        variants: Seq<(String, Vec<TCType>)>,
        edges: Edges,
        end: BlockId,
        first: int,
        count: int,
        depth: nat,
        touch: Touch,
    )
        requires
            self.is_switched(edges, end, first, variants.len() as int),
            0 <= count <= variants.len(),
            depth <= NESTING_LIMIT,
            touch is Retain || touch is RetainEnv,
            self.variants_retained(value, variants, edges, end, count, depth).fits(),
            !self.variants_retained(value, variants, edges, end, count, depth).failed,
        ensures
            ({
                let after = self.variants_retained(value, variants, edges, end, count, depth);
                &&& after.function is Some
                &&& after.answers == self.answers
                &&& self.operations().is_prefix_of(after.operations())
                &&& self.blocks().len() <= after.blocks().len()
                &&& forall|b: int|
                    0 <= b < self.blocks().len() && !(first <= b < first + count)
                        ==> #[trigger] after.blocks()[b] == self.blocks()[b]
                &&& touches(
                    self.operations(),
                    after.operations(),
                    value,
                    self.counted_variants(variants, touch is RetainEnv, count, depth),
                    touch,
                )
            }),
        decreases depth, 3nat, count,
    {
        broadcast use {
            kept_is_reflexive,
            kept_is_transitive,
            keeps_switched_to,
            keeps_terminated,
            keeps_variant_of,
        };

        let closures = touch is RetainEnv;
        if count <= 0 {
            no_step_touches(self.operations(), value, touch);
        } else {
            let made = self.variants_retained(value, variants, edges, end, count - 1, depth);
            let after = self.variants_retained(value, variants, edges, end, count, depth);
            let inside = made.switched_to(edges[count - 1].1.0);
            let payloads = variants[count - 1].1@;
            let variant = (count - 1) as u32;
            let (taken, extracted) = inside.variant_of(value, variant);
            let walked = extracted.fields_retained(taken, payloads, payloads.len() as int, depth);
            retaining_fields_keeps(extracted, taken, payloads, payloads.len() as int, depth);
            let done = if payloads.len() == 0 {
                inside
            } else {
                walked
            };
            made.fitting_goes_back(after);
            inside.fitting_goes_back(after);
            done.fitting_goes_back(after);
            self.retaining_variants_touches(
                value,
                variants,
                edges,
                end,
                first,
                count - 1,
                depth,
                touch,
            );
            let at = first + count - 1;
            assert(made.blocks()[at] == self.blocks()[at]);
            let parts = self.counted_fields(
                payloads,
                variant,
                closures,
                payloads.len() as int,
                depth,
            );
            if payloads.len() == 0 {
                no_step_touches(inside.operations(), value, touch);
            } else {
                extracted.fitting_goes_back(after);
                inside.taking_a_variant_goes_on(value, variant, touch);
                extracted.retaining_fields_touches(
                    value,
                    taken,
                    payloads,
                    variant,
                    payloads.len() as int,
                    depth,
                    touch,
                );
                inside.goes_on_through(extracted, done);
                self.fields_go_by_the_answers(
                    extracted,
                    payloads,
                    variant,
                    closures,
                    payloads.len() as int,
                    depth,
                );
                touching_goes_on(
                    inside.operations(),
                    extracted.operations(),
                    done.operations(),
                    value,
                    Seq::empty(),
                    parts,
                    touch,
                );
                assert(Seq::empty() + parts =~= parts);
            }
            reveal(Lowering::terminated);
            assert(after.operations() == done.operations());
            touching_goes_on(
                self.operations(),
                made.operations(),
                after.operations(),
                value,
                self.counted_variants(variants, closures, count - 1, depth),
                parts,
                touch,
            );
            assert forall|b: int|
                0 <= b < self.blocks().len() && !(first <= b < first + count)
                implies #[trigger] after.blocks()[b]
                == self.blocks()[b] by {
                assert(made.blocks()[b] == self.blocks()[b]);
                assert(done.blocks()[b] == inside.blocks()[b]);
            }
        }
    }

    proof fn retaining_a_body_touches(
        self,
        value: Value,
        item: TopLevelId,
        args: Seq<TCType>,
        depth: nat,
        touch: Touch,
    )
        requires
            self.is_open(),
            depth <= NESTING_LIMIT,
            touch is Retain || touch is RetainEnv,
            self.body_retained(value, item, args, depth).fits(),
            !self.body_retained(value, item, args, depth).failed,
        ensures
            self.goes_on(self.body_retained(value, item, args, depth)),
            touches(
                self.operations(),
                self.body_retained(value, item, args, depth).operations(),
                value,
                self.counted_in_body(item, args, touch is RetainEnv, depth),
                touch,
            ),
        decreases depth, 4nat, 0int,
    {
        let closures = touch is RetainEnv;
        let after = self.body_retained(value, item, args, depth);
        let parts = self.counted_in_body(item, args, closures, depth);
        match self.body_of(item, args) {
            Some(TypeBody::Product(fields)) => {
                let (taken, made) = self.variant_of(value, 0);
                let types = types_of_fields(fields@);
                retaining_fields_keeps(made, taken, types, types.len() as int, depth);
                made.fitting_goes_back(after);
                self.taking_a_variant_goes_on(value, 0, touch);
                made.retaining_fields_touches(
                    value,
                    taken,
                    types,
                    0,
                    types.len() as int,
                    depth,
                    touch,
                );
                self.goes_on_through(made, after);
                self.fields_go_by_the_answers(made, types, 0, closures, types.len() as int, depth);
                touching_goes_on(
                    self.operations(),
                    made.operations(),
                    after.operations(),
                    value,
                    Seq::empty(),
                    parts,
                    touch,
                );
                assert(Seq::empty() + parts =~= parts);
            },
            Some(TypeBody::Sum(listed)) => {
                let variants = listed@;
                let count = variants.len() as int;
                let (edges, end, made) = self.variants_switched(value, count);
                let walked = made.variants_retained(value, variants, edges, end, count, depth);
                retaining_variants_keeps(made, value, variants, edges, end, count, depth);
                keeps_switched_to(walked, end);
                walked.fitting_goes_back(after);
                made.fitting_goes_back(walked);
                self.switching_opens_the_cases(value, count, touch);
                let first = self.blocks().len() + 2int;
                made.retaining_variants_touches(
                    value,
                    variants,
                    edges,
                    end,
                    first,
                    count,
                    depth,
                    touch,
                );
                self.variants_go_by_the_answers(made, variants, closures, count, depth);
                touching_goes_on(
                    self.operations(),
                    made.operations(),
                    after.operations(),
                    value,
                    Seq::empty(),
                    parts,
                    touch,
                );
                assert(Seq::empty() + parts =~= parts);
                assert(walked.blocks()[end as int] == made.blocks()[end as int]);
                assert forall|b: int|
                    0 <= b < self.blocks().len() && b != self.block
                    implies #[trigger] after.blocks()[b]
                    == self.blocks()[b] by {
                    assert(made.blocks()[b] == self.blocks()[b]);
                }
            },
            None => {
                no_step_touches(self.operations(), value, touch);
            },
        }
    }

    proof fn the_item_stays(self, after: Lowering)
        requires
            kept(self, after),
        ensures
            after.answers == self.answers,
            after.top_level_id == self.top_level_id,
    {
        reveal(kept);
        reveal(carried);
    }

    proof fn selves_go_by_the_item(
        self,
        other: Lowering,
        types: Seq<TCType>,
        args: Seq<TCType>,
        count: int,
    )
        requires
            self.answers == other.answers,
            self.top_level_id == other.top_level_id,
        ensures
            self.last_self(types, args, count) == other.last_self(types, args, count),
        decreases count,
    {
        reveal(Lowering::last_self);
        reveal(Lowering::shared_target);
        if count > 0 {
            self.selves_go_by_the_item(other, types, args, count - 1);
        }
    }

    proof fn dying_fields_go_by_the_item(
        self,
        other: Lowering,
        types: Seq<TCType>,
        args: Seq<TCType>,
        variant: u32,
        chain: bool,
        touch: Touch,
        count: int,
        depth: nat,
    )
        requires
            self.answers == other.answers,
            self.top_level_id == other.top_level_id,
        ensures
            self.dying_fields(types, args, variant, chain, touch, count, depth)
                == other.dying_fields(types, args, variant, chain, touch, count, depth),
        decreases count,
    {
        if count > 0 {
            self.dying_fields_go_by_the_item(
                other,
                types,
                args,
                variant,
                chain,
                touch,
                count - 1,
                depth,
            );
            self.selves_go_by_the_item(other, types, args, types.len() as int);
            self.parts_go_by_the_answers(other, types[count - 1], false, depth);
        }
    }

    proof fn dying_variants_go_by_the_item(
        self,
        other: Lowering,
        variants: Seq<(String, Vec<TCType>)>,
        args: Seq<TCType>,
        chain: bool,
        touch: Touch,
        count: int,
        depth: nat,
    )
        requires
            self.answers == other.answers,
            self.top_level_id == other.top_level_id,
        ensures
            self.dying_variants(variants, args, chain, touch, count, depth)
                == other.dying_variants(variants, args, chain, touch, count, depth),
        decreases count,
    {
        if count > 0 {
            self.dying_variants_go_by_the_item(
                other,
                variants,
                args,
                chain,
                touch,
                count - 1,
                depth,
            );
            let payloads = variants[count - 1].1@;
            self.dying_fields_go_by_the_item(
                other,
                payloads,
                args,
                (count - 1) as u32,
                chain,
                touch,
                payloads.len() as int,
                depth,
            );
        }
    }

    proof fn dying_body_goes_by_the_item(
        self,
        other: Lowering,
        args: Seq<TCType>,
        chain: bool,
        touch: Touch,
        depth: nat,
    )
        requires
            self.answers == other.answers,
            self.top_level_id == other.top_level_id,
        ensures
            self.dying_body(self.top_level_id, args, chain, touch, depth) == other.dying_body(
                self.top_level_id,
                args,
                chain,
                touch,
                depth,
            ),
    {
        match self.body_of(self.top_level_id, args) {
            Some(TypeBody::Product(fields)) => {
                self.dying_fields_go_by_the_item(
                    other,
                    types_of_fields(fields@),
                    args,
                    0,
                    chain,
                    touch,
                    fields@.len() as int,
                    depth,
                );
            },
            Some(TypeBody::Sum(variants)) => {
                self.dying_variants_go_by_the_item(
                    other,
                    variants@,
                    args,
                    chain,
                    touch,
                    variants@.len() as int,
                    depth,
                );
            },
            None => {},
        }
    }

    proof fn no_field_is_kept_back(
        self,
        types: Seq<TCType>,
        args: Seq<TCType>,
        variant: u32,
        touch: Touch,
        count: int,
        depth: nat,
    )
        ensures
            self.dying_fields(types, args, variant, false, touch, count, depth)
                == if touch is KeepBack {
                Seq::empty()
            } else {
                self.counted_fields(types, variant, false, count, depth)
            },
        decreases count,
    {
        if count > 0 {
            self.no_field_is_kept_back(types, args, variant, touch, count - 1, depth);
            let part: Part = (variant, (count - 1) as u32);
            assert(Seq::<Seq<Part>>::empty() + under(part, Seq::empty()) =~= Seq::empty());
        }
    }

    proof fn no_payload_is_kept_back(
        self,
        variants: Seq<(String, Vec<TCType>)>,
        args: Seq<TCType>,
        touch: Touch,
        count: int,
        depth: nat,
    )
        ensures
            self.dying_variants(variants, args, false, touch, count, depth)
                == if touch is KeepBack {
                Seq::empty()
            } else {
                self.counted_variants(variants, false, count, depth)
            },
        decreases count,
    {
        if count > 0 {
            self.no_payload_is_kept_back(variants, args, touch, count - 1, depth);
            let payloads = variants[count - 1].1@;
            self.no_field_is_kept_back(
                payloads,
                args,
                (count - 1) as u32,
                touch,
                payloads.len() as int,
                depth,
            );
            assert(Seq::<Seq<Part>>::empty() + Seq::empty() =~= Seq::empty());
        }
    }

    /// What is in no chain keeps nothing back.
    proof fn nothing_is_kept_back(
        self,
        item: TopLevelId,
        args: Seq<TCType>,
        touch: Touch,
        depth: nat,
    )
        ensures
            self.dying_body(item, args, false, touch, depth) == if touch is KeepBack {
                Seq::empty()
            } else {
                self.counted_in_body(item, args, false, depth)
            },
    {
        match self.body_of(item, args) {
            Some(TypeBody::Product(fields)) => {
                self.no_field_is_kept_back(
                    types_of_fields(fields@),
                    args,
                    0,
                    touch,
                    fields@.len() as int,
                    depth,
                );
            },
            Some(TypeBody::Sum(variants)) => {
                self.no_payload_is_kept_back(
                    variants@,
                    args,
                    touch,
                    variants@.len() as int,
                    depth,
                );
            },
            None => {},
        }
    }

    proof fn keeping_a_field_touches(
        self,
        value: Value,
        payloads: Value,
        part: Part,
        typ: TCType,
        slot: Value,
        touch: Touch,
    )
        requires
            self.is_open(),
            is_of_a_release(touch, Some(slot)),
            holds_payloads(self.operations(), value, payloads),
            self.field_deferred(payloads, part.1, typ, slot).fits(),
        ensures
            self.goes_on(self.field_deferred(payloads, part.1, typ, slot)),
            touches(
                self.operations(),
                self.field_deferred(payloads, part.1, typ, slot).operations(),
                value,
                under(
                    part,
                    if touch is KeepBack {
                        seq![Seq::empty()]
                    } else {
                        Seq::empty()
                    },
                ),
                touch,
            ),
    {
        reveal(Lowering::field_deferred);
        let parts: Seq<Seq<Part>> = if touch is KeepBack {
            seq![Seq::empty()]
        } else {
            Seq::empty()
        };
        let taken = Operation::IndexTuple { tuple: payloads, index: part.1 };
        let (field, made) = self.pushed(taken, self.layout(typ));
        let store = Operation::Store { pointer: slot, value: field };
        let after = made.pushed(store, Type::unit()).1;
        self.pushing_goes_on(taken, self.layout(typ));
        made.pushing_goes_on(store, Type::unit());
        self.a_field_is_a_part(value, payloads, part, self.layout(typ), touch);
        self.goes_on_through(made, after);
        one_step_touches(made.operations(), store, field, touch);
        assert(touches(made.operations(), after.operations(), field, parts, touch));
        parts_stay(made.operations(), after.operations(), value, seq![part], field);
        touching_under_a_field(
            made.operations(),
            after.operations(),
            value,
            part,
            field,
            parts,
            touch,
        );
        touching_goes_on(
            self.operations(),
            made.operations(),
            after.operations(),
            value,
            Seq::empty(),
            under(part, parts),
            touch,
        );
        assert(Seq::empty() + under(part, parts) =~= under(part, parts));
    }

    proof fn calling_a_release_touches(
        self,
        handle: Value,
        item: TopLevelId,
        args: Seq<TCType>,
        touch: Touch,
    )
        requires
            self.is_open(),
            touch is Release || touch is KeepBack,
        ensures
            self.goes_on(self.release_called(handle, item, args).1),
            touches(
                self.operations(),
                self.release_called(handle, item, args).1.operations(),
                handle,
                if touch is Release {
                    seq![Seq::empty()]
                } else {
                    Seq::empty()
                },
                touch,
            ),
    {
        let parts: Seq<Seq<Part>> = if touch is Release {
            seq![Seq::empty()]
        } else {
            Seq::empty()
        };
        reveal(Lowering::release_called);
        reveal(Lowering::id_of);
        reveal(Lowering::definition_value);
        let (id, named) = self.id_of(
            TopLevelName { top_level_item: item, local_name_id: RELEASE_FUNCTION },
        );
        let instantiate = Operation::Instantiate(id, named.layouts_of(args));
        named.pushing_goes_on(instantiate, release_signature());
        one_step_touches(self.operations(), instantiate, handle, touch);
        no_step_touches(self.operations(), handle, touch);
        let (function, made) = if args.len() == 0 {
            named.definition_value(id, "release"@, release_signature())
        } else {
            named.pushed(instantiate, release_signature())
        };
        let call = Operation::Call { function, arguments: seq![handle] };
        made.pushing_goes_on(call, Type::unit());
        let after = made.pushed(call, Type::unit()).1;
        one_step_touches(made.operations(), call, handle, touch);
        self.goes_on_through(made, after);
        touching_goes_on(
            self.operations(),
            made.operations(),
            after.operations(),
            handle,
            Seq::empty(),
            parts,
            touch,
        );
        assert(Seq::empty() + parts =~= parts);
    }

    proof fn releasing_touches(self, value: Value, typ: TCType, depth: nat, touch: Touch)
        requires
            self.is_open(),
            depth <= NESTING_LIMIT,
            touch is Release || touch is KeepBack,
            self.released(value, typ, depth).fits(),
            !self.released(value, typ, depth).failed,
        ensures
            self.goes_on(self.released(value, typ, depth)),
            touches(
                self.operations(),
                self.released(value, typ, depth).operations(),
                value,
                self.dying_parts(typ, touch, depth),
                touch,
            ),
        decreases depth, 0nat, 0int,
    {
        no_step_touches(self.operations(), value, touch);
        if depth > 0 {
            let inner = (depth - 1) as nat;
            match self.shared_target(typ) {
                Some((item, args)) => {
                    self.calling_a_release_touches(value, item, args, touch);
                },
                None => match self.follow(typ) {
                    TCType::Tuple(elements) => {
                        let types = elements.items();
                        self.releasing_fields_touches(
                            value,
                            value,
                            types,
                            Seq::empty(),
                            None,
                            0,
                            types.len() as int,
                            inner,
                            touch,
                        );
                        self.no_field_is_kept_back(
                            types,
                            Seq::empty(),
                            0,
                            touch,
                            types.len() as int,
                            inner,
                        );
                    },
                    _ => match self.aggregate_target(typ) {
                        Some((item, args)) => {
                            reveal(Lowering::aggregate_target);
                            self.releasing_a_body_touches(value, item, args, None, inner, touch);
                            self.nothing_is_kept_back(item, args, touch, inner);
                        },
                        None => {},
                    },
                },
            }
        }
    }

    proof fn releasing_a_field_touches(
        self,
        value: Value,
        payloads: Value,
        part: Part,
        typ: TCType,
        depth: nat,
        touch: Touch,
    )
        requires
            self.is_open(),
            depth <= NESTING_LIMIT,
            touch is Release || touch is KeepBack,
            holds_payloads(self.operations(), value, payloads),
            self.field_released(payloads, part.1, typ, depth).fits(),
            !self.field_released(payloads, part.1, typ, depth).failed,
        ensures
            self.goes_on(self.field_released(payloads, part.1, typ, depth)),
            touches(
                self.operations(),
                self.field_released(payloads, part.1, typ, depth).operations(),
                value,
                under(part, self.dying_parts(typ, touch, depth)),
                touch,
            ),
        decreases depth, 1nat, 0int,
    {
        let parts = self.dying_parts(typ, touch, depth);
        let after = self.field_released(payloads, part.1, typ, depth);
        let passed_by = self.shared_target(typ) is None && self.aggregate_target(typ) is None && !(
        self.follow(typ) is Tuple);
        if passed_by {
            assert(parts =~= Seq::empty());
            no_step_touches(self.operations(), value, touch);
            assert(under(part, parts) =~= Seq::empty());
        } else {
            let taken = Operation::IndexTuple { tuple: payloads, index: part.1 };
            let (field, made) = self.pushed(taken, self.layout(typ));
            releasing_keeps(made, field, typ, depth);
            made.fitting_goes_back(after);
            self.a_field_is_a_part(value, payloads, part, self.layout(typ), touch);
            made.releasing_touches(field, typ, depth, touch);
            self.goes_on_through(made, after);
            self.parts_go_by_the_answers(made, typ, false, depth);
            parts_stay(made.operations(), after.operations(), value, seq![part], field);
            touching_under_a_field(
                made.operations(),
                after.operations(),
                value,
                part,
                field,
                parts,
                touch,
            );
            touching_goes_on(
                self.operations(),
                made.operations(),
                after.operations(),
                value,
                Seq::empty(),
                under(part, parts),
                touch,
            );
            assert(Seq::empty() + under(part, parts) =~= under(part, parts));
        }
    }

    proof fn releasing_fields_touches(
        self,
        value: Value,
        payloads: Value,
        types: Seq<TCType>,
        args: Seq<TCType>,
        slot: Option<Value>,
        variant: u32,
        count: int,
        depth: nat,
        touch: Touch,
    )
        requires
            self.is_open(),
            depth <= NESTING_LIMIT,
            is_of_a_release(touch, slot),
            holds_payloads(self.operations(), value, payloads),
            self.fields_released(payloads, types, args, slot, count, depth).fits(),
            !self.fields_released(payloads, types, args, slot, count, depth).failed,
        ensures
            self.goes_on(self.fields_released(payloads, types, args, slot, count, depth)),
            touches(
                self.operations(),
                self.fields_released(payloads, types, args, slot, count, depth).operations(),
                value,
                self.dying_fields(types, args, variant, slot is Some, touch, count, depth),
                touch,
            ),
        decreases depth, 2nat, count,
    {
        if count <= 0 {
            no_step_touches(self.operations(), value, touch);
        } else {
            let made = self.fields_released(payloads, types, args, slot, count - 1, depth);
            let after = self.fields_released(payloads, types, args, slot, count, depth);
            let part: Part = (variant, (count - 1) as u32);
            let typ = types[count - 1];
            let is_last = self.last_self(types, args, types.len() as int) == Some(count - 1);
            releasing_fields_keeps(self, payloads, types, args, slot, count - 1, depth);
            self.the_item_stays(made);
            self.selves_go_by_the_item(made, types, args, types.len() as int);
            if slot is Some && is_last {
                keeps_field_deferred(made, payloads, part.1, typ, slot.unwrap());
            } else {
                releasing_a_field_keeps(made, payloads, part.1, typ, depth);
            }
            made.fitting_goes_back(after);
            self.releasing_fields_touches(
                value,
                payloads,
                types,
                args,
                slot,
                variant,
                count - 1,
                depth,
                touch,
            );
            payloads_stay(self.operations(), made.operations(), value, payloads);
            let parts = if slot is Some && is_last {
                made.keeping_a_field_touches(value, payloads, part, typ, slot.unwrap(), touch);
                if touch is KeepBack {
                    seq![Seq::empty()]
                } else {
                    Seq::empty()
                }
            } else {
                made.releasing_a_field_touches(value, payloads, part, typ, depth, touch);
                self.parts_go_by_the_answers(made, typ, false, depth);
                self.dying_parts(typ, touch, depth)
            };
            self.goes_on_through(made, after);
            touching_goes_on(
                self.operations(),
                made.operations(),
                after.operations(),
                value,
                self.dying_fields(types, args, variant, slot is Some, touch, count - 1, depth),
                under(part, parts),
                touch,
            );
        }
    }

    proof fn releasing_variants_touches(
        self,
        value: Value,
        variants: Seq<(String, Vec<TCType>)>,
        args: Seq<TCType>,
        slot: Option<Value>,
        edges: Edges,
        end: BlockId,
        first: int,
        count: int,
        depth: nat,
        touch: Touch,
    )
        requires
            self.is_switched(edges, end, first, variants.len() as int),
            0 <= count <= variants.len(),
            depth <= NESTING_LIMIT,
            is_of_a_release(touch, slot),
            self.variants_released(value, variants, args, slot, edges, end, count, depth).fits(),
            !self.variants_released(value, variants, args, slot, edges, end, count, depth).failed,
        ensures
            ({
                let after = self.variants_released(
                    value,
                    variants,
                    args,
                    slot,
                    edges,
                    end,
                    count,
                    depth,
                );
                &&& after.function is Some
                &&& after.answers == self.answers
                &&& after.top_level_id == self.top_level_id
                &&& self.operations().is_prefix_of(after.operations())
                &&& self.blocks().len() <= after.blocks().len()
                &&& forall|b: int|
                    0 <= b < self.blocks().len() && !(first <= b < first + count)
                        ==> #[trigger] after.blocks()[b] == self.blocks()[b]
                &&& touches(
                    self.operations(),
                    after.operations(),
                    value,
                    self.dying_variants(variants, args, slot is Some, touch, count, depth),
                    touch,
                )
            }),
        decreases depth, 3nat, count,
    {
        broadcast use {
            kept_is_reflexive,
            kept_is_transitive,
            keeps_switched_to,
            keeps_terminated,
            keeps_variant_of,
        };

        if count <= 0 {
            no_step_touches(self.operations(), value, touch);
        } else {
            let made = self.variants_released(
                value,
                variants,
                args,
                slot,
                edges,
                end,
                count - 1,
                depth,
            );
            let after = self.variants_released(
                value,
                variants,
                args,
                slot,
                edges,
                end,
                count,
                depth,
            );
            let inside = made.switched_to(edges[count - 1].1.0);
            let payloads = variants[count - 1].1@;
            let variant = (count - 1) as u32;
            let (taken, extracted) = inside.variant_of(value, variant);
            let walked = extracted.fields_released(
                taken,
                payloads,
                args,
                slot,
                payloads.len() as int,
                depth,
            );
            releasing_fields_keeps(
                extracted,
                taken,
                payloads,
                args,
                slot,
                payloads.len() as int,
                depth,
            );
            let done = if payloads.len() == 0 {
                inside
            } else {
                walked
            };
            made.fitting_goes_back(after);
            inside.fitting_goes_back(after);
            done.fitting_goes_back(after);
            self.releasing_variants_touches(
                value,
                variants,
                args,
                slot,
                edges,
                end,
                first,
                count - 1,
                depth,
                touch,
            );
            let at = first + count - 1;
            assert(made.blocks()[at] == self.blocks()[at]);
            let parts = self.dying_fields(
                payloads,
                args,
                variant,
                slot is Some,
                touch,
                payloads.len() as int,
                depth,
            );
            made.the_item_stays(done);
            if payloads.len() == 0 {
                no_step_touches(inside.operations(), value, touch);
            } else {
                extracted.fitting_goes_back(after);
                inside.taking_a_variant_goes_on(value, variant, touch);
                extracted.releasing_fields_touches(
                    value,
                    taken,
                    payloads,
                    args,
                    slot,
                    variant,
                    payloads.len() as int,
                    depth,
                    touch,
                );
                inside.goes_on_through(extracted, done);
                inside.the_item_stays(extracted);
                self.dying_fields_go_by_the_item(
                    extracted,
                    payloads,
                    args,
                    variant,
                    slot is Some,
                    touch,
                    payloads.len() as int,
                    depth,
                );
                touching_goes_on(
                    inside.operations(),
                    extracted.operations(),
                    done.operations(),
                    value,
                    Seq::empty(),
                    parts,
                    touch,
                );
                assert(Seq::empty() + parts =~= parts);
            }
            reveal(Lowering::terminated);
            assert(after.operations() == done.operations());
            touching_goes_on(
                self.operations(),
                made.operations(),
                after.operations(),
                value,
                self.dying_variants(variants, args, slot is Some, touch, count - 1, depth),
                parts,
                touch,
            );
            assert forall|b: int|
                0 <= b < self.blocks().len() && !(first <= b < first + count)
                implies #[trigger] after.blocks()[b]
                == self.blocks()[b] by {
                assert(made.blocks()[b] == self.blocks()[b]);
                assert(done.blocks()[b] == inside.blocks()[b]);
            }
        }
    }

    proof fn releasing_a_body_touches(
        self,
        value: Value,
        item: TopLevelId,
        args: Seq<TCType>,
        slot: Option<Value>,
        depth: nat,
        touch: Touch,
    )
        requires
            self.is_open(),
            depth <= NESTING_LIMIT,
            is_of_a_release(touch, slot),
            self.body_released(value, item, args, slot, depth).fits(),
            !self.body_released(value, item, args, slot, depth).failed,
        ensures
            self.goes_on(self.body_released(value, item, args, slot, depth)),
            touches(
                self.operations(),
                self.body_released(value, item, args, slot, depth).operations(),
                value,
                self.dying_body(item, args, slot is Some, touch, depth),
                touch,
            ),
        decreases depth, 4nat, 0int,
    {
        let after = self.body_released(value, item, args, slot, depth);
        let parts = self.dying_body(item, args, slot is Some, touch, depth);
        match self.body_of(item, args) {
            Some(TypeBody::Product(fields)) => {
                let (taken, made) = self.variant_of(value, 0);
                let types = types_of_fields(fields@);
                releasing_fields_keeps(made, taken, types, args, slot, types.len() as int, depth);
                made.fitting_goes_back(after);
                self.taking_a_variant_goes_on(value, 0, touch);
                made.releasing_fields_touches(
                    value,
                    taken,
                    types,
                    args,
                    slot,
                    0,
                    types.len() as int,
                    depth,
                    touch,
                );
                self.goes_on_through(made, after);
                keeps_variant_of(self, value, 0);
                self.the_item_stays(made);
                self.dying_fields_go_by_the_item(
                    made,
                    types,
                    args,
                    0,
                    slot is Some,
                    touch,
                    types.len() as int,
                    depth,
                );
                touching_goes_on(
                    self.operations(),
                    made.operations(),
                    after.operations(),
                    value,
                    Seq::empty(),
                    parts,
                    touch,
                );
                assert(Seq::empty() + parts =~= parts);
            },
            Some(TypeBody::Sum(listed)) => {
                let variants = listed@;
                let count = variants.len() as int;
                let (edges, end, made) = self.variants_switched(value, count);
                let walked = made.variants_released(
                    value,
                    variants,
                    args,
                    slot,
                    edges,
                    end,
                    count,
                    depth,
                );
                releasing_variants_keeps(
                    made,
                    value,
                    variants,
                    args,
                    slot,
                    edges,
                    end,
                    count,
                    depth,
                );
                keeps_switched_to(walked, end);
                walked.fitting_goes_back(after);
                made.fitting_goes_back(walked);
                self.switching_opens_the_cases(value, count, touch);
                let first = self.blocks().len() + 2int;
                made.releasing_variants_touches(
                    value,
                    variants,
                    args,
                    slot,
                    edges,
                    end,
                    first,
                    count,
                    depth,
                    touch,
                );
                keeps_variants_switched(self, value, count);
                self.the_item_stays(made);
                self.dying_variants_go_by_the_item(
                    made,
                    variants,
                    args,
                    slot is Some,
                    touch,
                    count,
                    depth,
                );
                touching_goes_on(
                    self.operations(),
                    made.operations(),
                    after.operations(),
                    value,
                    Seq::empty(),
                    parts,
                    touch,
                );
                assert(Seq::empty() + parts =~= parts);
                assert(walked.blocks()[end as int] == made.blocks()[end as int]);
                assert forall|b: int|
                    0 <= b < self.blocks().len() && b != self.block
                    implies #[trigger] after.blocks()[b]
                    == self.blocks()[b] by {
                    assert(made.blocks()[b] == self.blocks()[b]);
                }
            },
            None => {
                no_step_touches(self.operations(), value, touch);
            },
        }
    }

    /// A copy of a value retains each handle in the value once, and nothing else: the handles to
    /// cells, and the environments of closures.
    pub proof fn law_a_copy_retains_each_handle(self, value: Value, typ: TCType)
        requires
            self.is_open(),
            self.value_retained(value, typ).fits(),
            !self.value_retained(value, typ).failed,
        ensures
            self.goes_on(self.value_retained(value, typ)),
            touches(
                self.operations(),
                self.value_retained(value, typ).operations(),
                value,
                self.counted_parts(typ, false, NESTING_LIMIT as nat),
                Touch::Retain,
            ),
            touches(
                self.operations(),
                self.value_retained(value, typ).operations(),
                value,
                self.counted_parts(typ, true, NESTING_LIMIT as nat),
                Touch::RetainEnv,
            ),
    {
        reveal(Lowering::value_retained);
        self.retaining_touches(value, typ, NESTING_LIMIT as nat, Touch::Retain);
        self.retaining_touches(value, typ, NESTING_LIMIT as nat, Touch::RetainEnv);
    }

    /// A cell that dies releases each handle to a cell that it holds once, and nothing else. In a
    /// chain, where there is a slot, it does not release the last one of its own type in the fields
    /// of a variant: it stores that one into the slot once, to be released next, and nothing else.
    pub proof fn law_a_dying_cell_releases_each_handle(
        self,
        handle: Value,
        typ: TCType,
        args: Seq<TCType>,
        slot: Option<Value>,
    )
        requires
            self.is_open(),
            self.cell_released(handle, typ, args, slot).fits(),
            !self.cell_released(handle, typ, args, slot).failed,
        ensures
            ({
                let (cell, made) = self.dereferenced(handle, typ);
                let after = self.cell_released(handle, typ, args, slot);
                let item = self.top_level_id;
                let depth = NESTING_LIMIT as nat;
                &&& self.goes_on(after)
                &&& match slot {
                    None => touches(
                        made.operations(),
                        after.operations(),
                        cell,
                        self.counted_in_body(item, args, false, depth),
                        Touch::Release,
                    ),
                    Some(slot) => touches(
                        made.operations(),
                        after.operations(),
                        cell,
                        self.dying_body(item, args, true, Touch::Release, depth),
                        Touch::Release,
                    ) && touches(
                        made.operations(),
                        after.operations(),
                        cell,
                        self.dying_body(item, args, true, Touch::KeepBack(slot), depth),
                        Touch::KeepBack(slot),
                    ),
                }
            }),
    {
        reveal(Lowering::cell_released);
        keeps_dereferenced(self, handle, typ);
        let after = self.cell_released(handle, typ, args, slot);
        let (inner, made) = self.dereferenced(handle, typ);
        let depth = NESTING_LIMIT as nat;
        let item = self.top_level_id;
        self.the_item_stays(made);
        assert(self.goes_on(made)) by {
            reveal(Lowering::dereferenced);
            match self.shared_layout(typ) {
                Some(layout) => {
                    self.pushing_goes_on(Operation::Deref(handle), layout);
                },
                None => {},
            }
        }
        made.releasing_a_body_touches(inner, item, args, slot, depth, Touch::Release);
        self.goes_on_through(made, after);
        self.dying_body_goes_by_the_item(made, args, slot is Some, Touch::Release, depth);
        match slot {
            None => {
                self.nothing_is_kept_back(item, args, Touch::Release, depth);
            },
            Some(kept) => {
                let touch = Touch::KeepBack(kept);
                made.releasing_a_body_touches(inner, item, args, slot, depth, touch);
                self.dying_body_goes_by_the_item(made, args, true, touch, depth);
            },
        }
    }

    proof fn last_self_is_last(self, types: Seq<TCType>, args: Seq<TCType>, count: int)
        requires
            0 <= count <= types.len(),
        ensures
            match self.last_self(types, args, count) {
                Some(last) => 0 <= last < count && self.is_self(types[last], args) && forall|i: int|
                    last < i < count ==> !self.is_self(#[trigger] types[i], args),
                None => forall|i: int|
                    0 <= i < count ==> !self.is_self(#[trigger] types[i], args),
            },
        decreases count,
    {
        reveal(Lowering::last_self);
        if count > 0 {
            self.last_self_is_last(types, args, count - 1);
        }
    }

    proof fn one_field_is_kept_back(
        self,
        types: Seq<TCType>,
        args: Seq<TCType>,
        variant: u32,
        slot: Value,
        count: int,
        depth: nat,
    )
        requires
            0 <= count <= types.len() <= u32::MAX,
        ensures
            self.dying_fields(types, args, variant, true, Touch::KeepBack(slot), count, depth)
                == match self.last_self(types, args, types.len() as int) {
                Some(last) => if last < count {
                    seq![seq![(variant, last as u32)]]
                } else {
                    Seq::empty()
                },
                None => Seq::empty(),
            },
            self.last_self(types, args, types.len() as int) matches Some(last) ==> forall|i: int|
                0 <= i < self.dying_fields(
                    types,
                    args,
                    variant,
                    true,
                    Touch::Release,
                    count,
                    depth,
                ).len() ==> (#[trigger] self.dying_fields(
                    types,
                    args,
                    variant,
                    true,
                    Touch::Release,
                    count,
                    depth,
                )[i])[0] != (variant, last as u32),
        decreases count,
    {
        self.last_self_is_last(types, args, types.len() as int);
        if count > 0 {
            self.one_field_is_kept_back(types, args, variant, slot, count - 1, depth);
            let part: Part = (variant, (count - 1) as u32);
            assert(under(part, seq![Seq::empty()]) =~= seq![seq![part]]) by {
                assert(seq![part] + Seq::empty() =~= seq![part]);
            }
            assert(under(part, Seq::empty()) =~= Seq::empty());
            assert(Seq::<Seq<Part>>::empty() + Seq::empty() =~= Seq::empty());
            assert(Seq::<Seq<Part>>::empty() + seq![seq![part]] =~= seq![seq![part]]);
            match self.last_self(types, args, types.len() as int) {
                Some(last) => {
                    let touch = Touch::Release;
                    let earlier = self.dying_fields(
                        types,
                        args,
                        variant,
                        true,
                        touch,
                        count - 1,
                        depth,
                    );
                    let all = self.dying_fields(types, args, variant, true, touch, count, depth);
                    let own = self.dying_parts(types[count - 1], touch, depth);
                    assert forall|i: int| 0 <= i < all.len() implies (#[trigger] all[i])[0] != (
                        variant,
                        last as u32,
                    ) by {
                        if i < earlier.len() {
                            assert(all[i] == earlier[i]);
                        } else {
                            assert(all[i] == under(part, own)[i - earlier.len()]);
                            assert(all[i] == seq![part] + own[i - earlier.len()]);
                        }
                    }
                    let kept_back: Seq<Seq<Part>> = seq![seq![(variant, last as u32)]];
                    assert(kept_back + Seq::empty() =~= kept_back);
                },
                None => {},
            }
        }
    }

    /// In a chain, one handle in the fields or payloads of each variant is kept back for the next
    /// round, and is not released in this one: the last that is of the type itself. Where there is
    /// none, nothing is kept back.
    pub proof fn law_a_chain_keeps_back_the_last_handle(
        self,
        types: Seq<TCType>,
        args: Seq<TCType>,
        variant: u32,
        slot: Value,
        depth: nat,
    )
        requires
            types.len() <= u32::MAX,
        ensures
            ({
                let count = types.len() as int;
                let touch = Touch::KeepBack(slot);
                let released = self.dying_fields(
                    types,
                    args,
                    variant,
                    true,
                    Touch::Release,
                    count,
                    depth,
                );
                let stored = self.dying_fields(types, args, variant, true, touch, count, depth);
                match self.last_self(types, args, count) {
                    Some(last) => {
                        &&& 0 <= last < count
                        &&& self.is_self(types[last], args)
                        &&& forall|i: int|
                            last < i < count ==> !self.is_self(#[trigger] types[i], args)
                        &&& stored == seq![seq![(variant, last as u32)]]
                        &&& !released.contains(seq![(variant, last as u32)])
                    },
                    None => {
                        &&& forall|i: int|
                            0 <= i < count ==> !self.is_self(#[trigger] types[i], args)
                        &&& stored == Seq::<Seq<Part>>::empty()
                    },
                }
            }),
    {
        self.last_self_is_last(types, args, types.len() as int);
        self.one_field_is_kept_back(types, args, variant, slot, types.len() as int, depth);
    }

    proof fn no_field_is_lost(
        self,
        types: Seq<TCType>,
        args: Seq<TCType>,
        variant: u32,
        slot: Value,
        count: int,
        depth: nat,
    )
        requires
            depth > 0,
            0 <= count <= types.len(),
        ensures
            self.counted_fields(types, variant, false, count, depth).to_multiset()
                == self.dying_fields(
                types,
                args,
                variant,
                true,
                Touch::Release,
                count,
                depth,
            ).to_multiset().add(
                self.dying_fields(
                    types,
                    args,
                    variant,
                    true,
                    Touch::KeepBack(slot),
                    count,
                    depth,
                ).to_multiset(),
            ),
        decreases count,
    {
        broadcast use {
            vstd::seq_lib::lemma_multiset_commutative,
            vstd::multiset::group_multiset_axioms,
        };

        no_parts_are_no_multiset();
        if count > 0 {
            self.no_field_is_lost(types, args, variant, slot, count - 1, depth);
            self.last_self_is_last(types, args, types.len() as int);
            let part: Part = (variant, (count - 1) as u32);
            let all = self.counted_parts(types[count - 1], false, depth);
            let earlier = self.counted_fields(types, variant, false, count - 1, depth);
            let stored = Touch::KeepBack(slot);
            let released = Touch::Release;
            let first = self.dying_fields(types, args, variant, true, released, count - 1, depth);
            let second = self.dying_fields(types, args, variant, true, stored, count - 1, depth);
            assert(under(part, Seq::empty()) =~= Seq::empty());
            assert((earlier + under(part, all)).to_multiset() =~= first.to_multiset().add(
                second.to_multiset(),
            ).add(under(part, all).to_multiset()));
            if self.last_self(types, args, types.len() as int) == Some(count - 1) {
                assert(all == seq![Seq::<Part>::empty()]);
                assert(first + Seq::empty() =~= first);
                assert(first.to_multiset().add(second.to_multiset()).add(
                    under(part, all).to_multiset(),
                ) =~= first.to_multiset().add((second + under(part, all)).to_multiset()));
            } else {
                assert(second + Seq::empty() =~= second);
                assert(first.to_multiset().add(second.to_multiset()).add(
                    under(part, all).to_multiset(),
                ) =~= (first + under(part, all)).to_multiset().add(second.to_multiset()));
            }
        }
    }

    proof fn no_payload_is_lost(
        self,
        variants: Seq<(String, Vec<TCType>)>,
        args: Seq<TCType>,
        slot: Value,
        count: int,
        depth: nat,
    )
        requires
            depth > 0,
            0 <= count <= variants.len(),
        ensures
            self.counted_variants(variants, false, count, depth).to_multiset()
                == self.dying_variants(
                variants,
                args,
                true,
                Touch::Release,
                count,
                depth,
            ).to_multiset().add(
                self.dying_variants(
                    variants,
                    args,
                    true,
                    Touch::KeepBack(slot),
                    count,
                    depth,
                ).to_multiset(),
            ),
        decreases count,
    {
        broadcast use {
            vstd::seq_lib::lemma_multiset_commutative,
            vstd::multiset::group_multiset_axioms,
        };

        no_parts_are_no_multiset();
        if count > 0 {
            self.no_payload_is_lost(variants, args, slot, count - 1, depth);
            let payloads = variants[count - 1].1@;
            self.no_field_is_lost(
                payloads,
                args,
                (count - 1) as u32,
                slot,
                payloads.len() as int,
                depth,
            );
        }
    }

    /// No handle in a cell is lost in a chain: those that are released and those that are kept back
    /// for the next round are together all that the cell holds, each of them once.
    pub proof fn law_a_chain_loses_no_handle(self, args: Seq<TCType>, slot: Value)
        ensures
            ({
                let item = self.top_level_id;
                let depth = NESTING_LIMIT as nat;
                let released = self.dying_body(item, args, true, Touch::Release, depth);
                let stored = self.dying_body(item, args, true, Touch::KeepBack(slot), depth);
                self.counted_in_body(item, args, false, depth).to_multiset()
                    == released.to_multiset().add(stored.to_multiset())
            }),
    {
        let depth = NESTING_LIMIT as nat;
        match self.body_of(self.top_level_id, args) {
            Some(TypeBody::Product(fields)) => {
                let types = types_of_fields(fields@);
                self.no_field_is_lost(types, args, 0, slot, fields@.len() as int, depth);
            },
            Some(TypeBody::Sum(variants)) => {
                self.no_payload_is_lost(variants@, args, slot, variants@.len() as int, depth);
            },
            None => {
                no_parts_are_no_multiset();
            },
        }
    }

    /// What is retained of a value where it is copied is released where it dies: the same parts,
    /// each once, in the same order.
    pub proof fn law_retains_and_releases_are_symmetric(
        self,
        other: Lowering,
        value: Value,
        copy: Value,
        typ: TCType,
    )
        requires
            self.answers == other.answers,
            self.is_open(),
            self.value_retained(value, typ).fits(),
            !self.value_retained(value, typ).failed,
            other.is_open(),
            other.released(copy, typ, NESTING_LIMIT as nat).fits(),
            !other.released(copy, typ, NESTING_LIMIT as nat).failed,
        ensures
            ({
                let paths = self.counted_parts(typ, false, NESTING_LIMIT as nat);
                &&& touches(
                    self.operations(),
                    self.value_retained(value, typ).operations(),
                    value,
                    paths,
                    Touch::Retain,
                )
                &&& touches(
                    other.operations(),
                    other.released(copy, typ, NESTING_LIMIT as nat).operations(),
                    copy,
                    paths,
                    Touch::Release,
                )
            }),
    {
        self.law_a_copy_retains_each_handle(value, typ);
        other.releasing_touches(copy, typ, NESTING_LIMIT as nat, Touch::Release);
        self.parts_go_by_the_answers(other, typ, false, NESTING_LIMIT as nat);
    }
}

} // verus!
