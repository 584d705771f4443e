//! What lowering an expression asks about its place, and the order fields are packed in.

use crate::collections::{map_get, set_contains};
#[allow(unused_imports)]
use crate::collections::lookup;
use crate::cst::{Argument, Expr};
#[allow(unused_imports)]
use crate::cst::ExprForm;
use crate::ids::{ExprId, NameId, Origin, NESTING_LIMIT};
use crate::mir::builder::state::{Builder, TCType};
#[allow(unused_imports)]
use crate::mir::builder::state::Lowering;
use crate::mir::{Type, Value};
use crate::types::IntegerKind;
use vstd::prelude::*;

verus! {

pub open spec fn is_signed(kind: IntegerKind) -> bool {
    match kind {
        IntegerKind::I8
        | IntegerKind::I16
        | IntegerKind::I32
        | IntegerKind::I64
        | IntegerKind::Isz => true,
        _ => false,
    }
}

pub fn check_signed(kind: IntegerKind) -> (signed: bool)
    ensures
        signed == is_signed(kind),
{
    match kind {
        IntegerKind::I8 => true,
        IntegerKind::I16 => true,
        IntegerKind::I32 => true,
        IntegerKind::I64 => true,
        IntegerKind::Isz => true,
        _ => false,
    }
}

/// How many of the first `count` items come before one at `place`: those behind them come later.
pub open spec fn places_up_to(items: Seq<(u32, Value)>, place: u32, count: int) -> int
    decreases count,
{
    if count <= 0 || items[count - 1].0 <= place {
        count
    } else {
        places_up_to(items, place, count - 1)
    }
}

/// The items with one more among them, behind those that do not come later.
pub open spec fn with_item(items: Seq<(u32, Value)>, item: (u32, Value)) -> Seq<(u32, Value)> {
    items.insert(places_up_to(items, item.0, items.len() as int), item)
}

/// Each item comes no earlier than the one before it.
pub open spec fn is_by_place(items: Seq<(u32, Value)>) -> bool {
    forall|i: int, j: int| 0 <= i <= j < items.len() ==> items[i].0 <= items[j].0
}

pub open spec fn values_of(items: Seq<(u32, Value)>) -> Seq<Value> {
    items.map_values(|item: (u32, Value)| item.1)
}

pub open spec fn exprs_of(arguments: Seq<Argument>) -> Seq<ExprId> {
    arguments.map_values(|argument: Argument| argument.expr)
}

proof fn places_split(items: Seq<(u32, Value)>, place: u32, count: int)
    requires
        is_by_place(items),
        0 <= count <= items.len(),
        forall|i: int| count <= i < items.len() ==> place < (#[trigger] items[i]).0,
    ensures
        0 <= places_up_to(items, place, count) <= count,
        forall|i: int|
            0 <= i < places_up_to(items, place, count) ==> (#[trigger] items[i]).0 <= place,
        forall|i: int|
            places_up_to(items, place, count) <= i < items.len() ==> place < (
            #[trigger] items[i]).0,
    decreases count,
{
    if count > 0 && items[count - 1].0 > place {
        places_split(items, place, count - 1);
    }
}

proof fn order_is_kept(items: Seq<(u32, Value)>, item: (u32, Value))
    requires
        is_by_place(items),
    ensures
        is_by_place(with_item(items, item)),
        with_item(items, item).to_multiset() == items.to_multiset().insert(item),
{
    places_split(items, item.0, items.len() as int);
    let place = places_up_to(items, item.0, items.len() as int);
    broadcast use vstd::seq_lib::group_to_multiset_ensures;

    assert forall|i: int, j: int| 0 <= i <= j < with_item(items, item).len() implies with_item(
        items,
        item,
    )[i].0 <= with_item(items, item)[j].0 by {}
}

impl Lowering {
    /// What a type refers to or points at.
    pub open spec fn place_element(self, typ: TCType) -> Option<TCType> {
        match typ.referent(self.answers.bindings@) {
            Some(element) => Some(element),
            None => typ.pointee(self.answers.bindings@),
        }
    }

    /// The index of the member an access reads. One that was not resolved has none.
    pub open spec fn member_index(self, expr: ExprId) -> u32 {
        if self.answers.context@.member_access_indices.contains_key(expr) {
            self.answers.context@.member_access_indices[expr]
        } else {
            u32::MAX
        }
    }

    /// The layout of what a pointer to the place of `object` points at.
    pub open spec fn pointed_layout(self, object: ExprId) -> Type {
        let typ = self.follow(self.expr_type(object));
        match self.shared_mut_layout(typ) {
            Some(layout) => layout,
            None => match self.place_element(typ) {
                Some(element) => self.layout(element),
                None => self.layout(typ),
            },
        }
    }

    /// The layout of the value a compound assignment reads.
    pub open spec fn assigned_layout(self, lhs: ExprId) -> Type {
        match self.expr_type(lhs).referent(self.answers.bindings@) {
            Some(element) => self.layout(element),
            None => self.layout(self.expr_type(lhs)),
        }
    }

    /// The local that an expression names, if it is one whose value is a pointer to its slot.
    pub open spec fn mutable_place(self, expr: ExprId) -> Option<NameId> {
        match self.answers.context@.expr(expr) {
            ExprForm::Variable(path) => match self.answers.context@.path_origin(path) {
                Some(Origin::Local(name)) => if self.mutable_locals.contains(name) {
                    Some(name)
                } else {
                    None
                },
                _ => None,
            },
            _ => None,
        }
    }

    pub open spec fn addressable_at(self, expr: ExprId, depth: nat) -> bool
        decreases depth,
    {
        depth > 0 && match self.answers.context@.expr(expr) {
            ExprForm::Variable(path) => self.mutable_place(expr) is Some || self.shared_mut_layout(
                self.follow(self.expr_type(expr)),
            ) is Some,
            ExprForm::MemberAccess { object, .. } => self.addressable_at(
                object,
                (depth - 1) as nat,
            ),
            ExprForm::TypeAnnotation { lhs } => self.addressable_at(lhs, (depth - 1) as nat),
            _ => false,
        }
    }

    /// The place is a chain of members of a local with a slot, or of what a handle points at.
    #[verifier::opaque]
    pub open spec fn is_addressable(self, expr: ExprId) -> bool {
        self.addressable_at(expr, NESTING_LIMIT as nat)
    }

    /// The place of a field among the declared fields. One that is not declared comes first.
    pub open spec fn field_place(self, expr: ExprId, name: NameId) -> u32 {
        match lookup(self.answers.field_orders@, (expr, name)) {
            Some(place) => place,
            None => 0,
        }
    }

    /// The first `count` fields of a constructor in the order of the declaration.
    #[verifier::opaque]
    pub open spec fn fields_by_place(
        self,
        expr: ExprId,
        fields: Seq<(NameId, ExprId)>,
        values: Seq<Value>,
        count: int,
    ) -> Seq<(u32, Value)>
        decreases count,
    {
        if count <= 0 {
            Seq::empty()
        } else {
            with_item(
                self.fields_by_place(expr, fields, values, count - 1),
                (self.field_place(expr, fields[count - 1].0), values[count - 1]),
            )
        }
    }

    /// A constructor is packed in the order its type declares, and each value is packed once.
    pub proof fn law_fields_are_packed_in_order(
        self,
        expr: ExprId,
        fields: Seq<(NameId, ExprId)>,
        values: Seq<Value>,
        count: int,
    )
        requires
            0 <= count <= fields.len(),
            fields.len() == values.len(),
        ensures
            is_by_place(self.fields_by_place(expr, fields, values, count)),
            self.fields_by_place(expr, fields, values, count).to_multiset() == Seq::new(
                count as nat,
                |i: int| (self.field_place(expr, fields[i].0), values[i]),
            ).to_multiset(),
        decreases count,
    {
        reveal(Lowering::fields_by_place);
        broadcast use vstd::seq_lib::group_to_multiset_ensures;

        let listed = |n: int|
            Seq::new(n as nat, |i: int| (self.field_place(expr, fields[i].0), values[i]));
        if count > 0 {
            self.law_fields_are_packed_in_order(expr, fields, values, count - 1);
            let item = (self.field_place(expr, fields[count - 1].0), values[count - 1]);
            order_is_kept(self.fields_by_place(expr, fields, values, count - 1), item);
            assert(listed(count) =~= listed(count - 1).push(item));
        } else {
            assert(listed(0) =~= Seq::empty());
        }
    }

    pub open spec fn types_of_values(self, values: Seq<Value>) -> Seq<Type> {
        values.map_values(|value: Value| self.value_type(value))
    }
}

/// The expressions of arguments.
pub fn list_argument_exprs(arguments: &Vec<Argument>) -> (exprs: Vec<ExprId>)
    ensures
        exprs@ == exprs_of(arguments@),
{
    let mut exprs: Vec<ExprId> = Vec::new();
    let mut i: usize = 0;
    while i < arguments.len()
        invariant
            i <= arguments.len(),
            exprs@ == exprs_of(arguments@.take(i as int)),
        decreases arguments.len() - i,
    {
        exprs.push(arguments[i].expr);
        assert(exprs@ =~= exprs_of(arguments@.take(i + 1)));
        i += 1;
    }
    assert(arguments@.take(i as int) =~= arguments@);
    exprs
}

fn insert_by_place(items: &mut Vec<(u32, Value)>, item: (u32, Value))
    ensures
        final(items)@ == with_item(old(items)@, item),
{
    let mut i: usize = items.len();
    while i > 0 && items[i - 1].0 > item.0
        invariant
            i <= items@.len(),
            items@ == old(items)@,
            places_up_to(items@, item.0, i as int) == places_up_to(
                items@,
                item.0,
                items@.len() as int,
            ),
        decreases i,
    {
        i -= 1;
    }
    items.insert(i, item);
}

impl<'a> Builder<'a> {
    /// What the type of an expression refers to or points at, as a layout.
    pub fn element_layout_of(&self, expr: ExprId) -> (layout: Option<Type>)
        ensures
            layout == (match self@.place_element(self@.follow(self@.expr_type(expr))) {
                Some(element) => Some(self@.layout(element)),
                None => None,
            }),
    {
        let typ = self.type_of_expr(expr);
        let followed = self.follow(&typ);
        match followed.reference_element(&self.answers.bindings) {
            Some(element) => Some(self.convert_type(element)),
            None => match followed.pointer_element(&self.answers.bindings) {
                Some(element) => Some(self.convert_type(element)),
                None => None,
            },
        }
    }

    pub fn member_access_index(&self, expr: ExprId) -> (index: u32)
        ensures
            index == self@.member_index(expr),
    {
        match map_get(&self.answers.context.member_access_indices, expr) {
            Some(index) => *index,
            None => u32::MAX,
        }
    }

    /// The layout of what a pointer to the place of `object` points at.
    pub fn pointed_layout(&self, object: ExprId) -> (layout: Type)
        ensures
            layout == self@.pointed_layout(object),
    {
        let typ = self.type_of_expr(object);
        let followed = self.follow(&typ);
        match self.shared_mut_inner_layout_of(followed) {
            Some(layout) => layout,
            None => match self.element_layout_of(object) {
                Some(layout) => layout,
                None => self.convert_type(followed),
            },
        }
    }

    /// The layout of the value a compound assignment reads.
    pub fn compound_assign_value_type(&self, lhs: ExprId) -> (layout: Type)
        ensures
            layout == self@.assigned_layout(lhs),
    {
        let typ = self.type_of_expr(lhs);
        match typ.reference_element(&self.answers.bindings) {
            Some(element) => self.convert_type(element),
            None => self.convert_type(&typ),
        }
    }

    /// The layout of what a handle points at that can be written to.
    pub fn shared_mut_layout_of_expr(&self, expr: ExprId) -> (layout: Option<Type>)
        ensures
            layout == self@.shared_mut_layout(self@.follow(self@.expr_type(expr))),
    {
        let typ = self.type_of_expr(expr);
        self.shared_mut_inner_layout_of(self.follow(&typ))
    }

    /// The local that an expression names, if it is one whose value is a pointer to its slot.
    pub fn find_mutable_place(&self, expr: ExprId) -> (name: Option<NameId>)
        ensures
            name == self@.mutable_place(expr),
    {
        match self.answers.context.expr(expr) {
            Expr::Variable(path) => match self.answers.context.path_origin(*path) {
                Some(Origin::Local(name)) => {
                    if set_contains(&self.mutable_locals, name) {
                        Some(name)
                    } else {
                        None
                    }
                },
                _ => None,
            },
            _ => None,
        }
    }

    fn addressable_at(&self, expr: ExprId, depth: u64) -> (addressable: bool)
        ensures
            addressable == self@.addressable_at(expr, depth as nat),
        decreases depth,
    {
        if depth == 0 {
            return false;
        }
        match self.answers.context.expr(expr) {
            Expr::Variable(_) => self.find_mutable_place(expr).is_some()
                || self.shared_mut_layout_of_expr(expr).is_some(),
            Expr::MemberAccess { object, .. } => self.addressable_at(*object, depth - 1),
            Expr::TypeAnnotation { lhs } => self.addressable_at(*lhs, depth - 1),
            _ => false,
        }
    }

    /// Whether the place is a chain of members of a local with a slot, or of what a handle points
    /// at.
    pub fn reference_target_is_addressable(&self, expr: ExprId) -> (addressable: bool)
        ensures
            addressable == self@.is_addressable(expr),
    {
        proof {
            reveal(Lowering::is_addressable);
        }
        self.addressable_at(expr, NESTING_LIMIT)
    }

    fn find_field_place(&self, expr: ExprId, name: NameId) -> (place: u32)
        ensures
            place == self@.field_place(expr, name),
    {
        match self.answers.field_orders.get(&(expr, name)) {
            Some(place) => *place,
            None => 0,
        }
    }

    /// The values of the fields of a constructor in the order of the declaration.
    pub fn order_fields(&self, expr: ExprId, fields: &Vec<(NameId, ExprId)>, values: &Vec<Value>) -> (ordered:
        Vec<Value>)
        requires
            fields@.len() == values@.len(),
        ensures
            ordered@ == values_of(
                self@.fields_by_place(expr, fields@, values@, fields@.len() as int),
            ),
    {
        let mut items: Vec<(u32, Value)> = Vec::new();
        let mut i: usize = 0;
        proof {
            reveal(Lowering::fields_by_place);
        }
        while i < fields.len()
            invariant
                i <= fields.len(),
                fields@.len() == values@.len(),
                items@ == self@.fields_by_place(expr, fields@, values@, i as int),
            decreases fields.len() - i,
        {
            proof {
                reveal(Lowering::fields_by_place);
            }
            let place = self.find_field_place(expr, fields[i].0);
            insert_by_place(&mut items, (place, values[i]));
            i += 1;
        }
        let mut ordered: Vec<Value> = Vec::new();
        let mut j: usize = 0;
        while j < items.len()
            invariant
                j <= items.len(),
                ordered@ == values_of(items@.take(j as int)),
            decreases items.len() - j,
        {
            ordered.push(items[j].1);
            assert(ordered@ =~= values_of(items@.take(j + 1)));
            j += 1;
        }
        assert(items@.take(j as int) =~= items@);
        ordered
    }

    pub fn types_of_values(&self, values: &Vec<Value>) -> (types: Vec<Type>)
        ensures
            types@ == self@.types_of_values(values@),
    {
        let mut types: Vec<Type> = Vec::new();
        let mut i: usize = 0;
        while i < values.len()
            invariant
                i <= values.len(),
                types@ == self@.types_of_values(values@.take(i as int)),
            decreases values.len() - i,
        {
            types.push(self.type_of_value(&values[i]));
            assert(types@ =~= self@.types_of_values(values@.take(i + 1)));
            i += 1;
        }
        assert(values@.take(i as int) =~= values@);
        types
    }
}

} // verus!
