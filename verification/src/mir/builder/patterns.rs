//! How constants are lowered and patterns are bound.

use crate::collections::map_get;
use crate::cst::{Integer, Literal, Pattern};
#[allow(unused_imports)]
use crate::cst::PatternForm;
use crate::ids::{ExprId, NameId, Origin, PatternId, NESTING_LIMIT};
use crate::mir::builder::state::{Answers, Builder};
#[allow(unused_imports)]
use crate::mir::builder::state::Lowering;
#[allow(unused_imports)]
use crate::mir::Operation;
use crate::mir::{FloatConstant, Instruction, IntConstant, PrimitiveType, Type, Value};
use crate::types::{FloatKind, IntegerKind};
use vstd::prelude::*;

verus! {

/// `x`, or what lies across zero from it. The lowest number has nothing there, and stays.
pub open spec fn across_i8(x: i8, negative: bool) -> i8 {
    if negative && x != i8::MIN {
        (-x) as i8
    } else {
        x
    }
}

pub open spec fn across_i16(x: i16, negative: bool) -> i16 {
    if negative && x != i16::MIN {
        (-x) as i16
    } else {
        x
    }
}

pub open spec fn across_i32(x: i32, negative: bool) -> i32 {
    if negative && x != i32::MIN {
        (-x) as i32
    } else {
        x
    }
}

pub open spec fn across_i64(x: i64, negative: bool) -> i64 {
    if negative && x != i64::MIN {
        (-x) as i64
    } else {
        x
    }
}

pub open spec fn across_isize(x: isize, negative: bool) -> isize {
    if negative && x != isize::MIN {
        (-x) as isize
    } else {
        x
    }
}

/// The constant of a kind that an integer is written as. What does not fit is cut off.
pub open spec fn constant(value: Integer, kind: IntegerKind) -> IntConstant {
    let m = value.magnitude;
    match kind {
        IntegerKind::I8 => IntConstant::I8(across_i8(m as i8, value.negative)),
        IntegerKind::I16 => IntConstant::I16(across_i16(m as i16, value.negative)),
        IntegerKind::I32 => IntConstant::I32(across_i32(m as i32, value.negative)),
        IntegerKind::I64 => IntConstant::I64(across_i64(m as i64, value.negative)),
        IntegerKind::Isz => IntConstant::Isz(across_isize(m as isize, value.negative)),
        IntegerKind::U8 => IntConstant::U8(m as u8),
        IntegerKind::U16 => IntConstant::U16(m as u16),
        IntegerKind::U32 => IntConstant::U32(m as u32),
        IntegerKind::U64 => IntConstant::U64(m),
        IntegerKind::Usz => IntConstant::Usz(m as usize),
    }
}

/// The constant of a kind that an integer is written as.
pub fn integer(value: Integer, kind: IntegerKind) -> (result: Value)
    ensures
        result == Value::Integer(constant(value, kind)),
{
    let m = value.magnitude;
    let constant = match kind {
        IntegerKind::I8 => {
            let x: i8 = m as i8;
            IntConstant::I8(
                if value.negative && x != i8::MIN {
                    -x
                } else {
                    x
                },
            )
        },
        IntegerKind::I16 => {
            let x: i16 = m as i16;
            IntConstant::I16(
                if value.negative && x != i16::MIN {
                    -x
                } else {
                    x
                },
            )
        },
        IntegerKind::I32 => {
            let x: i32 = m as i32;
            IntConstant::I32(
                if value.negative && x != i32::MIN {
                    -x
                } else {
                    x
                },
            )
        },
        IntegerKind::I64 => {
            let x: i64 = m as i64;
            IntConstant::I64(
                if value.negative && x != i64::MIN {
                    -x
                } else {
                    x
                },
            )
        },
        IntegerKind::Isz => {
            let x: isize = m as isize;
            IntConstant::Isz(
                if value.negative && x != isize::MIN {
                    -x
                } else {
                    x
                },
            )
        },
        IntegerKind::U8 => IntConstant::U8(m as u8),
        IntegerKind::U16 => IntConstant::U16(m as u16),
        IntegerKind::U32 => IntConstant::U32(m as u32),
        IntegerKind::U64 => IntConstant::U64(m),
        IntegerKind::Usz => IntConstant::Usz(m as usize),
    };
    Value::Integer(constant)
}

impl Lowering {
    /// The string of a literal: its bytes with a zero behind them, no count, its length, and no
    /// offset.
    #[verifier::opaque]
    pub open spec fn string_made(self, text: Seq<char>) -> (Value, Lowering) {
        let bytes = vstd::utf8::encode_utf8(text);
        let (data, made) = self.pushed(Operation::MakeBytes(bytes.push(0)), Type::pointer());
        let (count, made) = made.pushed(
            Operation::Transmute(Value::Integer(IntConstant::Usz(0))),
            Type::pointer(),
        );
        let length = Value::Integer(IntConstant::U32(bytes.len() as u32));
        let offset = Value::Integer(IntConstant::U32(0));
        made.pushed(Operation::MakeTuple(seq![data, count, length, offset]), Type::string())
    }

    /// The value of a literal. A number without a kind is of the kind that was inferred.
    #[verifier::opaque]
    pub open spec fn literal_made(self, literal: Literal, expr: ExprId) -> (Value, Lowering) {
        match literal {
            Literal::Unit => (Value::Unit, self),
            Literal::Bool(x) => (Value::Bool(x), self),
            Literal::Integer(x, Some(kind)) => (Value::Integer(constant(x, kind)), self),
            Literal::Integer(x, None) => {
                let kind = match self.layout(self.expr_type(expr)) {
                    Type::Primitive(PrimitiveType::Int(kind)) => kind,
                    _ => IntegerKind::I32,
                };
                (Value::Integer(constant(x, kind)), self)
            },
            Literal::Float(x, Some(FloatKind::F32)) => (Value::Float(FloatConstant::F32(x)), self),
            Literal::Float(x, Some(FloatKind::F64)) => (Value::Float(FloatConstant::F64(x)), self),
            Literal::Float(x, None) => {
                let value = match self.layout(self.expr_type(expr)) {
                    Type::Primitive(PrimitiveType::Float(FloatKind::F32)) => FloatConstant::F32(x),
                    _ => FloatConstant::F64(x),
                };
                (Value::Float(value), self)
            },
            Literal::String(x) => self.string_made(x@),
            Literal::Char(x) => (Value::Char(x), self),
        }
    }

    pub open spec fn name_origin(self, name: NameId) -> Option<Origin> {
        if self.answers.name_origins@.contains_key(name) {
            Some(self.answers.name_origins@[name])
        } else {
            None
        }
    }

    /// This state with the variable `name` bound, if names were resolved.
    #[verifier::opaque]
    pub open spec fn name_bound(self, name: NameId, value: Value) -> Lowering {
        match self.name_origin(name) {
            Some(origin) => self.with_variable(origin, value),
            None => self,
        }
    }

    /// This state with a pattern bound to a value.
    pub open spec fn bound(self, pattern: PatternId, value: Value, depth: nat) -> Lowering
        decreases depth, 0nat, 0int,
    {
        if depth == 0 {
            self.fails()
        } else {
            match self.answers.context@.pattern(pattern) {
                PatternForm::Error => self.fails(),
                PatternForm::Variable(name) => self.name_bound(name, value),
                PatternForm::MethodName { item_name } => self.name_bound(item_name, value),
                PatternForm::Literal => self,
                PatternForm::TypeAnnotation(inner) => self.bound(inner, value, (depth - 1) as nat),
                PatternForm::Alias(name, inner) => self.name_bound(name, value).bound(
                    inner,
                    value,
                    (depth - 1) as nat,
                ),
                PatternForm::Or(_) => self.fails(),
                PatternForm::Constructor(_, arguments) => {
                    let (inner, made) = self.dereferenced(value, self.pattern_type(pattern));
                    match made.value_type(inner).fields() {
                        Some(fields) => made.fields_bound(
                            inner,
                            fields,
                            arguments,
                            if fields.len() < arguments.len() {
                                fields.len() as int
                            } else {
                                arguments.len() as int
                            },
                            (depth - 1) as nat,
                        ),
                        None => made.fails(),
                    }
                },
            }
        }
    }

    /// This state with the first `count` fields of a value bound to patterns.
    pub open spec fn fields_bound(
        self,
        value: Value,
        fields: Seq<Type>,
        patterns: Seq<PatternId>,
        count: int,
        depth: nat,
    ) -> Lowering
        decreases depth, 1nat, count,
    {
        if count <= 0 {
            self
        } else {
            let made = self.fields_bound(value, fields, patterns, count - 1, depth);
            let (field, made) = made.pushed(
                Operation::IndexTuple { tuple: value, index: (count - 1) as u32 },
                fields[count - 1],
            );
            made.bound(patterns[count - 1], field, depth)
        }
    }

    /// This state with a pattern bound to a value.
    #[verifier::opaque]
    pub open spec fn pattern_bound(self, pattern: PatternId, value: Value) -> Lowering {
        self.bound(pattern, value, NESTING_LIMIT as nat)
    }

    /// The name a pattern binds as a whole.
    pub open spec fn whole_name(self, pattern: PatternId, depth: nat) -> Option<NameId>
        decreases depth,
    {
        if depth == 0 {
            None
        } else {
            match self.answers.context@.pattern(pattern) {
                PatternForm::Variable(name) => Some(name),
                PatternForm::MethodName { item_name } => Some(item_name),
                PatternForm::Alias(name, _) => Some(name),
                PatternForm::TypeAnnotation(inner) => self.whole_name(inner, (depth - 1) as nat),
                PatternForm::Or(patterns) => if patterns.len() > 0 {
                    self.whole_name(patterns[0], (depth - 1) as nat)
                } else {
                    None
                },
                _ => None,
            }
        }
    }

    #[verifier::opaque]
    pub open spec fn pattern_name(self, pattern: PatternId) -> Option<NameId> {
        self.whole_name(pattern, NESTING_LIMIT as nat)
    }

    /// `names` with those a pattern binds behind them. All alternatives bind the same.
    pub open spec fn with_names(self, names: Seq<NameId>, pattern: PatternId, depth: nat) -> Seq<
        NameId,
    >
        decreases depth, 0nat, 0int,
    {
        if depth == 0 {
            names
        } else {
            match self.answers.context@.pattern(pattern) {
                PatternForm::Variable(name) => names.push(name),
                PatternForm::MethodName { item_name } => names.push(item_name),
                PatternForm::TypeAnnotation(inner) => self.with_names(
                    names,
                    inner,
                    (depth - 1) as nat,
                ),
                PatternForm::Constructor(_, patterns) => self.with_all_names(
                    names,
                    patterns,
                    patterns.len() as int,
                    (depth - 1) as nat,
                ),
                PatternForm::Or(patterns) => if patterns.len() > 0 {
                    self.with_names(names, patterns[0], (depth - 1) as nat)
                } else {
                    names
                },
                PatternForm::Alias(name, inner) => self.with_names(
                    names.push(name),
                    inner,
                    (depth - 1) as nat,
                ),
                PatternForm::Error | PatternForm::Literal => names,
            }
        }
    }

    pub open spec fn with_all_names(
        self,
        names: Seq<NameId>,
        patterns: Seq<PatternId>,
        count: int,
        depth: nat,
    ) -> Seq<NameId>
        decreases depth, 1nat, count,
    {
        if count <= 0 {
            names
        } else {
            self.with_names(
                self.with_all_names(names, patterns, count - 1, depth),
                patterns[count - 1],
                depth,
            )
        }
    }

    /// The names a pattern binds.
    #[verifier::opaque]
    pub open spec fn pattern_names(self, pattern: PatternId) -> Seq<NameId> {
        self.with_names(Seq::empty(), pattern, NESTING_LIMIT as nat)
    }

    /// This state with the first `count` of `names` moved to slots of the stack.
    #[verifier::opaque]
    pub open spec fn made_mutable(self, names: Seq<NameId>, count: int) -> Lowering
        decreases count,
    {
        if count <= 0 {
            self
        } else {
            let made = self.made_mutable(names, count - 1);
            let name = names[count - 1];
            if made.locals.contains_key(name) {
                let (slot, made) = made.pushed(
                    Operation::StackAlloc(made.locals[name]),
                    Type::pointer(),
                );
                made.with_local(name, slot).with_mutable_local(name)
            } else {
                made.fails()
            }
        }
    }
}

impl<'a> Builder<'a> {
    /// Lower a string literal.
    pub fn string_literal(&mut self, text: &String) -> (value: Value)
        ensures
            (value, final(self)@) == old(self)@.string_made(text@),
    {
        proof {
            reveal(Lowering::string_made);
        }
        let mut bytes: Vec<u8> = text.as_str().as_bytes_vec();
        let length: u32 = bytes.len() as u32;
        bytes.push(0);
        let pointer = Type::Primitive(PrimitiveType::Pointer);
        let data = self.push_instruction(Instruction::MakeBytes(bytes), pointer.clone());
        let count = self.push_instruction(
            Instruction::Transmute(Value::Integer(IntConstant::Usz(0))),
            pointer,
        );
        let mut fields: Vec<Value> = Vec::new();
        fields.push(data);
        fields.push(count);
        fields.push(Value::Integer(IntConstant::U32(length)));
        fields.push(Value::Integer(IntConstant::U32(0)));
        proof {
            let bytes = vstd::utf8::encode_utf8(text@);
            let length = Value::Integer(IntConstant::U32(bytes.len() as u32));
            let offset = Value::Integer(IntConstant::U32(0));
            assert(fields@ =~= seq![data, count, length, offset]);
        }
        self.push_instruction(Instruction::MakeTuple(fields), Type::string_layout())
    }

    /// Lower a literal.
    pub fn literal(&mut self, literal: &Literal, expr: ExprId) -> (value: Value)
        ensures
            (value, final(self)@) == old(self)@.literal_made(*literal, expr),
    {
        proof {
            reveal(Lowering::literal_made);
        }
        match literal {
            Literal::Unit => Value::Unit,
            Literal::Bool(x) => Value::Bool(*x),
            Literal::Integer(x, kind) => match kind {
                Some(kind) => integer(*x, *kind),
                None => match self.expr_layout(expr) {
                    Type::Primitive(PrimitiveType::Int(kind)) => integer(*x, kind),
                    _ => integer(*x, IntegerKind::I32),
                },
            },
            Literal::Float(x, kind) => match kind {
                Some(FloatKind::F32) => Value::Float(FloatConstant::F32(*x)),
                Some(FloatKind::F64) => Value::Float(FloatConstant::F64(*x)),
                None => match self.expr_layout(expr) {
                    Type::Primitive(PrimitiveType::Float(FloatKind::F32)) => Value::Float(
                        FloatConstant::F32(*x),
                    ),
                    _ => Value::Float(FloatConstant::F64(*x)),
                },
            },
            Literal::String(x) => self.string_literal(x),
            Literal::Char(x) => Value::Char(*x),
        }
    }

    pub fn bind_name(&mut self, name: NameId, value: Value)
        ensures
            final(self)@ == old(self)@.name_bound(name, value),
    {
        proof {
            reveal(Lowering::name_bound);
        }
        let origin = match map_get(&self.answers.name_origins, name) {
            Some(origin) => *origin,
            None => {
                return ;
            },
        };
        self.define_variable(origin, value);
    }

    fn bind_at(&mut self, pattern: PatternId, value: Value, depth: u64)
        ensures
            final(self)@ == old(self)@.bound(pattern, value, depth as nat),
        decreases depth, 0nat,
    {
        if depth == 0 {
            self.fail();
            return ;
        }
        let answers: &'a Answers = self.answers;
        match answers.context.pattern(pattern) {
            Pattern::Error => {
                self.fail();
            },
            Pattern::Variable(name) => {
                self.bind_name(*name, value);
            },
            Pattern::MethodName { item_name } => {
                self.bind_name(*item_name, value);
            },
            Pattern::Literal => {},
            Pattern::TypeAnnotation(inner) => {
                self.bind_at(*inner, value, depth - 1);
            },
            Pattern::Alias(name, inner) => {
                self.bind_name(*name, value);
                self.bind_at(*inner, value, depth - 1);
            },
            Pattern::Or(_) => {
                self.fail();
            },
            Pattern::Constructor(_, arguments) => {
                let typ = self.type_of_pattern(pattern);
                let inner = self.deref_if_shared(value, &typ);
                match self.type_of_value(&inner).tuple_fields() {
                    Some(fields) => {
                        self.bind_fields(inner, &fields, arguments, depth - 1);
                    },
                    None => {
                        self.fail();
                    },
                }
            },
        }
    }

    fn bind_fields(
        &mut self,
        value: Value,
        fields: &Vec<Type>,
        patterns: &Vec<PatternId>,
        depth: u64,
    )
        ensures
            final(self)@ == old(self)@.fields_bound(
                value,
                fields@,
                patterns@,
                if fields@.len() < patterns@.len() {
                    fields@.len() as int
                } else {
                    patterns@.len() as int
                },
                depth as nat,
            ),
        decreases depth, 1nat,
    {
        let mut i: usize = 0;
        while i < fields.len() && i < patterns.len()
            invariant
                i <= fields.len(),
                i <= patterns.len(),
                self@ == old(self)@.fields_bound(
                    value,
                    fields@,
                    patterns@,
                    i as int,
                    depth as nat,
                ),
            decreases fields.len() - i,
        {
            let field = self.push_instruction(
                Instruction::IndexTuple { tuple: value, index: i as u32 },
                fields[i].clone(),
            );
            self.bind_at(patterns[i], field, depth);
            i += 1;
        }
    }

    /// Bind a pattern to a value.
    pub fn bind_pattern(&mut self, pattern: PatternId, value: Value)
        ensures
            final(self)@ == old(self)@.pattern_bound(pattern, value),
    {
        proof {
            reveal(Lowering::pattern_bound);
        }
        self.bind_at(pattern, value, NESTING_LIMIT);
    }

    fn find_whole_name(&self, pattern: PatternId, depth: u64) -> (name: Option<NameId>)
        ensures
            name == self@.whole_name(pattern, depth as nat),
        decreases depth,
    {
        if depth == 0 {
            return None;
        }
        match self.answers.context.pattern(pattern) {
            Pattern::Variable(name) => Some(*name),
            Pattern::MethodName { item_name } => Some(*item_name),
            Pattern::Alias(name, _) => Some(*name),
            Pattern::TypeAnnotation(inner) => self.find_whole_name(*inner, depth - 1),
            Pattern::Or(patterns) => {
                if patterns.len() > 0 {
                    self.find_whole_name(patterns[0], depth - 1)
                } else {
                    None
                }
            },
            _ => None,
        }
    }

    /// The name a pattern binds as a whole.
    pub fn try_find_name(&self, pattern: PatternId) -> (name: Option<NameId>)
        ensures
            name == self@.pattern_name(pattern),
    {
        proof {
            reveal(Lowering::pattern_name);
        }
        self.find_whole_name(pattern, NESTING_LIMIT)
    }

    fn push_names(&self, names: &mut Vec<NameId>, pattern: PatternId, depth: u64)
        ensures
            final(names)@ == self@.with_names(old(names)@, pattern, depth as nat),
        decreases depth, 0nat,
    {
        if depth == 0 {
            return ;
        }
        match self.answers.context.pattern(pattern) {
            Pattern::Variable(name) => {
                names.push(*name);
            },
            Pattern::MethodName { item_name } => {
                names.push(*item_name);
            },
            Pattern::TypeAnnotation(inner) => {
                self.push_names(names, *inner, depth - 1);
            },
            Pattern::Constructor(_, patterns) => {
                self.push_all_names(names, patterns, depth - 1);
            },
            Pattern::Or(patterns) => {
                if patterns.len() > 0 {
                    self.push_names(names, patterns[0], depth - 1);
                }
            },
            Pattern::Alias(name, inner) => {
                names.push(*name);
                self.push_names(names, *inner, depth - 1);
            },
            Pattern::Error => {},
            Pattern::Literal => {},
        }
    }

    fn push_all_names(&self, names: &mut Vec<NameId>, patterns: &Vec<PatternId>, depth: u64)
        ensures
            final(names)@ == self@.with_all_names(
                old(names)@,
                patterns@,
                patterns@.len() as int,
                depth as nat,
            ),
        decreases depth, 1nat,
    {
        let mut i: usize = 0;
        while i < patterns.len()
            invariant
                i <= patterns.len(),
                names@ == self@.with_all_names(old(names)@, patterns@, i as int, depth as nat),
            decreases patterns.len() - i,
        {
            self.push_names(names, patterns[i], depth);
            i += 1;
        }
    }

    /// The names a pattern binds.
    pub fn collect_pattern_names(&self, pattern: PatternId) -> (names: Vec<NameId>)
        ensures
            names@ == self@.pattern_names(pattern),
    {
        proof {
            reveal(Lowering::pattern_names);
        }
        let mut names: Vec<NameId> = Vec::new();
        self.push_names(&mut names, pattern, NESTING_LIMIT);
        names
    }

    /// Move locals to slots of the stack, where they can be written to.
    pub fn make_mutable(&mut self, names: &Vec<NameId>)
        ensures
            final(self)@ == old(self)@.made_mutable(names@, names@.len() as int),
    {
        let mut i: usize = 0;
        proof {
            reveal(Lowering::made_mutable);
        }
        while i < names.len()
            invariant
                i <= names.len(),
                self@ == old(self)@.made_mutable(names@, i as int),
            decreases names.len() - i,
        {
            proof {
                reveal(Lowering::made_mutable);
            }
            let name = names[i];
            let known = match map_get(&self.local_variables, name) {
                Some(value) => Some(*value),
                None => None,
            };
            match known {
                Some(value) => {
                    let slot = self.push_instruction(
                        Instruction::StackAlloc(value),
                        Type::Primitive(PrimitiveType::Pointer),
                    );
                    self.set_local(name, slot);
                    self.set_mutable_local(name);
                },
                None => {
                    self.fail();
                },
            }
            i += 1;
        }
    }
}

} // verus!
