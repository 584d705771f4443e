use ante_passes::cst::{Argument, Context, Definition, Expr, Integer, Literal, Parameter, Pattern};
use ante_passes::database::{AbilityKind, Database, ItemKind, TypeBody, TypeDefinition, TypeDefinitionBody};
use ante_passes::ids::{Location, Origin, TopLevelId, TopLevelName, RELEASE_FUNCTION};
use ante_passes::mir::builder::ids::SharedIds;
use ante_passes::mir::builder::items::{build_initial_mir, Item, Malformed};
use ante_passes::mir::builder::state::{Answers, Case, Cases, Constructor, DecisionTree, Row};
use ante_passes::mir::{Definition as Lowered, Instruction, IntConstant, Mir, PrimitiveType, TerminatorInstruction, Type, Value};
use ante_passes::types::{FunctionType, Generics, IntegerKind, Parameters, PrimitiveType as Primitive, Type as SourceType, TypeList};

const OWN: TopLevelId = TopLevelId { source_file: 3, index: 0 };

fn at(start: u32) -> Location {
    Location { file: 3, start, end: start + 1 }
}

fn own_name(name: u32) -> TopLevelName {
    TopLevelName { top_level_item: OWN, local_name_id: name }
}

fn number() -> SourceType {
    SourceType::Primitive(Primitive::Int(IntegerKind::I32))
}

fn number_layout() -> Type {
    Type::Primitive(PrimitiveType::Int(IntegerKind::I32))
}

fn unit() -> SourceType {
    SourceType::Primitive(Primitive::Unit)
}

fn unit_layout() -> Type {
    Type::Primitive(PrimitiveType::Unit)
}

fn no_env() -> Type {
    Type::Primitive(PrimitiveType::NoClosureEnv)
}

fn pointer() -> Type {
    Type::Primitive(PrimitiveType::Pointer)
}

fn no_effects() -> SourceType {
    SourceType::Effects(Box::new(TypeList::Nil), None)
}

fn function(parameter: SourceType, return_type: SourceType) -> SourceType {
    SourceType::Function(Box::new(FunctionType {
        parameters: Parameters::Cons(false, Box::new(parameter), Box::new(Parameters::Nil)),
        environment: SourceType::Primitive(Primitive::NoClosureEnv),
        return_type,
        effects: no_effects(),
    }))
}

fn tuple(fields: Vec<Type>) -> Type {
    Type::tuple_of(&fields)
}

fn set_layout(answers: &mut Answers, typ: SourceType, layout: Type) {
    answers.layouts.put((Generics::Nil, typ), layout);
}

fn answers(context: Context) -> Answers {
    let mut answers = Answers::new(Database::new(true), context);
    set_layout(&mut answers, number(), number_layout());
    set_layout(&mut answers, unit(), unit_layout());
    set_layout(&mut answers, SourceType::Primitive(Primitive::Bool), Type::Primitive(PrimitiveType::Bool));
    set_layout(&mut answers, SourceType::Primitive(Primitive::NoClosureEnv), no_env());
    answers.evidence_layouts.put((Generics::Nil, no_effects()), tuple(vec![]));
    answers.rows.put(no_effects(), Row { effects: vec![], is_open: false });
    answers
}

fn literal(context: &mut Context, value: u64) -> u32 {
    let integer = Integer { magnitude: value, negative: false };
    context.push_expr(Expr::Literal(Literal::Integer(integer, Some(IntegerKind::I32))), at(1))
}

fn local(context: &mut Context, text: &str) -> (u32, u32) {
    let name = context.push_name(text.to_string(), at(0));
    let pattern = context.push_pattern(Pattern::Variable(name), at(0));
    (name, pattern)
}

fn variable(context: &mut Context, name: u32) -> (u32, u32) {
    let path = context.push_path("x".to_string(), Origin::Local(name), at(0));
    (path, context.push_expr(Expr::Variable(path), at(0)))
}

fn lowered(answers: &Answers, item: &Item) -> Mir {
    let mut ids = SharedIds::new();
    match build_initial_mir(answers, &mut ids, OWN, item) {
        Ok(Some(mir)) => {
            assert!(every_block_ends(&mir));
            mir
        },
        _ => panic!("nothing was lowered"),
    }
}

fn every_block_ends(mir: &Mir) -> bool {
    mir.definitions.values().all(|definition| {
        definition.blocks.iter().all(|block| block.terminator.is_some())
    })
}

fn definition_named<'a>(mir: &'a Mir, name: &str) -> &'a Lowered {
    for definition in mir.definitions.values() {
        if definition.name == name {
            return definition;
        }
    }
    panic!("no such definition")
}

/// A definition of `name` by `rhs`, with its type.
fn define(answers: &mut Answers, pattern: u32, name: u32, rhs: u32, typ: SourceType) -> Item {
    answers.pattern_types.insert(pattern, typ.clone());
    answers.expr_types.insert(rhs, typ.clone());
    answers.generalized.insert(name, typ);
    answers.name_origins.insert(name, Origin::TopLevelDefinition(own_name(name)));
    Item::Definition(Definition { pattern, rhs, mutable: false })
}

fn five() -> (Answers, Item, u32) {
    let mut context = Context::new();
    let (name, pattern) = local(&mut context, "five");
    let rhs = literal(&mut context, 5);
    let mut answers = answers(context);
    let item = define(&mut answers, pattern, name, rhs, number());
    (answers, item, name)
}

#[test]
fn a_global_ends_with_its_value() {
    let (answers, item, _) = five();
    let mir = lowered(&answers, &item);
    assert_eq!(mir.definitions.len(), 1);
    let global = definition_named(&mir, "five");
    assert_eq!(global.typ, number_layout());
    assert_eq!(global.blocks.len(), 1);
    assert!(matches!(
        global.blocks[0].terminator,
        Some(TerminatorInstruction::Result(Value::Integer(IntConstant::I32(5))))
    ));
}

#[test]
fn items_agree_on_ids() {
    let (answers, item, name) = five();
    let mut ids = SharedIds::new();
    assert_eq!(ids.lookup_definition_id(&own_name(name)), None);
    let mir = build_initial_mir(&answers, &mut ids, OWN, &item).unwrap().unwrap();
    let id = ids.lookup_definition_id(&own_name(name)).unwrap();
    assert_eq!(mir.definitions[&id].name, "five");
    // The id stays the same when the item is lowered again.
    let again = build_initial_mir(&answers, &mut ids, OWN, &item).unwrap().unwrap();
    assert!(again.definitions.contains_key(&id));
    assert_eq!(ids.get_definition_id(&own_name(name)), id);
}

#[test]
fn what_was_not_desugared_is_refused() {
    let (answers, _, _) = five();
    let mut ids = SharedIds::new();
    assert!(matches!(build_initial_mir(&answers, &mut ids, OWN, &Item::Ability), Err(Malformed)));
    assert!(matches!(build_initial_mir(&answers, &mut ids, OWN, &Item::Impl), Err(Malformed)));
    assert!(matches!(build_initial_mir(&answers, &mut ids, OWN, &Item::Comptime), Ok(None)));
    let mut context = Context::new();
    let (name, pattern) = local(&mut context, "quoted");
    let rhs = context.push_expr(Expr::Quoted, at(0));
    let mut answers = crate::answers(context);
    let item = define(&mut answers, pattern, name, rhs, number());
    assert!(matches!(build_initial_mir(&answers, &mut ids, OWN, &item), Err(Malformed)));
}

/// `f = fn p -> body`, with the type of `f`.
fn lambda_item(context: Context, p_pattern: u32, body: u32, return_type: SourceType, return_layout: Type) -> (Answers, Item) {
    let mut context = context;
    let (f, f_pattern) = local(&mut context, "f");
    let parameters = vec![Parameter { pattern: p_pattern, is_implicit: false, is_mutable: false }];
    let lambda = context.push_expr(Expr::Lambda { parameters, body, is_move: false }, at(0));
    let mut answers = answers(context);
    let typ = function(number(), return_type.clone());
    set_layout(&mut answers, typ.clone(), Type::function_of(&vec![number_layout(), tuple(vec![])], no_env(), return_layout));
    answers.pattern_types.insert(p_pattern, number());
    answers.expr_types.insert(body, return_type);
    let item = define(&mut answers, f_pattern, f, lambda, typ);
    (answers, item)
}

#[test]
fn a_function_takes_its_parameters_and_its_evidence() {
    let mut context = Context::new();
    let (p, p_pattern) = local(&mut context, "p");
    let (path, body) = variable(&mut context, p);
    let (mut answers, item) = lambda_item(context, p_pattern, body, number(), number_layout());
    answers.name_origins.insert(p, Origin::Local(p));
    answers.path_types.insert(path, number());
    let mir = lowered(&answers, &item);
    let f = definition_named(&mir, "f");
    assert_eq!(f.blocks[0].parameter_types, vec![number_layout(), tuple(vec![])]);
    assert!(matches!(f.blocks[0].terminator, Some(TerminatorInstruction::Return(Value::Parameter(0, 0)))));
    assert!(f.instructions.is_empty());
    assert!(mir.externals.is_empty());
}

#[test]
fn a_branch_joins_in_a_parameter() {
    let mut context = Context::new();
    let (_, p_pattern) = local(&mut context, "p");
    let condition = context.push_expr(Expr::Literal(Literal::Bool(true)), at(0));
    let then_expr = literal(&mut context, 1);
    let else_expr = literal(&mut context, 2);
    let body = context.push_expr(Expr::If { condition, then_expr, else_expr: Some(else_expr) }, at(0));
    let (mut answers, item) = lambda_item(context, p_pattern, body, number(), number_layout());
    answers.name_origins.insert(0, Origin::Local(0));
    let mir = lowered(&answers, &item);
    let f = definition_named(&mir, "f");
    assert_eq!(f.blocks.len(), 4);
    assert!(matches!(
        f.blocks[0].terminator,
        Some(TerminatorInstruction::If { cond: Value::Bool(true), then: 1, else_: 2, end: 3 })
    ));
    assert!(matches!(f.blocks[1].terminator, Some(TerminatorInstruction::Jmp(3, Some(Value::Integer(IntConstant::I32(1)))))));
    assert!(matches!(f.blocks[2].terminator, Some(TerminatorInstruction::Jmp(3, Some(Value::Integer(IntConstant::I32(2)))))));
    assert_eq!(f.blocks[3].parameter_types, vec![number_layout()]);
    assert!(matches!(f.blocks[3].terminator, Some(TerminatorInstruction::Return(Value::Parameter(3, 0)))));
}

#[test]
fn nothing_is_added_behind_a_return() {
    let mut context = Context::new();
    let (_, p_pattern) = local(&mut context, "p");
    let one = literal(&mut context, 1);
    let leave = context.push_expr(Expr::Return { expression: one }, at(0));
    let two = literal(&mut context, 2);
    let array = context.push_expr(Expr::ArrayLiteral(vec![two]), at(0));
    let body = context.push_expr(Expr::Sequence(vec![leave, array]), at(0));
    let (mut answers, item) = lambda_item(context, p_pattern, body, number(), number_layout());
    answers.name_origins.insert(0, Origin::Local(0));
    let mir = lowered(&answers, &item);
    let f = definition_named(&mir, "f");
    assert!(f.instructions.is_empty());
    assert!(matches!(f.blocks[0].terminator, Some(TerminatorInstruction::Return(Value::Integer(IntConstant::I32(1))))));
}

#[test]
fn loops_go_round() {
    let mut context = Context::new();
    let (_, p_pattern) = local(&mut context, "p");
    let (i, _) = local(&mut context, "i");
    let start = literal(&mut context, 0);
    let end = literal(&mut context, 9);
    let leave = context.push_expr(Expr::Break, at(0));
    let body = context.push_expr(Expr::For { variable: i, start, end, body: leave }, at(0));
    let (mut answers, item) = lambda_item(context, p_pattern, body, unit(), unit_layout());
    answers.name_origins.insert(0, Origin::Local(0));
    answers.expr_types.insert(start, number());
    let mir = lowered(&answers, &item);
    let f = definition_named(&mir, "f");
    // Entry, header, body, step and exit.
    assert_eq!(f.blocks.len(), 5);
    assert!(matches!(f.blocks[0].terminator, Some(TerminatorInstruction::Jmp(1, Some(Value::Integer(IntConstant::I32(0)))))));
    assert!(matches!(f.instructions[0], Instruction::LessSigned(Value::Parameter(1, 0), Value::Integer(IntConstant::I32(9)))));
    assert!(matches!(f.blocks[1].terminator, Some(TerminatorInstruction::If { then: 2, else_: 4, end: 4, .. })));
    // `break` leaves to the exit, and the step counts up.
    assert!(matches!(f.blocks[2].terminator, Some(TerminatorInstruction::Jmp(4, None))));
    assert!(matches!(f.instructions[1], Instruction::AddInt(Value::Parameter(1, 0), Value::Integer(IntConstant::I32(1)))));
    assert!(matches!(f.blocks[3].terminator, Some(TerminatorInstruction::Jmp(1, Some(Value::InstructionResult(1))))));
    assert!(matches!(f.blocks[4].terminator, Some(TerminatorInstruction::Return(Value::Unit))));
}

#[test]
fn a_break_outside_of_a_loop_is_refused() {
    let mut context = Context::new();
    let (_, p_pattern) = local(&mut context, "p");
    let body = context.push_expr(Expr::Break, at(0));
    let (mut answers, item) = lambda_item(context, p_pattern, body, unit(), unit_layout());
    answers.name_origins.insert(0, Origin::Local(0));
    assert!(matches!(build_initial_mir(&answers, &mut SharedIds::new(), OWN, &item), Err(Malformed)));
}

#[test]
fn a_match_switches_on_the_tag() {
    let mut context = Context::new();
    let (p, p_pattern) = local(&mut context, "p");
    let (m, m_pattern) = local(&mut context, "m");
    let (p_path, scrutinee) = variable(&mut context, p);
    let define_match = context.push_expr(
        Expr::Definition(Definition { pattern: m_pattern, rhs: scrutinee, mutable: false }),
        at(0),
    );
    let (tag, _) = variable(&mut context, m);
    let one = literal(&mut context, 1);
    let two = literal(&mut context, 2);
    let body = context.push_expr(Expr::Match { expression: scrutinee, cases: vec![] }, at(0));
    let (mut answers, item) = lambda_item(context, p_pattern, body, number(), number_layout());
    answers.name_origins.insert(p, Origin::Local(p));
    answers.name_origins.insert(m, Origin::Local(m));
    answers.path_types.insert(p_path, number());
    answers.path_types.insert(tag, number());
    answers.expr_types.insert(scrutinee, number());
    answers.pattern_types.insert(m_pattern, number());
    let case = Case { constructor: Constructor::Int(7), arguments: vec![], body: DecisionTree::Success(one) };
    let cases = Cases::Cons(Box::new(case), Box::new(Cases::Nil));
    let tree = DecisionTree::Switch(tag, Box::new(cases), Some(Box::new(DecisionTree::Success(two))));
    answers.decision_trees.insert(body, (define_match, tree));
    let mir = lowered(&answers, &item);
    let f = definition_named(&mir, "f");
    // Entry, the case, the end and the rest.
    assert_eq!(f.blocks.len(), 4);
    match &f.blocks[0].terminator {
        Some(TerminatorInstruction::Switch { int_value, cases, otherwise, end }) => {
            assert_eq!(*int_value, Value::Parameter(0, 0));
            assert_eq!(*cases, vec![(7, (1, None))]);
            assert_eq!(*otherwise, (3, None));
            assert_eq!(*end, 2);
        },
        _ => panic!("no switch"),
    }
    assert!(matches!(f.blocks[1].terminator, Some(TerminatorInstruction::Jmp(2, Some(Value::Integer(IntConstant::I32(1)))))));
    assert!(matches!(f.blocks[3].terminator, Some(TerminatorInstruction::Jmp(2, Some(Value::Integer(IntConstant::I32(2)))))));
    assert!(matches!(f.blocks[2].terminator, Some(TerminatorInstruction::Return(Value::Parameter(2, 0)))));
}

#[test]
fn a_call_passes_the_evidence_last() {
    let mut context = Context::new();
    let (_, p_pattern) = local(&mut context, "p");
    let other = TopLevelName { top_level_item: TopLevelId { source_file: 3, index: 8 }, local_name_id: 2 };
    let path = context.push_path("g".to_string(), Origin::TopLevelDefinition(other), at(0));
    let callee = context.push_expr(Expr::Variable(path), at(0));
    let argument = literal(&mut context, 4);
    let arguments = vec![Argument { expr: argument, is_implicit: false }];
    let body = context.push_expr(Expr::Call { function: callee, arguments }, at(0));
    let (mut answers, item) = lambda_item(context, p_pattern, body, number(), number_layout());
    answers.name_origins.insert(0, Origin::Local(0));
    answers.path_types.insert(path, function(number(), number()));
    answers.expr_types.insert(callee, function(number(), number()));
    answers.expr_types.insert(argument, number());
    answers.database.names.push(other, "g".to_string());
    let mut ids = SharedIds::new();
    let mir = build_initial_mir(&answers, &mut ids, OWN, &item).unwrap().unwrap();
    let g = ids.lookup_definition_id(&other).unwrap();
    assert_eq!(mir.externals[&g].name, "g");
    let f = definition_named(&mir, "f");
    let last = f.instructions.len() - 1;
    match &f.instructions[last] {
        Instruction::Call { function, arguments } => {
            assert_eq!(*function, Value::Definition(g));
            assert_eq!(arguments.len(), 2);
            assert_eq!(arguments[0], Value::Integer(IntConstant::I32(4)));
        },
        _ => panic!("no call"),
    }
    assert_eq!(f.instruction_result_types[last], number_layout());
}

fn user_type() -> SourceType {
    SourceType::UserDefined(Origin::TopLevelDefinition(own_name(0)))
}

/// `type T = A | B number`, perhaps shared.
fn enum_item(shared: bool) -> (Answers, Item) {
    let mut context = Context::new();
    let (t, _) = local(&mut context, "T");
    let (a, _) = local(&mut context, "A");
    let (b, _) = local(&mut context, "B");
    let mut answers = answers(context);
    let payload = Type::Union(Box::new(ante_passes::mir::Types::from_vec(&vec![tuple(vec![]), tuple(vec![number_layout()])])));
    let layout = tuple(vec![Type::Primitive(PrimitiveType::Int(IntegerKind::U8)), payload]);
    let handle = if shared { pointer() } else { layout.clone() };
    answers.generalized.insert(a, user_type());
    answers.generalized.insert(b, function(number(), user_type()));
    set_layout(&mut answers, user_type(), handle.clone());
    set_layout(&mut answers, function(number(), user_type()), Type::function_of(&vec![number_layout(), tuple(vec![])], no_env(), handle));
    if shared {
        answers.shared_layouts.put((Generics::Nil, user_type()), layout);
    }
    let definition = |body| TypeDefinition { name: t, generics: vec![], shared, mutable: false, kind: AbilityKind::NotAbility, body };
    answers.database.items.push(OWN, ItemKind::TypeDefinition(definition(TypeDefinitionBody::Enum(vec![a, b]))));
    let variants = vec![("A".to_string(), vec![]), ("B".to_string(), vec![number()])];
    answers.database.type_bodies.push((OWN, TypeList::Nil), TypeBody::Sum(variants));
    (answers, Item::TypeDefinition(definition(TypeDefinitionBody::Enum(vec![a, b]))))
}

#[test]
fn a_constructor_packs_its_fields_behind_the_tag() {
    let (answers, item) = enum_item(false);
    let mir = lowered(&answers, &item);
    assert_eq!(mir.definitions.len(), 2);
    let a = definition_named(&mir, "A");
    assert!(matches!(a.blocks[0].terminator, Some(TerminatorInstruction::Result(Value::InstructionResult(2)))));
    let b = definition_named(&mir, "B");
    assert_eq!(b.blocks[0].parameter_types, vec![number_layout(), tuple(vec![])]);
    match &b.instructions[0] {
        Instruction::MakeTuple(values) => assert_eq!(*values, vec![Value::Parameter(0, 0)]),
        _ => panic!("no tuple"),
    }
    assert!(matches!(b.instructions[1], Instruction::Transmute(Value::InstructionResult(0))));
    match &b.instructions[2] {
        Instruction::MakeTuple(values) => {
            assert_eq!(*values, vec![Value::Integer(IntConstant::U8(1)), Value::InstructionResult(1)])
        },
        _ => panic!("no tuple"),
    }
    assert!(matches!(b.blocks[0].terminator, Some(TerminatorInstruction::Return(Value::InstructionResult(2)))));
}

#[test]
fn a_shared_type_has_a_release_function() {
    let (answers, item) = enum_item(true);
    let mut ids = SharedIds::new();
    let mir = build_initial_mir(&answers, &mut ids, OWN, &item).unwrap().unwrap();
    let id = ids.lookup_definition_id(&own_name(RELEASE_FUNCTION)).unwrap();
    let release = &mir.definitions[&id];
    assert_eq!(release.name, "release_T");
    assert_eq!(release.blocks[0].parameter_types, vec![pointer()]);
    assert!(matches!(release.instructions[0], Instruction::RcDecrement(Value::Parameter(0, 0))));
    let frees = release.instructions.iter().filter(|instruction| matches!(instruction, Instruction::FreeShared(_)));
    assert_eq!(frees.count(), 1);
    let a = definition_named(&mir, "A");
    assert!(matches!(a.instructions[3], Instruction::AllocShared(Value::InstructionResult(2))));
}

#[test]
fn an_effect_needs_no_definitions() {
    let (answers, _) = enum_item(false);
    let effect = TypeDefinition {
        name: 0,
        generics: vec![],
        shared: false,
        mutable: false,
        kind: AbilityKind::Effect,
        body: TypeDefinitionBody::Struct(vec![1]),
    };
    let mir = lowered(&answers, &Item::TypeDefinition(effect));
    assert!(mir.definitions.is_empty());
}

#[test]
fn a_method_is_taken_from_the_capability() {
    let mut context = Context::new();
    let (t, _) = local(&mut context, "Print");
    let (m, _) = local(&mut context, "print");
    let mut answers = answers(context);
    let method = Type::function_of(&vec![number_layout(), tuple(vec![])], pointer(), unit_layout());
    let capability = tuple(vec![method.clone()]);
    let constructor = function(unit(), user_type());
    answers.generalized.insert(t, constructor.clone());
    set_layout(&mut answers, constructor, Type::function_of(&vec![method, tuple(vec![])], no_env(), capability.clone()));
    let ability = TypeDefinition {
        name: t,
        generics: vec![],
        shared: false,
        mutable: false,
        kind: AbilityKind::Trait,
        body: TypeDefinitionBody::Struct(vec![m]),
    };
    let mir = lowered(&answers, &Item::TypeDefinition(ability));
    let print = definition_named(&mir, "print");
    assert_eq!(print.blocks[0].parameter_types, vec![number_layout(), capability, tuple(vec![])]);
    assert!(matches!(print.instructions[0], Instruction::IndexTuple { tuple: Value::Parameter(0, 1), index: 0 }));
    match &print.instructions[1] {
        Instruction::CallClosure { closure, arguments } => {
            assert_eq!(*closure, Value::InstructionResult(0));
            assert_eq!(*arguments, vec![Value::Parameter(0, 0), Value::Parameter(0, 2)]);
        },
        _ => panic!("no call of a closure"),
    }
}

#[test]
fn fields_are_lowered_as_written_and_packed_as_declared() {
    let mut context = Context::new();
    let (name, pattern) = local(&mut context, "point");
    let (x, _) = local(&mut context, "x");
    let (y, _) = local(&mut context, "y");
    let one = literal(&mut context, 1);
    let two = literal(&mut context, 2);
    let rhs = context.push_expr(Expr::Constructor { fields: vec![(y, one), (x, two)] }, at(0));
    let mut answers = answers(context);
    set_layout(&mut answers, user_type(), tuple(vec![number_layout(), number_layout()]));
    answers.field_orders.push((rhs, x), 0);
    answers.field_orders.push((rhs, y), 1);
    let item = define(&mut answers, pattern, name, rhs, user_type());
    let mir = lowered(&answers, &item);
    let point = definition_named(&mir, "point");
    match &point.instructions[0] {
        Instruction::MakeTuple(values) => {
            assert_eq!(*values, vec![Value::Integer(IntConstant::I32(2)), Value::Integer(IntConstant::I32(1))])
        },
        _ => panic!("no tuple"),
    }
}

#[test]
fn a_closure_packs_and_unpacks_its_captures() {
    let mut context = Context::new();
    let (p, p_pattern) = local(&mut context, "p");
    let (_, q_pattern) = local(&mut context, "q");
    let (path, inner_body) = variable(&mut context, p);
    let parameters = vec![Parameter { pattern: q_pattern, is_implicit: false, is_mutable: false }];
    let body = context.push_expr(Expr::Lambda { parameters, body: inner_body, is_move: false }, at(0));
    context.closure_environments.insert(body, vec![p]);
    let env = SourceType::Tuple(Box::new(TypeList::from_vec(&vec![number()])));
    let closure_type = SourceType::Function(Box::new(FunctionType {
        parameters: Parameters::Cons(false, Box::new(number()), Box::new(Parameters::Nil)),
        environment: env.clone(),
        return_type: number(),
        effects: no_effects(),
    }));
    let closure_layout = Type::function_of(&vec![number_layout(), tuple(vec![])], tuple(vec![number_layout()]), number_layout());
    let (mut answers, item) = lambda_item(context, p_pattern, body, closure_type.clone(), closure_layout.clone());
    set_layout(&mut answers, env, tuple(vec![number_layout()]));
    set_layout(&mut answers, closure_type, closure_layout);
    answers.name_origins.insert(p, Origin::Local(p));
    answers.name_origins.insert(1, Origin::Local(1));
    answers.pattern_types.insert(q_pattern, number());
    answers.path_types.insert(path, number());
    let mir = lowered(&answers, &item);
    let inner = definition_named(&mir, "lambda");
    assert_eq!(inner.blocks[0].parameter_types, vec![number_layout(), tuple(vec![]), tuple(vec![number_layout()])]);
    assert!(matches!(inner.instructions[0], Instruction::IndexTuple { tuple: Value::Parameter(0, 2), index: 0 }));
    assert!(matches!(inner.blocks[0].terminator, Some(TerminatorInstruction::Return(Value::InstructionResult(0)))));
    let outer = definition_named(&mir, "f");
    match &outer.instructions[0] {
        Instruction::MakeTuple(values) => assert_eq!(*values, vec![Value::Parameter(0, 0)]),
        _ => panic!("no environment"),
    }
    match &outer.instructions[1] {
        Instruction::PackClosure { function, environment } => {
            assert_eq!(*function, Value::Definition(inner.id));
            assert_eq!(*environment, Value::InstructionResult(0));
        },
        _ => panic!("no closure"),
    }
}

#[test]
fn a_string_is_its_bytes_and_a_zero() {
    let mut context = Context::new();
    let (name, pattern) = local(&mut context, "text");
    let rhs = context.push_expr(Expr::Literal(Literal::String("h\u{e9}".to_string())), at(0));
    let mut answers = answers(context);
    set_layout(&mut answers, user_type(), Type::string_layout());
    let item = define(&mut answers, pattern, name, rhs, user_type());
    let mir = lowered(&answers, &item);
    let text = definition_named(&mir, "text");
    match &text.instructions[0] {
        Instruction::MakeBytes(bytes) => assert_eq!(*bytes, vec![b'h', 0xc3, 0xa9, 0]),
        _ => panic!("no bytes"),
    }
    match &text.instructions[2] {
        Instruction::MakeTuple(values) => {
            assert_eq!(values[2], Value::Integer(IntConstant::U32(3)));
            assert_eq!(values[3], Value::Integer(IntConstant::U32(0)));
        },
        _ => panic!("no tuple"),
    }
}

/// A shared type of another item, with what is asked of it.
fn shared_type(answers: &mut Answers) -> SourceType {
    let item = TopLevelId { source_file: 3, index: 20 };
    let name = TopLevelName { top_level_item: item, local_name_id: 0 };
    let typ = SourceType::UserDefined(Origin::TopLevelDefinition(name));
    let definition = TypeDefinition {
        name: 0,
        generics: vec![],
        shared: true,
        mutable: false,
        kind: AbilityKind::NotAbility,
        body: TypeDefinitionBody::Struct(vec![]),
    };
    answers.database.items.push(item, ItemKind::TypeDefinition(definition));
    set_layout(answers, typ.clone(), pointer());
    answers.shared_layouts.put((Generics::Nil, typ.clone()), tuple(vec![]));
    typ
}

/// `f = fn p -> g p cap`, where `g` borrows its first parameter and `cap` is implicit.
fn borrowing_call(pure: bool) -> Mir {
    let mut context = Context::new();
    let (p, p_pattern) = local(&mut context, "p");
    let other = TopLevelName { top_level_item: TopLevelId { source_file: 3, index: 8 }, local_name_id: 2 };
    let callee_path = context.push_path("g".to_string(), Origin::TopLevelDefinition(other), at(0));
    let callee = context.push_expr(Expr::Variable(callee_path), at(0));
    let (handle_path, handle) = variable(&mut context, p);
    let capability_name = TopLevelName { top_level_item: TopLevelId { source_file: 3, index: 9 }, local_name_id: 1 };
    let origin = if pure { Origin::TopLevelDefinition(capability_name) } else { Origin::Local(p) };
    let capability_path = context.push_path("cap".to_string(), origin, at(0));
    let capability = context.push_expr(Expr::Variable(capability_path), at(0));
    let arguments = vec![
        Argument { expr: handle, is_implicit: false },
        Argument { expr: capability, is_implicit: true },
    ];
    let body = context.push_expr(Expr::Call { function: callee, arguments }, at(0));
    let (mut answers, item) = lambda_item(context, p_pattern, body, unit(), unit_layout());
    let node = shared_type(&mut answers);
    answers.pattern_types.insert(p_pattern, node.clone());
    answers.name_origins.insert(p, Origin::Local(p));
    answers.path_types.insert(handle_path, node.clone());
    answers.path_types.insert(capability_path, unit());
    answers.expr_types.insert(handle, node.clone());
    answers.expr_types.insert(capability, unit());
    let callee_type = SourceType::Function(Box::new(FunctionType {
        parameters: Parameters::Cons(
            false,
            Box::new(node),
            Box::new(Parameters::Cons(true, Box::new(unit()), Box::new(Parameters::Nil))),
        ),
        environment: SourceType::Primitive(Primitive::NoClosureEnv),
        return_type: unit(),
        effects: no_effects(),
    }));
    set_layout(
        &mut answers,
        callee_type.clone(),
        Type::function_of(&vec![pointer(), unit_layout(), tuple(vec![])], no_env(), unit_layout()),
    );
    answers.path_types.insert(callee_path, callee_type.clone());
    answers.expr_types.insert(callee, callee_type);
    answers.borrowed_params.push(other, vec![true]);
    lowered(&answers, &item)
}

#[test]
fn a_borrowed_handle_is_neither_retained_nor_released_around_a_pure_call() {
    let mir = borrowing_call(true);
    let f = definition_named(&mir, "f");
    assert!(f.borrow_pairs.is_empty());
    assert!(!f.instructions.iter().any(|instruction| matches!(instruction, Instruction::RcRetain(_))));
}

#[test]
fn a_borrowed_handle_is_held_across_a_call_that_may_suspend() {
    let mir = borrowing_call(false);
    let f = definition_named(&mir, "f");
    assert_eq!(f.borrow_pairs.len(), 1);
    let pair = &f.borrow_pairs[0];
    assert_eq!(pair.implicit_args, vec![1]);
    assert!(matches!(f.instructions[pair.retain as usize], Instruction::RcRetain(Value::Parameter(0, 0))));
    match &f.instructions[pair.call as usize] {
        Instruction::Call { arguments, .. } => assert_eq!(arguments.len(), 3),
        _ => panic!("no call"),
    }
    assert!(pair.retain < pair.call);
    assert!(pair.call < pair.release_call);
    match &f.instructions[pair.release_call as usize] {
        Instruction::Call { arguments, .. } => assert_eq!(*arguments, vec![Value::Parameter(0, 0)]),
        _ => panic!("no release"),
    }
}

#[test]
fn drops_follow_the_value_and_precede_the_return() {
    let mut context = Context::new();
    let (p, p_pattern) = local(&mut context, "p");
    let (path, value) = variable(&mut context, p);
    let element = literal(&mut context, 3);
    let drop = context.push_expr(Expr::ArrayLiteral(vec![element]), at(0));
    let body = context.push_expr(Expr::Return { expression: value }, at(0));
    context.push_pre_exit_drops(value, vec![drop]);
    let (mut answers, item) = lambda_item(context, p_pattern, body, number(), number_layout());
    answers.name_origins.insert(p, Origin::Local(p));
    answers.path_types.insert(path, number());
    answers.expr_types.insert(drop, number());
    let mir = lowered(&answers, &item);
    let f = definition_named(&mir, "f");
    assert!(matches!(f.instructions[0], Instruction::MakeArray(_)));
    assert_eq!(f.blocks[0].instructions, vec![0]);
    assert!(matches!(f.blocks[0].terminator, Some(TerminatorInstruction::Return(Value::Parameter(0, 0)))));
}

#[test]
fn a_mutable_local_lives_in_a_slot() {
    let mut context = Context::new();
    let (_, p_pattern) = local(&mut context, "p");
    let (x, x_pattern) = local(&mut context, "x");
    let one = literal(&mut context, 1);
    let define_x = context.push_expr(
        Expr::Definition(Definition { pattern: x_pattern, rhs: one, mutable: true }),
        at(0),
    );
    let (_, target) = variable(&mut context, x);
    let two = literal(&mut context, 2);
    let assign = context.push_expr(
        Expr::Assignment(ante_passes::cst::Assignment { lhs: target, rhs: two, op: None }),
        at(0),
    );
    let (read_path, read) = variable(&mut context, x);
    let body = context.push_expr(Expr::Sequence(vec![define_x, assign, read]), at(0));
    let (mut answers, item) = lambda_item(context, p_pattern, body, number(), number_layout());
    answers.name_origins.insert(0, Origin::Local(0));
    answers.name_origins.insert(x, Origin::Local(x));
    answers.pattern_types.insert(x_pattern, number());
    answers.path_types.insert(read_path, number());
    answers.expr_types.insert(target, number());
    let mir = lowered(&answers, &item);
    let f = definition_named(&mir, "f");
    assert!(matches!(f.instructions[0], Instruction::StackAlloc(Value::Integer(IntConstant::I32(1)))));
    assert!(matches!(
        f.instructions[1],
        Instruction::Store { pointer: Value::InstructionResult(0), value: Value::Integer(IntConstant::I32(2)) }
    ));
    assert!(matches!(f.instructions[2], Instruction::Deref(Value::InstructionResult(0))));
    assert!(matches!(f.blocks[0].terminator, Some(TerminatorInstruction::Return(Value::InstructionResult(2)))));
}

#[test]
fn an_operation_of_the_target_is_no_call() {
    let mut context = Context::new();
    let (_, p_pattern) = local(&mut context, "p");
    let callee = literal(&mut context, 0);
    let argument = literal(&mut context, 4);
    let arguments = vec![Argument { expr: argument, is_implicit: false }];
    let body = context.push_expr(Expr::Call { function: callee, arguments }, at(0));
    let (mut answers, item) = lambda_item(context, p_pattern, body, number(), number_layout());
    answers.name_origins.insert(0, Origin::Local(0));
    answers.intrinsics.insert(body, 17);
    let mir = lowered(&answers, &item);
    let f = definition_named(&mir, "f");
    match &f.instructions[0] {
        Instruction::Intrinsic { operation, arguments } => {
            assert_eq!(*operation, 17);
            assert_eq!(*arguments, vec![Value::Integer(IntConstant::I32(4))]);
        },
        _ => panic!("no operation"),
    }
}

/// Let `p` be a handle to a shared cell.
fn share(answers: &mut Answers, p: u32, p_pattern: u32) -> SourceType {
    let node = shared_type(answers);
    answers.pattern_types.insert(p_pattern, node.clone());
    answers.name_origins.insert(p, Origin::Local(p));
    answers.name_types.insert(p, node.clone());
    node
}

#[test]
fn a_stored_handle_is_retained() {
    let mut context = Context::new();
    let (p, p_pattern) = local(&mut context, "p");
    let (x, x_pattern) = local(&mut context, "x");
    let (first_path, first) = variable(&mut context, p);
    let define_x = context.push_expr(
        Expr::Definition(Definition { pattern: x_pattern, rhs: first, mutable: true }),
        at(0),
    );
    let (_, target) = variable(&mut context, x);
    let (path, value) = variable(&mut context, p);
    let assign = context.push_expr(
        Expr::Assignment(ante_passes::cst::Assignment { lhs: target, rhs: value, op: None }),
        at(0),
    );
    let body = context.push_expr(Expr::Sequence(vec![define_x, assign]), at(0));
    let (mut answers, item) = lambda_item(context, p_pattern, body, unit(), unit_layout());
    let node = share(&mut answers, p, p_pattern);
    answers.name_origins.insert(x, Origin::Local(x));
    answers.pattern_types.insert(x_pattern, node.clone());
    answers.path_types.insert(first_path, node.clone());
    answers.path_types.insert(path, node.clone());
    for expr in [first, target, value] {
        answers.expr_types.insert(expr, node.clone());
    }
    let mir = lowered(&answers, &item);
    let f = definition_named(&mir, "f");
    assert!(matches!(f.instructions[0], Instruction::StackAlloc(Value::Parameter(0, 0))));
    assert!(matches!(f.instructions[1], Instruction::RcRetain(Value::Parameter(0, 0))));
    assert!(matches!(
        f.instructions[2],
        Instruction::Store { pointer: Value::InstructionResult(0), value: Value::Parameter(0, 0) }
    ));
}

#[test]
fn a_handle_in_a_field_is_retained() {
    let mut context = Context::new();
    let (p, p_pattern) = local(&mut context, "p");
    let (a, _) = local(&mut context, "a");
    let (path, value) = variable(&mut context, p);
    let body = context.push_expr(Expr::Constructor { fields: vec![(a, value)] }, at(0));
    let (mut answers, item) = lambda_item(context, p_pattern, body, user_type(), tuple(vec![pointer()]));
    let node = share(&mut answers, p, p_pattern);
    set_layout(&mut answers, user_type(), tuple(vec![pointer()]));
    answers.path_types.insert(path, node.clone());
    answers.expr_types.insert(value, node);
    let mir = lowered(&answers, &item);
    let f = definition_named(&mir, "f");
    assert!(matches!(f.instructions[0], Instruction::RcRetain(Value::Parameter(0, 0))));
    assert!(matches!(f.instructions[1], Instruction::MakeTuple(_)));
}

#[test]
fn a_copy_retains_each_handle_it_holds() {
    let mut context = Context::new();
    let (p, p_pattern) = local(&mut context, "p");
    let (a, _) = local(&mut context, "a");
    let (path, value) = variable(&mut context, p);
    let body = context.push_expr(Expr::Constructor { fields: vec![(a, value)] }, at(0));
    let held = tuple(vec![pointer(), number_layout(), pointer()]);
    let (mut answers, item) = lambda_item(context, p_pattern, body, user_type(), tuple(vec![held.clone()]));
    let node = shared_type(&mut answers);
    let triple = SourceType::Tuple(Box::new(TypeList::from_vec(&vec![node.clone(), number(), node])));
    set_layout(&mut answers, triple.clone(), held.clone());
    set_layout(&mut answers, user_type(), tuple(vec![held]));
    answers.pattern_types.insert(p_pattern, triple.clone());
    answers.name_origins.insert(p, Origin::Local(p));
    answers.name_types.insert(p, triple.clone());
    answers.path_types.insert(path, triple.clone());
    answers.expr_types.insert(value, triple);
    answers.copy_places.insert(value);
    let mir = lowered(&answers, &item);
    let f = definition_named(&mir, "f");
    assert!(matches!(f.instructions[0], Instruction::IndexTuple { tuple: Value::Parameter(0, 0), index: 0 }));
    assert!(matches!(f.instructions[1], Instruction::RcRetain(Value::InstructionResult(0))));
    assert!(matches!(f.instructions[2], Instruction::IndexTuple { tuple: Value::Parameter(0, 0), index: 2 }));
    assert!(matches!(f.instructions[3], Instruction::RcRetain(Value::InstructionResult(2))));
    assert!(matches!(f.instructions[4], Instruction::MakeTuple(_)));
    assert_eq!(f.instructions.len(), 5);
}

/// `f = fn p -> fn q -> p`, where `p` has the given layout in the environment.
fn capturing(slot: Type, prepare: impl FnOnce(&mut Context, u32, u32), finish: impl FnOnce(&mut Answers, u32, u32)) -> Mir {
    let mut context = Context::new();
    let (p, p_pattern) = local(&mut context, "p");
    let (q, q_pattern) = local(&mut context, "q");
    let (path, inner_body) = variable(&mut context, p);
    let parameters = vec![Parameter { pattern: q_pattern, is_implicit: false, is_mutable: false }];
    let body = context.push_expr(Expr::Lambda { parameters, body: inner_body, is_move: false }, at(0));
    context.closure_environments.insert(body, vec![p]);
    prepare(&mut context, body, p);
    let env = SourceType::Tuple(Box::new(TypeList::from_vec(&vec![user_type()])));
    let closure_type = SourceType::Function(Box::new(FunctionType {
        parameters: Parameters::Cons(false, Box::new(number()), Box::new(Parameters::Nil)),
        environment: env.clone(),
        return_type: number(),
        effects: no_effects(),
    }));
    let environment = tuple(vec![slot]);
    let closure_layout = Type::function_of(&vec![number_layout(), tuple(vec![])], environment.clone(), number_layout());
    let (mut answers, item) = lambda_item(context, p_pattern, body, closure_type.clone(), closure_layout.clone());
    set_layout(&mut answers, env, environment);
    set_layout(&mut answers, closure_type, closure_layout);
    answers.name_origins.insert(p, Origin::Local(p));
    answers.name_origins.insert(q, Origin::Local(q));
    answers.pattern_types.insert(q_pattern, number());
    answers.path_types.insert(path, number());
    finish(&mut answers, p, p_pattern);
    lowered(&answers, &item)
}

#[test]
fn a_captured_handle_is_retained() {
    let mir = capturing(
        pointer(),
        |_, _, _| {},
        |answers, p, p_pattern| {
            share(answers, p, p_pattern);
        },
    );
    let outer = definition_named(&mir, "f");
    assert!(matches!(outer.instructions[0], Instruction::RcRetain(Value::Parameter(0, 0))));
    match &outer.instructions[1] {
        Instruction::MakeTuple(values) => assert_eq!(*values, vec![Value::Parameter(0, 0)]),
        _ => panic!("no environment"),
    }
}

#[test]
fn a_borrowed_capture_is_read_through_its_reference() {
    let mir = capturing(
        pointer(),
        |context, lambda, p| {
            context.borrowed_captures.insert(lambda, vec![p]);
        },
        |_, _, _| {},
    );
    let outer = definition_named(&mir, "f");
    assert!(matches!(outer.instructions[0], Instruction::StackAlloc(Value::Parameter(0, 0))));
    match &outer.instructions[1] {
        Instruction::MakeTuple(values) => assert_eq!(*values, vec![Value::InstructionResult(0)]),
        _ => panic!("no environment"),
    }
    let inner = definition_named(&mir, "lambda");
    assert!(matches!(inner.instructions[0], Instruction::IndexTuple { tuple: Value::Parameter(0, 2), index: 0 }));
    assert!(matches!(inner.instructions[1], Instruction::Deref(Value::InstructionResult(0))));
    assert!(matches!(inner.blocks[0].terminator, Some(TerminatorInstruction::Return(Value::InstructionResult(1)))));
}

#[test]
fn a_slot_is_taken_out_of_the_closure() {
    let mut context = Context::new();
    let (p, p_pattern) = local(&mut context, "p");
    let (path, body) = variable(&mut context, p);
    context.mark_closure_env_slot(body, 1);
    let (mut answers, item) = lambda_item(context, p_pattern, body, number(), number_layout());
    let environment = tuple(vec![unit_layout(), number_layout()]);
    let closure = Type::function_of(&vec![tuple(vec![])], environment.clone(), unit_layout());
    set_layout(&mut answers, user_type(), closure);
    answers.pattern_types.insert(p_pattern, user_type());
    answers.name_origins.insert(p, Origin::Local(p));
    answers.path_types.insert(path, user_type());
    let mir = lowered(&answers, &item);
    let f = definition_named(&mir, "f");
    assert!(matches!(f.instructions[0], Instruction::IndexTuple { tuple: Value::Parameter(0, 0), index: 1 }));
    assert!(matches!(f.instructions[1], Instruction::IndexTuple { tuple: Value::InstructionResult(0), index: 1 }));
    assert_eq!(f.instruction_result_types, vec![environment, number_layout()]);
    assert!(matches!(f.blocks[0].terminator, Some(TerminatorInstruction::Return(Value::InstructionResult(1)))));
}

#[test]
fn a_handle_in_a_tuple_is_released_with_the_cell() {
    let (mut answers, item) = enum_item(true);
    let node = shared_type(&mut answers);
    let pair = SourceType::Tuple(Box::new(TypeList::from_vec(&vec![node, number()])));
    let pair_layout = tuple(vec![pointer(), number_layout()]);
    set_layout(&mut answers, pair.clone(), pair_layout.clone());
    let union = Type::Union(Box::new(ante_passes::mir::Types::from_vec(&vec![tuple(vec![]), tuple(vec![pair_layout])])));
    let layout = tuple(vec![Type::Primitive(PrimitiveType::Int(IntegerKind::U8)), union]);
    answers.shared_layouts.put((Generics::Nil, user_type()), layout);
    let variants = vec![("A".to_string(), vec![]), ("B".to_string(), vec![pair])];
    answers.database.type_bodies.put((OWN, TypeList::Nil), TypeBody::Sum(variants));
    let mir = lowered(&answers, &item);
    let release = definition_named(&mir, "release_T");
    let mut released = Vec::new();
    for instruction in &release.instructions {
        if let Instruction::Call { arguments, .. } = instruction {
            assert_eq!(arguments.len(), 1);
            if let Value::InstructionResult(id) = arguments[0] {
                released.push(id as usize);
            }
        }
    }
    assert_eq!(released.len(), 1);
    assert!(matches!(release.instructions[released[0]], Instruction::IndexTuple { index: 0, .. }));
    assert_eq!(release.instruction_result_types[released[0]], pointer());
}

#[test]
fn a_chain_keeps_back_the_last_handle_of_its_type() {
    let (mut answers, item) = enum_item(true);
    let node = shared_type(&mut answers);
    let payload = tuple(vec![pointer(), pointer(), pointer()]);
    let union = Type::Union(Box::new(ante_passes::mir::Types::from_vec(&vec![tuple(vec![]), payload])));
    let layout = tuple(vec![Type::Primitive(PrimitiveType::Int(IntegerKind::U8)), union]);
    answers.shared_layouts.put((Generics::Nil, user_type()), layout);
    let variants = vec![("A".to_string(), vec![]), ("B".to_string(), vec![user_type(), node, user_type()])];
    answers.database.type_bodies.put((OWN, TypeList::Nil), TypeBody::Sum(variants));
    let mir = lowered(&answers, &item);
    let release = definition_named(&mir, "release_T");
    let field = |value: &Value| match value {
        Value::InstructionResult(id) => match &release.instructions[*id as usize] {
            Instruction::IndexTuple { index, .. } => Some(*index),
            _ => None,
        },
        _ => None,
    };
    let mut released = Vec::new();
    let mut stored = Vec::new();
    for instruction in &release.instructions {
        match instruction {
            Instruction::Call { arguments, .. } => released.push(field(&arguments[0])),
            Instruction::Store { pointer: Value::InstructionResult(1), value } => stored.push(field(value)),
            _ => {},
        }
    }
    assert!(matches!(release.instructions[1], Instruction::StackAlloc(Value::InstructionResult(0))));
    assert_eq!(released, vec![Some(0), Some(1)]);
    // The slot is cleared at the start of a round.
    assert_eq!(stored, vec![None, Some(2)]);
    let freed = release.instructions.iter().filter(|instruction| matches!(instruction, Instruction::FreeShared(_)));
    assert_eq!(freed.count(), 1);
}
