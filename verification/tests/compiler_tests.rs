use stackscript::ast::{Expr, ExprType};
use stackscript::bytecode::{Chunk, OpCode};
use stackscript::compiler::{CompileError, Compiler};

fn leaf(expr_type: ExprType) -> Expr {
    Expr { expr_type, children: Vec::new() }
}

fn node(expr_type: ExprType, children: Vec<Expr>) -> Expr {
    Expr { expr_type, children }
}

fn lit(value: i32) -> Expr {
    leaf(ExprType::Literal(value))
}

fn var(name: &str) -> Expr {
    leaf(ExprType::Variable(name.to_string()))
}

fn op(c: char, left: Expr, right: Expr) -> Expr {
    node(ExprType::Op(c), vec![left, right])
}

fn print(value: Expr) -> Expr {
    node(ExprType::PrintStmt, vec![value])
}

fn declare(name: &str, value: Expr) -> Expr {
    node(ExprType::VarDeclStmt(name.to_string()), vec![value])
}

fn declare_bare(name: &str) -> Expr {
    leaf(ExprType::VarDeclStmt(name.to_string()))
}

fn assign(name: &str, value: Expr) -> Expr {
    node(ExprType::AssignStmt(name.to_string()), vec![value])
}

fn program(statements: Vec<Expr>) -> Expr {
    node(ExprType::Program, statements)
}

#[test]
fn fresh_node_is_the_literal_zero() {
    let e = Expr::new();
    assert_eq!(e.expr_type, ExprType::Literal(0));
    assert!(e.children.is_empty());
    assert!(e.is_well_formed());
}

#[test]
fn well_formedness_follows_the_arity_of_each_tag() {
    assert!(op('+', lit(1), lit(2)).is_well_formed());
    assert!(!node(ExprType::Op('+'), vec![lit(1)]).is_well_formed());
    assert!(!op('%', lit(1), lit(2)).is_well_formed());
    assert!(!node(ExprType::PrintStmt, vec![]).is_well_formed());
    assert!(!node(ExprType::AssignStmt("a".to_string()), vec![]).is_well_formed());
    assert!(declare_bare("a").is_well_formed());
    assert!(!node(ExprType::VarDeclStmt("a".to_string()), vec![lit(1), lit(2)]).is_well_formed());
    assert!(!node(ExprType::Literal(1), vec![lit(2)]).is_well_formed());
    assert!(program(vec![]).is_well_formed());
    assert!(!program(vec![print(node(ExprType::Op('*'), vec![]))]).is_well_formed());
}

#[test]
fn empty_chunk_holds_nothing() {
    let chunk = Chunk::new();
    assert!(chunk.program.is_empty());
    assert!(chunk.constant_pool.is_empty());
    assert_eq!(chunk.variable_size, 0);
}

#[test]
fn declarations_then_print_compile_to_the_expected_code() {
    let ast = program(vec![
        declare("a", lit(1)),
        declare("b", lit(2)),
        print(op('+', var("a"), op('*', var("b"), lit(3)))),
    ]);
    let chunk = Chunk::compile_from(&ast).unwrap();
    assert_eq!(
        chunk.program,
        vec![
            OpCode::LoadConst(0),
            OpCode::Store(0),
            OpCode::LoadConst(1),
            OpCode::Store(1),
            OpCode::LoadVar(0),
            OpCode::LoadVar(1),
            OpCode::LoadConst(2),
            OpCode::Mult,
            OpCode::Add,
            OpCode::Print,
        ]
    );
    assert_eq!(chunk.constant_pool, vec![1, 2, 3]);
    assert_eq!(chunk.variable_size, 2);
}

#[test]
fn operands_are_emitted_left_then_right_then_operator() {
    let ast = print(op('-', op('/', lit(8), lit(2)), lit(1)));
    let chunk = Compiler::compile(&ast).unwrap();
    assert_eq!(
        chunk.program,
        vec![
            OpCode::LoadConst(0),
            OpCode::LoadConst(1),
            OpCode::Div,
            OpCode::LoadConst(2),
            OpCode::Sub,
            OpCode::Print,
        ]
    );
    assert_eq!(chunk.constant_pool, vec![8, 2, 1]);
    assert_eq!(chunk.variable_size, 0);
}

#[test]
fn declaration_without_value_emits_nothing_and_takes_a_slot() {
    let chunk = Compiler::compile(&program(vec![declare_bare("a")])).unwrap();
    assert!(chunk.program.is_empty());
    assert!(chunk.constant_pool.is_empty());
    assert_eq!(chunk.variable_size, 1);
}

#[test]
fn compiling_twice_gives_the_same_unit() {
    let ast = program(vec![
        declare("a", op('+', lit(4), lit(5))),
        assign("a", op('*', var("a"), lit(2))),
        print(var("a")),
    ]);
    let one = Compiler::compile(&ast).unwrap();
    let other = Compiler::compile(&ast).unwrap();
    assert_eq!(one.program, other.program);
    assert_eq!(one.constant_pool, other.constant_pool);
    assert_eq!(one.variable_size, other.variable_size);
    assert_eq!(one, Chunk::compile_from(&ast).unwrap());
}

#[test]
fn second_declaration_of_a_name_is_rejected() {
    let ast = program(vec![declare("a", lit(1)), declare("a", lit(2))]);
    assert_eq!(Compiler::compile(&ast), Err(CompileError::Redeclared("a".to_string())));
}

#[test]
fn redeclaration_in_a_session_gives_no_second_slot() {
    let mut compiler = Compiler::new();
    let first = compiler.continue_compile(&program(vec![declare("a", lit(1))])).unwrap();
    assert_eq!(first.variable_size, 1);
    assert_eq!(compiler.slot_count(), 1);
    let again = compiler.continue_compile(&program(vec![declare("a", lit(2))]));
    assert_eq!(again, Err(CompileError::Redeclared("a".to_string())));
    assert_eq!(compiler.slot_count(), 1);
    assert_eq!(compiler.slot(&"a".to_string()), Some(0));
}

#[test]
fn assignment_to_an_undeclared_name_is_rejected() {
    let ast = program(vec![assign("x", lit(5))]);
    assert_eq!(Compiler::compile(&ast), Err(CompileError::Undeclared("x".to_string())));
}

#[test]
fn read_of_an_unknown_name_is_rejected() {
    let ast = program(vec![print(var("y"))]);
    assert_eq!(Compiler::compile(&ast), Err(CompileError::Unknown("y".to_string())));
}

#[test]
fn first_rejection_wins() {
    let ast = program(vec![assign("x", lit(5)), declare("a", lit(1)), declare("a", lit(2))]);
    assert_eq!(Compiler::compile(&ast), Err(CompileError::Undeclared("x".to_string())));
}

#[test]
fn session_counts_only_new_slots_and_numbers_them_on() {
    let mut compiler = Compiler::new();
    let first = compiler
        .continue_compile(&program(vec![declare("a", lit(1)), declare("b", lit(2))]))
        .unwrap();
    assert_eq!(first.variable_size, 2);
    let second = compiler.continue_compile(&program(vec![declare("c", var("a"))])).unwrap();
    assert_eq!(second.variable_size, 1);
    assert_eq!(second.program, vec![OpCode::LoadVar(0), OpCode::Store(2)]);
    assert!(second.constant_pool.is_empty());
    let third = compiler.continue_compile(&program(vec![assign("b", lit(9))])).unwrap();
    assert_eq!(third.variable_size, 0);
    assert_eq!(third.program, vec![OpCode::LoadConst(0), OpCode::Store(1)]);
    assert_eq!(compiler.slot(&"a".to_string()), Some(0));
    assert_eq!(compiler.slot(&"b".to_string()), Some(1));
    assert_eq!(compiler.slot(&"c".to_string()), Some(2));
    assert_eq!(compiler.slot(&"d".to_string()), None);
    assert_eq!(compiler.slot_count(), 3);
}

#[test]
fn rejected_statement_leaves_no_name_behind() {
    let mut compiler = Compiler::new();
    compiler.continue_compile(&program(vec![declare("keep", lit(1))])).unwrap();
    let bad = program(vec![declare("lost", lit(2)), assign("nowhere", lit(3))]);
    assert_eq!(
        compiler.continue_compile(&bad),
        Err(CompileError::Undeclared("nowhere".to_string()))
    );
    assert_eq!(compiler.slot_count(), 1);
    assert_eq!(compiler.slot(&"lost".to_string()), None);
    assert_eq!(
        compiler.continue_compile(&program(vec![assign("lost", lit(4))])),
        Err(CompileError::Undeclared("lost".to_string()))
    );
    let later = compiler.continue_compile(&program(vec![declare("lost", lit(5))])).unwrap();
    assert_eq!(later.variable_size, 1);
    assert_eq!(later.program, vec![OpCode::LoadConst(0), OpCode::Store(1)]);
}

#[test]
fn rejection_in_code_generation_rolls_the_table_back_too() {
    let mut compiler = Compiler::new();
    let bad = program(vec![declare("a", lit(1)), print(var("ghost"))]);
    assert_eq!(compiler.continue_compile(&bad), Err(CompileError::Unknown("ghost".to_string())));
    assert_eq!(compiler.slot_count(), 0);
}

#[test]
fn extensions_are_minimal_and_most_significant_first() {
    let mut chunk = Chunk::new();
    Compiler::push_extensions(&mut chunk, 0);
    Compiler::push_extensions(&mut chunk, 255);
    assert!(chunk.program.is_empty());
    Compiler::push_extensions(&mut chunk, 256);
    assert_eq!(chunk.program, vec![OpCode::Extend(1)]);
    let mut chunk = Chunk::new();
    Compiler::push_extensions(&mut chunk, 65535);
    assert_eq!(chunk.program, vec![OpCode::Extend(255)]);
    let mut chunk = Chunk::new();
    Compiler::push_extensions(&mut chunk, 65536);
    assert_eq!(chunk.program, vec![OpCode::Extend(1), OpCode::Extend(0)]);
    let mut chunk = Chunk::new();
    Compiler::push_extensions(&mut chunk, 0x01_02_03_04);
    assert_eq!(chunk.program, vec![OpCode::Extend(1), OpCode::Extend(2), OpCode::Extend(3)]);
}

#[test]
fn constant_index_256_is_extended() {
    let mut statements = Vec::new();
    for i in 0..257 {
        statements.push(print(lit(i)));
    }
    let chunk = Compiler::compile(&program(statements)).unwrap();
    assert_eq!(chunk.constant_pool.len(), 257);
    let n = chunk.program.len();
    assert_eq!(n, 2 * 256 + 3);
    assert_eq!(chunk.program[n - 5], OpCode::LoadConst(255));
    assert_eq!(chunk.program[n - 4], OpCode::Print);
    assert_eq!(chunk.program[n - 3], OpCode::Extend(1));
    assert_eq!(chunk.program[n - 2], OpCode::LoadConst(0));
    assert_eq!(chunk.program[n - 1], OpCode::Print);
}

#[test]
fn slot_index_256_is_extended_in_stores_and_loads() {
    let mut statements = Vec::new();
    for i in 0..257 {
        statements.push(declare_bare(&format!("v{}", i)));
    }
    statements.push(assign("v256", lit(7)));
    statements.push(print(var("v256")));
    statements.push(declare("w", var("v255")));
    let chunk = Compiler::compile(&program(statements)).unwrap();
    assert_eq!(chunk.variable_size, 258);
    assert_eq!(
        chunk.program,
        vec![
            OpCode::LoadConst(0),
            OpCode::Extend(1),
            OpCode::Store(0),
            OpCode::Extend(1),
            OpCode::LoadVar(0),
            OpCode::Print,
            OpCode::LoadVar(255),
            OpCode::Extend(1),
            OpCode::Store(1),
        ]
    );
}
