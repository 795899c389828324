use stackscript::ast::{Expr, ExprType};
use stackscript::bytecode::{Chunk, OpCode};
use stackscript::compiler::Compiler;
use stackscript::vm::{RuntimeError, VM};

fn unit(program: Vec<OpCode>, constant_pool: Vec<i32>, variable_size: usize) -> Chunk {
    Chunk { program, variable_size, constant_pool }
}

fn run_fresh(chunk: &Chunk) -> (VM, Vec<i32>, Result<(), RuntimeError>) {
    let mut vm = VM::new();
    let mut out = Vec::new();
    let status = vm.run(chunk, &mut out);
    (vm, out, status)
}

fn binary(op: OpCode, a: i32, b: i32) -> (Vec<i32>, Result<(), RuntimeError>) {
    let chunk = unit(
        vec![OpCode::LoadConst(0), OpCode::LoadConst(1), op, OpCode::Print],
        vec![a, b],
        0,
    );
    let (_, out, status) = run_fresh(&chunk);
    (out, status)
}

#[test]
fn fresh_machine_is_empty_and_at_rest() {
    let vm = VM::new();
    assert!(vm.stack.is_empty());
    assert_eq!(vm.initial_stack_size, 0);
    assert!(vm.is_at_rest());
}

#[test]
fn machine_with_pending_operands_is_not_at_rest() {
    let vm = VM { stack: vec![1, 2], initial_stack_size: 1 };
    assert!(!vm.is_at_rest());
}

#[test]
fn arithmetic_takes_the_lower_operand_first() {
    assert_eq!(binary(OpCode::Add, 5, 3), (vec![8], Ok(())));
    assert_eq!(binary(OpCode::Sub, 5, 3), (vec![2], Ok(())));
    assert_eq!(binary(OpCode::Mult, 5, 3), (vec![15], Ok(())));
    assert_eq!(binary(OpCode::Div, 7, 2), (vec![3], Ok(())));
}

#[test]
fn division_rounds_toward_zero() {
    assert_eq!(binary(OpCode::Div, -7, 2), (vec![-3], Ok(())));
    assert_eq!(binary(OpCode::Div, 7, -2), (vec![-3], Ok(())));
    assert_eq!(binary(OpCode::Div, -7, -2), (vec![3], Ok(())));
    assert_eq!(binary(OpCode::Div, 0, -5), (vec![0], Ok(())));
    assert_eq!(binary(OpCode::Div, i32::MIN, 2), (vec![-1073741824], Ok(())));
    assert_eq!(binary(OpCode::Div, i32::MAX, -1), (vec![-2147483647], Ok(())));
}

#[test]
fn arithmetic_wraps_around() {
    assert_eq!(binary(OpCode::Add, i32::MAX, 1), (vec![i32::MIN], Ok(())));
    assert_eq!(binary(OpCode::Sub, i32::MIN, 1), (vec![i32::MAX], Ok(())));
    assert_eq!(binary(OpCode::Mult, 65536, 65536), (vec![0], Ok(())));
    assert_eq!(binary(OpCode::Div, i32::MIN, -1), (vec![i32::MIN], Ok(())));
}

#[test]
fn division_by_zero_is_a_fault() {
    assert_eq!(binary(OpCode::Div, 1, 0), (vec![], Err(RuntimeError::DivisionByZero)));
}

#[test]
fn arithmetic_on_too_few_operands_underflows() {
    for op in [OpCode::Add, OpCode::Sub, OpCode::Mult, OpCode::Div] {
        let (vm, out, status) = run_fresh(&unit(vec![op], vec![], 0));
        assert_eq!(status, Err(RuntimeError::StackUnderflow));
        assert!(out.is_empty());
        assert!(vm.stack.is_empty());
        let (_, _, status) = run_fresh(&unit(vec![OpCode::LoadConst(0), op], vec![0], 0));
        assert_eq!(status, Err(RuntimeError::StackUnderflow));
    }
}

#[test]
fn pop_never_takes_a_variable_cell() {
    let mut vm = VM::new();
    let mut out = Vec::new();
    let setup = unit(vec![OpCode::LoadConst(0), OpCode::Store(0)], vec![41], 1);
    assert_eq!(vm.run(&setup, &mut out), Ok(()));
    assert_eq!(vm.stack, vec![41]);
    for op in [OpCode::Print, OpCode::Store(0), OpCode::Add] {
        let status = vm.run(&unit(vec![op], vec![], 0), &mut out);
        assert_eq!(status, Err(RuntimeError::StackUnderflow));
        assert_eq!(vm.stack, vec![41]);
        assert_eq!(vm.initial_stack_size, 1);
    }
    assert!(out.is_empty());
}

#[test]
fn new_slots_are_zeroed_and_appended() {
    let mut vm = VM::new();
    let mut out = Vec::new();
    assert_eq!(vm.run(&unit(vec![OpCode::LoadConst(0), OpCode::Store(1)], vec![5], 2), &mut out), Ok(()));
    assert_eq!(vm.stack, vec![0, 5]);
    assert_eq!(vm.initial_stack_size, 2);
    assert_eq!(vm.run(&unit(vec![OpCode::LoadVar(2), OpCode::Print], vec![], 1), &mut out), Ok(()));
    assert_eq!(vm.stack, vec![0, 5, 0]);
    assert_eq!(vm.initial_stack_size, 3);
    assert_eq!(out, vec![0]);
    assert_eq!(vm.run(&unit(vec![], vec![], 0), &mut out), Ok(()));
    assert_eq!(vm.stack, vec![0, 5, 0]);
}

#[test]
fn load_of_a_slot_outside_the_variables_is_a_fault() {
    let (_, out, status) = run_fresh(&unit(vec![OpCode::LoadVar(0), OpCode::Print], vec![], 0));
    assert_eq!(status, Err(RuntimeError::IndexOutOfRange));
    assert!(out.is_empty());
    let (_, _, status) = run_fresh(&unit(vec![OpCode::LoadVar(2)], vec![], 2));
    assert_eq!(status, Err(RuntimeError::IndexOutOfRange));
    let (_, _, status) =
        run_fresh(&unit(vec![OpCode::Extend(1), OpCode::LoadVar(0)], vec![], 256));
    assert_eq!(status, Err(RuntimeError::IndexOutOfRange));
}

#[test]
fn store_into_a_slot_outside_the_variables_is_a_fault() {
    let chunk = unit(vec![OpCode::LoadConst(0), OpCode::LoadConst(0), OpCode::Store(1)], vec![3], 1);
    let (vm, _, status) = run_fresh(&chunk);
    assert_eq!(status, Err(RuntimeError::IndexOutOfRange));
    assert_eq!(vm.stack, vec![0]);
}

#[test]
fn load_of_a_constant_outside_the_pool_is_a_fault() {
    let (_, _, status) = run_fresh(&unit(vec![OpCode::LoadConst(1)], vec![3], 0));
    assert_eq!(status, Err(RuntimeError::IndexOutOfRange));
}

#[test]
fn fault_keeps_what_was_done_and_clears_the_operands() {
    let chunk = unit(
        vec![
            OpCode::LoadConst(0),
            OpCode::Store(0),
            OpCode::LoadConst(1),
            OpCode::Print,
            OpCode::LoadConst(1),
            OpCode::LoadConst(1),
            OpCode::LoadConst(2),
            OpCode::Div,
            OpCode::LoadConst(0),
            OpCode::Store(1),
            OpCode::Print,
        ],
        vec![11, 22, 0],
        2,
    );
    let (vm, out, status) = run_fresh(&chunk);
    assert_eq!(status, Err(RuntimeError::DivisionByZero));
    assert_eq!(out, vec![22]);
    assert_eq!(vm.stack, vec![11, 0]);
    assert_eq!(vm.initial_stack_size, 2);
    assert!(vm.is_at_rest());
}

#[test]
fn operands_left_over_are_cleared_after_success() {
    let (vm, out, status) =
        run_fresh(&unit(vec![OpCode::LoadConst(0), OpCode::LoadConst(0)], vec![9], 1));
    assert_eq!(status, Ok(()));
    assert!(out.is_empty());
    assert_eq!(vm.stack, vec![0]);
}

#[test]
fn output_is_appended_in_order() {
    let mut vm = VM::new();
    let mut out = vec![100];
    let chunk = unit(
        vec![OpCode::LoadConst(0), OpCode::Print, OpCode::LoadConst(1), OpCode::Print],
        vec![1, 2],
        0,
    );
    assert_eq!(vm.run(&chunk, &mut out), Ok(()));
    assert_eq!(out, vec![100, 1, 2]);
}

#[test]
fn register_is_cleared_by_the_instruction_that_uses_it() {
    let mut pool = vec![0; 300];
    pool[1] = 10;
    pool[257] = 20;
    let chunk = unit(
        vec![
            OpCode::Extend(1),
            OpCode::LoadConst(1),
            OpCode::LoadConst(1),
            OpCode::Add,
            OpCode::Print,
        ],
        pool,
        0,
    );
    let (_, out, status) = run_fresh(&chunk);
    assert_eq!(status, Ok(()));
    assert_eq!(out, vec![30]);
}

#[test]
fn register_survives_instructions_that_do_not_use_it() {
    let chunk = unit(
        vec![
            OpCode::LoadConst(0),
            OpCode::LoadConst(0),
            OpCode::Extend(1),
            OpCode::Add,
            OpCode::Print,
            OpCode::LoadVar(0),
            OpCode::Print,
        ],
        vec![4],
        257,
    );
    let mut vm = VM::new();
    let mut out = Vec::new();
    vm.stack = Vec::new();
    assert_eq!(vm.run(&chunk, &mut out), Ok(()));
    assert_eq!(out, vec![8, 0]);
}

#[test]
fn slot_65535_is_rebuilt_from_its_extension() {
    let mut chunk = Chunk::new();
    chunk.variable_size = 65536;
    chunk.constant_pool.push(77);
    chunk.program.push(OpCode::LoadConst(0));
    Compiler::push_extensions(&mut chunk, 65535);
    chunk.program.push(OpCode::Store(255));
    Compiler::push_extensions(&mut chunk, 65535);
    chunk.program.push(OpCode::LoadVar(255));
    chunk.program.push(OpCode::Print);
    Compiler::push_extensions(&mut chunk, 256);
    chunk.program.push(OpCode::LoadVar(0));
    chunk.program.push(OpCode::Print);
    let (vm, out, status) = run_fresh(&chunk);
    assert_eq!(status, Ok(()));
    assert_eq!(out, vec![77, 0]);
    assert_eq!(vm.stack.len(), 65536);
    assert_eq!(vm.stack[65535], 77);
    assert_eq!(vm.stack.iter().filter(|v| **v != 0).count(), 1);
}

#[test]
fn constants_256_and_65535_are_loaded_from_compiled_code() {
    let mut statements = Vec::new();
    for i in 0..65536 {
        statements.push(Expr {
            expr_type: ExprType::PrintStmt,
            children: vec![Expr { expr_type: ExprType::Literal(i), children: Vec::new() }],
        });
    }
    let ast = Expr { expr_type: ExprType::Program, children: statements };
    let chunk = Compiler::compile(&ast).unwrap();
    let n = chunk.program.len();
    assert_eq!(chunk.program[n - 3], OpCode::Extend(255));
    assert_eq!(chunk.program[n - 2], OpCode::LoadConst(255));
    assert_eq!(chunk.program[2 * 256], OpCode::Extend(1));
    assert_eq!(chunk.program[2 * 256 + 1], OpCode::LoadConst(0));
    let (_, out, status) = run_fresh(&chunk);
    assert_eq!(status, Ok(()));
    assert_eq!(out.len(), 65536);
    assert_eq!(out[255], 255);
    assert_eq!(out[256], 256);
    assert_eq!(out[65535], 65535);
    assert!(out.iter().enumerate().all(|(i, v)| *v == i as i32));
}

#[test]
fn extensions_wider_than_the_register_drop_the_high_bytes() {
    let mut program = vec![OpCode::Extend(9); 8];
    program.push(OpCode::LoadConst(0));
    program.push(OpCode::Print);
    let (_, out, status) = run_fresh(&unit(program, vec![5], 0));
    assert_eq!(status, Err(RuntimeError::IndexOutOfRange));
    assert!(out.is_empty());
    let mut program = vec![OpCode::Extend(9)];
    program.extend(vec![OpCode::Extend(0); 7]);
    program.push(OpCode::LoadConst(0));
    program.push(OpCode::Print);
    let (_, out, status) = run_fresh(&unit(program, vec![5], 0));
    assert_eq!(status, Ok(()));
    assert_eq!(out, vec![5]);
}
