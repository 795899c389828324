//! What the compiler and the machine promise together: compiled code run on
//! the machine computes what the source means.

use vstd::prelude::*;
use crate::ast::{evaluate, is_arithmetic, is_expression, is_statement, Kind, Tree};
use crate::bytecode::{
    extension_prefix,
    fold_register,
    low_byte,
    store_at,
    OpCode,
};
use crate::compiler::{
    compile_outcome,
    discover,
    discover_children,
    emit,
    emit_children,
    operator_instruction,
    slot_of,
    Code,
    CompileFault,
    Names,
};
use crate::compiler_laws::{lemma_discover_extends, lemma_slot_found};
use crate::vm::{entry_state, execute, run_steps, step, Machine, Outcome, RuntimeError};

verus! {

/// The outcome of a run that has not faulted.
pub open spec fn running(machine: Machine) -> Outcome {
    Outcome { machine, fault: None }
}

/// The first instructions of a program run as they would on their own.
pub proof fn lemma_run_prefix(
    first: Seq<OpCode>,
    second: Seq<OpCode>,
    pool: Seq<i32>,
    start: Machine,
    count: nat,
)
    requires
        count <= first.len(),
    ensures
        run_steps(first + second, pool, start, count) == run_steps(first, pool, start, count),
    decreases count,
{
    if count > 0 {
        lemma_run_prefix(first, second, pool, start, (count - 1) as nat);
        assert((first + second)[count - 1] == first[count - 1]);
    }
}

proof fn lemma_run_suffix(
    first: Seq<OpCode>,
    second: Seq<OpCode>,
    pool: Seq<i32>,
    start: Machine,
    count: nat,
)
    requires
        count <= second.len(),
    ensures
        run_steps(first + second, pool, start, first.len() + count) == (if execute(
            first,
            pool,
            start,
        ).fault is Some {
            execute(first, pool, start)
        } else {
            run_steps(second, pool, execute(first, pool, start).machine, count)
        }),
    decreases count,
{
    if count == 0 {
        lemma_run_prefix(first, second, pool, start, first.len());
    } else {
        lemma_run_suffix(first, second, pool, start, (count - 1) as nat);
        assert((first + second)[first.len() + count - 1] == second[count - 1]);
    }
}

/// Two programs one after the other: the second starts where the first
/// ended, unless the first faulted, in which case the fault stands.
pub proof fn lemma_run_sequence(
    first: Seq<OpCode>,
    second: Seq<OpCode>,
    pool: Seq<i32>,
    start: Machine,
)
    ensures
        execute(first + second, pool, start) == (if execute(first, pool, start).fault is Some {
            execute(first, pool, start)
        } else {
            execute(second, pool, execute(first, pool, start).machine)
        }),
{
    lemma_run_suffix(first, second, pool, start, second.len());
}

/// A program of one instruction does one step.
pub proof fn lemma_run_single(op: OpCode, pool: Seq<i32>, start: Machine)
    ensures
        execute(seq![op], pool, start) == (match step(op, pool, start) {
            Ok(next) => running(next),
            Err(fault) => Outcome { machine: start, fault: Some(fault) },
        }),
{
    let program = seq![op];
    assert(run_steps(program, pool, start, 0) == running(start));
    assert(program[0] == op);
}

/// The `Extend` instructions before an addressed instruction leave in the
/// register all of the index but its lowest byte, and touch nothing else.
pub proof fn lemma_extension_prefix_runs(index: nat, pool: Seq<i32>, start: Machine)
    requires
        index <= u64::MAX,
        start.register == 0,
    ensures
        execute(extension_prefix(index), pool, start) == running(
            Machine { register: (index / 256) as u64, ..start },
        ),
    decreases index,
{
    if index >= 256 {
        let upper = index / 256;
        let last = OpCode::Extend(low_byte(upper));
        lemma_extension_prefix_runs(upper, pool, start);
        let middle = Machine { register: (upper / 256) as u64, ..start };
        assert(extension_prefix(index) =~= extension_prefix(upper) + seq![last]);
        lemma_run_sequence(extension_prefix(upper), seq![last], pool, start);
        lemma_run_single(last, pool, middle);
        crate::bytecode::lemma_fold_low_byte(upper as u64);
    } else {
        assert(run_steps(extension_prefix(index), pool, start, 0) == running(start));
    }
}

/// An addressed instruction, with its extension prefix, finds in the
/// register exactly the index that the compiler gave it.
pub proof fn lemma_addressed_runs(index: nat, op: OpCode, pool: Seq<i32>, start: Machine)
    requires
        index <= u64::MAX,
        start.register == 0,
        op == OpCode::Store(low_byte(index)) || op == OpCode::LoadVar(low_byte(index)) || op
            == OpCode::LoadConst(low_byte(index)),
    ensures
        execute(extension_prefix(index).push(op), pool, start) == execute(
            seq![op],
            pool,
            Machine { register: (index / 256) as u64, ..start },
        ),
        fold_register((index / 256) as u64, low_byte(index)) == index,
{
    lemma_extension_prefix_runs(index, pool, start);
    assert(extension_prefix(index).push(op) =~= extension_prefix(index) + seq![op]);
    lemma_run_sequence(extension_prefix(index), seq![op], pool, start);
    crate::bytecode::lemma_fold_low_byte(index as u64);
}

/// The variable cells of the machine hold, slot by slot, the values that
/// `vars` gives to the declared names.
pub open spec fn cells_hold(names: Names, m: Machine, vars: spec_fn(Seq<char>) -> i32) -> bool {
    &&& names.len() <= m.floor <= m.stack.len()
    &&& forall|name: Seq<char>|
        (#[trigger] slot_of(names, name)) is Some ==> vars(name) == m.stack[slot_of(
            names,
            name,
        )->Some_0 as int]
}

/// The pool holds the given constants from index `base` on.
pub open spec fn pool_holds(pool: Seq<i32>, base: nat, constants: Seq<i32>) -> bool {
    &&& base + constants.len() <= pool.len()
    &&& forall|i: int| 0 <= i < constants.len() ==> pool[base + i] == #[trigger] constants[i]
}

/// The outcome of a run that a division by zero stopped, seen from where
/// the run began: nothing was printed and no variable cell changed.
pub open spec fn stopped_by_zero_divisor(outcome: Outcome, start: Machine) -> bool {
    &&& outcome.fault == Some(RuntimeError::DivisionByZero)
    &&& outcome.machine.output == start.output
    &&& outcome.machine.floor == start.floor
    &&& outcome.machine.stack.len() >= start.floor
    &&& outcome.machine.stack.take(start.floor as int) == start.stack.take(start.floor as int)
}

/// The code of an expression computes the expression. Run from a state
/// whose register is empty, it leaves the value of the expression on top
/// of the operands that were there and changes nothing else; where the
/// expression divides by zero, the run stops with that fault.
pub proof fn lemma_expression_runs(
    e: Tree,
    names: Names,
    pool_base: nat,
    pool: Seq<i32>,
    start: Machine,
    vars: spec_fn(Seq<char>) -> i32,
)
    requires
        is_expression(e),
        emit(e, names, pool_base) is Ok,
        pool.len() <= u64::MAX,
        names.len() <= u64::MAX,
        pool_holds(pool, pool_base, emit(e, names, pool_base)->Ok_0.constants),
        start.register == 0,
        cells_hold(names, start, vars),
    ensures
        match evaluate(e, vars) {
            Some(value) => execute(emit(e, names, pool_base)->Ok_0.instructions, pool, start)
                == running(Machine { stack: start.stack.push(value), ..start }),
            None => stopped_by_zero_divisor(
                execute(emit(e, names, pool_base)->Ok_0.instructions, pool, start),
                start,
            ),
        },
    decreases e,
{
    let code = emit(e, names, pool_base)->Ok_0;
    match e.kind {
        Kind::Literal(value) => {
            let op = OpCode::LoadConst(low_byte(pool_base));
            lemma_addressed_runs(pool_base, op, pool, start);
            lemma_run_single(op, pool, Machine { register: (pool_base / 256) as u64, ..start });
            assert(code.constants[0] == pool[pool_base as int]);
        },
        Kind::Variable(name) => {
            let slot = slot_of(names, name)->Some_0;
            lemma_slot_found(names, name, 0);
            let op = OpCode::LoadVar(low_byte(slot));
            lemma_addressed_runs(slot, op, pool, start);
            lemma_run_single(op, pool, Machine { register: (slot / 256) as u64, ..start });
        },
        Kind::Op(c) => {
            let left = e.children[0];
            let right = e.children[1];
            let op = operator_instruction(c);
            assert(emit_children(e, 0, names, pool_base) == Ok::<Code, CompileFault>(Code::empty()));
            let first = emit_children(e, 1, names, pool_base);
            let both = emit_children(e, 2, names, pool_base);
            assert(both is Ok);
            assert(first is Ok);
            let l = emit(left, names, pool_base)->Ok_0;
            assert(first->Ok_0.constants =~= l.constants);
            let r = emit(right, names, pool_base + l.constants.len())->Ok_0;
            assert(code.constants =~= l.constants + r.constants);
            assert(code.instructions =~= l.instructions + (r.instructions + seq![op]));
            assert(pool_holds(pool, pool_base, l.constants)) by {
                assert forall|i: int| 0 <= i < l.constants.len() implies pool[pool_base + i]
                    == l.constants[i] by {
                    assert(code.constants[i] == l.constants[i]);
                }
            }
            assert(pool_holds(pool, pool_base + l.constants.len(), r.constants)) by {
                assert forall|i: int| 0 <= i < r.constants.len() implies pool[pool_base
                    + l.constants.len() + i] == r.constants[i] by {
                    assert(code.constants[l.constants.len() + i] == r.constants[i]);
                }
            }
            lemma_expression_runs(left, names, pool_base, pool, start, vars);
            lemma_run_sequence(l.instructions, r.instructions + seq![op], pool, start);
            if let Some(a) = evaluate(left, vars) {
                let after_left = Machine { stack: start.stack.push(a), ..start };
                assert(cells_hold(names, after_left, vars)) by {
                    assert forall|name: Seq<char>| (#[trigger] slot_of(names, name)) is Some implies vars(
                        name,
                    ) == after_left.stack[slot_of(names, name)->Some_0 as int] by {
                        lemma_slot_found(names, name, 0);
                    }
                }
                lemma_expression_runs(
                    right,
                    names,
                    pool_base + l.constants.len(),
                    pool,
                    after_left,
                    vars,
                );
                lemma_run_sequence(r.instructions, seq![op], pool, after_left);
                let after_right = execute(r.instructions, pool, after_left);
                assert(after_left.stack.take(start.floor as int) =~= start.stack.take(
                    start.floor as int,
                ));
                if let Some(b) = evaluate(right, vars) {
                    let operands = Machine { stack: after_left.stack.push(b), ..start };
                    lemma_run_single(op, pool, operands);
                    assert(operands.stack.take(operands.stack.len() - 2) =~= start.stack);
                    assert(operands.stack.take(start.floor as int) =~= start.stack.take(
                        start.floor as int,
                    ));
                }
            }
        },
        _ => {},
    }
}

/// The value that each name has in the variable cells; zero for a name
/// without a slot.
pub open spec fn values_of(names: Names, cells: Seq<i32>) -> spec_fn(Seq<char>) -> i32 {
    |name: Seq<char>|
        match slot_of(names, name) {
            Some(slot) => cells[slot as int],
            None => 0i32,
        }
}

/// The state after a value has been stored in the slot of a name.
pub open spec fn assigned(names: Names, name: Seq<char>, value: i32, m: Machine) -> Machine {
    match slot_of(names, name) {
        Some(slot) => Machine { stack: m.stack.update(slot as int, value), ..m },
        None => m,
    }
}

/// What a statement means, on a machine whose stack holds the variable
/// cells alone. A print appends the value of its expression to the output;
/// an assignment, and a declaration with a value, stores it in the slot of
/// the name; a program runs its statements in order. A division by zero
/// stops everything, and leaves the state as the statement in which
/// it happened found it.
pub open spec fn interpret(e: Tree, names: Names, m: Machine) -> Outcome
    decreases e, e.children.len() + 1,
{
    let stopped = Outcome { machine: m, fault: Some(RuntimeError::DivisionByZero) };
    match e.kind {
        Kind::PrintStmt => {
            if e.children.len() == 1 {
                match evaluate(e.children[0], values_of(names, m.stack)) {
                    Some(value) => running(Machine { output: m.output.push(value), ..m }),
                    None => stopped,
                }
            } else {
                running(m)
            }
        },
        Kind::AssignStmt(name) | Kind::VarDeclStmt(name) => {
            if e.children.len() == 1 {
                match evaluate(e.children[0], values_of(names, m.stack)) {
                    Some(value) => running(assigned(names, name, value, m)),
                    None => stopped,
                }
            } else {
                running(m)
            }
        },
        Kind::Program => interpret_children(e, e.children.len() as nat, names, m),
        _ => running(m),
    }
}

/// The meaning of the first `count` statements of a program.
pub open spec fn interpret_children(e: Tree, count: nat, names: Names, m: Machine) -> Outcome
    decreases e, count,
{
    if count == 0 || count > e.children.len() {
        running(m)
    } else {
        let before = interpret_children(e, (count - 1) as nat, names, m);
        if before.fault is Some {
            before
        } else {
            interpret(e.children[count - 1], names, before.machine)
        }
    }
}

/// A run and a meaning agree: the same fault or none, the same output, the
/// same variable cells; and a run that did not fault left nothing else
/// behind.
pub open spec fn agrees(run: Outcome, meaning: Outcome) -> bool {
    &&& run.fault == meaning.fault
    &&& run.machine.output == meaning.machine.output
    &&& run.machine.floor == meaning.machine.floor
    &&& run.machine.stack.len() >= run.machine.floor
    &&& run.machine.stack.take(run.machine.floor as int) == meaning.machine.stack
    &&& run.fault is None ==> run.machine == meaning.machine
}

/// The machine is between two statements of a session with the table
/// `names`: every name has its cell, no operand is pending, and the register
/// is empty.
pub open spec fn between_statements(names: Names, m: Machine) -> bool {
    &&& names.len() <= m.floor
    &&& m.floor == m.stack.len()
    &&& m.register == 0
}

proof fn lemma_cells_hold(names: Names, m: Machine)
    requires
        names.len() <= m.floor <= m.stack.len(),
    ensures
        cells_hold(names, m, values_of(names, m.stack)),
{
}

/// The code of a statement does what the statement means.
pub proof fn lemma_statement_runs(
    e: Tree,
    names: Names,
    pool_base: nat,
    pool: Seq<i32>,
    start: Machine,
)
    requires
        is_statement(e),
        emit(e, names, pool_base) is Ok,
        pool.len() <= u64::MAX,
        names.len() <= u64::MAX,
        pool_holds(pool, pool_base, emit(e, names, pool_base)->Ok_0.constants),
        between_statements(names, start),
    ensures
        agrees(
            execute(emit(e, names, pool_base)->Ok_0.instructions, pool, start),
            interpret(e, names, start),
        ),
        interpret(e, names, start).machine.floor == start.floor,
        interpret(e, names, start).machine.stack.len() == start.stack.len(),
        interpret(e, names, start).machine.register == 0,
    decreases e, e.children.len() + 1,
{
    let code = emit(e, names, pool_base)->Ok_0;
    let vars = values_of(names, start.stack);
    assert(start.stack.take(start.floor as int) =~= start.stack);
    match e.kind {
        Kind::Program => {
            lemma_statements_run(e, e.children.len() as nat, names, pool_base, pool, start);
        },
        Kind::VarDeclStmt(_) if e.children.len() == 0 => {
            assert(run_steps(code.instructions, pool, start, 0) == running(start));
        },
        _ => {
            let value_code = emit(e.children[0], names, pool_base)->Ok_0;
            assert(emit_children(e, 0, names, pool_base) == Ok::<Code, CompileFault>(Code::empty()));
            assert(emit_children(e, 1, names, pool_base) is Ok);
            let operands = emit_children(e, 1, names, pool_base)->Ok_0;
            assert(operands.instructions =~= value_code.instructions);
            assert(operands.constants =~= value_code.constants);
            assert(code.constants =~= value_code.constants);
            lemma_cells_hold(names, start);
            lemma_expression_runs(e.children[0], names, pool_base, pool, start, vars);
            let last = match e.kind {
                Kind::PrintStmt => seq![OpCode::Print],
                Kind::AssignStmt(name) => store_at(slot_of(names, name)->Some_0),
                Kind::VarDeclStmt(name) => store_at(slot_of(names, name)->Some_0),
                _ => Seq::empty(),
            };
            assert(code.instructions =~= value_code.instructions + last);
            lemma_run_sequence(value_code.instructions, last, pool, start);
            if let Some(value) = evaluate(e.children[0], vars) {
                let loaded = Machine { stack: start.stack.push(value), ..start };
                assert(loaded.stack.take(loaded.stack.len() - 1) =~= start.stack);
                match e.kind {
                    Kind::PrintStmt => {
                        lemma_run_single(OpCode::Print, pool, loaded);
                    },
                    Kind::AssignStmt(name) | Kind::VarDeclStmt(name) => {
                        let slot = slot_of(names, name)->Some_0;
                        lemma_slot_found(names, name, 0);
                        let op = OpCode::Store(low_byte(slot));
                        lemma_addressed_runs(slot, op, pool, loaded);
                        lemma_run_single(
                            op,
                            pool,
                            Machine { register: (slot / 256) as u64, ..loaded },
                        );
                        let stored = assigned(names, name, value, start);
                        assert(stored.stack.take(stored.floor as int) =~= stored.stack);
                    },
                    _ => {},
                }
            }
        },
    }
}

/// The code of the first statements of a program does what they mean.
pub proof fn lemma_statements_run(
    e: Tree,
    count: nat,
    names: Names,
    pool_base: nat,
    pool: Seq<i32>,
    start: Machine,
)
    requires
        e.kind is Program,
        is_statement(e),
        count <= e.children.len(),
        emit_children(e, count, names, pool_base) is Ok,
        pool.len() <= u64::MAX,
        names.len() <= u64::MAX,
        pool_holds(pool, pool_base, emit_children(e, count, names, pool_base)->Ok_0.constants),
        between_statements(names, start),
    ensures
        agrees(
            execute(emit_children(e, count, names, pool_base)->Ok_0.instructions, pool, start),
            interpret_children(e, count, names, start),
        ),
        interpret_children(e, count, names, start).machine.floor == start.floor,
        interpret_children(e, count, names, start).machine.stack.len() == start.stack.len(),
        interpret_children(e, count, names, start).machine.register == 0,
    decreases e, count,
{
    let code = emit_children(e, count, names, pool_base)->Ok_0;
    if count == 0 {
        assert(run_steps(code.instructions, pool, start, 0) == running(start));
        assert(start.stack.take(start.floor as int) =~= start.stack);
    } else {
        let earlier = emit_children(e, (count - 1) as nat, names, pool_base)->Ok_0;
        let next_base = pool_base + earlier.constants.len();
        let next = emit(e.children[count - 1], names, next_base)->Ok_0;
        assert(code.constants =~= earlier.constants + next.constants);
        assert(pool_holds(pool, pool_base, earlier.constants)) by {
            assert forall|i: int| 0 <= i < earlier.constants.len() implies pool[pool_base + i]
                == earlier.constants[i] by {
                assert(code.constants[i] == earlier.constants[i]);
            }
        }
        assert(pool_holds(pool, next_base, next.constants)) by {
            assert forall|i: int| 0 <= i < next.constants.len() implies pool[next_base + i]
                == next.constants[i] by {
                assert(code.constants[earlier.constants.len() + i] == next.constants[i]);
            }
        }
        lemma_statements_run(e, (count - 1) as nat, names, pool_base, pool, start);
        lemma_run_sequence(earlier.instructions, next.instructions, pool, start);
        let before = interpret_children(e, (count - 1) as nat, names, start);
        if before.fault is None {
            lemma_statement_runs(e.children[count - 1], names, next_base, pool, before.machine);
        }
    }
}

/// A compiled program does what its statements mean. The session has one
/// cell for each name of its table; the machine adds a zeroed cell for each
/// slot that the program introduces and runs the code. The run prints what
/// the statements print, leaves in the cells what they store, and faults
/// exactly when one of them divides by zero.
pub proof fn theorem_compiled_program_runs(
    program: Tree,
    names: Names,
    cells: Seq<i32>,
    output: Seq<i32>,
)
    requires
        is_statement(program),
        names.len() == cells.len(),
        compile_outcome(program, names) is Ok,
        compile_outcome(program, names)->Ok_0.constants.len() <= u64::MAX,
        compile_outcome(program, names)->Ok_0.names.len() <= u64::MAX,
    ensures
        ({
            let compiled = compile_outcome(program, names)->Ok_0;
            let start = entry_state(cells, compiled.new_slots, output);
            let meaning = interpret(program, compiled.names, start);
            &&& agrees(execute(compiled.program, compiled.constants, start), meaning)
            &&& meaning.machine.floor == compiled.names.len()
            &&& meaning.machine.stack.len() == compiled.names.len()
        }),
{
    let compiled = compile_outcome(program, names)->Ok_0;
    let start = entry_state(cells, compiled.new_slots, output);
    lemma_discover_extends(program, names);
    lemma_statement_runs(program, compiled.names, 0, compiled.constants, start);
}

/// The code of an arithmetic expression does not depend on the table, and
/// discovery finds nothing in it.
pub proof fn lemma_arithmetic_compiles(e: Tree, names: Names, pool_base: nat)
    requires
        is_arithmetic(e),
    ensures
        is_expression(e),
        discover(e, names) == Ok::<Names, CompileFault>(names),
        emit(e, names, pool_base) is Ok,
    decreases e,
{
    match e.kind {
        Kind::Op(_) => {
            lemma_arithmetic_compiles(e.children[0], names, pool_base);
            let left = emit(e.children[0], names, pool_base)->Ok_0;
            lemma_arithmetic_compiles(e.children[1], names, pool_base + left.constants.len());
            assert(discover_children(e, 0, names) == Ok::<Names, CompileFault>(names));
            assert(discover_children(e, 1, names) == Ok::<Names, CompileFault>(names));
            assert(discover_children(e, 2, names) == Ok::<Names, CompileFault>(names));
            assert(emit_children(e, 0, names, pool_base) == Ok::<Code, CompileFault>(Code::empty()));
            assert(emit_children(e, 1, names, pool_base) is Ok);
            assert(emit_children(e, 1, names, pool_base)->Ok_0.constants =~= left.constants);
            assert(emit_children(e, 2, names, pool_base) is Ok);
        },
        _ => {
            assert(discover_children(e, 0, names) == Ok::<Names, CompileFault>(names));
        },
    }
}

/// The value of an arithmetic expression does not depend on any variable.
pub proof fn lemma_arithmetic_ignores_variables(
    e: Tree,
    one: spec_fn(Seq<char>) -> i32,
    other: spec_fn(Seq<char>) -> i32,
)
    requires
        is_arithmetic(e),
    ensures
        evaluate(e, one) == evaluate(e, other),
    decreases e,
{
    if e.kind is Op {
        lemma_arithmetic_ignores_variables(e.children[0], one, other);
        lemma_arithmetic_ignores_variables(e.children[1], one, other);
    }
}

/// Printing an arithmetic expression. A program that is the one statement
/// `print e`, with `e` free of variables, always compiles; run on a fresh
/// machine it prints the value of `e` and nothing else, left operand first,
/// with truncating division; where `e` divides by zero the run
/// stops with that fault and prints nothing.
pub proof fn theorem_arithmetic_is_printed(program: Tree, vars: spec_fn(Seq<char>) -> i32)
    requires
        program.kind is Program,
        program.children.len() == 1,
        program.children[0].kind is PrintStmt,
        program.children[0].children.len() == 1,
        is_arithmetic(program.children[0].children[0]),
    ensures
        compile_outcome(program, Seq::empty()) is Ok,
        compile_outcome(program, Seq::empty())->Ok_0.new_slots == 0,
        compile_outcome(program, Seq::empty())->Ok_0.constants.len() <= u64::MAX ==> ({
            let compiled = compile_outcome(program, Seq::empty())->Ok_0;
            let fresh = entry_state(Seq::empty(), 0, Seq::empty());
            let outcome = execute(compiled.program, compiled.constants, fresh);
            match evaluate(program.children[0].children[0], vars) {
                Some(value) => outcome.fault is None && outcome.machine.output == seq![value],
                None => outcome.fault == Some(RuntimeError::DivisionByZero)
                    && outcome.machine.output == Seq::<i32>::empty(),
            }
        }),
{
    let names = Seq::<Seq<char>>::empty();
    let statement = program.children[0];
    let e = statement.children[0];
    lemma_arithmetic_compiles(e, names, 0);
    assert(discover_children(statement, 0, names) == Ok::<Names, CompileFault>(names));
    assert(discover_children(statement, 1, names) == Ok::<Names, CompileFault>(names));
    assert(discover(statement, names) == Ok::<Names, CompileFault>(names));
    assert(discover_children(program, 0, names) == Ok::<Names, CompileFault>(names));
    assert(discover_children(program, 1, names) == Ok::<Names, CompileFault>(names));
    assert(emit_children(statement, 0, names, 0) == Ok::<Code, CompileFault>(Code::empty()));
    assert(emit_children(statement, 1, names, 0) is Ok);
    assert(emit(statement, names, 0) is Ok);
    assert(emit_children(program, 0, names, 0) == Ok::<Code, CompileFault>(Code::empty()));
    assert(emit_children(program, 1, names, 0) is Ok);
    assert(is_statement(statement));
    assert(is_statement(program));
    let compiled = compile_outcome(program, names)->Ok_0;
    if compiled.constants.len() <= u64::MAX {
        let fresh = entry_state(Seq::empty(), 0, Seq::empty());
        theorem_compiled_program_runs(program, names, Seq::empty(), Seq::empty());
        lemma_arithmetic_ignores_variables(e, vars, values_of(names, fresh.stack));
        assert(interpret_children(program, 0, names, fresh) == running(fresh));
        assert(interpret(program, names, fresh) == interpret(statement, names, fresh));
    }
}

} // verus!
