//! The stack machine: what one instruction does to its state, what a whole
//! program does, and the interpreter that is proved to do exactly that.

use vstd::prelude::*;
use crate::ast::truncated_quotient;
use crate::bytecode::{fold_register, Chunk, OpCode};

verus! {

/// Why a run stopped early.
#[derive(Clone, Copy, Debug, PartialEq, Eq, Structural)]
pub enum RuntimeError {
    /// An instruction needed an operand and the operand region was empty.
    StackUnderflow,
    /// The divisor of a `Div` was zero.
    DivisionByZero,
    /// A slot or constant index lay outside its region.
    IndexOutOfRange,
}

/// The state of the machine between two instructions.
pub ghost struct Machine {
    /// Variable cells, then the operands under evaluation.
    pub stack: Seq<i32>,
    /// Number of variable cells at the bottom of `stack`.
    pub floor: nat,
    /// The index register.
    pub register: u64,
    /// The values printed so far, oldest first.
    pub output: Seq<i32>,
}

/// A machine state together with the fault that stopped the run, if any.
pub ghost struct Outcome {
    pub machine: Machine,
    pub fault: Option<RuntimeError>,
}

/// What an arithmetic instruction computes from the operand below the top
/// (`a`) and the top (`b`).
pub open spec fn arithmetic_result(op: OpCode, a: i32, b: i32) -> Result<i32, RuntimeError> {
    match op {
        OpCode::Add => Ok(a.wrapping_add(b)),
        OpCode::Sub => Ok(a.wrapping_sub(b)),
        OpCode::Mult => Ok(a.wrapping_mul(b)),
        _ => if b == 0 {
            Err(RuntimeError::DivisionByZero)
        } else {
            Ok(truncated_quotient(a, b))
        },
    }
}

/// The effect of one instruction: the next state, or the fault it raises.
///
/// An arithmetic instruction replaces the two top operands by its result;
/// `Print` moves the top operand to the output. `Extend` folds its byte into
/// the register. `Store`, `LoadVar` and `LoadConst` fold their byte into
/// the register, take the result for their index and empty the register:
/// `Store` moves the top operand into the variable cell of that index,
/// `LoadVar` copies that cell to the top, `LoadConst` copies the constant of
/// that index to the top. An instruction that needs an operand underflows
/// when only variable cells are left; an index outside the variable cells,
/// or outside the pool, is out of range.
pub open spec fn step(op: OpCode, pool: Seq<i32>, m: Machine) -> Result<Machine, RuntimeError> {
    let height = m.stack.len();
    match op {
        OpCode::Add | OpCode::Sub | OpCode::Mult | OpCode::Div => {
            if height < m.floor + 2 {
                Err(RuntimeError::StackUnderflow)
            } else {
                match arithmetic_result(op, m.stack[height - 2], m.stack[height - 1]) {
                    Ok(v) => Ok(Machine { stack: m.stack.take(height - 2).push(v), ..m }),
                    Err(fault) => Err(fault),
                }
            }
        },
        OpCode::Store(byte) => {
            let index = fold_register(m.register, byte);
            if height < m.floor + 1 {
                Err(RuntimeError::StackUnderflow)
            } else if index >= m.floor {
                Err(RuntimeError::IndexOutOfRange)
            } else {
                Ok(
                    Machine {
                        stack: m.stack.take(height - 1).update(index as int, m.stack[height - 1]),
                        register: 0,
                        ..m
                    },
                )
            }
        },
        OpCode::LoadVar(byte) => {
            let index = fold_register(m.register, byte);
            if index >= m.floor || index >= height {
                Err(RuntimeError::IndexOutOfRange)
            } else {
                Ok(Machine { stack: m.stack.push(m.stack[index as int]), register: 0, ..m })
            }
        },
        OpCode::LoadConst(byte) => {
            let index = fold_register(m.register, byte);
            if index >= pool.len() {
                Err(RuntimeError::IndexOutOfRange)
            } else {
                Ok(Machine { stack: m.stack.push(pool[index as int]), register: 0, ..m })
            }
        },
        OpCode::Extend(byte) => Ok(Machine { register: fold_register(m.register, byte), ..m }),
        OpCode::Print => {
            if height < m.floor + 1 {
                Err(RuntimeError::StackUnderflow)
            } else {
                Ok(
                    Machine {
                        stack: m.stack.take(height - 1),
                        output: m.output.push(m.stack[height - 1]),
                        ..m
                    },
                )
            }
        },
    }
}

/// The outcome of the first `count` instructions of `program`, run in order
/// from state `start`. After a fault no further instruction runs, and the
/// outcome keeps the state in which the faulting instruction was met.
pub open spec fn run_steps(program: Seq<OpCode>, pool: Seq<i32>, start: Machine, count: nat) -> Outcome
    decreases count,
{
    if count == 0 || count > program.len() {
        Outcome { machine: start, fault: None }
    } else {
        let before = run_steps(program, pool, start, (count - 1) as nat);
        if before.fault is Some {
            before
        } else {
            match step(program[count - 1], pool, before.machine) {
                Ok(next) => Outcome { machine: next, fault: None },
                Err(fault) => Outcome { machine: before.machine, fault: Some(fault) },
            }
        }
    }
}

/// The outcome of a whole program.
pub open spec fn execute(program: Seq<OpCode>, pool: Seq<i32>, start: Machine) -> Outcome {
    run_steps(program, pool, start, program.len())
}

/// Once a fault has stopped a run, no later instruction changes the outcome.
pub proof fn lemma_fault_is_final(
    program: Seq<OpCode>,
    pool: Seq<i32>,
    start: Machine,
    at: nat,
    later: nat,
)
    requires
        at <= later <= program.len(),
        run_steps(program, pool, start, at).fault is Some,
    ensures
        run_steps(program, pool, start, later) == run_steps(program, pool, start, at),
    decreases later,
{
    if at < later {
        lemma_fault_is_final(program, pool, start, at, (later - 1) as nat);
    }
}

/// The machine as a run finds it: the old variable cells, one zeroed cell for
/// each slot that the unit introduces, an empty operand region and an empty
/// index register.
pub open spec fn entry_state(cells: Seq<i32>, new_slots: nat, output: Seq<i32>) -> Machine {
    Machine {
        stack: cells + Seq::new(new_slots, |i: int| 0i32),
        floor: cells.len() + new_slots,
        register: 0,
        output,
    }
}

/// A quotient of non-negative numbers is at most the dividend, and at most
/// half of it when the divisor is two or more.
proof fn lemma_quotient_bounds(x: int, y: int)
    requires
        x >= 0,
        y > 0,
    ensures
        0 <= x / y <= x,
        y >= 2 ==> 2 * (x / y) <= x,
        y == 1 ==> x / y == x,
{
    let q = x / y;
    assert(q * y <= x && x < q * y + y && q >= 0) by (nonlinear_arith)
        requires
            x >= 0,
            y > 0,
            q == x / y,
    ;
    assert(q <= x && (y >= 2 ==> 2 * q <= x)) by (nonlinear_arith)
        requires
            q * y <= x,
            q >= 0,
            y > 0,
    ;
}

/// Divides rounding toward zero; the one quotient that does not fit wraps.
fn wrapping_quotient(a: i32, b: i32) -> (q: i32)
    requires
        b != 0,
    ensures
        q == truncated_quotient(a, b),
{
    let wide_a: i64 = if b < 0 { 0 - (a as i64) } else { a as i64 };
    let wide_b: i64 = if b < 0 { 0 - (b as i64) } else { b as i64 };
    proof {
        let x: int = if a < 0 { -(a as int) } else { a as int };
        let y: int = if b < 0 { -(b as int) } else { b as int };
        lemma_quotient_bounds(x, y);
    }
    let wide: i64 = wide_a / wide_b;
    if wide > 0x7fff_ffff {
        i32::MIN
    } else {
        wide as i32
    }
}

/// The persistent state of the machine: one stack, whose first
/// `initial_stack_size` cells hold the variables.
#[derive(Debug)]
pub struct VM {
    pub stack: Vec<i32>,
    pub initial_stack_size: usize,
}

impl VM {
    /// Between runs the operand region is empty: the stack holds the
    /// variable cells and nothing else.
    pub open spec fn at_rest(&self) -> bool {
        self.stack.len() == self.initial_stack_size
    }

    /// The machine state that this value stands for, given the register and
    /// the output so far.
    pub open spec fn machine(&self, register: u64, output: Seq<i32>) -> Machine {
        Machine {
            stack: self.stack@,
            floor: self.initial_stack_size as nat,
            register,
            output,
        }
    }

    /// A machine without variables.
    pub fn new() -> (vm: VM)
        ensures
            vm.stack@ == Seq::<i32>::empty(),
            vm.initial_stack_size == 0,
            vm.at_rest(),
    {
        VM { stack: Vec::new(), initial_stack_size: 0 }
    }

    /// Tests whether the operand region is empty.
    pub fn is_at_rest(&self) -> (ok: bool)
        ensures
            ok == self.at_rest(),
    {
        self.stack.len() == self.initial_stack_size
    }

    /// Removes and returns the top operand; refuses, with `None` and no
    /// change, when only variable cells are left.
    fn checked_stack_pop(&mut self) -> (top: Option<i32>)
        requires
            old(self).stack.len() >= old(self).initial_stack_size,
        ensures
            final(self).initial_stack_size == old(self).initial_stack_size,
            old(self).stack.len() == old(self).initial_stack_size ==> top is None && final(self).stack@ == old(self).stack@,
            old(self).stack.len() > old(self).initial_stack_size ==> top == Some(
                old(self).stack@.last(),
            ) && final(self).stack@ == old(self).stack@.drop_last(),
    {
        if self.stack.len() == self.initial_stack_size {
            return None;
        }
        self.stack.pop()
    }

    /// Empties the operand region.
    fn reset_variable_stack(&mut self)
        requires
            old(self).stack.len() >= old(self).initial_stack_size,
        ensures
            final(self).initial_stack_size == old(self).initial_stack_size,
            final(self).stack@ == old(self).stack@.take(old(self).initial_stack_size as int),
            final(self).at_rest(),
    {
        self.stack.truncate(self.initial_stack_size);
    }

    /// Appends `count` zeroed variable cells.
    fn grow_variables(&mut self, count: usize)
        requires
            old(self).at_rest(),
            old(self).initial_stack_size + count <= usize::MAX,
        ensures
            final(self).machine(0, Seq::empty()) == entry_state(
                old(self).stack@,
                count as nat,
                Seq::empty(),
            ),
            final(self).at_rest(),
    {
        let mut added: usize = 0;
        while added < count
            invariant
                added <= count,
                old(self).initial_stack_size + count <= usize::MAX,
                self.initial_stack_size == old(self).initial_stack_size + added,
                self.stack@ =~= old(self).stack@ + Seq::new(added as nat, |i: int| 0i32),
                old(self).at_rest(),
            decreases count - added,
        {
            self.stack.push(0);
            self.initial_stack_size = self.initial_stack_size + 1;
            added = added + 1;
        }
    }

    /// Performs one arithmetic instruction.
    fn arithmetic(&mut self, op: OpCode) -> (status: Result<(), RuntimeError>)
        requires
            old(self).stack.len() >= old(self).initial_stack_size,
            op is Add || op is Sub || op is Mult || op is Div,
        ensures
            final(self).initial_stack_size == old(self).initial_stack_size,
            final(self).stack.len() >= final(self).initial_stack_size,
            final(self).stack@.take(final(self).initial_stack_size as int) == old(self).stack@.take(old(self).initial_stack_size as int),
            forall|register: u64, output: Seq<i32>, pool: Seq<i32>|
                match #[trigger] step(op, pool, old(self).machine(register, output)) {
                    Ok(next) => status is Ok && final(self).machine(register, output) == next,
                    Err(fault) => status == Err::<(), RuntimeError>(fault),
                },
    {
        let ghost before = self.stack@;
        let b = self.checked_stack_pop();
        let a = self.checked_stack_pop();
        match (a, b) {
            (Some(a), Some(b)) => {
                let value = match op {
                    OpCode::Add => a.wrapping_add(b),
                    OpCode::Sub => a.wrapping_sub(b),
                    OpCode::Mult => a.wrapping_mul(b),
                    _ => {
                        if b == 0 {
                            assert(self.stack@.take(self.initial_stack_size as int) =~= before.take(
                                self.initial_stack_size as int,
                            ));
                            return Err(RuntimeError::DivisionByZero);
                        }
                        wrapping_quotient(a, b)
                    },
                };
                assert(Ok::<i32, RuntimeError>(value) == arithmetic_result(op, a, b));
                assert(a == before[before.len() - 2] && b == before[before.len() - 1]);
                self.stack.push(value);
                assert(self.stack@ =~= before.take(before.len() - 2).push(value));
                assert(self.stack@.take(self.initial_stack_size as int) =~= before.take(
                    self.initial_stack_size as int,
                ));
                Ok(())
            },
            _ => {
                assert(self.stack@.take(self.initial_stack_size as int) =~= before.take(
                    self.initial_stack_size as int,
                ));
                Err(RuntimeError::StackUnderflow)
            },
        }
    }

    /// Runs a compiled unit. The variable region first grows by one zeroed
    /// cell for each slot that the unit introduces; the instructions then run
    /// in order until the last one is done or one of them faults. Each printed
    /// value is appended to `output`. Whatever the outcome, the operand region
    /// is empty again on return, and the variable cells hold what the
    /// instructions before the fault, if any, stored in them.
    pub fn run(&mut self, code_chunk: &Chunk, output: &mut Vec<i32>) -> (status: Result<
        (),
        RuntimeError,
    >)
        requires
            old(self).at_rest(),
            old(self).initial_stack_size + code_chunk.variable_size <= usize::MAX,
        ensures
            final(self).at_rest(),
            ({
                let outcome = execute(
                    code_chunk.program@,
                    code_chunk.constant_pool@,
                    entry_state(old(self).stack@, code_chunk.variable_size as nat, old(output)@),
                );
                &&& final(self).initial_stack_size == outcome.machine.floor
                &&& final(self).stack@ == outcome.machine.stack.take(outcome.machine.floor as int)
                &&& final(output)@ == outcome.machine.output
                &&& status == match outcome.fault {
                    None => Ok::<(), RuntimeError>(()),
                    Some(fault) => Err::<(), RuntimeError>(fault),
                }
            }),
    {
        let ghost program = code_chunk.program@;
        let ghost pool = code_chunk.constant_pool@;
        let ghost start = entry_state(
            old(self).stack@,
            code_chunk.variable_size as nat,
            old(output)@,
        );
        self.grow_variables(code_chunk.variable_size);
        let mut ip: usize = 0;
        let mut idx_register: u64 = 0;
        let mut status: Result<(), RuntimeError> = Ok(());
        while ip < code_chunk.program.len() && status.is_ok()
            invariant
                program == code_chunk.program@,
                pool == code_chunk.constant_pool@,
                ip <= program.len(),
                self.initial_stack_size == start.floor,
                self.stack.len() >= self.initial_stack_size,
                status is Ok ==> run_steps(program, pool, start, ip as nat) == (Outcome {
                    machine: self.machine(idx_register, output@),
                    fault: None,
                }),
                status is Err ==> {
                    let outcome = run_steps(program, pool, start, ip as nat);
                    &&& outcome.fault == Some(status->Err_0)
                    &&& outcome.machine.floor == start.floor
                    &&& outcome.machine.output == output@
                    &&& outcome.machine.stack.take(start.floor as int) == self.stack@.take(
                        start.floor as int,
                    )
                },
            decreases program.len() - ip, if status is Ok { 1int } else { 0int },
        {
            let op = code_chunk.program[ip];
            let ghost before = self.machine(idx_register, output@);
            let ghost next = step(op, pool, before);
            match op {
                OpCode::Add | OpCode::Sub | OpCode::Mult | OpCode::Div => {
                    status = self.arithmetic(op);
                },
                OpCode::Store(i) => {
                    if let Some(value) = self.checked_stack_pop() {
                        idx_register = (idx_register << 8) | (i as u64);
                        if idx_register >= self.initial_stack_size as u64 {
                            status = Err(RuntimeError::IndexOutOfRange);
                        } else {
                            self.stack.set(idx_register as usize, value);
                            idx_register = 0;
                        }
                    } else {
                        status = Err(RuntimeError::StackUnderflow);
                    }
                },
                OpCode::LoadVar(i) => {
                    idx_register = (idx_register << 8) | (i as u64);
                    if idx_register >= self.initial_stack_size as u64 {
                        status = Err(RuntimeError::IndexOutOfRange);
                    } else {
                        let value = self.stack[idx_register as usize];
                        self.stack.push(value);
                        idx_register = 0;
                    }
                },
                OpCode::LoadConst(i) => {
                    idx_register = (idx_register << 8) | (i as u64);
                    if idx_register >= code_chunk.constant_pool.len() as u64 {
                        status = Err(RuntimeError::IndexOutOfRange);
                    } else {
                        self.stack.push(code_chunk.constant_pool[idx_register as usize]);
                        idx_register = 0;
                    }
                },
                OpCode::Print => {
                    if let Some(value) = self.checked_stack_pop() {
                        output.push(value);
                    } else {
                        status = Err(RuntimeError::StackUnderflow);
                    }
                },
                OpCode::Extend(i) => {
                    idx_register = (idx_register << 8) | (i as u64);
                },
            }
            proof {
                assert(self.stack@.take(start.floor as int) =~= before.stack.take(
                    start.floor as int,
                ) || status is Ok);
                if status is Ok {
                    assert(next is Ok);
                    assert(self.machine(idx_register, output@).stack =~= next->Ok_0.stack);
                    assert(self.machine(idx_register, output@) == next->Ok_0);
                } else {
                    assert(next == Err::<Machine, RuntimeError>(status->Err_0));
                }
            }
            ip = ip + 1;
        }
        proof {
            if status is Err {
                lemma_fault_is_final(program, pool, start, ip as nat, program.len());
            }
        }
        self.reset_variable_stack();
        proof {
            let outcome = execute(program, pool, start);
            assert(self.stack@ == outcome.machine.stack.take(outcome.machine.floor as int));
        }
        match status {
            Ok(_) => Ok(()),
            Err(fault) => Err(fault),
        }
    }
}

} // verus!
