//! The two-pass compiler: discovery resolves declarations into slots and
//! rejects bad programs; code generation then emits instructions and
//! constants. A `Compiler` value carries the symbol table of a session from
//! one compilation to the next.

use vstd::prelude::*;
use crate::ast::{lemma_tree_of_child, well_formed, Expr, ExprType, Kind, Tree};
use crate::bytecode::{extension_prefix, load_const_at, load_var_at, store_at, Chunk, OpCode};

verus! {

/// Why a program was rejected. Each reason carries the name at fault.
#[derive(Debug, PartialEq, Eq)]
pub enum CompileError {
    /// A declaration of a name that the table already holds.
    Redeclared(String),
    /// An assignment to a name that was never declared.
    Undeclared(String),
    /// A read of a name that the table does not hold.
    Unknown(String),
}

/// A rejection reason over the characters of the name.
pub ghost enum CompileFault {
    Redeclared(Seq<char>),
    Undeclared(Seq<char>),
    Unknown(Seq<char>),
}

impl View for CompileError {
    type V = CompileFault;

    open spec fn view(&self) -> CompileFault {
        match *self {
            CompileError::Redeclared(name) => CompileFault::Redeclared(name@),
            CompileError::Undeclared(name) => CompileFault::Undeclared(name@),
            CompileError::Unknown(name) => CompileFault::Unknown(name@),
        }
    }
}

/// A symbol table: the declared names, each at the index of its slot.
pub type Names = Seq<Seq<char>>;

/// The names that a vector of strings holds, in order.
pub open spec fn names_of(table: Seq<String>) -> Names {
    table.map_values(|s: String| s@)
}

/// The first index at or after `from` at which `names` holds `name`.
pub open spec fn slot_from(names: Names, name: Seq<char>, from: nat) -> Option<nat>
    decreases names.len() - from,
{
    if from >= names.len() {
        None
    } else if names[from as int] == name {
        Some(from)
    } else {
        slot_from(names, name, from + 1)
    }
}

/// The slot of a name: the first index at which the table holds it.
pub open spec fn slot_of(names: Names, name: Seq<char>) -> Option<nat> {
    slot_from(names, name, 0)
}

/// Whether `longer` begins with all of `shorter`: every slot of `shorter`
/// is a slot of `longer`, with the same name.
pub open spec fn extends(longer: Names, shorter: Names) -> bool {
    &&& shorter.len() <= longer.len()
    &&& forall|i: int| 0 <= i < shorter.len() ==> longer[i] == shorter[i]
}

/// No name stands in two slots.
pub open spec fn distinct(names: Names) -> bool {
    forall|i: int, j: int|
        0 <= i < names.len() && 0 <= j < names.len() && names[i] == names[j] ==> i == j
}

/// What discovery makes of the table: each declaration met, in depth-first
/// order, takes the next unused slot; a declaration of a name already in the
/// table and an assignment to a name not in it are rejected, and the first
/// rejection ends the pass.
pub open spec fn discover(e: Tree, names: Names) -> Result<Names, CompileFault>
    decreases e, e.children.len() + 1,
{
    match e.kind {
        Kind::AssignStmt(name) => {
            if slot_of(names, name) is Some {
                Ok(names)
            } else {
                Err(CompileFault::Undeclared(name))
            }
        },
        Kind::VarDeclStmt(name) => {
            match discover_children(e, e.children.len() as nat, names) {
                Ok(found) => {
                    if slot_of(found, name) is Some {
                        Err(CompileFault::Redeclared(name))
                    } else {
                        Ok(found.push(name))
                    }
                },
                Err(fault) => Err(fault),
            }
        },
        _ => discover_children(e, e.children.len() as nat, names),
    }
}

/// Discovery over the first `count` children of a node, left to right.
pub open spec fn discover_children(e: Tree, count: nat, names: Names) -> Result<
    Names,
    CompileFault,
>
    decreases e, count,
{
    if count == 0 || count > e.children.len() {
        Ok(names)
    } else {
        match discover_children(e, (count - 1) as nat, names) {
            Ok(found) => discover(e.children[count - 1], found),
            Err(fault) => Err(fault),
        }
    }
}

/// The instructions and constants that a tree compiles to.
pub ghost struct Code {
    pub instructions: Seq<OpCode>,
    pub constants: Seq<i32>,
}

impl Code {
    /// No instruction and no constant.
    pub open spec fn empty() -> Code {
        Code { instructions: Seq::empty(), constants: Seq::empty() }
    }

    /// This code followed by `next`.
    pub open spec fn then_code(self, next: Code) -> Code {
        Code {
            instructions: self.instructions + next.instructions,
            constants: self.constants + next.constants,
        }
    }

    /// This code followed by instructions that bring no constant.
    pub open spec fn then_instructions(self, next: Seq<OpCode>) -> Code {
        Code { instructions: self.instructions + next, constants: self.constants }
    }
}

/// The instruction of an operator character.
pub open spec fn operator_instruction(c: char) -> OpCode {
    if c == '+' {
        OpCode::Add
    } else if c == '-' {
        OpCode::Sub
    } else if c == '*' {
        OpCode::Mult
    } else {
        OpCode::Div
    }
}

/// The code of a tree, given the final symbol table and the number of
/// constants that the pool holds before the tree's own. Children come first,
/// left to right, then the node's own instruction: an operator after its two
/// operands, a store after the value it stores, a print after the value it
/// prints. A literal adds its value to the pool and loads it from there. A
/// declaration without a value emits nothing. A name that the table does not
/// hold is rejected.
pub open spec fn emit(e: Tree, names: Names, pool_base: nat) -> Result<Code, CompileFault>
    decreases e, e.children.len() + 1,
{
    let operands = emit_children(e, e.children.len() as nat, names, pool_base);
    match e.kind {
        Kind::Op(c) => match operands {
            Ok(code) => Ok(code.then_instructions(seq![operator_instruction(c)])),
            Err(fault) => Err(fault),
        },
        Kind::Literal(value) => Ok(
            Code { instructions: load_const_at(pool_base), constants: seq![value] },
        ),
        Kind::Variable(name) => match slot_of(names, name) {
            Some(slot) => Ok(Code { instructions: load_var_at(slot), constants: Seq::empty() }),
            None => Err(CompileFault::Unknown(name)),
        },
        Kind::AssignStmt(name) => match slot_of(names, name) {
            Some(slot) => match operands {
                Ok(code) => Ok(code.then_instructions(store_at(slot))),
                Err(fault) => Err(fault),
            },
            None => Err(CompileFault::Unknown(name)),
        },
        Kind::PrintStmt => match operands {
            Ok(code) => Ok(code.then_instructions(seq![OpCode::Print])),
            Err(fault) => Err(fault),
        },
        Kind::Program => operands,
        Kind::VarDeclStmt(name) => if e.children.len() == 0 {
            Ok(Code::empty())
        } else {
            match operands {
                Ok(code) => match slot_of(names, name) {
                    Some(slot) => Ok(code.then_instructions(store_at(slot))),
                    None => Err(CompileFault::Unknown(name)),
                },
                Err(fault) => Err(fault),
            }
        },
    }
}

/// The code of the first `count` children of a node, one after the other.
pub open spec fn emit_children(e: Tree, count: nat, names: Names, pool_base: nat) -> Result<
    Code,
    CompileFault,
>
    decreases e, count,
{
    if count == 0 || count > e.children.len() {
        Ok(Code::empty())
    } else {
        match emit_children(e, (count - 1) as nat, names, pool_base) {
            Ok(code) => match emit(
                e.children[count - 1],
                names,
                pool_base + code.constants.len(),
            ) {
                Ok(next) => Ok(code.then_code(next)),
                Err(fault) => Err(fault),
            },
            Err(fault) => Err(fault),
        }
    }
}

/// What a successful compilation yields: the symbol table after it and the
/// contents of the compiled unit.
pub ghost struct Compiled {
    pub names: Names,
    pub program: Seq<OpCode>,
    pub constants: Seq<i32>,
    pub new_slots: nat,
}

/// Compilation of a tree against a symbol table: discovery over the whole
/// tree, then code generation against the table that discovery returns. The
/// number of new slots is the number of names that discovery added.
pub open spec fn compile_outcome(e: Tree, names: Names) -> Result<Compiled, CompileFault> {
    match discover(e, names) {
        Ok(found) => match emit(e, found, 0) {
            Ok(code) => Ok(
                Compiled {
                    names: found,
                    program: code.instructions,
                    constants: code.constants,
                    new_slots: (found.len() - names.len()) as nat,
                },
            ),
            Err(fault) => Err(fault),
        },
        Err(fault) => Err(fault),
    }
}

/// Whether a compiled unit holds exactly what a compilation yields.
pub open spec fn chunk_holds(chunk: Chunk, compiled: Compiled) -> bool {
    &&& chunk.program@ == compiled.program
    &&& chunk.constant_pool@ == compiled.constants
    &&& chunk.variable_size == compiled.new_slots
}

/// The first slot at which the table holds the name, if any.
fn find_slot(names: &Vec<String>, name: &String) -> (slot: Option<usize>)
    ensures
        match slot_of(names_of(names@), name@) {
            Some(index) => slot == Some(index as usize) && index < names.len(),
            None => slot is None,
        },
{
    let ghost table = names_of(names@);
    let mut i: usize = 0;
    while i < names.len()
        invariant
            i <= names.len(),
            table == names_of(names@),
            slot_of(table, name@) == slot_from(table, name@, i as nat),
        decreases names.len() - i,
    {
        if names[i] == *name {
            return Some(i);
        }
        i = i + 1;
    }
    None
}

/// The symbol table of a session: the declared names in slot order.
pub struct Compiler {
    name_map: Vec<String>,
}

impl View for Compiler {
    type V = Names;

    closed spec fn view(&self) -> Names {
        names_of(self.name_map@)
    }
}

impl Compiler {
    /// A compiler with an empty symbol table.
    pub fn new() -> (compiler: Compiler)
        ensures
            compiler@ == Seq::<Seq<char>>::empty(),
            distinct(compiler@),
    {
        let compiler = Compiler { name_map: Vec::new() };
        assert(compiler@ =~= Seq::<Seq<char>>::empty());
        compiler
    }

    /// The slot of a declared name.
    pub fn slot(&self, name: &String) -> (slot: Option<usize>)
        ensures
            match slot_of(self@, name@) {
                Some(index) => slot == Some(index as usize),
                None => slot is None,
            },
    {
        find_slot(&self.name_map, name)
    }

    /// The number of slots that the session has given out.
    pub fn slot_count(&self) -> (count: usize)
        ensures
            count == self@.len(),
    {
        self.name_map.len()
    }

    /// The discovery pass over one tree. On success the table holds what
    /// `discover` says. However the pass ends, the names that the table held
    /// before stay where they were.
    fn find_variables(ast: &Expr, names: &mut Vec<String>) -> (status: Result<(), CompileError>)
        requires
            well_formed(ast@),
        ensures
            old(names)@.len() <= final(names)@.len(),
            final(names)@.take(old(names)@.len() as int) == old(names)@,
            match discover(ast@, names_of(old(names)@)) {
                Ok(found) => status is Ok && names_of(final(names)@) == found,
                Err(fault) => status is Err && status->Err_0@ == fault,
            },
        decreases *ast,
    {
        let ghost before = names@;
        assert(names@.take(before.len() as int) =~= before);
        if let ExprType::AssignStmt(name) = &ast.expr_type {
            return match find_slot(names, name) {
                Some(_) => Ok(()),
                None => Err(CompileError::Undeclared(name.clone())),
            };
        }
        let mut i: usize = 0;
        while i < ast.children.len()
            invariant
                i <= ast.children.len(),
                well_formed(ast@),
                !(ast.expr_type is AssignStmt),
                before == old(names)@,
                before.len() <= names@.len(),
                names@.take(before.len() as int) == before,
                discover_children(ast@, i as nat, names_of(before)) == Ok::<Names, CompileFault>(
                    names_of(names@),
                ),
            decreases ast.children.len() - i,
        {
            let ghost so_far = names@;
            proof {
                lemma_tree_of_child(*ast, i as int);
            }
            let status = Compiler::find_variables(&ast.children[i], names);
            assert(names@.take(before.len() as int) =~= so_far.take(before.len() as int));
            if let Err(error) = status {
                proof {
                    lemma_discover_children_fault(
                        ast@,
                        (i + 1) as nat,
                        ast.children.len() as nat,
                        names_of(before),
                    );
                }
                return Err(error);
            }
            i = i + 1;
        }
        if let ExprType::VarDeclStmt(name) = &ast.expr_type {
            if find_slot(names, name).is_some() {
                return Err(CompileError::Redeclared(name.clone()));
            }
            let ghost so_far = names@;
            let owned = name.clone();
            names.push(owned);
            assert(names_of(names@) =~= names_of(so_far).push(name@));
            assert(names@.take(before.len() as int) =~= so_far.take(before.len() as int));
        }
        Ok(())
    }

    /// Appends the `Extend` instructions that an instruction addressing
    /// `addr` needs before it: none below 256, else one for each byte of
    /// `addr` above the lowest, most significant first.
    pub fn push_extensions(code_chunk: &mut Chunk, addr: usize)
        ensures
            final(code_chunk).program@ == old(code_chunk).program@ + extension_prefix(addr as nat),
            final(code_chunk).constant_pool == old(code_chunk).constant_pool,
            final(code_chunk).variable_size == old(code_chunk).variable_size,
        decreases addr,
    {
        if addr <= 0xff {
            assert(code_chunk.program@ =~= old(code_chunk).program@ + extension_prefix(
                addr as nat,
            ));
            return ;
        }
        let upper: usize = addr / 256;
        Compiler::push_extensions(code_chunk, upper);
        code_chunk.program.push(OpCode::Extend((upper % 256) as u8));
        assert(code_chunk.program@ =~= old(code_chunk).program@ + extension_prefix(addr as nat));
    }

    /// The code-generation pass over one tree: appends to `code_chunk` the
    /// instructions and constants that `emit` gives for the tree, or rejects
    /// it for a name that the table does not hold.
    fn compile_ast(&self, code_chunk: &mut Chunk, ast: &Expr) -> (status: Result<
        (),
        CompileError,
    >)
        requires
            well_formed(ast@),
        ensures
            final(code_chunk).variable_size == old(code_chunk).variable_size,
            match emit(ast@, self@, old(code_chunk).constant_pool@.len()) {
                Ok(code) => {
                    &&& status is Ok
                    &&& final(code_chunk).program@ == old(code_chunk).program@ + code.instructions
                    &&& final(code_chunk).constant_pool@ == old(code_chunk).constant_pool@
                        + code.constants
                },
                Err(fault) => status is Err && status->Err_0@ == fault,
            },
        decreases *ast,
    {
        let ghost names = self@;
        let ghost program = code_chunk.program@;
        let ghost pool = code_chunk.constant_pool@;
        match &ast.expr_type {
            ExprType::Literal(value) => {
                let idx = code_chunk.constant_pool.len();
                code_chunk.constant_pool.push(*value);
                Compiler::push_extensions(code_chunk, idx);
                code_chunk.program.push(OpCode::LoadConst((idx % 256) as u8));
                assert(code_chunk.program@ =~= program + load_const_at(idx as nat));
                assert(code_chunk.constant_pool@ =~= pool + seq![*value]);
                return Ok(());
            },
            ExprType::Variable(name) => {
                let idx = match find_slot(&self.name_map, name) {
                    None => {
                        return Err(CompileError::Unknown(name.clone()));
                    },
                    Some(x) => x,
                };
                Compiler::push_extensions(code_chunk, idx);
                code_chunk.program.push(OpCode::LoadVar((idx % 256) as u8));
                assert(code_chunk.program@ =~= program + load_var_at(idx as nat));
                assert(code_chunk.constant_pool@ =~= pool + Seq::<i32>::empty());
                return Ok(());
            },
            ExprType::AssignStmt(name) => {
                if find_slot(&self.name_map, name).is_none() {
                    return Err(CompileError::Unknown(name.clone()));
                }
            },
            _ => {},
        }
        let ghost mut code = Code::empty();
        assert(code_chunk.program@ =~= program + code.instructions);
        assert(code_chunk.constant_pool@ =~= pool + code.constants);
        let mut i: usize = 0;
        while i < ast.children.len()
            invariant
                i <= ast.children.len(),
                well_formed(ast@),
                names == self@,
                pool == old(code_chunk).constant_pool@,
                program == old(code_chunk).program@,
                !(ast.expr_type is Literal),
                !(ast.expr_type is Variable),
                ast.expr_type is AssignStmt ==> slot_of(names, ast.expr_type->AssignStmt_0@) is Some,
                code_chunk.variable_size == old(code_chunk).variable_size,
                emit_children(ast@, i as nat, names, pool.len()) == Ok::<Code, CompileFault>(code),
                code_chunk.program@ == program + code.instructions,
                code_chunk.constant_pool@ == pool + code.constants,
            decreases ast.children.len() - i,
        {
            proof {
                lemma_tree_of_child(*ast, i as int);
            }
            let status = self.compile_ast(code_chunk, &ast.children[i]);
            if let Err(error) = status {
                proof {
                    lemma_emit_children_fault(
                        ast@,
                        (i + 1) as nat,
                        ast.children.len() as nat,
                        names,
                        pool.len(),
                    );
                }
                return Err(error);
            }
            proof {
                let next = emit(ast@.children[i as int], names, pool.len() + code.constants.len())->Ok_0;
                let joined = code.then_code(next);
                assert(code_chunk.program@ =~= program + joined.instructions);
                assert(code_chunk.constant_pool@ =~= pool + joined.constants);
                code = joined;
            }
            i = i + 1;
        }
        match &ast.expr_type {
            ExprType::Op(c) => {
                let instruction = if *c == '+' {
                    OpCode::Add
                } else if *c == '-' {
                    OpCode::Sub
                } else if *c == '*' {
                    OpCode::Mult
                } else {
                    OpCode::Div
                };
                code_chunk.program.push(instruction);
                assert(code_chunk.program@ =~= program + code.then_instructions(
                    seq![operator_instruction(*c)],
                ).instructions);
            },
            ExprType::AssignStmt(name) => {
                if let Some(idx) = find_slot(&self.name_map, name) {
                    Compiler::push_extensions(code_chunk, idx);
                    code_chunk.program.push(OpCode::Store((idx % 256) as u8));
                    assert(code_chunk.program@ =~= program + code.then_instructions(
                        store_at(idx as nat),
                    ).instructions);
                }
            },
            ExprType::PrintStmt => {
                code_chunk.program.push(OpCode::Print);
                assert(code_chunk.program@ =~= program + code.then_instructions(
                    seq![OpCode::Print],
                ).instructions);
            },
            ExprType::VarDeclStmt(name) => {
                if ast.children.len() > 0 {
                    let idx = match find_slot(&self.name_map, name) {
                        None => {
                            return Err(CompileError::Unknown(name.clone()));
                        },
                        Some(x) => x,
                    };
                    Compiler::push_extensions(code_chunk, idx);
                    code_chunk.program.push(OpCode::Store((idx % 256) as u8));
                    assert(code_chunk.program@ =~= program + code.then_instructions(
                        store_at(idx as nat),
                    ).instructions);
                }
            },
            _ => {},
        }
        Ok(())
    }

    /// Discovery and code generation against the session's table, with no
    /// care for the table when the tree is rejected.
    fn _continue_compile(&mut self, ast: &Expr) -> (result: Result<Chunk, CompileError>)
        requires
            well_formed(ast@),
        ensures
            old(self).name_map@.len() <= final(self).name_map@.len(),
            final(self).name_map@.take(old(self).name_map@.len() as int) == old(self).name_map@,
            match compile_outcome(ast@, old(self)@) {
                Ok(compiled) => {
                    &&& result is Ok
                    &&& chunk_holds(result->Ok_0, compiled)
                    &&& final(self)@ == compiled.names
                },
                Err(fault) => result is Err && result->Err_0@ == fault,
            },
    {
        let known = self.name_map.len();
        if let Err(error) = Compiler::find_variables(ast, &mut self.name_map) {
            return Err(error);
        }
        let mut code_chunk = Chunk::new();
        code_chunk.variable_size = self.name_map.len() - known;
        if let Err(error) = self.compile_ast(&mut code_chunk, ast) {
            return Err(error);
        }
        Ok(code_chunk)
    }

    /// Compiles one more tree in a session. On success the unit holds the
    /// tree's code and the number of slots that this call introduced, and the
    /// table has grown by the tree's declarations. When the tree is rejected
    /// the table is what it was before the call. Either way every name keeps
    /// its slot, and no name gets a second one.
    pub fn continue_compile(&mut self, ast: &Expr) -> (result: Result<Chunk, CompileError>)
        requires
            well_formed(ast@),
        ensures
            extends(final(self)@, old(self)@),
            distinct(old(self)@) ==> distinct(final(self)@),
            match compile_outcome(ast@, old(self)@) {
                Ok(compiled) => {
                    &&& result is Ok
                    &&& chunk_holds(result->Ok_0, compiled)
                    &&& final(self)@ == compiled.names
                },
                Err(fault) => {
                    &&& result is Err
                    &&& result->Err_0@ == fault
                    &&& final(self)@ == old(self)@
                },
            },
    {
        let known = self.name_map.len();
        proof {
            if discover(ast@, self@) is Ok {
                crate::compiler_laws::lemma_discover_extends(ast@, self@);
            }
        }
        match self._continue_compile(ast) {
            Ok(chunk) => Ok(chunk),
            Err(error) => {
                self.name_map.truncate(known);
                Err(error)
            },
        }
    }

    /// Compiles a whole program against an empty symbol table.
    pub fn compile(ast: &Expr) -> (result: Result<Chunk, CompileError>)
        requires
            well_formed(ast@),
        ensures
            match compile_outcome(ast@, Seq::empty()) {
                Ok(compiled) => result is Ok && chunk_holds(result->Ok_0, compiled),
                Err(fault) => result is Err && result->Err_0@ == fault,
            },
    {
        let mut compiler = Compiler::new();
        compiler._continue_compile(ast)
    }
}

/// A fault among the first children of a node is the fault of all of them.
pub proof fn lemma_discover_children_fault(e: Tree, at: nat, count: nat, names: Names)
    requires
        at <= count <= e.children.len(),
        discover_children(e, at, names) is Err,
    ensures
        discover_children(e, count, names) == discover_children(e, at, names),
    decreases count,
{
    if at < count {
        lemma_discover_children_fault(e, at, (count - 1) as nat, names);
    }
}

/// A fault among the code of the first children of a node is the fault of
/// all of them.
pub proof fn lemma_emit_children_fault(e: Tree, at: nat, count: nat, names: Names, pool_base: nat)
    requires
        at <= count <= e.children.len(),
        emit_children(e, at, names, pool_base) is Err,
    ensures
        emit_children(e, count, names, pool_base) == emit_children(e, at, names, pool_base),
    decreases count,
{
    if at < count {
        lemma_emit_children_fault(e, at, (count - 1) as nat, names, pool_base);
    }
}

impl Chunk {
    /// Compiles a whole program: the same as `Compiler::compile`.
    pub fn compile_from(ast: &Expr) -> (result: Result<Chunk, CompileError>)
        requires
            well_formed(ast@),
        ensures
            match compile_outcome(ast@, Seq::empty()) {
                Ok(compiled) => result is Ok && chunk_holds(result->Ok_0, compiled),
                Err(fault) => result is Err && result->Err_0@ == fault,
            },
    {
        Compiler::compile(ast)
    }
}

} // verus!
