//! What holds of the symbol table and of the compiler: slots are given out
//! once and never moved, bad programs are rejected, and a program compiles
//! exactly when every name in it resolves.

use vstd::prelude::*;
use crate::ast::{is_expression, is_statement, Kind, Tree};
use crate::bytecode::Chunk;
use crate::compiler::{
    chunk_holds,
    compile_outcome,
    discover,
    discover_children,
    distinct,
    emit,
    emit_children,
    extends,
    lemma_discover_children_fault,
    slot_from,
    slot_of,
    Code,
    CompileFault,
    Compiled,
    Names,
};

verus! {

/// A slot that a lookup returns lies inside the table, holds the name, and no
/// earlier slot does.
pub proof fn lemma_slot_found(names: Names, name: Seq<char>, from: nat)
    ensures
        match crate::compiler::slot_from(names, name, from) {
            Some(slot) => {
                &&& from <= slot < names.len()
                &&& names[slot as int] == name
                &&& forall|i: int| from <= i < slot ==> names[i] != name
            },
            None => forall|i: int| from <= i < names.len() ==> names[i] != name,
        },
    decreases names.len() - from,
{
    if from < names.len() && names[from as int] != name {
        lemma_slot_found(names, name, from + 1);
    }
}

/// A name has a slot exactly when the table holds it.
pub proof fn lemma_slot_iff_held(names: Names, name: Seq<char>)
    ensures
        slot_of(names, name) is Some <==> names.contains(name),
{
    lemma_slot_found(names, name, 0);
    if slot_of(names, name) is Some {
        assert(names[slot_of(names, name)->Some_0 as int] == name);
    }
}

/// A table that grows keeps every name in its slot.
pub proof fn lemma_slot_kept(longer: Names, shorter: Names, name: Seq<char>)
    requires
        extends(longer, shorter),
        slot_of(shorter, name) is Some,
    ensures
        slot_of(longer, name) == slot_of(shorter, name),
{
    lemma_slot_found(shorter, name, 0);
    lemma_slot_found(longer, name, 0);
}

/// A table that extends one that extends a third extends the third.
pub proof fn lemma_extends_twice(longest: Names, longer: Names, shorter: Names)
    requires
        extends(longest, longer),
        extends(longer, shorter),
    ensures
        extends(longest, shorter),
{
}

/// Discovery only appends: the table it returns begins with the table it
/// was given, so no slot is renumbered; and it never gives one name two slots.
pub proof fn lemma_discover_extends(e: Tree, names: Names)
    requires
        discover(e, names) is Ok,
    ensures
        extends(discover(e, names)->Ok_0, names),
        distinct(names) ==> distinct(discover(e, names)->Ok_0),
    decreases e, e.children.len() + 1,
{
    match e.kind {
        Kind::AssignStmt(_) => {},
        Kind::VarDeclStmt(name) => {
            lemma_discover_children_extends(e, e.children.len() as nat, names);
            let found = discover_children(e, e.children.len() as nat, names)->Ok_0;
            lemma_slot_found(found, name, 0);
        },
        _ => {
            lemma_discover_children_extends(e, e.children.len() as nat, names);
        },
    }
}

/// Discovery over the first children of a node only appends, and gives no
/// name two slots.
pub proof fn lemma_discover_children_extends(e: Tree, count: nat, names: Names)
    requires
        count <= e.children.len(),
        discover_children(e, count, names) is Ok,
    ensures
        extends(discover_children(e, count, names)->Ok_0, names),
        distinct(names) ==> distinct(discover_children(e, count, names)->Ok_0),
    decreases e, count,
{
    if count > 0 {
        lemma_discover_children_extends(e, (count - 1) as nat, names);
        let before = discover_children(e, (count - 1) as nat, names)->Ok_0;
        lemma_discover_extends(e.children[count - 1], before);
    }
}

/// Where discovery got through the first `later` children of a node, it got
/// through the first `earlier` ones, and only appended since then.
pub proof fn lemma_discover_children_chain(e: Tree, earlier: nat, later: nat, names: Names)
    requires
        earlier <= later <= e.children.len(),
        discover_children(e, later, names) is Ok,
    ensures
        discover_children(e, earlier, names) is Ok,
        extends(
            discover_children(e, later, names)->Ok_0,
            discover_children(e, earlier, names)->Ok_0,
        ),
    decreases later,
{
    if earlier < later {
        lemma_discover_children_chain(e, earlier, (later - 1) as nat, names);
        let before = discover_children(e, (later - 1) as nat, names)->Ok_0;
        lemma_discover_extends(e.children[later - 1], before);
    }
}

/// Two units compiled from the same tree against the same table hold the
/// same instructions, the same constants and the same slot count.
pub proof fn lemma_compile_is_deterministic(ast: Tree, names: Names, one: Chunk, other: Chunk)
    requires
        compile_outcome(ast, names) is Ok,
        chunk_holds(one, compile_outcome(ast, names)->Ok_0),
        chunk_holds(other, compile_outcome(ast, names)->Ok_0),
    ensures
        one.program@ == other.program@,
        one.constant_pool@ == other.constant_pool@,
        one.variable_size == other.variable_size,
{
}

/// A program with two declarations of one name among its statements is
/// rejected. It is rejected as a redeclaration of that name when discovery
/// gets as far as the second declaration and through its value.
pub proof fn lemma_redeclaration_rejected(program: Tree, first: int, second: int, names: Names)
    requires
        program.kind is Program,
        0 <= first < second < program.children.len(),
        program.children[first].kind is VarDeclStmt,
        program.children[second].kind is VarDeclStmt,
        program.children[first].kind->VarDeclStmt_0
            == program.children[second].kind->VarDeclStmt_0,
    ensures
        discover(program, names) is Err,
        compile_outcome(program, names) is Err,
        ({
            let again = program.children[second];
            let reached = discover_children(program, second as nat, names);
            reached is Ok && discover_children(again, again.children.len() as nat, reached->Ok_0)
                is Ok
        }) ==> compile_outcome(program, names) == Err::<Compiled, CompileFault>(
            CompileFault::Redeclared(program.children[second].kind->VarDeclStmt_0),
        ),
{
    let name = program.children[second].kind->VarDeclStmt_0;
    let count = program.children.len() as nat;
    let again = program.children[second];
    let reached = discover_children(program, second as nat, names);
    if reached is Ok {
        lemma_discover_children_chain(program, (first + 1) as nat, second as nat, names);
        let declared = discover_children(program, (first + 1) as nat, names)->Ok_0;
        lemma_discover_children_chain(program, first as nat, (first + 1) as nat, names);
        let earlier = discover_children(program, first as nat, names)->Ok_0;
        assert(discover_children(program, (first + 1) as nat, names) == discover(
            program.children[first],
            earlier,
        ));
        let last = declared.len() - 1;
        assert(declared[last] == name);
        assert(reached->Ok_0[last] == declared[last]);
        lemma_slot_found(reached->Ok_0, name, 0);
        let value = discover_children(again, again.children.len() as nat, reached->Ok_0);
        if value is Ok {
            lemma_discover_children_extends(again, again.children.len() as nat, reached->Ok_0);
            assert(value->Ok_0[last] == reached->Ok_0[last]);
            lemma_slot_found(value->Ok_0, name, 0);
        }
        assert(discover(again, reached->Ok_0) is Err);
        assert(discover_children(program, (second + 1) as nat, names) == discover(
            again,
            reached->Ok_0,
        ));
        lemma_discover_children_fault(program, (second + 1) as nat, count, names);
    } else {
        lemma_discover_children_fault(program, second as nat, count, names);
    }
}

/// An assignment to a name without a slot is rejected by discovery, so that
/// no code is generated for the program that holds it.
pub proof fn lemma_undeclared_assignment_rejected(program: Tree, at: int, names: Names)
    requires
        program.kind is Program,
        0 <= at < program.children.len(),
        program.children[at].kind is AssignStmt,
        discover_children(program, at as nat, names) is Ok,
        slot_of(
            discover_children(program, at as nat, names)->Ok_0,
            program.children[at].kind->AssignStmt_0,
        ) is None,
    ensures
        discover(program, names) == Err::<Names, CompileFault>(
            CompileFault::Undeclared(program.children[at].kind->AssignStmt_0),
        ),
        compile_outcome(program, names) == Err::<Compiled, CompileFault>(
            CompileFault::Undeclared(program.children[at].kind->AssignStmt_0),
        ),
{
    let reached = discover_children(program, at as nat, names)->Ok_0;
    assert(discover_children(program, (at + 1) as nat, names) == discover(
        program.children[at],
        reached,
    ));
    lemma_discover_children_fault(
        program,
        (at + 1) as nat,
        program.children.len() as nat,
        names,
    );
}

/// A lone assignment to a name without a slot is rejected as undeclared.
pub proof fn lemma_undeclared_statement_rejected(statement: Tree, names: Names)
    requires
        statement.kind is AssignStmt,
        slot_of(names, statement.kind->AssignStmt_0) is None,
    ensures
        compile_outcome(statement, names) == Err::<Compiled, CompileFault>(
            CompileFault::Undeclared(statement.kind->AssignStmt_0),
        ),
{
}

/// Whether every name that the tree reads has a slot.
pub open spec fn reads_known(e: Tree, names: Names) -> bool
    decreases e,
{
    &&& e.kind is Variable ==> slot_of(names, e.kind->Variable_0) is Some
    &&& forall|i: int| 0 <= i < e.children.len() ==> reads_known(#[trigger] e.children[i], names)
}

/// Discovery finds nothing in an expression.
pub proof fn lemma_expression_declares_nothing(e: Tree, names: Names)
    requires
        is_expression(e),
    ensures
        discover(e, names) == Ok::<Names, CompileFault>(names),
    decreases e,
{
    assert(discover_children(e, 0, names) == Ok::<Names, CompileFault>(names));
    if e.kind is Op {
        lemma_expression_declares_nothing(e.children[0], names);
        lemma_expression_declares_nothing(e.children[1], names);
        assert(discover_children(e, 1, names) == Ok::<Names, CompileFault>(names));
        assert(discover_children(e, 2, names) == Ok::<Names, CompileFault>(names));
    }
}

/// Code is generated for an expression exactly when every name that it
/// reads has a slot.
pub proof fn lemma_expression_compiles(e: Tree, names: Names, pool_base: nat)
    requires
        is_expression(e),
    ensures
        emit(e, names, pool_base) is Ok <==> reads_known(e, names),
    decreases e,
{
    assert(emit_children(e, 0, names, pool_base) == Ok::<Code, CompileFault>(Code::empty()));
    if e.kind is Op {
        let left = e.children[0];
        let right = e.children[1];
        lemma_expression_compiles(left, names, pool_base);
        let first = emit_children(e, 1, names, pool_base);
        assert(first is Ok <==> emit(left, names, pool_base) is Ok);
        if first is Ok {
            lemma_expression_compiles(right, names, pool_base + first->Ok_0.constants.len());
        }
        assert(emit_children(e, 2, names, pool_base) is Ok <==> reads_known(left, names)
            && reads_known(right, names));
    }
}

/// Once discovery has accepted a statement, code generation against the
/// table that discovery returned, or any table that extends it, fails only
/// for a name that the statement reads and that has no slot: the names that
/// it assigns to and declares are all known.
pub proof fn lemma_statement_compiles(
    e: Tree,
    names: Names,
    table: Names,
    pool_base: nat,
)
    requires
        is_statement(e),
        discover(e, names) is Ok,
        extends(table, discover(e, names)->Ok_0),
    ensures
        emit(e, table, pool_base) is Ok <==> reads_known(e, table),
    decreases e, e.children.len() + 1,
{
    let found = discover(e, names)->Ok_0;
    assert(emit_children(e, 0, table, pool_base) == Ok::<Code, CompileFault>(Code::empty()));
    match e.kind {
        Kind::Program => {
            lemma_statements_compile(e, e.children.len(), names, table, pool_base);
        },
        Kind::AssignStmt(name) => {
            lemma_slot_kept(table, names, name);
            lemma_expression_compiles(e.children[0], table, pool_base);
        },
        Kind::VarDeclStmt(name) => {
            if e.children.len() == 1 {
                lemma_expression_declares_nothing(e.children[0], names);
                assert(discover_children(e, 0, names) == Ok::<Names, CompileFault>(names));
                assert(discover_children(e, 1, names) == Ok::<Names, CompileFault>(names));
                lemma_expression_compiles(e.children[0], table, pool_base);
            } else {
                assert(discover_children(e, 0, names) == Ok::<Names, CompileFault>(names));
            }
            lemma_slot_found(found, name, 0);
            assert(found[found.len() - 1] == name);
            lemma_slot_found(table, name, 0);
            assert(table[found.len() - 1] == name);
        },
        _ => {
            lemma_expression_compiles(e.children[0], table, pool_base);
        },
    }
}

/// The first statements of a program that discovery has accepted compile
/// exactly when every name that they read has a slot.
pub proof fn lemma_statements_compile(
    e: Tree,
    count: nat,
    names: Names,
    table: Names,
    pool_base: nat,
)
    requires
        e.kind is Program,
        is_statement(e),
        count <= e.children.len(),
        discover_children(e, e.children.len(), names) is Ok,
        extends(table, discover_children(e, e.children.len(), names)->Ok_0),
    ensures
        emit_children(e, count, table, pool_base) is Ok <==> (forall|i: int|
            0 <= i < count ==> reads_known(#[trigger] e.children[i], table)),
    decreases e, count,
{
    if count > 0 {
        let all = e.children.len();
        let before = (count - 1) as nat;
        lemma_statements_compile(e, before, names, table, pool_base);
        lemma_discover_children_chain(e, count, all, names);
        lemma_discover_children_chain(e, before, count, names);
        let reached = discover_children(e, before, names)->Ok_0;
        let declared = discover_children(e, count, names)->Ok_0;
        assert(discover_children(e, count, names) == discover(e.children[before as int], reached));
        lemma_extends_twice(table, discover_children(e, all, names)->Ok_0, declared);
        let earlier = emit_children(e, before, table, pool_base);
        if earlier is Ok {
            lemma_statement_compiles(
                e.children[before as int],
                reached,
                table,
                pool_base + earlier->Ok_0.constants.len(),
            );
        }
    }
}

/// A program of statements compiles exactly when discovery accepts it and
/// every name that it reads has a slot in the table that discovery returns.
pub proof fn lemma_compiles_iff_names_resolve(program: Tree, names: Names)
    requires
        is_statement(program),
    ensures
        compile_outcome(program, names) is Ok <==> discover(program, names) is Ok && reads_known(
            program,
            discover(program, names)->Ok_0,
        ),
{
    if discover(program, names) is Ok {
        lemma_statement_compiles(program, names, discover(program, names)->Ok_0, 0);
    }
}

} // verus!
