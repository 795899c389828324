//! A session: the symbol table and the machine of an interactive run, fed
//! one piece of source text at a time.

use vstd::prelude::*;
use crate::ast::Tree;
use crate::compiler::{compile_outcome, CompileError, CompileFault, Compiler, Names};
use crate::compiler_laws::lemma_discover_extends;
use crate::correctness::{agrees, interpret, theorem_compiled_program_runs};
use crate::lexer::{tokenize, tokens_of, LexError};
use crate::parser::{parse, parse_tokens, ParseError};
use crate::parser_laws::lemma_parsed_program_is_well_formed;
use crate::vm::{entry_state, execute, RuntimeError, VM};

verus! {

/// Why a piece of text did not run to its end.
#[derive(Debug, PartialEq, Eq)]
pub enum SessionError {
    /// The text is not made of tokens.
    Lex(LexError),
    /// Some statements do not parse; every error, in order.
    Parse(Vec<ParseError>),
    /// The program was rejected by the compiler.
    Compile(CompileError),
    /// The program was compiled, and its run stopped on a fault.
    Runtime(RuntimeError),
}

/// The stage at which a piece of text is turned down, or the program that
/// it compiles to.
pub ghost enum Verdict {
    Lex(LexError),
    Parse(Seq<ParseError>),
    Compile(CompileFault),
    Accepted(Tree, crate::compiler::Compiled),
}

/// What the front end makes of a text, against a symbol table: tokens,
/// then a tree, then code.
pub open spec fn verdict(text: Seq<char>, names: Names) -> Verdict {
    match tokens_of(text) {
        Err(error) => Verdict::Lex(error),
        Ok(tokens) => match parse_tokens(tokens) {
            Err(errors) => Verdict::Parse(errors),
            Ok(tree) => match compile_outcome(tree, names) {
                Err(fault) => Verdict::Compile(fault),
                Ok(compiled) => Verdict::Accepted(tree, compiled),
            },
        },
    }
}

/// The state that lives from one piece of text to the next.
pub struct Session {
    compiler: Compiler,
    vm: VM,
}

impl Session {
    /// The declared names, in slot order.
    pub closed spec fn names(&self) -> Names {
        self.compiler@
    }

    /// The values of the variables, in slot order.
    pub closed spec fn cells(&self) -> Seq<i32> {
        self.vm.stack@
    }

    /// Every name has its cell, and the machine is between two runs.
    pub closed spec fn well_formed(&self) -> bool {
        &&& self.vm.at_rest()
        &&& self.compiler@.len() == self.vm.stack@.len()
    }

    /// A session without variables.
    pub fn new() -> (session: Session)
        ensures
            session.well_formed(),
            session.names() == Seq::<Seq<char>>::empty(),
            session.cells() == Seq::<i32>::empty(),
    {
        Session { compiler: Compiler::new(), vm: VM::new() }
    }

    /// The value of a variable, if the name is declared.
    pub fn value_of(&self, name: &String) -> (value: Option<i32>)
        requires
            self.well_formed(),
        ensures
            match crate::compiler::slot_of(self.names(), name@) {
                Some(slot) => slot < self.cells().len() && value == Some(self.cells()[slot as int]),
                None => value is None,
            },
    {
        proof {
            crate::compiler_laws::lemma_slot_found(self.compiler@, name@, 0);
        }
        match self.compiler.slot(name) {
            Some(slot) => Some(self.vm.stack[slot]),
            None => None,
        }
    }

    /// Runs a piece of source text: tokenizes it, parses it, compiles it
    /// against the names of the session and runs the code on the machine of
    /// the session. Each printed value is appended to `output`.
    ///
    /// Text that is turned down before it runs leaves the session as it
    /// was. Text that runs does what its statements mean: the output, the
    /// values of the variables and the fault, if any, are those of
    /// `interpret`, from a state in which each newly declared variable is
    /// zero.
    pub fn feed(&mut self, text: &str, output: &mut Vec<i32>) -> (result: Result<(), SessionError>)
        requires
            old(self).well_formed(),
        ensures
            final(self).well_formed(),
            match verdict(text@, old(self).names()) {
                Verdict::Lex(error) => {
                    &&& result matches Err(SessionError::Lex(e)) && e == error
                    &&& final(self).names() == old(self).names()
                    &&& final(self).cells() == old(self).cells()
                    &&& final(output)@ == old(output)@
                },
                Verdict::Parse(errors) => {
                    &&& result matches Err(SessionError::Parse(e)) && e@ == errors
                    &&& final(self).names() == old(self).names()
                    &&& final(self).cells() == old(self).cells()
                    &&& final(output)@ == old(output)@
                },
                Verdict::Compile(fault) => {
                    &&& result matches Err(SessionError::Compile(e)) && e@ == fault
                    &&& final(self).names() == old(self).names()
                    &&& final(self).cells() == old(self).cells()
                    &&& final(output)@ == old(output)@
                },
                Verdict::Accepted(tree, compiled) => {
                    let start = entry_state(old(self).cells(), compiled.new_slots, old(output)@);
                    let run = execute(compiled.program, compiled.constants, start);
                    let meaning = interpret(tree, compiled.names, start);
                    &&& agrees(run, meaning)
                    &&& final(self).names() == compiled.names
                    &&& final(self).cells() == meaning.machine.stack
                    &&& final(output)@ == meaning.machine.output
                    &&& match meaning.fault {
                        None => result is Ok,
                        Some(fault) => result matches Err(SessionError::Runtime(e)) && e == fault,
                    }
                },
            },
    {
        let tokens = match tokenize(text) {
            Ok(tokens) => tokens,
            Err(error) => {
                return Err(SessionError::Lex(error));
            },
        };
        let ast = match parse(&tokens) {
            Ok(ast) => ast,
            Err(errors) => {
                return Err(SessionError::Parse(errors));
            },
        };
        let code_chunk = match self.compiler.continue_compile(&ast) {
            Ok(code_chunk) => code_chunk,
            Err(error) => {
                return Err(SessionError::Compile(error));
            },
        };
        let slots = self.compiler.slot_count();
        proof {
            lemma_parsed_program_is_well_formed(crate::lexer::lexemes_of(tokens@));
            lemma_discover_extends(ast@, old(self).names());
            theorem_compiled_program_runs(
                ast@,
                old(self).names(),
                old(self).cells(),
                old(output)@,
            );
        }
        match self.vm.run(&code_chunk, output) {
            Ok(_) => Ok(()),
            Err(fault) => Err(SessionError::Runtime(fault)),
        }
    }
}

} // verus!
