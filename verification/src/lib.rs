//! A compiler from a small statement language to a stack bytecode, and the
//! virtual machine that runs it.
//!
//! Source text goes through the tokenizer (`lexer`) and the parser
//! (`parser`) to a syntax tree (`ast`), through the compiler (`compiler`) to
//! a compiled unit (`bytecode`), and runs on the machine (`vm`). A `session`
//! feeds text to one compiler and one machine that live on between the
//! pieces. `correctness` states and proves that compiled code does what the
//! source means; `compiler_laws` and `parser_laws` hold what is proved of
//! each stage by itself; `text` writes values out for people.

pub mod ast;
pub mod bytecode;
pub mod compiler;
pub mod compiler_laws;
pub mod correctness;
pub mod lexer;
pub mod parser;
pub mod parser_laws;
pub mod session;
pub mod text;
pub mod vm;
