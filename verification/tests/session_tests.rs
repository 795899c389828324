use stackscript::bytecode::{Chunk, OpCode};
use stackscript::compiler::{CompileError, Compiler};
use stackscript::lexer::{tokenize, LexError, TokenIndex};
use stackscript::parser::{parse, ParseContext, ParseError, ParseReason};
use stackscript::session::{Session, SessionError};
use stackscript::vm::{RuntimeError, VM};

fn run(text: &str) -> (Vec<i32>, Result<(), SessionError>) {
    let mut session = Session::new();
    let mut out = Vec::new();
    let status = session.feed(text, &mut out);
    (out, status)
}

fn printed(text: &str) -> Vec<i32> {
    let (out, status) = run(text);
    assert_eq!(status, Ok(()));
    out
}

#[test]
fn sum_of_a_variable_and_a_product_prints_seven() {
    assert_eq!(printed("var a = 1; var b = 2; print a + b * 3;"), vec![7]);
}

#[test]
fn print_of_one_by_zero_faults_and_prints_nothing() {
    let (out, status) = run("print 1/0;");
    assert_eq!(status, Err(SessionError::Runtime(RuntimeError::DivisionByZero)));
    assert!(out.is_empty());
}

#[test]
fn assignment_to_a_name_never_declared_never_runs() {
    let tokens = tokenize("x = 5;").unwrap();
    let ast = parse(&tokens).unwrap();
    assert_eq!(Compiler::compile(&ast), Err(CompileError::Undeclared("x".to_string())));
    let mut session = Session::new();
    let mut out = Vec::new();
    assert_eq!(
        session.feed("x = 5;", &mut out),
        Err(SessionError::Compile(CompileError::Undeclared("x".to_string())))
    );
    assert!(out.is_empty());
    assert_eq!(session.value_of(&"x".to_string()), None);
}

#[test]
fn arithmetic_follows_precedence_and_goes_left_to_right() {
    assert_eq!(printed("print 1 + 2 * 3;"), vec![7]);
    assert_eq!(printed("print (1 + 2) * 3;"), vec![9]);
    assert_eq!(printed("print 10 - 3 - 2;"), vec![5]);
    assert_eq!(printed("print 100 / 10 / 5;"), vec![2]);
    assert_eq!(printed("print 2 * 3 + 4 * 5 - 6 / 2;"), vec![23]);
    assert_eq!(printed("print 7 / 2;"), vec![3]);
    assert_eq!(printed("print (0 - 7) / 2;"), vec![-3]);
    assert_eq!(printed("print 7 / (0 - 2);"), vec![-3]);
    assert_eq!(printed("print 2147483647 + 1;"), vec![i32::MIN]);
}

#[test]
fn any_zero_divisor_is_a_fault() {
    for text in ["print 1 / (2 - 2);", "print 0 / 0;", "print 5 + 4 / 0 * 3;", "print (1 / 0) / 0;"] {
        let (out, status) = run(text);
        assert_eq!(status, Err(SessionError::Runtime(RuntimeError::DivisionByZero)));
        assert!(out.is_empty());
    }
    assert_eq!(printed("print 0 / 5;"), vec![0]);
}

#[test]
fn values_live_from_one_piece_of_text_to_the_next() {
    let mut session = Session::new();
    let mut out = Vec::new();
    assert_eq!(session.feed("var a = 4;", &mut out), Ok(()));
    assert_eq!(session.feed("var b = a * a;", &mut out), Ok(()));
    assert_eq!(session.feed("a = b - 1; print a; print b;", &mut out), Ok(()));
    assert_eq!(out, vec![15, 16]);
    assert_eq!(session.value_of(&"a".to_string()), Some(15));
    assert_eq!(session.value_of(&"b".to_string()), Some(16));
    assert_eq!(session.value_of(&"c".to_string()), None);
}

#[test]
fn declared_variable_without_value_is_zero() {
    assert_eq!(printed("var a; print a; a = a + 1; print a;"), vec![0, 1]);
}

#[test]
fn rejected_text_changes_nothing() {
    let mut session = Session::new();
    let mut out = Vec::new();
    assert_eq!(session.feed("var a = 1;", &mut out), Ok(()));
    assert_eq!(
        session.feed("var b = 2; c = 3;", &mut out),
        Err(SessionError::Compile(CompileError::Undeclared("c".to_string())))
    );
    assert_eq!(session.value_of(&"b".to_string()), None);
    assert_eq!(
        session.feed("print b;", &mut out),
        Err(SessionError::Compile(CompileError::Unknown("b".to_string())))
    );
    assert_eq!(
        session.feed("var a = 5;", &mut out),
        Err(SessionError::Compile(CompileError::Redeclared("a".to_string())))
    );
    assert_eq!(session.value_of(&"a".to_string()), Some(1));
    assert_eq!(session.feed("var b = a + 1; print b;", &mut out), Ok(()));
    assert_eq!(out, vec![2]);
}

#[test]
fn text_that_is_not_tokens_or_not_statements_is_turned_down() {
    let mut session = Session::new();
    let mut out = Vec::new();
    assert_eq!(
        session.feed("var a = #;", &mut out),
        Err(SessionError::Lex(LexError::UnknownCharacter('#', 8)))
    );
    assert_eq!(
        session.feed("var a = 1 /* ", &mut out),
        Err(SessionError::Lex(LexError::UnterminatedComment(TokenIndex {
            index: 10,
            line_number: 0
        })))
    );
    assert_eq!(
        session.feed("var a = 1; print ;", &mut out),
        Err(SessionError::Parse(vec![ParseError {
            reason: ParseReason::UnexpectedToken(6),
            context: ParseContext::AfterPrint(5)
        }]))
    );
    assert_eq!(session.value_of(&"a".to_string()), None);
    assert!(out.is_empty());
}

#[test]
fn fault_keeps_earlier_stores_and_output_and_the_session_goes_on() {
    let mut session = Session::new();
    let mut out = Vec::new();
    assert_eq!(
        session.feed("var a = 3; print a; var b = a / 0; a = 9; print a;", &mut out),
        Err(SessionError::Runtime(RuntimeError::DivisionByZero))
    );
    assert_eq!(out, vec![3]);
    assert_eq!(session.value_of(&"a".to_string()), Some(3));
    assert_eq!(session.value_of(&"b".to_string()), Some(0));
    assert_eq!(session.feed("b = a + 1; print b;", &mut out), Ok(()));
    assert_eq!(out, vec![3, 4]);
}

#[test]
fn use_before_declaration_in_one_text_compiles() {
    assert_eq!(printed("print late; var late = 2; print late;"), vec![0, 2]);
}

#[test]
fn pipeline_by_hand_gives_what_the_session_gives() {
    let text = "var n = 6; var f = n * (n - 1) / 2; print f; print f - n;";
    let ast = parse(&tokenize(text).unwrap()).unwrap();
    let mut compiler = Compiler::new();
    let chunk = compiler.continue_compile(&ast).unwrap();
    let mut vm = VM::new();
    let mut out = Vec::new();
    assert_eq!(vm.run(&chunk, &mut out), Ok(()));
    assert_eq!(out, printed(text));
    assert_eq!(out, vec![15, 9]);
    assert_eq!(vm.stack, vec![6, 15]);
}

#[test]
fn source_text_compiles_to_loads_stores_and_operators_in_order() {
    let ast = parse(&tokenize("var a = 1; var b = 2; print a + b * 3;").unwrap()).unwrap();
    let chunk = Chunk::compile_from(&ast).unwrap();
    assert_eq!(
        chunk.program,
        vec![
            OpCode::LoadConst(0),
            OpCode::Store(0),
            OpCode::LoadConst(1),
            OpCode::Store(1),
            OpCode::LoadVar(0),
            OpCode::LoadVar(1),
            OpCode::LoadConst(2),
            OpCode::Mult,
            OpCode::Add,
            OpCode::Print,
        ]
    );
    assert_eq!(chunk.constant_pool, vec![1, 2, 3]);
    assert_eq!(chunk.variable_size, 2);
    let mut vm = VM::new();
    let mut out = Vec::new();
    assert_eq!(vm.run(&chunk, &mut out), Ok(()));
    assert_eq!(out, vec![7]);
}
