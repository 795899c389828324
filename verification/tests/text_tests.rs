use stackscript::ast::{Expr, ExprType};
use stackscript::bytecode::{Chunk, OpCode};
use stackscript::compiler::CompileError;
use stackscript::lexer::{tokenize, LexError, Token, TokenIndex};
use stackscript::parser::{parse, ParseContext, ParseError, ParseReason, TokenKind};
use stackscript::text::{integer_text, natural_text, printed_lines, report, visit};
use stackscript::vm::RuntimeError;

#[test]
fn numbers_are_written_in_decimal() {
    assert_eq!(natural_text(0), "0");
    assert_eq!(natural_text(9), "9");
    assert_eq!(natural_text(10), "10");
    assert_eq!(natural_text(1234567890), "1234567890");
    assert_eq!(natural_text(u64::MAX), "18446744073709551615");
    assert_eq!(integer_text(0), "0");
    assert_eq!(integer_text(-1), "-1");
    assert_eq!(integer_text(405), "405");
    assert_eq!(integer_text(i32::MAX), "2147483647");
    assert_eq!(integer_text(i32::MIN), "-2147483648");
}

#[test]
fn instructions_are_written_with_their_operands() {
    assert_eq!(OpCode::Add.to_string(), "[ADD]");
    assert_eq!(OpCode::Sub.to_string(), "[SUB]");
    assert_eq!(OpCode::Mult.to_string(), "[MULT]");
    assert_eq!(OpCode::Div.to_string(), "[DIV]");
    assert_eq!(OpCode::Print.to_string(), "[PRINT]");
    assert_eq!(OpCode::Store(0).to_string(), "[STORE 0]");
    assert_eq!(OpCode::LoadVar(17).to_string(), "[LOAD_VAR 17]");
    assert_eq!(OpCode::LoadConst(255).to_string(), "[LOAD_CONST 255]");
    assert_eq!(OpCode::Extend(1).to_string(), "[EXTEND 1]");
}

#[test]
fn dump_has_a_header_and_a_line_for_each_instruction() {
    let chunk = Chunk {
        program: vec![OpCode::LoadConst(0), OpCode::Store(1), OpCode::Print],
        variable_size: 2,
        constant_pool: vec![5, 6, 7],
    };
    assert_eq!(
        chunk.dump(),
        vec!["constant_size=3", "variable_size=2", "[LOAD_CONST 0]", "[STORE 1]", "[PRINT]"]
    );
    assert_eq!(Chunk::new().dump(), vec!["constant_size=0", "variable_size=0"]);
}

#[test]
fn positions_and_tokens_are_written_for_reports() {
    let p = TokenIndex { index: 4, line_number: 2 };
    assert_eq!(p.to_string(), "[2,4]");
    assert_eq!(Token::Op('*', p).to_string(), "<operator * [2,4]>");
    assert_eq!(Token::Number(-3, p).to_string(), "<Number -3 [2,4]>");
    assert_eq!(Token::LBracket(p).to_string(), "<( [2, 4]>");
    assert_eq!(Token::RBracket(p).to_string(), "<) [2, 4]>");
    assert_eq!(Token::Print(p).to_string(), "<print [2, 4]>");
    assert_eq!(Token::Var(p).to_string(), "<var [2,4]>");
    assert_eq!(Token::Equals(p).to_string(), "<= [2, 4]>");
    assert_eq!(Token::Identifier("abc".to_string(), p).to_string(), "<variable abc [2,4]>");
    assert_eq!(Token::Semicolon(p).to_string(), "<; [2,4]>");
    assert_eq!(Token::EOF(p).to_string(), "<EOF [2, 4]>");
    assert_eq!(Token::Op('x', p).to_string(), "<operator  [2,4]>");
}

#[test]
fn kinds_of_tokens_have_names() {
    let p = TokenIndex { index: 0, line_number: 0 };
    assert_eq!(Token::Op('+', p).get_token_type_name(), "Binary operator");
    assert_eq!(Token::Number(1, p).get_token_type_name(), "Number");
    assert_eq!(Token::LBracket(p).get_token_type_name(), "(");
    assert_eq!(Token::RBracket(p).get_token_type_name(), ")");
    assert_eq!(Token::Print(p).get_token_type_name(), "print keyword");
    assert_eq!(Token::Var(p).get_token_type_name(), "var keyword");
    assert_eq!(Token::Equals(p).get_token_type_name(), "equals");
    assert_eq!(Token::Identifier("a".to_string(), p).get_token_type_name(), "identifier");
    assert_eq!(Token::Semicolon(p).get_token_type_name(), "semicolon");
    assert_eq!(Token::EOF(p).get_token_type_name(), "EOF");
}

#[test]
fn trees_are_written_as_s_expressions() {
    let ast = parse(&tokenize("var a = 1; var b; a = a + 2 * b; print (a - 1) / 3;").unwrap())
        .unwrap();
    assert_eq!(
        visit(&ast),
        "(= a 1)\n(= b Nil)\n(= a (+ a (* 2 b)))\n(print (/ (- a 1) 3))\n"
    );
    let negative = Expr { expr_type: ExprType::Literal(-12), children: vec![] };
    assert_eq!(visit(&negative), "-12");
    assert_eq!(visit(&Expr { expr_type: ExprType::Program, children: vec![] }), "");
}

#[test]
fn compile_errors_are_reported_in_words() {
    assert_eq!(CompileError::Undeclared("x".to_string()).message(), "undeclared variable x");
    assert_eq!(CompileError::Redeclared("x".to_string()).message(), "redefinition of variable x");
    assert_eq!(CompileError::Unknown("x".to_string()).message(), "unknown variable x");
}

#[test]
fn faults_are_reported_in_words() {
    assert_eq!(RuntimeError::StackUnderflow.message(), "stack underflow");
    assert_eq!(RuntimeError::DivisionByZero.message(), "zero division");
    assert_eq!(RuntimeError::IndexOutOfRange.message(), "value indexation error");
}

#[test]
fn lex_errors_are_reported_in_words() {
    let text = "a = 1 $ 2";
    assert_eq!(tokenize(text).unwrap_err().message(text), "unknown character $ at 6");
    let text = "x\n /* y";
    assert_eq!(
        tokenize(text).unwrap_err().message(text),
        "lexer error: unterminated multiline comment starting at [1,1]"
    );
    let text = "99999999999";
    assert_eq!(
        tokenize(text).unwrap_err().message(text),
        "lexer error: number out of range at [0,0]"
    );
    assert_eq!(LexError::UnknownCharacter('?', 9).message("abc"), "unknown character  at 9");
}

#[test]
fn parse_errors_are_reported_in_words() {
    let tokens = tokenize("print 1 2;\nx = ;\nprint (3 4);\nprint").unwrap();
    let errors = parse(&tokens).unwrap_err();
    assert_eq!(errors.len(), 4);
    assert_eq!(errors[0].message(&tokens), "Expected semicolon, got <Number 2 [0,8]>");
    assert_eq!(
        errors[1].message(&tokens),
        "unexpected token <; [1,4]>\nexpected expression in assignment at [1,2]\n"
    );
    assert_eq!(
        errors[2].message(&tokens),
        "expected ')' for opening '(' at [2,6]\nexpected expression after print at [2,0]"
    );
    assert_eq!(
        errors[3].message(&tokens),
        "unexpected token <EOF [3, 5]>\nexpected expression after print at [3,0]"
    );
    assert_eq!(
        report(&errors, &tokens),
        "\nExpected semicolon, got <Number 2 [0,8]>\
         \nunexpected token <; [1,4]>\nexpected expression in assignment at [1,2]\n\
         \nexpected ')' for opening '(' at [2,6]\nexpected expression after print at [2,0]\
         \nunexpected token <EOF [3, 5]>\nexpected expression after print at [3,0]"
    );
    assert_eq!(report(&Vec::new(), &tokens), "");
}

#[test]
fn error_that_names_a_missing_token_has_no_text_for_it() {
    let error = ParseError {
        reason: ParseReason::Expected(TokenKind::Equals, 5),
        context: ParseContext::AfterPrint(7),
    };
    assert_eq!(
        error.message(&Vec::new()),
        "Expected equals, got \nexpected expression after print at "
    );
    let end = ParseError { reason: ParseReason::UnexpectedEnd, context: ParseContext::Plain };
    assert_eq!(end.message(&Vec::new()), "unexpected end");
}

#[test]
fn printed_values_are_written_one_line_each() {
    assert_eq!(printed_lines(&vec![7, -3, 0, i32::MIN]), vec!["7", "-3", "0", "-2147483648"]);
    assert!(printed_lines(&Vec::new()).is_empty());
}
