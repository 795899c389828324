//! Text forms: numbers in decimal, instructions and compiled units for
//! inspection, tokens and positions for reports, and trees as
//! s-expressions.

use vstd::prelude::*;
use vstd::string::StringExecFns;
use crate::ast::{lemma_tree_of_child, well_formed, Expr, ExprType, Kind, Tree};
use crate::bytecode::{Chunk, OpCode};
use vstd::string::StrSliceExecFns;
use crate::compiler::{CompileError, CompileFault};
use crate::lexer::{lexemes_of, LexError, Lexeme, Token, TokenIndex};
use crate::parser::{ParseContext, ParseError, ParseReason, TokenKind};
use crate::vm::RuntimeError;

verus! {

/// The character of a decimal digit.
pub open spec fn digit(d: nat) -> char {
    if d == 0 {
        '0'
    } else if d == 1 {
        '1'
    } else if d == 2 {
        '2'
    } else if d == 3 {
        '3'
    } else if d == 4 {
        '4'
    } else if d == 5 {
        '5'
    } else if d == 6 {
        '6'
    } else if d == 7 {
        '7'
    } else if d == 8 {
        '8'
    } else {
        '9'
    }
}

/// A natural number in decimal, without leading zeros.
pub open spec fn decimal(n: nat) -> Seq<char>
    decreases n,
{
    if n < 10 {
        seq![digit(n)]
    } else {
        decimal(n / 10).push(digit(n % 10))
    }
}

/// An integer in decimal, with a minus sign where it is negative.
pub open spec fn signed_decimal(i: int) -> Seq<char> {
    if i < 0 {
        seq!['-'] + decimal((-i) as nat)
    } else {
        decimal(i as nat)
    }
}

/// The text of one digit.
fn digit_text(d: u64) -> (s: &'static str)
    requires
        d < 10,
    ensures
        s@ == seq![digit(d as nat)],
{
    proof {
        reveal_strlit("0");
        reveal_strlit("1");
        reveal_strlit("2");
        reveal_strlit("3");
        reveal_strlit("4");
        reveal_strlit("5");
        reveal_strlit("6");
        reveal_strlit("7");
        reveal_strlit("8");
        reveal_strlit("9");
    }
    let s = if d == 0 {
        "0"
    } else if d == 1 {
        "1"
    } else if d == 2 {
        "2"
    } else if d == 3 {
        "3"
    } else if d == 4 {
        "4"
    } else if d == 5 {
        "5"
    } else if d == 6 {
        "6"
    } else if d == 7 {
        "7"
    } else if d == 8 {
        "8"
    } else {
        "9"
    };
    assert(s@ =~= seq![digit(d as nat)]);
    s
}

/// Writes a natural number in decimal.
pub fn natural_text(n: u64) -> (s: String)
    ensures
        s@ == decimal(n as nat),
    decreases n,
{
    if n < 10 {
        String::from_str(digit_text(n))
    } else {
        let mut s = natural_text(n / 10);
        s.append(digit_text(n % 10));
        assert(s@ =~= decimal(n as nat));
        s
    }
}

/// Writes an integer in decimal.
pub fn integer_text(i: i32) -> (s: String)
    ensures
        s@ == signed_decimal(i as int),
{
    if i < 0 {
        proof {
            reveal_strlit("-");
        }
        let mut s = String::from_str("-");
        let magnitude = natural_text((0 - (i as i64)) as u64);
        s.append(magnitude.as_str());
        assert(s@ =~= signed_decimal(i as int));
        s
    } else {
        natural_text(i as u64)
    }
}

/// The lines that a run writes: one for each printed value, in order, with
/// the value in decimal.
pub open spec fn output_lines(values: Seq<i32>) -> Seq<Seq<char>> {
    values.map_values(|value: i32| signed_decimal(value as int))
}

/// Writes the printed values of a run, one line each.
pub fn printed_lines(values: &Vec<i32>) -> (lines: Vec<String>)
    ensures
        texts_of(lines@) == output_lines(values@),
{
    let mut lines: Vec<String> = Vec::new();
    let mut i: usize = 0;
    while i < values.len()
        invariant
            i <= values.len(),
            lines.len() == i,
            forall|j: int| 0 <= j < i ==> (#[trigger] lines[j])@ == signed_decimal(values[j] as int),
        decreases values.len() - i,
    {
        lines.push(integer_text(values[i]));
        i = i + 1;
    }
    assert(texts_of(lines@) =~= output_lines(values@));
    lines
}

/// An instruction for inspection: its mnemonic in square brackets, with the
/// operand where it has one.
pub open spec fn instruction_text(op: OpCode) -> Seq<char> {
    match op {
        OpCode::Add => "[ADD]"@,
        OpCode::Sub => "[SUB]"@,
        OpCode::Mult => "[MULT]"@,
        OpCode::Div => "[DIV]"@,
        OpCode::Print => "[PRINT]"@,
        OpCode::Store(byte) => "[STORE "@ + decimal(byte as nat) + "]"@,
        OpCode::LoadVar(byte) => "[LOAD_VAR "@ + decimal(byte as nat) + "]"@,
        OpCode::LoadConst(byte) => "[LOAD_CONST "@ + decimal(byte as nat) + "]"@,
        OpCode::Extend(byte) => "[EXTEND "@ + decimal(byte as nat) + "]"@,
    }
}

/// A mnemonic with its operand, in square brackets.
fn with_operand(mnemonic: &str, byte: u8) -> (s: String)
    ensures
        s@ == mnemonic@ + decimal(byte as nat) + "]"@,
{
    let mut s = String::from_str(mnemonic);
    let operand = natural_text(byte as u64);
    s.append(operand.as_str());
    s.append("]");
    s
}

impl OpCode {
    /// The instruction for inspection.
    pub fn to_string(&self) -> (s: String)
        ensures
            s@ == instruction_text(*self),
    {
        match self {
            OpCode::Add => String::from_str("[ADD]"),
            OpCode::Sub => String::from_str("[SUB]"),
            OpCode::Mult => String::from_str("[MULT]"),
            OpCode::Div => String::from_str("[DIV]"),
            OpCode::Print => String::from_str("[PRINT]"),
            OpCode::Store(idx) => with_operand("[STORE ", *idx),
            OpCode::LoadVar(idx) => with_operand("[LOAD_VAR ", *idx),
            OpCode::LoadConst(idx) => with_operand("[LOAD_CONST ", *idx),
            OpCode::Extend(idx) => with_operand("[EXTEND ", *idx),
        }
    }
}

/// The lines of a compiled unit for inspection: the number of constants,
/// the number of new slots, then one line for each instruction.
pub open spec fn dump_lines(chunk: Chunk) -> Seq<Seq<char>> {
    seq![
        "constant_size="@ + decimal(chunk.constant_pool@.len()),
        "variable_size="@ + decimal(chunk.variable_size as nat),
    ] + chunk.program@.map_values(|op: OpCode| instruction_text(op))
}

/// The texts that a vector of strings holds.
pub open spec fn texts_of(lines: Seq<String>) -> Seq<Seq<char>> {
    lines.map_values(|s: String| s@)
}

impl Chunk {
    /// The unit for inspection, line by line.
    pub fn dump(&self) -> (lines: Vec<String>)
        ensures
            texts_of(lines@) == dump_lines(*self),
    {
        let mut lines: Vec<String> = Vec::new();
        let mut first = String::from_str("constant_size=");
        first.append(natural_text(self.constant_pool.len() as u64).as_str());
        lines.push(first);
        let mut second = String::from_str("variable_size=");
        second.append(natural_text(self.variable_size as u64).as_str());
        lines.push(second);
        let mut i: usize = 0;
        while i < self.program.len()
            invariant
                i <= self.program.len(),
                lines.len() == i + 2,
                lines[0]@ == "constant_size="@ + decimal(self.constant_pool@.len()),
                lines[1]@ == "variable_size="@ + decimal(self.variable_size as nat),
                forall|j: int| 0 <= j < i ==> (#[trigger] lines[j + 2])@ == instruction_text(
                    self.program[j],
                ),
            decreases self.program.len() - i,
        {
            let line = self.program[i].to_string();
            lines.push(line);
            i = i + 1;
        }
        proof {
            let expected = dump_lines(*self);
            assert(expected.len() == lines.len());
            assert forall|k: int| 0 <= k < lines.len() implies texts_of(lines@)[k]
                == expected[k] by {
                if k >= 2 {
                    assert(lines[(k - 2) + 2]@ == instruction_text(self.program[k - 2]));
                }
            }
            assert(texts_of(lines@) =~= expected);
        }
        lines
    }
}

/// A position for reports: line, then column, in square brackets.
pub open spec fn position_text(at: TokenIndex, separator: Seq<char>) -> Seq<char> {
    "["@ + decimal(at.line_number as nat) + separator + decimal(at.index as nat) + "]"@
}

/// Writes a position with the given separator between line and column.
fn position_with(at: &TokenIndex, separator: &str) -> (s: String)
    ensures
        s@ == position_text(*at, separator@),
{
    let mut s = String::from_str("[");
    s.append(natural_text(at.line_number as u64).as_str());
    s.append(separator);
    s.append(natural_text(at.index as u64).as_str());
    s.append("]");
    s
}

impl TokenIndex {
    /// The position for reports: `[line,column]`.
    pub fn to_string(&self) -> (s: String)
        ensures
            s@ == position_text(*self, ","@),
    {
        position_with(self, ",")
    }
}

/// The name of a kind of token, for reports.
pub open spec fn kind_name(lexeme: Lexeme) -> Seq<char> {
    match lexeme {
        Lexeme::Op(_, _) => "Binary operator"@,
        Lexeme::Number(_, _) => "Number"@,
        Lexeme::LBracket(_) => "("@,
        Lexeme::RBracket(_) => ")"@,
        Lexeme::Print(_) => "print keyword"@,
        Lexeme::Var(_) => "var keyword"@,
        Lexeme::Equals(_) => "equals"@,
        Lexeme::Identifier(_, _) => "identifier"@,
        Lexeme::Semicolon(_) => "semicolon"@,
        Lexeme::EOF(_) => "EOF"@,
    }
}

/// An operator character as text; no text for any other character.
pub open spec fn operator_symbol(c: char) -> Seq<char> {
    if crate::ast::is_operator(c) {
        seq![c]
    } else {
        Seq::empty()
    }
}

/// A token for reports: what it is, what it carries, and where it starts,
/// in angle brackets.
pub open spec fn token_text(lexeme: Lexeme) -> Seq<char> {
    match lexeme {
        Lexeme::Op(c, at) => "<operator "@ + operator_symbol(c) + " "@ + position_text(at, ","@)
            + ">"@,
        Lexeme::Number(value, at) => "<Number "@ + signed_decimal(value as int) + " "@
            + position_text(at, ","@) + ">"@,
        Lexeme::LBracket(at) => "<( "@ + position_text(at, ", "@) + ">"@,
        Lexeme::RBracket(at) => "<) "@ + position_text(at, ", "@) + ">"@,
        Lexeme::Print(at) => "<print "@ + position_text(at, ", "@) + ">"@,
        Lexeme::Var(at) => "<var "@ + position_text(at, ","@) + ">"@,
        Lexeme::Equals(at) => "<= "@ + position_text(at, ", "@) + ">"@,
        Lexeme::Identifier(name, at) => "<variable "@ + name + " "@ + position_text(at, ","@)
            + ">"@,
        Lexeme::Semicolon(at) => "<; "@ + position_text(at, ","@) + ">"@,
        Lexeme::EOF(at) => "<EOF "@ + position_text(at, ", "@) + ">"@,
    }
}

/// The text of an operator character; the empty text for any other.
fn operator_text(c: char) -> (s: &'static str)
    ensures
        s@ == operator_symbol(c),
{
    proof {
        reveal_strlit("+");
        reveal_strlit("-");
        reveal_strlit("*");
        reveal_strlit("/");
        reveal_strlit("");
    }
    let s = if c == '+' {
        "+"
    } else if c == '-' {
        "-"
    } else if c == '*' {
        "*"
    } else if c == '/' {
        "/"
    } else {
        ""
    };
    assert(s@ =~= operator_symbol(c));
    s
}

/// Writes what stands between the angle brackets of a token.
fn bracketed(open: &str, payload: &str, at: &TokenIndex, separator: &str) -> (s: String)
    ensures
        s@ == open@ + payload@ + position_text(*at, separator@) + ">"@,
{
    let mut s = String::from_str(open);
    s.append(payload);
    s.append(position_with(at, separator).as_str());
    s.append(">");
    s
}

impl Token {
    /// The name of the kind of the token.
    pub fn get_token_type_name(&self) -> (s: String)
        ensures
            s@ == kind_name(self@),
    {
        String::from_str(
            match self {
                Token::Op(_, _) => "Binary operator",
                Token::Number(_, _) => "Number",
                Token::LBracket(_) => "(",
                Token::RBracket(_) => ")",
                Token::Print(_) => "print keyword",
                Token::Var(_) => "var keyword",
                Token::Equals(_) => "equals",
                Token::Identifier(_, _) => "identifier",
                Token::Semicolon(_) => "semicolon",
                Token::EOF(_) => "EOF",
            },
        )
    }

    /// The token for reports.
    pub fn to_string(&self) -> (s: String)
        ensures
            s@ == token_text(self@),
    {
        proof {
            reveal_strlit("");
        }
        let s = match self {
            Token::Op(c, r) => {
                let mut payload = String::from_str(operator_text(*c));
                payload.append(" ");
                bracketed("<operator ", payload.as_str(), r, ",")
            },
            Token::Number(n, r) => {
                let mut payload = integer_text(*n);
                payload.append(" ");
                bracketed("<Number ", payload.as_str(), r, ",")
            },
            Token::LBracket(r) => bracketed("<( ", "", r, ", "),
            Token::RBracket(r) => bracketed("<) ", "", r, ", "),
            Token::Print(r) => bracketed("<print ", "", r, ", "),
            Token::Var(r) => bracketed("<var ", "", r, ","),
            Token::Equals(r) => bracketed("<= ", "", r, ", "),
            Token::Identifier(name, r) => {
                let mut payload = name.clone();
                payload.append(" ");
                bracketed("<variable ", payload.as_str(), r, ",")
            },
            Token::Semicolon(r) => bracketed("<; ", "", r, ","),
            Token::EOF(r) => bracketed("<EOF ", "", r, ", "),
        };
        assert(s@ =~= token_text(self@));
        s
    }
}

/// A tree as an s-expression: an operator before its operands, a print and
/// an assignment in brackets, `Nil` for the value of a declaration without
/// one, and each statement of a program on a line of its own.
pub open spec fn rendering(e: Tree) -> Seq<char>
    decreases e, e.children.len() + 1,
{
    match e.kind {
        Kind::Op(c) => "("@ + seq![c] + " "@ + rendering_of_child(e, 0) + " "@ + rendering_of_child(
            e,
            1,
        ) + ")"@,
        Kind::Literal(value) => signed_decimal(value as int),
        Kind::Variable(name) => name,
        Kind::PrintStmt => "(print "@ + rendering_of_child(e, 0) + ")"@,
        Kind::AssignStmt(name) => "(= "@ + name + " "@ + rendering_of_child(e, 0) + ")"@,
        Kind::VarDeclStmt(name) => "(= "@ + name + " "@ + (if e.children.len() == 0 {
            "Nil"@
        } else {
            rendering_of_child(e, 0)
        }) + ")"@,
        Kind::Program => rendering_of_statements(e, e.children.len()),
    }
}

/// The s-expression of a child; the empty text where there is no such child.
pub open spec fn rendering_of_child(e: Tree, i: nat) -> Seq<char>
    decreases e, 0nat,
{
    if i < e.children.len() {
        rendering(e.children[i as int])
    } else {
        Seq::empty()
    }
}

/// The s-expressions of the first `count` statements of a program, a line
/// break behind each.
pub open spec fn rendering_of_statements(e: Tree, count: nat) -> Seq<char>
    decreases e, count,
{
    if count == 0 || count > e.children.len() {
        Seq::empty()
    } else {
        rendering_of_statements(e, (count - 1) as nat) + rendering(e.children[count - 1]) + "\n"@
    }
}

/// Writes a tree as an s-expression.
pub fn visit(program: &Expr) -> (s: String)
    requires
        well_formed(program@),
    ensures
        s@ == rendering(program@),
    decreases *program,
{
    _visit(program)
}

/// Writes a tree as an s-expression.
fn _visit(item: &Expr) -> (s: String)
    requires
        well_formed(item@),
    ensures
        s@ == rendering(item@),
    decreases *item,
{
    proof {
        if item.children.len() > 0 {
            lemma_tree_of_child(*item, 0);
        }
        if item.children.len() > 1 {
            lemma_tree_of_child(*item, 1);
        }
    }
    match &item.expr_type {
        ExprType::Op(c) => {
            let mut s = String::from_str("(");
            s.append(operator_text(*c));
            s.append(" ");
            s.append(_visit(&item.children[0]).as_str());
            s.append(" ");
            s.append(_visit(&item.children[1]).as_str());
            s.append(")");
            s
        },
        ExprType::Literal(i) => integer_text(*i),
        ExprType::Variable(name) => name.clone(),
        ExprType::PrintStmt => {
            let mut s = String::from_str("(print ");
            s.append(_visit(&item.children[0]).as_str());
            s.append(")");
            s
        },
        ExprType::AssignStmt(name) => {
            let mut s = String::from_str("(= ");
            s.append(name.as_str());
            s.append(" ");
            s.append(_visit(&item.children[0]).as_str());
            s.append(")");
            s
        },
        ExprType::VarDeclStmt(name) => {
            let mut s = String::from_str("(= ");
            s.append(name.as_str());
            s.append(" ");
            if item.children.len() == 0 {
                s.append("Nil");
            } else {
                s.append(_visit(&item.children[0]).as_str());
            }
            s.append(")");
            s
        },
        ExprType::Program => {
            let mut s = String::new();
            let mut i: usize = 0;
            while i < item.children.len()
                invariant
                    i <= item.children.len(),
                    well_formed(item@),
                    s@ == rendering_of_statements(item@, i as nat),
                decreases item.children.len() - i,
            {
                proof {
                    lemma_tree_of_child(*item, i as int);
                }
                s.append(_visit(&item.children[i]).as_str());
                s.append("\n");
                i = i + 1;
            }
            s
        },
    }
}

/// The report of a rejected program.
pub open spec fn compile_message(fault: CompileFault) -> Seq<char> {
    match fault {
        CompileFault::Undeclared(name) => "undeclared variable "@ + name,
        CompileFault::Redeclared(name) => "redefinition of variable "@ + name,
        CompileFault::Unknown(name) => "unknown variable "@ + name,
    }
}

impl CompileError {
    /// The report of the error.
    pub fn message(&self) -> (s: String)
        ensures
            s@ == compile_message(self@),
    {
        match self {
            CompileError::Undeclared(name) => String::from_str("undeclared variable ").concat(
                name.as_str(),
            ),
            CompileError::Redeclared(name) => String::from_str("redefinition of variable ").concat(
                name.as_str(),
            ),
            CompileError::Unknown(name) => String::from_str("unknown variable ").concat(
                name.as_str(),
            ),
        }
    }
}

/// The report of a fault.
pub open spec fn runtime_message(fault: RuntimeError) -> Seq<char> {
    match fault {
        RuntimeError::StackUnderflow => "stack underflow"@,
        RuntimeError::DivisionByZero => "zero division"@,
        RuntimeError::IndexOutOfRange => "value indexation error"@,
    }
}

impl RuntimeError {
    /// The report of the fault.
    pub fn message(&self) -> (s: String)
        ensures
            s@ == runtime_message(*self),
    {
        match self {
            RuntimeError::StackUnderflow => String::from_str("stack underflow"),
            RuntimeError::DivisionByZero => String::from_str("zero division"),
            RuntimeError::IndexOutOfRange => String::from_str("value indexation error"),
        }
    }
}

/// The report of a text that is not made of tokens. The character that
/// starts no token is quoted from the text, where the text holds it.
pub open spec fn lex_message(error: LexError, text: Seq<char>) -> Seq<char> {
    match error {
        LexError::UnknownCharacter(_, at) => "unknown character "@ + (if at < text.len() {
            text.subrange(at as int, at + 1)
        } else {
            Seq::empty()
        }) + " at "@ + decimal(at as nat),
        LexError::UnterminatedComment(at) => "lexer error: unterminated multiline comment starting at "@
            + position_text(at, ","@),
        LexError::NumberTooLarge(at) => "lexer error: number out of range at "@ + position_text(
            at,
            ","@,
        ),
    }
}

impl LexError {
    /// The report of the error, for the text that was tokenized.
    pub fn message(&self, text: &str) -> (s: String)
        ensures
            s@ == lex_message(*self, text@),
    {
        match self {
            LexError::UnknownCharacter(_, at) => {
                let mut s = String::from_str("unknown character ");
                if *at < text.unicode_len() {
                    s.append(text.substring_char(*at, *at + 1));
                } else {
                    proof {
                        reveal_strlit("");
                    }
                    s.append("");
                }
                s.append(" at ");
                s.append(natural_text(*at as u64).as_str());
                s
            },
            LexError::UnterminatedComment(at) => String::from_str(
                "lexer error: unterminated multiline comment starting at ",
            ).concat(position_with(at, ",").as_str()),
            LexError::NumberTooLarge(at) => String::from_str(
                "lexer error: number out of range at ",
            ).concat(position_with(at, ",").as_str()),
        }
    }
}

/// The name of a kind of token, for reports.
pub open spec fn name_of_kind(kind: TokenKind) -> Seq<char> {
    match kind {
        TokenKind::Op => "Binary operator"@,
        TokenKind::Number => "Number"@,
        TokenKind::LBracket => "("@,
        TokenKind::RBracket => ")"@,
        TokenKind::Print => "print keyword"@,
        TokenKind::Var => "var keyword"@,
        TokenKind::Equals => "equals"@,
        TokenKind::Identifier => "identifier"@,
        TokenKind::Semicolon => "semicolon"@,
        TokenKind::EOF => "EOF"@,
    }
}

/// The text of the token at an index; no text where there is no such token.
pub open spec fn token_text_at(tokens: Seq<Lexeme>, index: usize) -> Seq<char> {
    if index < tokens.len() {
        token_text(tokens[index as int])
    } else {
        Seq::empty()
    }
}

/// The position of the token at an index; no text where there is no such
/// token.
pub open spec fn position_text_at(tokens: Seq<Lexeme>, index: usize) -> Seq<char> {
    if index < tokens.len() {
        position_text(tokens[index as int].position(), ","@)
    } else {
        Seq::empty()
    }
}

/// What was wrong, in words.
pub open spec fn reason_message(reason: ParseReason, tokens: Seq<Lexeme>) -> Seq<char> {
    match reason {
        ParseReason::UnexpectedEnd => "unexpected end"@,
        ParseReason::Expected(kind, found) => "Expected "@ + name_of_kind(kind) + ", got "@
            + token_text_at(tokens, found),
        ParseReason::UnclosedBracket(opened) => "expected ')' for opening '(' at "@
            + position_text_at(tokens, opened),
        ParseReason::UnexpectedToken(found) => "unexpected token "@ + token_text_at(tokens, found),
    }
}

/// The line that names the statement part, where the error has one.
pub open spec fn context_message(context: ParseContext, tokens: Seq<Lexeme>) -> Seq<char> {
    match context {
        ParseContext::Plain => Seq::empty(),
        ParseContext::AfterPrint(at) => "\nexpected expression after print at "@
            + position_text_at(tokens, at),
        ParseContext::InAssignment(at) => "\nexpected expression in assignment at "@
            + position_text_at(tokens, at) + "\n"@,
    }
}

/// The report of a parse error, for the tokens that were parsed.
pub open spec fn parse_message(error: ParseError, tokens: Seq<Lexeme>) -> Seq<char> {
    reason_message(error.reason, tokens) + context_message(error.context, tokens)
}

/// Writes the token at an index.
fn token_at(tokens: &Vec<Token>, index: usize) -> (s: String)
    ensures
        s@ == token_text_at(lexemes_of(tokens@), index),
{
    if index < tokens.len() {
        tokens[index].to_string()
    } else {
        String::new()
    }
}

/// Writes the position of the token at an index.
fn position_at(tokens: &Vec<Token>, index: usize) -> (s: String)
    ensures
        s@ == position_text_at(lexemes_of(tokens@), index),
{
    if index < tokens.len() {
        tokens[index].get_pos().to_string()
    } else {
        String::new()
    }
}

/// Writes the name of a kind of token.
fn kind_text(kind: TokenKind) -> (s: &'static str)
    ensures
        s@ == name_of_kind(kind),
{
    match kind {
        TokenKind::Op => "Binary operator",
        TokenKind::Number => "Number",
        TokenKind::LBracket => "(",
        TokenKind::RBracket => ")",
        TokenKind::Print => "print keyword",
        TokenKind::Var => "var keyword",
        TokenKind::Equals => "equals",
        TokenKind::Identifier => "identifier",
        TokenKind::Semicolon => "semicolon",
        TokenKind::EOF => "EOF",
    }
}

impl ParseError {
    /// The report of the error, for the tokens that were parsed.
    pub fn message(&self, tokens: &Vec<Token>) -> (s: String)
        ensures
            s@ == parse_message(*self, lexemes_of(tokens@)),
    {
        let mut s = match self.reason {
            ParseReason::UnexpectedEnd => String::from_str("unexpected end"),
            ParseReason::Expected(kind, found) => {
                let mut s = String::from_str("Expected ");
                s.append(kind_text(kind));
                s.append(", got ");
                s.append(token_at(tokens, found).as_str());
                s
            },
            ParseReason::UnclosedBracket(opened) => String::from_str(
                "expected ')' for opening '(' at ",
            ).concat(position_at(tokens, opened).as_str()),
            ParseReason::UnexpectedToken(found) => String::from_str("unexpected token ").concat(
                token_at(tokens, found).as_str(),
            ),
        };
        match self.context {
            ParseContext::Plain => {
                assert(s@ + Seq::<char>::empty() =~= s@);
            },
            ParseContext::AfterPrint(at) => {
                s.append("\nexpected expression after print at ");
                s.append(position_at(tokens, at).as_str());
                assert(s@ =~= parse_message(*self, lexemes_of(tokens@)));
            },
            ParseContext::InAssignment(at) => {
                s.append("\nexpected expression in assignment at ");
                s.append(position_at(tokens, at).as_str());
                s.append("\n");
                assert(s@ =~= parse_message(*self, lexemes_of(tokens@)));
            },
        }
        s
    }
}

/// The report of every error of a parse: each error behind a line break.
pub open spec fn parse_report(errors: Seq<ParseError>, tokens: Seq<Lexeme>) -> Seq<char>
    decreases errors.len(),
{
    if errors.len() == 0 {
        Seq::empty()
    } else {
        parse_report(errors.drop_last(), tokens) + "\n"@ + parse_message(errors.last(), tokens)
    }
}

/// Writes the report of every error of a parse.
pub fn report(errors: &Vec<ParseError>, tokens: &Vec<Token>) -> (s: String)
    ensures
        s@ == parse_report(errors@, lexemes_of(tokens@)),
{
    let mut s = String::new();
    let mut i: usize = 0;
    while i < errors.len()
        invariant
            i <= errors.len(),
            s@ == parse_report(errors@.take(i as int), lexemes_of(tokens@)),
        decreases errors.len() - i,
    {
        proof {
            assert(errors@.take(i + 1).drop_last() =~= errors@.take(i as int));
        }
        s.append("\n");
        s.append(errors[i].message(tokens).as_str());
        i = i + 1;
    }
    assert(errors@.take(i as int) =~= errors@);
    s
}

} // verus!
