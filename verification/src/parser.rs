//! The parser: tokens to a syntax tree, by recursive descent.
//!
//! ```text
//! program:  statement* EOF
//! statement: 'print' sum ';' | 'var' NAME ('=' sum)? ';' | NAME '=' sum ';'
//! sum:      product (('+' | '-') product)*
//! product:  term (('*' | '/') term)*
//! term:     NUMBER | NAME | '(' sum ')'
//! ```
//!
//! Operators of one level group to the left. After a statement that does
//! not parse, the parser skips to behind the next `;` and goes on, so that
//! one pass reports every bad statement.
//!
//! The functions of the grammar call each other in a circle. Each of them
//! ends behind where it started, and the definitions test for this before
//! they go on (`moves_on`), which makes them visibly well founded. The test
//! never fails: `parser_laws` proves it of every function here.

use vstd::prelude::*;
use crate::ast::{Expr, ExprType, Kind, Tree};
use crate::lexer::{lexemes_of, Lexeme, Token};

verus! {

/// The kind of a token, without what it carries.
#[derive(Copy, Clone, Debug, PartialEq, Eq, Structural)]
pub enum TokenKind {
    Op,
    Number,
    LBracket,
    RBracket,
    Print,
    Var,
    Equals,
    Identifier,
    Semicolon,
    EOF,
}

/// What was wrong where a statement stopped parsing. Tokens are given by
/// their index in the token sequence.
#[derive(Copy, Clone, Debug, PartialEq, Eq, Structural)]
pub enum ParseReason {
    /// The tokens ended where one more was needed.
    UnexpectedEnd,
    /// A token of the first kind was needed where that of the given index
    /// stands.
    Expected(TokenKind, usize),
    /// The `(` at the given index has no `)`.
    UnclosedBracket(usize),
    /// No term and no statement starts with the token at the given index.
    UnexpectedToken(usize),
}

/// The statement part whose expression was being parsed when it went wrong.
#[derive(Copy, Clone, Debug, PartialEq, Eq, Structural)]
pub enum ParseContext {
    /// No part that is named in reports.
    Plain,
    /// The expression behind the `print` at the given index.
    AfterPrint(usize),
    /// The expression behind the `=` at the given index, in an assignment.
    InAssignment(usize),
}

/// One parse error.
#[derive(Copy, Clone, Debug, PartialEq, Eq, Structural)]
pub struct ParseError {
    pub reason: ParseReason,
    pub context: ParseContext,
}

/// A tree that was parsed and the index of the first token behind it.
pub ghost struct Parsed {
    pub tree: Tree,
    pub next: nat,
}

/// An error and the index of the first token that was not taken when it
/// was met.
pub ghost struct Stopped {
    pub error: ParseError,
    pub at: nat,
}

/// What one function of the grammar yields.
pub type Step = Result<Parsed, Stopped>;

/// The kind of a token.
pub open spec fn kind_of(lexeme: Lexeme) -> TokenKind {
    match lexeme {
        Lexeme::Op(_, _) => TokenKind::Op,
        Lexeme::Number(_, _) => TokenKind::Number,
        Lexeme::LBracket(_) => TokenKind::LBracket,
        Lexeme::RBracket(_) => TokenKind::RBracket,
        Lexeme::Print(_) => TokenKind::Print,
        Lexeme::Var(_) => TokenKind::Var,
        Lexeme::Equals(_) => TokenKind::Equals,
        Lexeme::Identifier(_, _) => TokenKind::Identifier,
        Lexeme::Semicolon(_) => TokenKind::Semicolon,
        Lexeme::EOF(_) => TokenKind::EOF,
    }
}

/// An error without a named statement part.
pub open spec fn plain(reason: ParseReason) -> ParseError {
    ParseError { reason, context: ParseContext::Plain }
}

/// A stop with a plain error.
pub open spec fn stop(reason: ParseReason, at: nat) -> Step {
    Err(Stopped { error: plain(reason), at })
}

/// A tree without children.
pub open spec fn leaf(kind: Kind) -> Tree {
    Tree { kind, children: Seq::empty() }
}

/// Takes one token, which must be of the given kind. The token is taken
/// even when it is of another kind.
pub open spec fn expect(tokens: Seq<Lexeme>, pos: nat, kind: TokenKind) -> Result<nat, Stopped> {
    if pos >= tokens.len() {
        Err(Stopped { error: plain(ParseReason::UnexpectedEnd), at: pos })
    } else if kind_of(tokens[pos as int]) == kind {
        Ok(pos + 1)
    } else {
        Err(Stopped { error: plain(ParseReason::Expected(kind, pos as usize)), at: pos + 1 })
    }
}

/// Whether the token at `pos` is one of two operators.
pub open spec fn operator_at(tokens: Seq<Lexeme>, pos: nat, one: char, other: char) -> bool {
    pos < tokens.len() && match tokens[pos as int] {
        Lexeme::Op(c, _) => c == one || c == other,
        _ => false,
    }
}

/// The operator character of the token at `pos`.
pub open spec fn operator_of(tokens: Seq<Lexeme>, pos: nat) -> char {
    tokens[pos as int]->Op_0
}

/// An operator node over two operands.
pub open spec fn joined(c: char, left: Tree, right: Tree) -> Tree {
    Tree { kind: Kind::Op(c), children: seq![left, right] }
}

/// Whether `next` lies behind `pos` and not behind the end of the tokens.
pub open spec fn moves_on(tokens: Seq<Lexeme>, pos: nat, next: nat) -> bool {
    pos < next <= tokens.len()
}

/// `term: NUMBER | NAME | '(' sum ')'`
pub open spec fn parse_term(tokens: Seq<Lexeme>, pos: nat) -> Step
    decreases tokens.len() - pos, 0nat,
{
    if pos >= tokens.len() {
        stop(ParseReason::UnexpectedEnd, pos)
    } else {
        match tokens[pos as int] {
            Lexeme::Number(value, _) => Ok(Parsed { tree: leaf(Kind::Literal(value)), next: pos + 1 }),
            Lexeme::Identifier(name, _) => Ok(
                Parsed { tree: leaf(Kind::Variable(name)), next: pos + 1 },
            ),
            Lexeme::LBracket(_) => match parse_sum(tokens, pos + 1) {
                Ok(inner) => {
                    if inner.next >= tokens.len() {
                        stop(ParseReason::UnexpectedEnd, inner.next)
                    } else if tokens[inner.next as int] is RBracket {
                        Ok(Parsed { tree: inner.tree, next: inner.next + 1 })
                    } else {
                        stop(ParseReason::UnclosedBracket(pos as usize), inner.next + 1)
                    }
                },
                Err(stopped) => Err(stopped),
            },
            _ => stop(ParseReason::UnexpectedToken(pos as usize), pos),
        }
    }
}

/// The rest of a product whose operands so far make up `left`.
pub open spec fn product_rest(tokens: Seq<Lexeme>, left: Tree, pos: nat) -> Step
    decreases tokens.len() - pos, 1nat,
{
    if operator_at(tokens, pos, '*', '/') {
        match parse_term(tokens, pos + 1) {
            Ok(right) => {
                let tree = joined(operator_of(tokens, pos), left, right.tree);
                if moves_on(tokens, pos, right.next) {
                    product_rest(tokens, tree, right.next)
                } else {
                    Ok(Parsed { tree, next: right.next })
                }
            },
            Err(stopped) => Err(stopped),
        }
    } else {
        Ok(Parsed { tree: left, next: pos })
    }
}

/// `product: term (('*' | '/') term)*`
pub open spec fn parse_product(tokens: Seq<Lexeme>, pos: nat) -> Step
    decreases tokens.len() - pos, 2nat,
{
    match parse_term(tokens, pos) {
        Ok(first) => if moves_on(tokens, pos, first.next) {
            product_rest(tokens, first.tree, first.next)
        } else {
            Ok(first)
        },
        Err(stopped) => Err(stopped),
    }
}

/// The rest of a sum whose operands so far make up `left`.
pub open spec fn sum_rest(tokens: Seq<Lexeme>, left: Tree, pos: nat) -> Step
    decreases tokens.len() - pos, 3nat,
{
    if operator_at(tokens, pos, '+', '-') {
        match parse_product(tokens, pos + 1) {
            Ok(right) => {
                let tree = joined(operator_of(tokens, pos), left, right.tree);
                if moves_on(tokens, pos, right.next) {
                    sum_rest(tokens, tree, right.next)
                } else {
                    Ok(Parsed { tree, next: right.next })
                }
            },
            Err(stopped) => Err(stopped),
        }
    } else {
        Ok(Parsed { tree: left, next: pos })
    }
}

/// `sum: product (('+' | '-') product)*`
pub open spec fn parse_sum(tokens: Seq<Lexeme>, pos: nat) -> Step
    decreases tokens.len() - pos, 4nat,
{
    match parse_product(tokens, pos) {
        Ok(first) => if moves_on(tokens, pos, first.next) {
            sum_rest(tokens, first.tree, first.next)
        } else {
            Ok(first)
        },
        Err(stopped) => Err(stopped),
    }
}

/// The same step with its error, if any, put in a context.
pub open spec fn in_context(step: Step, context: ParseContext) -> Step {
    match step {
        Ok(parsed) => Ok(parsed),
        Err(stopped) => Err(
            Stopped { error: ParseError { reason: stopped.error.reason, context }, at: stopped.at },
        ),
    }
}

/// A statement node over one expression, closed by the `;` that must follow
/// the expression.
pub open spec fn closed(tokens: Seq<Lexeme>, kind: Kind, value: Step) -> Step {
    match value {
        Ok(parsed) => match expect(tokens, parsed.next, TokenKind::Semicolon) {
            Ok(next) => Ok(Parsed { tree: Tree { kind, children: seq![parsed.tree] }, next }),
            Err(stopped) => Err(stopped),
        },
        Err(stopped) => Err(stopped),
    }
}

/// `'print' sum ';'`, at a `print` token.
pub open spec fn parse_print(tokens: Seq<Lexeme>, pos: nat) -> Step {
    closed(
        tokens,
        Kind::PrintStmt,
        in_context(parse_sum(tokens, pos + 1), ParseContext::AfterPrint(pos as usize)),
    )
}

/// `'var' NAME ('=' sum)? ';'`, at a `var` token.
pub open spec fn parse_declaration(tokens: Seq<Lexeme>, pos: nat) -> Step {
    match expect(tokens, pos + 1, TokenKind::Identifier) {
        Ok(after_name) => {
            let kind = Kind::VarDeclStmt(tokens[pos as int + 1]->Identifier_0);
            if after_name < tokens.len() && tokens[after_name as int] is Equals {
                closed(tokens, kind, parse_sum(tokens, after_name + 1))
            } else {
                match expect(tokens, after_name, TokenKind::Semicolon) {
                    Ok(next) => Ok(Parsed { tree: leaf(kind), next }),
                    Err(stopped) => Err(stopped),
                }
            }
        },
        Err(stopped) => Err(stopped),
    }
}

/// `NAME '=' sum ';'`, at a name.
pub open spec fn parse_assignment(tokens: Seq<Lexeme>, pos: nat) -> Step {
    match expect(tokens, pos + 1, TokenKind::Equals) {
        Ok(after_equals) => closed(
            tokens,
            Kind::AssignStmt(tokens[pos as int]->Identifier_0),
            in_context(
                parse_sum(tokens, after_equals),
                ParseContext::InAssignment((pos + 1) as usize),
            ),
        ),
        Err(stopped) => Err(stopped),
    }
}

/// One statement, at a token.
pub open spec fn parse_statement(tokens: Seq<Lexeme>, pos: nat) -> Step {
    match tokens[pos as int] {
        Lexeme::Print(_) => parse_print(tokens, pos),
        Lexeme::Var(_) => parse_declaration(tokens, pos),
        Lexeme::Identifier(_, _) => parse_assignment(tokens, pos),
        _ => stop(ParseReason::UnexpectedToken(pos as usize), pos),
    }
}

/// Where parsing resumes after an error that stopped at `at`: behind the
/// first `;` from there on, or at the end of the tokens.
pub open spec fn resume(tokens: Seq<Lexeme>, at: nat) -> nat
    decreases tokens.len() - at,
{
    if at >= tokens.len() {
        tokens.len()
    } else if tokens[at as int] is Semicolon {
        at + 1
    } else {
        resume(tokens, at + 1)
    }
}

/// What a pass over the statements has gathered.
pub ghost struct Gathered {
    pub statements: Seq<Tree>,
    pub errors: Seq<ParseError>,
}

/// The statements and the errors of the tokens from `pos` on, behind those
/// gathered before. The pass ends at the end-of-input token or where the
/// tokens end.
pub open spec fn parse_statements(tokens: Seq<Lexeme>, pos: nat, so_far: Gathered) -> Gathered
    decreases tokens.len() - pos,
{
    if pos >= tokens.len() || tokens[pos as int] is EOF {
        so_far
    } else {
        match parse_statement(tokens, pos) {
            Ok(parsed) => if moves_on(tokens, pos, parsed.next) {
                parse_statements(
                    tokens,
                    parsed.next,
                    Gathered { statements: so_far.statements.push(parsed.tree), ..so_far },
                )
            } else {
                so_far
            },
            Err(stopped) => {
                let next = resume(tokens, stopped.at);
                if moves_on(tokens, pos, next) {
                    parse_statements(
                        tokens,
                        next,
                        Gathered { errors: so_far.errors.push(stopped.error), ..so_far },
                    )
                } else {
                    so_far
                }
            },
        }
    }
}

/// The program that a token sequence writes, or every error in it, in the
/// order of the statements.
pub open spec fn parse_tokens(tokens: Seq<Lexeme>) -> Result<Tree, Seq<ParseError>> {
    let all = parse_statements(
        tokens,
        0,
        Gathered { statements: Seq::empty(), errors: Seq::empty() },
    );
    if all.errors.len() == 0 {
        Ok(Tree { kind: Kind::Program, children: all.statements })
    } else {
        Err(all.errors)
    }
}

/// Whether an executable result is the given step from `pos`.
pub open spec fn step_matches(
    result: Result<(Expr, usize), (ParseError, usize)>,
    step: Step,
    tokens: Seq<Lexeme>,
    pos: nat,
) -> bool {
    match step {
        Ok(parsed) => {
            &&& result is Ok
            &&& result->Ok_0.0@ == parsed.tree
            &&& result->Ok_0.1 == parsed.next
            &&& pos < parsed.next <= tokens.len()
        },
        Err(stopped) => {
            &&& result is Err
            &&& result->Err_0.0 == stopped.error
            &&& result->Err_0.1 == stopped.at
            &&& pos <= stopped.at <= tokens.len()
        },
    }
}

/// The trees of a vector of nodes.
pub open spec fn trees_of(nodes: Seq<Expr>) -> Seq<Tree> {
    nodes.map_values(|e: Expr| e@)
}

/// The kind of a token.
pub fn kind(token: &Token) -> (kind: TokenKind)
    ensures
        kind == kind_of(token@),
{
    match token {
        Token::Op(_, _) => TokenKind::Op,
        Token::Number(_, _) => TokenKind::Number,
        Token::LBracket(_) => TokenKind::LBracket,
        Token::RBracket(_) => TokenKind::RBracket,
        Token::Print(_) => TokenKind::Print,
        Token::Var(_) => TokenKind::Var,
        Token::Equals(_) => TokenKind::Equals,
        Token::Identifier(_, _) => TokenKind::Identifier,
        Token::Semicolon(_) => TokenKind::Semicolon,
        Token::EOF(_) => TokenKind::EOF,
    }
}

/// A node without children.
fn leaf_node(expr_type: ExprType) -> (e: Expr)
    ensures
        e@ == leaf(expr_type@),
{
    let e = Expr { expr_type, children: Vec::new() };
    assert(e@.children =~= Seq::<Tree>::empty());
    e
}

/// A node over one child.
fn unary_node(expr_type: ExprType, child: Expr) -> (e: Expr)
    ensures
        e@ == (Tree { kind: expr_type@, children: seq![child@] }),
{
    let mut children: Vec<Expr> = Vec::new();
    children.push(child);
    let e = Expr { expr_type, children };
    assert(e@.children =~= seq![child@]);
    e
}

/// An operator node over two operands.
fn binary_node(c: char, left: Expr, right: Expr) -> (e: Expr)
    ensures
        e@ == joined(c, left@, right@),
{
    let mut children: Vec<Expr> = Vec::new();
    children.push(left);
    children.push(right);
    let e = Expr { expr_type: ExprType::Op(c), children };
    assert(e@.children =~= seq![left@, right@]);
    e
}

/// The operator at `pos`, where it is one of the two given.
fn operator_here(tokens: &Vec<Token>, pos: usize, one: char, other: char) -> (found: Option<char>)
    ensures
        operator_at(lexemes_of(tokens@), pos as nat, one, other) ==> found == Some(
            operator_of(lexemes_of(tokens@), pos as nat),
        ),
        !operator_at(lexemes_of(tokens@), pos as nat, one, other) ==> found is None,
{
    if pos < tokens.len() {
        if let Token::Op(c, _) = &tokens[pos] {
            if *c == one || *c == other {
                return Some(*c);
            }
        }
    }
    None
}

/// Takes one token, which must be of the expected kind.
fn consume(tokens: &Vec<Token>, pos: usize, expected: TokenKind) -> (result: Result<
    usize,
    (ParseError, usize),
>)
    requires
        pos <= tokens.len(),
    ensures
        match expect(lexemes_of(tokens@), pos as nat, expected) {
            Ok(next) => result == Ok::<usize, (ParseError, usize)>(next as usize) && next
                <= tokens.len(),
            Err(stopped) => result == Err::<usize, (ParseError, usize)>(
                (stopped.error, stopped.at as usize),
            ) && stopped.at <= tokens.len(),
        },
{
    if pos >= tokens.len() {
        return Err((ParseError { reason: ParseReason::UnexpectedEnd, context: ParseContext::Plain }, pos));
    }
    if kind(&tokens[pos]) == expected {
        Ok(pos + 1)
    } else {
        Err(
            (
                ParseError {
                    reason: ParseReason::Expected(expected, pos),
                    context: ParseContext::Plain,
                },
                pos + 1,
            ),
        )
    }
}

/// Takes one token, which must be the `)` of the `(` at `opened`.
fn consume_msg(tokens: &Vec<Token>, pos: usize, opened: usize) -> (result: Result<
    usize,
    (ParseError, usize),
>)
    requires
        pos <= tokens.len(),
    ensures
        pos >= tokens.len() ==> result == Err::<usize, (ParseError, usize)>(
            (plain(ParseReason::UnexpectedEnd), pos),
        ),
        pos < tokens.len() && tokens[pos as int]@ is RBracket ==> result == Ok::<
            usize,
            (ParseError, usize),
        >((pos + 1) as usize),
        pos < tokens.len() && !(tokens[pos as int]@ is RBracket) ==> result == Err::<
            usize,
            (ParseError, usize),
        >((plain(ParseReason::UnclosedBracket(opened)), (pos + 1) as usize)),
{
    if pos >= tokens.len() {
        return Err((ParseError { reason: ParseReason::UnexpectedEnd, context: ParseContext::Plain }, pos));
    }
    if let Token::RBracket(_) = &tokens[pos] {
        Ok(pos + 1)
    } else {
        Err(
            (
                ParseError {
                    reason: ParseReason::UnclosedBracket(opened),
                    context: ParseContext::Plain,
                },
                pos + 1,
            ),
        )
    }
}

/// Parses a term.
fn term(tokens: &Vec<Token>, pos: usize) -> (result: Result<(Expr, usize), (ParseError, usize)>)
    requires
        pos <= tokens.len(),
    ensures
        step_matches(result, parse_term(lexemes_of(tokens@), pos as nat), lexemes_of(tokens@), pos as nat),
    decreases tokens.len() - pos, 0nat,
{
    if pos >= tokens.len() {
        return Err((ParseError { reason: ParseReason::UnexpectedEnd, context: ParseContext::Plain }, pos));
    }
    match &tokens[pos] {
        Token::Number(i, _) => Ok((leaf_node(ExprType::Literal(*i)), pos + 1)),
        Token::Identifier(name, _) => Ok((leaf_node(ExprType::Variable(name.clone())), pos + 1)),
        Token::LBracket(_) => {
            match expr(tokens, pos + 1) {
                Ok((inner, next)) => match consume_msg(tokens, next, pos) {
                    Ok(after) => Ok((inner, after)),
                    Err(stopped) => Err(stopped),
                },
                Err(stopped) => Err(stopped),
            }
        },
        _ => Err(
            (
                ParseError {
                    reason: ParseReason::UnexpectedToken(pos),
                    context: ParseContext::Plain,
                },
                pos,
            ),
        ),
    }
}

/// Parses a product.
fn mult(tokens: &Vec<Token>, pos: usize) -> (result: Result<(Expr, usize), (ParseError, usize)>)
    requires
        pos <= tokens.len(),
    ensures
        step_matches(
            result,
            parse_product(lexemes_of(tokens@), pos as nat),
            lexemes_of(tokens@),
            pos as nat,
        ),
    decreases tokens.len() - pos, 2nat,
{
    let ghost lexemes = lexemes_of(tokens@);
    let (mut left_node, mut at) = match term(tokens, pos) {
        Ok(first) => first,
        Err(stopped) => {
            return Err(stopped);
        },
    };
    loop
        invariant
            lexemes == lexemes_of(tokens@),
            pos < at <= tokens.len(),
            parse_product(lexemes, pos as nat) == product_rest(lexemes, left_node@, at as nat),
        decreases tokens.len() - at,
    {
        let c = match operator_here(tokens, at, '*', '/') {
            Some(c) => c,
            None => {
                return Ok((left_node, at));
            },
        };
        match term(tokens, at + 1) {
            Ok((right_node, next)) => {
                left_node = binary_node(c, left_node, right_node);
                at = next;
            },
            Err(stopped) => {
                return Err(stopped);
            },
        }
    }
}

/// Parses a sum.
fn addition(tokens: &Vec<Token>, pos: usize) -> (result: Result<
    (Expr, usize),
    (ParseError, usize),
>)
    requires
        pos <= tokens.len(),
    ensures
        step_matches(result, parse_sum(lexemes_of(tokens@), pos as nat), lexemes_of(tokens@), pos as nat),
    decreases tokens.len() - pos, 4nat,
{
    let ghost lexemes = lexemes_of(tokens@);
    let (mut left_node, mut at) = match mult(tokens, pos) {
        Ok(first) => first,
        Err(stopped) => {
            return Err(stopped);
        },
    };
    loop
        invariant
            lexemes == lexemes_of(tokens@),
            pos < at <= tokens.len(),
            parse_sum(lexemes, pos as nat) == sum_rest(lexemes, left_node@, at as nat),
        decreases tokens.len() - at,
    {
        let c = match operator_here(tokens, at, '+', '-') {
            Some(c) => c,
            None => {
                return Ok((left_node, at));
            },
        };
        match mult(tokens, at + 1) {
            Ok((right_node, next)) => {
                left_node = binary_node(c, left_node, right_node);
                at = next;
            },
            Err(stopped) => {
                return Err(stopped);
            },
        }
    }
}

/// Parses an expression.
fn expr(tokens: &Vec<Token>, pos: usize) -> (result: Result<(Expr, usize), (ParseError, usize)>)
    requires
        pos <= tokens.len(),
    ensures
        step_matches(result, parse_sum(lexemes_of(tokens@), pos as nat), lexemes_of(tokens@), pos as nat),
    decreases tokens.len() - pos, 5nat,
{
    addition(tokens, pos)
}

/// Closes a statement over one expression with the `;` behind it.
fn close_statement(
    tokens: &Vec<Token>,
    expr_type: ExprType,
    value: Expr,
    pos: usize,
) -> (result: Result<(Expr, usize), (ParseError, usize)>)
    requires
        pos <= tokens.len(),
    ensures
        match expect(lexemes_of(tokens@), pos as nat, TokenKind::Semicolon) {
            Ok(next) => {
                &&& result is Ok
                &&& result->Ok_0.0@ == (Tree { kind: expr_type@, children: seq![value@] })
                &&& result->Ok_0.1 == next
                &&& next == pos + 1
            },
            Err(stopped) => result == Err::<(Expr, usize), (ParseError, usize)>(
                (stopped.error, stopped.at as usize),
            ) && pos <= stopped.at <= tokens.len(),
        },
{
    match consume(tokens, pos, TokenKind::Semicolon) {
        Ok(next) => Ok((unary_node(expr_type, value), next)),
        Err(stopped) => Err(stopped),
    }
}

/// Parses a print statement, at its `print`.
fn print_stmt(tokens: &Vec<Token>, pos: usize) -> (result: Result<
    (Expr, usize),
    (ParseError, usize),
>)
    requires
        pos < tokens.len(),
    ensures
        step_matches(
            result,
            parse_print(lexemes_of(tokens@), pos as nat),
            lexemes_of(tokens@),
            pos as nat,
        ),
{
    match expr(tokens, pos + 1) {
        Ok((sub, next)) => close_statement(tokens, ExprType::PrintStmt, sub, next),
        Err((error, at)) => Err(
            (ParseError { reason: error.reason, context: ParseContext::AfterPrint(pos) }, at),
        ),
    }
}

/// Parses a declaration, at its `var`.
fn var_decl_stmt(tokens: &Vec<Token>, pos: usize) -> (result: Result<
    (Expr, usize),
    (ParseError, usize),
>)
    requires
        pos < tokens.len(),
    ensures
        step_matches(
            result,
            parse_declaration(lexemes_of(tokens@), pos as nat),
            lexemes_of(tokens@),
            pos as nat,
        ),
{
    let after_name = match consume(tokens, pos + 1, TokenKind::Identifier) {
        Ok(next) => next,
        Err(stopped) => {
            return Err(stopped);
        },
    };
    let var_name = match &tokens[pos + 1] {
        Token::Identifier(s, _) => s.clone(),
        _ => String::new(),
    };
    let is_initialized = after_name < tokens.len() && kind(&tokens[after_name])
        == TokenKind::Equals;
    if is_initialized {
        match expr(tokens, after_name + 1) {
            Ok((assignee, next)) => close_statement(
                tokens,
                ExprType::VarDeclStmt(var_name),
                assignee,
                next,
            ),
            Err(stopped) => Err(stopped),
        }
    } else {
        match consume(tokens, after_name, TokenKind::Semicolon) {
            Ok(next) => Ok((leaf_node(ExprType::VarDeclStmt(var_name)), next)),
            Err(stopped) => Err(stopped),
        }
    }
}

/// Parses an assignment, at its name.
fn assign_stmt(tokens: &Vec<Token>, pos: usize) -> (result: Result<
    (Expr, usize),
    (ParseError, usize),
>)
    requires
        pos < tokens.len(),
        tokens[pos as int]@ is Identifier,
    ensures
        step_matches(
            result,
            parse_assignment(lexemes_of(tokens@), pos as nat),
            lexemes_of(tokens@),
            pos as nat,
        ),
{
    let var_name = match &tokens[pos] {
        Token::Identifier(a, _) => a.clone(),
        _ => String::new(),
    };
    let after_equals = match consume(tokens, pos + 1, TokenKind::Equals) {
        Ok(next) => next,
        Err(stopped) => {
            return Err(stopped);
        },
    };
    match expr(tokens, after_equals) {
        Ok((sub, next)) => close_statement(tokens, ExprType::AssignStmt(var_name), sub, next),
        Err((error, at)) => Err(
            (ParseError { reason: error.reason, context: ParseContext::InAssignment(pos + 1) }, at),
        ),
    }
}

/// Parses one statement, at a token.
fn stmt(tokens: &Vec<Token>, pos: usize) -> (result: Result<(Expr, usize), (ParseError, usize)>)
    requires
        pos < tokens.len(),
    ensures
        step_matches(
            result,
            parse_statement(lexemes_of(tokens@), pos as nat),
            lexemes_of(tokens@),
            pos as nat,
        ),
{
    match &tokens[pos] {
        Token::Print(_) => print_stmt(tokens, pos),
        Token::Var(_) => var_decl_stmt(tokens, pos),
        Token::Identifier(_, _) => assign_stmt(tokens, pos),
        _ => Err(
            (
                ParseError {
                    reason: ParseReason::UnexpectedToken(pos),
                    context: ParseContext::Plain,
                },
                pos,
            ),
        ),
    }
}

/// Skips to behind the next `;`.
fn synchronise(tokens: &Vec<Token>, at: usize) -> (next: usize)
    requires
        at <= tokens.len(),
    ensures
        next == resume(lexemes_of(tokens@), at as nat),
        next <= tokens.len(),
        at < tokens.len() ==> at < next,
{
    let mut next = at;
    while next < tokens.len()
        invariant
            at <= next <= tokens.len(),
            resume(lexemes_of(tokens@), at as nat) == resume(lexemes_of(tokens@), next as nat),
        decreases tokens.len() - next,
    {
        if kind(&tokens[next]) == TokenKind::Semicolon {
            return next + 1;
        }
        next = next + 1;
    }
    next
}

/// Whether the token at `pos` marks the end of the input.
fn at_end(tokens: &Vec<Token>, pos: usize) -> (yes: bool)
    requires
        pos < tokens.len(),
    ensures
        yes == (tokens[pos as int]@ is EOF),
{
    kind(&tokens[pos]) == TokenKind::EOF
}

/// Parses every statement; reports every error.
fn program(tokens: &Vec<Token>) -> (result: Result<Expr, Vec<ParseError>>)
    ensures
        match parse_tokens(lexemes_of(tokens@)) {
            Ok(tree) => result is Ok && result->Ok_0@ == tree,
            Err(errors) => result is Err && result->Err_0@ == errors,
        },
{
    let ghost lexemes = lexemes_of(tokens@);
    let ghost nothing = Gathered { statements: Seq::empty(), errors: Seq::empty() };
    let mut children: Vec<Expr> = Vec::new();
    let mut errors: Vec<ParseError> = Vec::new();
    let mut pos: usize = 0;
    assert(trees_of(children@) =~= Seq::<Tree>::empty());
    while pos < tokens.len() && !at_end(tokens, pos)
        invariant
            lexemes == lexemes_of(tokens@),
            nothing == (Gathered { statements: Seq::empty(), errors: Seq::empty() }),
            pos <= tokens.len(),
            parse_statements(lexemes, 0, nothing) == parse_statements(
                lexemes,
                pos as nat,
                Gathered { statements: trees_of(children@), errors: errors@ },
            ),
        decreases tokens.len() - pos,
    {
        let ghost before = children@;
        match stmt(tokens, pos) {
            Ok((statement, next)) => {
                children.push(statement);
                assert(trees_of(children@) =~= trees_of(before).push(statement@));
                pos = next;
            },
            Err((error, at)) => {
                errors.push(error);
                pos = synchronise(tokens, at);
            },
        }
    }
    if errors.len() > 0 {
        return Err(errors);
    }
    let res = Expr { expr_type: ExprType::Program, children };
    assert(res@.children =~= trees_of(res.children@));
    Ok(res)
}

/// Parses a token sequence into a program. Every statement that does not
/// parse is reported, in order; the result is a tree only when there is
/// none.
pub fn parse(tokens: &Vec<Token>) -> (result: Result<Expr, Vec<ParseError>>)
    ensures
        match parse_tokens(lexemes_of(tokens@)) {
            Ok(tree) => result is Ok && result->Ok_0@ == tree,
            Err(errors) => result is Err && result->Err_0@ == errors && errors.len() > 0,
        },
        result is Ok ==> crate::ast::well_formed(result->Ok_0@),
{
    proof {
        if parse_tokens(lexemes_of(tokens@)) is Ok {
            crate::parser_laws::lemma_parsed_program_is_well_formed(lexemes_of(tokens@));
        }
    }
    program(tokens)
}

} // verus!
