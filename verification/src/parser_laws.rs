//! What holds of the parser: every step of the grammar moves forward, and a
//! token sequence that parses gives a well-formed program of statements.

use vstd::prelude::*;
use crate::ast::{
    is_expression,
    is_statement,
    lemma_statement_well_formed,
    well_formed,
    Tree,
};
use crate::lexer::Lexeme;
use crate::parser::{
    expect,
    joined,
    moves_on,
    operator_at,
    operator_of,
    parse_product,
    parse_statement,
    parse_statements,
    parse_sum,
    parse_term,
    parse_tokens,
    product_rest,
    resume,
    sum_rest,
    Gathered,
    TokenKind,
};

verus! {

/// What the parser takes for a term is an expression, and ends behind where
/// it starts.
pub proof fn lemma_term_is_expression(tokens: Seq<Lexeme>, pos: nat)
    requires
        parse_term(tokens, pos) is Ok,
    ensures
        is_expression(parse_term(tokens, pos)->Ok_0.tree),
        moves_on(tokens, pos, parse_term(tokens, pos)->Ok_0.next),
    decreases tokens.len() - pos, 0nat,
{
    if pos < tokens.len() && tokens[pos as int] is LBracket {
        lemma_sum_is_expression(tokens, pos + 1);
    }
}

/// A product that continues an expression is an expression.
pub proof fn lemma_product_rest_is_expression(tokens: Seq<Lexeme>, left: Tree, pos: nat)
    requires
        is_expression(left),
        pos <= tokens.len(),
        product_rest(tokens, left, pos) is Ok,
    ensures
        is_expression(product_rest(tokens, left, pos)->Ok_0.tree),
        pos <= product_rest(tokens, left, pos)->Ok_0.next <= tokens.len(),
    decreases tokens.len() - pos, 1nat,
{
    if operator_at(tokens, pos, '*', '/') {
        lemma_term_is_expression(tokens, pos + 1);
        let right = parse_term(tokens, pos + 1)->Ok_0;
        let tree = joined(operator_of(tokens, pos), left, right.tree);
        assert(is_expression(tree));
        if moves_on(tokens, pos, right.next) {
            lemma_product_rest_is_expression(tokens, tree, right.next);
        }
    }
}

/// What the parser takes for a product is an expression, and ends behind
/// where it starts.
pub proof fn lemma_product_is_expression(tokens: Seq<Lexeme>, pos: nat)
    requires
        parse_product(tokens, pos) is Ok,
    ensures
        is_expression(parse_product(tokens, pos)->Ok_0.tree),
        moves_on(tokens, pos, parse_product(tokens, pos)->Ok_0.next),
    decreases tokens.len() - pos, 2nat,
{
    lemma_term_is_expression(tokens, pos);
    let first = parse_term(tokens, pos)->Ok_0;
    if moves_on(tokens, pos, first.next) {
        lemma_product_rest_is_expression(tokens, first.tree, first.next);
    }
}

/// A sum that continues an expression is an expression.
pub proof fn lemma_sum_rest_is_expression(tokens: Seq<Lexeme>, left: Tree, pos: nat)
    requires
        is_expression(left),
        pos <= tokens.len(),
        sum_rest(tokens, left, pos) is Ok,
    ensures
        is_expression(sum_rest(tokens, left, pos)->Ok_0.tree),
        pos <= sum_rest(tokens, left, pos)->Ok_0.next <= tokens.len(),
    decreases tokens.len() - pos, 3nat,
{
    if operator_at(tokens, pos, '+', '-') {
        lemma_product_is_expression(tokens, pos + 1);
        let right = parse_product(tokens, pos + 1)->Ok_0;
        let tree = joined(operator_of(tokens, pos), left, right.tree);
        assert(is_expression(tree));
        if moves_on(tokens, pos, right.next) {
            lemma_sum_rest_is_expression(tokens, tree, right.next);
        }
    }
}

/// What the parser takes for a sum is an expression, and ends behind where
/// it starts.
pub proof fn lemma_sum_is_expression(tokens: Seq<Lexeme>, pos: nat)
    requires
        parse_sum(tokens, pos) is Ok,
    ensures
        is_expression(parse_sum(tokens, pos)->Ok_0.tree),
        moves_on(tokens, pos, parse_sum(tokens, pos)->Ok_0.next),
    decreases tokens.len() - pos, 4nat,
{
    lemma_product_is_expression(tokens, pos);
    let first = parse_product(tokens, pos)->Ok_0;
    if moves_on(tokens, pos, first.next) {
        lemma_sum_rest_is_expression(tokens, first.tree, first.next);
    }
}

/// A term that fails stops at or behind where it starts, inside the tokens.
pub proof fn lemma_term_stops_inside(tokens: Seq<Lexeme>, pos: nat)
    requires
        pos <= tokens.len(),
        parse_term(tokens, pos) is Err,
    ensures
        pos <= parse_term(tokens, pos)->Err_0.at <= tokens.len(),
    decreases tokens.len() - pos, 0nat,
{
    if pos < tokens.len() && tokens[pos as int] is LBracket {
        if parse_sum(tokens, pos + 1) is Ok {
            lemma_sum_is_expression(tokens, pos + 1);
        } else {
            lemma_sum_stops_inside(tokens, pos + 1);
        }
    }
}

/// The rest of a product that fails stops at or behind where it starts.
pub proof fn lemma_product_rest_stops_inside(tokens: Seq<Lexeme>, left: Tree, pos: nat)
    requires
        pos <= tokens.len(),
        product_rest(tokens, left, pos) is Err,
    ensures
        pos <= product_rest(tokens, left, pos)->Err_0.at <= tokens.len(),
    decreases tokens.len() - pos, 1nat,
{
    if parse_term(tokens, pos + 1) is Ok {
        lemma_term_is_expression(tokens, pos + 1);
        let right = parse_term(tokens, pos + 1)->Ok_0;
        let tree = joined(operator_of(tokens, pos), left, right.tree);
        lemma_product_rest_stops_inside(tokens, tree, right.next);
    } else {
        lemma_term_stops_inside(tokens, pos + 1);
    }
}

/// A product that fails stops at or behind where it starts.
pub proof fn lemma_product_stops_inside(tokens: Seq<Lexeme>, pos: nat)
    requires
        pos <= tokens.len(),
        parse_product(tokens, pos) is Err,
    ensures
        pos <= parse_product(tokens, pos)->Err_0.at <= tokens.len(),
    decreases tokens.len() - pos, 2nat,
{
    if parse_term(tokens, pos) is Ok {
        lemma_term_is_expression(tokens, pos);
        let first = parse_term(tokens, pos)->Ok_0;
        lemma_product_rest_stops_inside(tokens, first.tree, first.next);
    } else {
        lemma_term_stops_inside(tokens, pos);
    }
}

/// The rest of a sum that fails stops at or behind where it starts.
pub proof fn lemma_sum_rest_stops_inside(tokens: Seq<Lexeme>, left: Tree, pos: nat)
    requires
        pos <= tokens.len(),
        sum_rest(tokens, left, pos) is Err,
    ensures
        pos <= sum_rest(tokens, left, pos)->Err_0.at <= tokens.len(),
    decreases tokens.len() - pos, 3nat,
{
    if parse_product(tokens, pos + 1) is Ok {
        lemma_product_is_expression(tokens, pos + 1);
        let right = parse_product(tokens, pos + 1)->Ok_0;
        let tree = joined(operator_of(tokens, pos), left, right.tree);
        lemma_sum_rest_stops_inside(tokens, tree, right.next);
    } else {
        lemma_product_stops_inside(tokens, pos + 1);
    }
}

/// A sum that fails stops at or behind where it starts.
pub proof fn lemma_sum_stops_inside(tokens: Seq<Lexeme>, pos: nat)
    requires
        pos <= tokens.len(),
        parse_sum(tokens, pos) is Err,
    ensures
        pos <= parse_sum(tokens, pos)->Err_0.at <= tokens.len(),
    decreases tokens.len() - pos, 4nat,
{
    if parse_product(tokens, pos) is Ok {
        lemma_product_is_expression(tokens, pos);
        let first = parse_product(tokens, pos)->Ok_0;
        lemma_sum_rest_stops_inside(tokens, first.tree, first.next);
    } else {
        lemma_product_stops_inside(tokens, pos);
    }
}

/// Parsing resumes inside the tokens, and behind any token at which the
/// error stopped.
pub proof fn lemma_resume_moves_on(tokens: Seq<Lexeme>, at: nat)
    requires
        at <= tokens.len(),
    ensures
        at <= resume(tokens, at) <= tokens.len(),
        at < tokens.len() ==> at < resume(tokens, at),
    decreases tokens.len() - at,
{
    if at < tokens.len() && !(tokens[at as int] is Semicolon) {
        lemma_resume_moves_on(tokens, at + 1);
    }
}

/// Every statement moves the parser on: one that parses ends behind where
/// it starts, and after one that does not, parsing resumes behind where it
/// starts. So the pass over the statements takes every step by its rule.
pub proof fn lemma_statement_moves_on(tokens: Seq<Lexeme>, pos: nat)
    requires
        pos < tokens.len(),
    ensures
        match parse_statement(tokens, pos) {
            Ok(parsed) => moves_on(tokens, pos, parsed.next),
            Err(stopped) => pos <= stopped.at <= tokens.len() && moves_on(
                tokens,
                pos,
                resume(tokens, stopped.at),
            ),
        },
{
    let value_at = match tokens[pos as int] {
        Lexeme::Print(_) => Some(pos + 1),
        Lexeme::Var(_) => match expect(tokens, pos + 1, TokenKind::Identifier) {
            Ok(after_name) => if after_name < tokens.len() && tokens[after_name as int] is Equals {
                Some(after_name + 1)
            } else {
                None
            },
            Err(_) => None,
        },
        Lexeme::Identifier(_, _) => match expect(tokens, pos + 1, TokenKind::Equals) {
            Ok(after_equals) => Some(after_equals),
            Err(_) => None,
        },
        _ => None,
    };
    if let Some(start) = value_at {
        if parse_sum(tokens, start) is Ok {
            lemma_sum_is_expression(tokens, start);
        } else {
            lemma_sum_stops_inside(tokens, start);
        }
    }
    if let Err(stopped) = parse_statement(tokens, pos) {
        lemma_resume_moves_on(tokens, stopped.at);
    }
}

/// What the parser takes for a statement is a statement.
pub proof fn lemma_statement_is_statement(tokens: Seq<Lexeme>, pos: nat)
    requires
        pos < tokens.len(),
        parse_statement(tokens, pos) is Ok,
    ensures
        is_statement(parse_statement(tokens, pos)->Ok_0.tree),
{
    match tokens[pos as int] {
        Lexeme::Print(_) => {
            lemma_sum_is_expression(tokens, pos + 1);
        },
        Lexeme::Var(_) => {
            let after_name = expect(tokens, pos + 1, TokenKind::Identifier)->Ok_0;
            if after_name < tokens.len() && tokens[after_name as int] is Equals {
                lemma_sum_is_expression(tokens, after_name + 1);
            }
        },
        Lexeme::Identifier(_, _) => {
            let after_equals = expect(tokens, pos + 1, TokenKind::Equals)->Ok_0;
            lemma_sum_is_expression(tokens, after_equals);
        },
        _ => {},
    }
}

/// Every tree that a pass over the statements gathers is a statement.
pub proof fn lemma_statements_are_statements(tokens: Seq<Lexeme>, pos: nat, so_far: Gathered)
    requires
        forall|i: int| 0 <= i < so_far.statements.len() ==> is_statement(
            #[trigger] so_far.statements[i],
        ),
    ensures
        forall|i: int|
            0 <= i < parse_statements(tokens, pos, so_far).statements.len() ==> is_statement(
                #[trigger] parse_statements(tokens, pos, so_far).statements[i],
            ),
    decreases tokens.len() - pos,
{
    if pos < tokens.len() && !(tokens[pos as int] is EOF) {
        match parse_statement(tokens, pos) {
            Ok(parsed) => {
                if moves_on(tokens, pos, parsed.next) {
                    lemma_statement_is_statement(tokens, pos);
                    let longer = so_far.statements.push(parsed.tree);
                    assert forall|i: int| 0 <= i < longer.len() implies is_statement(
                        #[trigger] longer[i],
                    ) by {
                        if i < so_far.statements.len() {
                            assert(longer[i] == so_far.statements[i]);
                        }
                    }
                    let gathered = Gathered { statements: longer, ..so_far };
                    lemma_statements_are_statements(tokens, parsed.next, gathered);
                    assert(parse_statements(tokens, pos, so_far) == parse_statements(
                        tokens,
                        parsed.next,
                        gathered,
                    ));
                }
            },
            Err(stopped) => {
                let next = resume(tokens, stopped.at);
                if moves_on(tokens, pos, next) {
                    let gathered = Gathered { errors: so_far.errors.push(stopped.error), ..so_far };
                    lemma_statements_are_statements(tokens, next, gathered);
                    assert(parse_statements(tokens, pos, so_far) == parse_statements(
                        tokens,
                        next,
                        gathered,
                    ));
                }
            },
        }
    }
}

/// The tree of a token sequence that parses is a program of statements, and
/// well formed: the compiler takes it as it is.
pub proof fn lemma_parsed_program_is_well_formed(tokens: Seq<Lexeme>)
    requires
        parse_tokens(tokens) is Ok,
    ensures
        is_statement(parse_tokens(tokens)->Ok_0),
        well_formed(parse_tokens(tokens)->Ok_0),
{
    lemma_statements_are_statements(
        tokens,
        0,
        Gathered { statements: Seq::empty(), errors: Seq::empty() },
    );
    lemma_statement_well_formed(parse_tokens(tokens)->Ok_0);
}

} // verus!
