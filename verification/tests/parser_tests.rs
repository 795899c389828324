use stackscript::ast::{Expr, ExprType};
use stackscript::lexer::{tokenize, Token, TokenIndex};
use stackscript::parser::{kind, parse, ParseContext, ParseError, ParseReason, TokenKind};
use stackscript::text::visit;

fn tree(text: &str) -> String {
    let ast = parse(&tokenize(text).unwrap()).unwrap();
    assert!(ast.is_well_formed());
    visit(&ast)
}

fn errors(text: &str) -> Vec<ParseError> {
    parse(&tokenize(text).unwrap()).unwrap_err()
}

fn plain(reason: ParseReason) -> ParseError {
    ParseError { reason, context: ParseContext::Plain }
}

#[test]
fn no_statement_is_the_empty_program() {
    let ast = parse(&tokenize("").unwrap()).unwrap();
    assert_eq!(ast, Expr { expr_type: ExprType::Program, children: vec![] });
    let ast = parse(&Vec::new()).unwrap();
    assert_eq!(ast, Expr { expr_type: ExprType::Program, children: vec![] });
}

#[test]
fn statements_become_nodes_in_source_order() {
    let ast = parse(&tokenize("var a = 1; a = 2; print a; var b;").unwrap()).unwrap();
    let lit = |v| Expr { expr_type: ExprType::Literal(v), children: vec![] };
    assert_eq!(
        ast,
        Expr {
            expr_type: ExprType::Program,
            children: vec![
                Expr { expr_type: ExprType::VarDeclStmt("a".to_string()), children: vec![lit(1)] },
                Expr { expr_type: ExprType::AssignStmt("a".to_string()), children: vec![lit(2)] },
                Expr {
                    expr_type: ExprType::PrintStmt,
                    children: vec![Expr {
                        expr_type: ExprType::Variable("a".to_string()),
                        children: vec![]
                    }]
                },
                Expr { expr_type: ExprType::VarDeclStmt("b".to_string()), children: vec![] },
            ]
        }
    );
}

#[test]
fn product_binds_tighter_than_sum() {
    assert_eq!(tree("print a + b * 3;"), "(print (+ a (* b 3)))\n");
    assert_eq!(tree("print a * b + 3;"), "(print (+ (* a b) 3))\n");
    assert_eq!(tree("print 1 - 6 / 2 + 4;"), "(print (+ (- 1 (/ 6 2)) 4))\n");
}

#[test]
fn operators_of_one_level_group_to_the_left() {
    assert_eq!(tree("print 10 - 3 - 2;"), "(print (- (- 10 3) 2))\n");
    assert_eq!(tree("print 100 / 10 / 5 * 2;"), "(print (* (/ (/ 100 10) 5) 2))\n");
    assert_eq!(tree("print 1 + 2 - 3 + 4;"), "(print (+ (- (+ 1 2) 3) 4))\n");
}

#[test]
fn brackets_group_and_leave_no_node() {
    assert_eq!(tree("print (1 + 2) * 3;"), "(print (* (+ 1 2) 3))\n");
    assert_eq!(tree("print ((7));"), "(print 7)\n");
    assert_eq!(tree("x = 2 * (3 - (4 + 5));"), "(= x (* 2 (- 3 (+ 4 5))))\n");
}

#[test]
fn parsing_stops_at_the_end_of_input_token() {
    let p = TokenIndex { index: 0, line_number: 0 };
    let tokens = vec![
        Token::Print(p),
        Token::Number(1, p),
        Token::Semicolon(p),
        Token::EOF(p),
        Token::RBracket(p),
    ];
    assert_eq!(visit(&parse(&tokens).unwrap()), "(print 1)\n");
}

#[test]
fn missing_semicolon_names_the_token_found() {
    // print 1 2 ; print 3 ;
    assert_eq!(
        errors("print 1 2; print 3;"),
        vec![plain(ParseReason::Expected(TokenKind::Semicolon, 2))]
    );
}

#[test]
fn statement_that_ends_early_reports_the_end() {
    let p = TokenIndex { index: 0, line_number: 0 };
    assert_eq!(
        parse(&vec![Token::Print(p), Token::Number(1, p)]).unwrap_err(),
        vec![plain(ParseReason::UnexpectedEnd)]
    );
    assert_eq!(
        parse(&vec![Token::Print(p)]).unwrap_err(),
        vec![ParseError { reason: ParseReason::UnexpectedEnd, context: ParseContext::AfterPrint(0) }]
    );
    assert_eq!(
        parse(&vec![Token::Var(p)]).unwrap_err(),
        vec![plain(ParseReason::UnexpectedEnd)]
    );
}

#[test]
fn bad_expression_after_print_names_the_print() {
    assert_eq!(
        errors("print ;"),
        vec![ParseError {
            reason: ParseReason::UnexpectedToken(1),
            context: ParseContext::AfterPrint(0)
        }]
    );
    assert_eq!(
        errors("print 1 + ;"),
        vec![ParseError {
            reason: ParseReason::UnexpectedToken(3),
            context: ParseContext::AfterPrint(0)
        }]
    );
}

#[test]
fn bad_expression_in_assignment_names_the_equals_sign() {
    assert_eq!(
        errors("a = * 2;"),
        vec![ParseError {
            reason: ParseReason::UnexpectedToken(2),
            context: ParseContext::InAssignment(1)
        }]
    );
}

#[test]
fn bad_expression_in_declaration_has_no_context() {
    assert_eq!(errors("var a = ;"), vec![plain(ParseReason::UnexpectedToken(3))]);
}

#[test]
fn declaration_needs_a_name() {
    assert_eq!(errors("var 1 = 2;"), vec![plain(ParseReason::Expected(TokenKind::Identifier, 1))]);
    assert_eq!(errors("var print;"), vec![plain(ParseReason::Expected(TokenKind::Identifier, 1))]);
}

#[test]
fn assignment_needs_its_equals_sign() {
    assert_eq!(errors("a 1;"), vec![plain(ParseReason::Expected(TokenKind::Equals, 1))]);
}

#[test]
fn bracket_that_is_not_closed_names_its_opening() {
    assert_eq!(errors("print (1 + 2;"), vec![ParseError {
        reason: ParseReason::UnclosedBracket(1),
        context: ParseContext::AfterPrint(0)
    }]);
}

#[test]
fn statement_cannot_start_with_a_number() {
    assert_eq!(errors("1 + 2;"), vec![plain(ParseReason::UnexpectedToken(0))]);
}

#[test]
fn every_bad_statement_is_reported_in_order() {
    // tokens: print(0) ;(1) var(2) a(3) =(4) 1(5) ;(6) b(7) 2(8) ;(9) )(10) ;(11) print(12) 3(13) ;(14)
    assert_eq!(
        errors("print ; var a = 1; b 2; ); print 3;"),
        vec![
            ParseError {
                reason: ParseReason::UnexpectedToken(1),
                context: ParseContext::AfterPrint(0)
            },
            plain(ParseReason::Expected(TokenKind::Equals, 8)),
            plain(ParseReason::UnexpectedToken(10)),
        ]
    );
}

#[test]
fn recovery_resumes_behind_the_next_semicolon() {
    // The token taken in place of the missing `;` is the second `print`, so
    // the skip ends behind the `;` of that statement.
    assert_eq!(
        errors("print 1 print 2; x = ;"),
        vec![
            plain(ParseReason::Expected(TokenKind::Semicolon, 2)),
            ParseError {
                reason: ParseReason::UnexpectedToken(7),
                context: ParseContext::InAssignment(6)
            },
        ]
    );
}

#[test]
fn kind_of_each_token() {
    let p = TokenIndex { index: 0, line_number: 0 };
    assert_eq!(kind(&Token::Op('+', p)), TokenKind::Op);
    assert_eq!(kind(&Token::Number(1, p)), TokenKind::Number);
    assert_eq!(kind(&Token::LBracket(p)), TokenKind::LBracket);
    assert_eq!(kind(&Token::RBracket(p)), TokenKind::RBracket);
    assert_eq!(kind(&Token::Print(p)), TokenKind::Print);
    assert_eq!(kind(&Token::Var(p)), TokenKind::Var);
    assert_eq!(kind(&Token::Equals(p)), TokenKind::Equals);
    assert_eq!(kind(&Token::Identifier("a".to_string(), p)), TokenKind::Identifier);
    assert_eq!(kind(&Token::Semicolon(p)), TokenKind::Semicolon);
    assert_eq!(kind(&Token::EOF(p)), TokenKind::EOF);
}
