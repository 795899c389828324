use stackscript::lexer::{isalpha, isalphanum, isnum, tokenize, LexError, Token, TokenIndex};

fn at(line_number: usize, index: usize) -> TokenIndex {
    TokenIndex { index, line_number }
}

fn name(text: &str, line_number: usize, index: usize) -> Token {
    Token::Identifier(text.to_string(), at(line_number, index))
}

#[test]
fn empty_text_is_the_end_of_input_alone() {
    assert_eq!(tokenize(""), Ok(vec![Token::EOF(at(0, 0))]));
    assert_eq!(tokenize("  \t\r "), Ok(vec![Token::EOF(at(0, 5))]));
}

#[test]
fn statement_is_split_into_tokens_with_columns() {
    assert_eq!(
        tokenize("var a = 1;"),
        Ok(vec![
            Token::Var(at(0, 0)),
            name("a", 0, 4),
            Token::Equals(at(0, 6)),
            Token::Number(1, at(0, 8)),
            Token::Semicolon(at(0, 9)),
            Token::EOF(at(0, 10)),
        ])
    );
}

#[test]
fn operators_and_brackets_are_one_character_each() {
    assert_eq!(
        tokenize("(1+2)*3/4-5"),
        Ok(vec![
            Token::LBracket(at(0, 0)),
            Token::Number(1, at(0, 1)),
            Token::Op('+', at(0, 2)),
            Token::Number(2, at(0, 3)),
            Token::RBracket(at(0, 4)),
            Token::Op('*', at(0, 5)),
            Token::Number(3, at(0, 6)),
            Token::Op('/', at(0, 7)),
            Token::Number(4, at(0, 8)),
            Token::Op('-', at(0, 9)),
            Token::Number(5, at(0, 10)),
            Token::EOF(at(0, 11)),
        ])
    );
}

#[test]
fn keywords_are_whole_words() {
    assert_eq!(
        tokenize("print printer var vars _var Print x1_y"),
        Ok(vec![
            Token::Print(at(0, 0)),
            name("printer", 0, 6),
            Token::Var(at(0, 14)),
            name("vars", 0, 18),
            name("_var", 0, 23),
            name("Print", 0, 28),
            name("x1_y", 0, 34),
            Token::EOF(at(0, 38)),
        ])
    );
}

#[test]
fn number_takes_every_digit_and_stops_at_a_letter() {
    assert_eq!(
        tokenize("007 12ab"),
        Ok(vec![
            Token::Number(7, at(0, 0)),
            Token::Number(12, at(0, 4)),
            name("ab", 0, 6),
            Token::EOF(at(0, 8)),
        ])
    );
    assert_eq!(
        tokenize("2147483647"),
        Ok(vec![Token::Number(i32::MAX, at(0, 0)), Token::EOF(at(0, 10))])
    );
}

#[test]
fn number_above_the_largest_integer_is_rejected() {
    assert_eq!(tokenize("1 +\n 2147483648"), Err(LexError::NumberTooLarge(at(1, 1))));
    assert_eq!(
        tokenize("99999999999999999999999999999999"),
        Err(LexError::NumberTooLarge(at(0, 0)))
    );
}

#[test]
fn lines_are_counted_and_columns_start_anew() {
    assert_eq!(
        tokenize("a\n  b\r\n\n c"),
        Ok(vec![name("a", 0, 0), name("b", 1, 2), name("c", 3, 1), Token::EOF(at(3, 2))])
    );
}

#[test]
fn line_comment_runs_to_the_end_of_the_line() {
    assert_eq!(
        tokenize("1 // two * three\n4"),
        Ok(vec![Token::Number(1, at(0, 0)), Token::Number(4, at(1, 0)), Token::EOF(at(1, 1))])
    );
    assert_eq!(
        tokenize("1 // no line break"),
        Ok(vec![Token::Number(1, at(0, 0)), Token::EOF(at(0, 18))])
    );
}

#[test]
fn block_comment_runs_to_its_close_across_lines() {
    assert_eq!(
        tokenize("1 /* a\n b */ 2"),
        Ok(vec![Token::Number(1, at(0, 0)), Token::Number(2, at(1, 6)), Token::EOF(at(1, 7))])
    );
    assert_eq!(
        tokenize("/**/x"),
        Ok(vec![name("x", 0, 4), Token::EOF(at(0, 5))])
    );
}

#[test]
fn star_of_the_opening_may_close_the_comment() {
    assert_eq!(tokenize("/*/ 3"), Ok(vec![Token::Number(3, at(0, 4)), Token::EOF(at(0, 5))]));
}

#[test]
fn block_comment_without_close_is_rejected() {
    assert_eq!(tokenize("1\n  /* never"), Err(LexError::UnterminatedComment(at(1, 2))));
    assert_eq!(tokenize("/*"), Err(LexError::UnterminatedComment(at(0, 0))));
    assert_eq!(tokenize("/* *"), Err(LexError::UnterminatedComment(at(0, 0))));
}

#[test]
fn lone_slash_is_division() {
    assert_eq!(tokenize("/"), Ok(vec![Token::Op('/', at(0, 0)), Token::EOF(at(0, 1))]));
}

#[test]
fn unknown_character_is_rejected_with_its_offset() {
    assert_eq!(tokenize("a = 1 $ 2"), Err(LexError::UnknownCharacter('$', 6)));
    assert_eq!(tokenize("x\n?"), Err(LexError::UnknownCharacter('?', 2)));
    assert_eq!(tokenize("é"), Err(LexError::UnknownCharacter('é', 0)));
}

#[test]
fn text_outside_ascii_is_fine_inside_comments() {
    assert_eq!(
        tokenize("/* é */ a // ü\nb"),
        Ok(vec![name("a", 0, 8), name("b", 1, 0), Token::EOF(at(1, 1))])
    );
}

#[test]
fn character_classes() {
    assert!(isalpha('a') && isalpha('z') && isalpha('A') && isalpha('Z') && isalpha('_'));
    assert!(!isalpha('0') && !isalpha('-') && !isalpha('é') && !isalpha('[') && !isalpha('`'));
    assert!(isnum('0') && isnum('9') && !isnum('a') && !isnum('/') && !isnum(':'));
    assert!(isalphanum('a') && isalphanum('5') && isalphanum('_') && !isalphanum(' '));
}

#[test]
fn position_of_each_kind_of_token() {
    let p = at(3, 4);
    assert_eq!(Token::Op('+', p).get_pos(), p);
    assert_eq!(Token::Number(1, p).get_pos(), p);
    assert_eq!(Token::LBracket(p).get_pos(), p);
    assert_eq!(Token::RBracket(p).get_pos(), p);
    assert_eq!(Token::Print(p).get_pos(), p);
    assert_eq!(Token::Var(p).get_pos(), p);
    assert_eq!(Token::Equals(p).get_pos(), p);
    assert_eq!(Token::Identifier("n".to_string(), p).get_pos(), p);
    assert_eq!(Token::Semicolon(p).get_pos(), p);
    assert_eq!(Token::EOF(p).get_pos(), p);
}
