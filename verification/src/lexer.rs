//! The tokenizer: source text to tokens, each with the line and column at
//! which it starts.

use vstd::prelude::*;
use vstd::string::{StrSliceExecFns, StringExecFns};

verus! {

/// Where a token starts: its column, counted in characters from the start
/// of its line, and the number of its line; both start at zero.
#[derive(Copy, Clone, Debug, PartialEq, Eq, Structural)]
pub struct TokenIndex {
    pub index: usize,
    pub line_number: usize,
}

/// A token of the language.
#[derive(Debug, PartialEq, Eq)]
pub enum Token {
    Op(char, TokenIndex),
    Number(i32, TokenIndex),
    LBracket(TokenIndex),
    RBracket(TokenIndex),
    Print(TokenIndex),
    Var(TokenIndex),
    Equals(TokenIndex),
    Identifier(String, TokenIndex),
    Semicolon(TokenIndex),
    EOF(TokenIndex),
}

/// A token as a mathematical value: the name of an identifier is a sequence
/// of characters.
pub ghost enum Lexeme {
    Op(char, TokenIndex),
    Number(i32, TokenIndex),
    LBracket(TokenIndex),
    RBracket(TokenIndex),
    Print(TokenIndex),
    Var(TokenIndex),
    Equals(TokenIndex),
    Identifier(Seq<char>, TokenIndex),
    Semicolon(TokenIndex),
    EOF(TokenIndex),
}

impl View for Token {
    type V = Lexeme;

    open spec fn view(&self) -> Lexeme {
        match *self {
            Token::Op(c, at) => Lexeme::Op(c, at),
            Token::Number(value, at) => Lexeme::Number(value, at),
            Token::LBracket(at) => Lexeme::LBracket(at),
            Token::RBracket(at) => Lexeme::RBracket(at),
            Token::Print(at) => Lexeme::Print(at),
            Token::Var(at) => Lexeme::Var(at),
            Token::Equals(at) => Lexeme::Equals(at),
            Token::Identifier(name, at) => Lexeme::Identifier(name@, at),
            Token::Semicolon(at) => Lexeme::Semicolon(at),
            Token::EOF(at) => Lexeme::EOF(at),
        }
    }
}

impl Lexeme {
    /// Where the token starts.
    pub open spec fn position(self) -> TokenIndex {
        match self {
            Lexeme::Op(_, at) => at,
            Lexeme::Number(_, at) => at,
            Lexeme::LBracket(at) => at,
            Lexeme::RBracket(at) => at,
            Lexeme::Print(at) => at,
            Lexeme::Var(at) => at,
            Lexeme::Equals(at) => at,
            Lexeme::Identifier(_, at) => at,
            Lexeme::Semicolon(at) => at,
            Lexeme::EOF(at) => at,
        }
    }
}

/// The tokens of a vector as mathematical values.
pub open spec fn lexemes_of(tokens: Seq<Token>) -> Seq<Lexeme> {
    tokens.map_values(|t: Token| t@)
}

/// Why a text could not be tokenized.
#[derive(Copy, Clone, Debug, PartialEq, Eq, Structural)]
pub enum LexError {
    /// A character that starts no token, and its offset in the text.
    UnknownCharacter(char, usize),
    /// A `/*` without its `*/`, and where it starts.
    UnterminatedComment(TokenIndex),
    /// A number that does not fit in 32 bits, and where it starts.
    NumberTooLarge(TokenIndex),
}

impl Token {
    /// Where the token starts.
    pub fn get_pos(&self) -> (at: TokenIndex)
        ensures
            at == self@.position(),
    {
        match self {
            Token::Op(_, r) => *r,
            Token::Number(_, r) => *r,
            Token::LBracket(r) => *r,
            Token::RBracket(r) => *r,
            Token::Print(r) => *r,
            Token::Var(r) => *r,
            Token::Equals(r) => *r,
            Token::Identifier(_, r) => *r,
            Token::Semicolon(r) => *r,
            Token::EOF(r) => *r,
        }
    }
}

/// A letter of a name: an ASCII letter or the underscore.
pub open spec fn is_letter(c: char) -> bool {
    ('a' <= c && c <= 'z') || ('A' <= c && c <= 'Z') || c == '_'
}

/// A decimal digit.
pub open spec fn is_digit(c: char) -> bool {
    '0' <= c && c <= '9'
}

/// A character that may follow the first of a name.
pub open spec fn is_word_char(c: char) -> bool {
    is_letter(c) || is_digit(c)
}

/// Whether a character may start a name.
pub fn isalpha(c: char) -> (yes: bool)
    ensures
        yes == is_letter(c),
{
    ('a' <= c && c <= 'z') || ('A' <= c && c <= 'Z') || c == '_'
}

/// Whether a character is a decimal digit.
pub fn isnum(c: char) -> (yes: bool)
    ensures
        yes == is_digit(c),
{
    '0' <= c && c <= '9'
}

/// Whether a character may continue a name.
pub fn isalphanum(c: char) -> (yes: bool)
    ensures
        yes == is_word_char(c),
{
    isalpha(c) || isnum(c)
}

/// Where the tokenizer stands: the offset of the next character, the offset
/// at which the current line starts, and the number of that line.
pub ghost struct Cursor {
    pub pos: nat,
    pub line_start: nat,
    pub line: nat,
}

impl Cursor {
    /// The position of a token that starts at the cursor.
    pub open spec fn here(self) -> TokenIndex {
        TokenIndex { index: (self.pos - self.line_start) as usize, line_number: self.line as usize }
    }

    /// The cursor moved to `pos` on the same line.
    pub open spec fn at(self, pos: nat) -> Cursor {
        Cursor { pos, ..self }
    }

    /// The cursor just behind a line break at offset `newline`.
    pub open spec fn next_line(self, newline: nat) -> Cursor {
        Cursor { pos: newline + 1, line_start: newline + 1, line: self.line + 1 }
    }
}

/// Whether a character belongs to a run of digits or, with `digits` false,
/// to a run of name characters.
pub open spec fn in_run(c: char, digits: bool) -> bool {
    if digits {
        is_digit(c)
    } else {
        is_word_char(c)
    }
}

/// The end of the longest run of digits (or, with `digits` false, of name
/// characters) that starts at `from`.
pub open spec fn run_end(chars: Seq<char>, from: nat, digits: bool) -> nat
    decreases chars.len() - from,
{
    if from < chars.len() && in_run(chars[from as int], digits) {
        run_end(chars, from + 1, digits)
    } else {
        from
    }
}

/// The number that a run of decimal digits writes.
pub open spec fn decimal_value(digits: Seq<char>) -> nat
    decreases digits.len(),
{
    if digits.len() == 0 {
        0
    } else {
        decimal_value(digits.drop_last()) * 10 + (digits.last() as nat - '0' as nat) as nat
    }
}

/// The offset of the first line break at or after `from`; the length of the
/// text where there is none.
pub open spec fn line_end(chars: Seq<char>, from: nat) -> nat
    decreases chars.len() - from,
{
    if from >= chars.len() {
        chars.len()
    } else if chars[from as int] == '\n' {
        from
    } else {
        line_end(chars, from + 1)
    }
}

/// The offset of the first `*` at or after `from` that a `/` follows.
pub open spec fn comment_close(chars: Seq<char>, from: nat) -> Option<nat>
    decreases chars.len() - from,
{
    if from + 1 >= chars.len() {
        None
    } else if chars[from as int] == '*' && chars[from as int + 1] == '/' {
        Some(from)
    } else {
        comment_close(chars, from + 1)
    }
}

/// The cursor after the characters from `from` up to `to` have gone by
/// without a token: at `to`, on the line that the line breaks among them
/// lead to.
pub open spec fn passed_over(chars: Seq<char>, from: nat, to: nat, start: Cursor) -> Cursor
    decreases to,
{
    if to <= from || to > chars.len() {
        start.at(to)
    } else {
        let before = passed_over(chars, from, (to - 1) as nat, start);
        if chars[to - 1] == '\n' {
            before.next_line((to - 1) as nat)
        } else {
            before.at(to)
        }
    }
}

/// What the tokenizer makes of the text at the cursor.
pub ghost enum Scan {
    /// A token, and the cursor behind it.
    Produced(Lexeme, Cursor),
    /// White space or a comment, and the cursor behind it.
    Skipped(Cursor),
    /// Nothing that the language knows.
    Failed(LexError),
}

/// The word `print`.
pub open spec fn print_word() -> Seq<char> {
    seq!['p', 'r', 'i', 'n', 't']
}

/// The word `var`.
pub open spec fn var_word() -> Seq<char> {
    seq!['v', 'a', 'r']
}

/// One step of the tokenizer, at a cursor inside the text. An operator, a
/// bracket, `=` and `;` are one character each. A `/` starts a comment to
/// the end of the line when another `/` follows, a comment to the next
/// `*/` when a `*` follows (the `*` that opens the comment may be the one
/// that closes it), and is the division operator otherwise. A digit
/// starts a number, which takes every digit that follows; a letter starts a
/// word, which takes every name character that follows and is a keyword or
/// a name. Blanks, tabs, carriage returns and line breaks are skipped.
pub open spec fn scan(chars: Seq<char>, cursor: Cursor) -> Scan {
    let c = chars[cursor.pos as int];
    let here = cursor.here();
    let next = cursor.at(cursor.pos + 1);
    let followed_by = |d: char| cursor.pos + 1 < chars.len() && chars[cursor.pos as int + 1] == d;
    if c == '+' || c == '-' || c == '*' {
        Scan::Produced(Lexeme::Op(c, here), next)
    } else if c == '/' {
        if followed_by('/') {
            let end = line_end(chars, cursor.pos + 1);
            if end < chars.len() {
                Scan::Skipped(cursor.next_line(end))
            } else {
                Scan::Skipped(cursor.at(end))
            }
        } else if followed_by('*') {
            match comment_close(chars, cursor.pos + 1) {
                Some(star) => Scan::Skipped(
                    passed_over(chars, cursor.pos + 1, star, cursor).at(star + 2),
                ),
                None => Scan::Failed(LexError::UnterminatedComment(here)),
            }
        } else {
            Scan::Produced(Lexeme::Op('/', here), next)
        }
    } else if c == '(' {
        Scan::Produced(Lexeme::LBracket(here), next)
    } else if c == ')' {
        Scan::Produced(Lexeme::RBracket(here), next)
    } else if is_digit(c) {
        let end = run_end(chars, cursor.pos + 1, true);
        let value = decimal_value(chars.subrange(cursor.pos as int, end as int));
        if value <= i32::MAX {
            Scan::Produced(Lexeme::Number(value as i32, here), cursor.at(end))
        } else {
            Scan::Failed(LexError::NumberTooLarge(here))
        }
    } else if is_letter(c) {
        let end = run_end(chars, cursor.pos + 1, false);
        let word = chars.subrange(cursor.pos as int, end as int);
        if word == print_word() {
            Scan::Produced(Lexeme::Print(here), cursor.at(end))
        } else if word == var_word() {
            Scan::Produced(Lexeme::Var(here), cursor.at(end))
        } else {
            Scan::Produced(Lexeme::Identifier(word, here), cursor.at(end))
        }
    } else if c == '=' {
        Scan::Produced(Lexeme::Equals(here), next)
    } else if c == ';' {
        Scan::Produced(Lexeme::Semicolon(here), next)
    } else if c == ' ' || c == '\t' || c == '\r' {
        Scan::Skipped(next)
    } else if c == '\n' {
        Scan::Skipped(cursor.next_line(cursor.pos))
    } else {
        Scan::Failed(LexError::UnknownCharacter(c, cursor.pos as usize))
    }
}

/// A cursor that a step can start from or end at.
pub open spec fn cursor_ok(chars: Seq<char>, cursor: Cursor) -> bool {
    &&& cursor.line_start <= cursor.pos <= chars.len()
    &&& cursor.line <= cursor.line_start
}

/// The tokens of a text from a cursor on, behind those found before it:
/// step after step to the end of the text, where the end-of-input token
/// closes the sequence. The first step that fails is the result.
pub open spec fn scan_all(chars: Seq<char>, cursor: Cursor, found: Seq<Lexeme>) -> Result<
    Seq<Lexeme>,
    LexError,
>
    decreases chars.len() - cursor.pos,
    when cursor_ok(chars, cursor)
    via scan_all_terminates
{
    if cursor.pos >= chars.len() {
        Ok(found.push(Lexeme::EOF(cursor.here())))
    } else {
        match scan(chars, cursor) {
            Scan::Produced(lexeme, next) => scan_all(chars, next, found.push(lexeme)),
            Scan::Skipped(next) => scan_all(chars, next, found),
            Scan::Failed(error) => Err(error),
        }
    }
}

#[via_fn]
proof fn scan_all_terminates(chars: Seq<char>, cursor: Cursor, found: Seq<Lexeme>) {
    if cursor.pos < chars.len() {
        lemma_scan_advances(chars, cursor);
    }
}

/// A run ends at or behind its start, inside the text.
pub proof fn lemma_run_end_bounds(chars: Seq<char>, from: nat, digits: bool)
    requires
        from <= chars.len(),
    ensures
        from <= run_end(chars, from, digits) <= chars.len(),
    decreases chars.len() - from,
{
    if run_end(chars, from, digits) != from {
        lemma_run_end_bounds(chars, from + 1, digits);
    }
}

/// A line ends at or behind where the search for its end began.
pub proof fn lemma_line_end_bounds(chars: Seq<char>, from: nat)
    requires
        from <= chars.len(),
    ensures
        from <= line_end(chars, from) <= chars.len(),
    decreases chars.len() - from,
{
    if from < chars.len() && chars[from as int] != '\n' {
        lemma_line_end_bounds(chars, from + 1);
    }
}

/// The close of a comment lies at or behind where the search began, and the
/// `/` of it inside the text.
pub proof fn lemma_comment_close_bounds(chars: Seq<char>, from: nat)
    ensures
        comment_close(chars, from) is Some ==> from <= comment_close(chars, from)->Some_0
            && comment_close(chars, from)->Some_0 + 1 < chars.len(),
    decreases chars.len() - from,
{
    if from + 1 < chars.len() && !(chars[from as int] == '*' && chars[from as int + 1] == '/') {
        lemma_comment_close_bounds(chars, from + 1);
    }
}

/// Passing over characters keeps the cursor in order.
pub proof fn lemma_passed_over_ok(chars: Seq<char>, from: nat, to: nat, start: Cursor)
    requires
        cursor_ok(chars, start),
        start.pos <= from <= to <= chars.len(),
    ensures
        cursor_ok(chars, passed_over(chars, from, to, start)),
        passed_over(chars, from, to, start).pos == to,
    decreases to,
{
    if from < to {
        lemma_passed_over_ok(chars, from, (to - 1) as nat, start);
    }
}

/// Every step that does not fail moves the cursor forward and keeps it in
/// order.
pub proof fn lemma_scan_advances(chars: Seq<char>, cursor: Cursor)
    requires
        cursor_ok(chars, cursor),
        cursor.pos < chars.len(),
    ensures
        match scan(chars, cursor) {
            Scan::Produced(_, next) => cursor.pos < next.pos && cursor_ok(chars, next),
            Scan::Skipped(next) => cursor.pos < next.pos && cursor_ok(chars, next),
            Scan::Failed(_) => true,
        },
{
    lemma_run_end_bounds(chars, cursor.pos + 1, true);
    lemma_run_end_bounds(chars, cursor.pos + 1, false);
    lemma_line_end_bounds(chars, cursor.pos + 1);
    lemma_comment_close_bounds(chars, cursor.pos + 1);
    if comment_close(chars, cursor.pos + 1) is Some {
        lemma_passed_over_ok(
            chars,
            cursor.pos + 1,
            comment_close(chars, cursor.pos + 1)->Some_0,
            cursor,
        );
    }
}

/// The tokens of a text.
pub open spec fn tokens_of(chars: Seq<char>) -> Result<Seq<Lexeme>, LexError> {
    scan_all(chars, Cursor { pos: 0, line_start: 0, line: 0 }, Seq::empty())
}

/// Whether no token of the sequence marks the end of the input.
pub open spec fn no_end_mark(lexemes: Seq<Lexeme>) -> bool {
    forall|i: int| 0 <= i < lexemes.len() ==> !(#[trigger] lexemes[i] is EOF)
}

/// The tokens of a text end with the end-of-input token, which stands
/// nowhere else among them; and the tokens found before stay in front.
pub proof fn lemma_scan_all_ends_with_mark(chars: Seq<char>, cursor: Cursor, found: Seq<Lexeme>)
    requires
        cursor_ok(chars, cursor),
        no_end_mark(found),
        scan_all(chars, cursor, found) is Ok,
    ensures
        ({
            let all = scan_all(chars, cursor, found)->Ok_0;
            &&& all.len() > found.len()
            &&& all.last() is EOF
            &&& no_end_mark(all.drop_last())
            &&& all.take(found.len() as int) == found
        }),
    decreases chars.len() - cursor.pos,
{
    if cursor.pos >= chars.len() {
        let all = found.push(Lexeme::EOF(cursor.here()));
        assert(all.drop_last() =~= found);
        assert(all.take(found.len() as int) =~= found);
    } else {
        lemma_scan_advances(chars, cursor);
        match scan(chars, cursor) {
            Scan::Produced(lexeme, next) => {
                let longer = found.push(lexeme);
                lemma_scan_all_ends_with_mark(chars, next, longer);
                let all = scan_all(chars, next, longer)->Ok_0;
                assert(all.take(found.len() as int) =~= all.take(longer.len() as int).take(
                    found.len() as int,
                ));
                assert(longer.take(found.len() as int) =~= found);
            },
            Scan::Skipped(next) => {
                lemma_scan_all_ends_with_mark(chars, next, found);
            },
            Scan::Failed(_) => {},
        }
    }
}

/// The tokens of a text end with the end-of-input token, which stands
/// nowhere else among them.
pub proof fn lemma_tokens_end_with_mark(chars: Seq<char>)
    requires
        tokens_of(chars) is Ok,
    ensures
        tokens_of(chars)->Ok_0.len() > 0,
        tokens_of(chars)->Ok_0.last() is EOF,
        no_end_mark(tokens_of(chars)->Ok_0.drop_last()),
{
    lemma_scan_all_ends_with_mark(chars, Cursor { pos: 0, line_start: 0, line: 0 }, Seq::empty());
}

/// Every character of a run is of the run's kind.
pub proof fn lemma_run_is_uniform(chars: Seq<char>, from: nat, digits: bool)
    requires
        from <= chars.len(),
    ensures
        forall|i: int|
            from <= i < run_end(chars, from, digits) ==> in_run(#[trigger] chars[i], digits),
    decreases chars.len() - from,
{
    if run_end(chars, from, digits) != from {
        lemma_run_is_uniform(chars, from + 1, digits);
    }
}

/// The characters of a text, in order.
fn collect_chars(input: &str) -> (chars: Vec<char>)
    ensures
        chars@ == input@,
{
    let mut chars: Vec<char> = Vec::new();
    for c in it: input.chars()
        invariant
            it.seq() == input@,
            chars.len() == it.index(),
            forall|j: int| 0 <= j < chars.len() ==> chars@[j] == it.seq()[j],
    {
        chars.push(c);
    }
    assert(chars@ =~= input@);
    chars
}

/// Whether a character belongs to a run of the given kind.
fn continues_run(c: char, digits: bool) -> (yes: bool)
    ensures
        yes == in_run(c, digits),
{
    if digits {
        isnum(c)
    } else {
        isalphanum(c)
    }
}

/// Finds the end of the run of digits or name characters that starts at
/// `from`.
fn find_run_end(chars: &Vec<char>, from: usize, digits: bool) -> (end: usize)
    requires
        from <= chars.len(),
    ensures
        end == run_end(chars@, from as nat, digits),
        from <= end <= chars.len(),
{
    let mut end = from;
    while end < chars.len() && continues_run(chars[end], digits)
        invariant
            from <= end <= chars.len(),
            run_end(chars@, from as nat, digits) == run_end(chars@, end as nat, digits),
        decreases chars.len() - end,
    {
        end = end + 1;
    }
    end
}

/// Finds the line break that ends the line of `from`.
fn find_line_end(chars: &Vec<char>, from: usize) -> (end: usize)
    requires
        from <= chars.len(),
    ensures
        end == line_end(chars@, from as nat),
        from <= end <= chars.len(),
{
    let mut end = from;
    while end < chars.len() && chars[end] != '\n'
        invariant
            from <= end <= chars.len(),
            line_end(chars@, from as nat) == line_end(chars@, end as nat),
        decreases chars.len() - end,
    {
        end = end + 1;
    }
    end
}

/// Reads the digits from `start` up to `end` as a number, if it fits.
fn read_number(chars: &Vec<char>, start: usize, end: usize) -> (value: Option<i32>)
    requires
        start <= end <= chars.len(),
        forall|i: int| start <= i < end ==> is_digit(#[trigger] chars@[i]),
    ensures
        match value {
            Some(v) => decimal_value(chars@.subrange(start as int, end as int)) == v,
            None => decimal_value(chars@.subrange(start as int, end as int)) > i32::MAX,
        },
{
    let mut value: i64 = 0;
    let mut fits = true;
    let mut i = start;
    while i < end
        invariant
            start <= i <= end <= chars.len(),
            forall|j: int| start <= j < end ==> is_digit(#[trigger] chars@[j]),
            0 <= value <= i32::MAX,
            fits ==> decimal_value(chars@.subrange(start as int, i as int)) == value,
            !fits ==> decimal_value(chars@.subrange(start as int, i as int)) > i32::MAX,
        decreases end - i,
    {
        let c = chars[i];
        assert(is_digit(chars@[i as int]));
        let digit: i64 = (c as u32 - '0' as u32) as i64;
        proof {
            let longer = chars@.subrange(start as int, i + 1);
            assert(longer.drop_last() =~= chars@.subrange(start as int, i as int));
            assert(longer.last() == c);
        }
        if fits {
            let next = value * 10 + digit;
            if next > 0x7fff_ffff {
                fits = false;
            } else {
                value = next;
            }
        }
        i = i + 1;
    }
    if fits {
        Some(value as i32)
    } else {
        None
    }
}

/// Whether the characters from `start` up to `end` spell `print`.
fn spells_print(chars: &Vec<char>, start: usize, end: usize) -> (yes: bool)
    requires
        start <= end <= chars.len(),
    ensures
        yes == (chars@.subrange(start as int, end as int) == print_word()),
{
    let yes = end - start == 5 && chars[start] == 'p' && chars[start + 1] == 'r' && chars[start
        + 2] == 'i' && chars[start + 3] == 'n' && chars[start + 4] == 't';
    proof {
        let word = chars@.subrange(start as int, end as int);
        if yes {
            assert(word =~= print_word());
        } else if word == print_word() {
            assert(word.len() == 5);
            assert(word[0] == 'p' && word[1] == 'r' && word[2] == 'i' && word[3] == 'n'
                && word[4] == 't');
        }
    }
    yes
}

/// Whether the characters from `start` up to `end` spell `var`.
fn spells_var(chars: &Vec<char>, start: usize, end: usize) -> (yes: bool)
    requires
        start <= end <= chars.len(),
    ensures
        yes == (chars@.subrange(start as int, end as int) == var_word()),
{
    let yes = end - start == 3 && chars[start] == 'v' && chars[start + 1] == 'a' && chars[start
        + 2] == 'r';
    proof {
        let word = chars@.subrange(start as int, end as int);
        if yes {
            assert(word =~= var_word());
        } else if word == var_word() {
            assert(word.len() == 3);
            assert(word[0] == 'v' && word[1] == 'a' && word[2] == 'r');
        }
    }
    yes
}

/// Where a block comment ends and on which line: the offset of the `*` of
/// its close, with the start and the number of the line of that `*`; `None`
/// where the comment is not closed. `from` is the offset of the `*` that
/// opens the comment.
fn find_comment_close(
    chars: &Vec<char>,
    from: usize,
    line_start: usize,
    line_number: usize,
) -> (close: Option<(usize, usize, usize)>)
    requires
        1 <= from <= chars.len(),
        line_number <= line_start <= from - 1,
    ensures
        match comment_close(chars@, from as nat) {
            Some(star) => {
                let cursor = passed_over(
                    chars@,
                    from as nat,
                    star,
                    Cursor {
                        pos: (from - 1) as nat,
                        line_start: line_start as nat,
                        line: line_number as nat,
                    },
                );
                &&& close is Some
                &&& close->Some_0.0 == star
                &&& close->Some_0.1 == cursor.line_start
                &&& close->Some_0.2 == cursor.line
                &&& from <= star
                &&& star + 1 < chars.len()
            },
            None => close is None,
        },
{
    let ghost start = Cursor {
        pos: (from - 1) as nat,
        line_start: line_start as nat,
        line: line_number as nat,
    };
    let mut at = from;
    let mut start_of_line = line_start;
    let mut line = line_number;
    while chars.len() - at > 1
        invariant
            from <= at <= chars.len(),
            start == (Cursor {
                pos: (from - 1) as nat,
                line_start: line_start as nat,
                line: line_number as nat,
            }),
            comment_close(chars@, from as nat) == comment_close(chars@, at as nat),
            passed_over(chars@, from as nat, at as nat, start) == (Cursor {
                pos: at as nat,
                line_start: start_of_line as nat,
                line: line as nat,
            }),
            line <= start_of_line <= at,
        decreases chars.len() - at,
    {
        if chars[at] == '*' && chars[at + 1] == '/' {
            assert(comment_close(chars@, at as nat) == Some(at as nat));
            return Some((at, start_of_line, line));
        }
        if chars[at] == '\n' {
            line = line + 1;
            start_of_line = at + 1;
        }
        at = at + 1;
    }
    None
}

/// Turns a text into its tokens, the last of which marks the end of the
/// input. The text is rejected at the first character that starts no token,
/// at a block comment that is never closed, and at a number above the
/// largest 32-bit integer.
pub fn tokenize(input: &str) -> (result: Result<Vec<Token>, LexError>)
    ensures
        match tokens_of(input@) {
            Ok(lexemes) => result is Ok && lexemes_of(result->Ok_0@) == lexemes,
            Err(error) => result == Err::<Vec<Token>, LexError>(error),
        },
{
    let chars = collect_chars(input);
    let n = chars.len();
    let mut pos: usize = 0;
    let mut line_start: usize = 0;
    let mut line_number: usize = 0;
    let mut res: Vec<Token> = Vec::new();
    assert(lexemes_of(res@) =~= Seq::<Lexeme>::empty());
    while pos < n
        invariant
            chars@ == input@,
            n == chars.len(),
            cursor_ok(
                chars@,
                Cursor { pos: pos as nat, line_start: line_start as nat, line: line_number as nat },
            ),
            tokens_of(chars@) == scan_all(
                chars@,
                Cursor { pos: pos as nat, line_start: line_start as nat, line: line_number as nat },
                lexemes_of(res@),
            ),
        decreases n - pos,
    {
        let ghost cursor = Cursor {
            pos: pos as nat,
            line_start: line_start as nat,
            line: line_number as nat,
        };
        let ghost found = res@;
        proof {
            lemma_scan_advances(chars@, cursor);
            lemma_run_is_uniform(chars@, (pos + 1) as nat, true);
        }
        let c = chars[pos];
        let here = TokenIndex { index: pos - line_start, line_number };
        let mut token: Option<Token> = None;
        if c == '+' || c == '-' || c == '*' {
            token = Some(Token::Op(c, here));
            pos = pos + 1;
        } else if c == '/' {
            if pos + 1 < n && chars[pos + 1] == '/' {
                let end = find_line_end(&chars, pos + 1);
                if end < n {
                    line_number = line_number + 1;
                    line_start = end + 1;
                    pos = end + 1;
                } else {
                    pos = end;
                }
            } else if pos + 1 < n && chars[pos + 1] == '*' {
                match find_comment_close(&chars, pos + 1, line_start, line_number) {
                    Some((star, start, line)) => {
                        proof {
                            lemma_passed_over_ok(chars@, (pos + 1) as nat, star as nat, cursor);
                        }
                        line_start = start;
                        line_number = line;
                        pos = star + 2;
                    },
                    None => {
                        return Err(LexError::UnterminatedComment(here));
                    },
                }
            } else {
                token = Some(Token::Op('/', here));
                pos = pos + 1;
            }
        } else if c == '(' {
            token = Some(Token::LBracket(here));
            pos = pos + 1;
        } else if c == ')' {
            token = Some(Token::RBracket(here));
            pos = pos + 1;
        } else if isnum(c) {
            let end = find_run_end(&chars, pos + 1, true);
            match read_number(&chars, pos, end) {
                Some(value) => {
                    token = Some(Token::Number(value, here));
                    pos = end;
                },
                None => {
                    return Err(LexError::NumberTooLarge(here));
                },
            }
        } else if isalpha(c) {
            let end = find_run_end(&chars, pos + 1, false);
            if spells_print(&chars, pos, end) {
                token = Some(Token::Print(here));
            } else if spells_var(&chars, pos, end) {
                token = Some(Token::Var(here));
            } else {
                let name = String::from_str(input.substring_char(pos, end));
                token = Some(Token::Identifier(name, here));
            }
            pos = end;
        } else if c == '=' {
            token = Some(Token::Equals(here));
            pos = pos + 1;
        } else if c == ';' {
            token = Some(Token::Semicolon(here));
            pos = pos + 1;
        } else if c == ' ' || c == '\t' || c == '\r' {
            pos = pos + 1;
        } else if c == '\n' {
            line_number = line_number + 1;
            line_start = pos + 1;
            pos = pos + 1;
        } else {
            return Err(LexError::UnknownCharacter(c, pos));
        }
        if let Some(t) = token {
            res.push(t);
            assert(lexemes_of(res@) =~= lexemes_of(found).push(t@));
        }
    }
    let end = Token::EOF(TokenIndex { index: pos - line_start, line_number });
    let ghost found = res@;
    res.push(end);
    assert(lexemes_of(res@) =~= lexemes_of(found).push(end@));
    Ok(res)
}

} // verus!
