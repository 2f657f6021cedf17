use vstd::prelude::*;

use crate::error::{Syntax, SyntaxV};
use crate::floats::{f32_of_decimal, is_decimal_numeral};
use crate::position::Position;
use crate::token::{keyword_of, Token, TokenKind, TokenKindV, TokenV};

verus! {

// ---------------------------------------------------------------------------
// The mathematical model of the lexer: a step function from a source index
// and cursor to the next stream item and successor state, and its closure
// over the whole input. The executable `Tokenizer` below is proven to yield
// exactly this stream.
// ---------------------------------------------------------------------------
/// Whether a character is an ASCII decimal digit.
pub open spec fn is_digit_char(c: char) -> bool {
    '0' <= c <= '9'
}

/// Whether a character is an ASCII letter.
pub open spec fn is_alpha_char(c: char) -> bool {
    ('a' <= c <= 'z') || ('A' <= c <= 'Z')
}

/// Whether a character can start an identifier.
pub open spec fn is_ident_start(c: char) -> bool {
    is_alpha_char(c) || c == '_'
}

/// Whether a character can continue an identifier.
pub open spec fn is_ident_char(c: char) -> bool {
    is_alpha_char(c) || is_digit_char(c) || c == '_'
}

/// A position value from mathematical coordinates.
pub open spec fn pos(row: int, col: int) -> Position {
    Position { row: row as usize, column: col as usize }
}

/// One item of the lexical stream and the state that follows it.
pub struct Step {
    pub item: Option<Result<TokenV, SyntaxV>>,
    pub i2: int,
    pub row2: int,
    pub col2: int,
}

/// The end of the identifier run that starts at `k`.
pub open spec fn scan_ident(s: Seq<char>, k: int) -> int
    decreases s.len() - k,
{
    if k < 0 || k >= s.len() || !is_ident_char(s[k]) {
        k
    } else {
        scan_ident(s, k + 1)
    }
}

/// The index of the first `"` at or after `k`, or the input's end.
pub open spec fn scan_string(s: Seq<char>, k: int) -> int
    decreases s.len() - k,
{
    if k < 0 || k >= s.len() {
        s.len() as int
    } else if s[k] == '"' {
        k
    } else {
        scan_string(s, k + 1)
    }
}

/// The index of the first newline at or after `k`, or the input's end.
pub open spec fn scan_line(s: Seq<char>, k: int) -> int
    decreases s.len() - k,
{
    if k < 0 || k >= s.len() {
        s.len() as int
    } else if s[k] == '\n' {
        k
    } else {
        scan_line(s, k + 1)
    }
}

/// The end of a numeric literal's tail: digits with at most one dot. The
/// flag reports a second dot, on which the scan stops at that dot.
pub open spec fn scan_num(s: Seq<char>, k: int, saw_dot: bool) -> (int, bool)
    decreases s.len() - k,
{
    if k < 0 || k >= s.len() {
        (if k < 0 {
            k
        } else {
            s.len() as int
        }, false)
    } else if is_digit_char(s[k]) {
        scan_num(s, k + 1, saw_dot)
    } else if s[k] == '.' {
        if saw_dot {
            (k, true)
        } else {
            scan_num(s, k + 1, true)
        }
    } else {
        (k, false)
    }
}

/// The numeric value of a digit string.
pub open spec fn digits_val(s: Seq<char>) -> int
    decreases s.len(),
{
    if s.len() == 0 {
        0
    } else {
        digits_val(s.drop_last()) * 10 + (s.last() as int - '0' as int)
    }
}

/// A single-character token.
pub open spec fn single_tok(kind: TokenKindV, row: int, col: int) -> TokenV {
    TokenV { start: pos(row, col), end: None, kind }
}

/// A token spanning more than one column.
pub open spec fn multi_tok(kind: TokenKindV, row: int, c1: int, c2: int) -> TokenV {
    TokenV { start: pos(row, c1), end: Some(pos(row, c2)), kind }
}

/// The step an identifier or keyword takes from index `i` (whose character
/// starts an identifier and sits at column `col + 1`).
pub open spec fn ident_step(s: Seq<char>, i: int, row: int, col: int) -> Step {
    let j = scan_ident(s, i + 1);
    let lexeme = s.subrange(i, j);
    let end_col = col + (j - i);
    let kind = match keyword_of(lexeme) {
        Some(k) => k,
        None => TokenKindV::Identifier(lexeme),
    };
    let tok = if j - i == 1 {
        single_tok(kind, row, col + 1)
    } else {
        multi_tok(kind, row, col + 1, end_col)
    };
    Step { item: Some(Ok(tok)), i2: j, row2: row, col2: end_col }
}

/// The step a numeric literal takes from index `i` (a digit at column
/// `col + 1`). A second dot stops the scan at that dot with an error
/// spanning the literal's start to the dot; a literal with one dot is a
/// float; otherwise the digits must fit in 32 signed bits.
pub open spec fn num_step(s: Seq<char>, i: int, row: int, col: int) -> Step {
    let (j, second_dot) = scan_num(s, i + 1, false);
    if second_dot {
        Step {
            item: Some(
                Err(
                    SyntaxV::MultipleFloatingPoints {
                        start: pos(row, col + 1),
                        end: pos(row, col + (j - i) + 1),
                    },
                ),
            ),
            i2: j,
            row2: row,
            col2: col + (j - i) + 1,
        }
    } else {
        let lexeme = s.subrange(i, j);
        let end_col = col + (j - i);
        if lexeme.contains('.') {
            let tok = multi_tok(TokenKindV::Float(f32_of_decimal(lexeme)), row, col + 1, end_col);
            Step { item: Some(Ok(tok)), i2: j, row2: row, col2: end_col }
        } else if digits_val(lexeme) <= i32::MAX as int {
            let kind = TokenKindV::Integer(digits_val(lexeme) as i32);
            let tok = if j - i == 1 {
                single_tok(kind, row, col + 1)
            } else {
                multi_tok(kind, row, col + 1, end_col)
            };
            Step { item: Some(Ok(tok)), i2: j, row2: row, col2: end_col }
        } else {
            Step {
                item: Some(
                    Err(
                        SyntaxV::InvalidIntegerSize {
                            start: pos(row, col + 1),
                            end: pos(row, end_col),
                        },
                    ),
                ),
                i2: j,
                row2: row,
                col2: end_col,
            }
        }
    }
}

/// The step a string literal takes from index `i` (the opening quote, at
/// column `col + 1`): the token's span covers the contents, the cursor
/// passes the closing quote, and a missing closing quote is an error
/// naming the opening position.
pub open spec fn string_step(s: Seq<char>, i: int, row: int, col: int) -> Step {
    let j = scan_string(s, i + 1);
    if j < s.len() {
        let tok = multi_tok(TokenKindV::String(s.subrange(i + 1, j)), row, col + 1, col + (j - i));
        Step { item: Some(Ok(tok)), i2: j + 1, row2: row, col2: col + (j - i) + 1 }
    } else {
        Step {
            item: Some(Err(SyntaxV::UnclosedStringDelimeter { start: pos(row, col + 1) })),
            i2: s.len() as int,
            row2: row,
            col2: col + (s.len() - i) + 1,
        }
    }
}

/// The step a character literal takes from index `i` (the opening quote,
/// at column `col + 1`): exactly one character then a closing quote; a
/// wrong or missing closer is an error carrying what was found instead.
pub open spec fn char_step(s: Seq<char>, i: int, row: int, col: int) -> Step {
    if i + 2 >= s.len() {
        Step {
            item: Some(
                Err(
                    SyntaxV::UnclosedCharDelimeter {
                        start: pos(row, col + 1),
                        end: pos(row, col + 2),
                        found: None,
                    },
                ),
            ),
            i2: s.len() as int,
            row2: row,
            col2: col + 2,
        }
    } else if s[i + 2] == '\'' {
        let tok = multi_tok(TokenKindV::Character(s[i + 1]), row, col + 1, col + 3);
        Step { item: Some(Ok(tok)), i2: i + 3, row2: row, col2: col + 3 }
    } else {
        Step {
            item: Some(
                Err(
                    SyntaxV::UnclosedCharDelimeter {
                        start: pos(row, col + 1),
                        end: pos(row, col + 3),
                        found: Some(s[i + 2]),
                    },
                ),
            ),
            i2: i + 3,
            row2: row,
            col2: col + 3,
        }
    }
}

/// The step a comment takes from the `#` at index `i`: the cursor advances
/// over the commented text; a newline ends the comment and is the emitted
/// token, and a comment running to the input's end emits nothing.
pub open spec fn comment_step(s: Seq<char>, i: int, row: int, col: int) -> Step {
    let j = scan_line(s, i + 1);
    if j < s.len() {
        Step {
            item: Some(Ok(single_tok(TokenKindV::NewLine, row, col + (j - i) + 1))),
            i2: j + 1,
            row2: row + 1,
            col2: 0,
        }
    } else {
        Step { item: None, i2: s.len() as int, row2: row, col2: col + (s.len() - i) }
    }
}

/// A step emitting a single-character token.
pub open spec fn single_step(s: Seq<char>, i: int, row: int, col: int, kind: TokenKindV) -> Step {
    Step { item: Some(Ok(single_tok(kind, row, col + 1))), i2: i + 1, row2: row, col2: col + 1 }
}

/// A step emitting a two-character token.
pub open spec fn pair_step(s: Seq<char>, i: int, row: int, col: int, kind: TokenKindV) -> Step {
    Step {
        item: Some(Ok(multi_tok(kind, row, col + 1, col + 2))),
        i2: i + 2,
        row2: row,
        col2: col + 2,
    }
}

/// The next item of the lexical stream from index `i` with the cursor at
/// row `row`, column `col`: spaces are skipped, `#` starts a comment, and
/// each character class takes its step. `None` means the input is spent.
pub open spec fn lex_next(s: Seq<char>, i: int, row: int, col: int) -> Step
    decreases s.len() - i,
{
    if i < 0 || i >= s.len() {
        Step { item: None, i2: s.len() as int, row2: row, col2: col }
    } else {
        let c = s[i];
        if c == ' ' {
            lex_next(s, i + 1, row, col + 1)
        } else if c == '#' {
            comment_step(s, i, row, col)
        } else if c == '\n' {
            Step {
                item: Some(Ok(single_tok(TokenKindV::NewLine, row, col + 1))),
                i2: i + 1,
                row2: row + 1,
                col2: 0,
            }
        } else if c == '+' {
            single_step(s, i, row, col, TokenKindV::Addition)
        } else if c == '*' {
            single_step(s, i, row, col, TokenKindV::Multiplication)
        } else if c == '/' {
            single_step(s, i, row, col, TokenKindV::Division)
        } else if c == '%' {
            single_step(s, i, row, col, TokenKindV::Modulo)
        } else if c == '^' {
            single_step(s, i, row, col, TokenKindV::Power)
        } else if c == '(' {
            single_step(s, i, row, col, TokenKindV::LeftParen)
        } else if c == ')' {
            single_step(s, i, row, col, TokenKindV::RightParen)
        } else if c == '{' {
            single_step(s, i, row, col, TokenKindV::LeftCurly)
        } else if c == '}' {
            single_step(s, i, row, col, TokenKindV::RightCurly)
        } else if c == '[' {
            single_step(s, i, row, col, TokenKindV::LeftBracket)
        } else if c == ']' {
            single_step(s, i, row, col, TokenKindV::RightBracket)
        } else if c == ',' {
            single_step(s, i, row, col, TokenKindV::Comma)
        } else if c == '-' {
            if i + 1 < s.len() && s[i + 1] == '>' {
                pair_step(s, i, row, col, TokenKindV::Arrow)
            } else {
                single_step(s, i, row, col, TokenKindV::Subtraction)
            }
        } else if c == '=' {
            if i + 1 < s.len() && s[i + 1] == '>' {
                pair_step(s, i, row, col, TokenKindV::DoubleArrow)
            } else if i + 1 < s.len() && s[i + 1] == '=' {
                pair_step(s, i, row, col, TokenKindV::Equals)
            } else {
                single_step(s, i, row, col, TokenKindV::Assignment)
            }
        } else if c == '!' {
            if i + 1 < s.len() && s[i + 1] == '=' {
                pair_step(s, i, row, col, TokenKindV::NotEquals)
            } else {
                Step {
                    item: Some(
                        Err(SyntaxV::UnexpectedChar { position: pos(row, col + 2), c: '!' }),
                    ),
                    i2: if i + 2 <= s.len() {
                        i + 2
                    } else {
                        s.len() as int
                    },
                    row2: row,
                    col2: col + 2,
                }
            }
        } else if c == '>' {
            if i + 1 < s.len() && s[i + 1] == '=' {
                pair_step(s, i, row, col, TokenKindV::GreaterEq)
            } else {
                single_step(s, i, row, col, TokenKindV::Greater)
            }
        } else if c == '<' {
            if i + 1 < s.len() && s[i + 1] == '=' {
                pair_step(s, i, row, col, TokenKindV::LessThanEq)
            } else {
                single_step(s, i, row, col, TokenKindV::LessThan)
            }
        } else if c == '"' {
            string_step(s, i, row, col)
        } else if c == '\'' {
            char_step(s, i, row, col)
        } else if is_ident_start(c) {
            ident_step(s, i, row, col)
        } else if is_digit_char(c) {
            num_step(s, i, row, col)
        } else {
            Step {
                item: Some(Err(SyntaxV::UnrecognizedChar { position: pos(row, col + 1), c })),
                i2: i + 1,
                row2: row,
                col2: col + 1,
            }
        }
    }
}

/// The whole remaining lexical stream from a state.
pub open spec fn lex_items(s: Seq<char>, i: int, row: int, col: int) -> Seq<
    Result<TokenV, SyntaxV>,
>
    decreases s.len() - i,
{
    if i < 0 || i >= s.len() {
        Seq::empty()
    } else {
        let st = lex_next(s, i, row, col);
        match st.item {
            None => Seq::empty(),
            Some(item) => {
                let ni = if st.i2 < i + 1 {
                    i + 1
                } else if st.i2 > s.len() {
                    s.len() as int
                } else {
                    st.i2
                };
                seq![item] + lex_items(s, ni, st.row2, st.col2)
            },
        }
    }
}

/// Scan bounds: an identifier run ends within the input.
pub proof fn lemma_scan_ident_bounds(s: Seq<char>, k: int)
    requires
        0 <= k <= s.len(),
    ensures
        k <= scan_ident(s, k) <= s.len(),
    decreases s.len() - k,
{
    if k < s.len() && is_ident_char(s[k]) {
        lemma_scan_ident_bounds(s, k + 1);
    }
}

/// Scan bounds: a string scan ends within the input.
pub proof fn lemma_scan_string_bounds(s: Seq<char>, k: int)
    requires
        0 <= k <= s.len(),
    ensures
        k <= scan_string(s, k) <= s.len(),
    decreases s.len() - k,
{
    if k < s.len() && s[k] != '"' {
        lemma_scan_string_bounds(s, k + 1);
    }
}

/// Scan bounds: a comment scan ends within the input.
pub proof fn lemma_scan_line_bounds(s: Seq<char>, k: int)
    requires
        0 <= k <= s.len(),
    ensures
        k <= scan_line(s, k) <= s.len(),
    decreases s.len() - k,
{
    if k < s.len() && s[k] != '\n' {
        lemma_scan_line_bounds(s, k + 1);
    }
}

/// Scan bounds: a number scan ends within the input.
pub proof fn lemma_scan_num_bounds(s: Seq<char>, k: int, saw_dot: bool)
    requires
        0 <= k <= s.len(),
    ensures
        k <= scan_num(s, k, saw_dot).0 <= s.len(),
    decreases s.len() - k,
{
    if k < s.len() {
        if is_digit_char(s[k]) {
            lemma_scan_num_bounds(s, k + 1, saw_dot);
        } else if s[k] == '.' && !saw_dot {
            lemma_scan_num_bounds(s, k + 1, true);
        }
    }
}

/// Digit strings denote non-negative values.
pub proof fn lemma_digits_val_nonneg(s: Seq<char>)
    requires
        forall|m: int| 0 <= m < s.len() ==> is_digit_char(#[trigger] s[m]),
    ensures
        digits_val(s) >= 0,
    decreases s.len(),
{
    if s.len() > 0 {
        lemma_digits_val_nonneg(s.drop_last());
    }
}

/// A digit string's value dominates each of its prefixes' values.
pub proof fn lemma_digits_val_prefix(s: Seq<char>, k: int)
    requires
        forall|m: int| 0 <= m < s.len() ==> is_digit_char(#[trigger] s[m]),
        0 <= k <= s.len(),
    ensures
        digits_val(s.take(k)) <= digits_val(s),
    decreases s.len(),
{
    lemma_digits_val_nonneg(s.take(k));
    if k < s.len() {
        let d = s.drop_last();
        assert(forall|m: int| 0 <= m < d.len() ==> is_digit_char(#[trigger] d[m]));
        assert(d.take(k) =~= s.take(k));
        lemma_digits_val_prefix(d, k);
        lemma_digits_val_nonneg(d);
    } else {
        assert(s.take(k) =~= s);
    }
}

/// Progress: when the step yields an item, the input index moved forward
/// and stayed in bounds.
pub proof fn lemma_lex_next_progress(s: Seq<char>, i: int, row: int, col: int)
    requires
        0 <= i <= s.len(),
    ensures
        lex_next(s, i, row, col).item is Some ==> i < s.len() && i + 1 <= lex_next(
            s,
            i,
            row,
            col,
        ).i2 <= s.len(),
        lex_next(s, i, row, col).item is None ==> lex_next(s, i, row, col).i2 == s.len(),
    decreases s.len() - i,
{
    if i < s.len() {
        let c = s[i];
        if c == ' ' {
            lemma_lex_next_progress(s, i + 1, row, col + 1);
        } else if c == '#' {
            lemma_scan_line_bounds(s, i + 1);
        } else if c == '"' {
            lemma_scan_string_bounds(s, i + 1);
        } else if c == '\'' {
        } else if is_ident_start(c) {
            lemma_scan_ident_bounds(s, i + 1);
        } else if is_digit_char(c) {
            lemma_scan_num_bounds(s, i + 1, false);
        }
    }
}

/// A run of digits passes through a number scan unchanged.
proof fn lemma_scan_num_run(s: Seq<char>, k: int, m: int, saw: bool)
    requires
        0 <= k <= m <= s.len(),
        forall|t: int| k <= t < m ==> is_digit_char(#[trigger] s[t]),
    ensures
        scan_num(s, k, saw) == scan_num(s, m, saw),
    decreases m - k,
{
    if k < m {
        lemma_scan_num_run(s, k + 1, m, saw);
    }
}

/// Every valid numeric literal with exactly one interior dot lexes to a
/// float token carrying the literal's correctly rounded value and spanning
/// the literal exactly: digits, one dot at `d`, digits to the boundary `j`.
pub proof fn lemma_float_literal(s: Seq<char>, i: int, row: int, col: int, d: int, j: int)
    requires
        0 <= i < d < j <= s.len(),
        s[d] == '.',
        forall|t: int| i <= t < d ==> is_digit_char(#[trigger] s[t]),
        forall|t: int| d < t < j ==> is_digit_char(#[trigger] s[t]),
        j == s.len() || !(is_digit_char(s[j]) || s[j] == '.'),
    ensures
        lex_next(s, i, row, col).item == Some(
            Result::<TokenV, SyntaxV>::Ok(
                multi_tok(
                    TokenKindV::Float(f32_of_decimal(s.subrange(i, j))),
                    row,
                    col + 1,
                    col + (j - i),
                ),
            ),
        ),
{
    assert(is_digit_char(s[i]));
    lemma_scan_num_run(s, i + 1, d, false);
    assert(scan_num(s, d, false) == scan_num(s, d + 1, true));
    lemma_scan_num_run(s, d + 1, j, true);
    assert(scan_num(s, j, true) == (j, false));
    assert(scan_num(s, i + 1, false) == (j, false));
    assert(s.subrange(i, j)[d - i] == '.');
    assert(s.subrange(i, j).contains('.'));
}

/// A second dot before any token boundary lexes to a multiple-floating-
/// points error spanning the literal's start to that second dot, at `m`.
pub proof fn lemma_second_dot(s: Seq<char>, i: int, row: int, col: int, d: int, m: int)
    requires
        0 <= i < d < m < s.len(),
        s[d] == '.',
        s[m] == '.',
        forall|t: int| i <= t < d ==> is_digit_char(#[trigger] s[t]),
        forall|t: int| d < t < m ==> is_digit_char(#[trigger] s[t]),
    ensures
        lex_next(s, i, row, col).item == Some(
            Result::<TokenV, SyntaxV>::Err(
                SyntaxV::MultipleFloatingPoints {
                    start: pos(row, col + 1),
                    end: pos(row, col + (m - i) + 1),
                },
            ),
        ),
{
    assert(is_digit_char(s[i]));
    lemma_scan_num_run(s, i + 1, d, false);
    assert(scan_num(s, d, false) == scan_num(s, d + 1, true));
    lemma_scan_num_run(s, d + 1, m, true);
    assert(scan_num(s, m, true) == (m, true));
    assert(scan_num(s, i + 1, false) == (m, true));
}

// ---------------------------------------------------------------------------
// The executable lexer.
// ---------------------------------------------------------------------------
/// The model of one optional stream item.
pub open spec fn item_view(it: Option<Result<Token, Syntax>>) -> Option<Result<TokenV, SyntaxV>> {
    match it {
        None => None,
        Some(Ok(t)) => Some(Ok(t@)),
        Some(Err(e)) => Some(Err(e@)),
    }
}

/// Whether a character is an ASCII decimal digit.
fn is_digit_exec(c: char) -> (r: bool)
    ensures
        r == is_digit_char(c),
{
    '0' <= c && c <= '9'
}

/// Whether a character can start an identifier.
fn is_ident_start_exec(c: char) -> (r: bool)
    ensures
        r == is_ident_start(c),
{
    ('a' <= c && c <= 'z') || ('A' <= c && c <= 'Z') || c == '_'
}

/// Whether a character can continue an identifier.
fn is_ident_char_exec(c: char) -> (r: bool)
    ensures
        r == is_ident_char(c),
{
    ('a' <= c && c <= 'z') || ('A' <= c && c <= 'Z') || ('0' <= c && c <= '9') || c == '_'
}

/// Walks to the end of an identifier run.
fn scan_ident_exec(chars: &Vec<char>, k: usize) -> (j: usize)
    requires
        k <= chars@.len(),
    ensures
        j as int == scan_ident(chars@, k as int),
        k <= j <= chars@.len(),
{
    let ghost s = chars@;
    let mut j = k;
    while j < chars.len() && is_ident_char_exec(chars[j])
        invariant
            k <= j <= s.len(),
            chars@ == s,
            scan_ident(s, k as int) == scan_ident(s, j as int),
        decreases s.len() - j,
    {
        j = j + 1;
    }
    j
}

/// Walks to the closing quote of a string literal, or the input's end.
fn scan_string_exec(chars: &Vec<char>, k: usize) -> (j: usize)
    requires
        k <= chars@.len(),
    ensures
        j as int == scan_string(chars@, k as int),
        k <= j <= chars@.len(),
{
    let ghost s = chars@;
    let mut j = k;
    while j < chars.len() && chars[j] != '"'
        invariant
            k <= j <= s.len(),
            chars@ == s,
            scan_string(s, k as int) == scan_string(s, j as int),
        decreases s.len() - j,
    {
        j = j + 1;
    }
    j
}

/// Walks to the next newline, or the input's end.
fn scan_line_exec(chars: &Vec<char>, k: usize) -> (j: usize)
    requires
        k <= chars@.len(),
    ensures
        j as int == scan_line(chars@, k as int),
        k <= j <= chars@.len(),
{
    let ghost s = chars@;
    let mut j = k;
    while j < chars.len() && chars[j] != '\n'
        invariant
            k <= j <= s.len(),
            chars@ == s,
            scan_line(s, k as int) == scan_line(s, j as int),
        decreases s.len() - j,
    {
        j = j + 1;
    }
    j
}

/// Walks to the end of a numeric literal, reporting a second dot.
fn scan_num_exec(chars: &Vec<char>, k: usize) -> (r: (usize, bool))
    requires
        k <= chars@.len(),
    ensures
        (r.0 as int, r.1) == scan_num(chars@, k as int, false),
        k <= r.0 <= chars@.len(),
{
    let ghost s = chars@;
    let mut j = k;
    let mut saw = false;
    loop
        invariant
            k <= j <= s.len(),
            chars@ == s,
            scan_num(s, k as int, false) == scan_num(s, j as int, saw),
        decreases s.len() - j,
    {
        if j == chars.len() {
            return (j, false);
        }
        let c = chars[j];
        if is_digit_exec(c) {
            j = j + 1;
        } else if c == '.' {
            if saw {
                return (j, true);
            }
            saw = true;
            j = j + 1;
        } else {
            return (j, false);
        }
    }
}

/// Whether a segment holds a dot.
fn has_dot_exec(chars: &Vec<char>, from: usize, to: usize) -> (r: bool)
    requires
        from <= to <= chars@.len(),
    ensures
        r == chars@.subrange(from as int, to as int).contains('.'),
{
    let ghost sub = chars@.subrange(from as int, to as int);
    let mut k = from;
    while k < to
        invariant
            from <= k <= to <= chars@.len(),
            sub == chars@.subrange(from as int, to as int),
            forall|m: int| 0 <= m < k - from ==> sub[m] != '.',
        decreases to - k,
    {
        if chars[k] == '.' {
            proof {
                assert(sub[k - from] == '.');
            }
            return true;
        }
        k = k + 1;
    }
    proof {
        assert(forall|m: int| 0 <= m < sub.len() ==> sub[m] != '.');
    }
    false
}

/// Reads the value of a run of digits, refusing values over `i32::MAX`.
fn parse_digits(chars: &Vec<char>, from: usize, to: usize) -> (r: Option<i32>)
    requires
        from <= to <= chars@.len(),
        forall|m: int| from <= m < to ==> is_digit_char(#[trigger] chars@[m]),
    ensures
        ({
            let v = digits_val(chars@.subrange(from as int, to as int));
            match r {
                Some(x) => v <= i32::MAX && x == v,
                None => v > i32::MAX,
            }
        }),
{
    let ghost sub = chars@.subrange(from as int, to as int);
    proof {
        assert(forall|m: int| 0 <= m < sub.len() ==> is_digit_char(#[trigger] sub[m]));
    }
    let mut acc: u64 = 0;
    let mut k = from;
    while k < to
        invariant
            from <= k <= to <= chars@.len(),
            sub == chars@.subrange(from as int, to as int),
            forall|m: int| from <= m < to ==> is_digit_char(#[trigger] chars@[m]),
            forall|m: int| 0 <= m < sub.len() ==> is_digit_char(#[trigger] sub[m]),
            acc <= i32::MAX,
            acc as int == digits_val(sub.take(k - from)),
        decreases to - k,
    {
        let c = chars[k];
        assert('0' <= c && c <= '9');
        let d: u32 = (c as u32) - ('0' as u32);
        let next: u64 = acc * 10 + (d as u64);
        proof {
            let t = sub.take(k - from + 1);
            assert(t.drop_last() =~= sub.take(k - from));
            assert(t.last() == sub[k - from]);
            assert(sub[k - from] == chars@[k as int]);
            assert(digits_val(t) == digits_val(sub.take(k - from)) * 10 + (c as int - '0' as int));
        }
        if next > (i32::MAX as u64) {
            proof {
                lemma_digits_val_prefix(sub, k - from + 1);
            }
            return None;
        }
        acc = next;
        k = k + 1;
    }
    proof {
        assert(sub.take(to - from) =~= sub);
    }
    Some(acc as i32)
}

/// The characters a number scan passes over are digits, with at most one
/// dot when none was seen yet.
proof fn lemma_scan_num_chars(s: Seq<char>, k: int, saw: bool)
    requires
        0 <= k <= s.len(),
    ensures
        ({
            let (j, sec) = scan_num(s, k, saw);
            !sec ==> {
                &&& forall|m: int| k <= m < j ==> is_digit_char(#[trigger] s[m]) || s[m] == '.'
                &&& (saw ==> forall|m: int| k <= m < j ==> is_digit_char(#[trigger] s[m]))
                &&& (!saw ==> forall|m1: int, m2: int|
                    k <= m1 < m2 < j && #[trigger] s[m1] == '.' && #[trigger] s[m2] == '.'
                        ==> false)
            }
        }),
    decreases s.len() - k,
{
    if k < s.len() {
        if is_digit_char(s[k]) {
            lemma_scan_num_chars(s, k + 1, saw);
        } else if s[k] == '.' && !saw {
            lemma_scan_num_chars(s, k + 1, true);
        }
    }
}

/// An identifier run that stopped did so on a non-identifier character.
proof fn lemma_scan_ident_chars(s: Seq<char>, k: int)
    requires
        0 <= k <= s.len(),
    ensures
        forall|m: int| k <= m < scan_ident(s, k) ==> is_ident_char(#[trigger] s[m]),
    decreases s.len() - k,
{
    if k < s.len() && is_ident_char(s[k]) {
        lemma_scan_ident_chars(s, k + 1);
    }
}

/// One step of the executable lexer: from an index and cursor, the next
/// stream item and the state after it, exactly as `lex_next` gives them.
#[verifier::rlimit(100)]
#[verifier::spinoff_prover]
fn lex_next_exec(src: &str, chars: &Vec<char>, i0: usize, p0: Position) -> (r: (
    Option<Result<Token, Syntax>>,
    usize,
    Position,
))
    requires
        chars@ == src@,
        i0 <= chars@.len(),
        p0.column <= 2 * i0 + 2,
        p0.row <= i0 + 1,
        2 * chars@.len() + 4 <= usize::MAX,
    ensures
        ({
            let st = lex_next(chars@, i0 as int, p0.row as int, p0.column as int);
            &&& item_view(r.0) == st.item
            &&& r.1 as int == st.i2
            &&& r.2.row as int == st.row2
            &&& r.2.column as int == st.col2
            &&& r.1 <= chars@.len()
            &&& r.2.column <= 2 * r.1 + 2
            &&& r.2.row <= r.1 + 1
        }),
{
    let ghost s = chars@;
    let len = chars.len();
    let mut i = i0;
    let row = p0.row;
    let mut col = p0.column;
    while i < len && chars[i] == ' '
        invariant
            i0 <= i <= len,
            chars@ == s,
            len == s.len(),
            col == p0.column + (i - i0),
            col <= 2 * i + 2,
            2 * s.len() + 4 <= usize::MAX,
            lex_next(s, i0 as int, p0.row as int, p0.column as int) == lex_next(
                s,
                i as int,
                p0.row as int,
                col as int,
            ),
        decreases len - i,
    {
        i = i + 1;
        col = col + 1;
    }
    let ghost st = lex_next(s, i as int, row as int, col as int);
    if i == len {
        return (None, len, Position::new(row, col));
    }
    let c = chars[i];
    if c == '#' {
        let j = scan_line_exec(chars, i + 1);
        if j < len {
            let tok = Token::new(
                Position::new(row, col + (j - i) + 1),
                None,
                TokenKind::NewLine,
            );
            (Some(Ok(tok)), j + 1, Position::new(row + 1, 0))
        } else {
            (None, len, Position::new(row, col + (len - i)))
        }
    } else if c == '\n' {
        let tok = Token::new(Position::new(row, col + 1), None, TokenKind::NewLine);
        (Some(Ok(tok)), i + 1, Position::new(row + 1, 0))
    } else if c == '+' {
        (single_exec(row, col, TokenKind::Addition), i + 1, Position::new(row, col + 1))
    } else if c == '*' {
        (single_exec(row, col, TokenKind::Multiplication), i + 1, Position::new(row, col + 1))
    } else if c == '/' {
        (single_exec(row, col, TokenKind::Division), i + 1, Position::new(row, col + 1))
    } else if c == '%' {
        (single_exec(row, col, TokenKind::Modulo), i + 1, Position::new(row, col + 1))
    } else if c == '^' {
        (single_exec(row, col, TokenKind::Power), i + 1, Position::new(row, col + 1))
    } else if c == '(' {
        (single_exec(row, col, TokenKind::LeftParen), i + 1, Position::new(row, col + 1))
    } else if c == ')' {
        (single_exec(row, col, TokenKind::RightParen), i + 1, Position::new(row, col + 1))
    } else if c == '{' {
        (single_exec(row, col, TokenKind::LeftCurly), i + 1, Position::new(row, col + 1))
    } else if c == '}' {
        (single_exec(row, col, TokenKind::RightCurly), i + 1, Position::new(row, col + 1))
    } else if c == '[' {
        (single_exec(row, col, TokenKind::LeftBracket), i + 1, Position::new(row, col + 1))
    } else if c == ']' {
        (single_exec(row, col, TokenKind::RightBracket), i + 1, Position::new(row, col + 1))
    } else if c == ',' {
        (single_exec(row, col, TokenKind::Comma), i + 1, Position::new(row, col + 1))
    } else if c == '-' {
        if i + 1 < len && chars[i + 1] == '>' {
            (pair_exec(row, col, TokenKind::Arrow), i + 2, Position::new(row, col + 2))
        } else {
            (single_exec(row, col, TokenKind::Subtraction), i + 1, Position::new(row, col + 1))
        }
    } else if c == '=' {
        if i + 1 < len && chars[i + 1] == '>' {
            (pair_exec(row, col, TokenKind::DoubleArrow), i + 2, Position::new(row, col + 2))
        } else if i + 1 < len && chars[i + 1] == '=' {
            (pair_exec(row, col, TokenKind::Equals), i + 2, Position::new(row, col + 2))
        } else {
            (single_exec(row, col, TokenKind::Assignment), i + 1, Position::new(row, col + 1))
        }
    } else if c == '!' {
        if i + 1 < len && chars[i + 1] == '=' {
            (pair_exec(row, col, TokenKind::NotEquals), i + 2, Position::new(row, col + 2))
        } else {
            let ni = if i + 2 <= len {
                i + 2
            } else {
                len
            };
            (
                Some(
                    Err(Syntax::UnexpectedChar { position: Position::new(row, col + 2), c: '!' }),
                ),
                ni,
                Position::new(row, col + 2),
            )
        }
    } else if c == '>' {
        if i + 1 < len && chars[i + 1] == '=' {
            (pair_exec(row, col, TokenKind::GreaterEq), i + 2, Position::new(row, col + 2))
        } else {
            (single_exec(row, col, TokenKind::Greater), i + 1, Position::new(row, col + 1))
        }
    } else if c == '<' {
        if i + 1 < len && chars[i + 1] == '=' {
            (pair_exec(row, col, TokenKind::LessThanEq), i + 2, Position::new(row, col + 2))
        } else {
            (single_exec(row, col, TokenKind::LessThan), i + 1, Position::new(row, col + 1))
        }
    } else if c == '"' {
        let j = scan_string_exec(chars, i + 1);
        if j < len {
            let content = src.substring_char(i + 1, j).to_owned();
            let tok = Token::new(
                Position::new(row, col + 1),
                Some(Position::new(row, col + (j - i))),
                TokenKind::String(content),
            );
            (Some(Ok(tok)), j + 1, Position::new(row, col + (j - i) + 1))
        } else {
            (
                Some(
                    Err(
                        Syntax::UnclosedStringDelimeter {
                            start: Position::new(row, col + 1),
                        },
                    ),
                ),
                len,
                Position::new(row, col + (len - i) + 1),
            )
        }
    } else if c == '\'' {
        if i + 2 < len && chars[i + 2] == '\'' {
            let tok = Token::new(
                Position::new(row, col + 1),
                Some(Position::new(row, col + 3)),
                TokenKind::Character(chars[i + 1]),
            );
            (Some(Ok(tok)), i + 3, Position::new(row, col + 3))
        } else if i + 2 < len {
            (
                Some(
                    Err(
                        Syntax::UnclosedCharDelimeter {
                            start: Position::new(row, col + 1),
                            end: Position::new(row, col + 3),
                            found: Some(chars[i + 2]),
                        },
                    ),
                ),
                i + 3,
                Position::new(row, col + 3),
            )
        } else {
            (
                Some(
                    Err(
                        Syntax::UnclosedCharDelimeter {
                            start: Position::new(row, col + 1),
                            end: Position::new(row, col + 2),
                            found: None,
                        },
                    ),
                ),
                len,
                Position::new(row, col + 2),
            )
        }
    } else if is_ident_start_exec(c) {
        let j = scan_ident_exec(chars, i + 1);
        let lexeme = src.substring_char(i, j);
        let end_col = col + (j - i);
        let kind = match TokenKind::from_str(lexeme) {
            Some(k) => k,
            None => TokenKind::Identifier(lexeme.to_owned()),
        };
        let end = if j - i == 1 {
            None
        } else {
            Some(Position::new(row, end_col))
        };
        let tok = Token::new(Position::new(row, col + 1), end, kind);
        (Some(Ok(tok)), j, Position::new(row, end_col))
    } else if is_digit_exec(c) {
        let (j, second) = scan_num_exec(chars, i + 1);
        proof {
            lemma_scan_num_chars(s, i + 1, false);
        }
        if second {
            (
                Some(
                    Err(
                        Syntax::MultipleFloatingPoints {
                            start: Position::new(row, col + 1),
                            end: Position::new(row, col + (j - i) + 1),
                        },
                    ),
                ),
                j,
                Position::new(row, col + (j - i) + 1),
            )
        } else {
            let end_col = col + (j - i);
            if has_dot_exec(chars, i, j) {
                let lexeme = src.substring_char(i, j);
                proof {
                    let sub = s.subrange(i as int, j as int);
                    assert(sub[0] == s[i as int]);
                    assert(forall|m: int| 0 <= m < sub.len() ==> sub[m] == s[i + m]);
                    assert(is_decimal_numeral(sub));
                }
                match crate::floats::f32_parse_exec(lexeme) {
                    Some(b) => {
                        let tok = Token::new(
                            Position::new(row, col + 1),
                            Some(Position::new(row, end_col)),
                            TokenKind::Float(b),
                        );
                        (Some(Ok(tok)), j, Position::new(row, end_col))
                    },
                    None => vstd::pervasive::unreached(),
                }
            } else {
                proof {
                    let sub = s.subrange(i as int, j as int);
                    assert forall|m: int| 0 <= m < sub.len() implies is_digit_char(
                        #[trigger] sub[m],
                    ) by {
                        assert(sub[m] == s[i + m]);
                        if m > 0 {
                            assert(is_digit_char(s[i + m]) || s[i + m] == '.');
                            assert(!sub.contains('.'));
                        }
                    }
                    assert(forall|m: int| i <= m < j ==> is_digit_char(#[trigger] s[m])) by {
                        assert(forall|m: int|
                            i <= m < j ==> s[m] == s.subrange(i as int, j as int)[m - i]);
                    }
                }
                match parse_digits(chars, i, j) {
                    Some(v) => {
                        let end = if j - i == 1 {
                            None
                        } else {
                            Some(Position::new(row, end_col))
                        };
                        let tok = Token::new(
                            Position::new(row, col + 1),
                            end,
                            TokenKind::Integer(v),
                        );
                        (Some(Ok(tok)), j, Position::new(row, end_col))
                    },
                    None => {
                        (
                            Some(
                                Err(
                                    Syntax::InvalidIntegerSize {
                                        start: Position::new(row, col + 1),
                                        end: Position::new(row, end_col),
                                    },
                                ),
                            ),
                            j,
                            Position::new(row, end_col),
                        )
                    },
                }
            }
        }
    } else {
        (
            Some(Err(Syntax::UnrecognizedChar { position: Position::new(row, col + 1), c })),
            i + 1,
            Position::new(row, col + 1),
        )
    }
}

/// Unfolding the stream one item at a time: the stream from a state is its
/// step's item followed by the stream from the step's successor state.
pub proof fn lemma_lex_items_step(s: Seq<char>, i: int, row: int, col: int)
    requires
        0 <= i <= s.len(),
    ensures
        ({
            let st = lex_next(s, i, row, col);
            match st.item {
                None => lex_items(s, i, row, col) =~= Seq::<Result<TokenV, SyntaxV>>::empty(),
                Some(item) => lex_items(s, i, row, col) =~= seq![item] + lex_items(
                    s,
                    st.i2,
                    st.row2,
                    st.col2,
                ),
            }
        }),
{
    lemma_lex_next_progress(s, i, row, col);
}

/// A pull-based lexer over source text: `peek` shows the next token or
/// error without consuming it, and `next` consumes it. The stream it
/// yields is exactly `lex_items` over the whole source.
pub struct Tokenizer<'a> {
    pub src: &'a str,
    pub chars: Vec<char>,
    pub i: usize,
    pub position: Position,
    pub overhead: Option<Result<Token, Syntax>>,
}

impl<'a> View for Tokenizer<'a> {
    type V = Seq<Result<TokenV, SyntaxV>>;

    /// The items this lexer has yet to yield.
    open spec fn view(&self) -> Seq<Result<TokenV, SyntaxV>> {
        match self.overhead {
            None => Seq::empty(),
            Some(it) => seq![
                match it {
                    Ok(t) => Result::<TokenV, SyntaxV>::Ok(t@),
                    Err(e) => Result::<TokenV, SyntaxV>::Err(e@),
                },
            ] + lex_items(self.chars@, self.i as int, self.position.row as int, self.position.column as int),
        }
    }
}

impl<'a> Tokenizer<'a> {
    /// The lexer's internal coherence: the character buffer mirrors the
    /// source, the cursor is bounded by the input position, and a spent
    /// lookahead means a spent input.
    pub open spec fn wf(&self) -> bool {
        &&& self.chars@ == self.src@
        &&& self.i <= self.chars@.len()
        &&& self.position.column <= 2 * self.i + 2
        &&& self.position.row <= self.i + 1
        &&& 2 * self.chars@.len() + 4 <= usize::MAX
        &&& (self.overhead is None ==> self.i == self.chars@.len())
    }

    /// Computes the lookahead item from the current input position; the
    /// lookahead must be empty.
    fn refill(&mut self)
        requires
            old(self).chars@ == old(self).src@,
            old(self).i <= old(self).chars@.len(),
            old(self).position.column <= 2 * old(self).i + 2,
            old(self).position.row <= old(self).i + 1,
            2 * old(self).chars@.len() + 4 <= usize::MAX,
            old(self).overhead is None,
        ensures
            final (self).wf(),
            final (self).src == old(self).src,
            final (self).chars@ == old(self).chars@,
            final (self)@ == lex_items(
                old(self).chars@,
                old(self).i as int,
                old(self).position.row as int,
                old(self).position.column as int,
            ),
    {
        let ghost s0 = self.chars@;
        let ghost i0 = self.i as int;
        let ghost r0 = self.position.row as int;
        let ghost c0 = self.position.column as int;
        proof {
            lemma_lex_items_step(s0, i0, r0, c0);
            lemma_lex_next_progress(s0, i0, r0, c0);
        }
        if self.i < self.chars.len() {
            let (item, ni, np) = lex_next_exec(self.src, &self.chars, self.i, self.position);
            self.overhead = item;
            self.i = ni;
            self.position = np;
            proof {
                let st = lex_next(s0, i0, r0, c0);
                match &self.overhead {
                    Some(it) => {
                        let itv = match it {
                            Ok(t) => Result::<TokenV, SyntaxV>::Ok(t@),
                            Err(e) => Result::<TokenV, SyntaxV>::Err(e@),
                        };
                        assert(st.item == Some(itv));
                        assert(lex_items(s0, i0, r0, c0) =~= seq![itv] + lex_items(
                            self.chars@,
                            self.i as int,
                            self.position.row as int,
                            self.position.column as int,
                        ));
                        assert(self@ =~= lex_items(s0, i0, r0, c0));
                    },
                    None => {
                        assert(st.item is None);
                        assert(self@ =~= lex_items(s0, i0, r0, c0));
                    },
                }
            }
        } else {
            proof {
                assert(self@ =~= Seq::<Result<TokenV, SyntaxV>>::empty());
                assert(lex_items(s0, i0, r0, c0) =~= Seq::<Result<TokenV, SyntaxV>>::empty());
            }
        }
    }

    /// Builds a lexer over the source text and reads its first item.
    pub fn new(source: &'a str) -> (r: Tokenizer<'a>)
        requires
            2 * source@.len() + 4 <= usize::MAX,
        ensures
            r.wf(),
            r.src@ == source@,
            r@ == lex_items(source@, 0, 1, 0),
    {
        let n = source.unicode_len();
        let mut chars: Vec<char> = Vec::new();
        let mut k: usize = 0;
        while k < n
            invariant
                k <= n,
                n == source@.len(),
                chars@ =~= source@.take(k as int),
            decreases n - k,
        {
            let c = source.get_char(k);
            chars.push(c);
            k = k + 1;
        }
        proof {
            assert(chars@ =~= source@);
        }
        let mut tokenizer = Tokenizer {
            src: source,
            chars,
            i: 0,
            position: Position::new(1, 0),
            overhead: None,
        };
        tokenizer.refill();
        tokenizer
    }

    /// The item `next` would yield, without consuming it.
    pub fn peek(&self) -> (r: &Option<Result<Token, Syntax>>)
        ensures
            (*r is Some) == (self@.len() > 0),
            r matches Some(it) ==> self@.len() > 0 && self@[0] == (match it {
                Ok(t) => Result::<TokenV, SyntaxV>::Ok(t@),
                Err(e) => Result::<TokenV, SyntaxV>::Err(e@),
            }),
    {
        &self.overhead
    }

    /// The position of the cursor.
    pub fn get_position(&self) -> (r: Position)
        ensures
            r == self.position,
    {
        self.position
    }

    /// Yields the next token or lexical error, `None` once the input is
    /// spent; the remaining stream loses exactly its first item.
    pub fn next(&mut self) -> (r: Option<Result<Token, Syntax>>)
        requires
            old(self).wf(),
        ensures
            final (self).wf(),
            final (self).src == old(self).src,
            final (self).chars@ == old(self).chars@,
            old(self)@.len() == 0 ==> r is None && final (self)@ == old(self)@,
            old(self)@.len() > 0 ==> item_view(r) == Some(old(self)@[0]) && final (self)@ == old(
                self,
            )@.drop_first(),
    {
        let ghost v0 = self@;
        let cur = self.overhead.take();
        match cur {
            None => None,
            Some(it) => {
                self.refill();
                proof {
                    assert(v0 =~= seq![v0[0]] + self@);
                    assert(self@ =~= v0.drop_first());
                }
                Some(it)
            },
        }
    }
}

/// Builds a single-character token item.
fn single_exec(row: usize, col: usize, kind: TokenKind) -> (r: Option<Result<Token, Syntax>>)
    requires
        col < usize::MAX,
    ensures
        item_view(r) == Some(
            Result::<TokenV, SyntaxV>::Ok(single_tok(kind@, row as int, col + 1)),
        ),
{
    Some(Ok(Token::new(Position::new(row, col + 1), None, kind)))
}

/// Builds a two-character token item.
fn pair_exec(row: usize, col: usize, kind: TokenKind) -> (r: Option<Result<Token, Syntax>>)
    requires
        col + 2 <= usize::MAX,
    ensures
        item_view(r) == Some(
            Result::<TokenV, SyntaxV>::Ok(multi_tok(kind@, row as int, col + 1, col + 2)),
        ),
{
    Some(
        Ok(
            Token::new(
                Position::new(row, col + 1),
                Some(Position::new(row, col + 2)),
                kind,
            ),
        ),
    )
}

} // verus!
