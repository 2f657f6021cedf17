use mono::error::Syntax;
use mono::position::Position;
use mono::token::{Token, TokenKind};
use mono::tokenizer::Tokenizer;

fn collect(source: &str) -> Vec<Result<Token, Syntax>> {
    let mut tokenizer = Tokenizer::new(source);
    let mut items = Vec::new();
    while let Some(item) = tokenizer.next() {
        items.push(item);
    }
    items
}

fn kind_eq(a: &TokenKind, b: &TokenKind) -> bool {
    match (a, b) {
        (TokenKind::Identifier(x), TokenKind::Identifier(y)) => x == y,
        (TokenKind::String(x), TokenKind::String(y)) => x == y,
        (TokenKind::Integer(x), TokenKind::Integer(y)) => x == y,
        (TokenKind::Float(x), TokenKind::Float(y)) => x == y,
        (TokenKind::Boolean(x), TokenKind::Boolean(y)) => x == y,
        (TokenKind::Character(x), TokenKind::Character(y)) => x == y,
        _ => a == b,
    }
}

fn syntax_eq(a: &Syntax, b: &Syntax) -> bool {
    match (a, b) {
        (
            Syntax::UnclosedCharDelimeter { start: s1, end: e1, found: f1 },
            Syntax::UnclosedCharDelimeter { start: s2, end: e2, found: f2 },
        ) => s1 == s2 && e1 == e2 && f1 == f2,
        (
            Syntax::UnclosedStringDelimeter { start: s1 },
            Syntax::UnclosedStringDelimeter { start: s2 },
        ) => s1 == s2,
        (
            Syntax::MultipleFloatingPoints { start: s1, end: e1 },
            Syntax::MultipleFloatingPoints { start: s2, end: e2 },
        ) => s1 == s2 && e1 == e2,
        (
            Syntax::UnrecognizedChar { position: p1, c: c1 },
            Syntax::UnrecognizedChar { position: p2, c: c2 },
        ) => p1 == p2 && c1 == c2,
        (
            Syntax::UnexpectedChar { position: p1, c: c1 },
            Syntax::UnexpectedChar { position: p2, c: c2 },
        ) => p1 == p2 && c1 == c2,
        (
            Syntax::InvalidIntegerSize { start: s1, end: e1 },
            Syntax::InvalidIntegerSize { start: s2, end: e2 },
        ) => s1 == s2 && e1 == e2,
        _ => false,
    }
}

fn item_eq(a: &Result<Token, Syntax>, b: &Result<Token, Syntax>) -> bool {
    match (a, b) {
        (Ok(x), Ok(y)) => x.start == y.start && x.end == y.end && kind_eq(&x.kind, &y.kind),
        (Err(x), Err(y)) => syntax_eq(x, y),
        _ => false,
    }
}

fn check(actual: &[Result<Token, Syntax>], expected: &[Result<Token, Syntax>]) {
    for (actual_token, expected_token) in actual.iter().zip(expected.iter()) {
        assert!(
            item_eq(actual_token, expected_token),
            "got {:?}, wanted {:?}",
            actual_token,
            expected_token
        );
    }
    assert!(actual.len() >= expected.len());
}

fn single(kind: TokenKind, row: usize, column: usize) -> Result<Token, Syntax> {
    Ok(Token::new(Position::new(row, column), None, kind))
}

fn multi(kind: TokenKind, r1: usize, c1: usize, r2: usize, c2: usize) -> Result<Token, Syntax> {
    Ok(Token::new(
        Position::new(r1, c1),
        Some(Position::new(r2, c2)),
        kind,
    ))
}

#[test]
fn identifiers() {
    let actual = collect("and or x\ny");
    let expected = vec![
        multi(TokenKind::And, 1, 1, 1, 3),
        multi(TokenKind::Or, 1, 5, 1, 6),
        single(TokenKind::Identifier(String::from("x")), 1, 8),
        single(TokenKind::NewLine, 1, 9),
        single(TokenKind::Identifier(String::from("y")), 2, 1),
    ];
    check(&actual, &expected);
    assert_eq!(actual.len(), expected.len());
}

#[test]
fn booleans_and_none() {
    let actual = collect("true\nfalse\nnone");
    let expected = vec![
        multi(TokenKind::Boolean(true), 1, 1, 1, 4),
        single(TokenKind::NewLine, 1, 5),
        multi(TokenKind::Boolean(false), 2, 1, 2, 5),
        single(TokenKind::NewLine, 2, 6),
        multi(TokenKind::NoneLiteral, 3, 1, 3, 4),
    ];
    check(&actual, &expected);
    assert_eq!(actual.len(), expected.len());
}

#[test]
fn strings_and_chars() {
    let actual = collect("\'a\'\n\"a\"\n\"mono\"\n\'mono\'");
    let expected = vec![
        multi(TokenKind::Character('a'), 1, 1, 1, 3),
        single(TokenKind::NewLine, 1, 4),
        multi(TokenKind::String(String::from("a")), 2, 1, 2, 2),
        single(TokenKind::NewLine, 2, 4),
        multi(TokenKind::String(String::from("mono")), 3, 1, 3, 5),
        single(TokenKind::NewLine, 3, 7),
        Err(Syntax::UnclosedCharDelimeter {
            start: Position::new(4, 1),
            end: Position::new(4, 3),
            found: Some('o'),
        }),
    ];
    check(&actual, &expected);
}

#[test]
fn string_unclosed_delimeter() {
    let actual = collect("\"mono");
    let expected = vec![Err(Syntax::UnclosedStringDelimeter {
        start: Position::new(1, 1),
    })];
    check(&actual, &expected);
}

#[test]
fn char_unclosed_delimeter() {
    let actual = collect("'a' '");
    let expected = vec![
        multi(TokenKind::Character('a'), 1, 1, 1, 3),
        Err(Syntax::UnclosedCharDelimeter {
            start: Position::new(1, 5),
            end: Position::new(1, 6),
            found: None,
        }),
    ];
    check(&actual, &expected);
}

#[test]
fn numbers() {
    let actual = collect("123 1.23 12.3 1.2.3");
    let expected = vec![
        multi(TokenKind::Integer(123), 1, 1, 1, 3),
        multi(TokenKind::Float((1.23f32).to_bits()), 1, 5, 1, 8),
        multi(TokenKind::Float((12.3f32).to_bits()), 1, 10, 1, 13),
        Err(Syntax::MultipleFloatingPoints {
            start: Position::new(1, 15),
            end: Position::new(1, 18),
        }),
    ];
    check(&actual, &expected);
}

#[test]
fn opreators() {
    let actual = collect("+ - * / % ^ = == > >= < <= !=");
    let expected = vec![
        single(TokenKind::Addition, 1, 1),
        single(TokenKind::Subtraction, 1, 3),
        single(TokenKind::Multiplication, 1, 5),
        single(TokenKind::Division, 1, 7),
        single(TokenKind::Modulo, 1, 9),
        single(TokenKind::Power, 1, 11),
        single(TokenKind::Assignment, 1, 13),
        multi(TokenKind::Equals, 1, 15, 1, 16),
        single(TokenKind::Greater, 1, 18),
        multi(TokenKind::GreaterEq, 1, 20, 1, 21),
        single(TokenKind::LessThan, 1, 23),
        multi(TokenKind::LessThanEq, 1, 25, 1, 26),
        multi(TokenKind::NotEquals, 1, 28, 1, 29),
    ];
    check(&actual, &expected);
    assert_eq!(actual.len(), expected.len());
}

#[test]
fn arrows() {
    let actual = collect("-> =>");
    let expected = vec![
        multi(TokenKind::Arrow, 1, 1, 1, 2),
        multi(TokenKind::DoubleArrow, 1, 4, 1, 5),
    ];
    check(&actual, &expected);
    assert_eq!(actual.len(), expected.len());
}

#[test]
fn arrows_and_operators() {
    let actual = collect("-><=>==>");
    let expected = vec![
        multi(TokenKind::Arrow, 1, 1, 1, 2),
        multi(TokenKind::LessThanEq, 1, 3, 1, 4),
        multi(TokenKind::GreaterEq, 1, 5, 1, 6),
        multi(TokenKind::DoubleArrow, 1, 7, 1, 8),
    ];
    check(&actual, &expected);
    assert_eq!(actual.len(), expected.len());
}

#[test]
fn brackets() {
    let actual = collect("({}(){}(())");
    let expected = vec![
        single(TokenKind::LeftParen, 1, 1),
        single(TokenKind::LeftCurly, 1, 2),
        single(TokenKind::RightCurly, 1, 3),
        single(TokenKind::LeftParen, 1, 4),
        single(TokenKind::RightParen, 1, 5),
        single(TokenKind::LeftCurly, 1, 6),
        single(TokenKind::RightCurly, 1, 7),
        single(TokenKind::LeftParen, 1, 8),
        single(TokenKind::LeftParen, 1, 9),
        single(TokenKind::RightParen, 1, 10),
        single(TokenKind::RightParen, 1, 11),
    ];
    check(&actual, &expected);
    assert_eq!(actual.len(), expected.len());
}

#[test]
fn full() {
    let code = "123 1.23 12.3 123.
\"mono\" 
'm' 'o' 'n' 'o'
or and not none false true identifier
+ - * / % ^ = == != > >= < <=
( ) { }
-> => ";
    let actual = collect(code);
    let expected = vec![
        multi(TokenKind::Integer(123), 1, 1, 1, 3),
        multi(TokenKind::Float((1.23f32).to_bits()), 1, 5, 1, 8),
        multi(TokenKind::Float((12.3f32).to_bits()), 1, 10, 1, 13),
        multi(TokenKind::Float((123.0f32).to_bits()), 1, 15, 1, 18),
        single(TokenKind::NewLine, 1, 19),
        multi(TokenKind::String(String::from("mono")), 2, 1, 2, 5),
        single(TokenKind::NewLine, 2, 8),
        multi(TokenKind::Character('m'), 3, 1, 3, 3),
        multi(TokenKind::Character('o'), 3, 5, 3, 7),
        multi(TokenKind::Character('n'), 3, 9, 3, 11),
        multi(TokenKind::Character('o'), 3, 13, 3, 15),
        single(TokenKind::NewLine, 3, 16),
        multi(TokenKind::Or, 4, 1, 4, 2),
        multi(TokenKind::And, 4, 4, 4, 6),
        multi(TokenKind::Not, 4, 8, 4, 10),
        multi(TokenKind::NoneLiteral, 4, 12, 4, 15),
        multi(TokenKind::Boolean(false), 4, 17, 4, 21),
        multi(TokenKind::Boolean(true), 4, 23, 4, 26),
        multi(TokenKind::Identifier(String::from("identifier")), 4, 28, 4, 37),
        single(TokenKind::NewLine, 4, 38),
        single(TokenKind::Addition, 5, 1),
        single(TokenKind::Subtraction, 5, 3),
        single(TokenKind::Multiplication, 5, 5),
        single(TokenKind::Division, 5, 7),
        single(TokenKind::Modulo, 5, 9),
        single(TokenKind::Power, 5, 11),
        single(TokenKind::Assignment, 5, 13),
        multi(TokenKind::Equals, 5, 15, 5, 16),
        multi(TokenKind::NotEquals, 5, 18, 5, 19),
        single(TokenKind::Greater, 5, 21),
        multi(TokenKind::GreaterEq, 5, 23, 5, 24),
        single(TokenKind::LessThan, 5, 26),
        multi(TokenKind::LessThanEq, 5, 28, 5, 29),
        single(TokenKind::NewLine, 5, 30),
        single(TokenKind::LeftParen, 6, 1),
        single(TokenKind::RightParen, 6, 3),
        single(TokenKind::LeftCurly, 6, 5),
        single(TokenKind::RightCurly, 6, 7),
        single(TokenKind::NewLine, 6, 8),
        multi(TokenKind::Arrow, 7, 1, 7, 2),
        multi(TokenKind::DoubleArrow, 7, 4, 7, 5),
    ];
    check(&actual, &expected);
    assert_eq!(actual.len(), expected.len());
}

#[test]
fn token_positions_by_class() {
    let actual = collect("x y z\ntrue false none\nnot and or");
    let expected = vec![
        single(TokenKind::Identifier(String::from("x")), 1, 1),
        single(TokenKind::Identifier(String::from("y")), 1, 3),
        single(TokenKind::Identifier(String::from("z")), 1, 5),
        single(TokenKind::NewLine, 1, 6),
        multi(TokenKind::Boolean(true), 2, 1, 2, 4),
        multi(TokenKind::Boolean(false), 2, 6, 2, 10),
        multi(TokenKind::NoneLiteral, 2, 12, 2, 15),
        single(TokenKind::NewLine, 2, 16),
        multi(TokenKind::Not, 3, 1, 3, 3),
        multi(TokenKind::And, 3, 5, 3, 7),
        multi(TokenKind::Or, 3, 9, 3, 10),
    ];
    check(&actual, &expected);
    assert_eq!(actual.len(), expected.len());
}

#[test]
fn unrecognized_char_after_identifiers() {
    let actual = collect("x y z@");
    let expected = vec![
        single(TokenKind::Identifier(String::from("x")), 1, 1),
        single(TokenKind::Identifier(String::from("y")), 1, 3),
        single(TokenKind::Identifier(String::from("z")), 1, 5),
        Err(Syntax::UnrecognizedChar {
            position: Position::new(1, 6),
            c: '@',
        }),
    ];
    check(&actual, &expected);
}

#[test]
fn integer_literal_too_wide() {
    let actual = collect("99999999999");
    let expected = vec![Err(Syntax::InvalidIntegerSize {
        start: Position::new(1, 1),
        end: Position::new(1, 11),
    })];
    check(&actual, &expected);
}

#[test]
fn lone_exclamation() {
    let actual = collect("!x");
    let expected = vec![Err(Syntax::UnexpectedChar {
        position: Position::new(1, 2),
        c: '!',
    })];
    check(&actual, &expected);
}

#[test]
fn comments_behave_as_newlines() {
    let actual = collect("1 # a comment\n2");
    let expected = vec![
        single(TokenKind::Integer(1), 1, 1),
        single(TokenKind::NewLine, 1, 14),
        single(TokenKind::Integer(2), 2, 1),
    ];
    check(&actual, &expected);
    assert_eq!(actual.len(), expected.len());
}

#[test]
fn peek_matches_next() {
    let mut tokenizer = Tokenizer::new("1 + 2");
    let peeked_is_one = match tokenizer.peek() {
        Some(Ok(t)) => kind_eq(&t.kind, &TokenKind::Integer(1)),
        _ => false,
    };
    assert!(peeked_is_one);
    let first = tokenizer.next().unwrap().unwrap();
    assert!(kind_eq(&first.kind, &TokenKind::Integer(1)));
    let second = tokenizer.next().unwrap().unwrap();
    assert!(kind_eq(&second.kind, &TokenKind::Addition));
}
