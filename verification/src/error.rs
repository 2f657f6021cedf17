use vstd::prelude::*;

use crate::position::Position;
use crate::token::{Token, TokenKind, TokenKindV, TokenV};
use crate::value::{Value, ValueV};

verus! {

/// A lexical or grammatical error, carrying enough positions to render a
/// diagnostic.
#[derive(Debug)]
pub enum Syntax {
    InvalidIntegerSize { start: Position, end: Position },
    InvalidFloatSize { start: Position, end: Position },
    UnclosedCharDelimeter { start: Position, end: Position, found: Option<char> },
    UnclosedStringDelimeter { start: Position },
    UnclosedTokenDelimeter { start: Token, found: Option<Token>, delimiter: TokenKind },
    UnexpectedChar { position: Position, c: char },
    MultipleFloatingPoints { start: Position, end: Position },
    UnrecognizedChar { position: Position, c: char },
    UnexpectedToken { token: Token, expected: Vec<TokenKind> },
    UnexpectedEOF,
    MultipleExpressions { position: Position },
}

/// The mathematical model of a syntax error.
pub enum SyntaxV {
    InvalidIntegerSize { start: Position, end: Position },
    InvalidFloatSize { start: Position, end: Position },
    UnclosedCharDelimeter { start: Position, end: Position, found: Option<char> },
    UnclosedStringDelimeter { start: Position },
    UnclosedTokenDelimeter { start: TokenV, found: Option<TokenV>, delimiter: TokenKindV },
    UnexpectedChar { position: Position, c: char },
    MultipleFloatingPoints { start: Position, end: Position },
    UnrecognizedChar { position: Position, c: char },
    UnexpectedToken { token: TokenV, expected: Seq<TokenKindV> },
    UnexpectedEOF,
    MultipleExpressions { position: Position },
}

impl View for Syntax {
    type V = SyntaxV;

    open spec fn view(&self) -> SyntaxV {
        match self {
            Syntax::InvalidIntegerSize { start, end } => SyntaxV::InvalidIntegerSize {
                start: *start,
                end: *end,
            },
            Syntax::InvalidFloatSize { start, end } => SyntaxV::InvalidFloatSize {
                start: *start,
                end: *end,
            },
            Syntax::UnclosedCharDelimeter { start, end, found } => SyntaxV::UnclosedCharDelimeter {
                start: *start,
                end: *end,
                found: *found,
            },
            Syntax::UnclosedStringDelimeter { start } => SyntaxV::UnclosedStringDelimeter {
                start: *start,
            },
            Syntax::UnclosedTokenDelimeter { start, found, delimiter } => {
                SyntaxV::UnclosedTokenDelimeter {
                    start: start@,
                    found: match found {
                        Some(t) => Some(t@),
                        None => None,
                    },
                    delimiter: delimiter@,
                }
            },
            Syntax::UnexpectedChar { position, c } => SyntaxV::UnexpectedChar {
                position: *position,
                c: *c,
            },
            Syntax::MultipleFloatingPoints { start, end } => SyntaxV::MultipleFloatingPoints {
                start: *start,
                end: *end,
            },
            Syntax::UnrecognizedChar { position, c } => SyntaxV::UnrecognizedChar {
                position: *position,
                c: *c,
            },
            Syntax::UnexpectedToken { token, expected } => SyntaxV::UnexpectedToken {
                token: token@,
                expected: expected@.map_values(|k: TokenKind| k@),
            },
            Syntax::UnexpectedEOF => SyntaxV::UnexpectedEOF,
            Syntax::MultipleExpressions { position } => SyntaxV::MultipleExpressions {
                position: *position,
            },
        }
    }
}

/// An error produced while evaluating a program.
#[derive(Debug)]
pub enum Runtime {
    DivisionByZero { division: Token },
    InvalidOperation { operator: Token, right: Option<Value>, left: Value },
    UnknownIdentifier { identifier: Token },
    IncorrectParameters { name: String, call: Token, expected: Vec<String>, found: Vec<Value> },
    InvalidValue { expected: Value, found: Value },
    OutOfFuel,
}

/// The mathematical model of a runtime error.
pub enum RuntimeV {
    DivisionByZero { division: TokenV },
    InvalidOperation { operator: TokenV, right: Option<ValueV>, left: ValueV },
    UnknownIdentifier { identifier: TokenV },
    IncorrectParameters {
        name: Seq<char>,
        call: TokenV,
        expected: Seq<Seq<char>>,
        found: Seq<ValueV>,
    },
    InvalidValue { expected: ValueV, found: ValueV },
    OutOfFuel,
}

impl View for Runtime {
    type V = RuntimeV;

    open spec fn view(&self) -> RuntimeV {
        match self {
            Runtime::DivisionByZero { division } => RuntimeV::DivisionByZero {
                division: division@,
            },
            Runtime::InvalidOperation { operator, right, left } => RuntimeV::InvalidOperation {
                operator: operator@,
                right: match right {
                    Some(v) => Some(v@),
                    None => None,
                },
                left: left@,
            },
            Runtime::UnknownIdentifier { identifier } => RuntimeV::UnknownIdentifier {
                identifier: identifier@,
            },
            Runtime::IncorrectParameters { name, call, expected, found } => {
                RuntimeV::IncorrectParameters {
                    name: name@,
                    call: call@,
                    expected: expected@.map_values(|s: String| s@),
                    found: found@.map_values(|v: Value| v@),
                }
            },
            Runtime::InvalidValue { expected, found } => RuntimeV::InvalidValue {
                expected: expected@,
                found: found@,
            },
            Runtime::OutOfFuel => RuntimeV::OutOfFuel,
        }
    }
}

/// The one tagged error type of the pipeline: a syntax error from the lexer
/// or parser, or a runtime error from the evaluator.
#[derive(Debug)]
pub enum Error {
    Syntax(Syntax),
    Runtime(Runtime),
}

/// The mathematical model of an error.
pub enum ErrorV {
    Syntax(SyntaxV),
    Runtime(RuntimeV),
}

impl View for Error {
    type V = ErrorV;

    open spec fn view(&self) -> ErrorV {
        match self {
            Error::Syntax(s) => ErrorV::Syntax(s@),
            Error::Runtime(r) => ErrorV::Runtime(r@),
        }
    }
}

/// The common face of the two error families: each names its kind.
pub trait MonoError {
    /// The kind label an implementor reports.
    spec fn kind_spec(&self) -> Seq<char>;

    /// The kind of the error, for diagnostics.
    fn kind(&self) -> (r: String)
        ensures
            r@ == self.kind_spec(),
    ;
}

impl MonoError for Syntax {
    open spec fn kind_spec(&self) -> Seq<char> {
        "SyntaxError"@
    }

    fn kind(&self) -> (r: String) {
        "SyntaxError".to_owned()
    }
}

impl MonoError for Runtime {
    open spec fn kind_spec(&self) -> Seq<char> {
        "RuntimeError"@
    }

    fn kind(&self) -> (r: String) {
        "RuntimeError".to_owned()
    }
}

impl MonoError for Error {
    open spec fn kind_spec(&self) -> Seq<char> {
        match self {
            Error::Syntax(_) => "SyntaxError"@,
            Error::Runtime(_) => "RuntimeError"@,
        }
    }

    fn kind(&self) -> (r: String) {
        match self {
            Error::Syntax(_) => "SyntaxError".to_owned(),
            Error::Runtime(_) => "RuntimeError".to_owned(),
        }
    }
}

} // verus!
