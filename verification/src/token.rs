use vstd::prelude::*;

use crate::position::Position;
use crate::util::str_eq;

verus! {

/// The closed set of lexical token kinds. A `Float` literal carries the bit
/// pattern of the 32-bit IEEE value it denotes, since the verified library
/// keeps floating-point data as plain bits.
#[derive(Debug, Clone)]
pub enum TokenKind {
    Identifier(String),
    // Keywords
    NoneLiteral,
    Not,
    And,
    Or,
    Let,
    If,
    Else,
    While,
    Def,
    Return,
    // Literals
    Character(char),
    String(String),
    Integer(i32),
    Float(u32),
    Boolean(bool),
    // Operators
    Addition,
    Subtraction,
    Multiplication,
    Division,
    Modulo,
    Power,
    Assignment,
    Equals,
    NotEquals,
    Greater,
    GreaterEq,
    LessThan,
    LessThanEq,
    // Brackets
    RightParen,
    LeftParen,
    RightCurly,
    LeftCurly,
    RightBracket,
    LeftBracket,
    // Arrows
    Arrow,
    DoubleArrow,
    // Other
    Comma,
    NewLine,
}

/// The mathematical model of a token kind: string payloads become
/// character sequences.
pub enum TokenKindV {
    Identifier(Seq<char>),
    NoneLiteral,
    Not,
    And,
    Or,
    Let,
    If,
    Else,
    While,
    Def,
    Return,
    Character(char),
    String(Seq<char>),
    Integer(i32),
    Float(u32),
    Boolean(bool),
    Addition,
    Subtraction,
    Multiplication,
    Division,
    Modulo,
    Power,
    Assignment,
    Equals,
    NotEquals,
    Greater,
    GreaterEq,
    LessThan,
    LessThanEq,
    RightParen,
    LeftParen,
    RightCurly,
    LeftCurly,
    RightBracket,
    LeftBracket,
    Arrow,
    DoubleArrow,
    Comma,
    NewLine,
}

impl View for TokenKind {
    type V = TokenKindV;

    open spec fn view(&self) -> TokenKindV {
        match self {
            TokenKind::Identifier(s) => TokenKindV::Identifier(s@),
            TokenKind::NoneLiteral => TokenKindV::NoneLiteral,
            TokenKind::Not => TokenKindV::Not,
            TokenKind::And => TokenKindV::And,
            TokenKind::Or => TokenKindV::Or,
            TokenKind::Let => TokenKindV::Let,
            TokenKind::If => TokenKindV::If,
            TokenKind::Else => TokenKindV::Else,
            TokenKind::While => TokenKindV::While,
            TokenKind::Def => TokenKindV::Def,
            TokenKind::Return => TokenKindV::Return,
            TokenKind::Character(c) => TokenKindV::Character(*c),
            TokenKind::String(s) => TokenKindV::String(s@),
            TokenKind::Integer(i) => TokenKindV::Integer(*i),
            TokenKind::Float(b) => TokenKindV::Float(*b),
            TokenKind::Boolean(b) => TokenKindV::Boolean(*b),
            TokenKind::Addition => TokenKindV::Addition,
            TokenKind::Subtraction => TokenKindV::Subtraction,
            TokenKind::Multiplication => TokenKindV::Multiplication,
            TokenKind::Division => TokenKindV::Division,
            TokenKind::Modulo => TokenKindV::Modulo,
            TokenKind::Power => TokenKindV::Power,
            TokenKind::Assignment => TokenKindV::Assignment,
            TokenKind::Equals => TokenKindV::Equals,
            TokenKind::NotEquals => TokenKindV::NotEquals,
            TokenKind::Greater => TokenKindV::Greater,
            TokenKind::GreaterEq => TokenKindV::GreaterEq,
            TokenKind::LessThan => TokenKindV::LessThan,
            TokenKind::LessThanEq => TokenKindV::LessThanEq,
            TokenKind::RightParen => TokenKindV::RightParen,
            TokenKind::LeftParen => TokenKindV::LeftParen,
            TokenKind::RightCurly => TokenKindV::RightCurly,
            TokenKind::LeftCurly => TokenKindV::LeftCurly,
            TokenKind::RightBracket => TokenKindV::RightBracket,
            TokenKind::LeftBracket => TokenKindV::LeftBracket,
            TokenKind::Arrow => TokenKindV::Arrow,
            TokenKind::DoubleArrow => TokenKindV::DoubleArrow,
            TokenKind::Comma => TokenKindV::Comma,
            TokenKind::NewLine => TokenKindV::NewLine,
        }
    }
}

/// Whether two token kinds share a variant, whatever their payloads. The
/// grammar looks ahead by kind alone, so `==` on `TokenKind` is defined to
/// mean exactly this.
pub open spec fn same_kind(a: TokenKindV, b: TokenKindV) -> bool {
    match (a, b) {
        (TokenKindV::Identifier(_), TokenKindV::Identifier(_)) => true,
        (TokenKindV::NoneLiteral, TokenKindV::NoneLiteral) => true,
        (TokenKindV::Not, TokenKindV::Not) => true,
        (TokenKindV::And, TokenKindV::And) => true,
        (TokenKindV::Or, TokenKindV::Or) => true,
        (TokenKindV::Let, TokenKindV::Let) => true,
        (TokenKindV::If, TokenKindV::If) => true,
        (TokenKindV::Else, TokenKindV::Else) => true,
        (TokenKindV::While, TokenKindV::While) => true,
        (TokenKindV::Def, TokenKindV::Def) => true,
        (TokenKindV::Return, TokenKindV::Return) => true,
        (TokenKindV::Character(_), TokenKindV::Character(_)) => true,
        (TokenKindV::String(_), TokenKindV::String(_)) => true,
        (TokenKindV::Integer(_), TokenKindV::Integer(_)) => true,
        (TokenKindV::Float(_), TokenKindV::Float(_)) => true,
        (TokenKindV::Boolean(_), TokenKindV::Boolean(_)) => true,
        (TokenKindV::Addition, TokenKindV::Addition) => true,
        (TokenKindV::Subtraction, TokenKindV::Subtraction) => true,
        (TokenKindV::Multiplication, TokenKindV::Multiplication) => true,
        (TokenKindV::Division, TokenKindV::Division) => true,
        (TokenKindV::Modulo, TokenKindV::Modulo) => true,
        (TokenKindV::Power, TokenKindV::Power) => true,
        (TokenKindV::Assignment, TokenKindV::Assignment) => true,
        (TokenKindV::Equals, TokenKindV::Equals) => true,
        (TokenKindV::NotEquals, TokenKindV::NotEquals) => true,
        (TokenKindV::Greater, TokenKindV::Greater) => true,
        (TokenKindV::GreaterEq, TokenKindV::GreaterEq) => true,
        (TokenKindV::LessThan, TokenKindV::LessThan) => true,
        (TokenKindV::LessThanEq, TokenKindV::LessThanEq) => true,
        (TokenKindV::RightParen, TokenKindV::RightParen) => true,
        (TokenKindV::LeftParen, TokenKindV::LeftParen) => true,
        (TokenKindV::RightCurly, TokenKindV::RightCurly) => true,
        (TokenKindV::LeftCurly, TokenKindV::LeftCurly) => true,
        (TokenKindV::RightBracket, TokenKindV::RightBracket) => true,
        (TokenKindV::LeftBracket, TokenKindV::LeftBracket) => true,
        (TokenKindV::Arrow, TokenKindV::Arrow) => true,
        (TokenKindV::DoubleArrow, TokenKindV::DoubleArrow) => true,
        (TokenKindV::Comma, TokenKindV::Comma) => true,
        (TokenKindV::NewLine, TokenKindV::NewLine) => true,
        _ => false,
    }
}

impl PartialEq for TokenKind {
    /// Equality on token kinds is structural on the variant alone: payloads
    /// are ignored, which is what the parser's lookahead needs.
    fn eq(&self, other: &Self) -> (r: bool) {
        match (self, other) {
            (TokenKind::Identifier(_), TokenKind::Identifier(_)) => true,
            (TokenKind::NoneLiteral, TokenKind::NoneLiteral) => true,
            (TokenKind::Not, TokenKind::Not) => true,
            (TokenKind::And, TokenKind::And) => true,
            (TokenKind::Or, TokenKind::Or) => true,
            (TokenKind::Let, TokenKind::Let) => true,
            (TokenKind::If, TokenKind::If) => true,
            (TokenKind::Else, TokenKind::Else) => true,
            (TokenKind::While, TokenKind::While) => true,
            (TokenKind::Def, TokenKind::Def) => true,
            (TokenKind::Return, TokenKind::Return) => true,
            (TokenKind::Character(_), TokenKind::Character(_)) => true,
            (TokenKind::String(_), TokenKind::String(_)) => true,
            (TokenKind::Integer(_), TokenKind::Integer(_)) => true,
            (TokenKind::Float(_), TokenKind::Float(_)) => true,
            (TokenKind::Boolean(_), TokenKind::Boolean(_)) => true,
            (TokenKind::Addition, TokenKind::Addition) => true,
            (TokenKind::Subtraction, TokenKind::Subtraction) => true,
            (TokenKind::Multiplication, TokenKind::Multiplication) => true,
            (TokenKind::Division, TokenKind::Division) => true,
            (TokenKind::Modulo, TokenKind::Modulo) => true,
            (TokenKind::Power, TokenKind::Power) => true,
            (TokenKind::Assignment, TokenKind::Assignment) => true,
            (TokenKind::Equals, TokenKind::Equals) => true,
            (TokenKind::NotEquals, TokenKind::NotEquals) => true,
            (TokenKind::Greater, TokenKind::Greater) => true,
            (TokenKind::GreaterEq, TokenKind::GreaterEq) => true,
            (TokenKind::LessThan, TokenKind::LessThan) => true,
            (TokenKind::LessThanEq, TokenKind::LessThanEq) => true,
            (TokenKind::RightParen, TokenKind::RightParen) => true,
            (TokenKind::LeftParen, TokenKind::LeftParen) => true,
            (TokenKind::RightCurly, TokenKind::RightCurly) => true,
            (TokenKind::LeftCurly, TokenKind::LeftCurly) => true,
            (TokenKind::RightBracket, TokenKind::RightBracket) => true,
            (TokenKind::LeftBracket, TokenKind::LeftBracket) => true,
            (TokenKind::Arrow, TokenKind::Arrow) => true,
            (TokenKind::DoubleArrow, TokenKind::DoubleArrow) => true,
            (TokenKind::Comma, TokenKind::Comma) => true,
            (TokenKind::NewLine, TokenKind::NewLine) => true,
            _ => false,
        }
    }
}

impl vstd::std_specs::cmp::PartialEqSpecImpl for TokenKind {
    open spec fn obeys_eq_spec() -> bool {
        true
    }

    open spec fn eq_spec(&self, other: &Self) -> bool {
        same_kind(self@, other@)
    }
}

impl TokenKind {
    /// Looks an identifier's text up in the keyword table; `None` means the
    /// text is an ordinary identifier.
    pub fn from_str(identifier: &str) -> (r: Option<TokenKind>)
        ensures
            match keyword_of(identifier@) {
                Some(k) => r matches Some(t) && t@ == k,
                None => r is None,
            },
    {
        proof {
            reveal_strlit("true");
            reveal_strlit("false");
            reveal_strlit("none");
            reveal_strlit("not");
            reveal_strlit("and");
            reveal_strlit("or");
            reveal_strlit("let");
            reveal_strlit("if");
            reveal_strlit("else");
            reveal_strlit("while");
            reveal_strlit("def");
            reveal_strlit("return");
        }
        if str_eq(identifier, "true") {
            Some(TokenKind::Boolean(true))
        } else if str_eq(identifier, "false") {
            Some(TokenKind::Boolean(false))
        } else if str_eq(identifier, "none") {
            Some(TokenKind::NoneLiteral)
        } else if str_eq(identifier, "not") {
            Some(TokenKind::Not)
        } else if str_eq(identifier, "and") {
            Some(TokenKind::And)
        } else if str_eq(identifier, "or") {
            Some(TokenKind::Or)
        } else if str_eq(identifier, "let") {
            Some(TokenKind::Let)
        } else if str_eq(identifier, "if") {
            Some(TokenKind::If)
        } else if str_eq(identifier, "else") {
            Some(TokenKind::Else)
        } else if str_eq(identifier, "while") {
            Some(TokenKind::While)
        } else if str_eq(identifier, "def") {
            Some(TokenKind::Def)
        } else if str_eq(identifier, "return") {
            Some(TokenKind::Return)
        } else {
            None
        }
    }

    /// The human-readable name of this kind of token, for diagnostics.
    pub fn to_kind(&self) -> (r: String)
        ensures
            r@ == kind_name(self@),
    {
        match self {
            TokenKind::Identifier(_) => "Identifier".to_owned(),
            TokenKind::NoneLiteral => "None".to_owned(),
            TokenKind::Not => "Not".to_owned(),
            TokenKind::And => "And".to_owned(),
            TokenKind::Or => "Or".to_owned(),
            TokenKind::Let => "Let".to_owned(),
            TokenKind::If => "If".to_owned(),
            TokenKind::Else => "Else".to_owned(),
            TokenKind::While => "While".to_owned(),
            TokenKind::Def => "Def".to_owned(),
            TokenKind::Return => "Return".to_owned(),
            TokenKind::Character(_) => "Character".to_owned(),
            TokenKind::String(_) => "String".to_owned(),
            TokenKind::Integer(_) => "Integer".to_owned(),
            TokenKind::Float(_) => "Float".to_owned(),
            TokenKind::Boolean(_) => "Boolean".to_owned(),
            TokenKind::Addition => "Addition".to_owned(),
            TokenKind::Subtraction => "Subtraction".to_owned(),
            TokenKind::Multiplication => "Multiplication".to_owned(),
            TokenKind::Division => "Division".to_owned(),
            TokenKind::Modulo => "Modulo".to_owned(),
            TokenKind::Power => "Power".to_owned(),
            TokenKind::Assignment => "Assignment".to_owned(),
            TokenKind::Equals => "Equals".to_owned(),
            TokenKind::NotEquals => "NotEquals".to_owned(),
            TokenKind::Greater => "Greater".to_owned(),
            TokenKind::GreaterEq => "GreaterEq".to_owned(),
            TokenKind::LessThan => "LessThan".to_owned(),
            TokenKind::LessThanEq => "LessThanEq".to_owned(),
            TokenKind::RightParen => "RightParen".to_owned(),
            TokenKind::LeftParen => "LeftParen".to_owned(),
            TokenKind::RightCurly => "RightCurly".to_owned(),
            TokenKind::LeftCurly => "LeftCurly".to_owned(),
            TokenKind::RightBracket => "RightBracket".to_owned(),
            TokenKind::LeftBracket => "LeftBracket".to_owned(),
            TokenKind::Arrow => "Arrow".to_owned(),
            TokenKind::DoubleArrow => "DoubleArrow".to_owned(),
            TokenKind::Comma => "Comma".to_owned(),
            TokenKind::NewLine => "NewLine".to_owned(),
        }
    }

    /// Rebuilds this kind, payload included.
    pub fn duplicate(&self) -> (r: TokenKind)
        ensures
            r == *self,
    {
        match self {
            TokenKind::Identifier(s) => TokenKind::Identifier(s.clone()),
            TokenKind::NoneLiteral => TokenKind::NoneLiteral,
            TokenKind::Not => TokenKind::Not,
            TokenKind::And => TokenKind::And,
            TokenKind::Or => TokenKind::Or,
            TokenKind::Let => TokenKind::Let,
            TokenKind::If => TokenKind::If,
            TokenKind::Else => TokenKind::Else,
            TokenKind::While => TokenKind::While,
            TokenKind::Def => TokenKind::Def,
            TokenKind::Return => TokenKind::Return,
            TokenKind::Character(c) => TokenKind::Character(*c),
            TokenKind::String(s) => TokenKind::String(s.clone()),
            TokenKind::Integer(i) => TokenKind::Integer(*i),
            TokenKind::Float(b) => TokenKind::Float(*b),
            TokenKind::Boolean(b) => TokenKind::Boolean(*b),
            TokenKind::Addition => TokenKind::Addition,
            TokenKind::Subtraction => TokenKind::Subtraction,
            TokenKind::Multiplication => TokenKind::Multiplication,
            TokenKind::Division => TokenKind::Division,
            TokenKind::Modulo => TokenKind::Modulo,
            TokenKind::Power => TokenKind::Power,
            TokenKind::Assignment => TokenKind::Assignment,
            TokenKind::Equals => TokenKind::Equals,
            TokenKind::NotEquals => TokenKind::NotEquals,
            TokenKind::Greater => TokenKind::Greater,
            TokenKind::GreaterEq => TokenKind::GreaterEq,
            TokenKind::LessThan => TokenKind::LessThan,
            TokenKind::LessThanEq => TokenKind::LessThanEq,
            TokenKind::RightParen => TokenKind::RightParen,
            TokenKind::LeftParen => TokenKind::LeftParen,
            TokenKind::RightCurly => TokenKind::RightCurly,
            TokenKind::LeftCurly => TokenKind::LeftCurly,
            TokenKind::RightBracket => TokenKind::RightBracket,
            TokenKind::LeftBracket => TokenKind::LeftBracket,
            TokenKind::Arrow => TokenKind::Arrow,
            TokenKind::DoubleArrow => TokenKind::DoubleArrow,
            TokenKind::Comma => TokenKind::Comma,
            TokenKind::NewLine => TokenKind::NewLine,
        }
    }
}

/// The keyword table: which reserved words denote which token kinds.
pub open spec fn keyword_of(s: Seq<char>) -> Option<TokenKindV> {
    if s == "true"@ {
        Some(TokenKindV::Boolean(true))
    } else if s == "false"@ {
        Some(TokenKindV::Boolean(false))
    } else if s == "none"@ {
        Some(TokenKindV::NoneLiteral)
    } else if s == "not"@ {
        Some(TokenKindV::Not)
    } else if s == "and"@ {
        Some(TokenKindV::And)
    } else if s == "or"@ {
        Some(TokenKindV::Or)
    } else if s == "let"@ {
        Some(TokenKindV::Let)
    } else if s == "if"@ {
        Some(TokenKindV::If)
    } else if s == "else"@ {
        Some(TokenKindV::Else)
    } else if s == "while"@ {
        Some(TokenKindV::While)
    } else if s == "def"@ {
        Some(TokenKindV::Def)
    } else if s == "return"@ {
        Some(TokenKindV::Return)
    } else {
        None
    }
}

/// The diagnostic name of each token kind.
pub open spec fn kind_name(k: TokenKindV) -> Seq<char> {
    match k {
        TokenKindV::Identifier(_) => "Identifier"@,
        TokenKindV::NoneLiteral => "None"@,
        TokenKindV::Not => "Not"@,
        TokenKindV::And => "And"@,
        TokenKindV::Or => "Or"@,
        TokenKindV::Let => "Let"@,
        TokenKindV::If => "If"@,
        TokenKindV::Else => "Else"@,
        TokenKindV::While => "While"@,
        TokenKindV::Def => "Def"@,
        TokenKindV::Return => "Return"@,
        TokenKindV::Character(_) => "Character"@,
        TokenKindV::String(_) => "String"@,
        TokenKindV::Integer(_) => "Integer"@,
        TokenKindV::Float(_) => "Float"@,
        TokenKindV::Boolean(_) => "Boolean"@,
        TokenKindV::Addition => "Addition"@,
        TokenKindV::Subtraction => "Subtraction"@,
        TokenKindV::Multiplication => "Multiplication"@,
        TokenKindV::Division => "Division"@,
        TokenKindV::Modulo => "Modulo"@,
        TokenKindV::Power => "Power"@,
        TokenKindV::Assignment => "Assignment"@,
        TokenKindV::Equals => "Equals"@,
        TokenKindV::NotEquals => "NotEquals"@,
        TokenKindV::Greater => "Greater"@,
        TokenKindV::GreaterEq => "GreaterEq"@,
        TokenKindV::LessThan => "LessThan"@,
        TokenKindV::LessThanEq => "LessThanEq"@,
        TokenKindV::RightParen => "RightParen"@,
        TokenKindV::LeftParen => "LeftParen"@,
        TokenKindV::RightCurly => "RightCurly"@,
        TokenKindV::LeftCurly => "LeftCurly"@,
        TokenKindV::RightBracket => "RightBracket"@,
        TokenKindV::LeftBracket => "LeftBracket"@,
        TokenKindV::Arrow => "Arrow"@,
        TokenKindV::DoubleArrow => "DoubleArrow"@,
        TokenKindV::Comma => "Comma"@,
        TokenKindV::NewLine => "NewLine"@,
    }
}

/// A token: its kind, where its lexeme starts, and, for lexemes longer than
/// one character, where it ends.
#[derive(Debug, Clone)]
pub struct Token {
    pub start: Position,
    pub end: Option<Position>,
    pub kind: TokenKind,
}

/// The mathematical model of a token.
pub struct TokenV {
    pub start: Position,
    pub end: Option<Position>,
    pub kind: TokenKindV,
}

impl View for Token {
    type V = TokenV;

    open spec fn view(&self) -> TokenV {
        TokenV { start: self.start, end: self.end, kind: self.kind@ }
    }
}

impl Token {
    /// Builds a token from its span and kind.
    pub fn new(start: Position, end: Option<Position>, kind: TokenKind) -> (t: Token)
        ensures
            t@ == (TokenV { start, end, kind: kind@ }),
    {
        Token { start, end, kind }
    }

    /// Rebuilds this token, payload included.
    pub fn duplicate(&self) -> (r: Token)
        ensures
            r == *self,
    {
        Token { start: self.start, end: self.end, kind: self.kind.duplicate() }
    }
}

} // verus!
