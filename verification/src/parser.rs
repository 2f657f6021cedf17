use vstd::prelude::*;

use crate::error::{Error, ErrorV, Syntax, SyntaxV};
use crate::node::{is_identifier, is_literal, nodes_view, wf_node, Node, NodeV};
use crate::token::{same_kind, Token, TokenKind, TokenKindV, TokenV};
use crate::tokenizer::Tokenizer;

verus! {

/// One item of the lexer's stream, as the grammar model sees it.
pub type LexItem = Result<TokenV, SyntaxV>;

// ---------------------------------------------------------------------------
// The mathematical model of the grammar: each function maps the remaining
// lexical stream to the tree (or error) the parser yields and the stream it
// leaves behind. The executable `Parser` below is proven to return exactly
// these values. Two clamps make the recursive definitions total for the
// termination checker: where a definition goes on parsing from a callee's
// leftover stream, the leftover is clamped to be no longer than (or strictly
// shorter than) the input. On the executable path the clamps provably never
// fire: every use site shows the callee really stayed within its input.
// ---------------------------------------------------------------------------
/// A callee's leftover stream, clamped to be no longer than the input.
pub open spec fn bounded_rest(items: Seq<LexItem>, rest: Seq<LexItem>) -> Seq<LexItem> {
    if rest.len() <= items.len() {
        rest
    } else {
        Seq::empty()
    }
}

/// A callee's leftover stream, clamped to be strictly shorter than the
/// input.
pub open spec fn consumed_rest(items: Seq<LexItem>, rest: Seq<LexItem>) -> Seq<LexItem> {
    if rest.len() < items.len() {
        rest
    } else {
        Seq::empty()
    }
}

/// What taking one token of a demanded kind yields: the token when the
/// next item has that kind, the unexpected-token error when it has another,
/// the lexical error when the lexer failed, and the unexpected-end error on
/// a spent stream.
pub open spec fn expect_token_spec(items: Seq<LexItem>, expected: TokenKindV) -> (
    Result<TokenV, ErrorV>,
    Seq<LexItem>,
) {
    if items.len() == 0 {
        (Err(ErrorV::Syntax(SyntaxV::UnexpectedEOF)), items)
    } else {
        match items[0] {
            Ok(t) => if same_kind(t.kind, expected) {
                (Ok(t), items.drop_first())
            } else {
                (
                    Err(
                        ErrorV::Syntax(
                            SyntaxV::UnexpectedToken { token: t, expected: seq![expected] },
                        ),
                    ),
                    items.drop_first(),
                )
            },
            Err(e) => (Err(ErrorV::Syntax(e)), items.drop_first()),
        }
    }
}

/// What closing a delimited region yields: unit when the next token is the
/// closer, and otherwise the unclosed-delimiter error naming the opener and
/// what stood in the closer's place.
pub open spec fn close_delimiter_spec(
    items: Seq<LexItem>,
    start: TokenV,
    delimiter: TokenKindV,
) -> (Result<(), ErrorV>, Seq<LexItem>) {
    if items.len() == 0 {
        (
            Err(
                ErrorV::Syntax(
                    SyntaxV::UnclosedTokenDelimeter { start, found: None, delimiter },
                ),
            ),
            items,
        )
    } else {
        match items[0] {
            Ok(t) => if same_kind(t.kind, delimiter) {
                (Ok(()), items.drop_first())
            } else {
                (
                    Err(
                        ErrorV::Syntax(
                            SyntaxV::UnclosedTokenDelimeter { start, found: Some(t), delimiter },
                        ),
                    ),
                    items.drop_first(),
                )
            },
            Err(e) => (Err(ErrorV::Syntax(e)), items.drop_first()),
        }
    }
}

/// The stream with every leading token of one kind skipped.
pub open spec fn consume_spec(items: Seq<LexItem>, kind: TokenKindV) -> Seq<LexItem>
    decreases items.len(),
{
    if items.len() > 0 && (items[0] matches Ok(t) && same_kind(t.kind, kind)) {
        consume_spec(items.drop_first(), kind)
    } else {
        items
    }
}

/// What a parameter-name list yields: the identifier tokens in source
/// order, the closing parenthesis left unconsumed; a misplaced identifier,
/// comma or closer is an unexpected-token error naming what was expected.
/// `expect` says whether a name (rather than a separator) is due; `none_yet`
/// whether no name has been read.
#[verifier::opaque]
pub open spec fn arguments_loop_spec(items: Seq<LexItem>, expect: bool, none_yet: bool) -> (
    Result<Seq<TokenV>, ErrorV>,
    Seq<LexItem>,
)
    decreases items.len(),
{
    if items.len() == 0 || !(items[0] is Ok) {
        (Ok(Seq::empty()), items)
    } else {
        let t = items[0]->Ok_0;
        if same_kind(t.kind, TokenKindV::Identifier(Seq::empty())) {
            if expect {
                let r = arguments_loop_spec(items.drop_first(), false, false);
                match r.0 {
                    Ok(rest_args) => (Ok(seq![t] + rest_args), r.1),
                    Err(e) => (Err(e), r.1),
                }
            } else {
                (
                    Err(
                        ErrorV::Syntax(
                            SyntaxV::UnexpectedToken {
                                token: t,
                                expected: seq![TokenKindV::RightParen, TokenKindV::Comma],
                            },
                        ),
                    ),
                    items.drop_first(),
                )
            }
        } else if same_kind(t.kind, TokenKindV::Comma) {
            if !expect {
                arguments_loop_spec(items.drop_first(), true, none_yet)
            } else {
                (
                    Err(
                        ErrorV::Syntax(
                            SyntaxV::UnexpectedToken {
                                token: t,
                                expected: seq![TokenKindV::Identifier(Seq::empty())],
                            },
                        ),
                    ),
                    items.drop_first(),
                )
            }
        } else if same_kind(t.kind, TokenKindV::RightParen) {
            if !expect || none_yet {
                (Ok(Seq::empty()), items)
            } else {
                (
                    Err(
                        ErrorV::Syntax(
                            SyntaxV::UnexpectedToken {
                                token: t,
                                expected: seq![TokenKindV::Identifier(Seq::empty())],
                            },
                        ),
                    ),
                    items.drop_first(),
                )
            }
        } else {
            if expect {
                (
                    Err(
                        ErrorV::Syntax(
                            SyntaxV::UnexpectedToken {
                                token: t,
                                expected: seq![TokenKindV::Identifier(Seq::empty())],
                            },
                        ),
                    ),
                    items.drop_first(),
                )
            } else {
                (
                    Err(
                        ErrorV::Syntax(
                            SyntaxV::UnexpectedToken {
                                token: t,
                                expected: seq![TokenKindV::Comma, TokenKindV::RightParen],
                            },
                        ),
                    ),
                    items.drop_first(),
                )
            }
        }
    }
}

/// A declaration's whole parameter-name list, from its start.
#[verifier::opaque]
pub open spec fn parse_arguments_spec(items: Seq<LexItem>) -> (
    Result<Seq<TokenV>, ErrorV>,
    Seq<LexItem>,
) {
    arguments_loop_spec(items, true, true)
}

/// What one atom yields: a parenthesized expression (the inner tree, the
/// parentheses adding no node, their closer demanded), a bracketed list
/// literal, a literal token, or an identifier that lookahead refines into a
/// call, an index or a plain access; any other token is an unexpected-token
/// error listing what an atom may start with.
#[verifier::opaque]
pub open spec fn parse_atom_spec(items: Seq<LexItem>) -> (Result<NodeV, ErrorV>, Seq<LexItem>)
    decreases items.len(), 0int,
{
    if items.len() == 0 {
        (Err(ErrorV::Syntax(SyntaxV::UnexpectedEOF)), items)
    } else {
        match items[0] {
            Err(e) => (Err(ErrorV::Syntax(e)), items.drop_first()),
            Ok(t) => {
                let rest0 = items.drop_first();
                if same_kind(t.kind, TokenKindV::LeftParen) {
                    let r = parse_bool_expr_spec(rest0);
                    match r.0 {
                        Err(e) => (Err(e), r.1),
                        Ok(n) => {
                            let c = close_delimiter_spec(r.1, t, TokenKindV::RightParen);
                            match c.0 {
                                Err(e) => (Err(e), c.1),
                                Ok(u) => (Ok(n), c.1),
                            }
                        },
                    }
                } else if same_kind(t.kind, TokenKindV::LeftBracket) {
                    let r = parse_parameters_spec(rest0, TokenKindV::RightBracket);
                    match r.0 {
                        Err(e) => (Err(e), r.1),
                        Ok(ns) => {
                            let c = close_delimiter_spec(r.1, t, TokenKindV::RightBracket);
                            match c.0 {
                                Err(e) => (Err(e), c.1),
                                Ok(u) => (Ok(NodeV::List { values: ns }), c.1),
                            }
                        },
                    }
                } else if is_literal(t) {
                    (Ok(NodeV::Atom { value: t }), rest0)
                } else if same_kind(t.kind, TokenKindV::Identifier(Seq::empty())) {
                    if rest0.len() > 0 && (rest0[0] matches Ok(u) && same_kind(
                        u.kind,
                        TokenKindV::LeftParen,
                    )) {
                        parse_func_call_spec(rest0, t)
                    } else if rest0.len() > 0 && (rest0[0] matches Ok(u) && same_kind(
                        u.kind,
                        TokenKindV::LeftBracket,
                    )) {
                        parse_index_spec(rest0, t)
                    } else {
                        (Ok(NodeV::Access { identifier: t }), rest0)
                    }
                } else {
                    (
                        Err(
                            ErrorV::Syntax(
                                SyntaxV::UnexpectedToken {
                                    token: t,
                                    expected: seq![
                                        TokenKindV::LeftParen,
                                        TokenKindV::Integer(0),
                                        TokenKindV::Float(0),
                                        TokenKindV::Identifier(Seq::empty()),
                                        TokenKindV::String(Seq::empty()),
                                        TokenKindV::Character(' '),
                                        TokenKindV::Addition,
                                        TokenKindV::Subtraction,
                                    ],
                                },
                            ),
                        ),
                        rest0,
                    )
                }
            },
        }
    }
}

/// What the rest of a power expression yields after a left operand: each
/// `^` takes its right operand through the unary level, so the operator
/// nests to the right.
#[verifier::opaque]
pub open spec fn power_more_spec(left: NodeV, items: Seq<LexItem>) -> (
    Result<NodeV, ErrorV>,
    Seq<LexItem>,
)
    decreases items.len(), 1int,
{
    if items.len() > 0 && (items[0] matches Ok(t) && same_kind(t.kind, TokenKindV::Power)) {
        let t = items[0]->Ok_0;
        let r = parse_factor_spec(items.drop_first());
        match r.0 {
            Err(e) => (Err(e), r.1),
            Ok(right) => power_more_spec(
                NodeV::BinaryOp { left: Box::new(left), operator: t, right: Box::new(right) },
                consumed_rest(items, r.1),
            ),
        }
    } else {
        (Ok(left), items)
    }
}

/// A power expression: an atom, then `^` operands nesting to the right.
#[verifier::opaque]
pub open spec fn parse_power_spec(items: Seq<LexItem>) -> (Result<NodeV, ErrorV>, Seq<LexItem>)
    decreases items.len(), 2int,
{
    let r = parse_atom_spec(items);
    match r.0 {
        Err(e) => (Err(e), r.1),
        Ok(n) => power_more_spec(n, bounded_rest(items, r.1)),
    }
}

/// A signed factor: prefix `+` and `-` nest to the right over factors;
/// anything else is a power expression.
#[verifier::opaque]
pub open spec fn parse_factor_spec(items: Seq<LexItem>) -> (Result<NodeV, ErrorV>, Seq<LexItem>)
    decreases items.len(), 3int,
{
    if items.len() > 0 && (items[0] matches Ok(t) && (same_kind(t.kind, TokenKindV::Subtraction)
        || same_kind(t.kind, TokenKindV::Addition))) {
        let t = items[0]->Ok_0;
        let r = parse_factor_spec(items.drop_first());
        match r.0 {
            Err(e) => (Err(e), r.1),
            Ok(n) => (Ok(NodeV::UnaryOp { operator: t, value: Box::new(n) }), r.1),
        }
    } else {
        parse_power_spec(items)
    }
}

/// What the rest of a term yields after a left operand: `*`, `/` and `%`
/// fold to the left over factors.
#[verifier::opaque]
pub open spec fn term_more_spec(left: NodeV, items: Seq<LexItem>) -> (
    Result<NodeV, ErrorV>,
    Seq<LexItem>,
)
    decreases items.len(), 4int,
{
    if items.len() > 0 && (items[0] matches Ok(t) && (same_kind(
        t.kind,
        TokenKindV::Multiplication,
    ) || same_kind(t.kind, TokenKindV::Division) || same_kind(t.kind, TokenKindV::Modulo))) {
        let t = items[0]->Ok_0;
        let r = parse_factor_spec(items.drop_first());
        match r.0 {
            Err(e) => (Err(e), r.1),
            Ok(right) => term_more_spec(
                NodeV::BinaryOp { left: Box::new(left), operator: t, right: Box::new(right) },
                consumed_rest(items, r.1),
            ),
        }
    } else {
        (Ok(left), items)
    }
}

/// A term: factors joined by `*`, `/` and `%`, folding to the left.
#[verifier::opaque]
pub open spec fn parse_term_spec(items: Seq<LexItem>) -> (Result<NodeV, ErrorV>, Seq<LexItem>)
    decreases items.len(), 5int,
{
    let r = parse_factor_spec(items);
    match r.0 {
        Err(e) => (Err(e), r.1),
        Ok(n) => term_more_spec(n, bounded_rest(items, r.1)),
    }
}

/// What the rest of a sum yields after a left operand: `+` and `-` fold to
/// the left over terms.
#[verifier::opaque]
pub open spec fn expr_more_spec(left: NodeV, items: Seq<LexItem>) -> (
    Result<NodeV, ErrorV>,
    Seq<LexItem>,
)
    decreases items.len(), 6int,
{
    if items.len() > 0 && (items[0] matches Ok(t) && (same_kind(t.kind, TokenKindV::Addition)
        || same_kind(t.kind, TokenKindV::Subtraction))) {
        let t = items[0]->Ok_0;
        let r = parse_term_spec(items.drop_first());
        match r.0 {
            Err(e) => (Err(e), r.1),
            Ok(right) => expr_more_spec(
                NodeV::BinaryOp { left: Box::new(left), operator: t, right: Box::new(right) },
                consumed_rest(items, r.1),
            ),
        }
    } else {
        (Ok(left), items)
    }
}

/// A sum: terms joined by `+` and `-`, folding to the left, so `*`, `/`
/// and `%` bind tighter than `+` and `-`.
#[verifier::opaque]
pub open spec fn parse_expr_spec(items: Seq<LexItem>) -> (Result<NodeV, ErrorV>, Seq<LexItem>)
    decreases items.len(), 7int,
{
    let r = parse_term_spec(items);
    match r.0 {
        Err(e) => (Err(e), r.1),
        Ok(n) => expr_more_spec(n, bounded_rest(items, r.1)),
    }
}

/// Whether a token is one of the comparison operators.
pub open spec fn is_comparison_kind(k: TokenKindV) -> bool {
    same_kind(k, TokenKindV::Equals) || same_kind(k, TokenKindV::NotEquals) || same_kind(
        k,
        TokenKindV::Greater,
    ) || same_kind(k, TokenKindV::GreaterEq) || same_kind(k, TokenKindV::LessThan) || same_kind(
        k,
        TokenKindV::LessThanEq,
    )
}

/// What the rest of a comparison yields after a left operand.
#[verifier::opaque]
pub open spec fn comparison_more_spec(left: NodeV, items: Seq<LexItem>) -> (
    Result<NodeV, ErrorV>,
    Seq<LexItem>,
)
    decreases items.len(), 8int,
{
    if items.len() > 0 && (items[0] matches Ok(t) && is_comparison_kind(t.kind)) {
        let t = items[0]->Ok_0;
        let r = parse_expr_spec(items.drop_first());
        match r.0 {
            Err(e) => (Err(e), r.1),
            Ok(right) => comparison_more_spec(
                NodeV::BinaryOp { left: Box::new(left), operator: t, right: Box::new(right) },
                consumed_rest(items, r.1),
            ),
        }
    } else {
        (Ok(left), items)
    }
}

/// A comparison: sums joined by the comparison operators, folding left.
#[verifier::opaque]
pub open spec fn parse_comparison_spec(items: Seq<LexItem>) -> (
    Result<NodeV, ErrorV>,
    Seq<LexItem>,
)
    decreases items.len(), 9int,
{
    let r = parse_expr_spec(items);
    match r.0 {
        Err(e) => (Err(e), r.1),
        Ok(n) => comparison_more_spec(n, bounded_rest(items, r.1)),
    }
}

/// A boolean factor: prefix `not` nests to the right; anything else is a
/// comparison.
#[verifier::opaque]
pub open spec fn parse_bool_factor_spec(items: Seq<LexItem>) -> (
    Result<NodeV, ErrorV>,
    Seq<LexItem>,
)
    decreases items.len(), 10int,
{
    if items.len() > 0 && (items[0] matches Ok(t) && same_kind(t.kind, TokenKindV::Not)) {
        let t = items[0]->Ok_0;
        let r = parse_bool_factor_spec(items.drop_first());
        match r.0 {
            Err(e) => (Err(e), r.1),
            Ok(n) => (Ok(NodeV::UnaryOp { operator: t, value: Box::new(n) }), r.1),
        }
    } else {
        parse_comparison_spec(items)
    }
}

/// What the rest of a conjunction yields after a left operand.
#[verifier::opaque]
pub open spec fn bool_term_more_spec(left: NodeV, items: Seq<LexItem>) -> (
    Result<NodeV, ErrorV>,
    Seq<LexItem>,
)
    decreases items.len(), 11int,
{
    if items.len() > 0 && (items[0] matches Ok(t) && same_kind(t.kind, TokenKindV::And)) {
        let t = items[0]->Ok_0;
        let r = parse_bool_factor_spec(items.drop_first());
        match r.0 {
            Err(e) => (Err(e), r.1),
            Ok(right) => bool_term_more_spec(
                NodeV::BinaryOp { left: Box::new(left), operator: t, right: Box::new(right) },
                consumed_rest(items, r.1),
            ),
        }
    } else {
        (Ok(left), items)
    }
}

/// A conjunction: boolean factors joined by `and`, folding left.
#[verifier::opaque]
pub open spec fn parse_bool_term_spec(items: Seq<LexItem>) -> (
    Result<NodeV, ErrorV>,
    Seq<LexItem>,
)
    decreases items.len(), 12int,
{
    let r = parse_bool_factor_spec(items);
    match r.0 {
        Err(e) => (Err(e), r.1),
        Ok(n) => bool_term_more_spec(n, bounded_rest(items, r.1)),
    }
}

/// What the rest of a disjunction yields after a left operand.
#[verifier::opaque]
pub open spec fn bool_expr_more_spec(left: NodeV, items: Seq<LexItem>) -> (
    Result<NodeV, ErrorV>,
    Seq<LexItem>,
)
    decreases items.len(), 13int,
{
    if items.len() > 0 && (items[0] matches Ok(t) && same_kind(t.kind, TokenKindV::Or)) {
        let t = items[0]->Ok_0;
        let r = parse_bool_term_spec(items.drop_first());
        match r.0 {
            Err(e) => (Err(e), r.1),
            Ok(right) => bool_expr_more_spec(
                NodeV::BinaryOp { left: Box::new(left), operator: t, right: Box::new(right) },
                consumed_rest(items, r.1),
            ),
        }
    } else {
        (Ok(left), items)
    }
}

/// A disjunction: conjunctions joined by `or`, the loosest expression
/// level.
#[verifier::opaque]
pub open spec fn parse_bool_expr_spec(items: Seq<LexItem>) -> (
    Result<NodeV, ErrorV>,
    Seq<LexItem>,
)
    decreases items.len(), 14int,
{
    let r = parse_bool_term_spec(items);
    match r.0 {
        Err(e) => (Err(e), r.1),
        Ok(n) => bool_expr_more_spec(n, bounded_rest(items, r.1)),
    }
}

/// What a comma-separated expression list yields, after its first
/// expression is due: expressions in source order up to (not through) the
/// delimiter; a missing comma is an unexpected-token error naming the
/// delimiter and the comma.
#[verifier::opaque]
pub open spec fn params_loop_spec(items: Seq<LexItem>, delimiter: TokenKindV) -> (
    Result<Seq<NodeV>, ErrorV>,
    Seq<LexItem>,
)
    decreases items.len(), 15int,
{
    let r = parse_bool_expr_spec(items);
    match r.0 {
        Err(e) => (Err(e), r.1),
        Ok(n) => {
            if r.1.len() == 0 {
                (Ok(seq![n]), r.1)
            } else {
                match r.1[0] {
                    Err(e) => (Err(ErrorV::Syntax(e)), r.1.drop_first()),
                    Ok(t) => if same_kind(t.kind, delimiter) {
                        (Ok(seq![n]), r.1)
                    } else if same_kind(t.kind, TokenKindV::Comma) {
                        if items.len() == 0 {
                            // Unreachable: a matched comma means the input was not empty.
                            (Ok(seq![n]), r.1)
                        } else {
                            let r2 = params_loop_spec(
                                consumed_rest(items, r.1.drop_first()),
                                delimiter,
                            );
                            match r2.0 {
                                Ok(ns) => (Ok(seq![n] + ns), r2.1),
                                Err(e) => (Err(e), r2.1),
                            }
                        }
                    } else {
                        (
                            Err(
                                ErrorV::Syntax(
                                    SyntaxV::UnexpectedToken {
                                        token: t,
                                        expected: seq![delimiter, TokenKindV::Comma],
                                    },
                                ),
                            ),
                            r.1.drop_first(),
                        )
                    },
                }
            }
        },
    }
}

/// A possibly empty expression list up to a delimiter: empty when the
/// delimiter comes first, otherwise the comma-separated expressions.
#[verifier::opaque]
pub open spec fn parse_parameters_spec(items: Seq<LexItem>, delimiter: TokenKindV) -> (
    Result<Seq<NodeV>, ErrorV>,
    Seq<LexItem>,
)
    decreases items.len(), 16int,
{
    if items.len() > 0 && (items[0] matches Ok(t) && same_kind(t.kind, delimiter)) {
        (Ok(Seq::empty()), items)
    } else {
        params_loop_spec(items, delimiter)
    }
}

/// A call's argument list after the callee: a demanded `(`, the
/// expressions, and the demanded `)`.
#[verifier::opaque]
pub open spec fn parse_func_call_spec(items: Seq<LexItem>, identifier: TokenV) -> (
    Result<NodeV, ErrorV>,
    Seq<LexItem>,
)
    decreases items.len(), 17int,
{
    let e1 = expect_token_spec(items, TokenKindV::LeftParen);
    match e1.0 {
        Err(e) => (Err(e), e1.1),
        Ok(start) => {
            let r = parse_parameters_spec(consumed_rest(items, e1.1), TokenKindV::RightParen);
            match r.0 {
                Err(e) => (Err(e), r.1),
                Ok(ns) => {
                    let c = close_delimiter_spec(r.1, start, TokenKindV::RightParen);
                    match c.0 {
                        Err(e) => (Err(e), c.1),
                        Ok(u) => (Ok(NodeV::FuncCall { identifier, parameters: ns }), c.1),
                    }
                },
            }
        },
    }
}

/// An index expression after the indexed identifier: a demanded `[`, a
/// sum, and the demanded `]`.
#[verifier::opaque]
pub open spec fn parse_index_spec(items: Seq<LexItem>, identifier: TokenV) -> (
    Result<NodeV, ErrorV>,
    Seq<LexItem>,
)
    decreases items.len(), 17int,
{
    let e1 = expect_token_spec(items, TokenKindV::LeftBracket);
    match e1.0 {
        Err(e) => (Err(e), e1.1),
        Ok(start) => {
            let r = parse_expr_spec(consumed_rest(items, e1.1));
            match r.0 {
                Err(e) => (Err(e), r.1),
                Ok(n) => {
                    let c = close_delimiter_spec(r.1, start, TokenKindV::RightBracket);
                    match c.0 {
                        Err(e) => (Err(e), c.1),
                        Ok(u) => (Ok(NodeV::Index { identifier, index: Box::new(n) }), c.1),
                    }
                },
            }
        },
    }
}

/// A braced block: a demanded `{`, a program, and the demanded `}`.
#[verifier::opaque]
pub open spec fn parse_block_spec(items: Seq<LexItem>) -> (Result<NodeV, ErrorV>, Seq<LexItem>)
    decreases items.len(), 18int,
{
    let e1 = expect_token_spec(items, TokenKindV::LeftCurly);
    match e1.0 {
        Err(e) => (Err(e), e1.1),
        Ok(start) => {
            let r = parse_program_spec(consumed_rest(items, e1.1));
            match r.0 {
                Err(e) => (Err(e), r.1),
                Ok(n) => {
                    let c = close_delimiter_spec(r.1, start, TokenKindV::RightCurly);
                    match c.0 {
                        Err(e) => (Err(e), c.1),
                        Ok(u) => (Ok(n), c.1),
                    }
                },
            }
        },
    }
}

/// What follows `let x` or a bare `x`: a parenthesized name list and `=>`
/// and a block declare a function; `=` and an expression assign; anything
/// else is an unexpected-token error naming the two openers.
#[verifier::opaque]
pub open spec fn parse_assignment_spec(
    items: Seq<LexItem>,
    identifier: TokenV,
    is_declaration: bool,
) -> (Result<NodeV, ErrorV>, Seq<LexItem>)
    decreases items.len(), 18int,
{
    if items.len() == 0 {
        (Err(ErrorV::Syntax(SyntaxV::UnexpectedEOF)), items)
    } else {
        match items[0] {
            Err(e) => (Err(ErrorV::Syntax(e)), items.drop_first()),
            Ok(t) => {
                let rest0 = items.drop_first();
                if same_kind(t.kind, TokenKindV::LeftParen) {
                    let a = parse_arguments_spec(rest0);
                    match a.0 {
                        Err(e) => (Err(e), a.1),
                        Ok(args) => {
                            let c = close_delimiter_spec(a.1, t, TokenKindV::RightParen);
                            match c.0 {
                                Err(e) => (Err(e), c.1),
                                Ok(u) => {
                                    let d = expect_token_spec(c.1, TokenKindV::DoubleArrow);
                                    match d.0 {
                                        Err(e) => (Err(e), d.1),
                                        Ok(arrow) => {
                                            let b = parse_block_spec(consumed_rest(items, d.1));
                                            match b.0 {
                                                Err(e) => (Err(e), b.1),
                                                Ok(body) => (
                                                    Ok(
                                                        NodeV::FuncDeclaration {
                                                            identifier,
                                                            arguments: args,
                                                            body: Box::new(body),
                                                        },
                                                    ),
                                                    b.1,
                                                ),
                                            }
                                        },
                                    }
                                },
                            }
                        },
                    }
                } else if same_kind(t.kind, TokenKindV::Assignment) {
                    let r = parse_bool_expr_spec(rest0);
                    match r.0 {
                        Err(e) => (Err(e), r.1),
                        Ok(n) => (
                            Ok(
                                NodeV::Assignment {
                                    identifier,
                                    value: Box::new(n),
                                    is_declaration,
                                },
                            ),
                            r.1,
                        ),
                    }
                } else {
                    (
                        Err(
                            ErrorV::Syntax(
                                SyntaxV::UnexpectedToken {
                                    token: t,
                                    expected: seq![
                                        TokenKindV::LeftParen,
                                        TokenKindV::Assignment,
                                    ],
                                },
                            ),
                        ),
                        rest0,
                    )
                }
            },
        }
    }
}

/// An `if` statement from its keyword: a condition, a block, and after any
/// blank lines an optional `else` that chains into another `if` or takes a
/// block.
#[verifier::opaque]
pub open spec fn parse_if_spec(items: Seq<LexItem>) -> (Result<NodeV, ErrorV>, Seq<LexItem>)
    decreases items.len(), 19int,
{
    let r = parse_bool_expr_spec(items.drop_first());
    match r.0 {
        Err(e) => (Err(e), r.1),
        Ok(condition) => {
            let b = parse_block_spec(consumed_rest(items, r.1));
            match b.0 {
                Err(e) => (Err(e), b.1),
                Ok(block) => {
                    let c1 = consume_spec(b.1, TokenKindV::NewLine);
                    if c1.len() > 0 && (c1[0] matches Ok(t) && same_kind(
                        t.kind,
                        TokenKindV::Else,
                    )) {
                        let c2 = consume_spec(c1.drop_first(), TokenKindV::NewLine);
                        if items.len() > 0 && c2.len() > 0 && (c2[0] matches Ok(t) && same_kind(
                            t.kind,
                            TokenKindV::If,
                        )) {
                            let e = parse_if_spec(consumed_rest(items, c2));
                            match e.0 {
                                Err(er) => (Err(er), e.1),
                                Ok(els) => (
                                    Ok(
                                        NodeV::If {
                                            condition: Box::new(condition),
                                            block: Box::new(block),
                                            else_block: Some(Box::new(els)),
                                        },
                                    ),
                                    e.1,
                                ),
                            }
                        } else {
                            let e = parse_block_spec(consumed_rest(items, c2));
                            match e.0 {
                                Err(er) => (Err(er), e.1),
                                Ok(els) => (
                                    Ok(
                                        NodeV::If {
                                            condition: Box::new(condition),
                                            block: Box::new(block),
                                            else_block: Some(Box::new(els)),
                                        },
                                    ),
                                    e.1,
                                ),
                            }
                        }
                    } else {
                        (
                            Ok(
                                NodeV::If {
                                    condition: Box::new(condition),
                                    block: Box::new(block),
                                    else_block: None,
                                },
                            ),
                            c1,
                        )
                    }
                },
            }
        },
    }
}

/// A `while` statement from its keyword: a condition and a block.
#[verifier::opaque]
pub open spec fn parse_while_spec(items: Seq<LexItem>) -> (Result<NodeV, ErrorV>, Seq<LexItem>)
    decreases items.len(), 19int,
{
    let r = parse_bool_expr_spec(items.drop_first());
    match r.0 {
        Err(e) => (Err(e), r.1),
        Ok(condition) => {
            let b = parse_block_spec(consumed_rest(items, r.1));
            match b.0 {
                Err(e) => (Err(e), b.1),
                Ok(block) => (
                    Ok(
                        NodeV::While { condition: Box::new(condition), block: Box::new(block) },
                    ),
                    b.1,
                ),
            }
        },
    }
}

/// A `return` statement from its keyword: its expression, yielded as-is.
#[verifier::opaque]
pub open spec fn parse_return_spec(items: Seq<LexItem>) -> (Result<NodeV, ErrorV>, Seq<LexItem>)
    decreases items.len(), 19int,
{
    let r = parse_bool_expr_spec(items.drop_first());
    match r.0 {
        Err(e) => (Err(e), r.1),
        Ok(n) => (Ok(NodeV::Return { value: Box::new(n) }), r.1),
    }
}

/// What follows a leading identifier in statement position: `=` assigns,
/// `(` calls, `[` assigns through an index; anything else is an
/// unexpected-token error naming `=` and `(`.
#[verifier::opaque]
pub open spec fn parse_identifier_statement_spec(items: Seq<LexItem>) -> (
    Result<NodeV, ErrorV>,
    Seq<LexItem>,
)
    decreases items.len(), 19int,
{
    let e1 = expect_token_spec(items, TokenKindV::Identifier(Seq::empty()));
    match e1.0 {
        Err(e) => (Err(e), e1.1),
        Ok(identifier) => {
            let rest = e1.1;
            if rest.len() == 0 {
                (Err(ErrorV::Syntax(SyntaxV::UnexpectedEOF)), rest)
            } else {
                match rest[0] {
                    Err(e) => (Err(ErrorV::Syntax(e)), rest.drop_first()),
                    Ok(t) => if same_kind(t.kind, TokenKindV::Assignment) {
                        parse_assignment_spec(consumed_rest(items, rest), identifier, false)
                    } else if same_kind(t.kind, TokenKindV::LeftParen) {
                        parse_func_call_spec(consumed_rest(items, rest), identifier)
                    } else if same_kind(t.kind, TokenKindV::LeftBracket) {
                        let e2 = expect_token_spec(rest, TokenKindV::LeftBracket);
                        match e2.0 {
                            Err(e) => (Err(e), e2.1),
                            Ok(start) => {
                                let ix = parse_expr_spec(consumed_rest(items, e2.1));
                                match ix.0 {
                                    Err(e) => (Err(e), ix.1),
                                    Ok(index) => {
                                        let c = close_delimiter_spec(
                                            ix.1,
                                            start,
                                            TokenKindV::RightBracket,
                                        );
                                        match c.0 {
                                            Err(e) => (Err(e), c.1),
                                            Ok(u) => {
                                                let a = expect_token_spec(
                                                    c.1,
                                                    TokenKindV::Assignment,
                                                );
                                                match a.0 {
                                                    Err(e) => (Err(e), a.1),
                                                    Ok(eq) => {
                                                        let v = parse_bool_expr_spec(
                                                            consumed_rest(items, a.1),
                                                        );
                                                        match v.0 {
                                                            Err(e) => (Err(e), v.1),
                                                            Ok(value) => (
                                                                Ok(
                                                                    NodeV::ListAssignment {
                                                                        identifier,
                                                                        index: Box::new(index),
                                                                        value: Box::new(value),
                                                                    },
                                                                ),
                                                                v.1,
                                                            ),
                                                        }
                                                    },
                                                }
                                            },
                                        }
                                    },
                                }
                            },
                        }
                    } else {
                        (
                            Err(
                                ErrorV::Syntax(
                                    SyntaxV::UnexpectedToken {
                                        token: t,
                                        expected: seq![
                                            TokenKindV::Assignment,
                                            TokenKindV::LeftParen,
                                        ],
                                    },
                                ),
                            ),
                            rest.drop_first(),
                        )
                    },
                }
            }
        },
    }
}

/// One statement: `let` declares, `if`, `while` and `return` lead their
/// forms, an identifier leads an assignment, call or list assignment; any
/// other token is an unexpected-token error naming the accepted leads, and
/// a lexical error passes through unchanged.
#[verifier::opaque]
pub open spec fn parse_statement_spec(items: Seq<LexItem>) -> (Result<NodeV, ErrorV>, Seq<LexItem>)
    decreases items.len(), 20int,
{
    if items.len() == 0 {
        (Err(ErrorV::Syntax(SyntaxV::UnexpectedEOF)), items)
    } else {
        match items[0] {
            Err(e) => (Err(ErrorV::Syntax(e)), items.drop_first()),
            Ok(t) => {
                if same_kind(t.kind, TokenKindV::Let) {
                    let e1 = expect_token_spec(
                        items.drop_first(),
                        TokenKindV::Identifier(Seq::empty()),
                    );
                    match e1.0 {
                        Err(e) => (Err(e), e1.1),
                        Ok(identifier) => parse_assignment_spec(
                            consumed_rest(items, e1.1),
                            identifier,
                            true,
                        ),
                    }
                } else if same_kind(t.kind, TokenKindV::If) {
                    parse_if_spec(items)
                } else if same_kind(t.kind, TokenKindV::While) {
                    parse_while_spec(items)
                } else if same_kind(t.kind, TokenKindV::Identifier(Seq::empty())) {
                    parse_identifier_statement_spec(items)
                } else if same_kind(t.kind, TokenKindV::Return) {
                    parse_return_spec(items)
                } else {
                    (
                        Err(
                            ErrorV::Syntax(
                                SyntaxV::UnexpectedToken {
                                    token: t,
                                    expected: seq![
                                        TokenKindV::Let,
                                        TokenKindV::If,
                                        TokenKindV::While,
                                        TokenKindV::Identifier(Seq::empty()),
                                    ],
                                },
                            ),
                        ),
                        items.drop_first(),
                    )
                }
            },
        }
    }
}

/// The statements of a program in source order: blank lines between them
/// are skipped, a `}` is left for the enclosing block, the stream's end
/// stops the list, and the first statement error aborts the whole parse.
#[verifier::opaque]
pub open spec fn program_items_spec(items: Seq<LexItem>) -> (
    Result<Seq<NodeV>, ErrorV>,
    Seq<LexItem>,
)
    decreases items.len(), 21int,
{
    if items.len() == 0 {
        (Ok(Seq::empty()), items)
    } else if items[0] matches Ok(t) && same_kind(t.kind, TokenKindV::RightCurly) {
        (Ok(Seq::empty()), items)
    } else if items[0] matches Ok(t) && same_kind(t.kind, TokenKindV::NewLine) {
        program_items_spec(items.drop_first())
    } else {
        let r = parse_statement_spec(items);
        match r.0 {
            Err(e) => (Err(e), r.1),
            Ok(n) => {
                let r2 = program_items_spec(consumed_rest(items, r.1));
                match r2.0 {
                    Ok(ns) => (Ok(seq![n] + ns), r2.1),
                    Err(e) => (Err(e), r2.1),
                }
            },
        }
    }
}

/// A whole program: its statements as one `Program` tree.
#[verifier::opaque]
pub open spec fn parse_program_spec(items: Seq<LexItem>) -> (Result<NodeV, ErrorV>, Seq<LexItem>)
    decreases items.len(), 22int,
{
    let r = program_items_spec(items);
    match r.0 {
        Err(e) => (Err(e), r.1),
        Ok(ns) => (Ok(NodeV::Program { statements: ns }), r.1),
    }
}

/// The model of a parse outcome.
pub open spec fn parse_res_view(r: Result<Box<Node>, Error>) -> Result<NodeV, ErrorV> {
    match r {
        Ok(n) => Ok(n@),
        Err(e) => Err(e@),
    }
}

/// What a leading token announces in statement position.
enum Lead {
    LeadLet,
    LeadIf,
    LeadWhile,
    LeadIdent,
    LeadReturn,
    LeadOther,
    LeadError,
    LeadEnd,
}

/// What follows an identifier.
enum Follow {
    FAssign,
    FCall,
    FIndex,
    FPlain,
    FOther,
    FError,
    FEnd,
}

/// What follows an expression in a parameter list.
enum After {
    ADelim,
    AComma,
    AOther,
    AError,
    AEnd,
}

/// What the next token is inside an argument-name list.
enum Next {
    NIdent,
    NComma,
    NParen,
    NOther,
    NStop,
}

/// A recursive-descent parser pulling tokens from the lexer on demand. On
/// success it yields the one well-formed `Program` tree the grammar above
/// gives for its token stream; the first lexical or grammatical error
/// aborts the parse with exactly the error the grammar gives.
pub struct Parser<'a> {
    pub tokenizer: Tokenizer<'a>,
}

impl<'a> Parser<'a> {
    /// The parser is coherent when its lexer is.
    pub open spec fn wf(&self) -> bool {
        self.tokenizer.wf()
    }

    /// How many items the lexer has yet to yield; every recursion of the
    /// grammar either consumes one or moves down the precedence cascade.
    pub open spec fn remaining(&self) -> nat {
        self.tokenizer@.len()
    }

    /// Wraps a lexer.
    pub fn new(tokenizer: Tokenizer<'a>) -> (r: Parser<'a>)
        ensures
            r.tokenizer == tokenizer,
    {
        Parser { tokenizer }
    }

    /// Takes the next token, which the caller has peeked to be a token.
    fn next_token(&mut self) -> (r: Token)
        requires
            old(self).wf(),
            old(self).remaining() > 0,
            old(self).tokenizer@[0] is Ok,
        ensures
            final (self).wf(),
            final (self).remaining() == old(self).remaining() - 1,
            final (self).tokenizer@ == old(self).tokenizer@.drop_first(),
            old(self).tokenizer@[0] == Result::<TokenV, SyntaxV>::Ok(r@),
    {
        match self.tokenizer.next() {
            Some(Ok(token)) => token,
            _ => vstd::pervasive::unreached(),
        }
    }

    /// Takes the next token and demands a kind, exactly as
    /// `expect_token_spec` says.
    #[verifier::rlimit(100)]
    #[verifier::spinoff_prover]
    fn expect_token(&mut self, expected: TokenKind) -> (r: Result<Token, Error>)
        requires
            old(self).wf(),
        ensures
            final (self).wf(),
            final (self).remaining() <= old(self).remaining(),
            r matches Ok(t) ==> final (self).remaining() < old(self).remaining() && same_kind(
                t@.kind,
                expected@,
            ),
            ({
                let s = expect_token_spec(old(self).tokenizer@, expected@);
                (match r {
                    Ok(t) => s.0 == Ok::<TokenV, ErrorV>(t@),
                    Err(e) => s.0 == Err::<TokenV, ErrorV>(e@),
                }) && final (self).tokenizer@ == s.1
            }),
    {
        let ghost ev = expected@;
        match self.tokenizer.next() {
            Some(Ok(token)) => {
                if token.kind == expected {
                    Ok(token)
                } else {
                    let exp = vec![expected];
                    proof {
                        assert(exp@.map_values(|k: TokenKind| k@) =~= seq![ev]);
                    }
                    Err(Error::Syntax(Syntax::UnexpectedToken { token, expected: exp }))
                }
            },
            Some(Err(error)) => Err(Error::Syntax(error)),
            None => Err(Error::Syntax(Syntax::UnexpectedEOF)),
        }
    }

    /// Skips every next token of the given kind, as `consume_spec` says.
    #[verifier::rlimit(100)]
    #[verifier::spinoff_prover]
    fn consume(&mut self, kind: TokenKind)
        requires
            old(self).wf(),
        ensures
            final (self).wf(),
            final (self).remaining() <= old(self).remaining(),
            final (self).tokenizer@ == consume_spec(old(self).tokenizer@, kind@),
    {
        let ghost v0 = self.tokenizer@;
        let ghost kv = kind@;
        loop
            invariant
                v0 == old(self).tokenizer@,
                kv == kind@,
                self.wf(),
                self.remaining() <= old(self).remaining(),
                consume_spec(v0, kv) == consume_spec(self.tokenizer@, kv),
            decreases self.remaining(),
        {
            match self.tokenizer.peek() {
                Some(Ok(token)) => {
                    if !(token.kind == kind) {
                        return ;
                    }
                },
                _ => {
                    return ;
                },
            }
            self.next_token();
        }
    }

    /// Takes the next token and demands that it close a delimited region,
    /// exactly as `close_delimiter_spec` says.
    #[verifier::rlimit(100)]
    #[verifier::spinoff_prover]
    fn close_delimiter(&mut self, start: Token, delimiter: TokenKind) -> (r: Result<(), Error>)
        requires
            old(self).wf(),
        ensures
            final (self).wf(),
            final (self).remaining() <= old(self).remaining(),
            r matches Ok(u) ==> final (self).remaining() < old(self).remaining(),
            ({
                let s = close_delimiter_spec(old(self).tokenizer@, start@, delimiter@);
                (match r {
                    Ok(u) => s.0 == Ok::<(), ErrorV>(()),
                    Err(e) => s.0 == Err::<(), ErrorV>(e@),
                }) && final (self).tokenizer@ == s.1
            }),
    {
        match self.tokenizer.next() {
            None => Err(
                Error::Syntax(Syntax::UnclosedTokenDelimeter { start, found: None, delimiter }),
            ),
            Some(Err(e)) => Err(Error::Syntax(e)),
            Some(Ok(t)) => {
                if t.kind == delimiter {
                    Ok(())
                } else {
                    Err(
                        Error::Syntax(
                            Syntax::UnclosedTokenDelimeter { start, found: Some(t), delimiter },
                        ),
                    )
                }
            },
        }
    }

    /// Parses a whole program, exactly as `parse_program_spec` says: the
    /// grammar's one tree for the stream, or its first error.
    #[verifier::rlimit(100)]
    #[verifier::spinoff_prover]
    pub fn parse(&mut self) -> (r: Result<Box<Node>, Error>)
        requires
            old(self).wf(),
        ensures
            final (self).wf(),
            final (self).remaining() <= old(self).remaining(),
            r matches Ok(n) ==> wf_node(n@),
            ({
                let s = parse_program_spec(old(self).tokenizer@);
                parse_res_view(r) == s.0 && final (self).tokenizer@ == s.1
            }),
        decreases old(self).remaining(), 23int,
    {
        proof {
            reveal(parse_program_spec);
        }
        self.parse_program()
    }

    /// Parses statements until a closing brace or the input's end, as
    /// `program_items_spec` says.
    #[verifier::rlimit(100)]
    #[verifier::spinoff_prover]
    fn parse_program(&mut self) -> (r: Result<Box<Node>, Error>)
        requires
            old(self).wf(),
        ensures
            final (self).wf(),
            final (self).remaining() <= old(self).remaining(),
            r matches Ok(n) ==> wf_node(n@),
            ({
                let s = parse_program_spec(old(self).tokenizer@);
                parse_res_view(r) == s.0 && final (self).tokenizer@ == s.1
            }),
        decreases old(self).remaining(), 22int,
    {
        proof {
            reveal(parse_program_spec);
            reveal(program_items_spec);
        }
        let ghost v0 = self.tokenizer@;
        let mut statements: Vec<Box<Node>> = Vec::new();
        let ghost mut acc: Seq<NodeV> = Seq::empty();
        proof {
            let full = program_items_spec(v0);
            match full.0 {
                Ok(ns) => {
                    assert(Seq::<NodeV>::empty() + ns =~= ns);
                },
                Err(e) => {},
            }
        }
        loop
            invariant
                v0 == old(self).tokenizer@,
                self.wf(),
                self.remaining() <= old(self).remaining(),
                acc.len() == statements@.len(),
                forall|j: int| 0 <= j < statements@.len() ==> acc[j] == (#[trigger] statements@[j])@
                    && wf_node(statements@[j]@),
                ({
                    let full = program_items_spec(v0);
                    let cur = program_items_spec(self.tokenizer@);
                    full == ((match cur.0 {
                        Ok(ns) => Ok::<Seq<NodeV>, ErrorV>(acc + ns),
                        Err(e) => Err::<Seq<NodeV>, ErrorV>(e),
                    }), cur.1)
                }),
            decreases self.remaining(),
        {
            proof {
                reveal(parse_program_spec);
                reveal(program_items_spec);
            }
            let stop = match self.tokenizer.peek() {
                None => true,
                Some(Ok(token)) => token.kind == TokenKind::RightCurly,
                Some(Err(_)) => false,
            };
            if stop {
                proof {
                    crate::node::lemma_nodes_view(statements@);
                    assert forall|i: int| 0 <= i < statements@.len() implies #[trigger] nodes_view(
                        statements@,
                    )[i] == acc[i] by {
                        assert(acc[i] == statements@[i]@);
                    }
                    assert(nodes_view(statements@) =~= acc);
                    crate::node::lemma_wf_nodes_from_vec(statements@);
                    assert(acc + Seq::<NodeV>::empty() =~= acc);
                }
                return Ok(Box::new(Node::Program { statements }));
            }
            let newline = match self.tokenizer.peek() {
                Some(Ok(token)) => token.kind == TokenKind::NewLine,
                _ => false,
            };
            if newline {
                let ghost vnl = self.tokenizer@;
                self.next_token();
                proof {
                    assert(program_items_spec(vnl) == program_items_spec(self.tokenizer@));
                }
                continue ;
            }
            let ghost vpre = self.tokenizer@;
            match self.parse_statement() {
                Ok(statement) => {
                    proof {
                        let accp = acc;
                        acc = acc.push(statement@);
                        assert(consumed_rest(vpre, self.tokenizer@) == self.tokenizer@);
                        let cur2 = program_items_spec(self.tokenizer@);
                        assert(program_items_spec(vpre) == ((match cur2.0 {
                            Ok(ns) => Ok::<Seq<NodeV>, ErrorV>(seq![statement@] + ns),
                            Err(e) => Err::<Seq<NodeV>, ErrorV>(e),
                        }), cur2.1));
                        match cur2.0 {
                            Ok(ns) => {
                                assert(accp + (seq![statement@] + ns) =~= acc + ns);
                                assert(program_items_spec(v0) == (
                                    Ok::<Seq<NodeV>, ErrorV>(acc + ns),
                                    cur2.1,
                                ));
                            },
                            Err(e) => {
                                assert(program_items_spec(v0) == (
                                    Err::<Seq<NodeV>, ErrorV>(e),
                                    cur2.1,
                                ));
                            },
                        }
                    }
                    statements.push(statement);
                },
                Err(e) => {
                    return Err(e);
                },
            }
        }
    }

    /// Parses one statement, as `parse_statement_spec` says.
    #[verifier::rlimit(100)]
    #[verifier::spinoff_prover]
    fn parse_statement(&mut self) -> (r: Result<Box<Node>, Error>)
        requires
            old(self).wf(),
        ensures
            final (self).wf(),
            final (self).remaining() <= old(self).remaining(),
            r matches Ok(n) ==> wf_node(n@) && final (self).remaining() < old(self).remaining(),
            ({
                let s = parse_statement_spec(old(self).tokenizer@);
                parse_res_view(r) == s.0 && final (self).tokenizer@ == s.1
            }),
        decreases old(self).remaining(), 21int,
    {
        proof {
            reveal(parse_statement_spec);
        }
        let ghost v0 = self.tokenizer@;
        let lead = match self.tokenizer.peek() {
            None => Lead::LeadEnd,
            Some(Err(_)) => Lead::LeadError,
            Some(Ok(token)) => {
                if token.kind == TokenKind::Let {
                    Lead::LeadLet
                } else if token.kind == TokenKind::If {
                    Lead::LeadIf
                } else if token.kind == TokenKind::While {
                    Lead::LeadWhile
                } else if token.kind == TokenKind::Identifier(String::new()) {
                    Lead::LeadIdent
                } else if token.kind == TokenKind::Return {
                    Lead::LeadReturn
                } else {
                    Lead::LeadOther
                }
            },
        };
        match lead {
            Lead::LeadEnd => Err(Error::Syntax(Syntax::UnexpectedEOF)),
            Lead::LeadError => {
                match self.tokenizer.next() {
                    Some(Err(e)) => Err(Error::Syntax(e)),
                    _ => vstd::pervasive::unreached(),
                }
            },
            Lead::LeadLet => {
                self.next_token();
                let identifier = match self.expect_token(TokenKind::Identifier(String::new())) {
                    Ok(t) => t,
                    Err(e) => {
                        return Err(e);
                    },
                };
                proof {
                    assert(consumed_rest(v0, self.tokenizer@) == self.tokenizer@);
                }
                self.parse_assignment(identifier, true)
            },
            Lead::LeadIf => self.parse_if(),
            Lead::LeadWhile => self.parse_while(),
            Lead::LeadIdent => self.parse_identifier_statement(),
            Lead::LeadReturn => self.parse_return(),
            Lead::LeadOther => {
                let token = self.next_token();
                let exp = vec![
                    TokenKind::Let,
                    TokenKind::If,
                    TokenKind::While,
                    TokenKind::Identifier(String::new()),
                ];
                proof {
                    assert(exp@.map_values(|k: TokenKind| k@) =~= seq![
                        TokenKindV::Let,
                        TokenKindV::If,
                        TokenKindV::While,
                        TokenKindV::Identifier(Seq::empty()),
                    ]);
                    reveal_strlit("");
                }
                Err(Error::Syntax(Syntax::UnexpectedToken { token, expected: exp }))
            },
        }
    }

    /// Parses what follows a leading identifier in statement position, as
    /// `parse_identifier_statement_spec` says.
    #[verifier::rlimit(100)]
    #[verifier::spinoff_prover]
    fn parse_identifier_statement(&mut self) -> (r: Result<Box<Node>, Error>)
        requires
            old(self).wf(),
        ensures
            final (self).wf(),
            final (self).remaining() <= old(self).remaining(),
            r matches Ok(n) ==> wf_node(n@) && final (self).remaining() < old(self).remaining(),
            ({
                let s = parse_identifier_statement_spec(old(self).tokenizer@);
                parse_res_view(r) == s.0 && final (self).tokenizer@ == s.1
            }),
        decreases old(self).remaining(), 20int,
    {
        proof {
            reveal(parse_identifier_statement_spec);
        }
        let ghost v0 = self.tokenizer@;
        let identifier = match self.expect_token(TokenKind::Identifier(String::new())) {
            Ok(t) => t,
            Err(e) => {
                return Err(e);
            },
        };
        let follow = match self.tokenizer.peek() {
            None => Follow::FEnd,
            Some(Err(_)) => Follow::FError,
            Some(Ok(token)) => {
                if token.kind == TokenKind::Assignment {
                    Follow::FAssign
                } else if token.kind == TokenKind::LeftParen {
                    Follow::FCall
                } else if token.kind == TokenKind::LeftBracket {
                    Follow::FIndex
                } else {
                    Follow::FOther
                }
            },
        };
        proof {
            assert(consumed_rest(v0, self.tokenizer@) == self.tokenizer@);
        }
        match follow {
            Follow::FAssign => self.parse_assignment(identifier, false),
            Follow::FCall => self.parse_func_call(identifier),
            Follow::FIndex => {
                let ghost v1 = self.tokenizer@;
                let start = match self.expect_token(TokenKind::LeftBracket) {
                    Ok(t) => t,
                    Err(e) => {
                        return Err(e);
                    },
                };
                proof {
                    assert(consumed_rest(v1, self.tokenizer@) == self.tokenizer@);
                }
                let index = match self.parse_expr() {
                    Ok(n) => n,
                    Err(e) => {
                        return Err(e);
                    },
                };
                match self.close_delimiter(start, TokenKind::RightBracket) {
                    Ok(u) => {},
                    Err(e) => {
                        return Err(e);
                    },
                }
                let ghost v2 = self.tokenizer@;
                match self.expect_token(TokenKind::Assignment) {
                    Ok(t) => {},
                    Err(e) => {
                        return Err(e);
                    },
                }
                proof {
                    assert(consumed_rest(v1, self.tokenizer@) == self.tokenizer@);
                }
                let value = match self.parse_bool_expr() {
                    Ok(n) => n,
                    Err(e) => {
                        return Err(e);
                    },
                };
                Ok(Box::new(Node::ListAssignment { identifier, index, value }))
            },
            Follow::FOther => {
                let token = self.next_token();
                let exp = vec![TokenKind::Assignment, TokenKind::LeftParen];
                proof {
                    assert(exp@.map_values(|k: TokenKind| k@) =~= seq![
                        TokenKindV::Assignment,
                        TokenKindV::LeftParen,
                    ]);
                }
                Err(Error::Syntax(Syntax::UnexpectedToken { token, expected: exp }))
            },
            Follow::FError => {
                match self.tokenizer.next() {
                    Some(Err(e)) => Err(Error::Syntax(e)),
                    _ => vstd::pervasive::unreached(),
                }
            },
            Follow::FEnd => Err(Error::Syntax(Syntax::UnexpectedEOF)),
            Follow::FPlain => vstd::pervasive::unreached(),
        }
    }

    /// Parses what follows `let x` or a bare `x`, as `parse_assignment_spec`
    /// says.
    #[verifier::rlimit(100)]
    #[verifier::spinoff_prover]
    fn parse_assignment(&mut self, identifier: Token, is_declaration: bool) -> (r: Result<
        Box<Node>,
        Error,
    >)
        requires
            old(self).wf(),
            is_identifier(identifier@),
        ensures
            final (self).wf(),
            final (self).remaining() <= old(self).remaining(),
            r matches Ok(n) ==> wf_node(n@) && final (self).remaining() < old(self).remaining(),
            ({
                let s = parse_assignment_spec(old(self).tokenizer@, identifier@, is_declaration);
                parse_res_view(r) == s.0 && final (self).tokenizer@ == s.1
            }),
        decreases old(self).remaining(), 19int,
    {
        proof {
            reveal(parse_assignment_spec);
        }
        let ghost v0 = self.tokenizer@;
        match self.tokenizer.next() {
            None => Err(Error::Syntax(Syntax::UnexpectedEOF)),
            Some(Err(error)) => Err(Error::Syntax(error)),
            Some(Ok(token)) => {
                if token.kind == TokenKind::LeftParen {
                    let arguments = match self.parse_arguments() {
                        Ok(a) => a,
                        Err(e) => {
                            return Err(e);
                        },
                    };
                    match self.close_delimiter(token, TokenKind::RightParen) {
                        Ok(u) => {},
                        Err(e) => {
                            return Err(e);
                        },
                    }
                    match self.expect_token(TokenKind::DoubleArrow) {
                        Ok(t) => {},
                        Err(e) => {
                            return Err(e);
                        },
                    }
                    proof {
                        assert(consumed_rest(v0, self.tokenizer@) == self.tokenizer@);
                    }
                    let body = match self.parse_block() {
                        Ok(b) => b,
                        Err(e) => {
                            return Err(e);
                        },
                    };
                    proof {
                        let argviews = arguments@.map_values(|t: Token| t@);
                        assert forall|j: int| 0 <= j < argviews.len() implies is_identifier(
                            #[trigger] argviews[j],
                        ) by {
                            assert(argviews[j] == arguments@[j]@);
                        }
                    }
                    Ok(Box::new(Node::FuncDeclaration { identifier, arguments, body }))
                } else if token.kind == TokenKind::Assignment {
                    let value = match self.parse_bool_expr() {
                        Ok(n) => n,
                        Err(e) => {
                            return Err(e);
                        },
                    };
                    Ok(Box::new(Node::Assignment { identifier, value, is_declaration }))
                } else {
                    let exp = vec![TokenKind::LeftParen, TokenKind::Assignment];
                    proof {
                        assert(exp@.map_values(|k: TokenKind| k@) =~= seq![
                            TokenKindV::LeftParen,
                            TokenKindV::Assignment,
                        ]);
                    }
                    Err(Error::Syntax(Syntax::UnexpectedToken { token, expected: exp }))
                }
            },
        }
    }

    /// Parses an `if` with an optional `else` or chained `else if`, as
    /// `parse_if_spec` says.
    #[verifier::rlimit(100)]
    #[verifier::spinoff_prover]
    fn parse_if(&mut self) -> (r: Result<Box<Node>, Error>)
        requires
            old(self).wf(),
            old(self).remaining() > 0,
            old(self).tokenizer@[0] is Ok,
        ensures
            final (self).wf(),
            final (self).remaining() <= old(self).remaining(),
            r matches Ok(n) ==> wf_node(n@) && final (self).remaining() < old(self).remaining(),
            ({
                let s = parse_if_spec(old(self).tokenizer@);
                parse_res_view(r) == s.0 && final (self).tokenizer@ == s.1
            }),
        decreases old(self).remaining(), 20int,
    {
        proof {
            reveal(parse_if_spec);
        }
        let ghost v0 = self.tokenizer@;
        self.next_token();
        let condition = match self.parse_bool_expr() {
            Ok(n) => n,
            Err(e) => {
                return Err(e);
            },
        };
        proof {
            assert(consumed_rest(v0, self.tokenizer@) == self.tokenizer@);
        }
        let block = match self.parse_block() {
            Ok(b) => b,
            Err(e) => {
                return Err(e);
            },
        };
        self.consume(TokenKind::NewLine);
        let has_else = match self.tokenizer.peek() {
            Some(Ok(token)) => token.kind == TokenKind::Else,
            _ => false,
        };
        if !has_else {
            return Ok(Box::new(Node::If { condition, block, else_block: None }));
        }
        self.next_token();
        self.consume(TokenKind::NewLine);
        let chained = match self.tokenizer.peek() {
            Some(Ok(token)) => token.kind == TokenKind::If,
            _ => false,
        };
        proof {
            assert(consumed_rest(v0, self.tokenizer@) == self.tokenizer@);
        }
        let else_block = if chained {
            match self.parse_if() {
                Ok(n) => Some(n),
                Err(e) => {
                    return Err(e);
                },
            }
        } else {
            match self.parse_block() {
                Ok(n) => Some(n),
                Err(e) => {
                    return Err(e);
                },
            }
        };
        Ok(Box::new(Node::If { condition, block, else_block }))
    }

    /// Parses a `while` loop, as `parse_while_spec` says.
    #[verifier::rlimit(100)]
    #[verifier::spinoff_prover]
    fn parse_while(&mut self) -> (r: Result<Box<Node>, Error>)
        requires
            old(self).wf(),
            old(self).remaining() > 0,
            old(self).tokenizer@[0] is Ok,
        ensures
            final (self).wf(),
            final (self).remaining() <= old(self).remaining(),
            r matches Ok(n) ==> wf_node(n@) && final (self).remaining() < old(self).remaining(),
            ({
                let s = parse_while_spec(old(self).tokenizer@);
                parse_res_view(r) == s.0 && final (self).tokenizer@ == s.1
            }),
        decreases old(self).remaining(), 20int,
    {
        proof {
            reveal(parse_while_spec);
        }
        let ghost v0 = self.tokenizer@;
        self.next_token();
        let condition = match self.parse_bool_expr() {
            Ok(n) => n,
            Err(e) => {
                return Err(e);
            },
        };
        proof {
            assert(consumed_rest(v0, self.tokenizer@) == self.tokenizer@);
        }
        let block = match self.parse_block() {
            Ok(b) => b,
            Err(e) => {
                return Err(e);
            },
        };
        Ok(Box::new(Node::While { condition, block }))
    }

    /// Parses a `return` statement, as `parse_return_spec` says.
    #[verifier::rlimit(100)]
    #[verifier::spinoff_prover]
    fn parse_return(&mut self) -> (r: Result<Box<Node>, Error>)
        requires
            old(self).wf(),
            old(self).remaining() > 0,
            old(self).tokenizer@[0] is Ok,
        ensures
            final (self).wf(),
            final (self).remaining() <= old(self).remaining(),
            r matches Ok(n) ==> wf_node(n@) && final (self).remaining() < old(self).remaining(),
            ({
                let s = parse_return_spec(old(self).tokenizer@);
                parse_res_view(r) == s.0 && final (self).tokenizer@ == s.1
            }),
        decreases old(self).remaining(), 20int,
    {
        proof {
            reveal(parse_return_spec);
        }
        self.next_token();
        let value = match self.parse_bool_expr() {
            Ok(n) => n,
            Err(e) => {
                return Err(e);
            },
        };
        Ok(Box::new(Node::Return { value }))
    }

    /// Parses a braced block, as `parse_block_spec` says.
    #[verifier::rlimit(100)]
    #[verifier::spinoff_prover]
    fn parse_block(&mut self) -> (r: Result<Box<Node>, Error>)
        requires
            old(self).wf(),
        ensures
            final (self).wf(),
            final (self).remaining() <= old(self).remaining(),
            r matches Ok(n) ==> wf_node(n@) && final (self).remaining() < old(self).remaining(),
            ({
                let s = parse_block_spec(old(self).tokenizer@);
                parse_res_view(r) == s.0 && final (self).tokenizer@ == s.1
            }),
        decreases old(self).remaining(), 19int,
    {
        proof {
            reveal(parse_block_spec);
        }
        let ghost v0 = self.tokenizer@;
        let start = match self.expect_token(TokenKind::LeftCurly) {
            Ok(t) => t,
            Err(e) => {
                return Err(e);
            },
        };
        proof {
            assert(consumed_rest(v0, self.tokenizer@) == self.tokenizer@);
        }
        let program = match self.parse_program() {
            Ok(p) => p,
            Err(e) => {
                return Err(e);
            },
        };
        match self.close_delimiter(start, TokenKind::RightCurly) {
            Ok(u) => {},
            Err(e) => {
                return Err(e);
            },
        }
        Ok(program)
    }

    /// Parses a comma-separated expression list up to (not through) the
    /// closing delimiter, as `parse_parameters_spec` says.
    #[verifier::rlimit(100)]
    #[verifier::spinoff_prover]
    fn parse_parameters(&mut self, delimiter: TokenKind) -> (r: Result<Vec<Box<Node>>, Error>)
        requires
            old(self).wf(),
        ensures
            final (self).wf(),
            final (self).remaining() <= old(self).remaining(),
            r matches Ok(ps) ==> forall|j: int|
                0 <= j < ps@.len() ==> wf_node(crate::node::node_view(*#[trigger] ps@[j])),
            ({
                let s = parse_parameters_spec(old(self).tokenizer@, delimiter@);
                (match r {
                    Ok(ps) => s.0 == Ok::<Seq<NodeV>, ErrorV>(nodes_view(ps@)),
                    Err(e) => s.0 == Err::<Seq<NodeV>, ErrorV>(e@),
                }) && final (self).tokenizer@ == s.1
            }),
        decreases old(self).remaining(), 17int,
    {
        proof {
            reveal(parse_parameters_spec);
            reveal(params_loop_spec);
        }
        let ghost v0 = self.tokenizer@;
        let ghost dv = delimiter@;
        let mut parameters: Vec<Box<Node>> = Vec::new();
        let at_delim = match self.tokenizer.peek() {
            Some(Ok(token)) => token.kind == delimiter,
            _ => false,
        };
        if at_delim {
            proof {
                crate::node::lemma_wf_nodes_from_vec(parameters@);
                assert(nodes_view(parameters@) =~= Seq::<NodeV>::empty());
            }
            return Ok(parameters);
        }
        let ghost mut acc: Seq<NodeV> = Seq::empty();
        proof {
            let full = params_loop_spec(v0, dv);
            match full.0 {
                Ok(ns) => {
                    assert(Seq::<NodeV>::empty() + ns =~= ns);
                },
                Err(e) => {},
            }
        }
        loop
            invariant
                v0 == old(self).tokenizer@,
                dv == delimiter@,
                self.wf(),
                self.remaining() <= old(self).remaining(),
                parse_parameters_spec(v0, dv) == params_loop_spec(v0, dv),
                acc.len() == parameters@.len(),
                forall|j: int| 0 <= j < parameters@.len() ==> acc[j] == (
                #[trigger] parameters@[j])@ && wf_node(parameters@[j]@),
                ({
                    let full = params_loop_spec(v0, dv);
                    let cur = params_loop_spec(self.tokenizer@, dv);
                    full == ((match cur.0 {
                        Ok(ns) => Ok::<Seq<NodeV>, ErrorV>(acc + ns),
                        Err(e) => Err::<Seq<NodeV>, ErrorV>(e),
                    }), cur.1)
                }),
            decreases self.remaining(),
        {
            proof {
                reveal(parse_parameters_spec);
                reveal(params_loop_spec);
            }
            let ghost vpre = self.tokenizer@;
            let p = match self.parse_bool_expr() {
                Ok(n) => n,
                Err(e) => {
                    return Err(e);
                },
            };
            let after = match self.tokenizer.peek() {
                None => After::AEnd,
                Some(Err(_)) => After::AError,
                Some(Ok(token)) => {
                    if token.kind == delimiter {
                        After::ADelim
                    } else if token.kind == TokenKind::Comma {
                        After::AComma
                    } else {
                        After::AOther
                    }
                },
            };
            let ghost accp = acc;
            let ghost pv = p@;
            proof {
                acc = acc.push(pv);
            }
            parameters.push(p);
            match after {
                After::ADelim => {
                    proof {
                        assert(params_loop_spec(vpre, dv) == (
                            Ok::<Seq<NodeV>, ErrorV>(seq![pv]),
                            self.tokenizer@,
                        ));
                        assert(accp + seq![pv] =~= acc);
                        assert(params_loop_spec(v0, dv) == (
                            Ok::<Seq<NodeV>, ErrorV>(acc),
                            self.tokenizer@,
                        ));
                        crate::node::lemma_nodes_view(parameters@);
                        assert forall|i: int| 0 <= i < parameters@.len() implies #[trigger] nodes_view(
                            parameters@,
                        )[i] == acc[i] by {
                            assert(acc[i] == parameters@[i]@);
                        }
                        assert(nodes_view(parameters@) =~= acc);
                        crate::node::lemma_wf_nodes_from_vec(parameters@);
                    }
                    return Ok(parameters);
                },
                After::AEnd => {
                    proof {
                        assert(params_loop_spec(vpre, dv) == (
                            Ok::<Seq<NodeV>, ErrorV>(seq![pv]),
                            self.tokenizer@,
                        ));
                        assert(accp + seq![pv] =~= acc);
                        assert(params_loop_spec(v0, dv) == (
                            Ok::<Seq<NodeV>, ErrorV>(acc),
                            self.tokenizer@,
                        ));
                        crate::node::lemma_nodes_view(parameters@);
                        assert forall|i: int| 0 <= i < parameters@.len() implies #[trigger] nodes_view(
                            parameters@,
                        )[i] == acc[i] by {
                            assert(acc[i] == parameters@[i]@);
                        }
                        assert(nodes_view(parameters@) =~= acc);
                        crate::node::lemma_wf_nodes_from_vec(parameters@);
                    }
                    return Ok(parameters);
                },
                After::AComma => {
                    self.next_token();
                    proof {
                        assert(consumed_rest(vpre, self.tokenizer@) == self.tokenizer@);
                        let cur2 = params_loop_spec(self.tokenizer@, dv);
                        assert(params_loop_spec(vpre, dv) == ((match cur2.0 {
                            Ok(ns) => Ok::<Seq<NodeV>, ErrorV>(seq![pv] + ns),
                            Err(e) => Err::<Seq<NodeV>, ErrorV>(e),
                        }), cur2.1));
                        match cur2.0 {
                            Ok(ns) => {
                                assert(accp + (seq![pv] + ns) =~= acc + ns);
                                assert(params_loop_spec(v0, dv) == (
                                    Ok::<Seq<NodeV>, ErrorV>(acc + ns),
                                    cur2.1,
                                ));
                            },
                            Err(e) => {
                                assert(params_loop_spec(v0, dv) == (
                                    Err::<Seq<NodeV>, ErrorV>(e),
                                    cur2.1,
                                ));
                            },
                        }
                    }
                },
                After::AOther => {
                    let token = self.next_token();
                    let exp = vec![delimiter, TokenKind::Comma];
                    proof {
                        assert(exp@.map_values(|k: TokenKind| k@) =~= seq![dv, TokenKindV::Comma]);
                    }
                    return Err(Error::Syntax(Syntax::UnexpectedToken { token, expected: exp }));
                },
                After::AError => {
                    match self.tokenizer.next() {
                        Some(Err(e)) => {
                            return Err(Error::Syntax(e));
                        },
                        _ => {
                            return vstd::pervasive::unreached();
                        },
                    }
                },
            }
        }
    }

    /// Parses a declaration's parameter-name list, as
    /// `parse_arguments_spec` says.
    #[verifier::rlimit(100)]
    #[verifier::spinoff_prover]
    fn parse_arguments(&mut self) -> (r: Result<Vec<Token>, Error>)
        requires
            old(self).wf(),
        ensures
            final (self).wf(),
            final (self).remaining() <= old(self).remaining(),
            r matches Ok(args) ==> forall|j: int|
                0 <= j < args@.len() ==> is_identifier(#[trigger] args@[j]@),
            ({
                let s = parse_arguments_spec(old(self).tokenizer@);
                (match r {
                    Ok(args) => s.0 == Ok::<Seq<TokenV>, ErrorV>(
                        args@.map_values(|t: Token| t@),
                    ),
                    Err(e) => s.0 == Err::<Seq<TokenV>, ErrorV>(e@),
                }) && final (self).tokenizer@ == s.1
            }),
        decreases old(self).remaining(), 17int,
    {
        proof {
            reveal(parse_arguments_spec);
            reveal(arguments_loop_spec);
        }
        let ghost v0 = self.tokenizer@;
        let mut arguments: Vec<Token> = Vec::new();
        let mut expect_argument = true;
        proof {
            let full = arguments_loop_spec(v0, true, true);
            match full.0 {
                Ok(ts) => {
                    assert(Seq::<TokenV>::empty() + ts =~= ts);
                },
                Err(e) => {},
            }
            assert(arguments@.map_values(|t: Token| t@) =~= Seq::<TokenV>::empty());
        }
        loop
            invariant
                v0 == old(self).tokenizer@,
                self.wf(),
                self.remaining() <= old(self).remaining(),
                forall|j: int| 0 <= j < arguments@.len() ==> is_identifier(
                    #[trigger] arguments@[j]@,
                ),
                ({
                    let full = arguments_loop_spec(v0, true, true);
                    let cur = arguments_loop_spec(
                        self.tokenizer@,
                        expect_argument,
                        arguments@.len() == 0,
                    );
                    full == ((match cur.0 {
                        Ok(ts) => Ok::<Seq<TokenV>, ErrorV>(
                            arguments@.map_values(|t: Token| t@) + ts,
                        ),
                        Err(e) => Err::<Seq<TokenV>, ErrorV>(e),
                    }), cur.1)
                }),
            decreases self.remaining(),
        {
            proof {
                reveal(parse_arguments_spec);
                reveal(arguments_loop_spec);
            }
            let what = match self.tokenizer.peek() {
                Some(Ok(token)) => {
                    if token.kind == TokenKind::Identifier(String::new()) {
                        Next::NIdent
                    } else if token.kind == TokenKind::Comma {
                        Next::NComma
                    } else if token.kind == TokenKind::RightParen {
                        Next::NParen
                    } else {
                        Next::NOther
                    }
                },
                _ => Next::NStop,
            };
            match what {
                Next::NStop => {
                    proof {
                        assert(arguments@.map_values(|t: Token| t@) + Seq::<TokenV>::empty()
                            =~= arguments@.map_values(|t: Token| t@));
                    }
                    return Ok(arguments);
                },
                Next::NIdent => {
                    if expect_argument {
                        let ghost apre = arguments@.map_values(|t: Token| t@);
                        let t = self.next_token();
                        arguments.push(t);
                        expect_argument = false;
                        proof {
                            let anow = arguments@.map_values(|t: Token| t@);
                            assert(anow =~= apre.push(arguments@.last()@));
                            let cur2 = arguments_loop_spec(self.tokenizer@, false, false);
                            match cur2.0 {
                                Ok(ts) => {
                                    assert(apre + (seq![arguments@.last()@] + ts) =~= anow + ts);
                                },
                                Err(e) => {},
                            }
                        }
                    } else {
                        let token = self.next_token();
                        let exp = vec![TokenKind::RightParen, TokenKind::Comma];
                        proof {
                            assert(exp@.map_values(|k: TokenKind| k@) =~= seq![
                                TokenKindV::RightParen,
                                TokenKindV::Comma,
                            ]);
                        }
                        return Err(
                            Error::Syntax(Syntax::UnexpectedToken { token, expected: exp }),
                        );
                    }
                },
                Next::NComma => {
                    if !expect_argument {
                        self.next_token();
                        expect_argument = true;
                    } else {
                        let token = self.next_token();
                        let exp = vec![TokenKind::Identifier(String::new())];
                        proof {
                            assert(exp@.map_values(|k: TokenKind| k@) =~= seq![
                                TokenKindV::Identifier(Seq::empty()),
                            ]);
                            reveal_strlit("");
                        }
                        return Err(
                            Error::Syntax(Syntax::UnexpectedToken { token, expected: exp }),
                        );
                    }
                },
                Next::NParen => {
                    if !expect_argument || arguments.len() == 0 {
                        proof {
                            assert(arguments@.map_values(|t: Token| t@) + Seq::<TokenV>::empty()
                                =~= arguments@.map_values(|t: Token| t@));
                        }
                        return Ok(arguments);
                    } else {
                        let token = self.next_token();
                        let exp = vec![TokenKind::Identifier(String::new())];
                        proof {
                            assert(exp@.map_values(|k: TokenKind| k@) =~= seq![
                                TokenKindV::Identifier(Seq::empty()),
                            ]);
                            reveal_strlit("");
                        }
                        return Err(
                            Error::Syntax(Syntax::UnexpectedToken { token, expected: exp }),
                        );
                    }
                },
                Next::NOther => {
                    let token = self.next_token();
                    if expect_argument {
                        let exp = vec![TokenKind::Identifier(String::new())];
                        proof {
                            assert(exp@.map_values(|k: TokenKind| k@) =~= seq![
                                TokenKindV::Identifier(Seq::empty()),
                            ]);
                            reveal_strlit("");
                        }
                        return Err(
                            Error::Syntax(Syntax::UnexpectedToken { token, expected: exp }),
                        );
                    } else {
                        let exp = vec![TokenKind::Comma, TokenKind::RightParen];
                        proof {
                            assert(exp@.map_values(|k: TokenKind| k@) =~= seq![
                                TokenKindV::Comma,
                                TokenKindV::RightParen,
                            ]);
                        }
                        return Err(
                            Error::Syntax(Syntax::UnexpectedToken { token, expected: exp }),
                        );
                    }
                },
            }
        }
    }

    /// Parses a call's argument list and closing parenthesis after a callee
    /// identifier, as `parse_func_call_spec` says.
    #[verifier::rlimit(100)]
    #[verifier::spinoff_prover]
    fn parse_func_call(&mut self, identifier: Token) -> (r: Result<Box<Node>, Error>)
        requires
            old(self).wf(),
            is_identifier(identifier@),
        ensures
            final (self).wf(),
            final (self).remaining() <= old(self).remaining(),
            r matches Ok(n) ==> wf_node(n@) && final (self).remaining() < old(self).remaining(),
            ({
                let s = parse_func_call_spec(old(self).tokenizer@, identifier@);
                parse_res_view(r) == s.0 && final (self).tokenizer@ == s.1
            }),
        decreases old(self).remaining(), 18int,
    {
        proof {
            reveal(parse_func_call_spec);
        }
        let ghost v0 = self.tokenizer@;
        let start = match self.expect_token(TokenKind::LeftParen) {
            Ok(t) => t,
            Err(e) => {
                return Err(e);
            },
        };
        proof {
            assert(consumed_rest(v0, self.tokenizer@) == self.tokenizer@);
        }
        let parameters = match self.parse_parameters(TokenKind::RightParen) {
            Ok(ps) => ps,
            Err(e) => {
                return Err(e);
            },
        };
        match self.close_delimiter(start, TokenKind::RightParen) {
            Ok(u) => {},
            Err(e) => {
                return Err(e);
            },
        }
        proof {
            crate::node::lemma_wf_nodes_from_vec(parameters@);
        }
        Ok(Box::new(Node::FuncCall { identifier, parameters }))
    }

    /// Parses an index expression after an indexed identifier, as
    /// `parse_index_spec` says.
    #[verifier::rlimit(100)]
    #[verifier::spinoff_prover]
    fn parse_index(&mut self, identifier: Token) -> (r: Result<Box<Node>, Error>)
        requires
            old(self).wf(),
            is_identifier(identifier@),
        ensures
            final (self).wf(),
            final (self).remaining() <= old(self).remaining(),
            r matches Ok(n) ==> wf_node(n@) && final (self).remaining() < old(self).remaining(),
            ({
                let s = parse_index_spec(old(self).tokenizer@, identifier@);
                parse_res_view(r) == s.0 && final (self).tokenizer@ == s.1
            }),
        decreases old(self).remaining(), 18int,
    {
        proof {
            reveal(parse_index_spec);
        }
        let ghost v0 = self.tokenizer@;
        let start = match self.expect_token(TokenKind::LeftBracket) {
            Ok(t) => t,
            Err(e) => {
                return Err(e);
            },
        };
        proof {
            assert(consumed_rest(v0, self.tokenizer@) == self.tokenizer@);
        }
        let index = match self.parse_expr() {
            Ok(n) => n,
            Err(e) => {
                return Err(e);
            },
        };
        match self.close_delimiter(start, TokenKind::RightBracket) {
            Ok(u) => {},
            Err(e) => {
                return Err(e);
            },
        }
        Ok(Box::new(Node::Index { identifier, index }))
    }

    /// Parses an atom, as `parse_atom_spec` says.
    #[verifier::rlimit(100)]
    #[verifier::spinoff_prover]
    fn parse_atom(&mut self) -> (r: Result<Box<Node>, Error>)
        requires
            old(self).wf(),
        ensures
            final (self).wf(),
            final (self).remaining() <= old(self).remaining(),
            r matches Ok(n) ==> wf_node(n@) && final (self).remaining() < old(self).remaining(),
            ({
                let s = parse_atom_spec(old(self).tokenizer@);
                parse_res_view(r) == s.0 && final (self).tokenizer@ == s.1
            }),
        decreases old(self).remaining(), 0int,
    {
        proof {
            reveal(parse_atom_spec);
        }
        let ghost v0 = self.tokenizer@;
        let token = match self.tokenizer.next() {
            None => {
                return Err(Error::Syntax(Syntax::UnexpectedEOF));
            },
            Some(Err(e)) => {
                return Err(Error::Syntax(e));
            },
            Some(Ok(token)) => token,
        };
        if token.kind == TokenKind::LeftParen {
            let bool_expr = match self.parse_bool_expr() {
                Ok(n) => n,
                Err(e) => {
                    return Err(e);
                },
            };
            match self.close_delimiter(token, TokenKind::RightParen) {
                Ok(u) => {},
                Err(e) => {
                    return Err(e);
                },
            }
            Ok(bool_expr)
        } else if token.kind == TokenKind::LeftBracket {
            let values = match self.parse_parameters(TokenKind::RightBracket) {
                Ok(ps) => ps,
                Err(e) => {
                    return Err(e);
                },
            };
            match self.close_delimiter(token, TokenKind::RightBracket) {
                Ok(u) => {},
                Err(e) => {
                    return Err(e);
                },
            }
            proof {
                crate::node::lemma_wf_nodes_from_vec(values@);
            }
            Ok(Box::new(Node::List { values }))
        } else if token.kind == TokenKind::Integer(0) || token.kind == TokenKind::Float(0)
            || token.kind == TokenKind::Boolean(false) || token.kind == TokenKind::Character(' ')
            || token.kind == TokenKind::String(String::new()) || token.kind
            == TokenKind::NoneLiteral {
            Ok(Box::new(Node::Atom { value: token }))
        } else if token.kind == TokenKind::Identifier(String::new()) {
            let follow = match self.tokenizer.peek() {
                Some(Ok(paren)) => {
                    if paren.kind == TokenKind::LeftParen {
                        Follow::FCall
                    } else if paren.kind == TokenKind::LeftBracket {
                        Follow::FIndex
                    } else {
                        Follow::FPlain
                    }
                },
                _ => Follow::FPlain,
            };
            match follow {
                Follow::FCall => self.parse_func_call(token),
                Follow::FIndex => self.parse_index(token),
                Follow::FPlain => Ok(Box::new(Node::Access { identifier: token })),
                _ => vstd::pervasive::unreached(),
            }
        } else {
            let exp = vec![
                TokenKind::LeftParen,
                TokenKind::Integer(0),
                TokenKind::Float(0),
                TokenKind::Identifier(String::new()),
                TokenKind::String(String::new()),
                TokenKind::Character(' '),
                TokenKind::Addition,
                TokenKind::Subtraction,
            ];
            proof {
                assert(exp@.map_values(|k: TokenKind| k@) =~= seq![
                    TokenKindV::LeftParen,
                    TokenKindV::Integer(0),
                    TokenKindV::Float(0),
                    TokenKindV::Identifier(Seq::empty()),
                    TokenKindV::String(Seq::empty()),
                    TokenKindV::Character(' '),
                    TokenKindV::Addition,
                    TokenKindV::Subtraction,
                ]);
                reveal_strlit("");
            }
            Err(Error::Syntax(Syntax::UnexpectedToken { token, expected: exp }))
        }
    }

    /// Parses the `^` chain after a left operand, as `power_more_spec`
    /// says: the right operand recurses through the unary level, so the
    /// operator nests to the right.
    #[verifier::rlimit(100)]
    #[verifier::spinoff_prover]
    fn parse_power_rest(&mut self, left: Box<Node>) -> (r: Result<Box<Node>, Error>)
        requires
            old(self).wf(),
            wf_node(left@),
        ensures
            final (self).wf(),
            final (self).remaining() <= old(self).remaining(),
            r matches Ok(n) ==> wf_node(n@),
            ({
                let s = power_more_spec(left@, old(self).tokenizer@);
                parse_res_view(r) == s.0 && final (self).tokenizer@ == s.1
            }),
        decreases old(self).remaining(), 1int,
    {
        proof {
            reveal(power_more_spec);
        }
        let ghost v0 = self.tokenizer@;
        let is_op = match self.tokenizer.peek() {
            Some(Ok(token)) => token.kind == TokenKind::Power,
            _ => false,
        };
        if !is_op {
            return Ok(left);
        }
        let operator = self.next_token();
        let right = match self.parse_factor() {
            Ok(n) => n,
            Err(e) => {
                return Err(e);
            },
        };
        let node = Box::new(Node::BinaryOp { left, operator, right });
        proof {
            assert(consumed_rest(v0, self.tokenizer@) == self.tokenizer@);
        }
        self.parse_power_rest(node)
    }

    /// Parses a power expression, as `parse_power_spec` says.
    #[verifier::rlimit(100)]
    #[verifier::spinoff_prover]
    fn parse_power(&mut self) -> (r: Result<Box<Node>, Error>)
        requires
            old(self).wf(),
        ensures
            final (self).wf(),
            final (self).remaining() <= old(self).remaining(),
            r matches Ok(n) ==> wf_node(n@) && final (self).remaining() < old(self).remaining(),
            ({
                let s = parse_power_spec(old(self).tokenizer@);
                parse_res_view(r) == s.0 && final (self).tokenizer@ == s.1
            }),
        decreases old(self).remaining(), 2int,
    {
        proof {
            reveal(parse_power_spec);
        }
        let ghost v0 = self.tokenizer@;
        let root = match self.parse_atom() {
            Ok(n) => n,
            Err(e) => {
                return Err(e);
            },
        };
        proof {
            assert(bounded_rest(v0, self.tokenizer@) == self.tokenizer@);
        }
        self.parse_power_rest(root)
    }

    /// Parses a signed factor, as `parse_factor_spec` says.
    #[verifier::rlimit(100)]
    #[verifier::spinoff_prover]
    fn parse_factor(&mut self) -> (r: Result<Box<Node>, Error>)
        requires
            old(self).wf(),
        ensures
            final (self).wf(),
            final (self).remaining() <= old(self).remaining(),
            r matches Ok(n) ==> wf_node(n@) && final (self).remaining() < old(self).remaining(),
            ({
                let s = parse_factor_spec(old(self).tokenizer@);
                parse_res_view(r) == s.0 && final (self).tokenizer@ == s.1
            }),
        decreases old(self).remaining(), 3int,
    {
        proof {
            reveal(parse_factor_spec);
        }
        let is_sign = match self.tokenizer.peek() {
            Some(Ok(token)) => token.kind == TokenKind::Subtraction || token.kind
                == TokenKind::Addition,
            _ => false,
        };
        if is_sign {
            let operator = self.next_token();
            let value = match self.parse_factor() {
                Ok(n) => n,
                Err(e) => {
                    return Err(e);
                },
            };
            Ok(Box::new(Node::UnaryOp { operator, value }))
        } else {
            self.parse_power()
        }
    }

    /// Parses the `*`, `/`, `%` chain after a left operand, as
    /// `term_more_spec` says.
    #[verifier::rlimit(100)]
    #[verifier::spinoff_prover]
    fn parse_term_rest(&mut self, left: Box<Node>) -> (r: Result<Box<Node>, Error>)
        requires
            old(self).wf(),
            wf_node(left@),
        ensures
            final (self).wf(),
            final (self).remaining() <= old(self).remaining(),
            r matches Ok(n) ==> wf_node(n@),
            ({
                let s = term_more_spec(left@, old(self).tokenizer@);
                parse_res_view(r) == s.0 && final (self).tokenizer@ == s.1
            }),
        decreases old(self).remaining(), 4int,
    {
        proof {
            reveal(term_more_spec);
        }
        let ghost v0 = self.tokenizer@;
        let is_op = match self.tokenizer.peek() {
            Some(Ok(token)) => token.kind == TokenKind::Multiplication || token.kind
                == TokenKind::Division || token.kind == TokenKind::Modulo,
            _ => false,
        };
        if !is_op {
            return Ok(left);
        }
        let operator = self.next_token();
        let right = match self.parse_factor() {
            Ok(n) => n,
            Err(e) => {
                return Err(e);
            },
        };
        let node = Box::new(Node::BinaryOp { left, operator, right });
        proof {
            assert(consumed_rest(v0, self.tokenizer@) == self.tokenizer@);
        }
        self.parse_term_rest(node)
    }

    /// Parses a term, as `parse_term_spec` says.
    #[verifier::rlimit(100)]
    #[verifier::spinoff_prover]
    fn parse_term(&mut self) -> (r: Result<Box<Node>, Error>)
        requires
            old(self).wf(),
        ensures
            final (self).wf(),
            final (self).remaining() <= old(self).remaining(),
            r matches Ok(n) ==> wf_node(n@) && final (self).remaining() < old(self).remaining(),
            ({
                let s = parse_term_spec(old(self).tokenizer@);
                parse_res_view(r) == s.0 && final (self).tokenizer@ == s.1
            }),
        decreases old(self).remaining(), 5int,
    {
        proof {
            reveal(parse_term_spec);
        }
        let ghost v0 = self.tokenizer@;
        let root = match self.parse_factor() {
            Ok(n) => n,
            Err(e) => {
                return Err(e);
            },
        };
        proof {
            assert(bounded_rest(v0, self.tokenizer@) == self.tokenizer@);
        }
        self.parse_term_rest(root)
    }

    /// Parses the `+`, `-` chain after a left operand, as `expr_more_spec`
    /// says.
    #[verifier::rlimit(100)]
    #[verifier::spinoff_prover]
    fn parse_expr_rest(&mut self, left: Box<Node>) -> (r: Result<Box<Node>, Error>)
        requires
            old(self).wf(),
            wf_node(left@),
        ensures
            final (self).wf(),
            final (self).remaining() <= old(self).remaining(),
            r matches Ok(n) ==> wf_node(n@),
            ({
                let s = expr_more_spec(left@, old(self).tokenizer@);
                parse_res_view(r) == s.0 && final (self).tokenizer@ == s.1
            }),
        decreases old(self).remaining(), 6int,
    {
        proof {
            reveal(expr_more_spec);
        }
        let ghost v0 = self.tokenizer@;
        let is_op = match self.tokenizer.peek() {
            Some(Ok(token)) => token.kind == TokenKind::Addition || token.kind
                == TokenKind::Subtraction,
            _ => false,
        };
        if !is_op {
            return Ok(left);
        }
        let operator = self.next_token();
        let right = match self.parse_term() {
            Ok(n) => n,
            Err(e) => {
                return Err(e);
            },
        };
        let node = Box::new(Node::BinaryOp { left, operator, right });
        proof {
            assert(consumed_rest(v0, self.tokenizer@) == self.tokenizer@);
        }
        self.parse_expr_rest(node)
    }

    /// Parses a sum, as `parse_expr_spec` says.
    #[verifier::rlimit(100)]
    #[verifier::spinoff_prover]
    fn parse_expr(&mut self) -> (r: Result<Box<Node>, Error>)
        requires
            old(self).wf(),
        ensures
            final (self).wf(),
            final (self).remaining() <= old(self).remaining(),
            r matches Ok(n) ==> wf_node(n@) && final (self).remaining() < old(self).remaining(),
            ({
                let s = parse_expr_spec(old(self).tokenizer@);
                parse_res_view(r) == s.0 && final (self).tokenizer@ == s.1
            }),
        decreases old(self).remaining(), 7int,
    {
        proof {
            reveal(parse_expr_spec);
        }
        let ghost v0 = self.tokenizer@;
        let root = match self.parse_term() {
            Ok(n) => n,
            Err(e) => {
                return Err(e);
            },
        };
        proof {
            assert(bounded_rest(v0, self.tokenizer@) == self.tokenizer@);
        }
        self.parse_expr_rest(root)
    }

    /// Parses the comparison chain after a left operand, as
    /// `comparison_more_spec` says.
    #[verifier::rlimit(100)]
    #[verifier::spinoff_prover]
    fn parse_comparison_rest(&mut self, left: Box<Node>) -> (r: Result<Box<Node>, Error>)
        requires
            old(self).wf(),
            wf_node(left@),
        ensures
            final (self).wf(),
            final (self).remaining() <= old(self).remaining(),
            r matches Ok(n) ==> wf_node(n@),
            ({
                let s = comparison_more_spec(left@, old(self).tokenizer@);
                parse_res_view(r) == s.0 && final (self).tokenizer@ == s.1
            }),
        decreases old(self).remaining(), 8int,
    {
        proof {
            reveal(comparison_more_spec);
        }
        let ghost v0 = self.tokenizer@;
        let is_op = match self.tokenizer.peek() {
            Some(Ok(token)) => token.kind == TokenKind::Equals || token.kind
                == TokenKind::NotEquals || token.kind == TokenKind::Greater || token.kind
                == TokenKind::GreaterEq || token.kind == TokenKind::LessThan || token.kind
                == TokenKind::LessThanEq,
            _ => false,
        };
        if !is_op {
            return Ok(left);
        }
        let operator = self.next_token();
        let right = match self.parse_expr() {
            Ok(n) => n,
            Err(e) => {
                return Err(e);
            },
        };
        let node = Box::new(Node::BinaryOp { left, operator, right });
        proof {
            assert(consumed_rest(v0, self.tokenizer@) == self.tokenizer@);
        }
        self.parse_comparison_rest(node)
    }

    /// Parses a comparison, as `parse_comparison_spec` says.
    #[verifier::rlimit(100)]
    #[verifier::spinoff_prover]
    fn parse_comparison(&mut self) -> (r: Result<Box<Node>, Error>)
        requires
            old(self).wf(),
        ensures
            final (self).wf(),
            final (self).remaining() <= old(self).remaining(),
            r matches Ok(n) ==> wf_node(n@) && final (self).remaining() < old(self).remaining(),
            ({
                let s = parse_comparison_spec(old(self).tokenizer@);
                parse_res_view(r) == s.0 && final (self).tokenizer@ == s.1
            }),
        decreases old(self).remaining(), 9int,
    {
        proof {
            reveal(parse_comparison_spec);
        }
        let ghost v0 = self.tokenizer@;
        let root = match self.parse_expr() {
            Ok(n) => n,
            Err(e) => {
                return Err(e);
            },
        };
        proof {
            assert(bounded_rest(v0, self.tokenizer@) == self.tokenizer@);
        }
        self.parse_comparison_rest(root)
    }

    /// Parses a boolean factor, as `parse_bool_factor_spec` says.
    #[verifier::rlimit(100)]
    #[verifier::spinoff_prover]
    fn parse_bool_factor(&mut self) -> (r: Result<Box<Node>, Error>)
        requires
            old(self).wf(),
        ensures
            final (self).wf(),
            final (self).remaining() <= old(self).remaining(),
            r matches Ok(n) ==> wf_node(n@) && final (self).remaining() < old(self).remaining(),
            ({
                let s = parse_bool_factor_spec(old(self).tokenizer@);
                parse_res_view(r) == s.0 && final (self).tokenizer@ == s.1
            }),
        decreases old(self).remaining(), 10int,
    {
        proof {
            reveal(parse_bool_factor_spec);
        }
        let is_not = match self.tokenizer.peek() {
            Some(Ok(token)) => token.kind == TokenKind::Not,
            _ => false,
        };
        if is_not {
            let operator = self.next_token();
            let value = match self.parse_bool_factor() {
                Ok(n) => n,
                Err(e) => {
                    return Err(e);
                },
            };
            Ok(Box::new(Node::UnaryOp { operator, value }))
        } else {
            self.parse_comparison()
        }
    }

    /// Parses the `and` chain after a left operand, as
    /// `bool_term_more_spec` says.
    #[verifier::rlimit(100)]
    #[verifier::spinoff_prover]
    fn parse_bool_term_rest(&mut self, left: Box<Node>) -> (r: Result<Box<Node>, Error>)
        requires
            old(self).wf(),
            wf_node(left@),
        ensures
            final (self).wf(),
            final (self).remaining() <= old(self).remaining(),
            r matches Ok(n) ==> wf_node(n@),
            ({
                let s = bool_term_more_spec(left@, old(self).tokenizer@);
                parse_res_view(r) == s.0 && final (self).tokenizer@ == s.1
            }),
        decreases old(self).remaining(), 11int,
    {
        proof {
            reveal(bool_term_more_spec);
        }
        let ghost v0 = self.tokenizer@;
        let is_op = match self.tokenizer.peek() {
            Some(Ok(token)) => token.kind == TokenKind::And,
            _ => false,
        };
        if !is_op {
            return Ok(left);
        }
        let operator = self.next_token();
        let right = match self.parse_bool_factor() {
            Ok(n) => n,
            Err(e) => {
                return Err(e);
            },
        };
        let node = Box::new(Node::BinaryOp { left, operator, right });
        proof {
            assert(consumed_rest(v0, self.tokenizer@) == self.tokenizer@);
        }
        self.parse_bool_term_rest(node)
    }

    /// Parses a conjunction, as `parse_bool_term_spec` says.
    #[verifier::rlimit(100)]
    #[verifier::spinoff_prover]
    fn parse_bool_term(&mut self) -> (r: Result<Box<Node>, Error>)
        requires
            old(self).wf(),
        ensures
            final (self).wf(),
            final (self).remaining() <= old(self).remaining(),
            r matches Ok(n) ==> wf_node(n@) && final (self).remaining() < old(self).remaining(),
            ({
                let s = parse_bool_term_spec(old(self).tokenizer@);
                parse_res_view(r) == s.0 && final (self).tokenizer@ == s.1
            }),
        decreases old(self).remaining(), 12int,
    {
        proof {
            reveal(parse_bool_term_spec);
        }
        let ghost v0 = self.tokenizer@;
        let root = match self.parse_bool_factor() {
            Ok(n) => n,
            Err(e) => {
                return Err(e);
            },
        };
        proof {
            assert(bounded_rest(v0, self.tokenizer@) == self.tokenizer@);
        }
        self.parse_bool_term_rest(root)
    }

    /// Parses the `or` chain after a left operand, as `bool_expr_more_spec`
    /// says.
    #[verifier::rlimit(100)]
    #[verifier::spinoff_prover]
    fn parse_bool_expr_rest(&mut self, left: Box<Node>) -> (r: Result<Box<Node>, Error>)
        requires
            old(self).wf(),
            wf_node(left@),
        ensures
            final (self).wf(),
            final (self).remaining() <= old(self).remaining(),
            r matches Ok(n) ==> wf_node(n@),
            ({
                let s = bool_expr_more_spec(left@, old(self).tokenizer@);
                parse_res_view(r) == s.0 && final (self).tokenizer@ == s.1
            }),
        decreases old(self).remaining(), 13int,
    {
        proof {
            reveal(bool_expr_more_spec);
        }
        let ghost v0 = self.tokenizer@;
        let is_op = match self.tokenizer.peek() {
            Some(Ok(token)) => token.kind == TokenKind::Or,
            _ => false,
        };
        if !is_op {
            return Ok(left);
        }
        let operator = self.next_token();
        let right = match self.parse_bool_term() {
            Ok(n) => n,
            Err(e) => {
                return Err(e);
            },
        };
        let node = Box::new(Node::BinaryOp { left, operator, right });
        proof {
            assert(consumed_rest(v0, self.tokenizer@) == self.tokenizer@);
        }
        self.parse_bool_expr_rest(node)
    }

    /// Parses a disjunction, the grammar's loosest expression level, as
    /// `parse_bool_expr_spec` says.
    #[verifier::rlimit(100)]
    #[verifier::spinoff_prover]
    fn parse_bool_expr(&mut self) -> (r: Result<Box<Node>, Error>)
        requires
            old(self).wf(),
        ensures
            final (self).wf(),
            final (self).remaining() <= old(self).remaining(),
            r matches Ok(n) ==> wf_node(n@) && final (self).remaining() < old(self).remaining(),
            ({
                let s = parse_bool_expr_spec(old(self).tokenizer@);
                parse_res_view(r) == s.0 && final (self).tokenizer@ == s.1
            }),
        decreases old(self).remaining(), 14int,
    {
        proof {
            reveal(parse_bool_expr_spec);
        }
        let ghost v0 = self.tokenizer@;
        let root = match self.parse_bool_term() {
            Ok(n) => n,
            Err(e) => {
                return Err(e);
            },
        };
        proof {
            assert(bounded_rest(v0, self.tokenizer@) == self.tokenizer@);
        }
        self.parse_bool_expr_rest(root)
    }
}

} // verus!
