use vstd::prelude::*;

use vstd::arithmetic::power::{pow, lemma_pow_increases};
use vstd::arithmetic::power2::{lemma_pow2, lemma2_to64};

use crate::error::{Runtime, RuntimeV};
use crate::floats::{
    f32_add_bits, f32_add_exec, f32_as_int, f32_as_int_exec, f32_div_bits, f32_div_exec, f32_eq,
    f32_eq_exec, f32_is_zero, f32_is_zero_exec, f32_le, f32_le_exec, f32_lt, f32_lt_exec,
    f32_mul_bits, f32_mul_exec, f32_neg, f32_neg_exec, f32_of_int, f32_of_int_exec, f32_pow_bits,
    f32_pow_exec, f32_rem_bits, f32_rem_exec, f32_sub_bits, f32_sub_exec, F32_ONE,
};
use crate::node::{is_binary_operator, is_unary_operator, node_view, wf_node, Node, NodeV};
use crate::token::{Token, TokenKindV, TokenV};
use crate::util::{push_char, str_lt, str_lt_exec};

verus! {

/// The native functions the interpreter exposes; the evaluator dispatches
/// on this closed set by pattern match.
#[derive(Debug, Clone, Copy, PartialEq, Eq, Structural)]
pub enum Builtin {
    Println,
    Print,
    Input,
    Exit,
    Integer,
    String,
}

/// A runtime value. Floats are 32-bit IEEE bit patterns; a list value is a
/// handle into the evaluator's arena of list buffers, so that every copy of
/// the value aliases the same storage; a function value keeps its parameter
/// names and its body subtree.
#[derive(Debug)]
pub enum Value {
    Integer(i32),
    Float(u32),
    Boolean(bool),
    String(String),
    Character(char),
    List(usize),
    Function { name: String, arguments: Vec<String>, body: Box<Node> },
    BuiltInFunction { name: String, arguments: Vec<String>, builtin: Builtin },
    NoneValue,
}

/// The mathematical model of a runtime value.
pub enum ValueV {
    Integer(i32),
    Float(u32),
    Boolean(bool),
    Str(Seq<char>),
    Character(char),
    List(int),
    Function { name: Seq<char>, arguments: Seq<Seq<char>>, body: Box<NodeV> },
    BuiltInFunction { name: Seq<char>, arguments: Seq<Seq<char>>, builtin: Builtin },
    NoneValue,
}

impl View for Value {
    type V = ValueV;

    open spec fn view(&self) -> ValueV {
        match self {
            Value::Integer(i) => ValueV::Integer(*i),
            Value::Float(b) => ValueV::Float(*b),
            Value::Boolean(b) => ValueV::Boolean(*b),
            Value::String(s) => ValueV::Str(s@),
            Value::Character(c) => ValueV::Character(*c),
            Value::List(h) => ValueV::List(*h as int),
            Value::Function { name, arguments, body } => ValueV::Function {
                name: name@,
                arguments: arguments@.map_values(|s: String| s@),
                body: Box::new(node_view(**body)),
            },
            Value::BuiltInFunction { name, arguments, builtin } => ValueV::BuiltInFunction {
                name: name@,
                arguments: arguments@.map_values(|s: String| s@),
                builtin: *builtin,
            },
            Value::NoneValue => ValueV::NoneValue,
        }
    }
}

/// How many arguments each built-in takes.
pub open spec fn builtin_arity(b: Builtin) -> int {
    match b {
        Builtin::Input => 0,
        _ => 1,
    }
}

/// Well-formedness of a value against the arena: list handles are in
/// range, function bodies are well-formed trees, and built-in values carry
/// their built-in's arity.
pub open spec fn wf_value(v: ValueV, nlists: int) -> bool {
    match v {
        ValueV::List(h) => 0 <= h < nlists,
        ValueV::Function { name, arguments, body } => wf_node(*body),
        ValueV::BuiltInFunction { name, arguments, builtin } => arguments.len() == builtin_arity(
            builtin,
        ),
        _ => true,
    }
}

/// The model of the list arena.
pub open spec fn lists_view(lists: Seq<Vec<Value>>) -> Seq<Seq<ValueV>> {
    lists.map_values(|l: Vec<Value>| l@.map_values(|v: Value| v@))
}

/// Well-formedness of the arena: every stored value is well-formed.
pub open spec fn wf_lists(ls: Seq<Seq<ValueV>>) -> bool {
    forall|i: int, j: int|
        0 <= i < ls.len() && 0 <= j < #[trigger] ls[i].len() ==> wf_value(
            #[trigger] ls[i][j],
            ls.len() as int,
        )
}

/// An invalid-operation error; by the source convention, the field `right`
/// holds the operation's own (left-hand) value and `left` the other one.
pub open spec fn invalid_op(op: TokenV, right: Option<ValueV>, left: ValueV) -> RuntimeV {
    RuntimeV::InvalidOperation { operator: op, right, left }
}

/// The model of an operation's outcome.
pub open spec fn res_view(r: Result<Value, Runtime>) -> Result<ValueV, RuntimeV> {
    match r {
        Ok(v) => Ok(v@),
        Err(e) => Err(e@),
    }
}

/// 32-bit truncating division, wrapping on the one overflowing pair.
pub open spec fn div_wrap(a: i32, b: i32) -> i32 {
    match a.checked_div(b) {
        Some(q) => q,
        None => i32::MIN,
    }
}

/// 32-bit truncating remainder, zero on the one overflowing pair.
pub open spec fn rem_wrap(a: i32, b: i32) -> i32 {
    match a.checked_rem(b) {
        Some(q) => q,
        None => 0,
    }
}

/// A power of a 32-bit integer, exact while it fits and clamped to the
/// 32-bit range when it does not.
pub open spec fn pow_clamp(a: i32, n: nat) -> i32 {
    let p = pow(a as int, n);
    if p > i32::MAX as int {
        i32::MAX
    } else if p < i32::MIN as int {
        i32::MIN
    } else {
        p as i32
    }
}

/// A float raised to a signed integer power: squaring multiplications for a
/// non-negative exponent, the reciprocal of the positive power otherwise.
pub open spec fn f32_pow_int(x: u32, y: i32) -> u32 {
    if y >= 0 {
        f32_pow_bits(x, y as nat)
    } else {
        f32_div_bits(F32_ONE, f32_pow_bits(x, (-(y as int)) as nat))
    }
}

/// What `+` yields on a pair of values.
pub open spec fn spec_add(a: ValueV, b: ValueV, op: TokenV) -> Result<ValueV, RuntimeV> {
    match (a, b) {
        (ValueV::Integer(x), ValueV::Integer(y)) => Ok(ValueV::Integer(x.wrapping_add(y))),
        (ValueV::Float(x), ValueV::Float(y)) => Ok(ValueV::Float(f32_add_bits(x, y))),
        (ValueV::Str(x), ValueV::Str(y)) => Ok(ValueV::Str(x + y)),
        (ValueV::Character(x), ValueV::Character(y)) => Ok(ValueV::Str(seq![x, y])),
        (ValueV::Str(x), ValueV::Character(y)) => Ok(ValueV::Str(x.push(y))),
        (ValueV::Character(x), ValueV::Str(y)) => Ok(ValueV::Str(seq![x] + y)),
        _ => Err(invalid_op(op, Some(a), b)),
    }
}

/// What unary `+` yields on a value.
pub open spec fn spec_pos(a: ValueV, op: TokenV) -> Result<ValueV, RuntimeV> {
    match a {
        ValueV::Integer(x) => Ok(ValueV::Integer(x)),
        ValueV::Float(x) => Ok(ValueV::Float(x)),
        _ => Err(invalid_op(op, None, a)),
    }
}

/// What `-` yields on a pair of values.
pub open spec fn spec_sub(a: ValueV, b: ValueV, op: TokenV) -> Result<ValueV, RuntimeV> {
    match (a, b) {
        (ValueV::Integer(x), ValueV::Integer(y)) => Ok(ValueV::Integer(x.wrapping_sub(y))),
        (ValueV::Float(x), ValueV::Float(y)) => Ok(ValueV::Float(f32_sub_bits(x, y))),
        _ => Err(invalid_op(op, Some(a), b)),
    }
}

/// What unary `-` yields on a value.
pub open spec fn spec_neg(a: ValueV, op: TokenV) -> Result<ValueV, RuntimeV> {
    match a {
        ValueV::Integer(x) => Ok(ValueV::Integer(x.wrapping_sub(x).wrapping_sub(x))),
        ValueV::Float(x) => Ok(ValueV::Float(f32_neg(x))),
        _ => Err(invalid_op(op, None, a)),
    }
}

/// What `*` yields on a pair of values.
pub open spec fn spec_mul(a: ValueV, b: ValueV, op: TokenV) -> Result<ValueV, RuntimeV> {
    match (a, b) {
        (ValueV::Integer(x), ValueV::Integer(y)) => Ok(ValueV::Integer(x.wrapping_mul(y))),
        (ValueV::Float(x), ValueV::Float(y)) => Ok(ValueV::Float(f32_mul_bits(x, y))),
        _ => Err(invalid_op(op, Some(a), b)),
    }
}

/// What `/` yields on a pair of values: a zero divisor of either numeric
/// type is a division-by-zero error, every other pair of like numerics
/// divides, and anything else is invalid.
pub open spec fn spec_div(a: ValueV, b: ValueV, op: TokenV) -> Result<ValueV, RuntimeV> {
    match (a, b) {
        (ValueV::Integer(x), ValueV::Integer(y)) => if y == 0 {
            Err(RuntimeV::DivisionByZero { division: op })
        } else {
            Ok(ValueV::Integer(div_wrap(x, y)))
        },
        (ValueV::Float(x), ValueV::Float(y)) => if f32_is_zero(y) {
            Err(RuntimeV::DivisionByZero { division: op })
        } else {
            Ok(ValueV::Float(f32_div_bits(x, y)))
        },
        _ => Err(invalid_op(op, Some(a), b)),
    }
}

/// What `%` yields on a pair of values, with the same zero-divisor rule as
/// division.
pub open spec fn spec_mod(a: ValueV, b: ValueV, op: TokenV) -> Result<ValueV, RuntimeV> {
    match (a, b) {
        (ValueV::Integer(x), ValueV::Integer(y)) => if y == 0 {
            Err(RuntimeV::DivisionByZero { division: op })
        } else {
            Ok(ValueV::Integer(rem_wrap(x, y)))
        },
        (ValueV::Float(x), ValueV::Float(y)) => if f32_is_zero(y) {
            Err(RuntimeV::DivisionByZero { division: op })
        } else {
            Ok(ValueV::Float(f32_rem_bits(x, y)))
        },
        _ => Err(invalid_op(op, Some(a), b)),
    }
}

/// What `^` yields on a pair of values. An integer base with a negative
/// integer exponent is unsupported and reported as an invalid operation;
/// a float exponent must denote an integer exactly.
pub open spec fn spec_pow(a: ValueV, b: ValueV, op: TokenV) -> Result<ValueV, RuntimeV> {
    match (a, b) {
        (ValueV::Integer(x), ValueV::Integer(y)) => if y >= 0 {
            Ok(ValueV::Integer(pow_clamp(x, y as nat)))
        } else {
            Err(invalid_op(op, Some(a), b))
        },
        (ValueV::Integer(x), ValueV::Float(y)) => match f32_as_int(y) {
            Some(n) => Ok(ValueV::Float(f32_pow_int(f32_of_int(x), n))),
            None => Err(invalid_op(op, Some(a), b)),
        },
        (ValueV::Float(x), ValueV::Integer(y)) => Ok(ValueV::Float(f32_pow_int(x, y))),
        (ValueV::Float(x), ValueV::Float(y)) => match f32_as_int(y) {
            Some(n) => Ok(ValueV::Float(f32_pow_int(x, n))),
            None => Err(invalid_op(op, Some(a), b)),
        },
        _ => Err(invalid_op(op, Some(a), b)),
    }
}

/// What `not` yields on a value.
pub open spec fn spec_not(a: ValueV, op: TokenV) -> Result<ValueV, RuntimeV> {
    match a {
        ValueV::Boolean(x) => Ok(ValueV::Boolean(!x)),
        _ => Err(invalid_op(op, None, a)),
    }
}

/// What `and` yields on a pair of values: booleans only, no coercion.
pub open spec fn spec_and(a: ValueV, b: ValueV, op: TokenV) -> Result<ValueV, RuntimeV> {
    match (a, b) {
        (ValueV::Boolean(x), ValueV::Boolean(y)) => Ok(ValueV::Boolean(x && y)),
        _ => Err(invalid_op(op, Some(a), b)),
    }
}

/// What `or` yields on a pair of values: booleans only, no coercion.
pub open spec fn spec_or(a: ValueV, b: ValueV, op: TokenV) -> Result<ValueV, RuntimeV> {
    match (a, b) {
        (ValueV::Boolean(x), ValueV::Boolean(y)) => Ok(ValueV::Boolean(x || y)),
        _ => Err(invalid_op(op, Some(a), b)),
    }
}

/// What `==` yields: equality within each comparable pairing, `none` equal
/// only to `none`, and every other pairing invalid.
pub open spec fn spec_equals(a: ValueV, b: ValueV, op: TokenV) -> Result<ValueV, RuntimeV> {
    match (a, b) {
        (ValueV::Integer(x), ValueV::Integer(y)) => Ok(ValueV::Boolean(x == y)),
        (ValueV::Float(x), ValueV::Float(y)) => Ok(ValueV::Boolean(f32_eq(x, y))),
        (ValueV::Boolean(x), ValueV::Boolean(y)) => Ok(ValueV::Boolean(x == y)),
        (ValueV::Str(x), ValueV::Str(y)) => Ok(ValueV::Boolean(x == y)),
        (ValueV::Character(x), ValueV::Character(y)) => Ok(ValueV::Boolean(x == y)),
        (ValueV::NoneValue, ValueV::NoneValue) => Ok(ValueV::Boolean(true)),
        (_, ValueV::NoneValue) => Ok(ValueV::Boolean(false)),
        (ValueV::NoneValue, _) => Ok(ValueV::Boolean(false)),
        _ => Err(invalid_op(op, Some(a), b)),
    }
}

/// What `!=` yields, the negation of `==` on every comparable pairing.
pub open spec fn spec_not_equals(a: ValueV, b: ValueV, op: TokenV) -> Result<ValueV, RuntimeV> {
    match (a, b) {
        (ValueV::Integer(x), ValueV::Integer(y)) => Ok(ValueV::Boolean(x != y)),
        (ValueV::Float(x), ValueV::Float(y)) => Ok(ValueV::Boolean(!f32_eq(x, y))),
        (ValueV::Boolean(x), ValueV::Boolean(y)) => Ok(ValueV::Boolean(x != y)),
        (ValueV::Str(x), ValueV::Str(y)) => Ok(ValueV::Boolean(x != y)),
        (ValueV::Character(x), ValueV::Character(y)) => Ok(ValueV::Boolean(x != y)),
        (ValueV::NoneValue, ValueV::NoneValue) => Ok(ValueV::Boolean(false)),
        (_, ValueV::NoneValue) => Ok(ValueV::Boolean(true)),
        (ValueV::NoneValue, _) => Ok(ValueV::Boolean(true)),
        _ => Err(invalid_op(op, Some(a), b)),
    }
}

/// What `>` yields: numeric, string (lexicographic) and character pairs.
pub open spec fn spec_greater(a: ValueV, b: ValueV, op: TokenV) -> Result<ValueV, RuntimeV> {
    match (a, b) {
        (ValueV::Integer(x), ValueV::Integer(y)) => Ok(ValueV::Boolean(x > y)),
        (ValueV::Float(x), ValueV::Float(y)) => Ok(ValueV::Boolean(f32_lt(y, x))),
        (ValueV::Str(x), ValueV::Str(y)) => Ok(ValueV::Boolean(str_lt(y, x))),
        (ValueV::Character(x), ValueV::Character(y)) => Ok(ValueV::Boolean(x > y)),
        _ => Err(invalid_op(op, Some(a), b)),
    }
}

/// What `>=` yields on the same pairings as `>`.
pub open spec fn spec_greater_eq(a: ValueV, b: ValueV, op: TokenV) -> Result<ValueV, RuntimeV> {
    match (a, b) {
        (ValueV::Integer(x), ValueV::Integer(y)) => Ok(ValueV::Boolean(x >= y)),
        (ValueV::Float(x), ValueV::Float(y)) => Ok(ValueV::Boolean(f32_le(y, x))),
        (ValueV::Str(x), ValueV::Str(y)) => Ok(ValueV::Boolean(!str_lt(x, y))),
        (ValueV::Character(x), ValueV::Character(y)) => Ok(ValueV::Boolean(x >= y)),
        _ => Err(invalid_op(op, Some(a), b)),
    }
}

/// What `<` yields on the same pairings as `>`.
pub open spec fn spec_less_than(a: ValueV, b: ValueV, op: TokenV) -> Result<ValueV, RuntimeV> {
    match (a, b) {
        (ValueV::Integer(x), ValueV::Integer(y)) => Ok(ValueV::Boolean(x < y)),
        (ValueV::Float(x), ValueV::Float(y)) => Ok(ValueV::Boolean(f32_lt(x, y))),
        (ValueV::Str(x), ValueV::Str(y)) => Ok(ValueV::Boolean(str_lt(x, y))),
        (ValueV::Character(x), ValueV::Character(y)) => Ok(ValueV::Boolean(x < y)),
        _ => Err(invalid_op(op, Some(a), b)),
    }
}

/// What `<=` yields on the same pairings as `>`.
pub open spec fn spec_less_than_eq(a: ValueV, b: ValueV, op: TokenV) -> Result<ValueV, RuntimeV> {
    match (a, b) {
        (ValueV::Integer(x), ValueV::Integer(y)) => Ok(ValueV::Boolean(x <= y)),
        (ValueV::Float(x), ValueV::Float(y)) => Ok(ValueV::Boolean(f32_le(x, y))),
        (ValueV::Str(x), ValueV::Str(y)) => Ok(ValueV::Boolean(!str_lt(y, x))),
        (ValueV::Character(x), ValueV::Character(y)) => Ok(ValueV::Boolean(x <= y)),
        _ => Err(invalid_op(op, Some(a), b)),
    }
}

/// What a binary operator token yields on a pair of values.
pub open spec fn spec_binary_operation(a: ValueV, b: ValueV, op: TokenV) -> Result<
    ValueV,
    RuntimeV,
> {
    match op.kind {
        TokenKindV::Addition => spec_add(a, b, op),
        TokenKindV::Subtraction => spec_sub(a, b, op),
        TokenKindV::Multiplication => spec_mul(a, b, op),
        TokenKindV::Division => spec_div(a, b, op),
        TokenKindV::Modulo => spec_mod(a, b, op),
        TokenKindV::Power => spec_pow(a, b, op),
        TokenKindV::And => spec_and(a, b, op),
        TokenKindV::Or => spec_or(a, b, op),
        TokenKindV::Equals => spec_equals(a, b, op),
        TokenKindV::NotEquals => spec_not_equals(a, b, op),
        TokenKindV::Greater => spec_greater(a, b, op),
        TokenKindV::GreaterEq => spec_greater_eq(a, b, op),
        TokenKindV::LessThan => spec_less_than(a, b, op),
        TokenKindV::LessThanEq => spec_less_than_eq(a, b, op),
        _ => Err(invalid_op(op, Some(a), b)),
    }
}

/// What a unary operator token yields on a value.
pub open spec fn spec_unary_operation(a: ValueV, op: TokenV) -> Result<ValueV, RuntimeV> {
    match op.kind {
        TokenKindV::Addition => spec_pos(a, op),
        TokenKindV::Subtraction => spec_neg(a, op),
        TokenKindV::Not => spec_not(a, op),
        _ => Err(invalid_op(op, None, a)),
    }
}

impl Value {
    /// Whether this value is the unit value `none`.
    pub fn is_none(&self) -> (r: bool)
        ensures
            r == (self@ is NoneValue),
    {
        match self {
            Value::NoneValue => true,
            _ => false,
        }
    }

    /// Rebuilds this value; a rebuilt list value aliases the same storage.
    pub fn duplicate(&self) -> (r: Value)
        ensures
            r@ == self@,
    {
        match self {
            Value::Integer(i) => Value::Integer(*i),
            Value::Float(b) => Value::Float(*b),
            Value::Boolean(b) => Value::Boolean(*b),
            Value::String(s) => Value::String(s.clone()),
            Value::Character(c) => Value::Character(*c),
            Value::List(h) => Value::List(*h),
            Value::Function { name, arguments, body } => {
                let args = duplicate_strings(arguments);
                proof {
                    assert(args@.map_values(|s: String| s@) =~= arguments@.map_values(
                        |s: String| s@,
                    ));
                }
                Value::Function { name: name.clone(), arguments: args, body: body.duplicate() }
            },
            Value::BuiltInFunction { name, arguments, builtin } => {
                let args = duplicate_strings(arguments);
                proof {
                    assert(args@.map_values(|s: String| s@) =~= arguments@.map_values(
                        |s: String| s@,
                    ));
                }
                Value::BuiltInFunction { name: name.clone(), arguments: args, builtin: *builtin }
            },
            Value::NoneValue => Value::NoneValue,
        }
    }

    /// Applies a binary operator to this value and another; the result is
    /// exactly what the operator table `spec_binary_operation` gives.
    pub fn binary_operation(self, other: Value, operator: &Token) -> (r: Result<Value, Runtime>)
        requires
            is_binary_operator(operator@),
        ensures
            res_view(r) == spec_binary_operation(self@, other@, operator@),
    {
        match operator.kind {
            crate::token::TokenKind::Addition => self.add(other, operator),
            crate::token::TokenKind::Subtraction => self.sub(other, operator),
            crate::token::TokenKind::Multiplication => self.mul(other, operator),
            crate::token::TokenKind::Division => self.div(other, operator),
            crate::token::TokenKind::Modulo => self.modulo(other, operator),
            crate::token::TokenKind::Power => self.pow(other, operator),
            crate::token::TokenKind::And => self.and(other, operator),
            crate::token::TokenKind::Or => self.or(other, operator),
            crate::token::TokenKind::Equals => self.equals(other, operator),
            crate::token::TokenKind::NotEquals => self.not_equals(other, operator),
            crate::token::TokenKind::Greater => self.greater(other, operator),
            crate::token::TokenKind::GreaterEq => self.greater_eq(other, operator),
            crate::token::TokenKind::LessThan => self.less_than(other, operator),
            crate::token::TokenKind::LessThanEq => self.less_than_eq(other, operator),
            _ => Err(Runtime::InvalidOperation {
                operator: operator.duplicate(),
                right: Some(self),
                left: other,
            }),
        }
    }

    /// Applies a prefix operator to this value; the result is exactly what
    /// the operator table `spec_unary_operation` gives.
    pub fn unary_operation(self, operator: &Token) -> (r: Result<Value, Runtime>)
        requires
            is_unary_operator(operator@),
        ensures
            res_view(r) == spec_unary_operation(self@, operator@),
    {
        match operator.kind {
            crate::token::TokenKind::Addition => self.pos(operator),
            crate::token::TokenKind::Subtraction => self.neg(operator),
            crate::token::TokenKind::Not => self.not(operator),
            _ => Err(Runtime::InvalidOperation {
                operator: operator.duplicate(),
                right: None,
                left: self,
            }),
        }
    }

    fn add(self, other: Value, operator: &Token) -> (r: Result<Value, Runtime>)
        ensures
            res_view(r) == spec_add(self@, other@, operator@),
    {
        match (self, other) {
            (Value::Integer(a), Value::Integer(b)) => Ok(Value::Integer(a.wrapping_add(b))),
            (Value::Float(a), Value::Float(b)) => Ok(Value::Float(f32_add_exec(a, b))),
            (Value::String(a), Value::String(b)) => Ok(Value::String(a.concat(b.as_str()))),
            (Value::Character(a), Value::Character(b)) => {
                let mut s = String::new();
                push_char(&mut s, a);
                push_char(&mut s, b);
                proof {
                    assert(s@ =~= seq![a, b]);
                }
                Ok(Value::String(s))
            },
            (Value::String(a), Value::Character(b)) => {
                let mut s = a;
                push_char(&mut s, b);
                Ok(Value::String(s))
            },
            (Value::Character(a), Value::String(b)) => {
                let mut s = String::new();
                push_char(&mut s, a);
                s.append(b.as_str());
                proof {
                    assert(s@ =~= seq![a] + b@);
                }
                Ok(Value::String(s))
            },
            (right, left) => Err(Runtime::InvalidOperation {
                operator: operator.duplicate(),
                right: Some(right),
                left,
            }),
        }
    }

    fn pos(self, operator: &Token) -> (r: Result<Value, Runtime>)
        ensures
            res_view(r) == spec_pos(self@, operator@),
    {
        match self {
            Value::Integer(a) => Ok(Value::Integer(a)),
            Value::Float(a) => Ok(Value::Float(a)),
            left => Err(Runtime::InvalidOperation {
                operator: operator.duplicate(),
                right: None,
                left,
            }),
        }
    }

    fn sub(self, other: Value, operator: &Token) -> (r: Result<Value, Runtime>)
        ensures
            res_view(r) == spec_sub(self@, other@, operator@),
    {
        match (self, other) {
            (Value::Integer(a), Value::Integer(b)) => Ok(Value::Integer(a.wrapping_sub(b))),
            (Value::Float(a), Value::Float(b)) => Ok(Value::Float(f32_sub_exec(a, b))),
            (right, left) => Err(Runtime::InvalidOperation {
                operator: operator.duplicate(),
                right: Some(right),
                left,
            }),
        }
    }

    fn neg(self, operator: &Token) -> (r: Result<Value, Runtime>)
        ensures
            res_view(r) == spec_neg(self@, operator@),
    {
        match self {
            Value::Integer(a) => Ok(Value::Integer(a.wrapping_sub(a).wrapping_sub(a))),
            Value::Float(a) => Ok(Value::Float(f32_neg_exec(a))),
            left => Err(Runtime::InvalidOperation {
                operator: operator.duplicate(),
                right: None,
                left,
            }),
        }
    }

    fn mul(self, other: Value, operator: &Token) -> (r: Result<Value, Runtime>)
        ensures
            res_view(r) == spec_mul(self@, other@, operator@),
    {
        match (self, other) {
            (Value::Integer(a), Value::Integer(b)) => Ok(Value::Integer(a.wrapping_mul(b))),
            (Value::Float(a), Value::Float(b)) => Ok(Value::Float(f32_mul_exec(a, b))),
            (right, left) => Err(Runtime::InvalidOperation {
                operator: operator.duplicate(),
                right: Some(right),
                left,
            }),
        }
    }

    fn div(self, other: Value, operator: &Token) -> (r: Result<Value, Runtime>)
        ensures
            res_view(r) == spec_div(self@, other@, operator@),
    {
        match (self, other) {
            (Value::Integer(a), Value::Integer(b)) => {
                if b == 0 {
                    Err(Runtime::DivisionByZero { division: operator.duplicate() })
                } else {
                    let q = match a.checked_div(b) {
                        Some(q) => q,
                        None => i32::MIN,
                    };
                    Ok(Value::Integer(q))
                }
            },
            (Value::Float(a), Value::Float(b)) => {
                if f32_is_zero_exec(b) {
                    Err(Runtime::DivisionByZero { division: operator.duplicate() })
                } else {
                    Ok(Value::Float(f32_div_exec(a, b)))
                }
            },
            (right, left) => Err(Runtime::InvalidOperation {
                operator: operator.duplicate(),
                right: Some(right),
                left,
            }),
        }
    }

    fn modulo(self, other: Value, operator: &Token) -> (r: Result<Value, Runtime>)
        ensures
            res_view(r) == spec_mod(self@, other@, operator@),
    {
        match (self, other) {
            (Value::Integer(a), Value::Integer(b)) => {
                if b == 0 {
                    Err(Runtime::DivisionByZero { division: operator.duplicate() })
                } else {
                    let q = match a.checked_rem(b) {
                        Some(q) => q,
                        None => 0,
                    };
                    Ok(Value::Integer(q))
                }
            },
            (Value::Float(a), Value::Float(b)) => {
                if f32_is_zero_exec(b) {
                    Err(Runtime::DivisionByZero { division: operator.duplicate() })
                } else {
                    Ok(Value::Float(f32_rem_exec(a, b)))
                }
            },
            (right, left) => Err(Runtime::InvalidOperation {
                operator: operator.duplicate(),
                right: Some(right),
                left,
            }),
        }
    }

    fn pow(self, other: Value, operator: &Token) -> (r: Result<Value, Runtime>)
        ensures
            res_view(r) == spec_pow(self@, other@, operator@),
    {
        match (self, other) {
            (Value::Integer(a), Value::Integer(b)) => {
                if b >= 0 {
                    Ok(Value::Integer(int_pow_clamped(a, b as u32)))
                } else {
                    Err(Runtime::InvalidOperation {
                        operator: operator.duplicate(),
                        right: Some(Value::Integer(a)),
                        left: Value::Integer(b),
                    })
                }
            },
            (Value::Integer(a), Value::Float(b)) => {
                match f32_as_int_exec(b) {
                    Some(n) => {
                        let ab = f32_of_int_exec(a);
                        Ok(Value::Float(f32_pow_signed(ab, n)))
                    },
                    None => Err(Runtime::InvalidOperation {
                        operator: operator.duplicate(),
                        right: Some(Value::Integer(a)),
                        left: Value::Float(b),
                    }),
                }
            },
            (Value::Float(a), Value::Integer(b)) => Ok(Value::Float(f32_pow_signed(a, b))),
            (Value::Float(a), Value::Float(b)) => {
                match f32_as_int_exec(b) {
                    Some(n) => Ok(Value::Float(f32_pow_signed(a, n))),
                    None => Err(Runtime::InvalidOperation {
                        operator: operator.duplicate(),
                        right: Some(Value::Float(a)),
                        left: Value::Float(b),
                    }),
                }
            },
            (right, left) => Err(Runtime::InvalidOperation {
                operator: operator.duplicate(),
                right: Some(right),
                left,
            }),
        }
    }

    fn not(self, operator: &Token) -> (r: Result<Value, Runtime>)
        ensures
            res_view(r) == spec_not(self@, operator@),
    {
        match self {
            Value::Boolean(a) => Ok(Value::Boolean(!a)),
            left => Err(Runtime::InvalidOperation {
                operator: operator.duplicate(),
                right: None,
                left,
            }),
        }
    }

    fn and(self, other: Value, operator: &Token) -> (r: Result<Value, Runtime>)
        ensures
            res_view(r) == spec_and(self@, other@, operator@),
    {
        match (self, other) {
            (Value::Boolean(a), Value::Boolean(b)) => Ok(Value::Boolean(a && b)),
            (right, left) => Err(Runtime::InvalidOperation {
                operator: operator.duplicate(),
                right: Some(right),
                left,
            }),
        }
    }

    fn or(self, other: Value, operator: &Token) -> (r: Result<Value, Runtime>)
        ensures
            res_view(r) == spec_or(self@, other@, operator@),
    {
        match (self, other) {
            (Value::Boolean(a), Value::Boolean(b)) => Ok(Value::Boolean(a || b)),
            (right, left) => Err(Runtime::InvalidOperation {
                operator: operator.duplicate(),
                right: Some(right),
                left,
            }),
        }
    }

    fn equals(self, other: Value, operator: &Token) -> (r: Result<Value, Runtime>)
        ensures
            res_view(r) == spec_equals(self@, other@, operator@),
    {
        match (self, other) {
            (Value::Integer(a), Value::Integer(b)) => Ok(Value::Boolean(a == b)),
            (Value::Float(a), Value::Float(b)) => Ok(Value::Boolean(f32_eq_exec(a, b))),
            (Value::Boolean(a), Value::Boolean(b)) => Ok(Value::Boolean(a == b)),
            (Value::String(a), Value::String(b)) => Ok(Value::Boolean(a == b)),
            (Value::Character(a), Value::Character(b)) => Ok(Value::Boolean(a == b)),
            (Value::NoneValue, Value::NoneValue) => Ok(Value::Boolean(true)),
            (_, Value::NoneValue) => Ok(Value::Boolean(false)),
            (Value::NoneValue, _) => Ok(Value::Boolean(false)),
            (right, left) => Err(Runtime::InvalidOperation {
                operator: operator.duplicate(),
                right: Some(right),
                left,
            }),
        }
    }

    fn not_equals(self, other: Value, operator: &Token) -> (r: Result<Value, Runtime>)
        ensures
            res_view(r) == spec_not_equals(self@, other@, operator@),
    {
        match (self, other) {
            (Value::Integer(a), Value::Integer(b)) => Ok(Value::Boolean(a != b)),
            (Value::Float(a), Value::Float(b)) => Ok(Value::Boolean(!f32_eq_exec(a, b))),
            (Value::Boolean(a), Value::Boolean(b)) => Ok(Value::Boolean(a != b)),
            (Value::String(a), Value::String(b)) => Ok(Value::Boolean(!(a == b))),
            (Value::Character(a), Value::Character(b)) => Ok(Value::Boolean(a != b)),
            (Value::NoneValue, Value::NoneValue) => Ok(Value::Boolean(false)),
            (_, Value::NoneValue) => Ok(Value::Boolean(true)),
            (Value::NoneValue, _) => Ok(Value::Boolean(true)),
            (right, left) => Err(Runtime::InvalidOperation {
                operator: operator.duplicate(),
                right: Some(right),
                left,
            }),
        }
    }

    fn greater(self, other: Value, operator: &Token) -> (r: Result<Value, Runtime>)
        ensures
            res_view(r) == spec_greater(self@, other@, operator@),
    {
        match (self, other) {
            (Value::Integer(a), Value::Integer(b)) => Ok(Value::Boolean(a > b)),
            (Value::Float(a), Value::Float(b)) => Ok(Value::Boolean(f32_lt_exec(b, a))),
            (Value::String(a), Value::String(b)) => Ok(
                Value::Boolean(str_lt_exec(b.as_str(), a.as_str())),
            ),
            (Value::Character(a), Value::Character(b)) => Ok(Value::Boolean(a > b)),
            (right, left) => Err(Runtime::InvalidOperation {
                operator: operator.duplicate(),
                right: Some(right),
                left,
            }),
        }
    }

    fn greater_eq(self, other: Value, operator: &Token) -> (r: Result<Value, Runtime>)
        ensures
            res_view(r) == spec_greater_eq(self@, other@, operator@),
    {
        match (self, other) {
            (Value::Integer(a), Value::Integer(b)) => Ok(Value::Boolean(a >= b)),
            (Value::Float(a), Value::Float(b)) => Ok(Value::Boolean(f32_le_exec(b, a))),
            (Value::String(a), Value::String(b)) => Ok(
                Value::Boolean(!str_lt_exec(a.as_str(), b.as_str())),
            ),
            (Value::Character(a), Value::Character(b)) => Ok(Value::Boolean(a >= b)),
            (right, left) => Err(Runtime::InvalidOperation {
                operator: operator.duplicate(),
                right: Some(right),
                left,
            }),
        }
    }

    fn less_than(self, other: Value, operator: &Token) -> (r: Result<Value, Runtime>)
        ensures
            res_view(r) == spec_less_than(self@, other@, operator@),
    {
        match (self, other) {
            (Value::Integer(a), Value::Integer(b)) => Ok(Value::Boolean(a < b)),
            (Value::Float(a), Value::Float(b)) => Ok(Value::Boolean(f32_lt_exec(a, b))),
            (Value::String(a), Value::String(b)) => Ok(
                Value::Boolean(str_lt_exec(a.as_str(), b.as_str())),
            ),
            (Value::Character(a), Value::Character(b)) => Ok(Value::Boolean(a < b)),
            (right, left) => Err(Runtime::InvalidOperation {
                operator: operator.duplicate(),
                right: Some(right),
                left,
            }),
        }
    }

    fn less_than_eq(self, other: Value, operator: &Token) -> (r: Result<Value, Runtime>)
        ensures
            res_view(r) == spec_less_than_eq(self@, other@, operator@),
    {
        match (self, other) {
            (Value::Integer(a), Value::Integer(b)) => Ok(Value::Boolean(a <= b)),
            (Value::Float(a), Value::Float(b)) => Ok(Value::Boolean(f32_le_exec(a, b))),
            (Value::String(a), Value::String(b)) => Ok(
                Value::Boolean(!str_lt_exec(b.as_str(), a.as_str())),
            ),
            (Value::Character(a), Value::Character(b)) => Ok(Value::Boolean(a <= b)),
            (right, left) => Err(Runtime::InvalidOperation {
                operator: operator.duplicate(),
                right: Some(right),
                left,
            }),
        }
    }
}

/// Raises a float's bit pattern to a signed integer power: the reciprocal
/// of the positive power for a negative exponent.
fn f32_pow_signed(x: u32, y: i32) -> (r: u32)
    ensures
        r == f32_pow_int(x, y),
{
    if y >= 0 {
        f32_pow_exec(x, y as u32)
    } else {
        let m: i64 = -(y as i64);
        assert(0 < m <= 0x8000_0000);
        let n: u32 = m as u32;
        assert(n as int == -(y as int));
        let p = f32_pow_exec(x, n);
        f32_div_exec(F32_ONE, p)
    }
}

/// The sign law of integer powers: a negative base gives the power of the
/// magnitude, negated for odd exponents.
proof fn lemma_pow_sign(a: int, n: nat)
    requires
        a < 0,
    ensures
        pow(a, n) == if n % 2 == 0 {
            pow(-a, n)
        } else {
            -pow(-a, n)
        },
    decreases n,
{
    if n == 0 {
        vstd::arithmetic::power::lemma_pow0(a);
        vstd::arithmetic::power::lemma_pow0(-a);
    } else {
        lemma_pow_sign(a, (n - 1) as nat);
        vstd::arithmetic::power::lemma_pow1(a);
        vstd::arithmetic::power::lemma_pow1(-a);
        vstd::arithmetic::power::lemma_pow_adds(a, (n - 1) as nat, 1);
        vstd::arithmetic::power::lemma_pow_adds(-a, (n - 1) as nat, 1);
        assert(pow(a, n) == pow(a, (n - 1) as nat) * a);
        assert(pow(-a, n) == pow(-a, (n - 1) as nat) * (-a));
        let p1 = pow(a, (n - 1) as nat);
        let q1 = pow(-a, (n - 1) as nat);
        if n % 2 == 0 {
            assert(p1 * a == q1 * (-a)) by (nonlinear_arith)
                requires
                    p1 == -q1,
            ;
        } else {
            assert(p1 * a == -(q1 * (-a))) by (nonlinear_arith)
                requires
                    p1 == q1,
            ;
        }
    }
}

/// A 32-bit integer power, exact while it fits in the 32-bit signed range
/// and clamped to that range when it overflows.
fn int_pow_clamped(a: i32, n: u32) -> (r: i32)
    ensures
        r == pow_clamp(a, n as nat),
{
    proof {
        lemma2_to64();
        lemma_pow2(31);
    }
    if a == 0 {
        if n == 0 {
            assert(pow(0, 0) == 1) by {
                vstd::arithmetic::power::lemma_pow0(0);
            }
            1
        } else {
            assert(pow(0, n as nat) == 0) by {
                vstd::arithmetic::power::lemma0_pow(n as nat);
            }
            0
        }
    } else {
        let mag: u64 = if a >= 0 {
            a as u64
        } else {
            (-(a as i64)) as u64
        };
        assert(1 <= mag <= 0x8000_0000);
        assert(mag as int == if a >= 0 {
            a as int
        } else {
            -(a as int)
        });
        let neg: bool = a < 0 && n % 2 == 1;
        let mut powm: u64 = 1;
        let mut i: u32 = 0;
        assert(pow(mag as int, 0) == 1) by {
            vstd::arithmetic::power::lemma_pow0(mag as int);
        }
        while i < n
            invariant
                1 <= mag <= 0x8000_0000,
                i <= n,
                (powm <= 0x8000_0000 && powm == pow(mag as int, i as nat)) || (powm
                    == 0x8000_0001 && pow(mag as int, i as nat) > 0x8000_0000),
            decreases n - i,
        {
            if powm == 0x8000_0001 {
                proof {
                    lemma_pow_increases(mag as nat, i as nat, n as nat);
                }
                i = n;
            } else {
            proof {
                assert(powm * mag <= 0x8000_0001 * 0x8000_0000) by (nonlinear_arith)
                    requires
                        0 <= powm <= 0x8000_0001,
                        0 <= mag <= 0x8000_0000,
                ;
                vstd::arithmetic::power::lemma_pow1(mag as int);
                vstd::arithmetic::power::lemma_pow_adds(mag as int, i as nat, 1);
                assert(pow(mag as int, (i + 1) as nat) == pow(mag as int, i as nat) * mag);
                if powm == 0x8000_0001 {
                    assert(pow(mag as int, i as nat) * mag >= pow(mag as int, i as nat)) by (
                    nonlinear_arith)
                        requires
                            mag >= 1,
                            pow(mag as int, i as nat) > 0,
                    ;
                }
            }
            let next: u64 = powm * mag;
            powm = if next > 0x8000_0000 {
                0x8000_0001
            } else {
                next
            };
            i = i + 1;
            }
        }
        let p_high = powm > 0x8000_0000;
        proof {
            let p = pow(a as int, n as nat);
            let pm = pow(mag as int, n as nat);
            vstd::arithmetic::power::lemma_pow_positive(mag as int, n as nat);
            if a < 0 {
                lemma_pow_sign(a as int, n as nat);
                if n % 2 == 0 {
                    assert(p == pm);
                } else {
                    assert(p == -pm);
                }
            } else {
                assert(p == pm);
            }
        }
        if neg {
            if p_high {
                i32::MIN
            } else {
                assert(1 <= powm <= 0x8000_0000);
                (-(powm as i64)) as i32
            }
        } else {
            if powm > 0x7fff_ffff {
                i32::MAX
            } else {
                powm as i32
            }
        }
    }
}

/// Dividing by zero is always the division-by-zero error, for `/` and `%`
/// alike: any integer dividend with the zero divisor, and any float
/// dividend with a zero divisor of either sign, and never a value.
pub proof fn lemma_division_by_zero(a: ValueV, b: ValueV, op: TokenV)
    requires
        (a is Integer && b == ValueV::Integer(0)) || (a is Float && (b matches ValueV::Float(z)
            && f32_is_zero(z))),
    ensures
        spec_div(a, b, op) == Err::<ValueV, RuntimeV>(RuntimeV::DivisionByZero { division: op }),
        spec_mod(a, b, op) == Err::<ValueV, RuntimeV>(RuntimeV::DivisionByZero { division: op }),
{
}

/// The value a literal token denotes.
pub open spec fn value_of_literal(t: TokenV) -> ValueV {
    match t.kind {
        TokenKindV::Integer(i) => ValueV::Integer(i),
        TokenKindV::Float(b) => ValueV::Float(b),
        TokenKindV::Boolean(b) => ValueV::Boolean(b),
        TokenKindV::String(s) => ValueV::Str(s),
        TokenKindV::Character(c) => ValueV::Character(c),
        _ => ValueV::NoneValue,
    }
}

/// What indexing yields: a character of a string or a copy of a list
/// member, bounds-checked; every other pairing, and an index out of range,
/// is an invalid operation naming the indexed identifier.
pub open spec fn spec_index(a: ValueV, idx: ValueV, ls: Seq<Seq<ValueV>>, ident: TokenV) -> Result<
    ValueV,
    RuntimeV,
> {
    match (a, idx) {
        (ValueV::Str(s), ValueV::Integer(i)) => if 0 <= i < s.len() {
            Ok(ValueV::Character(s[i as int]))
        } else {
            Err(invalid_op(ident, Some(a), idx))
        },
        (ValueV::List(h), ValueV::Integer(i)) => if 0 <= i < ls[h].len() {
            Ok(ls[h][i as int])
        } else {
            Err(invalid_op(ident, Some(a), idx))
        },
        _ => Err(invalid_op(ident, Some(a), idx)),
    }
}

/// What assigning through a list index yields and how it changes the
/// arena: in range, the shared buffer is updated in place and the result is
/// the unit value; anything else is an invalid operation and leaves the
/// arena as it was.
pub open spec fn spec_list_assign(
    a: ValueV,
    idx: ValueV,
    v: ValueV,
    ls: Seq<Seq<ValueV>>,
    ident: TokenV,
) -> (Result<ValueV, RuntimeV>, Seq<Seq<ValueV>>) {
    match (a, idx) {
        (ValueV::List(h), ValueV::Integer(i)) => if 0 <= i < ls[h].len() {
            (Ok(ValueV::NoneValue), ls.update(h, ls[h].update(i as int, v)))
        } else {
            (Err(invalid_op(ident, Some(a), ValueV::Integer(i))), ls)
        },
        _ => (Err(invalid_op(ident, Some(a), idx)), ls),
    }
}

impl Value {
    /// Builds the value a literal token denotes.
    pub fn from_literal(t: &Token) -> (r: Value)
        requires
            crate::node::is_literal(t@),
        ensures
            r@ == value_of_literal(t@),
    {
        match &t.kind {
            crate::token::TokenKind::Integer(i) => Value::Integer(*i),
            crate::token::TokenKind::Float(b) => Value::Float(*b),
            crate::token::TokenKind::Boolean(b) => Value::Boolean(*b),
            crate::token::TokenKind::String(s) => Value::String(s.clone()),
            crate::token::TokenKind::Character(c) => Value::Character(*c),
            _ => Value::NoneValue,
        }
    }

    /// Indexes this value, reading list members from the arena.
    pub fn index(&self, idx: &Value, lists: &Vec<Vec<Value>>, identifier: &Token) -> (r: Result<
        Value,
        Runtime,
    >)
        requires
            wf_value(self@, lists@.len() as int),
        ensures
            res_view(r) == spec_index(self@, idx@, lists_view(lists@), identifier@),
    {
        match (self, idx) {
            (Value::String(s), Value::Integer(i)) => {
                let n = s.as_str().unicode_len();
                if *i >= 0 && (*i as usize) < n {
                    Ok(Value::Character(s.as_str().get_char(*i as usize)))
                } else {
                    Err(Runtime::InvalidOperation {
                        operator: identifier.duplicate(),
                        right: Some(self.duplicate()),
                        left: idx.duplicate(),
                    })
                }
            },
            (Value::List(h), Value::Integer(i)) => {
                let row = &lists[*h];
                proof {
                    assert(lists_view(lists@)[*h as int] == row@.map_values(|v: Value| v@));
                }
                if *i >= 0 && (*i as usize) < row.len() {
                    let e = row[*i as usize].duplicate();
                    proof {
                        assert(lists_view(lists@)[*h as int][*i as int] == row@[*i as int]@);
                    }
                    Ok(e)
                } else {
                    Err(Runtime::InvalidOperation {
                        operator: identifier.duplicate(),
                        right: Some(self.duplicate()),
                        left: idx.duplicate(),
                    })
                }
            },
            _ => Err(Runtime::InvalidOperation {
                operator: identifier.duplicate(),
                right: Some(self.duplicate()),
                left: idx.duplicate(),
            }),
        }
    }

    /// Assigns through this value as a list handle, mutating the shared
    /// buffer in the arena.
    pub fn list_assign(
        &self,
        idx: &Value,
        value: Value,
        lists: &mut Vec<Vec<Value>>,
        identifier: &Token,
    ) -> (r: Result<Value, Runtime>)
        requires
            wf_value(self@, old(lists)@.len() as int),
        ensures
            (res_view(r), lists_view(final (lists)@)) == spec_list_assign(
                self@,
                idx@,
                value@,
                lists_view(old(lists)@),
                identifier@,
            ),
    {
        let ghost ls0 = lists_view(lists@);
        match (self, idx) {
            (Value::List(h), Value::Integer(i)) => {
                let row_len = lists[*h].len();
                proof {
                    assert(ls0[*h as int] == lists@[*h as int]@.map_values(|v: Value| v@));
                }
                if *i >= 0 && (*i as usize) < row_len {
                    let ghost v0 = value@;
                    let row = &mut lists[*h];
                    row[*i as usize] = value;
                    proof {
                        let lsn = lists_view(lists@);
                        assert(lsn.len() == ls0.len());
                        assert forall|k: int| 0 <= k < lsn.len() implies lsn[k] == ls0.update(
                            *h as int,
                            ls0[*h as int].update(*i as int, v0),
                        )[k] by {
                            assert(lsn[k] == lists@[k]@.map_values(|v: Value| v@));
                            if k == *h as int {
                                assert(lsn[k] =~= ls0[k].update(*i as int, v0));
                            } else {
                                assert(lists@[k] == old(lists)@[k]);
                            }
                        }
                        assert(lsn =~= ls0.update(*h as int, ls0[*h as int].update(*i as int, v0)));
                    }
                    Ok(Value::NoneValue)
                } else {
                    Err(Runtime::InvalidOperation {
                        operator: identifier.duplicate(),
                        right: Some(self.duplicate()),
                        left: idx.duplicate(),
                    })
                }
            },
            _ => Err(Runtime::InvalidOperation {
                operator: identifier.duplicate(),
                right: Some(self.duplicate()),
                left: idx.duplicate(),
            }),
        }
    }
}

/// The decimal digit characters.
pub open spec fn digit_char(d: int) -> char {
    if d == 0 {
        '0'
    } else if d == 1 {
        '1'
    } else if d == 2 {
        '2'
    } else if d == 3 {
        '3'
    } else if d == 4 {
        '4'
    } else if d == 5 {
        '5'
    } else if d == 6 {
        '6'
    } else if d == 7 {
        '7'
    } else if d == 8 {
        '8'
    } else {
        '9'
    }
}

/// The decimal numeral of a natural number, most significant digit first.
pub open spec fn u_dec(n: nat) -> Seq<char>
    decreases n,
{
    if n < 10 {
        seq![digit_char(n as int)]
    } else {
        u_dec(n / 10).push(digit_char((n % 10) as int))
    }
}

/// The decimal numeral of a 32-bit integer, with a sign for negatives.
pub open spec fn i32_dec(i: i32) -> Seq<char> {
    if i < 0 {
        seq!['-'] + u_dec((-(i as int)) as nat)
    } else {
        u_dec(i as nat)
    }
}

/// The display rendition of a value. Lists are read from the arena and
/// rendered to a bounded depth: past it, or on a stale handle, a buffer is
/// rendered as `[...]`.
pub open spec fn spec_display(v: ValueV, ls: Seq<Seq<ValueV>>, fuel: nat) -> Seq<char>
    decreases fuel, 0nat,
{
    match v {
        ValueV::Integer(i) => i32_dec(i),
        ValueV::Float(b) => crate::floats::f32_display(b),
        ValueV::Boolean(b) => if b {
            "True"@
        } else {
            "False"@
        },
        ValueV::Str(s) => s,
        ValueV::Character(c) => seq![c],
        ValueV::List(h) => if fuel == 0 || !(0 <= h < ls.len()) {
            "[...]"@
        } else {
            seq!['['] + spec_display_items(ls[h], ls, (fuel - 1) as nat) + seq![']']
        },
        ValueV::Function { name, arguments, body } => "<Function: "@ + name + seq!['>'],
        ValueV::BuiltInFunction { name, arguments, builtin } => "<Function: "@ + name + seq!['>'],
        ValueV::NoneValue => "None"@,
    }
}

/// The members of a list buffer rendered left to right, separated by a
/// comma and a space.
pub open spec fn spec_display_items(items: Seq<ValueV>, ls: Seq<Seq<ValueV>>, fuel: nat) -> Seq<
    char,
>
    decreases fuel, items.len() + 1,
{
    if items.len() == 0 {
        Seq::empty()
    } else if items.len() == 1 {
        spec_display(items[0], ls, fuel)
    } else {
        spec_display_items(items.drop_last(), ls, fuel) + ", "@ + spec_display(
            items.last(),
            ls,
            fuel,
        )
    }
}

/// One decimal digit as a character.
fn digit_char_exec(d: u64) -> (r: char)
    requires
        d < 10,
    ensures
        r == digit_char(d as int),
{
    match d {
        0 => '0',
        1 => '1',
        2 => '2',
        3 => '3',
        4 => '4',
        5 => '5',
        6 => '6',
        7 => '7',
        8 => '8',
        _ => '9',
    }
}

/// Renders a natural number in decimal.
fn u64_to_string(n: u64) -> (r: String)
    ensures
        r@ == u_dec(n as nat),
{
    if n == 0 {
        proof {
            reveal_strlit("0");
            assert("0"@ =~= u_dec(0));
        }
        return "0".to_owned();
    }
    let mut rev: Vec<char> = Vec::new();
    let mut m: u64 = n;
    while m > 0
        invariant
            if m > 0 {
                u_dec(n as nat) =~= u_dec(m as nat) + rev@.reverse()
            } else {
                u_dec(n as nat) =~= rev@.reverse()
            },
        decreases m,
    {
        let ghost m0 = m;
        let ghost rev0 = rev@;
        let d = digit_char_exec(m % 10);
        rev.push(d);
        proof {
            assert(rev@.drop_last() =~= rev0);
            assert(rev@.reverse() =~= seq![d] + rev@.drop_last().reverse());
            if m0 >= 10 {
                assert(u_dec(m0 as nat) == u_dec((m0 / 10) as nat).push(d));
                assert(u_dec((m0 / 10) as nat).push(d) + rev@.drop_last().reverse() =~= u_dec(
                    (m0 / 10) as nat,
                ) + rev@.reverse());
            } else {
                assert(u_dec(m0 as nat) =~= seq![d]);
                assert(seq![d] + rev@.drop_last().reverse() =~= rev@.reverse());
            }
        }
        m = m / 10;
    }
    let mut s = String::new();
    let mut j: usize = rev.len();
    while j > 0
        invariant
            j <= rev@.len(),
            s@ =~= rev@.reverse().take(rev@.len() - j),
        decreases j,
    {
        j = j - 1;
        let c = rev[j];
        push_char(&mut s, c);
        proof {
            assert(rev@.reverse()[rev@.len() - j - 1] == rev@[j as int]);
            assert(s@ =~= rev@.reverse().take(rev@.len() - j));
        }
    }
    proof {
        assert(rev@.reverse().take(rev@.len() as int) =~= rev@.reverse());
    }
    s
}

/// Renders a 32-bit integer in decimal.
pub fn i32_to_string(i: i32) -> (r: String)
    ensures
        r@ == i32_dec(i),
{
    if i < 0 {
        let mag: u64 = (-(i as i64)) as u64;
        let mut s = String::new();
        push_char(&mut s, '-');
        let digits = u64_to_string(mag);
        s.append(digits.as_str());
        proof {
            assert(s@ =~= seq!['-'] + u_dec(mag as nat));
        }
        s
    } else {
        u64_to_string(i as u64)
    }
}

impl Value {
    /// Renders this value for display: numbers in decimal, booleans as
    /// `True`/`False`, lists bracketed with members comma-separated, read
    /// from the arena to the given depth, functions by their names.
    pub fn to_display_string(&self, lists: &Vec<Vec<Value>>, fuel: u32) -> (r: String)
        ensures
            r@ == spec_display(self@, lists_view(lists@), fuel as nat),
        decreases fuel, 0nat, 0nat,
    {
        match self {
            Value::Integer(i) => i32_to_string(*i),
            Value::Float(b) => crate::floats::f32_display_exec(*b),
            Value::Boolean(b) => if *b {
                "True".to_owned()
            } else {
                "False".to_owned()
            },
            Value::String(s) => s.clone(),
            Value::Character(c) => {
                let mut s = String::new();
                push_char(&mut s, *c);
                proof {
                    assert(s@ =~= seq![*c]);
                }
                s
            },
            Value::List(h) => {
                if fuel == 0 || *h >= lists.len() {
                    "[...]".to_owned()
                } else {
                    let mut s = String::new();
                    push_char(&mut s, '[');
                    let items = display_items(&lists[*h], lists, fuel - 1);
                    s.append(items.as_str());
                    push_char(&mut s, ']');
                    proof {
                        let ls = lists_view(lists@);
                        assert(ls[*h as int] == lists@[*h as int]@.map_values(|v: Value| v@));
                        assert(s@ =~= seq!['['] + spec_display_items(
                            ls[*h as int],
                            ls,
                            (fuel - 1) as nat,
                        ) + seq![']']);
                    }
                    s
                }
            },
            Value::Function { name, arguments, body } => {
                let mut s = "<Function: ".to_owned();
                s.append(name.as_str());
                push_char(&mut s, '>');
                proof {
                    assert(s@ =~= "<Function: "@ + name@ + seq!['>']);
                }
                s
            },
            Value::BuiltInFunction { name, arguments, builtin } => {
                let mut s = "<Function: ".to_owned();
                s.append(name.as_str());
                push_char(&mut s, '>');
                proof {
                    assert(s@ =~= "<Function: "@ + name@ + seq!['>']);
                }
                s
            },
            Value::NoneValue => "None".to_owned(),
        }
    }
}

/// Renders the members of one list buffer, comma-separated.
fn display_items(row: &Vec<Value>, lists: &Vec<Vec<Value>>, fuel: u32) -> (r: String)
    ensures
        r@ == spec_display_items(row@.map_values(|v: Value| v@), lists_view(lists@), fuel as nat),
    decreases fuel, row@.len(), 1nat,
{
    let ghost items = row@.map_values(|v: Value| v@);
    let ghost ls = lists_view(lists@);
    let mut s = String::new();
    let mut k: usize = 0;
    while k < row.len()
        invariant
            items == row@.map_values(|v: Value| v@),
            ls == lists_view(lists@),
            k <= row@.len(),
            s@ == spec_display_items(items.take(k as int), ls, fuel as nat),
        decreases row@.len() - k,
    {
        if k > 0 {
            s.append(", ");
        }
        let piece = row[k].to_display_string(lists, fuel);
        s.append(piece.as_str());
        proof {
            let taken = items.take(k + 1 as int);
            assert(taken.drop_last() =~= items.take(k as int));
            assert(taken.last() == items[k as int]);
            assert(items[k as int] == row@[k as int]@);
            if k == 0 {
                assert(taken.len() == 1);
                assert(s@ =~= spec_display(taken[0], ls, fuel as nat));
            } else {
                assert(s@ =~= spec_display_items(items.take(k as int), ls, fuel as nat) + ", "@
                    + spec_display(taken.last(), ls, fuel as nat));
            }
        }
        k = k + 1;
    }
    proof {
        assert(items.take(row@.len() as int) =~= items);
    }
    s
}

/// Rebuilds a vector of strings.
fn duplicate_strings(v: &Vec<String>) -> (r: Vec<String>)
    ensures
        r@.len() == v@.len(),
        forall|j: int| 0 <= j < v@.len() ==> #[trigger] r@[j] == v@[j],
{
    let mut r: Vec<String> = Vec::new();
    let mut i: usize = 0;
    while i < v.len()
        invariant
            i <= v@.len(),
            r@.len() == i,
            forall|j: int| 0 <= j < i ==> #[trigger] r@[j] == v@[j],
        decreases v@.len() - i,
    {
        let d = v[i].clone();
        r.push(d);
        i = i + 1;
    }
    r
}

} // verus!
