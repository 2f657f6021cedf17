use vstd::prelude::*;

use crate::tokenizer::{digits_val, is_digit_char, lemma_digits_val_prefix};
use crate::util::push_char;
use crate::value::{lists_view, spec_display, Builtin, Value, ValueV};

verus! {

/// How deep a value rendition follows nested list handles.
pub const RENDER_DEPTH: u32 = 32;

/// Whether every character of a sequence is an ASCII digit.
pub open spec fn all_digits(s: Seq<char>) -> bool {
    forall|m: int| 0 <= m < s.len() ==> is_digit_char(#[trigger] s[m])
}

/// Whether a character sequence is a signed 32-bit numeral, and what it
/// denotes: an optional sign, then digits whose value fits the type.
pub open spec fn parse_i32_spec(s: Seq<char>) -> Option<i32> {
    let neg = s.len() > 0 && s[0] == '-';
    let signed = s.len() > 0 && (s[0] == '-' || s[0] == '+');
    let body = if signed {
        s.subrange(1, s.len() as int)
    } else {
        s
    };
    if body.len() == 0 || !all_digits(body) {
        None
    } else {
        let v = digits_val(body);
        if neg {
            if v <= 0x8000_0000 {
                Some((-v) as i32)
            } else {
                None
            }
        } else {
            if v <= i32::MAX as int {
                Some(v as i32)
            } else {
                None
            }
        }
    }
}

/// Reads a signed 32-bit integer from text, exactly as `parse_i32_spec`
/// describes.
pub fn parse_i32(s: &str) -> (r: Option<i32>)
    ensures
        r == parse_i32_spec(s@),
{
    let len = s.unicode_len();
    if len == 0 {
        return None;
    }
    let first = s.get_char(0);
    let neg = first == '-';
    let signed = neg || first == '+';
    let start: usize = if signed {
        1
    } else {
        0
    };
    let ghost body = if signed {
        s@.subrange(1, s@.len() as int)
    } else {
        s@
    };
    if len == start {
        return None;
    }
    let mut acc: u64 = 0;
    let mut k = start;
    while k < len
        invariant
            start <= k <= len,
            len == s@.len(),
            neg == (s@.len() > 0 && s@[0] == '-'),
            signed == (s@.len() > 0 && (s@[0] == '-' || s@[0] == '+')),
            start == if signed {
                1int
            } else {
                0int
            },
            body == if signed {
                s@.subrange(1, s@.len() as int)
            } else {
                s@
            },
            acc <= 0x8000_0000,
            forall|m: int| 0 <= m < k - start ==> is_digit_char(#[trigger] body[m]),
            acc as int == digits_val(body.take(k - start)),
        decreases len - k,
    {
        let c = s.get_char(k);
        if !('0' <= c && c <= '9') {
            proof {
                assert(body[k - start] == s@[k as int]);
                assert(!is_digit_char(body[k - start]));
                assert(0 <= k - start < body.len());
                assert(!all_digits(body));
                assert(parse_i32_spec(s@) is None);
            }
            return None;
        }
        let d: u32 = (c as u32) - ('0' as u32);
        let next: u64 = acc * 10 + (d as u64);
        proof {
            let t = body.take(k - start + 1);
            assert(t.drop_last() =~= body.take(k - start));
            assert(t.last() == body[k - start]);
            assert(body[k - start] == s@[k as int]);
            assert(digits_val(t) == digits_val(body.take(k - start)) * 10 + (c as int
                - '0' as int));
        }
        if next > 0x8000_0000 {
            proof {
                if all_digits(body) {
                    lemma_digits_val_prefix(body, k - start + 1);
                    assert(digits_val(body) >= next > 0x8000_0000);
                }
                assert(parse_i32_spec(s@) is None);
            }
            return None;
        }
        acc = next;
        k = k + 1;
    }
    proof {
        assert(body.take(len - start) =~= body);
    }
    if neg {
        Some((-(acc as i64)) as i32)
    } else {
        if acc > 0x7fff_ffff {
            None
        } else {
            Some(acc as i32)
        }
    }
}

/// What the `integer` built-in yields: the integer a string denotes, or
/// the unit value when the argument is no string or denotes none.
pub open spec fn integer_spec(v: ValueV) -> ValueV {
    match v {
        ValueV::Str(s) => match parse_i32_spec(s) {
            Some(i) => ValueV::Integer(i),
            None => ValueV::NoneValue,
        },
        _ => ValueV::NoneValue,
    }
}

/// Builds a named built-in function value paired with its name, for the
/// global scope.
pub fn builtin(name: &str, arg_names: Vec<&str>, which: Builtin) -> (r: (String, Value))
    ensures
        r.0@ == name@,
        r.1@ == (ValueV::BuiltInFunction {
            name: name@,
            arguments: arg_names@.map_values(|s: &str| s@),
            builtin: which,
        }),
{
    let mut arguments: Vec<String> = Vec::new();
    let mut k: usize = 0;
    while k < arg_names.len()
        invariant
            k <= arg_names@.len(),
            arguments@.len() == k,
            forall|j: int| 0 <= j < k ==> #[trigger] arguments@[j]@ == arg_names@[j]@,
        decreases arg_names@.len() - k,
    {
        let a = arg_names[k].to_owned();
        arguments.push(a);
        k = k + 1;
    }
    proof {
        assert(arguments@.map_values(|s: String| s@) =~= arg_names@.map_values(|s: &str| s@));
    }
    (
        name.to_owned(),
        Value::BuiltInFunction { name: name.to_owned(), arguments, builtin: which },
    )
}

/// The `integer` built-in: converts a string argument to an integer, the
/// unit value on any failure.
pub fn integer(values: Vec<Value>) -> (r: Value)
    requires
        values@.len() == 1,
    ensures
        r@ == integer_spec(values@[0]@),
{
    match &values[0] {
        Value::String(s) => {
            match parse_i32(s.as_str()) {
                Some(i) => Value::Integer(i),
                None => Value::NoneValue,
            }
        },
        _ => Value::NoneValue,
    }
}

/// The `string` built-in: renders any value through its display form.
pub fn string(values: Vec<Value>, lists: &Vec<Vec<Value>>) -> (r: Value)
    requires
        values@.len() == 1,
    ensures
        r@ == (ValueV::Str(spec_display(values@[0]@, lists_view(lists@), RENDER_DEPTH as nat))),
{
    Value::String(values[0].to_display_string(lists, RENDER_DEPTH))
}

/// The `print` built-in: appends the argument's display form to the
/// output, without a newline.
pub fn print(values: Vec<Value>, lists: &Vec<Vec<Value>>, output: &mut Vec<String>) -> (r: Value)
    requires
        values@.len() == 1,
    ensures
        final (output)@.map_values(|s: String| s@) == old(output)@.map_values(
            |s: String| s@,
        ).push(spec_display(values@[0]@, lists_view(lists@), RENDER_DEPTH as nat)),
        r@ == (ValueV::NoneValue),
{
    let rendered = values[0].to_display_string(lists, RENDER_DEPTH);
    output.push(rendered);
    proof {
        assert(output@.map_values(|s: String| s@) =~= old(output)@.map_values(
            |s: String| s@,
        ).push(spec_display(values@[0]@, lists_view(lists@), RENDER_DEPTH as nat)));
    }
    Value::NoneValue
}

/// The `println` built-in: appends the argument's display form and a
/// newline to the output.
pub fn println(values: Vec<Value>, lists: &Vec<Vec<Value>>, output: &mut Vec<String>) -> (r: Value)
    requires
        values@.len() == 1,
    ensures
        final (output)@.map_values(|s: String| s@) == old(output)@.map_values(
            |s: String| s@,
        ).push(
            spec_display(values@[0]@, lists_view(lists@), RENDER_DEPTH as nat).push('\n'),
        ),
        r@ == (ValueV::NoneValue),
{
    let mut rendered = values[0].to_display_string(lists, RENDER_DEPTH);
    push_char(&mut rendered, '\n');
    output.push(rendered);
    proof {
        assert(output@.map_values(|s: String| s@) =~= old(output)@.map_values(
            |s: String| s@,
        ).push(
            spec_display(values@[0]@, lists_view(lists@), RENDER_DEPTH as nat).push('\n'),
        ));
    }
    Value::NoneValue
}

/// The `input` built-in: takes the next pending input line (the queue's
/// last element), or the unit value when none is pending.
pub fn input(values: Vec<Value>, inputs: &mut Vec<String>) -> (r: Value)
    requires
        values@.len() == 0,
    ensures
        ({
            let q0 = old(inputs)@.map_values(|s: String| s@);
            let q1 = final (inputs)@.map_values(|s: String| s@);
            if q0.len() > 0 {
                q1 == q0.drop_last() && r@ == (ValueV::Str(q0.last()))
            } else {
                q1 == q0 && r@ == (ValueV::NoneValue)
            }
        }),
{
    match inputs.pop() {
        Some(line) => {
            proof {
                assert(inputs@.map_values(|s: String| s@) =~= old(inputs)@.map_values(
                    |s: String| s@,
                ).drop_last());
            }
            Value::String(line)
        },
        None => {
            proof {
                assert(inputs@.map_values(|s: String| s@) =~= old(inputs)@.map_values(
                    |s: String| s@,
                ));
            }
            Value::NoneValue
        },
    }
}

/// The `exit` built-in's decision: an integer argument between 0 and 255
/// asks the host to terminate with that code; any other argument is a
/// no-op.
pub fn exit(values: Vec<Value>) -> (r: Option<i32>)
    requires
        values@.len() == 1,
    ensures
        r == (match values@[0]@ {
            ValueV::Integer(i) => if 0 <= i <= 255 {
                Some(i)
            } else {
                Option::<i32>::None
            },
            _ => Option::<i32>::None,
        }),
{
    match &values[0] {
        Value::Integer(i) => {
            if *i >= 0 && *i <= 255 {
                Some(*i)
            } else {
                None
            }
        },
        _ => None,
    }
}

} // verus!
