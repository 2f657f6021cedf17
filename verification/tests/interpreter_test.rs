use mono::error::{Error, Runtime, Syntax};
use mono::evaluator::{Evaluator, Halt};
use mono::node::Node;
use mono::parser::Parser;
use mono::token::TokenKind;
use mono::tokenizer::Tokenizer;
use mono::value::Value;

fn parse(source: &str) -> Result<Box<Node>, Error> {
    let mut parser = Parser::new(Tokenizer::new(source));
    parser.parse()
}

fn run(source: &str) -> (Evaluator, Result<Value, Halt>) {
    let ast = parse(source).expect("the program should parse");
    let mut evaluator = Evaluator::new();
    let result = evaluator.evaluate(&ast);
    (evaluator, result)
}

fn global_int(evaluator: &Evaluator, name: &str) -> i32 {
    match evaluator.symbol_table.get(name) {
        Some(Value::Integer(i)) => i,
        other => panic!("{} should be an integer, got {:?}", name, other),
    }
}

#[test]
fn addition_binds_looser_than_multiplication() {
    let ast = parse("let r = 1 + 2 * 3").expect("should parse");
    let statements = match *ast {
        Node::Program { statements } => statements,
        other => panic!("expected a program, got {:?}", other),
    };
    assert_eq!(statements.len(), 1);
    let value = match statements.into_iter().next().unwrap().as_ref() {
        Node::Assignment { value, .. } => value.as_ref().duplicate(),
        other => panic!("expected an assignment, got {:?}", other),
    };
    match *value {
        Node::BinaryOp { ref left, ref operator, ref right } => {
            assert!(operator.kind == TokenKind::Addition);
            match left.as_ref() {
                Node::Atom { value } => assert!(value.kind == TokenKind::Integer(0)),
                other => panic!("left should be an atom, got {:?}", other),
            }
            match right.as_ref() {
                Node::BinaryOp { operator, .. } => {
                    assert!(operator.kind == TokenKind::Multiplication)
                },
                other => panic!("right should be the product, got {:?}", other),
            }
        },
        ref other => panic!("expected a sum at the root, got {:?}", other),
    }
    let (evaluator, result) = run("let r = 1 + 2 * 3");
    assert!(result.is_ok());
    assert_eq!(global_int(&evaluator, "r"), 7);
}

#[test]
fn power_is_right_associative() {
    let (evaluator, result) = run("let r = 2 ^ 3 ^ 2");
    assert!(result.is_ok());
    assert_eq!(global_int(&evaluator, "r"), 512);
}

#[test]
fn integer_division_by_zero_errors() {
    let ast = parse("let r = 5 / 0").expect("should parse");
    let mut evaluator = Evaluator::new();
    match evaluator.evaluate(&ast) {
        Err(Halt::Error(Runtime::DivisionByZero { .. })) => {},
        other => panic!("expected a division-by-zero error, got {:?}", other),
    }
}

#[test]
fn float_division_by_zero_errors() {
    let ast = parse("let r = 5.0 / 0.0").expect("should parse");
    let mut evaluator = Evaluator::new();
    match evaluator.evaluate(&ast) {
        Err(Halt::Error(Runtime::DivisionByZero { .. })) => {},
        other => panic!("expected a division-by-zero error, got {:?}", other),
    }
}

#[test]
fn assignment_in_function_mutates_outer_binding() {
    let source = "let x = 1\nlet f() => { x = 2 }\nf()";
    let (evaluator, result) = run(source);
    assert!(result.is_ok());
    assert_eq!(global_int(&evaluator, "x"), 2);
}

#[test]
fn parameter_shadows_outer_binding_only_inside_call() {
    let source = "let x = 1\nlet g(x) => { x = 5 }\ng(3)";
    let (evaluator, result) = run(source);
    assert!(result.is_ok());
    assert_eq!(global_int(&evaluator, "x"), 1);
}

#[test]
fn list_copies_alias_the_same_storage() {
    let source = "let a = [1, 2, 3]\nlet b = a\nb[0] = 9";
    let (evaluator, result) = run(source);
    assert!(result.is_ok());
    let handle = match evaluator.symbol_table.get("a") {
        Some(Value::List(h)) => h,
        other => panic!("a should be a list, got {:?}", other),
    };
    match &evaluator.lists[handle][0] {
        Value::Integer(i) => assert_eq!(*i, 9),
        other => panic!("a[0] should be 9, got {:?}", other),
    }
    let other_handle = match evaluator.symbol_table.get("b") {
        Some(Value::List(h)) => h,
        other => panic!("b should be a list, got {:?}", other),
    };
    assert_eq!(handle, other_handle);
}

#[test]
fn unclosed_parenthesis_names_the_missing_delimiter() {
    match parse("let y = (1 + 2") {
        Err(Error::Syntax(Syntax::UnclosedTokenDelimeter { start, found, delimiter })) => {
            assert!(delimiter == TokenKind::RightParen);
            assert!(found.is_none());
            assert_eq!(start.start.row, 1);
            assert_eq!(start.start.column, 9);
        },
        other => panic!("expected an unclosed delimiter, got {:?}", other),
    }
}

#[test]
fn arity_mismatch_names_function_and_both_lists() {
    let source = "let f() => { return 1 }\nf(5)";
    let ast = parse(source).expect("should parse");
    let mut evaluator = Evaluator::new();
    match evaluator.evaluate(&ast) {
        Err(Halt::Error(Runtime::IncorrectParameters { name, call, expected, found })) => {
            assert_eq!(name.as_str(), "f");
            assert_eq!(call.start.row, 2);
            assert_eq!(call.start.column, 1);
            assert_eq!(expected.len(), 0);
            assert_eq!(found.len(), 1);
        },
        other => panic!("expected an arity error, got {:?}", other),
    }
}

#[test]
fn return_ends_the_enclosing_blocks() {
    let source = "let f() => { let i = 0\nwhile true { i = i + 1\nif i == 4 { return i } } }\nlet r = f()";
    let (evaluator, result) = run(source);
    assert!(result.is_ok());
    assert_eq!(global_int(&evaluator, "r"), 4);
}

#[test]
fn while_loop_counts_up() {
    let source = "let i = 0\nwhile i < 5 { i = i + 1 }";
    let (evaluator, result) = run(source);
    assert!(result.is_ok());
    assert_eq!(global_int(&evaluator, "i"), 5);
}

#[test]
fn else_if_chain_picks_the_matching_branch() {
    let source = "let x = 2\nlet r = 0\nif x == 1 { r = 10 }\nelse if x == 2 { r = 20 }\nelse { r = 30 }";
    let (evaluator, result) = run(source);
    assert!(result.is_ok());
    assert_eq!(global_int(&evaluator, "r"), 20);
}

#[test]
fn non_boolean_condition_is_an_invalid_value() {
    let ast = parse("if 1 { }").expect("should parse");
    let mut evaluator = Evaluator::new();
    match evaluator.evaluate(&ast) {
        Err(Halt::Error(Runtime::InvalidValue { .. })) => {},
        other => panic!("expected an invalid-value error, got {:?}", other),
    }
}

#[test]
fn assignment_without_declaration_is_unknown() {
    let ast = parse("y = 1").expect("should parse");
    let mut evaluator = Evaluator::new();
    match evaluator.evaluate(&ast) {
        Err(Halt::Error(Runtime::UnknownIdentifier { .. })) => {},
        other => panic!("expected an unknown-identifier error, got {:?}", other),
    }
}

#[test]
fn mixed_operand_addition_is_invalid() {
    let ast = parse("let r = 1 + true").expect("should parse");
    let mut evaluator = Evaluator::new();
    match evaluator.evaluate(&ast) {
        Err(Halt::Error(Runtime::InvalidOperation { .. })) => {},
        other => panic!("expected an invalid-operation error, got {:?}", other),
    }
}

#[test]
fn integer_and_float_do_not_mix() {
    let ast = parse("let r = 1 + 2.0").expect("should parse");
    let mut evaluator = Evaluator::new();
    match evaluator.evaluate(&ast) {
        Err(Halt::Error(Runtime::InvalidOperation { .. })) => {},
        other => panic!("expected an invalid-operation error, got {:?}", other),
    }
}

#[test]
fn statement_must_start_with_a_keyword_or_identifier() {
    match parse("1 + 2") {
        Err(Error::Syntax(Syntax::UnexpectedToken { .. })) => {},
        other => panic!("expected an unexpected-token error, got {:?}", other),
    }
}

#[test]
fn truncated_input_is_an_unexpected_end() {
    match parse("let") {
        Err(Error::Syntax(Syntax::UnexpectedEOF)) => {},
        other => panic!("expected an unexpected-end error, got {:?}", other),
    }
}

#[test]
fn float_arithmetic_rounds_to_nearest() {
    let source = "let r = 1.5 + 2.25";
    let (evaluator, result) = run(source);
    assert!(result.is_ok());
    match evaluator.symbol_table.get("r") {
        Some(Value::Float(bits)) => assert_eq!(bits, (3.75f32).to_bits()),
        other => panic!("r should be a float, got {:?}", other),
    }
}

#[test]
fn float_comparison_follows_the_number_line() {
    let source = "let r = 1.5 < 2.25\nlet s = 0.0 == 0.0";
    let (evaluator, result) = run(source);
    assert!(result.is_ok());
    match evaluator.symbol_table.get("r") {
        Some(Value::Boolean(b)) => assert!(b),
        other => panic!("r should be a boolean, got {:?}", other),
    }
    match evaluator.symbol_table.get("s") {
        Some(Value::Boolean(b)) => assert!(b),
        other => panic!("s should be a boolean, got {:?}", other),
    }
}

#[test]
fn integer_power_clamps_at_the_type_bounds() {
    let source = "let r = 2 ^ 10\nlet s = 2 ^ 40";
    let (evaluator, result) = run(source);
    assert!(result.is_ok());
    assert_eq!(global_int(&evaluator, "r"), 1024);
    assert_eq!(global_int(&evaluator, "s"), i32::MAX);
}

#[test]
fn modulo_by_zero_errors() {
    let ast = parse("let r = 7 % 0").expect("should parse");
    let mut evaluator = Evaluator::new();
    match evaluator.evaluate(&ast) {
        Err(Halt::Error(Runtime::DivisionByZero { .. })) => {},
        other => panic!("expected a division-by-zero error, got {:?}", other),
    }
}

#[test]
fn string_concatenation_and_ordering() {
    let source = "let c = \"ab\" + \"cd\"\nlet lt = \"abc\" < \"abd\"\nlet ch = 'x' + 'y'";
    let (evaluator, result) = run(source);
    assert!(result.is_ok());
    match evaluator.symbol_table.get("c") {
        Some(Value::String(s)) => assert_eq!(s.as_str(), "abcd"),
        other => panic!("c should be a string, got {:?}", other),
    }
    match evaluator.symbol_table.get("lt") {
        Some(Value::Boolean(b)) => assert!(b),
        other => panic!("lt should be a boolean, got {:?}", other),
    }
    match evaluator.symbol_table.get("ch") {
        Some(Value::String(s)) => assert_eq!(s.as_str(), "xy"),
        other => panic!("ch should be a string, got {:?}", other),
    }
}

#[test]
fn string_indexing_is_bounds_checked() {
    let source = "let s = \"hello\"\nlet c = s[1]";
    let (evaluator, result) = run(source);
    assert!(result.is_ok());
    match evaluator.symbol_table.get("c") {
        Some(Value::Character(c)) => assert_eq!(c, 'e'),
        other => panic!("c should be a character, got {:?}", other),
    }
    let ast = parse("let s = \"hi\"\nlet c = s[5]").expect("should parse");
    let mut evaluator = Evaluator::new();
    match evaluator.evaluate(&ast) {
        Err(Halt::Error(Runtime::InvalidOperation { .. })) => {},
        other => panic!("expected an out-of-range error, got {:?}", other),
    }
}

#[test]
fn equality_treats_none_specially() {
    let source = "let a = none == none\nlet b = 1 == none\nlet c = none != 2";
    let (evaluator, result) = run(source);
    assert!(result.is_ok());
    match evaluator.symbol_table.get("a") {
        Some(Value::Boolean(b)) => assert!(b),
        other => panic!("a should be true, got {:?}", other),
    }
    match evaluator.symbol_table.get("b") {
        Some(Value::Boolean(b)) => assert!(!b),
        other => panic!("b should be false, got {:?}", other),
    }
    match evaluator.symbol_table.get("c") {
        Some(Value::Boolean(b)) => assert!(b),
        other => panic!("c should be true, got {:?}", other),
    }
}

#[test]
fn not_negates_only_booleans() {
    let (evaluator, result) = run("let r = not not false");
    assert!(result.is_ok());
    match evaluator.symbol_table.get("r") {
        Some(Value::Boolean(b)) => assert!(!b),
        other => panic!("r should be a boolean, got {:?}", other),
    }
    let ast = parse("let r = not 3").expect("should parse");
    let mut evaluator = Evaluator::new();
    match evaluator.evaluate(&ast) {
        Err(Halt::Error(Runtime::InvalidOperation { .. })) => {},
        other => panic!("expected an invalid-operation error, got {:?}", other),
    }
}

#[test]
fn integer_arithmetic_wraps_at_the_type_bounds() {
    let (evaluator, result) = run("let r = 2147483647 + 1\nlet s = -5 * 2");
    assert!(result.is_ok());
    assert_eq!(global_int(&evaluator, "r"), i32::MIN);
    assert_eq!(global_int(&evaluator, "s"), -10);
}

#[test]
fn empty_list_literal_allocates_an_empty_buffer() {
    let (evaluator, result) = run("let a = []");
    assert!(result.is_ok());
    match evaluator.symbol_table.get("a") {
        Some(Value::List(h)) => assert!(evaluator.lists[h].is_empty()),
        other => panic!("a should be a list, got {:?}", other),
    }
}

#[test]
fn unary_minus_negates_numbers() {
    let (evaluator, result) = run("let r = -3\nlet s = - -4");
    assert!(result.is_ok());
    assert_eq!(global_int(&evaluator, "r"), -3);
    assert_eq!(global_int(&evaluator, "s"), 4);
}

#[test]
fn negative_integer_exponent_is_invalid() {
    let ast = parse("let r = 2 ^ -1").expect("should parse");
    let mut evaluator = Evaluator::new();
    match evaluator.evaluate(&ast) {
        Err(Halt::Error(Runtime::InvalidOperation { .. })) => {},
        other => panic!("expected an invalid-operation error, got {:?}", other),
    }
}

#[test]
fn stray_comma_in_arguments_is_reported() {
    match parse("let f(a,,b) => { return a }") {
        Err(Error::Syntax(Syntax::UnexpectedToken { .. })) => {},
        other => panic!("expected an unexpected-token error, got {:?}", other),
    }
}

#[test]
fn calling_a_plain_value_is_unknown() {
    let ast = parse("let x = 1\nx(2)").expect("should parse");
    let mut evaluator = Evaluator::new();
    match evaluator.evaluate(&ast) {
        Err(Halt::Error(Runtime::UnknownIdentifier { .. })) => {},
        other => panic!("expected an unknown-identifier error, got {:?}", other),
    }
}

#[test]
fn nested_calls_pass_values_through() {
    let source = "let inc(n) => { return n + 1 }\nlet twice(n) => { return inc(inc(n)) }\nlet r = twice(5)";
    let (evaluator, result) = run(source);
    assert!(result.is_ok());
    assert_eq!(global_int(&evaluator, "r"), 7);
}

#[test]
fn list_index_reads_a_copy() {
    let source = "let a = [10, 20, 30]\nlet r = a[2]";
    let (evaluator, result) = run(source);
    assert!(result.is_ok());
    assert_eq!(global_int(&evaluator, "r"), 30);
}

#[test]
fn list_assignment_out_of_range_is_invalid() {
    let ast = parse("let a = [1]\na[3] = 2").expect("should parse");
    let mut evaluator = Evaluator::new();
    match evaluator.evaluate(&ast) {
        Err(Halt::Error(Runtime::InvalidOperation { .. })) => {},
        other => panic!("expected an out-of-range error, got {:?}", other),
    }
}

#[test]
fn boolean_connectives_require_booleans() {
    let (evaluator, result) = run("let r = true and not false\nlet s = false or true");
    assert!(result.is_ok());
    match evaluator.symbol_table.get("r") {
        Some(Value::Boolean(b)) => assert!(b),
        other => panic!("r should be true, got {:?}", other),
    }
    match evaluator.symbol_table.get("s") {
        Some(Value::Boolean(b)) => assert!(b),
        other => panic!("s should be true, got {:?}", other),
    }
    let ast = parse("let r = 1 and 2").expect("should parse");
    let mut evaluator = Evaluator::new();
    match evaluator.evaluate(&ast) {
        Err(Halt::Error(Runtime::InvalidOperation { .. })) => {},
        other => panic!("expected an invalid-operation error, got {:?}", other),
    }
}
