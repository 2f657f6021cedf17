use mono::error::Error;
use mono::evaluator::{Evaluator, Halt};
use mono::node::Node;
use mono::parser::Parser;
use mono::tokenizer::Tokenizer;
use mono::value::Value;

fn parse(source: &str) -> Result<Box<Node>, Error> {
    let mut parser = Parser::new(Tokenizer::new(source));
    parser.parse()
}

fn run(source: &str) -> (Evaluator, Result<Value, Halt>) {
    let ast = parse(source).expect("the program should parse");
    let mut evaluator = Evaluator::new();
    let result = evaluator.evaluate(&ast);
    (evaluator, result)
}

fn global_string(evaluator: &Evaluator, name: &str) -> String {
    match evaluator.symbol_table.get(name) {
        Some(Value::String(s)) => s,
        other => panic!("{} should be a string, got {:?}", name, other),
    }
}

#[test]
fn println_appends_a_line_to_the_output() {
    let (evaluator, result) = run("println(42)");
    assert!(result.is_ok());
    assert_eq!(evaluator.output.len(), 1);
    assert_eq!(evaluator.output[0].as_str(), "42\n");
}

#[test]
fn print_appends_without_a_newline() {
    let (evaluator, result) = run("print(1)\nprint(2)");
    assert!(result.is_ok());
    assert_eq!(evaluator.output.len(), 2);
    assert_eq!(evaluator.output[0].as_str(), "1");
    assert_eq!(evaluator.output[1].as_str(), "2");
}

#[test]
fn string_builtin_renders_display_forms() {
    let source = "let a = string(-5)\nlet b = string(true)\nlet c = string(none)\nlet d = string([1, 2])\nlet e = string(\"as is\")\nlet f = string('x')";
    let (evaluator, result) = run(source);
    assert!(result.is_ok());
    assert_eq!(global_string(&evaluator, "a"), "-5");
    assert_eq!(global_string(&evaluator, "b"), "True");
    assert_eq!(global_string(&evaluator, "c"), "None");
    assert_eq!(global_string(&evaluator, "d"), "[1, 2]");
    assert_eq!(global_string(&evaluator, "e"), "as is");
    assert_eq!(global_string(&evaluator, "f"), "x");
}

#[test]
fn string_builtin_renders_nested_lists() {
    let source = "let a = [1, 2]\nlet b = [a, 3]\nlet r = string(b)";
    let (evaluator, result) = run(source);
    assert!(result.is_ok());
    assert_eq!(global_string(&evaluator, "r"), "[[1, 2], 3]");
}

#[test]
fn integer_builtin_parses_or_yields_none() {
    let source = "let a = integer(\"42\")\nlet b = integer(\"-42\")\nlet c = integer(\"abc\")\nlet d = integer(\"2147483648\")\nlet e = integer(\"2147483647\")\nlet f = integer(\"-2147483648\")";
    let (evaluator, result) = run(source);
    assert!(result.is_ok());
    match evaluator.symbol_table.get("a") {
        Some(Value::Integer(i)) => assert_eq!(i, 42),
        other => panic!("a should be 42, got {:?}", other),
    }
    match evaluator.symbol_table.get("b") {
        Some(Value::Integer(i)) => assert_eq!(i, -42),
        other => panic!("b should be -42, got {:?}", other),
    }
    match evaluator.symbol_table.get("c") {
        Some(Value::NoneValue) => {},
        other => panic!("c should be none, got {:?}", other),
    }
    match evaluator.symbol_table.get("d") {
        Some(Value::NoneValue) => {},
        other => panic!("d should be none, got {:?}", other),
    }
    match evaluator.symbol_table.get("e") {
        Some(Value::Integer(i)) => assert_eq!(i, i32::MAX),
        other => panic!("e should be the maximum, got {:?}", other),
    }
    match evaluator.symbol_table.get("f") {
        Some(Value::Integer(i)) => assert_eq!(i, i32::MIN),
        other => panic!("f should be the minimum, got {:?}", other),
    }
}

#[test]
fn input_reads_pending_lines_in_order() {
    let ast = parse("let a = input()\nlet b = input()\nlet c = input()").expect("should parse");
    let mut evaluator = Evaluator::new();
    // The next line to be read sits at the queue's end.
    evaluator.inputs = vec![String::from("second"), String::from("first")];
    let result = evaluator.evaluate(&ast);
    assert!(result.is_ok());
    assert_eq!(global_string(&evaluator, "a"), "first");
    assert_eq!(global_string(&evaluator, "b"), "second");
    match evaluator.symbol_table.get("c") {
        Some(Value::NoneValue) => {},
        other => panic!("c should be none once the queue is dry, got {:?}", other),
    }
}

#[test]
fn exit_requests_termination_with_the_code() {
    let ast = parse("exit(3)").expect("should parse");
    let mut evaluator = Evaluator::new();
    match evaluator.evaluate(&ast) {
        Err(Halt::Exit(code)) => assert_eq!(code, 3),
        other => panic!("expected an exit request, got {:?}", other),
    }
}

#[test]
fn exit_out_of_range_is_a_no_op() {
    let (evaluator, result) = run("exit(300)\nlet x = 1");
    assert!(result.is_ok());
    match evaluator.symbol_table.get("x") {
        Some(Value::Integer(1)) => {},
        other => panic!("the program should continue, got {:?}", other),
    }
}

#[test]
fn repl_state_persists_across_inputs() {
    let mut evaluator = Evaluator::new();
    let first = parse("let x = 41").expect("should parse");
    assert!(evaluator.evaluate(&first).is_ok());
    let second = parse("x = x + 1").expect("should parse");
    assert!(evaluator.evaluate(&second).is_ok());
    match evaluator.symbol_table.get("x") {
        Some(Value::Integer(i)) => assert_eq!(i, 42),
        other => panic!("x should be 42, got {:?}", other),
    }
}

#[test]
fn an_error_does_not_corrupt_later_evaluations() {
    let mut evaluator = Evaluator::new();
    let first = parse("let x = 1").expect("should parse");
    assert!(evaluator.evaluate(&first).is_ok());
    let failing = parse("let y = 1 / 0").expect("should parse");
    assert!(evaluator.evaluate(&failing).is_err());
    let third = parse("x = x + 1").expect("should parse");
    assert!(evaluator.evaluate(&third).is_ok());
    match evaluator.symbol_table.get("x") {
        Some(Value::Integer(i)) => assert_eq!(i, 2),
        other => panic!("x should be 2, got {:?}", other),
    }
}

#[test]
fn function_values_render_by_name() {
    let source = "let f(a) => { return a }\nlet r = string(f)";
    let (evaluator, result) = run(source);
    assert!(result.is_ok());
    assert_eq!(global_string(&evaluator, "r"), "<Function: f>");
}

#[test]
fn float_literals_lex_through_correct_rounding() {
    let (evaluator, result) = run("let r = 0.1");
    assert!(result.is_ok());
    match evaluator.symbol_table.get("r") {
        Some(Value::Float(bits)) => assert_eq!(bits, (0.1f32).to_bits()),
        other => panic!("r should be a float, got {:?}", other),
    }
}

#[test]
fn float_product_and_remainder_match_the_host() {
    let (evaluator, result) = run("let p = 3.5 * 2.0\nlet q = 7.5 % 2.0\nlet d = 7.0 / 2.0\nlet m = 5.5 - 1.25\nlet n = -2.5");
    assert!(result.is_ok());
    let expect = |name: &str, want: f32| match evaluator.symbol_table.get(name) {
        Some(Value::Float(bits)) => assert_eq!(bits, want.to_bits(), "{}", name),
        other => panic!("{} should be a float, got {:?}", name, other),
    };
    expect("p", 7.0f32);
    expect("q", 1.5f32);
    expect("d", 3.5f32);
    expect("m", 4.25f32);
    expect("n", -2.5f32);
}

#[test]
fn float_power_with_integer_exponents() {
    let (evaluator, result) = run("let p = 1.5 ^ 2\nlet q = 2.0 ^ -2");
    assert!(result.is_ok());
    match evaluator.symbol_table.get("p") {
        Some(Value::Float(bits)) => assert_eq!(bits, (2.25f32).to_bits()),
        other => panic!("p should be a float, got {:?}", other),
    }
    match evaluator.symbol_table.get("q") {
        Some(Value::Float(bits)) => assert_eq!(bits, (0.25f32).to_bits()),
        other => panic!("q should be a float, got {:?}", other),
    }
}
