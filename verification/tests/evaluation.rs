use monkey::ast::Node;
use monkey::environment::Environment;
use monkey::evaluator::{eval, new_environment};
use monkey::lexer::Lexer;
use monkey::object::{EvalError, Object};
use monkey::parser::Parser;
use monkey::repl::run_line;

fn parse(input: &str) -> monkey::ast::Program {
    let lexer = Lexer::new(&input.to_string());
    let mut parser = Parser::new(lexer);
    parser.program().expect("the program should parse")
}

fn run(input: &str) -> Result<Object, EvalError> {
    let mut env = new_environment();
    eval(Node::Program(parse(input)), &mut env)
}

fn run_ok(input: &str) -> Object {
    run(input).expect("evaluation should succeed")
}

fn run_err(input: &str) -> EvalError {
    run(input).expect_err("evaluation should fail")
}

#[test]
fn test_integer_arithmetic() {
    assert_eq!(run_ok("5"), Object::Integer(5));
    assert_eq!(run_ok("5 + 5 + 5 + 5 - 10"), Object::Integer(10));
    assert_eq!(run_ok("2 * 2 * 2 * 2 * 2"), Object::Integer(32));
    assert_eq!(run_ok("50 / 2 * 2 + 10"), Object::Integer(60));
    assert_eq!(run_ok("3 * (3 * 3) + 10"), Object::Integer(37));
}

#[test]
fn test_division_truncates_toward_zero() {
    assert_eq!(run_ok("7 / 2"), Object::Integer(3));
    assert_eq!(run_ok("(0 - 7) / 2"), Object::Integer(-3));
    assert_eq!(run_ok("7 / (0 - 2)"), Object::Integer(-3));
    assert_eq!(run_ok("(0 - 7) / (0 - 2)"), Object::Integer(3));
}

#[test]
fn test_division_by_zero_is_an_error() {
    assert_eq!(run_err("5 / 0"), EvalError::DivisionByZero);
}

#[test]
fn test_integer_overflow_is_an_error() {
    assert_eq!(run_err("9223372036854775807 + 1"), EvalError::IntegerOverflow);
    assert_eq!(run_err("-(-9223372036854775807 - 1)"), EvalError::IntegerOverflow);
}

#[test]
fn test_booleans_and_comparisons() {
    assert_eq!(run_ok("true"), Object::Boolean(true));
    assert_eq!(run_ok("1 < 2"), Object::Boolean(true));
    assert_eq!(run_ok("1 > 2"), Object::Boolean(false));
    assert_eq!(run_ok("1 == 1"), Object::Boolean(true));
    assert_eq!(run_ok("1 != 2"), Object::Boolean(true));
    assert_eq!(run_ok("true == true"), Object::Boolean(true));
    assert_eq!(run_ok("true != false"), Object::Boolean(true));
}

#[test]
fn test_bang_truthiness() {
    assert_eq!(run_ok("!5"), Object::Boolean(false));
    assert_eq!(run_ok("!!5"), Object::Boolean(true));
    assert_eq!(run_ok("!0"), Object::Boolean(false));
    assert_eq!(run_ok("!true"), Object::Boolean(false));
    assert_eq!(run_ok("!false"), Object::Boolean(true));
    assert_eq!(run_ok("!!\"\""), Object::Boolean(true));
}

#[test]
fn test_if_branches_on_truthiness() {
    assert_eq!(run_ok("if (true) { 10 }"), Object::Integer(10));
    assert_eq!(run_ok("if (false) { 10 }"), Object::Null);
    assert_eq!(run_ok("if (0) { 10 } else { 20 }"), Object::Integer(10));
    assert_eq!(run_ok("if (1 > 2) { 10 } else { 20 }"), Object::Integer(20));
}

#[test]
fn test_return_stops_the_program() {
    assert_eq!(run_ok("return 10; 9;"), Object::Integer(10));
    assert_eq!(run_ok("9; return 2 * 5; 9;"), Object::Integer(10));
}

#[test]
fn test_return_propagates_out_of_nested_blocks() {
    let input = "if (10 > 1) { if (10 > 1) { return 10; } return 1; }";
    assert_eq!(run_ok(input), Object::Integer(10));
}

#[test]
fn test_let_binding_and_lookup() {
    assert_eq!(run_ok("let a = 5; a;"), Object::Integer(5));
    assert_eq!(run_ok("let a = 5 * 5; a;"), Object::Integer(25));
    assert_eq!(run_ok("let a = 5; let b = a; let c = a + b + 5; c;"), Object::Integer(15));
}

#[test]
fn test_rebinding_updates_the_session() {
    let mut env = new_environment();
    eval(Node::Program(parse("let x = 5;")), &mut env).expect("first binding");
    eval(Node::Program(parse("let x = x + 1;")), &mut env).expect("second binding");
    let result = eval(Node::Program(parse("x")), &mut env).expect("lookup");
    assert_eq!(result, Object::Integer(6));
}

#[test]
fn test_functions_and_closures() {
    assert_eq!(run_ok("let identity = fn(x) { x; }; identity(5);"), Object::Integer(5));
    assert_eq!(run_ok("let double = fn(x) { x * 2; }; double(5);"), Object::Integer(10));
    assert_eq!(run_ok("let add = fn(x, y) { x + y; }; add(5, add(5, 5));"), Object::Integer(15));
    let closure = "let newAdder = fn(x) { fn(y) { x + y } }; let addTwo = newAdder(2); addTwo(3);";
    assert_eq!(run_ok(closure), Object::Integer(5));
}

#[test]
fn test_wrong_argument_count_is_an_error() {
    assert_eq!(
        run_err("let f = fn(x) { x }; f(1, 2);"),
        EvalError::WrongArgumentCount { expected: 1, actual: 2 },
    );
}

#[test]
fn test_calling_a_non_function_is_an_error() {
    assert_eq!(run_err("5(1)"), EvalError::NotAFunction { value: Object::Integer(5) });
}

#[test]
fn test_string_operations() {
    assert_eq!(run_ok("\"foo\" + \"bar\""), Object::String("foobar".to_string()));
    assert_eq!(run_ok("\"a\" == \"a\""), Object::Boolean(true));
    assert_eq!(run_ok("\"a\" != \"b\""), Object::Boolean(true));
}

#[test]
fn test_unknown_operator_errors() {
    let err = run_err("\"a\" - \"b\"");
    assert_eq!(err.message(), "unknown operator: a - b");
    let err = run_err("true + false");
    assert_eq!(err.message(), "unknown operator: true + false");
    let err = run_err("-true");
    assert_eq!(err.message(), "unknown operator: -true");
}

#[test]
fn test_type_mismatch_error() {
    let err = run_err("5 + true");
    assert_eq!(
        err,
        EvalError::TypeMismatch {
            left: Object::Integer(5),
            operator: monkey::ast::InfixOperator::Plus,
            right: Object::Boolean(true),
        },
    );
    assert_eq!(err.message(), "type mismatch: 5 + true");
}

#[test]
fn test_identifier_not_found_names_the_identifier() {
    let err = run_err("foobar");
    assert_eq!(err, EvalError::IdentifierNotFound { name: "foobar".to_string() });
    assert_eq!(err.message(), "identifier not found: foobar");
}

#[test]
fn test_array_literals_and_indexing() {
    assert_eq!(run_ok("[1, 2 * 2, 3 + 3][2]"), Object::Integer(6));
    assert_eq!(run_ok("[1, 2, 3][0]"), Object::Integer(1));
    assert_eq!(run_ok("let a = [1, 2]; a[1]"), Object::Integer(2));
}

#[test]
fn test_out_of_range_index_yields_null() {
    assert_eq!(run_ok("[1,2,3][5]"), Object::Null);
    assert_eq!(run_ok("[1,2,3][0 - 1]"), Object::Null);
}

#[test]
fn test_hash_literals_and_indexing() {
    assert_eq!(run_ok("{\"a\": 1, \"b\": 2}[\"b\"]"), Object::Integer(2));
    assert_eq!(run_ok("{1: \"one\"}[1]"), Object::String("one".to_string()));
    assert_eq!(run_ok("{true: 10}[true]"), Object::Integer(10));
}

#[test]
fn test_missing_or_unhashable_hash_key_yields_null() {
    assert_eq!(run_ok("{\"a\":1}[\"b\"]"), Object::Null);
    assert_eq!(run_ok("{\"a\":1}[[1]]"), Object::Null);
}

#[test]
fn test_duplicate_hash_key_overwrites() {
    assert_eq!(run_ok("{\"a\": 1, \"a\": 2}[\"a\"]"), Object::Integer(2));
}

#[test]
fn test_unhashable_literal_key_is_a_recoverable_error() {
    let err = run_err("{[1]: 2}");
    assert_eq!(err, EvalError::UnhashableKey { key: Object::Array(vec![Object::Integer(1)]) });
}

#[test]
fn test_indexing_a_non_collection_is_an_error() {
    assert_eq!(run_err("5[0]"), EvalError::IndexNotSupported { value: Object::Integer(5) });
}

#[test]
fn test_empty_program_yields_null() {
    assert_eq!(run_ok(""), Object::Null);
}

#[test]
fn test_run_line_renders_values_and_errors() {
    let mut env: Environment = new_environment();
    assert_eq!(run_line(&"let x = 5;".to_string(), &mut env), "null");
    assert_eq!(run_line(&"x + 1".to_string(), &mut env), "6");
    assert_eq!(run_line(&"y".to_string(), &mut env), "identifier not found: y");
    assert_eq!(run_line(&"let x 5;".to_string(), &mut env), "syntax error at token 2");
    assert_eq!(run_line(&"x".to_string(), &mut env), "5");
    assert_eq!(run_line(&"[1, \"two\", true]".to_string(), &mut env), "[1, two, true]");
    assert_eq!(run_line(&"{\"a\": 1}".to_string(), &mut env), "{a: 1}");
    assert_eq!(run_line(&"fn(x) { x }".to_string(), &mut env), "Function");
}

#[test]
fn test_bad_line_keeps_prior_bindings() {
    let mut env = new_environment();
    assert_eq!(run_line(&"let kept = 41;".to_string(), &mut env), "null");
    assert_eq!(run_line(&"kept + missing".to_string(), &mut env), "identifier not found: missing");
    assert_eq!(run_line(&"kept + 1".to_string(), &mut env), "42");
}

#[test]
fn test_negative_rendering() {
    let mut env = new_environment();
    assert_eq!(run_line(&"0 - 12".to_string(), &mut env), "-12");
    assert_eq!(run_line(&"-0".to_string(), &mut env), "0");
}
