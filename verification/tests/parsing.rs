use monkey::ast::{Expression, Program, Statement};
use monkey::lexer::Lexer;
use monkey::parser::Parser;

fn parse(input: &str) -> Program {
    let lexer = Lexer::new(&input.to_string());
    let mut parser = Parser::new(lexer);
    parser.program().expect("the program should parse")
}

fn render_first(input: &str) -> String {
    let program = parse(input);
    assert!(!program.is_empty());
    program[0].render()
}

#[test]
fn test_precedence_product_binds_tighter_than_sum() {
    assert_eq!(render_first("1 + 2 * 3"), "(1 + (2 * 3))");
}

#[test]
fn test_precedence_grouping_overrides() {
    assert_eq!(render_first("(1 + 2) * 3"), "((1 + 2) * 3)");
}

#[test]
fn test_precedence_prefix_binds_tighter_than_product() {
    assert_eq!(render_first("-a * b"), "((-a) * b)");
}

#[test]
fn test_precedence_comparison_and_equality() {
    assert_eq!(render_first("3 + 4 * 5 == 3 * 1 + 4 * 5"), "((3 + (4 * 5)) == ((3 * 1) + (4 * 5)))");
    assert_eq!(render_first("5 < 4 != 3 > 4"), "((5 < 4) != (3 > 4))");
}

#[test]
fn test_precedence_call_binds_tightest() {
    assert_eq!(render_first("a + add(b * c) + d"), "((a + add( (b * c))) + d)");
}

#[test]
fn test_index_binds_tighter_than_call_argument() {
    assert_eq!(render_first("add(a * b[2])"), "add( (a * (b[2])))");
}

#[test]
fn test_let_statement_shape() {
    let program = parse("let x = 5;");
    assert_eq!(program.len(), 1);
    match &program[0] {
        Statement::LetStatement { name, value } => {
            assert_eq!(name, "x");
            assert_eq!(*value, Expression::IntegerLiteral(5));
        },
        other => panic!("expected a let statement, got {:?}", other),
    }
}

#[test]
fn test_return_statement_shape() {
    let program = parse("return 10;");
    assert_eq!(program.len(), 1);
    match &program[0] {
        Statement::Return { return_value } => {
            assert_eq!(*return_value, Expression::IntegerLiteral(10));
        },
        other => panic!("expected a return statement, got {:?}", other),
    }
}

#[test]
fn test_if_else_renders() {
    assert_eq!(render_first("if (x < y) { x } else { y }"), "if (x < y) x else y");
}

#[test]
fn test_function_literal_renders() {
    assert_eq!(render_first("fn(x, y) { x + y; }"), "fn(x, y) (x + y)");
}

#[test]
fn test_hash_literal_renders_with_trailing_comma_tolerated() {
    assert_eq!(render_first("{\"a\": 1, \"b\": 2,}"), "{a: 1, b: 2, }");
}

#[test]
fn test_string_and_boolean_literals() {
    assert_eq!(render_first("\"hello\""), "hello");
    assert_eq!(render_first("true"), "true");
    assert_eq!(render_first("false"), "false");
}

#[test]
fn test_empty_call_and_array() {
    assert_eq!(render_first("add()"), "add()");
    assert_eq!(render_first("[]"), "[]");
}

#[test]
fn test_parse_failure_yields_no_program() {
    let lexer = Lexer::new(&"let x 5;".to_string());
    let mut parser = Parser::new(lexer);
    let err = parser.program().expect_err("a missing = should not parse");
    assert_eq!(err.position, 2);
    assert_eq!(err.message(), "syntax error at token 2");
}

#[test]
fn test_parse_failure_on_missing_paren() {
    let lexer = Lexer::new(&"(1 + 2".to_string());
    let mut parser = Parser::new(lexer);
    assert!(parser.program().is_err());
}

#[test]
fn test_reparse_of_rendered_core_expression() {
    let first = parse("-(3 + 4) * 2");
    let rendered = first[0].render();
    let second = parse(&rendered);
    assert_eq!(first, second);
}

#[test]
fn test_reparse_of_rendered_let_statement() {
    let first = parse("let x = 1 + 2 * y;");
    let rendered = first[0].render();
    let second = parse(&rendered);
    assert_eq!(first, second);
}

#[test]
fn test_reparse_of_rendered_return_statement() {
    let first = parse("return !(a == b);");
    let rendered = first[0].render();
    let second = parse(&rendered);
    assert_eq!(first, second);
}

#[test]
fn test_nested_calls_and_closures_parse() {
    let program = parse("let newAdder = fn(x) { fn(y) { x + y } };");
    assert_eq!(program.len(), 1);
    assert_eq!(program[0].render(), "let newAdder = fn(x) fn(y) (x + y);");
}
