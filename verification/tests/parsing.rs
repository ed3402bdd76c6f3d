use lox_front::expression::AstPrinter;
use lox_front::expression::Expr;
use lox_front::expression::Visitor;
use lox_front::parser::parse;
use lox_front::parser::ParseError;
use lox_front::scanner::scan_tokens;
use lox_front::tokens::Token;
use lox_front::tokens::TokenType;
use lox_front::tokens::Value;

#[test]
fn parser_tests_test_scan_empty_source() {
    let tokens = scan_tokens("").unwrap();
    let expression = parse(tokens).unwrap();

    assert_eq!(expression, Expr::Literal(Value::Nil));
}

#[test]
fn test_scan_arithmetic() {
    let tokens = scan_tokens("1+1").unwrap();
    let expression = parse(tokens).unwrap();

    assert_eq!(
        expression,
        Expr::Binary(
            Box::new(Expr::Literal(Value::Numeric(String::from("1")))),
            Token {
                token_type: TokenType::PLUS,
                lexeme: String::from("+"),
                literal: Value::Nil,
                line: 1,
            },
            Box::new(Expr::Literal(Value::Numeric(String::from("1"))))
        )
    );
}

#[test]
fn test_parse_keyword_literals() {
    let t = parse(scan_tokens("true").unwrap()).unwrap();
    assert_eq!(t, Expr::Literal(Value::Boolean(true)));
    let f = parse(scan_tokens("false").unwrap()).unwrap();
    assert_eq!(f, Expr::Literal(Value::Boolean(false)));
    let n = parse(scan_tokens("nil").unwrap()).unwrap();
    assert_eq!(n, Expr::Literal(Value::Nil));
}

#[test]
fn test_parse_string_literal() {
    let e = parse(scan_tokens("\"hi\"").unwrap()).unwrap();
    assert_eq!(e, Expr::Literal(Value::Text(String::from("hi"))));
}

#[test]
fn test_parse_unary_nests() {
    let e = parse(scan_tokens("!-1").unwrap()).unwrap();
    match e {
        Expr::Unary(bang, operand) => {
            assert_eq!(bang.token_type, TokenType::BANG);
            match *operand {
                Expr::Unary(minus, inner) => {
                    assert_eq!(minus.token_type, TokenType::MINUS);
                    assert_eq!(*inner, Expr::Literal(Value::Numeric(String::from("1"))));
                },
                other => panic!("expected nested unary, got {:?}", other),
            }
        },
        other => panic!("expected unary, got {:?}", other),
    }
}

#[test]
fn test_unclosed_group_is_fatal() {
    let tokens = scan_tokens("(1").unwrap();
    let result = parse(tokens);
    assert_eq!(result, Err(ParseError::UnclosedGroup { line: 1 }));
}

#[test]
fn test_grouping_parses_and_renders() {
    let e = parse(scan_tokens("(1+2)").unwrap()).unwrap();
    let mut printer = AstPrinter {};
    assert_eq!(printer.visit_expr(&e), "(group (+ 1 2))");
}

#[test]
fn test_round_trip_precedence() {
    let tokens = scan_tokens("1+2*3").unwrap();
    let expression = parse(tokens).unwrap();
    let mut printer = AstPrinter {};
    assert_eq!(printer.visit_expr(&expression), "(+ 1 (* 2 3))");
}

#[test]
fn test_left_associative_fold() {
    let expression = parse(scan_tokens("1-2-3").unwrap()).unwrap();
    let mut printer = AstPrinter {};
    assert_eq!(printer.visit_expr(&expression), "(- (- 1 2) 3)");
}

#[test]
fn test_comparison_and_equality_levels() {
    let expression = parse(scan_tokens("1<2==true").unwrap()).unwrap();
    let mut printer = AstPrinter {};
    assert_eq!(printer.visit_expr(&expression), "(== (< 1 2) true)");
}

#[test]
fn test_render_twice_is_identical() {
    let expression = parse(scan_tokens("1+2*3").unwrap()).unwrap();
    let mut printer = AstPrinter {};
    let first = printer.visit_expr(&expression);
    let second = printer.visit_expr(&expression);
    assert_eq!(first, second);
    assert_eq!(first, "(+ 1 (* 2 3))");
}

#[test]
fn test_render_literals() {
    assert_eq!(Value::Nil.render(), "Nil");
    assert_eq!(Value::Boolean(true).render(), "true");
    assert_eq!(Value::Boolean(false).render(), "false");
    assert_eq!(Value::Text(String::from("hi")).render(), "hi");
    assert_eq!(Value::Numeric(String::from("1.5")).render(), "1.5");
}

#[test]
fn test_literal_accessors() {
    let tokens = scan_tokens("\"hi\" 2").unwrap();
    assert_eq!(tokens[0].get_literal_as_string(), Some(String::from("hi")));
    assert_eq!(tokens[0].get_literal_as_number(), None);
    assert_eq!(tokens[1].get_literal_as_number(), Some(String::from("2")));
    assert_eq!(tokens[1].get_literal_as_string(), None);
}

#[test]
fn test_parse_reads_one_expression() {
    // The parser reads a single expression from the front of the sequence
    // and leaves whatever follows unread.
    let expression = parse(scan_tokens("1 2").unwrap()).unwrap();
    assert_eq!(expression, Expr::Literal(Value::Numeric(String::from("1"))));
}
