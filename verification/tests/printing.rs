use lox_scanner::expr::{Expr, LiteralValue};
use lox_scanner::token::{Token, TokenType};

fn operator(kind: TokenType, lexeme: &str) -> Token {
    Token::new(kind, lexeme.to_string(), None)
}

fn number(numeral: &str) -> Box<Expr> {
    Box::new(Expr::Literal { value: LiteralValue::Number(numeral.to_string()) })
}

#[test]
fn literal_values_print() {
    assert_eq!(LiteralValue::Number("1.5".to_string()).to_string(), "1.5");
    assert_eq!(LiteralValue::String("a b".to_string()).to_string(), "\"a b\"");
    assert_eq!(LiteralValue::String(String::new()).to_string(), "\"\"");
    assert_eq!(LiteralValue::Boolean(true).to_string(), "true");
    assert_eq!(LiteralValue::Boolean(false).to_string(), "false");
    assert_eq!(LiteralValue::Nil.to_string(), "nil");
}

#[test]
fn literal_expression_prints_as_its_value() {
    assert_eq!(Expr::Literal { value: LiteralValue::Nil }.to_string(), "nil");
    assert_eq!(number("42").to_string(), "42");
}

#[test]
fn binary_expression_prints_with_spaces() {
    let sum = Expr::Binary {
        left: number("1"),
        operator: operator(TokenType::PLUS, "+"),
        right: number("2.5"),
    };
    assert_eq!(sum.to_string(), "(1 + 2.5)");
}

#[test]
fn unary_expression_prints_without_space() {
    let negation = Expr::Unary { operator: operator(TokenType::MINUS, "-"), right: number("3") };
    assert_eq!(negation.to_string(), "(-3)");
}

#[test]
fn grouping_prints_between_parentheses() {
    let group = Expr::Grouping { expression: number("7") };
    assert_eq!(group.to_string(), "(7)");
}

#[test]
fn nested_expression_prints_inside_out() {
    let tree = Expr::Binary {
        left: Box::new(Expr::Unary {
            operator: operator(TokenType::MINUS, "-"),
            right: number("123"),
        }),
        operator: operator(TokenType::STAR, "*"),
        right: Box::new(Expr::Grouping {
            expression: Box::new(Expr::Binary {
                left: Box::new(Expr::Literal { value: LiteralValue::String("s".to_string()) }),
                operator: operator(TokenType::EQUAL_EQUAL, "=="),
                right: Box::new(Expr::Literal { value: LiteralValue::Boolean(true) }),
            }),
        }),
    };
    assert_eq!(tree.to_string(), "((-123) * ((\"s\" == true)))");
}
