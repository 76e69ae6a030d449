use rlox::ast::{Expression, ExpressionEnum, Literal, Operator, Primary, PrimaryEnum};
use rlox::span::{Location, Span};

fn number(text: &str, line: usize, col: usize) -> Expression {
    let span = Span::new(Location::new(line, col), Location::new(line, col + text.len()));
    Expression::from(ExpressionEnum::Primary(Primary {
        p: PrimaryEnum::Literal(Literal::Number(text.to_string())),
        span,
    }))
}

#[test]
fn primary_expression_keeps_its_span() {
    let e = number("12", 1, 5);
    assert_eq!(e.span, Span::new(Location::new(1, 5), Location::new(1, 7)));
}

#[test]
fn binary_expression_spans_its_operands() {
    let op = Operator { op: "+".to_string(), span: Span::new(Location::new(1, 3), Location::new(1, 4)) };
    let e = Expression::from(ExpressionEnum::Term(op, Box::new(number("1", 1, 1)), Box::new(number("22", 2, 1))));
    assert_eq!(e.span, Span::new(Location::new(1, 1), Location::new(2, 3)));
}

#[test]
fn unary_expression_starts_at_the_operator() {
    let op = Operator { op: "-".to_string(), span: Span::new(Location::new(3, 2), Location::new(3, 3)) };
    let e = Expression::from(ExpressionEnum::Unary(op, Box::new(number("7", 3, 3))));
    assert_eq!(e.span, Span::new(Location::new(3, 2), Location::new(3, 4)));
}
