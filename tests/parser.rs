use chalk::ast::{parse, BinaryOperator, Expr, ParseError, Parser, UnaryOperator};
use chalk::tokenizer::{tokenize, Decimal, Token, Tokenizable};

fn parse_text(text: &str) -> Result<Expr, ParseError> {
    parse(tokenize(text).expect("Tokenize"))
}

fn num(i: i32) -> Box<Expr> {
    Box::new(Expr::Integer(i))
}

#[test]
fn test_ast() {
    let tokens = "(1 + 2) * 3 - 4 / 2"
        .tokenize()
        .expect("Tokenization failed");
    let mut parser = Parser::new(tokens);
    let ast = parser.parse().expect("Parsing failed");

    let expected = Expr::BinaryOp {
        op: BinaryOperator::Subtract,
        left: Box::new(Expr::BinaryOp {
            op: BinaryOperator::Multiply,
            left: Box::new(Expr::Paren(Box::new(Expr::BinaryOp {
                op: BinaryOperator::Add,
                left: Box::new(Expr::Integer(1)),
                right: Box::new(Expr::Integer(2)),
            }))),
            right: Box::new(Expr::Integer(3)),
        }),
        right: Box::new(Expr::BinaryOp {
            op: BinaryOperator::Divide,
            left: Box::new(Expr::Integer(4)),
            right: Box::new(Expr::Integer(2)),
        }),
    };

    assert_eq!(ast, expected);
}

#[test]
fn printing_ast() {
    let test = Expr::Paren(Box::new(Expr::BinaryOp {
        op: BinaryOperator::Add,
        left: Box::new(Expr::Integer(1)),
        right: Box::new(Expr::Real(Decimal { mantissa: 25, scale: 1 })),
    }));
    let printed = test.to_string();

    assert_eq!(printed, "(1 + 2.5)")
}

#[test]
fn power_groups_to_the_left() {
    let expected = Expr::BinaryOp {
        op: BinaryOperator::Pow,
        left: Box::new(Expr::BinaryOp { op: BinaryOperator::Pow, left: num(2), right: num(3) }),
        right: num(2),
    };
    assert_eq!(parse_text("2^3^2").unwrap(), expected);
}

#[test]
fn factorials_chain() {
    let once = Expr::UnaryOp { op: UnaryOperator::Factorial, node: num(3) };
    let expected = Expr::UnaryOp { op: UnaryOperator::Factorial, node: Box::new(once) };
    assert_eq!(parse_text("3!!").unwrap(), expected);
}

#[test]
fn implicit_multiplication() {
    let expected = Expr::BinaryOp { op: BinaryOperator::Multiply, left: num(2), right: num(3) };
    assert_eq!(parse_text("2(3)").unwrap(), expected);
}

#[test]
fn assignment_and_named_operators() {
    let expected = Expr::Assignment(
        'x',
        Box::new(Expr::BinaryOp { op: BinaryOperator::Gcd, left: num(4), right: num(6) }),
    );
    assert_eq!(parse_text("x = GCD(4, 6)").unwrap(), expected);
    let floor = Expr::UnaryOp { op: UnaryOperator::Floor, node: Box::new(Expr::Variable('y')) };
    assert_eq!(parse_text("floor(y)").unwrap(), floor);
    let sub = Expr::BinaryOp { op: BinaryOperator::Subtract, left: num(5), right: num(1) };
    assert_eq!(parse_text("sub(5, 1)").unwrap(), sub);
}

#[test]
fn comparison_and_chain() {
    let cmp = Expr::BinaryOp { op: BinaryOperator::Lt, left: num(1), right: num(2) };
    let expected = Expr::BinaryOp { op: BinaryOperator::And, left: Box::new(cmp), right: Box::new(Expr::Bool(true)) };
    assert_eq!(parse_text("1 < 2 && true").unwrap(), expected);
}

#[test]
fn absolute_value_and_negation() {
    let neg = Expr::UnaryOp { op: UnaryOperator::Neg, node: num(3) };
    assert_eq!(parse_text("|-3|").unwrap(), Expr::AbsVal(Box::new(neg)));
}

#[test]
fn parse_errors() {
    assert_eq!(parse_text("(1 + 2"), Err(ParseError));
    assert_eq!(parse_text("1 +"), Err(ParseError));
    assert_eq!(parse_text("1 2"), Err(ParseError));
    assert_eq!(parse_text("1 < 2 < 3"), Err(ParseError));
    assert_eq!(parse_text("hello(1)"), Err(ParseError));
    assert_eq!(parse_text("gcd(1)"), Err(ParseError));
    assert_eq!(parse_text(""), Err(ParseError));
    assert_eq!(parse_text("x = y = 3"), Err(ParseError));
}

#[test]
fn parser_closes_a_stream_without_end_token() {
    let mut parser = Parser::new(vec![Token::Integer(7)]);
    assert_eq!(parser.parse(), Ok(Expr::Integer(7)));
    let mut empty = Parser::new(Vec::new());
    assert_eq!(empty.parse(), Err(ParseError));
}

#[test]
fn operator_names() {
    assert_eq!(BinaryOperator::try_from("LCM"), Ok(BinaryOperator::Lcm));
    assert_eq!(BinaryOperator::try_from("divide"), Ok(BinaryOperator::Divide));
    assert_eq!(BinaryOperator::try_from("cos"), Err(()));
    assert_eq!(UnaryOperator::try_from("ACos"), Ok(UnaryOperator::ACos));
    assert_eq!(UnaryOperator::try_from("gcd"), Err(()));
    assert_eq!(BinaryOperator::from_lowercase_name("Gcd"), None);
}

#[test]
fn rendering() {
    let cases = [
        "x = 1 + 2",
        "-(3 * 4)",
        "5!",
        "gcd(4, 6)",
        "lcm(4, 6)",
        "floor(1.50)",
        "|2 - 3|",
        "1 == 2 || true && false",
        "3 != 4",
        "1 >= 0.001",
        "2 ^ 3",
    ];
    for text in cases {
        let ast = parse_text(text).expect("parse");
        assert_eq!(ast.to_string(), text);
    }
    let negative = Expr::Integer(-42);
    assert_eq!(negative.to_string(), "-42");
    assert_eq!(BinaryOperator::Gcd.to_string(), "g");
    assert_eq!(BinaryOperator::Pow.symbol(), '^');
    assert_eq!(ParseError.to_string(), "Parse error occurred :(");
}

#[test]
fn round_trip_of_literals_in_parentheses() {
    let ast = Expr::Paren(Box::new(Expr::Paren(Box::new(Expr::Real(Decimal { mantissa: 50, scale: 1 })))));
    let text = ast.to_string();
    assert_eq!(text, "((5.0))");
    assert_eq!(parse_text(&text).unwrap(), ast);
    let flag = Expr::Paren(Box::new(Expr::Bool(false)));
    assert_eq!(parse_text(&flag.to_string()).unwrap(), flag);
}

#[test]
fn duplicate_is_equal() {
    let ast = parse_text("x = |gcd(2, 4)!| + floor(y)").unwrap();
    assert_eq!(ast.duplicate(), ast);
    assert_eq!(ast.clone(), ast);
}
