use matheval_core::arith::Operation;
use matheval_core::ast::{BinaryOp, Expr, UnaryOp};
use matheval_core::bytecode::Builtin;
use matheval_core::error::{Error, ErrorKind, Position};
use matheval_core::lexer::Lexer;
use matheval_core::parser::{bp_infix, bp_prefix, Parser};
use matheval_core::token::Token;

/// The arithmetic of the machine's doubles, on their bits.
fn unit(op: Operation) -> u64 {
    match op {
        Operation::Parse(text) => text.parse::<f64>().unwrap().to_bits(),
        Operation::Binary(op, a, b) => {
            let (a, b) = (f64::from_bits(a), f64::from_bits(b));
            let r = match op {
                BinaryOp::Add => a + b,
                BinaryOp::Sub => a - b,
                BinaryOp::Mul => a * b,
                BinaryOp::Div => a / b,
                BinaryOp::Pow => a.powf(b),
            };
            r.to_bits()
        }
        Operation::Call(f, args) => {
            let x = |i: usize| f64::from_bits(args[i]);
            let r = match f {
                Builtin::Sin => x(0).sin(),
                Builtin::Cos => x(0).cos(),
                Builtin::Tan => x(0).tan(),
                Builtin::Sqrt => x(0).sqrt(),
                Builtin::Abs => x(0).abs(),
                Builtin::Floor => x(0).floor(),
                Builtin::Ceil => x(0).ceil(),
                Builtin::Round => x(0).round(),
                Builtin::Exp => x(0).exp(),
                Builtin::Ln => x(0).ln(),
                Builtin::Log10 => x(0).log10(),
                Builtin::Max => args
                    .iter()
                    .fold(f64::NEG_INFINITY, |a, &b| a.max(f64::from_bits(b))),
                Builtin::Min => args
                    .iter()
                    .fold(f64::INFINITY, |a, &b| a.min(f64::from_bits(b))),
                Builtin::Unknown => f64::NAN,
            };
            r.to_bits()
        }
    }
}

fn bits(x: f64) -> u64 {
    x.to_bits()
}


fn parse(input: &str) -> Result<Expr, Error> {
    let lexer = Lexer::new(input);
    let mut parser = Parser::new(lexer, &unit)?;
    parser.parse(&unit)
}

fn num(x: f64) -> Expr {
    Expr::Number(bits(x))
}

fn var(name: &str) -> Expr {
    Expr::Variable(name.to_string())
}

fn binary(op: BinaryOp, left: Expr, right: Expr) -> Expr {
    Expr::Binary { op, left: Box::new(left), right: Box::new(right) }
}

fn neg(e: Expr) -> Expr {
    Expr::Unary { op: UnaryOp::Neg, expr: Box::new(e) }
}

#[test]
fn test_parse_number() {
    let expr = parse("42").unwrap();
    assert_eq!(expr, Expr::Number(bits(42.0)));
}

#[test]
fn test_parse_variable() {
    let expr = parse("x").unwrap();
    assert_eq!(expr, Expr::Variable("x".to_string()));
}

#[test]
fn test_parse_addition() {
    let expr = parse("1 + 2").unwrap();
    assert!(matches!(expr, Expr::Binary { op: BinaryOp::Add, .. }));
}

#[test]
fn test_parse_precedence() {
    // 2 + 3 * 4 should parse as 2 + (3 * 4)
    let expr = parse("2 + 3 * 4").unwrap();

    if let Expr::Binary { op: BinaryOp::Add, left, right } = expr {
        assert_eq!(*left, Expr::Number(bits(2.0)));
        assert!(matches!(*right, Expr::Binary { op: BinaryOp::Mul, .. }));
    } else {
        panic!("Expected Add at top level");
    }
}

#[test]
fn test_parse_right_associativity() {
    // 2 ^ 3 ^ 4 should parse as 2 ^ (3 ^ 4)
    let expr = parse("2 ^ 3 ^ 4").unwrap();

    if let Expr::Binary { op: BinaryOp::Pow, left, right } = expr {
        assert_eq!(*left, Expr::Number(bits(2.0)));
        assert!(matches!(*right, Expr::Binary { op: BinaryOp::Pow, .. }));
    } else {
        panic!("Expected Pow at top level");
    }
}

#[test]
fn test_parse_parentheses() {
    // (2 + 3) * 4 should parse as (2 + 3) * 4
    let expr = parse("(2 + 3) * 4").unwrap();

    if let Expr::Binary { op: BinaryOp::Mul, left, right } = expr {
        assert!(matches!(*left, Expr::Binary { op: BinaryOp::Add, .. }));
        assert_eq!(*right, Expr::Number(bits(4.0)));
    } else {
        panic!("Expected Mul at top level");
    }
}

#[test]
fn test_parse_negation() {
    let expr = parse("-5").unwrap();
    assert!(matches!(expr, Expr::Unary { op: UnaryOp::Neg, .. }));
}

#[test]
fn test_parse_function_call() {
    let expr = parse("sin(x)").unwrap();

    if let Expr::Call { func, args } = expr {
        assert_eq!(func, "sin");
        assert_eq!(args.len(), 1);
        assert_eq!(args[0], Expr::Variable("x".to_string()));
    } else {
        panic!("Expected Call expression");
    }
}

#[test]
fn test_parse_function_multiple_args() {
    let expr = parse("max(1, 2, 3)").unwrap();

    if let Expr::Call { func, args } = expr {
        assert_eq!(func, "max");
        assert_eq!(args.len(), 3);
    } else {
        panic!("Expected Call expression");
    }
}

#[test]
fn test_parse_function_no_args() {
    let expr = parse("rand()").unwrap();

    if let Expr::Call { func, args } = expr {
        assert_eq!(func, "rand");
        assert_eq!(args.len(), 0);
    } else {
        panic!("Expected Call expression");
    }
}

#[test]
fn test_parse_complex_expression() {
    let expr = parse("x + 2 * sin(y) - 3").unwrap();
    assert!(matches!(expr, Expr::Binary { .. }));
}

#[test]
fn test_parse_nested_functions() {
    let expr = parse("sin(cos(x))").unwrap();

    if let Expr::Call { func, args } = expr {
        assert_eq!(func, "sin");
        assert!(matches!(args[0], Expr::Call { .. }));
    } else {
        panic!("Expected Call expression");
    }
}

#[test]
fn test_parse_error_missing_rparen() {
    let result = parse("(1 + 2");
    assert!(result.is_err());
}

#[test]
fn test_parse_error_missing_function_rparen() {
    let result = parse("sin(x");
    assert!(result.is_err());
}

#[test]
fn test_parse_all_operators() {
    assert!(parse("1 + 2").is_ok());
    assert!(parse("1 - 2").is_ok());
    assert!(parse("1 * 2").is_ok());
    assert!(parse("1 / 2").is_ok());
    assert!(parse("1 ^ 2").is_ok());
}

#[test]
fn test_parse_whitespace_insensitive() {
    let expr1 = parse("1+2").unwrap();
    let expr2 = parse("1 + 2").unwrap();
    let expr3 = parse("  1  +  2  ").unwrap();

    assert_eq!(expr1, expr2);
    assert_eq!(expr2, expr3);
}

#[test]
fn test_parse_exact_trees() {
    assert_eq!(
        parse("a + b * c").unwrap(),
        binary(BinaryOp::Add, var("a"), binary(BinaryOp::Mul, var("b"), var("c")))
    );
    assert_eq!(
        parse("a * b + c").unwrap(),
        binary(BinaryOp::Add, binary(BinaryOp::Mul, var("a"), var("b")), var("c"))
    );
    assert_eq!(
        parse("a - b - c").unwrap(),
        binary(BinaryOp::Sub, binary(BinaryOp::Sub, var("a"), var("b")), var("c"))
    );
    assert_eq!(
        parse("a / b * c").unwrap(),
        binary(BinaryOp::Mul, binary(BinaryOp::Div, var("a"), var("b")), var("c"))
    );
    assert_eq!(
        parse("a ^ b ^ c").unwrap(),
        binary(BinaryOp::Pow, var("a"), binary(BinaryOp::Pow, var("b"), var("c")))
    );
    assert_eq!(
        parse("a * b ^ c - d").unwrap(),
        binary(
            BinaryOp::Sub,
            binary(BinaryOp::Mul, var("a"), binary(BinaryOp::Pow, var("b"), var("c"))),
            var("d")
        )
    );
}

#[test]
fn test_parse_precedence_matches_parentheses() {
    assert_eq!(parse("a + b * c").unwrap(), parse("a + (b * c)").unwrap());
    assert_eq!(parse("a * b + c").unwrap(), parse("(a * b) + c").unwrap());
    assert_eq!(parse("2 ^ 3 ^ 2").unwrap(), parse("2 ^ (3 ^ 2)").unwrap());
    assert_ne!(parse("2 ^ 3 ^ 2").unwrap(), parse("(2 ^ 3) ^ 2").unwrap());
}

#[test]
fn test_parse_unary_minus_binds_tighter_than_power() {
    // the prefix operator takes its operand at power 99: `-x ^ 2` is `(-x) ^ 2`
    assert_eq!(
        parse("-x ^ 2").unwrap(),
        binary(BinaryOp::Pow, neg(var("x")), num(2.0))
    );
    assert_eq!(
        parse("2 ^ -x").unwrap(),
        binary(BinaryOp::Pow, num(2.0), neg(var("x")))
    );
    assert_eq!(parse("--x").unwrap(), neg(neg(var("x"))));
    assert_eq!(
        parse("a - -b").unwrap(),
        binary(BinaryOp::Sub, var("a"), neg(var("b")))
    );
}

#[test]
fn test_parse_calls() {
    assert_eq!(
        parse("f(a, g(b), -1)").unwrap(),
        Expr::Call {
            func: "f".to_string(),
            args: vec![
                var("a"),
                Expr::Call { func: "g".to_string(), args: vec![var("b")] },
                neg(num(1.0)),
            ],
        }
    );
    assert_eq!(
        parse("f() + 1").unwrap(),
        binary(BinaryOp::Add, Expr::Call { func: "f".to_string(), args: vec![] }, num(1.0))
    );
}

#[test]
fn test_parse_stops_at_closing_tokens() {
    // `)` and `,` end the expression at the top level, unconsumed
    assert_eq!(parse("1 ) 2").unwrap(), num(1.0));
    assert_eq!(parse("x , y").unwrap(), var("x"));
    let lexer = Lexer::new("x , y");
    let mut parser = Parser::new(lexer, &unit).unwrap();
    assert_eq!(parser.parse(&unit).unwrap(), var("x"));
    assert_eq!(parser.current_token, Token::Comma);
    assert_eq!(parser.current_start, 2);
}

#[test]
fn test_parse_error_kinds_and_places() {
    let err = parse("(1 + 2").unwrap_err();
    assert_eq!(err.kind, ErrorKind::MissingClosingParen);
    assert_eq!(err.position, Some(Position::new(1, 7, 6)));

    let err = parse("sin(x\n y").unwrap_err();
    // `x y`: with power zero the name is taken for an operator, and refused
    // once its right side has been read
    assert_eq!(err.kind, ErrorKind::UnexpectedToken("end of input".to_string()));

    let err = parse("sin(x, 2 ").unwrap_err();
    assert_eq!(err.kind, ErrorKind::MissingFunctionClosingParen("sin".to_string()));
    assert_eq!(err.position, Some(Position::new(1, 10, 9)));

    let err = parse("").unwrap_err();
    assert_eq!(err.kind, ErrorKind::UnexpectedToken("end of input".to_string()));
    assert_eq!(err.position, Some(Position::new(1, 1, 0)));

    let err = parse("1 + * 2").unwrap_err();
    assert_eq!(err.kind, ErrorKind::UnexpectedToken("'*'".to_string()));
    assert_eq!(err.position, Some(Position::new(1, 5, 4)));

    let err = parse("1 + + 2").unwrap_err();
    assert_eq!(err.kind, ErrorKind::UnexpectedToken("'+'".to_string()));

    let err = parse("2 * )").unwrap_err();
    assert_eq!(err.kind, ErrorKind::UnexpectedToken("')'".to_string()));
    assert_eq!(err.position, Some(Position::new(1, 5, 4)));

    let err = parse("1 2 3").unwrap_err();
    assert_eq!(err.kind, ErrorKind::UnexpectedToken("number".to_string()));
    assert_eq!(err.position, Some(Position::new(1, 3, 2)));

    let err = parse("1 x 3").unwrap_err();
    assert_eq!(err.kind, ErrorKind::UnexpectedToken("identifier 'x'".to_string()));

    let err = parse("1 2").unwrap_err();
    assert_eq!(err.kind, ErrorKind::UnexpectedToken("end of input".to_string()));
    assert_eq!(err.position, Some(Position::new(1, 4, 3)));
}

#[test]
fn test_parse_reports_scanner_errors() {
    let err = parse("1 + @").unwrap_err();
    assert_eq!(err.kind, ErrorKind::UnexpectedCharacter('@'));
    assert_eq!(err.position, Some(Position::new(1, 5, 4)));
    let err = parse("$").unwrap_err();
    assert_eq!(err.kind, ErrorKind::UnexpectedCharacter('$'));
    // the token after the current one is read before the current one is used
    let err = parse("1 @").unwrap_err();
    assert_eq!(err.kind, ErrorKind::UnexpectedCharacter('@'));
    let err = parse("x + 1..2").unwrap_err();
    assert_eq!(err.kind, ErrorKind::InvalidNumber("1..".to_string()));
}

#[test]
fn test_binding_powers() {
    assert_eq!(bp_infix(&Token::Plus), (10, 11));
    assert_eq!(bp_infix(&Token::Minus), (10, 11));
    assert_eq!(bp_infix(&Token::Star), (20, 21));
    assert_eq!(bp_infix(&Token::Slash), (20, 21));
    assert_eq!(bp_infix(&Token::Caret), (30, 29));
    assert_eq!(bp_infix(&Token::LParen), (0, 0));
    assert_eq!(bp_infix(&Token::Number(0)), (0, 0));
    assert_eq!(bp_prefix(&Token::Minus), ((), 99));
    assert_eq!(bp_prefix(&Token::Plus), ((), 0));
}
