use matheval_core::error::{Error, ErrorKind, Position};

#[test]
fn test_position_display() {
    let pos = Position::new(5, 10, 42);
    assert_eq!(pos.to_string(), "line 5, column 10");
}

#[test]
fn test_error_kind_display() {
    let err = ErrorKind::WrongArgumentCount {
        function: "sin".to_string(),
        expected: 1,
        got: 2,
    };
    assert_eq!(err.to_string(), "Function 'sin' expects 1 argument, but got 2");
}

#[test]
fn test_error_with_position() {
    let err = Error::unexpected_char('@', Position::new(1, 5, 4));
    assert!(err.to_string().contains("Unexpected character '@'"));
    assert!(err.to_string().contains("line 1, column 5"));
}

#[test]
fn test_error_with_source_context() {
    let source = "x + @ - y";
    let err = Error::unexpected_char('@', Position::new(1, 5, 4))
        .with_source(source.to_string());

    let display = err.to_string();
    assert!(display.contains("x + @ - y"));
    assert!(display.contains("^"));
}

#[test]
fn test_error_hints() {
    let err = Error::division_by_zero();
    assert!(err.hint().is_some());
    assert!(err.hint().unwrap().contains("divisor"));
}

#[test]
fn test_every_error_message() {
    let s = |x: &str| x.to_string();
    let cases = vec![
        (ErrorKind::UnexpectedCharacter('#'), "Unexpected character '#'"),
        (ErrorKind::InvalidNumber(s("1.2.")), "Invalid number format: '1.2.'"),
        (ErrorKind::UnexpectedToken(s("')'")), "Unexpected token: ')'"),
        (
            ErrorKind::ExpectedToken { expected: s("')'"), found: s("','") },
            "Expected ')', but found ','",
        ),
        (ErrorKind::MissingClosingParen, "Missing closing parenthesis ')'"),
        (
            ErrorKind::MissingFunctionClosingParen(s("max")),
            "Missing closing parenthesis ')' in function call 'max'",
        ),
        (ErrorKind::UnknownFunction(s("foo")), "Unknown function: 'foo'"),
        (
            ErrorKind::PoolOverflow,
            "Too many distinct constants, variables or functions (at most 65536 of each)",
        ),
        (
            ErrorKind::TooManyArguments(300),
            "Too many arguments in function call: 300 (at most 255)",
        ),
        (ErrorKind::DivisionByZero, "Division by zero"),
        (ErrorKind::StackUnderflow, "Stack underflow (internal error)"),
        (
            ErrorKind::UnbalancedStack(12),
            "Unbalanced stack: 12 values at the end of the program (internal error)",
        ),
        (ErrorKind::UndefinedVariable(s("rate")), "Undefined variable: 'rate'"),
        (
            ErrorKind::InvalidFunctionIndex(65535),
            "Invalid function index: 65535 (internal error)",
        ),
        (
            ErrorKind::WrongArgumentCount { function: s("max"), expected: 2, got: 0 },
            "Function 'max' expects 2 arguments, but got 0",
        ),
        (
            ErrorKind::WrongArgumentCount { function: s("f"), expected: 0, got: 10 },
            "Function 'f' expects 0 arguments, but got 10",
        ),
        (
            ErrorKind::VariableCountMismatch { expected: 1, got: 0 },
            "Expected 1 variable, but got 0",
        ),
        (
            ErrorKind::VariableCountMismatch { expected: 12, got: 345 },
            "Expected 12 variables, but got 345",
        ),
        (ErrorKind::UnknownOpcode(200), "Unknown opcode: 200 (internal error)"),
    ];
    for (kind, text) in cases {
        assert_eq!(kind.to_string(), text);
        assert_eq!(Error::new(kind).to_string().lines().next().unwrap(), format!("Error: {text}"));
    }
}

#[test]
fn test_every_hint() {
    let s = |x: &str| x.to_string();
    let hint = |kind: ErrorKind| Error::new(kind).hint();
    assert_eq!(hint(ErrorKind::DivisionByZero), Some("Make sure the divisor is not zero"));
    let parens =
        Some("Check that all opening parentheses '(' have matching closing parentheses ')'");
    assert_eq!(hint(ErrorKind::MissingClosingParen), parens);
    assert_eq!(hint(ErrorKind::MissingFunctionClosingParen(s("f"))), parens);
    assert_eq!(
        hint(ErrorKind::UndefinedVariable(s("x"))),
        Some("Make sure all variables are defined in the context before evaluation")
    );
    assert_eq!(
        hint(ErrorKind::WrongArgumentCount { function: s("f"), expected: 1, got: 2 }),
        Some("Check the function documentation for the correct number of arguments")
    );
    assert_eq!(
        hint(ErrorKind::UnknownFunction(s("f"))),
        Some("Available functions: sin, cos, tan, sqrt, abs, floor, ceil, round, exp, ln, log10, max, min")
    );
    assert_eq!(hint(ErrorKind::UnexpectedCharacter('x')), None);
    assert_eq!(hint(ErrorKind::InvalidNumber(s("."))), None);
    assert_eq!(hint(ErrorKind::UnexpectedToken(s("x"))), None);
    assert_eq!(hint(ErrorKind::StackUnderflow), None);
    assert_eq!(hint(ErrorKind::UnbalancedStack(2)), None);
    assert_eq!(hint(ErrorKind::PoolOverflow), None);
    assert_eq!(hint(ErrorKind::UnknownOpcode(9)), None);
}

#[test]
fn test_error_constructors() {
    let e = Error::new(ErrorKind::StackUnderflow);
    assert_eq!(e.kind, ErrorKind::StackUnderflow);
    assert!(e.position.is_none() && e.source.is_none());
    let e = e.with_position(Position::new(3, 4, 5)).with_source("abc".to_string());
    assert_eq!(e.kind, ErrorKind::StackUnderflow);
    assert_eq!(e.position, Some(Position { line: 3, column: 4, offset: 5 }));
    assert_eq!(e.source.as_deref(), Some("abc"));
    let e = Error::expected_token("')'", "end of input", Position::start());
    assert_eq!(
        e.kind,
        ErrorKind::ExpectedToken { expected: "')'".to_string(), found: "end of input".to_string() }
    );
    assert_eq!(e.position, Some(Position::new(1, 1, 0)));
    assert_eq!(e.to_string(), "Error: Expected ')', but found end of input at line 1, column 1");
    let e = Error::wrong_arg_count("sin", 1, 3);
    assert_eq!(
        e.kind,
        ErrorKind::WrongArgumentCount { function: "sin".to_string(), expected: 1, got: 3 }
    );
    assert!(e.position.is_none());
    assert_eq!(Error::division_by_zero().kind, ErrorKind::DivisionByZero);
    assert_eq!(Position::start(), Position::new(1, 1, 0));
}

#[test]
fn test_full_report() {
    let err = Error::new(ErrorKind::MissingClosingParen)
        .with_position(Position::new(2, 9, 14))
        .with_source("a +\n(b * c + d\n".to_string());
    assert_eq!(
        err.to_string(),
        "Error: Missing closing parenthesis ')' at line 2, column 9\n\n  2 | (b * c + d\n              ^\n\nHint: Check that all opening parentheses '(' have matching closing parentheses ')'"
    );
    // the source alone quotes nothing
    let err = Error::new(ErrorKind::StackUnderflow).with_source("abc".to_string());
    assert_eq!(err.to_string(), "Error: Stack underflow (internal error)");
}

#[test]
fn test_report_with_column_zero() {
    let err = Error::unexpected_char('@', Position::new(1, 0, 0)).with_source("@".to_string());
    assert_eq!(
        err.to_string(),
        "Error: Unexpected character '@' at line 1, column 0\n\n  1 | @\n     ^"
    );
}

#[test]
fn test_source_context_lines() {
    let e = Error::new(ErrorKind::StackUnderflow);
    let ctx = |source: &str, line: usize, column: usize| {
        e.format_source_context(source, Position::new(line, column, 0))
    };
    assert_eq!(ctx("x + @ - y", 1, 5), "  1 | x + @ - y\n          ^");
    assert_eq!(ctx("x + @ - y", 1, 1), "  1 | x + @ - y\n      ^");
    // column 0 stands one to the left of the line
    assert_eq!(ctx("x + @ - y", 1, 0), "  1 | x + @ - y\n     ^");
    assert_eq!(ctx("a\nb", 2, 0), "  2 | b\n     ^");
    // no such line
    assert_eq!(ctx("x + @ - y", 0, 1), "");
    assert_eq!(ctx("x + @ - y", 2, 1), "");
    assert_eq!(ctx("", 1, 1), "");
    assert_eq!(ctx("a\n", 2, 1), "");
    // lines end at line feeds, and a carriage return before one is dropped
    assert_eq!(ctx("a\r\nbc\r\n\nd\r", 1, 1), "  1 | a\n      ^");
    assert_eq!(ctx("a\r\nbc\r\n\nd\r", 2, 2), "  2 | bc\n       ^");
    assert_eq!(ctx("a\r\nbc\r\n\nd\r", 3, 1), "  3 | \n      ^");
    assert_eq!(ctx("a\r\nbc\r\n\nd\r", 4, 1), "  4 | d\r\n      ^");
    assert_eq!(ctx("a\r\nbc\r\n\nd\r", 5, 1), "");
    // the label widens with the line number
    let long = "x\n".repeat(12);
    assert_eq!(ctx(&long, 12, 1), "  12 | x\n       ^");
    assert_eq!(ctx(&long, 13, 1), "");
}
