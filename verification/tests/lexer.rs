use matheval_core::arith::Operation;
use matheval_core::ast::BinaryOp;
use matheval_core::bytecode::Builtin;
use matheval_core::error::{ErrorKind, Position};
use matheval_core::lexer::Lexer;
use matheval_core::token::Token;

/// The arithmetic of the machine's doubles, on their bits.
fn unit(op: Operation) -> u64 {
    match op {
        Operation::Parse(text) => text.parse::<f64>().unwrap().to_bits(),
        Operation::Binary(op, a, b) => {
            let (a, b) = (f64::from_bits(a), f64::from_bits(b));
            let r = match op {
                BinaryOp::Add => a + b,
                BinaryOp::Sub => a - b,
                BinaryOp::Mul => a * b,
                BinaryOp::Div => a / b,
                BinaryOp::Pow => a.powf(b),
            };
            r.to_bits()
        }
        Operation::Call(f, args) => {
            let x = |i: usize| f64::from_bits(args[i]);
            let r = match f {
                Builtin::Sin => x(0).sin(),
                Builtin::Cos => x(0).cos(),
                Builtin::Tan => x(0).tan(),
                Builtin::Sqrt => x(0).sqrt(),
                Builtin::Abs => x(0).abs(),
                Builtin::Floor => x(0).floor(),
                Builtin::Ceil => x(0).ceil(),
                Builtin::Round => x(0).round(),
                Builtin::Exp => x(0).exp(),
                Builtin::Ln => x(0).ln(),
                Builtin::Log10 => x(0).log10(),
                Builtin::Max => args
                    .iter()
                    .fold(f64::NEG_INFINITY, |a, &b| a.max(f64::from_bits(b))),
                Builtin::Min => args
                    .iter()
                    .fold(f64::INFINITY, |a, &b| a.min(f64::from_bits(b))),
                Builtin::Unknown => f64::NAN,
            };
            r.to_bits()
        }
    }
}

fn bits(x: f64) -> u64 {
    x.to_bits()
}


#[test]
fn test_lexer_numbers() {
    let mut lexer = Lexer::new("123 45.67 0.5 .25");
    assert_eq!(lexer.next_token(&unit).unwrap(), Token::Number(bits(123.0)));
    assert_eq!(lexer.next_token(&unit).unwrap(), Token::Number(bits(45.67)));
    assert_eq!(lexer.next_token(&unit).unwrap(), Token::Number(bits(0.5)));
    assert_eq!(lexer.next_token(&unit).unwrap(), Token::Number(bits(0.25)));
    assert_eq!(lexer.next_token(&unit).unwrap(), Token::EOF);
}

#[test]
fn test_lexer_operators() {
    let mut lexer = Lexer::new("+ - * / ^");
    assert_eq!(lexer.next_token(&unit).unwrap(), Token::Plus);
    assert_eq!(lexer.next_token(&unit).unwrap(), Token::Minus);
    assert_eq!(lexer.next_token(&unit).unwrap(), Token::Star);
    assert_eq!(lexer.next_token(&unit).unwrap(), Token::Slash);
    assert_eq!(lexer.next_token(&unit).unwrap(), Token::Caret);
    assert_eq!(lexer.next_token(&unit).unwrap(), Token::EOF);
}

#[test]
fn test_lexer_parentheses() {
    let mut lexer = Lexer::new("( )");
    assert_eq!(lexer.next_token(&unit).unwrap(), Token::LParen);
    assert_eq!(lexer.next_token(&unit).unwrap(), Token::RParen);
    assert_eq!(lexer.next_token(&unit).unwrap(), Token::EOF);
}

#[test]
fn test_lexer_identifiers() {
    let mut lexer = Lexer::new("x foo bar_123 _test");
    assert_eq!(lexer.next_token(&unit).unwrap(), Token::Identifier("x".to_string()));
    assert_eq!(lexer.next_token(&unit).unwrap(), Token::Identifier("foo".to_string()));
    assert_eq!(lexer.next_token(&unit).unwrap(), Token::Identifier("bar_123".to_string()));
    assert_eq!(lexer.next_token(&unit).unwrap(), Token::Identifier("_test".to_string()));
    assert_eq!(lexer.next_token(&unit).unwrap(), Token::EOF);
}

#[test]
fn test_lexer_expression() {
    let mut lexer = Lexer::new("x + 2 * sin(y)");
    assert_eq!(lexer.next_token(&unit).unwrap(), Token::Identifier("x".to_string()));
    assert_eq!(lexer.next_token(&unit).unwrap(), Token::Plus);
    assert_eq!(lexer.next_token(&unit).unwrap(), Token::Number(bits(2.0)));
    assert_eq!(lexer.next_token(&unit).unwrap(), Token::Star);
    assert_eq!(lexer.next_token(&unit).unwrap(), Token::Identifier("sin".to_string()));
    assert_eq!(lexer.next_token(&unit).unwrap(), Token::LParen);
    assert_eq!(lexer.next_token(&unit).unwrap(), Token::Identifier("y".to_string()));
    assert_eq!(lexer.next_token(&unit).unwrap(), Token::RParen);
    assert_eq!(lexer.next_token(&unit).unwrap(), Token::EOF);
}

#[test]
fn test_lexer_whitespace() {
    let mut lexer = Lexer::new("  1  +  2  ");
    assert_eq!(lexer.next_token(&unit).unwrap(), Token::Number(bits(1.0)));
    assert_eq!(lexer.next_token(&unit).unwrap(), Token::Plus);
    assert_eq!(lexer.next_token(&unit).unwrap(), Token::Number(bits(2.0)));
    assert_eq!(lexer.next_token(&unit).unwrap(), Token::EOF);
}

#[test]
fn test_lexer_function_call() {
    let mut lexer = Lexer::new("max(1, 2, 3)");
    assert_eq!(lexer.next_token(&unit).unwrap(), Token::Identifier("max".to_string()));
    assert_eq!(lexer.next_token(&unit).unwrap(), Token::LParen);
    assert_eq!(lexer.next_token(&unit).unwrap(), Token::Number(bits(1.0)));
    assert_eq!(lexer.next_token(&unit).unwrap(), Token::Comma);
    assert_eq!(lexer.next_token(&unit).unwrap(), Token::Number(bits(2.0)));
    assert_eq!(lexer.next_token(&unit).unwrap(), Token::Comma);
    assert_eq!(lexer.next_token(&unit).unwrap(), Token::Number(bits(3.0)));
    assert_eq!(lexer.next_token(&unit).unwrap(), Token::RParen);
    assert_eq!(lexer.next_token(&unit).unwrap(), Token::EOF);
}

#[test]
fn test_lexer_invalid_number() {
    let mut lexer = Lexer::new("1.2.3");
    assert!(lexer.next_token(&unit).is_err());
}

#[test]
fn test_lexer_invalid_character() {
    let mut lexer = Lexer::new("@");
    let result = lexer.next_token(&unit);
    assert!(result.is_err());
    assert!(result.unwrap_err().to_string().contains("Unexpected character"));
}

#[test]
fn test_lexer_iterator() {
    let mut lexer = Lexer::new("1 + 2");
    let mut tokens = Vec::new();
    while let Some(token) = lexer.next(&unit) {
        tokens.push(token);
    }
    assert_eq!(tokens.len(), 3);
    assert_eq!(tokens[0].as_ref().unwrap(), &Token::Number(bits(1.0)));
    assert_eq!(tokens[1].as_ref().unwrap(), &Token::Plus);
    assert_eq!(tokens[2].as_ref().unwrap(), &Token::Number(bits(2.0)));
}

#[test]
fn test_lexer_empty_input() {
    let mut lexer = Lexer::new("");
    assert_eq!(lexer.next_token(&unit).unwrap(), Token::EOF);
}

#[test]
fn test_lexer_invalid_number_reports_text_and_place() {
    let mut lexer = Lexer::new("x +\n  1.2.3");
    assert_eq!(lexer.next_token(&unit).unwrap(), Token::Identifier("x".to_string()));
    assert_eq!(lexer.next_token(&unit).unwrap(), Token::Plus);
    let err = lexer.next_token(&unit).unwrap_err();
    assert_eq!(err.kind, ErrorKind::InvalidNumber("1.2.".to_string()));
    assert_eq!(err.position, Some(Position::new(2, 3, 6)));
    assert!(err.source.is_none());
    // scanning would go on at the second point
    assert_eq!(lexer.pos, 9);
    assert_eq!(lexer.next_token(&unit).unwrap(), Token::Number(bits(0.3)));
}

#[test]
fn test_lexer_lone_point_is_no_number() {
    let mut lexer = Lexer::new(" . ");
    let err = lexer.next_token(&unit).unwrap_err();
    assert_eq!(err.kind, ErrorKind::InvalidNumber(".".to_string()));
    assert_eq!(err.position, Some(Position::new(1, 2, 1)));
}

#[test]
fn test_lexer_number_forms() {
    let mut lexer = Lexer::new("7. .5 007 1e3");
    assert_eq!(lexer.next_token(&unit).unwrap(), Token::Number(bits(7.0)));
    assert_eq!(lexer.next_token(&unit).unwrap(), Token::Number(bits(0.5)));
    assert_eq!(lexer.next_token(&unit).unwrap(), Token::Number(bits(7.0)));
    // no exponent notation: the numeral ends before the letter
    assert_eq!(lexer.next_token(&unit).unwrap(), Token::Number(bits(1.0)));
    assert_eq!(lexer.next_token(&unit).unwrap(), Token::Identifier("e3".to_string()));
    assert_eq!(lexer.next_token(&unit).unwrap(), Token::EOF);
}

#[test]
fn test_lexer_unexpected_character_place() {
    let mut lexer = Lexer::new("a\n\u{e9} $");
    assert_eq!(lexer.next_token(&unit).unwrap(), Token::Identifier("a".to_string()));
    let err = lexer.next_token(&unit).unwrap_err();
    assert_eq!(err.kind, ErrorKind::UnexpectedCharacter('\u{e9}'));
    assert_eq!(err.position, Some(Position::new(2, 1, 2)));
    // the character is not consumed
    let again = lexer.next_token(&unit).unwrap_err();
    assert_eq!(again.kind, ErrorKind::UnexpectedCharacter('\u{e9}'));
    assert_eq!(
        err.to_string(),
        "Error: Unexpected character '\u{e9}' at line 2, column 1"
    );
}

#[test]
fn test_lexer_byte_offset_counts_utf8() {
    // U+3000 is whitespace of three bytes
    let mut lexer = Lexer::new("\u{3000}\u{3000}#");
    let err = lexer.next_token(&unit).unwrap_err();
    assert_eq!(err.kind, ErrorKind::UnexpectedCharacter('#'));
    assert_eq!(err.position, Some(Position::new(1, 3, 6)));
}

#[test]
fn test_lexer_unicode_whitespace_is_skipped() {
    let mut lexer = Lexer::new("\t1\u{a0}+\u{2003}2\r\n");
    assert_eq!(lexer.next_token(&unit).unwrap(), Token::Number(bits(1.0)));
    assert_eq!(lexer.next_token(&unit).unwrap(), Token::Plus);
    assert_eq!(lexer.next_token(&unit).unwrap(), Token::Number(bits(2.0)));
    assert_eq!(lexer.next_token(&unit).unwrap(), Token::EOF);
    assert_eq!(lexer.next_token(&unit).unwrap(), Token::EOF);
}

#[test]
fn test_lexer_names_are_ascii() {
    let mut lexer = Lexer::new("ab\u{e9}");
    assert_eq!(lexer.next_token(&unit).unwrap(), Token::Identifier("ab".to_string()));
    let err = lexer.next_token(&unit).unwrap_err();
    assert_eq!(err.kind, ErrorKind::UnexpectedCharacter('\u{e9}'));
}

#[test]
fn test_lexer_token_start_and_locate() {
    let mut lexer = Lexer::new("  foo\n+ 12");
    assert_eq!(lexer.next_token(&unit).unwrap(), Token::Identifier("foo".to_string()));
    assert_eq!((lexer.start, lexer.pos), (2, 5));
    assert_eq!(lexer.next_token(&unit).unwrap(), Token::Plus);
    assert_eq!((lexer.start, lexer.pos), (6, 7));
    assert_eq!(lexer.next_token(&unit).unwrap(), Token::Number(bits(12.0)));
    assert_eq!((lexer.start, lexer.pos), (8, 10));
    assert_eq!(lexer.locate(0), Some(Position::start()));
    assert_eq!(lexer.locate(5), Some(Position::new(1, 6, 5)));
    assert_eq!(lexer.locate(6), Some(Position::new(2, 1, 6)));
    assert_eq!(lexer.locate(10), Some(Position::new(2, 5, 10)));
}

#[test]
fn test_lexer_next_ends_at_end_of_input_and_yields_errors() {
    let mut lexer = Lexer::new("1 ?");
    assert_eq!(lexer.next(&unit).unwrap().unwrap(), Token::Number(bits(1.0)));
    let err = lexer.next(&unit).unwrap().unwrap_err();
    assert_eq!(err.kind, ErrorKind::UnexpectedCharacter('?'));
    let mut empty = Lexer::new("   ");
    assert!(empty.next(&unit).is_none());
}

#[test]
fn test_lexer_skips_exactly_the_white_space_code_points() {
    let listed = |c: char| {
        matches!(c,
            '\u{9}'..='\u{d}'
            | ' '
            | '\u{85}'
            | '\u{a0}'
            | '\u{1680}'
            | '\u{2000}'..='\u{200a}'
            | '\u{2028}'
            | '\u{2029}'
            | '\u{202f}'
            | '\u{205f}'
            | '\u{3000}')
    };
    let mut count = 0;
    let mut text = String::new();
    for code in 0..=0x10FFFFu32 {
        if let Some(c) = char::from_u32(code) {
            text.clear();
            text.push(c);
            let skipped = matches!(Lexer::new(&text).next_token(&unit), Ok(Token::EOF));
            assert_eq!(skipped, listed(c), "U+{code:04X}");
            if skipped {
                count += 1;
            }
        }
    }
    assert_eq!(count, 25);
}
