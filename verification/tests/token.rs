use matheval_core::token::Token;

#[test]
fn test_token_equality() {
    assert_eq!(Token::Plus, Token::Plus);
    assert_eq!(Token::Number(42.0f64.to_bits()), Token::Number(42.0f64.to_bits()));
    assert_eq!(Token::Identifier("x".to_string()), Token::Identifier("x".to_string()));
    assert_ne!(Token::Plus, Token::Minus);
}

#[test]
fn test_token_clone() {
    let token = Token::Identifier("test".to_string());
    let cloned = token.clone();
    assert_eq!(token, cloned);
}

#[test]
fn test_token_debug() {
    let token = Token::Number(3.14f64.to_bits());
    let debug_str = format!("{:?}", token);
    assert!(debug_str.contains("Number"));
    assert!(debug_str.contains(&format!("{}", 3.14f64.to_bits())));
}

#[test]
fn test_all_operators() {
    let operators = vec![
        Token::Plus,
        Token::Minus,
        Token::Star,
        Token::Slash,
        Token::Caret,
        Token::LParen,
        Token::RParen,
        Token::Comma,
        Token::EOF,
    ];

    for op in operators {
        assert_eq!(op.clone(), op);
    }
}

#[test]
fn test_token_describe() {
    assert_eq!(Token::Number(1.0f64.to_bits()).describe(), "number");
    assert_eq!(Token::Identifier("rate".to_string()).describe(), "identifier 'rate'");
    assert_eq!(Token::Plus.describe(), "'+'");
    assert_eq!(Token::Minus.describe(), "'-'");
    assert_eq!(Token::Star.describe(), "'*'");
    assert_eq!(Token::Slash.describe(), "'/'");
    assert_eq!(Token::Caret.describe(), "'^'");
    assert_eq!(Token::LParen.describe(), "'('");
    assert_eq!(Token::RParen.describe(), "')'");
    assert_eq!(Token::Comma.describe(), "','");
    assert_eq!(Token::EOF.describe(), "end of input");
}
