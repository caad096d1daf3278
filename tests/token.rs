use haybcmd::token::{Token, TokenType};

#[test]
fn token() {
    let token = Token {
        token_type: TokenType::STRING,
        value: String::from("Hello, World!"),
    };

    assert_ne!(token.token_type.to_string(), TokenType::NOTHING.to_string());
    assert_eq!(token.token_type.to_string(), TokenType::STRING.to_string());
}

#[test]
fn token_accessors_and_text() {
    let token = Token::new(TokenType::COMMAND, String::from("echo"));
    assert_eq!(*token.token_type(), TokenType::COMMAND);
    assert_eq!(token.value(), "echo");
    assert_eq!(token.to_string(), "Token(COMMAND, \"echo\")");
    assert_eq!(TokenType::EOS.to_string(), "EOS");
    assert_eq!(TokenType::VARIABLE.to_string(), "VARIABLE");
}
