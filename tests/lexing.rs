use haybcmd::command::CommandsHandler;
use haybcmd::lexer::{is_whitespace, Lexer};
use haybcmd::token::TokenType;

fn tokens(input: &str) -> Vec<(TokenType, String)> {
    let (commands_handler, _) = haybcmd::init();
    tokens_with(input, &commands_handler)
}

fn tokens_with(input: &str, commands_handler: &CommandsHandler) -> Vec<(TokenType, String)> {
    let mut lexer = Lexer::new(String::from(input));
    let mut out = Vec::new();
    loop {
        let t = lexer.next_token(commands_handler);
        let done = t.token_type == TokenType::EOF;
        out.push((t.token_type, t.value));
        if done {
            return out;
        }
    }
}

#[test]
fn command_name_first_is_command() {
    for name in ["help", "echo", "alias", "variables", "variable", "incrementvar"] {
        assert_eq!(tokens(name)[0], (TokenType::COMMAND, String::from(name)));
        let two = tokens(&format!("{} {}", name, name));
        assert_eq!(two[0].0, TokenType::COMMAND);
        assert_eq!(two[1], (TokenType::STRING, String::from(name)));
    }
}

#[test]
fn unregistered_word_is_string() {
    let (_, _) = haybcmd::init();
    let empty = CommandsHandler::new();
    assert_eq!(tokens_with("echo", &empty)[0], (TokenType::STRING, String::from("echo")));
}

#[test]
fn quoted_string_with_escaped_quote() {
    let t = tokens(r#""a\"b""#);
    assert_eq!(t[0], (TokenType::STRING, String::from("a\"b")));
    assert_eq!(t[1].0, TokenType::EOF);
    assert_eq!(t.len(), 2);
}

#[test]
fn unterminated_quote_runs_to_end() {
    let t = tokens("\"abc def");
    assert_eq!(t[0], (TokenType::STRING, String::from("abc def")));
    assert_eq!(t[1].0, TokenType::EOF);
}

#[test]
fn separators_variables_and_words() {
    let t = tokens("echo $x;foo \"q r\" ; ");
    assert_eq!(
        t,
        vec![
            (TokenType::COMMAND, String::from("echo")),
            (TokenType::VARIABLE, String::from("$x")),
            (TokenType::EOS, String::from(";")),
            (TokenType::STRING, String::from("foo")),
            (TokenType::STRING, String::from("q r")),
            (TokenType::EOS, String::from(";")),
            (TokenType::EOF, String::new()),
        ]
    );
}

#[test]
fn unicode_whitespace() {
    assert!(is_whitespace(' '));
    assert!(is_whitespace('\n'));
    assert!(is_whitespace('\u{3000}'));
    assert!(!is_whitespace('a'));
    let t = tokens("é\u{2003}ü");
    assert_eq!(t[0], (TokenType::STRING, String::from("é")));
    assert_eq!(t[1], (TokenType::STRING, String::from("ü")));
}
