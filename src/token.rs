use vstd::prelude::*;

verus! {

/// The lexical category of a token.
#[derive(PartialEq, Eq, Structural, Clone, Copy, Debug)]
pub enum TokenType {
    NOTHING,
    VARIABLE,
    STRING,
    COMMAND,
    EOF,
    EOS,
}

impl TokenType {
    /// The upper-case name of the category.
    pub open spec fn name(&self) -> Seq<char> {
        match self {
            TokenType::NOTHING => "NOTHING"@,
            TokenType::VARIABLE => "VARIABLE"@,
            TokenType::STRING => "STRING"@,
            TokenType::COMMAND => "COMMAND"@,
            TokenType::EOF => "EOF"@,
            TokenType::EOS => "EOS"@,
        }
    }

    pub fn to_string(&self) -> (r: String)
        ensures
            r@ == self.name(),
    {
        let s: &str = match self {
            TokenType::NOTHING => "NOTHING",
            TokenType::VARIABLE => "VARIABLE",
            TokenType::STRING => "STRING",
            TokenType::COMMAND => "COMMAND",
            TokenType::EOF => "EOF",
            TokenType::EOS => "EOS",
        };
        String::from_str(s)
    }
}

/// A lexical unit: its category and its text.
pub struct Token {
    pub token_type: TokenType,
    pub value: String,
}

impl Token {
    pub fn new(token_type: TokenType, value: String) -> (r: Self)
        ensures
            r.token_type == token_type,
            r.value == value,
    {
        Token { token_type, value }
    }

    pub fn token_type(&self) -> (r: &TokenType)
        ensures
            *r == self.token_type,
    {
        &self.token_type
    }

    pub fn value(&self) -> (r: &str)
        ensures
            r@ == self.value@,
    {
        self.value.as_str()
    }

    /// The text `Token(<category>, "<value>")`.
    pub open spec fn spec_to_string(&self) -> Seq<char> {
        "Token("@ + self.token_type.name() + ", \""@ + self.value@ + "\")"@
    }

    pub fn to_string(&self) -> (r: String)
        ensures
            r@ == self.spec_to_string(),
    {
        let mut s = String::from_str("Token(");
        let kind = self.token_type.to_string();
        s.append(kind.as_str());
        s.append(", \"");
        s.append(self.value.as_str());
        s.append("\")");
        s
    }
}

} // verus!
