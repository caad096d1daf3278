use vstd::prelude::*;

use crate::command::{has_command, CommandsHandler};
use crate::token::{Token, TokenType};

verus! {

/// Unicode white space (the `White_Space` property), as `char::is_whitespace` tests it.
pub open spec fn is_space(c: char) -> bool {
    let u = c as u32;
    (9 <= u <= 13) || u == 32 || u == 0x85 || u == 0xA0 || u == 0x1680 || (0x2000 <= u <= 0x200A)
        || u == 0x2028 || u == 0x2029 || u == 0x202F || u == 0x205F || u == 0x3000
}

pub fn is_whitespace(c: char) -> (r: bool)
    ensures
        r == is_space(c),
{
    let u = c as u32;
    (9 <= u && u <= 13) || u == 32 || u == 0x85 || u == 0xA0 || u == 0x1680 || (0x2000 <= u && u
        <= 0x200A) || u == 0x2028 || u == 0x2029 || u == 0x202F || u == 0x205F || u == 0x3000
}

/// A character that can stand in a bare word.
pub open spec fn is_word_char(c: char) -> bool {
    !is_space(c) && c != ';'
}

/// The first index at or after `i` that holds no white space.
pub open spec fn skip_space(s: Seq<char>, i: int) -> int
    decreases s.len() - i,
{
    if 0 <= i < s.len() && is_space(s[i]) {
        skip_space(s, i + 1)
    } else {
        i
    }
}

/// The end of the bare word that starts at `i`.
pub open spec fn word_end(s: Seq<char>, i: int) -> int
    decreases s.len() - i,
{
    if 0 <= i < s.len() && is_word_char(s[i]) {
        word_end(s, i + 1)
    } else {
        i
    }
}

/// The text of a quoted string whose body starts at `i`, and the index just
/// after its closing quote (or the end of input when it is not closed). A
/// backslash followed by a quote stands for the quote.
pub open spec fn quoted(s: Seq<char>, i: int) -> (Seq<char>, int)
    decreases s.len() - i,
{
    if i < 0 || i >= s.len() {
        (Seq::empty(), i)
    } else if s[i] == '"' {
        (Seq::empty(), i + 1)
    } else if s[i] == '\\' && i + 1 < s.len() && s[i + 1] == '"' {
        let r = quoted(s, i + 2);
        (seq!['"'] + r.0, r.1)
    } else {
        let r = quoted(s, i + 1);
        (seq![s[i]] + r.0, r.1)
    }
}

/// The category of a bare word, given the registered commands and the
/// category of the token before it.
pub open spec fn classify(word: Seq<char>, cmds: Seq<crate::command::Command>, last: TokenType) -> TokenType {
    if has_command(cmds, word) && last != TokenType::COMMAND {
        TokenType::COMMAND
    } else if word.len() > 0 && word[0] == '$' {
        TokenType::VARIABLE
    } else {
        TokenType::STRING
    }
}

/// One step of the tokenizer on input `s` at cursor `pos`: the category and
/// text of the token, and the cursor after it.
pub open spec fn lex_step(
    s: Seq<char>,
    pos: int,
    last: TokenType,
    cmds: Seq<crate::command::Command>,
) -> (TokenType, Seq<char>, int) {
    let p = skip_space(s, pos);
    if p >= s.len() {
        (TokenType::EOF, Seq::empty(), p)
    } else if s[p] == ';' {
        (TokenType::EOS, ";"@, p + 1)
    } else if s[p] == '"' {
        let q = quoted(s, p + 1);
        (TokenType::STRING, q.0, q.1)
    } else {
        let e = word_end(s, p);
        let w = s.subrange(p, e);
        (classify(w, cmds, last), w, e)
    }
}

proof fn lemma_skip_space_bounds(s: Seq<char>, i: int)
    requires
        0 <= i <= s.len(),
    ensures
        i <= skip_space(s, i) <= s.len(),
        skip_space(s, i) < s.len() ==> !is_space(s[skip_space(s, i)]),
    decreases s.len() - i,
{
    if i < s.len() && is_space(s[i]) {
        lemma_skip_space_bounds(s, i + 1);
    }
}

proof fn lemma_word_end_bounds(s: Seq<char>, i: int)
    requires
        0 <= i <= s.len(),
    ensures
        i <= word_end(s, i) <= s.len(),
        i < s.len() && is_word_char(s[i]) ==> i < word_end(s, i),
    decreases s.len() - i,
{
    if i < s.len() && is_word_char(s[i]) {
        lemma_word_end_bounds(s, i + 1);
    }
}

proof fn lemma_quoted_bounds(s: Seq<char>, i: int)
    requires
        0 <= i <= s.len(),
    ensures
        i <= quoted(s, i).1 <= s.len(),
    decreases s.len() - i,
{
    if i < s.len() && s[i] != '"' {
        if s[i] == '\\' && i + 1 < s.len() && s[i + 1] == '"' {
            lemma_quoted_bounds(s, i + 2);
        } else {
            lemma_quoted_bounds(s, i + 1);
        }
    }
}

/// A step never moves the cursor back, never past the end, and moves it
/// forward whenever it yields a token other than end of input.
pub proof fn lemma_lex_step_progress(
    s: Seq<char>,
    pos: int,
    last: TokenType,
    cmds: Seq<crate::command::Command>,
)
    requires
        0 <= pos <= s.len(),
    ensures
        pos <= lex_step(s, pos, last, cmds).2 <= s.len(),
        lex_step(s, pos, last, cmds).0 != TokenType::EOF ==> pos < lex_step(s, pos, last, cmds).2,
        lex_step(s, pos, last, cmds).0 == TokenType::EOF ==> lex_step(s, pos, last, cmds).2
            == s.len(),
{
    lemma_skip_space_bounds(s, pos);
    let p = skip_space(s, pos);
    if p < s.len() {
        if s[p] == '"' {
            lemma_quoted_bounds(s, p + 1);
        } else if s[p] != ';' {
            lemma_word_end_bounds(s, p);
        }
    }
}

proof fn lemma_word_end_run(s: Seq<char>, i: int, e: int)
    requires
        0 <= i <= e <= s.len(),
        forall|j: int| i <= j < e ==> is_word_char(#[trigger] s[j]),
        e == s.len() || !is_word_char(s[e]),
    ensures
        word_end(s, i) == e,
    decreases e - i,
{
    if i < e {
        lemma_word_end_run(s, i + 1, e);
    }
}

/// A word that is a registered command's name, at the start of the input
/// and followed by the end of input, white space or a separator, is read as
/// a Command token with that text. The same word read right after it is
/// not a Command token again: it is a String token.
pub proof fn lemma_command_word(c: Seq<char>, rest: Seq<char>, cmds: Seq<crate::command::Command>)
    requires
        has_command(cmds, c),
        c.len() > 0,
        forall|j: int| 0 <= j < c.len() ==> is_word_char(#[trigger] c[j]),
        c[0] != '"',
        c[0] != '$',
        rest.len() == 0 || !is_word_char(rest[0]),
    ensures
        lex_step(c + rest, 0, TokenType::NOTHING, cmds) == (TokenType::COMMAND, c, c.len() as int),
        lex_step(c + " "@ + c, c.len() as int, TokenType::COMMAND, cmds) == (
            TokenType::STRING,
            c,
            (2 * c.len() + 1) as int,
        ),
{
    let s = c + rest;
    assert(s[0] == c[0]);
    assert(skip_space(s, 0) == 0);
    assert forall|j: int| 0 <= j < c.len() implies is_word_char(#[trigger] s[j]) by {
        assert(s[j] == c[j]);
    }
    if rest.len() > 0 {
        assert(s[c.len() as int] == rest[0]);
    }
    lemma_word_end_run(s, 0, c.len() as int);
    assert(s.subrange(0, c.len() as int) =~= c);
    let t = c + " "@ + c;
    let n = c.len() as int;
    reveal_strlit(" ");
    assert(t[n] == ' ');
    assert(t[n + 1] == c[0]);
    assert(skip_space(t, n + 1) == n + 1);
    assert(skip_space(t, n) == n + 1);
    assert forall|j: int| n + 1 <= j < 2 * n + 1 implies is_word_char(#[trigger] t[j]) by {
        assert(t[j] == c[j - n - 1]);
    }
    lemma_word_end_run(t, n + 1, 2 * n + 1);
    assert(t.subrange(n + 1, 2 * n + 1) =~= c);
}

/// The tokenizer: an input buffer, a cursor over its characters and the
/// category of the last token it produced.
#[derive(Clone)]
pub struct Lexer {
    input: String,
    len: usize,
    position: usize,
    last_kind: TokenType,
}

impl Lexer {
    pub closed spec fn wf(&self) -> bool {
        self.len == self.input@.len() && self.position <= self.len
    }

    /// The input buffer.
    pub closed spec fn text(&self) -> Seq<char> {
        self.input@
    }

    /// The cursor.
    pub closed spec fn pos(&self) -> int {
        self.position as int
    }

    /// The category of the last token produced.
    pub closed spec fn last(&self) -> TokenType {
        self.last_kind
    }

    /// The cursor of a well-formed tokenizer lies within its input.
    pub proof fn lemma_cursor_in_input(&self)
        requires
            self.wf(),
        ensures
            0 <= self.pos() <= self.text().len(),
    {
    }

    /// How many characters are left after the cursor.
    pub open spec fn remaining(&self) -> nat {
        (self.text().len() - self.pos()) as nat
    }

    pub fn new(input: String) -> (r: Self)
        ensures
            r.wf(),
            r.text() == input@,
            r.pos() == 0,
            r.last() == TokenType::NOTHING,
    {
        let len = input.as_str().unicode_len();
        Lexer { input, len, position: 0, last_kind: TokenType::NOTHING }
    }

    /// Produces the next token of the input, reading the registered command
    /// names from `commands_handler`.
    pub fn next_token(&mut self, commands_handler: &CommandsHandler) -> (r: Token)
        requires
            old(self).wf(),
        ensures
            final(self).wf(),
            final(self).text() == old(self).text(),
            (r.token_type, r.value@, final(self).pos()) == lex_step(
                old(self).text(),
                old(self).pos(),
                old(self).last(),
                commands_handler.commands@,
            ),
            final(self).last() == r.token_type,
            final(self).remaining() <= old(self).remaining(),
            r.token_type != TokenType::EOF ==> final(self).remaining() < old(self).remaining(),
    {
        proof {
            lemma_lex_step_progress(self.input@, self.position as int, self.last_kind, commands_handler.commands@);
        }
        let ghost s = self.input@;
        let ghost start = self.position as int;
        while self.position < self.len && is_whitespace(self.input.as_str().get_char(self.position))
            invariant
                self.wf(),
                self.input@ == s,
                self.last_kind == old(self).last_kind,
                start <= self.position,
                skip_space(s, self.position as int) == skip_space(s, start),
            decreases self.len - self.position,
        {
            self.position += 1;
        }
        if self.position >= self.len {
            self.last_kind = TokenType::EOF;
            return Token::new(TokenType::EOF, String::new());
        }
        if self.input.as_str().get_char(self.position) == ';' {
            self.position += 1;
            self.last_kind = TokenType::EOS;
            return Token::new(TokenType::EOS, String::from_str(";"));
        }
        let token = self.parse_token(commands_handler);
        self.last_kind = token.token_type;
        token
    }

    fn is_variable(&self, identifier: &str) -> (r: bool)
        ensures
            r == (identifier@.len() > 0 && identifier@[0] == '$'),
    {
        identifier.unicode_len() > 0 && identifier.get_char(0) == '$'
    }

    fn is_command(&self, command_name: &str, commands_handler: &CommandsHandler) -> (r: bool)
        ensures
            r == has_command(commands_handler.commands@, command_name@),
    {
        let key = String::from_str(command_name);
        let mut i: usize = 0;
        while i < commands_handler.commands.len()
            invariant
                i <= commands_handler.commands@.len(),
                key@ == command_name@,
                forall|j: int|
                    0 <= j < i ==> commands_handler.commands@[j].name@ != command_name@,
            decreases commands_handler.commands@.len() - i,
        {
            if commands_handler.commands[i].name == key {
                return true;
            }
            i += 1;
        }
        false
    }

    /// Reads a quoted string or a bare word at the cursor, which stands on a
    /// character that is neither white space nor a separator.
    fn parse_token(&mut self, commands_handler: &CommandsHandler) -> (r: Token)
        requires
            old(self).wf(),
            old(self).position < old(self).len,
            !is_space(old(self).input@[old(self).position as int]),
            old(self).input@[old(self).position as int] != ';',
        ensures
            final(self).wf(),
            final(self).input == old(self).input,
            final(self).last_kind == old(self).last_kind,
            ({
                let s = old(self).input@;
                let p = old(self).position as int;
                if s[p] == '"' {
                    r.token_type == TokenType::STRING && r.value@ == quoted(s, p + 1).0
                        && final(self).position == quoted(s, p + 1).1
                } else {
                    let e = word_end(s, p);
                    r.token_type == classify(s.subrange(p, e), commands_handler.commands@, old(self).last_kind)
                        && r.value@ == s.subrange(p, e) && final(self).position == e
                }
            }),
    {
        if self.input.as_str().get_char(self.position) == '"' {
            return self.parse_string();
        }
        let ghost s = self.input@;
        let start = self.position;
        while self.position < self.len && !is_whitespace(self.input.as_str().get_char(self.position))
            && self.input.as_str().get_char(self.position) != ';'
            invariant
                self.wf(),
                self.input@ == s,
                self.input == old(self).input,
                self.last_kind == old(self).last_kind,
                start <= self.position,
                word_end(s, self.position as int) == word_end(s, start as int),
            decreases self.len - self.position,
        {
            self.position += 1;
        }
        let word = String::from_str(self.input.as_str().substring_char(start, self.position));
        let kind = if self.is_command(word.as_str(), commands_handler) && self.last_kind
            != TokenType::COMMAND {
            TokenType::COMMAND
        } else if self.is_variable(word.as_str()) {
            TokenType::VARIABLE
        } else {
            TokenType::STRING
        };
        Token::new(kind, word)
    }

    /// Reads a quoted string; the cursor stands on its opening quote.
    fn parse_string(&mut self) -> (r: Token)
        requires
            old(self).wf(),
            old(self).position < old(self).len,
        ensures
            final(self).wf(),
            final(self).input == old(self).input,
            final(self).last_kind == old(self).last_kind,
            r.token_type == TokenType::STRING,
            r.value@ == quoted(old(self).input@, old(self).position + 1).0,
            final(self).position == quoted(old(self).input@, old(self).position + 1).1,
    {
        let ghost s = self.input@;
        let ghost q = quoted(s, self.position + 1);
        let mut token_value = String::new();
        self.position += 1;
        let mut segment: usize = self.position;
        while self.position < self.len && self.input.as_str().get_char(self.position) != '"'
            invariant
                self.wf(),
                self.input@ == s,
                self.input == old(self).input,
                self.last_kind == old(self).last_kind,
                segment <= self.position,
                q.0 == token_value@ + s.subrange(segment as int, self.position as int) + quoted(
                    s,
                    self.position as int,
                ).0,
                q.1 == quoted(s, self.position as int).1,
            decreases self.len - self.position,
        {
            let ghost i = self.position as int;
            if self.input.as_str().get_char(self.position) == '\\' && self.position + 1 < self.len
                && self.input.as_str().get_char(self.position + 1) == '"' {
                let piece = self.input.as_str().substring_char(segment, self.position);
                let ghost before = token_value@;
                token_value.append(piece);
                segment = self.position + 1;
                self.position += 2;
                proof {
                    let g = segment as int;
                    assert(s.subrange(g, i + 2) =~= seq!['"']);
                    assert(q.0 =~= token_value@ + s.subrange(g, i + 2) + quoted(s, i + 2).0);
                }
            } else {
                self.position += 1;
                proof {
                    assert(s.subrange(segment as int, i + 1) =~= s.subrange(segment as int, i).push(s[i]));
                    assert(q.0 =~= token_value@ + s.subrange(segment as int, i + 1) + quoted(s, i + 1).0);
                }
            }
        }
        let piece = self.input.as_str().substring_char(segment, self.position);
        token_value.append(piece);
        if self.position < self.len {
            self.position += 1;
        }
        proof {
            assert(q.0 =~= token_value@);
        }
        Token::new(TokenType::STRING, token_value)
    }
}

} // verus!
