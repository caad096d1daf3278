use vstd::prelude::*;

use crate::command::{
    CommandCall,
    has_command, join_args, join_words, unchanged, Command, CommandsFuncs,
    CommandsHandler,
};
use crate::lexer::{lemma_lex_step_progress, lex_step, Lexer};
use crate::output::{
    decimal, decimal_string, print, print_command_usage, print_unknown_command,
    unknown_command_text, usage_text,
};
use crate::token::{Token, TokenType};

verus! {

/// How many tokenizer contexts one `parse` may push for alias expansion.
pub const ALIAS_MAX_CALLS: usize = 50000;

/// The characters left in all of `s`.
pub open spec fn total_remaining(s: Seq<Lexer>) -> nat
    decreases s.len(),
{
    if s.len() == 0 {
        0
    } else {
        total_remaining(s.drop_last()) + s.last().remaining()
    }
}

/// The argument that a token gives: a variable reference `$name` gives the
/// value of `name` where it is defined; any other token gives its text.
pub open spec fn token_argument(
    kind: TokenType,
    text: Seq<char>,
    vars: Map<Seq<char>, Seq<char>>,
) -> Seq<char> {
    if kind == TokenType::VARIABLE && text.len() > 0 && vars.dom().contains(text.drop_first()) {
        vars[text.drop_first()]
    } else {
        text
    }
}

/// A reference `$name` gives the value of the variable `name` where it is
/// defined, and the reference itself, `$` included, where it is not.
pub proof fn lemma_variable_substitution(name: Seq<char>, vars: Map<Seq<char>, Seq<char>>)
    ensures
        token_argument(TokenType::VARIABLE, "$"@ + name, vars) == if vars.dom().contains(name) {
            vars[name]
        } else {
            "$"@ + name
        },
{
    reveal_strlit("$");
    assert(("$"@ + name).drop_first() =~= name);
}

/// The arguments that a statement gives from a token of category `kind` and
/// text `text` on, the input `s` being read on from `pos`: each token up to
/// the end of the statement or of the input gives its `token_argument`.
pub open spec fn statement_arguments(
    kind: TokenType,
    text: Seq<char>,
    s: Seq<char>,
    pos: int,
    cmds: Seq<Command>,
    vars: Map<Seq<char>, Seq<char>>,
) -> Seq<Seq<char>>
    decreases 2 * (s.len() - pos) + if kind == TokenType::EOF {
        0int
    } else {
        1int
    },
    when 0 <= pos <= s.len()
    via statement_arguments_decreases
{
    if kind == TokenType::EOF || kind == TokenType::EOS {
        Seq::empty()
    } else {
        let (k, t, e) = lex_step(s, pos, kind, cmds);
        seq![token_argument(kind, text, vars)] + statement_arguments(k, t, s, e, cmds, vars)
    }
}

#[via_fn]
proof fn statement_arguments_decreases(
    kind: TokenType,
    text: Seq<char>,
    s: Seq<char>,
    pos: int,
    cmds: Seq<Command>,
    vars: Map<Seq<char>, Seq<char>>,
) {
    lemma_lex_step_progress(s, pos, kind, cmds);
}

/// The token that ends the statement, and the cursor after it: tokens are
/// read from cursor `pos` until a separator or the end of input.
pub open spec fn skip_to_end(s: Seq<char>, pos: int, last: TokenType, cmds: Seq<Command>) -> (
    TokenType,
    Seq<char>,
    int,
)
    decreases s.len() - pos,
    when 0 <= pos <= s.len()
    via skip_to_end_decreases
{
    let (k, t, e) = lex_step(s, pos, last, cmds);
    if k == TokenType::EOF || k == TokenType::EOS {
        (k, t, e)
    } else {
        skip_to_end(s, e, k, cmds)
    }
}

#[via_fn]
proof fn skip_to_end_decreases(s: Seq<char>, pos: int, last: TokenType, cmds: Seq<Command>) {
    lemma_lex_step_progress(s, pos, last, cmds);
}

/// The texts of `args`.
pub open spec fn texts(args: Seq<String>) -> Seq<Seq<char>> {
    args.map_values(|a: String| a@)
}

/// An argument count lies within a command's bounds.
pub open spec fn arity_ok(count: int, min_args: u8, max_args: u8) -> bool {
    min_args <= count <= max_args
}

/// The record that reports an argument count out of bounds.
pub open spec fn range_text(min_args: u8, max_args: u8, count: nat) -> Seq<char> {
    "arguments size must be within range ["@ + decimal(min_args as nat) + ", "@ + decimal(
        max_args as nat,
    ) + "], but size is "@ + decimal(count) + "\n"@
}

/// A command that takes at most one argument gets all of its arguments
/// joined by single spaces, as one; other commands get them as they are.
pub fn coerce_arguments(arguments: Vec<String>, max_args: u8) -> (r: Vec<String>)
    ensures
        max_args == 1 && arguments@.len() > 0 ==> r@.len() == 1 && r@[0]@ == join_words(
            arguments@,
        ),
        !(max_args == 1 && arguments@.len() > 0) ==> r@ == arguments@,
{
    if max_args == 1 && arguments.len() > 0 {
        let joined = join_args(&arguments);
        let mut r: Vec<String> = Vec::new();
        r.push(joined);
        r
    } else {
        arguments
    }
}

/// Whether `count` arguments fit the bounds `[min_args, max_args]`.
pub fn arguments_fit(count: usize, min_args: u8, max_args: u8) -> (r: bool)
    ensures
        r == arity_ok(count as int, min_args, max_args),
{
    min_args as usize <= count && count <= max_args as usize
}

/// A command of arity exactly one accepts one argument, and neither none
/// nor two or more.
pub proof fn lemma_single_argument_arity(count: int)
    ensures
        arity_ok(count, 1, 1) <==> count == 1,
        count == 0 ==> !arity_ok(count, 1, 1),
        count >= 2 ==> !arity_ok(count, 1, 1),
{
}

fn report_range(out: &mut String, min_args: u8, max_args: u8, count: usize)
    ensures
        final(out)@ == old(out)@ + range_text(min_args, max_args, count as nat),
{
    let ghost o0 = out@;
    print(out, "arguments size must be within range [");
    let low = decimal_string(min_args as u64);
    out.append(low.as_str());
    out.append(", ");
    let high = decimal_string(max_args as u64);
    out.append(high.as_str());
    out.append("], but size is ");
    let n = decimal_string(count as u64);
    out.append(n.as_str());
    out.append("\n");
    assert(out@ =~= o0 + range_text(min_args, max_args, count as nat));
}

fn kind_in(kinds: &[TokenType], kind: TokenType) -> (r: bool)
    ensures
        r == kinds@.contains(kind),
{
    let mut i: usize = 0;
    while i < kinds.len()
        invariant
            i <= kinds@.len(),
            forall|j: int| 0 <= j < i ==> kinds@[j] != kind,
        decreases kinds@.len() - i,
    {
        if kinds[i] == kind {
            return true;
        }
        i += 1;
    }
    false
}

/// The interpreter: the active tokenizer, the tokenizers suspended by alias
/// expansion, the current token, the registry, the dispatch table and the
/// output written so far.
pub struct Parser<F: CommandCall> {
    pub lexer: Lexer,
    pub suspended: Vec<Lexer>,
    pub current_token: Token,
    pub commands_handler: CommandsHandler,
    pub commands_funcs: CommandsFuncs<F>,
    pub output: String,
    pub pushes: usize,
}

/// `b` is `a` after the active tokenizer has read one more token.
pub open spec fn advanced<F: CommandCall>(a: Parser<F>, b: Parser<F>) -> bool {
    &&& b.lexer.text() == a.lexer.text()
    &&& (b.current_token.token_type, b.current_token.value@, b.lexer.pos()) == lex_step(
        a.lexer.text(),
        a.lexer.pos(),
        a.lexer.last(),
        a.commands_handler.commands@,
    )
    &&& b.lexer.last() == b.current_token.token_type
    &&& b.suspended@ == a.suspended@
    &&& b.pushes == a.pushes
    &&& b.commands_handler == a.commands_handler
    &&& b.output@ == a.output@
    &&& b.commands_funcs.funcs() == a.commands_funcs.funcs()
}

/// `b` is `a` after alias expansion of `text`: the active context is
/// suspended and a fresh one reads `text`; once `ALIAS_MAX_CALLS` contexts
/// have been pushed, the expansion is abandoned instead and the outermost
/// context resumes.
pub open spec fn expanded<F: CommandCall>(a: Parser<F>, b: Parser<F>, text: Seq<char>) -> bool {
    &&& b.current_token == a.current_token
    &&& b.commands_handler == a.commands_handler
    &&& b.output@ == a.output@
    &&& b.commands_funcs.funcs() == a.commands_funcs.funcs()
    &&& if a.pushes < ALIAS_MAX_CALLS {
        &&& b.pushes == a.pushes + 1
        &&& b.suspended@ == a.suspended@.push(a.lexer)
        &&& b.lexer.text() == text
        &&& b.lexer.pos() == 0
        &&& b.lexer.last() == TokenType::NOTHING
    } else {
        &&& b.pushes == a.pushes
        &&& b.suspended@.len() == 0
        &&& b.lexer == if a.suspended@.len() > 0 {
            a.suspended@[0]
        } else {
            a.lexer
        }
    }
}

/// `b` is `a` after an unknown word: it is reported and the rest of its
/// statement is skipped.
pub open spec fn unknown_skipped<F: CommandCall>(a: Parser<F>, b: Parser<F>) -> bool {
    &&& b.output@ == a.output@ + unknown_command_text(a.current_token.value@)
    &&& b.commands_handler == a.commands_handler
    &&& b.suspended@ == a.suspended@
    &&& b.pushes == a.pushes
    &&& b.commands_funcs.funcs() == a.commands_funcs.funcs()
    &&& b.lexer.text() == a.lexer.text()
    &&& b.lexer.last() == b.current_token.token_type
    &&& (b.current_token.token_type, b.current_token.value@, b.lexer.pos()) == skip_to_end(
        a.lexer.text(),
        a.lexer.pos(),
        a.lexer.last(),
        a.commands_handler.commands@,
    )
}

/// `b` is `a` after a command token whose command is not registered: it is
/// reported and nothing else changes.
pub open spec fn command_missing<F: CommandCall>(a: Parser<F>, b: Parser<F>) -> bool {
    &&& !has_command(a.commands_handler.commands@, a.current_token.value@)
    &&& b.output@ == a.output@ + unknown_command_text(a.current_token.value@)
    &&& b.commands_handler == a.commands_handler
    &&& b.lexer == a.lexer
    &&& b.current_token == a.current_token
    &&& b.suspended@ == a.suspended@
    &&& b.pushes == a.pushes
    &&& b.commands_funcs.funcs() == a.commands_funcs.funcs()
}

/// `b` is `a` after the statement of command `c`: the arguments `collected`
/// are read up to the end of the statement, coerced to `args`, checked
/// against the arity bounds, and either the usage is reported or the
/// handler runs.
pub open spec fn command_ran<F: CommandCall>(
    a: Parser<F>,
    b: Parser<F>,
    c: Command,
    collected: Seq<String>,
    args: Seq<String>,
) -> bool {
    let h0 = a.commands_handler;
    let h1 = b.commands_handler;
    let (k, t, e) = lex_step(a.lexer.text(), a.lexer.pos(), a.lexer.last(), h0.commands@);
    &&& exists|i: int| 0 <= i < h0.commands@.len() && h0.commands@[i] == c
    &&& c.name@ == a.current_token.value@
    &&& texts(collected) == statement_arguments(k, t, a.lexer.text(), e, h0.commands@, h0.vars())
    &&& if c.max_args == 1 && collected.len() > 0 {
        args.len() == 1 && args[0]@ == join_words(collected)
    } else {
        args == collected
    }
    &&& if !arity_ok(args.len() as int, c.min_args, c.max_args) {
        h1 == h0 && b.output@ == a.output@ + usage_text(c.name@, c.usage@) + if args.len() > 0 {
            range_text(c.min_args, c.max_args, args.len())
        } else {
            Seq::empty()
        }
    } else if c.func_idx < a.commands_funcs.funcs().len() {
        a.commands_funcs.funcs()[c.func_idx as int].post(
            h0,
            h1,
            args,
            a.output@,
            b.output@,
        )
    } else {
        unchanged(h0, h1) && b.output@ == a.output@
    }
    &&& b.suspended@ == a.suspended@
    &&& b.pushes == a.pushes
    &&& b.commands_funcs.funcs() == a.commands_funcs.funcs()
    &&& b.lexer.text() == a.lexer.text()
    &&& b.lexer.last() == b.current_token.token_type
    &&& (b.current_token.token_type, b.current_token.value@, b.lexer.pos()) == skip_to_end(
        a.lexer.text(),
        a.lexer.pos(),
        a.lexer.last(),
        h0.commands@,
    )
}

/// What the statement loop does with the current token of `a`, before it
/// reads the next one: a token whose text names a variable is expanded as an
/// alias; a command token runs its statement; any other word is reported as
/// unknown with the rest of its statement; other tokens are passed over.
pub open spec fn statement_branch<F: CommandCall>(a: Parser<F>, b: Parser<F>) -> bool {
    let vars = a.commands_handler.vars();
    let name = a.current_token.value@;
    if vars.dom().contains(name) {
        expanded(a, b, vars[name])
    } else if a.current_token.token_type == TokenType::COMMAND {
        command_missing(a, b) || exists|c: Command, collected: Seq<String>, args: Seq<String>|
            #[trigger] command_ran(a, b, c, collected, args)
    } else if a.current_token.token_type == TokenType::STRING {
        unknown_skipped(a, b)
    } else {
        b == a
    }
}

/// A command whose bounds are both one: given no argument, its handler does
/// not run, the registry is unchanged and only its usage is written; given
/// two or more, they reach it joined as one.
pub proof fn lemma_single_argument_command<F: CommandCall>(
    a: Parser<F>,
    b: Parser<F>,
    c: Command,
    collected: Seq<String>,
    args: Seq<String>,
)
    requires
        command_ran(a, b, c, collected, args),
        c.min_args == 1,
        c.max_args == 1,
    ensures
        collected.len() == 0 ==> b.registry() == a.registry() && b.output_text() == a.output_text()
            + usage_text(c.name@, c.usage@),
        collected.len() >= 2 ==> args.len() == 1 && args[0]@ == join_words(collected),
        arity_ok(args.len() as int, c.min_args, c.max_args) <==> collected.len() > 0,
{
    if collected.len() == 0 {
        assert(a.output@ + usage_text(c.name@, c.usage@) + Seq::<char>::empty() =~= a.output@
            + usage_text(c.name@, c.usage@));
    }
}

/// One turn of the statement loop: the current token is handled, then the
/// next one is read.
pub open spec fn statement_step<F: CommandCall>(a: Parser<F>, b: Parser<F>) -> bool {
    &&& a.current_token.token_type != TokenType::EOF
    &&& exists|mid: Parser<F>| #[trigger] statement_branch(a, mid) && advanced(mid, b)
}

/// The active context has ended and the most recently suspended one resumes
/// with its next token.
pub open spec fn resumed<F: CommandCall>(a: Parser<F>, b: Parser<F>) -> bool {
    let m = a.suspended@.last();
    &&& a.current_token.token_type == TokenType::EOF
    &&& a.suspended@.len() > 0
    &&& b.suspended@ == a.suspended@.drop_last()
    &&& b.lexer.text() == m.text()
    &&& (b.current_token.token_type, b.current_token.value@, b.lexer.pos()) == lex_step(
        m.text(),
        m.pos(),
        m.last(),
        a.commands_handler.commands@,
    )
    &&& b.lexer.last() == b.current_token.token_type
    &&& b.pushes == a.pushes
    &&& b.commands_handler == a.commands_handler
    &&& b.output@ == a.output@
    &&& b.commands_funcs.funcs() == a.commands_funcs.funcs()
}

/// `p` is a parser that has read nothing yet of `input`, with registry `h`,
/// the handlers `funcs`, no suspended context and no output.
pub open spec fn fresh<F: CommandCall>(p: Parser<F>, h: CommandsHandler, funcs: Seq<F>, input: Seq<char>) -> bool {
    &&& p.lexer.text() == input
    &&& p.lexer.pos() == 0
    &&& p.lexer.last() == TokenType::NOTHING
    &&& p.current_token.token_type == TokenType::NOTHING
    &&& p.current_token.value@ == Seq::<char>::empty()
    &&& p.suspended@.len() == 0
    &&& p.pushes == 0
    &&& p.commands_handler == h
    &&& p.commands_funcs.funcs() == funcs
    &&& p.output@ == Seq::<char>::empty()
}

/// Each state of `trace` follows from the one before by a turn of the
/// statement loop or by resuming a suspended context.
pub open spec fn is_run<F: CommandCall>(trace: Seq<Parser<F>>) -> bool {
    &&& trace.len() >= 1
    &&& forall|i: int|
        0 <= i < trace.len() - 1 ==> #[trigger] statement_step(trace[i], trace[i + 1]) || resumed(
            trace[i],
            trace[i + 1],
        )
}

proof fn lemma_run_extend<F: CommandCall>(trace: Seq<Parser<F>>, x: Parser<F>)
    requires
        is_run(trace),
        statement_step(trace.last(), x) || resumed(trace.last(), x),
    ensures
        is_run(trace.push(x)),
        trace.push(x)[0] == trace[0],
        trace.push(x).last() == x,
{
    let t = trace.push(x);
    assert forall|i: int| 0 <= i < t.len() - 1 implies #[trigger] statement_step(t[i], t[i + 1])
        || resumed(t[i], t[i + 1]) by {
        if i < trace.len() - 1 {
            assert(t[i] == trace[i] && t[i + 1] == trace[i + 1]);
        } else {
            assert(t[i] == trace.last() && t[i + 1] == x);
        }
    }
}

impl<F: CommandCall> Parser<F> {
    pub open spec fn wf(&self) -> bool {
        &&& self.lexer.wf()
        &&& forall|i: int| 0 <= i < self.suspended@.len() ==> (#[trigger] self.suspended@[i]).wf()
        &&& self.commands_handler.wf()
        &&& self.pushes <= ALIAS_MAX_CALLS
    }

    /// The registry.
    pub open spec fn registry(&self) -> CommandsHandler {
        self.commands_handler
    }

    /// The output written so far.
    pub open spec fn output_text(&self) -> Seq<char> {
        self.output@
    }

    /// All input, with every alias expansion, has been read.
    pub open spec fn finished(&self) -> bool {
        self.current_token.token_type == TokenType::EOF && self.suspended@.len() == 0
    }

    /// Twice the characters left in all contexts, plus one while the current
    /// token is not the end of input.
    pub open spec fn measure(&self) -> nat {
        2 * (total_remaining(self.suspended@) + self.lexer.remaining()) + if self.current_token.token_type
            == TokenType::EOF {
            0nat
        } else {
            1nat
        }
    }

    /// The contexts, the push count and the dispatch table are as in `o`.
    pub open spec fn frames_kept(&self, o: &Parser<F>) -> bool {
        self.suspended@ == o.suspended@ && self.pushes == o.pushes && self.commands_funcs.funcs()
            == o.commands_funcs.funcs()
    }

    pub fn new(lexer: Lexer, commands_handler: CommandsHandler, commands_funcs: CommandsFuncs<F>) -> (r: Self)
        requires
            lexer.wf(),
            commands_handler.wf(),
        ensures
            r.wf(),
            r.registry() == commands_handler,
            r.output_text() == Seq::<char>::empty(),
            lexer.pos() == 0 && lexer.last() == TokenType::NOTHING ==> fresh(
                r,
                commands_handler,
                commands_funcs.funcs(),
                lexer.text(),
            ),
    {
        Parser {
            lexer,
            suspended: Vec::new(),
            current_token: Token::new(TokenType::NOTHING, String::new()),
            commands_handler,
            commands_funcs,
            output: String::new(),
            pushes: 0,
        }
    }

    /// The registry.
    pub fn commands_handler(&self) -> (r: &CommandsHandler)
        ensures
            *r == self.registry(),
    {
        &self.commands_handler
    }

    /// The output written so far.
    pub fn output(&self) -> (r: &str)
        ensures
            r@ == self.output_text(),
    {
        self.output.as_str()
    }

    /// Runs the statement loop until all input, with every alias expansion,
    /// has been read: there is a run of loop turns and resumptions from the
    /// old state to the final one. It always terminates: alias expansion
    /// pushes at most `ALIAS_MAX_CALLS` contexts.
    pub fn parse(&mut self)
        requires
            old(self).wf(),
        ensures
            final(self).wf(),
            final(self).finished(),
            exists|trace: Seq<Parser<F>>|
                #[trigger] is_run(trace) && trace[0] == *old(self) && trace.last() == *final(self),
    {
        let ghost mut trace: Seq<Parser<F>> = seq![*self];
        while !(self.current_token.token_type == TokenType::EOF && self.suspended.len() == 0)
            invariant
                self.wf(),
                is_run(trace),
                trace[0] == *old(self),
                trace.last() == *self,
            decreases ALIAS_MAX_CALLS - self.pushes, self.measure(), self.suspended@.len(),
        {
            let ghost a = *self;
            if self.current_token.token_type == TokenType::EOF {
                let ghost s = self.suspended@;
                match self.suspended.pop() {
                    Some(previous) => {
                        self.lexer = previous;
                        proof {
                            assert(self.suspended@ == s.drop_last());
                        }
                    },
                    None => {},
                }
                self.advance();
                proof {
                    assert(resumed(a, *self));
                    lemma_run_extend(trace, *self);
                    trace = trace.push(*self);
                }
            } else {
                let variable_value = self.get_variable_from_current_token_value();
                if let Some(alias_text) = variable_value {
                    self.handle_alias_lexer(alias_text.as_str());
                    assert(expanded(a, *self, a.commands_handler.vars()[a.current_token.value@]));
                } else if self.current_token.token_type == TokenType::COMMAND {
                    let outcome = self.handle_command_token();
                    proof {
                        if outcome@ is Some {
                            let (c, collected, args) = outcome@->0;
                            assert(command_ran(a, *self, c, collected, args));
                        }
                    }
                } else if self.current_token.token_type == TokenType::STRING {
                    print_unknown_command(&mut self.output, self.current_token.value());
                    let ends = [TokenType::EOS];
                    assert(ends@ == seq![TokenType::EOS]);
                    self.advance_until(&ends);
                    assert(unknown_skipped(a, *self));
                } else {
                    assert(*self == a);
                }
                let ghost mid = *self;
                assert(statement_branch(a, mid));
                self.advance();
                proof {
                    assert(advanced(mid, *self));
                    assert(statement_step(a, *self));
                    lemma_run_extend(trace, *self);
                    trace = trace.push(*self);
                }
            }
        }
    }

    /// The value of the variable named by the current token's text, if
    /// there is one.
    fn get_variable_from_current_token_value(&self) -> (r: Option<String>)
        ensures
            r.is_some() == self.commands_handler.vars().dom().contains(self.current_token.value@),
            r.is_some() ==> r.unwrap()@ == self.commands_handler.vars()[self.current_token.value@],
    {
        self.commands_handler.get_variable(self.current_token.value())
    }

    /// Reads the next token of the active context.
    fn advance(&mut self)
        requires
            old(self).wf(),
        ensures
            final(self).wf(),
            final(self).frames_kept(old(self)),
            final(self).commands_handler == old(self).commands_handler,
            final(self).output@ == old(self).output@,
            final(self).measure() <= old(self).measure(),
            old(self).current_token.token_type != TokenType::EOF ==> final(self).measure() < old(self).measure(),
            final(self).lexer.text() == old(self).lexer.text(),
            final(self).lexer.last() == final(self).current_token.token_type,
            (final(self).current_token.token_type, final(self).current_token.value@, final(self).lexer.pos())
                == lex_step(
                old(self).lexer.text(),
                old(self).lexer.pos(),
                old(self).lexer.last(),
                old(self).commands_handler.commands@,
            ),
    {
        self.current_token = self.lexer.next_token(&self.commands_handler);
    }

    /// Reads tokens until one of a kind in `token_types`, or the end of the
    /// active context; the current token is always skipped.
    fn advance_until(&mut self, token_types: &[TokenType])
        requires
            old(self).wf(),
            old(self).current_token.token_type != TokenType::EOF,
        ensures
            final(self).wf(),
            final(self).frames_kept(old(self)),
            final(self).commands_handler == old(self).commands_handler,
            final(self).output@ == old(self).output@,
            final(self).measure() < old(self).measure(),
            final(self).current_token.token_type == TokenType::EOF || token_types@.contains(
                final(self).current_token.token_type,
            ),
            final(self).lexer.text() == old(self).lexer.text(),
            final(self).lexer.last() == final(self).current_token.token_type,
            token_types@ == seq![TokenType::EOS] ==> (final(self).current_token.token_type, final(self).current_token.value@, final(self).lexer.pos())
                == skip_to_end(
                old(self).lexer.text(),
                old(self).lexer.pos(),
                old(self).lexer.last(),
                old(self).commands_handler.commands@,
            ),
    {
        let ghost cmds = self.commands_handler.commands@;
        let ghost target = skip_to_end(self.lexer.text(), self.lexer.pos(), self.lexer.last(), cmds);
        let ghost l0 = self.lexer;
        proof {
            self.lexer.lemma_cursor_in_input();
        }
        self.advance();
        proof {
            self.lexer.lemma_cursor_in_input();
            l0.lemma_cursor_in_input();
            let (k, t, e) = lex_step(l0.text(), l0.pos(), l0.last(), cmds);
            assert((self.current_token.token_type, self.current_token.value@, self.lexer.pos()) == (k, t, e));
            if !(k == TokenType::EOF || k == TokenType::EOS) {
                assert(target == skip_to_end(l0.text(), e, k, cmds));
            }
        }
        while !kind_in(token_types, self.current_token.token_type) && self.current_token.token_type
            != TokenType::EOF
            invariant
                self.wf(),
                self.frames_kept(old(self)),
                self.commands_handler == old(self).commands_handler,
                self.output@ == old(self).output@,
                self.measure() < old(self).measure(),
                self.lexer.text() == old(self).lexer.text(),
                self.lexer.last() == self.current_token.token_type,
                cmds == self.commands_handler.commands@,
                token_types@ == seq![TokenType::EOS] ==> if self.current_token.token_type == TokenType::EOF
                    || self.current_token.token_type == TokenType::EOS {
                    (self.current_token.token_type, self.current_token.value@, self.lexer.pos()) == target
                } else {
                    target == skip_to_end(self.lexer.text(), self.lexer.pos(), self.lexer.last(), cmds)
                },
            decreases self.measure(),
        {
            proof {
                self.lexer.lemma_cursor_in_input();
                if token_types@ == seq![TokenType::EOS] {
                    assert(token_types@[0] == TokenType::EOS);
                    assert(token_types@.contains(TokenType::EOS));
                }
            }
            let ghost l1 = self.lexer;
            self.advance();
            proof {
                self.lexer.lemma_cursor_in_input();
                l1.lemma_cursor_in_input();
                if token_types@ == seq![TokenType::EOS] {
                    let (k, t, e) = lex_step(l1.text(), l1.pos(), l1.last(), cmds);
                    if !(k == TokenType::EOF || k == TokenType::EOS) {
                        assert(target == skip_to_end(l1.text(), e, k, cmds));
                    }
                }
            }
        }
        proof {
            if token_types@ == seq![TokenType::EOS] && self.current_token.token_type != TokenType::EOF {
                let i = choose|i: int| 0 <= i < token_types@.len() && token_types@[i] == self.current_token.token_type;
                assert(self.current_token.token_type == TokenType::EOS);
            }
        }
    }

    /// The argument that the current token gives.
    fn argument_value(&self) -> (r: String)
        ensures
            r@ == token_argument(
                self.current_token.token_type,
                self.current_token.value@,
                self.commands_handler.vars(),
            ),
    {
        let text = self.current_token.value();
        if self.current_token.token_type == TokenType::VARIABLE {
            let n = text.unicode_len();
            if n > 0 {
                let name = text.substring_char(1, n);
                assert(name@ =~= text@.drop_first());
                if let Some(value) = self.commands_handler.get_variable(name) {
                    return value;
                }
            }
        }
        String::from_str(text)
    }

    /// Collects the arguments of a statement, up to its end.
    fn get_arguments(&mut self) -> (r: Vec<String>)
        requires
            old(self).wf(),
            old(self).lexer.last() == old(self).current_token.token_type,
        ensures
            final(self).wf(),
            final(self).frames_kept(old(self)),
            final(self).commands_handler == old(self).commands_handler,
            final(self).output@ == old(self).output@,
            final(self).measure() <= old(self).measure(),
            final(self).current_token.token_type == TokenType::EOF
                || final(self).current_token.token_type == TokenType::EOS,
            texts(r@) == statement_arguments(
                old(self).current_token.token_type,
                old(self).current_token.value@,
                old(self).lexer.text(),
                old(self).lexer.pos(),
                old(self).commands_handler.commands@,
                old(self).commands_handler.vars(),
            ),
            final(self).lexer.text() == old(self).lexer.text(),
            final(self).lexer.last() == final(self).current_token.token_type,
            (final(self).current_token.token_type, final(self).current_token.value@, final(self).lexer.pos())
                == if old(self).current_token.token_type == TokenType::EOF
                || old(self).current_token.token_type == TokenType::EOS {
                (old(self).current_token.token_type, old(self).current_token.value@, old(self).lexer.pos())
            } else {
                skip_to_end(
                    old(self).lexer.text(),
                    old(self).lexer.pos(),
                    old(self).lexer.last(),
                    old(self).commands_handler.commands@,
                )
            },
    {
        let ghost target = if self.current_token.token_type == TokenType::EOF
            || self.current_token.token_type == TokenType::EOS {
            (self.current_token.token_type, self.current_token.value@, self.lexer.pos())
        } else {
            skip_to_end(self.lexer.text(), self.lexer.pos(), self.lexer.last(), self.commands_handler.commands@)
        };
        let ghost total = statement_arguments(
            self.current_token.token_type,
            self.current_token.value@,
            self.lexer.text(),
            self.lexer.pos(),
            self.commands_handler.commands@,
            self.commands_handler.vars(),
        );
        let mut arguments: Vec<String> = Vec::new();
        proof {
            assert(texts(arguments@) =~= Seq::<Seq<char>>::empty());
            assert(total =~= texts(arguments@) + total);
        }
        while self.current_token.token_type != TokenType::EOF && self.current_token.token_type
            != TokenType::EOS
            invariant
                self.wf(),
                self.frames_kept(old(self)),
                self.commands_handler == old(self).commands_handler,
                self.output@ == old(self).output@,
                self.measure() <= old(self).measure(),
                self.lexer.text() == old(self).lexer.text(),
                self.lexer.last() == self.current_token.token_type,
                if self.current_token.token_type == TokenType::EOF
                    || self.current_token.token_type == TokenType::EOS {
                    (self.current_token.token_type, self.current_token.value@, self.lexer.pos()) == target
                } else {
                    target == skip_to_end(
                        self.lexer.text(),
                        self.lexer.pos(),
                        self.lexer.last(),
                        self.commands_handler.commands@,
                    )
                },
                total == texts(arguments@) + statement_arguments(
                    self.current_token.token_type,
                    self.current_token.value@,
                    self.lexer.text(),
                    self.lexer.pos(),
                    self.commands_handler.commands@,
                    self.commands_handler.vars(),
                ),
            decreases self.measure(),
        {
            let ghost before = arguments@;
            let ghost kind = self.current_token.token_type;
            let ghost text = self.current_token.value@;
            let ghost rest = statement_arguments(
                kind,
                text,
                self.lexer.text(),
                self.lexer.pos(),
                self.commands_handler.commands@,
                self.commands_handler.vars(),
            );
            proof {
                self.lexer.lemma_cursor_in_input();
            }
            let argument = self.argument_value();
            arguments.push(argument);
            self.advance();
            proof {
                self.lexer.lemma_cursor_in_input();
                let tail = statement_arguments(
                    self.current_token.token_type,
                    self.current_token.value@,
                    self.lexer.text(),
                    self.lexer.pos(),
                    self.commands_handler.commands@,
                    self.commands_handler.vars(),
                );
                assert(rest == seq![token_argument(kind, text, self.commands_handler.vars())] + tail);
                assert(texts(arguments@) =~= texts(before).push(
                    token_argument(kind, text, self.commands_handler.vars()),
                ));
                assert(total =~= texts(arguments@) + tail);
            }
        }
        proof {
            self.lexer.lemma_cursor_in_input();
            assert(total =~= texts(arguments@));
        }
        arguments
    }

    /// Handles a statement that starts with a command: looks the command up,
    /// collects and coerces its arguments, checks their count and runs its
    /// handler. Returns the command, the arguments collected for it and the
    /// arguments it was given after coercion.
    pub fn handle_command_token(&mut self) -> (r: Ghost<Option<(Command, Seq<String>, Seq<String>)>>)
        requires
            old(self).wf(),
            old(self).current_token.token_type != TokenType::EOF,
        ensures
            final(self).wf(),
            final(self).frames_kept(old(self)),
            final(self).measure() <= old(self).measure(),
            final(self).current_token.token_type == TokenType::EOF ==> final(self).measure() < old(self).measure(),
            r@ is None <==> !has_command(
                old(self).commands_handler.commands@,
                old(self).current_token.value@,
            ),
            r@ is None ==> command_missing(*old(self), *final(self)),
            r@ is Some ==> ({
                let (c, collected, args) = r@->0;
                command_ran(*old(self), *final(self), c, collected, args)
            }),
    {
        let command = match self.commands_handler.get(
            self.current_token.value(),
            true,
            &mut self.output,
        ) {
            Some(c) => c,
            None => {
                return Ghost(None);
            },
        };
        let ghost l0 = self.lexer;
        proof {
            self.lexer.lemma_cursor_in_input();
        }
        self.advance();
        proof {
            self.lexer.lemma_cursor_in_input();
            let (k, t, e) = lex_step(l0.text(), l0.pos(), l0.last(), self.commands_handler.commands@);
            if !(k == TokenType::EOF || k == TokenType::EOS) {
                assert(skip_to_end(l0.text(), l0.pos(), l0.last(), self.commands_handler.commands@)
                    == skip_to_end(l0.text(), e, k, self.commands_handler.commands@));
            }
        }
        let collected = self.get_arguments();
        let ghost gathered = collected@;
        let arguments = coerce_arguments(collected, command.max_args);
        let ghost args = arguments@;
        let ghost o0 = self.output@;
        if !arguments_fit(arguments.len(), command.min_args, command.max_args) {
            print_command_usage(&mut self.output, command.name.as_str(), command.usage.as_str());
            if arguments.len() > 0 {
                report_range(&mut self.output, command.min_args, command.max_args, arguments.len());
            } else {
                assert(self.output@ =~= self.output@ + Seq::<char>::empty());
            }
            return Ghost(Some((*command, gathered, args)));
        }
        let ghost c = *command;
        self.commands_funcs.call(&mut self.commands_handler, command, arguments, &mut self.output);
        Ghost(Some((c, gathered, args)))
    }

    /// Expands an alias whose text is `input`: suspends the active context
    /// and reads `input` in a fresh one. Once `ALIAS_MAX_CALLS` contexts have
    /// been pushed, it abandons the expansion instead and resumes the
    /// outermost context.
    pub fn handle_alias_lexer(&mut self, input: &str)
        requires
            old(self).wf(),
            old(self).current_token.token_type != TokenType::EOF,
        ensures
            final(self).wf(),
            expanded(*old(self), *final(self), input@),
            old(self).pushes >= ALIAS_MAX_CALLS ==> final(self).measure() <= old(self).measure(),
    {
        if self.pushes < ALIAS_MAX_CALLS {
            let mut context = Lexer::new(String::from_str(input));
            std::mem::swap(&mut self.lexer, &mut context);
            let ghost s = self.suspended@;
            self.suspended.push(context);
            self.pushes += 1;
            proof {
                assert(self.suspended@.drop_last() =~= s);
            }
        } else {
            while self.suspended.len() > 1
                invariant
                    self.wf(),
                    self.commands_handler == old(self).commands_handler,
                    self.output@ == old(self).output@,
                    self.commands_funcs.funcs() == old(self).commands_funcs.funcs(),
                    self.current_token == old(self).current_token,
                    self.pushes == old(self).pushes,
                    self.lexer == old(self).lexer,
                    self.measure() <= old(self).measure(),
                    self.suspended@.len() <= old(self).suspended@.len(),
                    self.suspended@ == old(self).suspended@.subrange(0, self.suspended@.len() as int),
                    old(self).suspended@.len() > 0 ==> self.suspended@.len() > 0,
                decreases self.suspended@.len(),
            {
                let ghost s = self.suspended@;
                let _ = self.suspended.pop();
                assert(self.suspended@ == s.drop_last());
                assert(self.suspended@ =~= old(self).suspended@.subrange(0, self.suspended@.len() as int));
            }
            let ghost s = self.suspended@;
            match self.suspended.pop() {
                Some(outermost) => {
                    self.lexer = outermost;
                    assert(self.suspended@ == s.drop_last());
                    assert(s[0] == old(self).suspended@[0]);
                },
                None => {},
            }
        }
    }
}

} // verus!
