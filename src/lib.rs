use vstd::prelude::*;

pub mod command;
pub mod lexer;
pub mod number;
pub mod output;
pub mod parser;
pub mod token;

use crate::command::{base_func, is_base_command, BaseFunc, CommandCall, CommandsFuncs, CommandsHandler};
use crate::lexer::Lexer;
use crate::parser::{fresh, is_run, Parser};

verus! {

/// A registry holding the built-in commands and no variables, with their
/// handlers in a dispatch table.
pub fn init() -> (r: (CommandsHandler, CommandsFuncs<BaseFunc>))
    ensures
        r.0.wf(),
        r.0.commands@.len() == 6,
        forall|i: int| 0 <= i < 6 ==> is_base_command(#[trigger] r.0.commands@[i], i),
        r.0.vars() == Map::<Seq<char>, Seq<char>>::empty(),
        r.1.funcs().len() == 6,
        forall|i: int| 0 <= i < 6 ==> #[trigger] r.1.funcs()[i] == base_func(i),
{
    let mut commands_handler = CommandsHandler::new();
    let mut commands_funcs = CommandsFuncs::new();
    command::init_base_commands(&mut commands_handler, &mut commands_funcs);
    proof {
        assert forall|i: int| 0 <= i < 6 implies #[trigger] commands_funcs.funcs()[i] == base_func(i) by {
            assert(commands_funcs.funcs()[0 + i] == base_func(i));
        }
    }
    (commands_handler, commands_funcs)
}

/// Runs `input` against the registry and the dispatch table, and returns
/// all that it wrote: the output of a finished run of the statement loop
/// from a fresh parser over `input`.
pub fn parse<F: CommandCall>(commands_handler: CommandsHandler, commands_funcs: CommandsFuncs<F>, input: String) -> (r: String)
    requires
        commands_handler.wf(),
    ensures
        exists|trace: Seq<Parser<F>>|
            #[trigger] is_run(trace) && fresh(trace[0], commands_handler, commands_funcs.funcs(), input@)
                && trace.last().finished() && trace.last().output_text() == r@,
{
    let ghost h = commands_handler;
    let ghost funcs = commands_funcs.funcs();
    let ghost text = input@;
    let lexer = Lexer::new(input);
    let mut parser_var = Parser::new(lexer, commands_handler, commands_funcs);
    let ghost start = parser_var;
    parser_var.parse();
    let r = String::from_str(parser_var.output());
    proof {
        let trace = choose|trace: Seq<Parser<F>>|
            #[trigger] is_run(trace) && trace[0] == start && trace.last() == parser_var;
        assert(is_run(trace) && fresh(trace[0], h, funcs, text) && trace.last().finished()
            && trace.last().output_text() == r@);
    }
    r
}

} // verus!
