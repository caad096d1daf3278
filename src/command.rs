use vstd::prelude::*;

use crate::lexer::{is_space, is_whitespace};
use crate::number::{int_text, number_of, number_text, parse_number};
use crate::output::{
    decimal, decimal_string, print, print_command_usage, print_unknown_command,
    unknown_command_text, usage_text,
};

verus! {

/// A command's metadata: its name, the index of its handler in the
/// dispatch table, its arity bounds and its usage text.
#[derive(Clone)]
pub struct Command {
    pub name: String,
    pub func_idx: usize,
    pub min_args: u8,
    pub max_args: u8,
    pub usage: String,
}

impl Command {
    pub fn new(name: &str, func_idx: usize, min_args: u8, max_args: u8, usage: &str) -> (r: Self)
        ensures
            r.name@ == name@,
            r.func_idx == func_idx,
            r.min_args == min_args,
            r.max_args == max_args,
            r.usage@ == usage@,
    {
        Command {
            name: String::from_str(name),
            func_idx,
            min_args,
            max_args,
            usage: String::from_str(usage),
        }
    }

    /// A copy of this command, field for field.
    pub fn duplicate(&self) -> (r: Self)
        ensures
            r == *self,
    {
        Command {
            name: self.name.clone(),
            func_idx: self.func_idx,
            min_args: self.min_args,
            max_args: self.max_args,
            usage: self.usage.clone(),
        }
    }
}

/// Whether some command of `cmds` is called `name`.
pub open spec fn has_command(cmds: Seq<Command>, name: Seq<char>) -> bool {
    exists|i: int| 0 <= i < cmds.len() && #[trigger] cmds[i].name@ == name
}

/// `cmds` after registering `c`: unchanged when a command of that name is
/// there already, else with `c` appended.
pub open spec fn registered(cmds: Seq<Command>, c: Command) -> Seq<Command> {
    if has_command(cmds, c.name@) {
        cmds
    } else {
        cmds.push(c)
    }
}

/// No two commands of `cmds` share a name.
pub open spec fn names_unique(cmds: Seq<Command>) -> bool {
    forall|i: int, j: int|
        0 <= i < cmds.len() && 0 <= j < cmds.len() && i != j ==> #[trigger] cmds[i].name@
            != #[trigger] cmds[j].name@
}

/// No two pairs of `s` share a name.
pub open spec fn keys_unique(s: Seq<(String, String)>) -> bool {
    forall|i: int, j: int|
        0 <= i < s.len() && 0 <= j < s.len() && i != j ==> #[trigger] s[i].0@ != #[trigger] s[j].0@
}

/// The variables that a list of (name, value) pairs defines; a later pair
/// overrides an earlier one of the same name.
pub open spec fn var_map(s: Seq<(String, String)>) -> Map<Seq<char>, Seq<char>>
    decreases s.len(),
{
    if s.len() == 0 {
        Map::empty()
    } else {
        var_map(s.drop_last()).insert(s.last().0@, s.last().1@)
    }
}

/// Pairs after index `i` that do not bind `key` leave its binding to the prefix.
proof fn lemma_var_map_prefix(s: Seq<(String, String)>, i: int, key: Seq<char>)
    requires
        0 <= i <= s.len(),
        forall|j: int| i <= j < s.len() ==> (#[trigger] s[j]).0@ != key,
    ensures
        var_map(s.subrange(0, i)).dom().contains(key) == var_map(s).dom().contains(key),
        var_map(s).dom().contains(key) ==> var_map(s.subrange(0, i))[key] == var_map(s)[key],
    decreases s.len() - i,
{
    if i < s.len() {
        lemma_var_map_prefix(s, i + 1, key);
        assert(s.subrange(0, i + 1).drop_last() =~= s.subrange(0, i));
    } else {
        assert(s.subrange(0, i) =~= s);
    }
}

/// The names that pairs of `s` bind are its variables; with unique names
/// there are as many variables as pairs.
proof fn lemma_var_map_dom(s: Seq<(String, String)>)
    requires
        keys_unique(s),
    ensures
        forall|k: Seq<char>|
            var_map(s).dom().contains(k) <==> exists|i: int| 0 <= i < s.len() && #[trigger] s[i].0@ == k,
        var_map(s).dom().finite(),
        var_map(s).dom().len() == s.len(),
    decreases s.len(),
{
    if s.len() == 0 {
        assert(var_map(s).dom() =~= Set::<Seq<char>>::empty());
    } else {
        let t = s.drop_last();
        assert forall|i: int, j: int| 0 <= i < t.len() && 0 <= j < t.len() && i != j implies #[trigger] t[i].0@
            != #[trigger] t[j].0@ by {
            assert(t[i] == s[i] && t[j] == s[j]);
        }
        lemma_var_map_dom(t);
        let k = s.last().0@;
        if var_map(t).dom().contains(k) {
            let i = choose|i: int| 0 <= i < t.len() && #[trigger] t[i].0@ == k;
            assert(s[i] == t[i]);
            assert(s[i].0@ != s[s.len() - 1].0@);
        }
        assert(var_map(s).dom() =~= var_map(t).dom().insert(k));
        assert forall|k2: Seq<char>|
            var_map(s).dom().contains(k2) <==> exists|i: int| 0 <= i < s.len() && #[trigger] s[i].0@ == k2 by {
            if var_map(s).dom().contains(k2) {
                if k2 == k {
                    assert(s[s.len() - 1].0@ == k2);
                } else {
                    let i = choose|i: int| 0 <= i < t.len() && #[trigger] t[i].0@ == k2;
                    assert(s[i] == t[i]);
                }
            }
            if exists|i: int| 0 <= i < s.len() && #[trigger] s[i].0@ == k2 {
                let i = choose|i: int| 0 <= i < s.len() && #[trigger] s[i].0@ == k2;
                if i < t.len() {
                    assert(t[i] == s[i]);
                }
            }
        }
    }
}

/// The registry: the registered commands and the variable store.
#[derive(Clone)]
pub struct CommandsHandler {
    pub commands: Vec<Command>,
    pub variables: Vec<(String, String)>,
}

impl CommandsHandler {
    /// Command names are unique, and so are variable names.
    pub open spec fn wf(&self) -> bool {
        names_unique(self.commands@) && keys_unique(self.variables@)
    }

    /// Every pair holds a distinct variable: there are as many variables as
    /// pairs, so the listing shows each variable once.
    pub proof fn lemma_variable_count(&self)
        requires
            self.wf(),
        ensures
            self.vars().dom().finite(),
            self.vars().dom().len() == self.variables@.len(),
    {
        lemma_var_map_dom(self.variables@);
    }

    /// The variables, as a map from name to value.
    pub open spec fn vars(&self) -> Map<Seq<char>, Seq<char>> {
        var_map(self.variables@)
    }

    pub fn new() -> (r: Self)
        ensures
            r.wf(),
            r.commands@.len() == 0,
            r.variables@.len() == 0,
            r.vars() == Map::<Seq<char>, Seq<char>>::empty(),
    {
        CommandsHandler { commands: Vec::new(), variables: Vec::new() }
    }

    /// Deletes the command called `command_name`, if there is one.
    pub fn delete(&mut self, command_name: &str) -> (r: bool)
        requires
            old(self).wf(),
        ensures
            final(self).wf(),
            r == has_command(old(self).commands@, command_name@),
            r ==> exists|i: int|
                0 <= i < old(self).commands@.len() && old(self).commands@[i].name@
                    == command_name@ && final(self).commands@ == old(self).commands@.remove(i),
            !r ==> final(self).commands@ == old(self).commands@,
            final(self).variables@ == old(self).variables@,
    {
        let key = String::from_str(command_name);
        let mut i: usize = 0;
        while i < self.commands.len()
            invariant
                i <= self.commands@.len(),
                key@ == command_name@,
                self.commands@ == old(self).commands@,
                self.variables@ == old(self).variables@,
                old(self).wf(),
                forall|j: int| 0 <= j < i ==> self.commands@[j].name@ != command_name@,
            decreases self.commands@.len() - i,
        {
            if self.commands[i].name == key {
                let ghost before = self.commands@;
                self.commands.remove(i);
                assert forall|a: int, b: int|
                    0 <= a < self.commands@.len() && 0 <= b < self.commands@.len() && a != b
                        implies #[trigger] self.commands@[a].name@
                        != #[trigger] self.commands@[b].name@ by {
                    let a0 = if a < i { a } else { a + 1 };
                    let b0 = if b < i { b } else { b + 1 };
                    assert(self.commands@[a] == before[a0]);
                    assert(self.commands@[b] == before[b0]);
                }
                return true;
            }
            i += 1;
        }
        false
    }

    /// Looks a command up by name; when there is none and `print_error` is
    /// set, reports it to `out`.
    pub fn get(&self, name: &str, print_error: bool, out: &mut String) -> (r: Option<Box<Command>>)
        ensures
            r.is_some() == has_command(self.commands@, name@),
            r.is_some() ==> exists|i: int|
                0 <= i < self.commands@.len() && self.commands@[i] == *r.unwrap()
                    && self.commands@[i].name@ == name@,
            final(out)@ == if r.is_none() && print_error {
                old(out)@ + unknown_command_text(name@)
            } else {
                old(out)@
            },
    {
        let key = String::from_str(name);
        let mut i: usize = 0;
        while i < self.commands.len()
            invariant
                i <= self.commands@.len(),
                key@ == name@,
                forall|j: int| 0 <= j < i ==> self.commands@[j].name@ != name@,
            decreases self.commands@.len() - i,
        {
            if self.commands[i].name == key {
                return Some(Box::new(self.commands[i].duplicate()));
            }
            i += 1;
        }
        if print_error {
            print_unknown_command(out, name);
        }
        None
    }

    /// Whether a command with the name of `this_command` is registered.
    pub fn contains(&self, this_command: &Command) -> (r: bool)
        ensures
            r == has_command(self.commands@, this_command.name@),
    {
        let mut i: usize = 0;
        while i < self.commands.len()
            invariant
                i <= self.commands@.len(),
                forall|j: int| 0 <= j < i ==> self.commands@[j].name@ != this_command.name@,
            decreases self.commands@.len() - i,
        {
            if self.commands[i].name == this_command.name {
                return true;
            }
            i += 1;
        }
        false
    }

    /// Registers `command` unless a command of the same name exists already.
    pub fn register(&mut self, command: Command)
        requires
            old(self).wf(),
        ensures
            final(self).wf(),
            final(self).commands@ == registered(old(self).commands@, command),
            final(self).variables@ == old(self).variables@,
    {
        if self.contains(&command) {
            return ;
        }
        self.commands.push(command);
    }

    /// The value of the variable `name`, if it is defined.
    pub fn get_variable(&self, name: &str) -> (r: Option<String>)
        ensures
            r.is_some() == self.vars().dom().contains(name@),
            r.is_some() ==> r.unwrap()@ == self.vars()[name@],
    {
        let key = String::from_str(name);
        let mut i: usize = self.variables.len();
        while i > 0
            invariant
                i <= self.variables@.len(),
                key@ == name@,
                forall|j: int| i <= j < self.variables@.len() ==> (#[trigger] self.variables@[j]).0@ != name@,
            decreases i,
        {
            if self.variables[i - 1].0 == key {
                proof {
                    let s = self.variables@;
                    lemma_var_map_prefix(s, i as int, name@);
                    assert(s.subrange(0, i as int).drop_last() =~= s.subrange(0, i - 1));
                }
                return Some(self.variables[i - 1].1.clone());
            }
            i -= 1;
        }
        proof {
            lemma_var_map_prefix(self.variables@, 0, name@);
        }
        None
    }

    /// Removes the variable `name`; the others keep their values.
    pub fn remove_variable(&mut self, name: &str)
        requires
            old(self).wf(),
        ensures
            final(self).wf(),
            final(self).vars() == old(self).vars().remove(name@),
            final(self).commands@ == old(self).commands@,
            forall|m: int| 0 <= m < final(self).variables@.len() ==> (#[trigger] final(self).variables@[m]).0@ != name@,
    {
        let key = String::from_str(name);
        let mut kept: Vec<(String, String)> = Vec::new();
        let ghost mut idx: Seq<int> = Seq::empty();
        let mut i: usize = 0;
        while i < self.variables.len()
            invariant
                i <= self.variables@.len(),
                key@ == name@,
                self.wf(),
                self.commands@ == old(self).commands@,
                self.variables@ == old(self).variables@,
                var_map(kept@) == var_map(self.variables@.subrange(0, i as int)).remove(name@),
                idx.len() == kept@.len(),
                forall|m: int| 0 <= m < idx.len() ==> 0 <= #[trigger] idx[m] < i,
                forall|m: int| 0 <= m < idx.len() ==> #[trigger] kept@[m] == self.variables@[idx[m]],
                forall|a: int, b: int| 0 <= a < b < idx.len() ==> #[trigger] idx[a] < #[trigger] idx[b],
                forall|m: int| 0 <= m < kept@.len() ==> (#[trigger] kept@[m]).0@ != name@,
            decreases self.variables@.len() - i,
        {
            let ghost s = self.variables@;
            proof {
                assert(s.subrange(0, i + 1).drop_last() =~= s.subrange(0, i as int));
            }
            if self.variables[i].0 != key {
                let ghost before = kept@;
                kept.push((self.variables[i].0.clone(), self.variables[i].1.clone()));
                proof {
                    idx = idx.push(i as int);
                    assert(kept@.drop_last() =~= before);
                    assert(var_map(kept@) =~= var_map(s.subrange(0, i + 1)).remove(name@));
                }
            } else {
                assert(var_map(kept@) =~= var_map(s.subrange(0, i + 1)).remove(name@));
            }
            i += 1;
        }
        assert(self.variables@.subrange(0, i as int) =~= self.variables@);
        proof {
            let s = self.variables@;
            assert forall|a: int, b: int|
                0 <= a < kept@.len() && 0 <= b < kept@.len() && a != b implies #[trigger] kept@[a].0@
                != #[trigger] kept@[b].0@ by {
                assert(kept@[a] == s[idx[a]]);
                assert(kept@[b] == s[idx[b]]);
                if a < b {
                    assert(idx[a] < idx[b]);
                } else {
                    assert(idx[b] < idx[a]);
                }
            }
        }
        self.variables = kept;
    }

    /// Sets the variable `name` to `value`, replacing any earlier value.
    pub fn set_variable(&mut self, name: String, value: String)
        requires
            old(self).wf(),
        ensures
            final(self).wf(),
            final(self).vars() == old(self).vars().insert(name@, value@),
            final(self).commands@ == old(self).commands@,
    {
        self.remove_variable(name.as_str());
        let ghost before = self.variables@;
        let ghost n = name@;
        let ghost v = value@;
        self.variables.push((name, value));
        assert(self.variables@.drop_last() =~= before);
        assert forall|a: int, b: int|
            0 <= a < self.variables@.len() && 0 <= b < self.variables@.len() && a != b implies #[trigger] self.variables@[a].0@
            != #[trigger] self.variables@[b].0@ by {
            if a < before.len() && b < before.len() {
                assert(self.variables@[a] == before[a] && self.variables@[b] == before[b]);
            } else if a < before.len() {
                assert(self.variables@[a] == before[a]);
            } else {
                assert(self.variables@[b] == before[b]);
            }
        }
        assert(self.vars() =~= old(self).vars().insert(n, v));
    }
}

/// The texts of `args`, separated by single spaces.
pub open spec fn join_words(args: Seq<String>) -> Seq<char>
    decreases args.len(),
{
    if args.len() == 0 {
        Seq::empty()
    } else if args.len() == 1 {
        args[0]@
    } else {
        join_words(args.drop_last()) + " "@ + args.last()@
    }
}

/// Joins the texts of `args` with single spaces.
pub fn join_args(args: &Vec<String>) -> (r: String)
    ensures
        r@ == join_words(args@),
{
    let mut r = String::new();
    let mut i: usize = 0;
    while i < args.len()
        invariant
            i <= args@.len(),
            r@ == join_words(args@.subrange(0, i as int)),
        decreases args@.len() - i,
    {
        assert(args@.subrange(0, i + 1).drop_last() =~= args@.subrange(0, i as int));
        if i > 0 {
            r.append(" ");
        }
        r.append(args[i].as_str());
        i += 1;
    }
    assert(args@.subrange(0, i as int) =~= args@);
    r
}

/// The usage records of all of `cmds`, in order.
pub open spec fn all_usages(cmds: Seq<Command>) -> Seq<char>
    decreases cmds.len(),
{
    if cmds.len() == 0 {
        Seq::empty()
    } else {
        all_usages(cmds.drop_last()) + usage_text(cmds.last().name@, cmds.last().usage@)
    }
}

/// The record that shows one variable.
pub open spec fn variable_text(name: Seq<char>, value: Seq<char>) -> Seq<char> {
    name + " = \""@ + value + "\"\n"@
}

/// The records of all the variables of `vars`, in order.
pub open spec fn variables_text(vars: Seq<(String, String)>) -> Seq<char>
    decreases vars.len(),
{
    if vars.len() == 0 {
        Seq::empty()
    } else {
        variables_text(vars.drop_last()) + variable_text(vars.last().0@, vars.last().1@)
    }
}

/// Whether `s` holds white space.
pub open spec fn has_space(s: Seq<char>) -> bool {
    exists|i: int| 0 <= i < s.len() && is_space(#[trigger] s[i])
}

fn contains_whitespace(s: &str) -> (r: bool)
    ensures
        r == has_space(s@),
{
    let n = s.unicode_len();
    let mut i: usize = 0;
    while i < n
        invariant
            n == s@.len(),
            i <= n,
            forall|j: int| 0 <= j < i ==> !is_space(#[trigger] s@[j]),
        decreases n - i,
    {
        if is_whitespace(s.get_char(i)) {
            return true;
        }
        i += 1;
    }
    false
}

pub const NAME_IS_COMMAND: &'static str = "varName is a command name, therefore this variable can not be created\n";

pub const NAME_HAS_SPACE: &'static str = "variable name can not have whitespace.\n";

/// The registry is left as it was.
pub open spec fn unchanged(h0: CommandsHandler, h1: CommandsHandler) -> bool {
    h1.commands@ == h0.commands@ && h1.variables@ == h0.variables@
}

/// What `help` does: with one argument, the usage of that command (or an
/// unknown-command record); otherwise the usages of all commands.
pub open spec fn help_post(h0: CommandsHandler, h1: CommandsHandler, args: Seq<String>, o0: Seq<char>, o1: Seq<char>) -> bool {
    &&& unchanged(h0, h1)
    &&& if args.len() == 1 {
        if has_command(h0.commands@, args[0]@) {
            exists|i: int|
                0 <= i < h0.commands@.len() && h0.commands@[i].name@ == args[0]@ && o1 == o0
                    + usage_text(h0.commands@[i].name@, h0.commands@[i].usage@)
        } else {
            o1 == o0 + unknown_command_text(args[0]@)
        }
    } else {
        o1 == o0 + all_usages(h0.commands@)
    }
}

/// What `echo` does: writes its arguments, joined by spaces, on a line.
pub open spec fn echo_post(h0: CommandsHandler, h1: CommandsHandler, args: Seq<String>, o0: Seq<char>, o1: Seq<char>) -> bool {
    unchanged(h0, h1) && o1 == o0 + join_words(args) + "\n"@
}

/// What `alias` does: with one argument it removes that variable; with two
/// it sets the first to the second, unless the name is a command's or holds
/// white space, which it reports and changes nothing.
pub open spec fn alias_post(h0: CommandsHandler, h1: CommandsHandler, args: Seq<String>, o0: Seq<char>, o1: Seq<char>) -> bool {
    &&& h1.commands@ == h0.commands@
    &&& if args.len() == 0 {
        unchanged(h0, h1) && o1 == o0
    } else if args.len() == 1 {
        h1.vars() == h0.vars().remove(args[0]@) && o1 == o0
    } else if has_command(h0.commands@, args[0]@) {
        unchanged(h0, h1) && o1 == o0 + NAME_IS_COMMAND@
    } else if has_space(args[0]@) {
        unchanged(h0, h1) && o1 == o0 + NAME_HAS_SPACE@
    } else {
        h1.vars() == h0.vars().insert(args[0]@, args[1]@) && o1 == o0
    }
}

/// What `variables` does: writes how many variables there are, then each one.
pub open spec fn variables_post(h0: CommandsHandler, h1: CommandsHandler, o0: Seq<char>, o1: Seq<char>) -> bool {
    unchanged(h0, h1) && o1 == o0 + "amount of variables: "@ + decimal(h0.variables@.len())
        + "\n"@ + variables_text(h0.variables@)
}

/// What `variable` does: shows the variable named by its argument, or
/// reports that there is none.
pub open spec fn variable_post(h0: CommandsHandler, h1: CommandsHandler, args: Seq<String>, o0: Seq<char>, o1: Seq<char>) -> bool {
    &&& unchanged(h0, h1)
    &&& if args.len() == 0 {
        o1 == o0
    } else if h0.vars().dom().contains(args[0]@) {
        o1 == o0 + variable_text(args[0]@, h0.vars()[args[0]@])
    } else {
        o1 == o0 + "variable \""@ + args[0]@ + "\" does not exist\n"@
    }
}

/// `alias` with a command's name as the variable name creates no variable
/// and reports the collision.
pub proof fn lemma_alias_refuses_command_name(
    h0: CommandsHandler,
    h1: CommandsHandler,
    args: Seq<String>,
    o0: Seq<char>,
    o1: Seq<char>,
)
    requires
        alias_post(h0, h1, args, o0, o1),
        args.len() >= 2,
        has_command(h0.commands@, args[0]@),
    ensures
        h1.vars() == h0.vars(),
        h1.vars().dom().contains(args[0]@) == h0.vars().dom().contains(args[0]@),
        o1 == o0 + NAME_IS_COMMAND@,
{
}

pub fn help(commands_handler: &CommandsHandler, args: &Vec<String>, out: &mut String)
    ensures
        help_post(*commands_handler, *commands_handler, args@, old(out)@, final(out)@),
{
    if args.len() == 1 {
        if let Some(command) = commands_handler.get(args[0].as_str(), true, out) {
            print_command_usage(out, command.name.as_str(), command.usage.as_str());
        }
        return ;
    }
    let cmds = &commands_handler.commands;
    let mut i: usize = 0;
    let ghost o0 = out@;
    while i < cmds.len()
        invariant
            i <= cmds@.len(),
            out@ == o0 + all_usages(cmds@.subrange(0, i as int)),
        decreases cmds@.len() - i,
    {
        assert(cmds@.subrange(0, i + 1).drop_last() =~= cmds@.subrange(0, i as int));
        print_command_usage(out, cmds[i].name.as_str(), cmds[i].usage.as_str());
        i += 1;
        assert(out@ =~= o0 + all_usages(cmds@.subrange(0, i as int)));
    }
    assert(cmds@.subrange(0, i as int) =~= cmds@);
}

pub fn echo(args: &Vec<String>, out: &mut String)
    ensures
        final(out)@ == old(out)@ + join_words(args@) + "\n"@,
{
    let message = join_args(args);
    crate::output::println(out, message.as_str());
}

pub fn alias(commands_handler: &mut CommandsHandler, args: &Vec<String>, out: &mut String)
    requires
        old(commands_handler).wf(),
    ensures
        final(commands_handler).wf(),
        alias_post(*old(commands_handler), *final(commands_handler), args@, old(out)@, final(out)@),
{
    if args.len() == 0 {
        return ;
    }
    if args.len() == 1 {
        commands_handler.remove_variable(args[0].as_str());
        return ;
    }
    let mut scratch = String::new();
    if commands_handler.get(args[0].as_str(), false, &mut scratch).is_some() {
        print(out, NAME_IS_COMMAND);
        return ;
    }
    if contains_whitespace(args[0].as_str()) {
        print(out, NAME_HAS_SPACE);
        return ;
    }
    commands_handler.set_variable(args[0].clone(), args[1].clone());
}

pub fn variables(commands_handler: &CommandsHandler, out: &mut String)
    requires
        commands_handler.wf(),
    ensures
        variables_post(*commands_handler, *commands_handler, old(out)@, final(out)@),
        commands_handler.vars().dom().len() == commands_handler.variables@.len(),
{
    proof {
        commands_handler.lemma_variable_count();
    }
    let vars = &commands_handler.variables;
    print(out, "amount of variables: ");
    let count = decimal_string(vars.len() as u64);
    crate::output::println(out, count.as_str());
    let ghost o0 = out@;
    let mut i: usize = 0;
    while i < vars.len()
        invariant
            i <= vars@.len(),
            out@ == o0 + variables_text(vars@.subrange(0, i as int)),
        decreases vars@.len() - i,
    {
        assert(vars@.subrange(0, i + 1).drop_last() =~= vars@.subrange(0, i as int));
        out.append(vars[i].0.as_str());
        out.append(" = \"");
        out.append(vars[i].1.as_str());
        out.append("\"\n");
        i += 1;
        assert(out@ =~= o0 + variables_text(vars@.subrange(0, i as int)));
    }
    assert(vars@.subrange(0, i as int) =~= vars@);
}

pub fn variable(commands_handler: &CommandsHandler, args: &Vec<String>, out: &mut String)
    ensures
        variable_post(*commands_handler, *commands_handler, args@, old(out)@, final(out)@),
{
    if args.len() == 0 {
        return ;
    }
    let key = args[0].as_str();
    let ghost o0 = out@;
    match commands_handler.get_variable(key) {
        Some(value) => {
            out.append(key);
            out.append(" = \"");
            out.append(value.as_str());
            out.append("\"\n");
            assert(out@ =~= o0 + variable_text(key@, value@));
        },
        None => {
            out.append("variable \"");
            out.append(key);
            out.append("\" does not exist\n");
            assert(out@ =~= o0 + "variable \""@ + key@ + "\" does not exist\n"@);
        },
    }
}
/// The record that reports an argument that is not a whole number.
pub open spec fn not_a_number_text(s: Seq<char>) -> Seq<char> {
    "\""@ + s + "\" is not a number\n"@
}

/// `value` moved by `delta`, wrapped round to the other bound when it leaves
/// `[min, max]`.
pub open spec fn stepped(value: int, min: int, max: int, delta: int) -> int {
    let v = value + delta;
    if v > max {
        min
    } else if v < min {
        max
    } else {
        v
    }
}

/// What `incrementvar <var> <min> <max> <delta>` does.
pub open spec fn increment_var_post(h0: CommandsHandler, h1: CommandsHandler, args: Seq<String>, o0: Seq<char>, o1: Seq<char>) -> bool {
    &&& h1.commands@ == h0.commands@
    &&& if args.len() < 4 {
        unchanged(h0, h1) && o1 == o0
    } else if number_of(args[1]@) is None {
        unchanged(h0, h1) && o1 == o0 + not_a_number_text(args[1]@)
    } else if number_of(args[2]@) is None {
        unchanged(h0, h1) && o1 == o0 + not_a_number_text(args[2]@)
    } else if number_of(args[3]@) is None {
        unchanged(h0, h1) && o1 == o0 + not_a_number_text(args[3]@)
    } else if number_of(args[1]@)->0 > number_of(args[2]@)->0 {
        unchanged(h0, h1) && o1 == o0 + "minValue is higher than maxValue"@
    } else if !h0.vars().dom().contains(args[0]@) {
        unchanged(h0, h1) && o1 == o0 + "unknown variable \""@ + args[0]@ + "\"\n"@
    } else if number_of(h0.vars()[args[0]@]) is None {
        unchanged(h0, h1) && o1 == o0 + not_a_number_text(h0.vars()[args[0]@])
    } else {
        o1 == o0 && h1.vars() == h0.vars().insert(
            args[0]@,
            int_text(
                stepped(
                    number_of(h0.vars()[args[0]@])->0,
                    number_of(args[1]@)->0,
                    number_of(args[2]@)->0,
                    number_of(args[3]@)->0,
                ),
            ),
        )
    }
}

fn report_not_a_number(out: &mut String, s: &str)
    ensures
        final(out)@ == old(out)@ + not_a_number_text(s@),
{
    let ghost o0 = out@;
    out.append("\"");
    out.append(s);
    out.append("\" is not a number\n");
    assert(out@ =~= o0 + not_a_number_text(s@));
}

/// `incrementvar <var> <min> <max> <delta>`: moves the variable by `delta`,
/// wrapping round to the other bound when it leaves `[min, max]`. Values are
/// whole numbers of magnitude at most `i64::MAX` (see `number_of`); anything
/// else, such as a fractional value, is reported as not a number and changes
/// nothing.
pub fn increment_var(commands_handler: &mut CommandsHandler, args: &Vec<String>, out: &mut String)
    requires
        old(commands_handler).wf(),
    ensures
        final(commands_handler).wf(),
        increment_var_post(*old(commands_handler), *final(commands_handler), args@, old(out)@, final(out)@),
{
    if args.len() < 4 {
        return ;
    }
    let min_value = match parse_number(args[1].as_str()) {
        Some(v) => v,
        None => {
            report_not_a_number(out, args[1].as_str());
            return ;
        },
    };
    let max_value = match parse_number(args[2].as_str()) {
        Some(v) => v,
        None => {
            report_not_a_number(out, args[2].as_str());
            return ;
        },
    };
    let delta = match parse_number(args[3].as_str()) {
        Some(v) => v,
        None => {
            report_not_a_number(out, args[3].as_str());
            return ;
        },
    };
    if min_value > max_value {
        print(out, "minValue is higher than maxValue");
        return ;
    }
    let variable = args[0].as_str();
    let current = match commands_handler.get_variable(variable) {
        Some(v) => v,
        None => {
            let ghost o0 = out@;
            out.append("unknown variable \"");
            out.append(variable);
            out.append("\"\n");
            assert(out@ =~= o0 + "unknown variable \""@ + variable@ + "\"\n"@);
            return ;
        },
    };
    let value = match parse_number(current.as_str()) {
        Some(v) => v,
        None => {
            report_not_a_number(out, current.as_str());
            return ;
        },
    };
    let moved: i128 = value as i128 + delta as i128;
    let next: i64 = if moved > max_value as i128 {
        min_value
    } else if moved < min_value as i128 {
        max_value
    } else {
        moved as i64
    };
    let text = number_text(next);
    commands_handler.set_variable(args[0].clone(), text);
}

/// The built-in handlers.
#[derive(Clone, Copy, PartialEq, Eq, Structural, Debug)]
pub enum BaseFunc {
    Help,
    Echo,
    Alias,
    Variables,
    Variable,
    IncrementVar,
}

/// What running the handler `f` with arguments `args` does to the registry
/// (`h0` to `h1`) and to the output (`o0` to `o1`).
pub open spec fn dispatch_post(
    f: BaseFunc,
    h0: CommandsHandler,
    h1: CommandsHandler,
    args: Seq<String>,
    o0: Seq<char>,
    o1: Seq<char>,
) -> bool {
    match f {
        BaseFunc::Help => help_post(h0, h1, args, o0, o1),
        BaseFunc::Echo => echo_post(h0, h1, args, o0, o1),
        BaseFunc::Alias => alias_post(h0, h1, args, o0, o1),
        BaseFunc::Variables => variables_post(h0, h1, o0, o1),
        BaseFunc::Variable => variable_post(h0, h1, args, o0, o1),
        BaseFunc::IncrementVar => increment_var_post(h0, h1, args, o0, o1),
    }
}

/// A command handler: it gets the registry, the command's metadata, the
/// validated arguments and the output sink. `post` says what a call does to
/// the registry (`h0` to `h1`) and to the output (`o0` to `o1`); each
/// implementation proves that its `call` meets it. A handler that states
/// nothing keeps the default, which holds of every call.
pub trait CommandCall {
    open spec fn post(
        &self,
        h0: CommandsHandler,
        h1: CommandsHandler,
        args: Seq<String>,
        o0: Seq<char>,
        o1: Seq<char>,
    ) -> bool {
        true
    }

    fn call(
        &self,
        commands_handler: &mut CommandsHandler,
        command: Box<Command>,
        args: &Vec<String>,
        out: &mut String,
    )
        requires
            old(commands_handler).wf(),
        ensures
            final(commands_handler).wf(),
            self.post(*old(commands_handler), *final(commands_handler), args@, old(out)@, final(out)@),
    ;
}

impl BaseFunc {
    /// Runs this handler.
    pub fn run(&self, commands_handler: &mut CommandsHandler, args: &Vec<String>, out: &mut String)
        requires
            old(commands_handler).wf(),
        ensures
            final(commands_handler).wf(),
            dispatch_post(*self, *old(commands_handler), *final(commands_handler), args@, old(out)@, final(out)@),
    {
        match self {
            BaseFunc::Help => help(commands_handler, args, out),
            BaseFunc::Echo => echo(args, out),
            BaseFunc::Alias => alias(commands_handler, args, out),
            BaseFunc::Variables => variables(commands_handler, out),
            BaseFunc::Variable => variable(commands_handler, args, out),
            BaseFunc::IncrementVar => increment_var(commands_handler, args, out),
        }
    }
}

impl CommandCall for BaseFunc {
    open spec fn post(
        &self,
        h0: CommandsHandler,
        h1: CommandsHandler,
        args: Seq<String>,
        o0: Seq<char>,
        o1: Seq<char>,
    ) -> bool {
        dispatch_post(*self, h0, h1, args, o0, o1)
    }

    fn call(
        &self,
        commands_handler: &mut CommandsHandler,
        command: Box<Command>,
        args: &Vec<String>,
        out: &mut String,
    ) {
        self.run(commands_handler, args, out);
    }
}

/// The dispatch table: the handler of a command stands at the command's
/// `func_idx`. Its handlers are of any type that implements `CommandCall`;
/// `BaseFunc` holds the built-in ones.
pub struct CommandsFuncs<F: CommandCall> {
    commands_funcs: Vec<F>,
}

impl<F: CommandCall> CommandsFuncs<F> {
    /// The handlers, by index.
    pub closed spec fn funcs(&self) -> Seq<F> {
        self.commands_funcs@
    }

    pub fn new() -> (r: Self)
        ensures
            r.funcs() == Seq::<F>::empty(),
    {
        CommandsFuncs { commands_funcs: Vec::new() }
    }

    /// Runs the handler of `command` on `arguments`; a command whose index
    /// has no handler does nothing.
    pub fn call(
        &self,
        commands_handler: &mut CommandsHandler,
        command: Box<Command>,
        arguments: Vec<String>,
        out: &mut String,
    )
        requires
            old(commands_handler).wf(),
        ensures
            final(commands_handler).wf(),
            command.func_idx < self.funcs().len() ==> self.funcs()[command.func_idx as int].post(
                *old(commands_handler),
                *final(commands_handler),
                arguments@,
                old(out)@,
                final(out)@,
            ),
            command.func_idx >= self.funcs().len() ==> unchanged(
                *old(commands_handler),
                *final(commands_handler),
            ) && final(out)@ == old(out)@,
    {
        if command.func_idx < self.commands_funcs.len() {
            self.commands_funcs[command.func_idx].call(commands_handler, command, &arguments, out);
        }
    }

    /// Appends a handler; it gets the next index.
    pub fn push(&mut self, command_func: F)
        ensures
            final(self).funcs() == old(self).funcs().push(command_func),
    {
        self.commands_funcs.push(command_func);
    }

    /// The handlers, by index.
    pub fn get(&self) -> (r: &Vec<F>)
        ensures
            r@ == self.funcs(),
    {
        &self.commands_funcs
    }
}

/// The built-in command at index `i`, by name, handler index, arity bounds
/// and usage.
pub open spec fn base_command(i: int) -> (Seq<char>, usize, u8, u8, Seq<char>) {
    if i == 0 {
        ("help"@, 0, 0, 1, "<command?> - shows a list of commands usages or the usage of a specific command"@)
    } else if i == 1 {
        ("echo"@, 1, 1, 1, "<message> - echoes a message to the console"@)
    } else if i == 2 {
        ("alias"@, 2, 1, 2, "<var> <commands?> - creates/deletes variables"@)
    } else if i == 3 {
        ("variables"@, 3, 0, 0, "- list of variables"@)
    } else if i == 4 {
        ("variable"@, 4, 1, 1, "- shows variable value"@)
    } else {
        ("incrementvar"@, 5, 4, 4, "<var> <minValue> <maxValue> <delta> - increments the value of a variable"@)
    }
}

/// The handler of the built-in command at index `i`.
pub open spec fn base_func(i: int) -> BaseFunc {
    if i == 0 {
        BaseFunc::Help
    } else if i == 1 {
        BaseFunc::Echo
    } else if i == 2 {
        BaseFunc::Alias
    } else if i == 3 {
        BaseFunc::Variables
    } else if i == 4 {
        BaseFunc::Variable
    } else {
        BaseFunc::IncrementVar
    }
}

/// `c` is the built-in command at index `i`.
pub open spec fn is_base_command(c: Command, i: int) -> bool {
    let b = base_command(i);
    c.name@ == b.0 && c.func_idx == b.1 && c.min_args == b.2 && c.max_args == b.3 && c.usage@ == b.4
}

/// `g` holds the six built-in commands, in order.
pub open spec fn base_list(g: Seq<Command>) -> bool {
    g.len() == 6 && forall|i: int| 0 <= i < 6 ==> is_base_command(#[trigger] g[i], i)
}

/// `cmds` after registering the commands of `g` one by one.
pub open spec fn registered_all(cmds: Seq<Command>, g: Seq<Command>) -> Seq<Command>
    decreases g.len(),
{
    if g.len() == 0 {
        cmds
    } else {
        registered(registered_all(cmds, g.drop_last()), g.last())
    }
}

/// Registers the six built-in commands in order, each as `register` does (a
/// name already taken keeps its command), and appends their handlers. Into an
/// empty registry, command `i` is the built-in at index `i`.
pub fn init_base_commands(commands_handler: &mut CommandsHandler, commands_funcs: &mut CommandsFuncs<BaseFunc>)
    requires
        old(commands_handler).wf(),
    ensures
        final(commands_handler).wf(),
        final(commands_handler).variables@ == old(commands_handler).variables@,
        final(commands_funcs).funcs().len() == old(commands_funcs).funcs().len() + 6,
        forall|i: int|
            0 <= i < 6 ==> #[trigger] final(commands_funcs).funcs()[old(commands_funcs).funcs().len() + i]
                == base_func(i),
        exists|g: Seq<Command>|
            #[trigger] base_list(g) && final(commands_handler).commands@ == registered_all(
                old(commands_handler).commands@,
                g,
            ),
        old(commands_handler).commands@.len() == 0 ==> final(commands_handler).commands@.len() == 6
            && forall|i: int| 0 <= i < 6 ==> is_base_command(#[trigger] final(commands_handler).commands@[i], i),
{
    let ghost old0 = commands_handler.commands@;
    proof {
        reveal_strlit("help");
        reveal_strlit("echo");
        reveal_strlit("alias");
        reveal_strlit("variables");
        reveal_strlit("variable");
        reveal_strlit("incrementvar");
    }
    let ghost n = commands_funcs.funcs().len() as int;
    let ghost empty = commands_handler.commands@.len() == 0;
    let c0 = Command::new("help", 0, 0, 1, "<command?> - shows a list of commands usages or the usage of a specific command");
    let c1 = Command::new("echo", 1, 1, 1, "<message> - echoes a message to the console");
    let c2 = Command::new("alias", 2, 1, 2, "<var> <commands?> - creates/deletes variables");
    let c3 = Command::new("variables", 3, 0, 0, "- list of variables");
    let c4 = Command::new("variable", 4, 1, 1, "- shows variable value");
    let c5 = Command::new("incrementvar", 5, 4, 4, "<var> <minValue> <maxValue> <delta> - increments the value of a variable");
    let ghost g = seq![c0, c1, c2, c3, c4, c5];
    proof {
        assert(forall|i: int| 0 <= i < 6 ==> is_base_command(#[trigger] g[i], i));
        assert(forall|i: int, j: int| 0 <= j < i < 6 ==> #[trigger] g[i].name@ != #[trigger] g[j].name@) by {
            assert(g[1].name@[0] != g[0].name@[0]);
            assert(g[2].name@[0] != g[0].name@[0] && g[2].name@[0] != g[1].name@[0]);
            assert(g[3].name@[0] != g[0].name@[0] && g[3].name@[0] != g[1].name@[0] && g[3].name@[0] != g[2].name@[0]);
            assert(g[4].name@[0] != g[0].name@[0] && g[4].name@[0] != g[1].name@[0] && g[4].name@[0] != g[2].name@[0]);
            assert(g[4].name@.len() != g[3].name@.len());
            assert(g[5].name@[0] != g[0].name@[0] && g[5].name@[0] != g[1].name@[0] && g[5].name@[0] != g[2].name@[0]);
            assert(g[5].name@[0] != g[3].name@[0] && g[5].name@[0] != g[4].name@[0]);
        }
    }
    proof {
        assert(registered_all(old0, g.subrange(0, 0)) == old0);
    }
    commands_handler.register(c0);
    proof {
        assert(g.subrange(0, 1).drop_last() =~= g.subrange(0, 0));
        assert(g.subrange(0, 1).last() == g[0]);
        assert(commands_handler.commands@ == registered_all(old0, g.subrange(0, 1)));
    }
    commands_funcs.push(BaseFunc::Help);
    proof {
        if empty {
            assert(commands_handler.commands@ =~= g.subrange(0, 1));
        }
    }
    commands_handler.register(c1);
    proof {
        assert(g.subrange(0, 2).drop_last() =~= g.subrange(0, 1));
        assert(g.subrange(0, 2).last() == g[1]);
        assert(commands_handler.commands@ == registered_all(old0, g.subrange(0, 2)));
    }
    commands_funcs.push(BaseFunc::Echo);
    proof {
        if empty {
            assert(g[1].name@ != g[0].name@);
            assert(commands_handler.commands@ =~= g.subrange(0, 2));
        }
    }
    commands_handler.register(c2);
    proof {
        assert(g.subrange(0, 3).drop_last() =~= g.subrange(0, 2));
        assert(g.subrange(0, 3).last() == g[2]);
        assert(commands_handler.commands@ == registered_all(old0, g.subrange(0, 3)));
    }
    commands_funcs.push(BaseFunc::Alias);
    proof {
        if empty {
            assert(g[2].name@ != g[0].name@ && g[2].name@ != g[1].name@);
            assert(commands_handler.commands@ =~= g.subrange(0, 3));
        }
    }
    commands_handler.register(c3);
    proof {
        assert(g.subrange(0, 4).drop_last() =~= g.subrange(0, 3));
        assert(g.subrange(0, 4).last() == g[3]);
        assert(commands_handler.commands@ == registered_all(old0, g.subrange(0, 4)));
    }
    commands_funcs.push(BaseFunc::Variables);
    proof {
        if empty {
            assert(g[3].name@ != g[0].name@ && g[3].name@ != g[1].name@ && g[3].name@ != g[2].name@);
            assert(commands_handler.commands@ =~= g.subrange(0, 4));
        }
    }
    commands_handler.register(c4);
    proof {
        assert(g.subrange(0, 5).drop_last() =~= g.subrange(0, 4));
        assert(g.subrange(0, 5).last() == g[4]);
        assert(commands_handler.commands@ == registered_all(old0, g.subrange(0, 5)));
    }
    commands_funcs.push(BaseFunc::Variable);
    proof {
        if empty {
            assert(g[4].name@ != g[0].name@ && g[4].name@ != g[1].name@ && g[4].name@ != g[2].name@ && g[4].name@ != g[3].name@);
            assert(commands_handler.commands@ =~= g.subrange(0, 5));
        }
    }
    commands_handler.register(c5);
    proof {
        assert(g.subrange(0, 6).drop_last() =~= g.subrange(0, 5));
        assert(g.subrange(0, 6).last() == g[5]);
        assert(commands_handler.commands@ == registered_all(old0, g.subrange(0, 6)));
    }
    commands_funcs.push(BaseFunc::IncrementVar);
    proof {
        if empty {
            assert(g[5].name@ != g[0].name@ && g[5].name@ != g[1].name@ && g[5].name@ != g[2].name@ && g[5].name@ != g[3].name@ && g[5].name@ != g[4].name@);
            assert(commands_handler.commands@ =~= g);
        }
    }
    proof {
        assert(g.subrange(0, 6) =~= g);
        assert(base_list(g));
    }
    assert(forall|i: int| 0 <= i < 6 ==> #[trigger] commands_funcs.funcs()[n + i] == base_func(i)) by {
        assert(commands_funcs.funcs()[n + 0] == base_func(0));
        assert(commands_funcs.funcs()[n + 1] == base_func(1));
        assert(commands_funcs.funcs()[n + 2] == base_func(2));
        assert(commands_funcs.funcs()[n + 3] == base_func(3));
        assert(commands_funcs.funcs()[n + 4] == base_func(4));
        assert(commands_funcs.funcs()[n + 5] == base_func(5));
    }
}

} // verus!
