use haybcmd::command::{BaseFunc, Command, CommandCall, CommandsFuncs, CommandsHandler};
use haybcmd::number::{number_text, parse_number};
use haybcmd::output::decimal_string;
use haybcmd::parser::{arguments_fit, coerce_arguments};

#[test]
fn register_keeps_first() {
    let mut h = CommandsHandler::new();
    h.register(Command::new("a", 0, 0, 1, "first"));
    h.register(Command::new("a", 1, 1, 1, "second"));
    assert_eq!(h.commands.len(), 1);
    assert_eq!(h.commands[0].usage, "first");
    assert!(h.contains(&Command::new("a", 9, 0, 0, "")));
    assert!(!h.contains(&Command::new("b", 9, 0, 0, "")));
}

#[test]
fn get_and_delete() {
    let (mut h, _) = haybcmd::init();
    let mut out = String::new();
    let c = h.get("alias", true, &mut out).unwrap();
    assert_eq!((c.min_args, c.max_args, c.func_idx), (1, 2, 2));
    assert_eq!(out, "");
    assert!(h.get("missing", true, &mut out).is_none());
    assert_eq!(out, "unknown command \"missing\"\n");
    assert!(h.get("missing", false, &mut out).is_none());
    assert_eq!(out, "unknown command \"missing\"\n");
    assert!(h.delete("echo"));
    assert!(!h.delete("echo"));
    assert_eq!(h.commands.len(), 5);
    assert_eq!(haybcmd::parse(h, CommandsFuncs::<BaseFunc>::new(), String::from("echo hi")), "unknown command \"echo\"\n");
}

#[test]
fn variable_store() {
    let mut h = CommandsHandler::new();
    h.set_variable(String::from("k"), String::from("v"));
    h.set_variable(String::from("k"), String::from("w"));
    assert_eq!(h.get_variable("k"), Some(String::from("w")));
    assert_eq!(h.variables.len(), 1);
    h.remove_variable("k");
    assert_eq!(h.get_variable("k"), None);
}

#[test]
fn dispatch_table() {
    let (mut h, f) = haybcmd::init();
    assert_eq!(
        *f.get(),
        vec![BaseFunc::Help, BaseFunc::Echo, BaseFunc::Alias, BaseFunc::Variables, BaseFunc::Variable, BaseFunc::IncrementVar]
    );
    let mut out = String::new();
    let echo = h.get("echo", false, &mut out).unwrap();
    f.call(&mut h, echo, vec![String::from("x")], &mut out);
    assert_eq!(out, "x\n");
    let stray = Box::new(Command::new("stray", 42, 0, 0, ""));
    f.call(&mut h, stray, vec![], &mut out);
    assert_eq!(out, "x\n");
    let mut g = CommandsFuncs::new();
    g.push(BaseFunc::Echo);
    assert_eq!(*g.get(), vec![BaseFunc::Echo]);
    let c = Box::new(Command::new("e", 0, 0, 1, ""));
    BaseFunc::Alias.call(&mut h, c, &vec![String::from("z"), String::from("1")], &mut out);
    assert_eq!(h.get_variable("z"), Some(String::from("1")));
}

#[test]
fn coercion_and_arity() {
    let args = vec![String::from("a"), String::from("b"), String::from("c")];
    assert_eq!(coerce_arguments(args.clone(), 1), vec![String::from("a b c")]);
    assert_eq!(coerce_arguments(args.clone(), 2), args);
    assert_eq!(coerce_arguments(vec![], 1), Vec::<String>::new());
    assert!(arguments_fit(1, 1, 1));
    assert!(!arguments_fit(0, 1, 1));
    assert!(!arguments_fit(2, 1, 1));
    assert!(arguments_fit(0, 0, 1));
}

#[test]
fn numbers() {
    assert_eq!(decimal_string(0), "0");
    assert_eq!(decimal_string(1234567890), "1234567890");
    assert_eq!(number_text(-42), "-42");
    assert_eq!(number_text(i64::MIN), "-9223372036854775808");
    assert_eq!(parse_number("17"), Some(17));
    assert_eq!(parse_number("+17"), Some(17));
    assert_eq!(parse_number("-0"), Some(0));
    assert_eq!(parse_number("9223372036854775807"), Some(i64::MAX));
    assert_eq!(parse_number("9223372036854775808"), None);
    assert_eq!(parse_number(""), None);
    assert_eq!(parse_number("-"), None);
    assert_eq!(parse_number("1.5"), None);
    assert_eq!(parse_number("12a"), None);
}

/// A handler of the embedding program's own: it writes how many arguments it got.
struct Count;

impl CommandCall for Count {
    fn call(&self, _commands_handler: &mut CommandsHandler, _command: Box<Command>, args: &Vec<String>, out: &mut String) {
        out.push_str(&format!("{} arguments\n", args.len()));
    }
}

#[test]
fn user_handler_is_dispatched() {
    let mut h = CommandsHandler::new();
    let mut f = CommandsFuncs::new();
    h.register(Command::new("count", 0, 0, 3, "<a?> <b?> <c?> - counts its arguments"));
    f.push(Count);
    assert_eq!(haybcmd::parse(h, f, String::from("count x y; count; count \"p q\"")), "2 arguments\n0 arguments\n1 arguments\n");
}
