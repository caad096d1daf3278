use haybcmd::lexer::Lexer;
use haybcmd::parser::Parser;

fn run(input: &str) -> String {
    let (commands_handler, commands_funcs) = haybcmd::init();
    haybcmd::parse(commands_handler, commands_funcs, String::from(input))
}

#[test]
fn interpreter() {
    let (commands_handler, commands_funcs) = haybcmd::init();

    let input = String::from(r#"
            echo "Hello, World!";
            alias $var echo "This is a variable: $var";
            $var "Hello, Variable!";
            variables;
        "#);

    haybcmd::parse(commands_handler, commands_funcs, input);

    assert!(true);
}

#[test]
fn interpreter_output() {
    let out = run(r#"
            echo "Hello, World!";
            alias $var echo "This is a variable: $var";
            $var "Hello, Variable!";
            variables;
        "#);
    assert_eq!(
        out,
        "Hello, World!\n\
         alias <var> <commands?> - creates/deletes variables\n\
         arguments size must be within range [1, 2], but size is 3\n\
         unknown command \"Hello, Variable!\"\n\
         amount of variables: 0\n"
    );
}

#[test]
fn echo_joins_words() {
    assert_eq!(run("echo a b c"), "a b c\n");
}

#[test]
fn single_argument_command_without_argument_prints_usage() {
    assert_eq!(run("variable"), "variable - shows variable value\n");
    assert_eq!(run("echo;"), "echo <message> - echoes a message to the console\n");
}

#[test]
fn too_many_arguments_print_usage_and_range() {
    assert_eq!(
        run("alias a b c"),
        "alias <var> <commands?> - creates/deletes variables\n\
         arguments size must be within range [1, 2], but size is 3\n"
    );
    assert_eq!(
        run("variables x"),
        "variables - list of variables\n\
         arguments size must be within range [0, 0], but size is 1\n"
    );
}

#[test]
fn variable_substitution() {
    assert_eq!(run("alias x hello; echo $x"), "hello\n");
    assert_eq!(run("echo $y"), "$y\n");
}

#[test]
fn alias_runs_as_command() {
    assert_eq!(run("alias greet \"echo hi\"; greet;"), "hi\n");
}

#[test]
fn alias_with_command_name_is_refused() {
    let (commands_handler, commands_funcs) = haybcmd::init();
    let mut parser = Parser::new(Lexer::new(String::from("alias echo foo")), commands_handler, commands_funcs);
    parser.parse();
    assert_eq!(parser.output(), "varName is a command name, therefore this variable can not be created\n");
    assert_eq!(parser.commands_handler().get_variable("echo"), None);
    assert_eq!(parser.commands_handler().variables.len(), 0);
}

#[test]
fn alias_with_spaced_name_is_refused() {
    assert_eq!(run("alias \"a b\" v; variables"), "variable name can not have whitespace.\namount of variables: 0\n");
}

#[test]
fn statements_are_separate() {
    assert_eq!(run("echo a; echo b;"), "a\nb\n");
}

#[test]
fn self_referencing_alias_terminates() {
    assert_eq!(run("alias x x; x; echo done"), "done\n");
}

#[test]
fn mutually_referencing_aliases_terminate() {
    assert_eq!(run("alias a b; alias b a; a; echo after"), "after\n");
}

#[test]
fn nested_alias_expands() {
    assert_eq!(run("alias inner \"echo deep\"; alias outer inner; outer; echo end"), "deep\nend\n");
}

#[test]
fn unknown_word_is_reported_and_statement_skipped() {
    assert_eq!(run("foo bar; echo ok"), "unknown command \"foo\"\nok\n");
}

#[test]
fn leading_whitespace_is_skipped() {
    assert_eq!(run("   \t echo hi"), "hi\n");
}

#[test]
fn empty_input_writes_nothing() {
    assert_eq!(run(""), "");
    assert_eq!(run("  ;  ; "), "");
}

#[test]
fn help_for_one_command() {
    assert_eq!(run("help echo"), "echo <message> - echoes a message to the console\n");
    assert_eq!(run("help nothing"), "unknown command \"nothing\"\n");
}

#[test]
fn help_lists_all_commands() {
    let out = run("help");
    assert_eq!(
        out,
        "help <command?> - shows a list of commands usages or the usage of a specific command\n\
         echo <message> - echoes a message to the console\n\
         alias <var> <commands?> - creates/deletes variables\n\
         variables - list of variables\n\
         variable - shows variable value\n\
         incrementvar <var> <minValue> <maxValue> <delta> - increments the value of a variable\n"
    );
}

#[test]
fn variables_listing() {
    assert_eq!(run("alias a 1; alias b two; variables"), "amount of variables: 2\na = \"1\"\nb = \"two\"\n");
    assert_eq!(run("alias a 1; alias a 2; variable a"), "a = \"2\"\n");
    assert_eq!(run("alias a 1; alias a; variables"), "amount of variables: 0\n");
    assert_eq!(run("variable nope"), "variable \"nope\" does not exist\n");
}

#[test]
fn increment_variable() {
    assert_eq!(run("alias n 5; incrementvar n 0 10 3; variable n"), "n = \"8\"\n");
    assert_eq!(run("alias n 9; incrementvar n 0 10 3; variable n"), "n = \"0\"\n");
    assert_eq!(run("alias n 1; incrementvar n 0 10 -3; variable n"), "n = \"10\"\n");
    assert_eq!(run("alias n -4; incrementvar n -10 10 -2; variable n"), "n = \"-6\"\n");
}

#[test]
fn increment_variable_errors() {
    assert_eq!(run("alias n 5; incrementvar n 10 0 1"), "minValue is higher than maxValue");
    assert_eq!(run("incrementvar n 0 10 1"), "unknown variable \"n\"\n");
    assert_eq!(run("alias n 5; incrementvar n zero 10 1"), "\"zero\" is not a number\n");
    assert_eq!(run("alias n five; incrementvar n 0 10 1"), "\"five\" is not a number\n");
    assert_eq!(
        run("incrementvar n 0 10"),
        "incrementvar <var> <minValue> <maxValue> <delta> - increments the value of a variable\n\
         arguments size must be within range [4, 4], but size is 3\n"
    );
}

#[test]
fn empty_alias_expands_to_nothing() {
    assert_eq!(run("alias quiet \"\"; quiet; echo next"), "next\n");
}

#[test]
fn resetting_a_variable_lists_it_once() {
    assert_eq!(run("alias a 1; alias a 2; variables"), "amount of variables: 1\na = \"2\"\n");
}
