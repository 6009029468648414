use minishell::parser::{Command, ParseError, Parser};

fn parse(line: &str) -> Result<Command, ParseError> {
    Parser::new(String::from(line)).parse()
}

fn words(ws: &[&str]) -> Vec<String> {
    ws.iter().map(|w| String::from(*w)).collect()
}

#[test]
fn blank_input_parses_empty() {
    assert_eq!(parse("").unwrap(), Command::Empty);
    assert_eq!(parse("   ").unwrap(), Command::Empty);
    assert_eq!(parse(" \t  \r\n").unwrap(), Command::Empty);
    assert_eq!(parse("\n").unwrap(), Command::Empty);
}

#[test]
fn echo_keeps_words_in_order() {
    assert_eq!(parse("echo a b c").unwrap(), Command::Echo(words(&["a", "b", "c"])));
    assert_eq!(parse("  echo   one \t two ").unwrap(), Command::Echo(words(&["one", "two"])));
}

#[test]
fn echo_without_words_is_an_arity_error() {
    assert_eq!(parse("echo").unwrap_err(), ParseError::ArityError(String::from("echo")));
}

#[test]
fn bare_words_parse() {
    assert_eq!(parse("exit").unwrap(), Command::Exit);
    assert_eq!(parse("clear").unwrap(), Command::Clear);
    assert_eq!(parse("pwd").unwrap(), Command::Pwd);
    assert_eq!(parse("whoami").unwrap(), Command::Whoami);
}

#[test]
fn extra_arguments_to_bare_words_are_ignored() {
    assert_eq!(parse("pwd somewhere").unwrap(), Command::Pwd);
    assert_eq!(parse("exit 1").unwrap(), Command::Exit);
    assert_eq!(parse("whoami please").unwrap(), Command::Whoami);
}

#[test]
fn cd_arities() {
    assert_eq!(parse("cd").unwrap(), Command::Cd(None));
    assert_eq!(parse("cd projects").unwrap(), Command::Cd(Some(String::from("projects"))));
    assert_eq!(parse("cd a b").unwrap_err(), ParseError::ArityError(String::from("cd")));
}

#[test]
fn cat_takes_exactly_one_file() {
    assert_eq!(parse("cat notes.txt").unwrap(), Command::Cat(String::from("notes.txt")));
    assert_eq!(parse("cat").unwrap_err(), ParseError::ArityError(String::from("cat")));
    assert_eq!(parse("cat a b").unwrap_err(), ParseError::ArityError(String::from("cat")));
}

#[test]
fn rm_and_touch_need_an_argument() {
    assert_eq!(parse("rm").unwrap_err(), ParseError::ArityError(String::from("rm")));
    assert_eq!(parse("touch").unwrap_err(), ParseError::ArityError(String::from("touch")));
    assert_eq!(parse("touch a.txt").unwrap(), Command::Touch(words(&["a.txt"])));
}

#[test]
fn flags_are_split_from_positionals_in_order() {
    assert_eq!(
        parse("rm -f adir b.txt").unwrap(),
        Command::Rm(words(&["adir", "b.txt"]), words(&["-f"]))
    );
    assert_eq!(
        parse("rm a -f b -x").unwrap(),
        Command::Rm(words(&["a", "b"]), words(&["-f", "-x"]))
    );
    assert_eq!(parse("ls -l -a").unwrap(), Command::Ls(words(&["-l", "-a"])));
    assert_eq!(parse("ls stuff").unwrap(), Command::Ls(words(&[])));
}

#[test]
fn unknown_commands_are_reported_by_name() {
    assert_eq!(
        parse("frobnicate x").unwrap_err(),
        ParseError::UnknownCommand(String::from("frobnicate"))
    );
    assert_eq!(
        parse("Echo a").unwrap_err(),
        ParseError::UnknownCommand(String::from("Echo"))
    );
}
