use minishell::env::{DirPath, Env};
use minishell::exec::{
    cat_output, cd_apply, cd_candidate, clear_text, dispatch, echo_line, ls_output,
    rm_is_recursive, rm_step, touch_step, Directive, EntryKind, ExecError, FsAction, Output,
};
use minishell::parser::{Command, Parser};

fn words(ws: &[&str]) -> Vec<String> {
    ws.iter().map(|w| String::from(*w)).collect()
}

fn env_at(segs: &[&str]) -> Env {
    Env::new(DirPath::from_segments(words(segs)))
}

#[test]
fn empty_command_prints_nothing() {
    let env = env_at(&["home", "user"]);
    let d = dispatch(&Command::Empty, &env);
    assert_eq!(d, Directive::Print(Output::Nothing));
}

#[test]
fn echo_prints_words_joined_with_single_spaces() {
    let cmd = Parser::new(String::from("echo a b c")).parse().unwrap();
    assert_eq!(cmd, Command::Echo(words(&["a", "b", "c"])));
    assert_eq!(echo_line(&words(&["a", "b", "c"])), "a b c");
    let env = env_at(&[]);
    let d = dispatch(&cmd, &env);
    assert_eq!(d, Directive::Print(Output::Line(String::from("a b c"))));
}

#[test]
fn echo_round_trip_through_parse() {
    let cmd = Parser::new(String::from("echo  a   b c ")).parse().unwrap();
    let args = match cmd {
        Command::Echo(args) => args,
        other => panic!("expected echo, got {:?}", other),
    };
    let line = echo_line(&args);
    assert_eq!(line, "a b c");
    let again = Parser::new(format!("echo {}", line)).parse().unwrap();
    assert_eq!(again, Command::Echo(args));
}

#[test]
fn cd_without_target_goes_up_one_level() {
    let mut env = env_at(&["home", "user", "project"]);
    let r = cd_apply(&mut env, &None, false);
    assert!(r.is_ok());
    assert_eq!(env.dirpath.display(), "/home/user");
}

#[test]
fn cd_at_root_stays_at_root() {
    let mut env = env_at(&[]);
    let r = cd_apply(&mut env, &None, false);
    assert!(r.is_ok());
    assert_eq!(env.dirpath.display(), "/");
}

#[test]
fn cd_to_missing_directory_fails_and_keeps_the_directory() {
    let mut env = env_at(&["home", "user"]);
    let target = Some(String::from("missing_dir"));
    assert_eq!(
        cd_candidate(&env, target.as_ref().unwrap()),
        "/home/user/missing_dir"
    );
    let r = cd_apply(&mut env, &target, false);
    assert_eq!(r.unwrap_err(), ExecError::NotADirectory(String::from("missing_dir")));
    assert_eq!(env.dirpath.display(), "/home/user");
}

#[test]
fn cd_to_existing_directory_commits() {
    let mut env = env_at(&["home", "user"]);
    let target = Some(String::from("project"));
    let r = cd_apply(&mut env, &target, true);
    assert!(r.is_ok());
    assert_eq!(env.dirpath.display(), "/home/user/project");
}

#[test]
fn cd_dotdot_normalizes_to_the_parent() {
    let mut env = env_at(&["home", "user"]);
    let target = Some(String::from(".."));
    assert_eq!(cd_candidate(&env, target.as_ref().unwrap()), "/home");
    let r = cd_apply(&mut env, &target, true);
    assert!(r.is_ok());
    assert_eq!(env.dirpath.display(), "/home");
}

#[test]
fn touch_creates_once_then_reports_already_exists() {
    let env = env_at(&["home", "user"]);
    let name = String::from("a.txt");
    let first = touch_step(&env, &name, EntryKind::Missing);
    assert_eq!(
        first.unwrap(),
        FsAction::CreateEmptyFile(String::from("/home/user/a.txt"))
    );
    let second = touch_step(&env, &name, EntryKind::File);
    assert_eq!(
        second.unwrap_err(),
        ExecError::AlreadyExists(String::from("a.txt"), EntryKind::File)
    );
    let on_dir = touch_step(&env, &name, EntryKind::Dir);
    assert_eq!(
        on_dir.unwrap_err(),
        ExecError::AlreadyExists(String::from("a.txt"), EntryKind::Dir)
    );
}

#[test]
fn rm_missing_file_is_not_found() {
    let env = env_at(&["home", "user"]);
    let r = rm_step(&env, &String::from("nope.txt"), EntryKind::Missing, false);
    assert_eq!(r.unwrap_err(), ExecError::NotFound(String::from("nope.txt")));
}

#[test]
fn rm_directory_needs_the_recursive_flag() {
    let env = env_at(&["home", "user"]);
    let name = String::from("adir");
    let without = rm_step(&env, &name, EntryKind::Dir, false);
    assert_eq!(without.unwrap_err(), ExecError::IsADirectory(String::from("adir")));
    let with = rm_step(&env, &name, EntryKind::Dir, true);
    assert_eq!(with.unwrap(), FsAction::RemoveDirAll(String::from("/home/user/adir")));
}

#[test]
fn rm_plain_file_is_deleted() {
    let env = env_at(&["home", "user"]);
    let r = rm_step(&env, &String::from("b.txt"), EntryKind::File, false);
    assert_eq!(r.unwrap(), FsAction::RemoveFile(String::from("/home/user/b.txt")));
}

#[test]
fn recursive_flag_is_recognized() {
    assert!(rm_is_recursive(&words(&["-f"])));
    assert!(rm_is_recursive(&words(&["-x", "-f"])));
    assert!(!rm_is_recursive(&words(&["-x"])));
    assert!(!rm_is_recursive(&words(&[])));
}

#[test]
fn ls_on_an_empty_directory_emits_zero_lines() {
    let r = ls_output(Some(Vec::new()));
    assert_eq!(r.unwrap(), Output::Lines(Vec::new()));
}

#[test]
fn ls_keeps_entry_order_and_surfaces_read_failure() {
    let r = ls_output(Some(words(&["b", "a", "c"])));
    assert_eq!(r.unwrap(), Output::Lines(words(&["b", "a", "c"])));
    let bad = ls_output(None);
    assert_eq!(bad.unwrap_err(), ExecError::IoError);
}

#[test]
fn cat_prints_contents_and_swallows_read_failure() {
    assert_eq!(
        cat_output(Some(String::from("hello\n"))),
        Output::Line(String::from("hello\n"))
    );
    assert_eq!(cat_output(None), Output::Nothing);
}

#[test]
fn pwd_prints_the_working_directory() {
    let env = env_at(&["home", "user", "project"]);
    let d = dispatch(&Command::Pwd, &env);
    assert_eq!(d, Directive::Print(Output::Line(String::from("/home/user/project"))));
    let root = env_at(&[]);
    let d = dispatch(&Command::Pwd, &root);
    assert_eq!(d, Directive::Print(Output::Line(String::from("/"))));
}

#[test]
fn clear_emits_the_escape_sequence() {
    assert_eq!(clear_text(), "\u{1b}[2J\u{1b}[1;1H");
    let env = env_at(&[]);
    let d = dispatch(&Command::Clear, &env);
    assert_eq!(d, Directive::ClearScreen(String::from("\u{1b}[2J\u{1b}[1;1H")));
}

#[test]
fn whoami_prints_one_line() {
    let env = env_at(&[]);
    let d = dispatch(&Command::Whoami, &env);
    assert!(matches!(d, Directive::Print(Output::Line(_))));
}

#[test]
fn cat_resolves_against_the_working_directory() {
    let env = env_at(&["home", "user"]);
    let d = dispatch(&Command::Cat(String::from("notes.txt")), &env);
    assert_eq!(d, Directive::ReadFile(String::from("/home/user/notes.txt")));
}

#[test]
fn rm_dispatch_carries_names_and_recursive_flag() {
    let env = env_at(&["home", "user"]);
    let cmd = Command::Rm(words(&["a", "b"]), words(&["-f"]));
    let d = dispatch(&cmd, &env);
    assert_eq!(d, Directive::RemoveFiles(words(&["a", "b"]), true));
    let cmd = Command::Touch(words(&["a"]));
    assert_eq!(dispatch(&cmd, &env), Directive::CreateFiles(words(&["a"])));
    let cmd = Command::Ls(words(&["-l"]));
    assert_eq!(dispatch(&cmd, &env), Directive::ListDir(String::from("/home/user")));
    assert_eq!(dispatch(&Command::Exit, &env), Directive::Exit);
}

#[test]
fn a_fresh_session_has_no_variables() {
    let env = Env::new(DirPath::root());
    assert!(env.variables.is_empty());
    assert_eq!(env.dirpath.display(), "/");
}

#[test]
fn paths_display_and_resolve() {
    let mut p = DirPath::from_segments(words(&["home", "user"]));
    assert_eq!(p.display(), "/home/user");
    assert_eq!(p.display_parent(), "/home");
    assert_eq!(p.resolve("f.txt"), "/home/user/f.txt");
    assert_eq!(p.depth(), 2);
    p.pop();
    assert_eq!(p.display(), "/home");
    p.pop();
    assert_eq!(p.display(), "/");
    p.pop();
    assert_eq!(p.display(), "/");
    assert_eq!(p.resolve("f.txt"), "/f.txt");
    p.push(String::from("etc"));
    assert_eq!(p.display(), "/etc");
}
