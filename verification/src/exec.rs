//! The executor: for each parsed command, the decision of what is printed,
//! how the session changes, and which filesystem actions a host must perform.
//!
//! The library itself touches no filesystem. A host drives it: `dispatch`
//! turns a command into a `Directive`; where that directive needs the
//! filesystem, the host observes (what kind of entry a path names, a file's
//! contents, a directory's entries) and feeds the observation to the step
//! functions here, which decide the outcome for every possible observation.

use vstd::prelude::*;
use vstd::string::StrSliceExecFns;
use vstd::string::StringExecFns;

use crate::env::Env;
use crate::env::path_text;
use crate::env::resolved_text;
use crate::parser::Command;
use crate::parser::SpecCommand;
use crate::parser::flag_toks_of;
use crate::parser::is_flag_tok;
use crate::parser::is_space_char;
use crate::parser::positionals_of;
use crate::parser::tokens_of;

verus! {

/// What a path names on the filesystem, as the host observed it.
#[derive(Clone, Copy, Debug, PartialEq, Eq, Structural)]
pub enum EntryKind {
    Missing,
    File,
    Dir,
}

/// What a command prints: nothing, one line, or one line per entry.
#[derive(Debug, Clone, PartialEq)]
pub enum Output {
    Nothing,
    Line(String),
    Lines(Vec<String>),
}

/// The mathematical shape of an `Output`.
pub enum SpecOutput {
    Nothing,
    Line(Seq<char>),
    Lines(Seq<Seq<char>>),
}

impl View for Output {
    type V = SpecOutput;

    open spec fn view(&self) -> SpecOutput {
        match self {
            Output::Nothing => SpecOutput::Nothing,
            Output::Line(text) => SpecOutput::Line(text.deep_view()),
            Output::Lines(lines) => SpecOutput::Lines(lines.deep_view()),
        }
    }
}

/// A typed execution failure; the loop prints it and goes on.
#[derive(Debug, Clone, PartialEq)]
pub enum ExecError {
    /// `rm`: the named entry does not exist.
    NotFound(String),
    /// `rm` without the recursive flag on a directory.
    IsADirectory(String),
    /// `touch`: an entry of the given kind already sits at the name.
    AlreadyExists(String, EntryKind),
    /// `cd`: the target is not an existing directory.
    NotADirectory(String),
    /// `ls`: the working directory could not be read.
    IoError,
}

/// The mathematical shape of an `ExecError`.
pub enum SpecExecError {
    NotFound(Seq<char>),
    IsADirectory(Seq<char>),
    AlreadyExists(Seq<char>, EntryKind),
    NotADirectory(Seq<char>),
    IoError,
}

impl View for ExecError {
    type V = SpecExecError;

    open spec fn view(&self) -> SpecExecError {
        match self {
            ExecError::NotFound(name) => SpecExecError::NotFound(name.deep_view()),
            ExecError::IsADirectory(name) => SpecExecError::IsADirectory(name.deep_view()),
            ExecError::AlreadyExists(name, kind) => SpecExecError::AlreadyExists(
                name.deep_view(),
                *kind,
            ),
            ExecError::NotADirectory(name) => SpecExecError::NotADirectory(name.deep_view()),
            ExecError::IoError => SpecExecError::IoError,
        }
    }
}

/// One filesystem action a host must perform, with the full path text.
#[derive(Debug, Clone, PartialEq)]
pub enum FsAction {
    /// Delete the regular file; a failure of the deletion itself is ignored.
    RemoveFile(String),
    /// Delete the directory and everything under it; failures are ignored.
    RemoveDirAll(String),
    /// Create an empty file; a failure of the creation itself is ignored.
    CreateEmptyFile(String),
}

/// The mathematical shape of an `FsAction`.
pub enum SpecFsAction {
    RemoveFile(Seq<char>),
    RemoveDirAll(Seq<char>),
    CreateEmptyFile(Seq<char>),
}

impl View for FsAction {
    type V = SpecFsAction;

    open spec fn view(&self) -> SpecFsAction {
        match self {
            FsAction::RemoveFile(path) => SpecFsAction::RemoveFile(path.deep_view()),
            FsAction::RemoveDirAll(path) => SpecFsAction::RemoveDirAll(path.deep_view()),
            FsAction::CreateEmptyFile(path) => SpecFsAction::CreateEmptyFile(path.deep_view()),
        }
    }
}

/// The words joined with single spaces.
pub open spec fn join_spaces(ws: Seq<Seq<char>>) -> Seq<char>
    decreases ws.len(),
{
    if ws.len() == 0 {
        Seq::empty()
    } else if ws.len() == 1 {
        ws[0]
    } else {
        ws[0] + seq![' '] + join_spaces(ws.drop_first())
    }
}

pub proof fn lemma_join_spaces_push(ws: Seq<Seq<char>>, w: Seq<char>)
    ensures
        join_spaces(ws.push(w)) == (if ws.len() == 0 {
            w
        } else {
            join_spaces(ws) + seq![' '] + w
        }),
    decreases ws.len(),
{
    let p = ws.push(w);
    if ws.len() == 0 {
        assert(p.len() == 1);
        assert(p[0] == w);
    } else if ws.len() == 1 {
        assert(p.drop_first() =~= seq![w]);
        assert(join_spaces(seq![w]) == w);
        assert(join_spaces(p) == p[0] + seq![' '] + join_spaces(p.drop_first()));
        assert(join_spaces(ws) == ws[0]);
        assert(p[0] == ws[0]);
    } else {
        assert(p.drop_first() =~= ws.drop_first().push(w));
        lemma_join_spaces_push(ws.drop_first(), w);
        assert(join_spaces(p) == ws[0] + seq![' '] + (join_spaces(ws.drop_first()) + seq![' ']
            + w));
        assert(ws[0] + seq![' '] + (join_spaces(ws.drop_first()) + seq![' '] + w) =~= (ws[0]
            + seq![' '] + join_spaces(ws.drop_first())) + seq![' '] + w);
    }
}

/// The line `echo` prints: its words joined with single spaces.
pub fn echo_line(words: &Vec<String>) -> (r: String)
    ensures
        r@ == join_spaces(words.deep_view()),
{
    let ghost ws = words.deep_view();
    let mut out = String::new();
    let mut i: usize = 0;
    proof {
        assert(ws.take(0) =~= Seq::<Seq<char>>::empty());
    }
    while i < words.len()
        invariant
            i <= words@.len(),
            ws == words.deep_view(),
            ws.len() == words@.len(),
            forall|m: int| 0 <= m < words@.len() ==> (#[trigger] words@[m])@ == ws[m],
            out@ == join_spaces(ws.take(i as int)),
        decreases words@.len() - i,
    {
        if i > 0 {
            out.append(" ");
        }
        out.append(words[i].as_str());
        proof {
            reveal_strlit(" ");
            assert(ws.take(i + 1) =~= ws.take(i as int).push(ws[i as int]));
            lemma_join_spaces_push(ws.take(i as int), ws[i as int]);
            if i == 0 {
                assert(out@ =~= join_spaces(ws.take(1)));
            } else {
                assert(out@ =~= join_spaces(ws.take(i as int)) + seq![' '] + ws[i as int]);
            }
        }
        i = i + 1;
    }
    proof {
        assert(ws.take(ws.len() as int) =~= ws);
    }
    out
}

/// The terminal control text `clear` emits: clear the screen, then put the
/// cursor at row 1, column 1.
pub open spec fn clear_chars() -> Seq<char> {
    seq!['\u{1b}', '[', '2', 'J', '\u{1b}', '[', '1', ';', '1', 'H']
}

/// The text `clear` writes raw (no line break); the host must flush at once.
pub fn clear_text() -> (r: String)
    ensures
        r@ == clear_chars(),
{
    let out = String::from_str("\u{1b}[2J\u{1b}[1;1H");
    proof {
        reveal_strlit("\u{1b}[2J\u{1b}[1;1H");
        assert(out@ =~= clear_chars());
    }
    out
}

/// What `cat` prints, given what reading the file yielded: the contents on
/// success, and nothing at all when the read failed.
pub fn cat_output(contents: Option<String>) -> (r: Output)
    ensures
        (match contents {
            Some(text) => r@ == SpecOutput::Line(text@),
            None => r@ == SpecOutput::Nothing,
        }),
{
    match contents {
        Some(text) => Output::Line(text),
        None => Output::Nothing,
    }
}

/// What `ls` yields, given what reading the working directory yielded: one
/// line per entry, in the order the host observed them, or `IoError` when the
/// directory could not be read.
pub fn ls_output(entries: Option<Vec<String>>) -> (r: Result<Output, ExecError>)
    ensures
        (match entries {
            Some(names) => r matches Ok(o) && o@ == SpecOutput::Lines(names.deep_view()),
            None => r matches Err(e) && e@ == SpecExecError::IoError,
        }),
{
    match entries {
        Some(names) => Ok(Output::Lines(names)),
        None => Err(ExecError::IoError),
    }
}

/// Whether the flag list asks `rm` to delete directories recursively.
pub open spec fn has_recursive_flag(flags: Seq<Seq<char>>) -> bool {
    exists|i: int| 0 <= i < flags.len() && flags[i] == "-f"@
}

/// Whether a recursive flag (`-f`) is among the flags.
pub fn rm_is_recursive(flags: &Vec<String>) -> (r: bool)
    ensures
        r == has_recursive_flag(flags.deep_view()),
{
    let ghost fs = flags.deep_view();
    let mut i: usize = 0;
    while i < flags.len()
        invariant
            i <= flags@.len(),
            fs == flags.deep_view(),
            fs.len() == flags@.len(),
            forall|m: int| 0 <= m < flags@.len() ==> (#[trigger] flags@[m])@ == fs[m],
            forall|m: int| 0 <= m < i ==> fs[m] != "-f"@,
        decreases flags@.len() - i,
    {
        if crate::parser::str_eq(flags[i].as_str(), "-f") {
            return true;
        }
        i = i + 1;
    }
    false
}

/// The decision `rm` takes for one name, given what kind of entry the host
/// observed at the resolved path: a missing entry fails with `NotFound`, a
/// file is deleted, a directory is deleted only under the recursive flag and
/// fails with `IsADirectory` without it.
pub fn rm_step(env: &Env, name: &String, kind: EntryKind, recursive: bool) -> (r: Result<
    FsAction,
    ExecError,
>)
    ensures
        (match kind {
            EntryKind::Missing => r matches Err(e) && e@ == SpecExecError::NotFound(name@),
            EntryKind::File => r matches Ok(a) && a@ == SpecFsAction::RemoveFile(
                resolved_text(env.dirpath@, name@),
            ),
            EntryKind::Dir => {
                if recursive {
                    r matches Ok(a) && a@ == SpecFsAction::RemoveDirAll(
                        resolved_text(env.dirpath@, name@),
                    )
                } else {
                    r matches Err(e) && e@ == SpecExecError::IsADirectory(name@)
                }
            },
        }),
{
    match kind {
        EntryKind::Missing => Err(ExecError::NotFound(name.clone())),
        EntryKind::File => Ok(FsAction::RemoveFile(env.dirpath.resolve(name.as_str()))),
        EntryKind::Dir => {
            if recursive {
                Ok(FsAction::RemoveDirAll(env.dirpath.resolve(name.as_str())))
            } else {
                Err(ExecError::IsADirectory(name.clone()))
            }
        },
    }
}

/// The decision `touch` takes for one name, given what kind of entry the host
/// observed at the resolved path: where nothing exists an empty file is
/// created; any existing entry fails with `AlreadyExists` and its kind.
pub fn touch_step(env: &Env, name: &String, kind: EntryKind) -> (r: Result<FsAction, ExecError>)
    ensures
        (match kind {
            EntryKind::Missing => r matches Ok(a) && a@ == SpecFsAction::CreateEmptyFile(
                resolved_text(env.dirpath@, name@),
            ),
            EntryKind::File => r matches Err(e) && e@ == SpecExecError::AlreadyExists(
                name@,
                EntryKind::File,
            ),
            EntryKind::Dir => r matches Err(e) && e@ == SpecExecError::AlreadyExists(
                name@,
                EntryKind::Dir,
            ),
        }),
{
    match kind {
        EntryKind::Missing => Ok(
            FsAction::CreateEmptyFile(env.dirpath.resolve(name.as_str())),
        ),
        EntryKind::File => Err(ExecError::AlreadyExists(name.clone(), EntryKind::File)),
        EntryKind::Dir => Err(ExecError::AlreadyExists(name.clone(), EntryKind::Dir)),
    }
}

/// Where `cd` goes for a given target: `..` one level up (a no-op at the
/// root), `.` stays put, and any other target is appended as one new segment.
pub open spec fn cd_target(p: Seq<Seq<char>>, t: Seq<char>) -> Seq<Seq<char>> {
    if t == ".."@ {
        if p.len() == 0 {
            p
        } else {
            p.drop_last()
        }
    } else if t == "."@ {
        p
    } else {
        p.push(t)
    }
}

/// The path text the host must probe (is it an existing directory?) before
/// `cd` with a target commits.
pub fn cd_candidate(env: &Env, target: &String) -> (r: String)
    ensures
        r@ == path_text(cd_target(env.dirpath@, target@)),
{
    if crate::parser::str_eq(target.as_str(), "..") {
        env.dirpath.display_parent()
    } else if crate::parser::str_eq(target.as_str(), ".") {
        env.dirpath.display()
    } else {
        let r = env.dirpath.resolve(target.as_str());
        proof {
            let p = env.dirpath@;
            let q = p.push(target@);
            assert(q.drop_last() =~= p);
            assert(q.last() == target@);
            assert(path_text(q) == crate::env::segs_text(p) + seq!['/'] + target@);
        }
        r
    }
}

/// Applies `cd`. Without a target the working directory moves one level up
/// (the root stays the root). With a target, the host has probed whether the
/// candidate path is an existing directory: if it is, the move commits; if it
/// is not, the working directory is unchanged and `NotADirectory` comes back.
pub fn cd_apply(env: &mut Env, target: &Option<String>, target_is_dir: bool) -> (r: Result<
    (),
    ExecError,
>)
    ensures
        final(env).variables == old(env).variables,
        (match target {
            None => {
                &&& r is Ok
                &&& old(env).dirpath@.len() == 0 ==> final(env).dirpath@ == old(env).dirpath@
                &&& old(env).dirpath@.len() > 0 ==> final(env).dirpath@ == old(
                    env,
                ).dirpath@.drop_last()
            },
            Some(t) => {
                if target_is_dir {
                    r is Ok && final(env).dirpath@ == cd_target(old(env).dirpath@, t@)
                } else {
                    &&& r matches Err(e) && e@ == SpecExecError::NotADirectory(t@)
                    &&& final(env).dirpath@ == old(env).dirpath@
                }
            },
        }),
{
    match target {
        None => {
            env.dirpath.pop();
            Ok(())
        },
        Some(t) => {
            if target_is_dir {
                if crate::parser::str_eq(t.as_str(), "..") {
                    env.dirpath.pop();
                } else if crate::parser::str_eq(t.as_str(), ".") {
                } else {
                    env.dirpath.push(t.clone());
                }
                Ok(())
            } else {
                Err(ExecError::NotADirectory(t.clone()))
            }
        },
    }
}

/// Relies on whoami::username: the user name the operating system reports,
/// with a fixed fallback built in, so the call returns on every input.
#[verifier::external_body]
fn os_username() -> String {
    whoami::username()
}

/// The line `whoami` prints. Nothing is promised of its text: the name comes
/// from the host environment.
pub fn whoami_line() -> String {
    os_username()
}

fn clone_strings(v: &Vec<String>) -> (r: Vec<String>)
    ensures
        r@ == v@,
        r.deep_view() == v.deep_view(),
{
    let mut out: Vec<String> = Vec::new();
    let mut i: usize = 0;
    proof {
        assert(out@ =~= v@.take(0));
    }
    while i < v.len()
        invariant
            i <= v@.len(),
            out@ == v@.take(i as int),
        decreases v@.len() - i,
    {
        out.push(v[i].clone());
        proof {
            assert(v@.take(i + 1) =~= v@.take(i as int).push(v@[i as int]));
        }
        i = i + 1;
    }
    proof {
        assert(v@.take(v@.len() as int) =~= v@);
        assert(out.deep_view() =~= v.deep_view());
    }
    out
}

fn clone_opt_string(t: &Option<String>) -> (r: Option<String>)
    ensures
        r == *t,
{
    match t {
        Some(s) => Some(s.clone()),
        None => None,
    }
}

/// What the host must do for one command. `Print`, `ClearScreen` and `Exit`
/// are complete in themselves; the others name the filesystem work whose
/// observations feed `cat_output`, `ls_output`, `cd_apply`, `rm_step` and
/// `touch_step`.
#[derive(Debug, Clone, PartialEq)]
pub enum Directive {
    /// Print the output and go on.
    Print(Output),
    /// Write the raw control text and flush at once.
    ClearScreen(String),
    /// End the process with status 0.
    Exit,
    /// `cat`: read the file at the path, then `cat_output`.
    ReadFile(String),
    /// `ls`: read the entries of the directory, then `ls_output`.
    ListDir(String),
    /// `cd`: probe `cd_candidate` when there is a target, then `cd_apply`.
    ChangeDir(Option<String>),
    /// `rm`: for each name in order, observe the entry, then `rm_step`,
    /// stopping at the first error; earlier deletions stand.
    RemoveFiles(Vec<String>, bool),
    /// `touch`: for each name in order, observe the entry, then `touch_step`,
    /// stopping at the first error; earlier creations stand.
    CreateFiles(Vec<String>),
}

/// The single exhaustive dispatch from a command to what the host must do.
/// `Empty` prints nothing and never fails; `Echo` prints its words joined
/// with single spaces; `Pwd` prints the working directory; the filesystem
/// commands carry their names, resolved where one path decides.
pub fn dispatch(cmd: &Command, env: &Env) -> (d: Directive)
    ensures
        (match cmd@ {
            SpecCommand::Empty => d matches Directive::Print(o) && o@ == SpecOutput::Nothing,
            SpecCommand::Exit => d matches Directive::Exit,
            SpecCommand::Clear => d matches Directive::ClearScreen(s) && s@ == clear_chars(),
            SpecCommand::Echo(ws) => d matches Directive::Print(o) && o@ == SpecOutput::Line(
                join_spaces(ws),
            ),
            SpecCommand::Pwd => d matches Directive::Print(o) && o@ == SpecOutput::Line(
                path_text(env.dirpath@),
            ),
            SpecCommand::Whoami => d matches Directive::Print(o) && o@ matches SpecOutput::Line(
                _,
            ),
            SpecCommand::Cat(name) => d matches Directive::ReadFile(p) && p@ == resolved_text(
                env.dirpath@,
                name,
            ),
            SpecCommand::Ls(_) => d matches Directive::ListDir(p) && p@ == path_text(
                env.dirpath@,
            ),
            SpecCommand::Cd(t) => d matches Directive::ChangeDir(t2) && t2.deep_view() == t,
            SpecCommand::Rm(ns, fl) => d matches Directive::RemoveFiles(names, rec)
                && names.deep_view() == ns && rec == has_recursive_flag(fl),
            SpecCommand::Touch(ns) => d matches Directive::CreateFiles(names)
                && names.deep_view() == ns,
        }),
{
    match cmd {
        Command::Empty => Directive::Print(Output::Nothing),
        Command::Exit => Directive::Exit,
        Command::Clear => Directive::ClearScreen(clear_text()),
        Command::Echo(words) => Directive::Print(Output::Line(echo_line(words))),
        Command::Pwd => Directive::Print(Output::Line(env.dirpath.display())),
        Command::Whoami => Directive::Print(Output::Line(whoami_line())),
        Command::Cat(name) => Directive::ReadFile(env.dirpath.resolve(name.as_str())),
        Command::Ls(_) => Directive::ListDir(env.dirpath.display()),
        Command::Cd(target) => Directive::ChangeDir(clone_opt_string(target)),
        Command::Rm(names, flags) => Directive::RemoveFiles(
            clone_strings(names),
            rm_is_recursive(flags),
        ),
        Command::Touch(names) => Directive::CreateFiles(clone_strings(names)),
    }
}

pub proof fn lemma_tokens_word_prefix(w: Seq<char>, rest: Seq<char>)
    requires
        w.len() > 0,
        forall|i: int| 0 <= i < w.len() ==> !is_space_char(#[trigger] w[i]),
        rest.len() == 0 || is_space_char(rest[0]),
    ensures
        tokens_of(w + rest) == seq![w] + tokens_of(rest),
{
    let s = w + rest;
    assert(forall|m: int| 0 <= m < w.len() ==> !is_space_char(#[trigger] s[m]));
    assert(w.len() == s.len() || is_space_char(s[w.len() as int]));
    crate::parser::lemma_word_len_exact(s, w.len() as int);
    assert(s.take(w.len() as int) =~= w);
    assert(s.skip(w.len() as int) =~= rest);
    assert(!is_space_char(s[0]));
}

pub proof fn lemma_tokens_space_prefix(x: Seq<char>)
    ensures
        tokens_of(seq![' '] + x) == tokens_of(x),
{
    let s = seq![' '] + x;
    assert(is_space_char(s[0]));
    assert(s.drop_first() =~= x);
}

proof fn lemma_all_positional(ts: Seq<Seq<char>>)
    requires
        forall|i: int| 0 <= i < ts.len() ==> !is_flag_tok(#[trigger] ts[i]),
    ensures
        positionals_of(ts) == ts,
        flag_toks_of(ts) == Seq::<Seq<char>>::empty(),
    decreases ts.len(),
{
    if ts.len() == 0 {
        crate::parser::lemma_partition_empty();
        assert(positionals_of(ts) =~= ts);
    } else {
        let d = ts.drop_last();
        assert(forall|i: int| 0 <= i < d.len() ==> !is_flag_tok(#[trigger] d[i]));
        lemma_all_positional(d);
        crate::parser::lemma_partition_push(d, ts.last());
        assert(d.push(ts.last()) =~= ts);
        assert(positionals_of(ts) =~= ts);
    }
}

/// An ordinary word as `echo` takes it: nonempty, free of whitespace, and
/// not a flag (no leading `-`).
pub open spec fn plain_word(w: Seq<char>) -> bool {
    &&& w.len() > 0
    &&& !is_flag_tok(w)
    &&& forall|j: int| 0 <= j < w.len() ==> !is_space_char(#[trigger] w[j])
}

proof fn lemma_split_join(ts: Seq<Seq<char>>)
    requires
        forall|i: int| 0 <= i < ts.len() ==> plain_word(#[trigger] ts[i]),
    ensures
        tokens_of(join_spaces(ts)) == ts,
    decreases ts.len(),
{
    if ts.len() == 0 {
    } else if ts.len() == 1 {
        let w = ts[0];
        assert(plain_word(w));
        lemma_tokens_word_prefix(w, Seq::<char>::empty());
        assert(w + Seq::<char>::empty() =~= w);
        assert(join_spaces(ts) == w);
        assert(tokens_of(Seq::<char>::empty()) =~= Seq::<Seq<char>>::empty());
        assert(seq![w] + Seq::<Seq<char>>::empty() =~= ts);
    } else {
        let d = ts.drop_first();
        assert(forall|i: int| 0 <= i < d.len() ==> d[i] == ts[i + 1]);
        assert(forall|i: int| 0 <= i < d.len() ==> plain_word(#[trigger] d[i]));
        lemma_split_join(d);
        let w = ts[0];
        assert(plain_word(w));
        let rest = seq![' '] + join_spaces(d);
        assert(is_space_char(rest[0]));
        assert(join_spaces(ts) == (w + seq![' ']) + join_spaces(d));
        assert((w + seq![' ']) + join_spaces(d) =~= w + rest);
        lemma_tokens_word_prefix(w, rest);
        lemma_tokens_space_prefix(join_spaces(d));
        assert(tokens_of(join_spaces(ts)) == seq![w] + d);
        assert(seq![w] + d =~= ts);
    }
}

/// Echo round trip at the token level: tokens that are ordinary words
/// (nonempty, whitespace-free, no leading `-`) are partitioned entirely into
/// positional arguments, in their order; and joining such words with single
/// spaces, as `echo` prints them, then splitting the printed line back into
/// tokens reproduces the original words exactly.
pub proof fn lemma_echo_round_trip(ts: Seq<Seq<char>>)
    requires
        forall|i: int| 0 <= i < ts.len() ==> plain_word(#[trigger] ts[i]),
    ensures
        positionals_of(ts) == ts,
        flag_toks_of(ts) == Seq::<Seq<char>>::empty(),
        tokens_of(join_spaces(ts)) == ts,
{
    assert(forall|i: int| 0 <= i < ts.len() ==> !is_flag_tok(#[trigger] ts[i]));
    lemma_all_positional(ts);
    lemma_split_join(ts);
}

} // verus!

