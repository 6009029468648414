//! The parser: turns one raw input line into one structured `Command`, or a
//! typed parse error.
//!
//! A line is split on runs of whitespace into tokens. The first token names
//! the command; the remaining tokens are partitioned, in encounter order, into
//! positional arguments (no leading `-`) and flags (leading `-`).

use vstd::prelude::*;
use vstd::string::StrSliceExecFns;
use vstd::string::StringExecFns;

verus! {

/// The whitespace characters a line is split on.
pub open spec fn is_space_char(c: char) -> bool {
    c == ' ' || c == '\t' || c == '\n' || c == '\r'
}

/// The length of the maximal whitespace-free prefix.
pub open spec fn word_len(s: Seq<char>) -> nat
    decreases s.len(),
{
    if s.len() == 0 || is_space_char(s[0]) {
        0
    } else {
        word_len(s.drop_first()) + 1
    }
}

pub proof fn lemma_word_len_le(s: Seq<char>)
    ensures
        word_len(s) <= s.len(),
    decreases s.len(),
{
    if s.len() > 0 && !is_space_char(s[0]) {
        lemma_word_len_le(s.drop_first());
    }
}

/// The tokens of a line: the maximal whitespace-free words, in order.
pub open spec fn tokens_of(s: Seq<char>) -> Seq<Seq<char>>
    decreases s.len(),
    via tokens_of_decreases
{
    if s.len() == 0 {
        Seq::empty()
    } else if is_space_char(s[0]) {
        tokens_of(s.drop_first())
    } else {
        seq![s.take(word_len(s) as int)] + tokens_of(s.skip(word_len(s) as int))
    }
}

#[via_fn]
proof fn tokens_of_decreases(s: Seq<char>) {
    if s.len() > 0 && !is_space_char(s[0]) {
        lemma_word_len_le(s);
    }
}

/// `word_len` is exactly the position of the first whitespace character, or
/// the whole length when there is none.
pub proof fn lemma_word_len_exact(s: Seq<char>, k: int)
    requires
        0 <= k <= s.len(),
        forall|m: int| 0 <= m < k ==> !is_space_char(#[trigger] s[m]),
        k == s.len() || is_space_char(s[k]),
    ensures
        word_len(s) == k,
    decreases k,
{
    if k == 0 {
    } else {
        let d = s.drop_first();
        assert(forall|m: int| 0 <= m < k - 1 ==> !is_space_char(#[trigger] d[m]));
        assert(k - 1 == d.len() || is_space_char(d[k - 1]));
        lemma_word_len_exact(d, k - 1);
    }
}

fn is_space(c: char) -> (r: bool)
    ensures
        r == is_space_char(c),
{
    c == ' ' || c == '\t' || c == '\n' || c == '\r'
}

/// Whether two string slices hold the same characters.
pub fn str_eq(a: &str, b: &str) -> (r: bool)
    ensures
        r == (a@ == b@),
{
    let alen = a.unicode_len();
    let blen = b.unicode_len();
    if alen != blen {
        return false;
    }
    let mut i: usize = 0;
    while i < alen
        invariant
            0 <= i <= alen,
            alen == a@.len(),
            alen == b@.len(),
            forall|m: int| 0 <= m < i ==> a@[m] == b@[m],
        decreases alen - i,
    {
        if a.get_char(i) != b.get_char(i) {
            return false;
        }
        i = i + 1;
    }
    proof {
        assert(a@ =~= b@);
    }
    true
}

/// Splits a line into its whitespace-separated tokens.
pub fn tokenize(s: &str) -> (tokens: Vec<String>)
    ensures
        tokens.deep_view() == tokens_of(s@),
        forall|i: int|
            0 <= i < tokens@.len() ==> (#[trigger] tokens@[i])@ == tokens.deep_view()[i],
{
    let len = s.unicode_len();
    let mut tokens: Vec<String> = Vec::new();
    let mut i: usize = 0;
    proof {
        assert(tokens.deep_view() =~= Seq::<Seq<char>>::empty());
        assert(s@.skip(0) =~= s@);
        assert(tokens.deep_view() + tokens_of(s@.skip(0)) =~= tokens_of(s@));
    }
    while i < len
        invariant
            0 <= i <= len,
            len == s@.len(),
            tokens.deep_view() + tokens_of(s@.skip(i as int)) == tokens_of(s@),
        decreases len - i,
    {
        let c = s.get_char(i);
        if is_space(c) {
            proof {
                assert(s@.skip(i as int).drop_first() =~= s@.skip(i + 1));
            }
            i = i + 1;
        } else {
            let start = i;
            let mut j: usize = i;
            while j < len && !is_space(s.get_char(j))
                invariant
                    start <= j <= len,
                    len == s@.len(),
                    forall|m: int| start <= m < j ==> !is_space_char(#[trigger] s@[m]),
                decreases len - j,
            {
                j = j + 1;
            }
            let word = s.substring_char(start, j);
            let ghost old_tokens = tokens.deep_view();
            tokens.push(String::from_str(word));
            proof {
                let rest = s@.skip(start as int);
                assert(forall|m: int|
                    0 <= m < j - start ==> !is_space_char(#[trigger] rest[m]));
                assert(j - start == rest.len() || is_space_char(rest[j - start]));
                lemma_word_len_exact(rest, j - start);
                assert(rest.take((j - start) as int) =~= s@.subrange(
                    start as int,
                    j as int,
                ));
                assert(rest.skip((j - start) as int) =~= s@.skip(j as int));
                assert(tokens.deep_view() =~= old_tokens.push(word@));
                assert(tokens_of(rest) == seq![word@] + tokens_of(s@.skip(j as int)));
                assert(tokens.deep_view() + tokens_of(s@.skip(j as int)) =~= old_tokens
                    + tokens_of(rest));
            }
            i = j;
        }
    }
    proof {
        assert(s@.skip(len as int) =~= Seq::<char>::empty());
        assert(tokens.deep_view() =~= tokens_of(s@));
    }
    tokens
}

/// A token with a leading `-`, consumed as a flag.
pub open spec fn is_flag_tok(t: Seq<char>) -> bool {
    t.len() > 0 && t[0] == '-'
}

/// The positional arguments among the tokens, in order.
pub open spec fn positionals_of(ts: Seq<Seq<char>>) -> Seq<Seq<char>> {
    ts.filter(|t: Seq<char>| !is_flag_tok(t))
}

/// The flags among the tokens, in order.
pub open spec fn flag_toks_of(ts: Seq<Seq<char>>) -> Seq<Seq<char>> {
    ts.filter(|t: Seq<char>| is_flag_tok(t))
}

pub proof fn lemma_partition_push(ts: Seq<Seq<char>>, t: Seq<char>)
    ensures
        positionals_of(ts.push(t)) == (if is_flag_tok(t) {
            positionals_of(ts)
        } else {
            positionals_of(ts).push(t)
        }),
        flag_toks_of(ts.push(t)) == (if is_flag_tok(t) {
            flag_toks_of(ts).push(t)
        } else {
            flag_toks_of(ts)
        }),
{
    reveal(Seq::filter);
    assert(ts.push(t).drop_last() =~= ts);
    assert(ts.push(t).last() == t);
}

pub proof fn lemma_partition_empty()
    ensures
        positionals_of(Seq::<Seq<char>>::empty()) == Seq::<Seq<char>>::empty(),
        flag_toks_of(Seq::<Seq<char>>::empty()) == Seq::<Seq<char>>::empty(),
{
    reveal(Seq::filter);
}

/// One structured user request. A command owns its strings; nothing refers
/// back into the input line.
#[derive(Debug, Clone, PartialEq)]
pub enum Command {
    Empty,
    Clear,
    Exit,
    Echo(Vec<String>),
    Ls(Vec<String>),
    Pwd,
    Cd(Option<String>),
    Touch(Vec<String>),
    Rm(Vec<String>, Vec<String>),
    Cat(String),
    Whoami,
}

/// The mathematical shape of a `Command`: every string as its characters.
pub enum SpecCommand {
    Empty,
    Clear,
    Exit,
    Echo(Seq<Seq<char>>),
    Ls(Seq<Seq<char>>),
    Pwd,
    Cd(Option<Seq<char>>),
    Touch(Seq<Seq<char>>),
    Rm(Seq<Seq<char>>, Seq<Seq<char>>),
    Cat(Seq<char>),
    Whoami,
}

impl View for Command {
    type V = SpecCommand;

    open spec fn view(&self) -> SpecCommand {
        match self {
            Command::Empty => SpecCommand::Empty,
            Command::Clear => SpecCommand::Clear,
            Command::Exit => SpecCommand::Exit,
            Command::Echo(words) => SpecCommand::Echo(words.deep_view()),
            Command::Ls(flags) => SpecCommand::Ls(flags.deep_view()),
            Command::Pwd => SpecCommand::Pwd,
            Command::Cd(target) => SpecCommand::Cd(target.deep_view()),
            Command::Touch(names) => SpecCommand::Touch(names.deep_view()),
            Command::Rm(names, flags) => SpecCommand::Rm(names.deep_view(), flags.deep_view()),
            Command::Cat(name) => SpecCommand::Cat(name.deep_view()),
            Command::Whoami => SpecCommand::Whoami,
        }
    }
}

/// A failure to turn a line into a command.
#[derive(Debug, Clone, PartialEq)]
pub enum ParseError {
    /// The first token names no known command.
    UnknownCommand(String),
    /// The named command got the wrong number of positional arguments.
    ArityError(String),
}

/// The mathematical shape of a `ParseError`.
pub enum SpecParseError {
    UnknownCommand(Seq<char>),
    ArityError(Seq<char>),
}

impl View for ParseError {
    type V = SpecParseError;

    open spec fn view(&self) -> SpecParseError {
        match self {
            ParseError::UnknownCommand(name) => SpecParseError::UnknownCommand(name.deep_view()),
            ParseError::ArityError(name) => SpecParseError::ArityError(name.deep_view()),
        }
    }
}

/// The command, or parse error, that a token list denotes.
pub open spec fn parse_tokens(toks: Seq<Seq<char>>) -> Result<SpecCommand, SpecParseError> {
    if toks.len() == 0 {
        Ok(SpecCommand::Empty)
    } else {
        let name = toks[0];
        let args = positionals_of(toks.drop_first());
        let flags = flag_toks_of(toks.drop_first());
        if name == "exit"@ {
            Ok(SpecCommand::Exit)
        } else if name == "clear"@ {
            Ok(SpecCommand::Clear)
        } else if name == "ls"@ {
            Ok(SpecCommand::Ls(flags))
        } else if name == "whoami"@ {
            Ok(SpecCommand::Whoami)
        } else if name == "pwd"@ {
            Ok(SpecCommand::Pwd)
        } else if name == "cd"@ {
            if args.len() == 0 {
                Ok(SpecCommand::Cd(None))
            } else if args.len() == 1 {
                Ok(SpecCommand::Cd(Some(args[0])))
            } else {
                Err(SpecParseError::ArityError("cd"@))
            }
        } else if name == "echo"@ {
            if args.len() >= 1 {
                Ok(SpecCommand::Echo(args))
            } else {
                Err(SpecParseError::ArityError("echo"@))
            }
        } else if name == "rm"@ {
            if args.len() >= 1 {
                Ok(SpecCommand::Rm(args, flags))
            } else {
                Err(SpecParseError::ArityError("rm"@))
            }
        } else if name == "touch"@ {
            if args.len() >= 1 {
                Ok(SpecCommand::Touch(args))
            } else {
                Err(SpecParseError::ArityError("touch"@))
            }
        } else if name == "cat"@ {
            if args.len() == 1 {
                Ok(SpecCommand::Cat(args[0]))
            } else {
                Err(SpecParseError::ArityError("cat"@))
            }
        } else {
            Err(SpecParseError::UnknownCommand(name))
        }
    }
}

/// The command, or parse error, that a raw line denotes.
pub open spec fn parse_result(s: Seq<char>) -> Result<SpecCommand, SpecParseError> {
    parse_tokens(tokens_of(s))
}

/// A line of blanks alone (or nothing at all) always parses to `Empty`.
pub proof fn lemma_blank_line_parses_empty(s: Seq<char>)
    requires
        forall|i: int| 0 <= i < s.len() ==> is_space_char(#[trigger] s[i]),
    ensures
        parse_result(s) == Ok::<SpecCommand, SpecParseError>(SpecCommand::Empty),
    decreases s.len(),
{
    if s.len() == 0 {
    } else {
        let d = s.drop_first();
        assert(forall|i: int| 0 <= i < d.len() ==> is_space_char(#[trigger] d[i]));
        lemma_blank_line_parses_empty(d);
    }
}

/// Holds one raw input line.
pub struct Parser {
    input: String,
}

impl View for Parser {
    type V = Seq<char>;

    closed spec fn view(&self) -> Seq<char> {
        self.input@
    }
}

impl Parser {
    /// Wraps a raw line for parsing.
    pub fn new(input: String) -> (p: Parser)
        ensures
            p@ == input@,
    {
        Parser { input }
    }

    /// Parses the held line: splits it into tokens, partitions the tokens
    /// after the first into positional arguments and flags, and builds the
    /// command the first token names, or the error `parse_result` assigns.
    pub fn parse(&self) -> (r: Result<Command, ParseError>)
        ensures
            (match (r, parse_result(self@)) {
                (Ok(c), Ok(sc)) => c@ == sc,
                (Err(e), Err(se)) => e@ == se,
                _ => false,
            }),
    {
        let toks = tokenize(self.input.as_str());
        if toks.len() == 0 {
            return Ok(Command::Empty);
        }
        let mut args: Vec<String> = Vec::new();
        let mut flags: Vec<String> = Vec::new();
        let ghost all = toks.deep_view();
        let mut k: usize = 1;
        proof {
            lemma_partition_empty();
            assert(all.subrange(1, 1) =~= Seq::<Seq<char>>::empty());
        }
        while k < toks.len()
            invariant
                1 <= k <= toks@.len(),
                toks@.len() == all.len(),
                all == toks.deep_view(),
                forall|i: int| 0 <= i < toks@.len() ==> (#[trigger] toks@[i])@ == all[i],
                args.deep_view() == positionals_of(all.subrange(1, k as int)),
                flags.deep_view() == flag_toks_of(all.subrange(1, k as int)),
            decreases toks@.len() - k,
        {
            let t = toks[k].clone();
            let flagged = t.as_str().unicode_len() > 0 && t.as_str().get_char(0) == '-';
            proof {
                assert(all.subrange(1, k + 1) =~= all.subrange(1, k as int).push(all[k as int]));
                lemma_partition_push(all.subrange(1, k as int), all[k as int]);
            }
            if flagged {
                let ghost old_flags = flags.deep_view();
                flags.push(t);
                proof {
                    assert(flags.deep_view() =~= old_flags.push(all[k as int]));
                }
            } else {
                let ghost old_args = args.deep_view();
                args.push(t);
                proof {
                    assert(args.deep_view() =~= old_args.push(all[k as int]));
                }
            }
            k = k + 1;
        }
        proof {
            assert(all.subrange(1, all.len() as int) =~= all.drop_first());
        }
        let name = &toks[0];
        if str_eq(name.as_str(), "exit") {
            Ok(Command::Exit)
        } else if str_eq(name.as_str(), "clear") {
            Ok(Command::Clear)
        } else if str_eq(name.as_str(), "ls") {
            Ok(Command::Ls(flags))
        } else if str_eq(name.as_str(), "whoami") {
            Ok(Command::Whoami)
        } else if str_eq(name.as_str(), "pwd") {
            Ok(Command::Pwd)
        } else if str_eq(name.as_str(), "cd") {
            if args.len() == 0 {
                Ok(Command::Cd(None))
            } else if args.len() == 1 {
                let target = args[0].clone();
                Ok(Command::Cd(Some(target)))
            } else {
                Err(ParseError::ArityError(String::from_str("cd")))
            }
        } else if str_eq(name.as_str(), "echo") {
            if args.len() >= 1 {
                Ok(Command::Echo(args))
            } else {
                Err(ParseError::ArityError(String::from_str("echo")))
            }
        } else if str_eq(name.as_str(), "rm") {
            if args.len() >= 1 {
                Ok(Command::Rm(args, flags))
            } else {
                Err(ParseError::ArityError(String::from_str("rm")))
            }
        } else if str_eq(name.as_str(), "touch") {
            if args.len() >= 1 {
                Ok(Command::Touch(args))
            } else {
                Err(ParseError::ArityError(String::from_str("touch")))
            }
        } else if str_eq(name.as_str(), "cat") {
            if args.len() == 1 {
                let file = args[0].clone();
                Ok(Command::Cat(file))
            } else {
                Err(ParseError::ArityError(String::from_str("cat")))
            }
        } else {
            Err(ParseError::UnknownCommand(name.clone()))
        }
    }
}

} // verus!
