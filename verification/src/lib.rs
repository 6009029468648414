//! A small line-oriented command interpreter: a parser that turns one input
//! line into a structured `Command`, a session (`Env`) holding the current
//! working directory, and an executor that decides, for each command, what
//! must be printed, how the session changes, and which filesystem actions a
//! host must perform.

pub mod env;
pub mod exec;
pub mod parser;
