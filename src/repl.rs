//! The decisions of the interactive shell: which built-in command a line of
//! input names, and the mode the shell runs in.

use vstd::prelude::*;
use vstd::string::*;

verus! {

/// What the shell does with each line that is no command.
#[derive(Clone, Copy, Debug, PartialEq, Eq, Structural)]
pub enum ReplMode {
    /// Evaluate each line and print the result.
    Eval,
    /// Print the tokens of each line.
    Tokens,
    /// Print the syntax tree of each line.
    Ast,
}

/// A line of input, read as a built-in command.
#[derive(Clone, Copy, Debug, PartialEq, Eq, Structural)]
pub enum ReplCommand {
    Help,
    Version,
    ShowMode,
    Quit,
    Clear,
    SwitchEval,
    SwitchTokens,
    SwitchAst,
    /// Not a command: source text to process in the current mode.
    Source,
}

/// The command that the trimmed line `s` names.
pub open spec fn command_of(s: Seq<char>) -> ReplCommand {
    if s == ":?"@ || s == ":h"@ || s == ":help"@ {
        ReplCommand::Help
    } else if s == ":v"@ || s == ":version"@ {
        ReplCommand::Version
    } else if s == ":m"@ || s == ":mode"@ {
        ReplCommand::ShowMode
    } else if s == ":q"@ || s == ":exit"@ || s == ":quit"@ {
        ReplCommand::Quit
    } else if s == ":c"@ || s == ":clear"@ {
        ReplCommand::Clear
    } else if s == ":e"@ || s == ":eval"@ {
        ReplCommand::SwitchEval
    } else if s == "t"@ || s == ":token"@ {
        ReplCommand::SwitchTokens
    } else if s == ":a"@ || s == ":ast"@ {
        ReplCommand::SwitchAst
    } else {
        ReplCommand::Source
    }
}

/// Whether `a` and `b` hold the same characters.
pub fn str_eq(a: &str, b: &str) -> (r: bool)
    ensures
        r == (a@ == b@),
{
    let n = a.unicode_len();
    if n != b.unicode_len() {
        return false;
    }
    let mut i: usize = 0;
    while i < n
        invariant
            n == a@.len(),
            n == b@.len(),
            i <= n,
            forall|j: int| 0 <= j < i ==> a@[j] == b@[j],
        decreases n - i,
    {
        if a.get_char(i) != b.get_char(i) {
            return false;
        }
        i = i + 1;
    }
    assert(a@ =~= b@);
    true
}

/// The command that the trimmed line `line` names.
pub fn classify(line: &str) -> (r: ReplCommand)
    ensures
        r == command_of(line@),
{
    if str_eq(line, ":?") || str_eq(line, ":h") || str_eq(line, ":help") {
        ReplCommand::Help
    } else if str_eq(line, ":v") || str_eq(line, ":version") {
        ReplCommand::Version
    } else if str_eq(line, ":m") || str_eq(line, ":mode") {
        ReplCommand::ShowMode
    } else if str_eq(line, ":q") || str_eq(line, ":exit") || str_eq(line, ":quit") {
        ReplCommand::Quit
    } else if str_eq(line, ":c") || str_eq(line, ":clear") {
        ReplCommand::Clear
    } else if str_eq(line, ":e") || str_eq(line, ":eval") {
        ReplCommand::SwitchEval
    } else if str_eq(line, "t") || str_eq(line, ":token") {
        ReplCommand::SwitchTokens
    } else if str_eq(line, ":a") || str_eq(line, ":ast") {
        ReplCommand::SwitchAst
    } else {
        ReplCommand::Source
    }
}

/// The mode after `cmd` in mode `mode`: a switch command selects its mode,
/// every other line keeps the mode.
pub fn next_mode(mode: ReplMode, cmd: ReplCommand) -> (r: ReplMode)
    ensures
        r == (match cmd {
            ReplCommand::SwitchEval => ReplMode::Eval,
            ReplCommand::SwitchTokens => ReplMode::Tokens,
            ReplCommand::SwitchAst => ReplMode::Ast,
            _ => mode,
        }),
{
    match cmd {
        ReplCommand::SwitchEval => ReplMode::Eval,
        ReplCommand::SwitchTokens => ReplMode::Tokens,
        ReplCommand::SwitchAst => ReplMode::Ast,
        _ => mode,
    }
}

} // verus!
