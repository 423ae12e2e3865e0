//! The commands of the interactive prompt.

use crate::text::{same_text, texts_view};
use vstd::prelude::*;

verus! {

/// What a line typed at the prompt asks for.
#[derive(Debug, Clone, PartialEq, Eq)]
pub enum ReplCommand {
    /// Nothing: the line holds only blanks.
    Empty,
    /// List the definitions.
    List,
    /// Run the definition of this name.
    Run(String),
    /// Run all tests.
    Test,
    /// Leave the prompt.
    Exit,
    /// None of the commands; this is the word that was typed.
    Unknown(String),
}

/// A command as plain values.
pub enum Command {
    Empty,
    List,
    Run(Seq<char>),
    Test,
    Exit,
    Unknown(Seq<char>),
}

impl View for ReplCommand {
    type V = Command;

    open spec fn view(&self) -> Command {
        match self {
            ReplCommand::Empty => Command::Empty,
            ReplCommand::List => Command::List,
            ReplCommand::Run(name) => Command::Run(name@),
            ReplCommand::Test => Command::Test,
            ReplCommand::Exit => Command::Exit,
            ReplCommand::Unknown(word) => Command::Unknown(word@),
        }
    }
}

/// The words of `line`: what stands between its blanks.
pub uninterp spec fn words_of(line: Seq<char>) -> Seq<Seq<char>>;

/// `str::split_whitespace`: the words of `line`, in order.
#[verifier::external_body]
fn words(line: &str) -> (r: Vec<String>)
    ensures
        texts_view(r@) == words_of(line@),
{
    line.split_whitespace().map(|word| word.to_string()).collect()
}

/// The command that the words of a line make. The first word names the
/// command; `run` takes the second word as the name of what to run, and
/// without one is no command; what follows is not looked at.
pub open spec fn command_named(words: Seq<Seq<char>>) -> Command {
    if words.len() == 0 {
        Command::Empty
    } else if words[0] == "list"@ {
        Command::List
    } else if words[0] == "run"@ && words.len() >= 2 {
        Command::Run(words[1])
    } else if words[0] == "test"@ {
        Command::Test
    } else if words[0] == "exit"@ || words[0] == "quit"@ {
        Command::Exit
    } else {
        Command::Unknown(words[0])
    }
}

/// Computes [`command_named`].
pub fn command_of(words: &Vec<String>) -> (r: ReplCommand)
    ensures
        r@ == command_named(texts_view(words@)),
{
    if words.len() == 0 {
        return ReplCommand::Empty;
    }
    let first = words[0].as_str();
    assert(texts_view(words@)[0] == first@);
    if same_text(first, "list") {
        ReplCommand::List
    } else if same_text(first, "run") && words.len() >= 2 {
        assert(texts_view(words@)[1] == words[1]@);
        ReplCommand::Run(words[1].clone())
    } else if same_text(first, "test") {
        ReplCommand::Test
    } else if same_text(first, "exit") || same_text(first, "quit") {
        ReplCommand::Exit
    } else {
        ReplCommand::Unknown(words[0].clone())
    }
}

/// What `line` asks for.
pub fn parse_command(line: &str) -> (r: ReplCommand)
    ensures
        r@ == command_named(words_of(line@)),
{
    let parts = words(line);
    command_of(&parts)
}

} // verus!
