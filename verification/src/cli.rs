//! The command line of the program.

use vstd::prelude::*;
use vstd::string::*;
use crate::order::same_text;
use crate::text::{texts, texts_from};

verus! {

/// What the program is asked to do.
#[derive(Debug, PartialEq, Eq)]
pub enum Command {
    /// Fence the server that this command starts.
    Wrap(Vec<String>),
    /// Probe a server, as these arguments say.
    Probe(Vec<String>),
    /// Run the demonstration.
    Demo,
    /// Be the server that the demonstration probes.
    DemoServer,
    /// Serve the fence.
    Serve,
}

/// What a command stands for.
#[verifier::ext_equal]
pub enum CommandModel {
    Wrap(Seq<Seq<char>>),
    Probe(Seq<Seq<char>>),
    Demo,
    DemoServer,
    Serve,
}

impl View for Command {
    type V = CommandModel;

    open spec fn view(&self) -> CommandModel {
        match self {
            Command::Wrap(child) => CommandModel::Wrap(texts(child@)),
            Command::Probe(args) => CommandModel::Probe(texts(args@)),
            Command::Demo => CommandModel::Demo,
            Command::DemoServer => CommandModel::DemoServer,
            Command::Serve => CommandModel::Serve,
        }
    }
}

/// The arguments without the `--` that they start with.
pub open spec fn without_dashes(args: Seq<Seq<char>>) -> Seq<Seq<char>>
    decreases args.len(),
{
    if args.len() > 0 && args[0] == "--"@ {
        without_dashes(args.drop_first())
    } else {
        args
    }
}

/// What a command line, the program's name first, asks for.
pub open spec fn command_of(args: Seq<Seq<char>>) -> CommandModel {
    if args.len() < 2 {
        CommandModel::Serve
    } else if args[1] == "wrap"@ {
        CommandModel::Wrap(without_dashes(args.skip(2)))
    } else if args[1] == "probe"@ {
        CommandModel::Probe(args.skip(2))
    } else if args[1] == "demo"@ {
        CommandModel::Demo
    } else if args[1] == "__demo-server"@ {
        CommandModel::DemoServer
    } else {
        CommandModel::Serve
    }
}

/// What a command line, the program's name first, asks for. What is not a
/// command of its own serves the fence.
pub fn command(args: &Vec<String>) -> (c: Command)
    ensures
        c@ == command_of(texts(args@)),
{
    if args.len() < 2 {
        return Command::Serve;
    }
    let word: &str = args[1].as_str();
    if same_text(word, "wrap") {
        let mut start: usize = 2;
        while start < args.len() && same_text(args[start].as_str(), "--")
            invariant
                2 <= start <= args@.len(),
                without_dashes(texts(args@).skip(2)) == without_dashes(
                    texts(args@).skip(start as int),
                ),
            ensures
                without_dashes(texts(args@).skip(2)) == texts(args@).skip(start as int),
                start <= args@.len(),
            decreases args@.len() - start,
        {
            assert(texts(args@).skip(start as int).drop_first() =~= texts(args@).skip(start + 1));
            start = start + 1;
        }
        Command::Wrap(texts_from(args, start))
    } else if same_text(word, "probe") {
        Command::Probe(texts_from(args, 2))
    } else if same_text(word, "demo") {
        Command::Demo
    } else if same_text(word, "__demo-server") {
        Command::DemoServer
    } else {
        Command::Serve
    }
}

} // verus!
