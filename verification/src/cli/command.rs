//! The commands, and what each takes.

use super::options::{say_unexpected, unexpected};
use super::{render_audio, shot};
use crate::attach::messages::suggestions;
use crate::attach::session::SessionModel;
use crate::text::{concat3, maybe, same, starts_with, strings};
use vstd::prelude::*;
use vstd::slice::slice_subrange;
use vstd::string::StringExecFns;

verus! {

/// What a command line asks for.
pub enum Command {
    Help,
    Version,
    /// Serve the VM to an agent, with the root that the options name.
    Mcp { root: Option<String> },
    /// Play a file on its own VM.
    Run { file: String },
    /// Join a running server and play its VM.
    Attach { workdir: Option<String> },
    RenderAudio { args: render_audio::Args },
    Shot { args: shot::Args },
}

/// What a [`Command`] says.
pub enum CommandModel {
    Help,
    Version,
    Mcp { root: Option<Seq<char>> },
    Run { file: Seq<char> },
    Attach { workdir: Option<Seq<char>> },
    RenderAudio { args: render_audio::ArgsModel },
    Shot { args: shot::ArgsModel },
}

impl View for Command {
    type V = CommandModel;

    open spec fn view(&self) -> CommandModel {
        match *self {
            Command::Help => CommandModel::Help,
            Command::Version => CommandModel::Version,
            Command::Mcp { root } => CommandModel::Mcp { root: maybe(root) },
            Command::Run { file } => CommandModel::Run { file: file@ },
            Command::Attach { workdir } => CommandModel::Attach { workdir: maybe(workdir) },
            Command::RenderAudio { args } => CommandModel::RenderAudio { args: args@ },
            Command::Shot { args } => CommandModel::Shot { args: args@ },
        }
    }
}

/// Whether an argument is an option.
pub open spec fn is_option(a: Seq<char>) -> bool {
    a.len() > 0 && a[0] == '-'
}

/// The first option from position `i` on.
pub open spec fn first_option(args: Seq<Seq<char>>, i: int) -> Option<Seq<char>>
    decreases args.len() - i,
{
    if i < 0 || i >= args.len() {
        None
    } else if is_option(args[i]) {
        Some(args[i])
    } else {
        first_option(args, i + 1)
    }
}

/// Reject any option before looking at arity, so `attach --root /tmp` complains
/// about `--root` rather than about the path that follows it.
pub fn reject_options(args: &[String]) -> (r: Result<(), String>)
    ensures
        match first_option(strings(args@), 0) {
            Some(opt) => r matches Err(e) && e@ == unexpected("option"@, opt),
            None => r is Ok,
        },
{
    let mut i: usize = 0;
    while i < args.len()
        invariant
            i <= args@.len(),
            first_option(strings(args@), 0) == first_option(strings(args@), i as int),
        decreases args@.len() - i,
    {
        assert(strings(args@)[i as int] == args@[i as int]@);
        if starts_with(args[i].as_str(), '-') {
            return Err(say_unexpected("option", args[i].as_str()));
        }
        i += 1;
    }
    Ok(())
}

/// The one argument of a command that takes at most one.
pub open spec fn one_argument(args: Seq<Seq<char>>) -> Result<Option<Seq<char>>, Seq<char>> {
    match first_option(args, 0) {
        Some(opt) => Err(unexpected("option"@, opt)),
        None => if args.len() == 0 {
            Ok(None)
        } else if args.len() == 1 {
            Ok(Some(args[0]))
        } else {
            Err(unexpected("argument"@, args[1]))
        },
    }
}

/// What an error or an argument that may be absent says.
pub open spec fn told_maybe(r: Result<Option<String>, String>) -> Result<
    Option<Seq<char>>,
    Seq<char>,
> {
    match r {
        Ok(v) => Ok(maybe(v)),
        Err(e) => Err(e@),
    }
}

/// The file that `run` plays.
pub open spec fn run_file(args: Seq<Seq<char>>) -> Result<Seq<char>, Seq<char>> {
    match one_argument(args) {
        Err(e) => Err(e),
        Ok(Some(file)) => Ok(file),
        Ok(None) => Err(
            "`kessel run` needs a file, e.g. `kessel run games/bounce.lua`\n\nTo play a game an agent is building, use `kessel attach` instead."@,
        ),
    }
}

/// Parse `run`'s arguments: exactly one file, no options.
pub fn parse_run(args: &[String]) -> (r: Result<String, String>)
    ensures
        (match r {
            Ok(f) => Ok::<Seq<char>, Seq<char>>(f@),
            Err(e) => Err::<Seq<char>, Seq<char>>(e@),
        }) == run_file(strings(args@)),
{
    match parse_attach(args) {
        Err(e) => Err(e),
        Ok(Some(file)) => Ok(file),
        Ok(None) => Err(
            "`kessel run` needs a file, e.g. `kessel run games/bounce.lua`\n\nTo play a game an agent is building, use `kessel attach` instead.".to_owned(),
        ),
    }
}

/// Parse `attach`'s arguments: an optional workdir naming which session to join.
pub fn parse_attach(args: &[String]) -> (r: Result<Option<String>, String>)
    ensures
        told_maybe(r) == one_argument(strings(args@)),
{
    if let Err(e) = reject_options(args) {
        return Err(e);
    }
    if args.len() == 0 {
        Ok(None)
    } else if args.len() == 1 {
        assert(strings(args@)[0] == args@[0]@);
        Ok(Some(args[0].clone()))
    } else {
        assert(strings(args@)[1] == args@[1]@);
        Err(say_unexpected("argument", args[1].as_str()))
    }
}

/// The root that `mcp`'s options name, from position `i` on: the last one
/// counts.
pub open spec fn root_from(args: Seq<Seq<char>>, i: int, root: Option<Seq<char>>) -> Result<
    Option<Seq<char>>,
    Seq<char>,
>
    decreases args.len() - i,
{
    if i < 0 || i >= args.len() {
        Ok(root)
    } else if args[i] == "--root"@ {
        if i + 1 >= args.len() {
            Err("--root needs a directory"@)
        } else {
            root_from(args, i + 2, Some(args[i + 1]))
        }
    } else {
        Err(unexpected("argument"@, args[i]))
    }
}

/// Parse `mcp`'s options: the root that they name, if any.
pub fn parse_root(args: &[String]) -> (r: Result<Option<String>, String>)
    ensures
        told_maybe(r) == root_from(strings(args@), 0, None),
{
    let ghost all = strings(args@);
    let mut root: Option<String> = None;
    let mut i: usize = 0;
    while i < args.len()
        invariant
            i <= args@.len(),
            all == strings(args@),
            root_from(all, 0, None) == root_from(all, i as int, maybe(root)),
        decreases args@.len() - i,
    {
        assert(all[i as int] == args@[i as int]@);
        if same(args[i].as_str(), "--root") {
            if i + 1 >= args.len() {
                return Err("--root needs a directory".to_owned());
            }
            assert(all[i + 1] == args@[i + 1]@);
            root = Some(args[i + 1].clone());
            i += 2;
        } else {
            return Err(say_unexpected("argument", args[i].as_str()));
        }
    }
    Ok(root)
}

/// That `play` was split in two.
pub open spec fn play_was_split() -> Seq<char> {
    "`kessel play` was split in two, so it is obvious which VM you get:\n\n    kessel run <file.lua>   play a file on its own VM\n    kessel attach [workdir] join a running `kessel mcp` and play its VM"@
}

/// That there is no such command. A bare path is almost certainly a run
/// attempt.
pub open spec fn unknown_command(other: Seq<char>) -> Seq<char> {
    "unknown command '"@ + other
        + "' — expected `mcp`, `run`, `attach`, or `render-audio`\n\nDid you mean: kessel run "@
        + other
}

/// What a command line asks for, or what is wrong with it.
pub open spec fn command_of(args: Seq<Seq<char>>, windows: bool) -> Result<CommandModel, Seq<char>> {
    if args.len() == 0 {
        Ok(CommandModel::Help)
    } else {
        let name = args[0];
        let rest = args.skip(1);
        if name == "-h"@ || name == "--help"@ || name == "help"@ {
            Ok(CommandModel::Help)
        } else if name == "-V"@ || name == "--version"@ || name == "version"@ {
            Ok(CommandModel::Version)
        } else if name == "mcp"@ {
            match root_from(rest, 0, None) {
                Ok(root) => Ok(CommandModel::Mcp { root }),
                Err(e) => Err(e),
            }
        } else if name == "run"@ {
            match run_file(rest) {
                Ok(file) => Ok(CommandModel::Run { file }),
                Err(e) => Err(e),
            }
        } else if name == "attach"@ {
            match one_argument(rest) {
                Ok(workdir) => Ok(CommandModel::Attach { workdir }),
                Err(e) => Err(e),
            }
        } else if name == "render-audio"@ {
            match render_audio::args_of(rest, windows) {
                Ok(args) => Ok(CommandModel::RenderAudio { args }),
                Err(e) => Err(e),
            }
        } else if name == "shot"@ {
            match shot::args_of(rest, windows) {
                Ok(args) => Ok(CommandModel::Shot { args }),
                Err(e) => Err(e),
            }
        } else if name == "play"@ {
            Err(play_was_split())
        } else {
            Err(unknown_command(name))
        }
    }
}

/// What a command line asks for; `windows` says how the platform writes paths.
pub fn parse_command(args: &[String], windows: bool) -> (r: Result<Command, String>)
    ensures
        (match r {
            Ok(c) => Ok::<CommandModel, Seq<char>>(c@),
            Err(e) => Err::<CommandModel, Seq<char>>(e@),
        }) == command_of(strings(args@), windows),
{
    if args.len() == 0 {
        return Ok(Command::Help);
    }
    let name = args[0].as_str();
    let rest = slice_subrange(args, 1, args.len());
    proof {
        assert(strings(args@)[0] == name@);
        assert(strings(rest@) =~= strings(args@).skip(1));
    }
    if same(name, "-h") || same(name, "--help") || same(name, "help") {
        Ok(Command::Help)
    } else if same(name, "-V") || same(name, "--version") || same(name, "version") {
        Ok(Command::Version)
    } else if same(name, "mcp") {
        match parse_root(rest) {
            Ok(root) => Ok(Command::Mcp { root }),
            Err(e) => Err(e),
        }
    } else if same(name, "run") {
        match parse_run(rest) {
            Ok(file) => Ok(Command::Run { file }),
            Err(e) => Err(e),
        }
    } else if same(name, "attach") {
        match parse_attach(rest) {
            Ok(workdir) => Ok(Command::Attach { workdir }),
            Err(e) => Err(e),
        }
    } else if same(name, "render-audio") {
        match render_audio::parse(rest, windows) {
            Ok(args) => Ok(Command::RenderAudio { args }),
            Err(e) => Err(e),
        }
    } else if same(name, "shot") {
        match shot::parse(rest, windows) {
            Ok(args) => Ok(Command::Shot { args }),
            Err(e) => Err(e),
        }
    } else if same(name, "play") {
        Err(
            "`kessel play` was split in two, so it is obvious which VM you get:\n\n    kessel run <file.lua>   play a file on its own VM\n    kessel attach [workdir] join a running `kessel mcp` and play its VM".to_owned(),
        )
    } else {
        let mut e = concat3(
            "unknown command '",
            name,
            "' — expected `mcp`, `run`, `attach`, or `render-audio`\n\nDid you mean: kessel run ",
        );
        e.append(name);
        Err(e)
    }
}

/// The command that each line of the "which session did you mean?" error
/// suggests is one that `attach` accepts: its workdir names that session.
pub proof fn law_suggestions_are_commands_attach_accepts(sessions: Seq<SessionModel>, i: int)
    requires
        0 <= i < sessions.len(),
        !is_option(sessions[i].root),
    ensures
        suggestions(sessions, sessions.len() as int)[i] == "  kessel attach "@ + sessions[i].root,
        one_argument(seq![sessions[i].root]) == Ok::<Option<Seq<char>>, Seq<char>>(
            Some(sessions[i].root),
        ),
{
    let args = seq![sessions[i].root];
    assert(args[0] == sessions[i].root);
    reveal_with_fuel(first_option, 2);
}

/// An option is refused before anything else is said of the arguments.
pub proof fn law_options_are_refused_first(args: Seq<Seq<char>>, i: int)
    requires
        0 <= i < args.len(),
        is_option(args[i]),
    ensures
        one_argument(args) is Err,
        run_file(args) is Err,
{
    lemma_first_option(args, 0, i);
}

proof fn lemma_first_option(args: Seq<Seq<char>>, from: int, i: int)
    requires
        0 <= from <= i < args.len(),
        is_option(args[i]),
    ensures
        first_option(args, from) is Some,
    decreases i - from,
{
    if from < i && !is_option(args[from]) {
        lemma_first_option(args, from + 1, i);
    }
}

} // verus!
