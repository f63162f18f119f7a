use vstd::prelude::*;

use crate::text::{chars_of, ends_with, has_suffix, is_word};

verus! {

/// What a command line asks the shell to do.
#[derive(Clone, Copy, Debug, PartialEq, Eq, Structural)]
pub enum Command {
    Fg,
    Cd,
    Ls,
    Jobs,
    Help,
    Exit,
    Source,
    Script,
    External,
}

/// What a `tish <subcommand>` line asks the shell to do.
#[derive(Clone, Copy, Debug, PartialEq, Eq, Structural)]
pub enum InternalCommand {
    Fg,
    Pid,
    Jobs,
    Kill,
    Help,
    Script,
    External,
}

pub open spec fn is_script_name(cmd: Seq<char>) -> bool {
    ends_with(cmd, ".lua"@) || ends_with(cmd, ".tish"@)
}

pub open spec fn base_command(cmd: Seq<char>) -> Command {
    if cmd == "fg"@ {
        Command::Fg
    } else if cmd == "cd"@ {
        Command::Cd
    } else if cmd == "ls"@ {
        Command::Ls
    } else if cmd == "exit"@ {
        Command::Exit
    } else if cmd == "jobs"@ {
        Command::Jobs
    } else if cmd == "source"@ {
        Command::Source
    } else if cmd == "help"@ || cmd == "?"@ {
        Command::Help
    } else if is_script_name(cmd) {
        Command::Script
    } else {
        Command::External
    }
}

/// The command for program `cmd` with arguments `args`; `tish` followed by
/// one or two arguments names the command of its first argument, and by
/// more than two asks for help.
pub open spec fn command_of(cmd: Seq<char>, args: Seq<Seq<char>>) -> Command {
    if cmd == "tish"@ && args.len() > 0 {
        if args.len() > 2 {
            Command::Help
        } else {
            base_command(args[0])
        }
    } else {
        base_command(cmd)
    }
}

pub open spec fn base_internal(cmd: Seq<char>) -> InternalCommand {
    if cmd == "fg"@ {
        InternalCommand::Fg
    } else if cmd == "pid"@ {
        InternalCommand::Pid
    } else if cmd == "kill"@ {
        InternalCommand::Kill
    } else if cmd == "jobs"@ {
        InternalCommand::Jobs
    } else if cmd == "help"@ || cmd == "?"@ {
        InternalCommand::Help
    } else if is_script_name(cmd) {
        InternalCommand::Script
    } else {
        InternalCommand::External
    }
}

pub open spec fn internal_of(cmd: Seq<char>, args: Seq<Seq<char>>) -> InternalCommand {
    if cmd == "tish"@ && args.len() > 0 {
        if args.len() > 2 {
            InternalCommand::Help
        } else {
            base_internal(args[0])
        }
    } else {
        base_internal(cmd)
    }
}

fn is_script(c: &Vec<char>) -> (r: bool)
    ensures
        r == is_script_name(c@),
{
    has_suffix(c, ".lua") || has_suffix(c, ".tish")
}

fn base_command_exec(c: &Vec<char>) -> (r: Command)
    ensures
        r == base_command(c@),
{
    if is_word(c, "fg") {
        Command::Fg
    } else if is_word(c, "cd") {
        Command::Cd
    } else if is_word(c, "ls") {
        Command::Ls
    } else if is_word(c, "exit") {
        Command::Exit
    } else if is_word(c, "jobs") {
        Command::Jobs
    } else if is_word(c, "source") {
        Command::Source
    } else if is_word(c, "help") || is_word(c, "?") {
        Command::Help
    } else if is_script(c) {
        Command::Script
    } else {
        Command::External
    }
}

fn base_internal_exec(c: &Vec<char>) -> (r: InternalCommand)
    ensures
        r == base_internal(c@),
{
    if is_word(c, "fg") {
        InternalCommand::Fg
    } else if is_word(c, "pid") {
        InternalCommand::Pid
    } else if is_word(c, "kill") {
        InternalCommand::Kill
    } else if is_word(c, "jobs") {
        InternalCommand::Jobs
    } else if is_word(c, "help") || is_word(c, "?") {
        InternalCommand::Help
    } else if is_script(c) {
        InternalCommand::Script
    } else {
        InternalCommand::External
    }
}

impl Command {
    pub fn from_str(cmd: &str, args: &[String]) -> (r: Command)
        ensures
            r == command_of(cmd@, args@.map_values(|a: String| a@)),
    {
        let c = chars_of(cmd);
        if is_word(&c, "tish") && args.len() > 0 {
            if args.len() > 2 {
                Command::Help
            } else {
                base_command_exec(&chars_of(args[0].as_str()))
            }
        } else {
            base_command_exec(&c)
        }
    }
}

impl InternalCommand {
    pub fn from_str(cmd: &str, args: &[String]) -> (r: InternalCommand)
        ensures
            r == internal_of(cmd@, args@.map_values(|a: String| a@)),
    {
        let c = chars_of(cmd);
        if is_word(&c, "tish") && args.len() > 0 {
            if args.len() > 2 {
                InternalCommand::Help
            } else {
                base_internal_exec(&chars_of(args[0].as_str()))
            }
        } else {
            base_internal_exec(&c)
        }
    }
}

} // verus!
