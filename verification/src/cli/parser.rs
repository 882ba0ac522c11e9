use vstd::prelude::*;

use crate::text::same_text;

verus! {

/// What the command line asks for.
#[derive(Debug, PartialEq)]
pub enum Command {
    Shell { name: Option<String> },
    Stop { name: Option<String> },
    Down { name: Option<String> },
    Ps { name: Option<String> },
    Help,
    Version,
    Unknown(String),
}

pub open spec fn is_help(s: Seq<char>) -> bool {
    s == "help"@ || s == "--help"@ || s == "-h"@
}

pub open spec fn is_version(s: Seq<char>) -> bool {
    s == "version"@ || s == "--version"@ || s == "-V"@
}

/// The configuration name that follows the command, where there is one.
pub open spec fn name_arg(args: Seq<String>) -> Option<Seq<char>> {
    if args.len() <= 2 {
        None
    } else {
        Some(args[2]@)
    }
}

pub open spec fn opt_view(o: Option<String>) -> Option<Seq<char>> {
    match o {
        Some(s) => Some(s@),
        None => None,
    }
}

/// Reads the command line (with the program name first): `shell [name]`,
/// `stop [name]`, `down [name]`, `ps [name]`, `help` (`--help`, `-h`), `version`
/// (`--version`, `-V`); anything else is unknown.
pub fn parse_args(args: &[String]) -> (r: Command)
    ensures
        args.len() < 2 ==> (r matches Command::Unknown(m) && m@ == "no command"@),
        args.len() >= 2 ==> {
            let cmd = args@[1]@;
            if cmd == "shell"@ {
                r matches Command::Shell { name } && opt_view(name) == name_arg(args@)
            } else if cmd == "stop"@ {
                r matches Command::Stop { name } && opt_view(name) == name_arg(args@)
            } else if cmd == "down"@ {
                r matches Command::Down { name } && opt_view(name) == name_arg(args@)
            } else if cmd == "ps"@ {
                r matches Command::Ps { name } && opt_view(name) == name_arg(args@)
            } else if is_help(cmd) {
                r is Help
            } else if is_version(cmd) {
                r is Version
            } else {
                r matches Command::Unknown(m) && m@ == cmd
            }
        },
{
    if args.len() < 2 {
        return Command::Unknown("no command".to_owned());
    }
    let cmd = args[1].as_str();
    let name: Option<String> = if args.len() == 2 {
        None
    } else {
        Some(args[2].clone())
    };
    if same_text(cmd, "shell") {
        Command::Shell { name }
    } else if same_text(cmd, "stop") {
        Command::Stop { name }
    } else if same_text(cmd, "down") {
        Command::Down { name }
    } else if same_text(cmd, "ps") {
        Command::Ps { name }
    } else if same_text(cmd, "help") || same_text(cmd, "--help") || same_text(cmd, "-h") {
        Command::Help
    } else if same_text(cmd, "version") || same_text(cmd, "--version") || same_text(cmd, "-V") {
        Command::Version
    } else {
        Command::Unknown(cmd.to_owned())
    }
}

} // verus!
