//! `termnav nvim`: its arguments and what they ask for.

use vstd::prelude::*;
use vstd::string::*;

use crate::nvim::target::Mode;
use crate::text::{concat, same, strings, strings_from};

verus! {

/// What `--help` prints.
pub const HELP: &'static str = "usage: termnav nvim <open|ssh-open> [arguments]\n";

/// What one `nvim` invocation asks for.
#[derive(Debug)]
pub enum Invocation {
    /// The help text.
    Help,
    /// Nothing: the arguments are refused with this message.
    Refused(String),
    /// A target is opened with these arguments.
    Open(Mode, Vec<String>),
    /// A target is opened on a host.
    SshOpen { host: String, target: String },
}

/// The mode of that name.
pub open spec fn mode_named(name: Seq<char>) -> Option<Mode> {
    if name == "cli"@ {
        Some(Mode::Cli)
    } else if name == "link"@ {
        Some(Mode::Link)
    } else if name == "tmux-link"@ {
        Some(Mode::TmuxLink)
    } else {
        None
    }
}

fn parse_mode(name: &str) -> (mode: Option<Mode>)
    ensures
        mode == mode_named(name@),
{
    if same(name, "cli") {
        Some(Mode::Cli)
    } else if same(name, "link") {
        Some(Mode::Link)
    } else if same(name, "tmux-link") {
        Some(Mode::TmuxLink)
    } else {
        None
    }
}

/// Whether an invocation is what the arguments ask for.
pub open spec fn nvim_asks(arguments: Seq<Seq<char>>, asked: Invocation) -> bool {
    if arguments.len() == 0 {
        asked matches Invocation::Refused(message) && message@ == "a Neovim command is required"@
    } else if arguments[0] == "-h"@ || arguments[0] == "--help"@ || arguments[0] == "help"@ {
        asked is Help
    } else if arguments[0] == "open"@ {
        if arguments.len() == 1 {
            asked matches Invocation::Refused(message) && message@ == "open requires a MODE"@
        } else {
            match mode_named(arguments[1]) {
                Some(mode) => asked matches Invocation::Open(given, rest) && given == mode
                    && strings(rest@) == arguments.skip(2),
                None => asked matches Invocation::Refused(message) && message@
                    == "unknown open mode: "@ + arguments[1],
            }
        }
    } else if arguments[0] == "ssh-open"@ {
        if arguments.len() == 3 {
            asked matches Invocation::SshOpen { host, target } && host@ == arguments[1] && target@
                == arguments[2]
        } else {
            asked matches Invocation::Refused(message) && message@
                == "ssh-open requires HOST and TARGET"@
        }
    } else {
        asked matches Invocation::Refused(message) && message@
            == "unknown or unimplemented Neovim command: "@ + arguments[0]
    }
}

/// Settle what one `nvim` invocation asks for.
pub fn invocation(arguments: &[String]) -> (asked: Invocation)
    ensures
        nvim_asks(strings(arguments@), asked),
{
    let ghost all = strings(arguments@);
    assert(all.len() == arguments@.len());
    if arguments.len() == 0 {
        return Invocation::Refused(String::from_str("a Neovim command is required"));
    }
    assert(all[0] == arguments@[0]@);
    let command = arguments[0].as_str();
    if same(command, "-h") || same(command, "--help") || same(command, "help") {
        return Invocation::Help;
    }
    if same(command, "open") {
        if arguments.len() == 1 {
            return Invocation::Refused(String::from_str("open requires a MODE"));
        }
        assert(all[1] == arguments@[1]@);
        return match parse_mode(arguments[1].as_str()) {
            Some(mode) => Invocation::Open(mode, strings_from(arguments, 2)),
            None => Invocation::Refused(concat("unknown open mode: ", arguments[1].as_str())),
        };
    }
    if same(command, "ssh-open") {
        if arguments.len() == 3 {
            assert(all[1] == arguments@[1]@);
            assert(all[2] == arguments@[2]@);
            return Invocation::SshOpen {
                host: arguments[1].clone(),
                target: arguments[2].clone(),
            };
        }
        return Invocation::Refused(String::from_str("ssh-open requires HOST and TARGET"));
    }
    Invocation::Refused(concat("unknown or unimplemented Neovim command: ", command))
}

} // verus!
