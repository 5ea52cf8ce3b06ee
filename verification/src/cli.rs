//! Top-level command parsing and dispatch.

use vstd::prelude::*;
use vstd::string::*;

use crate::text::{concat, same, strings};

verus! {

/// What `--help` prints.
pub const HELP: &'static str = "usage: termnav <command> [arguments]\n\ncommands:\n  navigate  route pane and tab navigation\n  relay     communicate across terminal boundaries\n  ssh       run an SSH session with Termnav relay transport\n  link-host print the host represented by the current terminal context\n  tmux      manage tmux context, focus, and click routing\n  nvim      open and route Neovim targets\n  vscode    publish VS Code focus\n  eza       render terminal-aware directory links\n  asset-path print the canonical path of an installed asset\n  version   print the embedded build identity\n";

/// What one invocation asks for.
#[derive(Debug, PartialEq, Eq)]
pub enum Command {
    /// The help text.
    Help,
    /// The build identity.
    Version,
    Navigate,
    Relay,
    Ssh,
    LinkHost,
    Nvim,
    Tmux,
    Eza,
    Vscode,
    /// The path of this asset.
    AssetPath(String),
    /// Nothing: this is said, and the help text too where it says so.
    Refused { message: String, help: bool },
}

/// What one invocation asks for.
#[verifier::ext_equal]
pub enum CommandAsked {
    Help,
    Version,
    Navigate,
    Relay,
    Ssh,
    LinkHost,
    Nvim,
    Tmux,
    Eza,
    Vscode,
    AssetPath(Seq<char>),
    Refused { message: Seq<char>, help: bool },
}

impl View for Command {
    type V = CommandAsked;

    open spec fn view(&self) -> CommandAsked {
        match self {
            Command::Help => CommandAsked::Help,
            Command::Version => CommandAsked::Version,
            Command::Navigate => CommandAsked::Navigate,
            Command::Relay => CommandAsked::Relay,
            Command::Ssh => CommandAsked::Ssh,
            Command::LinkHost => CommandAsked::LinkHost,
            Command::Nvim => CommandAsked::Nvim,
            Command::Tmux => CommandAsked::Tmux,
            Command::Eza => CommandAsked::Eza,
            Command::Vscode => CommandAsked::Vscode,
            Command::AssetPath(path) => CommandAsked::AssetPath(path@),
            Command::Refused { message, help } => CommandAsked::Refused {
                message: message@,
                help: *help,
            },
        }
    }
}

/// What arguments ask for.
pub open spec fn command_of(arguments: Seq<Seq<char>>) -> CommandAsked {
    if arguments.len() == 0 {
        CommandAsked::Refused { message: "termnav: a command is required"@, help: true }
    } else {
        let name = arguments[0];
        if name == "-h"@ || name == "--help"@ || name == "help"@ {
            CommandAsked::Help
        } else if name == "version"@ || name == "--version"@ {
            CommandAsked::Version
        } else if name == "navigate"@ {
            CommandAsked::Navigate
        } else if name == "relay"@ {
            CommandAsked::Relay
        } else if name == "ssh"@ {
            CommandAsked::Ssh
        } else if name == "link-host"@ {
            if arguments.len() == 1 {
                CommandAsked::LinkHost
            } else {
                CommandAsked::Refused {
                    message: "termnav link-host: no arguments are accepted"@,
                    help: false,
                }
            }
        } else if name == "nvim"@ {
            CommandAsked::Nvim
        } else if name == "tmux"@ {
            CommandAsked::Tmux
        } else if name == "eza"@ {
            CommandAsked::Eza
        } else if name == "vscode"@ {
            CommandAsked::Vscode
        } else if name == "asset-path"@ {
            if arguments.len() == 2 {
                CommandAsked::AssetPath(arguments[1])
            } else {
                CommandAsked::Refused {
                    message: "termnav asset-path: RELATIVE_PATH is required"@,
                    help: false,
                }
            }
        } else {
            CommandAsked::Refused { message: "termnav: unknown command: "@ + name, help: false }
        }
    }
}

fn refused(message: &str) -> (command: Command)
    ensures
        command@ == (CommandAsked::Refused { message: message@, help: false }),
{
    Command::Refused { message: String::from_str(message), help: false }
}

/// Settle what the arguments ask for.
pub fn command(arguments: &[String]) -> (command: Command)
    ensures
        command@ == command_of(strings(arguments@)),
{
    let ghost all = strings(arguments@);
    assert(all.len() == arguments@.len());
    if arguments.len() == 0 {
        return Command::Refused {
            message: String::from_str("termnav: a command is required"),
            help: true,
        };
    }
    assert(all[0] == arguments@[0]@);
    let name = arguments[0].as_str();
    if same(name, "-h") || same(name, "--help") || same(name, "help") {
        Command::Help
    } else if same(name, "version") || same(name, "--version") {
        Command::Version
    } else if same(name, "navigate") {
        Command::Navigate
    } else if same(name, "relay") {
        Command::Relay
    } else if same(name, "ssh") {
        Command::Ssh
    } else if same(name, "link-host") {
        if arguments.len() == 1 {
            Command::LinkHost
        } else {
            refused("termnav link-host: no arguments are accepted")
        }
    } else if same(name, "nvim") {
        Command::Nvim
    } else if same(name, "tmux") {
        Command::Tmux
    } else if same(name, "eza") {
        Command::Eza
    } else if same(name, "vscode") {
        Command::Vscode
    } else if same(name, "asset-path") {
        if arguments.len() == 2 {
            assert(all[1] == arguments@[1]@);
            Command::AssetPath(arguments[1].clone())
        } else {
            refused("termnav asset-path: RELATIVE_PATH is required")
        }
    } else {
        refused(concat("termnav: unknown command: ", name).as_str())
    }
}

/// What a command that reports itself at once prints and exits with.
#[derive(Debug, PartialEq, Eq)]
pub struct Report {
    pub stdout: String,
    pub stderr: String,
    pub code: i32,
}

/// What is printed for help or a refusal; other commands report by themselves.
pub fn report(command: &Command) -> (report: Option<Report>)
    ensures
        match (command@, report) {
            (CommandAsked::Help, Some(report)) => report.stdout@ == HELP@ && report.stderr@.len()
                == 0 && report.code == 0,
            (
                CommandAsked::Refused { message, help },
                Some(report),
            ) => report.stdout@.len() == 0 && report.stderr@ == message + "\n"@ + (if help {
                HELP@
            } else {
                Seq::empty()
            }) && report.code == 2,
            (CommandAsked::Help, None) => false,
            (CommandAsked::Refused { message, help }, None) => false,
            (_, report) => report is None,
        },
{
    match command {
        Command::Help => Some(
            Report { stdout: String::from_str(HELP), stderr: String::new(), code: 0 },
        ),
        Command::Refused { message, help } => {
            let mut stderr = concat(message.as_str(), "\n");
            if *help {
                stderr.append(HELP);
            } else {
                assert(stderr@ =~= message@ + "\n"@ + Seq::<char>::empty());
            }
            Some(Report { stdout: String::new(), stderr, code: 2 })
        },
        _ => None,
    }
}

} // verus!
