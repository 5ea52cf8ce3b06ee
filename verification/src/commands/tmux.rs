//! `termnav tmux`: its arguments and what they ask for.

use vstd::prelude::*;
use vstd::string::*;

use crate::click::Input;
use crate::focus::{
    lease_bounds, is_focus_token, interval_bounds, valid_interval, valid_lease, valid_token,
};
use crate::terminal::TmuxMode;
use crate::text::{
    concat, cut, opt_text, parse_number, parsed, same, split_once, starts_with, strings,
    strings_from,
};

verus! {

/// What `--help` prints.
pub const HELP: &'static str = "usage: termnav tmux <context|focus|follow-click> [arguments]\n";

/// What `focus --help` prints.
pub const FOCUS_HELP: &'static str = "usage: termnav tmux focus <claim|release|expire|watch|stop|sync> [options]\n";

/// What `context --help` prints.
pub const CONTEXT_HELP: &'static str = "usage: termnav tmux context --tty TTY --client-termname TERM [--control-mode 0|1]\n";

/// The options of `tmux focus`.
#[derive(Debug)]
pub struct FocusOptions {
    pub parent_tmux: Option<String>,
    pub parent_pane: Option<String>,
    pub token: Option<String>,
    pub lease_ms: Option<u64>,
    pub interval_ms: Option<u64>,
    pub tmux_socket: Option<String>,
    pub client_pid: Option<u32>,
    pub client_tty: Option<String>,
}

/// What [`FocusOptions`] say.
#[verifier::ext_equal]
pub struct FocusState {
    pub parent_tmux: Option<Seq<char>>,
    pub parent_pane: Option<Seq<char>>,
    pub token: Option<Seq<char>>,
    pub lease_ms: Option<u64>,
    pub interval_ms: Option<u64>,
    pub tmux_socket: Option<Seq<char>>,
    pub client_pid: Option<u32>,
    pub client_tty: Option<Seq<char>>,
}

impl View for FocusOptions {
    type V = FocusState;

    open spec fn view(&self) -> FocusState {
        FocusState {
            parent_tmux: opt_text(self.parent_tmux),
            parent_pane: opt_text(self.parent_pane),
            token: opt_text(self.token),
            lease_ms: self.lease_ms,
            interval_ms: self.interval_ms,
            tmux_socket: opt_text(self.tmux_socket),
            client_pid: self.client_pid,
            client_tty: opt_text(self.client_tty),
        }
    }
}

/// No option of `tmux focus` given.
pub open spec fn no_focus_options() -> FocusState {
    FocusState {
        parent_tmux: None,
        parent_pane: None,
        token: None,
        lease_ms: None,
        interval_ms: None,
        tmux_socket: None,
        client_pid: None,
        client_tty: None,
    }
}

/// The options of `tmux focus` with one more value.
pub open spec fn focus_with(state: FocusState, name: Seq<char>, value: Seq<char>) -> Result<
    FocusState,
    Seq<char>,
> {
    if name == "--parent-tmux"@ {
        Ok(FocusState { parent_tmux: Some(value), ..state })
    } else if name == "--parent-pane"@ {
        Ok(FocusState { parent_pane: Some(value), ..state })
    } else if name == "--token"@ {
        if is_focus_token(value) {
            Ok(FocusState { token: Some(value), ..state })
        } else {
            Err("token must be 24 lowercase hex characters"@)
        }
    } else if name == "--lease-ms"@ {
        match parsed(value, u64::MAX as nat) {
            Some(lease) => if lease_bounds(lease as int) {
                Ok(FocusState { lease_ms: Some(lease as u64), ..state })
            } else {
                Err("lease is outside the supported range"@)
            },
            None => Err("invalid lease"@),
        }
    } else if name == "--interval-ms"@ {
        match parsed(value, u64::MAX as nat) {
            Some(interval) => if interval_bounds(interval as int) {
                Ok(FocusState { interval_ms: Some(interval as u64), ..state })
            } else {
                Err("interval is outside the supported range"@)
            },
            None => Err("invalid interval"@),
        }
    } else if name == "--tmux-socket"@ {
        Ok(FocusState { tmux_socket: Some(value), ..state })
    } else if name == "--client-pid"@ {
        match parsed(value, u32::MAX as nat) {
            Some(pid) => Ok(FocusState { client_pid: Some(pid as u32), ..state }),
            None => Err("invalid client PID"@),
        }
    } else if name == "--client-tty"@ {
        Ok(FocusState { client_tty: Some(value), ..state })
    } else {
        Err("unknown focus option: "@ + name)
    }
}

/// The options that the arguments from index `i` on add.
pub open spec fn focus_from(arguments: Seq<Seq<char>>, i: int, state: FocusState) -> Result<
    FocusState,
    Seq<char>,
>
    decreases arguments.len() - i,
{
    if i < 0 || i >= arguments.len() {
        Ok(state)
    } else if i + 1 >= arguments.len() {
        Err(arguments[i] + " requires a value"@)
    } else {
        match focus_with(state, arguments[i], arguments[i + 1]) {
            Ok(next) => focus_from(arguments, i + 2, next),
            Err(message) => Err(message),
        }
    }
}

impl FocusOptions {
    fn set(&mut self, name: &str, value: &str) -> (result: Result<(), String>)
        ensures
            match result {
                Ok(_) => focus_with(old(self)@, name@, value@) == Ok::<FocusState, Seq<char>>(
                    final(self)@,
                ),
                Err(message) => focus_with(old(self)@, name@, value@) == Err::<
                    FocusState,
                    Seq<char>,
                >(message@),
            },
    {
        if same(name, "--parent-tmux") {
            self.parent_tmux = Some(String::from_str(value));
        } else if same(name, "--parent-pane") {
            self.parent_pane = Some(String::from_str(value));
        } else if same(name, "--token") {
            if !valid_token(value) {
                return Err(String::from_str("token must be 24 lowercase hex characters"));
            }
            self.token = Some(String::from_str(value));
        } else if same(name, "--lease-ms") {
            match parse_number(value, u64::MAX) {
                Some(lease) => {
                    if !valid_lease(lease) {
                        return Err(String::from_str("lease is outside the supported range"));
                    }
                    self.lease_ms = Some(lease);
                },
                None => {
                    return Err(String::from_str("invalid lease"));
                },
            }
        } else if same(name, "--interval-ms") {
            match parse_number(value, u64::MAX) {
                Some(interval) => {
                    if !valid_interval(interval) {
                        return Err(String::from_str("interval is outside the supported range"));
                    }
                    self.interval_ms = Some(interval);
                },
                None => {
                    return Err(String::from_str("invalid interval"));
                },
            }
        } else if same(name, "--tmux-socket") {
            self.tmux_socket = Some(String::from_str(value));
        } else if same(name, "--client-pid") {
            match parse_number(value, u32::MAX as u64) {
                Some(pid) => {
                    self.client_pid = Some(pid as u32);
                },
                None => {
                    return Err(String::from_str("invalid client PID"));
                },
            }
        } else if same(name, "--client-tty") {
            self.client_tty = Some(String::from_str(value));
        } else {
            return Err(concat("unknown focus option: ", name));
        }
        Ok(())
    }

    /// Parse the options of `tmux focus`.
    pub fn parse(arguments: &[String]) -> (result: Result<Self, String>)
        ensures
            match result {
                Ok(options) => focus_from(strings(arguments@), 0, no_focus_options()) == Ok::<
                    FocusState,
                    Seq<char>,
                >(options@),
                Err(message) => focus_from(strings(arguments@), 0, no_focus_options()) == Err::<
                    FocusState,
                    Seq<char>,
                >(message@),
            },
    {
        let ghost all = strings(arguments@);
        let mut options = FocusOptions {
            parent_tmux: None,
            parent_pane: None,
            token: None,
            lease_ms: None,
            interval_ms: None,
            tmux_socket: None,
            client_pid: None,
            client_tty: None,
        };
        assert(options@ =~= no_focus_options());
        let mut index: usize = 0;
        while index < arguments.len()
            invariant
                index <= arguments@.len(),
                all == strings(arguments@),
                focus_from(all, 0, no_focus_options()) == focus_from(all, index as int, options@),
            decreases arguments.len() - index,
        {
            let name = arguments[index].as_str();
            assert(all[index as int] == name@);
            if index + 1 >= arguments.len() {
                return Err(concat(name, " requires a value"));
            }
            assert(all[index + 1] == arguments@[index + 1]@);
            match options.set(name, arguments[index + 1].as_str()) {
                Ok(_) => {},
                Err(message) => {
                    return Err(message);
                },
            }
            index = index + 2;
        }
        Ok(options)
    }
}

/// What one `tmux focus` invocation asks for.
#[derive(Debug)]
pub enum FocusCommand {
    Claim { socket: String, pane: String, token: String, lease_ms: u64 },
    Release { socket: String, pane: String, token: String },
    Expire { socket: String, pane: String },
    Watch { socket: String, pid: u32, tty: String, lease_ms: u64, interval_ms: u64 },
    Stop { socket: String, pid: u32, tty: String },
    Sync { socket: String, pid: u32, tty: String },
}

/// How long a watched claim lasts unless told otherwise.
pub const DEFAULT_LEASE_MS: u64 = 3500;

/// How often a watched claim is renewed unless told otherwise.
pub const DEFAULT_INTERVAL_MS: u64 = 1000;

/// Whether the options name an exact client.
pub open spec fn names_client(state: FocusState) -> bool {
    state.tmux_socket is Some && state.client_pid is Some && state.client_tty is Some
}

/// The options that a focus command lacks, as its refusal names them.
pub open spec fn focus_lack(command: Seq<char>, state: FocusState) -> Option<Seq<char>> {
    if command == "claim"@ {
        if state.parent_tmux is Some && state.parent_pane is Some && state.token is Some
            && state.lease_ms is Some {
            None
        } else {
            Some("focus claim requires parent, token, and lease options"@)
        }
    } else if command == "release"@ {
        if state.parent_tmux is Some && state.parent_pane is Some && state.token is Some {
            None
        } else {
            Some("focus release requires parent and token options"@)
        }
    } else if command == "expire"@ {
        if state.parent_tmux is Some && state.parent_pane is Some {
            None
        } else {
            Some("focus expire requires parent options"@)
        }
    } else if command == "watch"@ {
        if names_client(state) {
            None
        } else {
            Some("focus watch requires exact client options"@)
        }
    } else if command == "stop"@ {
        if names_client(state) {
            None
        } else {
            Some("focus stop requires exact client options"@)
        }
    } else if command == "sync"@ {
        if names_client(state) {
            None
        } else {
            Some("focus sync requires exact client options"@)
        }
    } else {
        Some("unknown focus command: "@ + command)
    }
}

/// Whether a command carries exactly what the options say.
pub open spec fn focus_asks(command: Seq<char>, state: FocusState, asked: FocusCommand) -> bool {
    match asked {
        FocusCommand::Claim { socket, pane, token, lease_ms } => {
            &&& command == "claim"@
            &&& state.parent_tmux == Some(socket@) && state.parent_pane == Some(pane@)
            &&& state.token == Some(token@) && state.lease_ms == Some(lease_ms)
        },
        FocusCommand::Release { socket, pane, token } => {
            &&& command == "release"@
            &&& state.parent_tmux == Some(socket@) && state.parent_pane == Some(pane@)
            &&& state.token == Some(token@)
        },
        FocusCommand::Expire { socket, pane } => {
            &&& command == "expire"@
            &&& state.parent_tmux == Some(socket@) && state.parent_pane == Some(pane@)
        },
        FocusCommand::Watch { socket, pid, tty, lease_ms, interval_ms } => {
            &&& command == "watch"@
            &&& state.tmux_socket == Some(socket@) && state.client_pid == Some(pid)
            &&& state.client_tty == Some(tty@)
            &&& lease_ms == match state.lease_ms {
                Some(lease) => lease,
                None => DEFAULT_LEASE_MS,
            }
            &&& interval_ms == match state.interval_ms {
                Some(interval) => interval,
                None => DEFAULT_INTERVAL_MS,
            }
        },
        FocusCommand::Stop { socket, pid, tty } => {
            &&& command == "stop"@
            &&& state.tmux_socket == Some(socket@) && state.client_pid == Some(pid)
            &&& state.client_tty == Some(tty@)
        },
        FocusCommand::Sync { socket, pid, tty } => {
            &&& command == "sync"@
            &&& state.tmux_socket == Some(socket@) && state.client_pid == Some(pid)
            &&& state.client_tty == Some(tty@)
        },
    }
}

/// Settle what one `tmux focus` invocation asks for.
pub fn focus_command(command: &str, arguments: &[String]) -> (result: Result<FocusCommand, String>)
    ensures
        match (result, focus_from(strings(arguments@), 0, no_focus_options())) {
            (Ok(asked), Ok(state)) => focus_lack(command@, state) is None && focus_asks(
                command@,
                state,
                asked,
            ),
            (Err(message), Ok(state)) => focus_lack(command@, state) == Some(message@),
            (Err(message), Err(reason)) => message@ == reason,
            (Ok(_), Err(_)) => false,
        },
{
    let options = match FocusOptions::parse(arguments) {
        Ok(options) => options,
        Err(message) => {
            return Err(message);
        },
    };
    if same(command, "claim") {
        return match (options.parent_tmux, options.parent_pane, options.token, options.lease_ms) {
            (Some(socket), Some(pane), Some(token), Some(lease_ms)) => Ok(
                FocusCommand::Claim { socket, pane, token, lease_ms },
            ),
            _ => Err(String::from_str("focus claim requires parent, token, and lease options")),
        };
    }
    if same(command, "release") {
        return match (options.parent_tmux, options.parent_pane, options.token) {
            (Some(socket), Some(pane), Some(token)) => Ok(
                FocusCommand::Release { socket, pane, token },
            ),
            _ => Err(String::from_str("focus release requires parent and token options")),
        };
    }
    if same(command, "expire") {
        return match (options.parent_tmux, options.parent_pane) {
            (Some(socket), Some(pane)) => Ok(FocusCommand::Expire { socket, pane }),
            _ => Err(String::from_str("focus expire requires parent options")),
        };
    }
    let watch = same(command, "watch");
    let stop = same(command, "stop");
    if !watch && !stop && !same(command, "sync") {
        return Err(concat("unknown focus command: ", command));
    }
    match (options.tmux_socket, options.client_pid, options.client_tty) {
        (Some(socket), Some(pid), Some(tty)) => {
            if watch {
                let lease_ms: u64 = match options.lease_ms {
                    Some(lease) => lease,
                    None => DEFAULT_LEASE_MS,
                };
                let interval_ms: u64 = match options.interval_ms {
                    Some(interval) => interval,
                    None => DEFAULT_INTERVAL_MS,
                };
                Ok(FocusCommand::Watch { socket, pid, tty, lease_ms, interval_ms })
            } else if stop {
                Ok(FocusCommand::Stop { socket, pid, tty })
            } else {
                Ok(FocusCommand::Sync { socket, pid, tty })
            }
        },
        _ => Err(
            String::from_str(
                if watch {
                    "focus watch requires exact client options"
                } else if stop {
                    "focus stop requires exact client options"
                } else {
                    "focus sync requires exact client options"
                },
            ),
        ),
    }
}

/// What the options of `tmux context` say.
#[verifier::ext_equal]
pub struct ContextState {
    pub tty: Option<Seq<char>>,
    pub termname: Option<Seq<char>>,
    pub control: bool,
}

/// What reading the options of `tmux context` comes to.
#[verifier::ext_equal]
pub enum ContextReading {
    Help,
    Refused(Seq<char>),
    Read(ContextState),
}

/// The name of an option and the value that is attached to it.
pub open spec fn attached(argument: Seq<char>) -> (Seq<char>, Option<Seq<char>>) {
    match cut(argument, '=') {
        Some((name, value)) => (name, Some(value)),
        None => (argument, None),
    }
}

/// The options after one more, or why it is refused.
pub open spec fn context_option(state: ContextState, name: Seq<char>, value: Seq<char>) -> Result<
    ContextState,
    Seq<char>,
> {
    if name == "--tty"@ {
        Ok(ContextState { tty: Some(value), ..state })
    } else if name == "--client-termname"@ {
        Ok(ContextState { termname: Some(value), ..state })
    } else if value == "0"@ {
        Ok(ContextState { control: false, ..state })
    } else if value == "1"@ {
        Ok(ContextState { control: true, ..state })
    } else {
        Err("--control-mode must be 0 or 1"@)
    }
}

/// The options that arguments from index `i` on give.
pub open spec fn context_from(
    arguments: Seq<Seq<char>>,
    i: int,
    state: ContextState,
) -> ContextReading
    decreases arguments.len() - i,
{
    if i < 0 || i >= arguments.len() {
        ContextReading::Read(state)
    } else if arguments[i] == "-h"@ || arguments[i] == "--help"@ {
        ContextReading::Help
    } else {
        let (name, inline) = attached(arguments[i]);
        if name != "--tty"@ && name != "--client-termname"@ && name != "--control-mode"@ {
            ContextReading::Refused("unknown context option: "@ + arguments[i])
        } else {
            match inline {
                Some(value) => match context_option(state, name, value) {
                    Ok(state) => context_from(arguments, i + 1, state),
                    Err(message) => ContextReading::Refused(message),
                },
                None => if i + 1 < arguments.len() {
                    match context_option(state, name, arguments[i + 1]) {
                        Ok(state) => context_from(arguments, i + 2, state),
                        Err(message) => ContextReading::Refused(message),
                    }
                } else {
                    ContextReading::Refused(name + " requires a value"@)
                },
            }
        }
    }
}

/// No option of `tmux context`.
pub open spec fn no_context_options() -> ContextState {
    ContextState { tty: None, termname: None, control: false }
}

/// What one `tmux context` invocation asks for.
#[derive(Debug, PartialEq, Eq)]
pub enum Context {
    /// The help text.
    Help,
    /// Nothing: the arguments are refused with this message.
    Refused(String),
    /// Nothing: a control client has no terminal.
    Silent,
    /// Tmux's ownership is published to this terminal with this framing.
    Publish { tty: String, mode: TmuxMode },
}

/// The framing for a terminal of that type: inside a multiplexer, through it.
pub open spec fn framing(termname: Seq<char>) -> TmuxMode {
    if "tmux"@.is_prefix_of(termname) || "screen"@.is_prefix_of(termname) {
        TmuxMode::Passthrough
    } else {
        TmuxMode::Raw
    }
}

/// Whether a context is what the options ask for.
pub open spec fn context_asks(reading: ContextReading, context: Context) -> bool {
    match reading {
        ContextReading::Help => context is Help,
        ContextReading::Refused(message) => context matches Context::Refused(text) && text@
            == message,
        ContextReading::Read(state) => if state.control {
            context is Silent
        } else if state.tty is None || state.tty->0.len() == 0 {
            context matches Context::Refused(text) && text@ == "--tty is required"@
        } else if state.termname is None || state.termname->0.len() == 0 {
            context matches Context::Refused(text) && text@ == "--client-termname is required"@
        } else {
            context matches Context::Publish { tty, mode } && Some(tty@) == state.tty && mode
                == framing(state.termname->0)
        },
    }
}

/// Settle what one `tmux context` invocation asks for.
pub fn context_command(arguments: &[String]) -> (context: Context)
    ensures
        context_asks(context_from(strings(arguments@), 0, no_context_options()), context),
{
    let ghost all = strings(arguments@);
    let mut tty: Option<String> = None;
    let mut termname: Option<String> = None;
    let mut control = false;
    let mut i: usize = 0;
    while i < arguments.len()
        invariant
            i <= arguments.len(),
            all == strings(arguments@),
            context_from(all, 0, no_context_options()) == context_from(
                all,
                i as int,
                (ContextState { tty: opt_text(tty), termname: opt_text(termname), control }),
            ),
        decreases arguments.len() - i,
    {
        assert(all[i as int] == arguments@[i as int]@);
        let argument = arguments[i].as_str();
        if same(argument, "-h") || same(argument, "--help") {
            return Context::Help;
        }
        let (name, inline) = match split_once(argument, '=') {
            Some((name, value)) => (name, Some(value)),
            None => (argument, None),
        };
        let is_tty = same(name, "--tty");
        let is_termname = same(name, "--client-termname");
        if !is_tty && !is_termname && !same(name, "--control-mode") {
            return Context::Refused(concat("unknown context option: ", argument));
        }
        let attached = inline.is_some();
        let value = match inline {
            Some(value) => value,
            None => {
                if arguments.len() - i <= 1 {
                    return Context::Refused(concat(name, " requires a value"));
                }
                assert(all[i + 1] == arguments@[i + 1]@);
                arguments[i + 1].as_str()
            },
        };
        if is_tty {
            tty = Some(String::from_str(value));
        } else if is_termname {
            termname = Some(String::from_str(value));
        } else if same(value, "0") {
            control = false;
        } else if same(value, "1") {
            control = true;
        } else {
            return Context::Refused(String::from_str("--control-mode must be 0 or 1"));
        }
        i = if attached {
            i + 1
        } else {
            i + 2
        };
    }
    if control {
        return Context::Silent;
    }
    let tty = match tty {
        Some(tty) => tty,
        None => {
            return Context::Refused(String::from_str("--tty is required"));
        },
    };
    if tty.as_str().is_empty() {
        return Context::Refused(String::from_str("--tty is required"));
    }
    let termname = match termname {
        Some(termname) => termname,
        None => {
            return Context::Refused(String::from_str("--client-termname is required"));
        },
    };
    if termname.as_str().is_empty() {
        return Context::Refused(String::from_str("--client-termname is required"));
    }
    let mode = if starts_with(termname.as_str(), "tmux") || starts_with(
        termname.as_str(),
        "screen",
    ) {
        TmuxMode::Passthrough
    } else {
        TmuxMode::Raw
    };
    Context::Publish { tty, mode }
}

/// The coordinate that a text spells, if any.
pub open spec fn coordinate(value: Seq<char>) -> Option<nat> {
    parsed(value, usize::MAX as nat)
}

/// The coordinate that argument `i` spells, if any.
pub open spec fn coordinate_at(arguments: Seq<Seq<char>>, i: int) -> Option<nat> {
    if i < arguments.len() {
        coordinate(arguments[i])
    } else {
        None
    }
}

/// An optional coordinate as a number.
pub open spec fn opt_number(value: Option<usize>) -> Option<nat> {
    match value {
        Some(n) => Some(n as nat),
        None => None,
    }
}

fn parse_coordinate(arguments: &[String], i: usize) -> (value: Option<usize>)
    ensures
        opt_number(value) == coordinate_at(strings(arguments@), i as int),
{
    if i >= arguments.len() {
        return None;
    }
    assert(strings(arguments@)[i as int] == arguments@[i as int]@);
    match parse_number(arguments[i].as_str(), usize::MAX as u64) {
        Some(n) => Some(n as usize),
        None => None,
    }
}

fn text_at(arguments: &[String], i: usize) -> (value: String)
    ensures
        value@ == if i < arguments@.len() {
            strings(arguments@)[i as int]
        } else {
            Seq::empty()
        },
{
    if i < arguments.len() {
        arguments[i].clone()
    } else {
        let value = String::new();
        assert(value@ =~= Seq::empty());
        value
    }
}

/// Argument `i`, or nothing.
pub open spec fn argument_at(arguments: Seq<Seq<char>>, i: int) -> Seq<char> {
    if i < arguments.len() {
        arguments[i]
    } else {
        Seq::empty()
    }
}

/// Settle what one `tmux follow-click` invocation asks for: a hyperlink, a
/// word, a line, a column and a directory, then as much as is known of the
/// client and the pane.
pub fn follow_click_command(arguments: &[String]) -> (result: Result<Input, &'static str>)
    ensures
        ({
            let all = strings(arguments@);
            match result {
                Ok(input) => {
                    &&& 5 <= all.len() <= 10
                    &&& input.hyperlink@ == all[0]
                    &&& input.word@ == all[1]
                    &&& input.line@ == all[2]
                    &&& opt_number(input.x) == coordinate(all[3])
                    &&& input.cwd@ == all[4]
                    &&& input.client_tty@ == argument_at(all, 5)
                    &&& input.pane@ == argument_at(all, 6)
                    &&& opt_number(input.y) == coordinate_at(all, 7)
                    &&& opt_number(input.pane_top) == coordinate_at(all, 8)
                    &&& opt_number(input.pane_left) == coordinate_at(all, 9)
                },
                Err(message) => !(5 <= all.len() <= 10) && message@
                    == "follow-click requires HYPERLINK WORD LINE X CWD"@,
            }
        }),
{
    assert(strings(arguments@).len() == arguments@.len());
    if arguments.len() < 5 || arguments.len() > 10 {
        return Err("follow-click requires HYPERLINK WORD LINE X CWD");
    }
    Ok(
        Input {
            hyperlink: text_at(arguments, 0),
            word: text_at(arguments, 1),
            line: text_at(arguments, 2),
            x: parse_coordinate(arguments, 3),
            cwd: text_at(arguments, 4),
            client_tty: text_at(arguments, 5),
            pane: text_at(arguments, 6),
            y: parse_coordinate(arguments, 7),
            pane_top: parse_coordinate(arguments, 8),
            pane_left: parse_coordinate(arguments, 9),
        },
    )
}

/// What one `tmux` invocation asks for.
#[derive(Debug, PartialEq, Eq)]
pub enum Invocation {
    /// The help text.
    Help,
    /// Nothing: the arguments are refused with this message.
    Refused(String),
    /// [`context_command`] with these arguments.
    Context(Vec<String>),
    /// The help text of `tmux focus`.
    FocusHelp,
    /// [`focus_command`] with this command and these arguments.
    Focus(String, Vec<String>),
    /// [`follow_click_command`] with these arguments.
    FollowClick(Vec<String>),
}

/// Whether an argument asks for help.
pub open spec fn is_help(argument: Seq<char>) -> bool {
    argument == "-h"@ || argument == "--help"@ || argument == "help"@
}

/// Whether an invocation is what the arguments ask for.
pub open spec fn tmux_asks(arguments: Seq<Seq<char>>, asked: Invocation) -> bool {
    if arguments.len() == 0 {
        asked matches Invocation::Refused(message) && message@ == "a tmux command is required"@
    } else if is_help(arguments[0]) {
        asked is Help
    } else if arguments[0] == "context"@ {
        asked matches Invocation::Context(rest) && strings(rest@) == arguments.skip(1)
    } else if arguments[0] == "focus"@ {
        if arguments.len() == 1 {
            asked matches Invocation::Refused(message) && message@ == "focus requires a command"@
        } else if is_help(arguments[1]) {
            asked is FocusHelp
        } else {
            asked matches Invocation::Focus(command, rest) && command@ == arguments[1] && strings(
                rest@,
            ) == arguments.skip(2)
        }
    } else if arguments[0] == "follow-click"@ {
        asked matches Invocation::FollowClick(rest) && strings(rest@) == arguments.skip(1)
    } else {
        asked matches Invocation::Refused(message) && message@
            == "unknown or unimplemented tmux command: "@ + arguments[0]
    }
}

fn asks_help(argument: &str) -> (result: bool)
    ensures
        result == is_help(argument@),
{
    same(argument, "-h") || same(argument, "--help") || same(argument, "help")
}

/// Settle what one `tmux` invocation asks for.
pub fn invocation(arguments: &[String]) -> (asked: Invocation)
    ensures
        tmux_asks(strings(arguments@), asked),
{
    let ghost all = strings(arguments@);
    assert(all.len() == arguments@.len());
    if arguments.len() == 0 {
        return Invocation::Refused(String::from_str("a tmux command is required"));
    }
    assert(all[0] == arguments@[0]@);
    let command = arguments[0].as_str();
    if asks_help(command) {
        Invocation::Help
    } else if same(command, "context") {
        Invocation::Context(strings_from(arguments, 1))
    } else if same(command, "focus") {
        if arguments.len() == 1 {
            return Invocation::Refused(String::from_str("focus requires a command"));
        }
        assert(all[1] == arguments@[1]@);
        let focus = arguments[1].as_str();
        if asks_help(focus) {
            Invocation::FocusHelp
        } else {
            Invocation::Focus(String::from_str(focus), strings_from(arguments, 2))
        }
    } else if same(command, "follow-click") {
        Invocation::FollowClick(strings_from(arguments, 1))
    } else {
        Invocation::Refused(concat("unknown or unimplemented tmux command: ", command))
    }
}

} // verus!
