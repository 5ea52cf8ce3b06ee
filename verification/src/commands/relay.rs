//! `termnav relay`: its arguments and what they ask for.

use vstd::prelude::*;
use vstd::string::*;

use crate::navigation::outer::{relay_scope, wire_scope};
use crate::navigation::{Action, Direction};
use crate::text::{
    concat, opt_text, parse_number, parse_signed, parsed, parsed_signed, same, starts_with, strings,
    strings_from,
};

verus! {

/// What `--help` prints.
pub const HELP: &'static str = "usage: termnav relay <send|serve|commit|sweep> [arguments]\n";

/// The options of `relay send`.
#[derive(Debug)]
pub struct SendOptions {
    pub positional: Vec<String>,
    pub client_pid: Option<u32>,
    pub client_tty: Option<String>,
}

/// What [`SendOptions`] say.
#[verifier::ext_equal]
pub struct SendState {
    pub positional: Seq<Seq<char>>,
    pub client_pid: Option<u32>,
    pub client_tty: Option<Seq<char>>,
}

impl View for SendOptions {
    type V = SendState;

    open spec fn view(&self) -> SendState {
        SendState {
            positional: strings(self.positional@),
            client_pid: self.client_pid,
            client_tty: opt_text(self.client_tty),
        }
    }
}

/// The options that the arguments from index `i` on add.
pub open spec fn send_from(arguments: Seq<Seq<char>>, i: int, state: SendState) -> Result<
    SendState,
    Seq<char>,
>
    decreases arguments.len() - i,
{
    if i < 0 || i >= arguments.len() {
        Ok(state)
    } else {
        let name = arguments[i];
        if name == "--client-pid"@ || name == "--client-tty"@ {
            if i + 1 >= arguments.len() {
                Err(name + " requires a value"@)
            } else if name == "--client-tty"@ {
                send_from(
                    arguments,
                    i + 2,
                    SendState { client_tty: Some(arguments[i + 1]), ..state },
                )
            } else {
                match parsed(arguments[i + 1], u32::MAX as nat) {
                    Some(pid) => send_from(
                        arguments,
                        i + 2,
                        SendState { client_pid: Some(pid as u32), ..state },
                    ),
                    None => Err("--client-pid requires a positive integer"@),
                }
            }
        } else if "-"@.is_prefix_of(name) {
            Err("unknown send option: "@ + name)
        } else {
            send_from(
                arguments,
                i + 1,
                SendState { positional: state.positional.push(name), ..state },
            )
        }
    }
}

/// No option of `relay send` given.
pub open spec fn no_send_options() -> SendState {
    SendState { positional: Seq::empty(), client_pid: None, client_tty: None }
}

fn parse_send(arguments: &[String]) -> (result: Result<SendOptions, String>)
    ensures
        match result {
            Ok(options) => send_from(strings(arguments@), 0, no_send_options()) == Ok::<
                SendState,
                Seq<char>,
            >(options@),
            Err(message) => send_from(strings(arguments@), 0, no_send_options()) == Err::<
                SendState,
                Seq<char>,
            >(message@),
        },
{
    let ghost all = strings(arguments@);
    let mut options = SendOptions { positional: Vec::new(), client_pid: None, client_tty: None };
    assert(options@ =~= no_send_options());
    let mut index: usize = 0;
    while index < arguments.len()
        invariant
            index <= arguments@.len(),
            all == strings(arguments@),
            send_from(all, 0, no_send_options()) == send_from(all, index as int, options@),
        decreases arguments.len() - index,
    {
        let name = arguments[index].as_str();
        assert(all[index as int] == name@);
        let ghost before = options@;
        if same(name, "--client-pid") || same(name, "--client-tty") {
            if index + 1 >= arguments.len() {
                return Err(concat(name, " requires a value"));
            }
            assert(all[index + 1] == arguments@[index + 1]@);
            let value = arguments[index + 1].as_str();
            if same(name, "--client-tty") {
                options.client_tty = Some(String::from_str(value));
                assert(options@ =~= SendState { client_tty: Some(value@), ..before });
            } else {
                match parse_number(value, u32::MAX as u64) {
                    Some(pid) => {
                        options.client_pid = Some(pid as u32);
                        assert(options@ =~= SendState { client_pid: Some(pid as u32), ..before });
                    },
                    None => {
                        return Err(String::from_str("--client-pid requires a positive integer"));
                    },
                }
            }
            index = index + 2;
        } else if starts_with(name, "-") {
            return Err(concat("unknown send option: ", name));
        } else {
            options.positional.push(arguments[index].clone());
            assert(options@ =~= SendState {
                positional: before.positional.push(name@),
                ..before
            });
            index = index + 1;
        }
    }
    Ok(options)
}

/// A gesture to be sent to the parent relay.
#[derive(Debug)]
pub struct Send {
    pub action: Action,
    pub direction: Direction,
    /// The exact client that the gesture came from.
    pub client: Option<(u32, String)>,
}

/// Whether a gesture is what the options ask for. A pane move never leaves
/// its host.
pub open spec fn sends(state: SendState, send: Send) -> bool {
    &&& state.positional.len() == 2
    &&& state.positional[0] == send.action.name()
    &&& wire_scope(send.action) is Some
    &&& state.positional[1] == send.direction.name()
    &&& send.direction.suits(send.action)
    &&& match send.client {
        Some((pid, tty)) => state.client_pid == Some(pid) && state.client_tty == Some(tty@),
        None => state.client_pid is None && state.client_tty is None,
    }
}

/// Whether the options ask for a gesture that can be sent.
pub open spec fn sendable(state: SendState) -> bool {
    &&& state.positional.len() == 2
    &&& (state.client_pid is Some) == (state.client_tty is Some)
    &&& exists|action: Action, direction: Direction|
        #[trigger] action.name() == state.positional[0] && wire_scope(action) is Some
            && #[trigger] direction.name() == state.positional[1] && direction.suits(action)
}

/// Why options of `relay send` are refused, in the order in which they are
/// looked at.
pub open spec fn send_refusal(state: SendState, message: Seq<char>) -> bool {
    if state.positional.len() != 2 {
        message == "send requires ACTION and DIRECTION"@
    } else if (state.client_pid is Some) != (state.client_tty is Some) {
        message == "--client-pid and --client-tty must be provided together"@
    } else if forall|action: Action| action.name() != state.positional[0] {
        message == "invalid navigation action: "@ + state.positional[0]
    } else {
        let action = choose|action: Action| action.name() == state.positional[0];
        if wire_scope(action) is None {
            message == "a relay does not carry "@ + action.name()
        } else {
            message == Direction::refusal(action, state.positional[1])
        }
    }
}

/// Settle what `relay send` asks for.
pub fn send_command(arguments: &[String]) -> (result: Result<Send, String>)
    ensures
        match (result, send_from(strings(arguments@), 0, no_send_options())) {
            (Ok(send), Ok(state)) => sends(state, send) && sendable(state),
            (Ok(_), Err(_)) => false,
            (Err(message), Ok(state)) => !sendable(state) && send_refusal(state, message@),
            (Err(message), Err(reason)) => message@ == reason,
        },
{
    let options = match parse_send(arguments) {
        Ok(options) => options,
        Err(message) => {
            return Err(message);
        },
    };
    let ghost state = options@;
    assert(state.positional.len() == options.positional@.len());
    if options.positional.len() != 2 {
        return Err(String::from_str("send requires ACTION and DIRECTION"));
    }
    assert(state.positional[0] == options.positional@[0]@);
    assert(state.positional[1] == options.positional@[1]@);
    let client = match (options.client_pid, options.client_tty) {
        (Some(pid), Some(tty)) => Some((pid, tty)),
        (None, None) => None,
        _ => {
            return Err(
                String::from_str("--client-pid and --client-tty must be provided together"),
            );
        },
    };
    proof {
        crate::navigation::lemma_action_names_distinct();
        crate::navigation::lemma_direction_names_distinct();
    }
    let action = match Action::parse(options.positional[0].as_str()) {
        Ok(action) => action,
        Err(message) => {
            return Err(message);
        },
    };
    proof {
        assert(action.name() == state.positional[0]);
        let chosen = choose|action: Action| action.name() == state.positional[0];
        assert(chosen == action);
    }
    if relay_scope(action).is_none() {
        return Err(concat("a relay does not carry ", action.as_str()));
    }
    let direction = match Direction::parse(action, options.positional[1].as_str()) {
        Ok(direction) => direction,
        Err(message) => {
            return Err(message);
        },
    };
    assert(direction.name() == state.positional[1]);
    Ok(Send { action, direction, client })
}

/// The options of `relay serve`.
#[derive(Debug)]
pub struct ServeOptions {
    pub socket: Option<String>,
    pub owner_fd: Option<i32>,
}

/// What [`ServeOptions`] say.
#[verifier::ext_equal]
pub struct ServeState {
    pub socket: Option<Seq<char>>,
    pub owner_fd: Option<i32>,
}

impl View for ServeOptions {
    type V = ServeState;

    open spec fn view(&self) -> ServeState {
        ServeState { socket: opt_text(self.socket), owner_fd: self.owner_fd }
    }
}

/// The options that the arguments from index `i` on add.
pub open spec fn serve_from(arguments: Seq<Seq<char>>, i: int, state: ServeState) -> Result<
    ServeState,
    Seq<char>,
>
    decreases arguments.len() - i,
{
    if i < 0 || i >= arguments.len() {
        Ok(state)
    } else {
        let name = arguments[i];
        if name != "--socket"@ && name != "--owner-fd"@ {
            Err("unknown serve option: "@ + name)
        } else if i + 1 >= arguments.len() {
            Err(name + " requires a value"@)
        } else if name == "--socket"@ {
            serve_from(arguments, i + 2, ServeState { socket: Some(arguments[i + 1]), ..state })
        } else {
            match parsed_signed(arguments[i + 1], i32::MIN as int, i32::MAX as int) {
                Some(fd) => serve_from(
                    arguments,
                    i + 2,
                    ServeState { owner_fd: Some(fd as i32), ..state },
                ),
                None => Err("--owner-fd requires an integer"@),
            }
        }
    }
}

/// Settle what `relay serve` asks for: a socket, and perhaps the descriptor
/// that keeps the server alive.
pub fn serve_command(arguments: &[String]) -> (result: Result<(String, Option<i32>), String>)
    ensures
        match (
            result,
            serve_from(strings(arguments@), 0, ServeState { socket: None, owner_fd: None }),
        ) {
            (Ok((socket, owner_fd)), Ok(state)) => state.socket == Some(socket@) && state.owner_fd
                == owner_fd,
            (Err(message), Ok(state)) => state.socket is None && message@
                == "serve requires --socket"@,
            (Err(message), Err(reason)) => message@ == reason,
            (Ok(_), Err(_)) => false,
        },
{
    let ghost all = strings(arguments@);
    let ghost none = ServeState { socket: None, owner_fd: None };
    let mut options = ServeOptions { socket: None, owner_fd: None };
    assert(options@ =~= none);
    let mut index: usize = 0;
    while index < arguments.len()
        invariant
            index <= arguments@.len(),
            all == strings(arguments@),
            none == (ServeState { socket: None, owner_fd: None }),
            serve_from(all, 0, none) == serve_from(all, index as int, options@),
        decreases arguments.len() - index,
    {
        let name = arguments[index].as_str();
        assert(all[index as int] == name@);
        let ghost before = options@;
        if !same(name, "--socket") && !same(name, "--owner-fd") {
            return Err(concat("unknown serve option: ", name));
        }
        if index + 1 >= arguments.len() {
            return Err(concat(name, " requires a value"));
        }
        assert(all[index + 1] == arguments@[index + 1]@);
        let value = arguments[index + 1].as_str();
        if same(name, "--socket") {
            options.socket = Some(String::from_str(value));
            assert(options@ =~= ServeState { socket: Some(value@), ..before });
        } else {
            match parse_signed(value, i32::MIN as i64, i32::MAX as i64) {
                Some(fd) => {
                    options.owner_fd = Some(fd as i32);
                    assert(options@ =~= ServeState { owner_fd: Some(fd as i32), ..before });
                },
                None => {
                    return Err(String::from_str("--owner-fd requires an integer"));
                },
            }
        }
        index = index + 2;
    }
    match options.socket {
        Some(socket) => Ok((socket, options.owner_fd)),
        None => Err(String::from_str("serve requires --socket")),
    }
}

/// The options of `relay commit`.
#[derive(Debug)]
pub struct CommitOptions {
    pub tmux_socket: Option<String>,
    pub client_tty: Option<String>,
    pub client_pid: Option<u32>,
    pub client_created: Option<u64>,
    pub passthrough_state: Option<i32>,
    pub pane: Option<String>,
}

/// What [`CommitOptions`] say.
#[verifier::ext_equal]
pub struct CommitState {
    pub tmux_socket: Option<Seq<char>>,
    pub client_tty: Option<Seq<char>>,
    pub client_pid: Option<u32>,
    pub client_created: Option<u64>,
    pub passthrough_state: Option<i32>,
    pub pane: Option<Seq<char>>,
}

impl View for CommitOptions {
    type V = CommitState;

    open spec fn view(&self) -> CommitState {
        CommitState {
            tmux_socket: opt_text(self.tmux_socket),
            client_tty: opt_text(self.client_tty),
            client_pid: self.client_pid,
            client_created: self.client_created,
            passthrough_state: self.passthrough_state,
            pane: opt_text(self.pane),
        }
    }
}

/// No option of `relay commit` given.
pub open spec fn no_commit_options() -> CommitState {
    CommitState {
        tmux_socket: None,
        client_tty: None,
        client_pid: None,
        client_created: None,
        passthrough_state: None,
        pane: None,
    }
}

/// Whether `relay commit` knows an option.
pub open spec fn commit_option(name: Seq<char>) -> bool {
    name == "--tmux-socket"@ || name == "--client-tty"@ || name == "--client-pid"@ || name
        == "--client-created"@ || name == "--passthrough-decrqm"@ || name == "--pane"@
}

/// The options of `relay commit` with one more value.
pub open spec fn commit_with(state: CommitState, name: Seq<char>, value: Seq<char>) -> Result<
    CommitState,
    Seq<char>,
> {
    if name == "--tmux-socket"@ {
        Ok(CommitState { tmux_socket: Some(value), ..state })
    } else if name == "--client-tty"@ {
        Ok(CommitState { client_tty: Some(value), ..state })
    } else if name == "--client-pid"@ {
        match parsed(value, u32::MAX as nat) {
            Some(pid) => Ok(CommitState { client_pid: Some(pid as u32), ..state }),
            None => Err("--client-pid requires an integer"@),
        }
    } else if name == "--client-created"@ {
        match parsed(value, u64::MAX as nat) {
            Some(created) => Ok(CommitState { client_created: Some(created as u64), ..state }),
            None => Err("--client-created requires an integer"@),
        }
    } else if name == "--passthrough-decrqm"@ {
        match parsed_signed(value, i32::MIN as int, i32::MAX as int) {
            Some(mode) => Ok(CommitState { passthrough_state: Some(mode as i32), ..state }),
            None => Err("--passthrough-decrqm requires an integer"@),
        }
    } else {
        Ok(CommitState { pane: Some(value), ..state })
    }
}

/// The options that the arguments from index `i` on add.
pub open spec fn commit_from(arguments: Seq<Seq<char>>, i: int, state: CommitState) -> Result<
    CommitState,
    Seq<char>,
>
    decreases arguments.len() - i,
{
    if i < 0 || i >= arguments.len() {
        Ok(state)
    } else {
        let name = arguments[i];
        if !commit_option(name) {
            Err("unknown commit option: "@ + name)
        } else if i + 1 >= arguments.len() {
            Err(name + " requires a value"@)
        } else {
            match commit_with(state, name, arguments[i + 1]) {
                Ok(next) => commit_from(arguments, i + 2, next),
                Err(message) => Err(message),
            }
        }
    }
}

fn is_commit_option(name: &str) -> (result: bool)
    ensures
        result == commit_option(name@),
{
    same(name, "--tmux-socket") || same(name, "--client-tty") || same(name, "--client-pid") || same(
        name,
        "--client-created",
    ) || same(name, "--passthrough-decrqm") || same(name, "--pane")
}

fn set_commit_value(options: &mut CommitOptions, name: &str, value: &str) -> (result: Result<
    (),
    String,
>)
    ensures
        match result {
            Ok(_) => commit_with(old(options)@, name@, value@) == Ok::<CommitState, Seq<char>>(
                final(options)@,
            ),
            Err(message) => commit_with(old(options)@, name@, value@) == Err::<
                CommitState,
                Seq<char>,
            >(message@),
        },
{
    if same(name, "--tmux-socket") {
        options.tmux_socket = Some(String::from_str(value));
    } else if same(name, "--client-tty") {
        options.client_tty = Some(String::from_str(value));
    } else if same(name, "--client-pid") {
        match parse_number(value, u32::MAX as u64) {
            Some(pid) => {
                options.client_pid = Some(pid as u32);
            },
            None => {
                return Err(String::from_str("--client-pid requires an integer"));
            },
        }
    } else if same(name, "--client-created") {
        match parse_number(value, u64::MAX) {
            Some(created) => {
                options.client_created = Some(created);
            },
            None => {
                return Err(String::from_str("--client-created requires an integer"));
            },
        }
    } else if same(name, "--passthrough-decrqm") {
        match parse_signed(value, i32::MIN as i64, i32::MAX as i64) {
            Some(mode) => {
                options.passthrough_state = Some(mode as i32);
            },
            None => {
                return Err(String::from_str("--passthrough-decrqm requires an integer"));
            },
        }
    } else {
        options.pane = Some(String::from_str(value));
    }
    Ok(())
}

/// A terminal reply to be committed.
#[derive(Debug)]
pub struct Commit {
    pub tmux_socket: String,
    pub client_tty: String,
    pub client_pid: u32,
    pub client_created: u64,
    pub passthrough_state: Option<i32>,
    pub pane: Option<String>,
}

/// Whether a commit is what the options ask for.
pub open spec fn commits(state: CommitState, commit: Commit) -> bool {
    &&& state.tmux_socket == Some(commit.tmux_socket@)
    &&& state.client_tty == Some(commit.client_tty@)
    &&& state.client_pid == Some(commit.client_pid)
    &&& state.client_created == Some(commit.client_created)
    &&& state.passthrough_state == commit.passthrough_state
    &&& state.pane == opt_text(commit.pane)
}

/// Settle what `relay commit` asks for: an exact client of a server.
pub fn commit_command(arguments: &[String]) -> (result: Result<Commit, String>)
    ensures
        match (result, commit_from(strings(arguments@), 0, no_commit_options())) {
            (Ok(commit), Ok(state)) => commits(state, commit),
            (Err(message), Ok(state)) => {
                &&& state.tmux_socket is None || state.client_tty is None || state.client_pid is None
                    || state.client_created is None
                &&& message@ == "commit requires tmux socket and exact client identity"@
            },
            (Err(message), Err(reason)) => message@ == reason,
            (Ok(_), Err(_)) => false,
        },
{
    let ghost all = strings(arguments@);
    let mut options = CommitOptions {
        tmux_socket: None,
        client_tty: None,
        client_pid: None,
        client_created: None,
        passthrough_state: None,
        pane: None,
    };
    assert(options@ =~= no_commit_options());
    let mut index: usize = 0;
    while index < arguments.len()
        invariant
            index <= arguments@.len(),
            all == strings(arguments@),
            commit_from(all, 0, no_commit_options()) == commit_from(all, index as int, options@),
        decreases arguments.len() - index,
    {
        let name = arguments[index].as_str();
        assert(all[index as int] == name@);
        if !is_commit_option(name) {
            return Err(concat("unknown commit option: ", name));
        }
        if index + 1 >= arguments.len() {
            return Err(concat(name, " requires a value"));
        }
        assert(all[index + 1] == arguments@[index + 1]@);
        match set_commit_value(&mut options, name, arguments[index + 1].as_str()) {
            Ok(_) => {},
            Err(message) => {
                return Err(message);
            },
        }
        index = index + 2;
    }
    match (options.tmux_socket, options.client_tty, options.client_pid, options.client_created) {
        (Some(tmux_socket), Some(client_tty), Some(client_pid), Some(client_created)) => Ok(
            Commit {
                tmux_socket,
                client_tty,
                client_pid,
                client_created,
                passthrough_state: options.passthrough_state,
                pane: options.pane,
            },
        ),
        _ => Err(String::from_str("commit requires tmux socket and exact client identity")),
    }
}

/// What one `relay` invocation asks for.
#[derive(Debug, PartialEq, Eq)]
pub enum Invocation {
    /// The help text.
    Help,
    /// Nothing: the arguments are refused with this message.
    Refused(String),
    /// [`send_command`] with these arguments.
    Send(Vec<String>),
    /// [`serve_command`] with these arguments.
    Serve(Vec<String>),
    /// [`commit_command`] with these arguments.
    Commit(Vec<String>),
    /// Dead sockets are swept away.
    Sweep,
}

/// Whether an invocation is what the arguments ask for.
pub open spec fn relay_asks(arguments: Seq<Seq<char>>, asked: Invocation) -> bool {
    if arguments.len() == 0 {
        asked matches Invocation::Refused(message) && message@ == "a relay command is required"@
    } else if arguments[0] == "-h"@ || arguments[0] == "--help"@ || arguments[0] == "help"@ {
        asked is Help
    } else if arguments[0] == "send"@ {
        asked matches Invocation::Send(rest) && strings(rest@) == arguments.skip(1)
    } else if arguments[0] == "serve"@ {
        asked matches Invocation::Serve(rest) && strings(rest@) == arguments.skip(1)
    } else if arguments[0] == "commit"@ {
        asked matches Invocation::Commit(rest) && strings(rest@) == arguments.skip(1)
    } else if arguments[0] == "sweep"@ {
        if arguments.len() == 1 {
            asked is Sweep
        } else {
            asked matches Invocation::Refused(message) && message@ == "sweep accepts no arguments"@
        }
    } else {
        asked matches Invocation::Refused(message) && message@ == "unknown relay command: "@
            + arguments[0]
    }
}

/// Settle what one `relay` invocation asks for.
pub fn invocation(arguments: &[String]) -> (asked: Invocation)
    ensures
        relay_asks(strings(arguments@), asked),
{
    let ghost all = strings(arguments@);
    assert(all.len() == arguments@.len());
    if arguments.len() == 0 {
        return Invocation::Refused(String::from_str("a relay command is required"));
    }
    assert(all[0] == arguments@[0]@);
    let command = arguments[0].as_str();
    if same(command, "-h") || same(command, "--help") || same(command, "help") {
        Invocation::Help
    } else if same(command, "send") {
        Invocation::Send(strings_from(arguments, 1))
    } else if same(command, "serve") {
        Invocation::Serve(strings_from(arguments, 1))
    } else if same(command, "commit") {
        Invocation::Commit(strings_from(arguments, 1))
    } else if same(command, "sweep") {
        if arguments.len() == 1 {
            Invocation::Sweep
        } else {
            Invocation::Refused(String::from_str("sweep accepts no arguments"))
        }
    } else {
        Invocation::Refused(concat("unknown relay command: ", command))
    }
}

} // verus!
