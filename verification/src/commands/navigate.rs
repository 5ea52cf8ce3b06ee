//! `termnav navigate`: its arguments and what they ask for.

use vstd::prelude::*;
use vstd::string::*;

use crate::navigation::{Action, Client, Direction, Scope};
use crate::text::{
    any_equal, concat, opt_text, parse_number, parsed, same, starts_with, strings, strings_from,
};

verus! {

/// How long, in milliseconds, routing state may be reused by a successor.
pub const CONTINUATION_TTL_MS: u64 = 250;

/// What `--help` prints.
pub const HELP: &'static str = "usage: termnav navigate [OPTIONS] ACTION DIRECTION\n\nactions: pane-select, pane-move, tab-select, tab-move\n\noptions:\n  --parent             start outside a tmux scope that already declined\n  --client-pid PID     exact source client process ID\n  --client-tty TTY     exact source client tty\n  --client-created N   exact source client creation time\n  --client-termtype T  exact source client terminal type\n  --source-socket PATH exact source tmux socket\n  --source-pane ID     exact source tmux pane\n  --source-session ID  optional exact source tmux session\n  --emit-continuation  print bounded state for one ordered successor\n  --continuation JSON  resume from revalidated prior routing state\n";

/// The options of one navigation request.
#[derive(Debug)]
pub struct Options {
    pub parent: bool,
    pub client_pid: Option<u32>,
    pub client_tty: Option<String>,
    pub client_created: Option<u64>,
    pub client_termtype: Option<String>,
    pub source_socket: Option<String>,
    pub source_pane: Option<String>,
    pub source_session: Option<String>,
    pub emit_continuation: bool,
    pub continuation: Option<String>,
    pub positional: Vec<String>,
}

/// What [`Options`] say.
#[verifier::ext_equal]
pub struct OptionState {
    pub parent: bool,
    pub client_pid: Option<u32>,
    pub client_tty: Option<Seq<char>>,
    pub client_created: Option<u64>,
    pub client_termtype: Option<Seq<char>>,
    pub source_socket: Option<Seq<char>>,
    pub source_pane: Option<Seq<char>>,
    pub source_session: Option<Seq<char>>,
    pub emit_continuation: bool,
    pub continuation: Option<Seq<char>>,
    pub positional: Seq<Seq<char>>,
}

impl View for Options {
    type V = OptionState;

    open spec fn view(&self) -> OptionState {
        OptionState {
            parent: self.parent,
            client_pid: self.client_pid,
            client_tty: opt_text(self.client_tty),
            client_created: self.client_created,
            client_termtype: opt_text(self.client_termtype),
            source_socket: opt_text(self.source_socket),
            source_pane: opt_text(self.source_pane),
            source_session: opt_text(self.source_session),
            emit_continuation: self.emit_continuation,
            continuation: opt_text(self.continuation),
            positional: strings(self.positional@),
        }
    }
}

/// No option given.
pub open spec fn no_options() -> OptionState {
    OptionState {
        parent: false,
        client_pid: None,
        client_tty: None,
        client_created: None,
        client_termtype: None,
        source_socket: None,
        source_pane: None,
        source_session: None,
        emit_continuation: false,
        continuation: None,
        positional: Seq::empty(),
    }
}

/// Whether an option takes the argument that follows it.
pub open spec fn takes_value(name: Seq<char>) -> bool {
    name == "--continuation"@ || name == "--client-pid"@ || name == "--client-created"@ || name
        == "--client-tty"@ || name == "--client-termtype"@ || name == "--source-socket"@ || name
        == "--source-pane"@ || name == "--source-session"@
}

/// The options with one more value.
pub open spec fn with_value(state: OptionState, name: Seq<char>, value: Seq<char>) -> Result<
    OptionState,
    Seq<char>,
> {
    if name == "--continuation"@ {
        Ok(OptionState { continuation: Some(value), ..state })
    } else if name == "--client-pid"@ {
        match parsed(value, u32::MAX as nat) {
            Some(pid) => Ok(OptionState { client_pid: Some(pid as u32), ..state }),
            None => Err("--client-pid requires a non-negative integer"@),
        }
    } else if name == "--client-created"@ {
        match parsed(value, u64::MAX as nat) {
            Some(created) => Ok(OptionState { client_created: Some(created as u64), ..state }),
            None => Err("--client-created requires a non-negative integer"@),
        }
    } else if name == "--client-tty"@ {
        Ok(OptionState { client_tty: Some(value), ..state })
    } else if name == "--client-termtype"@ {
        Ok(OptionState { client_termtype: Some(value), ..state })
    } else if name == "--source-socket"@ {
        Ok(OptionState { source_socket: Some(value), ..state })
    } else if name == "--source-pane"@ {
        Ok(OptionState { source_pane: Some(value), ..state })
    } else {
        Ok(OptionState { source_session: Some(value), ..state })
    }
}

/// The options that the arguments from index `i` on add.
pub open spec fn options_from(arguments: Seq<Seq<char>>, i: int, state: OptionState) -> Result<
    OptionState,
    Seq<char>,
>
    decreases arguments.len() - i,
{
    if i < 0 || i >= arguments.len() {
        Ok(state)
    } else {
        let name = arguments[i];
        if name == "--parent"@ {
            options_from(arguments, i + 1, OptionState { parent: true, ..state })
        } else if name == "--emit-continuation"@ {
            options_from(arguments, i + 1, OptionState { emit_continuation: true, ..state })
        } else if takes_value(name) {
            if i + 1 >= arguments.len() {
                Err(name + " requires a value"@)
            } else {
                match with_value(state, name, arguments[i + 1]) {
                    Ok(next) => options_from(arguments, i + 2, next),
                    Err(message) => Err(message),
                }
            }
        } else if name == "--"@ {
            Ok(OptionState { positional: state.positional + arguments.skip(i + 1), ..state })
        } else if "-"@.is_prefix_of(name) {
            Err("unknown option: "@ + name)
        } else {
            options_from(
                arguments,
                i + 1,
                OptionState { positional: state.positional.push(name), ..state },
            )
        }
    }
}

/// What parsed options say.
pub open spec fn parsed_options(result: Result<Options, String>) -> Result<
    OptionState,
    Seq<char>,
> {
    match result {
        Ok(options) => Ok(options@),
        Err(message) => Err(message@),
    }
}

fn is_value_option(name: &str) -> (result: bool)
    ensures
        result == takes_value(name@),
{
    same(name, "--continuation") || same(name, "--client-pid") || same(name, "--client-created")
        || same(name, "--client-tty") || same(name, "--client-termtype") || same(
        name,
        "--source-socket",
    ) || same(name, "--source-pane") || same(name, "--source-session")
}

fn set_value(options: &mut Options, name: &str, value: &str) -> (result: Result<(), String>)
    ensures
        match result {
            Ok(_) => with_value(old(options)@, name@, value@) == Ok::<OptionState, Seq<char>>(
                final(options)@,
            ),
            Err(message) => with_value(old(options)@, name@, value@) == Err::<
                OptionState,
                Seq<char>,
            >(message@),
        },
{
    if same(name, "--continuation") {
        options.continuation = Some(String::from_str(value));
    } else if same(name, "--client-pid") {
        match parse_number(value, u32::MAX as u64) {
            Some(pid) => {
                options.client_pid = Some(pid as u32);
            },
            None => {
                return Err(String::from_str("--client-pid requires a non-negative integer"));
            },
        }
    } else if same(name, "--client-created") {
        match parse_number(value, u64::MAX) {
            Some(created) => {
                options.client_created = Some(created);
            },
            None => {
                return Err(String::from_str("--client-created requires a non-negative integer"));
            },
        }
    } else if same(name, "--client-tty") {
        options.client_tty = Some(String::from_str(value));
    } else if same(name, "--client-termtype") {
        options.client_termtype = Some(String::from_str(value));
    } else if same(name, "--source-socket") {
        options.source_socket = Some(String::from_str(value));
    } else if same(name, "--source-pane") {
        options.source_pane = Some(String::from_str(value));
    } else {
        options.source_session = Some(String::from_str(value));
    }
    Ok(())
}

/// Parse the arguments of one navigation request.
pub fn parse(arguments: &[String]) -> (result: Result<Options, String>)
    ensures
        parsed_options(result) == options_from(strings(arguments@), 0, no_options()),
{
    let ghost all = strings(arguments@);
    let mut options = Options {
        parent: false,
        client_pid: None,
        client_tty: None,
        client_created: None,
        client_termtype: None,
        source_socket: None,
        source_pane: None,
        source_session: None,
        emit_continuation: false,
        continuation: None,
        positional: Vec::new(),
    };
    assert(options@ =~= no_options());
    let mut index: usize = 0;
    while index < arguments.len()
        invariant
            index <= arguments@.len(),
            all == strings(arguments@),
            options_from(all, 0, no_options()) == options_from(all, index as int, options@),
        decreases arguments.len() - index,
    {
        let name = arguments[index].as_str();
        assert(all[index as int] == name@);
        let ghost before = options@;
        if same(name, "--parent") {
            options.parent = true;
            assert(options@ =~= OptionState { parent: true, ..before });
            index = index + 1;
        } else if same(name, "--emit-continuation") {
            options.emit_continuation = true;
            assert(options@ =~= OptionState { emit_continuation: true, ..before });
            index = index + 1;
        } else if is_value_option(name) {
            if index + 1 >= arguments.len() {
                return Err(concat(name, " requires a value"));
            }
            assert(all[index + 1] == arguments@[index + 1]@);
            match set_value(&mut options, name, arguments[index + 1].as_str()) {
                Ok(_) => {},
                Err(message) => {
                    return Err(message);
                },
            }
            index = index + 2;
        } else if same(name, "--") {
            let rest = strings_from(arguments, index + 1);
            crate::text::push_strings(&mut options.positional, rest.as_slice());
            assert(options@ =~= OptionState {
                positional: before.positional + all.skip(index + 1),
                ..before
            });
            return Ok(options);
        } else if starts_with(name, "-") {
            return Err(concat("unknown option: ", name));
        } else {
            options.positional.push(arguments[index].clone());
            assert(options@ =~= OptionState {
                positional: before.positional.push(name@),
                ..before
            });
            index = index + 1;
        }
    }
    Ok(options)
}

/// Whether any part of an exact client identity is given.
pub open spec fn some_identity(state: OptionState) -> bool {
    state.client_pid is Some || state.client_tty is Some || state.client_created is Some
        || state.client_termtype is Some || state.source_socket is Some || state.source_pane is Some
}

/// Whether an exact client identity is complete.
pub open spec fn whole_identity(state: OptionState) -> bool {
    state.client_pid is Some && state.client_tty is Some && state.client_created is Some
        && state.client_termtype is Some && state.source_socket is Some && state.source_pane is Some
}

/// Whether a client is the one that the options identify.
pub open spec fn identified(state: OptionState, client: Client) -> bool {
    &&& client.activity == 0
    &&& client.pid == state.client_pid->0
    &&& client.tty@ == state.client_tty->0
    &&& client.termtype@ == state.client_termtype->0
    &&& client.session@ == match state.source_session {
        Some(session) => session,
        None => Seq::empty(),
    }
    &&& client.pane@ == state.source_pane->0
    &&& !client.focused && !client.control
    &&& client.socket@ == state.source_socket->0
    &&& client.exact
    &&& client.created == state.client_created->0
}

/// The exact client that the options identify: complete with `--parent`, and
/// absent without it.
pub fn exact_client(options: &Options) -> (result: Result<Option<Client>, &'static str>)
    ensures
        match result {
            Ok(Some(client)) => options.parent && whole_identity(options@) && identified(
                options@,
                client,
            ),
            Ok(None) => !options.parent && !some_identity(options@),
            Err(message) => if options.parent {
                !whole_identity(options@) && message@
                    == "--client-pid, --client-tty, --client-created, --client-termtype, --source-socket, and --source-pane are required with --parent"@
            } else {
                some_identity(options@) && message@ == "exact client options require --parent"@
            },
        },
{
    if !options.parent {
        if options.client_pid.is_some() || options.client_tty.is_some()
            || options.client_created.is_some() || options.client_termtype.is_some()
            || options.source_socket.is_some() || options.source_pane.is_some() {
            return Err("exact client options require --parent");
        }
        return Ok(None);
    }
    match (
        options.client_pid,
        &options.client_tty,
        options.client_created,
        &options.client_termtype,
        &options.source_socket,
        &options.source_pane,
    ) {
        (Some(pid), Some(tty), Some(created), Some(termtype), Some(socket), Some(pane)) => Ok(
            Some(
                Client {
                    activity: 0,
                    pid,
                    tty: tty.clone(),
                    termtype: termtype.clone(),
                    session: match &options.source_session {
                        Some(session) => session.clone(),
                        None => String::new(),
                    },
                    pane: pane.clone(),
                    focused: false,
                    control: false,
                    socket: socket.clone(),
                    exact: true,
                    created,
                },
            ),
        ),
        _ => Err(
            "--client-pid, --client-tty, --client-created, --client-termtype, --source-socket, and --source-pane are required with --parent",
        ),
    }
}

/// What one invocation asks for.
#[derive(Debug)]
pub enum Invocation {
    /// The help text.
    Help,
    /// Nothing: the arguments are refused with this message.
    Refused(String),
    /// One navigation.
    Navigate(Navigation),
}

/// One requested navigation.
#[derive(Debug)]
pub struct Navigation {
    pub action: Action,
    pub direction: Direction,
    pub include_current: bool,
    pub exact_client: Option<Client>,
    pub emit_continuation: bool,
    pub continuation: Option<String>,
}

/// Whether a navigation is what the options ask for.
pub open spec fn asked_for(state: OptionState, navigation: Navigation) -> bool {
    &&& state.positional.len() == 2
    &&& state.positional[0] == navigation.action.name()
    &&& state.positional[1] == navigation.direction.name()
    &&& navigation.direction.suits(navigation.action)
    &&& navigation.include_current == !state.parent
    &&& match navigation.exact_client {
        Some(client) => state.parent && whole_identity(state) && identified(state, client),
        None => !state.parent && !some_identity(state),
    }
    &&& navigation.emit_continuation == state.emit_continuation
    &&& opt_text(navigation.continuation) == state.continuation
    &&& state.continuation is Some ==> !state.parent
}

/// Why options are refused, in the order in which they are looked at.
pub open spec fn refusal(state: OptionState, message: Seq<char>) -> bool {
    if state.positional.len() != 2 {
        message == "action and direction are required"@
    } else if forall|action: Action| action.name() != state.positional[0] {
        message == "invalid navigation action: "@ + state.positional[0]
    } else {
        let action = choose|action: Action| action.name() == state.positional[0];
        if forall|direction: Direction|
            direction.suits(action) ==> direction.name() != state.positional[1] {
            message == Direction::refusal(action, state.positional[1])
        } else if !state.parent && some_identity(state) {
            message == "exact client options require --parent"@
        } else if state.parent && !whole_identity(state) {
            message
                == "--client-pid, --client-tty, --client-created, --client-termtype, --source-socket, and --source-pane are required with --parent"@
        } else {
            &&& state.continuation is Some && state.parent
            &&& message
                == "--continuation cannot be combined with --parent or exact client options"@
        }
    }
}

/// Settle what one invocation asks for.
pub fn invocation(arguments: &[String]) -> (result: Invocation)
    ensures
        ({
            let all = strings(arguments@);
            match result {
                Invocation::Help => all.contains("-h"@) || all.contains("--help"@),
                Invocation::Refused(message) => {
                    &&& !all.contains("-h"@) && !all.contains("--help"@)
                    &&& match options_from(all, 0, no_options()) {
                        Ok(state) => refusal(state, message@),
                        Err(reason) => message@ == reason,
                    }
                },
                Invocation::Navigate(navigation) => {
                    &&& !all.contains("-h"@) && !all.contains("--help"@)
                    &&& options_from(all, 0, no_options()) matches Ok(state) && asked_for(
                        state,
                        navigation,
                    )
                },
            }
        }),
{
    if any_equal(arguments, "-h") || any_equal(arguments, "--help") {
        return Invocation::Help;
    }
    let options = match parse(arguments) {
        Ok(options) => options,
        Err(message) => {
            return Invocation::Refused(message);
        },
    };
    let ghost state = options@;
    assert(state.positional.len() == options.positional@.len());
    if options.positional.len() != 2 {
        return Invocation::Refused(String::from_str("action and direction are required"));
    }
    assert(state.positional[0] == options.positional@[0]@);
    assert(state.positional[1] == options.positional@[1]@);
    let action = match Action::parse(options.positional[0].as_str()) {
        Ok(action) => action,
        Err(message) => {
            return Invocation::Refused(message);
        },
    };
    proof {
        crate::navigation::lemma_action_names_distinct();
        assert(action.name() == state.positional[0]);
        let chosen = choose|action: Action| action.name() == state.positional[0];
        assert(chosen == action);
    }
    let direction = match Direction::parse(action, options.positional[1].as_str()) {
        Ok(direction) => direction,
        Err(message) => {
            return Invocation::Refused(message);
        },
    };
    assert(direction.name() == state.positional[1]);
    let exact_client = match exact_client(&options) {
        Ok(client) => client,
        Err(message) => {
            return Invocation::Refused(String::from_str(message));
        },
    };
    if options.continuation.is_some() && (options.parent || exact_client.is_some()) {
        return Invocation::Refused(
            String::from_str(
                "--continuation cannot be combined with --parent or exact client options",
            ),
        );
    }
    Invocation::Navigate(
        Navigation {
            action,
            direction,
            include_current: !options.parent,
            exact_client,
            emit_continuation: options.emit_continuation,
            continuation: options.continuation,
        },
    )
}

/// Routing state that one ordered successor may reuse.
#[derive(Debug)]
pub struct Continuation {
    pub version: u8,
    pub expires_at_monotonic_ms: u64,
    pub client: Option<Client>,
    pub scope: Option<Scope>,
}

impl Continuation {
    /// Record routing state for a short burst. A monotonic deadline cannot be
    /// extended by a correction of the wall clock.
    pub fn new(now_ms: u64, client: Option<Client>, scope: Option<Scope>) -> (continuation: Self)
        ensures
            continuation.version == 1,
            continuation.expires_at_monotonic_ms == (if now_ms + CONTINUATION_TTL_MS <= u64::MAX {
                (now_ms + CONTINUATION_TTL_MS) as u64
            } else {
                u64::MAX
            }),
            continuation.client == client,
            continuation.scope == scope,
    {
        let expires_at_monotonic_ms: u64 = if now_ms <= u64::MAX - CONTINUATION_TTL_MS {
            now_ms + CONTINUATION_TTL_MS
        } else {
            u64::MAX
        };
        Continuation { version: 1, expires_at_monotonic_ms, client, scope }
    }

    /// The state to continue from: nothing once it has expired.
    pub fn resume(self, now_ms: u64) -> (state: (Option<Client>, Option<Scope>))
        ensures
            state == (if self.version == 1 && self.expires_at_monotonic_ms >= now_ms {
                (self.client, self.scope)
            } else {
                (None::<Client>, None::<Scope>)
            }),
    {
        if self.version == 1 && self.expires_at_monotonic_ms >= now_ms {
            (self.client, self.scope)
        } else {
            (None, None)
        }
    }
}

} // verus!
