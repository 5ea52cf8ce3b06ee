//! What the command line asks for.

use vstd::prelude::*;
use vstd::string::*;

use crate::cli::{command, report, CommandAsked, Command, Report};
use crate::commands::navigate::{
    identified, options_from, with_value, Continuation, OptionState, CONTINUATION_TTL_MS,
};
use crate::commands::relay::{
    commit_from, commit_with, send_from, serve_from, CommitState, SendState, ServeState,
};
use crate::commands::tmux::{
    context_command, context_from, context_option, focus_from, focus_lack, focus_with,
    follow_click_command, framing, Context, ContextReading, ContextState, FocusCommand, FocusState,
    DEFAULT_INTERVAL_MS, DEFAULT_LEASE_MS,
};
use crate::click::Input;
use crate::focus::is_focus_token;
use crate::laws::text::{lemma_cut, lemma_cut_at, lemma_number_bound, lemma_signed_number};
use crate::navigation::{Client, Scope};
use crate::text::{cut, decimal, parsed, strings};

verus! {

/// A command is what its name says; two of them look at their arguments, and
/// no other name is one.
pub proof fn lemma_commands(arguments: &[String], asked: Command)
    requires
        call_ensures(command, (arguments,), asked),
    ensures
        arguments@.len() == 0 ==> asked@ == (CommandAsked::Refused {
            message: "termnav: a command is required"@,
            help: true,
        }),
        arguments@.len() > 0 ==> {
            let name = arguments@[0]@;
            &&& asked@ is Help <==> name == "-h"@ || name == "--help"@ || name == "help"@
            &&& asked@ is Version <==> name == "version"@ || name == "--version"@
            &&& asked@ is Navigate <==> name == "navigate"@
            &&& asked@ is Relay <==> name == "relay"@
            &&& asked@ is Ssh <==> name == "ssh"@
            &&& asked@ is Nvim <==> name == "nvim"@
            &&& asked@ is Tmux <==> name == "tmux"@
            &&& asked@ is Eza <==> name == "eza"@
            &&& asked@ is Vscode <==> name == "vscode"@
            &&& asked@ is LinkHost <==> name == "link-host"@ && arguments@.len() == 1
            &&& asked@ is AssetPath <==> name == "asset-path"@ && arguments@.len() == 2
            &&& asked@ matches CommandAsked::AssetPath(path) ==> path == arguments@[1]@
            &&& name == "link-host"@ && arguments@.len() > 1 ==> asked@ == (CommandAsked::Refused {
                message: "termnav link-host: no arguments are accepted"@,
                help: false,
            })
            &&& name == "asset-path"@ && arguments@.len() != 2 ==> asked@ == (
            CommandAsked::Refused {
                message: "termnav asset-path: RELATIVE_PATH is required"@,
                help: false,
            })
            &&& asked@ is Refused && name != "link-host"@ && name != "asset-path"@ ==> asked@ == (
            CommandAsked::Refused { message: "termnav: unknown command: "@ + name, help: false })
        },
{
    reveal_strlit("-h");
    reveal_strlit("--help");
    reveal_strlit("help");
    reveal_strlit("version");
    reveal_strlit("--version");
    reveal_strlit("navigate");
    reveal_strlit("relay");
    reveal_strlit("ssh");
    reveal_strlit("link-host");
    reveal_strlit("nvim");
    reveal_strlit("tmux");
    reveal_strlit("eza");
    reveal_strlit("vscode");
    reveal_strlit("asset-path");
    assert("-h"@.len() == 2 && "--help"@.len() == 6 && "--help"@[0] == '-');
    assert("help"@.len() == 4 && "help"@[0] == 'h' && "version"@.len() == 7);
    assert("--version"@.len() == 9 && "--version"@[0] == '-' && "navigate"@.len() == 8);
    assert("relay"@.len() == 5 && "ssh"@.len() == 3 && "ssh"@[0] == 's' && "link-host"@.len() == 9
        && "link-host"@[0] == 'l');
    assert("nvim"@.len() == 4 && "nvim"@[0] == 'n' && "tmux"@.len() == 4 && "tmux"@[0] == 't');
    assert("eza"@.len() == 3 && "eza"@[0] == 'e' && "vscode"@.len() == 6 && "vscode"@[0] == 'v');
    assert("asset-path"@.len() == 10);
    let all = strings(arguments@);
    assert(all.len() == arguments@.len());
    if all.len() > 0 {
        assert(all[0] == arguments@[0]@);
    }
    if all.len() == 2 {
        assert(all[1] == arguments@[1]@);
    }
}

/// Help is printed and succeeds; a refusal is reported and fails with two.
pub proof fn lemma_reports(asked: Command, said: Option<Report>)
    requires
        call_ensures(report, (&asked,), said),
    ensures
        said is Some <==> asked@ is Help || asked@ is Refused,
        asked@ is Help ==> said->0.code == 0 && said->0.stderr@.len() == 0,
        asked@ matches CommandAsked::Refused { message, help } ==> said->0.code == 2
            && said->0.stdout@.len() == 0 && message.is_prefix_of(said->0.stderr@) && (!help
            ==> said->0.stderr@ == message + "\n"@),
{
    match asked@ {
        CommandAsked::Refused { message, help } => {
            let text = said->0.stderr@;
            assert(message + "\n"@ + Seq::<char>::empty() =~= message + "\n"@);
            assert(message =~= text.subrange(0, message.len() as int));
        },
        _ => {},
    }
}

/// The names of the commands of `nvim`, and the modes of opening.
pub proof fn lemma_nvim_commands(
    arguments: &[String],
    asked: crate::commands::nvim::Invocation,
)
    requires
        call_ensures(crate::commands::nvim::invocation, (arguments,), asked),
        arguments@.len() > 0,
    ensures
        ({
            let all = strings(arguments@);
            let open = all[0] == "open"@ && all.len() > 1;
            &&& asked is Help <==> all[0] == "-h"@ || all[0] == "--help"@ || all[0] == "help"@
            &&& open && all[1] == "cli"@ ==> asked is Open && asked->Open_0 is Cli
            &&& open && all[1] == "link"@ ==> asked is Open && asked->Open_0 is Link
            &&& open && all[1] == "tmux-link"@ ==> asked is Open && asked->Open_0 is TmuxLink
            &&& asked is Open ==> open && strings(asked->Open_1@) == all.skip(2) && (all[1]
                == "cli"@ || all[1] == "link"@ || all[1] == "tmux-link"@)
            &&& all[0] == "ssh-open"@ && all.len() == 3 <==> asked is SshOpen
            &&& asked matches crate::commands::nvim::Invocation::SshOpen { host, target } ==> host@
                == all[1] && target@ == all[2]
        }),
{
    reveal_strlit("-h");
    reveal_strlit("--help");
    reveal_strlit("help");
    reveal_strlit("open");
    reveal_strlit("ssh-open");
    reveal_strlit("cli");
    reveal_strlit("link");
    reveal_strlit("tmux-link");
    assert("-h"@.len() == 2 && "--help"@.len() == 6 && "help"@.len() == 4 && "help"@[0] == 'h');
    assert("open"@.len() == 4 && "open"@[0] == 'o' && "ssh-open"@.len() == 8);
    assert("cli"@.len() == 3 && "link"@.len() == 4 && "tmux-link"@.len() == 9);
    assert(strings(arguments@).len() == arguments@.len());
}

/// `vscode focus` takes an operation and four fields, in that order.
pub proof fn lemma_vscode_commands(
    arguments: &[String],
    asked: crate::commands::vscode::Invocation,
)
    requires
        call_ensures(crate::commands::vscode::invocation, (arguments,), asked),
    ensures
        asked matches crate::commands::vscode::Invocation::Publish(update) ==> {
            let all = strings(arguments@);
            &&& all.len() == 6 && all[0] == "focus"@
            &&& update.operation is Claim <==> all[1] == "claim"@
            &&& update.operation is Release <==> all[1] == "release"@
            &&& update.source@ == all[2]
            &&& parsed(all[3], 9007199254740991) == Some(update.cycle as nat)
            &&& parsed(all[4], 9007199254740991) == Some(update.sequence as nat)
            &&& parsed(all[5], 9007199254740991) == Some(update.observed as nat)
        },
{
    reveal_strlit("claim");
    reveal_strlit("release");
    assert("claim"@.len() == 5 && "release"@.len() == 7);
}

/// The names of the commands of `tmux`.
pub proof fn lemma_tmux_commands(
    arguments: &[String],
    asked: crate::commands::tmux::Invocation,
)
    requires
        call_ensures(crate::commands::tmux::invocation, (arguments,), asked),
        arguments@.len() > 0,
    ensures
        ({
            let all = strings(arguments@);
            &&& all[0] == "context"@ <==> asked is Context
            &&& asked is Context ==> strings(asked->Context_0@) == all.skip(1)
            &&& all[0] == "follow-click"@ <==> asked is FollowClick
            &&& asked is FollowClick ==> strings(asked->FollowClick_0@) == all.skip(1)
            &&& asked is Focus ==> all[0] == "focus"@ && all.len() > 1 && asked->Focus_0@ == all[1]
                && strings(asked->Focus_1@) == all.skip(2)
            &&& asked is FocusHelp <==> all[0] == "focus"@ && all.len() > 1 && (all[1] == "-h"@
                || all[1] == "--help"@ || all[1] == "help"@)
            &&& asked is Help <==> all[0] == "-h"@ || all[0] == "--help"@ || all[0] == "help"@
        }),
{
    reveal_strlit("-h");
    reveal_strlit("--help");
    reveal_strlit("help");
    reveal_strlit("context");
    reveal_strlit("focus");
    reveal_strlit("follow-click");
    assert("-h"@.len() == 2 && "--help"@.len() == 6 && "help"@.len() == 4);
    assert("context"@.len() == 7 && "focus"@.len() == 5 && "follow-click"@.len() == 12);
}

/// The names of the commands of `relay`.
pub proof fn lemma_relay_commands(
    arguments: &[String],
    asked: crate::commands::relay::Invocation,
)
    requires
        call_ensures(crate::commands::relay::invocation, (arguments,), asked),
        arguments@.len() > 0,
    ensures
        ({
            let all = strings(arguments@);
            &&& all[0] == "send"@ <==> asked is Send
            &&& asked is Send ==> strings(asked->Send_0@) == all.skip(1)
            &&& all[0] == "serve"@ <==> asked is Serve
            &&& asked is Serve ==> strings(asked->Serve_0@) == all.skip(1)
            &&& all[0] == "commit"@ <==> asked is Commit
            &&& asked is Commit ==> strings(asked->Commit_0@) == all.skip(1)
            &&& all[0] == "sweep"@ && all.len() == 1 <==> asked is Sweep
            &&& asked is Help <==> all[0] == "-h"@ || all[0] == "--help"@ || all[0] == "help"@
        }),
{
    reveal_strlit("-h");
    reveal_strlit("--help");
    reveal_strlit("help");
    reveal_strlit("send");
    reveal_strlit("serve");
    reveal_strlit("commit");
    reveal_strlit("sweep");
    assert("-h"@.len() == 2 && "--help"@.len() == 6 && "--help"@[0] == '-' && "help"@.len() == 4
        && "help"@[0] == 'h');
    assert("send"@.len() == 4 && "send"@[0] == 's' && "serve"@.len() == 5 && "serve"@[1] == 'e');
    assert("commit"@.len() == 6 && "commit"@[0] == 'c' && "sweep"@.len() == 5 && "sweep"@[1]
        == 'w');
    assert(strings(arguments@).len() == arguments@.len());
}

/// A click is described by five to ten arguments, in this order; a coordinate
/// that is no number is unknown.
pub proof fn lemma_click_arguments(
    arguments: &[String],
    result: Result<Input, &'static str>,
    n: usize,
)
    requires
        call_ensures(follow_click_command, (arguments,), result),
    ensures
        result is Ok <==> 5 <= arguments@.len() <= 10,
        result matches Ok(input) ==> {
            let all = strings(arguments@);
            &&& input.hyperlink@ == all[0] && input.word@ == all[1] && input.line@ == all[2]
                && input.cwd@ == all[4]
            &&& all[3] == decimal(n as nat) ==> input.x == Some(n)
            &&& all.len() > 5 ==> input.client_tty@ == all[5]
            &&& all.len() > 6 ==> input.pane@ == all[6]
            &&& all.len() > 7 && all[7] == decimal(n as nat) ==> input.y == Some(n)
            &&& all.len() > 8 && all[8] == decimal(n as nat) ==> input.pane_top == Some(n)
            &&& all.len() > 9 && all[9] == decimal(n as nat) ==> input.pane_left == Some(n)
            &&& all.len() <= 5 ==> input.client_tty@.len() == 0
            &&& all.len() <= 6 ==> input.pane@.len() == 0
            &&& all.len() <= 7 ==> input.y is None
            &&& all.len() <= 8 ==> input.pane_top is None
            &&& all.len() <= 9 ==> input.pane_left is None
        },
{
    assert(strings(arguments@).len() == arguments@.len());
    lemma_number_bound(n as nat, usize::MAX as nat);
}

proof fn lemma_focus_names()
    ensures
        "--parent-tmux"@ != "--parent-pane"@ && "--parent-tmux"@ != "--interval-ms"@
            && "--parent-tmux"@ != "--tmux-socket"@ && "--parent-pane"@ != "--interval-ms"@
            && "--parent-pane"@ != "--tmux-socket"@ && "--interval-ms"@ != "--tmux-socket"@
            && "--client-pid"@ != "--client-tty"@,
        "--parent-tmux"@.len() == 13 && "--parent-pane"@.len() == 13 && "--interval-ms"@.len() == 13
            && "--tmux-socket"@.len() == 13 && "--client-pid"@.len() == 12 && "--client-tty"@.len()
            == 12 && "--token"@.len() == 7 && "--lease-ms"@.len() == 10,
{
    reveal_strlit("--parent-tmux");
    reveal_strlit("--parent-pane");
    reveal_strlit("--token");
    reveal_strlit("--lease-ms");
    reveal_strlit("--interval-ms");
    reveal_strlit("--tmux-socket");
    reveal_strlit("--client-pid");
    reveal_strlit("--client-tty");
    assert("--parent-tmux"@[9] == 't' && "--parent-pane"@[9] == 'p');
    assert("--parent-tmux"@[2] == 'p' && "--parent-pane"@[2] == 'p' && "--interval-ms"@[2] == 'i'
        && "--tmux-socket"@[2] == 't');
    assert("--client-pid"@[9] == 'p' && "--client-tty"@[9] == 't');
}

/// Each option of `tmux focus` sets what it names and nothing else, and refuses
/// a value that is out of bounds.
pub proof fn lemma_focus_options(state: FocusState, value: Seq<char>, n: nat)
    ensures
        focus_with(state, "--parent-tmux"@, value) == Ok::<FocusState, Seq<char>>(
            FocusState { parent_tmux: Some(value), ..state },
        ),
        focus_with(state, "--parent-pane"@, value) == Ok::<FocusState, Seq<char>>(
            FocusState { parent_pane: Some(value), ..state },
        ),
        focus_with(state, "--tmux-socket"@, value) == Ok::<FocusState, Seq<char>>(
            FocusState { tmux_socket: Some(value), ..state },
        ),
        focus_with(state, "--client-tty"@, value) == Ok::<FocusState, Seq<char>>(
            FocusState { client_tty: Some(value), ..state },
        ),
        focus_with(state, "--token"@, value) == if is_focus_token(value) {
            Ok::<FocusState, Seq<char>>(FocusState { token: Some(value), ..state })
        } else {
            Err("token must be 24 lowercase hex characters"@)
        },
        50 <= n <= 30000 ==> focus_with(state, "--lease-ms"@, decimal(n)) == Ok::<
            FocusState,
            Seq<char>,
        >(FocusState { lease_ms: Some(n as u64), ..state }),
        n < 50 || n > 30000 ==> focus_with(state, "--lease-ms"@, decimal(n)) is Err,
        50 <= n <= 10000 ==> focus_with(state, "--interval-ms"@, decimal(n)) == Ok::<
            FocusState,
            Seq<char>,
        >(FocusState { interval_ms: Some(n as u64), ..state }),
        n < 50 || n > 10000 ==> focus_with(state, "--interval-ms"@, decimal(n)) is Err,
        n <= u32::MAX ==> focus_with(state, "--client-pid"@, decimal(n)) == Ok::<
            FocusState,
            Seq<char>,
        >(FocusState { client_pid: Some(n as u32), ..state }),
        n > u32::MAX ==> focus_with(state, "--client-pid"@, decimal(n)) is Err,
{
    lemma_focus_names();
    lemma_number_bound(n, u64::MAX as nat);
    lemma_number_bound(n, u32::MAX as nat);
}

/// Options come in pairs of a name and a value; one without a value is refused.
pub proof fn lemma_focus_pairs(arguments: Seq<Seq<char>>, i: int, state: FocusState)
    requires
        0 <= i <= arguments.len(),
    ensures
        i == arguments.len() ==> focus_from(arguments, i, state) == Ok::<FocusState, Seq<char>>(
            state,
        ),
        i + 1 == arguments.len() ==> focus_from(arguments, i, state) is Err,
        i + 1 < arguments.len() ==> focus_from(arguments, i, state) == match focus_with(
            state,
            arguments[i],
            arguments[i + 1],
        ) {
            Ok(next) => focus_from(arguments, i + 2, next),
            Err(message) => Err(message),
        },
{
}

/// What each focus command needs: a claim the parent, the token and a lease; a
/// release the parent and the token; an expiry the parent; the others an exact
/// client. A watcher without timings has a lease of three and a half seconds
/// and a heartbeat of one.
pub proof fn lemma_focus_needs(state: FocusState)
    ensures
        focus_lack("claim"@, state) is None <==> state.parent_tmux is Some && state.parent_pane
            is Some && state.token is Some && state.lease_ms is Some,
        focus_lack("release"@, state) is None <==> state.parent_tmux is Some && state.parent_pane
            is Some && state.token is Some,
        focus_lack("expire"@, state) is None <==> state.parent_tmux is Some && state.parent_pane
            is Some,
        focus_lack("watch"@, state) is None <==> state.tmux_socket is Some && state.client_pid
            is Some && state.client_tty is Some,
        focus_lack("stop"@, state) is None <==> state.tmux_socket is Some && state.client_pid
            is Some && state.client_tty is Some,
        focus_lack("sync"@, state) is None <==> state.tmux_socket is Some && state.client_pid
            is Some && state.client_tty is Some,
        DEFAULT_LEASE_MS == 3500,
        DEFAULT_INTERVAL_MS == 1000,
{
    reveal_strlit("claim");
    reveal_strlit("release");
    reveal_strlit("expire");
    reveal_strlit("watch");
    reveal_strlit("stop");
    reveal_strlit("sync");
    assert("claim"@.len() == 5 && "claim"@[0] == 'c' && "watch"@.len() == 5 && "watch"@[0] == 'w');
    assert("release"@.len() == 7 && "expire"@.len() == 6);
    assert("stop"@.len() == 4 && "stop"@[1] == 't' && "sync"@.len() == 4 && "sync"@[1] == 'y');
}

/// A focus command carries the values of its options, each in its place.
pub proof fn lemma_focus_values(
    name: &str,
    arguments: &[String],
    result: Result<FocusCommand, String>,
    state: FocusState,
)
    requires
        call_ensures(crate::commands::tmux::focus_command, (name, arguments), result),
        focus_from(strings(arguments@), 0, crate::commands::tmux::no_focus_options()) == Ok::<
            FocusState,
            Seq<char>,
        >(state),
    ensures
        result is Ok <==> focus_lack(name@, state) is None,
        result matches Ok(FocusCommand::Claim { socket, pane, token, lease_ms }) ==> name@
            == "claim"@ && state.parent_tmux == Some(socket@) && state.parent_pane == Some(pane@)
            && state.token == Some(token@) && state.lease_ms == Some(lease_ms),
        result matches Ok(FocusCommand::Release { socket, pane, token }) ==> name@ == "release"@
            && state.parent_tmux == Some(socket@) && state.parent_pane == Some(pane@)
            && state.token == Some(token@),
        result matches Ok(FocusCommand::Expire { socket, pane }) ==> name@ == "expire"@
            && state.parent_tmux == Some(socket@) && state.parent_pane == Some(pane@),
        result matches Ok(FocusCommand::Watch { socket, pid, tty, lease_ms, interval_ms })
            ==> name@ == "watch"@ && state.tmux_socket == Some(socket@) && state.client_pid == Some(
            pid,
        ) && state.client_tty == Some(tty@) && (state.lease_ms is None ==> lease_ms == 3500) && (
        state.lease_ms is Some ==> state.lease_ms == Some(lease_ms)) && (state.interval_ms is None
            ==> interval_ms == 1000) && (state.interval_ms is Some ==> state.interval_ms == Some(
            interval_ms,
        )),
        result matches Ok(FocusCommand::Stop { socket, pid, tty }) ==> name@ == "stop"@
            && state.tmux_socket == Some(socket@) && state.client_pid == Some(pid)
            && state.client_tty == Some(tty@),
        result matches Ok(FocusCommand::Sync { socket, pid, tty }) ==> name@ == "sync"@
            && state.tmux_socket == Some(socket@) && state.client_pid == Some(pid)
            && state.client_tty == Some(tty@),
{
}

/// A context option stands with its value in one argument, behind an equals
/// sign, or in two. The control mode is a zero or a one.
pub proof fn lemma_context_options(state: ContextState, value: Seq<char>)
    ensures
        context_option(state, "--tty"@, value) == Ok::<ContextState, Seq<char>>(
            ContextState { tty: Some(value), ..state },
        ),
        context_option(state, "--client-termname"@, value) == Ok::<ContextState, Seq<char>>(
            ContextState { termname: Some(value), ..state },
        ),
        context_option(state, "--control-mode"@, "0"@) == Ok::<ContextState, Seq<char>>(
            ContextState { control: false, ..state },
        ),
        context_option(state, "--control-mode"@, "1"@) == Ok::<ContextState, Seq<char>>(
            ContextState { control: true, ..state },
        ),
        value != "0"@ && value != "1"@ ==> context_option(state, "--control-mode"@, value) is Err,
{
    reveal_strlit("--tty");
    reveal_strlit("--client-termname");
    reveal_strlit("--control-mode");
    reveal_strlit("0");
    reveal_strlit("1");
    assert("--tty"@.len() == 5 && "--client-termname"@.len() == 17 && "--control-mode"@.len()
        == 14);
    assert("0"@[0] == '0' && "1"@[0] == '1');
}

/// The two spellings of a context option mean the same.
pub proof fn lemma_context_spellings(
    name: Seq<char>,
    value: Seq<char>,
    state: ContextState,
)
    requires
        name == "--tty"@ || name == "--client-termname"@ || name == "--control-mode"@,
    ensures
        context_from(seq![name, value], 0, state) == context_from(
            seq![name + seq!['='] + value],
            0,
            state,
        ),
        context_from(seq![name], 0, state) is Refused,
        context_from(seq![name, value], 0, state) == match context_option(state, name, value) {
            Ok(next) => ContextReading::Read(next),
            Err(message) => ContextReading::Refused(message),
        },
{
    reveal_strlit("--tty");
    reveal_strlit("--client-termname");
    reveal_strlit("--control-mode");
    reveal_strlit("-h");
    reveal_strlit("--help");
    assert("--tty"@.len() == 5 && "--client-termname"@.len() == 17 && "--control-mode"@.len()
        == 14);
    assert("-h"@.len() == 2 && "--help"@.len() == 6);
    assert(!name.contains('='));
    let whole = name + seq!['='] + value;
    lemma_cut_at(name, '=', value);
    lemma_cut(name, '=');
    match cut(name, '=') {
        Some((before, after)) => {
            assert(name[before.len() as int] == '=');
        },
        None => {},
    }
    assert(whole[name.len() as int] == '=');
    assert(whole != "--help"@) by {
        if whole == "--help"@ {
            assert("--help"@[name.len() as int] == '=');
        }
    }
    assert(whole.len() > 2);
    let two = seq![name, value];
    let one = seq![whole];
    assert(two[0] == name && two[1] == value && one[0] == whole);
    reveal_with_fuel(context_from, 2);
}

/// A control client is told nothing; any other needs a terminal and its kind,
/// and within tmux or screen the escape is framed.
pub proof fn lemma_contexts(arguments: &[String], context: Context, termname: Seq<char>)
    requires
        call_ensures(context_command, (arguments,), context),
    ensures
        context matches Context::Publish { tty, mode } ==> (context_from(
            strings(arguments@),
            0,
            crate::commands::tmux::no_context_options(),
        ) matches ContextReading::Read(state) && !state.control && state.tty == Some(tty@)
            && tty@.len() > 0 && state.termname is Some && state.termname->0.len() > 0 && mode
            == framing(state.termname->0)),
        context is Silent ==> (context_from(
            strings(arguments@),
            0,
            crate::commands::tmux::no_context_options(),
        ) matches ContextReading::Read(state) && state.control),
        framing(termname) is Passthrough <==> "tmux"@.is_prefix_of(termname)
            || "screen"@.is_prefix_of(termname),
{
}

/// Each option of `relay send` takes its value; any other option is refused,
/// and what is no option is kept in its order.
pub proof fn lemma_send_options(
    arguments: Seq<Seq<char>>,
    i: int,
    state: SendState,
    n: nat,
)
    requires
        0 <= i < arguments.len(),
    ensures
        arguments[i] == "--client-tty"@ && i + 1 < arguments.len() ==> send_from(
            arguments,
            i,
            state,
        ) == send_from(arguments, i + 2, SendState { client_tty: Some(arguments[i + 1]), ..state }),
        arguments[i] == "--client-pid"@ && i + 1 < arguments.len() && arguments[i + 1] == decimal(n)
            && n <= u32::MAX ==> send_from(arguments, i, state) == send_from(
            arguments,
            i + 2,
            SendState { client_pid: Some(n as u32), ..state },
        ),
        arguments[i] == "--client-pid"@ && i + 1 < arguments.len() && arguments[i + 1] == decimal(n)
            && n > u32::MAX ==> send_from(arguments, i, state) is Err,
        (arguments[i] == "--client-pid"@ || arguments[i] == "--client-tty"@) && i + 1
            == arguments.len() ==> send_from(arguments, i, state) is Err,
        arguments[i].len() > 0 && arguments[i][0] == '-' && arguments[i] != "--client-pid"@
            && arguments[i] != "--client-tty"@ ==> send_from(arguments, i, state) == Err::<
            SendState,
            Seq<char>,
        >("unknown send option: "@ + arguments[i]),
        arguments[i].len() == 0 || arguments[i][0] != '-' ==> send_from(arguments, i, state)
            == send_from(
            arguments,
            i + 1,
            SendState { positional: state.positional.push(arguments[i]), ..state },
        ),
        send_from(arguments, arguments.len() as int, state) == Ok::<SendState, Seq<char>>(state),
{
    lemma_focus_names();
    lemma_dash(arguments[i]);
    lemma_number_bound(n, u32::MAX as nat);
    reveal_strlit("--client-pid");
    reveal_strlit("--client-tty");
    assert("--client-pid"@[0] == '-' && "--client-tty"@[0] == '-');
}

proof fn lemma_dash(word: Seq<char>)
    ensures
        "-"@.is_prefix_of(word) <==> word.len() > 0 && word[0] == '-',
{
    reveal_strlit("-");
    assert("-"@ =~= seq!['-']);
    if word.len() > 0 && word[0] == '-' {
        assert("-"@ =~= word.subrange(0, 1));
    }
    if "-"@.is_prefix_of(word) {
        assert("-"@[0] == word[0]);
    }
}

/// Each option of `relay serve` takes its value, a descriptor a number of
/// either sign; any other argument is refused, and a socket is needed.
pub proof fn lemma_serve_options(
    arguments: Seq<Seq<char>>,
    i: int,
    state: ServeState,
    n: nat,
)
    requires
        0 <= i < arguments.len(),
    ensures
        arguments[i] == "--socket"@ && i + 1 < arguments.len() ==> serve_from(arguments, i, state)
            == serve_from(arguments, i + 2, ServeState { socket: Some(arguments[i + 1]), ..state }),
        arguments[i] == "--owner-fd"@ && i + 1 < arguments.len() && arguments[i + 1] == decimal(n)
            && n <= i32::MAX ==> serve_from(arguments, i, state) == serve_from(
            arguments,
            i + 2,
            ServeState { owner_fd: Some(n as i32), ..state },
        ),
        arguments[i] == "--owner-fd"@ && i + 1 < arguments.len() && arguments[i + 1] == decimal(n)
            && n > i32::MAX ==> serve_from(arguments, i, state) is Err,
        arguments[i] != "--socket"@ && arguments[i] != "--owner-fd"@ ==> serve_from(
            arguments,
            i,
            state,
        ) == Err::<ServeState, Seq<char>>("unknown serve option: "@ + arguments[i]),
        i + 1 == arguments.len() ==> serve_from(arguments, i, state) is Err,
        serve_from(arguments, arguments.len() as int, state) == Ok::<ServeState, Seq<char>>(state),
{
    reveal_strlit("--socket");
    reveal_strlit("--owner-fd");
    assert("--socket"@.len() == 8 && "--owner-fd"@.len() == 10);
    lemma_signed_number(n, i32::MIN as int, i32::MAX as int);
}

/// Each option of `relay commit` sets what it names and nothing else.
pub proof fn lemma_commit_options(state: CommitState, value: Seq<char>, n: nat)
    ensures
        commit_with(state, "--tmux-socket"@, value) == Ok::<CommitState, Seq<char>>(
            CommitState { tmux_socket: Some(value), ..state },
        ),
        commit_with(state, "--client-tty"@, value) == Ok::<CommitState, Seq<char>>(
            CommitState { client_tty: Some(value), ..state },
        ),
        commit_with(state, "--pane"@, value) == Ok::<CommitState, Seq<char>>(
            CommitState { pane: Some(value), ..state },
        ),
        n <= u32::MAX ==> commit_with(state, "--client-pid"@, decimal(n)) == Ok::<
            CommitState,
            Seq<char>,
        >(CommitState { client_pid: Some(n as u32), ..state }),
        n > u32::MAX ==> commit_with(state, "--client-pid"@, decimal(n)) is Err,
        n <= u64::MAX ==> commit_with(state, "--client-created"@, decimal(n)) == Ok::<
            CommitState,
            Seq<char>,
        >(CommitState { client_created: Some(n as u64), ..state }),
        n > u64::MAX ==> commit_with(state, "--client-created"@, decimal(n)) is Err,
        n <= i32::MAX ==> commit_with(state, "--passthrough-decrqm"@, decimal(n)) == Ok::<
            CommitState,
            Seq<char>,
        >(CommitState { passthrough_state: Some(n as i32), ..state }),
{
    lemma_focus_names();
    reveal_strlit("--client-created");
    reveal_strlit("--passthrough-decrqm");
    reveal_strlit("--pane");
    assert("--client-created"@.len() == 16 && "--passthrough-decrqm"@.len() == 20 && "--pane"@.len()
        == 6);
    lemma_number_bound(n, u32::MAX as nat);
    lemma_number_bound(n, u64::MAX as nat);
    lemma_signed_number(n, i32::MIN as int, i32::MAX as int);
}

/// The options of `relay commit` come in pairs of a known name and a value.
pub proof fn lemma_commit_pairs(arguments: Seq<Seq<char>>, i: int, state: CommitState)
    requires
        0 <= i < arguments.len(),
    ensures
        ({
            let name = arguments[i];
            let known = name == "--tmux-socket"@ || name == "--client-tty"@ || name
                == "--client-pid"@ || name == "--client-created"@ || name
                == "--passthrough-decrqm"@ || name == "--pane"@;
            &&& !known ==> commit_from(arguments, i, state) == Err::<CommitState, Seq<char>>(
                "unknown commit option: "@ + name,
            )
            &&& known && i + 1 == arguments.len() ==> commit_from(arguments, i, state) is Err
            &&& known && i + 1 < arguments.len() ==> commit_from(arguments, i, state)
                == match commit_with(state, name, arguments[i + 1]) {
                Ok(next) => commit_from(arguments, i + 2, next),
                Err(message) => Err(message),
            }
        }),
        commit_from(arguments, arguments.len() as int, state) == Ok::<CommitState, Seq<char>>(
            state,
        ),
{
}

/// Each option of `navigate` with a value sets what it names and nothing else.
pub proof fn lemma_navigate_values(state: OptionState, value: Seq<char>, n: nat)
    ensures
        with_value(state, "--continuation"@, value) == Ok::<OptionState, Seq<char>>(
            OptionState { continuation: Some(value), ..state },
        ),
        with_value(state, "--client-tty"@, value) == Ok::<OptionState, Seq<char>>(
            OptionState { client_tty: Some(value), ..state },
        ),
        with_value(state, "--client-termtype"@, value) == Ok::<OptionState, Seq<char>>(
            OptionState { client_termtype: Some(value), ..state },
        ),
        with_value(state, "--source-socket"@, value) == Ok::<OptionState, Seq<char>>(
            OptionState { source_socket: Some(value), ..state },
        ),
        with_value(state, "--source-pane"@, value) == Ok::<OptionState, Seq<char>>(
            OptionState { source_pane: Some(value), ..state },
        ),
        with_value(state, "--source-session"@, value) == Ok::<OptionState, Seq<char>>(
            OptionState { source_session: Some(value), ..state },
        ),
        n <= u32::MAX ==> with_value(state, "--client-pid"@, decimal(n)) == Ok::<
            OptionState,
            Seq<char>,
        >(OptionState { client_pid: Some(n as u32), ..state }),
        n > u32::MAX ==> with_value(state, "--client-pid"@, decimal(n)) is Err,
        n <= u64::MAX ==> with_value(state, "--client-created"@, decimal(n)) == Ok::<
            OptionState,
            Seq<char>,
        >(OptionState { client_created: Some(n as u64), ..state }),
        n > u64::MAX ==> with_value(state, "--client-created"@, decimal(n)) is Err,
{
    lemma_navigate_names();
    lemma_focus_names();
    lemma_number_bound(n, u32::MAX as nat);
    lemma_number_bound(n, u64::MAX as nat);
}

proof fn lemma_navigate_names()
    ensures
        "--continuation"@.len() == 14 && "--client-created"@.len() == 16
            && "--client-termtype"@.len() == 17 && "--source-socket"@.len() == 15
            && "--source-pane"@.len() == 13 && "--source-session"@.len() == 16
            && "--client-created"@ != "--source-session"@ && "--client-created"@[0] == '-'
            && "--continuation"@[0] == '-' && "--parent"@.len() == 8
            && "--emit-continuation"@.len() == 19 && "--"@.len() == 2,
        "--source-pane"@ != "--tmux-socket"@,
{
    reveal_strlit("--continuation");
    reveal_strlit("--client-created");
    reveal_strlit("--client-termtype");
    reveal_strlit("--source-socket");
    reveal_strlit("--source-pane");
    reveal_strlit("--source-session");
    reveal_strlit("--parent");
    reveal_strlit("--emit-continuation");
    reveal_strlit("--");
    reveal_strlit("--tmux-socket");
    assert("--client-created"@[2] == 'c' && "--source-session"@[2] == 's' && "--source-pane"@[2]
        == 's' && "--tmux-socket"@[2] == 't');
}

/// The two switches of `navigate` stand alone; two hyphens end the options; any
/// other option is refused; what is no option is kept in its order.
pub proof fn lemma_navigate_options(arguments: Seq<Seq<char>>, i: int, state: OptionState)
    requires
        0 <= i < arguments.len(),
    ensures
        ({
            let name = arguments[i];
            let valued = name == "--continuation"@ || name == "--client-pid"@ || name
                == "--client-created"@ || name == "--client-tty"@ || name == "--client-termtype"@
                || name == "--source-socket"@ || name == "--source-pane"@ || name
                == "--source-session"@;
            let result = options_from(arguments, i, state);
            &&& name == "--parent"@ ==> result == options_from(
                arguments,
                i + 1,
                OptionState { parent: true, ..state },
            )
            &&& name == "--emit-continuation"@ ==> result == options_from(
                arguments,
                i + 1,
                OptionState { emit_continuation: true, ..state },
            )
            &&& name == "--"@ ==> result == Ok::<OptionState, Seq<char>>(
                OptionState { positional: state.positional + arguments.skip(i + 1), ..state },
            )
            &&& valued && i + 1 == arguments.len() ==> result is Err
            &&& valued && i + 1 < arguments.len() ==> result == match with_value(
                state,
                name,
                arguments[i + 1],
            ) {
                Ok(next) => options_from(arguments, i + 2, next),
                Err(message) => Err(message),
            }
            &&& name.len() == 0 || name[0] != '-' ==> result == options_from(
                arguments,
                i + 1,
                OptionState { positional: state.positional.push(name), ..state },
            )
            &&& name.len() > 0 && name[0] == '-' && !valued && name != "--parent"@ && name
                != "--emit-continuation"@ && name != "--"@ ==> result == Err::<
                OptionState,
                Seq<char>,
            >("unknown option: "@ + name)
        }),
        options_from(arguments, arguments.len() as int, state) == Ok::<OptionState, Seq<char>>(
            state,
        ),
{
    lemma_navigate_names();
    lemma_focus_names();
    lemma_dash(arguments[i]);
    reveal_strlit("--continuation");
    reveal_strlit("--client-pid");
    reveal_strlit("--client-created");
    reveal_strlit("--client-tty");
    reveal_strlit("--client-termtype");
    reveal_strlit("--source-socket");
    reveal_strlit("--source-pane");
    reveal_strlit("--source-session");
    reveal_strlit("--parent");
    reveal_strlit("--emit-continuation");
    reveal_strlit("--");
    assert("--continuation"@[0] == '-' && "--client-pid"@[0] == '-' && "--client-created"@[0] == '-'
        && "--client-tty"@[0] == '-' && "--client-termtype"@[0] == '-' && "--source-socket"@[0]
        == '-' && "--source-pane"@[0] == '-' && "--source-session"@[0] == '-' && "--parent"@[0]
        == '-' && "--emit-continuation"@[0] == '-' && "--"@[0] == '-');
}

/// An exact client has just the identity that was given, and is trusted.
pub proof fn lemma_exact_clients(state: OptionState, client: Client)
    requires
        identified(state, client),
        crate::commands::navigate::whole_identity(state),
    ensures
        client.exact && !client.control && !client.focused && client.activity == 0,
        Some(client.pid) == state.client_pid,
        Some(client.tty@) == state.client_tty,
        Some(client.termtype@) == state.client_termtype,
        Some(client.socket@) == state.source_socket,
        Some(client.pane@) == state.source_pane,
        Some(client.created) == state.client_created,
        state.source_session is Some ==> Some(client.session@) == state.source_session,
        state.source_session is None ==> client.session@.len() == 0,
{
}

/// A gesture starts outside the caller's scope just where that was asked for,
/// and then only with an exact client; a continuation goes with neither.
pub proof fn lemma_navigations(
    state: OptionState,
    navigation: crate::commands::navigate::Navigation,
)
    requires
        crate::commands::navigate::asked_for(state, navigation),
    ensures
        navigation.include_current == !state.parent,
        navigation.exact_client is Some <==> state.parent,
        navigation.continuation is Some ==> navigation.include_current,
        navigation.emit_continuation == state.emit_continuation,
        state.positional == seq![navigation.action.name(), navigation.direction.name()],
        navigation.direction.suits(navigation.action),
{
    assert(state.positional =~= seq![navigation.action.name(), navigation.direction.name()]);
}

/// Routing state is kept for a quarter of a second, and whole: what was
/// recorded is resumed within that time, and nothing after it.
pub proof fn lemma_continuations(
    now: u64,
    client: Option<Client>,
    scope: Option<Scope>,
    continuation: Continuation,
    later: u64,
    state: (Option<Client>, Option<Scope>),
)
    requires
        call_ensures(Continuation::new, (now, client, scope), continuation),
        call_ensures(Continuation::resume, (continuation, later), state),
        now + 250 <= u64::MAX,
    ensures
        later <= now + 250 ==> state == (client, scope),
        later > now + 250 ==> state == (None::<Client>, None::<Scope>),
        CONTINUATION_TTL_MS == 250,
{
}

/// A gesture that is sent is the one that was named, of a kind that leaves the
/// host, from the exact client that was given, if any.
pub proof fn lemma_sent_gestures(
    arguments: &[String],
    result: Result<crate::commands::relay::Send, String>,
    state: SendState,
)
    requires
        call_ensures(crate::commands::relay::send_command, (arguments,), result),
        send_from(strings(arguments@), 0, crate::commands::relay::no_send_options()) == Ok::<
            SendState,
            Seq<char>,
        >(state),
    ensures
        result matches Ok(send) ==> {
            &&& state.positional == seq![send.action.name(), send.direction.name()]
            &&& send.direction.suits(send.action) && !(send.action is PaneMove)
            &&& send.client is None <==> state.client_pid is None
            &&& send.client matches Some((pid, tty)) ==> state.client_pid == Some(pid)
                && state.client_tty == Some(tty@)
        },
        state.positional.len() != 2 ==> result is Err,
        (state.client_pid is Some) != (state.client_tty is Some) ==> result is Err,
{
    if let Ok(send) = result {
        assert(state.positional =~= seq![send.action.name(), send.direction.name()]);
    }
}

/// A commit needs a server and an exact client, and carries each option that
/// was given; a relay is served at the socket that was given.
pub proof fn lemma_commits_and_servers(
    arguments: &[String],
    result: Result<crate::commands::relay::Commit, String>,
    state: CommitState,
    served: Result<(String, Option<i32>), String>,
    options: ServeState,
)
    requires
        call_ensures(crate::commands::relay::commit_command, (arguments,), result),
        commit_from(strings(arguments@), 0, crate::commands::relay::no_commit_options()) == Ok::<
            CommitState,
            Seq<char>,
        >(state),
    ensures
        result is Ok <==> state.tmux_socket is Some && state.client_tty is Some && state.client_pid
            is Some && state.client_created is Some,
        result matches Ok(commit) ==> {
            &&& state.tmux_socket == Some(commit.tmux_socket@)
            &&& state.client_tty == Some(commit.client_tty@)
            &&& state.client_pid == Some(commit.client_pid)
            &&& state.client_created == Some(commit.client_created)
            &&& state.passthrough_state == commit.passthrough_state
            &&& commit.pane is Some <==> state.pane is Some
            &&& commit.pane matches Some(pane) ==> state.pane == Some(pane@)
        },
        call_ensures(crate::commands::relay::serve_command, (arguments,), served) && serve_from(
            strings(arguments@),
            0,
            ServeState { socket: None, owner_fd: None },
        ) == Ok::<ServeState, Seq<char>>(options) ==> (served is Ok <==> options.socket is Some)
            && (served matches Ok((socket, fd)) ==> options.socket == Some(socket@)
            && options.owner_fd == fd),
{
}

/// An exact client is taken with `--parent` and all of its identity; without it
/// no part of one is.
pub proof fn lemma_exact_options(
    options: crate::commands::navigate::Options,
    result: Result<Option<Client>, &'static str>,
)
    requires
        call_ensures(crate::commands::navigate::exact_client, (&options,), result),
    ensures
        ({
            let any = options.client_pid is Some || options.client_tty is Some
                || options.client_created is Some || options.client_termtype is Some
                || options.source_socket is Some || options.source_pane is Some;
            let all = options.client_pid is Some && options.client_tty is Some
                && options.client_created is Some && options.client_termtype is Some
                && options.source_socket is Some && options.source_pane is Some;
            &&& options.parent ==> (result is Ok <==> all)
            &&& !options.parent ==> (result is Ok <==> !any)
            &&& result matches Ok(client) ==> (client is Some <==> options.parent)
        }),
{
}

} // verus!
