use termnav::cli::{command, report, Command, HELP};
use termnav::commands::navigate::{invocation, Continuation, Invocation, CONTINUATION_TTL_MS};
use termnav::commands::nvim::{invocation as nvim_invocation, Invocation as NvimInvocation};
use termnav::commands::relay::{
    commit_command, invocation as relay_invocation, send_command, serve_command,
    Invocation as RelayInvocation,
};
use termnav::commands::tmux::{
    context_command, focus_command, follow_click_command, invocation as tmux_invocation, Context,
    FocusCommand, Invocation as TmuxInvocation,
};
use termnav::navigation::outer::{terminal_plan, TerminalFacts, TerminalPlan};
use termnav::navigation::system::current_scope;
use termnav::navigation::{Action, Backend, Client, Direction, Navigator, Outcome, Scope};
use termnav::nvim::open::Mode;
use termnav::relay::server::{read_request, Operation};
use termnav::terminal::TmuxMode;
use termnav::version;

fn strings(values: &[&str]) -> Vec<String> {
    values.iter().map(|value| value.to_string()).collect()
}

#[test]
fn missing_command_is_a_usage_error() {
    let report = report(&command(&[])).expect("a report");
    assert_eq!(report.code, 2);
    assert!(report.stdout.is_empty());
    assert!(!report.stderr.is_empty());
    assert!(report.stderr.ends_with(HELP));
}

#[test]
fn version_is_traceable() {
    let stdout = version::line("20260827-101500-abcdef12");
    let fields = stdout.trim().split('-').collect::<Vec<_>>();
    assert!(stdout.starts_with("termnav "));
    assert_eq!(fields.len(), 3);
    assert_eq!(fields[2].len(), 8);
    assert_eq!(stdout, "termnav 20260827-101500-abcdef12");
    assert_eq!(command(&strings(&["version"])), Command::Version);
    assert_eq!(command(&strings(&["--version"])), Command::Version);
}

#[test]
fn top_level_help_lists_the_cohesive_surface() {
    let report = report(&command(&strings(&["--help"]))).expect("a report");
    assert_eq!(report.code, 0);
    assert!(report.stderr.is_empty());
    for name in [
        "navigate",
        "relay",
        "ssh",
        "link-host",
        "tmux",
        "nvim",
        "vscode",
        "eza",
    ] {
        assert!(
            report.stdout.contains(name),
            "missing {name:?} in {:?}",
            report.stdout
        );
    }
}

#[test]
fn unknown_command_is_a_usage_error() {
    let report = report(&command(&strings(&["definitely-not-a-command"]))).expect("a report");
    assert_eq!(report.code, 2);
    assert!(report.stdout.is_empty());
    assert_eq!(
        report.stderr,
        "termnav: unknown command: definitely-not-a-command\n"
    );
}

#[test]
fn commands_are_dispatched_by_name() {
    for (name, expected) in [
        ("navigate", Command::Navigate),
        ("relay", Command::Relay),
        ("ssh", Command::Ssh),
        ("link-host", Command::LinkHost),
        ("nvim", Command::Nvim),
        ("tmux", Command::Tmux),
        ("eza", Command::Eza),
        ("vscode", Command::Vscode),
    ] {
        assert!(report(&expected).is_none());
        assert_eq!(command(&strings(&[name])), expected);
    }
    assert_eq!(
        command(&strings(&["asset-path", "share/x"])),
        Command::AssetPath("share/x".to_owned())
    );
    assert!(matches!(
        command(&strings(&["asset-path"])),
        Command::Refused { help: false, .. }
    ));
    assert!(matches!(
        command(&strings(&["link-host", "x"])),
        Command::Refused { help: false, .. }
    ));
}

/// A session outside tmux, in a terminal that owns no navigation.
struct OutsideTmux {
    calls: Vec<&'static str>,
}

impl Backend for OutsideTmux {
    fn current_scope(&mut self) -> Option<Scope> {
        self.calls.push("current");
        current_scope(None, None)
    }

    fn execute(&mut self, _: &Scope, _: Action, _: Direction) -> Outcome {
        unreachable!()
    }

    fn resolve_client(&mut self, _: &Scope, _: u64) -> Option<Client> {
        unreachable!()
    }

    fn inspect_scope(&mut self, _: &Scope, _: u64) -> (Option<Scope>, Option<Client>) {
        unreachable!()
    }

    fn validate_client(&mut self, _: &Client, _: u64) -> bool {
        unreachable!()
    }

    fn parent_scope(&mut self, _: &Client) -> Option<Scope> {
        unreachable!()
    }

    fn relay(&mut self, _: &Client, _: Action, _: Direction) -> Outcome {
        unreachable!()
    }

    fn terminal(&mut self, client: Option<&Client>, action: Action, _: Direction) -> Outcome {
        assert!(client.is_none());
        self.calls.push("terminal");
        let facts = TerminalFacts {
            termtype: "",
            term_program: "",
            vscode_socket: "",
            vscode_token: "",
            vscode_fallback: "",
        };
        match terminal_plan(action, &facts) {
            TerminalPlan::Decided(outcome) => outcome,
            other => panic!("{other:?}"),
        }
    }
}

#[test]
fn pane_navigation_without_tmux_is_an_owned_terminal_noop() {
    let navigation = match invocation(&strings(&["pane-select", "left"])) {
        Invocation::Navigate(navigation) => navigation,
        other => panic!("{other:?}"),
    };
    assert!(!navigation.emit_continuation);
    let mut backend = OutsideTmux { calls: Vec::new() };
    let outcome = Navigator::new(&mut backend, || 100).navigate(
        navigation.action,
        navigation.direction,
        navigation.include_current,
        navigation.exact_client,
    );
    assert_eq!(outcome.code(), 0);
    assert_eq!(backend.calls, ["current", "terminal"]);
}

fn refusal(arguments: &[&str]) -> String {
    match invocation(&strings(arguments)) {
        Invocation::Refused(message) => message,
        other => panic!("{other:?}"),
    }
}

#[test]
fn parent_navigation_requires_exact_client_identity() {
    assert!(refusal(&["pane-select", "left", "--parent"]).contains("--client-pid"));
}

#[test]
fn malformed_relay_arguments_are_usage_errors() {
    assert!(send_command(&strings(&["--client-pid", "nope", "pane-select", "left"])).is_err());
    assert!(commit_command(&strings(&["--tmux-socket"])).is_err());
    assert!(serve_command(&[]).is_err());
}

#[test]
fn legacy_navigation_action_names_are_not_public_commands() {
    for arguments in [["pane", "left"], ["window", "next"], ["move-window", "right"]] {
        assert!(!refusal(&arguments).is_empty());
    }
    for arguments in [["pane", "left"], ["window", "next"], ["move", "right"]] {
        assert!(send_command(&strings(&arguments)).is_err());
    }
}

#[test]
fn navigation_arguments_are_exact() {
    assert!(matches!(
        invocation(&strings(&["pane-select", "--help"])),
        Invocation::Help
    ));
    assert_eq!(refusal(&["pane-select"]), "action and direction are required");
    match invocation(&strings(&["tab-select", "next", "--emit-continuation"])) {
        Invocation::Navigate(navigation) => {
            assert_eq!(navigation.action, Action::TabSelect);
            assert_eq!(navigation.direction, Direction::Next);
            assert!(navigation.include_current);
            assert!(navigation.emit_continuation);
            assert!(navigation.exact_client.is_none());
        }
        other => panic!("{other:?}"),
    }
    let exact = [
        "pane-select",
        "left",
        "--client-pid",
        "123",
        "--client-tty",
        "/dev/pts/1",
        "--client-created",
        "456",
        "--client-termtype",
        "tmux-256color",
        "--source-socket",
        "/tmp/tmux.sock",
        "--source-pane",
        "%1",
    ];
    assert_eq!(refusal(&exact), "exact client options require --parent");
    let mut parent = exact.to_vec();
    parent.push("--parent");
    match invocation(&strings(&parent)) {
        Invocation::Navigate(navigation) => {
            assert!(!navigation.include_current);
            let client = navigation.exact_client.expect("an exact client");
            assert_eq!((client.pid, client.created), (123, 456));
            assert!(client.exact);
            assert_eq!(client.pane, "%1");
        }
        other => panic!("{other:?}"),
    }
}

#[test]
fn navigation_continuations_round_trip_and_fail_closed() {
    let scope = Scope {
        socket: "/s".to_owned(),
        pane: "%1".to_owned(),
        session: None,
    };
    let continuation = Continuation::new(1000, None, Some(scope.clone()));
    assert_eq!(
        continuation.expires_at_monotonic_ms,
        1000 + CONTINUATION_TTL_MS
    );
    assert_eq!(continuation.resume(1000), (None, Some(scope.clone())));
    let late = Continuation::new(1000, None, Some(scope));
    assert_eq!(late.resume(1000 + CONTINUATION_TTL_MS + 1), (None, None));
    let mut parent = vec!["pane-select", "left", "--parent", "--continuation", "{}"];
    parent.extend([
        "--client-pid",
        "1",
        "--client-tty",
        "/t",
        "--client-created",
        "1",
        "--client-termtype",
        "x",
        "--source-socket",
        "/s",
        "--source-pane",
        "%1",
    ]);
    assert_eq!(
        refusal(&parent),
        "--continuation cannot be combined with --parent or exact client options"
    );
}

#[test]
fn relay_arguments_are_exact() {
    let send = send_command(&strings(&[
        "--client-pid",
        "7",
        "--client-tty",
        "/dev/pts/1",
        "tab-move",
        "left",
    ]))
    .expect("a gesture");
    assert_eq!((send.action, send.direction), (Action::TabMove, Direction::Left));
    assert_eq!(send.client, Some((7, "/dev/pts/1".to_owned())));
    assert!(send_command(&strings(&["pane-move", "left"])).is_err());
    assert!(send_command(&strings(&["--client-pid", "7", "tab-move", "left"])).is_err());
    let (socket, owner) = serve_command(&strings(&["--socket", "/s", "--owner-fd", "3"]))
        .expect("a server");
    assert_eq!((socket.as_str(), owner), ("/s", Some(3)));
    let commit = commit_command(&strings(&[
        "--tmux-socket",
        "/s",
        "--client-tty",
        "/t",
        "--client-pid",
        "1",
        "--client-created",
        "2",
    ]))
    .expect("a commit");
    assert_eq!((commit.client_pid, commit.client_created), (1, 2));
}

#[test]
fn link_host_is_not_part_of_the_neovim_namespace() {
    match nvim_invocation(&strings(&["link-host"])) {
        NvimInvocation::Refused(message) => {
            assert_eq!(message, "unknown or unimplemented Neovim command: link-host");
        }
        other => panic!("{other:?}"),
    }
}

#[test]
fn neovim_arguments_are_exact() {
    assert!(matches!(nvim_invocation(&strings(&["help"])), NvimInvocation::Help));
    match nvim_invocation(&strings(&["open", "tmux-link", "f", "/w"])) {
        NvimInvocation::Open(mode, rest) => {
            assert_eq!(mode, Mode::TmuxLink);
            assert_eq!(rest, strings(&["f", "/w"]));
        }
        other => panic!("{other:?}"),
    }
    match nvim_invocation(&strings(&["ssh-open", "h", "t"])) {
        NvimInvocation::SshOpen { host, target } => assert_eq!((host, target), ("h".to_owned(), "t".to_owned())),
        other => panic!("{other:?}"),
    }
    let message = |arguments: &[&str]| match nvim_invocation(&strings(arguments)) {
        NvimInvocation::Refused(message) => message,
        other => panic!("{other:?}"),
    };
    assert_eq!(message(&[]), "a Neovim command is required");
    assert_eq!(message(&["open"]), "open requires a MODE");
    assert_eq!(message(&["open", "x"]), "unknown open mode: x");
    assert_eq!(message(&["ssh-open", "h"]), "ssh-open requires HOST and TARGET");
}

#[test]
fn contexts_frame_by_terminal_type() {
    let context = |arguments: &[&str]| context_command(&strings(arguments));
    assert_eq!(
        context(&["--tty=/t", "--client-termname", "tmux-256color"]),
        Context::Publish {
            tty: "/t".to_owned(),
            mode: TmuxMode::Passthrough
        }
    );
    assert_eq!(
        context(&["--tty", "/t", "--client-termname=xterm", "--control-mode=0"]),
        Context::Publish {
            tty: "/t".to_owned(),
            mode: TmuxMode::Raw
        }
    );
    assert_eq!(context(&["--control-mode", "1"]), Context::Silent);
    assert_eq!(context(&["-h"]), Context::Help);
    let refused = |message: &str| Context::Refused(message.to_owned());
    assert_eq!(context(&["--tty"]), refused("--tty requires a value"));
    assert_eq!(context(&["--bad=1"]), refused("unknown context option: --bad=1"));
    assert_eq!(context(&["--control-mode", "2"]), refused("--control-mode must be 0 or 1"));
    assert_eq!(context(&["--tty="]), refused("--tty is required"));
    assert_eq!(context(&["--tty=/t"]), refused("--client-termname is required"));
}

#[test]
fn clicks_carry_what_is_known() {
    let click = follow_click_command(&strings(&["", "CVE-2024-12345", "", "0", "/repo", "/tty"]))
        .expect("a click");
    assert_eq!(click.word, "CVE-2024-12345");
    assert_eq!(click.x, Some(0));
    assert_eq!(click.client_tty, "/tty");
    assert_eq!(click.pane, "");
    let full = follow_click_command(&strings(&[
        "h", "w", "l", "x", "/", "/tty", "%1", "3", "4", "5",
    ]))
    .expect("a click");
    assert_eq!(full.x, None);
    assert_eq!((full.y, full.pane_top, full.pane_left), (Some(3), Some(4), Some(5)));
    assert!(follow_click_command(&strings(&["h", "w", "l", "0"])).is_err());
    assert!(follow_click_command(&vec![String::new(); 11]).is_err());
}

#[test]
fn focus_commands_require_their_options() {
    let token = "0123456789abcdef01234567";
    match focus_command(
        "claim",
        &strings(&[
            "--parent-tmux",
            "/s",
            "--parent-pane",
            "%1",
            "--token",
            token,
            "--lease-ms",
            "3500",
        ]),
    ) {
        Ok(FocusCommand::Claim {
            socket,
            pane,
            lease_ms,
            ..
        }) => assert_eq!((socket.as_str(), pane.as_str(), lease_ms), ("/s", "%1", 3500)),
        other => panic!("{other:?}"),
    }
    match focus_command(
        "watch",
        &strings(&["--tmux-socket", "/s", "--client-pid", "1", "--client-tty", "/t"]),
    ) {
        Ok(FocusCommand::Watch {
            lease_ms,
            interval_ms,
            ..
        }) => assert_eq!((lease_ms, interval_ms), (3500, 1000)),
        other => panic!("{other:?}"),
    }
    assert_eq!(
        focus_command("release", &[]).err().as_deref(),
        Some("focus release requires parent and token options")
    );
    assert_eq!(
        focus_command("blink", &[]).err().as_deref(),
        Some("unknown focus command: blink")
    );
}

#[test]
fn rust_dispatch_keeps_the_frozen_v2_envelope() {
    for line in [
        "{\"v\":1,\"op\":\"readiness-probe\"}\n",
        "{\"v\":2,\"op\":\"readiness-probe\"}\n",
        "not json",
        "[2]",
        "{\"v\":2}",
        "{\"v\":2,\"op\":\"navigate\",\"scope\":\"pane\",\"direction\":\"next\"}",
    ] {
        assert_eq!(read_request(line).1, Operation::Refused, "{line}");
    }
    assert_eq!(
        termnav::relay::protocol::reply_line("error"),
        "{\"result\":\"error\",\"v\":2}\n"
    );
    assert_eq!(
        read_request("{\"v\":2,\"op\":\"navigate\",\"scope\":\"pane\",\"direction\":\"left\"}\n").1,
        Operation::Navigate {
            scope: "pane".to_owned(),
            direction: "left".to_owned()
        }
    );
    assert_eq!(read_request("{\"v\":2,\"op\":\"focus\"}").1, Operation::Focus);
    assert_eq!(read_request("{\"v\":2,\"op\":\"commit-path\"}").1, Operation::CommitPath);
    assert_eq!(read_request("{\"v\":2,\"op\":\"prepare-path\"}").1, Operation::PreparePath);
    assert_eq!(read_request("{\"v\":2,\"op\":\"abort-path\"}").1, Operation::AbortPath);
}

#[test]
fn exact_clients_survive_a_continuation() {
    let client = Client {
        activity: 1,
        pid: 2,
        tty: "/t".to_owned(),
        termtype: "x".to_owned(),
        session: "$1".to_owned(),
        pane: "%1".to_owned(),
        focused: true,
        control: false,
        socket: "/s".to_owned(),
        exact: true,
        created: 3,
    };
    let continuation = Continuation::new(u64::MAX, Some(client.clone()), None);
    assert_eq!(continuation.resume(u64::MAX), (Some(client), None));
}

#[test]
fn relay_commands_are_dispatched_by_name() {
    let asked = |arguments: &[&str]| relay_invocation(&strings(arguments));
    let refused = |message: &str| RelayInvocation::Refused(message.to_owned());
    assert_eq!(asked(&["help"]), RelayInvocation::Help);
    assert_eq!(asked(&["send", "a"]), RelayInvocation::Send(strings(&["a"])));
    assert_eq!(asked(&["serve"]), RelayInvocation::Serve(Vec::new()));
    assert_eq!(asked(&["commit", "b"]), RelayInvocation::Commit(strings(&["b"])));
    assert_eq!(asked(&["sweep"]), RelayInvocation::Sweep);
    assert_eq!(asked(&[]), refused("a relay command is required"));
    assert_eq!(asked(&["sweep", "x"]), refused("sweep accepts no arguments"));
    assert_eq!(asked(&["x"]), refused("unknown relay command: x"));
}

#[test]
fn tmux_commands_are_dispatched_by_name() {
    let asked = |arguments: &[&str]| tmux_invocation(&strings(arguments));
    let refused = |message: &str| TmuxInvocation::Refused(message.to_owned());
    assert_eq!(asked(&["-h"]), TmuxInvocation::Help);
    assert_eq!(asked(&["context", "a"]), TmuxInvocation::Context(strings(&["a"])));
    assert_eq!(asked(&["focus", "help"]), TmuxInvocation::FocusHelp);
    assert_eq!(
        asked(&["focus", "claim", "a"]),
        TmuxInvocation::Focus("claim".to_owned(), strings(&["a"]))
    );
    assert_eq!(asked(&["follow-click", "a"]), TmuxInvocation::FollowClick(strings(&["a"])));
    assert_eq!(asked(&[]), refused("a tmux command is required"));
    assert_eq!(asked(&["focus"]), refused("focus requires a command"));
    assert_eq!(asked(&["x"]), refused("unknown or unimplemented tmux command: x"));
}
