use termnav::http::{http_request, http_success, response_body};
use termnav::json::{member_of, text_of, Member};
use termnav::navigation::mcp::{
    advance, call_request, initialize_request, is_loopback_address, settings, token_of, Exchange,
    McpEnvironment,
};
use termnav::navigation::outer::{
    active_pane_arguments, answer, delivered, refreshed_scope, relay_gate, relay_scope,
    switch_tab_request, terminal_plan, user_var_value, window_answer, window_of_pane_arguments,
    Ancestry, RelayGate, TerminalFacts, TerminalPlan,
};
use termnav::navigation::system::{
    all_clients, client_query_arguments, current_scope, execute, identity_of, inspect_scope,
    outcome, refresh_client, resolve_client, same_route, socket_of, tmux_format, valid_pane,
    validate_client, window_list_arguments, window_partner, window_query_arguments,
    window_swap_arguments, window_to_move, Execution, TmuxOutput, DECLINED_MARKER, ERROR_MARKER,
};
use termnav::navigation::walk::{Reply, Request, Walk};
use termnav::navigation::{Action, Client, Direction, Outcome, Scope};

fn strings(values: &[&str]) -> Vec<String> {
    values.iter().map(|value| value.to_string()).collect()
}

fn printed(text: &str) -> Option<TmuxOutput> {
    Some(TmuxOutput {
        success: true,
        stdout: text.as_bytes().to_vec(),
    })
}

fn failed(text: &str) -> Option<TmuxOutput> {
    Some(TmuxOutput {
        success: false,
        stdout: text.as_bytes().to_vec(),
    })
}

fn scope() -> Scope {
    Scope {
        socket: "/s".to_owned(),
        pane: "%1".to_owned(),
        session: Some("$1".to_owned()),
    }
}

fn client(pid: u32, activity: u64) -> Client {
    Client {
        activity,
        pid,
        tty: format!("/dev/pts/{pid}"),
        termtype: "xterm".to_owned(),
        session: "$1".to_owned(),
        pane: "%1".to_owned(),
        focused: false,
        control: false,
        socket: "/s".to_owned(),
        exact: false,
        created: 80,
    }
}

#[test]
fn outcomes_have_stable_exit_codes() {
    assert_eq!(Outcome::Handled.code(), 0);
    assert_eq!(Outcome::Declined.code(), 3);
    assert_eq!(Outcome::Error.code(), 1);
    for (action, names) in [
        (Action::PaneSelect, &["left", "down", "up", "right"][..]),
        (Action::PaneMove, &["left", "down", "up", "right"][..]),
        (Action::TabSelect, &["previous", "next"][..]),
        (Action::TabMove, &["left", "right"][..]),
    ] {
        assert_eq!(Action::parse(action.as_str()), Ok(action));
        for name in ["left", "down", "up", "right", "previous", "next", "back"] {
            let direction = Direction::parse(action, name);
            assert_eq!(direction.is_ok(), names.contains(&name));
            assert!(direction.map_or(true, |found| found.as_str() == name));
        }
    }
    assert!(Action::parse("pane").is_err());
}

#[test]
fn tmux_markers_precede_the_exit_status() {
    assert_eq!(outcome(&printed("x")), Outcome::Handled);
    assert_eq!(outcome(&failed("x")), Outcome::Error);
    assert_eq!(outcome(&None), Outcome::Error);
    assert_eq!(outcome(&printed(&format!("{DECLINED_MARKER}\n"))), Outcome::Declined);
    assert_eq!(outcome(&failed(&format!("{DECLINED_MARKER}\n"))), Outcome::Declined);
    assert_eq!(outcome(&printed(&format!(" {ERROR_MARKER}\n"))), Outcome::Error);
}

#[test]
fn pane_selection_is_one_guarded_command() {
    assert_eq!(
        execute(&scope(), Action::PaneSelect, Direction::Left),
        Execution::Tmux(strings(&[
            "if-shell",
            "-F",
            "-t",
            "$1:.%1",
            "#{&&:#{>:#{window_active_clients},0},#{pane_active}}",
            "'if-shell' '-F' '-t' '%1' '#{!=:#{pane_at_left},1}' ''\\''select-pane'\\'' '\\''-t'\\'' '\\''%1'\\'' '\\''-L'\\''' ''\\''display-message'\\'' '\\''-p'\\'' '\\''__TERMNAV_DECLINED__'\\'''",
            "'display-message' '-p' '__TERMNAV_ERROR__'",
        ]))
    );
    assert_eq!(
        execute(&scope(), Action::PaneSelect, Direction::Next),
        Execution::Decided(Outcome::Error)
    );
}

#[test]
fn pane_movement_declines_quietly_once_inactive() {
    match execute(&scope(), Action::PaneMove, Direction::Up) {
        Execution::Tmux(arguments) => {
            assert!(arguments[5].contains("swap-pane"));
            assert!(arguments[5].contains("{up-of}"));
            assert!(arguments[6].contains(DECLINED_MARKER));
        }
        other => panic!("{other:?}"),
    }
}

#[test]
fn tab_operations_need_a_session() {
    let mut bare = scope();
    bare.session = None;
    for action in [Action::TabSelect, Action::TabMove] {
        assert_eq!(
            execute(&bare, action, Direction::Next),
            Execution::Decided(Outcome::Error)
        );
    }
    assert_eq!(execute(&scope(), Action::TabMove, Direction::Left), Execution::MoveTab);
    match execute(&scope(), Action::TabSelect, Direction::Previous) {
        Execution::Tmux(arguments) => {
            assert!(arguments[5].contains("previous-window"));
            assert!(arguments[5].contains("#{>:#{session_windows},1}"));
            assert!(arguments[6].contains(ERROR_MARKER));
        }
        other => panic!("{other:?}"),
    }
}

#[test]
fn window_moves_are_owned_no_ops_at_the_ends() {
    assert_eq!(
        window_query_arguments(&scope()),
        strings(&["display-message", "-p", "-t", "$1:.%1", "#{session_windows}|#{window_id}"])
    );
    assert_eq!(window_to_move(&printed("3|@2\n")), Ok("@2".to_owned()));
    assert_eq!(window_to_move(&printed("1|@2\n")), Err(Outcome::Declined));
    assert_eq!(window_to_move(&printed("x|@2\n")), Err(Outcome::Error));
    assert_eq!(window_to_move(&failed("3|@2\n")), Err(Outcome::Error));
    assert_eq!(window_to_move(&None), Err(Outcome::Error));
    assert_eq!(
        window_list_arguments("$1"),
        strings(&["list-windows", "-t", "$1", "-F", "#{window_id}"])
    );
    let listing = printed("@1\n@2\n@3\n");
    assert_eq!(window_partner(&listing, "@2", Direction::Left), Ok("@1".to_owned()));
    assert_eq!(window_partner(&listing, "@2", Direction::Right), Ok("@3".to_owned()));
    assert_eq!(window_partner(&listing, "@1", Direction::Left), Err(Outcome::Handled));
    assert_eq!(window_partner(&listing, "@3", Direction::Right), Err(Outcome::Handled));
    assert_eq!(window_partner(&listing, "@4", Direction::Left), Err(Outcome::Error));
    assert_eq!(window_partner(&failed(""), "@1", Direction::Left), Err(Outcome::Error));
    let swap = window_swap_arguments(&scope(), "$1", "@2", "@1");
    assert_eq!(
        swap[5],
        "'swap-window' '-d' '-s' '$1:@2' '-t' '$1:@1'"
    );
}

#[test]
fn identities_are_exact() {
    assert!(valid_pane("%12"));
    assert!(!valid_pane("%"));
    assert!(!valid_pane("12"));
    assert!(!valid_pane("%1a"));
    assert_eq!(socket_of("/tmp/a,b,1,2").as_deref(), Some("/tmp/a,b"));
    assert_eq!(socket_of(",1,2"), None);
    assert_eq!(socket_of("/tmp/a"), None);
    assert_eq!(
        identity_of("/s,1,0", "%2"),
        Some(("/s".to_owned(), "%2".to_owned()))
    );
    assert_eq!(identity_of("/s,1,0", "2"), None);
    let current = current_scope(Some("/s,1,0"), Some("%2")).expect("a scope");
    assert_eq!((current.socket.as_str(), current.pane.as_str()), ("/s", "%2"));
    assert_eq!(current_scope(None, Some("%2")), None);
    assert_eq!(tmux_format(&["a", "b"]), "#{a}|#{b}");
    assert_eq!(scope().target(), "$1:.%1");
    let mut bare = scope();
    bare.session = None;
    assert_eq!(bare.target(), "%1");
}

#[test]
fn clients_are_found_by_exact_route() {
    assert_eq!(client_query_arguments()[0], "list-clients");
    let rows = "100|10|/dev/pts/10|xterm|$1|%1|attached,focused|0|80\n\
                99|11|/dev/pts/11|xterm|$1|%2|attached|0|81\n\
                malformed\n";
    let clients = all_clients("/s", &printed(rows));
    assert_eq!(clients.len(), 2);
    assert!(all_clients("/s", &failed(rows)).is_empty());
    assert!(all_clients("/s", &None).is_empty());
    let chosen = resolve_client(&clients, &scope(), 100).expect("a client");
    assert_eq!(chosen.pid, 10);
    assert!(validate_client(&clients, &chosen, 100));
    assert!(same_route(&clients[0], &chosen));
    assert!(!same_route(&clients[1], &chosen));
    let mut reused = chosen.clone();
    reused.created = 79;
    assert!(!validate_client(&clients, &reused, 100));
    assert_eq!(refresh_client(&clients, &chosen).map(|found| found.pid), Some(10));
    assert_eq!(refresh_client(&clients, &reused), None);
    let (found, displayed) = inspect_scope(&clients, &scope(), 100);
    assert_eq!(found, Some(scope()));
    assert_eq!(displayed.map(|found| found.pid), Some(10));
}

#[test]
fn retained_scopes_follow_the_active_pane() {
    assert_eq!(
        window_of_pane_arguments(&scope()).last().map(String::as_str),
        Some("#{window_id}")
    );
    assert_eq!(active_pane_arguments("@1").contains(&"@1".to_owned()), true);
    assert_eq!(answer(&printed(" @1\n")).as_deref(), Some("@1"));
    assert_eq!(answer(&failed("@1")), None);
    assert_eq!(window_answer(&printed("@1\n")).as_deref(), Some("@1"));
    assert_eq!(window_answer(&printed("\n")), None);
    let followed = refreshed_scope(&scope(), &printed("%7\n")).expect("a scope");
    assert_eq!(followed.pane, "%7");
    assert_eq!(followed.session.as_deref(), Some("$1"));
    assert_eq!(refreshed_scope(&scope(), &printed("7\n")), None);
}

#[test]
fn ancestors_are_climbed_once() {
    let mut ancestry = Ancestry::new(7);
    assert_eq!(ancestry.look(), Some(7));
    ancestry.climb("", "", Some(6));
    assert_eq!(ancestry.look(), Some(6));
    ancestry.climb("", "", Some(7));
    assert_eq!(ancestry.look(), None);
    assert_eq!(ancestry.found(), None);
    let mut orphan = Ancestry::new(7);
    orphan.climb("", "", Some(1));
    assert_eq!(orphan.look(), None);
    let mut lost = Ancestry::new(7);
    lost.climb("", "", None);
    assert_eq!(lost.look(), None);
    assert_eq!(Ancestry::new(1).look(), None);
}

#[test]
fn the_nearest_whole_identity_is_found() {
    let mut ancestry = Ancestry::new(9);
    // A server without a pane, and a pane without a server, name nothing.
    ancestry.climb("/s,1,0", "", Some(8));
    assert_eq!(ancestry.look(), Some(8));
    ancestry.climb("/s", "%4", Some(7));
    assert_eq!(ancestry.look(), Some(7));
    ancestry.climb("/tmp/a,b,12,0", "%5", Some(6));
    assert_eq!(ancestry.look(), None);
    // What is read later changes nothing.
    ancestry.climb("/outer,1,0", "%6", Some(5));
    assert_eq!(ancestry.found(), Some(("/tmp/a,b".to_owned(), "%5".to_owned())));
}

#[test]
fn relays_and_terminals_are_asked_for_what_they_own() {
    assert_eq!(relay_scope(Action::PaneSelect), Some("pane"));
    assert_eq!(relay_scope(Action::TabSelect), Some("window"));
    assert_eq!(relay_scope(Action::TabMove), Some("move"));
    assert_eq!(relay_scope(Action::PaneMove), None);
    assert_eq!(relay_gate(None, true), RelayGate::Decline);
    assert_eq!(relay_gate(Some(""), true), RelayGate::Decline);
    assert_eq!(relay_gate(Some("/r"), false), RelayGate::Fail);
    assert_eq!(relay_gate(Some("/r"), true), RelayGate::Ask);
    let facts = |termtype: &'static str, socket: &'static str, token: &'static str, fallback: &'static str| {
        TerminalFacts {
            termtype,
            term_program: "",
            vscode_socket: socket,
            vscode_token: token,
            vscode_fallback: fallback,
        }
    };
    let token = "0123456789abcdef0123456789abcdef0123456789abcdef0123456789abcdef";
    assert_eq!(
        terminal_plan(Action::TabSelect, &facts("xterm.js(6)", "/v", token, "")),
        TerminalPlan::VscodeSocket
    );
    assert_eq!(
        terminal_plan(Action::TabSelect, &facts("xterm.js(6)", "/v", "short", "mcp")),
        TerminalPlan::Decided(Outcome::Error)
    );
    assert_eq!(
        terminal_plan(Action::TabSelect, &facts("xterm.js(6)", "", "", "mcp")),
        TerminalPlan::VscodeMcp
    );
    assert_eq!(
        terminal_plan(Action::TabMove, &facts("xterm.js(6)", "", "", "")),
        TerminalPlan::Decided(Outcome::Handled)
    );
    assert_eq!(
        terminal_plan(Action::TabSelect, &facts("xterm", "", "", "")),
        TerminalPlan::UserVar("TERMNAV_TAB_SELECT")
    );
    assert_eq!(
        terminal_plan(Action::TabMove, &facts("xterm", "", "", "")),
        TerminalPlan::UserVar("TERMNAV_TAB_MOVE")
    );
    assert_eq!(
        terminal_plan(Action::TabMove, &facts("tmux-256color", "", "", "")),
        TerminalPlan::Decided(Outcome::Handled)
    );
    assert_eq!(
        terminal_plan(Action::PaneMove, &facts("xterm", "", "", "")),
        TerminalPlan::Decided(Outcome::Declined)
    );
    assert_eq!(delivered(true), Outcome::Handled);
    assert_eq!(delivered(false), Outcome::Error);
    assert_eq!(
        switch_tab_request(Direction::Next, "a\"b\\\n\u{1}"),
        "{\"direction\":\"next\",\"token\":\"a\\\"b\\\\\\n\\u0001\"}"
    );
    assert_eq!(user_var_value(Direction::Left, "5"), "left:5");
}

fn environment() -> McpEnvironment<'static> {
    McpEnvironment {
        token_file: "/run/token",
        address: "",
        path: "",
        method: "",
        tool: "",
        previous_command: "",
        next_command: "",
    }
}

#[test]
fn devservers_are_asked_on_this_host_only() {
    for address in ["127.0.0.1:1", "127.255.0.9:65535", "localhost:80", "[::1]:80"] {
        assert!(is_loopback_address(address), "{address}");
    }
    for address in ["128.0.0.1:1", "127.0.0.1", "127.0.0.1:65536", "127.0.0.256:1", "example:1"]
        .into_iter()
        // Only plain digits are an address; anything else would be looked up by name.
        .chain(["127.+0.0.1:1", "127.00.0.1:1", "127.0.0.01:1", "127.0.0.:1", "+127.0.0.1:1"])
    {
        assert!(!is_loopback_address(address), "{address}");
    }
    let chosen = settings(&environment(), Direction::Previous).expect("settings");
    assert_eq!(chosen.address, "127.0.0.1:9876");
    assert_eq!(chosen.command, "workbench.action.terminal.focusPrevious");
    assert_eq!(
        call_request(&chosen),
        "{\"id\":1,\"jsonrpc\":\"2.0\",\"method\":\"tools/call\",\"params\":{\"arguments\":{\"command\":\"workbench.action.terminal.focusPrevious\"},\"name\":\"execute_command\"}}"
    );
    assert!(initialize_request().contains("2024-11-05"));
    let mut relative = environment();
    relative.token_file = "token";
    assert!(settings(&relative, Direction::Next).is_none());
    let mut remote = environment();
    remote.address = "10.0.0.1:80";
    assert!(settings(&remote, Direction::Next).is_none());
    assert_eq!(token_of("secret\n\n").as_deref(), Some("secret"));
    assert_eq!(token_of("\n"), None);
}

#[test]
fn a_refused_call_is_repeated_once() {
    let body = |text: &str| response_body(&format!("HTTP/1.1 200 OK\r\n\r\n{text}"));
    let fine = || body("{\"result\":{}}");
    let refused = || body("{\"error\":{}}");
    assert_eq!(advance(Exchange::Call, &fine()), Exchange::Done { handled: true });
    assert_eq!(advance(Exchange::Call, &refused()), Exchange::Initialize);
    assert_eq!(advance(Exchange::Initialize, &fine()), Exchange::Retry);
    assert_eq!(advance(Exchange::Initialize, &refused()), Exchange::Done { handled: false });
    assert_eq!(advance(Exchange::Retry, &refused()), Exchange::Done { handled: false });
    assert_eq!(advance(Exchange::Call, &None), Exchange::Done { handled: false });
}

#[test]
fn requests_are_framed_by_byte_length() {
    assert_eq!(
        http_request("/x", "{\"a\":\"\u{e9}\"}", &[("Authorization", "Bearer t")]),
        "POST /x HTTP/1.1\r\nHost: localhost\r\nContent-Type: application/json\r\nContent-Length: 10\r\nConnection: close\r\nAuthorization: Bearer t\r\n\r\n{\"a\":\"\u{e9}\"}"
    );
    assert!(http_success("HTTP/1.1 204 No Content\r\n"));
    assert!(!http_success("HTTP/1.1 500 Oops\r\n"));
    assert!(!http_success(""));
    assert_eq!(response_body("HTTP/1.1 200 OK\r\n"), None);
    assert_eq!(response_body("HTTP/1.1 200 OK\r\n\r\nnot json"), None);
    let json = response_body(
        "HTTP/1.1 200 OK\r\n\r\n{\"n\":7,\"t\":\"x\",\"b\":true,\"z\":null,\"a\":[1],\"o\":{},\"f\":-1}",
    )
    .expect("a body");
    assert_eq!(member_of(&json, "n"), Some(&Member::Number(Some(7))));
    assert_eq!(member_of(&json, "f"), Some(&Member::Number(None)));
    assert_eq!(member_of(&json, "b"), Some(&Member::Bool(true)));
    assert_eq!(member_of(&json, "z"), Some(&Member::Null));
    assert_eq!(member_of(&json, "a"), Some(&Member::Array));
    assert_eq!(member_of(&json, "o"), Some(&Member::Object));
    assert_eq!(text_of(&json, "t"), Some("x"));
    assert_eq!(text_of(&json, "n"), None);
}

/// Answer every request of a traversal from two columns: what a request is,
/// and what it is answered.
fn drive(mut walk: Walk, mut reply: impl FnMut(&Request) -> Reply) -> (Outcome, Vec<String>) {
    let mut asked = Vec::new();
    loop {
        match walk.request() {
            Some(request) => {
                asked.push(
                    match &request {
                        Request::CurrentScope => "current",
                        Request::RefreshScope(_) => "refresh-scope",
                        Request::RefreshClient(_) => "refresh-client",
                        Request::InspectScope(_) => "inspect",
                        Request::Execute(_) => "execute",
                        Request::ResolveClient(_) => "resolve",
                        Request::ValidateClient(_) => "validate",
                        Request::ParentScope(_) => "parent",
                        Request::Relay(_) => "relay",
                        Request::Terminal(_) => "terminal",
                    }
                    .to_owned(),
                );
                let answer = reply(&request);
                walk = walk.answer(answer);
            }
            None => {
                let result = walk.finish().expect("a result");
                return (result.outcome, asked);
            }
        }
    }
}

fn standard(request: &Request, executed: Outcome, relayed: Outcome, valid: bool) -> Reply {
    match request {
        Request::CurrentScope => Reply::Scope(Some(scope())),
        Request::RefreshScope(_) => Reply::Scope(Some(scope())),
        Request::RefreshClient(_) => Reply::Client(Some(client(10, 100))),
        Request::InspectScope(_) => Reply::Inspection(Some(scope()), Some(client(10, 100))),
        Request::Execute(_) => Reply::Outcome(executed),
        Request::ResolveClient(_) => Reply::Client(Some(client(10, 100))),
        Request::ValidateClient(_) => Reply::Valid(valid),
        Request::ParentScope(_) => Reply::Scope(None),
        Request::Relay(_) => Reply::Outcome(relayed),
        Request::Terminal(_) => Reply::Outcome(Outcome::Handled),
    }
}

#[test]
fn decided_outcomes_end_the_traversal() {
    let walk = Walk::start(Action::PaneSelect, true, None, None, None);
    let (result, asked) = drive(walk, |request| {
        standard(request, Outcome::Handled, Outcome::Handled, true)
    });
    assert_eq!(result, Outcome::Handled);
    assert_eq!(asked.last().map(String::as_str), Some("execute"));
    let walk = Walk::start(Action::PaneSelect, true, None, None, None);
    let (result, asked) = drive(walk, |request| {
        standard(request, Outcome::Error, Outcome::Handled, true)
    });
    assert_eq!(result, Outcome::Error);
    assert!(!asked.contains(&"relay".to_owned()));
}

#[test]
fn relays_are_asked_only_of_validated_clients() {
    let walk = Walk::start(Action::TabSelect, true, None, None, None);
    let (result, asked) = drive(walk, |request| {
        standard(request, Outcome::Declined, Outcome::Declined, true)
    });
    assert_eq!(result, Outcome::Handled);
    let relay = asked.iter().position(|name| name == "relay").expect("a relay");
    assert_eq!(asked[relay - 1], "validate");
    let walk = Walk::start(Action::TabSelect, true, None, None, None);
    let (result, asked) = drive(walk, |request| {
        standard(request, Outcome::Declined, Outcome::Declined, false)
    });
    assert_eq!(result, Outcome::Error);
    assert!(!asked.contains(&"relay".to_owned()));
    assert!(!asked.contains(&"terminal".to_owned()));
}

#[test]
fn pane_movement_never_leaves_tmux() {
    let walk = Walk::start(Action::PaneMove, true, None, None, None);
    let (result, asked) = drive(walk, |request| {
        standard(request, Outcome::Declined, Outcome::Handled, true)
    });
    assert_eq!(result, Outcome::Declined);
    assert!(!asked.contains(&"relay".to_owned()));
    assert!(!asked.contains(&"terminal".to_owned()));
}
