use termnav::commands::vscode::{invocation, Invocation};
use termnav::vscode::PublishOutcome::{Failed, Posted, Unavailable};
use termnav::vscode::{
    accepted, exit_status, extend_lineage, js_uint, needs_release, parse_rows, payload,
    post_request, publish_routes, released_outcome, select_clients, valid_token, ClientRow,
    Operation, Route, Update,
};

fn strings(values: &[&str]) -> Vec<String> {
    values.iter().map(|value| value.to_string()).collect()
}

#[test]
fn input_contract_matches_the_extension_number_model() {
    assert_eq!(js_uint("9007199254740991"), Some(9_007_199_254_740_991));
    assert_eq!(js_uint("9007199254740992"), None);
    assert!(valid_token(&"a".repeat(64)));
    assert!(!valid_token(&"A".repeat(64)));
    assert!(Update::new(Operation::Claim, "nvim:1", "1", "2", "3").is_ok());
    assert!(Update::new(Operation::Claim, "bad source", "1", "2", "3").is_err());
}

#[test]
fn tmux_client_rows_preserve_exact_pane_and_focus_state() {
    let row = ClientRow::parse("123|%7|attached,focused").expect("valid client row");
    assert_eq!(row.pid, 123);
    assert_eq!(row.pane, "%7");
    assert!(row.focused);
}

#[test]
fn each_malformed_field_is_named() {
    let refuse = |source: &str, cycle: &str, sequence: &str, observed: &str| {
        Update::new(Operation::Release, source, cycle, sequence, observed)
            .err()
            .expect("a refusal")
    };
    assert_eq!(refuse("", "1", "1", "1"), "invalid source");
    assert_eq!(refuse(&"x".repeat(129), "1", "1", "1"), "invalid source");
    assert_eq!(refuse("s", "x", "y", "z"), "invalid cycle");
    assert_eq!(refuse("s", "1", "-1", "z"), "invalid sequence");
    assert_eq!(refuse("s", "1", "1", ""), "invalid observation");
    let update = Update::new(Operation::Claim, "s.1:a-b_c", "1", "2", "+3").expect("an update");
    assert_eq!(
        (update.source.as_str(), update.cycle, update.sequence, update.observed),
        ("s.1:a-b_c", 1, 2, 3)
    );
    assert_eq!(update.release().operation, Operation::Release);
    assert_eq!(update.release().source, "s.1:a-b_c");
}

#[test]
fn claims_go_to_the_focused_client_of_the_pane() {
    let rows = parse_rows("1|%1|attached,focused\n2|%1|attached\n3|%2|focused\nx|%1|focused\n4\n");
    assert_eq!(rows.len(), 3);
    assert_eq!(select_clients(Operation::Claim, &rows, "%1"), vec![1]);
    assert_eq!(select_clients(Operation::Release, &rows, "%1"), vec![1, 2, 3]);
}

#[test]
fn outcomes_combine() {
    assert_eq!(publish_routes(&vec![false, true]), Posted);
    assert_eq!(publish_routes(&vec![false, false]), Failed);
    assert_eq!(publish_routes(&Vec::new()), Unavailable);
    assert!(needs_release(Operation::Claim, Failed));
    assert!(!needs_release(Operation::Claim, Posted));
    assert!(!needs_release(Operation::Release, Failed));
    assert_eq!(released_outcome(Failed, Posted), Posted);
    assert_eq!(released_outcome(Failed, Unavailable), Failed);
    assert_eq!(released_outcome(Unavailable, Failed), Failed);
    assert_eq!(released_outcome(Unavailable, Unavailable), Unavailable);
    assert_eq!(exit_status(Posted), 0);
    assert_eq!(exit_status(Failed), 1);
    assert_eq!(exit_status(Unavailable), 10);
}

#[test]
fn ancestors_are_bounded_and_distinct() {
    let mut pids = Vec::new();
    assert!(extend_lineage(&mut pids, 7));
    assert!(!extend_lineage(&mut pids, 7));
    assert!(!extend_lineage(&mut pids, 0));
    assert!(extend_lineage(&mut pids, 8));
    assert_eq!(pids, vec![7, 8]);
    for pid in 100..200 {
        extend_lineage(&mut pids, pid);
    }
    assert_eq!(pids.len(), 64);
}

#[test]
fn updates_are_posted_as_one_request() {
    let update = Update::new(Operation::Claim, "nvim-a", "2", "7", "12345").expect("an update");
    let token = "a".repeat(64);
    let body = format!(
        "{{\"version\":2,\"source\":\"nvim-a\",\"cycle\":2,\"sequence\":7,\"observed\":12345,\"operation\":\"claim\",\"token\":\"{token}\",\"ancestors\":[3,2,1]}}"
    );
    assert_eq!(payload(&update, &token, &vec![3, 2, 1]), body);
    assert!(payload(&update, "quo\"te", &Vec::new()).ends_with("\"token\":\"quo\\\"te\",\"ancestors\":[]}"));
    assert_eq!(
        post_request(&update, &token, &vec![3, 2, 1]),
        format!(
            "POST /nvim-focus HTTP/1.1\r\nHost: localhost\r\nContent-Type: application/json\r\nAccept: application/json\r\nContent-Length: {}\r\nConnection: close\r\n\r\n{body}",
            body.len()
        )
    );
    assert!(accepted(b"HTTP/1.1 200 OK\r\nContent-Length: 2\r\n\r\n{}"));
    assert!(accepted(b"HTTP/1.1 299"));
    assert!(!accepted(b"HTTP/1.1 300 No\r\n"));
    assert!(!accepted(b"HTTP/1.1"));
    assert!(!accepted(b""));
    assert!(!accepted(b"HTTP/1.1 200 \xff"));
}

#[test]
fn routes_need_a_socket_and_a_capability() {
    let token = "0".repeat(64);
    let route = Route::new(Some("/s"), Some(&token), 9).expect("a route");
    assert_eq!((route.socket.as_str(), route.client_pid), ("/s", 9));
    assert!(Route::new(Some("/s"), None, 9).is_none());
    assert!(Route::new(None, Some(&token), 9).is_none());
    assert!(Route::new(Some("/s"), Some("short"), 9).is_none());
}

#[test]
fn focus_input_and_missing_window_credentials_fail_closed() {
    match invocation(&strings(&["focus", "claim", "bad source", "1", "1", "1"])) {
        Invocation::Refused(message) => assert_eq!(message, "invalid source"),
        other => panic!("{other:?}"),
    }
    assert!(Route::new(Some("/tmp/window.sock"), None, 1).is_none());
    assert_eq!(exit_status(publish_routes(&Vec::new())), 10);
}

#[test]
fn vscode_arguments_are_exact() {
    assert!(matches!(invocation(&strings(&["--help"])), Invocation::Help));
    let refusal = |arguments: &[&str]| match invocation(&strings(arguments)) {
        Invocation::Refused(message) => message,
        other => panic!("{other:?}"),
    };
    assert_eq!(refusal(&[]), "focus requires an operation and ordered update fields");
    assert_eq!(
        refusal(&["blur", "claim", "s", "1", "1", "1"]),
        "unknown VS Code command: blur"
    );
    assert_eq!(
        refusal(&["focus", "keep", "s", "1", "1", "1"]),
        "invalid operation: keep"
    );
    match invocation(&strings(&["focus", "release", "s", "1", "2", "3"])) {
        Invocation::Publish(update) => {
            assert_eq!(update.operation, Operation::Release);
            assert_eq!(update.observed, 3);
        }
        other => panic!("{other:?}"),
    }
}
