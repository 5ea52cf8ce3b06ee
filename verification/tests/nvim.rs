use termnav::navigation::system::TmuxOutput;
use termnav::nvim::foreground::{
    depth, foreground_from_snapshot, parse_process_row, parse_snapshot,
};
use termnav::nvim::open::{
    augmented_tool_paths, failure_message, nvim_panes, open, popup_arguments, proceed,
    socket_arguments, tmux_edit_command, tmux_quote, tmux_send, tool_candidates, vim_quote,
    window_panes_arguments, Attempt, Mode, Request, Route, Target,
};
use termnav::nvim::registry::{
    current_paths, distinct_sockets, legacy_pane_key, marker_commits, newest, ordered_records,
    pane_key_for, pane_paths, read_legacy_socket, read_record, sort_records, state_directory,
    valid_owner, Record,
};
use termnav::nvim::remote::{
    admission, allowed_host, configured_open, mux_only_options, opened_status, remote_nvim_command,
    remote_nvim_command_for, ssh_open, valid_host, Connection,
};
use termnav::nvim::tool_path::{
    fallbacks, remote_assignment, remote_assignment_for, remote_path, search_path,
};
use termnav::nvim::transport::{
    extension_remote_host, hosts_match, is_remote_command, normalize_remote, only_remote_pane,
    option_takes_value, pane_query_arguments, parse_panes, parse_remote_command, remote_host,
    remote_pane_matches,
};

fn strings(values: &[&str]) -> Vec<String> {
    values.iter().map(|value| value.to_string()).collect()
}

fn target(file: &str, line: u64, column: u64) -> Target {
    Target {
        file: file.to_owned(),
        line,
        column,
    }
}

#[test]
fn sparse_path_keeps_caller_tools_ahead_of_user_and_system_fallbacks() {
    let paths = strings(&["/tmp/caller-tools", "/usr/bin", "/bin"]);

    assert_eq!(
        augmented_tool_paths("/home/test", paths, None),
        strings(&[
            "/tmp/caller-tools",
            "/home/test/.local/bin",
            "/home/test/.local/share/mise/shims",
            "/opt/homebrew/bin",
            "/usr/local/bin",
            "/usr/bin",
            "/bin",
        ])
    );
}

#[test]
fn termux_system_bin_stays_after_user_tool_fallbacks() {
    let paths = strings(&["/tmp/caller-tools", "/data/data/com.termux/files/usr/bin"]);

    assert_eq!(
        augmented_tool_paths(
            "/data/data/com.termux/files/home/test",
            paths,
            Some("/data/data/com.termux/files/usr"),
        ),
        strings(&[
            "/tmp/caller-tools",
            "/data/data/com.termux/files/home/test/.local/bin",
            "/data/data/com.termux/files/home/test/.local/share/mise/shims",
            "/opt/homebrew/bin",
            "/usr/local/bin",
            "/data/data/com.termux/files/usr/bin",
        ])
    );
}

#[test]
fn tool_directories_are_not_inserted_twice() {
    // A directory counts however it is spelled, and without a system
    // directory the missing ones go to the end.
    assert_eq!(
        augmented_tool_paths(
            "/home/test",
            strings(&["/home/test//.local/bin/", "/opt/own"]),
            None
        ),
        strings(&[
            "/home/test//.local/bin/",
            "/opt/own",
            "/home/test/.local/share/mise/shims",
            "/opt/homebrew/bin",
            "/usr/local/bin",
        ])
    );
}

#[test]
fn tmux_command_quote_preserves_literal_format_markers() {
    assert_eq!(
        tmux_quote("open /tmp/#{session_name}/#(printf unsafe)"),
        "\"open /tmp/##{session_name}/##(printf unsafe)\""
    );
    assert_eq!(tmux_quote("a\"b\\c"), "\"a\\\"b\\\\c\"");
}

#[test]
fn empty_path_component_resolves_to_an_explicit_current_directory() {
    assert_eq!(
        tool_candidates("tmux", &strings(&["", "bin", "/usr/bin"]), "/work"),
        strings(&["/work/tmux", "/work/bin/tmux", "/usr/bin/tmux"])
    );
}

#[test]
fn link_locations_and_home_references_are_structured() {
    assert_eq!(
        Target::link("a/~/src/main.rs:12:4", Some("/home/test")),
        target("/home/test/src/main.rs", 12, 4)
    );
    assert_eq!(Target::link("name:words", None).line, 1);
}

#[test]
fn link_suffixes_and_home_spellings_are_exact() {
    let home = Some("/h");
    assert_eq!(Target::link("src/a.rs:7", home), target("src/a.rs", 7, 0));
    assert_eq!(Target::link("src/a.rs", home), target("src/a.rs", 1, 0));
    assert_eq!(Target::link("b/x:y:9", home), target("x:y", 9, 0));
    assert_eq!(Target::link("a:b:5", home), target("a:b", 5, 0));
    assert_eq!(Target::link("a:b.txt:12:4", home), target("a:b.txt", 12, 4));
    assert_eq!(Target::link("b/src/a.rs:3:0", home), target("src/a.rs", 3, 0));
    assert_eq!(Target::link("$HOME/n", home), target("/h/n", 1, 0));
    assert_eq!(Target::link("${HOME}/n", home), target("/h/n", 1, 0));
    assert_eq!(Target::link("$HOME", home), target("/h", 1, 0));
    assert_eq!(Target::link("${HOME}", home), target("/h", 1, 0));
    assert_eq!(Target::link("~", home), target("~", 1, 0));
    assert_eq!(Target::link("~/n", None), target("~/n", 1, 0));
    assert_eq!(Target::cli("a:1:2"), target("a:1:2", 1, 0));
    // A line beyond the range of numbers is part of the name.
    assert_eq!(
        Target::link("a:18446744073709551616", None),
        target("a:18446744073709551616", 1, 0)
    );
}

#[test]
fn remote_command_parser_skips_transport_options() {
    assert_eq!(
        parse_remote_command("ssh", "ssh -p 22 user@example.test"),
        Some("example.test".to_owned())
    );
    assert_eq!(
        parse_remote_command("ssh", "ssh -t dev1 tmux attach"),
        Some("dev1".to_owned())
    );
    assert_eq!(parse_remote_command("ssh", "exec /usr/bin/zsh -l"), None);
    assert!(hosts_match("dev.example.test", "dev"));
}

#[test]
fn remote_commands_name_their_host() {
    assert_eq!(
        parse_remote_command("et", "/usr/bin/et -p 2022 HostName=box:2022"),
        Some("box".to_owned())
    );
    assert_eq!(parse_remote_command("ssh", "ssh -- host"), Some("host".to_owned()));
    assert_eq!(parse_remote_command("ssh", "ssh -p"), None);
    assert_eq!(parse_remote_command("ssh", ""), None);
    assert_eq!(normalize_remote("a@b@c:1"), Some("c".to_owned()));
    assert_eq!(normalize_remote("user@"), None);
    assert!(option_takes_value("ssh", "-J"));
    assert!(!option_takes_value("et", "-J"));
    assert!(option_takes_value("et", "-r"));
    assert!(!option_takes_value("ssh", "-r"));
    assert!(is_remote_command("mosh"));
    assert!(!is_remote_command("tmux"));
    assert!(hosts_match("dev", "dev.example.test"));
    assert!(!hosts_match("dev1", "dev2"));
}

#[test]
fn pane_registry_keys_keep_server_and_socket_identity() {
    let comma = pane_key_for("/tmp/tmux,comma.sock,101,0", "%1");
    assert_ne!(comma, pane_key_for("/tmp/tmux,comma.sock,202,0", "%1"));
    assert_ne!(comma, pane_key_for("/tmp/tmux,comma.sock,101,0", "%2"));
    assert_ne!(
        pane_key_for("/tmp/a:b,101,0", "%1"),
        pane_key_for("/tmp/a/b,101,0", "%1")
    );
    assert!(comma.split('/').all(|component| component.len() <= 123));
}

#[test]
fn pane_keys_are_hexadecimal_in_bounded_pieces() {
    assert_eq!(pane_key_for("/s,1,0", "%2"), "v1-2f730031002532");
    assert_eq!(pane_key_for("plain", "%2"), "v1-706c61696e00002532");
    let long = pane_key_for(&format!("/{},1,0", "x".repeat(200)), "%1");
    let pieces = long.split('/').collect::<Vec<_>>();
    assert_eq!(pieces.len(), 4);
    assert_eq!(pieces[0].len(), 123);
    assert_eq!(pieces[1].len(), 120);
    assert!(pieces.iter().all(|piece| piece.len() <= 123));
    assert_eq!(legacy_pane_key("/tmp/a b,1,0", "%3"), "_tmp_a_b__3");
    assert_eq!(legacy_pane_key("nocomma", "%3"), "_3");
    assert_eq!(legacy_pane_key(",1,0", "%3"), "_3");
}

#[test]
fn foreground_transport_selection_is_order_independent_and_cycle_safe() {
    let ordered = "999 1 999 999 ssh ssh unrelated.example\n\
201 100 201 210 ssh ssh background.example\n\
211 210 210 210 sleep sleep 30\n\
210 100 210 210 /usr/bin/ssh ssh dev1\n\
100 1 100 210 zsh -zsh\n";
    let shuffled = "210 100 210 210 /usr/bin/ssh ssh dev1\n\
100 1 100 210 zsh -zsh\n\
201 100 201 210 ssh ssh background.example\n\
999 1 999 999 ssh ssh unrelated.example\n";
    assert_eq!(
        foreground_from_snapshot(ordered, 100, "ssh"),
        Some("ssh dev1".to_owned())
    );
    assert_eq!(
        foreground_from_snapshot(shuffled, 100, "ssh"),
        Some("ssh dev1".to_owned())
    );
    assert_eq!(
        foreground_from_snapshot(
            "300 301 300 300 ssh ssh cycle.example\n301 300 300 300 zsh zsh\n",
            100,
            "ssh",
        ),
        None
    );
}

#[test]
fn the_deepest_foreground_process_wins() {
    let snapshot = "10 1 10 30 sh sh\n\
20 10 30 30 ssh ssh shallow\n\
30 20 30 30 ssh ssh deep one\n\
31 20 30 30 ssh ssh deep two\n\
garbage\n";
    assert_eq!(
        foreground_from_snapshot(snapshot, 10, "ssh"),
        Some("ssh deep two".to_owned())
    );
    let rows = parse_snapshot(snapshot);
    assert_eq!(rows.len(), 4);
    assert_eq!(depth(31, 10, &rows), Some(2));
    assert_eq!(depth(10, 10, &rows), Some(0));
    assert_eq!(depth(99, 10, &rows), None);
}

#[test]
fn process_rows_keep_the_command_line() {
    let row = parse_process_row("  7 1  -1 8 /bin/zsh  -zsh  --login ").expect("a whole row");
    assert_eq!((row.pid, row.parent, row.group, row.foreground), (7, 1, -1, 8));
    assert_eq!(row.executable, "zsh");
    assert_eq!(row.arguments, "-zsh  --login ");
    assert!(parse_process_row("7 1 7 8 zsh").is_none());
    assert!(parse_process_row("7 1 7 8 zsh ").is_none());
    assert!(parse_process_row("x 1 7 8 zsh z").is_none());
}

#[test]
fn socketless_tmux_fallback_builds_one_literal_edit_command() {
    let command = tmux_edit_command(&target("weird [name]*.md", 12, 34), "/tmp/project");

    assert_eq!(
        command,
        r#":exe 'e '.fnameescape("/tmp/project/weird [name]*.md")|call cursor(12,34)"#
    );
}

#[test]
fn edit_commands_escape_and_clamp() {
    assert_eq!(
        tmux_edit_command(&target("/a\\b\"c", 0, 0), "/tmp"),
        r#":exe 'e '.fnameescape("/a\\b\"c")|call cursor(1,1)"#
    );
    assert_eq!(
        tmux_edit_command(&target("f", 2, 1), "/tmp//"),
        r#":exe 'e '.fnameescape("/tmp/f")|call cursor(2,1)"#
    );
    assert_eq!(
        tmux_edit_command(&target("f", 2, 1), ""),
        r#":exe 'e '.fnameescape("f")|call cursor(2,1)"#
    );
    assert_eq!(
        tmux_send("%2", "keys"),
        vec![
            strings(&["send-keys", "-t", "%2", "-H", "1c", "0e"]),
            strings(&["send-keys", "-t", "%2", "Escape"]),
            strings(&["send-keys", "-t", "%2", "-l", "keys"]),
            strings(&["send-keys", "-t", "%2", "Enter"]),
        ]
    );
}

#[test]
fn sockets_are_asked_with_one_expression() {
    assert_eq!(vim_quote("it's"), "'it''s'");
    assert_eq!(
        socket_arguments("/s", &target("a'b", 3, 4), "/w", "terminal"),
        strings(&[
            "--server",
            "/s",
            "--remote-expr",
            "luaeval('_G.nvim_tmux_open(_A[1], _A[2], _A[3], _A[4], _A[5])', ['a''b', 3, 4, '/w', 'terminal'])",
        ])
    );
}

#[test]
fn remote_command_quotes_shell_metacharacters() {
    let command = remote_nvim_command(&["link", "/tmp/a b's.txt:4", "", "terminal"]);

    assert!(command.contains("'/tmp/a b'\\''s.txt:4'"));
    assert!(command.contains("termnav nvim open"));
    assert!(!command.contains("nvim-tmux-open"));
}

#[test]
fn remote_commands_extend_the_search_path_there() {
    assert_eq!(
        remote_nvim_command(&["link", "x"]),
        "PATH=\"$PATH\":\"$HOME\"/'.local/bin':\"$HOME\"/'.local/share/mise/shims':'/opt/homebrew/bin':'/usr/local/bin'; export PATH; \
if command -v termnav >/dev/null 2>&1; then termnav nvim open 'link' 'x'; \
else printf \"%s\\n\" \"termnav: remote Neovim opener not found on PATH\" >&2; exit 127; fi"
    );
    assert!(
        remote_nvim_command_for(Some("/home/me"), Some("/home/me/bin:/x"), &[])
            .starts_with("PATH=\"$PATH\":\"$HOME\"/'bin':'/x'; export PATH; ")
    );
}

#[test]
fn host_validation_rejects_option_and_path_injection() {
    assert!(valid_host("dev1.example"));
    assert!(!valid_host("-oProxyCommand=bad"));
    assert!(!valid_host("../host"));
}

#[test]
fn hosts_are_checked_before_anything_runs() {
    assert!(!valid_host(""));
    assert!(!valid_host(".hidden"));
    assert!(!valid_host("a..b"));
    assert!(!valid_host("a b"));
    assert!(valid_host("a.b_c-1"));
    assert!(allowed_host(Some("a, b ,c"), "b"));
    assert!(!allowed_host(Some("ab"), "a"));
    assert!(!allowed_host(None, "a"));
    assert_eq!(admission("..", Some("..")), Some(11));
    assert_eq!(admission("h", None), Some(13));
    assert_eq!(admission("h", Some("h")), None);
}

fn settings(pairs: &[(&str, &str)]) -> Option<Vec<(String, String)>> {
    Some(
        pairs
            .iter()
            .map(|(key, value)| (key.to_string(), value.to_string()))
            .collect(),
    )
}

#[test]
fn remote_opening_runs_only_through_an_exact_mux_socket() {
    let resolved = settings(&[("controlpath", "/tmp/Exact")]);
    match ssh_open("duo-host", "/tmp/e.txt:4", Some("duo-host"), &resolved, None, None) {
        Connection::Run(arguments) => {
            assert_eq!(arguments[..2], strings(&["-S", "/tmp/Exact"])[..]);
            assert!(arguments.contains(&"ProxyCommand=/bin/false".to_owned()));
            assert!(arguments.contains(&"ProxyJump=none".to_owned()));
            assert!(arguments.contains(&"KbdInteractiveAuthentication=no".to_owned()));
            assert_eq!(arguments.iter().filter(|value| *value == "duo-host").count(), 1);
            assert_eq!(arguments.len(), mux_only_options("/tmp/Exact").len() + 2);
            assert_eq!(
                arguments[arguments.len() - 1],
                remote_nvim_command(&["link", "/tmp/e.txt:4", "", "terminal"])
            );
        }
        refused => panic!("{refused:?}"),
    }
    let refuse = |host: &str, allowed: Option<&str>, resolved| {
        ssh_open(host, "t", allowed, &resolved, None, None)
    };
    assert_eq!(refuse("a/b", Some("a/b"), None), Connection::Refused(11));
    assert_eq!(
        refuse("h", Some("other"), settings(&[("controlpath", "/c")])),
        Connection::Refused(13)
    );
    assert_eq!(refuse("h", Some("h"), None), Connection::Refused(10));
    assert_eq!(refuse("h", Some("h"), settings(&[])), Connection::Refused(10));
    assert_eq!(
        refuse("h", Some("h"), settings(&[("controlpath", "None")])),
        Connection::Refused(10)
    );
    assert_eq!(opened_status(true), 0);
    assert_eq!(opened_status(false), 12);
}

#[test]
fn configured_transports_need_one_exact_pane() {
    assert_eq!(
        configured_open("tmux", "/s", "%1", "h", "t", Some("/helper")),
        Some(strings(&["tmux", "/s", "%1", "h", "t"]))
    );
    assert!(configured_open("wezterm", "scope", "3", "h", "t", Some("/helper")).is_some());
    assert_eq!(configured_open("wezterm", "", "3", "h", "t", Some("/helper")), None);
    assert_eq!(configured_open("tmux", "/s", "", "h", "t", Some("/helper")), None);
    assert_eq!(configured_open("screen", "/s", "%1", "h", "t", Some("/helper")), None);
    assert_eq!(configured_open("tmux", "/s", "%1", "a..b", "t", Some("/helper")), None);
    assert_eq!(configured_open("tmux", "/s", "%1", "h", "t", Some("")), None);
    assert_eq!(configured_open("tmux", "/s", "%1", "h", "t", None), None);
}

#[test]
fn defaults_and_remote_rendering_share_one_policy() {
    let home = "/home/local";
    assert_eq!(
        fallbacks(home, None),
        strings(&[
            "/home/local/.local/bin",
            "/home/local/.local/share/mise/shims",
            "/opt/homebrew/bin",
            "/usr/local/bin",
        ])
    );
    assert_eq!(
        remote_path("/home/local/.local/bin", home),
        "\"$HOME\"/'.local/bin'"
    );
    assert_eq!(
        fallbacks(home, Some("/managed/bin:/managed/shims")),
        strings(&["/managed/bin", "/managed/shims"])
    );
    assert_eq!(
        remote_assignment_for(
            home,
            Some("/home/local/.local/bin:/home/local/.local/share/mise/shims"),
        ),
        "PATH=\"$PATH\":\"$HOME\"/'.local/bin':\"$HOME\"/'.local/share/mise/shims'; export PATH"
    );
}

#[test]
fn search_paths_skip_empty_directories() {
    assert_eq!(search_path(":/a::/b:"), strings(&["/a", "/b"]));
    assert_eq!(remote_path("/home/local", "/home/local"), "'/home/local'");
    assert_eq!(remote_path("/home/local2/x", "/home/local"), "'/home/local2/x'");
    assert_eq!(remote_path("/home/local//x/./y/", "/home/local/"), "\"$HOME\"/'x/./y'");
    assert_eq!(
        remote_assignment(Some("/h"), Some("")),
        remote_assignment_for("/h", None)
    );
    assert_eq!(
        remote_assignment(None, None),
        remote_assignment_for("$HOME", None)
    );
}

fn request(mode: Mode, arguments: &[&str]) -> Request {
    Request::new(mode, &strings(arguments))
}

#[test]
fn requests_take_their_defaults() {
    let link = request(Mode::Link, &["x", "/w"]);
    assert_eq!((link.source.as_str(), link.context.as_str()), ("terminal", ""));
    let cli = request(Mode::Cli, &["x:1", "/w", "remote", "h"]);
    assert_eq!((cli.source.as_str(), cli.context.as_str()), ("cli", ""));
    assert_eq!(cli.target(Some("/h")), target("x:1", 1, 0));
    assert_eq!(
        request(Mode::Link, &["~/x:1"]).target(Some("/h")),
        target("/h/x", 1, 0)
    );
}

#[test]
fn local_targets_take_local_routes() {
    assert_eq!(open(&request(Mode::Cli, &[""]), true), Route::Done(1));
    assert_eq!(open(&request(Mode::Cli, &["f"]), false), Route::Window);
    assert_eq!(open(&request(Mode::Link, &[]), true), Route::Done(0));
    assert_eq!(open(&request(Mode::Link, &["f"]), true), Route::Window);
    assert_eq!(open(&request(Mode::Link, &["f"]), false), Route::Registry);
    let editor = request(Mode::Link, &["f", "", "nvim", "/sock"]);
    assert_eq!(open(&editor, true), Route::Socket);
    assert_eq!(proceed(Route::Socket, true, Attempt::Opened(false)), Route::Window);
    assert_eq!(proceed(Route::Socket, false, Attempt::Opened(false)), Route::Registry);
    assert_eq!(proceed(Route::Socket, true, Attempt::Opened(true)), Route::Done(0));
    assert_eq!(proceed(Route::Window, true, Attempt::Opened(true)), Route::Done(0));
    assert_eq!(proceed(Route::Window, true, Attempt::Opened(false)), Route::Done(1));
    assert_eq!(proceed(Route::Registry, false, Attempt::Opened(false)), Route::Done(1));
}

#[test]
fn an_indeterminate_connection_is_never_retried() {
    let remote = request(Mode::Link, &["f", "", "remote", "h"]);
    assert_eq!(open(&remote, true), Route::Connection);
    assert_eq!(open(&request(Mode::Link, &["f", "", "remote"]), true), Route::Helper);
    for code in [10, 12, 13] {
        assert_eq!(
            proceed(Route::Connection, true, Attempt::Status(code)),
            Route::Helper
        );
    }
    assert_eq!(proceed(Route::Connection, true, Attempt::Status(0)), Route::Done(0));
    assert_eq!(proceed(Route::Connection, true, Attempt::Status(11)), Route::Done(11));
    assert_eq!(proceed(Route::Connection, true, Attempt::Unknown), Route::Done(1));
    assert_eq!(proceed(Route::Helper, true, Attempt::Opened(true)), Route::Done(0));
    assert_eq!(proceed(Route::Helper, true, Attempt::Opened(false)), Route::Done(1));
    assert_eq!(proceed(Route::Done(7), true, Attempt::Unknown), Route::Done(7));
}

#[test]
fn only_tmux_links_turn_failures_into_messages() {
    let link = request(Mode::Link, &["f"]);
    assert_eq!(failure_message(&link, 1), None);
    let shown = request(Mode::TmuxLink, &["f"]);
    assert_eq!(failure_message(&shown, 0), None);
    assert_eq!(
        failure_message(&shown, 1).as_deref(),
        Some("No nvim session found for file link: f")
    );
    assert_eq!(
        failure_message(&request(Mode::TmuxLink, &["f", "", "remote", "h"]), 11).as_deref(),
        Some("No nvim session found for h: f (opener exit 11)")
    );
    assert_eq!(
        failure_message(&request(Mode::TmuxLink, &[""]), -2).as_deref(),
        Some("No file link target was provided (opener exit -2)")
    );
    assert_eq!(
        popup_arguments("it's")[8],
        "printf '%s\\n\\nPress Enter to close.\\n' 'it'\\''s'; IFS= read -r _"
    );
}

#[test]
fn window_listings_name_the_editor_panes() {
    assert_eq!(window_panes_arguments()[2], "#{pane_id}\t#{pane_current_command}");
    assert_eq!(
        nvim_panes("%1\tzsh\n%2\tnvim\nbroken\n%3\tnvim\n%4\tnvim \n"),
        strings(&["%2", "%3"])
    );
}

#[test]
fn records_are_complete_and_owned() {
    let content = "v2\n00000000000000000012\nnvim-1\n/run/a.sock\n";
    let record = read_record("/r/latest", content, None).expect("a record");
    assert_eq!(record.path, "/r/latest");
    assert_eq!(record.sequence, "00000000000000000012");
    assert_eq!(record.owner, "nvim-1");
    assert_eq!(record.socket, "/run/a.sock");
    assert!(read_record("/r", content, Some("nvim-1")).is_some());
    assert!(read_record("/r", content, Some("other")).is_none());
    assert!(read_record("/r", "v1\n00000000000000000012\na\n/s\n", None).is_none());
    assert!(read_record("/r", "v2\n12\na\n/s\n", None).is_none());
    assert!(read_record("/r", "v2\n0000000000000000001x\na\n/s\n", None).is_none());
    assert!(read_record("/r", "v2\n00000000000000000012\n..\n/s\n", None).is_none());
    assert!(read_record("/r", "v2\n00000000000000000012\na\n\n", None).is_none());
    assert!(read_record("/r", "v2\n00000000000000000012\na\n", None).is_none());
    assert!(marker_commits("v2\n"));
    assert!(!marker_commits("v2\nv2\n"));
    assert!(!marker_commits(""));
    assert_eq!(read_legacy_socket("/s\n").as_deref(), Some("/s"));
    assert_eq!(read_legacy_socket("/s\n/t\n"), None);
    assert_eq!(read_legacy_socket("\n"), None);
    assert!(valid_owner("a.b_c-1"));
    assert!(!valid_owner("a/b"));
    assert!(!valid_owner("."));
    assert!(!valid_owner(""));
}

fn record(sequence: &str, owner: &str) -> Record {
    Record {
        path: format!("/{owner}"),
        sequence: sequence.to_owned(),
        owner: owner.to_owned(),
        socket: format!("/{owner}.sock"),
    }
}

#[test]
fn records_are_tried_newest_first() {
    let sorted = sort_records(vec![
        record("00000000000000000001", "a"),
        record("00000000000000000003", "b"),
        record("00000000000000000002", "c"),
        record("00000000000000000003", "d"),
    ]);
    let owners = sorted.iter().map(|record| record.owner.as_str()).collect::<Vec<_>>();
    assert_eq!(owners, ["d", "b", "c", "a"]);
    assert!(sort_records(Vec::new()).is_empty());

    let owners = strings(&["/o1", "/o2"]);
    let others = strings(&["/x"]);
    assert_eq!(newest(None, &owners), Some("/o1"));
    assert_eq!(newest(Some("/l"), &owners), Some("/l"));
    assert_eq!(
        ordered_records(Some("/l"), &owners, "/old", true, true, &others),
        strings(&["/l", "/o1", "/o2", "/old", "/x"])
    );
    assert_eq!(
        ordered_records(Some("/l"), &owners, "/old", true, false, &others),
        strings(&["/old", "/l", "/o1", "/o2", "/x"])
    );
    assert_eq!(
        ordered_records(None, &Vec::new(), "/old", true, true, &others),
        strings(&["/old", "/x"])
    );
    assert_eq!(
        ordered_records(None, &owners, "/old", false, false, &Vec::new()),
        strings(&["/o1", "/o2", "/old"])
    );
}

#[test]
fn no_socket_is_tried_twice() {
    let sockets = ["/a", "", "/b", "/a", "/c", "/b", "//a", "/./c/", "a"]
        .iter()
        .map(|value| (!value.is_empty()).then_some(value.to_string()))
        .collect::<Vec<_>>();
    assert_eq!(distinct_sockets(&sockets), strings(&["/a", "/b", "/c", "a"]));
}

#[test]
fn discovery_state_follows_the_base_directories() {
    assert_eq!(
        state_directory(Some("/state"), Some("/h")).as_deref(),
        Some("/state/nvim-tmux-open")
    );
    assert_eq!(
        state_directory(Some("relative"), Some("/h")).as_deref(),
        Some("/h/.local/state/nvim-tmux-open")
    );
    assert_eq!(state_directory(Some(""), None), None);
    let current = current_paths("/s");
    assert_eq!(current.latest, "/s/registry/current/latest");
    assert_eq!(current.owners, "/s/registry/current/owners");
    assert_eq!(current.legacy, "/s/current");
    let pane = pane_paths("/s", "/s,1,0", "%2");
    assert_eq!(pane.latest, "/s/registry/panes/v1-2f730031002532/latest");
    assert_eq!(pane.owners, "/s/registry/panes/v1-2f730031002532/owners");
    assert_eq!(pane.legacy, "/s/panes/_s__2");
}

#[test]
fn remote_panes_are_chosen_only_when_unique() {
    assert_eq!(pane_query_arguments().len(), 4);
    let rows = parse_panes("%1\tssh\tssh dev1\t10\n%2\tzsh\t\t11\n%3\tssh\t\t12\nbad\n%4\tssh\tx\ty\n");
    assert_eq!(rows.len(), 3);
    assert_eq!(rows[2].pid, 12);
    let hosts = vec![Some("dev1".to_owned()), None, Some("dev2.example".to_owned())];
    assert_eq!(only_remote_pane(&rows, &hosts, "dev2").as_deref(), Some("%3"));
    assert_eq!(only_remote_pane(&rows, &hosts, "dev3"), None);
    assert_eq!(only_remote_pane(&rows, &hosts, ""), None);
    let one = vec![Some("dev1".to_owned()), None, None];
    assert_eq!(only_remote_pane(&rows, &one, "").as_deref(), Some("%1"));
    assert_eq!(
        remote_host("ssh", "zsh -l", Some("ssh -v dev9")).as_deref(),
        Some("dev9")
    );
    assert_eq!(
        remote_host("ssh", "ssh dev1", Some("ssh dev9")).as_deref(),
        Some("dev1")
    );
    assert_eq!(remote_host("ssh", "zsh", None), None);
    assert!(remote_pane_matches("custom", Some("h"), "h"));
    assert!(!remote_pane_matches("custom", Some("h"), ""));
    assert!(!remote_pane_matches("ssh", None, ""));
    let printed = Some(TmuxOutput {
        success: true,
        stdout: b" host.example \n".to_vec(),
    });
    assert_eq!(extension_remote_host(&printed).as_deref(), Some("host.example"));
    let failed = Some(TmuxOutput {
        success: false,
        stdout: b"host".to_vec(),
    });
    assert_eq!(extension_remote_host(&failed), None);
}
