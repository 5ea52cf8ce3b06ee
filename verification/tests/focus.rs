use termnav::focus::{
    parse_claim, valid_interval, valid_lease, valid_token, watcher_arguments_match,
    watcher_command_matches, watcher_identity,
};

#[test]
fn focus_identifiers_and_timings_are_bounded() {
    assert!(valid_token("0123456789abcdef01234567"));
    assert!(!valid_token("0123456789ABCDEF01234567"));
    assert!(valid_lease(50));
    assert!(valid_lease(30_000));
    assert!(!valid_lease(30_001));
    assert!(valid_interval(10_000));
    assert!(!valid_interval(10_001));
}

#[test]
fn claim_parser_requires_an_exact_generation() {
    assert_eq!(
        parse_claim("0123456789abcdef01234567:123"),
        Some(("0123456789abcdef01234567", 123))
    );
    assert!(parse_claim("short:123").is_none());
    assert!(parse_claim("0123456789abcdef01234567:nope").is_none());
}

#[test]
fn watcher_identity_rejects_pid_reuse_on_procfs_and_ps_paths() {
    let expected = watcher_identity("/tmp/tmux.sock", "123", "/dev/pts/4");
    let exact = [
        "/bin/termnav",
        "tmux",
        "focus",
        "watch",
        "--tmux-socket",
        "/tmp/tmux.sock",
        "--client-pid",
        "123",
        "--client-tty",
        "/dev/pts/4",
    ]
    .map(String::from);
    assert!(watcher_arguments_match(&exact, &expected));
    assert!(watcher_command_matches(
        "/bin/termnav tmux focus watch --tmux-socket /tmp/tmux.sock --client-pid 123 --client-tty /dev/pts/4",
        &expected,
    ));
    assert!(!watcher_command_matches(
        "/bin/termnav tmux focus watch --tmux-socket /tmp/other.sock --client-pid 123 --client-tty /dev/pts/4",
        &expected,
    ));
}
