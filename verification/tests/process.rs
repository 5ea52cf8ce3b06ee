use termnav::process::{
    environment_bytes, environment_lookup, may_look_up, may_look_up_all, parent_environment,
    parse_command_line, parse_environment, parse_parent_environment, ps_parent, ps_tty_matches,
    status_code, status_parent, valid_env_name, BlockRead, Capture, CaptureStep, Drained, Lookup,
    Stream, MAX_BYTES_PER_TURN,
};

#[test]
fn ps_environment_values_keep_spaces() {
    let output = "ssh host PATH=/usr/local/bin:/usr/bin LABEL=two words TERM=xterm-256color";

    assert_eq!(
        parse_environment(output, "LABEL").as_deref(),
        Some("two words")
    );
    assert_eq!(
        parse_environment(output, "PATH").as_deref(),
        Some("/usr/local/bin:/usr/bin")
    );
}

#[test]
fn ps_environment_excludes_the_record_terminator_from_the_final_value() {
    let output = "tmux TERM=xterm-256color TERMNAV_PARENT_RELAY=/tmp/relay.sock\n";

    assert_eq!(
        parse_environment(output, "TERMNAV_PARENT_RELAY").as_deref(),
        Some("/tmp/relay.sock")
    );
}

#[test]
fn environment_name_must_match_a_complete_assignment() {
    let output = "ssh host OTHER_PATH=/wrong PATH=/right";

    assert_eq!(parse_environment(output, "PATH").as_deref(), Some("/right"));
}

#[test]
fn parent_and_environment_share_one_ps_record() {
    let (parent, values) = parse_parent_environment(
        "  42 ssh host TMUX=/tmp/tmux,1,0 TMUX_PANE=%7 LABEL=two words TERM=xterm",
        &["TMUX", "TMUX_PANE", "LABEL"],
    )
    .expect("parse process snapshot");

    assert_eq!(parent, 42);
    assert_eq!(values[0].as_deref(), Some("/tmp/tmux,1,0"));
    assert_eq!(values[1].as_deref(), Some("%7"));
    assert_eq!(values[2].as_deref(), Some("two words"));
}

#[test]
fn process_facts_are_read_from_procfs() {
    assert_eq!(status_parent("Name:\tx\nPPid:\t41\n"), Some(41));
    assert_eq!(status_parent("Name:\tx\n"), None);
    assert_eq!(
        environment_bytes(b"A=1\0TMUX=/s,1,0\0B=\xff\0", "TMUX").as_deref(),
        Some("/s,1,0")
    );
    assert_eq!(environment_bytes(b"A=1\0B=\xff\0", "B"), None);
    assert_eq!(environment_bytes(b"XA=1\0", "A"), None);
    let (parent, values) = parent_environment("PPid:\t41\n", b"A=1\0", &["A", "B"])
        .expect("a process");
    assert_eq!(parent, 41);
    assert_eq!(values, vec![Some("1".to_owned()), None]);
    assert!(may_look_up_all(7, &["A", "B"]));
    assert!(!may_look_up_all(0, &["A"]));
    assert!(!may_look_up_all(7, &["A B"]));
    assert_eq!(
        parse_command_line(b"ssh\0-p\0\x32\x32\0host\0"),
        vec!["ssh".to_owned(), "-p".to_owned(), "22".to_owned(), "host".to_owned()]
    );
}

#[test]
fn environment_names_are_identifiers() {
    for name in ["A", "_A1", "TERMNAV_PARENT_RELAY"] {
        assert!(valid_env_name(name), "{name}");
    }
    for name in ["", "1A", "A-B", "A B"] {
        assert!(!valid_env_name(name), "{name}");
    }
    assert!(may_look_up(1, "A"));
    assert!(!may_look_up(0, "A"));
    assert_eq!(
        environment_lookup(7, "A", &BlockRead::Block(b"A=x\0".to_vec())),
        Lookup::Known(Some("x".to_owned()))
    );
    assert_eq!(environment_lookup(7, "A", &BlockRead::Missing), Lookup::AskPs);
    assert_eq!(environment_lookup(7, "A", &BlockRead::Refused), Lookup::Known(None));
    assert_eq!(environment_lookup(0, "A", &BlockRead::Missing), Lookup::Known(None));
}

#[test]
fn ps_answers_are_single_values() {
    assert_eq!(ps_parent(" 41\n"), Some(41));
    assert_eq!(ps_parent("x"), None);
    assert!(ps_tty_matches("pts/3\n", "/dev/pts/3"));
    assert!(!ps_tty_matches("pts/4\n", "/dev/pts/3"));
    assert_eq!(status_code(Some(7)), 7);
    assert_eq!(status_code(None), 1);
}

#[test]
fn captures_are_bounded_and_fair() {
    let mut capture = Capture::new(8);
    assert_eq!(capture.accept(Stream::Stdout, b"abcd", 0), Drained::More);
    assert_eq!(capture.accept(Stream::Stderr, b"ef", MAX_BYTES_PER_TURN - 2), Drained::TurnOver);
    assert_eq!(capture.accept(Stream::Stderr, b"ghi", 0), Drained::Exceeded);
    assert_eq!(capture.decide(false), CaptureStep::Wait);
    assert_eq!(capture.decide(true), CaptureStep::TimedOut);
    assert_eq!(capture.accept(Stream::Stdout, b"", 0), Drained::Closed);
    assert!(!capture.is_open(Stream::Stdout));
    assert!(capture.is_open(Stream::Stderr));
    assert!(!capture.has_exited());
    capture.exited(Some(3));
    assert!(capture.has_exited());
    assert_eq!(capture.decide(false), CaptureStep::Wait);
    assert_eq!(capture.accept(Stream::Stderr, b"", 0), Drained::Closed);
    assert_eq!(capture.decide(true), CaptureStep::Finished { code: Some(3) });
    assert_eq!(capture.into_output(), (b"abcd".to_vec(), b"ef".to_vec()));
}
