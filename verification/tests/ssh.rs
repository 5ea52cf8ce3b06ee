use termnav::ssh::{
    cancel_forward, cancelled_path, carries_relay, control_mode, destination_index,
    effective_config, enhanced_arguments, intake, interactive, is_termnav_shim,
    is_termnav_shim_dir, real_ssh, relay_socket_name, remote_socket, resolved_tty, setting_of,
    supervise, Candidate, Intake, Supervision,
};

fn args(values: &[&str]) -> Vec<String> {
    values.iter().map(|value| value.to_string()).collect()
}

fn settings(pairs: &[(&str, &str)]) -> Vec<(String, String)> {
    pairs
        .iter()
        .map(|(key, value)| (key.to_string(), value.to_string()))
        .collect()
}

#[test]
fn destination_parser_preserves_option_boundaries() {
    assert_eq!(destination_index(&args(&["-p", "22", "host"])), Some(2));
    assert_eq!(destination_index(&args(&["-p22", "host"])), Some(1));
    assert_eq!(destination_index(&args(&["-vvv", "host"])), Some(1));
    assert_eq!(destination_index(&args(&["-tt", "host"])), Some(1));
    assert_eq!(destination_index(&args(&["-vp22", "host"])), Some(1));
    assert_eq!(destination_index(&args(&["--", "-host"])), Some(1));
    assert_eq!(destination_index(&args(&["-p"])), None);
}

#[test]
fn destinations_need_known_options() {
    assert_eq!(destination_index(&args(&["--unknown", "host"])), None);
    assert_eq!(destination_index(&args(&["-z", "host"])), None);
    assert_eq!(destination_index(&args(&["-"])), Some(0));
    assert_eq!(destination_index(&args(&["--"])), None);
    assert_eq!(destination_index(&args(&[])), None);
    assert_eq!(destination_index(&args(&["-o", "--", "host"])), Some(2));
}

#[test]
fn sessionless_control_modes_are_never_enhanced() {
    assert!(control_mode(&args(&["-N"])));
    assert!(control_mode(&args(&["-O", "check"])));
    assert!(control_mode(&args(&["-TN"])));
    assert!(!control_mode(&args(&["-t", "-p", "22"])));
}

#[test]
fn control_modes_are_recognised_in_clusters() {
    for mode in ["-G", "-T", "-f", "-W", "-Whost:1", "-Ocheck", "-vf"] {
        assert!(control_mode(&args(&[mode])), "{mode}");
        assert_eq!(intake(&args(&[mode, "host"]), true), Intake::Plain, "{mode}");
    }
    assert!(!control_mode(&args(&["-pN"])));
    assert!(!control_mode(&args(&["-", "--", "N"])));
}

#[test]
fn tty_classification_uses_real_input_or_explicit_flags() {
    let settings = settings(&[("requesttty", "auto")]);

    assert!(interactive(&args(&["host"]), 0, true));
    assert!(!interactive(&args(&["host"]), 0, false));
    assert!(interactive(&args(&["-t", "host"]), 1, false));
    assert!(resolved_tty(&settings, &args(&["host"]), 0, true));
    assert!(!resolved_tty(
        &settings,
        &args(&["host", "command"]),
        0,
        true
    ));
}

#[test]
fn configured_terminal_requests_are_obeyed() {
    let host = args(&["-t", "host", "command"]);
    assert!(resolved_tty(&settings(&[]), &host, 1, false));
    assert!(!resolved_tty(&settings(&[("requesttty", "No")]), &host, 1, true));
    let plain = args(&["host", "command"]);
    // An explicit command has to ask for its terminal itself.
    assert!(!resolved_tty(&settings(&[("requesttty", "FORCE")]), &plain, 0, true));
    assert!(!resolved_tty(&settings(&[("requesttty", "yes")]), &plain, 0, true));
    assert!(!carries_relay(&settings(&[("requesttty", "force")]), &plain, 0, true));
    for line in [
        vec!["-o", "RequestTTY=force", "host", "command"],
        vec!["-p", "22", "-orequesttty=Yes", "host", "command"],
        vec!["-o", "RequestTTY yes", "host", "command"],
    ] {
        let line = args(&line);
        let destination = line.len() - 2;
        let forced = settings(&[("requesttty", "force")]);
        assert!(resolved_tty(&forced, &line, destination, false), "{line:?}");
        let denied = settings(&[("requesttty", "no")]);
        assert!(!resolved_tty(&denied, &line, destination, true), "{line:?}");
        // A later option loses to an earlier one, as the configuration shows.
        let auto = settings(&[("requesttty", "auto")]);
        assert!(!resolved_tty(&auto, &line, destination, true), "{line:?}");
    }
    for line in [
        vec!["-o", "RequestTTY=auto", "host", "command"],
        vec!["-o", "ControlMaster=yes", "host", "command"],
        vec!["-v", "-o", "-orequesttty", "host", "command"],
        vec!["host", "-o", "RequestTTY=yes"],
    ] {
        let line = args(&line);
        let destination = line.iter().position(|value| value == "host").expect("destination");
        let forced = settings(&[("requesttty", "force")]);
        assert!(!resolved_tty(&forced, &line, destination, true), "{line:?}");
    }
    // Without a command the configuration alone is enough.
    let login = args(&["host"]);
    assert!(resolved_tty(&settings(&[("requesttty", "FORCE")]), &login, 0, false));
    assert!(resolved_tty(&settings(&[("requesttty", "yes")]), &login, 0, false));
    assert!(!resolved_tty(&settings(&[("requesttty", "other")]), &args(&["host"]), 0, true));
}

#[test]
fn only_login_sessions_carry_a_relay() {
    assert_eq!(intake(&args(&["-t", "host"]), false), Intake::Probe(1));
    assert_eq!(intake(&args(&["host"]), true), Intake::Probe(0));
    assert_eq!(intake(&args(&["host"]), false), Intake::Plain);
    assert_eq!(intake(&args(&["-p"]), true), Intake::Plain);
    let host = args(&["host"]);
    assert!(carries_relay(
        &settings(&[
            ("requesttty", "auto"),
            ("sessiontype", "Default"),
            ("remotecommand", "none"),
            ("exitonforwardfailure", "no"),
        ]),
        &host,
        0,
        true
    ));
    assert!(carries_relay(&settings(&[]), &host, 0, true));
    assert!(!carries_relay(&settings(&[("sessiontype", "none")]), &host, 0, true));
    assert!(!carries_relay(&settings(&[("remotecommand", "tmux")]), &host, 0, true));
    assert!(!carries_relay(&settings(&[("exitonforwardfailure", "YES")]), &host, 0, true));
    assert!(!carries_relay(&settings(&[]), &host, 0, false));
}

#[test]
fn resolved_configuration_takes_the_last_value() {
    let resolved = effective_config(b"RequestTTY  auto \ncontrolpath /a b\nlonely\ncontrolpath /c\n");
    assert_eq!(setting_of(&resolved, "requesttty"), Some("auto"));
    assert_eq!(setting_of(&resolved, "controlpath"), Some("/c"));
    assert_eq!(setting_of(&resolved, "lonely"), None);
    assert_eq!(cancelled_path(&resolved), Some("/c"));
    assert_eq!(cancelled_path(&settings(&[("controlpath", "none")])), None);
    assert_eq!(cancelled_path(&settings(&[])), None);
    // Bytes that are not text do not hide the other settings.
    assert_eq!(
        setting_of(&effective_config(b"\xff x\nuser me\n"), "user"),
        Some("me")
    );
}

#[test]
fn a_relay_keeps_destination_and_remote_command() {
    let enhanced = enhanced_arguments(&args(&["-v", "host", "cmd", "-x"]), 1, "/l", "/r");
    assert_eq!(
        enhanced,
        args(&[
            "-v",
            "-o",
            "StreamLocalBindUnlink=yes",
            "-o",
            "RemoteForward=/r:/l",
            "-o",
            "SendEnv=TERMNAV_PARENT_RELAY",
            "host",
            "cmd",
            "-x",
        ])
    );
    assert_eq!(destination_index(&enhanced), Some(7));
    let terminated = enhanced_arguments(&args(&["--", "-host"]), 1, "/l", "/r");
    assert_eq!(terminated[6..], args(&["--", "-host"])[..]);
    assert_eq!(destination_index(&terminated), Some(7));
}

#[test]
fn forwards_are_cancelled_locally() {
    let arguments = cancel_forward("/mux", "host", "/r", "/l");
    assert_eq!(arguments[..2], args(&["-S", "/mux"])[..]);
    assert!(arguments.contains(&"ProxyCommand=/bin/false".to_owned()));
    assert_eq!(
        arguments[arguments.len() - 5..],
        args(&["-O", "cancel", "-R", "/r:/l", "host"])[..]
    );
    assert_eq!(relay_socket_name("ab"), "relay-ab.sock");
    assert_eq!(remote_socket("ab"), "/tmp/termnav-relay-ab.sock");
}

fn candidate(path: &str, executable: bool, prefix: &[u8]) -> Candidate {
    Candidate {
        path: format!("{path}/ssh"),
        canonical: path.to_owned(),
        invoking: false,
        executable,
        prefix: prefix.to_vec(),
    }
}

#[test]
fn path_lookup_skips_a_non_executable_ssh_shadow() {
    let candidates = [
        candidate("/shadow", false, b"not executable\n"),
        candidate("/usr/bin", true, b"\x7fELF"),
    ];
    assert_eq!(real_ssh(None, &candidates).as_deref(), Some("/usr/bin/ssh"));
}

#[test]
fn shims_are_never_taken_for_the_client() {
    let mut invoking = candidate("/invoking", true, b"");
    invoking.invoking = true;
    let candidates = [
        candidate("/opt/share/termnav/shims", true, b""),
        invoking,
        candidate("/copied", true, b"#!/bin/sh\n# termnav-ssh-shim-v1\n"),
        candidate(
            "/older",
            true,
            b"# Keep SSH interposition inherited by child processes\n",
        ),
        candidate("/real", true, b"#!/bin/sh\n"),
    ];
    assert_eq!(real_ssh(None, &candidates).as_deref(), Some("/real/ssh"));
    assert_eq!(real_ssh(Some(""), &candidates[..4]), None);
    assert_eq!(real_ssh(Some("/own/ssh"), &[]).as_deref(), Some("/own/ssh"));
    assert!(is_termnav_shim_dir("/a/share/termnav/shims/"));
    assert!(!is_termnav_shim_dir("/a/share/termnav/shims2"));
    assert!(is_termnav_shim(b"x# termnav-ssh-shim-v1y"));
    assert!(!is_termnav_shim(b"# termnav-ssh-shim"));
}

#[test]
fn supervision_is_bounded() {
    assert_eq!(supervise(true, true, true, true), Supervision::Finished);
    assert_eq!(supervise(false, true, true, true), Supervision::Kill);
    assert_eq!(supervise(false, false, true, true), Supervision::Forward);
    assert_eq!(supervise(false, true, false, true), Supervision::Poll);
    assert_eq!(supervise(false, false, false, false), Supervision::Poll);
}
