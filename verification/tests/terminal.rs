use termnav::terminal::{base64, user_var, TmuxMode};

#[test]
fn terminal_base64_matches_terminal_protocol_examples() {
    assert_eq!(base64(b""), "");
    assert_eq!(base64(b"f"), "Zg==");
    assert_eq!(base64(b"ab"), "YWI=");
    assert_eq!(base64(b"foo"), "Zm9v");
}

#[test]
fn tmux_passthrough_doubles_inner_escape_bytes() {
    let sequence = user_var("TERMNAV_TMUX", "true", TmuxMode::Passthrough);

    assert!(sequence.starts_with(b"\x1bPtmux;\x1b\x1b]1337;"));
    assert!(sequence.ends_with(b"\x1b\\"));
}

#[test]
fn user_variables_are_framed_exactly() {
    assert_eq!(
        user_var("X", "foo", TmuxMode::Raw),
        b"\x1b]1337;SetUserVar=X=Zm9v\x07".to_vec()
    );
    assert_eq!(
        user_var("X", "foo", TmuxMode::Passthrough),
        b"\x1bPtmux;\x1b\x1b]1337;SetUserVar=X=Zm9v\x07\x1b\\".to_vec()
    );
}
