use termnav::relay::client::new_nonce;
use termnav::relay::store::{Directive, DirectiveAction};

fn directive() -> Directive {
    Directive {
        v: 2,
        nonce: "aaaaaaaaaaaa".to_owned(),
        seq: 0,
        action: DirectiveAction::Execute,
        ready: false,
        claimed: false,
        owner_pid: 1,
        tmux_socket: "/tmp/tmux.sock".to_owned(),
        session: "$1".to_owned(),
        local_client_tty: "/dev/pts/1".to_owned(),
        local_client_pid: 1,
        local_client_created: 80,
        started_at: 100,
        expected_pane: Some("%1".to_owned()),
        target_pane: Some("$1:.%1".to_owned()),
        scope: Some("pane".to_owned()),
        direction: Some("left".to_owned()),
        forward_pane: None,
    }
}

#[test]
fn nonce_has_the_wire_width_and_alphabet() {
    let nonce = new_nonce(&[0x00, 0x1f, 0xa5, 0xff, 0x80, 0x09]);

    assert_eq!(nonce.len(), 12);
    assert!(nonce.bytes().all(|byte| byte.is_ascii_hexdigit()));
}

#[test]
fn action_specific_schema_fails_closed() {
    let mut directive = directive();
    assert!(directive.valid());

    directive.direction = Some("diagonal".to_owned());
    assert!(!directive.valid());
    directive.action = DirectiveAction::Forward;
    assert!(!directive.valid());
    directive.forward_pane = Some("%2".to_owned());
    assert!(directive.valid());
}
