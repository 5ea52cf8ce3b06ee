use termnav::navigation::parse_clients;
use termnav::terminal::base64;

#[test]
fn client_parser_preserves_route_identity() {
    let clients = parse_clients(
        "/tmp/tmux.sock",
        "100|10|/dev/pts/10|xterm.js(6.1)|$1|%2|attached,focused,UTF-8|0|80\n",
    );

    assert_eq!(clients.len(), 1);
    assert_eq!(clients[0].pid, 10);
    assert!(clients[0].focused);
    assert!(!clients[0].control);
    assert_eq!(clients[0].created, 80);
}

#[test]
fn system_base64_matches_terminal_protocol_examples() {
    assert_eq!(base64(b""), "");
    assert_eq!(base64(b"f"), "Zg==");
    assert_eq!(base64(b"ab"), "YWI=");
    assert_eq!(base64(b"foo"), "Zm9v");
}
