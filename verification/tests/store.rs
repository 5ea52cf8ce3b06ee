use termnav::focus::publish::{focus_request_line, read_focus_message, FocusMessage};
use termnav::json::text_of;
use termnav::navigation::outer::{relay_outcome, relay_scope};
use termnav::navigation::{Action, Direction, Outcome};
use termnav::relay::client::{read_reply, ReplyError};
use termnav::relay::protocol::{navigate_request, reply_line, valid_wire};
use termnav::relay::server::{
    gesture, gesture_route, is_swept, navigation_result, read_request, GestureRoute, Operation,
};
use termnav::relay::store::{
    arm_verdict, claim_plan, directive_name, directory_name, give_up, is_directive_file,
    matching_exists, next_sequence, poison_name, read_result, result_content, result_name, valid_nonce,
    wait_decision, ArmError, Directive, DirectiveAction, Entry, Step, Wait,
};

fn directive(seq: u64, ready: bool) -> Directive {
    Directive {
        v: 2,
        nonce: "aaaaaaaaaaaa".to_owned(),
        seq,
        action: DirectiveAction::Execute,
        ready,
        claimed: false,
        owner_pid: 1,
        tmux_socket: "/tmp/tmux.sock".to_owned(),
        session: "$1".to_owned(),
        local_client_tty: "/dev/pts/1".to_owned(),
        local_client_pid: 1,
        local_client_created: 80,
        started_at: 100,
        expected_pane: Some("%1".to_owned()),
        target_pane: Some("$1:.%1".to_owned()),
        scope: Some("pane".to_owned()),
        direction: Some("left".to_owned()),
        forward_pane: None,
    }
}

fn entry(seq: u64, ready: bool, owner_alive: bool) -> Entry {
    Entry {
        directive: Some(directive(seq, ready)),
        stale: false,
        owner_alive,
    }
}

#[test]
fn the_oldest_ready_directive_is_claimed() {
    let unreadable = Entry {
        directive: None,
        stale: false,
        owner_alive: true,
    };
    let entries = [
        entry(5, true, true),
        entry(3, true, true),
        entry(2, false, true),
        entry(1, true, false),
        unreadable,
    ];
    assert_eq!(
        claim_plan(&entries, "/tmp/tmux.sock", "/dev/pts/1", 1, 80),
        vec![Step::RemoveAndPoison(3), Step::Claim(1)]
    );
    assert_eq!(
        claim_plan(&entries[4..], "/tmp/tmux.sock", "/dev/pts/1", 1, 80),
        vec![Step::Remove(0)]
    );
    assert_eq!(claim_plan(&entries, "/other", "/dev/pts/9", 1, 80), vec![Step::Remove(4)]);
}

#[test]
fn a_live_directive_keeps_others_out() {
    let stale = Entry {
        directive: Some(directive(1, false)),
        stale: true,
        owner_alive: true,
    };
    assert_eq!(
        matching_exists(&[stale, entry(2, true, true)], "/dev/pts/1", 1, 80),
        (vec![Step::Remove(0)], true)
    );
    assert_eq!(
        matching_exists(&[entry(2, false, false)], "/dev/pts/1", 1, 80),
        (vec![Step::Remove(0)], false)
    );
    assert_eq!(
        matching_exists(&[entry(2, true, false)], "/dev/pts/1", 1, 80),
        (vec![Step::RemoveAndPoison(0)], true)
    );
    assert_eq!(
        matching_exists(&[entry(2, true, true)], "/dev/pts/2", 1, 80),
        (vec![], false)
    );
}

#[test]
fn publication_is_refused_for_each_reason() {
    let good = directive(1, false);
    let socket = "/tmp/tmux.sock";
    let poison = poison_name("/dev/pts/1", 1, 80);
    let result = result_name(&good.nonce);
    let other = poison_name("/dev/pts/1", 1, 81);
    assert_eq!(arm_verdict(&good, socket, &[], false), Ok(()));
    assert_eq!(arm_verdict(&good, socket, &[other.clone(), "x.result".to_owned()], false), Ok(()));
    assert_eq!(arm_verdict(&good, "/other", &[], false), Err(ArmError::Invalid));
    assert_eq!(
        arm_verdict(&good, socket, &[result.clone(), poison], true),
        Err(ArmError::Poisoned)
    );
    assert_eq!(
        arm_verdict(&good, socket, &[result.clone()], true),
        Err(ArmError::Outstanding)
    );
    assert_eq!(
        arm_verdict(&good, socket, &[other, result], false),
        Err(ArmError::Answered)
    );
    assert_eq!(ArmError::Invalid.message(), "invalid directive");
    assert_eq!(ArmError::Poisoned.message(), "client commit stream is poisoned");
    assert_eq!(
        ArmError::Outstanding.message(),
        "client already has an outstanding directive"
    );
    assert_eq!(ArmError::Answered.message(), "directive result already exists");
    let mut armed = directive(0, true);
    armed.arm(42, 7);
    assert_eq!((armed.owner_pid, armed.seq, armed.ready, armed.claimed), (42, 7, false, false));
    assert!(armed.waits_for("/dev/pts/1", 1, 80));
    assert!(!armed.waits_for("/dev/pts/1", 1, 81));
}

#[test]
fn a_claimed_directive_is_not_claimed_again() {
    let mut directive = directive(1, false);
    let entries = |directive: &Directive| {
        let mut stored = self::directive(directive.seq, directive.ready);
        stored.claimed = directive.claimed;
        [Entry { directive: Some(stored), stale: false, owner_alive: true }]
    };
    let plan = |entries: &[Entry]| claim_plan(entries, "/tmp/tmux.sock", "/dev/pts/1", 1, 80);
    assert_eq!(plan(&entries(&directive)), vec![]);
    directive.commit();
    assert_eq!(plan(&entries(&directive)), vec![Step::Claim(0)]);
    directive.claim();
    assert_eq!(plan(&entries(&directive)), vec![]);
    directive.commit();
    assert_eq!(plan(&entries(&directive)), vec![]);
}

#[test]
fn a_lost_reply_stops_its_client() {
    let waiting = directive(1, true);
    let mut names = vec![directive_name(&waiting.nonce), result_name(&waiting.nonce)];
    assert_eq!(wait_decision(None, true), Wait::GiveUp);
    let lost = give_up(&waiting);
    assert_eq!(lost.directive, "aaaaaaaaaaaa.json");
    assert_eq!(lost.result, "aaaaaaaaaaaa.result");
    names.retain(|name| *name != lost.directive && *name != lost.result);
    names.push(lost.poison.clone());
    assert_eq!(names, [poison_name("/dev/pts/1", 1, 80)]);
    assert!(!is_directive_file(&lost.poison));
    let mut later = directive(2, false);
    later.nonce = "bbbbbbbbbbbb".to_owned();
    assert_eq!(
        arm_verdict(&later, "/tmp/tmux.sock", &names, false),
        Err(ArmError::Poisoned)
    );
    later.local_client_created = 81;
    assert_eq!(arm_verdict(&later, "/tmp/tmux.sock", &names, false), Ok(()));
}

#[test]
fn stored_names_and_numbers_are_fixed() {
    assert!(valid_nonce("0123456789ab"));
    assert!(valid_nonce("0123456789AB"));
    assert!(!valid_nonce("0123456789ag"));
    assert!(!valid_nonce("0123456789a"));
    assert_eq!(directive_name("n"), "n.json");
    assert_eq!(result_name("n"), "n.result");
    assert!(is_directive_file("n.json"));
    assert!(!is_directive_file(".json"));
    assert!(!is_directive_file("n.result"));
    // The first digits of the SHA-256 digests of the identities.
    assert_eq!(directory_name("abc"), "ba7816bf8f01");
    assert!(poison_name("/dev/pts/1", 1, 80).starts_with(".poison-"));
    assert_eq!(poison_name("/dev/pts/1", 1, 80).len(), ".poison-".len() + 16);
    assert_ne!(poison_name("/dev/pts/1", 1, 80), poison_name("/dev/pts/1", 1, 81));
    assert_eq!(next_sequence(Some(" 41\n")), 42);
    assert_eq!(next_sequence(Some("x")), 1);
    assert_eq!(next_sequence(None), 1);
    assert_eq!(next_sequence(Some("18446744073709551615")), u64::MAX);
}

#[test]
fn answers_are_read_back() {
    for handled in [true, false] {
        assert_eq!(read_result(result_content(handled)), Some(handled));
    }
    assert_eq!(read_result("maybe"), None);
    assert_eq!(wait_decision(Some(true), true), Wait::Answered(true));
    assert_eq!(wait_decision(None, false), Wait::Again);
    assert_eq!(wait_decision(None, true), Wait::GiveUp);
}

#[test]
fn replies_are_judged_by_shape() {
    let reply = read_reply("{\"v\":2,\"result\":\"armed\"}\n").expect("a reply");
    assert_eq!(relay_outcome(&reply), Outcome::Handled);
    let declined = read_reply("{\"v\":2,\"result\":\"declined\"}\n").expect("a reply");
    assert_eq!(relay_outcome(&declined), Outcome::Declined);
    let other = read_reply("{\"v\":2,\"result\":7}\n").expect("a reply");
    assert_eq!(relay_outcome(&other), Outcome::Error);
    assert_eq!(read_reply("{\"v\":2}"), Err(ReplyError::OversizedOrTruncated));
    assert_eq!(
        read_reply(&format!("{{\"v\":2,\"x\":\"{}\"}}\n", "x".repeat(600))),
        Err(ReplyError::OversizedOrTruncated)
    );
    assert_eq!(read_reply("{\"v\":\n"), Err(ReplyError::Malformed));
    assert_eq!(read_reply("{\"v\":1}\n"), Err(ReplyError::UnsupportedShape));
    assert_eq!(read_reply("[]\n"), Err(ReplyError::UnsupportedShape));
    assert_eq!(
        ReplyError::OversizedOrTruncated.message(),
        "relay reply is oversized or truncated"
    );
}

#[test]
fn wire_vocabulary_is_fixed() {
    assert!(valid_wire("pane", "up"));
    assert!(valid_wire("window", "next"));
    assert!(valid_wire("move", "right"));
    assert!(!valid_wire("move", "up"));
    assert!(!valid_wire("pane", "next"));
    assert_eq!(
        navigate_request("pane", "left", "0123456789ab"),
        "{\"direction\":\"left\",\"nonce\":\"0123456789ab\",\"op\":\"navigate\",\"scope\":\"pane\",\"v\":2}\n"
    );
    assert_eq!(navigation_result(Outcome::Handled), "emitted");
    assert_eq!(navigation_result(Outcome::Declined), "declined");
    assert_eq!(navigation_result(Outcome::Error), "error");
}

#[test]
fn only_dead_relay_sockets_are_swept() {
    assert!(is_swept("relay-dead.sock", true, false));
    assert!(!is_swept("relay-dead.sock", false, false));
    assert!(!is_swept("relay-dead.sock", true, true));
    assert!(!is_swept("other.sock", true, false));
    assert!(!is_swept("relay-dead.lock", true, false));
}

#[test]
fn gestures_cross_the_wire_unchanged() {
    for action in [Action::PaneSelect, Action::TabSelect, Action::TabMove] {
        let scope = relay_scope(action).expect("a wire name");
        for name in ["left", "down", "up", "right", "previous", "next"] {
            let expected = Direction::parse(action, name).ok().map(|way| (action, way));
            assert_eq!(gesture(scope, name), expected);
            assert_eq!(valid_wire(scope, name), expected.is_some());
        }
    }
    assert_eq!(gesture("pane-move", "left"), None);
    let line = navigate_request("pane", "left", "0123456789ab");
    assert_eq!(
        read_request(&line).1,
        Operation::Navigate {
            scope: "pane".to_owned(),
            direction: "left".to_owned()
        }
    );
    let reply = read_reply(&reply_line("a\"b")).expect("a reply");
    assert_eq!(text_of(&reply, "result"), Some("a\"b"));
}

#[test]
fn focus_requests_cross_the_wire_unchanged() {
    let token = "0123456789abcdef01234567";
    let (message, operation) = read_request(&focus_request_line(token, Some(50)));
    assert_eq!(operation, Operation::Focus);
    assert_eq!(
        read_focus_message(&message),
        FocusMessage::Claim {
            token: token.to_owned(),
            lease_ms: 50
        }
    );
    let (message, operation) = read_request(&focus_request_line(token, None));
    assert_eq!(operation, Operation::Focus);
    assert_eq!(
        read_focus_message(&message),
        FocusMessage::Release {
            token: token.to_owned()
        }
    );
}

#[test]
fn relayed_gestures_are_never_guessed_at() {
    assert_eq!(gesture_route(true, "/r", false), GestureRoute::Enclosing);
    assert_eq!(gesture_route(false, "/r", true), GestureRoute::Forward);
    assert_eq!(gesture_route(false, "", true), GestureRoute::Enclosing);
    assert_eq!(gesture_route(false, "", false), GestureRoute::Decline);
}
