use termnav::focus::publish::{
    begin_stop, clear_client_unfocused, clear_exact, client_listing, continue_stop, current_claim,
    focus_request_line, focus_route, forwarded_reply, is_renewal, judge_forwarded,
    judge_publication, lease_query,
    option_arguments, option_value, read_focus_message, relay_updated, set_client_unfocused,
    watcher_pid, FocusMessage, FocusRoute, Published, Release, Stopping, StyleFacts, Sync,
    CLIENT_PANE_FORMAT,
};
use termnav::focus::style::{remember, StyleRestore};
use termnav::focus::{
    claim, claim_value, client_focused, client_pane, expiry_step, lease_deadline, lock_name,
    pane_has_focused_client, parent_for_client, parse_claim, release, start_expirer,
    sync_client_style, watch_allowed, watch_round, Expiry, Parent,
};
use termnav::json::{Json, Member};
use termnav::navigation::system::TmuxOutput;
use termnav::relay::protocol::reply_line;
use termnav::relay::server::read_request;

const TOKEN: &str = "0123456789abcdef01234567";

fn strings(values: &[&str]) -> Vec<String> {
    values.iter().map(|value| value.to_string()).collect()
}

fn printed(text: &str) -> Option<TmuxOutput> {
    Some(TmuxOutput {
        success: true,
        stdout: text.as_bytes().to_vec(),
    })
}

fn facts(inactive: Option<&str>, marked: bool, existing: Option<&str>) -> StyleFacts {
    StyleFacts {
        inactive: inactive.map(str::to_owned),
        marked,
        existing: existing.map(str::to_owned),
    }
}

#[test]
fn leases_are_read_back_as_published() {
    let value = claim_value(TOKEN, 123);
    assert_eq!(parse_claim(&value), Some((TOKEN, 123)));
    assert_eq!(lease_deadline(5, 50), 50_000_005);
    assert_eq!(lease_deadline(u64::MAX, 50), u64::MAX);
    assert_eq!(expiry_step(Some(&value), 100), Expiry::Sleep(23));
    assert_eq!(expiry_step(Some(&value), 123), Expiry::Clear);
    assert_eq!(expiry_step(Some("x"), 0), Expiry::Stop);
    assert_eq!(expiry_step(None, 0), Expiry::Stop);
    assert_eq!(current_claim(&printed(&format!("{value}\n"))), Some(value));
    assert_eq!(current_claim(&printed("\n")), None);
    assert_eq!(current_claim(&None), None);
    assert_eq!(
        lease_query("%1"),
        strings(&["show-options", "-pqv", "-t", "%1", "@termnav_child_focus"])
    );
}

#[test]
fn claim_dims_the_parent_and_release_restores_its_style() {
    let plan = claim(
        "%1",
        TOKEN,
        50,
        0,
        &None,
        &facts(Some("bg=grey"), false, Some("bg=red")),
    )
    .expect("a claim");
    assert!(plan.start_expirer);
    assert_eq!(plan.value, format!("{TOKEN}:50000000"));
    let restore = "{\"had_override\":true,\"value\":\"bg=red\"}";
    assert_eq!(
        plan.publish,
        strings(&[
            "set-option",
            "-p",
            "-t",
            "%1",
            "window-active-style",
            "bg=grey",
            ";",
            "set-option",
            "-p",
            "-t",
            "%1",
            "@termnav_child_focus_restore_active_style",
            restore,
            ";",
            "set-option",
            "-p",
            "-t",
            "%1",
            "@termnav_child_focus",
            &plan.value,
        ])
    );
    let (undo, retry) = plan.fallback.expect("a way back");
    assert_eq!(
        undo,
        strings(&[
            "set-option",
            "-p",
            "-t",
            "%1",
            "window-active-style",
            "bg=red",
            ";",
            "set-option",
            "-pu",
            "-t",
            "%1",
            "@termnav_child_focus_restore_active_style",
            ";",
            "set-option",
            "-pu",
            "-t",
            "%1",
            "@termnav_child_focus",
        ])
    );
    assert_eq!(retry[..5], plan.publish[14..19]);

    assert_eq!(
        release("%1", TOKEN, &Some(plan.value.clone())),
        Release::End(plan.value.clone())
    );
    let state = Some(StyleRestore {
        had_override: true,
        value: "bg=red".to_owned(),
    });
    let end = clear_exact("%1", &plan.value, true, false, &state).expect("an end");
    assert_eq!(
        end.change,
        strings(&[
            "if-shell",
            "-F",
            "-t",
            "%1",
            &format!("#{{==:#{{@termnav_child_focus}},{}}}", plan.value),
            "'set-option' '-pu' '-t' '%1' '@termnav_child_focus' ; 'set-option' '-pu' '-t' '%1' '@termnav_child_focus_restore_active_style' ; 'set-option' '-p' '-t' '%1' 'window-active-style' 'bg=red'",
            "",
        ])
    );
    assert_eq!(
        end.fallback,
        Some(strings(&["set-option", "-pu", "-t", "%1", "window-active-style"]))
    );
}

#[test]
fn renewals_write_one_option() {
    let previous = Some(format!("{TOKEN}:7"));
    assert!(is_renewal(&previous, TOKEN));
    let plan = claim("%1", TOKEN, 50, 0, &previous, &facts(Some("s"), false, None)).expect("a claim");
    assert!(!plan.start_expirer);
    assert_eq!(plan.publish.len(), 6);
    assert!(plan.fallback.is_none());
    let unstyled = claim("%1", TOKEN, 50, 0, &None, &facts(None, false, None)).expect("a claim");
    assert!(unstyled.start_expirer);
    assert_eq!(unstyled.publish.len(), 6);
    assert!(unstyled.fallback.is_none());
    assert!(claim("%1", "short", 50, 0, &None, &facts(None, false, None)).is_none());
    assert!(claim("1", TOKEN, 50, 0, &None, &facts(None, false, None)).is_none());
    assert!(claim("%1", TOKEN, 49, 0, &None, &facts(None, false, None)).is_none());
}

#[test]
fn only_the_holder_releases() {
    assert_eq!(release("%1", "short", &None), Release::Refused);
    assert_eq!(release("%1", TOKEN, &None), Release::NotHeld);
    let other = "f".repeat(24);
    assert_eq!(
        release("%1", TOKEN, &Some(format!("{other}:7"))),
        Release::NotHeld
    );
    assert!(clear_exact("%1", "short:7", true, true, &None).is_none());
    let kept = clear_exact("%1", &format!("{TOKEN}:7"), true, true, &None).expect("an end");
    assert_eq!(kept.change[5], "'set-option' '-pu' '-t' '%1' '@termnav_child_focus'");
}

#[test]
fn unfocused_clients_dim_their_pane() {
    assert!(set_client_unfocused("%1", &facts(None, false, None)).is_none());
    assert!(set_client_unfocused("%1", &facts(Some(""), false, None)).is_none());
    let marked = set_client_unfocused("%1", &facts(Some("s"), true, None)).expect("a mark");
    assert_eq!(marked.change.len(), 6);
    assert!(marked.fallback.is_none());
    let fresh = set_client_unfocused("%1", &facts(Some("s"), false, None)).expect("a mark");
    assert_eq!(fresh.change.len(), 20);
    assert_eq!(fresh.fallback.expect("a way back").len(), 17);
    let state = Some(StyleRestore {
        had_override: false,
        value: String::new(),
    });
    let brighter = clear_client_unfocused("%1", false, true, &state);
    assert_eq!(brighter.change.len(), 17);
    assert_eq!(brighter.change[16], "window-active-style");
    let leased = clear_client_unfocused("%1", true, true, &state);
    assert_eq!(leased.change.len(), 5);
    assert_eq!(remember(&None), "{\"had_override\":false,\"value\":\"\"}");
}

#[test]
fn options_are_present_by_name() {
    assert_eq!(
        option_arguments("%1", "o", true, "-q"),
        strings(&["show-options", "-p", "-t", "%1", "-q", "o"])
    );
    assert_eq!(
        option_arguments("%1", "o", false, "-qv"),
        strings(&["show-options", "-g", "-qv", "o"])
    );
    assert_eq!(
        option_value(&printed("o x"), &printed("x\n\n")).as_deref(),
        Some("x")
    );
    assert_eq!(option_value(&printed(""), &printed("x")), None);
    assert_eq!(option_value(&None, &printed("x")), None);
}

#[test]
fn expirers_are_quoted_for_tmux_and_the_shell() {
    assert_eq!(
        start_expirer("/tmp/#{x}", "%1"),
        strings(&[
            "run-shell",
            "-b",
            "exec 'termnav' 'tmux' 'focus' 'expire' '--parent-tmux' '/tmp/##{x}' '--parent-pane' '%1'",
        ])
    );
    assert_eq!(judge_publication(true, true, true), Published::Claimed);
    assert_eq!(judge_publication(true, false, false), Published::Claimed);
    assert_eq!(judge_publication(true, true, false), Published::Unguarded);
    assert_eq!(judge_publication(false, true, true), Published::Failed);
}

#[test]
fn listings_name_the_exact_client() {
    assert_eq!(client_listing(CLIENT_PANE_FORMAT).len(), 3);
    let flags = "7 /t attached,focused\n8 /t attached\n";
    assert_eq!(client_focused(flags, 7, "/t"), Some(true));
    assert_eq!(client_focused(flags, 8, "/t"), Some(false));
    assert_eq!(client_focused(flags, 7, "/u"), None);
    assert_eq!(client_pane("7 /t %3\n", 7, "/t").as_deref(), Some("%3"));
    assert_eq!(client_pane("7 /t 3\n", 7, "/t"), None);
    assert!(pane_has_focused_client("%1 0 0\n%1 1 0\n", "%1"));
    assert!(!pane_has_focused_client("%1 1 1\n", "%1"));
    assert_eq!(sync_client_style(None, true), Sync::Nothing);
    assert_eq!(sync_client_style(Some("%1"), true), Sync::Brighten);
    assert_eq!(sync_client_style(Some("%1"), false), Sync::Dim);
    assert_eq!(begin_stop(Some(true)), Stopping::Done(0));
    assert_eq!(begin_stop(None), Stopping::Sync);
    assert_eq!(continue_stop(true, Some(true)), Stopping::Resync);
    assert_eq!(continue_stop(false, Some(true)), Stopping::Done(1));
    assert_eq!(continue_stop(true, None), Stopping::Signal(0));
    assert_eq!(continue_stop(false, Some(false)), Stopping::Signal(1));
    assert_eq!(watcher_pid(" 12\n"), Some(12));
    assert_eq!(watcher_pid("x"), None);
}

#[test]
fn watchers_survive_one_missed_heartbeat() {
    assert!(watch_allowed(2000, 1000));
    assert!(!watch_allowed(1999, 1000));
    assert_eq!(watch_round(true, Some(true)), (false, true));
    assert_eq!(watch_round(true, None), (true, false));
    assert_eq!(watch_round(false, Some(false)), (false, false));
    assert_eq!(
        parent_for_client("/s,1,0", "%1", false, Some("/r")),
        Some(Parent::Tmux {
            socket: "/s".to_owned(),
            pane: "%1".to_owned()
        })
    );
    assert_eq!(
        parent_for_client("/s,1,0", "%1", true, Some("/r")),
        Some(Parent::Relay("/r".to_owned()))
    );
    assert_eq!(parent_for_client("", "", false, Some("r")), None);
}

#[test]
fn lock_names_are_short_and_stable() {
    let name = lock_name("state", &vec!["abc"]);
    assert_eq!(name, "state-ba7816bf8f01cfea414140de.lock");
    assert_ne!(lock_name("state", &vec!["a", "b"]), lock_name("state", &vec!["ab"]));
}

fn message(text: &str) -> Json {
    read_request(text).0
}

#[test]
fn focus_messages_fail_closed() {
    assert_eq!(
        read_focus_message(&message(&format!(
            "{{\"state\":\"claim\",\"token\":\"{TOKEN}\",\"lease_ms\":50}}"
        ))),
        FocusMessage::Claim {
            token: TOKEN.to_owned(),
            lease_ms: 50
        }
    );
    assert_eq!(
        read_focus_message(&message(&format!("{{\"state\":\"release\",\"token\":\"{TOKEN}\"}}"))),
        FocusMessage::Release {
            token: TOKEN.to_owned()
        }
    );
    for text in [
        "{}".to_owned(),
        "{\"state\":\"release\",\"token\":\"short\"}".to_owned(),
        format!("{{\"state\":\"claim\",\"token\":\"{TOKEN}\"}}"),
        format!("{{\"state\":\"claim\",\"token\":\"{TOKEN}\",\"lease_ms\":49}}"),
        format!("{{\"state\":\"keep\",\"token\":\"{TOKEN}\"}}"),
    ] {
        assert_eq!(read_focus_message(&message(&text)), FocusMessage::Refused, "{text}");
    }
    assert_eq!(focus_route(true, true, "/r"), FocusRoute::Local);
    assert_eq!(focus_route(false, true, "/r"), FocusRoute::Fail);
    assert_eq!(focus_route(false, false, "/r"), FocusRoute::Forward);
    assert_eq!(focus_route(false, false, ""), FocusRoute::Decline);
}

#[test]
fn relays_carry_focus_on() {
    assert_eq!(
        focus_request_line(TOKEN, Some(50)),
        format!("{{\"lease_ms\":50,\"op\":\"focus\",\"state\":\"claim\",\"token\":\"{TOKEN}\",\"v\":2}}\n")
    );
    assert_eq!(
        focus_request_line(TOKEN, None),
        format!("{{\"op\":\"focus\",\"state\":\"release\",\"token\":\"{TOKEN}\",\"v\":2}}\n")
    );
    let reply = |result: &str| {
        Some(Json::Object(vec![(
            "result".to_owned(),
            Member::Text(result.to_owned()),
        )]))
    };
    // The whole reply is handed on, with what else it holds.
    let whole = "{\"result\":\"claimed\",\"until\":7,\"v\":2}\n";
    assert_eq!(forwarded_reply(Some(whole)), whole);
    let error = reply_line("error");
    assert_eq!(forwarded_reply(Some(&error)), error);
    for refused in ["{\"result\":\"armed\",\"v\":2}\n", "{\"result\":\"claimed\",\"v\":2}", "{}\n", "x\n"] {
        assert_eq!(forwarded_reply(Some(refused)), error, "{refused}");
    }
    assert_eq!(forwarded_reply(None), error);
    assert_eq!(judge_forwarded(whole, Json::Invalid), error);
    assert!(relay_updated(&reply("claimed"), true));
    assert!(!relay_updated(&reply("claimed"), false));
    assert!(relay_updated(&reply("released"), false));
    assert!(!relay_updated(&None, true));
}
