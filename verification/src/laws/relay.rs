//! The vocabulary of the relay, and what its store holds, clears away and
//! refuses.

use vstd::prelude::*;
use vstd::string::*;
use vstd::utf8::*;

use crate::digest::{digest_name, hex, hex_text};
use crate::json::{member, text_member, Json, MemberValue};
use crate::laws::text::{
    lemma_cut_at, lemma_decimal_plain, lemma_number_bound, lemma_trimmed_between,
};
use crate::navigation::{Action, Direction};
use crate::relay::client::{judge_reply, ReplyError, MAX_REPLY_BYTES};
use crate::relay::protocol::{valid_wire, wire_pair, VERSION};
use crate::relay::server::{
    dispatch, gesture, gesture_route, is_swept, GestureRoute, OperationAsked,
};
use crate::relay::store::{
    arm_verdict, awaits, claim_steps, client_identity, directive_name, directory_name,
    is_directive_file, next_sequence, outstanding, poison_mark, poison_name, read_result,
    result_content, result_name, wait_decision, ArmError, Directive, Entry, Step, Wait,
};
use crate::text::{cut, decimal, parsed, strings, trimmed};

verus! {

proof fn lemma_words_of_the_wire()
    ensures
        "pane"@ != "window"@ && "pane"@ != "move"@ && "window"@ != "move"@,
        "left"@ != "right"@ && "left"@ != "up"@ && "left"@ != "down"@ && "left"@ != "next"@
            && "left"@ != "previous"@,
        "right"@ != "up"@ && "right"@ != "down"@ && "right"@ != "next"@ && "right"@ != "previous"@,
        "up"@ != "down"@ && "up"@ != "next"@ && "up"@ != "previous"@,
        "down"@ != "next"@ && "down"@ != "previous"@ && "next"@ != "previous"@,
        "pane"@.len() > 0 && "window"@.len() > 0 && "move"@.len() > 0,
        "left"@.len() > 0 && "right"@.len() > 0 && "up"@.len() > 0 && "down"@.len() > 0
            && "next"@.len() > 0 && "previous"@.len() > 0,
{
    reveal_strlit("pane");
    reveal_strlit("window");
    reveal_strlit("move");
    reveal_strlit("left");
    reveal_strlit("right");
    reveal_strlit("up");
    reveal_strlit("down");
    reveal_strlit("next");
    reveal_strlit("previous");
    assert("pane"@.len() == 4 && "pane"@[0] == 'p');
    assert("window"@.len() == 6);
    assert("move"@.len() == 4 && "move"@[0] == 'm');
    assert("left"@.len() == 4 && "left"@[0] == 'l');
    assert("down"@.len() == 4 && "down"@[0] == 'd');
    assert("next"@.len() == 4 && "next"@[0] == 'n');
    assert("right"@.len() == 5 && "up"@.len() == 2 && "previous"@.len() == 8);
}

/// The gestures of the wire: panes are selected on four sides, windows in two
/// orders, and tabs are moved to two sides. Nothing else is valid, and each
/// pair of words is the gesture that it says.
pub proof fn lemma_wire_gestures(
    scope: &str,
    direction: &str,
    valid: bool,
    named: Option<(Action, Direction)>,
)
    requires
        call_ensures(valid_wire, (scope, direction), valid),
        call_ensures(gesture, (scope, direction), named),
    ensures
        valid <==> named is Some,
        named == Some((Action::PaneSelect, Direction::Left)) <==> scope@ == "pane"@ && direction@
            == "left"@,
        named == Some((Action::PaneSelect, Direction::Down)) <==> scope@ == "pane"@ && direction@
            == "down"@,
        named == Some((Action::PaneSelect, Direction::Up)) <==> scope@ == "pane"@ && direction@
            == "up"@,
        named == Some((Action::PaneSelect, Direction::Right)) <==> scope@ == "pane"@ && direction@
            == "right"@,
        named == Some((Action::TabSelect, Direction::Next)) <==> scope@ == "window"@ && direction@
            == "next"@,
        named == Some((Action::TabSelect, Direction::Previous)) <==> scope@ == "window"@
            && direction@ == "previous"@,
        named == Some((Action::TabMove, Direction::Left)) <==> scope@ == "move"@ && direction@
            == "left"@,
        named == Some((Action::TabMove, Direction::Right)) <==> scope@ == "move"@ && direction@
            == "right"@,
        named matches Some((action, way)) ==> action is PaneSelect && (way is Left || way is Down
            || way is Up || way is Right) || action is TabSelect && (way is Next
            || way is Previous) || action is TabMove && (way is Left || way is Right),
{
    lemma_words_of_the_wire();
    let none = |action: Action, way: Direction|
        crate::relay::server::names_gesture(scope@, direction@, action, way);
    if named is None {
        assert(!none(Action::PaneSelect, Direction::Left));
        assert(!none(Action::PaneSelect, Direction::Down));
        assert(!none(Action::PaneSelect, Direction::Up));
        assert(!none(Action::PaneSelect, Direction::Right));
        assert(!none(Action::TabSelect, Direction::Next));
        assert(!none(Action::TabSelect, Direction::Previous));
        assert(!none(Action::TabMove, Direction::Left));
        assert(!none(Action::TabMove, Direction::Right));
    }
}

/// A request of version two asks for what its `op` says; one of another
/// version, without a known `op`, or for a gesture that is none, is refused.
pub proof fn lemma_requests(message: Json, asked: crate::relay::server::Operation)
    requires
        call_ensures(dispatch, (&message,), asked),
    ensures
        ({
            let current = member(message@, "v"@) == Some(MemberValue::Number(Some(2)));
            let op = text_member(message@, "op"@);
            let scope = text_member(message@, "scope"@);
            let direction = text_member(message@, "direction"@);
            &&& asked@ is Navigate <==> current && op == Some("navigate"@) && scope is Some
                && direction is Some && wire_pair(scope->0, direction->0)
            &&& asked@ matches OperationAsked::Navigate { scope: s, direction: d } ==> scope
                == Some(s) && direction == Some(d)
            &&& asked@ is Focus <==> current && op == Some("focus"@)
            &&& asked@ is PreparePath <==> current && op == Some("prepare-path"@)
            &&& asked@ is AbortPath <==> current && op == Some("abort-path"@)
            &&& asked@ is CommitPath <==> current && op == Some("commit-path"@)
        }),
{
    reveal_strlit("navigate");
    reveal_strlit("focus");
    reveal_strlit("prepare-path");
    reveal_strlit("abort-path");
    reveal_strlit("commit-path");
    assert("navigate"@.len() == 8 && "focus"@.len() == 5 && "prepare-path"@.len() == 12);
    assert("abort-path"@.len() == 10 && "commit-path"@.len() == 11);
}

/// A reply is accepted just where it is one whole line of at most 512 bytes,
/// JSON, and of version two; and what is accepted is the reply itself. One more
/// byte is read than a reply may have, so that a longer one is noticed.
pub proof fn lemma_replies(line: &str, json: Json, reply: Result<Json, ReplyError>)
    requires
        call_ensures(judge_reply, (line, json), reply),
    ensures
        ({
            let whole = encode_utf8(line@).len() <= 512 && line@.len() > 0 && line@.last() == '\n';
            let current = member(json@, "v"@) == Some(MemberValue::Number(Some(2)));
            &&& reply is Ok <==> whole && !(json@ is Invalid) && current
            &&& reply matches Ok(accepted) ==> accepted@ == json@
            &&& reply == Err::<Json, ReplyError>(ReplyError::OversizedOrTruncated) <==> !whole
            &&& reply == Err::<Json, ReplyError>(ReplyError::Malformed) <==> whole
                && json@ is Invalid
            &&& reply == Err::<Json, ReplyError>(ReplyError::UnsupportedShape) <==> whole && !(
            json@ is Invalid) && !current
        }),
        MAX_REPLY_BYTES == 513,
        VERSION == 2,
{
    reveal_strlit("\n");
    assert("\n"@ =~= seq!['\n']);
    let s = line@;
    if "\n"@.is_suffix_of(s) {
        assert(s.subrange(s.len() - 1, s.len() as int)[0] == s.last());
        assert("\n"@[0] == s.last());
    }
    if s.len() > 0 && s.last() == '\n' {
        assert("\n"@ =~= s.subrange(s.len() - 1, s.len() as int));
    }
}

/// A gesture from a relay goes through the scopes around its session where
/// there is a pane; else on to the next relay where there is one; else to the
/// session's own terminal where it has one; else nowhere.
pub proof fn lemma_gesture_routes(in_pane: bool, relay: &str, direct: bool, route: GestureRoute)
    requires
        call_ensures(gesture_route, (in_pane, relay, direct), route),
    ensures
        route is Forward <==> !in_pane && relay@.len() > 0,
        route is Decline <==> !in_pane && relay@.len() == 0 && !direct,
        route is Enclosing <==> in_pane || relay@.len() == 0 && direct,
{
}

/// Only the socket of a relay is swept away, and only an old one that nobody
/// answers at: the socket of a connection is one, whatever its token.
pub proof fn lemma_sweeping(
    token: Seq<char>,
    name: &str,
    old: bool,
    answered: bool,
    result: bool,
)
    requires
        call_ensures(is_swept, (name, old, answered), result),
    ensures
        result ==> old && !answered,
        name@ == "relay-"@ + token + ".sock"@ ==> result == (old && !answered),
        name@.len() > 0 && name@[0] != 'r' ==> !result,
        name@.len() > 0 && name@.last() != 'k' ==> !result,
        name@.len() < 6 ==> !result,
{
    reveal_strlit("relay-");
    reveal_strlit(".sock");
    let a = "relay-"@;
    let b = ".sock"@;
    assert(a.len() == 6 && b.len() == 5 && a[0] == 'r' && b[4] == 'k');
    let s = name@;
    if s == a + token + b {
        assert(a =~= s.subrange(0, 6));
        assert(b =~= s.subrange(s.len() - 5, s.len() as int));
    }
    if b.is_suffix_of(s) {
        assert(s.subrange(s.len() - 5, s.len() as int)[4] == s.last());
    }
}

/// What a directive must hold: version two, twelve hexadecimal digits, a
/// server, a session and a client; to be executed here the panes and a gesture
/// of the wire, to be forwarded the pane that it goes to. Nothing else is
/// looked at.
pub proof fn lemma_valid_directives(directive: Directive, valid: bool)
    requires
        call_ensures(Directive::valid, (&directive,), valid),
    ensures
        valid ==> directive.v == 2 && directive.nonce@.len() == 12 && directive.local_client_pid
            != 0 && directive.tmux_socket@.len() > 0 && directive.session@.len() > 0
            && directive.local_client_tty@.len() > 0,
        valid ==> forall|i: int|
            0 <= i < 12 ==> {
                let c = #[trigger] directive.nonce@[i];
                '0' <= c <= '9' || 'a' <= c <= 'f' || 'A' <= c <= 'F'
            },
        valid && directive.action is Execute ==> directive.scope is Some && directive.direction
            is Some && wire_pair(directive.scope->0@, directive.direction->0@)
            && directive.target_pane is Some && directive.target_pane->0@.len() > 0
            && directive.expected_pane is Some && pane_id(directive.expected_pane->0@),
        valid && directive.action is Forward ==> directive.forward_pane is Some && pane_id(
            directive.forward_pane->0@,
        ),
        ({
            &&& directive.v == 2 && directive.nonce@.len() == 12 && directive.local_client_pid
                != 0 && directive.tmux_socket@.len() > 0 && directive.session@.len() > 0
                && directive.local_client_tty@.len() > 0
            &&& forall|i: int|
                0 <= i < 12 ==> {
                    let c = #[trigger] directive.nonce@[i];
                    '0' <= c <= '9' || 'a' <= c <= 'f' || 'A' <= c <= 'F'
                }
            &&& directive.action is Execute ==> directive.scope is Some && directive.direction
                is Some && wire_pair(directive.scope->0@, directive.direction->0@)
                && directive.target_pane is Some && directive.target_pane->0@.len() > 0
                && directive.expected_pane is Some && pane_id(directive.expected_pane->0@)
            &&& directive.action is Forward ==> directive.forward_pane is Some && pane_id(
                directive.forward_pane->0@,
            )
        }) ==> valid,
{
    lemma_words_of_the_wire();
    let nonce = directive.nonce@;
    assert forall|i: int| 0 <= i < nonce.len() implies (
    crate::navigation::outer::is_hex_digit(#[trigger] nonce[i]) <==> '0' <= nonce[i] <= '9'
        || 'a' <= nonce[i] <= 'f' || 'A' <= nonce[i] <= 'F') by {}
    if valid {
        assert forall|i: int| 0 <= i < 12 implies {
            let c = #[trigger] directive.nonce@[i];
            '0' <= c <= '9' || 'a' <= c <= 'f' || 'A' <= c <= 'F'
        } by {
            assert(crate::navigation::outer::is_hex_digit(nonce[i]));
        }
    }
}

/// The name that tmux gives a pane.
pub open spec fn pane_id(s: Seq<char>) -> bool {
    s.len() > 1 && s[0] == '%' && forall|i: int| 1 <= i < s.len() ==> '0' <= #[trigger] s[i] <= '9'
}

/// The next sequence number is one more than the one that was written, as long
/// as there is one more; without a readable number the first is one.
pub proof fn lemma_sequence_grows(n: u64, content: Option<&str>, next: u64)
    requires
        call_ensures(next_sequence, (content,), next),
    ensures
        content is Some && (content->0@ == decimal(n as nat) || content->0@ == decimal(n as nat)
            + seq!['\n']) ==> next == if n < u64::MAX {
            n + 1
        } else {
            n as int
        },
        content is None ==> next == 1,
        content is Some && parsed(trimmed(content->0@), u64::MAX as nat) is None ==> next == 1,
{
    let text = decimal(n as nat);
    lemma_decimal_plain(n as nat);
    lemma_number_bound(n as nat, u64::MAX as nat);
    lemma_trimmed_between(Seq::empty(), text, seq!['\n']);
    lemma_trimmed_between(Seq::empty(), text, Seq::empty());
    assert(Seq::<char>::empty() + text + seq!['\n'] =~= text + seq!['\n']);
    assert(Seq::<char>::empty() + text + Seq::<char>::empty() =~= text);
}

/// The files of the store: the directive and its answer are named after the
/// nonce, a directive's file is known as one, and an answer's is not.
pub proof fn lemma_store_names(
    nonce: &str,
    directive: String,
    answer: String,
    name: &str,
    known: bool,
)
    requires
        call_ensures(directive_name, (nonce,), directive),
        call_ensures(result_name, (nonce,), answer),
        call_ensures(is_directive_file, (name,), known),
    ensures
        directive@ == nonce@ + ".json"@,
        answer@ == nonce@ + ".result"@,
        name@ == directive@ && nonce@.len() > 0 ==> known,
        name@ == answer@ ==> !known,
        name@ == ".json"@ ==> !known,
        name@.len() > 0 && name@.last() != 'n' ==> !known,
{
    reveal_strlit(".json");
    reveal_strlit(".result");
    let s = name@;
    assert(".json"@.len() == 5 && ".json"@[4] == 'n' && ".result"@.len() == 7 && ".result"@[6]
        == 't');
    if ".json"@.is_suffix_of(s) {
        assert(s.subrange(s.len() - 5, s.len() as int)[4] == s.last());
    }
    if s == directive@ {
        assert(".json"@ =~= s.subrange(s.len() - 5, s.len() as int));
    }
    if s == answer@ {
        assert(s.last() == 't');
    }
}

/// Two clients have the same identity only where terminal, process and time of
/// creation are the same; the mark of a client is named after its identity, and
/// the directory of a server after its socket.
pub proof fn lemma_client_identities(
    a: Seq<char>,
    p: u32,
    x: u64,
    b: Seq<char>,
    q: u32,
    y: u64,
)
    requires
        !a.contains('\0') && !b.contains('\0'),
        client_identity(a, p, x) == client_identity(b, q, y),
    ensures
        a == b && p == q && x == y,
{
    lemma_identity_fields(a, p, x);
    lemma_identity_fields(b, q, y);
    lemma_number_bound(p as nat, u64::MAX as nat);
    lemma_number_bound(q as nat, u64::MAX as nat);
    lemma_number_bound(x as nat, u64::MAX as nat);
    lemma_number_bound(y as nat, u64::MAX as nat);
}

proof fn lemma_identity_fields(a: Seq<char>, p: u32, x: u64)
    requires
        !a.contains('\0'),
    ensures
        cut(client_identity(a, p, x), '\0') == Some(
            (a, decimal(p as nat) + seq!['\0'] + decimal(x as nat)),
        ),
        cut(decimal(p as nat) + seq!['\0'] + decimal(x as nat), '\0') == Some(
            (decimal(p as nat), decimal(x as nat)),
        ),
{
    reveal_strlit("\0");
    assert("\0"@ =~= seq!['\0']);
    let pid = decimal(p as nat);
    let rest = pid + seq!['\0'] + decimal(x as nat);
    lemma_decimal_plain(p as nat);
    if pid.contains('\0') {
        let i = choose|i: int| 0 <= i < pid.len() && pid[i] == '\0';
        assert('0' <= pid[i] <= '9');
    }
    lemma_cut_at(a, '\0', rest);
    lemma_cut_at(pid, '\0', decimal(x as nat));
    assert(client_identity(a, p, x) =~= a + seq!['\0'] + rest);
}

/// The mark of a client and the directory of a server.
pub proof fn lemma_marks(
    tty: &str,
    pid: u32,
    created: u64,
    mark: String,
    socket: &str,
    directory: String,
)
    requires
        call_ensures(poison_name, (tty, pid, created), mark),
        call_ensures(directory_name, (socket,), directory),
    ensures
        mark@ == ".poison-"@ + digest_name(
            tty@ + "\0"@ + decimal(pid as nat) + "\0"@ + decimal(created as nat),
            16,
        ),
        directory@ == digest_name(socket@, 12),
{
}

/// An answer is read back as it was written, and nothing else is an answer.
pub proof fn lemma_answers(
    handled: bool,
    written: &'static str,
    content: &str,
    read: Option<bool>,
)
    requires
        call_ensures(result_content, (handled,), written),
        call_ensures(read_result, (content,), read),
    ensures
        content@ == written@ ==> read == Some(handled),
        handled ==> written@ == "handled\n"@,
        !handled ==> written@ == "error\n"@,
        read == Some(true) <==> trimmed(content@) == "handled"@,
        read == Some(false) <==> trimmed(content@) == "error"@,
{
    reveal_strlit("handled");
    reveal_strlit("error");
    assert("handled"@.len() == 7 && "error"@.len() == 5);
}

/// An answer ends the waiting, even a late one; without one the waiting ends
/// when its time is up.
pub proof fn lemma_waiting(result: Option<bool>, expired: bool, wait: Wait)
    requires
        call_ensures(wait_decision, (result, expired), wait),
    ensures
        wait is Answered <==> result is Some,
        wait matches Wait::Answered(handled) ==> result == Some(handled),
        wait is GiveUp <==> result is None && expired,
        wait is Again <==> result is None && !expired,
{
}

/// A directive is published just where it is valid and of this server, its
/// client's stream is not poisoned, its client does not wait already, and its
/// nonce was not answered; the first of these that fails is the reason.
pub proof fn lemma_publication(
    directive: Directive,
    socket: &str,
    names: &[String],
    waiting: bool,
    verdict: Result<(), ArmError>,
)
    requires
        call_ensures(arm_verdict, (&directive, socket, names, waiting), verdict),
    ensures
        ({
            let proper = directive.well_formed() && directive.tmux_socket@ == socket@;
            let poisoned = strings(names@).contains(
                poison_mark(
                    directive.local_client_tty@,
                    directive.local_client_pid,
                    directive.local_client_created,
                ),
            );
            let answered = strings(names@).contains(directive.nonce@ + ".result"@);
            &&& verdict is Ok <==> proper && !poisoned && !waiting && !answered
            &&& verdict == Err::<(), ArmError>(ArmError::Invalid) <==> !proper
            &&& verdict == Err::<(), ArmError>(ArmError::Poisoned) <==> proper && poisoned
            &&& verdict == Err::<(), ArmError>(ArmError::Outstanding) <==> proper && !poisoned
                && waiting
            &&& verdict == Err::<(), ArmError>(ArmError::Answered) <==> proper && !poisoned
                && !waiting && answered
        }),
{
}

/// On the way to a claim a file is removed where it holds no directive, or one
/// whose owner is gone; the stream is poisoned just where such a directive was
/// ready, for then a reply may still come.
pub proof fn lemma_claims_clear_away(
    entries: Seq<Entry>,
    socket: Seq<char>,
    order: Seq<int>,
    i: int,
)
    requires
        entries.len() <= usize::MAX,
        forall|j: int| 0 <= j < order.len() ==> 0 <= #[trigger] order[j] < entries.len(),
        0 <= i < claim_steps(entries, socket, order).len(),
    ensures
        match claim_steps(entries, socket, order)[i] {
            Step::Remove(k) => k < entries.len() && (match entries[k as int].directive {
                None => true,
                Some(directive) => !entries[k as int].owner_alive && !directive.ready,
            }),
            Step::RemoveAndPoison(k) => k < entries.len() && (match entries[k as int].directive {
                None => false,
                Some(directive) => !entries[k as int].owner_alive && directive.ready,
            }),
            Step::Claim(k) => k < entries.len() && (match entries[k as int].directive {
                None => false,
                Some(directive) => entries[k as int].owner_alive && directive.ready
                    && !directive.claimed && directive.tmux_socket@ == socket,
            }),
        },
    decreases order.len(),
{
    let k = order[0];
    let entry = entries[k];
    let rest = order.drop_first();
    let later = claim_steps(entries, socket, rest);
    let steps = claim_steps(entries, socket, order);
    assert forall|j: int| 0 <= j < rest.len() implies 0 <= #[trigger] rest[j] < entries.len() by {
        assert(rest[j] == order[j + 1]);
    }
    match entry.directive {
        None => {
            if i > 0 {
                assert(steps[i] == later[i - 1]);
                lemma_claims_clear_away(entries, socket, rest, i - 1);
            }
        },
        Some(directive) => {
            if !entry.owner_alive {
                if i > 0 {
                    assert(steps[i] == later[i - 1]);
                    lemma_claims_clear_away(entries, socket, rest, i - 1);
                }
            } else if entry.directive->0.ready && !entry.directive->0.claimed
                && entry.directive->0.tmux_socket@ == socket {
            } else {
                lemma_claims_clear_away(entries, socket, rest, i);
            }
        },
    }
}

/// Before a directive is published, a directive of the same client is removed
/// where it was never ready and is stale or without its owner; one that was
/// ready, but is without its owner, poisons the stream and counts as waiting.
/// Nothing else is touched.
pub proof fn lemma_publication_clears_away(
    entries: Seq<Entry>,
    tty: Seq<char>,
    pid: u32,
    created: u64,
    i: int,
    k: int,
)
    requires
        0 <= i <= entries.len() <= usize::MAX,
        0 <= k < outstanding(entries, tty, pid, created, i).0.len(),
    ensures
        match outstanding(entries, tty, pid, created, i).0[k] {
            Step::Remove(n) => n < entries.len() && (match entries[n as int].directive {
                None => false,
                Some(directive) => awaits(directive, tty, pid, created) && !directive.ready && (
                entries[n as int].stale || !entries[n as int].owner_alive),
            }),
            Step::RemoveAndPoison(n) => n < entries.len() && outstanding(
                entries,
                tty,
                pid,
                created,
                i,
            ).1 && (match entries[n as int].directive {
                None => false,
                Some(directive) => awaits(directive, tty, pid, created) && directive.ready
                    && !entries[n as int].owner_alive,
            }),
            Step::Claim(_) => false,
        },
    decreases entries.len() - i,
{
    let whole = outstanding(entries, tty, pid, created, i);
    if i < entries.len() {
        let rest = outstanding(entries, tty, pid, created, i + 1);
        if whole.0 == rest.0 && whole.1 == rest.1 {
            lemma_publication_clears_away(entries, tty, pid, created, i + 1, k);
        } else if k > 0 {
            assert(whole.0[k] == rest.0[k - 1]);
            lemma_publication_clears_away(entries, tty, pid, created, i + 1, k - 1);
        }
    }
}

/// A client waits only for a directive of its own that is ready, or that is
/// fresh and has its owner.
pub proof fn lemma_who_waits(
    entries: Seq<Entry>,
    tty: Seq<char>,
    pid: u32,
    created: u64,
    i: int,
)
    requires
        0 <= i <= entries.len(),
        outstanding(entries, tty, pid, created, i).1,
    ensures
        exists|j: int|
            i <= j < entries.len() && (match (#[trigger] entries[j]).directive {
                None => false,
                Some(directive) => directive.local_client_tty@ == tty
                    && directive.local_client_pid == pid && directive.local_client_created
                    == created && (directive.ready || !entries[j].stale && entries[j].owner_alive),
            }),
    decreases entries.len() - i,
{
    let rest = outstanding(entries, tty, pid, created, i + 1);
    if i < entries.len() && rest.1 {
        lemma_who_waits(entries, tty, pid, created, i + 1);
    }
    if i < entries.len() {
        let entry = entries[i];
        match entry.directive {
            None => {},
            Some(directive) => {
                if awaits(directive, tty, pid, created) && (directive.ready || !entry.stale
                    && entry.owner_alive) {
                    assert(entries[i].directive is Some);
                }
            },
        }
    }
}

/// Each byte is two hexadecimal digits in lower case, the higher half first.
pub proof fn lemma_hexadecimal(bytes: &[u8], text: String, i: int)
    requires
        call_ensures(hex, (bytes,), text),
        0 <= i < bytes@.len(),
    ensures
        text@.len() == 2 * bytes@.len(),
        digit_value(text@[2 * i]) * 16 + digit_value(text@[2 * i + 1]) == bytes@[i],
        '0' <= text@[2 * i] <= '9' || 'a' <= text@[2 * i] <= 'f',
        '0' <= text@[2 * i + 1] <= '9' || 'a' <= text@[2 * i + 1] <= 'f',
{
    let b = bytes@[i];
    assert(text@ == hex_text(bytes@));
    assert(2 * i / 2 == i && (2 * i + 1) / 2 == i && (2 * i) % 2 == 0 && (2 * i + 1) % 2 == 1);
    let high = (b / 16) as int;
    let low = (b % 16) as int;
    assert(0 <= high < 16 && 0 <= low < 16 && high * 16 + low == b);
    assert(text@[2 * i] == crate::digest::hex_digit(high));
    assert(text@[2 * i + 1] == crate::digest::hex_digit(low));
}

/// The value of a hexadecimal digit.
pub open spec fn digit_value(c: char) -> int {
    if '0' <= c <= '9' {
        c as int - 48
    } else {
        c as int - 87
    }
}

} // verus!
