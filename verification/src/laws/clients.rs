//! Which client carries a gesture, how tmux's listings are read, and how the
//! editor around a terminal is asked.

use vstd::prelude::*;
use vstd::string::*;
use vstd::utf8::*;

use crate::http::{header_lines, http_success, post_request, MAX_RESPONSE_BYTES};
use crate::json::{json_object, json_string, member, JsonValue, MemberValue};
use crate::laws::relay::pane_id;
use crate::laws::text::{
    lemma_decimal_plain, lemma_last_place_at, lemma_lines_first, lemma_number_bound,
    lemma_split_first, lemma_trimmed_between,
};
use crate::navigation::mcp::{
    accepted, after, call_request, is_loopback_address, loopback_address, octet, settings, token_of,
    Exchange, McpEnvironment, McpSettings,
};
use crate::navigation::outer::{
    active_pane_arguments, climbed, delivered, refreshed_scope, switch_tab_request, window_answer,
    window_of_pane_arguments, worth_a_look, ClimbState, ProcessFacts,
};
use crate::navigation::system::{
    client_query_arguments, client_row, current_scope, field_format, interactive, listed, on_route,
    on_scope, resolve_client, rivals, same_client, scope_session, tmux_identity, tmux_socket,
    validate_client, window_list_arguments, window_partner, window_query_arguments, window_to_move,
    ClientFields, TmuxOutput, FRESHNESS_SECONDS,
};
use crate::navigation::{is_choice, is_safe_choice, Action, Client, Direction, Outcome, Scope};
use crate::text::{
    any_of, decimal, joined, last_char, lines, opt_text, position_of, split, strings,
    trim_end_where, utf8_lossy, white_space,
};

verus! {

/// The spellings of the actions and directions, and which go together.
pub proof fn lemma_spellings(
    action: Action,
    direction: Direction,
    name: &'static str,
    way: &'static str,
)
    requires
        call_ensures(Action::as_str, (action,), name),
        call_ensures(Direction::as_str, (direction,), way),
    ensures
        action is PaneSelect ==> name@ == "pane-select"@,
        action is PaneMove ==> name@ == "pane-move"@,
        action is TabSelect ==> name@ == "tab-select"@,
        action is TabMove ==> name@ == "tab-move"@,
        direction is Left ==> way@ == "left"@,
        direction is Down ==> way@ == "down"@,
        direction is Up ==> way@ == "up"@,
        direction is Right ==> way@ == "right"@,
        direction is Next ==> way@ == "next"@,
        direction is Previous ==> way@ == "previous"@,
        direction is Next || direction is Previous ==> (direction.suits(action)
            <==> action is TabSelect),
        direction is Up || direction is Down ==> (direction.suits(action) <==> action is PaneSelect
            || action is PaneMove),
        direction is Left || direction is Right ==> (direction.suits(action) <==> !(
        action is TabSelect)),
{
}

/// What is written is read back: an action by its spelling.
pub proof fn lemma_actions_are_read_back(
    action: Action,
    name: &'static str,
    value: &str,
    read: Result<Action, String>,
)
    requires
        call_ensures(Action::as_str, (action,), name),
        value@ == name@,
        call_ensures(Action::parse, (value,), read),
    ensures
        read == Ok::<Action, String>(action),
{
    crate::navigation::lemma_action_names_distinct();
}

/// A pane is one scope in whichever session it is seen: its identity is its
/// server and its pane. It is addressed within its session where one is known.
pub proof fn lemma_scope_names(a: Scope, b: Scope, target: String, identity: String)
    requires
        call_ensures(Scope::target, (&a,), target),
        call_ensures(Scope::identity, (&a,), identity),
        pane_id(a.pane@) && pane_id(b.pane@),
    ensures
        identity@ == a.socket@ + ":"@ + a.pane@,
        a.key() == b.key() <==> a.socket@ == b.socket@ && a.pane@ == b.pane@,
        a.session is None ==> target@ == a.pane@,
        a.session is Some ==> target@ == a.session->0@ + ":."@ + a.pane@,
{
    reveal_strlit(":");
    assert(":"@ =~= seq![':']);
    lemma_pane_has_no_colon(a.pane@);
    lemma_pane_has_no_colon(b.pane@);
    lemma_last_place_at(a.socket@, ':', a.pane@);
    lemma_last_place_at(b.socket@, ':', b.pane@);
    if a.key() == b.key() {
        let n = last_char(a.key(), ':');
        assert(a.key() == a.socket@ + seq![':'] + a.pane@);
        assert(b.key() == b.socket@ + seq![':'] + b.pane@);
        assert(a.key().take(n) =~= a.socket@);
        assert(b.key().take(n) =~= b.socket@);
        assert(a.key().skip(n + 1) =~= a.pane@);
        assert(b.key().skip(n + 1) =~= b.pane@);
    }
}

proof fn lemma_pane_has_no_colon(pane: Seq<char>)
    requires
        pane_id(pane),
    ensures
        !pane.contains(':'),
{
    if pane.contains(':') {
        let i = choose|i: int| 0 <= i < pane.len() && pane[i] == ':';
        if i > 0 {
            assert('0' <= pane[i] <= '9');
        }
    }
}

/// A row of a listing is read as the client it was printed for: the fields
/// stand in the order in which the listing asks for them.
pub proof fn lemma_clients_are_read_back(
    socket: Seq<char>,
    client: ClientFields,
    flags: Seq<char>,
    mode: Seq<char>,
)
    requires
        !client.tty.contains('|') && client.tty.len() > 0,
        !client.termtype.contains('|'),
        !client.session.contains('|') && client.session.len() > 0,
        pane_id(client.pane),
        !flags.contains('|') && !mode.contains('|'),
        client.socket == socket && !client.exact,
        client.focused == split(flags, ',').contains("focused"@),
        client.control == (mode == "1"@),
    ensures
        client_row(
            socket,
            decimal(client.activity as nat) + seq!['|'] + (decimal(client.pid as nat) + seq!['|']
                + (client.tty + seq!['|'] + (client.termtype + seq!['|'] + (client.session
                + seq!['|'] + (client.pane + seq!['|'] + (flags + seq!['|'] + (mode + seq!['|']
                + decimal(client.created as nat)))))))),
        ) == Some(client),
{
    let a = decimal(client.activity as nat);
    let p = decimal(client.pid as nat);
    let c = decimal(client.created as nat);
    lemma_no_bar(client.activity as nat);
    lemma_no_bar(client.pid as nat);
    lemma_no_bar(client.created as nat);
    if client.pane.contains('|') {
        let i = choose|i: int| 0 <= i < client.pane.len() && client.pane[i] == '|';
        if i > 0 {
            assert('0' <= client.pane[i] <= '9');
        }
    }
    let r8 = mode + seq!['|'] + c;
    let r7 = flags + seq!['|'] + r8;
    let r6 = client.pane + seq!['|'] + r7;
    let r5 = client.session + seq!['|'] + r6;
    let r4 = client.termtype + seq!['|'] + r5;
    let r3 = client.tty + seq!['|'] + r4;
    let r2 = p + seq!['|'] + r3;
    lemma_split_first(a, '|', r2);
    lemma_split_first(p, '|', r3);
    lemma_split_first(client.tty, '|', r4);
    lemma_split_first(client.termtype, '|', r5);
    lemma_split_first(client.session, '|', r6);
    lemma_split_first(client.pane, '|', r7);
    lemma_split_first(flags, '|', r8);
    lemma_split_first(mode, '|', c);
    lemma_split_first(c, '|', Seq::empty());
    let fields = split(a + seq!['|'] + r2, '|');
    assert(fields =~= seq![
        a,
        p,
        client.tty,
        client.termtype,
        client.session,
        client.pane,
        flags,
        mode,
        c,
    ]);
    lemma_number_bound(client.activity as nat, u64::MAX as nat);
    lemma_number_bound(client.pid as nat, u32::MAX as nat);
    lemma_number_bound(client.created as nat, u64::MAX as nat);
}

proof fn lemma_no_bar(n: nat)
    ensures
        !decimal(n).contains('|'),
{
    lemma_decimal_plain(n);
    if decimal(n).contains('|') {
        let i = choose|i: int| 0 <= i < decimal(n).len() && decimal(n)[i] == '|';
        assert('0' <= decimal(n)[i] <= '9');
    }
}

/// The listing asks for the nine fields in that order, with bars between.
pub proof fn lemma_client_listing(arguments: Vec<String>)
    requires
        call_ensures(client_query_arguments, (), arguments),
    ensures
        strings(arguments@) == seq![
            "list-clients"@,
            "-F"@,
            "#{client_activity}|#{client_pid}|#{client_tty}|#{client_termtype}|#{session_id}|#{pane_id}|#{client_flags}|#{client_control_mode}|#{client_created}"@,
        ],
{
    reveal_strlit("client_activity");
    reveal_strlit("client_pid");
    reveal_strlit("client_tty");
    reveal_strlit("client_termtype");
    reveal_strlit("session_id");
    reveal_strlit("pane_id");
    reveal_strlit("client_flags");
    reveal_strlit("client_control_mode");
    reveal_strlit("client_created");
    reveal_strlit("#{");
    reveal_strlit("}");
    reveal_strlit("|");
    reveal_strlit(
        "#{client_activity}|#{client_pid}|#{client_tty}|#{client_termtype}|#{session_id}|#{pane_id}|#{client_flags}|#{client_control_mode}|#{client_created}",
    );
    let fields = seq![
        "client_activity"@,
        "client_pid"@,
        "client_tty"@,
        "client_termtype"@,
        "session_id"@,
        "pane_id"@,
        "client_flags"@,
        "client_control_mode"@,
        "client_created"@,
    ];
    let parts = Seq::new(fields.len(), |i: int| "#{"@ + fields[i] + "}"@);
    let bar = "|"@;
    reveal_with_fuel(joined, 10);
    let p = |i: int| "#{"@ + fields[i] + "}"@;
    assert(parts.drop_last() =~= parts.take(8));
    assert(parts.take(8).drop_last() =~= parts.take(7));
    assert(parts.take(7).drop_last() =~= parts.take(6));
    assert(parts.take(6).drop_last() =~= parts.take(5));
    assert(parts.take(5).drop_last() =~= parts.take(4));
    assert(parts.take(4).drop_last() =~= parts.take(3));
    assert(parts.take(3).drop_last() =~= parts.take(2));
    assert(parts.take(2).drop_last() =~= parts.take(1));
    assert(field_format(fields) == joined(parts, bar));
    assert(joined(parts.take(1), bar) =~= p(0));
    assert(joined(parts.take(2), bar) =~= p(0) + bar + p(1));
    assert(joined(parts.take(3), bar) =~= p(0) + bar + p(1) + bar + p(2));
    assert(joined(parts.take(4), bar) =~= p(0) + bar + p(1) + bar + p(2) + bar + p(3));
    assert(joined(parts.take(5), bar) =~= joined(parts.take(4), bar) + bar + p(4));
    assert(joined(parts.take(6), bar) =~= joined(parts.take(5), bar) + bar + p(5));
    assert(joined(parts.take(7), bar) =~= joined(parts.take(6), bar) + bar + p(6));
    assert(joined(parts.take(8), bar) =~= joined(parts.take(7), bar) + bar + p(7));
    assert(joined(parts, bar) =~= joined(parts.take(8), bar) + bar + p(8));
    assert(field_format(fields)
        =~= "#{client_activity}|#{client_pid}|#{client_tty}|#{client_termtype}|#{session_id}|#{pane_id}|#{client_flags}|#{client_control_mode}|#{client_created}"@);
}

/// Clients in control mode never take part, and a failed listing shows none.
pub proof fn lemma_listed_clients(socket: Seq<char>, output: Option<TmuxOutput>, i: int)
    ensures
        output is None || !output->0.success ==> listed(socket, output).len() == 0,
        0 <= i < listed(socket, output).len() ==> !listed(socket, output)[i].control,
{
    if let Some(output) = output {
        let all = crate::navigation::system::client_rows(
            socket,
            lines(utf8_lossy(output.stdout@)),
        );
        let keep = |client: ClientFields| !client.control;
        broadcast use vstd::seq_lib::group_filter_ensures;
        assert(interactive(all) == all.filter(keep));
        if output.success && 0 <= i < interactive(all).len() {
            assert(keep(interactive(all)[i]));
        }
    }
}

proof fn lemma_kept(clients: Seq<Client>, keep: spec_fn(Client) -> bool, i: int)
    requires
        0 <= i < clients.filter(keep).len(),
    ensures
        clients.contains(clients.filter(keep)[i]),
    decreases clients.len(),
{
    reveal(Seq::filter);
    let head = clients.drop_last();
    if i < head.filter(keep).len() {
        lemma_kept(head, keep, i);
        let j = choose|j: int| 0 <= j < head.len() && head[j] == head.filter(keep)[i];
        assert(clients[j] == head[j]);
    } else {
        assert(clients.filter(keep)[i] == clients.last());
    }
}

/// The client that carries a gesture shows the pane, and the session where one
/// is known. It is the only one that does, or the only focused one, or, while
/// none is focused, the one with the newest activity, at most two seconds ago
/// and not after the gesture.
pub proof fn lemma_chosen_client(
    clients: Vec<Client>,
    scope: Scope,
    started_at: u64,
    choice: Option<Client>,
)
    requires
        call_ensures(resolve_client, (&clients, &scope, started_at), choice),
    ensures
        choice matches Some(client) ==> {
            &&& client.pane@ == scope.pane@ && !client.control
            &&& scope.session is Some ==> client.session@ == scope.session->0@
            &&& clients@.contains(client)
            &&& !client.focused && (exists|j: int|
                0 <= j < clients@.len() && on_scope(scope)(#[trigger] clients@[j])
                    && !clients@[j].control && clients@[j] != client) ==> client.activity
                <= started_at <= client.activity + 2
        },
{
    let shown = clients@.filter(on_scope(scope));
    broadcast use vstd::seq_lib::group_filter_ensures;
    if let Some(client) = choice {
        let i = choose|i: int|
            #[trigger] is_safe_choice(shown, started_at, FRESHNESS_SECONDS, i) && client
                == shown[i];
        assert(0 <= i < shown.len());
        assert(on_scope(scope)(shown[i]));
        lemma_kept(clients@, on_scope(scope), i);
        if !client.focused && !(client.activity <= started_at <= client.activity + 2) {
            assert(crate::navigation::only_interactive(shown, i));
            assert forall|j: int|
                0 <= j < clients@.len() && on_scope(scope)(#[trigger] clients@[j])
                    && !clients@[j].control implies clients@[j] == client by {
                assert(shown.contains(clients@[j]));
                let k = choose|k: int| 0 <= k < shown.len() && shown[k] == clients@[j];
                assert(k == i);
            }
        }
    }
}

/// A client that alone shows the scope carries the gesture, focused or not and
/// however old its activity is.
pub proof fn lemma_only_client_is_chosen(
    clients: Seq<Client>,
    started_at: u64,
    client: Client,
    choice: Option<Client>,
)
    requires
        clients == seq![client],
        !client.control,
        is_choice(clients, started_at, 2, choice),
    ensures
        choice == Some(client),
{
    assert(crate::navigation::only_interactive(clients, 0));
    assert(is_safe_choice(clients, started_at, 2, 0));
    if let Some(other) = choice {
        let i = choose|i: int| #[trigger] is_safe_choice(clients, started_at, 2, i) && other
            == clients[i];
        assert(i == 0);
    }
}

/// A client is known again by its process and terminal, and by the time of its
/// creation where that was recorded.
pub proof fn lemma_known_again(current: Client, expected: Client)
    ensures
        same_client(current, expected) ==> current.pid == expected.pid && current.tty@
            == expected.tty@,
        same_client(current, expected) && expected.created != 0 ==> current.created
            == expected.created,
        current.pid == expected.pid && current.tty@ == expected.tty@ && (current.created
            == expected.created || expected.created == 0) ==> same_client(current, expected),
        on_route(current, expected) ==> same_client(current, expected) && current.pane@
            == expected.pane@ && current.socket@ == expected.socket@,
        on_route(current, expected) && expected.session@.len() > 0 ==> current.session@
            == expected.session@,
        same_client(current, expected) && current.pane@ == expected.pane@ && current.socket@
            == expected.socket@ && (current.session@ == expected.session@
            || expected.session@.len() == 0) ==> on_route(current, expected),
{
}

/// A recorded client is valid only while the same client shows the same pane;
/// one that was given exactly needs no more than that.
pub proof fn lemma_valid_clients(
    clients: Vec<Client>,
    client: Client,
    started_at: u64,
    result: bool,
    i: int,
)
    requires
        call_ensures(validate_client, (&clients, &client, started_at), result),
        client.socket@.len() > 0,
    ensures
        result ==> exists|j: int|
            0 <= j < clients@.len() && on_route(#[trigger] clients@[j], client),
        client.exact && 0 <= i < clients@.len() && on_route(clients@[i], client) ==> result,
{
    let shows = crate::navigation::system::shows_same(client);
    let current = clients@.filter(shows);
    broadcast use vstd::seq_lib::group_filter_ensures;
    assert(rivals(clients@, client) == current);
    if result {
        let k = if client.exact {
            choose|k: int| 0 <= k < current.len() && on_route(#[trigger] current[k], client)
        } else {
            choose|k: int|
                #[trigger] is_safe_choice(current, started_at, FRESHNESS_SECONDS, k) && on_route(
                    current[k],
                    client,
                )
        };
        assert(0 <= k < current.len());
        lemma_kept(clients@, shows, k);
        let j = choose|j: int| 0 <= j < clients@.len() && clients@[j] == current[k];
        assert(on_route(clients@[j], client));
    }
    if client.exact && 0 <= i < clients@.len() && on_route(clients@[i], client) {
        assert(shows(clients@[i]));
        assert(current.contains(clients@[i]));
        let k = choose|k: int| 0 <= k < current.len() && current[k] == clients@[i];
        assert(on_route(current[k], client));
    }
}

/// The session of a scope is the one it names; else the one that all its
/// clients share; else that of the client that carries the gesture.
pub proof fn lemma_scope_sessions(
    scope: Scope,
    candidates: Seq<Client>,
    selected: Option<Client>,
    session: Seq<char>,
)
    ensures
        scope.session is Some ==> scope_session(scope, candidates, selected) == Some(
            scope.session->0@,
        ),
        scope.session is None && candidates.len() > 0 && (forall|i: int|
            0 <= i < candidates.len() ==> (#[trigger] candidates[i]).session@ == session)
            ==> scope_session(scope, candidates, selected) == Some(session),
        scope.session is None && candidates.len() == 0 && selected is None ==> scope_session(
            scope,
            candidates,
            selected,
        ) is None,
        scope.session is None && candidates.len() > 1 && candidates[0].session@
            != candidates[1].session@ && selected is Some ==> scope_session(
            scope,
            candidates,
            selected,
        ) == Some(selected->0.session@),
        scope.session is None && candidates.len() > 1 && candidates[0].session@
            != candidates[1].session@ && selected is None ==> scope_session(
            scope,
            candidates,
            selected,
        ) is None,
{
    if candidates.len() > 0 {
        assert(candidates[0].session@ == candidates[0].session@);
    }
}

/// A server is named by what precedes the last two commas of its variable,
/// whatever its path holds; a pane by a percent sign and a number.
pub proof fn lemma_tmux_variables(
    socket: Seq<char>,
    pid: Seq<char>,
    session: Seq<char>,
    pane: Seq<char>,
)
    requires
        socket.len() > 0,
        !pid.contains(',') && !session.contains(','),
    ensures
        tmux_socket(socket + seq![','] + pid + seq![','] + session) == Some(socket),
        tmux_identity(socket + seq![','] + pid + seq![','] + session, pane) == if pane_id(pane) {
            Some((socket, pane))
        } else {
            None
        },
        tmux_socket(pid) is None,
        tmux_socket(pid + seq![','] + session) is None,
{
    let head = socket + seq![','] + pid;
    let value = head + seq![','] + session;
    lemma_last_place_at(head, ',', session);
    lemma_last_place_at(socket, ',', pid);
    assert(value.take(head.len() as int) =~= head);
    assert(value.take(socket.len() as int) =~= socket);
    crate::laws::text::lemma_last_place(pid, ',');
    let short = pid + seq![','] + session;
    lemma_last_place_at(pid, ',', session);
    assert(short.take(pid.len() as int) =~= pid);
    if last_char(pid, ',') >= 0 {
        assert(pid.contains(pid[last_char(pid, ',')]));
    }
    assert(pid.take(-1).len() >= 0);
}

/// The caller's scope is the pane that both variables name, with no session.
pub proof fn lemma_callers_scope(tmux: Option<&str>, pane: Option<&str>, scope: Option<Scope>)
    requires
        call_ensures(current_scope, (tmux, pane), scope),
    ensures
        scope is Some <==> tmux is Some && pane is Some && tmux_socket(tmux->0@) is Some && pane_id(
            pane->0@,
        ),
        scope is Some ==> Some(scope->0.socket@) == tmux_socket(tmux->0@) && scope->0.pane@
            == pane->0@ && scope->0.session is None,
{
}

/// A session with one window declines to move it; with more, the window that
/// was named moves; any other answer is an error.
pub proof fn lemma_window_answers(
    count: nat,
    window: Seq<char>,
    output: TmuxOutput,
    moved: Result<String, Outcome>,
)
    requires
        call_ensures(window_to_move, (&Some(output),), moved),
        window.len() > 0 && !window.contains('|') && !white_space(window.last()),
        count <= usize::MAX,
        utf8_lossy(output.stdout@) == decimal(count) + seq!['|'] + window + seq!['\n'],
    ensures
        !output.success ==> moved == Err::<String, Outcome>(Outcome::Error),
        output.success && count <= 1 ==> moved == Err::<String, Outcome>(Outcome::Declined),
        output.success && count > 1 ==> moved is Ok && moved->Ok_0@ == window,
{
    let text = decimal(count) + seq!['|'] + window;
    lemma_decimal_plain(count);
    lemma_no_bar(count);
    lemma_trimmed_between(Seq::empty(), text, seq!['\n']);
    assert(Seq::<char>::empty() + text + seq!['\n'] =~= text + seq!['\n']);
    lemma_split_first(decimal(count), '|', window);
    lemma_split_first(window, '|', Seq::empty());
    assert(split(text, '|') =~= seq![decimal(count), window]);
    lemma_number_bound(count, usize::MAX as nat);
}

proof fn lemma_first_position(values: Seq<Seq<char>>, wanted: Seq<char>, i: int, k: int)
    requires
        0 <= i <= k < values.len(),
        values[k] == wanted,
        forall|j: int| i <= j < k ==> #[trigger] values[j] != wanted,
    ensures
        position_of(values, wanted, i) == Some(k),
    decreases k - i,
{
    if i < k {
        lemma_first_position(values, wanted, i + 1, k);
    }
}

proof fn lemma_no_position(values: Seq<Seq<char>>, wanted: Seq<char>, i: int)
    requires
        0 <= i <= values.len(),
        !values.contains(wanted),
    ensures
        position_of(values, wanted, i) is None,
    decreases values.len() - i,
{
    if i < values.len() {
        assert(values.contains(values[i]));
        lemma_no_position(values, wanted, i + 1);
    }
}

/// A tab moves to the left by changing places with the window before it in the
/// session, and to the right with the one behind it. At the end of the row
/// there is nothing left to do. A window that is not listed, and a failed
/// listing, are errors.
pub proof fn lemma_window_partners(
    output: TmuxOutput,
    windows: Seq<Seq<char>>,
    i: int,
    window: &str,
    direction: Direction,
    partner: Result<String, Outcome>,
)
    requires
        call_ensures(window_partner, (&Some(output), window, direction), partner),
        windows == lines(utf8_lossy(output.stdout@)),
        windows.no_duplicates(),
    ensures
        !output.success || !windows.contains(window@) ==> partner == Err::<String, Outcome>(
            Outcome::Error,
        ),
        output.success && 0 <= i < windows.len() && windows[i] == window@ ==> {
            &&& direction is Left && i > 0 ==> partner is Ok && partner->Ok_0@ == windows[i - 1]
            &&& direction is Right && i < windows.len() - 1 ==> partner is Ok && partner->Ok_0@
                == windows[i + 1]
            &&& direction is Left && i == 0 ==> partner == Err::<String, Outcome>(Outcome::Handled)
            &&& direction is Right && i == windows.len() - 1 ==> partner == Err::<String, Outcome>(
                Outcome::Handled,
            )
        },
{
    if 0 <= i < windows.len() && windows[i] == window@ {
        lemma_first_position(windows, window@, 0, i);
    }
    if !windows.contains(window@) {
        lemma_no_position(windows, window@, 0);
    }
}

/// The questions that are put to tmux about windows and panes.
pub proof fn lemma_window_questions(
    scope: Scope,
    session: &str,
    target: &str,
    a: Vec<String>,
    b: Vec<String>,
    c: Vec<String>,
    d: Vec<String>,
)
    requires
        call_ensures(window_query_arguments, (&scope,), a),
        call_ensures(window_list_arguments, (session,), b),
        call_ensures(window_of_pane_arguments, (&scope,), c),
        call_ensures(active_pane_arguments, (target,), d),
    ensures
        strings(a@) == seq![
            "display-message"@,
            "-p"@,
            "-t"@,
            scope.address(),
            "#{session_windows}|#{window_id}"@,
        ],
        strings(b@) == seq!["list-windows"@, "-t"@, session@, "-F"@, "#{window_id}"@],
        strings(c@) == seq!["display-message"@, "-p"@, "-t"@, scope.pane@, "#{window_id}"@],
        strings(d@) == seq!["display-message"@, "-p"@, "-t"@, target@, "#{pane_id}"@],
{
    reveal_strlit("session_windows");
    reveal_strlit("window_id");
    reveal_strlit("#{");
    reveal_strlit("}");
    reveal_strlit("|");
    reveal_strlit("#{session_windows}|#{window_id}");
    let fields = seq!["session_windows"@, "window_id"@];
    let parts = Seq::new(fields.len(), |i: int| "#{"@ + fields[i] + "}"@);
    reveal_with_fuel(joined, 3);
    assert(parts.drop_last() =~= parts.take(1));
    assert(joined(parts.take(1), "|"@) =~= "#{"@ + fields[0] + "}"@);
    assert(field_format(fields) =~= "#{session_windows}|#{window_id}"@);
}

/// An answer is taken where the command succeeded and printed text: a window by
/// its leading sign, a pane by its whole form; a scope that follows its active
/// pane keeps its server and session.
pub proof fn lemma_tmux_answers(
    output: Option<TmuxOutput>,
    text: Seq<char>,
    scope: Scope,
    window: Option<String>,
    refreshed: Option<Scope>,
)
    requires
        call_ensures(window_answer, (&output,), window),
        call_ensures(refreshed_scope, (&scope, &output), refreshed),
    ensures
        output is None || !output->0.success || !valid_utf8(output->0.stdout@) ==> window is None
            && refreshed is None,
        output is Some && output->0.success && output->0.stdout@ == encode_utf8(
            text + seq!['\n'],
        ) && text.len() > 0 && !white_space(text[0]) && !white_space(text.last()) ==> {
            &&& window is Some <==> text[0] == '@'
            &&& window is Some ==> window->0@ == text
            &&& refreshed is Some <==> pane_id(text)
            &&& refreshed is Some ==> refreshed->0.pane@ == text && refreshed->0.socket@
                == scope.socket@ && refreshed->0.session == scope.session
        },
{
    encode_utf8_valid_utf8(text + seq!['\n']);
    encode_utf8_decode_utf8(text + seq!['\n']);
    if text.len() > 0 && !white_space(text[0]) && !white_space(text.last()) {
        lemma_trimmed_between(Seq::empty(), text, seq!['\n']);
        assert(Seq::<char>::empty() + text + seq!['\n'] =~= text + seq!['\n']);
        reveal_strlit("@");
        assert("@"@ =~= seq!['@']);
        if text[0] == '@' {
            assert("@"@ =~= text.subrange(0, 1));
        }
        if "@"@.is_prefix_of(text) {
            assert("@"@[0] == text[0]);
        }
    }
}

/// Each ancestor is looked at once, and never the first process; a climb ends
/// with the first process that names a whole pane.
pub proof fn lemma_climb(state: ClimbState, facts: ProcessFacts, pid: u32)
    ensures
        worth_a_look(state.visited, None) is None,
        worth_a_look(state.visited, Some(pid)) == if pid <= 1 || state.visited.contains(pid) {
            None
        } else {
            Some(pid)
        },
        state.looking == Some(pid) ==> climbed(state, facts).visited == state.visited.push(pid),
        state.looking is Some && tmux_identity(facts.tmux, facts.pane) is Some ==> climbed(
            state,
            facts,
        ).found == tmux_identity(facts.tmux, facts.pane) && climbed(state, facts).looking is None,
        state.looking matches Some(here) ==> tmux_identity(facts.tmux, facts.pane) is None
            ==> climbed(state, facts).found is None && climbed(state, facts).looking
            == worth_a_look(state.visited.push(here), facts.parent),
{
}

/// A delivery is handled where it succeeded and an error where it failed.
pub proof fn lemma_deliveries(success: bool, result: Outcome)
    requires
        call_ensures(delivered, (success,), result),
    ensures
        result is Handled <==> success,
        result is Error <==> !success,
{
}

/// The request to the editor names the direction and the token.
pub proof fn lemma_tab_request(direction: Direction, token: &str, body: String)
    requires
        call_ensures(switch_tab_request, (direction, token), body),
    ensures
        body@ == json_object(
            seq![
                (
                    "direction"@,
                    MemberValue::Text(
                        match direction {
                            Direction::Left => "left"@,
                            Direction::Down => "down"@,
                            Direction::Up => "up"@,
                            Direction::Right => "right"@,
                            Direction::Next => "next"@,
                            Direction::Previous => "previous"@,
                        },
                    ),
                ),
                ("token"@, MemberValue::Text(token@)),
            ],
        ),
{
}

/// An address stays on this host where its host is `localhost`, the loopback
/// address of either kind, and its port is a number that a port can have.
pub proof fn lemma_loopback_addresses(
    host: Seq<char>,
    port: nat,
    a: nat,
    b: nat,
    c: nat,
    address: &str,
    result: bool,
)
    requires
        call_ensures(is_loopback_address, (address,), result),
        address@ == host + seq![':'] + decimal(port),
    ensures
        port > 65535 ==> !result,
        port <= 65535 && (host == "localhost"@ || host == "[::1]"@) ==> result,
        port <= 65535 && host == "127"@ + seq!['.'] + (decimal(a) + seq!['.'] + (decimal(b)
            + seq!['.'] + decimal(c))) ==> (result <==> a <= 255 && b <= 255 && c <= 255),
{
    lemma_no_sign(port, ':');
    lemma_last_place_at(host, ':', decimal(port));
    assert(address@.take(host.len() as int) =~= host);
    assert(address@.skip(host.len() as int + 1) =~= decimal(port));
    lemma_number_bound(port, 65535);
    let net = "127"@;
    let tail = decimal(b) + seq!['.'] + decimal(c);
    let rest = decimal(a) + seq!['.'] + tail;
    if port <= 65535 && host == net + seq!['.'] + rest {
        reveal_strlit("127");
        reveal_strlit("localhost");
        reveal_strlit("[::1]");
        assert(net[0] == '1' && net.len() == 3 && net[1] == '2' && net[2] == '7');
        assert("localhost"@[0] == 'l' && "[::1]"@[0] == '[');
        assert(host[0] == '1');
        assert(!net.contains('.'));
        lemma_no_sign(a, '.');
        lemma_no_sign(b, '.');
        lemma_no_sign(c, '.');
        lemma_split_first(net, '.', rest);
        lemma_split_first(decimal(a), '.', tail);
        lemma_split_first(decimal(b), '.', decimal(c));
        lemma_split_first(decimal(c), '.', Seq::empty());
        let parts = split(host, '.');
        assert(parts =~= seq![net, decimal(a), decimal(b), decimal(c)]);
        lemma_octet(a);
        lemma_octet(b);
        lemma_octet(c);
        lemma_octet(127);
        reveal_with_fuel(decimal, 4);
        assert(decimal(127) =~= net);
        assert(parts[0] == net && parts[1] == decimal(a) && parts[2] == decimal(b) && parts[3]
            == decimal(c));
    }
}

proof fn lemma_octet(n: nat)
    ensures
        octet(decimal(n)) <==> n <= 255,
{
    lemma_number_bound(n, 255);
}

proof fn lemma_no_sign(n: nat, c: char)
    requires
        c == ':' || c == '.',
    ensures
        !decimal(n).contains(c),
{
    lemma_decimal_plain(n);
    if decimal(n).contains(c) {
        let i = choose|i: int| 0 <= i < decimal(n).len() && decimal(n)[i] == c;
        assert('0' <= decimal(n)[i] <= '9');
    }
}

/// The devserver is asked only with a token in an absolute file and only on
/// this host; where nothing is said, the defaults hold, and each direction has
/// its own command.
pub proof fn lemma_devserver_settings(
    environment: McpEnvironment,
    direction: Direction,
    result: Option<McpSettings>,
)
    requires
        call_ensures(settings, (&environment, direction), result),
    ensures
        result is Some <==> environment.token_file@.len() > 0 && environment.token_file@[0] == '/'
            && loopback_address(
            if environment.address@.len() > 0 {
                environment.address@
            } else {
                "127.0.0.1:9876"@
            },
        ),
        result matches Some(settings) ==> {
            &&& settings.token_file@ == environment.token_file@
            &&& environment.address@.len() > 0 ==> settings.address@ == environment.address@
            &&& environment.address@.len() == 0 ==> settings.address@ == "127.0.0.1:9876"@
            &&& environment.path@.len() > 0 ==> settings.path@ == environment.path@
            &&& environment.path@.len() == 0 ==> settings.path@ == "/mcp"@
            &&& environment.method@.len() > 0 ==> settings.method@ == environment.method@
            &&& environment.method@.len() == 0 ==> settings.method@ == "tools/call"@
            &&& environment.tool@.len() > 0 ==> settings.tool@ == environment.tool@
            &&& environment.tool@.len() == 0 ==> settings.tool@ == "execute_command"@
            &&& direction is Previous && environment.previous_command@.len() > 0
                ==> settings.command@ == environment.previous_command@
            &&& direction is Previous && environment.previous_command@.len() == 0
                ==> settings.command@ == "workbench.action.terminal.focusPrevious"@
            &&& direction is Next && environment.next_command@.len() > 0 ==> settings.command@
                == environment.next_command@
            &&& direction is Next && environment.next_command@.len() == 0 ==> settings.command@
                == "workbench.action.terminal.focusNext"@
        },
{
    reveal_strlit("/");
    assert("/"@ =~= seq!['/']);
    let file = environment.token_file@;
    if file.len() > 0 && file[0] == '/' {
        assert("/"@ =~= file.subrange(0, 1));
    }
    if "/"@.is_prefix_of(file) {
        assert("/"@[0] == file[0]);
    }
}

/// The token is the text of its file without line ends; an empty one is none.
pub proof fn lemma_devserver_token(
    text: Seq<char>,
    ends: Seq<char>,
    content: &str,
    token: Option<String>,
)
    requires
        call_ensures(token_of, (content,), token),
        content@ == text + ends,
        forall|i: int| 0 <= i < ends.len() ==> #[trigger] ends[i] == '\n',
        text.len() > 0 ==> text.last() != '\n',
    ensures
        opt_text(token) == if text.len() > 0 {
            Some(text)
        } else {
            None
        },
{
    let class = any_of(seq!['\n']);
    assert(seq!['\n'][0] == '\n');
    assert forall|c: char| #[trigger] class(c) <==> c == '\n' by {
        assert(seq!['\n'].contains(c) <==> c == '\n');
    }
    lemma_line_ends(text, ends, class);
}

proof fn lemma_line_ends(s: Seq<char>, ends: Seq<char>, class: spec_fn(char) -> bool)
    requires
        forall|i: int| 0 <= i < ends.len() ==> class(#[trigger] ends[i]),
        s.len() > 0 ==> !class(s.last()),
    ensures
        trim_end_where(s + ends, class) == s,
    decreases ends.len(),
{
    let whole = s + ends;
    if ends.len() == 0 {
        assert(whole =~= s);
    } else {
        assert(whole.last() == ends.last());
        assert(whole.drop_last() =~= s + ends.drop_last());
        lemma_line_ends(s, ends.drop_last(), class);
    }
}

/// A call names the method, the tool and the command, each as JSON text.
pub proof fn lemma_devserver_call(settings: McpSettings, body: String)
    requires
        call_ensures(call_request, (&settings,), body),
    ensures
        body@ == "{\"id\":1,\"jsonrpc\":\"2.0\",\"method\":"@ + json_string(settings.method@)
            + ",\"params\":{\"arguments\":{\"command\":"@ + json_string(settings.command@)
            + "},\"name\":"@ + json_string(settings.tool@) + "}}"@,
{
}

/// A call is tried again once, after the protocol was opened, and only where
/// the server answered it with an error.
pub proof fn lemma_devserver_exchange(response: Option<JsonValue>)
    ensures
        accepted(response) <==> response is Some && member(response->0, "error"@) is None,
        accepted(response) ==> after(Exchange::Call, response) == (Exchange::Done {
            handled: true,
        }),
        response is None ==> after(Exchange::Call, response) == (Exchange::Done { handled: false }),
        response is Some && !accepted(response) ==> after(Exchange::Call, response)
            is Initialize,
        accepted(response) ==> after(Exchange::Initialize, response) is Retry,
        !accepted(response) ==> after(Exchange::Initialize, response) == (Exchange::Done {
            handled: false,
        }),
        after(Exchange::Retry, response) == (Exchange::Done { handled: accepted(response) }),
        after(Exchange::Done { handled: true }, response) == (Exchange::Done { handled: true }),
        after(Exchange::Done { handled: false }, response) == (Exchange::Done { handled: false }),
{
}

/// A request posts its body to the path, says how many bytes the body has, and
/// carries each header on a line of its own before the empty line.
pub proof fn lemma_requests_post(
    path: Seq<char>,
    body: Seq<char>,
    headers: Seq<(Seq<char>, Seq<char>)>,
    name: Seq<char>,
    value: Seq<char>,
)
    ensures
        post_request(path, body, Seq::empty()) == "POST "@ + path
            + " HTTP/1.1\r\nHost: localhost\r\nContent-Type: application/json\r\nContent-Length: "@
            + decimal(encode_utf8(body).len()) + "\r\nConnection: close\r\n"@ + "\r\n"@ + body,
        header_lines(headers.push((name, value))) == header_lines(headers) + name + ": "@ + value
            + "\r\n"@,
        MAX_RESPONSE_BYTES == 1048576,
{
    assert(headers.push((name, value)).drop_last() =~= headers);
    let start = "POST "@ + path
        + " HTTP/1.1\r\nHost: localhost\r\nContent-Type: application/json\r\nContent-Length: "@
        + decimal(encode_utf8(body).len()) + "\r\nConnection: close\r\n"@;
    assert(start + Seq::<char>::empty() =~= start);
}

/// A response is a success where its first line says so with a status of two
/// hundred and some.
pub proof fn lemma_responses(
    status: Seq<char>,
    rest: Seq<char>,
    response: &str,
    result: bool,
)
    requires
        call_ensures(http_success, (response,), result),
        response@ == "HTTP/1.1 "@ + status + seq!['\r', '\n'] + rest,
        status.len() > 0 && !status.contains('\n') && status.last() != '\r',
    ensures
        result <==> status[0] == '2',
{
    reveal_strlit("HTTP/1.1 ");
    reveal_strlit("HTTP/1.1 2");
    let line = "HTTP/1.1 "@ + status;
    if line.contains('\n') {
        let i = choose|i: int| 0 <= i < line.len() && line[i] == '\n';
        if i >= 9 {
            assert(status[i - 9] == '\n');
        }
    }
    lemma_lines_first(line, rest);
    assert(line[9] == status[0]);
    assert("HTTP/1.1 2"@.len() == 10 && "HTTP/1.1 2"@[9] == '2');
    if status[0] == '2' {
        assert("HTTP/1.1 2"@ =~= line.subrange(0, 10));
    }
}

} // verus!
