//! What the production backend asks of tmux, and what it makes of the answers.
//!
//! Every function here turns plain values into an argument vector for tmux or
//! an answer of tmux into a decision; running the commands is left to the
//! caller.

use vstd::prelude::*;
use vstd::string::*;

use crate::navigation::{
    choose_client, is_choice, is_safe_choice, Action, Client, Direction, Outcome, Scope,
};
use crate::shell::{command_line, join};
use crate::text::{
    chars_of, find_position, from_utf8_lossy, joined, last_char, lines, lines_of, owned,
    parse_number, parsed, position_of, rfind_char, same, split, split_char, strings, texts, trim,
    trimmed, utf8_lossy,
};

verus! {

/// What a tmux command printed when its condition says that another scope
/// should try.
pub const DECLINED_MARKER: &'static str = "__TERMNAV_DECLINED__";

/// What a tmux command printed when its condition says that routing is unsafe.
pub const ERROR_MARKER: &'static str = "__TERMNAV_ERROR__";

/// What a finished tmux command left behind.
#[derive(Debug)]
pub struct TmuxOutput {
    /// Whether it exited with success.
    pub success: bool,
    /// What it printed.
    pub stdout: Vec<u8>,
}

/// The outcome that a tmux command reports: by its marker, else by its exit.
pub open spec fn reported(output: Option<TmuxOutput>) -> Outcome {
    match output {
        None => Outcome::Error,
        Some(output) => {
            let text = trimmed(utf8_lossy(output.stdout@));
            if text == DECLINED_MARKER@ {
                Outcome::Declined
            } else if text == ERROR_MARKER@ || !output.success {
                Outcome::Error
            } else {
                Outcome::Handled
            }
        },
    }
}

/// The outcome that a tmux command reports.
pub fn outcome(output: &Option<TmuxOutput>) -> (result: Outcome)
    ensures
        result == reported(*output),
{
    match output {
        None => Outcome::Error,
        Some(output) => {
            let text = from_utf8_lossy(output.stdout.as_slice());
            let text = trim(text.as_str());
            if same(text, DECLINED_MARKER) {
                Outcome::Declined
            } else if same(text, ERROR_MARKER) {
                Outcome::Error
            } else if output.success {
                Outcome::Handled
            } else {
                Outcome::Error
            }
        },
    }
}

/// A pane identifier: a percent sign and decimal digits.
pub open spec fn is_pane(value: Seq<char>) -> bool {
    &&& value.len() > 1
    &&& value[0] == '%'
    &&& forall|i: int| 1 <= i < value.len() ==> '0' <= #[trigger] value[i] <= '9'
}

/// Whether a text is a pane identifier.
pub fn valid_pane(value: &str) -> (result: bool)
    ensures
        result == is_pane(value@),
{
    let chars = chars_of(value);
    if chars.len() < 2 || chars[0] != '%' {
        return false;
    }
    let mut i: usize = 1;
    while i < chars.len()
        invariant
            1 <= i <= chars.len(),
            chars@ == value@,
            forall|j: int| 1 <= j < i ==> '0' <= #[trigger] chars@[j] <= '9',
        decreases chars.len() - i,
    {
        if !('0' <= chars[i] && chars[i] <= '9') {
            return false;
        }
        i = i + 1;
    }
    true
}

/// A tmux format that prints the fields with a bar between them.
pub open spec fn field_format(fields: Seq<Seq<char>>) -> Seq<char> {
    joined(Seq::new(fields.len(), |i: int| "#{"@ + fields[i] + "}"@), "|"@)
}

/// A tmux format that prints the fields with a bar between them.
pub fn tmux_format(fields: &[&str]) -> (format: String)
    ensures
        format@ == field_format(texts(fields@)),
{
    let mut parts: Vec<String> = Vec::new();
    let mut i: usize = 0;
    while i < fields.len()
        invariant
            i <= fields.len(),
            parts@.len() == i,
            forall|j: int| 0 <= j < i ==> (#[trigger] parts@[j])@ == "#{"@ + fields@[j]@ + "}"@,
        decreases fields.len() - i,
    {
        let mut part = String::from_str("#{");
        part.append(fields[i]);
        part.append("}");
        parts.push(part);
        i = i + 1;
    }
    assert(strings(parts@) =~= Seq::new(
        texts(fields@).len(),
        |i: int| "#{"@ + texts(fields@)[i] + "}"@,
    ));
    crate::text::join(parts.as_slice(), "|")
}

/// What a [`Client`] says, its texts taken by their characters.
#[verifier::ext_equal]
pub struct ClientFields {
    pub activity: u64,
    pub pid: u32,
    pub tty: Seq<char>,
    pub termtype: Seq<char>,
    pub session: Seq<char>,
    pub pane: Seq<char>,
    pub focused: bool,
    pub control: bool,
    pub socket: Seq<char>,
    pub exact: bool,
    pub created: u64,
}

impl View for Client {
    type V = ClientFields;

    open spec fn view(&self) -> ClientFields {
        ClientFields {
            activity: self.activity,
            pid: self.pid,
            tty: self.tty@,
            termtype: self.termtype@,
            session: self.session@,
            pane: self.pane@,
            focused: self.focused,
            control: self.control,
            socket: self.socket@,
            exact: self.exact,
            created: self.created,
        }
    }
}

/// What clients say.
pub open spec fn client_fields(clients: Seq<Client>) -> Seq<ClientFields> {
    Seq::new(clients.len(), |i: int| clients[i]@)
}

/// The client that a row of nine fields describes.
pub open spec fn client_row(socket: Seq<char>, row: Seq<char>) -> Option<ClientFields> {
    let fields = split(row, '|');
    if fields.len() == 9 && is_pane(fields[5]) && fields[2].len() > 0 && fields[4].len() > 0
        && parsed(fields[0], u64::MAX as nat) is Some && parsed(fields[1], u32::MAX as nat) is Some
        && parsed(fields[8], u64::MAX as nat) is Some {
        Some(
            ClientFields {
                activity: parsed(fields[0], u64::MAX as nat)->0 as u64,
                pid: parsed(fields[1], u32::MAX as nat)->0 as u32,
                tty: fields[2],
                termtype: fields[3],
                session: fields[4],
                pane: fields[5],
                focused: split(fields[6], ',').contains("focused"@),
                control: fields[7] == "1"@,
                socket,
                exact: false,
                created: parsed(fields[8], u64::MAX as nat)->0 as u64,
            },
        )
    } else {
        None
    }
}

/// The clients that rows describe, in order, without the malformed rows.
pub open spec fn client_rows(socket: Seq<char>, rows: Seq<Seq<char>>) -> Seq<ClientFields>
    decreases rows.len(),
{
    if rows.len() == 0 {
        Seq::empty()
    } else {
        let before = client_rows(socket, rows.drop_last());
        match client_row(socket, rows.last()) {
            Some(client) => before.push(client),
            None => before,
        }
    }
}

/// Whether one of the texts equals `wanted`.
pub fn contains_text(values: &Vec<&str>, wanted: &str) -> (found: bool)
    ensures
        found == texts(values@).contains(wanted@),
{
    let mut i: usize = 0;
    while i < values.len()
        invariant
            i <= values.len(),
            forall|j: int| 0 <= j < i ==> #[trigger] texts(values@)[j] != wanted@,
        decreases values.len() - i,
    {
        assert(texts(values@)[i as int] == values@[i as int]@);
        if same(values[i], wanted) {
            return true;
        }
        i = i + 1;
    }
    false
}

fn parse_client(socket: &str, row: &str) -> (client: Option<Client>)
    ensures
        match client {
            Some(client) => client_row(socket@, row@) == Some(client@),
            None => client_row(socket@, row@) is None,
        },
{
    let fields = split_char(row, '|');
    let ghost parts = split(row@, '|');
    assert(fields@.len() == texts(fields@).len());
    if fields.len() != 9 {
        return None;
    }
    assert forall|i: int| 0 <= i < 9 implies #[trigger] fields@[i]@ == parts[i] by {
        assert(texts(fields@)[i] == parts[i]);
    }
    if !valid_pane(fields[5]) || fields[2].is_empty() || fields[4].is_empty() {
        return None;
    }
    let activity: u64 = match parse_number(fields[0], u64::MAX) {
        Some(activity) => activity,
        None => {
            return None;
        },
    };
    let pid: u32 = match parse_number(fields[1], u32::MAX as u64) {
        Some(pid) => pid as u32,
        None => {
            return None;
        },
    };
    let created: u64 = match parse_number(fields[8], u64::MAX) {
        Some(created) => created,
        None => {
            return None;
        },
    };
    let flags = split_char(fields[6], ',');
    let client = Client {
        activity,
        pid,
        tty: String::from_str(fields[2]),
        termtype: String::from_str(fields[3]),
        session: String::from_str(fields[4]),
        pane: String::from_str(fields[5]),
        focused: contains_text(&flags, "focused"),
        control: same(fields[7], "1"),
        socket: String::from_str(socket),
        exact: false,
        created,
    };
    Some(client)
}

/// Parse tmux's constrained machine-readable client format.
#[must_use]
pub fn parse_clients(socket: &str, output: &str) -> (clients: Vec<Client>)
    ensures
        client_fields(clients@) == client_rows(socket@, lines(output@)),
{
    let rows = lines_of(output);
    let ghost all = lines(output@);
    let mut clients: Vec<Client> = Vec::new();
    let mut i: usize = 0;
    assert(client_fields(clients@) =~= client_rows(socket@, all.take(0)));
    while i < rows.len()
        invariant
            i <= rows.len(),
            texts(rows@) == all,
            client_fields(clients@) == client_rows(socket@, all.take(i as int)),
        decreases rows.len() - i,
    {
        let ghost before = clients@;
        assert(all.take(i + 1).drop_last() =~= all.take(i as int));
        assert(all.take(i + 1).last() == texts(rows@)[i as int]);
        if let Some(client) = parse_client(socket, rows[i]) {
            clients.push(client);
            assert(client_fields(clients@) =~= client_fields(before).push(client@));
        }
        i = i + 1;
    }
    assert(all.take(i as int) =~= all);
    clients
}

/// The arguments that list the clients of a server.
pub open spec fn client_query() -> Seq<Seq<char>> {
    seq![
        "list-clients"@,
        "-F"@,
        field_format(
            seq![
                "client_activity"@,
                "client_pid"@,
                "client_tty"@,
                "client_termtype"@,
                "session_id"@,
                "pane_id"@,
                "client_flags"@,
                "client_control_mode"@,
                "client_created"@,
            ],
        ),
    ]
}

/// The arguments that list the clients of a server.
pub fn client_query_arguments() -> (arguments: Vec<String>)
    ensures
        strings(arguments@) == client_query(),
{
    let fields: Vec<&str> = vec![
        "client_activity",
        "client_pid",
        "client_tty",
        "client_termtype",
        "session_id",
        "pane_id",
        "client_flags",
        "client_control_mode",
        "client_created",
    ];
    assert(texts(fields@) =~= seq![
        "client_activity"@,
        "client_pid"@,
        "client_tty"@,
        "client_termtype"@,
        "session_id"@,
        "pane_id"@,
        "client_flags"@,
        "client_control_mode"@,
        "client_created"@,
    ]);
    let format = tmux_format(fields.as_slice());
    let arguments = owned(&vec!["list-clients", "-F", format.as_str()]);
    assert(strings(arguments@) =~= client_query());
    arguments
}

/// The clients that keep interactive ownership.
pub open spec fn interactive(clients: Seq<ClientFields>) -> Seq<ClientFields> {
    clients.filter(|client: ClientFields| !client.control)
}

/// The interactive clients that a listing shows; none where it failed.
pub open spec fn listed(socket: Seq<char>, output: Option<TmuxOutput>) -> Seq<ClientFields> {
    match output {
        Some(output) if output.success => interactive(
            client_rows(socket, lines(utf8_lossy(output.stdout@))),
        ),
        _ => Seq::empty(),
    }
}

/// The interactive clients that a listing shows.
pub fn all_clients(socket: &str, output: &Option<TmuxOutput>) -> (clients: Vec<Client>)
    ensures
        client_fields(clients@) == listed(socket@, *output),
{
    let mut kept: Vec<Client> = Vec::new();
    match output {
        Some(output) => {
            if output.success {
                let text = from_utf8_lossy(output.stdout.as_slice());
                let parsed_clients = parse_clients(socket, text.as_str());
                let ghost all = client_fields(parsed_clients@);
                let ghost shown = |client: ClientFields| !client.control;
                let mut i: usize = 0;
                assert(all.take(0).filter(shown) =~= Seq::empty());
                while i < parsed_clients.len()
                    invariant
                        i <= parsed_clients.len(),
                        all == client_fields(parsed_clients@),
                        shown == (|client: ClientFields| !client.control),
                        client_fields(kept@) == all.take(i as int).filter(shown),
                    decreases parsed_clients.len() - i,
                {
                    let ghost before = kept@;
                    assert(all.take(i + 1) =~= all.take(i as int).push(all[i as int]));
                    assert(all.take(i + 1).filter(shown) == if shown(all[i as int]) {
                        all.take(i as int).filter(shown).push(all[i as int])
                    } else {
                        all.take(i as int).filter(shown)
                    }) by {
                        reveal(Seq::filter);
                        assert(all.take(i + 1).drop_last() =~= all.take(i as int));
                    }
                    if !parsed_clients[i].control {
                        kept.push(parsed_clients[i].clone());
                        assert(client_fields(kept@) =~= client_fields(before).push(all[i as int]));
                    }
                    i = i + 1;
                }
                assert(all.take(i as int) =~= all);
            }
        },
        None => {},
    }
    assert(client_fields(kept@) =~= listed(socket@, *output));
    kept
}

/// How long, in seconds, activity may stand in for missing focus.
pub const FRESHNESS_SECONDS: u64 = 2;

/// Whether a client of the scope's server displays the scope.
pub open spec fn on_scope(scope: Scope) -> spec_fn(Client) -> bool {
    |client: Client|
        client.pane@ == scope.pane@ && match scope.session {
            Some(session) => client.session@ == session@,
            None => true,
        }
}

/// The clients that display a scope.
pub fn clients_on_scope(clients: &Vec<Client>, scope: &Scope) -> (kept: Vec<Client>)
    ensures
        kept@ == clients@.filter(on_scope(*scope)),
{
    let mut kept: Vec<Client> = Vec::new();
    let mut i: usize = 0;
    assert(clients@.take(0).filter(on_scope(*scope)) =~= Seq::empty());
    while i < clients.len()
        invariant
            i <= clients.len(),
            kept@ == clients@.take(i as int).filter(on_scope(*scope)),
        decreases clients.len() - i,
    {
        assert(clients@.take(i + 1).drop_last() =~= clients@.take(i as int));
        assert(clients@.take(i + 1).last() == clients@[i as int]);
        proof {
            reveal(Seq::filter);
        }
        let client = &clients[i];
        let shown = same(client.pane.as_str(), scope.pane.as_str()) && match &scope.session {
            Some(session) => same(client.session.as_str(), session.as_str()),
            None => true,
        };
        if shown {
            kept.push(client.clone());
        }
        i = i + 1;
    }
    assert(clients@.take(i as int) =~= clients@);
    kept
}

/// Select the one safe physical client displaying a scope, from the clients of
/// its server.
pub fn resolve_client(clients: &Vec<Client>, scope: &Scope, started_at: u64) -> (choice: Option<
    Client,
>)
    ensures
        is_choice(clients@.filter(on_scope(*scope)), started_at, FRESHNESS_SECONDS, choice),
{
    let candidates = clients_on_scope(clients, scope);
    choose_client(candidates.as_slice(), started_at, FRESHNESS_SECONDS)
}

/// Whether a listed client is the physical client named before: the same
/// process on the same tty, created at the same time where that is known.
pub open spec fn same_client(current: Client, expected: Client) -> bool {
    &&& current.pid == expected.pid
    &&& current.tty@ == expected.tty@
    &&& expected.created == 0 || current.created == expected.created
}

/// Whether the client at `i` is the only one that is the one named before.
pub open spec fn only_same(clients: Seq<Client>, expected: Client, i: int) -> bool {
    &&& 0 <= i < clients.len()
    &&& same_client(clients[i], expected)
    &&& forall|j: int|
        0 <= j < clients.len() && same_client(#[trigger] clients[j], expected) ==> j == i
}

/// Refresh previously retained physical provenance: the one listed client with
/// the same identity. A client without a server stays as it is.
pub fn refresh_client(clients: &Vec<Client>, client: &Client) -> (refreshed: Option<Client>)
    ensures
        client.socket@.len() == 0 ==> refreshed == Some(*client),
        client.socket@.len() > 0 ==> match refreshed {
            Some(current) => exists|i: int|
                #[trigger] only_same(clients@, *client, i) && current == clients@[i],
            None => forall|i: int| !#[trigger] only_same(clients@, *client, i),
        },
{
    if client.socket.as_str().is_empty() {
        return Some(client.clone());
    }
    let mut only: Option<usize> = None;
    let mut several = false;
    let mut i: usize = 0;
    while i < clients.len()
        invariant
            i <= clients.len(),
            match only {
                Some(k) => k < i && same_client(clients@[k as int], *client) && (several
                    || forall|j: int|
                    0 <= j < i && same_client(#[trigger] clients@[j], *client) ==> j == k),
                None => !several && forall|j: int|
                    0 <= j < i ==> !same_client(#[trigger] clients@[j], *client),
            },
            several ==> exists|j: int, k: int|
                0 <= j < k < i && same_client(#[trigger] clients@[j], *client) && same_client(
                    #[trigger] clients@[k],
                    *client,
                ),
        decreases clients.len() - i,
    {
        let current = &clients[i];
        if current.pid == client.pid && same(current.tty.as_str(), client.tty.as_str()) && (
        client.created == 0 || current.created == client.created) {
            assert(same_client(clients@[i as int], *client));
            if only.is_some() {
                several = true;
            } else {
                only = Some(i);
            }
        }
        i = i + 1;
    }
    match only {
        Some(k) => {
            if several {
                None
            } else {
                assert(only_same(clients@, *client, k as int));
                Some(clients[k].clone())
            }
        },
        None => None,
    }
}

/// The session that a scope belongs to: the one it names, else the one that
/// all its clients share, else the one of the safe client.
pub open spec fn scope_session(
    scope: Scope,
    candidates: Seq<Client>,
    selected: Option<Client>,
) -> Option<Seq<char>> {
    if scope.session is Some {
        Some(scope.session->0@)
    } else if candidates.len() > 0 && forall|i: int|
        0 <= i < candidates.len() ==> (#[trigger] candidates[i]).session@
            == candidates[0].session@ {
        Some(candidates[0].session@)
    } else {
        match selected {
            Some(client) => Some(client.session@),
            None => None,
        }
    }
}

/// Resolve session ownership and physical provenance from the clients of the
/// scope's server.
pub fn inspect_scope(clients: &Vec<Client>, scope: &Scope, started_at: u64) -> (result: (
    Option<Scope>,
    Option<Client>,
))
    ensures
        ({
            let candidates = clients@.filter(on_scope(*scope));
            &&& is_choice(candidates, started_at, FRESHNESS_SECONDS, result.1)
            &&& match (result.0, scope_session(*scope, candidates, result.1)) {
                (Some(resolved), Some(session)) => {
                    &&& resolved.socket == scope.socket
                    &&& resolved.pane == scope.pane
                    &&& resolved.session is Some && resolved.session->0@ == session
                },
                (None, None) => true,
                _ => false,
            }
        }),
{
    let candidates = clients_on_scope(clients, scope);
    let selected = choose_client(candidates.as_slice(), started_at, FRESHNESS_SECONDS);
    let session: Option<String> = match &scope.session {
        Some(session) => Some(session.clone()),
        None => {
            let mut shared = candidates.len() > 0;
            let mut i: usize = 0;
            while i < candidates.len()
                invariant
                    i <= candidates.len(),
                    candidates.len() > 0 || !shared,
                    shared ==> forall|j: int|
                        0 <= j < i ==> (#[trigger] candidates@[j]).session@
                            == candidates@[0].session@,
                    !shared && candidates.len() > 0 ==> exists|j: int|
                        0 <= j < i && (#[trigger] candidates@[j]).session@
                            != candidates@[0].session@,
                decreases candidates.len() - i,
            {
                if !same(candidates[i].session.as_str(), candidates[0].session.as_str()) {
                    shared = false;
                }
                i = i + 1;
            }
            if shared {
                Some(candidates[0].session.clone())
            } else {
                match &selected {
                    Some(client) => Some(client.session.clone()),
                    None => None,
                }
            }
        },
    };
    match session {
        Some(session) => (
            Some(
                Scope {
                    socket: scope.socket.clone(),
                    pane: scope.pane.clone(),
                    session: Some(session),
                },
            ),
            selected,
        ),
        None => (None, selected),
    }
}

/// Whether a listed client still carries the route that was recorded.
pub open spec fn on_route(current: Client, expected: Client) -> bool {
    &&& current.pid == expected.pid
    &&& current.tty@ == expected.tty@
    &&& current.pane@ == expected.pane@
    &&& current.socket@ == expected.socket@
    &&& expected.created == 0 || current.created == expected.created
    &&& expected.session@.len() == 0 || current.session@ == expected.session@
}

/// Whether a listed client still carries the route that was recorded.
pub fn same_route(current: &Client, expected: &Client) -> (result: bool)
    ensures
        result == on_route(*current, *expected),
{
    current.pid == expected.pid && same(current.tty.as_str(), expected.tty.as_str()) && same(
        current.pane.as_str(),
        expected.pane.as_str(),
    ) && same(current.socket.as_str(), expected.socket.as_str()) && (expected.created == 0
        || current.created == expected.created) && (expected.session.as_str().is_empty() || same(
        current.session.as_str(),
        expected.session.as_str(),
    ))
}

/// Whether a client displays the pane, and the session where one is named,
/// that the expected client displayed.
pub open spec fn shows_same(expected: Client) -> spec_fn(Client) -> bool {
    |client: Client|
        client.pane@ == expected.pane@ && (expected.session@.len() == 0 || client.session@
            == expected.session@)
}

/// The clients among which a recorded client is looked for: those of its
/// server that show what it showed, or itself where it names no server.
pub open spec fn rivals(clients: Seq<Client>, expected: Client) -> Seq<Client> {
    if expected.socket@.len() == 0 {
        seq![expected]
    } else {
        clients.filter(shows_same(expected))
    }
}

/// Whether a recorded client may still carry a gesture: an exact one where it
/// is still there, any other where it is still the safe choice.
pub open spec fn still_valid(clients: Seq<Client>, client: Client, started_at: u64) -> bool {
    let current = rivals(clients, client);
    if client.exact {
        exists|i: int| 0 <= i < current.len() && on_route(#[trigger] current[i], client)
    } else {
        exists|i: int|
            #[trigger] is_safe_choice(current, started_at, FRESHNESS_SECONDS, i) && on_route(
                current[i],
                client,
            )
    }
}

fn matching_clients(clients: &Vec<Client>, expected: &Client) -> (kept: Vec<Client>)
    ensures
        kept@ == rivals(clients@, *expected),
{
    let mut kept: Vec<Client> = Vec::new();
    if expected.socket.as_str().is_empty() {
        kept.push(expected.clone());
        assert(kept@ =~= seq![*expected]);
        return kept;
    }
    let mut i: usize = 0;
    assert(clients@.take(0).filter(shows_same(*expected)) =~= Seq::empty());
    while i < clients.len()
        invariant
            i <= clients.len(),
            kept@ == clients@.take(i as int).filter(shows_same(*expected)),
        decreases clients.len() - i,
    {
        assert(clients@.take(i + 1).drop_last() =~= clients@.take(i as int));
        assert(clients@.take(i + 1).last() == clients@[i as int]);
        proof {
            reveal(Seq::filter);
        }
        let client = &clients[i];
        if same(client.pane.as_str(), expected.pane.as_str()) && (
        expected.session.as_str().is_empty() || same(
            client.session.as_str(),
            expected.session.as_str(),
        )) {
            kept.push(client.clone());
        }
        i = i + 1;
    }
    assert(clients@.take(i as int) =~= clients@);
    kept
}

/// Whether a recorded client may still carry a gesture.
pub fn validate_client(clients: &Vec<Client>, client: &Client, started_at: u64) -> (result: bool)
    ensures
        result == still_valid(clients@, *client, started_at),
{
    let current = matching_clients(clients, client);
    if client.exact {
        let mut i: usize = 0;
        while i < current.len()
            invariant
                i <= current.len(),
                client.exact,
                current@ == rivals(clients@, *client),
                forall|j: int| 0 <= j < i ==> !on_route(#[trigger] current@[j], *client),
            decreases current.len() - i,
        {
            if same_route(&current[i], client) {
                assert(on_route(current@[i as int], *client));
                return true;
            }
            i = i + 1;
        }
        return false;
    }
    match choose_client(current.as_slice(), started_at, FRESHNESS_SECONDS) {
        Some(selected) => {
            proof {
                let i = choose|i: int|
                    #[trigger] is_safe_choice(current@, started_at, FRESHNESS_SECONDS, i)
                        && selected == current@[i];
                assert forall|j: int|
                    #[trigger] is_safe_choice(
                        current@,
                        started_at,
                        FRESHNESS_SECONDS,
                        j,
                    ) implies j == i by {
                    crate::navigation::lemma_safe_choice_unique(
                        current@,
                        started_at,
                        FRESHNESS_SECONDS,
                        i,
                        j,
                    );
                }
            }
            same_route(&selected, client)
        },
        None => false,
    }
}

/// The tmux command that prints a marker.
pub open spec fn print_marker(marker: Seq<char>) -> Seq<char> {
    command_line(seq!["display-message"@, "-p"@, marker])
}

fn print_command(marker: &str) -> (command: String)
    ensures
        command@ == print_marker(marker@),
{
    let words = owned(&vec!["display-message", "-p", marker]);
    assert(strings(words@) =~= seq!["display-message"@, "-p"@, marker@]);
    join(words.as_slice())
}

/// The arguments that run `command` where the condition holds of the target,
/// else `otherwise`.
pub open spec fn conditional(
    target: Seq<char>,
    condition: Seq<char>,
    command: Seq<char>,
    otherwise: Seq<char>,
) -> Seq<Seq<char>> {
    seq!["if-shell"@, "-F"@, "-t"@, target, condition, command, otherwise]
}

fn conditional_arguments(target: &str, condition: &str, command: &str, otherwise: &str) -> (
arguments: Vec<String>)
    ensures
        strings(arguments@) == conditional(target@, condition@, command@, otherwise@),
{
    let arguments = owned(
        &vec!["if-shell", "-F", "-t", target, condition, command, otherwise],
    );
    assert(strings(arguments@) =~= conditional(target@, condition@, command@, otherwise@));
    arguments
}

/// The tmux format field that tells whether a pane is at the edge a direction
/// leads over, the flag that selects the neighbour, and the neighbour itself.
pub open spec fn pane_edge(direction: Direction) -> Option<(Seq<char>, Seq<char>, Seq<char>)> {
    match direction {
        Direction::Left => Some(("pane_at_left"@, "-L"@, "{left-of}"@)),
        Direction::Down => Some(("pane_at_bottom"@, "-D"@, "{down-of}"@)),
        Direction::Up => Some(("pane_at_top"@, "-U"@, "{up-of}"@)),
        Direction::Right => Some(("pane_at_right"@, "-R"@, "{right-of}"@)),
        _ => None,
    }
}

fn edge_of(direction: Direction) -> (edge: Option<(&'static str, &'static str, &'static str)>)
    ensures
        match edge {
            Some((field, flag, neighbour)) => pane_edge(direction) == Some(
                (field@, flag@, neighbour@),
            ),
            None => pane_edge(direction) is None,
        },
{
    match direction {
        Direction::Left => Some(("pane_at_left", "-L", "{left-of}")),
        Direction::Down => Some(("pane_at_bottom", "-D", "{down-of}")),
        Direction::Up => Some(("pane_at_top", "-U", "{up-of}")),
        Direction::Right => Some(("pane_at_right", "-R", "{right-of}")),
        _ => None,
    }
}

/// A pane operation: run `command` unless the pane is at the edge, and only
/// while some client sees it as the active pane; `inactive` otherwise.
pub open spec fn pane_operation(
    scope: Scope,
    field: Seq<char>,
    command: Seq<char>,
    inactive: Seq<char>,
) -> Seq<Seq<char>> {
    conditional(
        scope.address(),
        "#{&&:#{>:#{window_active_clients},0},#{pane_active}}"@,
        command_line(
            conditional(
                scope.pane@,
                "#{!=:#{"@ + field + "},1}"@,
                command,
                print_marker(DECLINED_MARKER@),
            ),
        ),
        inactive,
    )
}

fn pane_arguments(scope: &Scope, field: &str, command: &str, inactive: &str) -> (arguments: Vec<
    String,
>)
    ensures
        strings(arguments@) == pane_operation(*scope, field@, command@, inactive@),
{
    let mut condition = String::from_str("#{!=:#{");
    condition.append(field);
    condition.append("},1}");
    let declined = print_command(DECLINED_MARKER);
    let inner = conditional_arguments(
        scope.pane.as_str(),
        condition.as_str(),
        command,
        declined.as_str(),
    );
    let inner = join(inner.as_slice());
    let target = scope.target();
    conditional_arguments(
        target.as_str(),
        "#{&&:#{>:#{window_active_clients},0},#{pane_active}}",
        inner.as_str(),
        inactive,
    )
}

/// A window operation: run `command` only while the pane is the active one of
/// the active window.
pub open spec fn window_operation(scope: Scope, command: Seq<char>) -> Seq<Seq<char>> {
    conditional(
        scope.address(),
        "#{&&:#{window_active},#{pane_active}}"@,
        command,
        print_marker(ERROR_MARKER@),
    )
}

fn window_arguments(scope: &Scope, command: &str) -> (arguments: Vec<String>)
    ensures
        strings(arguments@) == window_operation(*scope, command@),
{
    let target = scope.target();
    let error = print_command(ERROR_MARKER);
    conditional_arguments(
        target.as_str(),
        "#{&&:#{window_active},#{pane_active}}",
        command,
        error.as_str(),
    )
}

/// How an operation inside one tmux scope proceeds.
#[derive(Debug, PartialEq, Eq)]
pub enum Execution {
    /// It is decided without asking tmux.
    Decided(Outcome),
    /// One tmux command decides it, by [`outcome`].
    Tmux(Vec<String>),
    /// It reorders windows, which takes several tmux commands.
    MoveTab,
}

/// What an [`Execution`] says.
#[verifier::ext_equal]
pub enum ExecutionPlan {
    Decided(Outcome),
    Tmux(Seq<Seq<char>>),
    MoveTab,
}

impl View for Execution {
    type V = ExecutionPlan;

    open spec fn view(&self) -> ExecutionPlan {
        match self {
            Execution::Decided(outcome) => ExecutionPlan::Decided(*outcome),
            Execution::Tmux(arguments) => ExecutionPlan::Tmux(strings(arguments@)),
            Execution::MoveTab => ExecutionPlan::MoveTab,
        }
    }
}

/// The window command that a direction means.
pub open spec fn window_command(direction: Direction) -> Seq<char> {
    if direction is Previous {
        "previous-window"@
    } else {
        "next-window"@
    }
}

/// How an operation inside one tmux scope proceeds.
pub open spec fn execution(scope: Scope, action: Action, direction: Direction) -> ExecutionPlan {
    match action {
        Action::PaneSelect => match pane_edge(direction) {
            Some((field, flag, _)) => ExecutionPlan::Tmux(
                pane_operation(
                    scope,
                    field,
                    command_line(seq!["select-pane"@, "-t"@, scope.pane@, flag]),
                    print_marker(ERROR_MARKER@),
                ),
            ),
            None => ExecutionPlan::Decided(Outcome::Error),
        },
        // A pane that is no longer the active one is not moved, quietly.
        Action::PaneMove => match pane_edge(direction) {
            Some((field, _, neighbour)) => ExecutionPlan::Tmux(
                pane_operation(
                    scope,
                    field,
                    command_line(
                        seq!["swap-pane"@, "-s"@, scope.pane@, "-t"@, neighbour],
                    ),
                    print_marker(DECLINED_MARKER@),
                ),
            ),
            None => ExecutionPlan::Decided(Outcome::Error),
        },
        Action::TabSelect => match scope.session {
            Some(session) => ExecutionPlan::Tmux(
                window_operation(
                    scope,
                    command_line(
                        seq![
                            "if-shell"@,
                            "-F"@,
                            "#{>:#{session_windows},1}"@,
                            command_line(seq![window_command(direction), "-t"@, session@]),
                            print_marker(DECLINED_MARKER@),
                        ],
                    ),
                ),
            ),
            None => ExecutionPlan::Decided(Outcome::Error),
        },
        Action::TabMove => if scope.session is Some {
            ExecutionPlan::MoveTab
        } else {
            ExecutionPlan::Decided(Outcome::Error)
        },
    }
}

/// Plan an operation inside one tmux scope.
pub fn execute(scope: &Scope, action: Action, direction: Direction) -> (plan: Execution)
    ensures
        plan@ == execution(*scope, action, direction),
{
    match action {
        Action::PaneSelect => match edge_of(direction) {
            Some((field, flag, _)) => {
                let words = owned(&vec!["select-pane", "-t", scope.pane.as_str(), flag]);
                assert(strings(words@) =~= seq!["select-pane"@, "-t"@, scope.pane@, flag@]);
                let command = join(words.as_slice());
                let error = print_command(ERROR_MARKER);
                Execution::Tmux(pane_arguments(scope, field, command.as_str(), error.as_str()))
            },
            None => Execution::Decided(Outcome::Error),
        },
        Action::PaneMove => match edge_of(direction) {
            Some((field, _, neighbour)) => {
                let words = owned(
                    &vec!["swap-pane", "-s", scope.pane.as_str(), "-t", neighbour],
                );
                assert(strings(words@) =~= seq![
                    "swap-pane"@,
                    "-s"@,
                    scope.pane@,
                    "-t"@,
                    neighbour@,
                ]);
                let command = join(words.as_slice());
                let declined = print_command(DECLINED_MARKER);
                Execution::Tmux(pane_arguments(scope, field, command.as_str(), declined.as_str()))
            },
            None => Execution::Decided(Outcome::Error),
        },
        Action::TabSelect => match &scope.session {
            Some(session) => {
                let name = if matches!(direction, Direction::Previous) {
                    "previous-window"
                } else {
                    "next-window"
                };
                let words = owned(&vec![name, "-t", session.as_str()]);
                assert(strings(words@) =~= seq![window_command(direction), "-t"@, session@]);
                let switch = join(words.as_slice());
                let declined = print_command(DECLINED_MARKER);
                let words = owned(
                    &vec![
                        "if-shell",
                        "-F",
                        "#{>:#{session_windows},1}",
                        switch.as_str(),
                        declined.as_str(),
                    ],
                );
                assert(strings(words@) =~= seq![
                    "if-shell"@,
                    "-F"@,
                    "#{>:#{session_windows},1}"@,
                    switch@,
                    declined@,
                ]);
                let command = join(words.as_slice());
                Execution::Tmux(window_arguments(scope, command.as_str()))
            },
            None => Execution::Decided(Outcome::Error),
        },
        Action::TabMove => {
            if scope.session.is_some() {
                Execution::MoveTab
            } else {
                // Tab operations are session-relative. A pane alone is ambiguous
                // when its window is linked into multiple sessions.
                Execution::Decided(Outcome::Error)
            }
        },
    }
}

/// The arguments that ask for the window that a scope is in and how many
/// windows its session has.
pub open spec fn window_query(scope: Scope) -> Seq<Seq<char>> {
    seq![
        "display-message"@,
        "-p"@,
        "-t"@,
        scope.address(),
        field_format(seq!["session_windows"@, "window_id"@]),
    ]
}

/// The arguments that ask for the window that a scope is in.
pub fn window_query_arguments(scope: &Scope) -> (arguments: Vec<String>)
    ensures
        strings(arguments@) == window_query(*scope),
{
    let fields: Vec<&str> = vec!["session_windows", "window_id"];
    assert(texts(fields@) =~= seq!["session_windows"@, "window_id"@]);
    let format = tmux_format(fields.as_slice());
    let target = scope.target();
    let arguments = owned(
        &vec!["display-message", "-p", "-t", target.as_str(), format.as_str()],
    );
    assert(strings(arguments@) =~= window_query(*scope));
    arguments
}

/// The window to be moved, or the outcome where nothing can move: an error
/// where the answer is unusable, a decline in a session with one window.
pub open spec fn moving_window(output: Option<TmuxOutput>) -> Result<Seq<char>, Outcome> {
    match output {
        None => Err(Outcome::Error),
        Some(output) => {
            let parts = split(trimmed(utf8_lossy(output.stdout@)), '|');
            match parsed(parts[0], usize::MAX as nat) {
                Some(count) if output.success && parts.len() == 2 => if count <= 1 {
                    Err(Outcome::Declined)
                } else {
                    Ok(parts[1])
                },
                _ => Err(Outcome::Error),
            }
        },
    }
}

/// The text that a result holds.
pub open spec fn result_text(result: Result<String, Outcome>) -> Result<Seq<char>, Outcome> {
    match result {
        Ok(value) => Ok(value@),
        Err(outcome) => Err(outcome),
    }
}

/// The window to be moved, or the outcome where nothing can move.
pub fn window_to_move(output: &Option<TmuxOutput>) -> (window: Result<String, Outcome>)
    ensures
        result_text(window) == moving_window(*output),
{
    match output {
        None => Err(Outcome::Error),
        Some(output) => {
            let text = from_utf8_lossy(output.stdout.as_slice());
            let parts = split_char(trim(text.as_str()), '|');
            let ghost all = split(trimmed(utf8_lossy(output.stdout@)), '|');
            assert(texts(parts@) == all);
            assert(all.len() > 0);
            assert(all[0] == parts@[0]@);
            let count: u64 = match parse_number(parts[0], usize::MAX as u64) {
                Some(count) => count,
                None => {
                    return Err(Outcome::Error);
                },
            };
            if !output.success || parts.len() != 2 {
                return Err(Outcome::Error);
            }
            if count <= 1 {
                return Err(Outcome::Declined);
            }
            assert(all[1] == parts@[1]@);
            Ok(String::from_str(parts[1]))
        },
    }
}

/// The arguments that list the windows of a session.
pub fn window_list_arguments(session: &str) -> (arguments: Vec<String>)
    ensures
        strings(arguments@) == seq!["list-windows"@, "-t"@, session@, "-F"@, "#{window_id}"@],
{
    let arguments = owned(&vec!["list-windows", "-t", session, "-F", "#{window_id}"]);
    assert(strings(arguments@) =~= seq![
        "list-windows"@,
        "-t"@,
        session@,
        "-F"@,
        "#{window_id}"@,
    ]);
    arguments
}

/// The window that changes places with the moved one, or the outcome where
/// there is none: an error where the moved window is not listed. Moving at
/// the end is an owned no-op, unlike selecting beyond an edge.
pub open spec fn partner_window(
    output: Option<TmuxOutput>,
    window: Seq<char>,
    direction: Direction,
) -> Result<Seq<char>, Outcome> {
    match output {
        Some(output) if output.success => {
            let windows = lines(utf8_lossy(output.stdout@));
            match position_of(windows, window, 0) {
                None => Err(Outcome::Error),
                Some(i) => if direction is Left && i > 0 {
                    Ok(windows[i - 1])
                } else if direction is Right && i + 1 < windows.len() {
                    Ok(windows[i + 1])
                } else {
                    Err(Outcome::Handled)
                },
            }
        },
        _ => Err(Outcome::Error),
    }
}

/// The window that changes places with the moved one.
pub fn window_partner(output: &Option<TmuxOutput>, window: &str, direction: Direction) -> (partner:
    Result<String, Outcome>)
    ensures
        result_text(partner) == partner_window(*output, window@, direction),
{
    match output {
        Some(output) => {
            if !output.success {
                return Err(Outcome::Error);
            }
            let text = from_utf8_lossy(output.stdout.as_slice());
            let windows = lines_of(text.as_str());
            let ghost all = lines(text@);
            assert(texts(windows@) == all);
            let index: usize = match find_position(&windows, window) {
                Some(index) => index,
                None => {
                    return Err(Outcome::Error);
                },
            };
            match direction {
                Direction::Left => {
                    if index > 0 {
                        assert(all[index - 1] == windows@[index - 1]@);
                        return Ok(String::from_str(windows[index - 1]));
                    }
                },
                Direction::Right => {
                    if index < windows.len() - 1 {
                        assert(all[index + 1] == windows@[index + 1]@);
                        return Ok(String::from_str(windows[index + 1]));
                    }
                },
                _ => {},
            }
            Err(Outcome::Handled)
        },
        None => Err(Outcome::Error),
    }
}

/// The arguments that swap two windows of a session while the scope is active.
pub open spec fn window_swap(
    scope: Scope,
    session: Seq<char>,
    window: Seq<char>,
    partner: Seq<char>,
) -> Seq<Seq<char>> {
    window_operation(
        scope,
        command_line(
            seq![
                "swap-window"@,
                "-d"@,
                "-s"@,
                session + ":"@ + window,
                "-t"@,
                session + ":"@ + partner,
            ],
        ),
    )
}

/// The arguments that swap two windows of a session while the scope is active.
pub fn window_swap_arguments(scope: &Scope, session: &str, window: &str, partner: &str) -> (
arguments: Vec<String>)
    ensures
        strings(arguments@) == window_swap(*scope, session@, window@, partner@),
{
    let mut source = String::from_str(session);
    source.append(":");
    source.append(window);
    let mut target = String::from_str(session);
    target.append(":");
    target.append(partner);
    let words = owned(
        &vec!["swap-window", "-d", "-s", source.as_str(), "-t", target.as_str()],
    );
    assert(strings(words@) =~= seq![
        "swap-window"@,
        "-d"@,
        "-s"@,
        session@ + ":"@ + window@,
        "-t"@,
        session@ + ":"@ + partner@,
    ]);
    let command = join(words.as_slice());
    window_arguments(scope, command.as_str())
}

/// A window and its partner stand next to each other, in the direction asked.
pub proof fn lemma_partner_is_neighbour(
    output: Option<TmuxOutput>,
    window: Seq<char>,
    direction: Direction,
)
    requires
        partner_window(output, window, direction) is Ok,
    ensures
        ({
            let windows = lines(utf8_lossy(output->0.stdout@));
            exists|i: int, j: int|
                0 <= i < windows.len() && 0 <= j < windows.len() && #[trigger] windows[i] == window
                    && #[trigger] windows[j] == partner_window(output, window, direction)->Ok_0
                    && j == (if direction is Left {
                    i - 1
                } else {
                    i + 1
                })
        }),
{
    let windows = lines(utf8_lossy(output->0.stdout@));
    lemma_position_of(windows, window, 0);
    let i = position_of(windows, window, 0)->0;
    assert(windows[i] == window);
}

proof fn lemma_position_of(values: Seq<Seq<char>>, wanted: Seq<char>, i: int)
    requires
        0 <= i,
    ensures
        position_of(values, wanted, i) matches Some(k) ==> i <= k < values.len() && values[k]
            == wanted,
    decreases values.len() - i,
{
    if i < values.len() && values[i] != wanted {
        lemma_position_of(values, wanted, i + 1);
    }
}

/// The server socket that a `TMUX` value names: what precedes its last two
/// commas.
pub open spec fn tmux_socket(value: Seq<char>) -> Option<Seq<char>> {
    let second = last_char(value, ',');
    let first = last_char(value.take(second), ',');
    if second > 0 && first > 0 {
        Some(value.take(first))
    } else {
        None
    }
}

/// The server socket that a `TMUX` value names.
pub fn socket_of(value: &str) -> (socket: Option<String>)
    ensures
        match socket {
            Some(socket) => tmux_socket(value@) == Some(socket@) && socket@.len() > 0,
            None => tmux_socket(value@) is None,
        },
{
    match rfind_char(value, ',') {
        Some(second) => {
            let head = value.substring_char(0, second);
            assert(head@ =~= value@.take(second as int));
            match rfind_char(head, ',') {
                Some(first) => {
                    if first == 0 {
                        return None;
                    }
                    let socket = value.substring_char(0, first);
                    assert(socket@ =~= value@.take(first as int));
                    Some(String::from_str(socket))
                },
                None => None,
            }
        },
        None => {
            assert(tmux_socket(value@) is None);
            None
        },
    }
}

/// The tmux identity that the environment of a process names: a server socket
/// and a pane.
pub open spec fn tmux_identity(tmux: Seq<char>, pane: Seq<char>) -> Option<
    (Seq<char>, Seq<char>),
> {
    match tmux_socket(tmux) {
        Some(socket) if is_pane(pane) => Some((socket, pane)),
        _ => None,
    }
}

/// The tmux identity that the environment of a process names.
pub fn identity_of(tmux: &str, pane: &str) -> (identity: Option<(String, String)>)
    ensures
        match identity {
            Some((socket, shown)) => tmux_identity(tmux@, pane@) == Some((socket@, shown@)),
            None => tmux_identity(tmux@, pane@) is None,
        },
{
    if !valid_pane(pane) {
        return None;
    }
    match socket_of(tmux) {
        Some(socket) => Some((socket, String::from_str(pane))),
        None => None,
    }
}

/// The scope that contains the caller, from its `TMUX` and `TMUX_PANE`.
pub fn current_scope(tmux: Option<&str>, pane: Option<&str>) -> (scope: Option<Scope>)
    ensures
        match (tmux, pane) {
            (Some(tmux), Some(pane)) => match tmux_identity(tmux@, pane@) {
                Some((socket, shown)) => scope is Some && scope->0.socket@ == socket
                    && scope->0.pane@ == shown && scope->0.session is None,
                None => scope is None,
            },
            _ => scope is None,
        },
{
    match (tmux, pane) {
        (Some(tmux), Some(pane)) => match identity_of(tmux, pane) {
            Some((socket, shown)) => Some(Scope { socket, pane: shown, session: None }),
            None => None,
        },
        _ => None,
    }
}

} // verus!
