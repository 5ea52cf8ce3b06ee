//! VS Code window focus publication.
//!
//! The companion extension owns one authenticated Unix socket per VS Code
//! window. Neovim publishes ordered leases to the window attached to its exact
//! tmux client, allowing multiple terminal windows to view one tmux server
//! without stealing each other's editor focus.

use vstd::prelude::*;
use vstd::string::*;
use vstd::utf8::{decode_utf8, encode_utf8, valid_utf8};

use crate::digest::is_hex_char;
use crate::json::{json_string, quote_json};
use crate::navigation::system::contains_text;
use crate::text::{
    chars_of, cut, decimal, from_utf8, lines, lines_of, parse_number, parsed, push_decimal, same,
    split, split_char, split_once, texts, words, words_of,
};

verus! {

/// The greatest integer that JavaScript counts exactly.
pub const MAX_SAFE_INTEGER: u64 = 9007199254740991;

/// The most ancestors that an update names.
pub const MAX_ANCESTRY: usize = 64;

/// Focus ownership transition sent to the VS Code extension.
#[derive(Clone, Copy, Debug, PartialEq, Eq, Structural)]
pub enum Operation {
    /// Acquire or renew focus ownership.
    Claim,
    /// Relinquish focus ownership.
    Release,
}

/// Validated ordered update emitted by one Neovim instance.
#[derive(Debug)]
pub struct Update {
    /// Stable editor-source identifier.
    pub source: String,
    /// Editor lifecycle generation.
    pub cycle: u64,
    /// Monotonic update number within the generation.
    pub sequence: u64,
    /// Sender observation timestamp.
    pub observed: u64,
    /// Requested ownership transition.
    pub operation: Operation,
}

/// Outcome of publishing one update to all applicable VS Code windows.
#[derive(Clone, Copy, Debug, PartialEq, Eq, Structural)]
pub enum PublishOutcome {
    /// At least one authenticated window accepted the update.
    Posted,
    /// A candidate window existed but its socket request failed.
    Failed,
    /// No complete socket/token route was available.
    Unavailable,
}

/// Whether a character may stand in a source.
pub open spec fn source_char(c: char) -> bool {
    ||| 'a' <= c <= 'z'
    ||| 'A' <= c <= 'Z'
    ||| '0' <= c <= '9'
    ||| c == '_' || c == '.' || c == ':' || c == '-'
}

/// Whether a text identifies an editor.
pub open spec fn is_source(source: Seq<char>) -> bool {
    &&& 0 < source.len() <= 128
    &&& forall|i: int| 0 <= i < source.len() ==> source_char(#[trigger] source[i])
}

fn valid_source(source: &str) -> (result: bool)
    ensures
        result == is_source(source@),
{
    let chars = chars_of(source);
    if chars.len() == 0 || chars.len() > 128 {
        return false;
    }
    let mut i: usize = 0;
    while i < chars.len()
        invariant
            i <= chars.len(),
            chars@ == source@,
            forall|j: int| 0 <= j < i ==> source_char(#[trigger] source@[j]),
        decreases chars.len() - i,
    {
        let c = chars[i];
        if !(('a' <= c && c <= 'z') || ('A' <= c && c <= 'Z') || ('0' <= c && c <= '9') || c == '_'
            || c == '.' || c == ':' || c == '-') {
            assert(!source_char(source@[i as int]));
            return false;
        }
        i = i + 1;
    }
    true
}

/// The counter that a text spells, where JavaScript counts it exactly.
pub open spec fn counter(value: Seq<char>) -> Option<nat> {
    parsed(value, MAX_SAFE_INTEGER as nat)
}

/// The counter that a text spells, where JavaScript counts it exactly.
pub fn js_uint(value: &str) -> (result: Option<u64>)
    ensures
        match result {
            Some(n) => counter(value@) == Some(n as nat),
            None => counter(value@) is None,
        },
{
    parse_number(value, MAX_SAFE_INTEGER)
}

/// What is wrong with the fields of an update, if anything.
pub open spec fn update_error(
    source: Seq<char>,
    cycle: Seq<char>,
    sequence: Seq<char>,
    observed: Seq<char>,
) -> Option<Seq<char>> {
    if !is_source(source) {
        Some("invalid source"@)
    } else if counter(cycle) is None {
        Some("invalid cycle"@)
    } else if counter(sequence) is None {
        Some("invalid sequence"@)
    } else if counter(observed) is None {
        Some("invalid observation"@)
    } else {
        None
    }
}

impl Update {
    /// Build an update after validating JavaScript-safe counters and source.
    pub fn new(
        operation: Operation,
        source: &str,
        cycle: &str,
        sequence: &str,
        observed: &str,
    ) -> (result: Result<Self, &'static str>)
        ensures
            match result {
                Ok(update) => {
                    &&& update_error(source@, cycle@, sequence@, observed@) is None
                    &&& update.source@ == source@
                    &&& Some(update.cycle as nat) == counter(cycle@)
                    &&& Some(update.sequence as nat) == counter(sequence@)
                    &&& Some(update.observed as nat) == counter(observed@)
                    &&& update.operation == operation
                },
                Err(message) => update_error(source@, cycle@, sequence@, observed@) == Some(
                    message@,
                ),
            },
    {
        if !valid_source(source) {
            return Err("invalid source");
        }
        let cycle: u64 = match js_uint(cycle) {
            Some(n) => n,
            None => {
                return Err("invalid cycle");
            },
        };
        let sequence: u64 = match js_uint(sequence) {
            Some(n) => n,
            None => {
                return Err("invalid sequence");
            },
        };
        let observed: u64 = match js_uint(observed) {
            Some(n) => n,
            None => {
                return Err("invalid observation");
            },
        };
        Ok(Update { source: String::from_str(source), cycle, sequence, observed, operation })
    }

    /// The release of what this update would claim.
    pub fn release(&self) -> (release: Self)
        ensures
            release.source@ == self.source@,
            release.cycle == self.cycle,
            release.sequence == self.sequence,
            release.observed == self.observed,
            release.operation == Operation::Release,
    {
        Update {
            source: self.source.clone(),
            cycle: self.cycle,
            sequence: self.sequence,
            observed: self.observed,
            operation: Operation::Release,
        }
    }
}

/// A window's capability: sixty-four lower-case hexadecimal digits.
pub open spec fn is_capability(token: Seq<char>) -> bool {
    token.len() == 64 && forall|i: int| 0 <= i < token.len() ==> is_hex_char(#[trigger] token[i])
}

/// Whether a text is a window's capability.
pub fn valid_token(token: &str) -> (result: bool)
    ensures
        result == is_capability(token@),
{
    let chars = chars_of(token);
    if chars.len() != 64 {
        return false;
    }
    let mut i: usize = 0;
    while i < chars.len()
        invariant
            i <= chars.len(),
            chars@ == token@,
            forall|j: int| 0 <= j < i ==> is_hex_char(#[trigger] token@[j]),
        decreases chars.len() - i,
    {
        let c = chars[i];
        if !(('0' <= c && c <= '9') || ('a' <= c && c <= 'f')) {
            assert(!is_hex_char(token@[i as int]));
            return false;
        }
        i = i + 1;
    }
    true
}

/// The way to one window.
#[derive(Debug, PartialEq, Eq)]
pub struct Route {
    pub socket: String,
    pub token: String,
    /// The process that the window's terminal runs.
    pub client_pid: u32,
}

impl Route {
    /// The way to a window that a process's environment names: both a socket
    /// and a valid capability.
    pub fn new(socket: Option<&str>, token: Option<&str>, client_pid: u32) -> (route: Option<Self>)
        ensures
            match route {
                Some(route) => socket is Some && token is Some && is_capability(token->0@)
                    && route.socket@ == socket->0@ && route.token@ == token->0@ && route.client_pid
                    == client_pid,
                None => socket is None || token is None || !is_capability(token->0@),
            },
    {
        match (socket, token) {
            (Some(socket), Some(token)) => {
                if valid_token(token) {
                    Some(
                        Route {
                            socket: String::from_str(socket),
                            token: String::from_str(token),
                            client_pid,
                        },
                    )
                } else {
                    None
                }
            },
            _ => None,
        }
    }
}

/// One client of a tmux listing.
#[derive(Debug, PartialEq, Eq)]
pub struct ClientRow {
    pub pid: u32,
    pub pane: String,
    pub focused: bool,
}

/// What a [`ClientRow`] says.
#[verifier::ext_equal]
pub struct RowFields {
    pub pid: u32,
    pub pane: Seq<char>,
    pub focused: bool,
}

impl View for ClientRow {
    type V = RowFields;

    open spec fn view(&self) -> RowFields {
        RowFields { pid: self.pid, pane: self.pane@, focused: self.focused }
    }
}

/// What rows say.
pub open spec fn row_fields(rows: Seq<ClientRow>) -> Seq<RowFields> {
    Seq::new(rows.len(), |i: int| rows[i]@)
}

/// The client that a row of three fields describes.
pub open spec fn row_of(line: Seq<char>) -> Option<RowFields> {
    match cut(line, '|') {
        Some((pid, rest)) => match (parsed(pid, u32::MAX as nat), cut(rest, '|')) {
            (Some(pid), Some((pane, flags))) => Some(
                RowFields {
                    pid: pid as u32,
                    pane,
                    focused: split(flags, ',').contains("focused"@),
                },
            ),
            _ => None,
        },
        None => None,
    }
}

impl ClientRow {
    /// Parse one row of the listing.
    pub fn parse(line: &str) -> (row: Option<Self>)
        ensures
            match row {
                Some(row) => row_of(line@) == Some(row@),
                None => row_of(line@) is None,
            },
    {
        if let Some((pid, rest)) = split_once(line, '|') {
            if let Some(pid) = parse_number(pid, u32::MAX as u64) {
                if let Some((pane, flags)) = split_once(rest, '|') {
                    let flags = split_char(flags, ',');
                    return Some(
                        ClientRow {
                            pid: pid as u32,
                            pane: String::from_str(pane),
                            focused: contains_text(&flags, "focused"),
                        },
                    );
                }
            }
        }
        None
    }
}

/// The clients that rows describe, in order, without the malformed rows.
pub open spec fn rows_of(rows: Seq<Seq<char>>) -> Seq<RowFields>
    decreases rows.len(),
{
    if rows.len() == 0 {
        Seq::empty()
    } else {
        let before = rows_of(rows.drop_last());
        match row_of(rows.last()) {
            Some(row) => before.push(row),
            None => before,
        }
    }
}

/// Parse a listing of clients.
pub fn parse_rows(listing: &str) -> (rows: Vec<ClientRow>)
    ensures
        row_fields(rows@) == rows_of(lines(listing@)),
{
    let all_lines = lines_of(listing);
    let ghost all = lines(listing@);
    let mut rows: Vec<ClientRow> = Vec::new();
    let mut i: usize = 0;
    assert(row_fields(rows@) =~= rows_of(all.take(0)));
    while i < all_lines.len()
        invariant
            i <= all_lines.len(),
            texts(all_lines@) == all,
            row_fields(rows@) == rows_of(all.take(i as int)),
        decreases all_lines.len() - i,
    {
        let ghost before = rows@;
        assert(all.take(i + 1).drop_last() =~= all.take(i as int));
        assert(all.take(i + 1).last() == texts(all_lines@)[i as int]);
        if let Some(row) = ClientRow::parse(all_lines[i]) {
            rows.push(row);
            assert(row_fields(rows@) =~= row_fields(before).push(row@));
        }
        i = i + 1;
    }
    assert(all.take(i as int) =~= all);
    rows
}

/// Whether an update goes to a client: a claim only to a focused client that
/// shows the editor's pane, a release to every client.
pub open spec fn concerns(operation: Operation, row: RowFields, pane: Seq<char>) -> bool {
    operation == Operation::Release || row.pane == pane && row.focused
}

/// The processes of the clients that an update goes to, in order.
pub open spec fn concerned(operation: Operation, rows: Seq<RowFields>, pane: Seq<char>) -> Seq<u32>
    decreases rows.len(),
{
    if rows.len() == 0 {
        Seq::empty()
    } else {
        let before = concerned(operation, rows.drop_last(), pane);
        if concerns(operation, rows.last(), pane) {
            before.push(rows.last().pid)
        } else {
            before
        }
    }
}

/// The processes of the clients that an update goes to, in order.
pub fn select_clients(operation: Operation, rows: &Vec<ClientRow>, pane: &str) -> (pids: Vec<u32>)
    ensures
        pids@ == concerned(operation, row_fields(rows@), pane@),
{
    let ghost all = row_fields(rows@);
    let mut pids: Vec<u32> = Vec::new();
    let mut i: usize = 0;
    assert(pids@ =~= concerned(operation, all.take(0), pane@));
    while i < rows.len()
        invariant
            i <= rows.len(),
            all == row_fields(rows@),
            pids@ == concerned(operation, all.take(i as int), pane@),
        decreases rows.len() - i,
    {
        assert(all.take(i + 1).drop_last() =~= all.take(i as int));
        assert(all.take(i + 1).last() == rows@[i as int]@);
        if operation == Operation::Release || (rows[i].focused && same(
            rows[i].pane.as_str(),
            pane,
        )) {
            pids.push(rows[i].pid);
        }
        i = i + 1;
    }
    assert(all.take(i as int) =~= all);
    pids
}

/// What posting to windows came to: whether each accepted the update.
pub open spec fn posts_outcome(accepted: Seq<bool>) -> PublishOutcome {
    if accepted.contains(true) {
        PublishOutcome::Posted
    } else if accepted.len() > 0 {
        PublishOutcome::Failed
    } else {
        PublishOutcome::Unavailable
    }
}

/// What posting to windows came to.
pub fn publish_routes(accepted: &Vec<bool>) -> (outcome: PublishOutcome)
    ensures
        outcome == posts_outcome(accepted@),
{
    let mut i: usize = 0;
    while i < accepted.len()
        invariant
            i <= accepted.len(),
            forall|j: int| 0 <= j < i ==> !#[trigger] accepted@[j],
        decreases accepted.len() - i,
    {
        if accepted[i] {
            assert(accepted@[i as int] == true);
            return PublishOutcome::Posted;
        }
        i = i + 1;
    }
    if accepted.len() > 0 {
        PublishOutcome::Failed
    } else {
        PublishOutcome::Unavailable
    }
}

/// Whether a release follows an update in tmux: a claim that no window took
/// must clear any window that may still hold the previous lease.
pub fn needs_release(operation: Operation, outcome: PublishOutcome) -> (result: bool)
    ensures
        result == (operation == Operation::Claim && outcome != PublishOutcome::Posted),
{
    operation == Operation::Claim && outcome != PublishOutcome::Posted
}

/// What a claim and the release after it come to together.
pub open spec fn both(claim: PublishOutcome, release: PublishOutcome) -> PublishOutcome {
    if release == PublishOutcome::Posted {
        PublishOutcome::Posted
    } else if claim == PublishOutcome::Failed || release == PublishOutcome::Failed {
        PublishOutcome::Failed
    } else {
        PublishOutcome::Unavailable
    }
}

/// What a claim and the release after it come to together.
pub fn released_outcome(claim: PublishOutcome, release: PublishOutcome) -> (outcome: PublishOutcome)
    ensures
        outcome == both(claim, release),
{
    if release == PublishOutcome::Posted {
        PublishOutcome::Posted
    } else if claim == PublishOutcome::Failed || release == PublishOutcome::Failed {
        PublishOutcome::Failed
    } else {
        PublishOutcome::Unavailable
    }
}

/// Whether processes are a line of ancestors: none is the kernel's, none occurs
/// twice, and there are not too many.
pub open spec fn is_lineage(pids: Seq<u32>) -> bool {
    pids.no_duplicates() && pids.len() <= MAX_ANCESTRY && !pids.contains(0)
}

/// Add a process to a line of ancestors; refused where it would not be one any
/// more.
pub fn extend_lineage(pids: &mut Vec<u32>, pid: u32) -> (added: bool)
    requires
        is_lineage(old(pids)@),
    ensures
        is_lineage(final(pids)@),
        added == (pid > 0 && old(pids)@.len() < MAX_ANCESTRY && !old(pids)@.contains(pid)),
        final(pids)@ == if added {
            old(pids)@.push(pid)
        } else {
            old(pids)@
        },
{
    if pid == 0 || pids.len() >= MAX_ANCESTRY {
        return false;
    }
    let mut i: usize = 0;
    while i < pids.len()
        invariant
            i <= pids@.len(),
            pids@ == old(pids)@,
            is_lineage(pids@),
            pid > 0 && pids@.len() < MAX_ANCESTRY,
            forall|j: int| 0 <= j < i ==> #[trigger] pids@[j] != pid,
        decreases pids@.len() - i,
    {
        if pids[i] == pid {
            assert(pids@[i as int] == pid);
            return false;
        }
        i = i + 1;
    }
    let ghost before = pids@;
    pids.push(pid);
    proof {
        assert forall|i: int, j: int|
            0 <= i < pids@.len() && 0 <= j < pids@.len() && i != j implies pids@[i] != pids@[j] by {
            if i < before.len() {
                assert(before[i] == pids@[i]);
            }
            if j < before.len() {
                assert(before[j] == pids@[j]);
            }
        }
        if pids@.contains(0) {
            let i = choose|i: int| 0 <= i < pids@.len() && pids@[i] == 0;
            assert(before[i] == 0);
        }
    }
    true
}

/// Numbers in decimal with commas between them.
pub open spec fn number_list(pids: Seq<u32>) -> Seq<char>
    decreases pids.len(),
{
    if pids.len() == 0 {
        Seq::empty()
    } else if pids.len() == 1 {
        decimal(pids[0] as nat)
    } else {
        number_list(pids.drop_last()) + ","@ + decimal(pids.last() as nat)
    }
}

/// The wire name of an operation.
pub open spec fn operation_name(operation: Operation) -> Seq<char> {
    match operation {
        Operation::Claim => "claim"@,
        Operation::Release => "release"@,
    }
}

/// The JSON that an update is posted as.
pub open spec fn payload_text(update: Update, token: Seq<char>, ancestors: Seq<u32>) -> Seq<char> {
    "{\"version\":2,\"source\":"@ + json_string(update.source@) + ",\"cycle\":"@ + decimal(
        update.cycle as nat,
    ) + ",\"sequence\":"@ + decimal(update.sequence as nat) + ",\"observed\":"@ + decimal(
        update.observed as nat,
    ) + ",\"operation\":\""@ + operation_name(update.operation) + "\",\"token\":"@ + json_string(
        token,
    ) + ",\"ancestors\":["@ + number_list(ancestors) + "]}"@
}

/// The JSON that an update is posted as.
pub fn payload(update: &Update, token: &str, ancestors: &Vec<u32>) -> (text: String)
    ensures
        text@ == payload_text(*update, token@, ancestors@),
{
    let mut text = String::from_str("{\"version\":2,\"source\":");
    text.append(quote_json(update.source.as_str()).as_str());
    text.append(",\"cycle\":");
    push_decimal(&mut text, update.cycle);
    text.append(",\"sequence\":");
    push_decimal(&mut text, update.sequence);
    text.append(",\"observed\":");
    push_decimal(&mut text, update.observed);
    text.append(",\"operation\":\"");
    text.append(
        match update.operation {
            Operation::Claim => "claim",
            Operation::Release => "release",
        },
    );
    text.append("\",\"token\":");
    text.append(quote_json(token).as_str());
    text.append(",\"ancestors\":[");
    let ghost prefix = text@;
    let mut i: usize = 0;
    assert(text@ =~= prefix + number_list(ancestors@.take(0)));
    while i < ancestors.len()
        invariant
            i <= ancestors.len(),
            text@ == prefix + number_list(ancestors@.take(i as int)),
        decreases ancestors.len() - i,
    {
        let ghost done = ancestors@.take(i as int);
        let ghost more = ancestors@.take(i + 1);
        assert(more.drop_last() =~= done);
        if i > 0 {
            text.append(",");
        }
        push_decimal(&mut text, ancestors[i] as u64);
        i = i + 1;
        assert(text@ =~= prefix + number_list(more));
    }
    assert(ancestors@.take(i as int) =~= ancestors@);
    text.append("]}");
    assert(text@ =~= payload_text(*update, token@, ancestors@));
    text
}

/// The HTTP request that posts an update to a window.
pub open spec fn focus_post(body: Seq<char>) -> Seq<char> {
    "POST /nvim-focus HTTP/1.1\r\nHost: localhost\r\nContent-Type: application/json\r\nAccept: application/json\r\nContent-Length: "@
        + decimal(encode_utf8(body).len()) + "\r\nConnection: close\r\n\r\n"@ + body
}

/// The HTTP request that posts an update to a window.
pub fn post_request(update: &Update, token: &str, ancestors: &Vec<u32>) -> (request: String)
    ensures
        request@ == focus_post(payload_text(*update, token@, ancestors@)),
{
    let body = payload(update, token, ancestors);
    let mut request = String::from_str(
        "POST /nvim-focus HTTP/1.1\r\nHost: localhost\r\nContent-Type: application/json\r\nAccept: application/json\r\nContent-Length: ",
    );
    let length: usize = body.as_str().as_bytes().len();
    push_decimal(&mut request, length as u64);
    request.append("\r\nConnection: close\r\n\r\n");
    request.append(body.as_str());
    request
}

/// The HTTP status of a response.
pub open spec fn status_of(response: Seq<char>) -> Option<nat> {
    if lines(response).len() > 0 && words(lines(response)[0]).len() > 1 {
        parsed(words(lines(response)[0])[1], u16::MAX as nat)
    } else {
        None
    }
}

/// Whether the beginning of a response says that the window accepted the
/// update.
pub open spec fn accepts(response: Seq<u8>) -> bool {
    valid_utf8(response) && status_of(decode_utf8(response)) is Some && 200 <= status_of(
        decode_utf8(response),
    )->0 < 300
}

/// Whether the beginning of a response says that the window accepted the
/// update.
pub fn accepted(response: &[u8]) -> (result: bool)
    ensures
        result == accepts(response@),
{
    let text = match from_utf8(response) {
        Some(text) => text,
        None => {
            return false;
        },
    };
    let rows = lines_of(text.as_str());
    assert(texts(rows@).len() == rows@.len());
    if rows.len() == 0 {
        return false;
    }
    assert(texts(rows@)[0] == rows@[0]@);
    let fields = words_of(rows[0]);
    assert(texts(fields@).len() == fields@.len());
    if fields.len() < 2 {
        return false;
    }
    assert(texts(fields@)[1] == fields@[1]@);
    match parse_number(fields[1], u16::MAX as u64) {
        Some(status) => 200 <= status && status < 300,
        None => false,
    }
}

/// The exit status of an outcome.
pub fn exit_status(outcome: PublishOutcome) -> (code: i32)
    ensures
        code == (match outcome {
            PublishOutcome::Posted => 0i32,
            PublishOutcome::Failed => 1i32,
            PublishOutcome::Unavailable => 10i32,
        }),
{
    match outcome {
        PublishOutcome::Posted => 0,
        PublishOutcome::Failed => 1,
        PublishOutcome::Unavailable => 10,
    }
}

} // verus!
