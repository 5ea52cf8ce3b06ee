//! What is told to the windows of VS Code, and to whom; and the escapes that
//! reach a terminal.

use vstd::prelude::*;
use vstd::string::*;
use vstd::utf8::*;

use crate::json::json_string;
use crate::laws::text::{
    lemma_cut_at, lemma_decimal_plain, lemma_lines_first, lemma_number_bound, lemma_words_first,
};
use crate::terminal::{base64, base64_text, base64_value, user_var, TmuxMode};
use crate::text::{decimal, lines, replaced, split, white_space, words};
use crate::vscode::{
    accepted, concerned, exit_status, focus_post, is_capability, is_lineage, is_source, js_uint,
    needs_release, number_list, payload, publish_routes, released_outcome, row_of, valid_token,
    Operation, PublishOutcome, Route, RowFields, Update, MAX_ANCESTRY, MAX_SAFE_INTEGER,
};

verus! {

/// A source is up to a hundred and twenty-eight letters, digits, underscores,
/// dots, colons and hyphens.
pub proof fn lemma_sources(source: Seq<char>)
    ensures
        is_source(source) <==> 0 < source.len() <= 128 && forall|i: int|
            0 <= i < source.len() ==> {
                let c = #[trigger] source[i];
                'a' <= c <= 'z' || 'A' <= c <= 'Z' || '0' <= c <= '9' || c == '_' || c == '.' || c
                    == ':' || c == '-'
            },
{
    if 0 < source.len() <= 128 {
        assert forall|i: int| 0 <= i < source.len() implies (crate::vscode::source_char(
            #[trigger] source[i],
        ) <==> ('a' <= source[i] <= 'z' || 'A' <= source[i] <= 'Z' || '0' <= source[i] <= '9'
            || source[i] == '_' || source[i] == '.' || source[i] == ':' || source[i] == '-')) by {}
        if forall|i: int|
            0 <= i < source.len() ==> {
                let c = #[trigger] source[i];
                'a' <= c <= 'z' || 'A' <= c <= 'Z' || '0' <= c <= '9' || c == '_' || c == '.' || c
                    == ':' || c == '-'
            } {
            assert forall|i: int| 0 <= i < source.len() implies crate::vscode::source_char(
                #[trigger] source[i],
            ) by {}
        }
    }
}

/// Counters are read from their digits up to the greatest integer that the
/// other side counts exactly.
pub proof fn lemma_counters(n: nat, value: &str, result: Option<u64>)
    requires
        call_ensures(js_uint, (value,), result),
        value@ == decimal(n),
    ensures
        n <= 9007199254740991 ==> result == Some(n as u64),
        n > 9007199254740991 ==> result is None,
        MAX_SAFE_INTEGER == 9007199254740991,
        MAX_ANCESTRY == 64,
{
    lemma_number_bound(n, 9007199254740991);
}

/// An update is made of valid fields, each kept as it was given; the first
/// invalid one is reported by its name. Its release differs in the operation
/// alone.
pub proof fn lemma_updates(
    operation: Operation,
    source: &str,
    cycle: &str,
    sequence: &str,
    observed: &str,
    a: nat,
    b: nat,
    c: nat,
    result: Result<Update, &'static str>,
    update: Update,
    release: Update,
)
    requires
        call_ensures(Update::new, (operation, source, cycle, sequence, observed), result),
        cycle@ == decimal(a) && sequence@ == decimal(b) && observed@ == decimal(c),
        call_ensures(Update::release, (&update,), release),
    ensures
        !is_source(source@) ==> result is Err && result->Err_0@ == "invalid source"@,
        is_source(source@) && a > 9007199254740991 ==> result is Err && result->Err_0@
            == "invalid cycle"@,
        is_source(source@) && a <= 9007199254740991 && b > 9007199254740991 ==> result is Err
            && result->Err_0@ == "invalid sequence"@,
        is_source(source@) && a <= 9007199254740991 && b <= 9007199254740991 && c
            > 9007199254740991 ==> result is Err && result->Err_0@ == "invalid observation"@,
        is_source(source@) && a <= 9007199254740991 && b <= 9007199254740991 && c
            <= 9007199254740991 ==> result is Ok && result->Ok_0.source@ == source@
            && result->Ok_0.cycle == a && result->Ok_0.sequence == b && result->Ok_0.observed == c
            && result->Ok_0.operation == operation,
        release.source@ == update.source@ && release.cycle == update.cycle && release.sequence
            == update.sequence && release.observed == update.observed
            && release.operation is Release,
{
    lemma_number_bound(a, 9007199254740991);
    lemma_number_bound(b, 9007199254740991);
    lemma_number_bound(c, 9007199254740991);
}

/// A capability is sixty-four hexadecimal digits in lower case, and a window is
/// reached by its socket and its capability together.
pub proof fn lemma_capabilities(
    token: &str,
    valid: bool,
    socket: Option<&str>,
    given: Option<&str>,
    pid: u32,
    route: Option<Route>,
)
    requires
        call_ensures(valid_token, (token,), valid),
        call_ensures(Route::new, (socket, given, pid), route),
    ensures
        valid <==> token@.len() == 64 && forall|i: int|
            0 <= i < 64 ==> '0' <= #[trigger] token@[i] <= '9' || 'a' <= token@[i] <= 'f',
        route is Some <==> socket is Some && given is Some && is_capability(given->0@),
        route matches Some(route) ==> route.socket@ == socket->0@ && route.token@ == given->0@
            && route.client_pid == pid,
{
    let s = token@;
    if s.len() == 64 {
        assert forall|i: int| 0 <= i < 64 implies (crate::digest::is_hex_char(#[trigger] s[i])
            <==> '0' <= s[i] <= '9' || 'a' <= s[i] <= 'f') by {}
        if forall|i: int| 0 <= i < 64 ==> '0' <= #[trigger] s[i] <= '9' || 'a' <= s[i] <= 'f' {
            assert(is_capability(s));
        }
    }
}

/// A row of the clients is read as it was printed: the process, the pane and
/// the flags, among which focus is one.
pub proof fn lemma_client_rows(pid: u32, pane: Seq<char>, flags: Seq<char>)
    requires
        !pane.contains('|'),
    ensures
        row_of(decimal(pid as nat) + seq!['|'] + (pane + seq!['|'] + flags)) == Some(
            RowFields { pid, pane, focused: split(flags, ',').contains("focused"@) },
        ),
{
    let id = decimal(pid as nat);
    lemma_decimal_plain(pid as nat);
    if id.contains('|') {
        let i = choose|i: int| 0 <= i < id.len() && id[i] == '|';
        assert('0' <= id[i] <= '9');
    }
    lemma_cut_at(id, '|', pane + seq!['|'] + flags);
    lemma_cut_at(pane, '|', flags);
    lemma_number_bound(pid as nat, u32::MAX as nat);
}

/// A release goes to every client; a claim to the focused ones that show the
/// pane; in the order of the listing.
pub proof fn lemma_addressees(rows: Seq<RowFields>, row: RowFields, pane: Seq<char>)
    ensures
        concerned(Operation::Release, rows.push(row), pane) == concerned(
            Operation::Release,
            rows,
            pane,
        ).push(row.pid),
        concerned(Operation::Claim, rows.push(row), pane) == if row.focused && row.pane == pane {
            concerned(Operation::Claim, rows, pane).push(row.pid)
        } else {
            concerned(Operation::Claim, rows, pane)
        },
        concerned(Operation::Release, Seq::empty(), pane) == Seq::<u32>::empty(),
        concerned(Operation::Claim, Seq::empty(), pane) == Seq::<u32>::empty(),
{
    assert(rows.push(row).drop_last() =~= rows);
}

/// An update is posted where one window took it, failed where windows were
/// there and none did, and unavailable without a window. A claim that no window
/// took is followed by a release, and the two together are posted only where
/// the release was; a failure of either is a failure. Each has its status.
pub proof fn lemma_outcomes(
    windows: Vec<bool>,
    outcome: PublishOutcome,
    operation: Operation,
    follows: bool,
    claim: PublishOutcome,
    release: PublishOutcome,
    together: PublishOutcome,
    code: i32,
)
    requires
        call_ensures(publish_routes, (&windows,), outcome),
        call_ensures(needs_release, (operation, outcome), follows),
        call_ensures(released_outcome, (claim, release), together),
        call_ensures(exit_status, (outcome,), code),
    ensures
        outcome is Posted <==> windows@.contains(true),
        outcome is Unavailable <==> windows@.len() == 0,
        outcome is Failed <==> windows@.len() > 0 && !windows@.contains(true),
        follows <==> operation is Claim && !windows@.contains(true),
        together is Posted <==> release is Posted,
        together is Failed <==> !(release is Posted) && (claim is Failed || release is Failed),
        together is Unavailable <==> release is Unavailable && !(claim is Failed),
        code == 0 <==> outcome is Posted,
        code == 1 <==> outcome is Failed,
        code == 10 <==> outcome is Unavailable,
{
}

/// A line of ancestors has at most sixty-four, each once, and no kernel.
pub proof fn lemma_lineages(pids: Seq<u32>)
    ensures
        is_lineage(pids) <==> pids.len() <= 64 && pids.no_duplicates() && !pids.contains(0),
{
}

/// Numbers are listed in decimal, with commas between.
pub proof fn lemma_number_lists(pids: Seq<u32>, pid: u32)
    ensures
        number_list(Seq::empty()) == Seq::<char>::empty(),
        number_list(seq![pid]) == decimal(pid as nat),
        pids.len() > 0 ==> number_list(pids.push(pid)) == number_list(pids) + ","@ + decimal(
            pid as nat,
        ),
{
    assert(pids.push(pid).drop_last() =~= pids);
}

/// An update is posted with each of its fields under its name.
pub proof fn lemma_payloads(update: Update, token: &str, ancestors: Vec<u32>, text: String)
    requires
        call_ensures(payload, (&update, token, &ancestors), text),
    ensures
        text@ == "{\"version\":2,\"source\":"@ + json_string(update.source@) + ",\"cycle\":"@
            + decimal(update.cycle as nat) + ",\"sequence\":"@ + decimal(update.sequence as nat)
            + ",\"observed\":"@ + decimal(update.observed as nat) + ",\"operation\":\""@ + (
        if update.operation is Claim {
            "claim"@
        } else {
            "release"@
        }) + "\",\"token\":"@ + json_string(token@) + ",\"ancestors\":["@ + number_list(ancestors@)
            + "]}"@,
        focus_post(text@)
            == "POST /nvim-focus HTTP/1.1\r\nHost: localhost\r\nContent-Type: application/json\r\nAccept: application/json\r\nContent-Length: "@
            + decimal(encode_utf8(text@).len()) + "\r\nConnection: close\r\n\r\n"@ + text@,
{
}

/// A window accepted an update where the status on the first line of its
/// response is of the two hundreds.
pub proof fn lemma_window_responses(
    protocol: Seq<char>,
    status: nat,
    reason: Seq<char>,
    rest: Seq<char>,
    response: &[u8],
    result: bool,
)
    requires
        call_ensures(accepted, (response,), result),
        protocol.len() > 0 && forall|i: int|
            0 <= i < protocol.len() ==> !white_space(#[trigger] protocol[i]),
        reason.len() > 0 && !white_space(reason[0]) && !reason.contains('\n') && reason.last()
            != '\r',
        response@ == encode_utf8(
            protocol + seq![' '] + decimal(status) + seq![' '] + reason + seq!['\r', '\n'] + rest,
        ),
    ensures
        result <==> 200 <= status < 300,
{
    let line = protocol + seq![' '] + decimal(status) + seq![' '] + reason;
    let text = line + seq!['\r', '\n'] + rest;
    encode_utf8_valid_utf8(text);
    encode_utf8_decode_utf8(text);
    lemma_decimal_plain(status);
    if line.contains('\n') {
        let i = choose|i: int| 0 <= i < line.len() && line[i] == '\n';
        let a = protocol.len() as int;
        let b = a + 1 + decimal(status).len();
        if i < a {
            assert(!white_space(protocol[i]));
        } else if i > a && i < b {
            assert('0' <= decimal(status)[i - a - 1] <= '9');
        } else if i > b {
            assert(reason[i - b - 1] == '\n');
        }
    }
    lemma_lines_first(line, rest);
    lemma_status_words(protocol, decimal(status), seq![' '] + reason);
    assert(line =~= protocol + seq![' '] + decimal(status) + (seq![' '] + reason));
    lemma_number_bound(status, u16::MAX as nat);
    assert(lines(text)[0] == line);
}

proof fn lemma_status_words(a: Seq<char>, b: Seq<char>, rest: Seq<char>)
    requires
        a.len() > 0 && b.len() > 0,
        forall|i: int| 0 <= i < a.len() ==> !white_space(#[trigger] a[i]),
        forall|i: int| 0 <= i < b.len() ==> !white_space(#[trigger] b[i]),
        rest.len() > 0 && white_space(rest[0]),
    ensures
        words(a + seq![' '] + b + rest).len() > 1,
        words(a + seq![' '] + b + rest)[1] == b,
{
    let tail = seq![' '] + b + rest;
    lemma_words_first(seq![' '], b, rest);
    lemma_words_first(Seq::empty(), a, tail);
    assert(Seq::<char>::empty() + a + tail =~= a + seq![' '] + b + rest);
    assert((seq![a] + (seq![b] + words(rest)))[1] == b);
}

/// The digits of base64 are letters, digits, the plus sign and the slash, in
/// that order, and a text is padded to fours.
pub proof fn lemma_base64(bytes: &[u8], text: String)
    requires
        call_ensures(base64, (bytes,), text),
    ensures
        crate::terminal::base64_bytes(text@) == bytes@,
        text@.len() == (bytes@.len() + 2) / 3 * 4,
        base64_value('A') == 0 && base64_value('Z') == 25 && base64_value('a') == 26
            && base64_value('z') == 51 && base64_value('0') == 52 && base64_value('9') == 61
            && base64_value('+') == 62 && base64_value('/') == 63,
        bytes@.len() % 3 == 1 ==> text@[text@.len() - 1] == '=' && text@[text@.len() - 2] == '=',
        bytes@.len() % 3 == 2 ==> text@[text@.len() - 1] == '=',
{
    crate::terminal::lemma_base64_round_trip(bytes@);
    lemma_padding(bytes@);
}

proof fn lemma_padding(bytes: Seq<u8>)
    ensures
        base64_text(bytes).len() == (bytes.len() + 2) / 3 * 4,
        bytes.len() % 3 == 1 ==> base64_text(bytes)[base64_text(bytes).len() - 1] == '='
            && base64_text(bytes)[base64_text(bytes).len() - 2] == '=',
        bytes.len() % 3 == 2 ==> base64_text(bytes)[base64_text(bytes).len() - 1] == '=',
    decreases bytes.len(),
{
    crate::terminal::lemma_base64_round_trip(bytes);
    if bytes.len() > 3 {
        crate::terminal::lemma_base64_round_trip(bytes.skip(3));
        lemma_padding(bytes.skip(3));
        let rest = base64_text(bytes.skip(3));
        let text = base64_text(bytes);
        assert(text.len() == rest.len() + 4);
        assert(text[text.len() - 1] == rest[rest.len() - 1]);
        assert(text[text.len() - 2] == rest[rest.len() - 2]);
    } else if bytes.len() == 3 {
        assert(bytes.skip(3).len() == 0);
    }
}

/// A user variable is set by its escape: the name, and the value in base64. To
/// pass tmux it is framed, with its escape characters doubled.
pub proof fn lemma_user_variables(name: &str, value: &str, mode: TmuxMode, bytes: Vec<u8>)
    requires
        call_ensures(user_var, (name, value, mode), bytes),
    ensures
        ({
            let escape = "\u{1b}]1337;SetUserVar="@ + name@ + "="@ + base64_text(
                encode_utf8(value@),
            ) + "\u{7}"@;
            &&& mode is Raw ==> bytes@ == encode_utf8(escape)
            &&& mode is Passthrough ==> bytes@ == encode_utf8(
                "\u{1b}Ptmux;"@ + replaced(escape, '\u{1b}', "\u{1b}\u{1b}"@) + "\u{1b}\\"@,
            )
        }),
{
}

} // verus!
