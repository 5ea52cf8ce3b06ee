//! What is read from whole listings, files and messages: the readings of their
//! parts, one after the other.

use vstd::prelude::*;
use vstd::string::*;
use vstd::utf8::*;

use crate::click::capture::{click_row, from_joined_capture, is_click_row, joined_target, locate};
use crate::click::hyperlink::{
    decoded, from_hyperlink, is_loopback, known_names, link_target, local_file_host, percent_decode,
    unescaped,
};
use crate::click::tokens::{
    bare, from_line, line_target, positions, ranges_from, spaced_reference, spaced_rfc,
    token_ranges, trim_token,
};
use crate::click::{Detectors, Finding, Verdict};
use crate::commands::eza::{gathered, rewrite_stream, rewritten};
use crate::digest::{digest_prefix, hex_text};
use crate::focus::publish::{current_claim, forwarded_line, forwarded_reply};
use crate::focus::{
    claim_of, client_focused, client_pane, focus_in, pane_in, run_at, watcher_arguments_match,
    watcher_command_matches,
};
use crate::http::{header_texts, http_request, post_request, response_body};
use crate::json::{json_object, json_text, Json, MemberValue};
use crate::laws::text::lemma_find_text;
use crate::navigation::mcp::{after, advance, initialize_request, Exchange};
use crate::navigation::outer::answer_text;
use crate::navigation::system::{
    all_clients, client_fields, client_row, client_rows, identity_of, inspect_scope, listed,
    parse_clients, same_route, socket_of, tmux_identity, tmux_socket, TmuxOutput,
};
use crate::navigation::{Client, Scope};
use crate::nvim::foreground::{parse_snapshot, process_row, process_rows};
use crate::nvim::open::{augmented, augmented_tool_paths, nvim_panes, nvim_rows, vim_quote};
use crate::nvim::registry::{
    distinct_sockets, first_occurrences, flattened, legacy_name, legacy_pane_key, newer, pane_key,
    pane_key_for, read_record, record_fields, record_in, sort_records, Record,
};
use crate::nvim::remote::{
    mux_only_options, mux_options, opener_command, remote_nvim_command, remote_nvim_command_for,
};
use crate::nvim::tool_path::{
    assignment, fallback_paths, fallbacks, rebased, remote_assignment, remote_assignment_for,
    remote_path,
};
use crate::nvim::transport::{
    command_host, pane_fields, pane_row, pane_rows, parse_panes, parse_remote_command, PaneRow,
};
use crate::paths::{
    absolute, after_parts, back_trimmed, beneath, ends_in, front_trimmed, is_beneath, parts,
    parts_of, path_ends_in, relative, relative_to,
};
use crate::process::{
    block_value, command_arguments, environment_bytes, environment_value, parse_command_line,
    parse_environment, status_line_parent, status_parent,
};
use crate::relay::client::new_nonce;
use crate::relay::protocol::{navigate_request, reply_line};
use crate::relay::server::{operation_of, read_request, Operation};
use crate::relay::store::{
    claim_order, claim_plan, claim_steps, give_up, matching_exists, outstanding, poison_mark,
    valid_nonce, Directive, Entry, LostReply, Step,
};
use crate::runtime::{socket_directory, socket_root};
use crate::ssh::{
    cancel_arguments, cancel_forward, effective_config, enhanced_arguments, holds, is_termnav_shim,
    is_termnav_shim_dir, setting, setting_lines, setting_of, setting_texts, with_relay,
};
use crate::text::{
    decimal, find_text, joined, lemma_first_where, just, lines, lowered, opt_str, opt_text,
    opt_texts, strings, texts, utf8_lossy,
};
use crate::vscode::{
    concerned, parse_rows, row_of, rows_of, select_clients, ClientRow, Operation as Update,
};

verus! {

/// A listing of clients is read row by row; a malformed row is passed over, and
/// of a failed listing nothing is read.
pub proof fn lemma_client_listings(
    socket: &str,
    text: &str,
    clients: Vec<Client>,
    output: Option<TmuxOutput>,
    shown: Vec<Client>,
    rows: Seq<Seq<char>>,
    row: Seq<char>,
)
    requires
        call_ensures(parse_clients, (socket, text), clients),
        call_ensures(all_clients, (socket, &output), shown),
    ensures
        client_fields(clients@) == client_rows(socket@, lines(text@)),
        client_rows(socket@, Seq::empty()).len() == 0,
        client_row(socket@, row) matches Some(client) ==> client_rows(socket@, rows.push(row))
            == client_rows(socket@, rows).push(client),
        client_row(socket@, row) is None ==> client_rows(socket@, rows.push(row)) == client_rows(
            socket@,
            rows,
        ),
        client_fields(shown@) == listed(socket@, output),
{
    assert(rows.push(row).drop_last() =~= rows);
}

/// The environment of a process names its pane, and a listed client is compared
/// with the one that was recorded.
pub proof fn lemma_identities(
    tmux: &str,
    pane: &str,
    socket: Option<String>,
    identity: Option<(String, String)>,
    current: Client,
    expected: Client,
    same: bool,
)
    requires
        call_ensures(socket_of, (tmux,), socket),
        call_ensures(identity_of, (tmux, pane), identity),
        call_ensures(same_route, (&current, &expected), same),
    ensures
        opt_text(socket) == tmux_socket(tmux@),
        identity is Some <==> tmux_identity(tmux@, pane@) is Some,
        identity matches Some((a, b)) ==> tmux_identity(tmux@, pane@) == Some((a@, b@)),
        same ==> current.pid == expected.pid && current.tty@ == expected.tty@ && current.pane@
            == expected.pane@ && current.socket@ == expected.socket@,
        same && expected.created != 0 ==> current.created == expected.created,
        same && expected.session@.len() > 0 ==> current.session@ == expected.session@,
{
}

/// A scope keeps its server and pane when its session is looked for.
pub proof fn lemma_inspections(
    clients: Vec<Client>,
    scope: Scope,
    started_at: u64,
    found: (Option<Scope>, Option<Client>),
)
    requires
        call_ensures(inspect_scope, (&clients, &scope, started_at), found),
    ensures
        found.0 matches Some(resolved) ==> resolved.socket@ == scope.socket@ && resolved.pane@
            == scope.pane@ && resolved.session is Some && (scope.session is Some
            ==> resolved.session->0@ == scope.session->0@),
        scope.session is Some ==> found.0 is Some,
{
}

/// The effective configuration is read line by line, and a setting by its name.
pub proof fn lemma_configurations(
    output: &[u8],
    settings: Vec<(String, String)>,
    given: &[(String, String)],
    name: &str,
    value: Option<&str>,
)
    requires
        call_ensures(effective_config, (output,), settings),
        call_ensures(setting_of, (given, name), value),
    ensures
        setting_texts(settings@) == setting_lines(lines(utf8_lossy(output@))),
        opt_str(value) == setting(setting_texts(given@), name@),
{
}

/// The command lines of SSH are those that the laws on them speak of.
pub proof fn lemma_ssh_command_lines(
    arguments: &[String],
    destination: usize,
    local: &str,
    remote: &str,
    enhanced: Vec<String>,
    path: &str,
    host: &str,
    cancel: Vec<String>,
)
    requires
        destination < arguments@.len(),
        call_ensures(enhanced_arguments, (arguments, destination, local, remote), enhanced),
        call_ensures(cancel_forward, (path, host, remote, local), cancel),
    ensures
        strings(enhanced@) == with_relay(strings(arguments@), destination as int, local@, remote@),
        strings(cancel@) == cancel_arguments(path@, host@, remote@, local@),
{
}

/// A shim is known by either of its marks, and a directory of shims by its end.
pub proof fn lemma_shims(prefix: &[u8], shim: bool, directory: &str, shims: bool)
    requires
        call_ensures(is_termnav_shim, (prefix,), shim),
        call_ensures(is_termnav_shim_dir, (directory,), shims),
    ensures
        shim <==> holds(prefix@, "# termnav-ssh-shim-v1"@) || holds(
            prefix@,
            "# Keep SSH interposition inherited by child processes"@,
        ),
        shims <==> ends_in(directory@, "share/termnav/shims"@),
{
}

/// A link is read by its scheme, and a percent-encoded text byte by byte.
pub proof fn lemma_links_are_read(
    names: Option<Vec<String>>,
    uri: &str,
    finding: Finding,
    value: &str,
    text: String,
    plain: Seq<char>,
)
    requires
        call_ensures(from_hyperlink, (&names, uri), finding),
        call_ensures(percent_decode, (value,), text),
    ensures
        finding@ == link_target(known_names(names), uri@),
        text@ == decoded(value@),
        unescaped(encode_utf8(value@)) == encode_utf8(plain) ==> text@ == plain,
{
    encode_utf8_valid_utf8(plain);
    encode_utf8_decode_utf8(plain);
}

/// A host is this one by a loopback name or by one of its own names, in any
/// case.
pub proof fn lemma_local_hosts(names: &[String], host: &str, local: bool, loopback: bool)
    requires
        call_ensures(local_file_host, (names, host), local),
        call_ensures(is_loopback, (host,), loopback),
    ensures
        loopback <==> host@.len() == 0 || lowered(host@) == "localhost"@ || lowered(host@)
            == "127.0.0.1"@ || lowered(host@) == "::1"@,
        local <==> loopback || exists|i: int|
            0 <= i < names@.len() && lowered(#[trigger] strings(names@)[i]) == lowered(host@),
{
    assert(lowered(host@).len() == host@.len());
    assert(strings(names@).len() == names@.len());
}

/// A line is read at a position, and its tokens are found in order.
pub proof fn lemma_lines_are_read(
    detectors: Detectors,
    line: &str,
    x: usize,
    finding: Finding,
    ranges: Vec<(usize, usize)>,
    token: &str,
    stripped: &str,
    reference: Option<String>,
)
    requires
        call_ensures(from_line, (&detectors, line, x), finding),
        call_ensures(token_ranges, (line,), ranges),
        call_ensures(trim_token, (token,), stripped),
        call_ensures(spaced_rfc, (line, x), reference),
    ensures
        finding@ == line_target(detectors, line@, x as int),
        positions(ranges@) == ranges_from(line@, 0),
        stripped@ == bare(token@),
        opt_text(reference) == spaced_reference(
            line@,
            x as int,
            crate::patterns::regex_all_groups(r"(?i)(RFC[[:space:]-]+([0-9]{3,5}))"@, line@),
        ),
{
}

/// A clicked row is read within its joined line, at the position that the rows
/// before it shift it to, and by itself where that gives nothing.
pub proof fn lemma_rows_are_read(
    detectors: Detectors,
    rows: Seq<Seq<char>>,
    logical: Seq<Seq<char>>,
    row: int,
    x: int,
    line: int,
    offset: int,
)
    requires
        locate(rows, logical, 0, 0, row) == Some(
            crate::click::capture::Place::Within { line, offset },
        ),
        x + offset <= usize::MAX,
    ensures
        ({
            let whole = line_target(detectors, logical[line], x + offset);
            let alone = line_target(detectors, rows[row], x);
            let verdict = joined_target(detectors, rows, logical, row, x);
            &&& whole != Verdict::Settled(None) ==> verdict == whole
            &&& whole == Verdict::Settled(None) ==> verdict == alone
        }),
{
}

/// The clicked row of a capture, and what it denotes.
pub proof fn lemma_captures_are_read(
    detectors: Detectors,
    physical: &[String],
    joined_rows: &[String],
    row: usize,
    x: usize,
    finding: Finding,
    y: Option<usize>,
    line: &str,
    top: Option<usize>,
    found: Option<usize>,
)
    requires
        call_ensures(from_joined_capture, (&detectors, physical, joined_rows, row, x), finding),
        call_ensures(click_row, (physical, y, line, top), found),
    ensures
        finding@ == joined_target(
            detectors,
            strings(physical@),
            strings(joined_rows@),
            row as int,
            x as int,
        ),
        is_click_row(
            strings(physical@),
            y,
            line@,
            top,
            match found {
                Some(found) => Some(found as int),
                None => None,
            },
        ),
{
}

/// A stream is rewritten as if it came in one piece.
pub proof fn lemma_streams(
    chunks: &[Vec<u8>],
    pattern: &[u8],
    replacement: &[u8],
    output: Vec<u8>,
    more: Seq<Vec<u8>>,
    chunk: Vec<u8>,
)
    requires
        pattern@.len() > 0,
        call_ensures(rewrite_stream, (chunks, pattern, replacement), output),
    ensures
        output@ == rewritten(gathered(chunks@), pattern@, replacement@),
        gathered(more.push(chunk)) == gathered(more) + chunk@,
        gathered(Seq::empty()) == Seq::<u8>::empty(),
{
    assert(more.push(chunk).drop_last() =~= more);
}

/// A digest is written in hexadecimal, and its name is the beginning of that.
pub proof fn lemma_digest_names(
    value: &str,
    length: usize,
    name: String,
    bytes: &[u8; 6],
    nonce: String,
    text: &str,
    valid: bool,
)
    requires
        length <= 64,
        call_ensures(digest_prefix, (value, length), name),
        call_ensures(new_nonce, (bytes,), nonce),
        call_ensures(valid_nonce, (text,), valid),
    ensures
        name@ == hex_text(crate::digest::sha256(encode_utf8(value@))).take(length as int),
        name@.len() == length,
        nonce@ == hex_text(bytes@) && nonce@.len() == 12,
        text@ == nonce@ ==> valid,
        valid ==> text@.len() == 12,
{
    crate::digest::lemma_hex_shape(bytes@);
    assert forall|i: int| 0 <= i < 12 implies crate::navigation::outer::is_hex_digit(
        #[trigger] nonce@[i],
    ) by {
        assert(crate::digest::is_hex_char(nonce@[i]));
    }
}

/// The focus and the pane of a client are read from their listings, and the
/// lease of a pane from its option.
pub proof fn lemma_focus_readings(
    listing: &str,
    pid: u32,
    tty: &str,
    focused: Option<bool>,
    pane: Option<String>,
    output: Option<TmuxOutput>,
    lease: Option<String>,
)
    requires
        call_ensures(client_focused, (listing, pid, tty), focused),
        call_ensures(client_pane, (listing, pid, tty), pane),
        call_ensures(current_claim, (&output,), lease),
    ensures
        focused == focus_in(lines(listing@), pid, tty@),
        opt_text(pane) == pane_in(lines(listing@), pid, tty@),
        lease is Some <==> answer_text(output) is Some && claim_of(answer_text(output)->0) is Some,
        lease is Some ==> answer_text(output) == Some(lease->0@),
{
}

/// A watcher is known by its arguments wherever they stand together, as
/// arguments or in a command line.
pub proof fn lemma_watchers(
    before: Seq<Seq<char>>,
    behind: Seq<Seq<char>>,
    arguments: &[String],
    expected: &[String],
    result: bool,
    left: Seq<char>,
    right: Seq<char>,
    command: &str,
    known: bool,
)
    requires
        expected@.len() > 0,
        call_ensures(watcher_arguments_match, (arguments, expected), result),
        call_ensures(watcher_command_matches, (command, expected), known),
    ensures
        run_at(before + strings(expected@) + behind, strings(expected@), before.len() as int),
        result ==> arguments@.len() >= expected@.len(),
        command@ == left + joined(strings(expected@), " "@) + right ==> known,
        known ==> command@.len() >= joined(strings(expected@), " "@).len(),
{
    let all = strings(arguments@);
    let wanted = strings(expected@);
    assert(all.len() == arguments@.len() && wanted.len() == expected@.len());
    let n = before.len() as int;
    assert((before + wanted + behind).subrange(n, n + wanted.len()) =~= wanted);
    let text = joined(wanted, " "@);
    lemma_find_text(command@, text, 0);
    if command@ == left + text + right {
        let n = left.len() as int;
        assert(command@.subrange(n, n + text.len()) =~= text);
    }
}

/// A forwarded message is answered by what came back, or by an error.
pub proof fn lemma_forwarding(line: Option<&str>, answer: String)
    requires
        call_ensures(forwarded_reply, (line,), answer),
    ensures
        line is None ==> answer@ == json_object(
            seq![
                ("result"@, MemberValue::Text("error"@)),
                ("v"@, MemberValue::Number(Some(2))),
            ],
        ) + seq!['\n'],
        line is Some ==> answer@ == forwarded_line(line->0@, json_text(line->0@)),
{
}

/// The lines of the relay: a request names the gesture and the nonce, a reply
/// its result, both the version.
pub proof fn lemma_relay_lines(
    scope: &str,
    direction: &str,
    nonce: &str,
    request: String,
    result: &str,
    reply: String,
)
    requires
        call_ensures(navigate_request, (scope, direction, nonce), request),
        call_ensures(reply_line, (result,), reply),
    ensures
        request@ == json_object(
            seq![
                ("direction"@, MemberValue::Text(direction@)),
                ("nonce"@, MemberValue::Text(nonce@)),
                ("op"@, MemberValue::Text("navigate"@)),
                ("scope"@, MemberValue::Text(scope@)),
                ("v"@, MemberValue::Number(Some(2))),
            ],
        ) + seq!['\n'],
        reply@ == json_object(
            seq![
                ("result"@, MemberValue::Text(result@)),
                ("v"@, MemberValue::Number(Some(2))),
            ],
        ) + seq!['\n'],
{
}

/// A request is read by what it asks for.
pub proof fn lemma_requests_are_read(line: &str, request: (Json, Operation))
    requires
        call_ensures(read_request, (line,), request),
    ensures
        request.0@ == json_text(line@),
        request.1@ == operation_of(json_text(line@)),
{
}

/// What a claim and a publication find in the store, and what giving up does to
/// it.
pub proof fn lemma_store_readings(
    entries: &[Entry],
    socket: &str,
    tty: &str,
    pid: u32,
    created: u64,
    steps: Vec<Step>,
    found: (Vec<Step>, bool),
    directive: Directive,
    plan: LostReply,
    waits: bool,
)
    requires
        call_ensures(claim_plan, (entries, socket, tty, pid, created), steps),
        call_ensures(matching_exists, (entries, tty, pid, created), found),
        call_ensures(give_up, (&directive,), plan),
        call_ensures(Directive::waits_for, (&directive, tty, pid, created), waits),
    ensures
        steps@ == claim_steps(
            entries@,
            socket@,
            claim_order(entries@, tty@, pid, created, entries@.len() as int),
        ),
        (found.0@, found.1) == outstanding(entries@, tty@, pid, created, 0),
        plan.directive@ == directive.nonce@ + ".json"@,
        plan.result@ == directive.nonce@ + ".result"@,
        plan.poison@ == poison_mark(
            directive.local_client_tty@,
            directive.local_client_pid,
            directive.local_client_created,
        ),
        waits <==> directive.local_client_tty@ == tty@ && directive.local_client_pid == pid
            && directive.local_client_created == created,
{
}

/// A request over HTTP, and the JSON behind the first empty line of a response.
pub proof fn lemma_http_texts(
    path: &str,
    body: &str,
    headers: &[(&str, &str)],
    request: String,
    head: Seq<char>,
    content: Seq<char>,
    response: &str,
    json: Option<Json>,
)
    requires
        call_ensures(http_request, (path, body, headers), request),
        call_ensures(response_body, (response,), json),
    ensures
        request@ == post_request(path@, body@, header_texts(headers@)),
        response@ == head + "\r\n\r\n"@ + content && find_text(response@, "\r\n\r\n"@, 0) == Some(
            head.len() as int,
        ) ==> (json is Some <==> !(json_text(content) is Invalid)) && (json is Some
            ==> json->0@ == json_text(content)),
        find_text(response@, "\r\n\r\n"@, 0) is None ==> json is None,
{
    reveal_strlit("\r\n\r\n");
    let gap = "\r\n\r\n"@;
    if response@ == head + gap + content {
        assert(response@.skip(head.len() as int + gap.len()) =~= content);
        assert(response@.take(head.len() as int) =~= head);
    }
}

/// The exchange with the devserver goes on by its responses.
pub proof fn lemma_exchange_readings(
    exchange: Exchange,
    response: Option<Json>,
    next: Exchange,
    body: &'static str,
)
    requires
        call_ensures(advance, (exchange, &response), next),
        call_ensures(initialize_request, (), body),
    ensures
        response matches Some(json) ==> next == after(exchange, Some(json@)),
        response is None ==> next == after(exchange, None),
        body@
            == "{\"id\":1,\"jsonrpc\":\"2.0\",\"method\":\"initialize\",\"params\":{\"capabilities\":{},\"protocolVersion\":\"2024-11-05\"}}"@,
{
}

/// Processes and panes are read row by row, malformed rows being passed over.
pub proof fn lemma_process_listings(
    snapshot: &str,
    processes: Vec<crate::nvim::foreground::ProcessRow>,
    listing: &str,
    panes: Vec<PaneRow>,
    rows: Seq<Seq<char>>,
    row: Seq<char>,
)
    requires
        call_ensures(parse_snapshot, (snapshot,), processes),
        call_ensures(parse_panes, (listing,), panes),
    ensures
        crate::nvim::foreground::process_fields(processes@) == process_rows(lines(snapshot@)),
        pane_fields(panes@) == pane_rows(lines(listing@)),
        process_row(row) matches Some(fields) ==> process_rows(rows.push(row)) == process_rows(
            rows,
        ).push(fields),
        process_row(row) is None ==> process_rows(rows.push(row)) == process_rows(rows),
        pane_row(row) matches Some(fields) ==> pane_rows(rows.push(row)) == pane_rows(rows).push(
            fields,
        ),
        pane_row(row) is None ==> pane_rows(rows.push(row)) == pane_rows(rows),
{
    assert(rows.push(row).drop_last() =~= rows);
}

/// The host of a command line, and the panes of editors in a listing.
pub proof fn lemma_command_readings(
    command: &str,
    value: &str,
    host: Option<String>,
    listing: &str,
    panes: Vec<String>,
    text: &str,
    literal: String,
)
    requires
        call_ensures(parse_remote_command, (command, value), host),
        call_ensures(nvim_panes, (listing,), panes),
        call_ensures(vim_quote, (text,), literal),
    ensures
        opt_text(host) == command_host(command@, value@),
        strings(panes@) == nvim_rows(lines(listing@)),
        literal@ == "'"@ + crate::text::replaced(text@, '\'', "''"@) + "'"@,
{
}

/// The keys of a pane in the registry, and the records that are read there.
pub proof fn lemma_registry_readings(
    tmux: &str,
    pane: &str,
    key: String,
    older: String,
    path: &str,
    content: &str,
    owner: Option<&str>,
    record: Option<Record>,
    sockets: Vec<Option<String>>,
    distinct: Vec<String>,
)
    requires
        call_ensures(pane_key_for, (tmux, pane), key),
        call_ensures(legacy_pane_key, (tmux, pane), older),
        call_ensures(read_record, (path, content, owner), record),
        call_ensures(distinct_sockets, (&sockets,), distinct),
    ensures
        key@ == pane_key(tmux@, pane@),
        older@ == flattened(legacy_name(tmux@, pane@)),
        record is Some <==> record_in(path@, content@, opt_str(owner)) is Some,
        record is Some ==> record_in(path@, content@, opt_str(owner)) == Some(record->0@),
        strings(distinct@) == first_occurrences(opt_texts(sockets@)),
{
}

/// Records are put in order without losing any: each is newer than those behind
/// it.
pub proof fn lemma_records_are_sorted(records: Vec<Record>, sorted: Vec<Record>, i: int, j: int)
    requires
        call_ensures(sort_records, (records,), sorted),
        0 <= i < j < sorted@.len(),
    ensures
        newer(sorted@[i]@, sorted@[j]@),
        record_fields(sorted@).to_multiset() == record_fields(records@).to_multiset(),
{
    let all = record_fields(sorted@);
    assert(all[i] == sorted@[i]@ && all[j] == sorted@[j]@);
    assert(newer(all[i], all[j]));
}

/// What another host is told of its search path and of the opener.
pub proof fn lemma_remote_texts(
    home: Option<&str>,
    configured: Option<&str>,
    arguments: &[&str],
    command: String,
    plain: String,
    path: &str,
    options: Vec<String>,
    base: &str,
    rendered: String,
    paths: Vec<String>,
    text: String,
)
    requires
        call_ensures(remote_nvim_command_for, (home, configured, arguments), command),
        call_ensures(remote_nvim_command, (arguments,), plain),
        call_ensures(mux_only_options, (path,), options),
        call_ensures(remote_path, (path, base), rendered),
        call_ensures(fallbacks, (base, configured), paths),
        call_ensures(remote_assignment_for, (base, configured), text),
    ensures
        command@ == opener_command(opt_str(home), opt_str(configured), texts(arguments@)),
        plain@ == opener_command(None, None, texts(arguments@)),
        strings(options@) == mux_options(path@),
        rendered@ == rebased(path@, base@),
        strings(paths@) == fallback_paths(base@, opt_str(configured)),
        text@ == assignment(base@, opt_str(configured)),
{
}

/// An empty search path is no configured one, and a missing home is the
/// variable of that name.
pub proof fn lemma_remote_search_paths(home: Option<&str>, configured: Option<&str>, text: String)
    requires
        call_ensures(remote_assignment, (home, configured), text),
    ensures
        home is Some && configured is Some && configured->0@.len() > 0 ==> text@ == assignment(
            home->0@,
            Some(configured->0@),
        ),
        home is Some && (configured is None || configured->0@.len() == 0) ==> text@ == assignment(
            home->0@,
            None,
        ),
        home is None && (configured is None || configured->0@.len() == 0) ==> text@ == assignment(
            "$HOME"@,
            None,
        ),
{
}

/// The directories in which tools are looked for.
pub proof fn lemma_tool_search(
    home: &str,
    paths: Vec<String>,
    prefix: Option<&str>,
    result: Vec<String>,
)
    requires
        call_ensures(augmented_tool_paths, (home, paths, prefix), result),
    ensures
        strings(result@) == augmented(home@, strings(paths@), opt_str(prefix)),
{
}

/// The relations of paths are those of their parts.
pub proof fn lemma_path_readings(
    a: &str,
    b: &str,
    below: bool,
    ends: bool,
    rest: Option<String>,
    pieces: Vec<&str>,
)
    requires
        call_ensures(is_beneath, (a, b), below),
        call_ensures(path_ends_in, (a, b), ends),
        call_ensures(relative_to, (a, b), rest),
        call_ensures(parts_of, (a,), pieces),
    ensures
        below == beneath(a@, b@),
        ends == ends_in(a@, b@),
        opt_text(rest) == relative(a@, b@),
        texts(pieces@) == parts(a@),
{
}

/// What is left of a path behind its first parts: each part is dropped with the
/// slash before it, and the rest is kept as it is written.
pub proof fn lemma_path_rests(part: Seq<char>, tail: Seq<char>, n: nat)
    requires
        part.len() > 0 && !part.contains('/') && part != seq!['.'],
    ensures
        after_parts(seq!['/'] + part + (seq!['/'] + tail), n + 1) == after_parts(
            seq!['/'] + tail,
            n,
        ),
        after_parts(part + (seq!['/'] + tail), n + 1) == after_parts(seq!['/'] + tail, n),
        after_parts(seq!['/'] + part, 0) == part,
        after_parts(part, 0) == part,
{
    let rest = part + (seq!['/'] + tail);
    let path = seq!['/'] + part + (seq!['/'] + tail);
    assert(path.skip(1) =~= rest);
    assert(part[0] != '/') by {
        if part[0] == '/' {
            assert(part.contains('/'));
        }
    }
    if part.len() == 1 && part[0] == '.' {
        assert(part =~= seq!['.']);
    }
    if part.len() > 1 {
        assert(part.contains(part[1]));
        assert(rest[1] == part[1]);
    }
    assert(rest[0] == part[0]);
    assert(front_trimmed(rest) == rest);
    assert(path[0] == '/');
    assert(front_trimmed(path) == rest);
    assert forall|j: int| 0 <= j < part.len() implies !just('/')(#[trigger] rest[j]) by {
        assert(rest[j] == part[j]);
        assert(part.contains(part[j]));
    }
    assert(just('/')(rest[part.len() as int]));
    lemma_first_where(rest, just('/'), part.len() as int);
    assert(rest.skip(part.len() as int) =~= seq!['/'] + tail);
    assert(front_trimmed(part) == part);
    let last = part.last();
    assert(part.contains(last));
    if part.len() > 1 {
        assert(part.contains(part[part.len() - 2]));
    }
    assert(back_trimmed(part) == part);
    let one = seq!['/'] + part;
    assert(one[0] == '/');
    assert(one.skip(1) =~= part);
    assert(front_trimmed(one) == front_trimmed(part));
}

/// A process is read from its files: its variables, its parent and its
/// arguments.
pub proof fn lemma_process_readings(
    output: &str,
    name: &str,
    printed: Option<String>,
    block: &[u8],
    value: Option<String>,
    status: &str,
    parent: Option<u32>,
    arguments: Vec<String>,
)
    requires
        call_ensures(parse_environment, (output, name), printed),
        call_ensures(environment_bytes, (block, name), value),
        call_ensures(status_parent, (status,), parent),
        call_ensures(parse_command_line, (block,), arguments),
    ensures
        opt_text(printed) == environment_value(output@, name@),
        opt_text(value) == block_value(block@, name@),
        parent is Some <==> status_line_parent(lines(status@)) is Some,
        parent matches Some(pid) ==> status_line_parent(lines(status@)) == Some(pid as nat),
        strings(arguments@) == command_arguments(block@, 0),
{
}

/// Where a socket is kept.
pub proof fn lemma_socket_places(
    configured: Option<&str>,
    temporary: &str,
    uid: u32,
    name: &str,
    path: String,
)
    requires
        call_ensures(socket_directory, (configured, temporary, uid, name), path),
    ensures
        configured is Some && absolute(configured->0@) ==> path@ == socket_root(
            crate::paths::below(configured->0@, "termnav-"@ + decimal(uid as nat)),
            name@,
            uid,
        ),
        configured is None || !absolute(configured->0@) ==> path@ == socket_root(
            crate::paths::below(temporary@, "termnav-"@ + decimal(uid as nat)),
            name@,
            uid,
        ),
{
}

/// The windows that an update goes to are read from the listing, row by row.
pub proof fn lemma_window_listings(
    listing: &str,
    rows: Vec<ClientRow>,
    operation: Update,
    pane: &str,
    pids: Vec<u32>,
    some: Seq<Seq<char>>,
    row: Seq<char>,
)
    requires
        call_ensures(parse_rows, (listing,), rows),
        call_ensures(select_clients, (operation, &rows, pane), pids),
    ensures
        pids@ == concerned(operation, rows_of(lines(listing@)), pane@),
        row_of(row) matches Some(fields) ==> rows_of(some.push(row)) == rows_of(some).push(fields),
        row_of(row) is None ==> rows_of(some.push(row)) == rows_of(some),
{
    assert(some.push(row).drop_last() =~= some);
}

} // verus!
