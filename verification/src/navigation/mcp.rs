//! The VS Code devserver fallback: its settings and its short exchange.

use vstd::prelude::*;
use vstd::string::*;

use crate::json::{json_string, member, member_of, quote_json, Json, JsonValue};
use crate::navigation::Direction;
use crate::text::{
    any_of, decimal, last_char, parse_number, parsed, push_decimal, rfind_char, same, split,
    split_char, starts_with, texts, trim_end_any, trim_end_where,
};

verus! {

/// What the environment says of the devserver; empty where it says nothing.
pub struct McpEnvironment<'a> {
    pub token_file: &'a str,
    pub address: &'a str,
    pub path: &'a str,
    pub method: &'a str,
    pub tool: &'a str,
    pub previous_command: &'a str,
    pub next_command: &'a str,
}

/// How the devserver is asked.
#[derive(Debug)]
pub struct McpSettings {
    pub token_file: String,
    pub address: String,
    pub path: String,
    pub method: String,
    pub tool: String,
    pub command: String,
}

/// The value, or `default` where it is empty.
pub open spec fn or_default(value: Seq<char>, default: Seq<char>) -> Seq<char> {
    if value.len() == 0 {
        default
    } else {
        value
    }
}

fn value_or(value: &str, default: &str) -> (result: String)
    ensures
        result@ == or_default(value@, default@),
{
    if value.is_empty() {
        String::from_str(default)
    } else {
        String::from_str(value)
    }
}

/// Whether a text is a number up to 255 in plain digits: without a sign and
/// without a leading zero.
pub open spec fn octet(s: Seq<char>) -> bool {
    parsed(s, 255) matches Some(value) && s == decimal(value)
}

fn is_octet(value: &str) -> (result: bool)
    ensures
        result == octet(value@),
{
    match parse_number(value, 255) {
        Some(number) => {
            let mut plain = String::new();
            push_decimal(&mut plain, number);
            assert(plain@ =~= decimal(number as nat));
            same(plain.as_str(), value)
        },
        None => false,
    }
}

/// Whether a text is an IPv4 address of the loopback network.
pub open spec fn loopback_octets(host: Seq<char>) -> bool {
    let octets = split(host, '.');
    &&& octets.len() == 4
    &&& octets[0] == "127"@
    &&& forall|i: int| 0 <= i < 4 ==> octet(#[trigger] octets[i])
}

/// Whether an address stays on this host: a loopback name or number, and a
/// port.
pub open spec fn loopback_address(address: Seq<char>) -> bool {
    let colon = last_char(address, ':');
    &&& colon >= 0
    &&& parsed(address.skip(colon + 1), 65535) is Some
    &&& {
        let host = address.take(colon);
        host == "localhost"@ || host == "[::1]"@ || loopback_octets(host)
    }
}

/// Whether an address stays on this host.
pub fn is_loopback_address(address: &str) -> (result: bool)
    ensures
        result == loopback_address(address@),
{
    let colon: usize = match rfind_char(address, ':') {
        Some(colon) => colon,
        None => {
            return false;
        },
    };
    let length: usize = address.unicode_len();
    let host = address.substring_char(0, colon);
    let port = address.substring_char(colon + 1, length);
    assert(host@ =~= address@.take(colon as int));
    assert(port@ =~= address@.skip(colon + 1));
    if parse_number(port, 65535).is_none() {
        return false;
    }
    if same(host, "localhost") || same(host, "[::1]") {
        return true;
    }
    let octets = split_char(host, '.');
    let ghost parts = split(host@, '.');
    assert(texts(octets@) == parts);
    if octets.len() != 4 {
        return false;
    }
    assert(parts[0] == octets@[0]@);
    if !same(octets[0], "127") {
        return false;
    }
    let mut i: usize = 0;
    while i < 4
        invariant
            i <= 4,
            octets@.len() == 4,
            texts(octets@) == parts,
            parts == split(host@, '.'),
            forall|j: int| 0 <= j < i ==> octet(#[trigger] parts[j]),
            host@ == address@.take(colon as int),
            colon == last_char(address@, ':'),
            host@ != "localhost"@ && host@ != "[::1]"@,
        decreases 4 - i,
    {
        assert(parts[i as int] == octets@[i as int]@);
        if !is_octet(octets[i]) {
            return false;
        }
        i = i + 1;
    }
    true
}

/// Whether the settings are usable: an absolute token file and an address on
/// this host.
pub open spec fn usable(environment: McpEnvironment) -> bool {
    &&& "/"@.is_prefix_of(environment.token_file@)
    &&& loopback_address(or_default(environment.address@, "127.0.0.1:9876"@))
}

/// The editor command that a direction means.
pub open spec fn editor_command(environment: McpEnvironment, direction: Direction) -> Seq<char> {
    if direction is Previous {
        or_default(environment.previous_command@, "workbench.action.terminal.focusPrevious"@)
    } else {
        or_default(environment.next_command@, "workbench.action.terminal.focusNext"@)
    }
}

/// Settle how the devserver is asked, where that is safe.
pub fn settings(environment: &McpEnvironment, direction: Direction) -> (settings: Option<
    McpSettings,
>)
    ensures
        match settings {
            Some(settings) => {
                &&& usable(*environment)
                &&& settings.token_file@ == environment.token_file@
                &&& settings.address@ == or_default(environment.address@, "127.0.0.1:9876"@)
                &&& settings.path@ == or_default(environment.path@, "/mcp"@)
                &&& settings.method@ == or_default(environment.method@, "tools/call"@)
                &&& settings.tool@ == or_default(environment.tool@, "execute_command"@)
                &&& settings.command@ == editor_command(*environment, direction)
            },
            None => !usable(*environment),
        },
{
    if !starts_with(environment.token_file, "/") {
        return None;
    }
    let address = value_or(environment.address, "127.0.0.1:9876");
    if !is_loopback_address(address.as_str()) {
        return None;
    }
    let command = if matches!(direction, Direction::Previous) {
        value_or(environment.previous_command, "workbench.action.terminal.focusPrevious")
    } else {
        value_or(environment.next_command, "workbench.action.terminal.focusNext")
    };
    Some(
        McpSettings {
            token_file: String::from_str(environment.token_file),
            address,
            path: value_or(environment.path, "/mcp"),
            method: value_or(environment.method, "tools/call"),
            tool: value_or(environment.tool, "execute_command"),
            command,
        },
    )
}

/// The token that a token file holds: its text without trailing newlines.
pub fn token_of(content: &str) -> (token: Option<String>)
    ensures
        ({
            let text = trim_end_where(content@, any_of(seq!['\n']));
            match token {
                Some(token) => token@ == text && text.len() > 0,
                None => text.len() == 0,
            }
        }),
{
    let newline: Vec<char> = vec!['\n'];
    assert(newline@ =~= seq!['\n']);
    let text = trim_end_any(content, newline.as_slice());
    if text.is_empty() {
        None
    } else {
        Some(String::from_str(text))
    }
}

/// The request that runs an editor command.
pub open spec fn call_body(method: Seq<char>, tool: Seq<char>, command: Seq<char>) -> Seq<char> {
    "{\"id\":1,\"jsonrpc\":\"2.0\",\"method\":"@ + json_string(method)
        + ",\"params\":{\"arguments\":{\"command\":"@ + json_string(command) + "},\"name\":"@
        + json_string(tool) + "}}"@
}

/// The request that runs an editor command.
pub fn call_request(settings: &McpSettings) -> (body: String)
    ensures
        body@ == call_body(settings.method@, settings.tool@, settings.command@),
{
    let mut body = String::from_str("{\"id\":1,\"jsonrpc\":\"2.0\",\"method\":");
    body.append(quote_json(settings.method.as_str()).as_str());
    body.append(",\"params\":{\"arguments\":{\"command\":");
    body.append(quote_json(settings.command.as_str()).as_str());
    body.append("},\"name\":");
    body.append(quote_json(settings.tool.as_str()).as_str());
    body.append("}}");
    body
}

/// The request that opens the protocol.
pub fn initialize_request() -> (body: &'static str)
    ensures
        body@
            == "{\"id\":1,\"jsonrpc\":\"2.0\",\"method\":\"initialize\",\"params\":{\"capabilities\":{},\"protocolVersion\":\"2024-11-05\"}}"@,
{
    "{\"id\":1,\"jsonrpc\":\"2.0\",\"method\":\"initialize\",\"params\":{\"capabilities\":{},\"protocolVersion\":\"2024-11-05\"}}"
}

/// Where the exchange stands. The endpoint may outlive its initialization
/// state, so a refused call is repeated once after the handshake, and never
/// again.
#[derive(Clone, Copy, Debug, PartialEq, Eq, Structural)]
pub enum Exchange {
    /// The command is asked for.
    Call,
    /// The protocol is opened.
    Initialize,
    /// The command is asked for once more.
    Retry,
    /// The exchange is over.
    Done { handled: bool },
}

/// Whether a response was understood and reports no error.
pub open spec fn accepted(response: Option<JsonValue>) -> bool {
    response matches Some(json) && member(json, "error"@) is None
}

/// What follows a response.
pub open spec fn after(exchange: Exchange, response: Option<JsonValue>) -> Exchange {
    match exchange {
        Exchange::Call => if accepted(response) {
            Exchange::Done { handled: true }
        } else if response is Some {
            Exchange::Initialize
        } else {
            Exchange::Done { handled: false }
        },
        Exchange::Initialize => if accepted(response) {
            Exchange::Retry
        } else {
            Exchange::Done { handled: false }
        },
        Exchange::Retry => Exchange::Done { handled: accepted(response) },
        done => done,
    }
}

/// Take a response and go on.
pub fn advance(exchange: Exchange, response: &Option<Json>) -> (next: Exchange)
    ensures
        next == after(
            exchange,
            match response {
                Some(json) => Some(json@),
                None => None,
            },
        ),
{
    let fine = match response {
        Some(json) => member_of(json, "error").is_none(),
        None => false,
    };
    match exchange {
        Exchange::Call => {
            if fine {
                Exchange::Done { handled: true }
            } else if response.is_some() {
                Exchange::Initialize
            } else {
                Exchange::Done { handled: false }
            }
        },
        Exchange::Initialize => {
            if fine {
                Exchange::Retry
            } else {
                Exchange::Done { handled: false }
            }
        },
        Exchange::Retry => Exchange::Done { handled: fine },
        done => done,
    }
}

/// Whatever the server answers, the exchange is over after three responses,
/// and a lost response ends it at once without success.
pub proof fn lemma_exchange_is_short(
    first: Option<JsonValue>,
    second: Option<JsonValue>,
    third: Option<JsonValue>,
)
    ensures
        after(after(after(Exchange::Call, first), second), third) is Done,
        first is None ==> after(Exchange::Call, first) == (Exchange::Done { handled: false }),
        after(after(after(Exchange::Call, first), second), third) == (Exchange::Done {
            handled: true,
        }) ==> accepted(first) || (accepted(second) && accepted(third)),
{
}

} // verus!
