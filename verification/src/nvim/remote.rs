//! Remote Neovim reuse through an already-authenticated SSH connection.

use vstd::prelude::*;
use vstd::string::*;

use crate::nvim::tool_path::{assignment, home_or_default, policy, remote_assignment};
use crate::shell::{quote, quoted};
use crate::ssh::{mux_only, setting, setting_of, setting_texts, sets_option};
use crate::text::{
    chars_of, lowered, opt_str, owned, same, split, split_char, strings, texts, to_lower, trim,
    trimmed,
};

verus! {

/// Whether a character may stand in a host name.
pub open spec fn host_char(c: char) -> bool {
    ||| 'a' <= c <= 'z'
    ||| 'A' <= c <= 'Z'
    ||| '0' <= c <= '9'
    ||| c == '_' || c == '.' || c == '-'
}

/// Whether a text is a host name: plain characters, no leading dot and no two
/// dots in a row.
pub open spec fn is_host(host: Seq<char>) -> bool {
    &&& host.len() > 0
    &&& host[0] != '.'
    &&& forall|i: int| 0 <= i < host.len() ==> host_char(#[trigger] host[i])
    &&& forall|i: int| 0 < i < host.len() && #[trigger] host[i] == '.' ==> host[i - 1] != '.'
}

/// Whether a text is a host name.
pub fn valid_host(host: &str) -> (result: bool)
    ensures
        result == is_host(host@),
{
    let chars = chars_of(host);
    if chars.len() == 0 || chars[0] == '.' {
        return false;
    }
    let mut i: usize = 0;
    while i < chars.len()
        invariant
            i <= chars.len(),
            chars@ == host@,
            chars@.len() > 0 && chars@[0] != '.',
            forall|j: int| 0 <= j < i ==> host_char(#[trigger] host@[j]),
            forall|j: int| 0 < j < i && #[trigger] host@[j] == '.' ==> host@[j - 1] != '.',
        decreases chars.len() - i,
    {
        let c = chars[i];
        if !(('a' <= c && c <= 'z') || ('A' <= c && c <= 'Z') || ('0' <= c && c <= '9') || c == '_'
            || c == '.' || c == '-') {
            assert(!host_char(host@[i as int]));
            return false;
        }
        if c == '.' && chars[i - 1] == '.' {
            assert(host@[i as int] == '.');
            return false;
        }
        i = i + 1;
    }
    true
}

/// Whether a host is on a comma-separated list.
pub open spec fn listed(allowed: Seq<char>, host: Seq<char>) -> bool {
    exists|i: int|
        0 <= i < split(allowed, ',').len() && trimmed(#[trigger] split(allowed, ',')[i]) == host
}

/// Whether the configured list allows a host; without a list none is allowed.
pub fn allowed_host(allowed: Option<&str>, host: &str) -> (result: bool)
    ensures
        result == (allowed is Some && listed(allowed->0@, host@)),
{
    let list = match allowed {
        Some(list) => list,
        None => {
            return false;
        },
    };
    let candidates = split_char(list, ',');
    let ghost all = split(list@, ',');
    let mut i: usize = 0;
    while i < candidates.len()
        invariant
            i <= candidates.len(),
            texts(candidates@) == all,
            allowed is Some && all == split(allowed->0@, ','),
            forall|j: int| 0 <= j < i ==> trimmed(#[trigger] all[j]) != host@,
        decreases candidates.len() - i,
    {
        assert(all[i as int] == candidates@[i as int]@);
        if same(trim(candidates[i]), host) {
            return true;
        }
        i = i + 1;
    }
    false
}

/// The options that let a session run only through an exact mux socket. If the
/// master has vanished, a command that always fails stands in for the network,
/// and no authentication method is left.
pub open spec fn mux_options(control_path: Seq<char>) -> Seq<Seq<char>> {
    seq![
        "-S"@,
        control_path,
        "-o"@,
        "ControlMaster=no"@,
        "-o"@,
        "CanonicalizeHostname=no"@,
        "-o"@,
        "ProxyJump=none"@,
        "-o"@,
        "ProxyCommand=/bin/false"@,
        "-o"@,
        "ClearAllForwardings=yes"@,
        "-o"@,
        "ForwardAgent=no"@,
        "-o"@,
        "ForwardX11=no"@,
        "-o"@,
        "ForwardX11Trusted=no"@,
        "-o"@,
        "BatchMode=yes"@,
        "-o"@,
        "ConnectTimeout=1"@,
        "-o"@,
        "ConnectionAttempts=1"@,
        "-o"@,
        "NumberOfPasswordPrompts=0"@,
        "-o"@,
        "PasswordAuthentication=no"@,
        "-o"@,
        "KbdInteractiveAuthentication=no"@,
        "-o"@,
        "PubkeyAuthentication=no"@,
        "-o"@,
        "GSSAPIAuthentication=no"@,
        "-o"@,
        "HostbasedAuthentication=no"@,
    ]
}

/// Opening a target on a host uses the connection that is there, or none: no
/// way to the network is left, no authentication, and nothing is forwarded.
pub proof fn lemma_open_stays_on_the_mux(
    control_path: Seq<char>,
    host: Seq<char>,
    command: Seq<char>,
)
    ensures
        ({
            let arguments = mux_options(control_path) + seq![host, command];
            &&& mux_only(arguments, control_path)
            &&& sets_option(arguments, "ClearAllForwardings=yes"@)
            &&& sets_option(arguments, "ForwardAgent=no"@)
            &&& sets_option(arguments, "NumberOfPasswordPrompts=0"@)
            &&& sets_option(arguments, "PasswordAuthentication=no"@)
            &&& sets_option(arguments, "KbdInteractiveAuthentication=no"@)
            &&& sets_option(arguments, "PubkeyAuthentication=no"@)
            &&& sets_option(arguments, "GSSAPIAuthentication=no"@)
            &&& sets_option(arguments, "HostbasedAuthentication=no"@)
        }),
{
    let arguments = mux_options(control_path) + seq![host, command];
    assert(arguments[2] == "-o"@ && arguments[3] == "ControlMaster=no"@);
    assert(arguments[4] == "-o"@ && arguments[5] == "CanonicalizeHostname=no"@);
    assert(arguments[6] == "-o"@ && arguments[7] == "ProxyJump=none"@);
    assert(arguments[8] == "-o"@ && arguments[9] == "ProxyCommand=/bin/false"@);
    assert(arguments[10] == "-o"@ && arguments[11] == "ClearAllForwardings=yes"@);
    assert(arguments[12] == "-o"@ && arguments[13] == "ForwardAgent=no"@);
    assert(arguments[18] == "-o"@ && arguments[19] == "BatchMode=yes"@);
    assert(arguments[24] == "-o"@ && arguments[25] == "NumberOfPasswordPrompts=0"@);
    assert(arguments[26] == "-o"@ && arguments[27] == "PasswordAuthentication=no"@);
    assert(arguments[28] == "-o"@ && arguments[29] == "KbdInteractiveAuthentication=no"@);
    assert(arguments[30] == "-o"@ && arguments[31] == "PubkeyAuthentication=no"@);
    assert(arguments[32] == "-o"@ && arguments[33] == "GSSAPIAuthentication=no"@);
    assert(arguments[34] == "-o"@ && arguments[35] == "HostbasedAuthentication=no"@);
}

/// The options that let a session run only through an exact mux socket.
pub fn mux_only_options(control_path: &str) -> (options: Vec<String>)
    ensures
        strings(options@) == mux_options(control_path@),
{
    let options = owned(
        &vec![
            "-S",
            control_path,
            "-o",
            "ControlMaster=no",
            "-o",
            "CanonicalizeHostname=no",
            "-o",
            "ProxyJump=none",
            "-o",
            "ProxyCommand=/bin/false",
            "-o",
            "ClearAllForwardings=yes",
            "-o",
            "ForwardAgent=no",
            "-o",
            "ForwardX11=no",
            "-o",
            "ForwardX11Trusted=no",
            "-o",
            "BatchMode=yes",
            "-o",
            "ConnectTimeout=1",
            "-o",
            "ConnectionAttempts=1",
            "-o",
            "NumberOfPasswordPrompts=0",
            "-o",
            "PasswordAuthentication=no",
            "-o",
            "KbdInteractiveAuthentication=no",
            "-o",
            "PubkeyAuthentication=no",
            "-o",
            "GSSAPIAuthentication=no",
            "-o",
            "HostbasedAuthentication=no",
        ],
    );
    assert(strings(options@) =~= mux_options(control_path@));
    options
}

/// Arguments as words of a shell command, each after a space.
pub open spec fn spaced(arguments: Seq<Seq<char>>) -> Seq<char>
    decreases arguments.len(),
{
    if arguments.len() == 0 {
        Seq::empty()
    } else {
        spaced(arguments.drop_last()) + " "@ + quoted(arguments.last())
    }
}

/// The shell command that opens a target on another host.
pub open spec fn opener_command(
    home: Option<Seq<char>>,
    configured: Option<Seq<char>>,
    arguments: Seq<Seq<char>>,
) -> Seq<char> {
    assignment(home_or_default(home), policy(configured))
        + "; if command -v termnav >/dev/null 2>&1; then termnav nvim open"@ + spaced(arguments)
        + "; else printf \"%s\\n\" \"termnav: remote Neovim opener not found on PATH\" >&2; exit 127; fi"@
}

/// Build the shell command that opens a target on another host, where the
/// environment configures the tool search.
pub fn remote_nvim_command_for(
    home: Option<&str>,
    configured: Option<&str>,
    arguments: &[&str],
) -> (command: String)
    ensures
        command@ == opener_command(opt_str(home), opt_str(configured), texts(arguments@)),
{
    let mut command = remote_assignment(home, configured);
    command.append("; if command -v termnav >/dev/null 2>&1; then termnav nvim open");
    let ghost prefix = command@;
    let ghost all = texts(arguments@);
    let mut i: usize = 0;
    assert(command@ =~= prefix + spaced(all.take(0)));
    while i < arguments.len()
        invariant
            i <= arguments.len(),
            all == texts(arguments@),
            command@ == prefix + spaced(all.take(i as int)),
        decreases arguments.len() - i,
    {
        command.append(" ");
        command.append(quote(arguments[i]).as_str());
        assert(all.take(i + 1).drop_last() =~= all.take(i as int));
        assert(all.take(i + 1).last() == arguments@[i as int]@);
        i = i + 1;
        assert(command@ =~= prefix + spaced(all.take(i as int)));
    }
    assert(all.take(i as int) =~= all);
    command.append(
        "; else printf \"%s\\n\" \"termnav: remote Neovim opener not found on PATH\" >&2; exit 127; fi",
    );
    assert(command@ =~= opener_command(opt_str(home), opt_str(configured), all));
    command
}

/// Build the shell command that opens a target on another host.
#[must_use]
pub fn remote_nvim_command(arguments: &[&str]) -> (command: String)
    ensures
        command@ == opener_command(None, None, texts(arguments@)),
{
    remote_nvim_command_for(None, None, arguments)
}

/// The mux socket that a configuration names.
pub open spec fn control_socket(settings: Seq<(Seq<char>, Seq<char>)>) -> Option<Seq<char>> {
    match setting(settings, "controlpath"@) {
        Some(path) if lowered(path) != "none"@ => Some(path),
        _ => None,
    }
}

/// What a request to open a target on another host comes to.
#[derive(Debug, PartialEq, Eq)]
pub enum Connection {
    /// Nothing is run: the exit status.
    Refused(i32),
    /// SSH is run with these arguments.
    Run(Vec<String>),
}

/// The exit status of a host that may not be contacted.
pub fn admission(host: &str, allowed: Option<&str>) -> (refusal: Option<i32>)
    ensures
        refusal == (if !is_host(host@) {
            Some(11i32)
        } else if !(allowed is Some && listed(allowed->0@, host@)) {
            Some(13i32)
        } else {
            None
        }),
{
    if !valid_host(host) {
        Some(11)
    } else if !allowed_host(allowed, host) {
        Some(13)
    } else {
        None
    }
}

/// Open a target remotely without permission to establish a new connection.
///
/// `settings` is the resolved configuration for the host, or nothing where
/// there is no SSH client or it could not resolve one. A request through
/// anything but a named mux socket to an allowed host is refused.
pub fn ssh_open(
    host: &str,
    target: &str,
    allowed: Option<&str>,
    settings: &Option<Vec<(String, String)>>,
    home: Option<&str>,
    configured: Option<&str>,
) -> (connection: Connection)
    ensures
        match connection {
            Connection::Run(arguments) => {
                &&& is_host(host@)
                &&& allowed is Some && listed(allowed->0@, host@)
                &&& settings is Some
                &&& control_socket(setting_texts(settings->0@)) is Some
                &&& strings(arguments@) == mux_options(
                    control_socket(setting_texts(settings->0@))->0,
                ) + seq![
                    host@,
                    opener_command(
                        opt_str(home),
                        opt_str(configured),
                        seq!["link"@, target@, ""@, "terminal"@],
                    ),
                ]
            },
            Connection::Refused(code) => code == (if !is_host(host@) {
                11i32
            } else if !(allowed is Some && listed(allowed->0@, host@)) {
                13i32
            } else {
                10i32
            }) && (code == 10 ==> settings is None || control_socket(
                setting_texts(settings->0@),
            ) is None),
        },
{
    if let Some(code) = admission(host, allowed) {
        return Connection::Refused(code);
    }
    let settings = match settings {
        Some(settings) => settings,
        None => {
            return Connection::Refused(10);
        },
    };
    let control_path = match setting_of(settings.as_slice(), "controlpath") {
        Some(path) => if same(to_lower(path).as_str(), "none") {
            return Connection::Refused(10);
        } else {
            path
        },
        None => {
            return Connection::Refused(10);
        },
    };
    let words = vec!["link", target, "", "terminal"];
    assert(texts(words@) =~= seq!["link"@, target@, ""@, "terminal"@]);
    let command = remote_nvim_command_for(home, configured, words.as_slice());
    let mut arguments = mux_only_options(control_path);
    let ghost options = strings(arguments@);
    arguments.push(String::from_str(host));
    arguments.push(command);
    assert(strings(arguments@) =~= options + seq![host@, command@]);
    Connection::Run(arguments)
}

/// The exit status of a run that ended.
pub fn opened_status(success: bool) -> (code: i32)
    ensures
        code == if success {
            0i32
        } else {
            12i32
        },
{
    if success {
        0
    } else {
        12
    }
}

/// Whether the identity of one exact pane is complete: a kind of multiplexer,
/// its instance and its pane.
pub open spec fn exact_pane(kind: Seq<char>, scope: Seq<char>, pane: Seq<char>) -> bool {
    (kind == "tmux"@ || kind == "wezterm"@) && scope.len() > 0 && pane.len() > 0
}

/// Ask an explicitly configured transport to open a target in one exact pane:
/// the arguments of the helper. Nothing is run for an invalid host, an
/// incomplete identity or without a helper.
pub fn configured_open(
    kind: &str,
    scope: &str,
    pane: &str,
    host: &str,
    target: &str,
    helper: Option<&str>,
) -> (arguments: Option<Vec<String>>)
    ensures
        match arguments {
            Some(arguments) => is_host(host@) && exact_pane(kind@, scope@, pane@) && helper is Some
                && helper->0@.len() > 0 && strings(arguments@) == seq![
                kind@,
                scope@,
                pane@,
                host@,
                target@,
            ],
            None => !is_host(host@) || !exact_pane(kind@, scope@, pane@) || helper is None
                || helper->0@.len() == 0,
        },
{
    if !valid_host(host) {
        return None;
    }
    if !(same(kind, "tmux") || same(kind, "wezterm")) || scope.is_empty() || pane.is_empty() {
        return None;
    }
    match helper {
        Some(helper) => {
            if helper.is_empty() {
                return None;
            }
        },
        None => {
            return None;
        },
    }
    let arguments = owned(&vec![kind, scope, pane, host, target]);
    assert(strings(arguments@) =~= seq![kind@, scope@, pane@, host@, target@]);
    Some(arguments)
}

} // verus!
