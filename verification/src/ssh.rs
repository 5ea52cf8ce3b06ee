//! Connection-owned SSH relay supervision.
//!
//! No second authenticated transport is ever opened. `ssh -G` only resolves
//! configuration, the reverse Unix forward is injected into the one session
//! that the user requested, and cleanup addresses an already-resolved local
//! mux socket with a control operation that is structurally unable to reach
//! the network.

use vstd::prelude::*;
use vstd::string::*;

use crate::bytes::{find_from, first_occurrence};
use crate::paths::{ends_in, path_ends_in};
use crate::text::{
    chars_of, concat, cut, from_utf8_lossy, is_any_of, lines, lines_of, lowered, opt_str, owned,
    push_strings, same, split_once, starts_with, strings, strings_from, strip_prefix, texts,
    to_lower, trim, trimmed, utf8_lossy,
};

verus! {

/// The option letters that take no value.
pub open spec fn no_value_flags() -> Seq<char> {
    "46ACGKMNTVXYafgknqstvx"@
}

/// The option letters that take a value.
pub open spec fn value_flags() -> Seq<char> {
    "BbcDEeFIiJLlmOopQRSWw"@
}

fn no_value_flag(flag: char) -> (result: bool)
    ensures
        result == no_value_flags().contains(flag),
{
    let flags = chars_of("46ACGKMNTVXYafgknqstvx");
    is_any_of(flags.as_slice(), flag)
}

fn value_flag(flag: char) -> (result: bool)
    ensures
        result == value_flags().contains(flag),
{
    let flags = chars_of("BbcDEeFIiJLlmOopQRSWw");
    is_any_of(flags.as_slice(), flag)
}

/// How many arguments the option letters from index `i` on take up. A letter
/// that takes a value takes what follows it in the same argument, else the
/// next argument.
pub open spec fn width_from(flags: Seq<char>, i: int) -> Option<int>
    decreases flags.len() - i,
{
    if i < 0 || i >= flags.len() {
        Some(1)
    } else if no_value_flags().contains(flags[i]) {
        width_from(flags, i + 1)
    } else if value_flags().contains(flags[i]) {
        Some(
            if i + 1 < flags.len() {
                1
            } else {
                2
            },
        )
    } else {
        None
    }
}

/// How many arguments an option takes up, where all its letters are known.
pub open spec fn width_of(value: Seq<char>) -> Option<int> {
    if value.len() > 0 && value[0] == '-' {
        width_from(value.skip(1), 0)
    } else {
        None
    }
}

fn option_width(value: &str) -> (width: Option<usize>)
    ensures
        match width {
            Some(width) => width_of(value@) == Some(width as int) && (width == 1 || width == 2),
            None => width_of(value@) is None,
        },
{
    let chars = chars_of(value);
    if chars.len() == 0 || chars[0] != '-' {
        return None;
    }
    let ghost flags = value@.skip(1);
    let mut i: usize = 1;
    while i < chars.len()
        invariant
            1 <= i <= chars.len(),
            chars@ == value@,
            flags == value@.skip(1),
            value@.len() > 0 && value@[0] == '-',
            width_of(value@) == width_from(flags, i - 1),
        decreases chars.len() - i,
    {
        assert(flags[i - 1] == chars@[i as int]);
        if no_value_flag(chars[i]) {
            i = i + 1;
        } else if value_flag(chars[i]) {
            return Some(
                if i + 1 < chars.len() {
                    1
                } else {
                    2
                },
            );
        } else {
            return None;
        }
    }
    Some(1)
}

/// Whether an argument begins with a hyphen.
pub open spec fn hyphened(value: Seq<char>) -> bool {
    "-"@.is_prefix_of(value)
}

/// The index of the destination among the arguments from index `i` on.
pub open spec fn destination_from(arguments: Seq<Seq<char>>, i: int) -> Option<int>
    decreases arguments.len() - i,
{
    if i < 0 || i >= arguments.len() {
        None
    } else if arguments[i] == "--"@ {
        if i + 1 < arguments.len() {
            Some(i + 1)
        } else {
            None
        }
    } else if !hyphened(arguments[i]) || arguments[i] == "-"@ {
        Some(i)
    } else {
        match width_of(arguments[i]) {
            Some(width) => if width > 0 && i + width <= arguments.len() {
                destination_from(arguments, i + width)
            } else {
                None
            },
            None => None,
        }
    }
}

/// The index of the destination among the arguments.
pub fn destination_index(arguments: &[String]) -> (index: Option<usize>)
    ensures
        match index {
            Some(i) => i < arguments@.len() && destination_from(strings(arguments@), 0) == Some(
                i as int,
            ),
            None => destination_from(strings(arguments@), 0) is None,
        },
{
    let ghost all = strings(arguments@);
    let mut i: usize = 0;
    while i < arguments.len()
        invariant
            i <= arguments.len(),
            all == strings(arguments@),
            destination_from(all, 0) == destination_from(all, i as int),
        decreases arguments.len() - i,
    {
        assert(all[i as int] == arguments@[i as int]@);
        let value = arguments[i].as_str();
        if same(value, "--") {
            return if arguments.len() - i > 1 {
                Some(i + 1)
            } else {
                None
            };
        }
        if !starts_with(value, "-") || same(value, "-") {
            return Some(i);
        }
        match option_width(value) {
            Some(width) => {
                if arguments.len() - i < width {
                    return None;
                }
                i = i + width;
            },
            None => {
                return None;
            },
        }
    }
    None
}

/// Whether an argument asks for no session: a control operation, a forward of
/// standard input, a background or a command-less connection.
pub open spec fn sessionless(value: Seq<char>) -> bool {
    ||| "-W"@.is_prefix_of(value)
    ||| "-O"@.is_prefix_of(value)
    ||| {
        &&& value.len() > 1
        &&& value[0] == '-'
        &&& forall|i: int|
            1 <= i < value.len() ==> no_value_flags().contains(#[trigger] value[i])
        &&& exists|i: int| 1 <= i < value.len() && "GNTf"@.contains(#[trigger] value[i])
    }
}

fn is_sessionless(value: &str) -> (result: bool)
    ensures
        result == sessionless(value@),
{
    if starts_with(value, "-W") || starts_with(value, "-O") {
        return true;
    }
    let chars = chars_of(value);
    if chars.len() < 2 || chars[0] != '-' {
        return false;
    }
    let modes = chars_of("GNTf");
    let mut found = false;
    let mut i: usize = 1;
    while i < chars.len()
        invariant
            1 <= i <= chars.len(),
            chars@ == value@,
            modes@ == "GNTf"@,
            !("-W"@.is_prefix_of(value@)) && !("-O"@.is_prefix_of(value@)),
            forall|j: int| 1 <= j < i ==> no_value_flags().contains(#[trigger] value@[j]),
            found == (exists|j: int| 1 <= j < i && "GNTf"@.contains(#[trigger] value@[j])),
        decreases chars.len() - i,
    {
        if !no_value_flag(chars[i]) {
            assert(!no_value_flags().contains(value@[i as int]));
            return false;
        }
        if is_any_of(modes.as_slice(), chars[i]) {
            assert("GNTf"@.contains(value@[i as int]));
            found = true;
        }
        i = i + 1;
    }
    found
}

/// Whether one of the arguments asks for no session.
pub fn control_mode(arguments: &[String]) -> (result: bool)
    ensures
        result == exists|i: int|
            0 <= i < arguments@.len() && sessionless(#[trigger] strings(arguments@)[i]),
{
    let mut i: usize = 0;
    while i < arguments.len()
        invariant
            i <= arguments.len(),
            forall|j: int| 0 <= j < i ==> !sessionless(#[trigger] strings(arguments@)[j]),
        decreases arguments.len() - i,
    {
        assert(strings(arguments@)[i as int] == arguments@[i as int]@);
        if is_sessionless(arguments[i].as_str()) {
            return true;
        }
        i = i + 1;
    }
    false
}

/// Whether an option before the destination asks for a terminal.
pub open spec fn asks_for_tty(arguments: Seq<Seq<char>>, destination: int) -> bool {
    exists|i: int| 0 <= i < destination && "-t"@.is_prefix_of(#[trigger] arguments[i])
}

fn explicit_tty(arguments: &[String], destination: usize) -> (result: bool)
    requires
        destination <= arguments@.len(),
    ensures
        result == asks_for_tty(strings(arguments@), destination as int),
{
    let mut i: usize = 0;
    while i < destination
        invariant
            i <= destination <= arguments@.len(),
            forall|j: int| 0 <= j < i ==> !"-t"@.is_prefix_of(#[trigger] strings(arguments@)[j]),
        decreases destination - i,
    {
        assert(strings(arguments@)[i as int] == arguments@[i as int]@);
        if starts_with(arguments[i].as_str(), "-t") {
            return true;
        }
        i = i + 1;
    }
    false
}

/// Whether a session may be interactive: standard input is a terminal, or an
/// option asks for one.
pub fn interactive(arguments: &[String], destination: usize, stdin_tty: bool) -> (result: bool)
    requires
        destination <= arguments@.len(),
    ensures
        result == (stdin_tty || asks_for_tty(strings(arguments@), destination as int)),
{
    stdin_tty || explicit_tty(arguments, destination)
}

/// Settings as texts.
pub open spec fn setting_texts(settings: Seq<(String, String)>) -> Seq<(Seq<char>, Seq<char>)> {
    Seq::new(settings.len(), |i: int| (settings[i].0@, settings[i].1@))
}

/// The value of a setting: the last one given for it.
pub open spec fn setting(settings: Seq<(Seq<char>, Seq<char>)>, name: Seq<char>) -> Option<
    Seq<char>,
>
    decreases settings.len(),
{
    if settings.len() == 0 {
        None
    } else if settings.last().0 == name {
        Some(settings.last().1)
    } else {
        setting(settings.drop_last(), name)
    }
}

/// The value of a setting.
pub fn setting_of<'a>(settings: &'a [(String, String)], name: &str) -> (value: Option<&'a str>)
    ensures
        opt_str(value) == setting(setting_texts(settings@), name@),
{
    let ghost all = setting_texts(settings@);
    let mut n: usize = settings.len();
    assert(all.take(n as int) =~= all);
    while n > 0
        invariant
            n <= settings.len(),
            all == setting_texts(settings@),
            setting(all, name@) == setting(all.take(n as int), name@),
        decreases n,
    {
        assert(all.take(n as int).last() == all[n - 1]);
        assert(all.take(n as int).drop_last() =~= all.take(n - 1));
        if same(settings[n - 1].0.as_str(), name) {
            return Some(settings[n - 1].1.as_str());
        }
        n = n - 1;
    }
    None
}

/// The setting that a line of `ssh -G` gives.
pub open spec fn setting_line(line: Seq<char>) -> Option<(Seq<char>, Seq<char>)> {
    match cut(line, ' ') {
        Some((key, value)) => Some((lowered(key), trimmed(value))),
        None => None,
    }
}

/// The settings that lines give, in order.
pub open spec fn setting_lines(rows: Seq<Seq<char>>) -> Seq<(Seq<char>, Seq<char>)>
    decreases rows.len(),
{
    if rows.len() == 0 {
        Seq::empty()
    } else {
        let before = setting_lines(rows.drop_last());
        match setting_line(rows.last()) {
            Some(pair) => before.push(pair),
            None => before,
        }
    }
}

/// The effective configuration that `ssh -G` printed.
pub fn effective_config(output: &[u8]) -> (settings: Vec<(String, String)>)
    ensures
        setting_texts(settings@) == setting_lines(lines(utf8_lossy(output@))),
{
    let text = from_utf8_lossy(output);
    let rows = lines_of(text.as_str());
    let ghost all = lines(text@);
    let mut settings: Vec<(String, String)> = Vec::new();
    let mut i: usize = 0;
    assert(setting_texts(settings@) =~= setting_lines(all.take(0)));
    while i < rows.len()
        invariant
            i <= rows.len(),
            texts(rows@) == all,
            setting_texts(settings@) == setting_lines(all.take(i as int)),
        decreases rows.len() - i,
    {
        let ghost before = settings@;
        assert(all.take(i + 1).drop_last() =~= all.take(i as int));
        assert(all.take(i + 1).last() == texts(rows@)[i as int]);
        if let Some((key, value)) = split_once(rows[i], ' ') {
            let pair = (to_lower(key), String::from_str(trim(value)));
            let ghost view = (pair.0@, pair.1@);
            settings.push(pair);
            assert(setting_texts(settings@) =~= setting_texts(before).push(view));
        }
        i = i + 1;
    }
    assert(all.take(i as int) =~= all);
    settings
}

/// The terminal request of a configuration.
pub open spec fn tty_request(settings: Seq<(Seq<char>, Seq<char>)>) -> Seq<char> {
    match setting(settings, "requesttty"@) {
        Some(value) => lowered(value),
        None => "auto"@,
    }
}

/// Whether an option sets the terminal request to one that is always met.
pub open spec fn sets_tty_request(option: Seq<char>) -> bool {
    let parts = match cut(option, '=') {
        Some(parts) => Some(parts),
        None => cut(option, ' '),
    };
    match parts {
        Some((key, value)) => lowered(trimmed(key)) == "requesttty"@ && (lowered(trimmed(value))
            == "yes"@ || lowered(trimmed(value)) == "force"@),
        None => false,
    }
}

fn option_sets_tty_request(option: &str) -> (result: bool)
    ensures
        result == sets_tty_request(option@),
{
    let parts = match split_once(option, '=') {
        Some(parts) => Some(parts),
        None => split_once(option, ' '),
    };
    match parts {
        Some((key, value)) => {
            let value = to_lower(trim(value));
            same(to_lower(trim(key)).as_str(), "requesttty") && (same(value.as_str(), "yes")
                || same(value.as_str(), "force"))
        },
        None => false,
    }
}

/// Whether the argument at index `i` is an option that sets the terminal
/// request, with its text beside it or in the next argument before the
/// destination.
pub open spec fn tty_option_at(arguments: Seq<Seq<char>>, destination: int, i: int) -> bool {
    if arguments[i] == "-o"@ {
        i + 1 < destination && sets_tty_request(arguments[i + 1])
    } else {
        "-o"@.is_prefix_of(arguments[i]) && sets_tty_request(
            arguments[i].skip("-o"@.len() as int),
        )
    }
}

/// Whether an option before the destination sets the terminal request.
pub open spec fn writes_tty_request(arguments: Seq<Seq<char>>, destination: int) -> bool {
    exists|i: int| 0 <= i < destination && #[trigger] tty_option_at(arguments, destination, i)
}

fn written_tty_request(arguments: &[String], destination: usize) -> (result: bool)
    requires
        destination <= arguments@.len(),
    ensures
        result == writes_tty_request(strings(arguments@), destination as int),
{
    let ghost all = strings(arguments@);
    let mut i: usize = 0;
    while i < destination
        invariant
            i <= destination <= arguments@.len(),
            all == strings(arguments@),
            forall|j: int|
                0 <= j < i ==> !#[trigger] tty_option_at(all, destination as int, j),
        decreases destination - i,
    {
        assert(all[i as int] == arguments@[i as int]@);
        let value = arguments[i].as_str();
        let found = if same(value, "-o") {
            if destination - i > 1 {
                assert(all[i + 1] == arguments@[i + 1]@);
                option_sets_tty_request(arguments[i + 1].as_str())
            } else {
                false
            }
        } else {
            match strip_prefix(value, "-o") {
                Some(option) => option_sets_tty_request(option),
                None => false,
            }
        };
        assert(found == tty_option_at(all, destination as int, i as int));
        if found {
            return true;
        }
        i = i + 1;
    }
    false
}

/// Whether the session will have a terminal. A configuration that denies it
/// wins. Without a remote command a request of any origin comes next, and then
/// the terminal of standard input is used. With one, the command line itself
/// has to ask: a request that only the configuration makes does not count.
pub open spec fn has_tty(
    settings: Seq<(Seq<char>, Seq<char>)>,
    arguments: Seq<Seq<char>>,
    destination: int,
    stdin_tty: bool,
) -> bool {
    let request = tty_request(settings);
    if request == "no"@ {
        false
    } else if asks_for_tty(arguments, destination) {
        true
    } else if destination + 1 < arguments.len() {
        (request == "yes"@ || request == "force"@) && writes_tty_request(arguments, destination)
    } else {
        request == "yes"@ || request == "force"@ || request == "auto"@ && stdin_tty
    }
}

/// A session with a remote command has a terminal only where its own command
/// line asks for one, whatever is configured.
pub proof fn lemma_command_asks_for_tty(
    settings: Seq<(Seq<char>, Seq<char>)>,
    arguments: Seq<Seq<char>>,
    destination: int,
    stdin_tty: bool,
)
    requires
        destination + 1 < arguments.len(),
        has_tty(settings, arguments, destination, stdin_tty),
    ensures
        asks_for_tty(arguments, destination) || writes_tty_request(arguments, destination),
{
}

/// Whether the session will have a terminal.
pub fn resolved_tty(
    settings: &[(String, String)],
    arguments: &[String],
    destination: usize,
    stdin_tty: bool,
) -> (result: bool)
    requires
        destination <= arguments@.len(),
    ensures
        result == has_tty(
            setting_texts(settings@),
            strings(arguments@),
            destination as int,
            stdin_tty,
        ),
{
    let request = match setting_of(settings, "requesttty") {
        Some(value) => to_lower(value),
        None => String::from_str("auto"),
    };
    if same(request.as_str(), "no") {
        return false;
    }
    if explicit_tty(arguments, destination) {
        return true;
    }
    let requested = same(request.as_str(), "yes") || same(request.as_str(), "force");
    if arguments.len() - destination > 1 {
        return requested && written_tty_request(arguments, destination);
    }
    requested || same(request.as_str(), "auto") && stdin_tty
}

/// What is done with an SSH invocation before any process is started.
#[derive(Clone, Copy, Debug, PartialEq, Eq, Structural)]
pub enum Intake {
    /// It is run as it is.
    Plain,
    /// Its configuration is resolved: it may be an interactive session with
    /// this destination.
    Probe(usize),
}

/// Whether an invocation may be an interactive session: it has a destination,
/// its options ask for a session, and a terminal may be in play.
pub open spec fn may_be_session(
    arguments: Seq<Seq<char>>,
    destination: int,
    stdin_tty: bool,
) -> bool {
    &&& destination_from(arguments, 0) == Some(destination)
    &&& !exists|i: int| 0 <= i < destination && sessionless(#[trigger] arguments[i])
    &&& stdin_tty || asks_for_tty(arguments, destination)
}

/// Decide what is done with an SSH invocation.
pub fn intake(arguments: &[String], stdin_tty: bool) -> (result: Intake)
    ensures
        match result {
            Intake::Probe(destination) => destination < arguments@.len() && may_be_session(
                strings(arguments@),
                destination as int,
                stdin_tty,
            ),
            Intake::Plain => forall|destination: int|
                #![trigger may_be_session(strings(arguments@), destination, stdin_tty)]
                !may_be_session(strings(arguments@), destination, stdin_tty),
        },
        result is Probe <==> destination_from(strings(arguments@), 0) is Some && may_be_session(
            strings(arguments@),
            destination_from(strings(arguments@), 0)->0,
            stdin_tty,
        ),
{
    let ghost all = strings(arguments@);
    let destination: usize = match destination_index(arguments) {
        Some(i) => i,
        None => {
            return Intake::Plain;
        },
    };
    let options = vstd::slice::slice_subrange(arguments, 0, destination);
    assert(strings(options@) =~= all.take(destination as int));
    if control_mode(options) {
        proof {
            let i = choose|i: int|
                0 <= i < options@.len() && sessionless(#[trigger] strings(options@)[i]);
            assert(all[i] == strings(options@)[i]);
        }
        return Intake::Plain;
    }
    assert forall|i: int| 0 <= i < destination implies !sessionless(#[trigger] all[i]) by {
        assert(all[i] == strings(options@)[i]);
    }
    if !interactive(arguments, destination, stdin_tty) {
        return Intake::Plain;
    }
    Intake::Probe(destination)
}

/// Whether a session with that configuration can carry a relay: it is a login
/// session with a terminal that does not insist on its forwards.
pub open spec fn can_carry_relay(
    settings: Seq<(Seq<char>, Seq<char>)>,
    arguments: Seq<Seq<char>>,
    destination: int,
    stdin_tty: bool,
) -> bool {
    &&& setting(settings, "sessiontype"@) is Some ==> lowered(
        setting(settings, "sessiontype"@)->0,
    ) == "default"@
    &&& setting(settings, "remotecommand"@) is Some ==> lowered(
        setting(settings, "remotecommand"@)->0,
    ) == "none"@
    &&& !(setting(settings, "exitonforwardfailure"@) is Some && lowered(
        setting(settings, "exitonforwardfailure"@)->0,
    ) == "yes"@)
    &&& has_tty(settings, arguments, destination, stdin_tty)
}

/// Whether a setting, where it is given, has that value in any case.
fn setting_is(settings: &[(String, String)], name: &str, wanted: &str) -> (result: Option<bool>)
    ensures
        match result {
            Some(equal) => setting(setting_texts(settings@), name@) is Some && equal == (lowered(
                setting(setting_texts(settings@), name@)->0,
            ) == wanted@),
            None => setting(setting_texts(settings@), name@) is None,
        },
{
    match setting_of(settings, name) {
        Some(value) => Some(same(to_lower(value).as_str(), wanted)),
        None => None,
    }
}

/// Whether a session with that configuration can carry a relay.
pub fn carries_relay(
    settings: &[(String, String)],
    arguments: &[String],
    destination: usize,
    stdin_tty: bool,
) -> (result: bool)
    requires
        destination <= arguments@.len(),
    ensures
        result == can_carry_relay(
            setting_texts(settings@),
            strings(arguments@),
            destination as int,
            stdin_tty,
        ),
{
    if let Some(equal) = setting_is(settings, "sessiontype", "default") {
        if !equal {
            return false;
        }
    }
    if let Some(equal) = setting_is(settings, "remotecommand", "none") {
        if !equal {
            return false;
        }
    }
    if let Some(equal) = setting_is(settings, "exitonforwardfailure", "yes") {
        if equal {
            return false;
        }
    }
    resolved_tty(settings, arguments, destination, stdin_tty)
}

/// Where the options end: before a `--` that precedes the destination.
pub open spec fn options_end(arguments: Seq<Seq<char>>, destination: int) -> int {
    if destination > 0 && arguments[destination - 1] == "--"@ {
        destination - 1
    } else {
        destination
    }
}

/// The options that forward the relay's socket and announce it.
pub open spec fn relay_options(local_socket: Seq<char>, remote_socket: Seq<char>) -> Seq<Seq<char>> {
    seq![
        "-o"@,
        "StreamLocalBindUnlink=yes"@,
        "-o"@,
        "RemoteForward="@ + remote_socket + ":"@ + local_socket,
        "-o"@,
        "SendEnv=TERMNAV_PARENT_RELAY"@,
    ]
}

/// The arguments with the relay's options inserted.
pub open spec fn with_relay(
    arguments: Seq<Seq<char>>,
    destination: int,
    local_socket: Seq<char>,
    remote_socket: Seq<char>,
) -> Seq<Seq<char>> {
    let end = options_end(arguments, destination);
    arguments.take(end) + relay_options(local_socket, remote_socket) + arguments.skip(end)
}

fn forward(remote_socket: &str, local_socket: &str) -> (text: String)
    ensures
        text@ == remote_socket@ + ":"@ + local_socket@,
{
    let mut text = String::from_str(remote_socket);
    text.append(":");
    text.append(local_socket);
    text
}

/// The arguments with the relay's options inserted.
pub fn enhanced_arguments(
    arguments: &[String],
    destination: usize,
    local_socket: &str,
    remote_socket: &str,
) -> (enhanced: Vec<String>)
    requires
        destination < arguments@.len(),
    ensures
        strings(enhanced@) == with_relay(
            strings(arguments@),
            destination as int,
            local_socket@,
            remote_socket@,
        ),
{
    let ghost all = strings(arguments@);
    let end: usize = if destination > 0 && same(arguments[destination - 1].as_str(), "--") {
        destination - 1
    } else {
        destination
    };
    proof {
        if destination > 0 {
            assert(all[destination - 1] == arguments@[destination - 1]@);
        }
    }
    let remote_forward = concat(
        "RemoteForward=",
        forward(remote_socket, local_socket).as_str(),
    );
    assert(remote_forward@ =~= "RemoteForward="@ + remote_socket@ + ":"@ + local_socket@);
    let options = owned(
        &vec![
            "-o",
            "StreamLocalBindUnlink=yes",
            "-o",
            remote_forward.as_str(),
            "-o",
            "SendEnv=TERMNAV_PARENT_RELAY",
        ],
    );
    assert(strings(options@) =~= relay_options(local_socket@, remote_socket@));
    let head = vstd::slice::slice_subrange(arguments, 0, end);
    let mut enhanced: Vec<String> = Vec::new();
    push_strings(&mut enhanced, head);
    push_strings(&mut enhanced, options.as_slice());
    let tail = strings_from(arguments, end);
    push_strings(&mut enhanced, tail.as_slice());
    assert(strings(head@) =~= all.take(end as int));
    assert(strings(enhanced@) =~= with_relay(
        all,
        destination as int,
        local_socket@,
        remote_socket@,
    ));
    enhanced
}

/// Whether reading the arguments from index `i` on comes to index `k`.
pub open spec fn visits(arguments: Seq<Seq<char>>, i: int, k: int) -> bool
    decreases arguments.len() - i,
{
    if i == k {
        true
    } else if i < 0 || i >= arguments.len() || arguments[i] == "--"@ || !hyphened(arguments[i])
        || arguments[i] == "-"@ {
        false
    } else {
        match width_of(arguments[i]) {
            Some(width) => width > 0 && i + width <= arguments.len() && visits(
                arguments,
                i + width,
                k,
            ),
            None => false,
        }
    }
}

proof fn lemma_short_option()
    ensures
        "-o"@ != "--"@,
        "-o"@ != "-"@,
        hyphened("-o"@),
        width_of("-o"@) == Some(2int),
{
    reveal_strlit("-o");
    reveal_strlit("--");
    reveal_strlit("-");
    reveal_strlit("46ACGKMNTVXYafgknqstvx");
    reveal_strlit("BbcDEeFIiJLlmOopQRSWw");
    assert("-o"@[1] == 'o' && "--"@[1] == '-');
    assert("-o"@.len() == 2 && "-"@.len() == 1);
    assert("-"@ =~= "-o"@.subrange(0, 1));
    let flags = "-o"@.skip(1);
    assert(flags =~= seq!['o']);
    assert(!no_value_flags().contains('o'));
    assert(value_flags()[14] == 'o');
    assert(value_flags().contains('o'));
    assert(flags[0] == 'o');
}

proof fn lemma_walk_visits(arguments: Seq<Seq<char>>, i: int, destination: int)
    requires
        0 <= i,
        destination_from(arguments, i) == Some(destination),
    ensures
        0 <= destination < arguments.len(),
        visits(arguments, i, destination) || destination > 0 && arguments[destination - 1]
            == "--"@ && visits(arguments, i, destination - 1),
    decreases arguments.len() - i,
{
    if arguments[i] == "--"@ {
    } else if !hyphened(arguments[i]) || arguments[i] == "-"@ {
    } else {
        let width = width_of(arguments[i])->0;
        lemma_width_bound(arguments[i].skip(1), 0);
        lemma_walk_visits(arguments, i + width, destination);
    }
}

proof fn lemma_width_bound(flags: Seq<char>, i: int)
    requires
        0 <= i,
    ensures
        width_from(flags, i) is Some ==> 1 <= width_from(flags, i)->0 <= 2,
    decreases flags.len() - i,
{
    if i < flags.len() && no_value_flags().contains(flags[i]) {
        lemma_width_bound(flags, i + 1);
    }
}

proof fn lemma_walk_prefix(a: Seq<Seq<char>>, b: Seq<Seq<char>>, i: int, k: int)
    requires
        0 <= i,
        visits(a, i, k),
        k <= a.len() && k <= b.len(),
        a.take(k) == b.take(k),
    ensures
        i <= k,
        destination_from(b, i) == destination_from(b, k),
    decreases a.len() - i,
{
    if i != k {
        let width = width_of(a[i])->0;
        lemma_width_bound(a[i].skip(1), 0);
        lemma_walk_bound(a, i + width, k);
        assert(a.take(k)[i] == a[i] && b.take(k)[i] == b[i]);
        lemma_walk_prefix(a, b, i + width, k);
    }
}

proof fn lemma_walk_bound(a: Seq<Seq<char>>, i: int, k: int)
    requires
        0 <= i,
        visits(a, i, k),
    ensures
        i <= k,
    decreases a.len() - i,
{
    if i != k {
        let width = width_of(a[i])->0;
        lemma_width_bound(a[i].skip(1), 0);
        lemma_walk_bound(a, i + width, k);
    }
}

/// A relay changes neither the destination nor the remote command: OpenSSH
/// reads the same destination, followed by the same arguments, from the
/// enhanced arguments. The one exception is a destination after an option
/// whose value is `--`, as in `-o -- host`.
pub proof fn lemma_relay_keeps_destination(
    arguments: Seq<Seq<char>>,
    destination: int,
    local_socket: Seq<char>,
    remote_socket: Seq<char>,
)
    requires
        destination_from(arguments, 0) == Some(destination),
        destination > 0 && arguments[destination - 1] == "--"@ ==> visits(
            arguments,
            0,
            destination - 1,
        ),
    ensures
        ({
            let enhanced = with_relay(arguments, destination, local_socket, remote_socket);
            &&& destination_from(enhanced, 0) == Some(destination + 6)
            &&& enhanced.skip(destination + 6) == arguments.skip(destination)
        }),
{
    let enhanced = with_relay(arguments, destination, local_socket, remote_socket);
    let options = relay_options(local_socket, remote_socket);
    let end = options_end(arguments, destination);
    lemma_walk_visits(arguments, 0, destination);
    assert(visits(arguments, 0, end));
    assert(enhanced.take(end) =~= arguments.take(end));
    lemma_walk_prefix(arguments, enhanced, 0, end);
    lemma_short_option();
    assert(enhanced[end] == options[0]);
    assert(enhanced[end + 2] == options[2]);
    assert(enhanced[end + 4] == options[4]);
    assert(destination_from(enhanced, end) == destination_from(enhanced, end + 2));
    assert(destination_from(enhanced, end + 2) == destination_from(enhanced, end + 4));
    assert(destination_from(enhanced, end + 4) == destination_from(enhanced, end + 6));
    assert(enhanced[end + 6] == arguments[end]);
    assert(enhanced.skip(destination + 6) =~= arguments.skip(destination));
    if end == destination {
        lemma_walk_prefix(arguments, arguments, 0, end);
        assert(destination_from(arguments, end) == Some(destination));
        lemma_stop(arguments, destination);
    } else {
        assert(enhanced[end + 6] == "--"@);
    }
}

proof fn lemma_stop(arguments: Seq<Seq<char>>, i: int)
    requires
        0 <= i,
        destination_from(arguments, i) == Some(i),
    ensures
        arguments[i] != "--"@,
        !hyphened(arguments[i]) || arguments[i] == "-"@,
{
    if arguments[i] != "--"@ && hyphened(arguments[i]) && arguments[i] != "-"@ {
        let width = width_of(arguments[i])->0;
        lemma_width_bound(arguments[i].skip(1), 0);
        lemma_destination_bound(arguments, i + width);
    }
}

proof fn lemma_destination_bound(arguments: Seq<Seq<char>>, i: int)
    requires
        0 <= i,
    ensures
        destination_from(arguments, i) is Some ==> destination_from(arguments, i)->0 >= i,
    decreases arguments.len() - i,
{
    if i < arguments.len() && arguments[i] != "--"@ && hyphened(arguments[i]) && arguments[i]
        != "-"@ && width_of(arguments[i]) is Some {
        let width = width_of(arguments[i])->0;
        lemma_width_bound(arguments[i].skip(1), 0);
        if i + width <= arguments.len() {
            lemma_destination_bound(arguments, i + width);
        }
    }
}

/// The shared connection whose forward is cancelled afterwards.
pub open spec fn cancel_path(settings: Seq<(Seq<char>, Seq<char>)>) -> Option<Seq<char>> {
    match setting(settings, "controlpath"@) {
        Some(path) if path != "none"@ => Some(path),
        _ => None,
    }
}

/// The shared connection whose forward is cancelled afterwards.
pub fn cancelled_path<'a>(settings: &'a [(String, String)]) -> (path: Option<&'a str>)
    ensures
        opt_str(path) == cancel_path(setting_texts(settings@)),
{
    match setting_of(settings, "controlpath") {
        Some(path) => if same(path, "none") {
            None
        } else {
            Some(path)
        },
        None => None,
    }
}

/// The arguments that cancel a forward through an exact local mux socket. If
/// the socket has vanished, a command that always fails stands in for every
/// way to the network.
pub open spec fn cancel_arguments(
    control_path: Seq<char>,
    destination: Seq<char>,
    remote_socket: Seq<char>,
    local_socket: Seq<char>,
) -> Seq<Seq<char>> {
    seq![
        "-S"@,
        control_path,
        "-o"@,
        "ControlMaster=no"@,
        "-o"@,
        "CanonicalizeHostname=no"@,
        "-o"@,
        "ProxyJump=none"@,
        "-o"@,
        "ProxyCommand=/bin/false"@,
        "-o"@,
        "ClearAllForwardings=yes"@,
        "-o"@,
        "BatchMode=yes"@,
        "-O"@,
        "cancel"@,
        "-R"@,
        remote_socket + ":"@ + local_socket,
        destination,
    ]
}

/// The arguments that cancel a forward through an exact local mux socket.
pub fn cancel_forward(
    control_path: &str,
    destination: &str,
    remote_socket: &str,
    local_socket: &str,
) -> (arguments: Vec<String>)
    ensures
        strings(arguments@) == cancel_arguments(
            control_path@,
            destination@,
            remote_socket@,
            local_socket@,
        ),
{
    let sockets = forward(remote_socket, local_socket);
    let arguments = owned(
        &vec![
            "-S",
            control_path,
            "-o",
            "ControlMaster=no",
            "-o",
            "CanonicalizeHostname=no",
            "-o",
            "ProxyJump=none",
            "-o",
            "ProxyCommand=/bin/false",
            "-o",
            "ClearAllForwardings=yes",
            "-o",
            "BatchMode=yes",
            "-O",
            "cancel",
            "-R",
            sockets.as_str(),
            destination,
        ],
    );
    assert(strings(arguments@) =~= cancel_arguments(
        control_path@,
        destination@,
        remote_socket@,
        local_socket@,
    ));
    arguments
}

/// Whether the arguments set an option of the client.
pub open spec fn sets_option(arguments: Seq<Seq<char>>, option: Seq<char>) -> bool {
    exists|i: int|
        0 <= i < arguments.len() - 1 && #[trigger] arguments[i] == "-o"@ && arguments[i + 1]
            == option
}

/// Whether the client can reach nothing but an exact local mux socket: it
/// shares that connection without becoming its master, and a command that
/// always fails stands in for the network.
pub open spec fn mux_only(arguments: Seq<Seq<char>>, control_path: Seq<char>) -> bool {
    &&& arguments.len() > 1 && arguments[0] == "-S"@ && arguments[1] == control_path
    &&& sets_option(arguments, "ControlMaster=no"@)
    &&& sets_option(arguments, "CanonicalizeHostname=no"@)
    &&& sets_option(arguments, "ProxyJump=none"@)
    &&& sets_option(arguments, "ProxyCommand=/bin/false"@)
    &&& sets_option(arguments, "BatchMode=yes"@)
}

/// Cleaning up after a connection never opens another one.
pub proof fn lemma_cancel_stays_local(
    control_path: Seq<char>,
    destination: Seq<char>,
    remote_socket: Seq<char>,
    local_socket: Seq<char>,
)
    ensures
        mux_only(
            cancel_arguments(control_path, destination, remote_socket, local_socket),
            control_path,
        ),
{
    let arguments = cancel_arguments(control_path, destination, remote_socket, local_socket);
    assert(arguments[2] == "-o"@ && arguments[3] == "ControlMaster=no"@);
    assert(arguments[4] == "-o"@ && arguments[5] == "CanonicalizeHostname=no"@);
    assert(arguments[6] == "-o"@ && arguments[7] == "ProxyJump=none"@);
    assert(arguments[8] == "-o"@ && arguments[9] == "ProxyCommand=/bin/false"@);
    assert(arguments[12] == "-o"@ && arguments[13] == "BatchMode=yes"@);
}

/// The file name of a connection's relay socket.
pub fn relay_socket_name(token: &str) -> (name: String)
    ensures
        name@ == "relay-"@ + token@ + ".sock"@,
{
    let mut name = String::from_str("relay-");
    name.append(token);
    name.append(".sock");
    name
}

/// The path of a connection's relay socket on the other host.
pub fn remote_socket(token: &str) -> (path: String)
    ensures
        path@ == "/tmp/termnav-relay-"@ + token@ + ".sock"@,
{
    let mut path = String::from_str("/tmp/termnav-relay-");
    path.append(token);
    path.append(".sock");
    path
}

/// Marks a file as a shim that hands SSH invocations over.
pub const SHIM_MARKER: &'static str = "# termnav-ssh-shim-v1";

/// Marks a shim of the releases before that.
pub const LEGACY_SHIM_MARKER: &'static str = "# Keep SSH interposition inherited by child processes";

/// Whether bytes hold a text.
pub open spec fn holds(bytes: Seq<u8>, text: Seq<char>) -> bool {
    first_occurrence(bytes, vstd::utf8::encode_utf8(text), 0) is Some
}

fn bytes_hold(bytes: &[u8], text: &str) -> (result: bool)
    ensures
        result == holds(bytes@, text@),
{
    find_from(bytes, text.as_bytes(), 0).is_some()
}

/// Whether a file that begins with these bytes is a shim.
pub fn is_termnav_shim(prefix: &[u8]) -> (result: bool)
    ensures
        result == (holds(prefix@, SHIM_MARKER@) || holds(prefix@, LEGACY_SHIM_MARKER@)),
{
    bytes_hold(prefix, SHIM_MARKER) || bytes_hold(prefix, LEGACY_SHIM_MARKER)
}

/// Whether a directory, in its canonical spelling, holds shims.
pub fn is_termnav_shim_dir(canonical: &str) -> (result: bool)
    ensures
        result == ends_in(canonical@, "share/termnav/shims"@),
{
    path_ends_in(canonical, "share/termnav/shims")
}

/// A file named `ssh` in a directory of the search path.
#[derive(Debug)]
pub struct Candidate {
    pub path: String,
    /// The directory in its canonical spelling.
    pub canonical: String,
    /// Whether the directory is the one of the shim that started us.
    pub invoking: bool,
    /// Whether the file can be executed.
    pub executable: bool,
    /// The first bytes of the file.
    pub prefix: Vec<u8>,
}

/// Whether a candidate is a real SSH client.
pub open spec fn is_client(candidate: Candidate) -> bool {
    &&& candidate.executable
    &&& !candidate.invoking
    &&& !ends_in(candidate.canonical@, "share/termnav/shims"@)
    &&& !holds(candidate.prefix@, SHIM_MARKER@)
    &&& !holds(candidate.prefix@, LEGACY_SHIM_MARKER@)
}

/// The SSH client to run: the configured one, else the first real one on the
/// search path.
pub fn real_ssh(configured: Option<&str>, candidates: &[Candidate]) -> (binary: Option<String>)
    ensures
        match opt_str(configured) {
            Some(path) if path.len() > 0 => binary is Some && binary->0@ == path,
            _ => match binary {
                Some(binary) => exists|i: int|
                    0 <= i < candidates@.len() && is_client(#[trigger] candidates@[i])
                        && candidates@[i].path@ == binary@ && forall|j: int|
                        0 <= j < i ==> !is_client(#[trigger] candidates@[j]),
                None => forall|i: int|
                    0 <= i < candidates@.len() ==> !is_client(#[trigger] candidates@[i]),
            },
        },
{
    if let Some(path) = configured {
        if !path.is_empty() {
            return Some(String::from_str(path));
        }
    }
    let mut i: usize = 0;
    while i < candidates.len()
        invariant
            i <= candidates.len(),
            configured is Some ==> configured->0@.len() == 0,
            forall|j: int| 0 <= j < i ==> !is_client(#[trigger] candidates@[j]),
        decreases candidates.len() - i,
    {
        let candidate = &candidates[i];
        if candidate.executable && !candidate.invoking && !is_termnav_shim_dir(
            candidate.canonical.as_str(),
        ) && !is_termnav_shim(candidate.prefix.as_slice()) {
            assert(is_client(candidates@[i as int]));
            return Some(candidate.path.clone());
        }
        i = i + 1;
    }
    None
}

/// What the supervisor of a running SSH child does next.
#[derive(Clone, Copy, Debug, PartialEq, Eq, Structural)]
pub enum Supervision {
    /// The child has exited: its status is the result.
    Finished,
    /// The child ignored the forwarded signal for too long: it is killed.
    Kill,
    /// The child gets a moment to exit by itself, then the signal.
    Forward,
    /// The child is left alone for a while.
    Poll,
}

/// Decide what the supervisor does next: from whether the child has exited,
/// whether a signal was forwarded and the time allowed after it is up, and
/// whether the supervisor itself was asked to stop.
pub fn supervise(exited: bool, forwarded: bool, expired: bool, stopping: bool) -> (next: Supervision)
    ensures
        next == (if exited {
            Supervision::Finished
        } else if forwarded && expired {
            Supervision::Kill
        } else if !forwarded && stopping {
            Supervision::Forward
        } else {
            Supervision::Poll
        }),
{
    if exited {
        Supervision::Finished
    } else if forwarded && expired {
        Supervision::Kill
    } else if !forwarded && stopping {
        Supervision::Forward
    } else {
        Supervision::Poll
    }
}

} // verus!
