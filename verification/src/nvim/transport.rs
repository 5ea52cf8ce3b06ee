//! Which panes show a session on another host, and which host that is.

use vstd::prelude::*;
use vstd::string::*;

use crate::navigation::system::{contains_text, TmuxOutput};
use crate::nvim::foreground::{base_name, base_of};
use crate::text::{
    cut, from_utf8_lossy, last_char, lines, lines_of, opt_str, opt_text, owned, parse_number,
    parsed, rfind_char, same, split_once, starts_with, strings, strip_prefix, texts, trim, trimmed,
    utf8_lossy, words, words_of,
};

verus! {

/// Whether a command connects a terminal to another host.
pub open spec fn connects(command: Seq<char>) -> bool {
    command == "ssh"@ || command == "mosh"@ || command == "et"@
}

/// Whether a command connects a terminal to another host.
pub fn is_remote_command(command: &str) -> (result: bool)
    ensures
        result == connects(command@),
{
    same(command, "ssh") || same(command, "mosh") || same(command, "et")
}

/// The options of a command that take the next word as their value.
pub open spec fn value_options(command: Seq<char>) -> Seq<Seq<char>> {
    if command == "et"@ {
        seq!["-c"@, "-i"@, "-l"@, "-o"@, "-p"@, "-r"@, "-S"@, "-s"@, "-t"@]
    } else {
        seq![
            "-B"@,
            "-b"@,
            "-c"@,
            "-D"@,
            "-E"@,
            "-e"@,
            "-F"@,
            "-I"@,
            "-i"@,
            "-J"@,
            "-L"@,
            "-l"@,
            "-m"@,
            "-O"@,
            "-o"@,
            "-p"@,
            "-Q"@,
            "-R"@,
            "-S"@,
            "-W"@,
            "-w"@,
        ]
    }
}

/// Whether an option of a command takes the next word as its value.
pub fn option_takes_value(command: &str, option: &str) -> (result: bool)
    ensures
        result == value_options(command@).contains(option@),
{
    let options = if same(command, "et") {
        vec!["-c", "-i", "-l", "-o", "-p", "-r", "-S", "-s", "-t"]
    } else {
        vec![
            "-B",
            "-b",
            "-c",
            "-D",
            "-E",
            "-e",
            "-F",
            "-I",
            "-i",
            "-J",
            "-L",
            "-l",
            "-m",
            "-O",
            "-o",
            "-p",
            "-Q",
            "-R",
            "-S",
            "-W",
            "-w",
        ]
    };
    assert(texts(options@) =~= value_options(command@));
    contains_text(&options, option)
}

/// The host that a destination names: without a user, a `HostName=` prefix and
/// anything from a colon on.
pub open spec fn named_host(candidate: Seq<char>) -> Option<Seq<char>> {
    let host = candidate.skip(last_char(candidate, '@') + 1);
    let host = if "HostName="@.is_prefix_of(host) {
        host.skip("HostName="@.len() as int)
    } else {
        host
    };
    let host = match cut(host, ':') {
        Some((before, _)) => before,
        None => host,
    };
    if host.len() > 0 {
        Some(host)
    } else {
        None
    }
}

/// The host that a destination names.
pub fn normalize_remote(candidate: &str) -> (host: Option<String>)
    ensures
        opt_text(host) == named_host(candidate@),
{
    let length: usize = candidate.unicode_len();
    let start: usize = match rfind_char(candidate, '@') {
        Some(i) => i + 1,
        None => 0,
    };
    let host = candidate.substring_char(start, length);
    assert(host@ =~= candidate@.skip(last_char(candidate@, '@') + 1));
    let host = match strip_prefix(host, "HostName=") {
        Some(rest) => rest,
        None => host,
    };
    let host = match split_once(host, ':') {
        Some((before, _)) => before,
        None => host,
    };
    if host.is_empty() {
        None
    } else {
        Some(String::from_str(host))
    }
}

/// The host that the words of a command line from index `i` on name: the first
/// word that is neither an option nor the value of one.
pub open spec fn destination_host(command: Seq<char>, line: Seq<Seq<char>>, i: int) -> Option<
    Seq<char>,
>
    decreases line.len() + 1 - i,
{
    if i < 0 || i >= line.len() {
        None
    } else if line[i] == "--"@ {
        destination_host(command, line, i + 1)
    } else if value_options(command).contains(line[i]) {
        destination_host(command, line, i + 2)
    } else if "-"@.is_prefix_of(line[i]) {
        destination_host(command, line, i + 1)
    } else {
        named_host(line[i])
    }
}

/// The host that a command line connects to, where it runs that command.
pub open spec fn command_host(command: Seq<char>, value: Seq<char>) -> Option<Seq<char>> {
    let line = words(value);
    if line.len() > 0 && base_name(line[0]) == command {
        destination_host(command, line, 1)
    } else {
        None
    }
}

/// The host that a command line connects to, where it runs that command.
pub fn parse_remote_command(command: &str, value: &str) -> (host: Option<String>)
    ensures
        opt_text(host) == command_host(command@, value@),
{
    let line = words_of(value);
    let ghost all = words(value@);
    assert(texts(line@).len() == line@.len());
    if line.len() == 0 {
        return None;
    }
    assert(texts(line@)[0] == line@[0]@);
    if !same(base_of(line[0]), command) {
        return None;
    }
    let mut i: usize = 1;
    while i < line.len()
        invariant
            1 <= i <= line.len(),
            texts(line@) == all,
            command_host(command@, value@) == destination_host(command@, all, i as int),
        decreases line.len() - i,
    {
        let token = line[i];
        assert(all[i as int] == token@);
        if same(token, "--") {
            i = i + 1;
        } else if option_takes_value(command, token) {
            if line.len() - i == 1 {
                assert(destination_host(command@, all, i + 2) is None);
                return None;
            }
            i = i + 2;
        } else if starts_with(token, "-") {
            i = i + 1;
        } else {
            return normalize_remote(token);
        }
    }
    None
}

/// The first label of a host name.
pub open spec fn short_name(host: Seq<char>) -> Seq<char> {
    match cut(host, '.') {
        Some((label, _)) => label,
        None => host,
    }
}

fn short_of<'a>(host: &'a str) -> (label: &'a str)
    ensures
        label@ == short_name(host@),
{
    match split_once(host, '.') {
        Some((label, _)) => label,
        None => host,
    }
}

/// Whether two names denote the same host: they are equal, or one is the first
/// label of the other.
pub open spec fn same_host(actual: Seq<char>, expected: Seq<char>) -> bool {
    actual == expected || short_name(actual) == expected || short_name(expected) == actual
}

/// Whether two names denote the same host.
pub fn hosts_match(actual: &str, expected: &str) -> (result: bool)
    ensures
        result == same_host(actual@, expected@),
{
    same(actual, expected) || same(short_of(actual), expected) || same(short_of(expected), actual)
}

/// The host that an installed extension printed for a command line.
pub open spec fn extension_answer(output: Option<TmuxOutput>) -> Option<Seq<char>> {
    match output {
        Some(output) if output.success => Some(trimmed(utf8_lossy(output.stdout@))),
        _ => None,
    }
}

/// The host that an installed extension printed for a command line.
pub fn extension_remote_host(output: &Option<TmuxOutput>) -> (host: Option<String>)
    ensures
        opt_text(host) == extension_answer(*output),
{
    match output {
        Some(output) => {
            if output.success {
                let text = from_utf8_lossy(output.stdout.as_slice());
                Some(String::from_str(trim(text.as_str())))
            } else {
                None
            }
        },
        None => None,
    }
}

/// The host of a pane that runs a connecting command: from the line that
/// started the pane, else from the line of its foreground process.
pub open spec fn pane_host(
    command: Seq<char>,
    start: Seq<char>,
    foreground: Option<Seq<char>>,
) -> Option<Seq<char>> {
    match command_host(command, start) {
        Some(host) => Some(host),
        None => match foreground {
            Some(line) => command_host(command, line),
            None => None,
        },
    }
}

/// The host of a pane that runs a connecting command.
pub fn remote_host(command: &str, start: &str, foreground: Option<&str>) -> (host: Option<String>)
    ensures
        opt_text(host) == pane_host(command@, start@, opt_str(foreground)),
{
    match parse_remote_command(command, start) {
        Some(host) => Some(host),
        None => match foreground {
            Some(line) => parse_remote_command(command, line),
            None => None,
        },
    }
}

/// Whether a pane with that host suits a link from `expected`. A link that
/// names no host suits any connecting command whose host is known.
pub open spec fn pane_suits(
    command: Seq<char>,
    actual: Option<Seq<char>>,
    expected: Seq<char>,
) -> bool {
    match actual {
        Some(actual) => if expected.len() == 0 {
            connects(command)
        } else {
            same_host(actual, expected)
        },
        None => false,
    }
}

/// Whether a pane with that host suits a link from `expected`.
pub fn remote_pane_matches(command: &str, actual: Option<&str>, expected: &str) -> (result: bool)
    ensures
        result == pane_suits(command@, opt_str(actual), expected@),
{
    match actual {
        Some(actual) => if expected.is_empty() {
            is_remote_command(command)
        } else {
            hosts_match(actual, expected)
        },
        None => false,
    }
}

/// The arguments that list every pane with its commands.
pub fn pane_query_arguments() -> (arguments: Vec<String>)
    ensures
        strings(arguments@) == seq![
            "list-panes"@,
            "-a"@,
            "-F"@,
            "#{pane_id}\t#{pane_current_command}\t#{pane_start_command}\t#{pane_pid}"@,
        ],
{
    let arguments = owned(
        &vec![
            "list-panes",
            "-a",
            "-F",
            "#{pane_id}\t#{pane_current_command}\t#{pane_start_command}\t#{pane_pid}",
        ],
    );
    assert(strings(arguments@) =~= seq![
        "list-panes"@,
        "-a"@,
        "-F"@,
        "#{pane_id}\t#{pane_current_command}\t#{pane_start_command}\t#{pane_pid}"@,
    ]);
    arguments
}

/// One pane of a listing.
#[derive(Debug, PartialEq, Eq)]
pub struct PaneRow {
    pub pane: String,
    /// The command that the pane runs.
    pub command: String,
    /// The command line that started the pane.
    pub start: String,
    pub pid: u32,
}

/// What a [`PaneRow`] says.
#[verifier::ext_equal]
pub struct PaneFields {
    pub pane: Seq<char>,
    pub command: Seq<char>,
    pub start: Seq<char>,
    pub pid: u32,
}

impl View for PaneRow {
    type V = PaneFields;

    open spec fn view(&self) -> PaneFields {
        PaneFields {
            pane: self.pane@,
            command: self.command@,
            start: self.start@,
            pid: self.pid,
        }
    }
}

/// What rows say.
pub open spec fn pane_fields(rows: Seq<PaneRow>) -> Seq<PaneFields> {
    Seq::new(rows.len(), |i: int| rows[i]@)
}

/// The pane that a row of four fields describes.
pub open spec fn pane_row(line: Seq<char>) -> Option<PaneFields> {
    match cut(line, '\t') {
        Some((pane, rest)) => match cut(rest, '\t') {
            Some((command, rest)) => match cut(rest, '\t') {
                Some((start, pid)) => match parsed(pid, u32::MAX as nat) {
                    Some(pid) => Some(PaneFields { pane, command, start, pid: pid as u32 }),
                    None => None,
                },
                None => None,
            },
            None => None,
        },
        None => None,
    }
}

fn parse_pane_row(line: &str) -> (row: Option<PaneRow>)
    ensures
        match row {
            Some(row) => pane_row(line@) == Some(row@),
            None => pane_row(line@) is None,
        },
{
    if let Some((pane, rest)) = split_once(line, '\t') {
        if let Some((command, rest)) = split_once(rest, '\t') {
            if let Some((start, pid)) = split_once(rest, '\t') {
                if let Some(pid) = parse_number(pid, u32::MAX as u64) {
                    return Some(
                        PaneRow {
                            pane: String::from_str(pane),
                            command: String::from_str(command),
                            start: String::from_str(start),
                            pid: pid as u32,
                        },
                    );
                }
            }
        }
    }
    None
}

/// The panes that rows describe, in order, without the malformed rows.
pub open spec fn pane_rows(rows: Seq<Seq<char>>) -> Seq<PaneFields>
    decreases rows.len(),
{
    if rows.len() == 0 {
        Seq::empty()
    } else {
        let before = pane_rows(rows.drop_last());
        match pane_row(rows.last()) {
            Some(row) => before.push(row),
            None => before,
        }
    }
}

/// Parse a listing of panes.
pub fn parse_panes(listing: &str) -> (rows: Vec<PaneRow>)
    ensures
        pane_fields(rows@) == pane_rows(lines(listing@)),
{
    let all_lines = lines_of(listing);
    let ghost all = lines(listing@);
    let mut rows: Vec<PaneRow> = Vec::new();
    let mut i: usize = 0;
    assert(pane_fields(rows@) =~= pane_rows(all.take(0)));
    while i < all_lines.len()
        invariant
            i <= all_lines.len(),
            texts(all_lines@) == all,
            pane_fields(rows@) == pane_rows(all.take(i as int)),
        decreases all_lines.len() - i,
    {
        let ghost before = rows@;
        assert(all.take(i + 1).drop_last() =~= all.take(i as int));
        assert(all.take(i + 1).last() == texts(all_lines@)[i as int]);
        if let Some(row) = parse_pane_row(all_lines[i]) {
            rows.push(row);
            assert(pane_fields(rows@) =~= pane_fields(before).push(row@));
        }
        i = i + 1;
    }
    assert(all.take(i as int) =~= all);
    rows
}

/// Whether pane `i` of a listing suits a link from `expected`, its host being
/// the one found for it.
pub open spec fn suits(
    rows: Seq<PaneRow>,
    hosts: Seq<Option<String>>,
    expected: Seq<char>,
    i: int,
) -> bool {
    pane_suits(rows[i].command@, opt_text(hosts[i]), expected)
}

/// The only pane of a listing that suits a link from `expected`. Where several
/// panes do, none is guessed.
pub fn only_remote_pane(rows: &Vec<PaneRow>, hosts: &Vec<Option<String>>, expected: &str) -> (pane:
    Option<String>)
    requires
        rows@.len() == hosts@.len(),
    ensures
        match pane {
            Some(pane) => exists|i: int|
                0 <= i < rows@.len() && #[trigger] suits(rows@, hosts@, expected@, i)
                    && rows@[i].pane@ == pane@ && forall|j: int|
                    0 <= j < rows@.len() && #[trigger] suits(rows@, hosts@, expected@, j) ==> i
                        == j,
            None => forall|i: int|
                0 <= i < rows@.len() && #[trigger] suits(rows@, hosts@, expected@, i)
                    ==> exists|j: int|
                    0 <= j < rows@.len() && i != j && #[trigger] suits(
                        rows@,
                        hosts@,
                        expected@,
                        j,
                    ),
        },
{
    let mut found: Option<usize> = None;
    let mut i: usize = 0;
    while i < rows.len()
        invariant
            i <= rows.len(),
            rows@.len() == hosts@.len(),
            match found {
                Some(f) => f < i && suits(rows@, hosts@, expected@, f as int) && forall|j: int|
                    0 <= j < i && #[trigger] suits(rows@, hosts@, expected@, j) ==> j == f,
                None => forall|j: int|
                    0 <= j < i ==> !#[trigger] suits(rows@, hosts@, expected@, j),
            },
        decreases rows.len() - i,
    {
        let host = match &hosts[i] {
            Some(host) => Some(host.as_str()),
            None => None,
        };
        if remote_pane_matches(rows[i].command.as_str(), host, expected) {
            assert(suits(rows@, hosts@, expected@, i as int));
            if found.is_some() {
                return None;
            }
            found = Some(i);
        } else {
            assert(!suits(rows@, hosts@, expected@, i as int));
        }
        i = i + 1;
    }
    match found {
        Some(f) => Some(rows[f].pane.clone()),
        None => None,
    }
}

} // verus!
