//! How remote panes, processes and the records of editors are recognised.

use vstd::prelude::*;
use vstd::string::*;

use crate::laws::text::{
    lemma_cut, lemma_cut_at, lemma_decimal_plain, lemma_last_place, lemma_last_place_at,
    lemma_lines_first, lemma_number_bound, lemma_signed_number,
};
use crate::nvim::foreground::{
    base_name, depth_in, is_candidate, is_foreground, next_field, process_row, ProcessFields,
};
use crate::nvim::registry::{
    chunked, current_paths, first_occurrences, flattened, is_owner, legacy_name, legacy_socket,
    marker_commits, newer, ordered_records, pane_key, pane_paths, record_in, server_of,
    state_directory, text_precedes, valid_owner, RecordFields, RecordPaths,
};
use crate::nvim::transport::{
    command_host, destination_host, extension_remote_host, hosts_match, is_remote_command,
    named_host, normalize_remote, option_takes_value, pane_query_arguments, pane_row, remote_host,
    remote_pane_matches, same_host, value_options, PaneFields,
};
use crate::navigation::system::TmuxOutput;
use crate::paths::{absolute, below, listed_path};
use crate::text::{
    blank, cut, decimal, last_char, lemma_first_where, lines, opt_str, opt_text, strings,
    trim_start_where, trimmed, utf8_lossy, white_space, words,
};

verus! {

/// The commands that connect to another host.
pub proof fn lemma_remote_programs(command: &str, result: bool)
    requires
        call_ensures(is_remote_command, (command,), result),
    ensures
        result <==> command@ == "ssh"@ || command@ == "mosh"@ || command@ == "et"@,
{
}

/// The options of a connecting command that take the next argument.
pub open spec fn takes_next(command: Seq<char>, c: char) -> bool {
    if command == "et"@ {
        ||| c == 'c' || c == 'i' || c == 'l' || c == 'o' || c == 'p' || c == 'r' || c == 'S'
        ||| c == 's' || c == 't'
    } else {
        crate::laws::ssh::takes_value(c)
    }
}

/// An option takes the next argument where it is a hyphen and one of the
/// letters of its command.
pub proof fn lemma_options_of_commands(command: &str, option: &str, result: bool)
    requires
        call_ensures(option_takes_value, (command, option), result),
    ensures
        result <==> option@.len() == 2 && option@[0] == '-' && takes_next(command@, option@[1]),
{
    lemma_value_options(command@, option@);
}

proof fn lemma_value_options(command: Seq<char>, option: Seq<char>)
    ensures
        value_options(command).contains(option) <==> option.len() == 2 && option[0] == '-'
            && takes_next(command, option[1]),
{
    reveal_strlit("-B");
    reveal_strlit("-b");
    reveal_strlit("-c");
    reveal_strlit("-D");
    reveal_strlit("-E");
    reveal_strlit("-e");
    reveal_strlit("-F");
    reveal_strlit("-I");
    reveal_strlit("-i");
    reveal_strlit("-J");
    reveal_strlit("-L");
    reveal_strlit("-l");
    reveal_strlit("-m");
    reveal_strlit("-O");
    reveal_strlit("-o");
    reveal_strlit("-p");
    reveal_strlit("-Q");
    reveal_strlit("-R");
    reveal_strlit("-r");
    reveal_strlit("-S");
    reveal_strlit("-s");
    reveal_strlit("-t");
    reveal_strlit("-W");
    reveal_strlit("-w");
    let two = |c: char| seq!['-', c];
    assert("-B"@ =~= two('B') && "-b"@ =~= two('b') && "-c"@ =~= two('c') && "-D"@ =~= two('D'));
    assert("-E"@ =~= two('E') && "-e"@ =~= two('e') && "-F"@ =~= two('F') && "-I"@ =~= two('I'));
    assert("-i"@ =~= two('i') && "-J"@ =~= two('J') && "-L"@ =~= two('L') && "-l"@ =~= two('l'));
    assert("-m"@ =~= two('m') && "-O"@ =~= two('O') && "-o"@ =~= two('o') && "-p"@ =~= two('p'));
    assert("-Q"@ =~= two('Q') && "-R"@ =~= two('R') && "-r"@ =~= two('r') && "-S"@ =~= two('S'));
    assert("-s"@ =~= two('s') && "-t"@ =~= two('t') && "-W"@ =~= two('W') && "-w"@ =~= two('w'));
    let all = value_options(command);
    if command == "et"@ {
        let letters = seq!['c', 'i', 'l', 'o', 'p', 'r', 'S', 's', 't'];
        assert(all.len() == 9);
        assert(forall|i: int| 0 <= i < 9 ==> #[trigger] all[i] == two(letters[i]));
        lemma_letter_options(all, letters, option);
    } else {
        let letters = seq![
            'B', 'b', 'c', 'D', 'E', 'e', 'F', 'I', 'i', 'J', 'L', 'l', 'm', 'O', 'o', 'p', 'Q',
            'R', 'S', 'W', 'w',
        ];
        assert(all.len() == 21);
        assert(forall|i: int| 0 <= i < 21 ==> #[trigger] all[i] == two(letters[i]));
        lemma_letter_options(all, letters, option);
        let c = option[1];
        assert(letters.contains(c) <==> crate::laws::ssh::takes_value(c)) by {
            assert(letters[0] == 'B' && letters[1] == 'b' && letters[2] == 'c' && letters[3] == 'D'
                && letters[4] == 'E' && letters[5] == 'e' && letters[6] == 'F' && letters[7] == 'I'
                && letters[8] == 'i' && letters[9] == 'J' && letters[10] == 'L' && letters[11]
                == 'l' && letters[12] == 'm' && letters[13] == 'O' && letters[14] == 'o'
                && letters[15] == 'p' && letters[16] == 'Q' && letters[17] == 'R' && letters[18]
                == 'S' && letters[19] == 'W' && letters[20] == 'w');
        }
    }
}

proof fn lemma_letter_options(all: Seq<Seq<char>>, letters: Seq<char>, option: Seq<char>)
    requires
        all.len() == letters.len(),
        forall|i: int| 0 <= i < all.len() ==> #[trigger] all[i] == seq!['-', letters[i]],
    ensures
        all.contains(option) <==> option.len() == 2 && option[0] == '-' && letters.contains(
            option[1],
        ),
{
    if all.contains(option) {
        let i = choose|i: int| 0 <= i < all.len() && all[i] == option;
        assert(option[1] == letters[i]);
    }
    if option.len() == 2 && option[0] == '-' && letters.contains(option[1]) {
        let i = choose|i: int| 0 <= i < letters.len() && letters[i] == option[1];
        assert(option =~= seq!['-', letters[i]]);
        assert(all[i] == option);
    }
}

/// The host of a destination is what stands behind the user and a `HostName=`
/// and before a colon; an empty one is none.
pub proof fn lemma_destination_hosts(
    user: Seq<char>,
    host: Seq<char>,
    port: Seq<char>,
    candidate: &str,
    result: Option<String>,
)
    requires
        call_ensures(normalize_remote, (candidate,), result),
        !host.contains('@') && !host.contains(':') && !port.contains('@'),
        host.len() == 0 || host[0] != 'H',
    ensures
        candidate@ == user + seq!['@'] + host || candidate@ == host || candidate@ == host
            + seq![':'] + port || candidate@ == user + seq!['@'] + (host + seq![':'] + port)
            || candidate@ == "HostName="@ + host || candidate@ == user + seq!['@'] + ("HostName="@
            + host) ==> opt_text(result) == if host.len() > 0 {
            Some(host)
        } else {
            None
        },
{
    reveal_strlit("HostName=");
    let name = "HostName="@;
    assert(name.len() == 9 && name[0] == 'H');
    let s = candidate@;
    let ported = host + seq![':'] + port;
    let named = name + host;
    assert(!name.is_prefix_of(host)) by {
        if name.is_prefix_of(host) {
            assert(host[0] == name[0]);
        }
    }
    assert(!name.is_prefix_of(ported)) by {
        if name.is_prefix_of(ported) {
            assert(ported[0] == name[0]);
        }
    }
    assert(name =~= named.subrange(0, 9));
    assert(named.skip(9) =~= host);
    lemma_cut_at(host, ':', port);
    lemma_cut(host, ':');
    match cut(host, ':') {
        Some((before, after)) => {
            assert(host[before.len() as int] == ':');
        },
        None => {},
    }
    assert(!ported.contains('@')) by {
        if ported.contains('@') {
            let i = choose|i: int| 0 <= i < ported.len() && ported[i] == '@';
            if i < host.len() {
                assert(host[i] == '@');
            } else {
                assert(port[i - host.len() - 1] == '@');
            }
        }
    }
    assert(!named.contains('@')) by {
        if named.contains('@') {
            let i = choose|i: int| 0 <= i < named.len() && named[i] == '@';
            if i >= 9 {
                assert(host[i - 9] == '@');
            }
        }
    }
    lemma_behind(user, host);
    lemma_behind(user, ported);
    lemma_behind(user, named);
}

proof fn lemma_behind(user: Seq<char>, rest: Seq<char>)
    requires
        !rest.contains('@'),
    ensures
        (user + seq!['@'] + rest).skip(last_char(user + seq!['@'] + rest, '@') + 1) == rest,
        rest.skip(last_char(rest, '@') + 1) == rest,
{
    lemma_last_place_at(user, '@', rest);
    assert((user + seq!['@'] + rest).skip(user.len() as int + 1) =~= rest);
    lemma_last_place(rest, '@');
    if last_char(rest, '@') >= 0 {
        assert(rest.contains(rest[last_char(rest, '@')]));
    }
    assert(rest.skip(0) =~= rest);
}

/// In a command line the destination is the first argument that is neither an
/// option nor the value of one; two hyphens are passed over.
pub proof fn lemma_command_destinations(command: Seq<char>, line: Seq<Seq<char>>, i: int)
    requires
        0 <= i < line.len(),
    ensures
        ({
            let word = line[i];
            let option = word.len() > 0 && word[0] == '-';
            let valued = word.len() == 2 && option && takes_next(command, word[1]);
            &&& valued ==> destination_host(command, line, i) == destination_host(
                command,
                line,
                i + 2,
            )
            &&& option && !valued ==> destination_host(command, line, i) == destination_host(
                command,
                line,
                i + 1,
            )
            &&& !option ==> destination_host(command, line, i) == named_host(word)
        }),
        destination_host(command, line, line.len() as int) is None,
        destination_host(command, line, line.len() as int + 1) is None,
{
    let word = line[i];
    lemma_value_options(command, word);
    reveal_strlit("-");
    reveal_strlit("--");
    assert("-"@ =~= seq!['-']);
    assert("--"@ =~= seq!['-', '-']);
    if word.len() > 0 && word[0] == '-' {
        assert("-"@ =~= word.subrange(0, 1));
    }
    if "-"@.is_prefix_of(word) {
        assert("-"@[0] == word[0]);
    }
    if word == "--"@ {
        assert(word[0] == '-' && word[1] == '-');
    }
}

/// A command line is read as a connection where its program, without its
/// directory, is the one that the pane runs.
pub proof fn lemma_command_hosts(command: Seq<char>, value: Seq<char>)
    ensures
        words(value).len() == 0 ==> command_host(command, value) is None,
        words(value).len() > 0 && base_name(words(value)[0]) != command ==> command_host(
            command,
            value,
        ) is None,
        words(value).len() > 0 && base_name(words(value)[0]) == command ==> command_host(
            command,
            value,
        ) == destination_host(command, words(value), 1),
{
}

/// A base name is what follows the last slash.
pub proof fn lemma_base_names(directory: Seq<char>, name: Seq<char>)
    requires
        !name.contains('/'),
    ensures
        base_name(name) == name,
        base_name(directory + seq!['/'] + name) == name,
{
    lemma_last_place_at(directory, '/', name);
    assert((directory + seq!['/'] + name).skip(directory.len() as int + 1) =~= name);
    lemma_last_place(name, '/');
    if last_char(name, '/') >= 0 {
        assert(name.contains(name[last_char(name, '/')]));
    }
    assert(name.skip(0) =~= name);
}

/// Hosts are the same where one is the other, or the first label of the other.
/// Two longer names with the same first label are different hosts.
pub proof fn lemma_same_hosts(
    label: Seq<char>,
    domain: Seq<char>,
    other: Seq<char>,
    a: &str,
    b: &str,
    result: bool,
)
    requires
        call_ensures(hosts_match, (a, b), result),
        !label.contains('.'),
        domain != other,
    ensures
        a@ == b@ ==> result,
        a@ == label && b@ == label + seq!['.'] + domain ==> result,
        b@ == label && a@ == label + seq!['.'] + domain ==> result,
        a@ == label + seq!['.'] + domain && b@ == label + seq!['.'] + other ==> !result,
{
    lemma_cut_at(label, '.', domain);
    lemma_cut_at(label, '.', other);
    let x = label + seq!['.'] + domain;
    let y = label + seq!['.'] + other;
    assert(x.skip(label.len() as int + 1) =~= domain);
    assert(y.skip(label.len() as int + 1) =~= other);
    assert(x.len() > label.len() && y.len() > label.len());
}

/// The host of a pane is the one of the command that started it, else of the
/// one in its foreground. A pane suits an expected host that is its own;
/// without an expected host it suits where it runs a connection.
pub proof fn lemma_pane_hosts(
    command: &str,
    start: &str,
    foreground: Option<&str>,
    host: Option<String>,
    actual: Option<&str>,
    expected: &str,
    result: bool,
)
    requires
        call_ensures(remote_host, (command, start, foreground), host),
        call_ensures(remote_pane_matches, (command, actual, expected), result),
    ensures
        command_host(command@, start@) is Some ==> opt_text(host) == command_host(
            command@,
            start@,
        ),
        command_host(command@, start@) is None && foreground is Some ==> opt_text(host)
            == command_host(command@, foreground->0@),
        command_host(command@, start@) is None && foreground is None ==> host is None,
        actual is None ==> !result,
        actual is Some && expected@.len() > 0 ==> result == same_host(actual->0@, expected@),
        actual is Some && expected@.len() == 0 ==> (result <==> command@ == "ssh"@ || command@
            == "mosh"@ || command@ == "et"@),
{
}

/// What a helper prints on success is the host, without surrounding white
/// space.
pub proof fn lemma_helper_hosts(output: Option<TmuxOutput>, host: Option<String>)
    requires
        call_ensures(extension_remote_host, (&output,), host),
    ensures
        host is Some <==> output is Some && output->0.success,
        host is Some ==> host->0@ == trimmed(utf8_lossy(output->0.stdout@)),
{
}

/// A row of the panes is read as it was printed: the pane, its command, the
/// command that started it and its process.
pub proof fn lemma_pane_rows(
    pane: Seq<char>,
    command: Seq<char>,
    start: Seq<char>,
    pid: u32,
    arguments: Vec<String>,
)
    requires
        !pane.contains('\t') && !command.contains('\t') && !start.contains('\t'),
        call_ensures(pane_query_arguments, (), arguments),
    ensures
        pane_row(
            pane + seq!['\t'] + (command + seq!['\t'] + (start + seq!['\t'] + decimal(pid as nat))),
        ) == Some(PaneFields { pane, command, start, pid }),
        strings(arguments@) == seq![
            "list-panes"@,
            "-a"@,
            "-F"@,
            "#{pane_id}\t#{pane_current_command}\t#{pane_start_command}\t#{pane_pid}"@,
        ],
{
    lemma_cut_at(pane, '\t', command + seq!['\t'] + (start + seq!['\t'] + decimal(pid as nat)));
    lemma_cut_at(command, '\t', start + seq!['\t'] + decimal(pid as nat));
    lemma_cut_at(start, '\t', decimal(pid as nat));
    lemma_number_bound(pid as nat, u32::MAX as nat);
}

/// The remaining text of a row behind one of its leading fields.
proof fn lemma_field(field: Seq<char>, rest: Seq<char>)
    requires
        forall|i: int| 0 <= i < field.len() ==> !white_space(#[trigger] field[i]),
        rest.len() > 0 ==> !white_space(rest[0]),
    ensures
        next_field(field + seq![' '] + rest) == Some((field, rest)),
{
    let s = field + seq![' '] + rest;
    assert forall|j: int| 0 <= j < field.len() implies !blank()(#[trigger] s[j]) by {
        assert(s[j] == field[j]);
    }
    assert(blank()(s[field.len() as int]));
    lemma_first_where(s, blank(), field.len() as int);
    assert(s.take(field.len() as int) =~= field);
    let tail = s.skip(field.len() as int);
    assert(tail =~= seq![' '] + rest);
    assert(tail.drop_first() =~= rest);
    assert(trim_start_where(rest, blank()) == rest);
    assert(trim_start_where(tail, blank()) == rest);
}

/// A row of the processes is read as it was printed: the process, its parent,
/// its group, the foreground group, the program and the command line.
pub proof fn lemma_process_rows(
    pid: u32,
    parent: u32,
    group: nat,
    foreground: nat,
    program: Seq<char>,
    arguments: Seq<char>,
)
    requires
        group <= i32::MAX && foreground <= i32::MAX,
        program.len() > 0 && arguments.len() > 0,
        forall|i: int| 0 <= i < program.len() ==> !white_space(#[trigger] program[i]),
        !white_space(arguments[0]),
    ensures
        process_row(
            decimal(pid as nat) + seq![' '] + (decimal(parent as nat) + seq![' '] + (decimal(group)
                + seq![' '] + (decimal(foreground) + seq![' '] + (program + seq![' ']
                + arguments)))),
        ) == Some(
            ProcessFields {
                pid,
                parent,
                group: group as i32,
                foreground: foreground as i32,
                executable: base_name(program),
                arguments,
            },
        ),
{
    let a = decimal(pid as nat);
    let b = decimal(parent as nat);
    let c = decimal(group);
    let d = decimal(foreground);
    let r5 = program + seq![' '] + arguments;
    let r4 = d + seq![' '] + r5;
    let r3 = c + seq![' '] + r4;
    let r2 = b + seq![' '] + r3;
    let row = a + seq![' '] + r2;
    lemma_decimal_plain(pid as nat);
    lemma_decimal_plain(parent as nat);
    lemma_decimal_plain(group);
    lemma_decimal_plain(foreground);
    assert(row[0] == a[0]);
    assert(trim_start_where(row, blank()) == row);
    assert(r2[0] == b[0] && r3[0] == c[0] && r4[0] == d[0] && r5[0] == program[0]);
    lemma_field(a, r2);
    lemma_field(b, r3);
    lemma_field(c, r4);
    lemma_field(d, r5);
    lemma_field(program, arguments);
    reveal_with_fuel(crate::nvim::foreground::leading_fields, 6);
    let none = Seq::<Seq<char>>::empty();
    let fields = none.push(a).push(b).push(c).push(d).push(program);
    assert(crate::nvim::foreground::leading_fields(row, 5) == Some((fields, arguments)));
    lemma_number_bound(pid as nat, u32::MAX as nat);
    lemma_number_bound(parent as nat, u32::MAX as nat);
    lemma_signed_number(group, i32::MIN as int, i32::MAX as int);
    lemma_signed_number(foreground, i32::MIN as int, i32::MAX as int);
}

/// The command of a pane runs in the foreground of its terminal, below the
/// pane's own process. Of several the deepest one counts, and among equally deep
/// ones the one with the highest number.
pub proof fn lemma_foreground_commands(
    rows: Seq<ProcessFields>,
    root: u32,
    wanted: Seq<char>,
    i: int,
    j: int,
)
    requires
        is_foreground(rows, root, wanted, i),
        0 <= j < rows.len(),
        is_candidate(rows, root, wanted, j),
    ensures
        rows[i].executable == wanted,
        rows[i].group == rows[i].foreground && rows[i].group > 0,
        depth_in(rows, rows[i].pid, root) is Some,
        depth_in(rows, rows[j].pid, root)->0 <= depth_in(rows, rows[i].pid, root)->0,
        depth_in(rows, rows[j].pid, root)->0 == depth_in(rows, rows[i].pid, root)->0
            ==> rows[j].pid <= rows[i].pid,
{
}

/// A server is told by what precedes the last two commas and by what stands
/// between them; any other text is a server without a number.
pub proof fn lemma_servers(socket: Seq<char>, number: Seq<char>, session: Seq<char>)
    requires
        !number.contains(',') && !session.contains(','),
    ensures
        server_of(socket + seq![','] + number + seq![','] + session) == (socket, number),
        server_of(number) == (number, Seq::<char>::empty()),
        server_of(number + seq![','] + session) == (
            number + seq![','] + session,
            Seq::<char>::empty(),
        ),
{
    let head = socket + seq![','] + number;
    let whole = head + seq![','] + session;
    lemma_last_place_at(head, ',', session);
    lemma_last_place_at(socket, ',', number);
    assert(whole.take(head.len() as int) =~= head);
    assert(head.take(socket.len() as int) =~= socket);
    assert(head.skip(socket.len() as int + 1) =~= number);
    lemma_last_place(number, ',');
    if last_char(number, ',') >= 0 {
        assert(number.contains(number[last_char(number, ',')]));
    }
    lemma_last_place_at(number, ',', session);
    assert((number + seq![','] + session).take(number.len() as int) =~= number);
}

/// The key of a pane is the hexadecimal text of its server, number and pane,
/// with zero bytes between, in components of at most a hundred and twenty
/// digits.
pub proof fn lemma_pane_keys(tmux: Seq<char>, pane: Seq<char>, s: Seq<char>)
    ensures
        pane_key(tmux, pane) == "v1-"@ + chunked(
            crate::digest::hex_text(
                vstd::utf8::encode_utf8(server_of(tmux).0) + seq![0u8] + vstd::utf8::encode_utf8(
                    server_of(tmux).1,
                ) + seq![0u8] + vstd::utf8::encode_utf8(pane),
            ),
        ),
        s.len() <= 120 ==> chunked(s) == s,
        s.len() > 120 ==> chunked(s) == s.take(120) + "/"@ + chunked(s.skip(120)),
{
}

/// The older key of a pane is its server's socket, a colon and the pane, with
/// every character but letters, digits, underscores, dots and hyphens replaced.
pub proof fn lemma_legacy_keys(socket: Seq<char>, rest: Seq<char>, pane: Seq<char>, i: int)
    requires
        !socket.contains(','),
    ensures
        legacy_name(socket, pane) == pane,
        socket.len() > 0 ==> legacy_name(socket + seq![','] + rest, pane) == socket + ":"@ + pane,
        socket.len() == 0 ==> legacy_name(socket + seq![','] + rest, pane) == pane,
        flattened(pane).len() == pane.len(),
        0 <= i < pane.len() ==> flattened(pane)[i] == {
            let c = pane[i];
            if 'a' <= c <= 'z' || 'A' <= c <= 'Z' || '0' <= c <= '9' || c == '_' || c == '.' || c
                == '-' {
                c
            } else {
                '_'
            }
        },
{
    lemma_cut_at(socket, ',', rest);
    lemma_cut(socket, ',');
    match cut(socket, ',') {
        Some((before, after)) => {
            assert(socket[before.len() as int] == ',');
        },
        None => {},
    }
}

/// An owner is a file name of letters, digits, underscores, dots and hyphens,
/// other than the directory itself and its parent.
pub proof fn lemma_owners(value: &str, valid: bool)
    requires
        call_ensures(valid_owner, (value,), valid),
    ensures
        valid <==> value@.len() > 0 && value@ != "."@ && value@ != ".."@ && forall|i: int|
            0 <= i < value@.len() ==> {
                let c = #[trigger] value@[i];
                'a' <= c <= 'z' || 'A' <= c <= 'Z' || '0' <= c <= '9' || c == '_' || c == '.' || c
                    == '-'
            },
{
    let s = value@;
    assert forall|i: int| 0 <= i < s.len() implies (crate::nvim::registry::plain(#[trigger] s[i])
        <==> ('a' <= s[i] <= 'z' || 'A' <= s[i] <= 'Z' || '0' <= s[i] <= '9' || s[i] == '_' || s[i]
        == '.' || s[i] == '-')) by {}
    if forall|i: int|
        0 <= i < s.len() ==> {
            let c = #[trigger] s[i];
            'a' <= c <= 'z' || 'A' <= c <= 'Z' || '0' <= c <= '9' || c == '_' || c == '.' || c
                == '-'
        } {
        assert forall|i: int| 0 <= i < s.len() implies crate::nvim::registry::plain(
            #[trigger] s[i],
        ) by {}
    }
}

/// A record is read back as it was written: a version, a number of twenty
/// digits, the owner and the socket, on a line each. A record of another owner
/// than expected is none.
pub proof fn lemma_records_are_read_back(
    path: Seq<char>,
    sequence: Seq<char>,
    owner: Seq<char>,
    socket: Seq<char>,
    expected: Option<Seq<char>>,
)
    requires
        sequence.len() == 20 && forall|i: int| 0 <= i < 20 ==> '0' <= #[trigger] sequence[i] <= '9',
        is_owner(owner),
        socket.len() > 0 && !socket.contains('\n') && socket.last() != '\r',
    ensures
        record_in(
            path,
            "v2"@ + seq!['\n'] + (sequence + seq!['\n'] + (owner + seq!['\n'] + (socket + seq!['\n']
                + Seq::empty()))),
            expected,
        ) == if expected is None || expected == Some(owner) {
            Some(RecordFields { path, sequence, owner, socket })
        } else {
            None
        },
{
    reveal_strlit("v2");
    assert("v2"@.len() == 2 && "v2"@[0] == 'v' && "v2"@[1] == '2');
    let version = "v2"@;
    let r4 = socket + seq!['\n'] + Seq::empty();
    let r3 = owner + seq!['\n'] + r4;
    let r2 = sequence + seq!['\n'] + r3;
    let content = version + seq!['\n'] + r2;
    assert(!version.contains('\n'));
    if sequence.contains('\n') {
        let i = choose|i: int| 0 <= i < sequence.len() && sequence[i] == '\n';
        assert('0' <= sequence[i] <= '9');
    }
    assert('0' <= sequence[19] <= '9');
    if owner.contains('\n') {
        let i = choose|i: int| 0 <= i < owner.len() && owner[i] == '\n';
        assert(crate::nvim::registry::plain(owner[i]));
    }
    assert(crate::nvim::registry::plain(owner[owner.len() - 1]));
    lemma_lines_first(version, r2);
    lemma_lines_first(sequence, r3);
    lemma_lines_first(owner, r4);
    lemma_lines_first(socket, Seq::empty());
    assert(lines(content) =~= seq![version, sequence, owner, socket]);
}

/// Only the exact marker commits the registry, and an older record is one line.
pub proof fn lemma_markers(line: Seq<char>, content: &str, commits: bool)
    requires
        call_ensures(marker_commits, (content,), commits),
        line.len() > 0 && !line.contains('\n') && line.last() != '\r',
        content@ == line + seq!['\n'] + Seq::empty(),
    ensures
        commits <==> line == "v2"@,
        legacy_socket(content@) == Some(line),
        legacy_socket(Seq::empty()) is None,
        legacy_socket(line + seq!['\n'] + content@) is None,
{
    lemma_lines_first(line, Seq::empty());
    lemma_lines_first(line, content@);
    assert(lines(content@) =~= seq![line]);
    assert(lines(line + seq!['\n'] + content@) =~= seq![line, line]);
    assert(seq![line][0] == line && seq!["v2"@][0] == "v2"@);
}

/// Numbers of the same width are ordered as texts by their first difference; a
/// record with the later number is newer, and among equal numbers the one whose
/// owner does not come before.
pub proof fn lemma_newer_records(
    common: Seq<char>,
    x: char,
    y: char,
    p: Seq<char>,
    q: Seq<char>,
    a: RecordFields,
    b: RecordFields,
)
    requires
        x < y,
    ensures
        text_precedes(common + seq![x] + p, common + seq![y] + q),
        !text_precedes(common + seq![y] + q, common + seq![x] + p),
        !text_precedes(common, common),
        a.sequence == common + seq![y] + q && b.sequence == common + seq![x] + p ==> newer(a, b)
            && !newer(b, a),
        a.sequence == b.sequence && a.owner == common + seq![y] + q && b.owner == common + seq![x]
            + p ==> newer(a, b) && !newer(b, a),
    decreases common.len(),
{
    let s = common + seq![x] + p;
    let t = common + seq![y] + q;
    if common.len() == 0 {
        assert(s[0] == x && t[0] == y);
    } else {
        assert(s[0] == common[0] && t[0] == common[0]);
        assert(s.drop_first() =~= common.drop_first() + seq![x] + p);
        assert(t.drop_first() =~= common.drop_first() + seq![y] + q);
        let tail = common.drop_first();
        lemma_newer_records(
            tail,
            x,
            y,
            p,
            q,
            RecordFields { sequence: tail + seq![y] + q, ..a },
            RecordFields { sequence: tail + seq![x] + p, ..b },
        );
    }
    lemma_itself(a.sequence);
    lemma_itself(b.sequence);
    assert(s[common.len() as int] == x && t[common.len() as int] == y);
}

proof fn lemma_itself(s: Seq<char>)
    ensures
        !text_precedes(s, s),
    decreases s.len(),
{
    if s.len() > 0 {
        lemma_itself(s.drop_first());
    }
}

/// The records are tried in order: the latest, those of the owners, the older
/// one, and those of other panes. The older one comes first where it exists and
/// no newer record overtook it.
pub proof fn lemma_record_order(
    latest: Option<&str>,
    owners: Vec<String>,
    legacy: &str,
    present: bool,
    overtaken: bool,
    others: Vec<String>,
    paths: Vec<String>,
)
    requires
        call_ensures(
            ordered_records,
            (latest, &owners, legacy, present, overtaken, &others),
            paths,
        ),
    ensures
        ({
            let first = match opt_str(latest) {
                Some(path) => seq![path],
                None => Seq::empty(),
            };
            let versioned = first + strings(owners@);
            let ahead = present && (!overtaken || versioned.len() == 0);
            &&& ahead ==> strings(paths@) == seq![legacy@] + versioned + strings(others@)
            &&& !ahead ==> strings(paths@) == versioned + seq![legacy@] + strings(others@)
        }),
{
    let none = Seq::<Seq<char>>::empty();
    assert(none + strings(owners@) =~= strings(owners@));
    assert(strings(owners@).len() == owners@.len());
}

/// A socket is tried once, where it comes first; records without one are passed
/// over.
pub proof fn lemma_sockets(values: Seq<Option<Seq<char>>>, socket: Seq<char>)
    ensures
        first_occurrences(Seq::empty()) == Seq::<Seq<char>>::empty(),
        first_occurrences(values.push(None)) == first_occurrences(values),
        first_occurrences(values.push(Some(socket))) == if listed_path(
            first_occurrences(values),
            socket,
        ) {
            first_occurrences(values)
        } else {
            first_occurrences(values).push(socket)
        },
{
    assert(values.push(None).drop_last() =~= values);
    assert(values.push(Some(socket)).drop_last() =~= values);
}

/// Where the records are kept.
pub proof fn lemma_record_places(
    state_home: Option<&str>,
    home: Option<&str>,
    directory: Option<String>,
    state: &str,
    tmux: &str,
    pane: &str,
    current: RecordPaths,
    own: RecordPaths,
)
    requires
        call_ensures(state_directory, (state_home, home), directory),
        call_ensures(current_paths, (state,), current),
        call_ensures(pane_paths, (state, tmux, pane), own),
    ensures
        state_home is Some && absolute(state_home->0@) ==> opt_text(directory) == Some(
            below(state_home->0@, "nvim-tmux-open"@),
        ),
        (state_home is None || !absolute(state_home->0@)) && home is Some ==> opt_text(directory)
            == Some(below(below(home->0@, ".local/state"@), "nvim-tmux-open"@)),
        (state_home is None || !absolute(state_home->0@)) && home is None ==> directory is None,
        current.latest@ == below(below(state@, "registry"@), "current/latest"@),
        current.owners@ == below(below(state@, "registry"@), "current/owners"@),
        current.legacy@ == below(state@, "current"@),
        own.latest@ == below(
            below(below(below(state@, "registry"@), "panes"@), pane_key(tmux@, pane@)),
            "latest"@,
        ),
        own.owners@ == below(
            below(below(below(state@, "registry"@), "panes"@), pane_key(tmux@, pane@)),
            "owners"@,
        ),
        own.legacy@ == below(below(state@, "panes"@), flattened(legacy_name(tmux@, pane@))),
{
}

} // verus!
