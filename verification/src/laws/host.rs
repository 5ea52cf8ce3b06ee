//! How processes are read, how paths are taken apart and put together, and
//! where runtime state lives.

use vstd::prelude::*;
use vstd::string::*;
use vstd::utf8::*;

use crate::bytes::{lemma_next_byte, next_byte, occurs_at};
use crate::laws::text::{lemma_decimal_plain, lemma_number_bound, lemma_trimmed_between};
use crate::paths::{absolute, below, beneath, counted, ends_in, join, parts, paths_equal, relative};
use crate::process::{
    assignment_at, block_value, command_arguments, entry_value, environment_lookup,
    environment_value, may_look_up, parent_record, ps_parent, ps_tty_matches, record, standing,
    stands_at, status_code, status_line_parent, valid_env_name, valid_name, value_end, BlockRead,
    Lookup, MAX_BYTES_PER_TURN,
};
use crate::runtime::{socket_root, subdirectory, user_directory, MAX_SOCKET_NAME, MAX_SOCKET_PATH};
use crate::shell::{command_line, escape_tmux_format, quote, quoted};
use crate::text::{
    blank, decimal, lemma_first_where, opt_text, replaced, split, trim_start_where, utf8_lossy,
    white_space,
};

verus! {

/// The name of a variable begins with a letter or an underscore, and goes on
/// with these or digits.
pub proof fn lemma_variable_names(name: &str, valid: bool, i: int)
    requires
        call_ensures(valid_env_name, (name,), valid),
    ensures
        name@.len() == 0 ==> !valid,
        valid && 0 <= i < name@.len() ==> {
            let c = name@[i];
            'a' <= c <= 'z' || 'A' <= c <= 'Z' || c == '_' || '0' <= c <= '9' && i > 0
        },
        name@.len() > 0 && !('0' <= name@[0] <= '9') && (forall|j: int|
            0 <= j < name@.len() ==> 'a' <= #[trigger] name@[j] <= 'z' || 'A' <= name@[j] <= 'Z'
                || name@[j] == '_' || '0' <= name@[j] <= '9') ==> valid,
{
    let s = name@;
    if valid && 0 <= i < s.len() {
        assert(crate::process::name_char(s[i]));
    }
    if s.len() > 0 && !('0' <= s[0] <= '9') && (forall|j: int|
        0 <= j < s.len() ==> 'a' <= #[trigger] s[j] <= 'z' || 'A' <= s[j] <= 'Z' || s[j] == '_'
            || '0' <= s[j] <= '9') {
        assert('a' <= s[0] <= 'z' || 'A' <= s[0] <= 'Z' || s[0] == '_' || '0' <= s[0] <= '9');
        assert forall|j: int| 0 <= j < s.len() implies crate::process::name_char(
            #[trigger] s[j],
        ) by {}
        assert(valid_name(s));
    }
}

proof fn lemma_standing(s: Seq<char>, needle: Seq<char>, i: int, k: int)
    requires
        0 <= i <= k < s.len(),
        stands_at(s, needle, k),
        forall|j: int| i <= j < k ==> !#[trigger] stands_at(s, needle, j),
    ensures
        standing(s, needle, i) == Some(k),
    decreases k - i,
{
    if i < k {
        lemma_standing(s, needle, i + 1, k);
    }
}

proof fn lemma_value_end(s: Seq<char>, i: int, k: int)
    requires
        0 <= i <= k <= s.len(),
        forall|j: int|
            i <= j < k ==> !(crate::process::ascii_space(#[trigger] s[j]) && assignment_at(
                s,
                j + 1,
            )),
        k < s.len() ==> crate::process::ascii_space(s[k]) && assignment_at(s, k + 1),
    ensures
        value_end(s, i) == k,
    decreases k - i,
{
    if i < k {
        lemma_value_end(s, i + 1, k);
    }
}

/// In a printed environment a value reaches from its own name, where that
/// stands first, to the next assignment, or to the end; white space that no
/// assignment follows belongs to it.
pub proof fn lemma_printed_variables(
    before: Seq<char>,
    name: Seq<char>,
    value: Seq<char>,
    after: Seq<char>,
)
    requires
        valid_name(name),
        before.len() == 0 || before.last() == ' ',
        after.len() == 0 || after.len() > 0 && after[0] == ' ' && assignment_at(after, 1),
        ({
            let s = before + name.push('=') + value + after;
            let n = (before.len() + name.len() + 1) as int;
            &&& s.last() != '\n' && s.last() != '\r'
            &&& forall|j: int| 0 <= j < before.len() ==> !#[trigger] stands_at(s, name.push('='), j)
            &&& forall|j: int|
                n <= j < n + value.len() ==> !(crate::process::ascii_space(#[trigger] s[j])
                    && assignment_at(s, j + 1))
        }),
    ensures
        environment_value(before + name.push('=') + value + after, name) == Some(value),
        environment_value(before + name.push('=') + value + after + seq!['\n'], name) == Some(value),
{
    let needle = name.push('=');
    let s = before + needle + value + after;
    let k = before.len() as int;
    let n = k + needle.len();
    assert(record(s) == s);
    let printed = s + seq!['\n'];
    assert(printed.last() == '\n' && printed.drop_last() =~= s);
    assert(record(printed) == s);
    assert(s.subrange(k, n) =~= needle);
    if k > 0 {
        assert(s[k - 1] == before.last());
    }
    assert(stands_at(s, needle, k));
    lemma_standing(s, needle, 0, k);
    let m = n + value.len();
    if m < s.len() {
        assert(s[m] == after[0]);
        let p = choose|p: int|
            1 < p < after.len() && #[trigger] after[p] == '=' && forall|j: int|
                1 <= j < p ==> crate::process::name_char(#[trigger] after[j]);
        assert(s[m + p] == '=');
        assert forall|j: int| m + 1 <= j < m + p implies crate::process::name_char(
            #[trigger] s[j],
        ) by {
            assert(s[j] == after[j - m]);
        }
        assert(s[m + 1] == after[1]);
        assert(assignment_at(s, m + 1));
    }
    lemma_value_end(s, n, m);
    assert(s.subrange(n, m) =~= value);
}

proof fn lemma_next_byte_moved(s: Seq<u8>, byte: u8, from: int, k: int)
    requires
        0 <= from <= k <= s.len(),
    ensures
        next_byte(s, byte, k) == next_byte(s.skip(from), byte, k - from) + from,
    decreases s.len() - k,
{
    if k < s.len() {
        assert(s.skip(from)[k - from] == s[k]);
        if s[k] != byte {
            lemma_next_byte_moved(s, byte, from, k + 1);
        }
    }
}

proof fn lemma_entry_moved(block: Seq<u8>, prefix: Seq<u8>, from: int, k: int)
    requires
        0 <= from <= k <= block.len(),
    ensures
        entry_value(block, prefix, k) == entry_value(block.skip(from), prefix, k - from),
    decreases block.len() - k,
{
    let rest = block.skip(from);
    let end = next_byte(block, 0, k);
    lemma_next_byte(block, 0, k);
    lemma_next_byte(rest, 0, k - from);
    lemma_next_byte_moved(block, 0, from, k);
    assert(rest.subrange(k - from, end - from) =~= block.subrange(k, end));
    if occurs_at(block.subrange(k, end), prefix, 0) {
        assert(rest.subrange(k - from + prefix.len(), end - from) =~= block.subrange(
            k + prefix.len(),
            end,
        ));
    } else if end < block.len() {
        lemma_entry_moved(block, prefix, from, end + 1);
    }
}

/// In an environment block a variable is the first entry that begins with its
/// name and an equals sign; its value is the rest of that entry.
pub proof fn lemma_block_variables(
    prefix: Seq<u8>,
    value: Seq<u8>,
    other: Seq<u8>,
    rest: Seq<u8>,
)
    requires
        !prefix.contains(0u8) && !value.contains(0u8) && !other.contains(0u8),
        !prefix.is_prefix_of(other),
    ensures
        entry_value(prefix + value + seq![0u8] + rest, prefix, 0) == Some(value),
        entry_value(prefix + value, prefix, 0) == Some(value),
        entry_value(other + seq![0u8] + rest, prefix, 0) == entry_value(rest, prefix, 0),
        entry_value(other, prefix, 0) is None,
{
    let entry = prefix + value;
    assert(!entry.contains(0u8)) by {
        if entry.contains(0u8) {
            let i = choose|i: int| 0 <= i < entry.len() && entry[i] == 0;
            if i < prefix.len() {
                assert(prefix[i] == 0);
            } else {
                assert(value[i - prefix.len()] == 0);
            }
        }
    }
    let a = entry + seq![0u8] + rest;
    lemma_entry_end(entry, rest);
    assert(a.subrange(0, entry.len() as int) =~= entry);
    assert(entry.subrange(0, entry.len() as int) =~= entry);
    assert(entry.subrange(0, prefix.len() as int) =~= prefix);
    assert(occurs_at(entry, prefix, 0));
    assert(a.subrange(prefix.len() as int, entry.len() as int) =~= value);
    assert(entry.subrange(prefix.len() as int, entry.len() as int) =~= value);
    let b = other + seq![0u8] + rest;
    lemma_entry_end(other, rest);
    assert(b.subrange(0, other.len() as int) =~= other);
    assert(other.subrange(0, other.len() as int) =~= other);
    assert(!occurs_at(other, prefix, 0)) by {
        if occurs_at(other, prefix, 0) {
            assert(other.subrange(0, prefix.len() as int) =~= prefix);
        }
    }
    lemma_entry_moved(b, prefix, other.len() as int + 1, other.len() as int + 1);
    assert(b.skip(other.len() as int + 1) =~= rest);
}

proof fn lemma_entry_end(entry: Seq<u8>, rest: Seq<u8>)
    requires
        !entry.contains(0u8),
    ensures
        next_byte(entry + seq![0u8] + rest, 0, 0) == entry.len(),
        next_byte(entry, 0, 0) == entry.len(),
{
    let s = entry + seq![0u8] + rest;
    lemma_next_byte(s, 0, 0);
    lemma_next_byte(entry, 0, 0);
    let i = next_byte(s, 0, 0);
    assert(s[entry.len() as int] == 0);
    if i < entry.len() {
        assert(entry[i] == s[i]);
    }
    let j = next_byte(entry, 0, 0);
    if j < entry.len() {
        assert(entry.contains(entry[j]));
    }
}

/// The value of a variable is its entry's, as text; one that is no text is
/// none.
pub proof fn lemma_block_texts(block: Seq<u8>, name: Seq<char>, value: Seq<char>)
    ensures
        entry_value(block, encode_utf8(name + seq!['=']), 0) == Some(encode_utf8(value))
            ==> block_value(block, name) == Some(value),
        entry_value(block, encode_utf8(name + seq!['=']), 0) is None ==> block_value(block, name)
            is None,
{
    encode_utf8_valid_utf8(value);
    encode_utf8_decode_utf8(value);
    assert(name.push('=') =~= name + seq!['=']);
}

proof fn lemma_arguments_moved(bytes: Seq<u8>, from: int, k: int)
    requires
        0 <= from <= bytes.len(),
        from <= k,
    ensures
        command_arguments(bytes, k) == command_arguments(bytes.skip(from), k - from),
    decreases bytes.len() + 1 - k,
{
    let rest = bytes.skip(from);
    if k < bytes.len() {
        lemma_next_byte(bytes, 0, k);
        lemma_next_byte(rest, 0, k - from);
        lemma_next_byte_moved(bytes, 0, from, k);
        let end = next_byte(bytes, 0, k);
        assert(rest.subrange(k - from, end - from) =~= bytes.subrange(k, end));
        lemma_arguments_moved(bytes, from, end + 1);
    }
}

/// A command line holds its arguments, each before a zero byte or the end;
/// empty ones do not count.
pub proof fn lemma_command_lines(argument: Seq<u8>, rest: Seq<u8>)
    requires
        !argument.contains(0u8),
    ensures
        argument.len() > 0 ==> command_arguments(argument + seq![0u8] + rest, 0) == seq![
            utf8_lossy(argument),
        ] + command_arguments(rest, 0),
        argument.len() > 0 ==> command_arguments(argument, 0) == seq![utf8_lossy(argument)],
        command_arguments(seq![0u8] + rest, 0) == command_arguments(rest, 0),
        command_arguments(Seq::empty(), 0) == Seq::<Seq<char>>::empty(),
{
    let s = argument + seq![0u8] + rest;
    let n = argument.len() as int;
    lemma_entry_end(argument, rest);
    assert(s.subrange(0, n) =~= argument);
    assert(argument.subrange(0, n) =~= argument);
    lemma_arguments_moved(s, n + 1, n + 1);
    assert(s.skip(n + 1) =~= rest);
    assert(command_arguments(argument, n + 1) == Seq::<Seq<char>>::empty());
    assert(seq![utf8_lossy(argument)] + Seq::<Seq<char>>::empty() =~= seq![utf8_lossy(argument)]);
    let z = seq![0u8] + rest;
    assert(z[0] == 0);
    lemma_arguments_moved(z, 1, 1);
    assert(z.skip(1) =~= rest);
}

/// The parent stands on the first line of its name with a number, as the
/// kernel prints it.
pub proof fn lemma_status_parents(pid: u32, row: Seq<char>, rows: Seq<Seq<char>>)
    requires
        !"PPid:"@.is_prefix_of(row),
    ensures
        status_line_parent(seq!["PPid:"@ + (seq!['\t'] + decimal(pid as nat))] + rows) == Some(
            pid as nat,
        ),
        status_line_parent(seq![row] + rows) == status_line_parent(rows),
        status_line_parent(Seq::empty()) is None,
{
    reveal_strlit("PPid:");
    let name = "PPid:"@;
    let line = name + (seq!['\t'] + decimal(pid as nat));
    assert(name.len() == 5);
    assert(name =~= line.subrange(0, 5));
    assert(line.skip(5) =~= seq!['\t'] + decimal(pid as nat));
    lemma_decimal_plain(pid as nat);
    let tab = seq!['\t'];
    assert(white_space(tab[0]));
    lemma_trimmed_between(tab, decimal(pid as nat), Seq::empty());
    assert(tab + decimal(pid as nat) + Seq::<char>::empty() =~= tab + decimal(pid as nat));
    lemma_number_bound(pid as nat, u32::MAX as nat);
    assert((seq![line] + rows)[0] == line);
    assert((seq![row] + rows)[0] == row);
    assert((seq![row] + rows).drop_first() =~= rows);
}

/// A row of the process table gives the parent and then the environment, from
/// which each variable is read.
pub proof fn lemma_parent_rows(pid: u32, environment: Seq<char>, names: Seq<Seq<char>>, i: int)
    requires
        environment.len() > 0 && !white_space(environment[0]),
        0 <= i < names.len(),
    ensures
        parent_record(decimal(pid as nat) + seq![' '] + environment, names) is Some,
        (parent_record(decimal(pid as nat) + seq![' '] + environment, names)->0).0 == pid,
        (parent_record(decimal(pid as nat) + seq![' '] + environment, names)->0).1[i]
            == environment_value(environment, names[i]),
        parent_record(decimal(pid as nat), names) is None,
{
    let id = decimal(pid as nat);
    let s = id + seq![' '] + environment;
    lemma_decimal_plain(pid as nat);
    assert(s[0] == id[0]);
    assert(trim_start_where(s, blank()) == s);
    assert(trim_start_where(id, blank()) == id);
    assert forall|j: int| 0 <= j < id.len() implies !blank()(#[trigger] s[j]) by {
        assert(s[j] == id[j]);
    }
    assert(blank()(s[id.len() as int]));
    lemma_first_where(s, blank(), id.len() as int);
    assert forall|j: int| 0 <= j < id.len() implies !blank()(#[trigger] id[j]) by {}
    lemma_first_where(id, blank(), id.len() as int);
    assert(s.take(id.len() as int) =~= id);
    let tail = s.skip(id.len() as int);
    assert(tail =~= seq![' '] + environment);
    assert(tail.drop_first() =~= environment);
    assert(trim_start_where(environment, blank()) == environment);
    assert(trim_start_where(tail, blank()) == environment);
    lemma_number_bound(pid as nat, u32::MAX as nat);
}

/// Of the processes without their own files `ps` is asked; where it cannot be
/// asked for, nothing is known.
pub proof fn lemma_lookups(pid: u32, name: &str, read: BlockRead, lookup: Lookup, allowed: bool)
    requires
        call_ensures(environment_lookup, (pid, name, &read), lookup),
        call_ensures(may_look_up, (pid, name), allowed),
    ensures
        allowed <==> pid != 0 && valid_name(name@),
        lookup is AskPs <==> allowed && read is Missing,
        !allowed || read is Refused ==> lookup == Lookup::Known(None),
        allowed ==> (read matches BlockRead::Block(block) ==> (lookup matches Lookup::Known(value)
            && opt_text(value) == block_value(block@, name@))),
{
}

/// A terminal is named by its path; a bare name is below `/dev`.
pub proof fn lemma_terminals(name: Seq<char>, output: &str, expected: &str, result: bool)
    requires
        call_ensures(ps_tty_matches, (output, expected), result),
        output@ == name + seq!['\n'],
        name.len() > 0 && !white_space(name[0]) && !white_space(name.last()),
    ensures
        name[0] == '/' ==> (result <==> expected@ == name),
        name[0] != '/' ==> (result <==> expected@ == "/dev/"@ + name),
{
    lemma_trimmed_between(Seq::empty(), name, seq!['\n']);
    assert(Seq::<char>::empty() + name + seq!['\n'] =~= name + seq!['\n']);
    reveal_strlit("/");
    assert("/"@ =~= seq!['/']);
    if name[0] == '/' {
        assert("/"@ =~= name.subrange(0, 1));
    }
    if "/"@.is_prefix_of(name) {
        assert("/"@[0] == name[0]);
    }
}

/// A parent is printed as a number; a process without a status has failed; and
/// a turn takes at most sixty-four kibibytes.
pub proof fn lemma_parents(
    pid: u32,
    output: &str,
    parent: Option<u32>,
    code: Option<i32>,
    result: i32,
)
    requires
        call_ensures(ps_parent, (output,), parent),
        call_ensures(status_code, (code,), result),
    ensures
        output@ == decimal(pid as nat) + seq!['\n'] ==> parent == Some(pid),
        code matches Some(n) ==> result == n,
        code is None ==> result == 1,
        MAX_BYTES_PER_TURN == 65536,
{
    let text = decimal(pid as nat);
    lemma_decimal_plain(pid as nat);
    lemma_trimmed_between(Seq::empty(), text, seq!['\n']);
    assert(Seq::<char>::empty() + text + seq!['\n'] =~= text + seq!['\n']);
    lemma_number_bound(pid as nat, u32::MAX as nat);
}

/// A path is joined below another with one slash between; an absolute path
/// stands for itself.
pub proof fn lemma_joined_paths(base: &str, path: &str, result: String)
    requires
        call_ensures(join, (base, path), result),
    ensures
        path@.len() > 0 && path@[0] == '/' ==> result@ == path@,
        base@.len() == 0 ==> result@ == path@,
        base@.len() > 0 && base@.last() == '/' && (path@.len() == 0 || path@[0] != '/')
            ==> result@ == base@ + path@,
        base@.len() > 0 && base@.last() != '/' && (path@.len() == 0 || path@[0] != '/')
            ==> result@ == base@ + "/"@ + path@,
{
}

/// The parts of a path are its pieces between slashes, without empty ones and
/// without dots, except a dot at the beginning of a relative path.
pub proof fn lemma_path_parts(
    pieces: Seq<Seq<char>>,
    piece: Seq<char>,
    rooted: bool,
    path: Seq<char>,
)
    ensures
        parts(path) == counted(split(path, '/'), path.len() > 0 && path[0] == '/'),
        counted(Seq::empty(), rooted) == Seq::<Seq<char>>::empty(),
        piece.len() == 0 ==> counted(pieces.push(piece), rooted) == counted(pieces, rooted),
        piece.len() > 0 && piece != "."@ ==> counted(pieces.push(piece), rooted) == counted(
            pieces,
            rooted,
        ).push(piece),
        piece == "."@ && (pieces.len() > 0 || rooted) ==> counted(pieces.push(piece), rooted)
            == counted(pieces, rooted),
        counted(seq!["."@], false) == seq!["."@],
{
    assert(pieces.push(piece).drop_last() =~= pieces);
    reveal_strlit(".");
    assert("."@.len() == 1);
    let dot = seq!["."@];
    assert(dot.drop_last() =~= Seq::<Seq<char>>::empty());
    assert(dot.last() == "."@);
    reveal_with_fuel(counted, 2);
    assert(counted(dot, false) =~= dot);
}

/// Paths are the same where they have the same parts and are both absolute or
/// both relative; a path is beneath another whose parts it begins with, and
/// ends in another whose parts it ends with.
pub proof fn lemma_path_relations(a: &str, b: &str, equal: bool)
    requires
        call_ensures(paths_equal, (a, b), equal),
    ensures
        equal <==> parts(a@) == parts(b@) && absolute(a@) == absolute(b@),
        beneath(a@, b@) ==> parts(b@).is_prefix_of(parts(a@)),
        absolute(b@) && beneath(a@, b@) ==> absolute(a@),
        absolute(a@) == absolute(b@) && parts(b@).is_prefix_of(parts(a@)) ==> beneath(a@, b@),
        ends_in(a@, b@) <==> parts(b@).is_suffix_of(parts(a@)),
        relative(a@, b@) is Some <==> beneath(a@, b@),
{
}

/// Runtime state lives in a directory of the user, below an absolute configured
/// one, else below that for temporary files.
pub proof fn lemma_runtime_directories(
    configured: Option<&str>,
    temporary: &str,
    uid: u32,
    path: String,
)
    requires
        call_ensures(user_directory, (configured, temporary, uid), path),
    ensures
        configured is Some && absolute(configured->0@) ==> path@ == below(
            configured->0@,
            "termnav-"@ + decimal(uid as nat),
        ),
        configured is None || !absolute(configured->0@) ==> path@ == below(
            temporary@,
            "termnav-"@ + decimal(uid as nat),
        ),
{
}

/// A socket goes there too, unless its path would be longer than a hundred and
/// three bytes; then it goes below `/tmp`.
pub proof fn lemma_socket_directories(directory: Seq<char>, name: Seq<char>, uid: u32)
    ensures
        encode_utf8(below(directory, name)).len() <= 103 ==> socket_root(directory, name, uid)
            == directory,
        encode_utf8(below(directory, name)).len() > 103 ==> socket_root(directory, name, uid)
            == below("/tmp"@, "termnav-"@ + decimal(uid as nat)),
        MAX_SOCKET_PATH == 103,
        MAX_SOCKET_NAME == 79,
{
}

/// A directory directly below is named by one part, which is neither the
/// directory itself nor the one above.
pub proof fn lemma_subdirectories(directory: &str, name: &str, path: Option<String>)
    requires
        call_ensures(subdirectory, (directory, name), path),
    ensures
        path is Some <==> !absolute(name@) && parts(name@).len() == 1 && parts(name@)[0] != "."@
            && parts(name@)[0] != ".."@,
        path matches Some(path) ==> path@ == below(directory@, name@),
{
}

/// A word is quoted for the shell by single quotes, with each of its own spelt
/// outside them; words are joined by single spaces; and tmux's formats are kept
/// from being read by doubling their sign.
pub proof fn lemma_shell_words(
    value: &str,
    word: String,
    escaped: String,
    arguments: Seq<Seq<char>>,
    argument: Seq<char>,
)
    requires
        call_ensures(quote, (value,), word),
        call_ensures(escape_tmux_format, (value,), escaped),
    ensures
        word@ == "'"@ + replaced(value@, '\'', "'\\''"@) + "'"@,
        escaped@ == replaced(value@, '#', "##"@),
        command_line(seq![argument]) == quoted(argument),
        arguments.len() > 0 ==> command_line(arguments.push(argument)) == command_line(arguments)
            + " "@ + quoted(argument),
{
    let words = |list: Seq<Seq<char>>| Seq::new(list.len(), |i: int| quoted(list[i]));
    crate::laws::text::lemma_joined_each(words(arguments), quoted(argument), " "@);
    assert(words(arguments.push(argument)) =~= words(arguments).push(quoted(argument)));
    assert(words(seq![argument]) =~= seq![quoted(argument)]);
}

} // verus!
