//! How an SSH command line is read, when a session carries a relay, and what
//! the relay adds to the command line.

use vstd::prelude::*;
use vstd::string::*;

use crate::laws::text::lemma_cut_at;
use crate::laws::text::lemma_trimmed_between;
use crate::paths::ends_in;
use crate::ssh::{
    cancel_arguments, cancelled_path, carries_relay, destination_from, destination_index, holds,
    hyphened, intake, no_value_flags, options_end, real_ssh, relay_options, relay_socket_name,
    remote_socket, resolved_tty, sessionless, sets_option, sets_tty_request, setting, setting_lines,
    setting_texts, supervise, value_flags, width_from, width_of, with_relay, writes_tty_request,
    Candidate, Intake, Supervision,
};
use crate::text::{cut, lowered, opt_str, strings, trimmed, white_space};

verus! {

/// The letters of the options that take a value.
pub open spec fn takes_value(c: char) -> bool {
    ||| c == 'B' || c == 'b' || c == 'c' || c == 'D' || c == 'E' || c == 'e' || c == 'F'
    ||| c == 'I' || c == 'i' || c == 'J' || c == 'L' || c == 'l' || c == 'm' || c == 'O'
    ||| c == 'o' || c == 'p' || c == 'Q' || c == 'R' || c == 'S' || c == 'W' || c == 'w'
}

/// The letters of the options that stand alone.
pub open spec fn stands_alone(c: char) -> bool {
    ||| c == '4' || c == '6' || c == 'A' || c == 'C' || c == 'G' || c == 'K' || c == 'M'
    ||| c == 'N' || c == 'T' || c == 'V' || c == 'X' || c == 'Y' || c == 'a' || c == 'f'
    ||| c == 'g' || c == 'k' || c == 'n' || c == 'q' || c == 's' || c == 't' || c == 'v'
    ||| c == 'x'
}

proof fn lemma_letters(c: char)
    ensures
        value_flags().contains(c) == takes_value(c),
        no_value_flags().contains(c) == stands_alone(c),
{
    reveal_strlit("46ACGKMNTVXYafgknqstvx");
    reveal_strlit("BbcDEeFIiJLlmOopQRSWw");
    assert(no_value_flags() =~= seq![
        '4', '6', 'A', 'C', 'G', 'K', 'M', 'N', 'T', 'V', 'X', 'Y', 'a', 'f', 'g', 'k', 'n', 'q',
        's', 't', 'v', 'x',
    ]);
    assert(value_flags() =~= seq![
        'B', 'b', 'c', 'D', 'E', 'e', 'F', 'I', 'i', 'J', 'L', 'l', 'm', 'O', 'o', 'p', 'Q', 'R',
        'S', 'W', 'w',
    ]);
    let with = value_flags();
    let without = no_value_flags();
    assert(with[0] == 'B' && with[1] == 'b' && with[2] == 'c' && with[3] == 'D' && with[4] == 'E'
        && with[5] == 'e' && with[6] == 'F' && with[7] == 'I' && with[8] == 'i' && with[9] == 'J'
        && with[10] == 'L' && with[11] == 'l' && with[12] == 'm' && with[13] == 'O' && with[14]
        == 'o' && with[15] == 'p' && with[16] == 'Q' && with[17] == 'R' && with[18] == 'S'
        && with[19] == 'W' && with[20] == 'w');
    assert(without[0] == '4' && without[1] == '6' && without[2] == 'A' && without[3] == 'C'
        && without[4] == 'G' && without[5] == 'K' && without[6] == 'M' && without[7] == 'N'
        && without[8] == 'T' && without[9] == 'V' && without[10] == 'X' && without[11] == 'Y'
        && without[12] == 'a' && without[13] == 'f' && without[14] == 'g' && without[15] == 'k'
        && without[16] == 'n' && without[17] == 'q' && without[18] == 's' && without[19] == 't'
        && without[20] == 'v' && without[21] == 'x');
}

proof fn lemma_alone(letters: Seq<char>, i: int, n: int)
    requires
        0 <= i <= n <= letters.len(),
        forall|j: int| i <= j < n ==> stands_alone(#[trigger] letters[j]),
    ensures
        width_from(letters, i) == width_from(letters, n),
    decreases n - i,
{
    if i < n {
        lemma_letters(letters[i]);
        lemma_alone(letters, i + 1, n);
    }
}

proof fn lemma_hyphen(word: Seq<char>)
    ensures
        hyphened(word) <==> word.len() > 0 && word[0] == '-',
        word == "-"@ <==> word == seq!['-'],
        word == "--"@ <==> word == seq!['-', '-'],
{
    reveal_strlit("-");
    reveal_strlit("--");
    assert("-"@ =~= seq!['-']);
    assert("--"@ =~= seq!['-', '-']);
    if word.len() > 0 && word[0] == '-' {
        assert("-"@ =~= word.subrange(0, 1));
    }
    if hyphened(word) {
        assert("-"@[0] == word[0]);
    }
}

proof fn lemma_moved(arguments: Seq<Seq<char>>, i: int, k: int)
    requires
        0 <= i <= k <= arguments.len(),
    ensures
        destination_from(arguments, k) == match destination_from(arguments.skip(i), k - i) {
            Some(found) => Some(found + i),
            None => None,
        },
    decreases arguments.len() - k,
{
    let rest = arguments.skip(i);
    if k < arguments.len() {
        assert(rest[k - i] == arguments[k]);
        match width_of(arguments[k]) {
            Some(width) => {
                if width > 0 && k + width <= arguments.len() {
                    lemma_moved(arguments, i, k + width);
                }
            },
            None => {},
        }
    }
}

/// An option of letters that stand alone, followed by one that takes a value,
/// takes the next argument with it, whatever that is.
pub proof fn lemma_value_is_the_next_argument(
    letters: Seq<char>,
    c: char,
    value: Seq<char>,
    rest: Seq<Seq<char>>,
)
    requires
        forall|i: int| 0 <= i < letters.len() ==> stands_alone(#[trigger] letters[i]),
        takes_value(c),
    ensures
        destination_from(seq![seq!['-'] + letters + seq![c], value] + rest, 0) == match destination_from(
            rest,
            0,
        ) {
            Some(found) => Some(found + 2),
            None => None,
        },
        destination_from(seq![seq!['-'] + letters + seq![c]], 0) is None,
{
    let option = seq!['-'] + letters + seq![c];
    let flags = letters + seq![c];
    let arguments = seq![option, value] + rest;
    assert(option.skip(1) =~= flags);
    assert forall|j: int| 0 <= j < letters.len() implies stands_alone(#[trigger] flags[j]) by {
        assert(flags[j] == letters[j]);
    }
    lemma_alone(flags, 0, letters.len() as int);
    lemma_letters(c);
    assert(flags[letters.len() as int] == c);
    assert(width_of(option) == Some(2int));
    lemma_hyphen(option);
    assert(option.len() > 1 && option[0] == '-');
    if letters.len() == 0 {
        assert(option[1] == c);
    } else {
        assert(option[1] == letters[0]);
    }
    assert(seq!['-', '-'][1] == '-');
    assert(option != seq!['-', '-']);
    assert(arguments[0] == option);
    assert(arguments.skip(2) =~= rest);
    lemma_moved(arguments, 2, 2);
    assert(seq![option][0] == option);
}

/// A value written onto its letter takes up no further argument.
pub proof fn lemma_value_is_attached(
    letters: Seq<char>,
    c: char,
    value: Seq<char>,
    rest: Seq<Seq<char>>,
)
    requires
        forall|i: int| 0 <= i < letters.len() ==> stands_alone(#[trigger] letters[i]),
        takes_value(c),
        value.len() > 0,
    ensures
        destination_from(seq![seq!['-'] + letters + seq![c] + value] + rest, 0)
            == match destination_from(rest, 0) {
            Some(found) => Some(found + 1),
            None => None,
        },
{
    let option = seq!['-'] + letters + seq![c] + value;
    let flags = letters + seq![c] + value;
    let arguments = seq![option] + rest;
    assert(option.skip(1) =~= flags);
    assert forall|j: int| 0 <= j < letters.len() implies stands_alone(#[trigger] flags[j]) by {
        assert(flags[j] == letters[j]);
    }
    lemma_alone(flags, 0, letters.len() as int);
    lemma_letters(c);
    assert(flags[letters.len() as int] == c);
    lemma_hyphen(option);
    assert(option.len() > 2 && option[0] == '-');
    assert(arguments[0] == option);
    assert(arguments.skip(1) =~= rest);
    lemma_moved(arguments, 1, 1);
}

/// An option of letters that stand alone takes up one argument.
pub proof fn lemma_letters_stand_alone(letters: Seq<char>, rest: Seq<Seq<char>>)
    requires
        letters.len() > 0,
        forall|i: int| 0 <= i < letters.len() ==> stands_alone(#[trigger] letters[i]),
    ensures
        destination_from(seq![seq!['-'] + letters] + rest, 0) == match destination_from(rest, 0) {
            Some(found) => Some(found + 1),
            None => None,
        },
{
    let option = seq!['-'] + letters;
    let arguments = seq![option] + rest;
    assert(option.skip(1) =~= letters);
    lemma_alone(letters, 0, letters.len() as int);
    lemma_hyphen(option);
    assert(option.len() > 1 && option[0] == '-' && option[1] == letters[0]);
    assert(seq!['-', '-'][1] == '-');
    assert(arguments[0] == option);
    assert(arguments.skip(1) =~= rest);
    lemma_moved(arguments, 1, 1);
}

/// Behind a letter that no client knows there is no destination.
pub proof fn lemma_unknown_letter_hides_the_destination(
    letters: Seq<char>,
    c: char,
    after: Seq<char>,
    rest: Seq<Seq<char>>,
)
    requires
        forall|i: int| 0 <= i < letters.len() ==> stands_alone(#[trigger] letters[i]),
        !takes_value(c) && !stands_alone(c),
        c != '-' || letters.len() > 0 || after.len() > 0,
    ensures
        destination_from(seq![seq!['-'] + letters + seq![c] + after] + rest, 0) is None,
{
    let option = seq!['-'] + letters + seq![c] + after;
    let flags = letters + seq![c] + after;
    let arguments = seq![option] + rest;
    assert(option.skip(1) =~= flags);
    assert forall|j: int| 0 <= j < letters.len() implies stands_alone(#[trigger] flags[j]) by {
        assert(flags[j] == letters[j]);
    }
    lemma_alone(flags, 0, letters.len() as int);
    lemma_letters(c);
    assert(flags[letters.len() as int] == c);
    lemma_hyphen(option);
    assert(option.len() > 1 && option[0] == '-');
    assert(option[1] == flags[0]);
    assert(seq!['-', '-'][1] == '-');
    assert(arguments[0] == option);
}

/// The destination is the first argument that is no option. A hyphen alone is
/// one, two hyphens make the next argument one whatever it looks like, and
/// without arguments there is none.
pub proof fn lemma_destination_is_no_option(host: Seq<char>, rest: Seq<Seq<char>>)
    ensures
        host.len() == 0 || host[0] != '-' ==> destination_from(seq![host] + rest, 0) == Some(0int),
        destination_from(seq!["-"@] + rest, 0) == Some(0int),
        destination_from(seq!["--"@, host] + rest, 0) == Some(1int),
        destination_from(seq!["--"@], 0) is None,
        destination_from(Seq::<Seq<char>>::empty(), 0) is None,
{
    lemma_hyphen(host);
    lemma_hyphen("-"@);
    assert("-"@ != "--"@) by {
        reveal_strlit("-");
        reveal_strlit("--");
        assert("-"@.len() != "--"@.len());
    }
    if host.len() == 0 || host[0] != '-' {
        assert(seq!['-', '-'][0] == '-');
        assert((seq![host] + rest)[0] == host);
    }
    assert((seq!["-"@] + rest)[0] == "-"@);
    assert((seq!["--"@, host] + rest)[0] == "--"@);
    assert(seq!["--"@][0] == "--"@);
}

/// One option with its value, and the host behind it.
pub proof fn lemma_host_behind_an_option(
    c: char,
    value: Seq<char>,
    host: Seq<char>,
    arguments: &[String],
    index: Option<usize>,
)
    requires
        host.len() == 0 || host[0] != '-',
        call_ensures(destination_index, (arguments,), index),
    ensures
        takes_value(c) && strings(arguments@) == seq![seq!['-', c], value, host] ==> index == Some(
            2usize,
        ),
        stands_alone(c) && strings(arguments@) == seq![seq!['-', c], host] ==> index == Some(
            1usize,
        ),
{
    let option = seq!['-', c];
    lemma_destination_is_no_option(host, Seq::empty());
    assert(seq![host] + Seq::<Seq<char>>::empty() =~= seq![host]);
    if takes_value(c) {
        lemma_value_is_the_next_argument(Seq::empty(), c, value, seq![host]);
        assert(seq!['-'] + Seq::<char>::empty() + seq![c] =~= option);
        assert(seq![option, value] + seq![host] =~= seq![option, value, host]);
    }
    if stands_alone(c) {
        lemma_letters_stand_alone(seq![c], seq![host]);
        assert(seq!['-'] + seq![c] =~= option);
        assert(seq![option] + seq![host] =~= seq![option, host]);
    }
}

/// An option asks for no session where it is a control operation or a forward
/// of standard input, or where its letters all stand alone and one of them is
/// `G`, `N`, `T` or `f`.
pub proof fn lemma_sessionless_options(letters: Seq<char>, after: Seq<char>)
    ensures
        sessionless(seq!['-', 'W'] + after),
        sessionless(seq!['-', 'O'] + after),
        letters.len() > 0 && (forall|i: int|
            0 <= i < letters.len() ==> stands_alone(#[trigger] letters[i])) ==> (sessionless(
            seq!['-'] + letters,
        ) <==> letters.contains('G') || letters.contains('N') || letters.contains('T')
            || letters.contains('f')),
        letters.len() > 0 && !stands_alone(letters.last()) && letters[0] != 'W' && letters[0]
            != 'O' ==> !sessionless(seq!['-'] + letters),
        after.len() == 0 || after[0] != '-' ==> !sessionless(after),
        !sessionless(seq!['-']),
{
    reveal_strlit("-W");
    reveal_strlit("-O");
    reveal_strlit("GNTf");
    let w = seq!['-', 'W'] + after;
    let o = seq!['-', 'O'] + after;
    assert("-W"@ =~= w.subrange(0, 2));
    assert("-O"@ =~= o.subrange(0, 2));
    let option = seq!['-'] + letters;
    if letters.len() > 0 {
        assert(option[0] == '-' && option[1] == letters[0]);
        assert(option[option.len() - 1] == letters.last());
        lemma_letters(letters.last());
        if letters[0] != 'W' && letters[0] != 'O' {
            assert(!("-W"@.is_prefix_of(option))) by {
                assert("-W"@[1] == 'W');
            }
            assert(!("-O"@.is_prefix_of(option))) by {
                assert("-O"@[1] == 'O');
            }
        }
    }
    if letters.len() > 0 && (forall|i: int|
        0 <= i < letters.len() ==> stands_alone(#[trigger] letters[i])) {
        assert(stands_alone(letters[0]));
        assert forall|i: int| 1 <= i < option.len() implies no_value_flags().contains(
            #[trigger] option[i],
        ) by {
            assert(option[i] == letters[i - 1]);
            lemma_letters(letters[i - 1]);
        }
        let modes = "GNTf"@;
        assert(modes[0] == 'G' && modes[1] == 'N' && modes[2] == 'T' && modes[3] == 'f');
        if sessionless(option) {
            let i = choose|i: int| 1 <= i < option.len() && "GNTf"@.contains(#[trigger] option[i]);
            let k = choose|k: int| 0 <= k < modes.len() && modes[k] == option[i];
            assert(modes.len() == 4);
            assert(k == 0 || k == 1 || k == 2 || k == 3);
            assert(letters[i - 1] == option[i]);
        }
        assert forall|i: int| 0 <= i < letters.len() && modes.contains(letters[i]) implies
            sessionless(option) by {
            assert(option[i + 1] == letters[i]);
        }
        assert(modes.contains('G') && modes.contains('N') && modes.contains('T')
            && modes.contains('f'));
    }
    if after.len() == 0 || after[0] != '-' {
        assert("-W"@[0] == '-' && "-O"@[0] == '-');
    }
    assert("-W"@.len() == 2 && "-O"@.len() == 2);
}

/// An invocation is probed just where it has a destination, no option before
/// it asks for no session, and a terminal may be in play: that of standard
/// input, or one that an option beginning with `-t` asks for.
pub proof fn lemma_intake(arguments: &[String], stdin_tty: bool, result: Intake)
    requires
        call_ensures(intake, (arguments, stdin_tty), result),
    ensures
        result is Probe <==> destination_from(strings(arguments@), 0) is Some && (forall|i: int|
            0 <= i < destination_from(strings(arguments@), 0)->0 ==> !sessionless(
                #[trigger] strings(arguments@)[i],
            )) && (stdin_tty || exists|i: int|
            0 <= i < destination_from(strings(arguments@), 0)->0 && "-t"@.is_prefix_of(
                #[trigger] strings(arguments@)[i],
            )),
        result matches Intake::Probe(i) ==> destination_from(strings(arguments@), 0) == Some(
            i as int,
        ),
{
}

/// A line of the effective configuration sets its key, in any case, to the
/// rest of the line without surrounding white space; the last line for a key
/// counts, and a line without a space counts for nothing.
pub proof fn lemma_configuration_lines(
    rows: Seq<Seq<char>>,
    key: Seq<char>,
    value: Seq<char>,
    name: Seq<char>,
)
    requires
        !key.contains(' '),
    ensures
        setting(setting_lines(rows.push(key + seq![' '] + value)), name) == if name == lowered(
            key,
        ) {
            Some(trimmed(value))
        } else {
            setting(setting_lines(rows), name)
        },
        setting(setting_lines(rows.push(key)), name) == setting(setting_lines(rows), name),
        setting(setting_lines(Seq::empty()), name) is None,
{
    let row = key + seq![' '] + value;
    lemma_cut_at(key, ' ', value);
    assert(rows.push(row).drop_last() =~= rows);
    assert(rows.push(key).drop_last() =~= rows);
    crate::laws::text::lemma_cut(key, ' ');
    match cut(key, ' ') {
        Some((before, after)) => {
            assert(key[before.len() as int] == ' ');
            assert(key.contains(' '));
        },
        None => {},
    }
    let pair = (lowered(key), trimmed(value));
    let before = setting_lines(rows);
    assert(before.push(pair).drop_last() =~= before);
}

/// A configuration that denies a terminal wins over the command line, and a
/// `-t` before the destination wins over everything else.
pub proof fn lemma_denied_and_forced_terminals(
    settings: &[(String, String)],
    arguments: &[String],
    destination: usize,
    stdin_tty: bool,
    result: bool,
)
    requires
        destination <= arguments@.len(),
        call_ensures(resolved_tty, (settings, arguments, destination, stdin_tty), result),
    ensures
        ({
            let request = setting(setting_texts(settings@), "requesttty"@);
            let said = lowered(request->0);
            let flagged = exists|i: int|
                0 <= i < destination && "-t"@.is_prefix_of(#[trigger] strings(arguments@)[i]);
            let command = destination + 1 < arguments@.len();
            &&& request is Some && said == "no"@ ==> !result
            &&& flagged && (request is None || said != "no"@) ==> result
            &&& !flagged && !command && request is None ==> result == stdin_tty
            &&& !flagged && !command && request is Some && said == "auto"@ ==> result == stdin_tty
            &&& !flagged && !command && request is Some && (said == "yes"@ || said == "force"@)
                ==> result
            &&& !flagged && request is Some && said != "yes"@ && said != "force"@ && said
                != "auto"@ ==> !result
            &&& !flagged && command && request is None ==> !result
            &&& !flagged && command && request is Some && said == "auto"@ ==> !result
            &&& !flagged && command && request is Some && (said == "yes"@ || said == "force"@)
                ==> result == writes_tty_request(strings(arguments@), destination as int)
        }),
{
    reveal_strlit("no");
    reveal_strlit("yes");
    reveal_strlit("force");
    reveal_strlit("auto");
    assert("no"@.len() == 2 && "yes"@.len() == 3 && "force"@.len() == 5 && "auto"@.len() == 4);
}

/// The option `RequestTTY` asks for a terminal by `yes` and by `force`, in any
/// case, with white space anywhere around the key and the value, behind an
/// equals sign or a space.
pub proof fn lemma_request_option(
    a: Seq<char>,
    key: Seq<char>,
    b: Seq<char>,
    c: Seq<char>,
    value: Seq<char>,
    d: Seq<char>,
)
    requires
        forall|i: int| 0 <= i < a.len() ==> white_space(#[trigger] a[i]),
        forall|i: int| 0 <= i < b.len() ==> white_space(#[trigger] b[i]),
        forall|i: int| 0 <= i < c.len() ==> white_space(#[trigger] c[i]),
        forall|i: int| 0 <= i < d.len() ==> white_space(#[trigger] d[i]),
        key.len() > 0 && value.len() > 0,
        !white_space(key[0]) && !white_space(key.last()),
        !white_space(value[0]) && !white_space(value.last()),
        !key.contains('=') && !key.contains(' '),
    ensures
        sets_tty_request(a + key + b + seq!['='] + (c + value + d)) <==> lowered(key)
            == "requesttty"@ && (lowered(value) == "yes"@ || lowered(value) == "force"@),
        !value.contains('=') ==> (sets_tty_request(key + seq![' '] + (c + value + d)) <==> lowered(
            key,
        ) == "requesttty"@ && (lowered(value) == "yes"@ || lowered(value) == "force"@)),
        !sets_tty_request(key),
{
    let left = a + key + b;
    let right = c + value + d;
    lemma_trimmed_between(a, key, b);
    lemma_trimmed_between(c, value, d);
    lemma_trimmed_between(Seq::empty(), key, Seq::empty());
    assert(Seq::<char>::empty() + key + Seq::<char>::empty() =~= key);
    if left.contains('=') {
        let i = choose|i: int| 0 <= i < left.len() && left[i] == '=';
        if i < a.len() {
            assert(white_space(a[i]));
        } else if i < a.len() + key.len() {
            assert(key[i - a.len()] == '=');
        } else {
            assert(white_space(b[i - a.len() - key.len()]));
        }
    }
    lemma_cut_at(left, '=', right);
    lemma_cut_at(key, ' ', right);
    let spaced = key + seq![' '] + right;
    if !value.contains('=') {
        if spaced.contains('=') {
            let i = choose|i: int| 0 <= i < spaced.len() && spaced[i] == '=';
            let n = key.len() + 1;
            if i < key.len() {
                assert(key[i] == '=');
            } else if i >= n && i < n + c.len() {
                assert(white_space(c[i - n]));
            } else if i >= n + c.len() && i < n + c.len() + value.len() {
                assert(value[i - n - c.len()] == '=');
            } else if i >= n + c.len() + value.len() {
                assert(white_space(d[i - n - c.len() - value.len()]));
            }
        }
        lemma_uncut(spaced, '=');
    }
    lemma_uncut(key, '=');
    lemma_uncut(key, ' ');
}

proof fn lemma_uncut(s: Seq<char>, c: char)
    requires
        !s.contains(c),
    ensures
        cut(s, c) is None,
{
    crate::laws::text::lemma_cut(s, c);
    match cut(s, c) {
        Some((before, after)) => {
            assert(s[before.len() as int] == c);
        },
        None => {},
    }
}

/// An option of the terminal request counts before the destination only,
/// written onto `-o` or behind it, and its value counts only there too.
pub proof fn lemma_written_request(
    before: Seq<Seq<char>>,
    option: Seq<char>,
    after: Seq<Seq<char>>,
    destination: int,
)
    requires
        sets_tty_request(option),
        before.len() < destination,
    ensures
        writes_tty_request(before + seq![seq!['-', 'o'] + option] + after, destination),
        before.len() + 1 < destination ==> writes_tty_request(
            before + seq!["-o"@, option] + after,
            destination,
        ),
{
    reveal_strlit("-o");
    assert("-o"@ =~= seq!['-', 'o']);
    let word = seq!['-', 'o'] + option;
    let attached = before + seq![word] + after;
    let n = before.len() as int;
    assert(attached[n] == word);
    assert("-o"@ =~= word.subrange(0, 2));
    assert(word.skip(2) =~= option);
    if option.len() == 0 {
        lemma_uncut(option, '=');
        lemma_uncut(option, ' ');
    }
    assert(word.len() > 2);
    assert(crate::ssh::tty_option_at(attached, destination, n));
    let apart = before + seq!["-o"@, option] + after;
    assert(apart[n] == "-o"@);
    assert(apart[n + 1] == option);
    if n + 1 < destination {
        assert(crate::ssh::tty_option_at(apart, destination, n));
    }
}

/// A session carries a relay where it has a terminal, is a login session
/// without a configured command and does not insist on its forwards. Each of
/// the three settings counts in any case, and an absent one is no obstacle.
pub proof fn lemma_what_carries_a_relay(
    settings: &[(String, String)],
    arguments: &[String],
    destination: usize,
    stdin_tty: bool,
    result: bool,
    tty: bool,
)
    requires
        destination <= arguments@.len(),
        call_ensures(carries_relay, (settings, arguments, destination, stdin_tty), result),
        call_ensures(resolved_tty, (settings, arguments, destination, stdin_tty), tty),
    ensures
        ({
            let kind = setting(setting_texts(settings@), "sessiontype"@);
            let command = setting(setting_texts(settings@), "remotecommand"@);
            let strict = setting(setting_texts(settings@), "exitonforwardfailure"@);
            &&& result ==> tty
            &&& kind is Some && lowered(kind->0) != "default"@ ==> !result
            &&& command is Some && lowered(command->0) != "none"@ ==> !result
            &&& strict is Some && lowered(strict->0) == "yes"@ ==> !result
            &&& (kind is None || lowered(kind->0) == "default"@) && (command is None || lowered(
                command->0,
            ) == "none"@) && (strict is None || lowered(strict->0) != "yes"@) ==> result == tty
        }),
{
}

/// The enhanced command line keeps every argument in its order. The relay's
/// options stand together right before the destination, or before the two
/// hyphens in front of it, and set just these: the forward from the remote to
/// the local socket, the removal of a stale remote socket, and the variable
/// that announces the relay.
pub proof fn lemma_relay_options_set(
    arguments: Seq<Seq<char>>,
    destination: int,
    local_socket: Seq<char>,
    remote_socket: Seq<char>,
)
    requires
        0 <= destination < arguments.len(),
    ensures
        ({
            let enhanced = with_relay(arguments, destination, local_socket, remote_socket);
            let end = if destination > 0 && arguments[destination - 1] == "--"@ {
                destination - 1
            } else {
                destination
            };
            &&& enhanced.len() == arguments.len() + 6
            &&& enhanced.take(end) + enhanced.skip(end + 6) == arguments
            &&& sets_option(enhanced.subrange(end, end + 6), "StreamLocalBindUnlink=yes"@)
            &&& sets_option(
                enhanced.subrange(end, end + 6),
                "RemoteForward="@ + remote_socket + ":"@ + local_socket,
            )
            &&& sets_option(enhanced.subrange(end, end + 6), "SendEnv=TERMNAV_PARENT_RELAY"@)
        }),
{
    let enhanced = with_relay(arguments, destination, local_socket, remote_socket);
    let end = options_end(arguments, destination);
    let options = relay_options(local_socket, remote_socket);
    assert(enhanced.take(end) + enhanced.skip(end + 6) =~= arguments);
    assert(enhanced.subrange(end, end + 6) =~= options);
    assert(options[0] == "-o"@ && options[1] == "StreamLocalBindUnlink=yes"@);
    assert(options[2] == "-o"@ && options[3] == "RemoteForward="@ + remote_socket + ":"@
        + local_socket);
    assert(options[4] == "-o"@ && options[5] == "SendEnv=TERMNAV_PARENT_RELAY"@);
}

/// A cancellation asks the shared connection to drop just the forward that the
/// relay made, of the same two sockets, for the same destination.
pub proof fn lemma_cancel_names_the_forward(
    control_path: Seq<char>,
    destination: Seq<char>,
    remote_socket: Seq<char>,
    local_socket: Seq<char>,
)
    ensures
        ({
            let arguments = cancel_arguments(
                control_path,
                destination,
                remote_socket,
                local_socket,
            );
            let n = arguments.len();
            &&& n > 4
            &&& sets_option(arguments, "ClearAllForwardings=yes"@)
            &&& sets_option(
                relay_options(local_socket, remote_socket),
                "RemoteForward="@ + arguments[n - 2],
            )
            &&& arguments.subrange(n - 5, n - 2) == seq!["-O"@, "cancel"@, "-R"@]
            &&& arguments.last() == destination
        }),
{
    let arguments = cancel_arguments(control_path, destination, remote_socket, local_socket);
    let options = relay_options(local_socket, remote_socket);
    assert(arguments[10] == "-o"@ && arguments[11] == "ClearAllForwardings=yes"@);
    assert(arguments.subrange(14, 17) =~= seq!["-O"@, "cancel"@, "-R"@]);
    assert("RemoteForward="@ + (remote_socket + ":"@ + local_socket) =~= "RemoteForward="@
        + remote_socket + ":"@ + local_socket);
    assert(options[2] == "-o"@ && options[3] == "RemoteForward="@ + arguments[17]);
}

/// Only a named shared connection is asked to cancel: the path that is
/// configured, unless it is `none`.
pub proof fn lemma_cancelled_path(settings: &[(String, String)], path: Option<&str>)
    requires
        call_ensures(cancelled_path, (settings,), path),
    ensures
        opt_str(path) == (match setting(setting_texts(settings@), "controlpath"@) {
            Some(path) => if path == "none"@ {
                None
            } else {
                Some(path)
            },
            None => None,
        }),
{
}

/// The two sockets of a connection are named after its token.
pub proof fn lemma_socket_names(token: &str, name: String, path: String)
    requires
        call_ensures(relay_socket_name, (token,), name),
        call_ensures(remote_socket, (token,), path),
    ensures
        name@ == "relay-"@ + token@ + ".sock"@,
        path@ == "/tmp/termnav-relay-"@ + token@ + ".sock"@,
{
}

/// A configured client is taken as it is. Else the client is a file that can
/// be executed, in another directory than the shim that was started and than
/// any directory of shims, that holds neither mark of a shim; and it is the
/// first such one.
pub proof fn lemma_client_is_no_shim(
    configured: Option<&str>,
    candidates: &[Candidate],
    binary: Option<String>,
)
    requires
        call_ensures(real_ssh, (configured, candidates), binary),
    ensures
        configured is Some && configured->0@.len() > 0 ==> binary is Some && binary->0@
            == configured->0@,
        configured is None || configured->0@.len() == 0 ==> (binary is Some <==> exists|i: int|
            0 <= i < candidates@.len() && #[trigger] is_program(candidates@[i])),
        (configured is None || configured->0@.len() == 0) && binary is Some ==> exists|i: int|
            0 <= i < candidates@.len() && #[trigger] is_program(candidates@[i])
                && candidates@[i].path@ == binary->0@ && forall|j: int|
                0 <= j < i ==> !#[trigger] is_program(candidates@[j]),
{
    assert forall|i: int| 0 <= i < candidates@.len() implies (#[trigger] is_program(
        candidates@[i],
    ) <==> crate::ssh::is_client(candidates@[i])) by {}
    match opt_str(configured) {
        Some(path) if path.len() > 0 => {},
        _ => {
            if binary is Some {
                let i = choose|i: int|
                    0 <= i < candidates@.len() && crate::ssh::is_client(
                        #[trigger] candidates@[i],
                    ) && candidates@[i].path@ == binary->0@ && forall|j: int|
                        0 <= j < i ==> !crate::ssh::is_client(#[trigger] candidates@[j]);
                assert(is_program(candidates@[i]));
                assert forall|j: int| 0 <= j < i implies !#[trigger] is_program(
                    candidates@[j],
                ) by {}
            }
        },
    }
}

/// A file that can be run and is no shim.
pub open spec fn is_program(candidate: Candidate) -> bool {
    &&& candidate.executable && !candidate.invoking
    &&& !ends_in(candidate.canonical@, "share/termnav/shims"@)
    &&& !holds(candidate.prefix@, "# termnav-ssh-shim-v1"@)
    &&& !holds(candidate.prefix@, "# Keep SSH interposition inherited by child processes"@)
}

/// A child that has exited is done. One that outlived a forwarded signal too
/// long is killed, the signal is forwarded once, and a child is never killed
/// or signalled unless the supervisor was asked to stop.
pub proof fn lemma_supervision(
    exited: bool,
    forwarded: bool,
    expired: bool,
    stopping: bool,
    next: Supervision,
)
    requires
        call_ensures(supervise, (exited, forwarded, expired, stopping), next),
    ensures
        next is Finished <==> exited,
        next is Kill <==> !exited && forwarded && expired,
        next is Forward <==> !exited && !forwarded && stopping,
        next is Poll <==> !exited && (forwarded && !expired || !forwarded && !stopping),
{
}

} // verus!
