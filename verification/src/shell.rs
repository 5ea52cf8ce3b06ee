//! POSIX shell command encoding at explicit subprocess boundaries.

use vstd::prelude::*;
use vstd::string::*;

use crate::text::{
    first_where, halved, joined, just, lemma_first_where, lemma_first_where_props,
    lemma_halved_doubled, lemma_replaced_absent, lemma_replaced_concat, replace_char, replaced,
    strings,
};

verus! {

/// An argument in single quotes, with each apostrophe written as a closing
/// quote, an escaped apostrophe and an opening quote.
pub open spec fn quoted(value: Seq<char>) -> Seq<char> {
    "'"@ + replaced(value, '\'', "'\\''"@) + "'"@
}

/// Quote one argument so a POSIX shell receives its bytes as one word.
#[must_use]
pub fn quote(value: &str) -> (result: String)
    ensures
        result@ == quoted(value@),
{
    let mut result = String::from_str("'");
    result.append(replace_char(value, '\'', "'\\''").as_str());
    result.append("'");
    result
}

/// The arguments, each quoted, with a space between neighbours.
pub open spec fn command_line(arguments: Seq<Seq<char>>) -> Seq<char> {
    joined(Seq::new(arguments.len(), |i: int| quoted(arguments[i])), " "@)
}

/// Join an argument vector for APIs, such as tmux, that accept shell text.
#[must_use]
pub fn join(arguments: &[String]) -> (result: String)
    ensures
        result@ == command_line(strings(arguments@)),
{
    let mut parts: Vec<String> = Vec::new();
    let mut i: usize = 0;
    while i < arguments.len()
        invariant
            i <= arguments.len(),
            parts@.len() == i,
            forall|j: int| 0 <= j < i ==> (#[trigger] parts@[j])@ == quoted(arguments@[j]@),
        decreases arguments.len() - i,
    {
        parts.push(quote(arguments[i].as_str()));
        i = i + 1;
    }
    assert(strings(parts@) =~= Seq::new(
        strings(arguments@).len(),
        |i: int| quoted(strings(arguments@)[i]),
    ));
    crate::text::join(parts.as_slice(), " ")
}

/// The text with every tmux format marker doubled.
pub open spec fn format_escaped(value: Seq<char>) -> Seq<char> {
    replaced(value, '#', "##"@)
}

/// Preserve literal text across tmux's format-expansion layer.
///
/// Commands such as `run-shell` expand tmux formats before invoking the user's
/// shell, even when a `#` appears inside shell quotes. Doubling the marker is
/// tmux's literal encoding and prevents paths from becoming format or command
/// substitutions before ordinary shell quoting gets a chance to protect them.
#[must_use]
pub fn escape_tmux_format(value: &str) -> (result: String)
    ensures
        result@ == format_escaped(value@),
{
    replace_char(value, '#', "##")
}

/// What a POSIX shell reads as the first word of a line made of single-quoted
/// parts and escaped characters: the word's value, and what follows it from
/// the separating space on. Nothing where a quote is not closed or a character
/// is neither quoted nor escaped.
pub open spec fn next_word(line: Seq<char>) -> Option<(Seq<char>, Seq<char>)>
    decreases line.len(),
{
    if line.len() == 0 || line[0] == ' ' {
        Some((Seq::empty(), line))
    } else if line[0] == '\'' {
        let body = line.skip(1);
        let close = first_where(body, just('\''));
        if 0 <= close < body.len() {
            match next_word(body.skip(close + 1)) {
                Some((value, rest)) => Some((body.take(close) + value, rest)),
                None => None,
            }
        } else {
            None
        }
    } else if line[0] == '\\' && line.len() > 1 {
        match next_word(line.skip(2)) {
            Some((value, rest)) => Some((seq![line[1]] + value, rest)),
            None => None,
        }
    } else {
        None
    }
}

/// The words that a POSIX shell reads from a line whose words are separated
/// by single spaces.
pub open spec fn line_words(line: Seq<char>) -> Option<Seq<Seq<char>>>
    decreases line.len(),
{
    match next_word(line) {
        None => None,
        Some((value, rest)) => {
            if rest.len() == 0 {
                Some(seq![value])
            } else if rest.len() <= line.len() {
                match line_words(rest.skip(1)) {
                    Some(others) => Some(seq![value] + others),
                    None => None,
                }
            } else {
                None
            }
        },
    }
}

/// A single-quoted part contributes its text to the word.
proof fn lemma_quoted_part(part: Seq<char>, tail: Seq<char>)
    requires
        forall|i: int| 0 <= i < part.len() ==> #[trigger] part[i] != '\'',
    ensures
        next_word(seq!['\''] + part + seq!['\''] + tail) == (match next_word(tail) {
            Some((value, rest)) => Some((part + value, rest)),
            None => None,
        }),
{
    let line = seq!['\''] + part + seq!['\''] + tail;
    let body = line.skip(1);
    assert(body =~= part + seq!['\''] + tail);
    assert forall|j: int| 0 <= j < part.len() implies !just('\'')(#[trigger] body[j]) by {
        assert(body[j] == part[j]);
    }
    lemma_first_where(body, just('\''), part.len() as int);
    assert(body.take(part.len() as int) =~= part);
    assert(body.skip(part.len() as int + 1) =~= tail);
}

/// An escaped character contributes itself to the word.
proof fn lemma_escaped_part(c: char, tail: Seq<char>)
    ensures
        next_word(seq!['\\', c] + tail) == (match next_word(tail) {
            Some((value, rest)) => Some((seq![c] + value, rest)),
            None => None,
        }),
{
    let line = seq!['\\', c] + tail;
    assert(line.skip(2) =~= tail);
}

/// A quoted argument is read back as exactly that argument, whatever it holds.
pub proof fn lemma_quote_round_trip(value: Seq<char>, rest: Seq<char>)
    requires
        rest.len() == 0 || rest[0] == ' ',
    ensures
        next_word(quoted(value) + rest) == Some((value, rest)),
    decreases value.len(),
{
    reveal_strlit("'");
    reveal_strlit("'\\''");
    let escape = "'\\''"@;
    let n = first_where(value, just('\''));
    lemma_first_where_props(value, just('\''));
    let head = value.take(n);
    assert forall|i: int| 0 <= i < head.len() implies #[trigger] head[i] != '\'' by {
        assert(!just('\'')(value[i]));
    }
    lemma_replaced_absent(head, '\'', escape);
    if n == value.len() {
        assert(head =~= value);
        lemma_quoted_part(value, rest);
        assert(quoted(value) + rest =~= seq!['\''] + value + seq!['\''] + rest);
        assert(value + Seq::<char>::empty() =~= value);
    } else {
        let tail = value.skip(n + 1);
        let mark = seq!['\''];
        assert(value =~= head + (mark + tail));
        lemma_replaced_concat(head, mark + tail, '\'', escape);
        lemma_replaced_concat(mark, tail, '\'', escape);
        assert(replaced(mark, '\'', escape) =~= escape) by {
            assert(mark.drop_last() =~= Seq::empty());
            assert(replaced(Seq::<char>::empty(), '\'', escape) =~= Seq::empty());
        }
        let inner = quoted(tail) + rest;
        lemma_quote_round_trip(tail, rest);
        lemma_escaped_part('\'', inner);
        lemma_quoted_part(head, seq!['\\', '\''] + inner);
        assert(quoted(value) + rest =~= seq!['\''] + head + seq!['\''] + (seq!['\\', '\'']
            + inner));
        assert(head + (seq!['\''] + tail) =~= value);
    }
}

/// A joined command line is read back as exactly the arguments.
pub proof fn lemma_join_round_trip(arguments: Seq<Seq<char>>)
    requires
        arguments.len() > 0,
    ensures
        line_words(command_line(arguments)) == Some(arguments),
    decreases arguments.len(),
{
    reveal_strlit(" ");
    let parts = Seq::new(arguments.len(), |i: int| quoted(arguments[i]));
    if arguments.len() == 1 {
        lemma_quote_round_trip(arguments[0], Seq::empty());
        assert(quoted(arguments[0]) + Seq::<char>::empty() =~= quoted(arguments[0]));
        assert(seq![arguments[0]] =~= arguments);
    } else {
        let others = arguments.skip(1);
        let other_parts = Seq::new(others.len(), |i: int| quoted(others[i]));
        lemma_join_round_trip(others);
        assert(other_parts =~= parts.skip(1));
        lemma_joined_front(parts, " "@);
        let rest = " "@ + command_line(others);
        lemma_quote_round_trip(arguments[0], rest);
        assert(command_line(arguments) =~= quoted(arguments[0]) + rest);
        assert(rest.skip(1) =~= command_line(others));
        assert(seq![arguments[0]] + others =~= arguments);
    }
}

/// Joining puts the first part before the separator and the joined others.
proof fn lemma_joined_front(parts: Seq<Seq<char>>, separator: Seq<char>)
    requires
        parts.len() > 1,
    ensures
        joined(parts, separator) == parts[0] + separator + joined(parts.skip(1), separator),
    decreases parts.len(),
{
    reveal_with_fuel(joined, 2);
    if parts.len() == 2 {
        assert(parts.drop_last().len() == 1);
        assert(parts.skip(1).len() == 1);
        assert(parts.skip(1)[0] == parts.last());
    } else {
        lemma_joined_front(parts.drop_last(), separator);
        assert(parts.drop_last().skip(1) =~= parts.skip(1).drop_last());
        assert(joined(parts, separator) =~= parts[0] + separator + joined(
            parts.skip(1),
            separator,
        ));
    }
}

/// tmux reads escaped text back as exactly the literal text.
pub proof fn lemma_format_escape_round_trip(value: Seq<char>)
    ensures
        halved(format_escaped(value), '#') == value,
{
    reveal_strlit("##");
    assert("##"@ =~= seq!['#', '#']);
    lemma_halved_doubled(value, '#');
}

/// No marker of escaped text stands alone: it can only be read as a literal.
pub proof fn lemma_format_escape_even(value: Seq<char>)
    ensures
        count_char(format_escaped(value), '#') == 2 * count_char(value, '#'),
    decreases value.len(),
{
    reveal_strlit("##");
    reveal_with_fuel(count_char, 3);
    if value.len() > 0 {
        lemma_format_escape_even(value.drop_last());
        let before = format_escaped(value.drop_last());
        if value.last() == '#' {
            assert(format_escaped(value) =~= before.push('#').push('#'));
            assert(before.push('#').push('#').drop_last() =~= before.push('#'));
            assert(before.push('#').drop_last() =~= before);
        } else {
            assert(format_escaped(value) =~= before.push(value.last()));
            assert(before.push(value.last()).drop_last() =~= before);
        }
    }
}

/// How often a character occurs.
pub open spec fn count_char(s: Seq<char>, c: char) -> nat
    decreases s.len(),
{
    if s.len() == 0 {
        0
    } else {
        count_char(s.drop_last(), c) + if s.last() == c {
            1
        } else {
            0nat
        }
    }
}

} // verus!
