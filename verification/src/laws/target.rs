//! How an editor target is written into a link and read back from it.

use vstd::prelude::*;
use vstd::string::*;

use crate::laws::text::{
    lemma_decimal_plain, lemma_last_place, lemma_last_place_at, lemma_number_bound,
};
use crate::nvim::target::{expand_home, expanded, location, number, undiffed, Place, Target};
use crate::text::{decimal, last_char, opt_str, parsed};

verus! {

proof fn lemma_no_colon(n: nat)
    ensures
        !decimal(n).contains(':'),
{
    lemma_decimal_plain(n);
    if decimal(n).contains(':') {
        let i = choose|i: int| 0 <= i < decimal(n).len() && decimal(n)[i] == ':';
        assert('0' <= decimal(n)[i] <= '9');
    }
}

/// A link of a file, a line and a column is read as just these, whatever the
/// file is called and however large the numbers are.
pub proof fn lemma_line_and_column_are_read_back(file: Seq<char>, line: u64, column: u64)
    ensures
        location(file + ":"@ + decimal(line as nat) + ":"@ + decimal(column as nat)) == (Place {
            file,
            line,
            column,
        }),
{
    reveal_strlit(":");
    assert(":"@ =~= seq![':']);
    let row = decimal(line as nat);
    let cell = decimal(column as nat);
    let head = file + seq![':'] + row;
    let s = head + seq![':'] + cell;
    assert(file + ":"@ + row + ":"@ + cell =~= s);
    lemma_no_colon(line as nat);
    lemma_no_colon(column as nat);
    lemma_last_place_at(head, ':', cell);
    lemma_last_place_at(file, ':', row);
    assert(s.take(head.len() as int) =~= head);
    assert(s.skip(head.len() as int + 1) =~= cell);
    assert(head.take(file.len() as int) =~= file);
    assert(head.skip(file.len() as int + 1) =~= row);
    lemma_number_bound(line as nat, u64::MAX as nat);
    lemma_number_bound(column as nat, u64::MAX as nat);
}

/// A link of a file and a line is read as just these, with no column, where the
/// file does not itself end in a colon and a number.
pub proof fn lemma_line_is_read_back(file: Seq<char>, line: u64)
    requires
        forall|head: Seq<char>, tail: Seq<char>|
            file == #[trigger] (head + seq![':'] + tail) ==> parsed(tail, u64::MAX as nat) is None,
    ensures
        location(file + ":"@ + decimal(line as nat)) == (Place { file, line, column: 0 }),
{
    reveal_strlit(":");
    assert(":"@ =~= seq![':']);
    let row = decimal(line as nat);
    let s = file + seq![':'] + row;
    assert(file + ":"@ + row =~= s);
    lemma_no_colon(line as nat);
    lemma_last_place_at(file, ':', row);
    assert(s.take(file.len() as int) =~= file);
    assert(s.skip(file.len() as int + 1) =~= row);
    lemma_number_bound(line as nat, u64::MAX as nat);
    let other = last_char(file, ':');
    lemma_last_place(file, ':');
    if other >= 0 {
        assert(file =~= file.take(other) + seq![':'] + file.skip(other + 1));
        assert(number(file.skip(other + 1)) is None);
    }
}

/// A text that does not end in a colon and a number is a file, at its first
/// line.
pub proof fn lemma_plain_file_is_read_back(file: Seq<char>)
    requires
        forall|head: Seq<char>, tail: Seq<char>|
            file == #[trigger] (head + seq![':'] + tail) ==> parsed(tail, u64::MAX as nat) is None,
    ensures
        location(file) == (Place { file, line: 1, column: 0 }),
{
    let colon = last_char(file, ':');
    lemma_last_place(file, ':');
    if colon >= 0 {
        assert(file =~= file.take(colon) + seq![':'] + file.skip(colon + 1));
        assert(number(file.skip(colon + 1)) is None);
    }
}

/// The marks of the two sides of a diff are dropped, once; nothing else is.
pub proof fn lemma_diff_marks(rest: Seq<char>)
    ensures
        undiffed("a/"@ + rest) == rest,
        undiffed("b/"@ + rest) == rest,
        rest.len() < 2 || rest[1] != '/' || rest[0] != 'a' && rest[0] != 'b' ==> undiffed(rest)
            == rest,
{
    reveal_strlit("a/");
    reveal_strlit("b/");
    let a = "a/"@ + rest;
    let b = "b/"@ + rest;
    assert("a/"@ =~= a.subrange(0, 2));
    assert("b/"@ =~= b.subrange(0, 2));
    assert(a.skip(2) =~= rest);
    assert(b.skip(2) =~= rest);
    assert("a/"@[0] == 'a' && "b/"@[0] == 'b' && "a/"@[1] == '/' && "b/"@[1] == '/');
    assert(b[0] == 'b');
}

/// The home directory is named by a tilde before a slash, and by its variable
/// with or without braces, alone or before a slash. Without a home, and for any
/// other text, the path stays as it is.
pub proof fn lemma_home_names(home: Seq<char>, rest: Seq<char>)
    ensures
        expanded("~/"@ + rest, Some(home)) == home + "/"@ + rest,
        expanded("$HOME/"@ + rest, Some(home)) == home + "/"@ + rest,
        expanded("${HOME}/"@ + rest, Some(home)) == home + "/"@ + rest,
        expanded("$HOME"@, Some(home)) == home,
        expanded("${HOME}"@, Some(home)) == home,
        expanded(rest, None) == rest,
        rest.len() == 0 || rest[0] != '~' && rest[0] != '$' ==> expanded(rest, Some(home)) == rest,
        rest == "~"@ ==> expanded(rest, Some(home)) == rest,
{
    reveal_strlit("~/");
    reveal_strlit("~");
    reveal_strlit("$HOME/");
    reveal_strlit("${HOME}/");
    reveal_strlit("$HOME");
    reveal_strlit("${HOME}");
    let a = "~/"@ + rest;
    let b = "$HOME/"@ + rest;
    let c = "${HOME}/"@ + rest;
    assert("~/"@ =~= a.subrange(0, 2));
    assert("$HOME/"@ =~= b.subrange(0, 6));
    assert("${HOME}/"@ =~= c.subrange(0, 8));
    assert(a.skip(2) =~= rest);
    assert(b.skip(6) =~= rest);
    assert(c.skip(8) =~= rest);
    assert("~/"@[0] == '~' && "~/"@.len() == 2);
    assert("$HOME/"@[0] == '$' && "$HOME/"@[1] == 'H' && "$HOME/"@.len() == 6);
    assert("${HOME}/"@[0] == '$' && "${HOME}/"@[1] == '{' && "${HOME}/"@.len() == 8);
    assert("$HOME"@[0] == '$' && "$HOME"@.len() == 5 && "$HOME"@[1] == 'H');
    assert("${HOME}"@[0] == '$' && "${HOME}"@.len() == 7 && "${HOME}"@[1] == '{');
    assert("~"@[0] == '~' && "~"@.len() == 1);
    assert(b[0] == '$' && c[0] == '$' && c[1] == '{' && b[1] == 'H');
}

/// A link to a place opens at that place, with the mark of a diff dropped and
/// the home directory spelled out, in that order.
pub proof fn lemma_link_opens_the_place(
    file: Seq<char>,
    line: u64,
    column: u64,
    input: &str,
    home: Option<&str>,
    target: Target,
    path: String,
    plain: &str,
)
    requires
        input@ == file + ":"@ + decimal(line as nat) + ":"@ + decimal(column as nat),
        call_ensures(Target::link, (input, home), target),
        plain@ == undiffed(file),
        call_ensures(expand_home, (plain, home), path),
    ensures
        target.line == line,
        target.column == column,
        target.file@ == path@,
{
    lemma_line_and_column_are_read_back(file, line, column);
    assert(target@.line == line);
}

/// A link without a column opens at its line, and one without a line at the
/// first.
pub proof fn lemma_link_opens_the_line(
    file: Seq<char>,
    line: u64,
    input: &str,
    home: Option<&str>,
    target: Target,
)
    requires
        forall|head: Seq<char>, tail: Seq<char>|
            file == #[trigger] (head + seq![':'] + tail) ==> parsed(tail, u64::MAX as nat) is None,
        call_ensures(Target::link, (input, home), target),
    ensures
        input@ == file + ":"@ + decimal(line as nat) ==> target.line == line && target.column == 0,
        input@ == file ==> target.line == 1 && target.column == 0,
        input@ == file || input@ == file + ":"@ + decimal(line as nat) ==> target.file@ == expanded(
            undiffed(file),
            opt_str(home),
        ),
{
    lemma_line_is_read_back(file, line);
    lemma_plain_file_is_read_back(file);
    assert(target@.line == target.line && target@.column == target.column);
}

/// A file of the command line is opened under the name that was given, at its
/// first line, even where it looks like a link.
pub proof fn lemma_command_line_file(file: &str, target: Target)
    requires
        call_ensures(Target::cli, (file,), target),
    ensures
        target.file@ == file@ && target.line == 1 && target.column == 0,
{
    assert(target@.line == 1);
}

} // verus!
