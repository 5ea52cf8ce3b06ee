//! Editor targets: a file with a cursor position.

use vstd::prelude::*;
use vstd::string::*;

use crate::text::{
    last_char, lemma_last_char, opt_str, parse_number, parsed, rfind_char, same, strip_prefix,
};

verus! {

/// User-facing invocation mode.
#[derive(Clone, Copy, Debug, PartialEq, Eq, Structural)]
pub enum Mode {
    /// Preserve command-line filename semantics exactly.
    Cli,
    /// Return a routing failure to the caller.
    Link,
    /// Translate routing failure into a concise tmux-visible message.
    TmuxLink,
}

/// Parsed editor target and cursor coordinates.
#[derive(Debug, PartialEq, Eq)]
pub struct Target {
    /// Path passed to Neovim.
    pub file: String,
    /// One-based line number.
    pub line: u64,
    /// One-based column, or zero when unspecified.
    pub column: u64,
}

/// What a [`Target`] denotes.
#[verifier::ext_equal]
pub struct Place {
    pub file: Seq<char>,
    pub line: u64,
    pub column: u64,
}

impl View for Target {
    type V = Place;

    open spec fn view(&self) -> Place {
        Place { file: self.file@, line: self.line, column: self.column }
    }
}

impl Clone for Target {
    fn clone(&self) -> (copy: Self)
        ensures
            copy@ == self@,
    {
        Target { file: self.file.clone(), line: self.line, column: self.column }
    }
}

/// The number that a text spells.
pub open spec fn number(s: Seq<char>) -> Option<nat> {
    parsed(s, u64::MAX as nat)
}

/// The file, line and column of a link. The last two pieces between colons are
/// the line and the column where both are numbers. Else the last one alone is
/// the line where it is a number. What is before them is the file.
pub open spec fn location(s: Seq<char>) -> Place {
    let colon = last_char(s, ':');
    let last = s.skip(colon + 1);
    let head = s.take(colon);
    let other = last_char(head, ':');
    let middle = head.skip(other + 1);
    if colon >= 0 && other >= 0 && number(middle) is Some && number(last) is Some {
        Place {
            file: head.take(other),
            line: number(middle)->0 as u64,
            column: number(last)->0 as u64,
        }
    } else if colon >= 0 && number(last) is Some {
        Place { file: head, line: number(last)->0 as u64, column: 0 }
    } else {
        Place { file: s, line: 1, column: 0 }
    }
}

fn split_location<'a>(input: &'a str) -> (result: (&'a str, u64, u64))
    ensures
        (Place { file: result.0@, line: result.1, column: result.2 }) == location(input@),
{
    let colon: usize = match rfind_char(input, ':') {
        Some(i) => i,
        None => {
            return (input, 1, 0);
        },
    };
    let length: usize = input.unicode_len();
    let head = input.substring_char(0, colon);
    let last = input.substring_char(colon + 1, length);
    assert(head@ =~= input@.take(colon as int));
    assert(last@ =~= input@.skip(colon + 1));
    let ghost other = last_char(head@, ':');
    match (rfind_char(head, ':'), parse_number(last, u64::MAX)) {
        (Some(i), Some(value)) => {
            let middle = head.substring_char(i + 1, colon);
            assert(middle@ =~= head@.skip(other + 1));
            match parse_number(middle, u64::MAX) {
                Some(line) => {
                    let file = head.substring_char(0, i);
                    assert(file@ =~= head@.take(other));
                    (file, line, value)
                },
                None => (head, value, 0),
            }
        },
        (None, Some(value)) => (head, value, 0),
        (_, None) => (input, 1, 0),
    }
}

/// Only a suffix of a link is read as its position: the file is all that comes
/// before, whatever colons it holds.
pub proof fn lemma_location_keeps_the_file(s: Seq<char>)
    ensures
        location(s).file.is_prefix_of(s),
        location(s).file == s || s[location(s).file.len() as int] == ':',
{
    lemma_last_char(s, ':');
    lemma_last_char(s.take(last_char(s, ':')), ':');
}

/// A path without the prefix that marks one side of a diff.
pub open spec fn undiffed(file: Seq<char>) -> Seq<char> {
    if "a/"@.is_prefix_of(file) {
        file.skip("a/"@.len() as int)
    } else if "b/"@.is_prefix_of(file) {
        file.skip("b/"@.len() as int)
    } else {
        file
    }
}

/// A path with a leading reference to the home directory expanded.
pub open spec fn expanded(file: Seq<char>, home: Option<Seq<char>>) -> Seq<char> {
    match home {
        Some(home) => if "~/"@.is_prefix_of(file) {
            home + "/"@ + file.skip("~/"@.len() as int)
        } else if "$HOME/"@.is_prefix_of(file) {
            home + "/"@ + file.skip("$HOME/"@.len() as int)
        } else if "${HOME}/"@.is_prefix_of(file) {
            home + "/"@ + file.skip("${HOME}/"@.len() as int)
        } else if file == "$HOME"@ || file == "${HOME}"@ {
            home
        } else {
            file
        },
        None => file,
    }
}

fn below_home(home: &str, relative: &str) -> (path: String)
    ensures
        path@ == home@ + "/"@ + relative@,
{
    let mut path = String::from_str(home);
    path.append("/");
    path.append(relative);
    path
}

/// Expand a leading reference to the home directory.
pub fn expand_home(file: &str, home: Option<&str>) -> (path: String)
    ensures
        path@ == expanded(file@, opt_str(home)),
{
    let home = match home {
        Some(home) => home,
        None => {
            return String::from_str(file);
        },
    };
    if let Some(relative) = strip_prefix(file, "~/") {
        return below_home(home, relative);
    }
    if let Some(relative) = strip_prefix(file, "$HOME/") {
        return below_home(home, relative);
    }
    if let Some(relative) = strip_prefix(file, "${HOME}/") {
        return below_home(home, relative);
    }
    if same(file, "$HOME") || same(file, "${HOME}") {
        return String::from_str(home);
    }
    String::from_str(file)
}

/// What a link denotes.
pub open spec fn linked(input: Seq<char>, home: Option<Seq<char>>) -> Place {
    Place { file: expanded(undiffed(location(input).file), home), ..location(input) }
}

impl Target {
    /// A file named on the command line, whatever its name looks like.
    pub fn cli(file: &str) -> (target: Self)
        ensures
            target@ == (Place { file: file@, line: 1, column: 0 }),
    {
        Target { file: String::from_str(file), line: 1, column: 0 }
    }

    /// Parse terminal link suffixes and expand only stable home spellings.
    #[must_use]
    pub fn link(input: &str, home: Option<&str>) -> (target: Self)
        ensures
            target@ == linked(input@, opt_str(home)),
    {
        let (file, line, column) = split_location(input);
        let file = match strip_prefix(file, "a/") {
            Some(rest) => rest,
            None => match strip_prefix(file, "b/") {
                Some(rest) => rest,
                None => file,
            },
        };
        Target { file: expand_home(file, home), line, column }
    }
}

} // verus!
