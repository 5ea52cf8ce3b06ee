//! What is done with a recognised click, and what the installed detectors say.

use vstd::prelude::*;
use vstd::string::*;
use vstd::utf8::{decode_utf8, encode_utf8, valid_utf8};

use crate::bytes::{find_byte, lemma_next_byte, next_byte};
use crate::click::{destination, local_file, terminal_file, Destination, Input, Target};
use crate::navigation::system::TmuxOutput;
use crate::paths::{absolute, below, is_absolute, join};
use crate::terminal::{framed, user_var, TmuxMode};
use crate::text::{
    from_utf8, from_utf8_lossy, lines, lines_of, opt_str, opt_text, owned, same, strings,
    utf8_lossy,
};

verus! {

/// What is done with a click.
#[derive(Debug, PartialEq, Eq)]
pub enum Dispatch {
    /// Nothing: the text was not recognised.
    Nothing,
    /// These bytes go to the terminal that received the click.
    Terminal(Vec<u8>),
    /// An editor opens the link that these arguments describe.
    Editor(Vec<String>),
}

/// Whether a dispatch is the one for a destination. A context is handed on
/// only where there is one.
pub open spec fn dispatches(
    target: Option<Destination>,
    cwd: Seq<char>,
    dispatch: Dispatch,
) -> bool {
    match (target, dispatch) {
        (None, Dispatch::Nothing) => true,
        (Some(Destination::Url(url)), Dispatch::Terminal(bytes)) => bytes@ == encode_utf8(
            framed("TERMNAV_OPEN_URL"@, url, TmuxMode::Raw),
        ),
        (
            Some(Destination::File { target, source, context }),
            Dispatch::Editor(arguments),
        ) => strings(arguments@) == if context.len() > 0 {
            seq![target, cwd, source, context]
        } else {
            seq![target, cwd, source]
        },
        _ => false,
    }
}

/// Dispatch one resolved click. Unrecognized text is intentionally a no-op.
pub fn follow(input: &Input, target: Option<Target>) -> (dispatch: Dispatch)
    ensures
        dispatches(destination(target), input.cwd@, dispatch),
{
    match target {
        None => Dispatch::Nothing,
        Some(Target::Url(url)) => Dispatch::Terminal(
            user_var("TERMNAV_OPEN_URL", url.as_str(), TmuxMode::Raw),
        ),
        Some(Target::File { target, source, context }) => {
            if context.as_str().is_empty() {
                let arguments = owned(
                    &vec![target.as_str(), input.cwd.as_str(), source.as_str()],
                );
                assert(strings(arguments@) =~= seq![target@, input.cwd@, source@]);
                Dispatch::Editor(arguments)
            } else {
                let arguments = owned(
                    &vec![
                        target.as_str(),
                        input.cwd.as_str(),
                        source.as_str(),
                        context.as_str(),
                    ],
                );
                assert(strings(arguments@) =~= seq![target@, input.cwd@, source@, context@]);
                Dispatch::Editor(arguments)
            }
        },
    }
}

/// The arguments that capture a pane, as it is displayed or with wrapped lines
/// joined.
pub fn capture_arguments(pane: &str, joined: bool) -> (arguments: Vec<String>)
    ensures
        strings(arguments@) == if joined {
            seq!["capture-pane"@, "-p"@, "-J"@, "-S"@, "0"@, "-E"@, "-"@, "-t"@, pane@]
        } else {
            seq!["capture-pane"@, "-p"@, "-S"@, "0"@, "-E"@, "-"@, "-t"@, pane@]
        },
{
    if joined {
        let arguments = owned(
            &vec!["capture-pane", "-p", "-J", "-S", "0", "-E", "-", "-t", pane],
        );
        assert(strings(arguments@) =~= seq![
            "capture-pane"@,
            "-p"@,
            "-J"@,
            "-S"@,
            "0"@,
            "-E"@,
            "-"@,
            "-t"@,
            pane@,
        ]);
        arguments
    } else {
        let arguments = owned(&vec!["capture-pane", "-p", "-S", "0", "-E", "-", "-t", pane]);
        assert(strings(arguments@) =~= seq![
            "capture-pane"@,
            "-p"@,
            "-S"@,
            "0"@,
            "-E"@,
            "-"@,
            "-t"@,
            pane@,
        ]);
        arguments
    }
}

/// The rows of a capture that succeeded.
pub fn captured_rows(output: &Option<TmuxOutput>) -> (rows: Option<Vec<String>>)
    ensures
        match (*output, rows) {
            (Some(output), Some(rows)) => output.success && strings(rows@) == lines(
                utf8_lossy(output.stdout@),
            ),
            (Some(output), None) => !output.success,
            (None, rows) => rows is None,
        },
{
    match output {
        Some(output) => {
            if !output.success {
                return None;
            }
            let text = from_utf8_lossy(output.stdout.as_slice());
            let rows = lines_of(text.as_str());
            Some(owned(&rows))
        },
        None => None,
    }
}

/// What the bytes from index `from` up to the next zero byte spell.
pub open spec fn field_at(bytes: Seq<u8>, from: int) -> Option<Seq<char>> {
    let field = bytes.subrange(from, next_byte(bytes, 0, from));
    if valid_utf8(field) {
        Some(decode_utf8(field))
    } else {
        None
    }
}

/// The target that a detector printed: a kind and, after a zero byte, a value.
pub open spec fn detected(output: Option<TmuxOutput>) -> Option<Destination> {
    match output {
        Some(output) if output.success && next_byte(output.stdout@, 0, 0)
            < output.stdout@.len() => {
            let bytes = output.stdout@;
            match (field_at(bytes, 0), field_at(bytes, next_byte(bytes, 0, 0) + 1)) {
                (Some(kind), Some(value)) => if kind == "url"@ {
                    Some(Destination::Url(value))
                } else if kind == "file"@ {
                    Some(terminal_file(value))
                } else {
                    None
                },
                _ => None,
            }
        },
        _ => None,
    }
}

/// The target that a detector printed.
pub fn parse_detection(output: &Option<TmuxOutput>) -> (target: Option<Target>)
    ensures
        destination(target) == detected(*output),
{
    let output = match output {
        Some(output) => output,
        None => {
            return None;
        },
    };
    if !output.success {
        return None;
    }
    let bytes = output.stdout.as_slice();
    let end: usize = find_byte(bytes, 0, 0);
    if end >= bytes.len() {
        return None;
    }
    proof {
        lemma_next_byte(bytes@, 0, 0);
        lemma_next_byte(bytes@, 0, end + 1);
    }
    let stop: usize = find_byte(bytes, 0, end + 1);
    let kind = from_utf8(vstd::slice::slice_subrange(bytes, 0, end));
    let value = from_utf8(vstd::slice::slice_subrange(bytes, end + 1, stop));
    match (kind, value) {
        (Some(kind), Some(value)) => {
            if same(kind.as_str(), "url") {
                Some(Target::Url(value))
            } else if same(kind.as_str(), "file") {
                Some(local_file(value))
            } else {
                None
            }
        },
        _ => None,
    }
}

/// Where detectors are installed: the explicit directory, else below an
/// absolute configuration directory, else below the home.
pub open spec fn detector_root(
    explicit: Option<Seq<char>>,
    config_home: Option<Seq<char>>,
    home: Option<Seq<char>>,
) -> Option<Seq<char>> {
    match explicit {
        Some(path) => Some(path),
        None => match config_home {
            Some(base) if absolute(base) => Some(
                below(base, "termnav/tmux-follow/extensions.d"@),
            ),
            _ => match home {
                Some(home) => Some(
                    below(below(home, ".config"@), "termnav/tmux-follow/extensions.d"@),
                ),
                None => None,
            },
        },
    }
}

/// Where detectors are installed.
pub fn extension_directory(
    explicit: Option<&str>,
    config_home: Option<&str>,
    home: Option<&str>,
) -> (directory: Option<String>)
    ensures
        opt_text(directory) == detector_root(
            opt_str(explicit),
            opt_str(config_home),
            opt_str(home),
        ),
{
    if let Some(path) = explicit {
        return Some(String::from_str(path));
    }
    if let Some(base) = config_home {
        if is_absolute(base) {
            return Some(join(base, "termnav/tmux-follow/extensions.d"));
        }
    }
    match home {
        Some(home) => {
            let base = join(home, ".config");
            Some(join(base.as_str(), "termnav/tmux-follow/extensions.d"))
        },
        None => None,
    }
}

} // verus!
