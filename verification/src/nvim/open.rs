//! The routes that an editor target takes across sockets, tmux panes, and
//! remote sessions.
//!
//! Every fallback narrows scope: an exact socket first, then the current tmux
//! window, then (only for a link from another host) an existing shared SSH
//! connection or the configured transport of one exact pane. [`open`] names
//! the first route to try, and [`proceed`] the next one once a route has been
//! tried.

use vstd::prelude::*;
use vstd::string::*;

use crate::nvim::target::Place;
use crate::nvim::tool_path::{fallback_paths, fallbacks};
use crate::paths::{
    absolute, below, is_absolute, join, listed_path, lists_path, paths_equal, same_path,
};
use crate::shell::{escape_tmux_format, format_escaped, quote, quoted};
use crate::text::{
    any_of, cut, decimal, halved, lemma_halved_doubled, lemma_replaced_concat, lines, lines_of,
    owned, push_decimal, replace_char, replaced, same, split_once, strings, texts, trim_end_any,
    trim_end_where,
};

pub use crate::nvim::target::{Mode, Target};

verus! {

/// What is to be opened, and for whom.
#[derive(Debug, PartialEq, Eq)]
pub struct Request {
    pub mode: Mode,
    /// The file or link.
    pub input: String,
    /// The directory that a relative file is below.
    pub cwd: String,
    /// Where the link comes from: `terminal`, `nvim` or `remote`.
    pub source: String,
    /// The editor's socket or the remote host, by source.
    pub context: String,
}

/// Argument `i`, or a default.
pub open spec fn argument_or(arguments: Seq<Seq<char>>, i: int, default: Seq<char>) -> Seq<char> {
    if 0 <= i < arguments.len() {
        arguments[i]
    } else {
        default
    }
}

fn argument(arguments: &[String], i: usize, default: &str) -> (value: String)
    ensures
        value@ == argument_or(strings(arguments@), i as int, default@),
{
    if i < arguments.len() {
        assert(strings(arguments@)[i as int] == arguments@[i as int]@);
        arguments[i].clone()
    } else {
        String::from_str(default)
    }
}

impl Request {
    /// Read the arguments of a mode.
    pub fn new(mode: Mode, arguments: &[String]) -> (request: Self)
        ensures
            request.mode == mode,
            request.input@ == argument_or(strings(arguments@), 0, ""@),
            request.cwd@ == argument_or(strings(arguments@), 1, ""@),
            request.source@ == if mode == Mode::Cli {
                "cli"@
            } else {
                argument_or(strings(arguments@), 2, "terminal"@)
            },
            request.context@ == if mode == Mode::Cli {
                ""@
            } else {
                argument_or(strings(arguments@), 3, ""@)
            },
    {
        let input = argument(arguments, 0, "");
        let cwd = argument(arguments, 1, "");
        if mode == Mode::Cli {
            Request {
                mode,
                input,
                cwd,
                source: String::from_str("cli"),
                context: String::from_str(""),
            }
        } else {
            Request {
                mode,
                input,
                cwd,
                source: argument(arguments, 2, "terminal"),
                context: argument(arguments, 3, ""),
            }
        }
    }

    /// The target that the request names.
    pub fn target(&self, home: Option<&str>) -> (target: Target)
        ensures
            target@ == if self.mode == Mode::Cli {
                Place { file: self.input@, line: 1, column: 0 }
            } else {
                crate::nvim::target::linked(self.input@, crate::text::opt_str(home))
            },
    {
        if self.mode == Mode::Cli {
            Target::cli(self.input.as_str())
        } else {
            Target::link(self.input.as_str(), home)
        }
    }
}

/// One way to reach an editor.
#[derive(Clone, Copy, Debug, PartialEq, Eq, Structural)]
pub enum Route {
    /// The editor at the socket that the link names.
    Socket,
    /// An editor in the current tmux window.
    Window,
    /// The editor that was used last.
    Registry,
    /// An existing shared SSH connection to the link's host.
    Connection,
    /// The configured transport of one exact pane.
    Helper,
    /// None is left: the exit status.
    Done(i32),
}

/// What came of trying a route.
#[derive(Clone, Copy, Debug, PartialEq, Eq, Structural)]
pub enum Attempt {
    /// An editor accepted the target, or none did.
    Opened(bool),
    /// The connection ended with this status.
    Status(i32),
    /// What became of the request is not known.
    Unknown,
}

/// The route of a link on this host.
pub open spec fn local_route(in_tmux: bool) -> Route {
    if in_tmux {
        Route::Window
    } else {
        Route::Registry
    }
}

/// The route that is tried first.
pub open spec fn first_route(request: Request, in_tmux: bool) -> Route {
    if request.mode == Mode::Cli {
        if request.input@.len() == 0 {
            Route::Done(1)
        } else {
            Route::Window
        }
    } else if request.input@.len() == 0 {
        Route::Done(0)
    } else if request.source@ != "remote"@ {
        if request.source@ == "nvim"@ {
            Route::Socket
        } else {
            local_route(in_tmux)
        }
    } else if request.context@.len() > 0 {
        Route::Connection
    } else {
        Route::Helper
    }
}

/// Open one target: the route that is tried first.
pub fn open(request: &Request, in_tmux: bool) -> (route: Route)
    ensures
        route == first_route(*request, in_tmux),
{
    if request.mode == Mode::Cli {
        return if request.input.as_str().is_empty() {
            Route::Done(1)
        } else {
            Route::Window
        };
    }
    if request.input.as_str().is_empty() {
        return Route::Done(0);
    }
    if same(request.source.as_str(), "remote") {
        return if request.context.as_str().is_empty() {
            Route::Helper
        } else {
            Route::Connection
        };
    }
    if same(request.source.as_str(), "nvim") {
        return Route::Socket;
    }
    if in_tmux {
        Route::Window
    } else {
        Route::Registry
    }
}

/// The route after one that was tried. Only a connection that is definitely
/// unavailable or declined the request gives way to the configured transport.
pub open spec fn next_route(route: Route, in_tmux: bool, attempt: Attempt) -> Route {
    match route {
        Route::Done(code) => Route::Done(code),
        Route::Socket => if attempt == Attempt::Opened(true) {
            Route::Done(0)
        } else {
            local_route(in_tmux)
        },
        Route::Window | Route::Registry | Route::Helper => if attempt == Attempt::Opened(true) {
            Route::Done(0)
        } else {
            Route::Done(1)
        },
        Route::Connection => match attempt {
            Attempt::Status(code) => if code == 10 || code == 12 || code == 13 {
                Route::Helper
            } else {
                Route::Done(code)
            },
            _ => Route::Done(1),
        },
    }
}

/// The route after one that was tried.
pub fn proceed(route: Route, in_tmux: bool, attempt: Attempt) -> (next: Route)
    ensures
        next == next_route(route, in_tmux, attempt),
{
    let opened = match attempt {
        Attempt::Opened(opened) => opened,
        _ => false,
    };
    match route {
        Route::Done(code) => Route::Done(code),
        Route::Socket => if opened {
            Route::Done(0)
        } else if in_tmux {
            Route::Window
        } else {
            Route::Registry
        },
        Route::Window | Route::Registry | Route::Helper => if opened {
            Route::Done(0)
        } else {
            Route::Done(1)
        },
        Route::Connection => match attempt {
            Attempt::Status(code) => if code == 10 || code == 12 || code == 13 {
                Route::Helper
            } else {
                Route::Done(code)
            },
            _ => Route::Done(1),
        },
    }
}

/// A request whose fate is not known is never repeated through a second
/// transport: unless the connection said that it is unavailable, failed or is
/// not allowed, nothing more is tried.
pub proof fn lemma_unknown_fate_stops(in_tmux: bool, attempt: Attempt)
    requires
        attempt != Attempt::Status(10) && attempt != Attempt::Status(12) && attempt
            != Attempt::Status(13),
    ensures
        next_route(Route::Connection, in_tmux, attempt) is Done,
{
}

/// A target of this host never leaves it: no route through a connection or a
/// configured transport is tried for a link that is not from another host.
pub proof fn lemma_local_targets_stay(
    request: Request,
    in_tmux: bool,
    first: Attempt,
    second: Attempt,
)
    requires
        request.mode == Mode::Cli || request.source@ != "remote"@,
    ensures
        ({
            let start = first_route(request, in_tmux);
            let after = next_route(start, in_tmux, first);
            let end = next_route(after, in_tmux, second);
            &&& start !is Connection && start !is Helper
            &&& after !is Connection && after !is Helper
            &&& end is Done
        }),
{
}

/// At most two routes are tried.
pub proof fn lemma_routes_end(request: Request, in_tmux: bool, first: Attempt, second: Attempt)
    ensures
        next_route(
            next_route(first_route(request, in_tmux), in_tmux, first),
            in_tmux,
            second,
        ) is Done,
{
}

/// What a failed link is reported as.
pub open spec fn failure_text(request: Request, code: int) -> Seq<char> {
    let message = if request.input@.len() == 0 {
        "No file link target was provided"@
    } else if request.source@ == "remote"@ && request.context@.len() > 0 {
        "No nvim session found for "@ + request.context@ + ": "@ + request.input@
    } else {
        "No nvim session found for file link: "@ + request.input@
    };
    if code == 1 {
        message
    } else {
        message + " (opener exit "@ + signed_decimal(code) + ")"@
    }
}

/// A number in decimal, with a sign where it is negative.
pub open spec fn signed_decimal(n: int) -> Seq<char> {
    if n < 0 {
        "-"@ + decimal((-n) as nat)
    } else {
        decimal(n as nat)
    }
}

fn push_signed(out: &mut String, n: i32)
    ensures
        final(out)@ == old(out)@ + signed_decimal(n as int),
{
    let wide: i64 = n as i64;
    if wide < 0 {
        out.append("-");
        push_decimal(out, (-wide) as u64);
    } else {
        push_decimal(out, wide as u64);
    }
    assert(out@ =~= old(out)@ + signed_decimal(n as int));
}

/// What to show for a final status, if anything: only a link opened from tmux
/// turns a failure into a message, and then exits with success.
pub fn failure_message(request: &Request, code: i32) -> (message: Option<String>)
    ensures
        match message {
            Some(message) => request.mode == Mode::TmuxLink && code != 0 && message@
                == failure_text(*request, code as int),
            None => request.mode != Mode::TmuxLink || code == 0,
        },
{
    if request.mode != Mode::TmuxLink || code == 0 {
        return None;
    }
    let mut message = String::new();
    if request.input.as_str().is_empty() {
        message.append("No file link target was provided");
    } else if same(request.source.as_str(), "remote") && !request.context.as_str().is_empty() {
        message.append("No nvim session found for ");
        message.append(request.context.as_str());
        message.append(": ");
        message.append(request.input.as_str());
    } else {
        message.append("No nvim session found for file link: ");
        message.append(request.input.as_str());
    }
    if code != 1 {
        message.append(" (opener exit ");
        push_signed(&mut message, code);
        message.append(")");
    }
    assert(message@ =~= failure_text(*request, code as int));
    Some(message)
}

/// The tmux arguments that show a message in a popup.
pub fn popup_arguments(message: &str) -> (arguments: Vec<String>)
    ensures
        strings(arguments@) == seq![
            "display-popup"@,
            "-E"@,
            "-w"@,
            "72"@,
            "-h"@,
            "7"@,
            "-T"@,
            "nvim open"@,
            "printf '%s\\n\\nPress Enter to close.\\n' "@ + quoted(message@) + "; IFS= read -r _"@,
        ],
{
    let mut popup = String::from_str("printf '%s\\n\\nPress Enter to close.\\n' ");
    popup.append(quote(message).as_str());
    popup.append("; IFS= read -r _");
    let arguments = owned(
        &vec![
            "display-popup",
            "-E",
            "-w",
            "72",
            "-h",
            "7",
            "-T",
            "nvim open",
            popup.as_str(),
        ],
    );
    assert(strings(arguments@) =~= seq![
        "display-popup"@,
        "-E"@,
        "-w"@,
        "72"@,
        "-h"@,
        "7"@,
        "-T"@,
        "nvim open"@,
        popup@,
    ]);
    arguments
}

/// The panes of the listing that run Neovim.
pub open spec fn nvim_rows(rows: Seq<Seq<char>>) -> Seq<Seq<char>>
    decreases rows.len(),
{
    if rows.len() == 0 {
        Seq::empty()
    } else {
        let before = nvim_rows(rows.drop_last());
        match cut(rows.last(), '\t') {
            Some((pane, command)) if command == "nvim"@ => before.push(pane),
            _ => before,
        }
    }
}

/// The arguments that list the panes of the current window.
pub fn window_panes_arguments() -> (arguments: Vec<String>)
    ensures
        strings(arguments@) == seq!["list-panes"@, "-F"@, "#{pane_id}\t#{pane_current_command}"@],
{
    let arguments = owned(&vec!["list-panes", "-F", "#{pane_id}\t#{pane_current_command}"]);
    assert(strings(arguments@) =~= seq![
        "list-panes"@,
        "-F"@,
        "#{pane_id}\t#{pane_current_command}"@,
    ]);
    arguments
}

/// The panes of the listing that run Neovim. Their registered editors are
/// tried in this order; where none answers, keys go to the first pane.
pub fn nvim_panes(listing: &str) -> (panes: Vec<String>)
    ensures
        strings(panes@) == nvim_rows(lines(listing@)),
{
    let rows = lines_of(listing);
    let ghost all = lines(listing@);
    let mut panes: Vec<String> = Vec::new();
    let mut i: usize = 0;
    assert(strings(panes@) =~= nvim_rows(all.take(0)));
    while i < rows.len()
        invariant
            i <= rows.len(),
            texts(rows@) == all,
            strings(panes@) == nvim_rows(all.take(i as int)),
        decreases rows.len() - i,
    {
        let ghost before = panes@;
        assert(all.take(i + 1).drop_last() =~= all.take(i as int));
        assert(all.take(i + 1).last() == texts(rows@)[i as int]);
        if let Some((pane, command)) = split_once(rows[i], '\t') {
            if same(command, "nvim") {
                panes.push(String::from_str(pane));
                assert(strings(panes@) =~= strings(before).push(pane@));
            }
        }
        i = i + 1;
    }
    assert(all.take(i as int) =~= all);
    panes
}

/// A text as a Vim string literal.
pub open spec fn vim_quoted(value: Seq<char>) -> Seq<char> {
    "'"@ + replaced(value, '\'', "''"@) + "'"@
}

/// A text as a Vim string literal.
pub fn vim_quote(value: &str) -> (literal: String)
    ensures
        literal@ == vim_quoted(value@),
{
    let mut literal = String::from_str("'");
    literal.append(replace_char(value, '\'', "''").as_str());
    literal.append("'");
    literal
}

/// Vim reads a literal back as the text: between the quotes, a doubled quote
/// stands for one.
pub proof fn lemma_vim_quote_round_trip(value: Seq<char>)
    ensures
        vim_quoted(value).len() >= 2,
        halved(vim_quoted(value).subrange(1, vim_quoted(value).len() - 1), '\'') == value,
{
    reveal_strlit("'");
    reveal_strlit("''");
    assert("''"@ =~= seq!['\'', '\'']);
    lemma_halved_doubled(value, '\'');
    assert(vim_quoted(value).subrange(1, vim_quoted(value).len() - 1) =~= replaced(
        value,
        '\'',
        "''"@,
    ));
}

/// The expression that asks a running editor to open a target.
pub open spec fn open_expression(target: Place, cwd: Seq<char>, source: Seq<char>) -> Seq<char> {
    "luaeval('_G.nvim_tmux_open(_A[1], _A[2], _A[3], _A[4], _A[5])', ["@ + vim_quoted(target.file)
        + ", "@ + decimal(target.line as nat) + ", "@ + decimal(target.column as nat) + ", "@
        + vim_quoted(cwd) + ", "@ + vim_quoted(source) + "])"@
}

/// The arguments with which Neovim asks the editor at a socket to open a
/// target.
pub fn socket_arguments(socket: &str, target: &Target, cwd: &str, source: &str) -> (arguments: Vec<
    String,
>)
    ensures
        strings(arguments@) == seq![
            "--server"@,
            socket@,
            "--remote-expr"@,
            open_expression(target@, cwd@, source@),
        ],
{
    let mut expression = String::from_str(
        "luaeval('_G.nvim_tmux_open(_A[1], _A[2], _A[3], _A[4], _A[5])', [",
    );
    expression.append(vim_quote(target.file.as_str()).as_str());
    expression.append(", ");
    push_decimal(&mut expression, target.line);
    expression.append(", ");
    push_decimal(&mut expression, target.column);
    expression.append(", ");
    expression.append(vim_quote(cwd).as_str());
    expression.append(", ");
    expression.append(vim_quote(source).as_str());
    expression.append("])");
    assert(expression@ =~= open_expression(target@, cwd@, source@));
    let arguments = owned(&vec!["--server", socket, "--remote-expr", expression.as_str()]);
    assert(strings(arguments@) =~= seq!["--server"@, socket@, "--remote-expr"@, expression@]);
    arguments
}

/// The file of a target, below the directory where it is relative.
pub open spec fn full_file(file: Seq<char>, cwd: Seq<char>) -> Seq<char> {
    if absolute(file) || cwd.len() == 0 {
        file
    } else {
        trim_end_where(cwd, any_of(seq!['/'])) + "/"@ + file
    }
}

/// A text whose backslashes and double quotes are escaped.
pub open spec fn backslashed(s: Seq<char>) -> Seq<char> {
    replaced(replaced(s, '\\', "\\\\"@), '"', "\\\""@)
}

fn backslash(value: &str) -> (result: String)
    ensures
        result@ == backslashed(value@),
{
    replace_char(replace_char(value, '\\', "\\\\").as_str(), '"', "\\\"")
}

/// A text in which a backslash stands for the character after it.
pub open spec fn unbackslashed(s: Seq<char>) -> Seq<char>
    decreases s.len(),
{
    if s.len() == 0 {
        Seq::empty()
    } else if s.len() > 1 && s[0] == '\\' {
        seq![s[1]] + unbackslashed(s.skip(2))
    } else {
        seq![s[0]] + unbackslashed(s.skip(1))
    }
}

proof fn lemma_backslash_one(c: char)
    ensures
        backslashed(seq![c]) == if c == '\\' || c == '"' {
            seq!['\\', c]
        } else {
            seq![c]
        },
{
    reveal_strlit("\\\\");
    reveal_strlit("\\\"");
    let one = seq![c];
    assert(one.drop_last() =~= Seq::empty());
    reveal_with_fuel(replaced, 3);
    let inner = replaced(one, '\\', "\\\\"@);
    if c == '\\' {
        assert(inner =~= seq!['\\', '\\']);
        assert(inner.drop_last() =~= seq!['\\']);
        assert(inner.drop_last().drop_last() =~= Seq::empty());
        assert(backslashed(one) =~= seq!['\\', '\\']);
    } else {
        assert(inner =~= one);
        if c == '"' {
            assert(backslashed(one) =~= seq!['\\', '"']);
        } else {
            assert(backslashed(one) =~= one);
        }
    }
}

/// Escaping is undone by reading a backslash as the character after it, so the
/// text arrives unchanged inside double quotes.
pub proof fn lemma_backslash_round_trip(s: Seq<char>)
    ensures
        unbackslashed(backslashed(s)) == s,
    decreases s.len(),
{
    if s.len() == 0 {
        assert(replaced(s, '\\', "\\\\"@) =~= Seq::empty());
        assert(backslashed(s) =~= Seq::empty());
    } else {
        let head = s.take(1);
        let rest = s.skip(1);
        assert(s =~= head + rest);
        lemma_replaced_concat(head, rest, '\\', "\\\\"@);
        lemma_replaced_concat(
            replaced(head, '\\', "\\\\"@),
            replaced(rest, '\\', "\\\\"@),
            '"',
            "\\\""@,
        );
        assert(head =~= seq![s[0]]);
        lemma_backslash_one(s[0]);
        lemma_backslash_round_trip(rest);
        let whole = backslashed(s);
        assert(whole =~= backslashed(head) + backslashed(rest));
        if s[0] == '\\' || s[0] == '"' {
            assert(whole.skip(2) =~= backslashed(rest));
        } else {
            assert(whole.skip(1) =~= backslashed(rest));
        }
        assert(seq![s[0]] + rest =~= s);
    }
}

/// A position, counted from one.
pub open spec fn at_least_one(n: u64) -> nat {
    if n == 0 {
        1
    } else {
        n as nat
    }
}

/// The keys that make an editor open a target.
pub open spec fn edit_keys(target: Place, cwd: Seq<char>) -> Seq<char> {
    ":exe 'e '.fnameescape(\""@ + backslashed(full_file(target.file, cwd)) + "\")|call cursor("@
        + decimal(at_least_one(target.line)) + ","@ + decimal(at_least_one(target.column)) + ")"@
}

/// The keys that make an editor open a target, as one literal command.
pub fn tmux_edit_command(target: &Target, cwd: &str) -> (command: String)
    ensures
        command@ == edit_keys(target@, cwd@),
{
    let file = if is_absolute(target.file.as_str()) || cwd.is_empty() {
        target.file.clone()
    } else {
        let slash: Vec<char> = vec!['/'];
        assert(slash@ =~= seq!['/']);
        let mut file = String::from_str(trim_end_any(cwd, slash.as_slice()));
        file.append("/");
        file.append(target.file.as_str());
        file
    };
    let mut command = String::from_str(":exe 'e '.fnameescape(\"");
    command.append(backslash(file.as_str()).as_str());
    command.append("\")|call cursor(");
    push_decimal(
        &mut command,
        if target.line == 0 {
            1
        } else {
            target.line
        },
    );
    command.append(",");
    push_decimal(
        &mut command,
        if target.column == 0 {
            1
        } else {
            target.column
        },
    );
    command.append(")");
    assert(command@ =~= edit_keys(target@, cwd@));
    command
}

/// The tmux commands that leave whatever mode the editor in a pane is in and
/// type one command there.
pub fn tmux_send(pane: &str, command: &str) -> (commands: Vec<Vec<String>>)
    ensures
        commands@.len() == 4,
        strings(commands@[0]@) == seq!["send-keys"@, "-t"@, pane@, "-H"@, "1c"@, "0e"@],
        strings(commands@[1]@) == seq!["send-keys"@, "-t"@, pane@, "Escape"@],
        strings(commands@[2]@) == seq!["send-keys"@, "-t"@, pane@, "-l"@, command@],
        strings(commands@[3]@) == seq!["send-keys"@, "-t"@, pane@, "Enter"@],
{
    let normal = owned(&vec!["send-keys", "-t", pane, "-H", "1c", "0e"]);
    let escape = owned(&vec!["send-keys", "-t", pane, "Escape"]);
    let literal = owned(&vec!["send-keys", "-t", pane, "-l", command]);
    let enter = owned(&vec!["send-keys", "-t", pane, "Enter"]);
    assert(strings(normal@) =~= seq!["send-keys"@, "-t"@, pane@, "-H"@, "1c"@, "0e"@]);
    assert(strings(escape@) =~= seq!["send-keys"@, "-t"@, pane@, "Escape"@]);
    assert(strings(literal@) =~= seq!["send-keys"@, "-t"@, pane@, "-l"@, command@]);
    assert(strings(enter@) =~= seq!["send-keys"@, "-t"@, pane@, "Enter"@]);
    vec![normal, escape, literal, enter]
}

/// A text as one word of a tmux command line.
pub fn tmux_quote(value: &str) -> (word: String)
    ensures
        word@ == "\""@ + backslashed(format_escaped(value@)) + "\""@,
{
    let escaped = escape_tmux_format(value);
    let mut word = String::from_str("\"");
    word.append(backslash(escaped.as_str()).as_str());
    word.append("\"");
    word
}

/// Whether a directory of the search path belongs to the system.
pub open spec fn system_directory(path: Seq<char>, platform_bin: Option<Seq<char>>) -> bool {
    ||| platform_bin is Some && same_path(platform_bin->0, path)
    ||| path == "/bin"@ || path == "/sbin"@ || path == "/usr/bin"@ || path == "/usr/sbin"@
    ||| path == "/usr/local/bin"@ || path == "/usr/local/sbin"@
    ||| path == "/opt/homebrew/bin"@ || path == "/opt/local/bin"@
}

fn is_system_directory(path: &str, platform_bin: &Option<String>) -> (result: bool)
    ensures
        result == system_directory(path@, crate::text::opt_text(*platform_bin)),
{
    if let Some(bin) = platform_bin {
        if paths_equal(bin.as_str(), path) {
            return true;
        }
    }
    same(path, "/bin") || same(path, "/sbin") || same(path, "/usr/bin") || same(path, "/usr/sbin")
        || same(path, "/usr/local/bin") || same(path, "/usr/local/sbin") || same(
        path,
        "/opt/homebrew/bin",
    ) || same(path, "/opt/local/bin")
}

/// The first directory of the system from index `i` on, or the end.
pub open spec fn system_from(
    paths: Seq<Seq<char>>,
    platform_bin: Option<Seq<char>>,
    i: int,
) -> int
    decreases paths.len() - i,
{
    if i < 0 || i >= paths.len() {
        paths.len() as int
    } else if system_directory(paths[i], platform_bin) {
        i
    } else {
        system_from(paths, platform_bin, i + 1)
    }
}

/// The search path with the missing directories inserted from index `at` on.
pub open spec fn inserted(paths: Seq<Seq<char>>, at: int, missing: Seq<Seq<char>>) -> Seq<Seq<char>>
    decreases missing.len(),
{
    if missing.len() == 0 {
        paths
    } else if listed_path(paths, missing[0]) {
        inserted(paths, at, missing.drop_first())
    } else {
        inserted(paths.insert(at, missing[0]), at + 1, missing.drop_first())
    }
}

/// The directory of the platform's own tools.
pub open spec fn platform_directory(prefix: Option<Seq<char>>) -> Option<Seq<char>> {
    match prefix {
        Some(prefix) => Some(below(prefix, "bin"@)),
        None => None,
    }
}

/// The search path with the usual directories of the user and the system.
pub open spec fn augmented(
    home: Seq<char>,
    paths: Seq<Seq<char>>,
    prefix: Option<Seq<char>>,
) -> Seq<Seq<char>> {
    inserted(
        paths,
        system_from(paths, platform_directory(prefix), 0),
        fallback_paths(home, None),
    )
}

/// The search path with the usual directories of the user and the system ahead
/// of the first directory that belongs to the system.
pub fn augmented_tool_paths(home: &str, paths: Vec<String>, platform_prefix: Option<&str>) -> (
    result: Vec<String>)
    ensures
        strings(result@) == augmented(
            home@,
            strings(paths@),
            crate::text::opt_str(platform_prefix),
        ),
{
    let ghost original = strings(paths@);
    let bin = match platform_prefix {
        Some(prefix) => Some(join(prefix, "bin")),
        None => None,
    };
    let ghost platform = platform_directory(crate::text::opt_str(platform_prefix));
    let missing = fallbacks(home, None);
    let mut result = paths;
    let mut at: usize = 0;
    while at < result.len() && !is_system_directory(result[at].as_str(), &bin)
        invariant
            at <= result.len(),
            strings(result@) == original,
            crate::text::opt_text(bin) == platform,
            system_from(original, platform, 0) == system_from(original, platform, at as int),
        decreases result.len() - at,
    {
        assert(original[at as int] == result@[at as int]@);
        at = at + 1;
    }
    proof {
        if at < result.len() {
            assert(original[at as int] == result@[at as int]@);
        }
    }
    let ghost whole = augmented(home@, original, crate::text::opt_str(platform_prefix));
    let ghost all = fallback_paths(home@, None);
    let mut i: usize = 0;
    assert(all.skip(0) =~= all);
    while i < missing.len()
        invariant
            i <= missing.len(),
            strings(missing@) == all,
            at <= result.len(),
            inserted(strings(result@), at as int, all.skip(i as int)) == whole,
        decreases missing.len() - i,
    {
        assert(all.skip(i as int)[0] == missing@[i as int]@);
        assert(all.skip(i as int).drop_first() =~= all.skip(i + 1));
        if !lists_path(&result, missing[i].as_str()) {
            let ghost before = result@;
            result.insert(at, missing[i].clone());
            assert(strings(result@) =~= strings(before).insert(at as int, missing@[i as int]@));
            assert(at < result.len());
            at = at + 1;
        }
        i = i + 1;
    }
    result
}

/// Inserting directories keeps what stands before and after the place in its
/// order, and afterwards every directory is on the path.
pub proof fn lemma_insertion_keeps_order(paths: Seq<Seq<char>>, at: int, missing: Seq<Seq<char>>)
    requires
        0 <= at <= paths.len(),
    ensures
        ({
            let result = inserted(paths, at, missing);
            &&& result.len() >= paths.len()
            &&& result.take(at) == paths.take(at)
            &&& result.skip(result.len() - (paths.len() - at)) == paths.skip(at)
            &&& forall|path: Seq<char>| #[trigger]
                listed_path(paths, path) ==> listed_path(result, path)
            &&& forall|i: int|
                0 <= i < missing.len() ==> listed_path(result, #[trigger] missing[i])
        }),
    decreases missing.len(),
{
    let result = inserted(paths, at, missing);
    if missing.len() > 0 {
        let rest = missing.drop_first();
        if listed_path(paths, missing[0]) {
            lemma_insertion_keeps_order(paths, at, rest);
        } else {
            let more = paths.insert(at, missing[0]);
            lemma_insertion_keeps_order(more, at + 1, rest);
            assert(more.take(at + 1).take(at) =~= paths.take(at));
            assert(result.take(at + 1).take(at) =~= result.take(at));
            assert(more.skip(at + 1) =~= paths.skip(at));
            assert(more[at] == missing[0]);
            assert(listed_path(more, missing[0]));
            assert forall|path: Seq<char>| #[trigger] listed_path(paths, path) implies listed_path(
                result,
                path,
            ) by {
                let i = choose|i: int| 0 <= i < paths.len() && same_path(#[trigger] paths[i], path);
                let j = if i < at {
                    i
                } else {
                    i + 1
                };
                assert(more[j] == paths[i]);
                assert(listed_path(more, path));
            }
        }
        assert forall|i: int| 0 <= i < missing.len() implies listed_path(
            result,
            #[trigger] missing[i],
        ) by {
            if i > 0 {
                assert(rest[i - 1] == missing[i]);
            }
        }
    }
}

/// Where a tool would stand in a directory of the search path. A relative
/// directory is below the current one.
pub open spec fn tool_in(directory: Seq<char>, name: Seq<char>, current: Seq<char>) -> Seq<char> {
    let candidate = below(directory, name);
    if absolute(candidate) {
        candidate
    } else {
        below(current, candidate)
    }
}

/// Where a tool would stand in each directory, in order. The first of these
/// that can be executed is the tool.
pub fn tool_candidates(name: &str, paths: &Vec<String>, current: &str) -> (candidates: Vec<String>)
    ensures
        strings(candidates@) == Seq::new(
            paths@.len(),
            |i: int| tool_in(strings(paths@)[i], name@, current@),
        ),
{
    let mut candidates: Vec<String> = Vec::new();
    let mut i: usize = 0;
    while i < paths.len()
        invariant
            i <= paths.len(),
            candidates@.len() == i,
            forall|j: int|
                0 <= j < i ==> (#[trigger] candidates@[j])@ == tool_in(
                    strings(paths@)[j],
                    name@,
                    current@,
                ),
        decreases paths.len() - i,
    {
        assert(strings(paths@)[i as int] == paths@[i as int]@);
        let candidate = join(paths[i].as_str(), name);
        candidates.push(
            if is_absolute(candidate.as_str()) {
                candidate
            } else {
                join(current, candidate.as_str())
            },
        );
        i = i + 1;
    }
    assert(strings(candidates@) =~= Seq::new(
        paths@.len(),
        |i: int| tool_in(strings(paths@)[i], name@, current@),
    ));
    candidates
}

} // verus!
