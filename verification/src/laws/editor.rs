//! Where a link is opened, in which order the ways are tried, and what an
//! editor or another host is told.

use vstd::prelude::*;
use vstd::string::*;

use crate::laws::text::{lemma_cut_at, lemma_split_first};
use crate::nvim::open::{
    augmented, failure_message, full_file, nvim_rows, open, popup_arguments, proceed,
    signed_decimal, socket_arguments, system_directory, system_from, tmux_edit_command, tmux_quote,
    tmux_send, tool_candidates, vim_quoted, window_panes_arguments, Attempt, Request, Route,
};
use crate::nvim::remote::{
    admission, allowed_host, configured_open, control_socket, is_host, mux_options, opened_status,
    opener_command, ssh_open, valid_host, Connection,
};
use crate::nvim::target::{linked, Mode, Place, Target};
use crate::nvim::tool_path::{assignment, fallback_paths, filled, rebased, search_path};
use crate::paths::{absolute, below, relative, same_path};
use crate::shell::{format_escaped, quoted};
use crate::ssh::{setting, setting_texts, sets_option};
use crate::text::{any_of, decimal, joined, opt_str, split, strings, trimmed};

verus! {

/// A request takes its arguments in order. A link without a source comes from
/// the terminal; a file of the command line has neither source nor context.
pub proof fn lemma_requests_take_arguments(
    mode: Mode,
    arguments: &[String],
    request: Request,
    home: Option<&str>,
    target: Target,
)
    requires
        call_ensures(Request::new, (mode, arguments), request),
        call_ensures(Request::target, (&request, home), target),
    ensures
        request.mode == mode,
        arguments@.len() > 0 ==> request.input@ == arguments@[0]@,
        arguments@.len() == 0 ==> request.input@.len() == 0,
        arguments@.len() > 1 ==> request.cwd@ == arguments@[1]@,
        arguments@.len() <= 1 ==> request.cwd@.len() == 0,
        mode == Mode::Cli ==> request.source@ == "cli"@ && request.context@.len() == 0,
        mode != Mode::Cli && arguments@.len() > 2 ==> request.source@ == arguments@[2]@,
        mode != Mode::Cli && arguments@.len() <= 2 ==> request.source@ == "terminal"@,
        mode != Mode::Cli && arguments@.len() > 3 ==> request.context@ == arguments@[3]@,
        mode != Mode::Cli && arguments@.len() <= 3 ==> request.context@.len() == 0,
        mode == Mode::Cli ==> target@ == (Place { file: request.input@, line: 1, column: 0 }),
        mode != Mode::Cli ==> target@ == linked(request.input@, opt_str(home)),
{
    reveal_strlit("");
    assert(""@.len() == 0);
    assert(forall|i: int|
        0 <= i < arguments@.len() ==> #[trigger] strings(arguments@)[i] == arguments@[i]@);
}

/// Where a target is tried first: a file of the command line in the window; a
/// link of an editor in that editor; any other local link in the window within
/// tmux and by the records outside it; a remote link through the connection to
/// its host where it names one, else through the helper. Without a target a
/// link is done, and a command line has failed.
pub proof fn lemma_first_attempts(request: Request, in_tmux: bool, route: Route)
    requires
        call_ensures(open, (&request, in_tmux), route),
    ensures
        request.mode == Mode::Cli && request.input@.len() == 0 ==> route == Route::Done(1),
        request.mode != Mode::Cli && request.input@.len() == 0 ==> route == Route::Done(0),
        request.input@.len() > 0 ==> {
            let link = request.mode != Mode::Cli;
            &&& !link ==> route is Window
            &&& link && request.source@ == "nvim"@ ==> route is Socket
            &&& link && request.source@ == "remote"@ && request.context@.len() > 0
                ==> route is Connection
            &&& link && request.source@ == "remote"@ && request.context@.len() == 0
                ==> route is Helper
            &&& link && request.source@ != "nvim"@ && request.source@ != "remote"@ && in_tmux
                ==> route is Window
            &&& link && request.source@ != "nvim"@ && request.source@ != "remote"@ && !in_tmux
                ==> route is Registry
        },
{
    reveal_strlit("nvim");
    reveal_strlit("remote");
    assert("nvim"@.len() == 4 && "remote"@.len() == 6);
}

/// What follows an attempt. An editor that is gone gives way to the local ways.
/// A connection that could not be used gives way to the helper: it was not
/// there, failed before it did anything, or is not allowed. Its status is else
/// the result, and so is the result of every other attempt.
pub proof fn lemma_next_attempts(route: Route, in_tmux: bool, attempt: Attempt, next: Route)
    requires
        call_ensures(proceed, (route, in_tmux, attempt), next),
    ensures
        route matches Route::Done(code) ==> next == Route::Done(code),
        !(route is Done) && !(route is Connection) && attempt == Attempt::Opened(true) ==> next
            == Route::Done(0),
        route is Socket && attempt != Attempt::Opened(true) && in_tmux ==> next is Window,
        route is Socket && attempt != Attempt::Opened(true) && !in_tmux ==> next is Registry,
        (route is Window || route is Registry || route is Helper) && attempt != Attempt::Opened(
            true,
        ) ==> next == Route::Done(1),
        route is Connection ==> (attempt matches Attempt::Status(code) ==> (next is Helper <==> (
        code == 10 || code == 12 || code == 13)) && (next is Helper || next == Route::Done(code))),
        route is Connection && !(attempt is Status) ==> next == Route::Done(1),
{
}

/// A failure is shown to a tmux link alone, and says what was looked for and
/// where; an unusual status is added.
pub proof fn lemma_failures_are_told(request: Request, code: i32, message: Option<String>)
    requires
        call_ensures(failure_message, (&request, code), message),
    ensures
        message is Some <==> request.mode == Mode::TmuxLink && code != 0,
        message is Some && code == 1 && request.input@.len() == 0 ==> message->0@
            == "No file link target was provided"@,
        message is Some && code == 1 && request.input@.len() > 0 && request.source@ == "remote"@
            && request.context@.len() > 0 ==> message->0@ == "No nvim session found for "@
            + request.context@ + ": "@ + request.input@,
        message is Some && code == 1 && request.input@.len() > 0 && (request.source@ != "remote"@
            || request.context@.len() == 0) ==> message->0@
            == "No nvim session found for file link: "@ + request.input@,
        message is Some && code != 1 && request.input@.len() == 0 ==> message->0@
            == "No file link target was provided"@ + " (opener exit "@ + signed_decimal(
            code as int,
        ) + ")"@,
{
}

/// A negative status has a sign before its digits.
pub proof fn lemma_signed(n: nat)
    ensures
        signed_decimal(n as int) == decimal(n),
        n > 0 ==> signed_decimal(-(n as int)) == "-"@ + decimal(n),
{
}

/// The popup shows the message as the shell reads it, and waits for a key.
pub proof fn lemma_popup(message: &str, arguments: Vec<String>)
    requires
        call_ensures(popup_arguments, (message,), arguments),
    ensures
        strings(arguments@) == seq![
            "display-popup"@,
            "-E"@,
            "-w"@,
            "72"@,
            "-h"@,
            "7"@,
            "-T"@,
            "nvim open"@,
            "printf '%s\\n\\nPress Enter to close.\\n' "@ + quoted(message@) + "; IFS= read -r _"@,
        ],
{
}

/// The panes of the window that run an editor, in the order of the listing.
pub proof fn lemma_editor_panes(
    rows: Seq<Seq<char>>,
    pane: Seq<char>,
    command: Seq<char>,
    arguments: Vec<String>,
)
    requires
        !pane.contains('\t'),
        call_ensures(window_panes_arguments, (), arguments),
    ensures
        nvim_rows(rows.push(pane + seq!['\t'] + command)) == if command == "nvim"@ {
            nvim_rows(rows).push(pane)
        } else {
            nvim_rows(rows)
        },
        nvim_rows(Seq::empty()) == Seq::<Seq<char>>::empty(),
        strings(arguments@) == seq!["list-panes"@, "-F"@, "#{pane_id}\t#{pane_current_command}"@],
{
    lemma_cut_at(pane, '\t', command);
    assert(rows.push(pane + seq!['\t'] + command).drop_last() =~= rows);
}

/// An editor is asked through its socket, with the file, the line, the column,
/// the directory and the source, in that order.
pub proof fn lemma_socket_expression(
    socket: &str,
    target: Target,
    cwd: &str,
    source: &str,
    arguments: Vec<String>,
)
    requires
        call_ensures(socket_arguments, (socket, &target, cwd, source), arguments),
    ensures
        strings(arguments@) == seq![
            "--server"@,
            socket@,
            "--remote-expr"@,
            "luaeval('_G.nvim_tmux_open(_A[1], _A[2], _A[3], _A[4], _A[5])', ["@ + vim_quoted(
                target.file@,
            ) + ", "@ + decimal(target.line as nat) + ", "@ + decimal(target.column as nat)
                + ", "@ + vim_quoted(cwd@) + ", "@ + vim_quoted(source@) + "])"@,
        ],
{
}

/// A relative file is looked for below the directory; an absolute one, or one
/// without a directory, is taken as it is.
pub proof fn lemma_full_files(file: Seq<char>, cwd: Seq<char>)
    ensures
        file.len() > 0 && file[0] == '/' ==> full_file(file, cwd) == file,
        cwd.len() == 0 ==> full_file(file, cwd) == file,
        cwd.len() > 0 && cwd.last() != '/' && (file.len() == 0 || file[0] != '/') ==> full_file(
            file,
            cwd,
        ) == cwd + "/"@ + file,
        cwd.len() > 0 && (file.len() == 0 || file[0] != '/') ==> full_file(file, cwd.push('/'))
            == full_file(file, cwd),
{
    let class = any_of(seq!['/']);
    assert(seq!['/'][0] == '/');
    assert(class('/'));
    let more = cwd.push('/');
    assert(more.last() == '/');
    assert(more.drop_last() =~= cwd);
    if cwd.len() > 0 && cwd.last() != '/' {
        assert(!class(cwd.last())) by {
            assert(!seq!['/'].contains(cwd.last()));
        }
    }
}

/// The keys that open a file put the cursor at the line and column, counted
/// from one, and are typed after a return to normal mode.
pub proof fn lemma_edit_keys(
    target: Target,
    cwd: &str,
    command: String,
    pane: &str,
    keys: &str,
    commands: Vec<Vec<String>>,
)
    requires
        call_ensures(tmux_edit_command, (&target, cwd), command),
        call_ensures(tmux_send, (pane, keys), commands),
    ensures
        command@ == ":exe 'e '.fnameescape(\""@ + crate::nvim::open::backslashed(
            full_file(target.file@, cwd@),
        ) + "\")|call cursor("@ + decimal(
            if target.line == 0 {
                1nat
            } else {
                target.line as nat
            },
        ) + ","@ + decimal(
            if target.column == 0 {
                1nat
            } else {
                target.column as nat
            },
        ) + ")"@,
        commands@.len() == 4,
        strings(commands@[0]@) == seq!["send-keys"@, "-t"@, pane@, "-H"@, "1c"@, "0e"@],
        strings(commands@[1]@) == seq!["send-keys"@, "-t"@, pane@, "Escape"@],
        strings(commands@[2]@) == seq!["send-keys"@, "-t"@, pane@, "-l"@, keys@],
        strings(commands@[3]@) == seq!["send-keys"@, "-t"@, pane@, "Enter"@],
{
}

/// A text for tmux's own parser is quoted after its formats were escaped.
pub proof fn lemma_tmux_quotes(value: &str, word: String)
    requires
        call_ensures(tmux_quote, (value,), word),
    ensures
        word@ == "\""@ + crate::nvim::open::backslashed(format_escaped(value@)) + "\""@,
        crate::nvim::open::unbackslashed(
            crate::nvim::open::backslashed(format_escaped(value@)),
        ) == format_escaped(value@),
{
    crate::nvim::open::lemma_backslash_round_trip(format_escaped(value@));
}

/// The directories of the system: those that every host has, those of the
/// package managers, and the platform's own.
pub proof fn lemma_system_directories(path: Seq<char>, platform: Option<Seq<char>>)
    ensures
        system_directory(path, None) <==> path == "/bin"@ || path == "/sbin"@ || path
            == "/usr/bin"@ || path == "/usr/sbin"@ || path == "/usr/local/bin"@ || path
            == "/usr/local/sbin"@ || path == "/opt/homebrew/bin"@ || path == "/opt/local/bin"@,
        platform is Some ==> (system_directory(path, platform) <==> same_path(platform->0, path)
            || system_directory(path, None)),
{
}

/// The user's own directories come before the first directory of the system,
/// or last where there is none.
pub proof fn lemma_where_tools_go(paths: Seq<Seq<char>>, platform: Option<Seq<char>>, i: int)
    requires
        0 <= i <= paths.len(),
    ensures
        ({
            let at = system_from(paths, platform, i);
            &&& i <= at <= paths.len()
            &&& at < paths.len() ==> system_directory(paths[at], platform)
            &&& forall|j: int| i <= j < at ==> !system_directory(#[trigger] paths[j], platform)
        }),
    decreases paths.len() - i,
{
    if i < paths.len() && !system_directory(paths[i], platform) {
        lemma_where_tools_go(paths, platform, i + 1);
    }
}

/// Tools are also looked for in the user's own directories, those of the tool
/// manager and those of the package managers; a configured list takes their
/// place.
pub proof fn lemma_tool_directories(
    home: Seq<char>,
    configured: Seq<char>,
    paths: Seq<Seq<char>>,
    prefix: Seq<char>,
)
    ensures
        fallback_paths(home, None) == seq![
            below(home, ".local/bin"@),
            below(home, ".local/share/mise/shims"@),
            "/opt/homebrew/bin"@,
            "/usr/local/bin"@,
        ],
        fallback_paths(home, Some(configured)) == filled(split(configured, ':')),
        augmented(home, paths, None) == crate::nvim::open::inserted(
            paths,
            system_from(paths, None, 0),
            fallback_paths(home, None),
        ),
        augmented(home, paths, Some(prefix)) == crate::nvim::open::inserted(
            paths,
            system_from(paths, Some(below(prefix, "bin"@)), 0),
            fallback_paths(home, None),
        ),
{
}

/// Empty pieces of a search path are no directories; all others are, in order.
pub proof fn lemma_search_paths(
    value: &str,
    directories: Vec<String>,
    pieces: Seq<Seq<char>>,
    piece: Seq<char>,
)
    requires
        call_ensures(search_path, (value,), directories),
    ensures
        strings(directories@) == filled(split(value@, ':')),
        filled(Seq::empty()) == Seq::<Seq<char>>::empty(),
        piece.len() > 0 ==> filled(pieces.push(piece)) == filled(pieces).push(piece),
        piece.len() == 0 ==> filled(pieces.push(piece)) == filled(pieces),
{
    assert(pieces.push(piece).drop_last() =~= pieces);
}

/// A tool is looked for in each directory, in order; a relative directory is
/// below the current one.
pub proof fn lemma_tool_files(
    name: &str,
    paths: Vec<String>,
    current: &str,
    candidates: Vec<String>,
    i: int,
)
    requires
        call_ensures(tool_candidates, (name, &paths, current), candidates),
        0 <= i < paths@.len(),
    ensures
        candidates@.len() == paths@.len(),
        absolute(below(paths@[i]@, name@)) ==> candidates@[i]@ == below(paths@[i]@, name@),
        !absolute(below(paths@[i]@, name@)) ==> candidates@[i]@ == below(
            current@,
            below(paths@[i]@, name@),
        ),
{
    assert(strings(candidates@).len() == candidates@.len());
    assert(strings(candidates@)[i] == candidates@[i]@);
    assert(strings(paths@)[i] == paths@[i]@);
}

/// A host name consists of letters, digits, underscores, hyphens and single
/// dots, and does not begin with a dot.
pub proof fn lemma_host_names(host: &str, valid: bool, i: int)
    requires
        call_ensures(valid_host, (host,), valid),
    ensures
        host@.len() == 0 ==> !valid,
        host@.len() > 0 && host@[0] == '.' ==> !valid,
        valid && 0 <= i < host@.len() ==> {
            let c = host@[i];
            'a' <= c <= 'z' || 'A' <= c <= 'Z' || '0' <= c <= '9' || c == '_' || c == '.' || c
                == '-'
        },
        valid && 0 <= i < host@.len() - 1 ==> host@[i] != '.' || host@[i + 1] != '.',
        host@.len() > 0 && (forall|j: int|
            0 <= j < host@.len() ==> 'a' <= #[trigger] host@[j] <= 'z' || 'A' <= host@[j] <= 'Z'
                || '0' <= host@[j] <= '9' || host@[j] == '_' || host@[j] == '-') ==> valid,
{
    let s = host@;
    if valid && 0 <= i < s.len() {
        assert(crate::nvim::remote::host_char(s[i]));
    }
    if valid && 0 <= i < s.len() - 1 {
        assert(s[i + 1] == '.' ==> s[i + 1 - 1] != '.');
    }
    if s.len() > 0 && (forall|j: int|
        0 <= j < s.len() ==> 'a' <= #[trigger] s[j] <= 'z' || 'A' <= s[j] <= 'Z' || '0' <= s[j]
            <= '9' || s[j] == '_' || s[j] == '-') {
        assert('a' <= s[0] <= 'z' || 'A' <= s[0] <= 'Z' || '0' <= s[0] <= '9' || s[0] == '_' || s[0]
            == '-');
        assert forall|j: int| 0 <= j < s.len() implies crate::nvim::remote::host_char(
            #[trigger] s[j],
        ) by {}
        assert(is_host(s));
    }
}

/// A host is allowed where the list names it, between commas, whatever white
/// space surrounds it; without a list none is.
pub proof fn lemma_allowed_hosts(
    before: Seq<char>,
    rest: Seq<char>,
    allowed: Option<&str>,
    host: &str,
    result: bool,
)
    requires
        call_ensures(allowed_host, (allowed, host), result),
        !before.contains(','),
    ensures
        allowed is None ==> !result,
        allowed is Some && allowed->0@ == before ==> (result <==> trimmed(before) == host@),
        allowed is Some && allowed->0@ == before + seq![','] + rest ==> (result <==> trimmed(
            before,
        ) == host@ || crate::nvim::remote::listed(rest, host@)),
{
    lemma_split_first(before, ',', rest);
    let one = split(before, ',');
    let all = split(before + seq![','] + rest, ',');
    let tail = split(rest, ',');
    assert(one[0] == before);
    assert(all[0] == before);
    assert forall|i: int| 0 <= i < tail.len() implies all[i + 1] == #[trigger] tail[i] by {}
    if allowed is Some && allowed->0@ == before + seq![','] + rest {
        if crate::nvim::remote::listed(rest, host@) {
            let i = choose|i: int| 0 <= i < tail.len() && trimmed(#[trigger] tail[i]) == host@;
            assert(trimmed(all[i + 1]) == host@);
        }
        if result {
            let i = choose|i: int| 0 <= i < all.len() && trimmed(#[trigger] all[i]) == host@;
            if i > 0 {
                assert(tail[i - 1] == all[i]);
            }
        }
    }
}

/// A host that is no host name is refused with one status, and one that is not
/// allowed with another.
pub proof fn lemma_admission(host: &str, allowed: Option<&str>, refusal: Option<i32>, ok: bool)
    requires
        call_ensures(admission, (host, allowed), refusal),
        call_ensures(allowed_host, (allowed, host), ok),
    ensures
        !is_host(host@) ==> refusal == Some(11i32),
        is_host(host@) && !ok ==> refusal == Some(13i32),
        is_host(host@) && ok ==> refusal is None,
{
}

/// A shared connection is used by its control path, unless that is `none` in
/// any case.
pub proof fn lemma_control_sockets(settings: Seq<(Seq<char>, Seq<char>)>)
    ensures
        setting(settings, "controlpath"@) is None ==> control_socket(settings) is None,
        setting(settings, "controlpath"@) matches Some(path) ==> control_socket(settings) == (
        if crate::text::lowered(path) == "none"@ {
            None
        } else {
            Some(path)
        }),
{
}

/// A connection opens a link on its host, as one of the terminal there, and
/// only through the shared connection. Without one nothing is run, and the
/// status says so.
pub proof fn lemma_connections(
    host: &str,
    target: &str,
    allowed: Option<&str>,
    settings: Option<Vec<(String, String)>>,
    home: Option<&str>,
    configured: Option<&str>,
    connection: Connection,
    refusal: Option<i32>,
)
    requires
        call_ensures(ssh_open, (host, target, allowed, &settings, home, configured), connection),
        call_ensures(admission, (host, allowed), refusal),
    ensures
        refusal matches Some(code) ==> connection == Connection::Refused(code),
        refusal is None && (settings is None || control_socket(setting_texts(settings->0@)) is None)
            ==> connection == Connection::Refused(10),
        refusal is None && settings is Some && control_socket(setting_texts(settings->0@)) is Some
            ==> (connection matches Connection::Run(arguments) && strings(arguments@)
            == mux_options(control_socket(setting_texts(settings->0@))->0) + seq![
            host@,
            opener_command(
                opt_str(home),
                opt_str(configured),
                seq!["link"@, target@, ""@, "terminal"@],
            ),
        ]),
{
}

/// A connection neither forwards nor lingers.
pub proof fn lemma_connections_are_bare(path: Seq<char>)
    ensures
        sets_option(mux_options(path), "ForwardX11=no"@),
        sets_option(mux_options(path), "ForwardX11Trusted=no"@),
        sets_option(mux_options(path), "ConnectTimeout=1"@),
        sets_option(mux_options(path), "ConnectionAttempts=1"@),
        sets_option(mux_options(path), "BatchMode=yes"@),
        mux_options(path).take(2) == seq!["-S"@, path],
{
    let all = mux_options(path);
    assert(all.take(2) =~= seq!["-S"@, path]);
    assert(all[14] == "-o"@ && all[15] == "ForwardX11=no"@);
    assert(all[16] == "-o"@ && all[17] == "ForwardX11Trusted=no"@);
    assert(all[18] == "-o"@ && all[19] == "BatchMode=yes"@);
    assert(all[20] == "-o"@ && all[21] == "ConnectTimeout=1"@);
    assert(all[22] == "-o"@ && all[23] == "ConnectionAttempts=1"@);
}

/// The status of a connection says whether the link was opened.
pub proof fn lemma_opened(success: bool, code: i32)
    requires
        call_ensures(opened_status, (success,), code),
    ensures
        success ==> code == 0,
        !success ==> code == 12,
{
}

/// The helper is run for one exact pane, of tmux or of the terminal, with the
/// host and the target; without a helper, a host or a pane nothing is run.
pub proof fn lemma_helpers(
    kind: &str,
    scope: &str,
    pane: &str,
    host: &str,
    target: &str,
    helper: Option<&str>,
    arguments: Option<Vec<String>>,
)
    requires
        call_ensures(configured_open, (kind, scope, pane, host, target, helper), arguments),
    ensures
        arguments is Some <==> helper is Some && helper->0@.len() > 0 && is_host(host@) && (kind@
            == "tmux"@ || kind@ == "wezterm"@) && scope@.len() > 0 && pane@.len() > 0,
        arguments is Some ==> strings(arguments->0@) == seq![
            kind@,
            scope@,
            pane@,
            host@,
            target@,
        ],
{
}

/// The command on the other host extends the search path, then opens with the
/// arguments, each quoted for the shell; a missing opener is reported there.
pub proof fn lemma_remote_commands(
    home: Option<Seq<char>>,
    configured: Option<Seq<char>>,
    arguments: Seq<Seq<char>>,
    argument: Seq<char>,
)
    ensures
        opener_command(home, configured, arguments) == assignment(
            match home {
                Some(home) => home,
                None => "$HOME"@,
            },
            if configured is Some && configured->0.len() > 0 {
                configured
            } else {
                None
            },
        ) + "; if command -v termnav >/dev/null 2>&1; then termnav nvim open"@
            + crate::nvim::remote::spaced(arguments)
            + "; else printf \"%s\\n\" \"termnav: remote Neovim opener not found on PATH\" >&2; exit 127; fi"@,
        crate::nvim::remote::spaced(arguments.push(argument)) == crate::nvim::remote::spaced(
            arguments,
        ) + " "@ + quoted(argument),
        crate::nvim::remote::spaced(Seq::empty()) == Seq::<char>::empty(),
{
    assert(arguments.push(argument).drop_last() =~= arguments);
}

/// The search path of the other host is extended, never replaced, by the same
/// directories, those of the home below the home there.
pub proof fn lemma_remote_paths(home: Seq<char>, configured: Option<Seq<char>>, path: Seq<char>)
    ensures
        assignment(home, configured) == "PATH=\"$PATH\":"@ + joined(
            Seq::new(
                fallback_paths(home, configured).len(),
                |i: int| rebased(fallback_paths(home, configured)[i], home),
            ),
            ":"@,
        ) + "; export PATH"@,
        relative(path, home) is None ==> rebased(path, home) == quoted(path),
        relative(path, home) matches Some(rest) ==> rest.len() > 0 ==> rebased(path, home)
            == "\"$HOME\"/"@ + quoted(rest),
        relative(path, home) matches Some(rest) ==> rest.len() == 0 ==> rebased(path, home)
            == quoted(path),
{
}

} // verus!
