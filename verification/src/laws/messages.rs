//! What is said of what is refused, and a few classes that other laws rest on.

use vstd::prelude::*;
use vstd::string::*;

use crate::assets::{ESCAPE_MESSAGE, PATH_MESSAGE, ROOT_MESSAGE};
use crate::digest::hex_digit;
use crate::json::json_char;
use crate::navigation::{Action, Direction};
use crate::process::ascii_space;
use crate::relay::client::ReplyError;
use crate::relay::store::{claim_rank, considered, ArmError, Entry};
use crate::runtime::SEGMENT_MESSAGE;
use crate::text::strings;
use crate::version::line;

verus! {

/// A refused action or direction is named in the message, the direction with
/// the action that it does not suit.
pub proof fn lemma_refused_gestures(
    value: &str,
    action: Action,
    parsed: Result<Action, String>,
    way: Result<Direction, String>,
)
    requires
        call_ensures(Action::parse, (value,), parsed),
        call_ensures(Direction::parse, (action, value), way),
    ensures
        parsed matches Err(message) ==> message@ == "invalid navigation action: "@ + value@,
        way matches Err(message) ==> message@ == "invalid "@ + action.name() + " direction: "@
            + value@,
        parsed matches Ok(found) ==> found.name() == value@,
        way matches Ok(found) ==> found.name() == value@ && found.suits(action),
{
}

/// Why a reply is refused.
pub proof fn lemma_refused_replies(error: ReplyError, text: &'static str)
    requires
        call_ensures(ReplyError::message, (error,), text),
    ensures
        error is OversizedOrTruncated ==> text@ == "relay reply is oversized or truncated"@,
        error is Malformed ==> text@ == "relay reply is malformed"@,
        error is UnsupportedShape ==> text@ == "relay reply has an unsupported shape"@,
{
}

/// Why a directive is not published.
pub proof fn lemma_refused_directives(error: ArmError, text: &'static str)
    requires
        call_ensures(ArmError::message, (error,), text),
    ensures
        error is Invalid ==> text@ == "invalid directive"@,
        error is Poisoned ==> text@ == "client commit stream is poisoned"@,
        error is Outstanding ==> text@ == "client already has an outstanding directive"@,
        error is Answered ==> text@ == "directive result already exists"@,
{
}

/// What is said of paths that lead elsewhere, and of the version.
pub proof fn lemma_fixed_texts(version: &str, said: String)
    requires
        call_ensures(line, (version,), said),
    ensures
        PATH_MESSAGE@ == "asset path must be a non-empty relative path without parent traversal"@,
        ESCAPE_MESSAGE@ == "asset resolves outside the Termnav provider root"@,
        ROOT_MESSAGE@ == "cannot derive Termnav asset root"@,
        SEGMENT_MESSAGE@ == "runtime directory component must be one path segment"@,
        said@ == "termnav "@ + version@,
{
}

/// What is said of commands that are missing or not known.
pub proof fn lemma_refused_commands(
    arguments: &[String],
    nvim: crate::commands::nvim::Invocation,
    tmux: crate::commands::tmux::Invocation,
    relay: crate::commands::relay::Invocation,
    vscode: crate::commands::vscode::Invocation,
)
    requires
        call_ensures(crate::commands::nvim::invocation, (arguments,), nvim),
        call_ensures(crate::commands::tmux::invocation, (arguments,), tmux),
        call_ensures(crate::commands::relay::invocation, (arguments,), relay),
        call_ensures(crate::commands::vscode::invocation, (arguments,), vscode),
    ensures
        arguments@.len() == 0 ==> nvim is Refused && nvim->Refused_0@
            == "a Neovim command is required"@,
        arguments@.len() == 0 ==> tmux is Refused && tmux->Refused_0@
            == "a tmux command is required"@,
        arguments@.len() == 0 ==> relay is Refused && relay->Refused_0@
            == "a relay command is required"@,
        arguments@.len() == 0 ==> vscode is Refused && vscode->Refused_0@
            == "focus requires an operation and ordered update fields"@,
        ({
            let all = strings(arguments@);
            &&& all.len() == 1 && all[0] == "open"@ ==> nvim is Refused && nvim->Refused_0@
                == "open requires a MODE"@
            &&& all.len() == 1 && all[0] == "ssh-open"@ ==> nvim is Refused && nvim->Refused_0@
                == "ssh-open requires HOST and TARGET"@
            &&& all.len() == 1 && all[0] == "focus"@ ==> tmux is Refused && tmux->Refused_0@
                == "focus requires a command"@
            &&& all.len() == 2 && all[0] == "sweep"@ ==> relay is Refused && relay->Refused_0@
                == "sweep accepts no arguments"@
        }),
{
    assert(strings(arguments@).len() == arguments@.len());
    reveal_strlit("open");
    reveal_strlit("ssh-open");
    reveal_strlit("focus");
    reveal_strlit("sweep");
    reveal_strlit("-h");
    reveal_strlit("--help");
    reveal_strlit("help");
    reveal_strlit("context");
    reveal_strlit("send");
    reveal_strlit("serve");
    reveal_strlit("commit");
    assert("open"@.len() == 4 && "open"@[0] == 'o' && "ssh-open"@.len() == 8 && "focus"@.len() == 5
        && "sweep"@.len() == 5 && "sweep"@[1] == 'w');
    assert("-h"@.len() == 2 && "--help"@.len() == 6 && "help"@.len() == 4 && "help"@[0] == 'h');
    assert("context"@.len() == 7 && "send"@.len() == 4 && "serve"@.len() == 5 && "serve"@[1] == 'e'
        && "commit"@.len() == 6);
}

/// The white space between the variables that `ps` prints, and the escapes of
/// the control characters of JSON.
pub proof fn lemma_small_classes(c: char)
    ensures
        ascii_space(c) <==> c as u32 == 32 || c as u32 == 9 || c as u32 == 10 || c as u32 == 12
            || c as u32 == 13,
        c as u32 == 8 ==> json_char(c) == seq!['\\', 'b'],
        c as u32 == 12 ==> json_char(c) == seq!['\\', 'f'],
        c as u32 == 0 ==> json_char(c) == seq!['\\', 'u', '0', '0', '0', '0'],
        c as u32 == 27 ==> json_char(c) == seq!['\\', 'u', '0', '0', '1', 'b'],
        c as u32 == 31 ==> json_char(c) == seq!['\\', 'u', '0', '0', '1', 'f'],
        hex_digit(0) == '0' && hex_digit(9) == '9' && hex_digit(10) == 'a' && hex_digit(15) == 'f',
{
}

/// A reply looks at the directives of its client in the order of publication,
/// and at the files that hold none after them.
pub proof fn lemma_claim_ranks(entry: Entry, tty: Seq<char>, pid: u32, created: u64)
    ensures
        entry.directive is None ==> claim_rank(entry) == u64::MAX && considered(
            entry,
            tty,
            pid,
            created,
        ),
        entry.directive matches Some(directive) ==> claim_rank(entry) == directive.seq && (
        considered(entry, tty, pid, created) <==> directive.local_client_tty@ == tty
            && directive.local_client_pid == pid && directive.local_client_created == created),
{
}

} // verus!
