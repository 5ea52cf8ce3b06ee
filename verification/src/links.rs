//! Remote-host context shared by hyperlink-producing commands.

use vstd::prelude::*;
use vstd::string::*;

use crate::navigation::system::TmuxOutput;
use crate::text::{
    blank, from_utf8_lossy, opt_str, opt_text, strip_prefix, trim, trim_end, trim_end_where,
    trimmed, utf8_lossy,
};

verus! {

/// The variable that names the host explicitly.
pub const HOST_VARIABLE: &'static str = "TERMNAV_REMOTE_LINK_HOST";

/// A text that is not empty.
pub open spec fn some_text(value: Seq<char>) -> Option<Seq<char>> {
    if value.len() > 0 {
        Some(value)
    } else {
        None
    }
}

/// The host that the tmux server's environment names.
pub open spec fn published_host(output: Option<TmuxOutput>) -> Option<Seq<char>> {
    match output {
        Some(output) if output.success => {
            let line = trim_end_where(utf8_lossy(output.stdout@), blank());
            if "TERMNAV_REMOTE_LINK_HOST="@.is_prefix_of(line) {
                some_text(line.skip("TERMNAV_REMOTE_LINK_HOST="@.len() as int))
            } else {
                None
            }
        },
        _ => None,
    }
}

/// The host that the tmux server's environment names.
pub fn tmux_host(output: &Option<TmuxOutput>) -> (host: Option<String>)
    ensures
        opt_text(host) == published_host(*output),
{
    match output {
        Some(output) => {
            if !output.success {
                return None;
            }
            let text = from_utf8_lossy(output.stdout.as_slice());
            match strip_prefix(trim_end(text.as_str()), "TERMNAV_REMOTE_LINK_HOST=") {
                Some(value) => if value.is_empty() {
                    None
                } else {
                    Some(String::from_str(value))
                },
                None => None,
            }
        },
        None => None,
    }
}

/// The name that a `hostname` command printed.
pub open spec fn printed_name(output: Option<TmuxOutput>) -> Option<Seq<char>> {
    match output {
        Some(output) if output.success => some_text(trimmed(utf8_lossy(output.stdout@))),
        _ => None,
    }
}

/// The name that a `hostname` command printed.
pub fn host_name(output: &Option<TmuxOutput>) -> (host: Option<String>)
    ensures
        opt_text(host) == printed_name(*output),
{
    match output {
        Some(output) => {
            if !output.success {
                return None;
            }
            let text = from_utf8_lossy(output.stdout.as_slice());
            let name = trim(text.as_str());
            if name.is_empty() {
                None
            } else {
                Some(String::from_str(name))
            }
        },
        None => None,
    }
}

/// The remote host of a terminal context: the one that the environment names,
/// else the one that the enclosing tmux server names, else this host where the
/// terminal is on another one.
pub open spec fn context_host(
    explicit: Option<Seq<char>>,
    tmux: Option<Seq<char>>,
    over_ssh: bool,
    short: Option<Seq<char>>,
    full: Option<Seq<char>>,
) -> Option<Seq<char>> {
    if explicit is Some && explicit->0.len() > 0 {
        explicit
    } else if tmux is Some {
        tmux
    } else if over_ssh {
        if short is Some {
            short
        } else {
            full
        }
    } else {
        None
    }
}

/// Return the remote host represented by the current terminal context. `tmux`
/// is what the enclosing tmux server names, `short` and `full` what this host
/// calls itself.
#[must_use]
pub fn remote_host(
    explicit: Option<&str>,
    tmux: Option<&str>,
    over_ssh: bool,
    short: Option<&str>,
    full: Option<&str>,
) -> (host: Option<String>)
    ensures
        opt_text(host) == context_host(
            opt_str(explicit),
            opt_str(tmux),
            over_ssh,
            opt_str(short),
            opt_str(full),
        ),
{
    if let Some(value) = explicit {
        if !value.is_empty() {
            return Some(String::from_str(value));
        }
    }
    if let Some(value) = tmux {
        return Some(String::from_str(value));
    }
    if over_ssh {
        if let Some(value) = short {
            return Some(String::from_str(value));
        }
        if let Some(value) = full {
            return Some(String::from_str(value));
        }
    }
    None
}

/// Return the stable token required by ripgrep's hyperlink template.
#[must_use]
pub fn host(remote: Option<&str>) -> (host: String)
    ensures
        host@ == (match opt_str(remote) {
            Some(host) => host,
            None => "localhost"@,
        }),
{
    match remote {
        Some(host) => String::from_str(host),
        None => String::from_str("localhost"),
    }
}

} // verus!
