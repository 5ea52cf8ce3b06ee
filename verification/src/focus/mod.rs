//! Hierarchical tmux focus leases.
//!
//! Each nested client publishes a short lease only to its immediate parent.
//! Repeating that one-hop rule at every depth produces one highlighted leaf
//! without central topology knowledge. Generation tokens and exact client
//! identity make delayed releases, PID reuse, and shared inner sessions safe.
//!
//! What is changed in tmux is planned in [`style`]; the leases themselves and
//! the identities of their publishers stand here.

pub mod publish;
pub mod style;

pub use publish::{claim, release, start_expirer, sync_client_style, Claim};

use vstd::prelude::*;
use vstd::string::*;

use crate::digest::{digest_name, digest_prefix};
use crate::navigation::system::{is_pane, tmux_identity, identity_of, valid_pane};
use crate::text::{
    chars_of, cut, decimal, decimal_of, find_text, is_blank, joined, lines, lines_of, owned,
    parse_number, parsed, push_decimal, same, split, split_char, split_once, starts_with, strings,
    texts, white_space, words, words_of,
};

verus! {

/// Smallest accepted crash-recovery lease.
pub const LEASE_MIN_MS: u64 = 50;

/// Largest accepted crash-recovery lease.
pub const LEASE_MAX_MS: u64 = 30000;

/// Largest accepted heartbeat interval.
pub const INTERVAL_MAX_MS: u64 = 10000;

/// A focus token: twenty-four lower-case hexadecimal digits.
pub open spec fn is_focus_token(token: Seq<char>) -> bool {
    token.len() == 24 && forall|i: int|
        0 <= i < token.len() ==> crate::digest::is_hex_char(#[trigger] token[i])
}

/// Return whether a focus token is safe inside a tmux format guard.
#[must_use]
pub fn valid_token(token: &str) -> (result: bool)
    ensures
        result == is_focus_token(token@),
{
    let chars = chars_of(token);
    if chars.len() != 24 {
        return false;
    }
    let mut i: usize = 0;
    while i < chars.len()
        invariant
            i <= chars.len(),
            chars@ == token@,
            forall|j: int| 0 <= j < i ==> crate::digest::is_hex_char(#[trigger] token@[j]),
        decreases chars.len() - i,
    {
        let c = chars[i];
        if !(('0' <= c && c <= '9') || ('a' <= c && c <= 'f')) {
            assert(!crate::digest::is_hex_char(token@[i as int]));
            return false;
        }
        i = i + 1;
    }
    true
}

/// The accepted leases.
pub open spec fn lease_bounds(lease_ms: int) -> bool {
    LEASE_MIN_MS <= lease_ms <= LEASE_MAX_MS
}

/// Return whether the crash-recovery lease is bounded.
#[must_use]
pub fn valid_lease(lease_ms: u64) -> (result: bool)
    ensures
        result == lease_bounds(lease_ms as int),
{
    LEASE_MIN_MS <= lease_ms && lease_ms <= LEASE_MAX_MS
}

/// The accepted heartbeat intervals.
pub open spec fn interval_bounds(interval_ms: int) -> bool {
    LEASE_MIN_MS <= interval_ms <= INTERVAL_MAX_MS
}

/// Return whether the heartbeat interval is bounded.
#[must_use]
pub fn valid_interval(interval_ms: u64) -> (result: bool)
    ensures
        result == interval_bounds(interval_ms as int),
{
    LEASE_MIN_MS <= interval_ms && interval_ms <= INTERVAL_MAX_MS
}

/// The lease generation that a text names: a token and a deadline.
pub open spec fn claim_of(value: Seq<char>) -> Option<(Seq<char>, nat)> {
    match cut(value, ':') {
        Some((token, deadline)) => match parsed(deadline, u64::MAX as nat) {
            Some(at) if is_focus_token(token) => Some((token, at)),
            _ => None,
        },
        None => None,
    }
}

/// Read a lease generation.
pub fn parse_claim<'a>(value: &'a str) -> (claim: Option<(&'a str, u64)>)
    ensures
        match claim {
            Some((token, deadline)) => claim_of(value@) == Some((token@, deadline as nat)),
            None => claim_of(value@) is None,
        },
{
    match split_once(value, ':') {
        Some((token, deadline)) => {
            if !valid_token(token) {
                return None;
            }
            match parse_number(deadline, u64::MAX) {
                Some(at) => Some((token, at)),
                None => None,
            }
        },
        None => None,
    }
}

/// The text that names a lease generation.
pub open spec fn claim_text(token: Seq<char>, deadline: nat) -> Seq<char> {
    token + ":"@ + decimal(deadline)
}

/// The text that names a lease generation.
pub fn claim_value(token: &str, deadline: u64) -> (value: String)
    ensures
        value@ == claim_text(token@, deadline as nat),
{
    let mut value = String::from_str(token);
    value.append(":");
    push_decimal(&mut value, deadline);
    value
}

/// A published lease generation is read back as what was published.
pub proof fn lemma_claim_round_trip(token: Seq<char>, deadline: u64)
    requires
        is_focus_token(token),
    ensures
        claim_of(claim_text(token, deadline as nat)) == Some((token, deadline as nat)),
{
    reveal_strlit(":");
    let value = claim_text(token, deadline as nat);
    assert forall|j: int| 0 <= j < token.len() implies !crate::text::just(':')(
        #[trigger] value[j],
    ) by {
        assert(value[j] == token[j]);
        assert(crate::digest::is_hex_char(token[j]));
    }
    assert(value[token.len() as int] == ':');
    crate::text::lemma_first_where(value, crate::text::just(':'), token.len() as int);
    assert(value.take(token.len() as int) =~= token);
    assert(value.skip(token.len() as int + 1) =~= decimal(deadline as nat));
    crate::text::lemma_decimal_round_trip(deadline as nat, u64::MAX as nat);
}

/// When a lease that starts now ends, in nanoseconds.
pub open spec fn deadline_of(now_ns: u64, lease_ms: u64) -> u64 {
    if now_ns + lease_ms * 1000000 <= u64::MAX {
        (now_ns + lease_ms * 1000000) as u64
    } else {
        u64::MAX
    }
}

/// When a lease that starts now ends, in nanoseconds.
pub fn lease_deadline(now_ns: u64, lease_ms: u64) -> (deadline: u64)
    ensures
        deadline == deadline_of(now_ns, lease_ms),
{
    let length: u64 = if lease_ms <= u64::MAX / 1000000 {
        lease_ms * 1000000
    } else {
        u64::MAX
    };
    if now_ns <= u64::MAX - length {
        now_ns + length
    } else {
        u64::MAX
    }
}

/// What the expiry helper does next.
#[derive(Clone, Copy, Debug, PartialEq, Eq, Structural)]
pub enum Expiry {
    /// There is no lease left.
    Stop,
    /// Sleep for that many nanoseconds.
    Sleep(u64),
    /// Clear the lease that has ended.
    Clear,
}

/// Decide what the expiry helper does about the current lease.
pub fn expiry_step(value: Option<&str>, now_ns: u64) -> (step: Expiry)
    ensures
        step == (match value {
            None => Expiry::Stop,
            Some(value) => match claim_of(value@) {
                None => Expiry::Stop,
                Some((_, deadline)) => if deadline > now_ns {
                    Expiry::Sleep((deadline - now_ns) as u64)
                } else {
                    Expiry::Clear
                },
            },
        }),
{
    match value {
        None => Expiry::Stop,
        Some(value) => match parse_claim(value) {
            None => Expiry::Stop,
            Some((_, deadline)) => {
                if deadline > now_ns {
                    Expiry::Sleep(deadline - now_ns)
                } else {
                    Expiry::Clear
                }
            },
        },
    }
}

/// Whether a watcher may run with these timings: a lease must survive one
/// missed heartbeat.
pub fn watch_allowed(lease_ms: u64, interval_ms: u64) -> (result: bool)
    ensures
        result == (lease_bounds(lease_ms as int) && interval_bounds(interval_ms as int) && lease_ms
            >= 2 * interval_ms),
{
    valid_lease(lease_ms) && valid_interval(interval_ms) && lease_ms >= interval_ms * 2
}

/// What one round of a watcher comes to: whether it still has to stop, and
/// whether it goes on. A delayed focus-out may signal the old watcher after a
/// focus-in, so the live tmux state is authoritative.
pub fn watch_round(stopping: bool, focused: Option<bool>) -> (result: (bool, bool))
    ensures
        result.0 == (stopping && focused != Some(true)),
        result.1 == (focused == Some(true)),
{
    let focused = match focused {
        Some(focused) => focused,
        None => false,
    };
    if stopping && focused {
        (false, true)
    } else {
        (stopping, focused)
    }
}

/// The fields of a line at its first two white-space characters.
pub open spec fn three_fields(line: Seq<char>) -> Option<(Seq<char>, Seq<char>, Seq<char>)> {
    let first = crate::text::first_where(line, crate::text::blank());
    let rest = line.skip(first + 1);
    let second = crate::text::first_where(rest, crate::text::blank());
    if first < line.len() && second < rest.len() {
        Some((line.take(first), rest.take(second), rest.skip(second + 1)))
    } else {
        None
    }
}

fn find_blank(value: &str) -> (position: Option<usize>)
    ensures
        match position {
            Some(i) => i < value@.len() && i == crate::text::first_where(
                value@,
                crate::text::blank(),
            ),
            None => crate::text::first_where(value@, crate::text::blank()) == value@.len(),
        },
{
    let chars = chars_of(value);
    let mut i: usize = 0;
    while i < chars.len() && !is_blank(chars[i])
        invariant
            i <= chars.len(),
            chars@ == value@,
            forall|j: int| 0 <= j < i ==> !white_space(#[trigger] chars@[j]),
        decreases chars.len() - i,
    {
        i = i + 1;
    }
    proof {
        crate::text::lemma_first_where(value@, crate::text::blank(), i as int);
    }
    if i < chars.len() {
        Some(i)
    } else {
        None
    }
}

fn split_three<'a>(line: &'a str) -> (fields: Option<(&'a str, &'a str, &'a str)>)
    ensures
        match fields {
            Some((a, b, c)) => three_fields(line@) == Some((a@, b@, c@)),
            None => three_fields(line@) is None,
        },
{
    let first: usize = match find_blank(line) {
        Some(first) => first,
        None => {
            return None;
        },
    };
    let length: usize = line.unicode_len();
    let head = line.substring_char(0, first);
    let rest = line.substring_char(first + 1, length);
    assert(head@ =~= line@.take(first as int));
    assert(rest@ =~= line@.skip(first + 1));
    match find_blank(rest) {
        Some(second) => {
            let length: usize = rest.unicode_len();
            let middle = rest.substring_char(0, second);
            let tail = rest.substring_char(second + 1, length);
            assert(middle@ =~= rest@.take(second as int));
            assert(tail@ =~= rest@.skip(second + 1));
            Some((head, middle, tail))
        },
        None => None,
    }
}

/// Whether the first row that shows the client says that it is focused.
pub open spec fn focus_in(rows: Seq<Seq<char>>, pid: u32, tty: Seq<char>) -> Option<bool>
    decreases rows.len(),
{
    if rows.len() == 0 {
        None
    } else {
        match three_fields(rows[0]) {
            Some((shown_pid, shown_tty, flags)) if shown_pid == decimal(pid as nat) && shown_tty
                == tty => Some(split(flags, ',').contains("focused"@)),
            _ => focus_in(rows.drop_first(), pid, tty),
        }
    }
}

/// Whether an exact client is focused, from a listing of process, tty and
/// flags.
pub fn client_focused(listing: &str, pid: u32, tty: &str) -> (focused: Option<bool>)
    ensures
        focused == focus_in(lines(listing@), pid, tty@),
{
    let rows = lines_of(listing);
    let ghost all = lines(listing@);
    let wanted = decimal_of(pid as u64);
    let mut i: usize = 0;
    assert(all.skip(0) =~= all);
    while i < rows.len()
        invariant
            i <= rows.len(),
            texts(rows@) == all,
            all == lines(listing@),
            wanted@ == decimal(pid as nat),
            focus_in(all, pid, tty@) == focus_in(all.skip(i as int), pid, tty@),
        decreases rows.len() - i,
    {
        assert(all.skip(i as int)[0] == texts(rows@)[i as int]);
        assert(all.skip(i as int).drop_first() =~= all.skip(i + 1));
        if let Some((shown_pid, shown_tty, flags)) = split_three(rows[i]) {
            if same(shown_pid, wanted.as_str()) && same(shown_tty, tty) {
                let flags = split_char(flags, ',');
                return Some(crate::navigation::system::contains_text(&flags, "focused"));
            }
        }
        i = i + 1;
    }
    assert(all.skip(i as int) =~= Seq::empty());
    None
}

/// The pane that the first complete row of the client names.
pub open spec fn pane_in(rows: Seq<Seq<char>>, pid: u32, tty: Seq<char>) -> Option<Seq<char>>
    decreases rows.len(),
{
    if rows.len() == 0 {
        None
    } else {
        let fields = words(rows[0]);
        if fields.len() == 3 && fields[0] == decimal(pid as nat) && fields[1] == tty && is_pane(
            fields[2],
        ) {
            Some(fields[2])
        } else {
            pane_in(rows.drop_first(), pid, tty)
        }
    }
}

/// The pane that an exact client shows, from a listing of process, tty and
/// pane.
pub fn client_pane(listing: &str, pid: u32, tty: &str) -> (pane: Option<String>)
    ensures
        match pane {
            Some(pane) => pane_in(lines(listing@), pid, tty@) == Some(pane@),
            None => pane_in(lines(listing@), pid, tty@) is None,
        },
{
    let rows = lines_of(listing);
    let ghost all = lines(listing@);
    let wanted = decimal_of(pid as u64);
    let mut i: usize = 0;
    assert(all.skip(0) =~= all);
    while i < rows.len()
        invariant
            i <= rows.len(),
            texts(rows@) == all,
            all == lines(listing@),
            wanted@ == decimal(pid as nat),
            pane_in(all, pid, tty@) == pane_in(all.skip(i as int), pid, tty@),
        decreases rows.len() - i,
    {
        assert(all.skip(i as int)[0] == texts(rows@)[i as int]);
        assert(all.skip(i as int).drop_first() =~= all.skip(i + 1));
        let fields = words_of(rows[i]);
        let ghost parts = words(rows@[i as int]@);
        assert(texts(fields@) == parts);
        if fields.len() == 3 {
            assert(parts[0] == fields@[0]@ && parts[1] == fields@[1]@ && parts[2] == fields@[2]@);
            if same(fields[0], wanted.as_str()) && same(fields[1], tty) && valid_pane(fields[2]) {
                return Some(String::from_str(fields[2]));
            }
        }
        i = i + 1;
    }
    assert(all.skip(i as int) =~= Seq::empty());
    None
}

/// Whether a row says that a focused interactive client shows the pane.
pub open spec fn shows_focused(row: Seq<char>, pane: Seq<char>) -> bool {
    words(row) == seq![pane, "1"@, "0"@]
}

/// Whether a focused interactive client shows the pane, from a listing of
/// pane, focus and control mode.
pub fn pane_has_focused_client(listing: &str, pane: &str) -> (result: bool)
    ensures
        result == exists|i: int|
            0 <= i < lines(listing@).len() && shows_focused(#[trigger] lines(listing@)[i], pane@),
{
    let rows = lines_of(listing);
    let ghost all = lines(listing@);
    let mut i: usize = 0;
    while i < rows.len()
        invariant
            i <= rows.len(),
            texts(rows@) == all,
            all == lines(listing@),
            forall|j: int| 0 <= j < i ==> !shows_focused(#[trigger] all[j], pane@),
        decreases rows.len() - i,
    {
        let fields = words_of(rows[i]);
        let ghost parts = words(rows@[i as int]@);
        assert(texts(fields@) == parts);
        assert(all[i as int] == texts(rows@)[i as int]);
        if fields.len() == 3 && same(fields[0], pane) && same(fields[1], "1") && same(
            fields[2],
            "0",
        ) {
            assert(parts[0] == fields@[0]@ && parts[1] == fields@[1]@ && parts[2] == fields@[2]@);
            assert(parts =~= seq![pane@, "1"@, "0"@]);
            return true;
        }
        assert(!shows_focused(all[i as int], pane@)) by {
            if parts == seq![pane@, "1"@, "0"@] {
                assert(parts.len() == 3 && fields@.len() == texts(fields@).len());
                assert(texts(fields@)[0] == fields@[0]@);
                assert(texts(fields@)[1] == fields@[1]@);
                assert(texts(fields@)[2] == fields@[2]@);
                assert(parts[0] == fields@[0]@ && parts[1] == fields@[1]@ && parts[2]
                    == fields@[2]@);
            }
        }
        i = i + 1;
    }
    false
}

/// The arguments by which a watcher of exactly this client is known.
pub open spec fn watcher_words(socket: Seq<char>, pid: Seq<char>, tty: Seq<char>) -> Seq<
    Seq<char>,
> {
    seq![
        "tmux"@,
        "focus"@,
        "watch"@,
        "--tmux-socket"@,
        socket,
        "--client-pid"@,
        pid,
        "--client-tty"@,
        tty,
    ]
}

/// The arguments by which a watcher of exactly this client is known.
pub fn watcher_identity(socket: &str, client_pid: &str, client_tty: &str) -> (identity: Vec<String>)
    ensures
        strings(identity@) == watcher_words(socket@, client_pid@, client_tty@),
{
    let identity = owned(
        &vec![
            "tmux",
            "focus",
            "watch",
            "--tmux-socket",
            socket,
            "--client-pid",
            client_pid,
            "--client-tty",
            client_tty,
        ],
    );
    assert(strings(identity@) =~= watcher_words(socket@, client_pid@, client_tty@));
    identity
}

/// Whether the arguments hold the expected ones, in order and without a gap,
/// from position `i` on.
pub open spec fn run_at(arguments: Seq<Seq<char>>, expected: Seq<Seq<char>>, i: int) -> bool {
    0 <= i && i + expected.len() <= arguments.len() && arguments.subrange(i, i + expected.len())
        == expected
}

/// Whether a process with these arguments is the expected watcher.
pub fn watcher_arguments_match(arguments: &[String], expected: &[String]) -> (result: bool)
    requires
        expected@.len() > 0,
    ensures
        result == exists|i: int| run_at(strings(arguments@), strings(expected@), i),
{
    let ghost all = strings(arguments@);
    let ghost wanted = strings(expected@);
    let mut i: usize = 0;
    while i < arguments.len()
        invariant
            i <= arguments@.len(),
            all == strings(arguments@),
            wanted == strings(expected@),
            expected@.len() > 0,
            forall|j: int| 0 <= j < i ==> !run_at(all, wanted, j),
        decreases arguments.len() - i,
    {
        if expected.len() <= arguments.len() - i {
            let ghost window = all.subrange(i as int, i + wanted.len());
            let mut k: usize = 0;
            while k < expected.len() && same(arguments[i + k].as_str(), expected[k].as_str())
                invariant
                    k <= expected@.len() <= arguments@.len() - i,
                    i < arguments@.len(),
                    i + expected@.len() <= usize::MAX,
                    all == strings(arguments@),
                    wanted == strings(expected@),
                    window == all.subrange(i as int, i + wanted.len()),
                    forall|j: int| 0 <= j < k ==> #[trigger] window[j] == wanted[j],
                decreases expected.len() - k,
            {
                assert(window[k as int] == all[i + k]);
                k = k + 1;
            }
            if k == expected.len() {
                assert(window =~= wanted);
                assert(run_at(all, wanted, i as int));
                return true;
            }
            assert(window[k as int] != wanted[k as int]);
        }
        i = i + 1;
    }
    false
}

/// Whether a command line holds the expected arguments, in order, with single
/// spaces between them.
pub fn watcher_command_matches(command: &str, expected: &[String]) -> (result: bool)
    ensures
        result == (find_text(command@, joined(strings(expected@), " "@), 0) is Some),
{
    let wanted = crate::text::join(expected, " ");
    crate::text::split_once_text(command, wanted.as_str()).is_some()
}

/// The immediate parent of a client, to which its focus is published.
#[derive(Debug, PartialEq, Eq)]
pub enum Parent {
    /// A tmux pane on this host.
    Tmux { socket: String, pane: String },
    /// The relay of the SSH session.
    Relay(String),
}

/// The immediate parent of a client: the tmux pane that its environment names,
/// unless that is its own server, else an absolute relay path.
pub fn parent_for_client(tmux: &str, pane: &str, own_server: bool, relay: Option<&str>) -> (parent:
    Option<Parent>)
    ensures
        match (tmux_identity(tmux@, pane@), relay) {
            (Some((socket, shown)), _) if !own_server => parent matches Some(
                Parent::Tmux { socket: found, pane: named },
            ) && found@ == socket && named@ == shown,
            (_, Some(path)) if "/"@.is_prefix_of(path@) => parent matches Some(Parent::Relay(found))
                && found@ == path@,
            _ => parent is None,
        },
{
    if let Some((socket, pane)) = identity_of(tmux, pane) {
        if !own_server {
            return Some(Parent::Tmux { socket, pane });
        }
    }
    match relay {
        Some(path) => {
            if starts_with(path, "/") {
                Some(Parent::Relay(String::from_str(path)))
            } else {
                None
            }
        },
        None => None,
    }
}

/// The name of the lock that guards one identity, whatever the identity
/// holds.
pub open spec fn lock_file(kind: Seq<char>, identity: Seq<Seq<char>>) -> Seq<char> {
    kind + "-"@ + digest_name(joined(identity, "\0"@), 24) + ".lock"@
}

/// The name of the lock that guards one identity.
pub fn lock_name(kind: &str, identity: &Vec<&str>) -> (name: String)
    ensures
        name@ == lock_file(kind@, texts(identity@)),
{
    let parts = owned(identity);
    let whole = crate::text::join(parts.as_slice(), "\0");
    let mut name = String::from_str(kind);
    name.append("-");
    name.append(digest_prefix(whole.as_str(), 24).as_str());
    name.append(".lock");
    name
}

} // verus!
