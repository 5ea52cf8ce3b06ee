//! Where a gesture goes when it leaves tmux: enclosing processes, the relay of
//! an SSH session, and the terminal application.

use vstd::prelude::*;
use vstd::string::*;

use crate::json::{
    json_object, member_values, text_member, text_of, write_object, Json, Member, MemberValue,
};
use crate::navigation::system::{identity_of, is_pane, tmux_identity, valid_pane, TmuxOutput};
use crate::navigation::{Action, Direction, Outcome, Scope};
use crate::text::{chars_of, from_utf8, owned, same, starts_with, strings, trim, trimmed};
use vstd::set_lib::{lemma_int_range, lemma_len_subset, set_int_range};
use vstd::utf8::{decode_utf8, valid_utf8};

verus! {

/// The arguments that ask for the window that holds a pane.
pub fn window_of_pane_arguments(scope: &Scope) -> (arguments: Vec<String>)
    ensures
        strings(arguments@) == seq![
            "display-message"@,
            "-p"@,
            "-t"@,
            scope.pane@,
            "#{window_id}"@,
        ],
{
    let arguments = owned(
        &vec!["display-message", "-p", "-t", scope.pane.as_str(), "#{window_id}"],
    );
    assert(strings(arguments@) =~= seq![
        "display-message"@,
        "-p"@,
        "-t"@,
        scope.pane@,
        "#{window_id}"@,
    ]);
    arguments
}

/// The arguments that ask for the active pane of a session or window.
pub fn active_pane_arguments(target: &str) -> (arguments: Vec<String>)
    ensures
        strings(arguments@) == seq!["display-message"@, "-p"@, "-t"@, target@, "#{pane_id}"@],
{
    let arguments = owned(&vec!["display-message", "-p", "-t", target, "#{pane_id}"]);
    assert(strings(arguments@) =~= seq![
        "display-message"@,
        "-p"@,
        "-t"@,
        target@,
        "#{pane_id}"@,
    ]);
    arguments
}

/// The trimmed text that a successful tmux command printed.
pub open spec fn answer_text(output: Option<TmuxOutput>) -> Option<Seq<char>> {
    match output {
        Some(output) if output.success && valid_utf8(output.stdout@) => Some(
            trimmed(decode_utf8(output.stdout@)),
        ),
        _ => None,
    }
}

/// The trimmed text that a successful tmux command printed.
pub fn answer(output: &Option<TmuxOutput>) -> (text: Option<String>)
    ensures
        match text {
            Some(text) => answer_text(*output) == Some(text@),
            None => answer_text(*output) is None,
        },
{
    match output {
        Some(output) => {
            if !output.success {
                return None;
            }
            match from_utf8(output.stdout.as_slice()) {
                Some(text) => Some(String::from_str(trim(text.as_str()))),
                None => None,
            }
        },
        None => None,
    }
}

/// The window that tmux named for a pane.
pub fn window_answer(output: &Option<TmuxOutput>) -> (window: Option<String>)
    ensures
        match answer_text(*output) {
            Some(text) if "@"@.is_prefix_of(text) => window is Some && window->0@ == text,
            _ => window is None,
        },
{
    match answer(output) {
        Some(text) => {
            if starts_with(text.as_str(), "@") {
                Some(text)
            } else {
                None
            }
        },
        None => None,
    }
}

/// Follow a retained scope to the active pane that tmux named.
pub fn refreshed_scope(scope: &Scope, output: &Option<TmuxOutput>) -> (refreshed: Option<Scope>)
    ensures
        match answer_text(*output) {
            Some(pane) if is_pane(pane) => refreshed is Some && refreshed->0.socket == scope.socket
                && refreshed->0.session == scope.session && refreshed->0.pane@ == pane,
            _ => refreshed is None,
        },
{
    match answer(output) {
        Some(pane) => {
            if valid_pane(pane.as_str()) {
                Some(
                    Scope {
                        socket: scope.socket.clone(),
                        pane,
                        session: match &scope.session {
                            Some(session) => Some(session.clone()),
                            None => None,
                        },
                    },
                )
            } else {
                None
            }
        },
        None => None,
    }
}

/// What is read of one process: its `TMUX`, its `TMUX_PANE` and its parent.
#[verifier::ext_equal]
pub struct ProcessFacts {
    pub tmux: Seq<char>,
    pub pane: Seq<char>,
    pub parent: Option<u32>,
}

/// The state of a climb: the processes read so far, the one to read now, and
/// the tmux identity that was found.
#[verifier::ext_equal]
pub struct ClimbState {
    pub visited: Seq<u32>,
    pub looking: Option<u32>,
    pub found: Option<(Seq<char>, Seq<char>)>,
}

/// A process that is worth a look: not the init process, and not yet read.
pub open spec fn worth_a_look(visited: Seq<u32>, pid: Option<u32>) -> Option<u32> {
    match pid {
        Some(pid) if pid > 1 && !visited.contains(pid) => Some(pid),
        _ => None,
    }
}

/// A climb that begins at a process.
pub open spec fn climb_start(pid: u32) -> ClimbState {
    ClimbState {
        visited: Seq::empty(),
        looking: worth_a_look(Seq::empty(), Some(pid)),
        found: None,
    }
}

/// The climb after the process it looks at was read: it is over with the first
/// whole identity, and else goes on to the parent.
pub open spec fn climbed(state: ClimbState, facts: ProcessFacts) -> ClimbState {
    match state.looking {
        Some(pid) => {
            let visited = state.visited.push(pid);
            match tmux_identity(facts.tmux, facts.pane) {
                Some(identity) => ClimbState { visited, looking: None, found: Some(identity) },
                None => ClimbState {
                    visited,
                    looking: worth_a_look(visited, facts.parent),
                    found: None,
                },
            }
        },
        None => state,
    }
}

/// The climb after reading the processes of `table` in turn, `n` times.
pub open spec fn climb_in(table: spec_fn(u32) -> ProcessFacts, pid: u32, n: nat) -> ClimbState
    decreases n,
{
    if n == 0 {
        climb_start(pid)
    } else {
        let before = climb_in(table, pid, (n - 1) as nat);
        match before.looking {
            Some(looking) => climbed(before, table(looking)),
            None => before,
        }
    }
}

/// A climb through the ancestors of a process, each looked at once, to the
/// nearest whole tmux identity.
pub struct Ancestry {
    visited: Vec<u32>,
    looking: Option<u32>,
    found: Option<(String, String)>,
}

impl View for Ancestry {
    type V = ClimbState;

    closed spec fn view(&self) -> ClimbState {
        ClimbState {
            visited: self.visited@,
            looking: self.looking,
            found: match self.found {
                Some((socket, pane)) => Some((socket@, pane@)),
                None => None,
            },
        }
    }
}

impl Ancestry {
    /// Begin at a process.
    pub fn new(pid: u32) -> (ancestry: Self)
        ensures
            ancestry@ == climb_start(pid),
    {
        let looking = if pid > 1 {
            Some(pid)
        } else {
            None
        };
        Ancestry { visited: Vec::new(), looking, found: None }
    }

    /// The process to read now, or nothing where the climb is over.
    pub fn look(&self) -> (pid: Option<u32>)
        ensures
            pid == self@.looking,
    {
        self.looking
    }

    /// Take what was read of the process that is looked at.
    pub fn climb(&mut self, tmux: &str, pane: &str, parent: Option<u32>)
        ensures
            final(self)@ == climbed(
                old(self)@,
                (ProcessFacts { tmux: tmux@, pane: pane@, parent }),
            ),
    {
        let pid: u32 = match self.looking {
            Some(pid) => pid,
            None => {
                return;
            },
        };
        self.visited.push(pid);
        self.looking = None;
        self.found = identity_of(tmux, pane);
        if self.found.is_some() {
            return;
        }
        if let Some(next) = parent {
            if next > 1 && !is_among(&self.visited, next) {
                self.looking = Some(next);
            }
        }
    }

    /// The identity that the climb found.
    pub fn found(self) -> (identity: Option<(String, String)>)
        ensures
            match identity {
                Some((socket, pane)) => self@.found == Some((socket@, pane@)),
                None => self@.found is None,
            },
    {
        self.found
    }
}

fn is_among(values: &Vec<u32>, wanted: u32) -> (result: bool)
    ensures
        result == values@.contains(wanted),
{
    let mut i: usize = 0;
    while i < values.len()
        invariant
            i <= values@.len(),
            forall|j: int| 0 <= j < i ==> values@[j] != wanted,
        decreases values.len() - i,
    {
        if values[i] == wanted {
            assert(values@[i as int] == wanted);
            return true;
        }
        i = i + 1;
    }
    false
}

/// The identity that a process names.
pub open spec fn named_by(table: spec_fn(u32) -> ProcessFacts, pid: u32) -> Option<
    (Seq<char>, Seq<char>),
> {
    tmux_identity(table(pid).tmux, table(pid).pane)
}

/// Whether `chain` leads from a process through its parents, without the init
/// process and without a process twice.
pub open spec fn is_ancestry(
    table: spec_fn(u32) -> ProcessFacts,
    pid: u32,
    chain: Seq<u32>,
) -> bool {
    &&& chain.no_duplicates()
    &&& forall|i: int| 0 <= i < chain.len() ==> #[trigger] chain[i] > 1
    &&& chain.len() > 0 ==> chain[0] == pid
    &&& forall|i: int|
        0 < i < chain.len() ==> table(chain[i - 1]).parent == Some(#[trigger] chain[i])
}

/// Whether none of the first `n` processes of a chain names an identity.
pub open spec fn nameless(table: spec_fn(u32) -> ProcessFacts, chain: Seq<u32>, n: int) -> bool {
    forall|i: int| 0 <= i < n ==> named_by(table, #[trigger] chain[i]) is None
}

/// The process that follows a chain from a process.
pub open spec fn beyond(
    table: spec_fn(u32) -> ProcessFacts,
    pid: u32,
    chain: Seq<u32>,
) -> Option<u32> {
    if chain.len() == 0 {
        Some(pid)
    } else {
        table(chain.last()).parent
    }
}

/// Whether an identity is that of the nearest process, from `pid` on through
/// its parents along `chain`, that names a whole one; nothing where the chain
/// ends before.
pub open spec fn is_nearest(
    table: spec_fn(u32) -> ProcessFacts,
    pid: u32,
    chain: Seq<u32>,
    identity: Option<(Seq<char>, Seq<char>)>,
) -> bool {
    &&& is_ancestry(table, pid, chain)
    &&& match identity {
        Some(identity) => chain.len() > 0 && nameless(table, chain, chain.len() - 1) && named_by(
            table,
            chain.last(),
        ) == Some(identity),
        None => nameless(table, chain, chain.len() as int) && worth_a_look(
            chain,
            beyond(table, pid, chain),
        ) is None,
    }
}

/// What a climb has read is a chain of ancestors that name nothing, but for the
/// one it found; what it looks at comes next.
proof fn lemma_climb_in(table: spec_fn(u32) -> ProcessFacts, pid: u32, n: nat)
    ensures
        ({
            let state = climb_in(table, pid, n);
            &&& state.looking is Some ==> state.found is None && is_ancestry(
                table,
                pid,
                state.visited,
            ) && nameless(table, state.visited, state.visited.len() as int) && worth_a_look(
                state.visited,
                beyond(table, pid, state.visited),
            ) == state.looking && state.visited.len() == n
            &&& state.looking is None ==> is_nearest(table, pid, state.visited, state.found)
        }),
    decreases n,
{
    if n > 0 {
        lemma_climb_in(table, pid, (n - 1) as nat);
        let before = climb_in(table, pid, (n - 1) as nat);
        let after = climb_in(table, pid, n);
        if let Some(looking) = before.looking {
            let chain = before.visited.push(looking);
            assert(after.visited == chain);
            assert(is_ancestry(table, pid, chain)) by {
                assert forall|i: int| 0 < i < chain.len() implies table(chain[i - 1]).parent
                    == Some(#[trigger] chain[i]) by {
                    if i < before.visited.len() {
                        assert(before.visited[i] == chain[i]);
                        assert(before.visited[i - 1] == chain[i - 1]);
                    }
                }
            }
            assert(chain.last() == looking);
            assert(nameless(table, chain, chain.len() - 1));
        }
    }
}

/// A climb that is over has found the identity of the nearest process along the
/// ancestry that names a whole one, or nothing where no process does.
pub proof fn lemma_climb_finds_the_nearest(
    table: spec_fn(u32) -> ProcessFacts,
    pid: u32,
    n: nat,
)
    requires
        climb_in(table, pid, n).looking is None,
    ensures
        is_nearest(table, pid, climb_in(table, pid, n).visited, climb_in(table, pid, n).found),
{
    lemma_climb_in(table, pid, n);
}

/// There is one nearest identity, and one chain that leads to it.
pub proof fn lemma_nearest_is_unique(
    table: spec_fn(u32) -> ProcessFacts,
    pid: u32,
    chain: Seq<u32>,
    other: Seq<u32>,
    identity: Option<(Seq<char>, Seq<char>)>,
    another: Option<(Seq<char>, Seq<char>)>,
)
    requires
        is_nearest(table, pid, chain, identity),
        is_nearest(table, pid, other, another),
    ensures
        chain == other,
        identity == another,
{
    if chain.len() <= other.len() {
        lemma_chains_agree(table, pid, chain, other, identity, another);
    } else {
        lemma_chains_agree(table, pid, other, chain, another, identity);
    }
}

proof fn lemma_chains_agree(
    table: spec_fn(u32) -> ProcessFacts,
    pid: u32,
    chain: Seq<u32>,
    other: Seq<u32>,
    identity: Option<(Seq<char>, Seq<char>)>,
    another: Option<(Seq<char>, Seq<char>)>,
)
    requires
        chain.len() <= other.len(),
        is_nearest(table, pid, chain, identity),
        is_nearest(table, pid, other, another),
    ensures
        chain == other,
        identity == another,
{
    lemma_common_prefix(table, pid, chain, other, chain.len() as int);
    assert(other.take(chain.len() as int) =~= chain);
    if chain.len() < other.len() {
        let next = other[chain.len() as int];
        assert(beyond(table, pid, chain) == Some(next));
        assert(next > 1);
        assert(!chain.contains(next)) by {
            if chain.contains(next) {
                let i = choose|i: int| 0 <= i < chain.len() && chain[i] == next;
                assert(other[i] == next);
            }
        }
        if let Some(found) = identity {
            let i = chain.len() - 1;
            assert(other[i] == chain.last());
            assert(named_by(table, other[i]) is None);
        }
    } else {
        assert(chain =~= other);
    }
}

proof fn lemma_common_prefix(
    table: spec_fn(u32) -> ProcessFacts,
    pid: u32,
    chain: Seq<u32>,
    other: Seq<u32>,
    n: int,
)
    requires
        is_ancestry(table, pid, chain),
        is_ancestry(table, pid, other),
        0 <= n <= chain.len() <= other.len(),
    ensures
        forall|i: int| 0 <= i < n ==> chain[i] == other[i],
    decreases n,
{
    if n > 0 {
        lemma_common_prefix(table, pid, chain, other, n - 1);
        if n > 1 {
            assert(table(chain[n - 2]).parent == Some(chain[n - 1]));
            assert(table(other[n - 2]).parent == Some(other[n - 1]));
        }
    }
}

/// Different numbers of one machine word are no more than there are.
proof fn lemma_distinct_numbers(numbers: Seq<u32>)
    requires
        numbers.no_duplicates(),
    ensures
        numbers.len() <= u32::MAX + 1,
{
    let values = numbers.map_values(|n: u32| n as int);
    let all = set_int_range(0, u32::MAX + 1);
    lemma_int_range(0, u32::MAX + 1);
    assert(values.no_duplicates());
    values.unique_seq_to_set();
    assert forall|v: int| values.to_set().contains(v) implies #[trigger] all.contains(v) by {
        let i = choose|i: int| 0 <= i < values.len() && values[i] == v;
        assert(values[i] == numbers[i] as int);
    }
    lemma_len_subset(values.to_set(), all);
}

/// A climb is over at last, for every table of processes: parents that lead in
/// a circle, at any depth, do not hold it.
pub proof fn lemma_climb_ends(table: spec_fn(u32) -> ProcessFacts, pid: u32)
    ensures
        climb_in(table, pid, (u32::MAX + 2) as nat).looking is None,
{
    let n = (u32::MAX + 2) as nat;
    lemma_climb_in(table, pid, n);
    if climb_in(table, pid, n).looking is Some {
        lemma_distinct_numbers(climb_in(table, pid, n).visited);
    }
}

/// The wire name of an action that a relay may carry. A pane move never
/// leaves its host.
pub open spec fn wire_scope(action: Action) -> Option<Seq<char>> {
    match action {
        Action::PaneSelect => Some("pane"@),
        Action::TabSelect => Some("window"@),
        Action::TabMove => Some("move"@),
        Action::PaneMove => None,
    }
}

/// The wire name of an action that a relay may carry.
pub fn relay_scope(action: Action) -> (name: Option<&'static str>)
    ensures
        match name {
            Some(name) => wire_scope(action) == Some(name@),
            None => wire_scope(action) is None,
        },
{
    match action {
        Action::PaneSelect => Some("pane"),
        Action::TabSelect => Some("window"),
        Action::TabMove => Some("move"),
        Action::PaneMove => None,
    }
}

/// The outcome that a relay reports by the `result` of its reply.
pub open spec fn relay_result(result: Option<Seq<char>>) -> Outcome {
    match result {
        Some(result) => if result == "armed"@ || result == "emitted"@ {
            Outcome::Handled
        } else if result == "declined"@ {
            Outcome::Declined
        } else {
            Outcome::Error
        },
        None => Outcome::Error,
    }
}

/// The outcome that a relay reports.
pub fn relay_outcome(reply: &Json) -> (outcome: Outcome)
    ensures
        outcome == relay_result(text_member(reply@, "result"@)),
{
    match text_of(reply, "result") {
        Some(result) => {
            if same(result, "armed") || same(result, "emitted") {
                Outcome::Handled
            } else if same(result, "declined") {
                Outcome::Declined
            } else {
                Outcome::Error
            }
        },
        None => Outcome::Error,
    }
}

/// What is done about the relay of a client's SSH session before it is asked.
#[derive(Clone, Copy, Debug, PartialEq, Eq, Structural)]
pub enum RelayGate {
    /// There is no relay.
    Decline,
    /// The process no longer owns the client's tty.
    Fail,
    /// The relay may be asked.
    Ask,
}

/// Decide about a relay: from the path that the client's process names, and
/// whether that process still owns the client's tty.
pub fn relay_gate(path: Option<&str>, tty_matches: bool) -> (gate: RelayGate)
    ensures
        gate == (match path {
            Some(path) if path@.len() > 0 => if tty_matches {
                RelayGate::Ask
            } else {
                RelayGate::Fail
            },
            _ => RelayGate::Decline,
        }),
{
    match path {
        Some(path) => {
            if path.is_empty() {
                RelayGate::Decline
            } else if tty_matches {
                RelayGate::Ask
            } else {
                RelayGate::Fail
            }
        },
        None => RelayGate::Decline,
    }
}

/// How a terminal application takes a gesture.
#[derive(Debug, PartialEq, Eq)]
pub enum TerminalPlan {
    /// It is decided without asking the terminal.
    Decided(Outcome),
    /// The VS Code extension is asked through its socket.
    VscodeSocket,
    /// The VS Code devserver is asked.
    VscodeMcp,
    /// A user variable of this name carries the gesture.
    UserVar(&'static str),
}

/// What a [`TerminalPlan`] says.
#[verifier::ext_equal]
pub enum TerminalRoute {
    Decided(Outcome),
    VscodeSocket,
    VscodeMcp,
    UserVar(Seq<char>),
}

impl View for TerminalPlan {
    type V = TerminalRoute;

    open spec fn view(&self) -> TerminalRoute {
        match self {
            TerminalPlan::Decided(outcome) => TerminalRoute::Decided(*outcome),
            TerminalPlan::VscodeSocket => TerminalRoute::VscodeSocket,
            TerminalPlan::VscodeMcp => TerminalRoute::VscodeMcp,
            TerminalPlan::UserVar(name) => TerminalRoute::UserVar(name@),
        }
    }
}

/// What the terminal is known by.
pub struct TerminalFacts<'a> {
    /// The terminal type of the client.
    pub termtype: &'a str,
    /// `TERM_PROGRAM` of the client.
    pub term_program: &'a str,
    /// `TERMNAV_VSCODE_SOCKET` of the client.
    pub vscode_socket: &'a str,
    /// `TERMNAV_VSCODE_TOKEN` of the client.
    pub vscode_token: &'a str,
    /// `TERMNAV_VSCODE_FALLBACK_BACKEND` of the client.
    pub vscode_fallback: &'a str,
}

/// Whether the terminal is VS Code.
pub open spec fn in_vscode(termtype: Seq<char>, term_program: Seq<char>) -> bool {
    "xterm.js"@.is_prefix_of(termtype) || term_program == "vscode"@
}

/// A per-window token: sixty-four hexadecimal digits.
pub open spec fn is_token(token: Seq<char>) -> bool {
    token.len() == 64 && forall|i: int| 0 <= i < 64 ==> is_hex_digit(#[trigger] token[i])
}

/// Whether a character is a hexadecimal digit.
pub open spec fn is_hex_digit(c: char) -> bool {
    '0' <= c <= '9' || 'a' <= c <= 'f' || 'A' <= c <= 'F'
}

/// Whether a text consists of that many hexadecimal digits.
pub fn hex_digits(value: &str, width: usize) -> (result: bool)
    ensures
        result == (value@.len() == width && forall|i: int|
            0 <= i < value@.len() ==> is_hex_digit(#[trigger] value@[i])),
{
    let chars = chars_of(value);
    if chars.len() != width {
        return false;
    }
    let mut i: usize = 0;
    while i < chars.len()
        invariant
            i <= chars.len(),
            chars@ == value@,
            forall|j: int| 0 <= j < i ==> is_hex_digit(#[trigger] value@[j]),
        decreases chars.len() - i,
    {
        let c = chars[i];
        if !(('0' <= c && c <= '9') || ('a' <= c && c <= 'f') || ('A' <= c && c <= 'F')) {
            assert(!is_hex_digit(value@[i as int]));
            return false;
        }
        i = i + 1;
    }
    true
}

/// How a terminal application takes a gesture. VS Code owns its panes and tab
/// order, so only a tab selection is handed to it; an enclosing tmux already
/// had its chance; elsewhere a user variable carries the gesture.
pub open spec fn terminal_route(action: Action, facts: TerminalFacts) -> TerminalRoute {
    if action is PaneMove {
        TerminalRoute::Decided(Outcome::Declined)
    } else if in_vscode(facts.termtype@, facts.term_program@) {
        if !(action is TabSelect) {
            TerminalRoute::Decided(Outcome::Handled)
        } else if facts.vscode_socket@.len() > 0 {
            if is_token(facts.vscode_token@) {
                TerminalRoute::VscodeSocket
            } else {
                TerminalRoute::Decided(Outcome::Error)
            }
        } else if facts.vscode_fallback@ == "mcp"@ {
            TerminalRoute::VscodeMcp
        } else {
            TerminalRoute::Decided(Outcome::Error)
        }
    } else if "tmux"@.is_prefix_of(facts.termtype@) || "screen"@.is_prefix_of(facts.termtype@)
        || action is PaneSelect {
        TerminalRoute::Decided(Outcome::Handled)
    } else if action is TabSelect {
        TerminalRoute::UserVar("TERMNAV_TAB_SELECT"@)
    } else {
        TerminalRoute::UserVar("TERMNAV_TAB_MOVE"@)
    }
}

/// Plan how a terminal application takes a gesture.
pub fn terminal_plan(action: Action, facts: &TerminalFacts) -> (plan: TerminalPlan)
    ensures
        plan@ == terminal_route(action, *facts),
{
    if matches!(action, Action::PaneMove) {
        return TerminalPlan::Decided(Outcome::Declined);
    }
    if starts_with(facts.termtype, "xterm.js") || same(facts.term_program, "vscode") {
        if !matches!(action, Action::TabSelect) {
            return TerminalPlan::Decided(Outcome::Handled);
        }
        if !facts.vscode_socket.is_empty() {
            return if hex_digits(facts.vscode_token, 64) {
                TerminalPlan::VscodeSocket
            } else {
                TerminalPlan::Decided(Outcome::Error)
            };
        }
        return if same(facts.vscode_fallback, "mcp") {
            TerminalPlan::VscodeMcp
        } else {
            TerminalPlan::Decided(Outcome::Error)
        };
    }
    if starts_with(facts.termtype, "tmux") || starts_with(facts.termtype, "screen") {
        return TerminalPlan::Decided(Outcome::Handled);
    }
    match action {
        Action::PaneSelect => TerminalPlan::Decided(Outcome::Handled),
        Action::TabSelect => TerminalPlan::UserVar("TERMNAV_TAB_SELECT"),
        _ => TerminalPlan::UserVar("TERMNAV_TAB_MOVE"),
    }
}

/// The outcome of a delivery that succeeded or failed.
pub fn delivered(success: bool) -> (outcome: Outcome)
    ensures
        outcome == (if success {
            Outcome::Handled
        } else {
            Outcome::Error
        }),
{
    if success {
        Outcome::Handled
    } else {
        Outcome::Error
    }
}

/// The JSON that asks the VS Code extension to switch tabs.
pub open spec fn switch_tab_body(direction: Direction, token: Seq<char>) -> Seq<char> {
    json_object(
        seq![
            ("direction"@, MemberValue::Text(direction.name())),
            ("token"@, MemberValue::Text(token)),
        ],
    )
}

/// The JSON that asks the VS Code extension to switch tabs.
pub fn switch_tab_request(direction: Direction, token: &str) -> (body: String)
    ensures
        body@ == switch_tab_body(direction, token@),
{
    let members: Vec<(&str, Member)> = vec![
        ("direction", Member::Text(String::from_str(direction.as_str()))),
        ("token", Member::Text(String::from_str(token))),
    ];
    assert(member_values(members@) =~= seq![
        ("direction"@, MemberValue::Text(direction.name())),
        ("token"@, MemberValue::Text(token@)),
    ]);
    write_object(&members)
}

/// The value of the user variable that carries a gesture: the direction, then
/// a stamp that makes each request distinct.
pub fn user_var_value(direction: Direction, stamp: &str) -> (value: String)
    ensures
        value@ == direction.name() + ":"@ + stamp@,
{
    let mut value = String::from_str(direction.as_str());
    value.append(":");
    value.append(stamp);
    value
}

} // verus!
