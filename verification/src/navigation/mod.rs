//! Topology-independent navigation policy.
//!
//! This module does not know how to invoke tmux, contact an SSH relay, or emit
//! a terminal escape sequence. Those mechanisms live behind [`Backend`]. The
//! traversal order itself is the transition system of [`walk`].

pub mod journal;
pub mod mcp;
pub mod outer;
pub mod system;
pub mod walk;

pub use crate::navigation::system::parse_clients;

use vstd::prelude::*;
use vstd::string::*;

use crate::navigation::journal::{
    calls_of, carried_out, looked_up, observed, owned_client, remembering, Call,
};
use crate::navigation::walk::{Reply, Request, Walk};
use crate::text::same;

verus! {

/// Stable outcome values used by tmux, Neovim, relay, and terminal adapters.
#[derive(Clone, Copy, Debug, PartialEq, Eq, Structural)]
pub enum Outcome {
    /// One scope accepted the gesture.
    Handled,
    /// Identity or transport uncertainty made routing unsafe.
    Error,
    /// This scope cannot perform the gesture, so its parent may try.
    Declined,
}

impl Outcome {
    /// The process exit code that carries this outcome.
    pub open spec fn exit_code(self) -> i32 {
        match self {
            Outcome::Handled => 0,
            Outcome::Error => 1,
            Outcome::Declined => 3,
        }
    }

    /// The process exit code that carries this outcome.
    pub fn code(self) -> (code: i32)
        ensures
            code == self.exit_code(),
    {
        match self {
            Outcome::Handled => 0,
            Outcome::Error => 1,
            Outcome::Declined => 3,
        }
    }
}

/// Semantic operation requested by a key chord.
#[derive(Clone, Copy, Debug, PartialEq, Eq, Structural)]
pub enum Action {
    /// Select an adjacent editor or tmux pane.
    PaneSelect,
    /// Swap the active pane with one directional neighbor on this host.
    PaneMove,
    /// Select the previous or next tab/window.
    TabSelect,
    /// Reorder the current tab/window.
    TabMove,
}

impl Action {
    /// The canonical CLI spelling.
    pub open spec fn name(self) -> Seq<char> {
        match self {
            Action::PaneSelect => "pane-select"@,
            Action::PaneMove => "pane-move"@,
            Action::TabSelect => "tab-select"@,
            Action::TabMove => "tab-move"@,
        }
    }

    /// Parse the canonical public command spelling.
    ///
    /// Relay protocol spellings live at the relay boundary; they are wire
    /// details and no part of the command vocabulary.
    pub fn parse(value: &str) -> (result: Result<Self, String>)
        ensures
            match result {
                Ok(action) => action.name() == value@,
                Err(message) => {
                    &&& forall|action: Action| action.name() != value@
                    &&& message@ == "invalid navigation action: "@ + value@
                },
            },
    {
        if same(value, "pane-select") {
            Ok(Action::PaneSelect)
        } else if same(value, "pane-move") {
            Ok(Action::PaneMove)
        } else if same(value, "tab-select") {
            Ok(Action::TabSelect)
        } else if same(value, "tab-move") {
            Ok(Action::TabMove)
        } else {
            let mut message = String::from_str("invalid navigation action: ");
            message.append(value);
            Err(message)
        }
    }

    /// Return the canonical CLI spelling.
    #[must_use]
    pub fn as_str(self) -> (name: &'static str)
        ensures
            name@ == self.name(),
    {
        match self {
            Action::PaneSelect => "pane-select",
            Action::PaneMove => "pane-move",
            Action::TabSelect => "tab-select",
            Action::TabMove => "tab-move",
        }
    }
}

/// Direction vocabulary shared by every navigation scope.
#[derive(Clone, Copy, Debug, PartialEq, Eq, Structural)]
pub enum Direction {
    /// Move left.
    Left,
    /// Move down.
    Down,
    /// Move up.
    Up,
    /// Move right.
    Right,
    /// Select the next tab/window.
    Next,
    /// Select the previous tab/window.
    Previous,
}

impl Direction {
    /// The canonical CLI and wire spelling.
    pub open spec fn name(self) -> Seq<char> {
        match self {
            Direction::Left => "left"@,
            Direction::Down => "down"@,
            Direction::Up => "up"@,
            Direction::Right => "right"@,
            Direction::Next => "next"@,
            Direction::Previous => "previous"@,
        }
    }

    /// Whether `action` gives this direction a meaning.
    pub open spec fn suits(self, action: Action) -> bool {
        match action {
            Action::PaneSelect | Action::PaneMove => {
                self is Left || self is Down || self is Up || self is Right
            },
            Action::TabSelect => self is Next || self is Previous,
            Action::TabMove => self is Left || self is Right,
        }
    }

    /// The message that refuses `value` as a direction of `action`.
    pub open spec fn refusal(action: Action, value: Seq<char>) -> Seq<char> {
        "invalid "@ + action.name() + " direction: "@ + value
    }

    /// Parse a direction and reject combinations that the action cannot mean.
    pub fn parse(action: Action, value: &str) -> (result: Result<Self, String>)
        ensures
            match result {
                Ok(direction) => direction.suits(action) && direction.name() == value@,
                Err(message) => {
                    &&& forall|direction: Direction|
                        direction.suits(action) ==> direction.name() != value@
                    &&& message@ == Direction::refusal(action, value@)
                },
            },
    {
        proof {
            lemma_direction_names_distinct();
        }
        let direction = if same(value, "left") {
            Some(Direction::Left)
        } else if same(value, "down") {
            Some(Direction::Down)
        } else if same(value, "up") {
            Some(Direction::Up)
        } else if same(value, "right") {
            Some(Direction::Right)
        } else if same(value, "next") {
            Some(Direction::Next)
        } else if same(value, "previous") {
            Some(Direction::Previous)
        } else {
            None
        };
        if let Some(direction) = direction {
            assert(direction.name() == value@);
            let valid = match action {
                Action::PaneSelect | Action::PaneMove => matches!(
                    direction,
                    Direction::Left | Direction::Down | Direction::Up | Direction::Right
                ),
                Action::TabSelect => matches!(direction, Direction::Next | Direction::Previous),
                Action::TabMove => matches!(direction, Direction::Left | Direction::Right),
            };
            if valid {
                return Ok(direction);
            }
        }
        let mut message = String::from_str("invalid ");
        message.append(action.as_str());
        message.append(" direction: ");
        message.append(value);
        Err(message)
    }

    /// Return the canonical CLI and wire spelling.
    #[must_use]
    pub fn as_str(self) -> (name: &'static str)
        ensures
            name@ == self.name(),
    {
        match self {
            Direction::Left => "left",
            Direction::Down => "down",
            Direction::Up => "up",
            Direction::Right => "right",
            Direction::Next => "next",
            Direction::Previous => "previous",
        }
    }
}

/// Two actions share no spelling.
pub proof fn lemma_action_names_distinct()
    ensures
        forall|a: Action, b: Action| #[trigger] a.name() == #[trigger] b.name() ==> a == b,
{
    reveal_strlit("pane-select");
    reveal_strlit("pane-move");
    reveal_strlit("tab-select");
    reveal_strlit("tab-move");
    assert forall|a: Action, b: Action| #[trigger] a.name() == #[trigger] b.name() implies a
        == b by {
        assert(a.name()[0] == b.name()[0]);
        assert(a.name()[5] == b.name()[5]);
        assert(a.name()[4] == b.name()[4]);
    }
}

/// Two directions share no spelling.
pub proof fn lemma_direction_names_distinct()
    ensures
        forall|a: Direction, b: Direction|
            #[trigger] a.name() == #[trigger] b.name() ==> a == b,
{
    reveal_strlit("left");
    reveal_strlit("down");
    reveal_strlit("up");
    reveal_strlit("right");
    reveal_strlit("next");
    reveal_strlit("previous");
    assert forall|a: Direction, b: Direction| #[trigger] a.name() == #[trigger] b.name() implies a
        == b by {
        assert(a.name()[0] == b.name()[0]);
    }
}

/// One tmux pane together with the optional session that gives tabs meaning.
#[derive(Debug, PartialEq, Eq)]
pub struct Scope {
    /// Explicit tmux server socket.
    pub socket: String,
    /// Globally stable pane identifier.
    pub pane: String,
    /// Session identity required for session-relative window operations.
    pub session: Option<String>,
}

impl Clone for Scope {
    fn clone(&self) -> (copy: Self)
        ensures
            copy == *self,
    {
        Scope { socket: self.socket.clone(), pane: self.pane.clone(), session: match &self.session {
            Some(session) => Some(session.clone()),
            None => None,
        } }
    }
}

impl Scope {
    /// The cycle identity shared by linked sessions: the socket and the pane.
    pub open spec fn key(self) -> Seq<char> {
        self.socket@ + ":"@ + self.pane@
    }

    /// Return the cycle identity shared by linked sessions.
    ///
    /// Pane IDs are server-global, whereas a session-qualified target is not:
    /// one window can be linked into multiple sessions.
    #[must_use]
    pub fn identity(&self) -> (identity: String)
        ensures
            identity@ == self.key(),
    {
        let mut identity = self.socket.clone();
        identity.append(":");
        identity.append(self.pane.as_str());
        identity
    }

    /// The target form tmux needs for session-relative operations.
    pub open spec fn address(self) -> Seq<char> {
        match self.session {
            Some(session) => session@ + ":."@ + self.pane@,
            None => self.pane@,
        }
    }

    /// Return the target form tmux needs for session-relative operations.
    #[must_use]
    pub fn target(&self) -> (target: String)
        ensures
            target@ == self.address(),
    {
        match &self.session {
            Some(session) => {
                let mut target = session.clone();
                target.append(":.");
                target.append(self.pane.as_str());
                target
            },
            None => self.pane.clone(),
        }
    }
}

/// Physical tmux client identity capable of carrying a gesture outward.
#[derive(Debug, PartialEq, Eq)]
pub struct Client {
    /// Last activity timestamp reported by tmux.
    pub activity: u64,
    /// Client process ID.
    pub pid: u32,
    /// Client tty path.
    pub tty: String,
    /// Client terminal type.
    pub termtype: String,
    /// Session currently displayed by the client.
    pub session: String,
    /// Active pane currently displayed by the client.
    pub pane: String,
    /// Whether tmux reports this client focused.
    pub focused: bool,
    /// Whether this is a control-mode client with no interactive UI ownership.
    pub control: bool,
    /// Explicit tmux server socket.
    pub socket: String,
    /// Whether the caller supplied exact physical provenance.
    pub exact: bool,
    /// Client creation timestamp used to reject PID/tty reuse.
    pub created: u64,
}

impl Clone for Client {
    fn clone(&self) -> (copy: Self)
        ensures
            copy == *self,
    {
        Client {
            activity: self.activity,
            pid: self.pid,
            tty: self.tty.clone(),
            termtype: self.termtype.clone(),
            session: self.session.clone(),
            pane: self.pane.clone(),
            focused: self.focused,
            control: self.control,
            socket: self.socket.clone(),
            exact: self.exact,
            created: self.created,
        }
    }
}

/// Result plus provenance safe to retain for the next item in a short burst.
#[derive(Debug, PartialEq, Eq)]
pub struct RouteResult {
    /// Routing result.
    pub outcome: Outcome,
    /// Physical client selected at the outer edge, if one was unambiguous.
    pub client: Option<Client>,
    /// Logical tmux scope that handled the gesture, if applicable.
    pub scope: Option<Scope>,
}

impl Clone for RouteResult {
    fn clone(&self) -> (copy: Self)
        ensures
            copy == *self,
    {
        RouteResult {
            outcome: self.outcome,
            client: match &self.client {
                Some(client) => Some(client.clone()),
                None => None,
            },
            scope: match &self.scope {
                Some(scope) => Some(scope.clone()),
                None => None,
            },
        }
    }
}

/// The client at `i` is the only one that is not in control mode.
pub open spec fn only_interactive(clients: Seq<Client>, i: int) -> bool {
    &&& 0 <= i < clients.len()
    &&& !clients[i].control
    &&& forall|j: int| 0 <= j < clients.len() && !clients[j].control ==> j == i
}

/// The client at `i` is the only interactive one that claims focus.
pub open spec fn only_focused(clients: Seq<Client>, i: int) -> bool {
    &&& 0 <= i < clients.len()
    &&& !clients[i].control && clients[i].focused
    &&& forall|j: int|
        0 <= j < clients.len() && !clients[j].control && clients[j].focused ==> j == i
}

/// No interactive client claims focus.
pub open spec fn none_focused(clients: Seq<Client>) -> bool {
    forall|j: int| 0 <= j < clients.len() && !clients[j].control ==> !clients[j].focused
}

/// The client at `i` was active later than every other interactive one.
pub open spec fn strictly_newest(clients: Seq<Client>, i: int) -> bool {
    &&& 0 <= i < clients.len()
    &&& !clients[i].control
    &&& forall|j: int|
        0 <= j < clients.len() && !clients[j].control && j != i ==> clients[j].activity
            < clients[i].activity
}

/// The client at `i` is the safe physical owner of a gesture: the sole
/// attachment, else the sole focused one, else, while nothing claims focus,
/// the one with the strictly newest activity within `freshness_seconds`.
pub open spec fn is_safe_choice(
    clients: Seq<Client>,
    started_at: u64,
    freshness_seconds: u64,
    i: int,
) -> bool {
    ||| only_interactive(clients, i)
    ||| only_focused(clients, i)
    ||| {
        &&& none_focused(clients)
        &&& strictly_newest(clients, i)
        &&& clients[i].activity <= started_at <= clients[i].activity + freshness_seconds
    }
}

/// At most one position is a safe choice, so the selection never depends on
/// which of several attachments was listed first.
pub proof fn lemma_safe_choice_unique(
    clients: Seq<Client>,
    started_at: u64,
    freshness_seconds: u64,
    i: int,
    j: int,
)
    requires
        is_safe_choice(clients, started_at, freshness_seconds, i),
        is_safe_choice(clients, started_at, freshness_seconds, j),
    ensures
        i == j,
{
}

/// A control-mode client is never a safe choice.
pub proof fn lemma_safe_choice_is_interactive(
    clients: Seq<Client>,
    started_at: u64,
    freshness_seconds: u64,
    i: int,
)
    requires
        is_safe_choice(clients, started_at, freshness_seconds, i),
    ensures
        !clients[i].control,
{
}

/// The selection does not depend on the order in which tmux lists clients:
/// whatever is safe at one position of a listing is safe at the position it
/// has in a rearranged listing.
pub proof fn lemma_safe_choice_order_independent(
    clients: Seq<Client>,
    rearranged: Seq<Client>,
    place: Seq<int>,
    started_at: u64,
    freshness_seconds: u64,
    i: int,
)
    requires
        clients.len() == rearranged.len() == place.len(),
        forall|k: int| 0 <= k < place.len() ==> 0 <= #[trigger] place[k] < place.len(),
        forall|k: int, l: int| 0 <= k < l < place.len() ==> place[k] != place[l],
        forall|k: int|
            0 <= k < place.len() ==> #[trigger] rearranged[k] == clients[place[k]],
        0 <= i < place.len(),
        is_safe_choice(clients, started_at, freshness_seconds, place[i]),
    ensures
        is_safe_choice(rearranged, started_at, freshness_seconds, i),
{
}

/// Whether `choice` is the safe client among `clients`, or nothing where no
/// client is safe.
pub open spec fn is_choice(
    clients: Seq<Client>,
    started_at: u64,
    freshness_seconds: u64,
    choice: Option<Client>,
) -> bool {
    match choice {
        Some(client) => exists|i: int|
            #[trigger] is_safe_choice(clients, started_at, freshness_seconds, i) && client
                == clients[i],
        None => forall|i: int|
            !#[trigger] is_safe_choice(clients, started_at, freshness_seconds, i),
    }
}

/// The choice is unique.
pub proof fn lemma_choice_unique(
    clients: Seq<Client>,
    started_at: u64,
    freshness_seconds: u64,
    a: Option<Client>,
    b: Option<Client>,
)
    requires
        is_choice(clients, started_at, freshness_seconds, a),
        is_choice(clients, started_at, freshness_seconds, b),
    ensures
        a == b,
{
    if let (Some(x), Some(y)) = (a, b) {
        let i = choose|i: int|
            #[trigger] is_safe_choice(clients, started_at, freshness_seconds, i) && x
                == clients[i];
        let j = choose|j: int|
            #[trigger] is_safe_choice(clients, started_at, freshness_seconds, j) && y
                == clients[j];
        lemma_safe_choice_unique(clients, started_at, freshness_seconds, i, j);
    }
}

/// Select a physical client without guessing through ambiguous attachments.
#[must_use]
pub fn choose_client(clients: &[Client], started_at: u64, freshness_seconds: u64) -> (choice: Option<
    Client,
>)
    ensures
        is_choice(clients@, started_at, freshness_seconds, choice),
{
    let mut sole: Option<usize> = None;
    let mut several = false;
    let mut focused: Option<usize> = None;
    let mut several_focused = false;
    let mut newest: Option<usize> = None;
    let mut tied = false;
    let mut k: usize = 0;
    while k < clients.len()
        invariant
            k <= clients.len(),
            match sole {
                Some(i) => {
                    &&& i < k && !clients[i as int].control
                    &&& forall|j: int| 0 <= j < i ==> clients[j].control
                    &&& several <==> exists|j: int| i < j < k && !clients[j].control
                },
                None => !several && forall|j: int| 0 <= j < k ==> clients[j].control,
            },
            match focused {
                Some(i) => {
                    &&& i < k && !clients[i as int].control && clients[i as int].focused
                    &&& forall|j: int| 0 <= j < i && !clients[j].control ==> !clients[j].focused
                    &&& several_focused <==> exists|j: int|
                        i < j < k && !clients[j].control && clients[j].focused
                },
                None => !several_focused && forall|j: int|
                    0 <= j < k && !clients[j].control ==> !clients[j].focused,
            },
            match newest {
                Some(i) => {
                    &&& i < k && !clients[i as int].control
                    &&& forall|j: int|
                        0 <= j < k && !clients[j].control ==> clients[j].activity
                            <= clients[i as int].activity
                    &&& tied <==> exists|j: int|
                        0 <= j < k && j != i && !clients[j].control && clients[j].activity
                            == clients[i as int].activity
                },
                None => !tied && forall|j: int| 0 <= j < k ==> clients[j].control,
            },
        decreases clients.len() - k,
    {
        let client = &clients[k];
        if !client.control {
            if sole.is_some() {
                several = true;
            } else {
                sole = Some(k);
            }
            if client.focused {
                if focused.is_some() {
                    several_focused = true;
                } else {
                    focused = Some(k);
                }
            }
            if let Some(i) = newest {
                if client.activity > clients[i].activity {
                    newest = Some(k);
                    tied = false;
                } else if client.activity == clients[i].activity {
                    tied = true;
                }
            } else {
                newest = Some(k);
            }
        }
        k = k + 1;
    }
    if let Some(i) = sole {
        if !several {
            assert(is_safe_choice(clients@, started_at, freshness_seconds, i as int));
            return Some(clients[i].clone());
        }
    } else {
        return None;
    }
    // Focus is stronger than activity. When more than one terminal claims
    // focus, picking either would turn inconsistent external state into a
    // potentially destructive navigation action, so ambiguity stops here.
    if let Some(i) = focused {
        if several_focused {
            return None;
        }
        assert(is_safe_choice(clients@, started_at, freshness_seconds, i as int));
        return Some(clients[i].clone());
    }
    // Some terminals briefly omit focus during handoff. Recency is therefore
    // allowed only as a bounded compatibility fallback.
    if let Some(i) = newest {
        let activity = clients[i].activity;
        if tied || activity > started_at || started_at - activity > freshness_seconds {
            return None;
        }
        assert(is_safe_choice(clients@, started_at, freshness_seconds, i as int));
        return Some(clients[i].clone());
    }
    None
}

/// Side-effect boundary for the topology-independent router.
///
/// Implementations must fail closed when identity cannot be revalidated. A
/// stale focus snapshot is never permission to route through whichever client
/// happens to look newest later.
///
/// A backend remembers the calls of its methods in turn, but for those of the
/// two refresh hooks.
pub trait Backend {
    /// The calls that were made so far. The default says nothing of them, so a
    /// verified backend states what it remembers.
    open spec fn calls(&self) -> Seq<Call> {
        arbitrary()
    }

    /// Return the tmux scope containing the caller, if any.
    fn current_scope(&mut self) -> (scope: Option<Scope>)
        ensures
            final(self).calls() == old(self).calls().push(
                looked_up(Request::CurrentScope, Reply::Scope(scope)),
            ),
    ;

    /// Try the operation inside one tmux scope.
    fn execute(&mut self, scope: &Scope, action: Action, direction: Direction) -> (outcome: Outcome)
        ensures
            final(self).calls() == old(self).calls().push(
                carried_out(Request::Execute(*scope), action, direction, outcome),
            ),
    ;

    /// Select the one safe physical client displaying a logical scope.
    fn resolve_client(&mut self, scope: &Scope, started_at: u64) -> (client: Option<Client>)
        ensures
            final(self).calls() == old(self).calls().push(
                observed(Request::ResolveClient(*scope), started_at, Reply::Client(client)),
            ),
    ;

    /// Refresh previously retained physical provenance for a queued request.
    fn refresh_client(&mut self, client: &Client) -> (refreshed: Option<Client>)
        ensures
            final(self).calls() == old(self).calls(),
        default_ensures
            refreshed == Some(*client),
    {
        Some(client.clone())
    }

    /// Resolve session ownership and optional physical provenance in one read.
    fn inspect_scope(&mut self, scope: &Scope, started_at: u64) -> (found: (
        Option<Scope>,
        Option<Client>,
    ))
        ensures
            final(self).calls() == old(self).calls().push(
                observed(
                    Request::InspectScope(*scope),
                    started_at,
                    Reply::Inspection(found.0, found.1),
                ),
            ),
    ;

    /// Follow a retained logical scope to its currently active pane.
    fn refresh_scope(&mut self, scope: &Scope) -> (refreshed: Option<Scope>)
        ensures
            final(self).calls() == old(self).calls(),
        default_ensures
            refreshed == Some(*scope),
    {
        Some(scope.clone())
    }

    /// Revalidate a client immediately before following its process ancestry.
    fn validate_client(&mut self, client: &Client, started_at: u64) -> (valid: bool)
        ensures
            final(self).calls() == old(self).calls().push(
                observed(Request::ValidateClient(*client), started_at, Reply::Valid(valid)),
            ),
    ;

    /// Return the nearest enclosing tmux scope in the client's process tree.
    fn parent_scope(&mut self, client: &Client) -> (parent: Option<Scope>)
        ensures
            final(self).calls() == old(self).calls().push(
                looked_up(Request::ParentScope(*client), Reply::Scope(parent)),
            ),
    ;

    /// Ask the parent SSH transport to continue routing.
    fn relay(&mut self, client: &Client, action: Action, direction: Direction) -> (outcome: Outcome)
        ensures
            final(self).calls() == old(self).calls().push(
                carried_out(Request::Relay(*client), action, direction, outcome),
            ),
    ;

    /// Offer the gesture to the outer terminal application.
    fn terminal(
        &mut self,
        client: Option<&Client>,
        action: Action,
        direction: Direction,
    ) -> (outcome: Outcome)
        ensures
            final(self).calls() == old(self).calls().push(
                carried_out(Request::Terminal(owned_client(client)), action, direction, outcome),
            ),
    ;
}

/// Whether a backend, taken from its state before a call to the one after it,
/// gave `reply` to a request of the gesture: the reply is what the one method
/// that the request stands for returned, handed the scope or client of the
/// request, the gesture and its start.
#[verifier::opaque]
pub open spec fn given<B: Backend>(
    backend: &mut B,
    request: Request,
    action: Action,
    direction: Direction,
    started_at: u64,
    reply: Reply,
) -> bool {
    match (request, reply) {
        (Request::CurrentScope, Reply::Scope(scope)) => call_ensures(
            B::current_scope,
            (backend,),
            scope,
        ),
        (Request::RefreshScope(retained), Reply::Scope(scope)) => call_ensures(
            B::refresh_scope,
            (backend, &retained),
            scope,
        ),
        (Request::RefreshClient(retained), Reply::Client(client)) => call_ensures(
            B::refresh_client,
            (backend, &retained),
            client,
        ),
        (Request::InspectScope(scope), Reply::Inspection(resolved, discovered)) => call_ensures(
            B::inspect_scope,
            (backend, &scope, started_at),
            (resolved, discovered),
        ),
        (Request::Execute(scope), Reply::Outcome(outcome)) => call_ensures(
            B::execute,
            (backend, &scope, action, direction),
            outcome,
        ),
        (Request::ResolveClient(scope), Reply::Client(client)) => call_ensures(
            B::resolve_client,
            (backend, &scope, started_at),
            client,
        ),
        (Request::ValidateClient(client), Reply::Valid(valid)) => exists|found: bool|
            #[trigger] call_ensures(B::validate_client, (backend, &client, started_at), found)
                && found == valid,
        (Request::ParentScope(client), Reply::Scope(scope)) => call_ensures(
            B::parent_scope,
            (backend, &client),
            scope,
        ),
        (Request::Relay(client), Reply::Outcome(outcome)) => call_ensures(
            B::relay,
            (backend, &client, action, direction),
            outcome,
        ),
        (Request::Terminal(Some(client)), Reply::Outcome(outcome)) => call_ensures(
            B::terminal,
            (backend, Some(&client), action, direction),
            outcome,
        ),
        (Request::Terminal(None), Reply::Outcome(outcome)) => call_ensures(
            B::terminal,
            (backend, None, action, direction),
            outcome,
        ),
        _ => false,
    }
}

/// Perform the one side effect that a traversal waits for.
fn perform<B: Backend>(
    backend: &mut B,
    request: &Request,
    action: Action,
    direction: Direction,
    started_at: u64,
) -> (reply: Reply)
    ensures
        walk::answers(*request, reply),
        exists|asked: &mut B|
            #[trigger] given::<B>(asked, *request, action, direction, started_at, reply) && *asked
                == *old(backend) && *final(asked) == *final(backend),
        final(backend).calls() == remembering(
            old(backend).calls(),
            *request,
            action,
            direction,
            started_at,
            reply,
        ),
{
    reveal(given);
    match request {
        Request::CurrentScope => {
            let scope = backend.current_scope();
            proof {
                let asked = choose|asked: &mut B|
                    #[trigger] call_ensures(B::current_scope, (asked,), scope) &&
                        *asked == *old(backend) && *final(asked) == *backend;
                assert(given::<B>(
                    asked,
                    *request,
                    action,
                    direction,
                    started_at,
                    Reply::Scope(scope),
                ));
            }
            Reply::Scope(scope)
        },
        Request::RefreshScope(retained) => {
            let scope = backend.refresh_scope(retained);
            proof {
                let asked = choose|asked: &mut B|
                    #[trigger] call_ensures(B::refresh_scope, (asked, retained), scope) &&
                        *asked == *old(backend) && *final(asked) == *backend;
                assert(given::<B>(
                    asked,
                    *request,
                    action,
                    direction,
                    started_at,
                    Reply::Scope(scope),
                ));
            }
            Reply::Scope(scope)
        },
        Request::RefreshClient(retained) => {
            let client = backend.refresh_client(retained);
            proof {
                let asked = choose|asked: &mut B|
                    #[trigger] call_ensures(B::refresh_client, (asked, retained), client) &&
                        *asked == *old(backend) && *final(asked) == *backend;
                assert(given::<B>(
                    asked,
                    *request,
                    action,
                    direction,
                    started_at,
                    Reply::Client(client),
                ));
            }
            Reply::Client(client)
        },
        Request::InspectScope(scope) => {
            let found = backend.inspect_scope(scope, started_at);
            proof {
                let asked = choose|asked: &mut B|
                    #[trigger] call_ensures(B::inspect_scope, (asked, scope, started_at), found) &&
                        *asked == *old(backend) && *final(asked) == *backend;
                assert(given::<B>(
                    asked,
                    *request,
                    action,
                    direction,
                    started_at,
                    Reply::Inspection(found.0, found.1),
                ));
            }
            Reply::Inspection(found.0, found.1)
        },
        Request::Execute(scope) => {
            let outcome = backend.execute(scope, action, direction);
            proof {
                let asked = choose|asked: &mut B|
                    #[trigger] call_ensures(
                        B::execute,
                        (asked, scope, action, direction),
                        outcome,
                    ) && *asked == *old(backend) && *final(asked) == *backend;
                assert(given::<B>(
                    asked,
                    *request,
                    action,
                    direction,
                    started_at,
                    Reply::Outcome(outcome),
                ));
            }
            Reply::Outcome(outcome)
        },
        Request::ResolveClient(scope) => {
            let client = backend.resolve_client(scope, started_at);
            proof {
                let asked = choose|asked: &mut B|
                    #[trigger] call_ensures(
                        B::resolve_client,
                        (asked, scope, started_at),
                        client,
                    ) && *asked == *old(backend) && *final(asked) == *backend;
                assert(given::<B>(
                    asked,
                    *request,
                    action,
                    direction,
                    started_at,
                    Reply::Client(client),
                ));
            }
            Reply::Client(client)
        },
        Request::ValidateClient(client) => {
            let valid = backend.validate_client(client, started_at);
            proof {
                let (asked, found) = choose|asked: &mut B, found: bool|
                    #[trigger] call_ensures(
                        B::validate_client,
                        (asked, client, started_at),
                        found,
                    ) && found == valid && *asked == *old(backend) && *final(asked) == *backend;
                assert(given::<B>(
                    asked,
                    *request,
                    action,
                    direction,
                    started_at,
                    Reply::Valid(valid),
                ));
            }
            Reply::Valid(valid)
        },
        Request::ParentScope(client) => {
            let scope = backend.parent_scope(client);
            proof {
                let asked = choose|asked: &mut B|
                    #[trigger] call_ensures(B::parent_scope, (asked, client), scope) &&
                        *asked == *old(backend) && *final(asked) == *backend;
                assert(given::<B>(
                    asked,
                    *request,
                    action,
                    direction,
                    started_at,
                    Reply::Scope(scope),
                ));
            }
            Reply::Scope(scope)
        },
        Request::Relay(client) => {
            let outcome = backend.relay(client, action, direction);
            proof {
                let asked = choose|asked: &mut B|
                    #[trigger] call_ensures(
                        B::relay,
                        (asked, client, action, direction),
                        outcome,
                    ) && *asked == *old(backend) && *final(asked) == *backend;
                assert(given::<B>(
                    asked,
                    *request,
                    action,
                    direction,
                    started_at,
                    Reply::Outcome(outcome),
                ));
            }
            Reply::Outcome(outcome)
        },
        Request::Terminal(Some(client)) => {
            let outcome = backend.terminal(Some(client), action, direction);
            proof {
                let asked = choose|asked: &mut B|
                    #[trigger] call_ensures(
                        B::terminal,
                        (asked, Some(client), action, direction),
                        outcome,
                    ) && *asked == *old(backend) && *final(asked) == *backend;
                assert(given::<B>(
                    asked,
                    *request,
                    action,
                    direction,
                    started_at,
                    Reply::Outcome(outcome),
                ));
            }
            Reply::Outcome(outcome)
        },
        Request::Terminal(None) => {
            let outcome = backend.terminal(None, action, direction);
            proof {
                let asked = choose|asked: &mut B|
                    #[trigger] call_ensures(
                        B::terminal,
                        (asked, None, action, direction),
                        outcome,
                    ) && *asked == *old(backend) && *final(asked) == *backend;
                assert(given::<B>(
                    asked,
                    *request,
                    action,
                    direction,
                    started_at,
                    Reply::Outcome(outcome),
                ));
            }
            Reply::Outcome(outcome)
        },
    }
}

/// Walk local scopes, process ancestry, SSH relays, and the terminal once each.
pub struct Navigator<'a, B: Backend, C: Fn() -> u64> {
    backend: &'a mut B,
    now: C,
}

impl<'a, B: Backend, C: Fn() -> u64> Navigator<'a, B, C> {
    /// The clock that stamps each gesture.
    pub closed spec fn clock(&self) -> C {
        self.now
    }

    /// The calls that the backend has remembered so far.
    pub open spec fn calls(&self) -> Seq<Call> {
        (*self.lent()).calls()
    }

    /// The backend that the router works on.
    pub closed spec fn lent(&self) -> &'a mut B {
        self.backend
    }

    /// A router that is done with leaves its backend as the last route did, so
    /// that the lender finds the calls that were made.
    pub proof fn lemma_lent_returns(self)
        requires
            has_resolved(self),
        ensures
            *final(self.lent()) == *self.lent(),
    {
    }

    /// Create a router around one concrete side-effect backend.
    pub fn new(backend: &'a mut B, now: C) -> (navigator: Self)
        ensures
            navigator.clock() == now,
            *navigator.lent() == *old(backend),
            navigator.calls() == old(backend).calls(),
            *final(navigator.lent()) == *final(backend),
    {
        Navigator { backend, now }
    }

    /// Route one semantic action and return only its stable exit outcome.
    pub fn navigate(
        &mut self,
        action: Action,
        direction: Direction,
        include_current: bool,
        exact_client: Option<Client>,
    ) -> (outcome: Outcome)
        requires
            call_requires(old(self).clock(), ()),
        ensures
            final(self).clock() == old(self).clock(),
            *final(final(self).lent()) == *final(old(self).lent()),
            exists|
                started_at: u64,
                states: Seq<B>,
                replies: Seq<Reply>,
                result: RouteResult,
            |
                #[trigger] routed::<B>(
                    action,
                    direction,
                    started_at,
                    walk::begin(action, include_current, exact_client, None, None),
                    states,
                    replies,
                    result,
                ) && states.first() == *old(self).lent() && states.last() == *final(self).lent()
                    && (forall|i: int|
                    0 <= i < replies.len() ==> (#[trigger] walk::asked_at(
                        action,
                        walk::begin(action, include_current, exact_client, None, None),
                        replies,
                        i,
                    )) is Some && exists|asked: &mut B|
                        #[trigger] given::<B>(
                            asked,
                            walk::asked_at(
                                action,
                                walk::begin(action, include_current, exact_client, None, None),
                                replies,
                                i,
                            )->0,
                            action,
                            direction,
                            started_at,
                            replies[i],
                        ) && *asked == states[i] && *final(asked) == states[i + 1])
                    && call_ensures(old(self).clock(), (), started_at) && outcome == result.outcome
                    && final(self).calls() == old(self).calls() + calls_of(
                    action,
                    direction,
                    started_at,
                    walk::begin(action, include_current, exact_client, None, None),
                    replies,
                ),
    {
        let result = self.route(action, direction, include_current, exact_client, None, None);
        result.outcome
    }

    /// Route one action while retaining provenance for an ordered successor.
    ///
    /// The caller may retain the returned identities only for a bounded burst.
    /// Every reuse goes through the backend refresh hooks so a focus handoff or
    /// pane replacement cannot redirect a delayed key press.
    pub fn route(
        &mut self,
        action: Action,
        direction: Direction,
        include_current: bool,
        exact_client: Option<Client>,
        continuing_client: Option<Client>,
        continuing_scope: Option<Scope>,
    ) -> (result: RouteResult)
        requires
            call_requires(old(self).clock(), ()),
        ensures
            final(self).clock() == old(self).clock(),
            *final(final(self).lent()) == *final(old(self).lent()),
            exists|
                started_at: u64,
                states: Seq<B>,
                replies: Seq<Reply>,
            |
                #[trigger] routed::<B>(
                    action,
                    direction,
                    started_at,
                    walk::begin(
                        action,
                        include_current,
                        exact_client,
                        continuing_client,
                        continuing_scope,
                    ),
                    states,
                    replies,
                    result,
                ) && states.first() == *old(self).lent() && states.last() == *final(self).lent()
                    && (forall|i: int|
                    0 <= i < replies.len() ==> (#[trigger] walk::asked_at(
                        action,
                        walk::begin(
                            action,
                            include_current,
                            exact_client,
                            continuing_client,
                            continuing_scope,
                        ),
                        replies,
                        i,
                    )) is Some && exists|asked: &mut B|
                        #[trigger] given::<B>(
                            asked,
                            walk::asked_at(
                                action,
                                walk::begin(
                                    action,
                                    include_current,
                                    exact_client,
                                    continuing_client,
                                    continuing_scope,
                                ),
                                replies,
                                i,
                            )->0,
                            action,
                            direction,
                            started_at,
                            replies[i],
                        ) && *asked == states[i] && *final(asked) == states[i + 1])
                    && call_ensures(old(self).clock(), (), started_at) && final(self).calls() == old(
                    self,
                ).calls() + calls_of(
                    action,
                    direction,
                    started_at,
                    walk::begin(
                        action,
                        include_current,
                        exact_client,
                        continuing_client,
                        continuing_scope,
                    ),
                    replies,
                ),
    {
        let started_at: u64 = (self.now)();
        let mut walk = Walk::start(
            action,
            include_current,
            exact_client,
            continuing_client,
            continuing_scope,
        );
        let ghost start = walk@;
        let ghost mut replies: Seq<Reply> = Seq::empty();
        let ghost mut states: Seq<B> = seq![*self.lent()];
        loop
            invariant
                walk.action() == action,
                start == walk::begin(
                    action,
                    include_current,
                    exact_client,
                    continuing_client,
                    continuing_scope,
                ),
                walk@ == walk::run(action, start, replies),
                walk@.visited.len() <= usize::MAX,
                walk::well_answered(action, start, replies),
                states.len() == replies.len() + 1,
                states.first() == *old(self).lent(),
                states.last() == *self.lent(),
                forall|i: int|
                    0 <= i < replies.len() ==> (#[trigger] walk::asked_at(
                        action,
                        start,
                        replies,
                        i,
                    )) is Some
                        && exists|asked: &mut B|
                        #[trigger] given::<B>(
                            asked,
                            walk::asked_at(action, start, replies, i)->0,
                            action,
                            direction,
                            started_at,
                            replies[i],
                        ) && *asked == states[i] && *final(asked) == states[i + 1],
                call_ensures(old(self).clock(), (), started_at),
                self.clock() == old(self).clock(),
                *final(self.lent()) == *final(old(self).lent()),
                self.calls() == old(self).calls() + calls_of(
                    action,
                    direction,
                    started_at,
                    start,
                    replies,
                ),
            decreases usize::MAX - walk@.visited.len(), walk::rank(walk@.stage),
        {
            match walk.request() {
                Some(request) => {
                    let reply = perform(&mut *self.backend, &request, action, direction, started_at);
                    proof {
                        assert(replies.push(reply).drop_last() =~= replies);
                        lemma_given_extends::<B>(
                            action,
                            direction,
                            started_at,
                            start,
                            states,
                            replies,
                            request,
                            *self.lent(),
                            reply,
                        );
                        walk::lemma_step_progress(action, walk@, reply);
                        walk::lemma_run_extends(action, start, replies, reply);
                        replies = replies.push(reply);
                        states = states.push(*self.lent());
                    }
                    walk = walk.answer(reply);
                },
                None => {
                    proof {
                        assert(walk@.stage is Done);
                        assert(routed::<B>(
                            action,
                            direction,
                            started_at,
                            start,
                            states,
                            replies,
                            walk@.stage->result,
                        ));
                    }
                    return walk.finish().unwrap();
                },
            }
        }
    }
}

/// One more reply that the backend gave, from the last of its states to the
/// next.
proof fn lemma_given_extends<B: Backend>(
    action: Action,
    direction: Direction,
    started_at: u64,
    start: walk::WalkState,
    states: Seq<B>,
    replies: Seq<Reply>,
    request: Request,
    after: B,
    reply: Reply,
)
    requires
        states.len() == replies.len() + 1,
        forall|i: int|
            0 <= i < replies.len() ==> (#[trigger] walk::asked_at(
                action,
                start,
                replies,
                i,
            )) is Some
                && exists|asked: &mut B|
                #[trigger] given::<B>(
                    asked,
                    walk::asked_at(action, start, replies, i)->0,
                    action,
                    direction,
                    started_at,
                    replies[i],
                ) && *asked == states[i] && *final(asked) == states[i + 1],
        walk::asked(walk::run(action, start, replies).stage) == Some(request),
        exists|asked: &mut B|
            #[trigger] given::<B>(asked, request, action, direction, started_at, reply) && *asked
                == states.last() && *final(asked) == after,
    ensures
        forall|i: int|
            0 <= i < replies.push(reply).len() ==> (#[trigger] walk::asked_at(
                action,
                start,
                replies.push(reply),
                i,
            )) is Some
                && exists|asked: &mut B|
                #[trigger] given::<B>(
                    asked,
                    walk::asked_at(action, start, replies.push(reply), i)->0,
                    action,
                    direction,
                    started_at,
                    replies.push(reply)[i],
                ) && *asked == states.push(after)[i] && *final(asked) == states.push(after)[i + 1],
{
    let longer = replies.push(reply);
    let further = states.push(after);
    assert forall|i: int| 0 <= i < longer.len() implies (#[trigger] walk::asked_at(
        action,
        start,
        longer,
        i,
    )) is Some && exists|asked: &mut B|
        #[trigger] given::<B>(
            asked,
            walk::asked_at(action, start, longer, i)->0,
            action,
            direction,
            started_at,
            longer[i],
        ) && *asked == further[i] && *final(asked) == further[i + 1] by {
        if i < replies.len() {
            assert(longer.take(i) =~= replies.take(i));
            let at = walk::asked_at(action, start, replies, i);
            assert(walk::asked_at(action, start, longer, i) == at && at is Some);
            let asked = choose|asked: &mut B|
                #[trigger] given::<B>(asked, at->0, action, direction, started_at, replies[i])
                    && *asked == states[i] && *final(asked) == states[i + 1];
            assert(longer[i] == replies[i]);
            assert(given::<B>(
                asked,
                walk::asked_at(action, start, longer, i)->0,
                action,
                direction,
                started_at,
                longer[i],
            ));
            assert(*asked == further[i] && *final(asked) == further[i + 1]);
        } else {
            assert(longer.take(i) =~= replies);
            let asked = choose|asked: &mut B|
                #[trigger] given::<B>(asked, request, action, direction, started_at, reply)
                    && *asked == states.last() && *final(asked) == after;
            assert(walk::asked_at(action, start, longer, i) == Some(request));
            assert(given::<B>(
                asked,
                walk::asked_at(action, start, longer, i)->0,
                action,
                direction,
                started_at,
                longer[i],
            ));
            assert(*asked == further[i] && *final(asked) == further[i + 1]);
        }
    }
}

/// The traversal that starts in `start` and gets `replies` in turn from a
/// backend that goes through `states` reports `result`.
pub open spec fn routed<B: Backend>(
    action: Action,
    direction: Direction,
    started_at: u64,
    start: walk::WalkState,
    states: Seq<B>,
    replies: Seq<Reply>,
    result: RouteResult,
) -> bool {
    &&& walk::well_answered(action, start, replies)
    &&& states.len() == replies.len() + 1
    &&& walk::run(action, start, replies).stage == (walk::Stage::Done { result })
}

} // verus!
