//! The traversal of local scopes, process ancestry, SSH relays, and the
//! terminal as a transition system.
//!
//! A [`Walk`] asks for one side effect at a time ([`Request`]) and is advanced
//! by its [`Reply`]. What it asks next, and what it finally reports, is a
//! function of the replies so far: [`run`].

use vstd::prelude::*;
use vstd::string::*;

use crate::navigation::{Action, Client, Outcome, RouteResult, Scope};
use crate::text::same;

verus! {

/// One side effect that the policy asks of its backend.
#[derive(Debug, PartialEq, Eq)]
pub enum Request {
    /// Find the tmux scope containing the caller.
    CurrentScope,
    /// Follow a retained logical scope to its currently active pane.
    RefreshScope(Scope),
    /// Refresh previously retained physical provenance.
    RefreshClient(Client),
    /// Resolve session ownership and optional physical provenance.
    InspectScope(Scope),
    /// Try the operation inside one tmux scope.
    Execute(Scope),
    /// Select the one safe physical client displaying a scope.
    ResolveClient(Scope),
    /// Revalidate a client immediately before following it.
    ValidateClient(Client),
    /// Find the nearest enclosing tmux scope of a client.
    ParentScope(Client),
    /// Ask the parent SSH transport to continue.
    Relay(Client),
    /// Offer the gesture to the outer terminal application.
    Terminal(Option<Client>),
}

/// What the backend answered.
#[derive(Debug, PartialEq, Eq)]
pub enum Reply {
    /// To `CurrentScope`, `RefreshScope` and `ParentScope`.
    Scope(Option<Scope>),
    /// To `RefreshClient` and `ResolveClient`.
    Client(Option<Client>),
    /// To `InspectScope`.
    Inspection(Option<Scope>, Option<Client>),
    /// To `ValidateClient`.
    Valid(bool),
    /// To `Execute`, `Relay` and `Terminal`.
    Outcome(Outcome),
}

/// Where a scope was entered from, which decides what its result means.
#[derive(Clone, Copy, Debug, PartialEq, Eq, Structural)]
pub enum Leg {
    /// The scope that the gesture starts in.
    Origin,
    /// A scope that encloses the client followed so far.
    Enclosing,
}

/// One scope about to be tried.
#[derive(Debug, PartialEq, Eq)]
pub struct Entry {
    /// The scope itself.
    pub scope: Scope,
    /// Physical provenance known so far.
    pub client: Option<Client>,
    /// Whether provenance must be found before the operation runs.
    pub preserve: bool,
    /// Whether the scope was already inspected.
    pub inspected: bool,
    /// Where the scope was entered from.
    pub leg: Leg,
}

/// What the traversal waits for.
#[allow(inconsistent_fields)]
#[derive(Debug, PartialEq, Eq)]
pub enum Stage {
    /// The retained scope, then perhaps the retained client, are refreshed.
    RefreshScope { scope: Scope, previous: Option<Client>, exact: Option<Client> },
    /// The retained client is refreshed for a retained scope.
    RefreshDisplay { current: Scope, previous: Client },
    /// The retained client alone is refreshed.
    RefreshClient { previous: Client },
    /// An exact source client is validated.
    ConfirmSource { source: Client },
    /// The caller's own scope is looked up.
    FindCurrent { client: Option<Client> },
    /// The session of a scope is resolved.
    InspectSession { entry: Entry },
    /// The client of a scope is resolved before the operation runs.
    InspectClient { entry: Entry },
    /// The operation runs in a scope.
    Execute { entry: Entry },
    /// The client that leaves a scope is resolved.
    Resolve { entry: Entry },
    /// A client is validated before its ancestry is read.
    BeforeParent { client: Client },
    /// The enclosing scope of a client is looked up.
    Parent { client: Client },
    /// A client is validated before the relay is asked.
    BeforeRelay { client: Client },
    /// The relay is asked.
    Relay { client: Client },
    /// A client is validated before the terminal is asked.
    BeforeTerminal { client: Client },
    /// The terminal is asked.
    Terminal { client: Option<Client> },
    /// The traversal is over.
    Done { result: RouteResult },
}

/// The mathematical state of a traversal: the identities of the scopes whose
/// operation was run, and what is waited for.
#[verifier::ext_equal]
pub struct WalkState {
    pub visited: Seq<Seq<char>>,
    pub stage: Stage,
}

/// The result that reports an unsafe route without any provenance.
pub open spec fn failure() -> RouteResult {
    RouteResult { outcome: Outcome::Error, client: None, scope: None }
}

/// The result under uncertainty. Movement changes layout, so for it
/// uncertainty is a quiet no-op; every other request reports an error.
pub open spec fn uncertainty(action: Action, client: Option<Client>) -> RouteResult {
    if action is PaneMove {
        RouteResult { outcome: Outcome::Declined, client, scope: None }
    } else {
        failure()
    }
}

/// Whether the client shows exactly this scope.
pub open spec fn displays(client: Client, scope: Scope) -> bool {
    &&& client.socket@ == scope.socket@
    &&& client.pane@ == scope.pane@
    &&& match scope.session {
        Some(session) => client.session@ == session@,
        None => true,
    }
}

/// The scope that a client displays, as far as the client names it.
pub open spec fn displayed(client: Client) -> Scope {
    Scope {
        socket: client.socket,
        pane: client.pane,
        session: if client.session@.len() == 0 {
            None
        } else {
            Some(client.session)
        },
    }
}

/// The scope of a refreshed client, whose session is always named.
pub open spec fn refreshed(client: Client) -> Scope {
    Scope { socket: client.socket, pane: client.pane, session: Some(client.session) }
}

/// What follows when a scope gave `outcome` and `client` leaves it.
pub open spec fn leave(action: Action, entry: Entry, outcome: Outcome, client: Option<Client>) -> Stage {
    if outcome != Outcome::Declined {
        Stage::Done {
            result: RouteResult {
                outcome,
                client: if entry.leg is Origin {
                    client
                } else {
                    None
                },
                scope: Some(entry.scope),
            },
        }
    } else {
        match client {
            Some(client) => Stage::BeforeParent { client },
            None => Stage::Done { result: uncertainty(action, None) },
        }
    }
}

/// Running the operation in a scope, or stopping where its identity was
/// already tried.
pub open spec fn try_scope(action: Action, visited: Seq<Seq<char>>, entry: Entry) -> Stage {
    if visited.contains(entry.scope.key()) {
        leave(action, entry, Outcome::Error, entry.client)
    } else {
        Stage::Execute { entry }
    }
}

/// What entering a scope waits for first.
pub open spec fn enter(action: Action, visited: Seq<Seq<char>>, entry: Entry) -> Stage {
    if !(action is PaneSelect) && entry.scope.session is None {
        Stage::InspectSession { entry }
    } else if entry.preserve && entry.client is None {
        Stage::InspectClient { entry }
    } else {
        try_scope(action, visited, entry)
    }
}

/// The stage a traversal starts in.
pub open spec fn first_stage(
    action: Action,
    include_current: bool,
    exact_client: Option<Client>,
    continuing_client: Option<Client>,
    continuing_scope: Option<Scope>,
) -> Stage {
    if continuing_scope is Some {
        Stage::RefreshScope {
            scope: continuing_scope->0,
            previous: continuing_client,
            exact: exact_client,
        }
    } else if continuing_client is Some {
        Stage::RefreshClient { previous: continuing_client->0 }
    } else if include_current {
        if exact_client is Some && exact_client->0.exact {
            Stage::ConfirmSource { source: exact_client->0 }
        } else {
            Stage::FindCurrent { client: exact_client }
        }
    } else if exact_client is Some {
        Stage::BeforeParent { client: exact_client->0 }
    } else {
        outward(action, None)
    }
}

/// Offering the gesture to the terminal, which a pane move never does: pane
/// layout is host-local state.
pub open spec fn outward(action: Action, client: Option<Client>) -> Stage {
    if action is PaneMove {
        Stage::Done { result: RouteResult { outcome: Outcome::Declined, client, scope: None } }
    } else {
        Stage::Terminal { client }
    }
}

/// The entry of the scope that a gesture starts in.
pub open spec fn origin(scope: Scope, client: Option<Client>, preserve: bool) -> Entry {
    Entry { scope, client, preserve, inspected: false, leg: Leg::Origin }
}

/// The request a stage waits for.
pub open spec fn asked(stage: Stage) -> Option<Request> {
    match stage {
        Stage::RefreshScope { scope, .. } => Some(Request::RefreshScope(scope)),
        Stage::RefreshDisplay { previous, .. } => Some(Request::RefreshClient(previous)),
        Stage::RefreshClient { previous } => Some(Request::RefreshClient(previous)),
        Stage::ConfirmSource { source } => Some(Request::ValidateClient(source)),
        Stage::FindCurrent { .. } => Some(Request::CurrentScope),
        Stage::InspectSession { entry } => Some(Request::InspectScope(entry.scope)),
        Stage::InspectClient { entry } => Some(Request::InspectScope(entry.scope)),
        Stage::Execute { entry } => Some(Request::Execute(entry.scope)),
        Stage::Resolve { entry } => Some(Request::ResolveClient(entry.scope)),
        Stage::BeforeParent { client } => Some(Request::ValidateClient(client)),
        Stage::Parent { client } => Some(Request::ParentScope(client)),
        Stage::BeforeRelay { client } => Some(Request::ValidateClient(client)),
        Stage::Relay { client } => Some(Request::Relay(client)),
        Stage::BeforeTerminal { client } => Some(Request::ValidateClient(client)),
        Stage::Terminal { client } => Some(Request::Terminal(client)),
        Stage::Done { .. } => None,
    }
}

/// Whether a reply has the shape that answers a request.
pub open spec fn answers(request: Request, reply: Reply) -> bool {
    match request {
        Request::CurrentScope | Request::RefreshScope(_) | Request::ParentScope(_) => {
            reply is Scope
        },
        Request::RefreshClient(_) | Request::ResolveClient(_) => reply is Client,
        Request::InspectScope(_) => reply is Inspection,
        Request::ValidateClient(_) => reply is Valid,
        Request::Execute(_) | Request::Relay(_) | Request::Terminal(_) => reply is Outcome,
    }
}

/// What follows a stage once `reply` has come.
#[verifier::opaque]
pub open spec fn next_stage(
    action: Action,
    visited: Seq<Seq<char>>,
    stage: Stage,
    reply: Reply,
) -> Stage {
    match (stage, reply) {
        (Stage::RefreshScope { previous, exact, .. }, Reply::Scope(current)) => match (
            current,
            previous,
        ) {
            (None, _) => Stage::Done { result: uncertainty(action, None) },
            (Some(current), Some(previous)) => Stage::RefreshDisplay { current, previous },
            (Some(current), None) => enter(action, visited, origin(current, exact, true)),
        },
        (Stage::RefreshDisplay { current, .. }, Reply::Client(client)) => {
            if client is Some && displays(client->0, current) {
                enter(action, visited, origin(current, client, true))
            } else {
                Stage::Done { result: uncertainty(action, client) }
            }
        },
        (Stage::RefreshClient { .. }, Reply::Client(client)) => match client {
            Some(client) => enter(action, visited, origin(refreshed(client), Some(client), false)),
            None => Stage::Done { result: uncertainty(action, None) },
        },
        (Stage::ConfirmSource { source }, Reply::Valid(valid)) => {
            if valid {
                enter(action, visited, origin(displayed(source), Some(source), true))
            } else {
                Stage::Done { result: uncertainty(action, Some(source)) }
            }
        },
        (Stage::FindCurrent { client }, Reply::Scope(current)) => match current {
            Some(current) => enter(action, visited, origin(current, client, true)),
            None => outward(action, client),
        },
        (Stage::InspectSession { entry }, Reply::Inspection(resolved, discovered)) => {
            match resolved {
                Some(resolved) => try_scope(
                    action,
                    visited,
                    Entry {
                        scope: resolved,
                        client: if entry.client is Some {
                            entry.client
                        } else {
                            discovered
                        },
                        inspected: true,
                        ..entry
                    },
                ),
                None => leave(
                    action,
                    entry,
                    if action is PaneMove {
                        Outcome::Declined
                    } else {
                        Outcome::Error
                    },
                    None,
                ),
            }
        },
        (Stage::InspectClient { entry }, Reply::Inspection(_, discovered)) => try_scope(
            action,
            visited,
            Entry { client: discovered, inspected: true, ..entry },
        ),
        (Stage::Execute { entry }, Reply::Outcome(outcome)) => {
            if outcome != Outcome::Declined || entry.client is Some || entry.inspected {
                leave(action, entry, outcome, entry.client)
            } else {
                Stage::Resolve { entry }
            }
        },
        (Stage::Resolve { entry }, Reply::Client(client)) => leave(
            action,
            entry,
            Outcome::Declined,
            client,
        ),
        (Stage::BeforeParent { client }, Reply::Valid(valid)) => {
            if valid {
                Stage::Parent { client }
            } else {
                Stage::Done { result: uncertainty(action, Some(client)) }
            }
        },
        (Stage::Parent { client }, Reply::Scope(parent)) => match parent {
            Some(parent) => enter(
                action,
                visited,
                Entry {
                    scope: parent,
                    client: None,
                    preserve: false,
                    inspected: false,
                    leg: Leg::Enclosing,
                },
            ),
            None => {
                if action is PaneMove {
                    outward(action, Some(client))
                } else {
                    Stage::BeforeRelay { client }
                }
            },
        },
        (Stage::BeforeRelay { client }, Reply::Valid(valid)) => {
            if valid {
                Stage::Relay { client }
            } else {
                Stage::Done { result: failure() }
            }
        },
        (Stage::Relay { client }, Reply::Outcome(outcome)) => {
            if outcome != Outcome::Declined {
                Stage::Done { result: RouteResult { outcome, client: Some(client), scope: None } }
            } else {
                Stage::BeforeTerminal { client }
            }
        },
        (Stage::BeforeTerminal { client }, Reply::Valid(valid)) => {
            if valid {
                Stage::Terminal { client: Some(client) }
            } else {
                Stage::Done { result: failure() }
            }
        },
        (Stage::Terminal { client }, Reply::Outcome(outcome)) => Stage::Done {
            result: RouteResult { outcome, client, scope: None },
        },
        _ => stage,
    }
}

/// The state with `stage` reached: an operation about to run marks its scope.
pub open spec fn reach(visited: Seq<Seq<char>>, stage: Stage) -> WalkState {
    WalkState {
        visited: match stage {
            Stage::Execute { entry } => visited.push(entry.scope.key()),
            _ => visited,
        },
        stage,
    }
}

/// The state a traversal starts in.
pub open spec fn begin(
    action: Action,
    include_current: bool,
    exact_client: Option<Client>,
    continuing_client: Option<Client>,
    continuing_scope: Option<Scope>,
) -> WalkState {
    reach(
        Seq::empty(),
        first_stage(action, include_current, exact_client, continuing_client, continuing_scope),
    )
}

/// The state after one reply.
pub open spec fn step(action: Action, state: WalkState, reply: Reply) -> WalkState {
    reach(state.visited, next_stage(action, state.visited, state.stage, reply))
}

/// The state after all of `replies`.
pub open spec fn run(action: Action, start: WalkState, replies: Seq<Reply>) -> WalkState
    decreases replies.len(),
{
    if replies.len() == 0 {
        start
    } else {
        step(action, run(action, start, replies.drop_last()), replies.last())
    }
}

/// What the traversal asks for once it got the first `i` replies.
pub open spec fn asked_at(action: Action, start: WalkState, replies: Seq<Reply>, i: int) -> Option<
    Request,
> {
    asked(run(action, start, replies.take(i)).stage)
}

/// Whether the reply at index `i` answers what the traversal asked for there.
pub open spec fn answered_at(action: Action, start: WalkState, replies: Seq<Reply>, i: int) -> bool {
    match asked_at(action, start, replies, i) {
        Some(request) => answers(request, replies[i]),
        None => false,
    }
}

/// Whether every reply answers what the traversal asked for at that point.
pub open spec fn well_answered(action: Action, start: WalkState, replies: Seq<Reply>) -> bool {
    forall|i: int|
        0 <= i < replies.len() ==> #[trigger] answered_at(action, start, replies, i)
}

/// How many more replies a stage can take before an operation runs or the
/// traversal ends.
pub open spec fn rank(stage: Stage) -> nat {
    match stage {
        Stage::RefreshScope { .. } => 12,
        Stage::RefreshDisplay { .. } | Stage::RefreshClient { .. } => 11,
        Stage::ConfirmSource { .. } | Stage::FindCurrent { .. } => 11,
        Stage::Execute { .. } => 10,
        Stage::Resolve { .. } => 9,
        Stage::BeforeParent { .. } => 8,
        Stage::Parent { .. } => 7,
        Stage::InspectSession { .. } | Stage::InspectClient { .. } => 6,
        Stage::BeforeRelay { .. } => 5,
        Stage::Relay { .. } => 4,
        Stage::BeforeTerminal { .. } => 3,
        Stage::Terminal { .. } => 2,
        Stage::Done { .. } => 0,
    }
}

/// A traversal in progress.
pub struct Walk {
    action: Action,
    visited: Vec<String>,
    stage: Stage,
}

impl View for Walk {
    type V = WalkState;

    closed spec fn view(&self) -> WalkState {
        WalkState {
            visited: Seq::new(self.visited@.len(), |i: int| self.visited@[i]@),
            stage: self.stage,
        }
    }
}

impl Walk {
    /// The operation that is routed.
    pub closed spec fn action(&self) -> Action {
        self.action
    }

    /// Begin a traversal.
    pub fn start(
        action: Action,
        include_current: bool,
        exact_client: Option<Client>,
        continuing_client: Option<Client>,
        continuing_scope: Option<Scope>,
    ) -> (walk: Walk)
        ensures
            walk.action() == action,
            walk@ == begin(action, include_current, exact_client, continuing_client, continuing_scope),
    {
        let stage = if let Some(scope) = continuing_scope {
            Stage::RefreshScope { scope, previous: continuing_client, exact: exact_client }
        } else if let Some(previous) = continuing_client {
            Stage::RefreshClient { previous }
        } else if include_current {
            match exact_client {
                Some(source) => {
                    if source.exact {
                        Stage::ConfirmSource { source }
                    } else {
                        Stage::FindCurrent { client: Some(source) }
                    }
                },
                None => Stage::FindCurrent { client: None },
            }
        } else {
            match exact_client {
                Some(client) => Stage::BeforeParent { client },
                None => offer_outward(action, None),
            }
        };
        let walk = Walk { action, visited: Vec::new(), stage };
        assert(walk@.visited =~= Seq::empty());
        walk
    }

    /// The side effect that the traversal waits for, or nothing when it is over.
    pub fn request(&self) -> (request: Option<Request>)
        ensures
            request == asked(self@.stage),
    {
        match &self.stage {
            Stage::RefreshScope { scope, .. } => Some(Request::RefreshScope(scope.clone())),
            Stage::RefreshDisplay { previous, .. } => Some(
                Request::RefreshClient(previous.clone()),
            ),
            Stage::RefreshClient { previous } => Some(Request::RefreshClient(previous.clone())),
            Stage::ConfirmSource { source } => Some(Request::ValidateClient(source.clone())),
            Stage::FindCurrent { .. } => Some(Request::CurrentScope),
            Stage::InspectSession { entry } => Some(Request::InspectScope(entry.scope.clone())),
            Stage::InspectClient { entry } => Some(Request::InspectScope(entry.scope.clone())),
            Stage::Execute { entry } => Some(Request::Execute(entry.scope.clone())),
            Stage::Resolve { entry } => Some(Request::ResolveClient(entry.scope.clone())),
            Stage::BeforeParent { client } => Some(Request::ValidateClient(client.clone())),
            Stage::Parent { client } => Some(Request::ParentScope(client.clone())),
            Stage::BeforeRelay { client } => Some(Request::ValidateClient(client.clone())),
            Stage::Relay { client } => Some(Request::Relay(client.clone())),
            Stage::BeforeTerminal { client } => Some(Request::ValidateClient(client.clone())),
            Stage::Terminal { client } => Some(
                Request::Terminal(
                    match client {
                        Some(client) => Some(client.clone()),
                        None => None,
                    },
                ),
            ),
            Stage::Done { .. } => None,
        }
    }

    /// Take the backend's answer to the pending request.
    #[verifier::rlimit(40)]
    pub fn answer(self, reply: Reply) -> (walk: Walk)
        requires
            asked(self@.stage) is Some,
            answers(asked(self@.stage)->0, reply),
        ensures
            walk.action() == self.action(),
            walk@.visited.len() <= usize::MAX,
            walk@ == step(self.action(), self@, reply),
    {
        proof {
            reveal(next_stage);
        }
        let action = self.action;
        let visited = self.visited;
        let stage = match (self.stage, reply) {
            (Stage::RefreshScope { previous, exact, .. }, Reply::Scope(current)) => match current {
                None => Stage::Done { result: uncertain(action, None) },
                Some(current) => match previous {
                    Some(previous) => Stage::RefreshDisplay { current, previous },
                    None => enter_scope(action, &visited, origin_entry(current, exact, true)),
                },
            },
            (Stage::RefreshDisplay { current, .. }, Reply::Client(client)) => match client {
                Some(client) => {
                    if client_displays(&client, &current) {
                        enter_scope(action, &visited, origin_entry(current, Some(client), true))
                    } else {
                        Stage::Done { result: uncertain(action, Some(client)) }
                    }
                },
                None => Stage::Done { result: uncertain(action, None) },
            },
            (Stage::RefreshClient { .. }, Reply::Client(client)) => match client {
                Some(client) => {
                    let scope = Scope {
                        socket: client.socket.clone(),
                        pane: client.pane.clone(),
                        session: Some(client.session.clone()),
                    };
                    enter_scope(action, &visited, origin_entry(scope, Some(client), false))
                },
                None => Stage::Done { result: uncertain(action, None) },
            },
            (Stage::ConfirmSource { source }, Reply::Valid(valid)) => {
                if valid {
                    let scope = Scope {
                        socket: source.socket.clone(),
                        pane: source.pane.clone(),
                        session: if source.session.as_str().is_empty() {
                            None
                        } else {
                            Some(source.session.clone())
                        },
                    };
                    enter_scope(action, &visited, origin_entry(scope, Some(source), true))
                } else {
                    Stage::Done { result: uncertain(action, Some(source)) }
                }
            },
            (Stage::FindCurrent { client }, Reply::Scope(current)) => match current {
                Some(current) => enter_scope(action, &visited, origin_entry(current, client, true)),
                None => offer_outward(action, client),
            },
            (Stage::InspectSession { entry }, Reply::Inspection(resolved, discovered)) => {
                match resolved {
                    Some(resolved) => {
                        let client = if entry.client.is_some() {
                            entry.client
                        } else {
                            discovered
                        };
                        execute_once(
                            action,
                            &visited,
                            Entry {
                                scope: resolved,
                                client,
                                preserve: entry.preserve,
                                inspected: true,
                                leg: entry.leg,
                            },
                        )
                    },
                    None => {
                        let outcome = if matches!(action, Action::PaneMove) {
                            Outcome::Declined
                        } else {
                            Outcome::Error
                        };
                        leave_scope(action, entry.scope, entry.leg, outcome, None)
                    },
                }
            },
            (Stage::InspectClient { entry }, Reply::Inspection(_, discovered)) => execute_once(
                action,
                &visited,
                Entry {
                    scope: entry.scope,
                    client: discovered,
                    preserve: entry.preserve,
                    inspected: true,
                    leg: entry.leg,
                },
            ),
            (Stage::Execute { entry }, Reply::Outcome(outcome)) => {
                // Physical client selection is deferred until the action must
                // leave this logical scope, so that local moves keep working
                // in sessions with several attached clients.
                if !matches!(outcome, Outcome::Declined) || entry.client.is_some()
                    || entry.inspected {
                    leave_scope(action, entry.scope, entry.leg, outcome, entry.client)
                } else {
                    Stage::Resolve { entry }
                }
            },
            (Stage::Resolve { entry }, Reply::Client(client)) => leave_scope(
                action,
                entry.scope,
                entry.leg,
                Outcome::Declined,
                client,
            ),
            (Stage::BeforeParent { client }, Reply::Valid(valid)) => {
                if valid {
                    Stage::Parent { client }
                } else {
                    Stage::Done { result: uncertain(action, Some(client)) }
                }
            },
            (Stage::Parent { client }, Reply::Scope(parent)) => match parent {
                Some(parent) => enter_scope(
                    action,
                    &visited,
                    Entry {
                        scope: parent,
                        client: None,
                        preserve: false,
                        inspected: false,
                        leg: Leg::Enclosing,
                    },
                ),
                None => {
                    if matches!(action, Action::PaneMove) {
                        offer_outward(action, Some(client))
                    } else {
                        Stage::BeforeRelay { client }
                    }
                },
            },
            (Stage::BeforeRelay { client }, Reply::Valid(valid)) => {
                if valid {
                    Stage::Relay { client }
                } else {
                    Stage::Done { result: RouteResult::error() }
                }
            },
            (Stage::Relay { client }, Reply::Outcome(outcome)) => {
                if !matches!(outcome, Outcome::Declined) {
                    Stage::Done {
                        result: RouteResult { outcome, client: Some(client), scope: None },
                    }
                } else {
                    Stage::BeforeTerminal { client }
                }
            },
            (Stage::BeforeTerminal { client }, Reply::Valid(valid)) => {
                if valid {
                    Stage::Terminal { client: Some(client) }
                } else {
                    Stage::Done { result: RouteResult::error() }
                }
            },
            (Stage::Terminal { client }, Reply::Outcome(outcome)) => Stage::Done {
                result: RouteResult { outcome, client, scope: None },
            },
            (stage, _) => stage,
        };
        let mut visited = visited;
        if let Stage::Execute { entry } = &stage {
            visited.push(entry.scope.identity());
        }
        let walk = Walk { action, visited, stage };
        assert(walk.visited.len() == walk.visited@.len());
        assert(walk@.visited =~= step(self.action(), self@, reply).visited);
        walk
    }

    /// The result of a traversal that is over.
    pub fn finish(self) -> (result: Option<RouteResult>)
        ensures
            match self@.stage {
                Stage::Done { result: reported } => result == Some(reported),
                _ => result is None,
            },
    {
        match self.stage {
            Stage::Done { result } => Some(result),
            _ => None,
        }
    }
}

impl RouteResult {
    fn error() -> (result: RouteResult)
        ensures
            result == failure(),
    {
        RouteResult { outcome: Outcome::Error, client: None, scope: None }
    }
}

fn uncertain(action: Action, client: Option<Client>) -> (result: RouteResult)
    ensures
        result == uncertainty(action, client),
{
    if matches!(action, Action::PaneMove) {
        RouteResult { outcome: Outcome::Declined, client, scope: None }
    } else {
        RouteResult::error()
    }
}

fn offer_outward(action: Action, client: Option<Client>) -> (stage: Stage)
    ensures
        stage == outward(action, client),
{
    if matches!(action, Action::PaneMove) {
        Stage::Done { result: RouteResult { outcome: Outcome::Declined, client, scope: None } }
    } else {
        Stage::Terminal { client }
    }
}

fn origin_entry(scope: Scope, client: Option<Client>, preserve: bool) -> (entry: Entry)
    ensures
        entry == origin(scope, client, preserve),
{
    Entry { scope, client, preserve, inspected: false, leg: Leg::Origin }
}

fn leave_scope(
    action: Action,
    scope: Scope,
    leg: Leg,
    outcome: Outcome,
    client: Option<Client>,
) -> (stage: Stage)
    ensures
        forall|entry: Entry|
            entry.scope == scope && entry.leg == leg ==> stage == #[trigger] leave(
                action,
                entry,
                outcome,
                client,
            ),
{
    if !matches!(outcome, Outcome::Declined) {
        let client = match leg {
            Leg::Origin => client,
            Leg::Enclosing => None,
        };
        Stage::Done { result: RouteResult { outcome, client, scope: Some(scope) } }
    } else {
        match client {
            Some(client) => Stage::BeforeParent { client },
            None => Stage::Done { result: uncertain(action, None) },
        }
    }
}

fn execute_once(action: Action, visited: &Vec<String>, entry: Entry) -> (stage: Stage)
    ensures
        stage == try_scope(action, Seq::new(visited@.len(), |i: int| visited@[i]@), entry),
{
    let ghost keys = Seq::new(visited@.len(), |i: int| visited@[i]@);
    let key = entry.scope.identity();
    let mut i: usize = 0;
    while i < visited.len()
        invariant
            i <= visited.len(),
            keys == Seq::new(visited@.len(), |i: int| visited@[i]@),
            key@ == entry.scope.key(),
            forall|j: int| 0 <= j < i ==> visited@[j]@ != key@,
        decreases visited.len() - i,
    {
        if same(visited[i].as_str(), key.as_str()) {
            assert(keys[i as int] == key@);
            return leave_scope(action, entry.scope, entry.leg, Outcome::Error, entry.client);
        }
        i = i + 1;
    }
    Stage::Execute { entry }
}

fn enter_scope(action: Action, visited: &Vec<String>, entry: Entry) -> (stage: Stage)
    ensures
        stage == enter(action, Seq::new(visited@.len(), |i: int| visited@[i]@), entry),
{
    if !matches!(action, Action::PaneSelect) && entry.scope.session.is_none() {
        Stage::InspectSession { entry }
    } else if entry.preserve && entry.client.is_none() {
        Stage::InspectClient { entry }
    } else {
        execute_once(action, visited, entry)
    }
}

fn client_displays(client: &Client, scope: &Scope) -> (shown: bool)
    ensures
        shown == displays(*client, *scope),
{
    same(client.socket.as_str(), scope.socket.as_str()) && same(
        client.pane.as_str(),
        scope.pane.as_str(),
    ) && match &scope.session {
        Some(session) => same(client.session.as_str(), session.as_str()),
        None => true,
    }
}

/// Each answered request ends the traversal, runs an operation in a scope not
/// yet tried, or comes closer to one of these.
pub proof fn lemma_step_progress(action: Action, state: WalkState, reply: Reply)
    requires
        asked(state.stage) is Some,
        answers(asked(state.stage)->0, reply),
    ensures
        ({
            let after = step(action, state, reply);
            ||| after.stage is Execute && after.visited.len() == state.visited.len() + 1
            ||| after.visited == state.visited && rank(after.stage) < rank(state.stage)
        }),
{
    reveal(next_stage);
}

/// One more answered request is one more step.
pub proof fn lemma_run_extends(action: Action, start: WalkState, replies: Seq<Reply>, reply: Reply)
    requires
        well_answered(action, start, replies),
        asked(run(action, start, replies).stage) is Some,
        answers(asked(run(action, start, replies).stage)->0, reply),
    ensures
        well_answered(action, start, replies.push(reply)),
        run(action, start, replies.push(reply)) == step(
            action,
            run(action, start, replies),
            reply,
        ),
{
    let longer = replies.push(reply);
    assert(longer.drop_last() =~= replies);
    assert forall|i: int| 0 <= i < longer.len() implies #[trigger] answered_at(
        action,
        start,
        longer,
        i,
    ) by {
        if i < replies.len() {
            assert(longer.take(i) =~= replies.take(i));
            assert(longer[i] == replies[i]);
            assert(answered_at(action, start, replies, i));
        } else {
            assert(longer.take(i) =~= replies);
        }
    }
}

/// An accepted or failed operation ends the traversal with exactly that
/// outcome: nothing further out sees the gesture.
pub proof fn lemma_decided_outcome_ends(action: Action, state: WalkState, outcome: Outcome)
    requires
        state.stage is Execute || state.stage is Relay || state.stage is Terminal,
        outcome != Outcome::Declined,
    ensures
        step(action, state, Reply::Outcome(outcome)).stage is Done,
        step(action, state, Reply::Outcome(outcome)).stage->result.outcome == outcome,
{
    reveal(next_stage);
}

/// A gesture is reported handled only where the last side effect was an
/// operation, a relay or a terminal that accepted it.
pub proof fn lemma_handled_is_earned(
    action: Action,
    include_current: bool,
    exact_client: Option<Client>,
    continuing_client: Option<Client>,
    continuing_scope: Option<Scope>,
    replies: Seq<Reply>,
)
    requires
        ({
            let start = begin(action, include_current, exact_client, continuing_client, continuing_scope);
            &&& well_answered(action, start, replies)
            &&& run(action, start, replies).stage is Done
            &&& run(action, start, replies).stage->result.outcome is Handled
        }),
    ensures
        replies.len() > 0,
        replies.last() == Reply::Outcome(Outcome::Handled),
        ({
            let start = begin(action, include_current, exact_client, continuing_client, continuing_scope);
            let before = run(action, start, replies.drop_last()).stage;
            before is Execute || before is Relay || before is Terminal
        }),
{
    reveal(next_stage);
    if replies.len() > 0 {
        let start = begin(action, include_current, exact_client, continuing_client, continuing_scope);
        assert(answered_at(action, start, replies, replies.len() - 1));
        assert(replies.take(replies.len() - 1) =~= replies.drop_last());
    }
}

/// The relay is asked only directly after the very client it goes through was
/// revalidated, and so is the ancestry of a client read.
pub proof fn lemma_relay_follows_validation(action: Action, state: WalkState, reply: Reply)
    requires
        asked(state.stage) is Some,
        answers(asked(state.stage)->0, reply),
    ensures
        step(action, state, reply).stage matches Stage::Relay { client } ==> reply == Reply::Valid(
            true,
        ) && asked(state.stage) == Some(Request::ValidateClient(client)),
        step(action, state, reply).stage matches Stage::Parent { client } ==> reply == Reply::Valid(
            true,
        ) && asked(state.stage) == Some(Request::ValidateClient(client)),
        state.stage is BeforeTerminal ==> (step(
            action,
            state,
            reply,
        ).stage matches Stage::Terminal { client } ==> reply == Reply::Valid(true) && asked(
            state.stage,
        ) == Some(Request::ValidateClient(client->0))),
{
    reveal(next_stage);
}

/// A failed revalidation never reaches a further side effect.
pub proof fn lemma_failed_validation_stops(action: Action, state: WalkState)
    requires
        asked(state.stage) is Some,
        asked(state.stage)->0 is ValidateClient,
    ensures
        step(action, state, Reply::Valid(false)).stage is Done,
        step(action, state, Reply::Valid(false)).stage->result.outcome == (if action is PaneMove
            && !(state.stage is BeforeRelay || state.stage is BeforeTerminal) {
            Outcome::Declined
        } else {
            Outcome::Error
        }),
{
    reveal(next_stage);
}

/// Whether a stage crosses the host boundary.
pub open spec fn crosses_host(stage: Stage) -> bool {
    stage is BeforeRelay || stage is Relay || stage is BeforeTerminal || stage is Terminal
}

/// Pane layout is host-local: a pane move never asks a relay or a terminal.
pub proof fn lemma_pane_move_stays_local(
    include_current: bool,
    exact_client: Option<Client>,
    continuing_client: Option<Client>,
    continuing_scope: Option<Scope>,
    replies: Seq<Reply>,
)
    ensures
        !crosses_host(
            run(
                Action::PaneMove,
                begin(Action::PaneMove, include_current, exact_client, continuing_client, continuing_scope),
                replies,
            ).stage,
        ),
    decreases replies.len(),
{
    reveal(next_stage);
    if replies.len() > 0 {
        lemma_pane_move_stays_local(
            include_current,
            exact_client,
            continuing_client,
            continuing_scope,
            replies.drop_last(),
        );
    }
}

/// The identities tried so far only grow.
proof fn lemma_visited_grows(action: Action, start: WalkState, replies: Seq<Reply>, i: int)
    requires
        0 <= i <= replies.len(),
    ensures
        run(action, start, replies.take(i)).visited.is_prefix_of(
            run(action, start, replies).visited,
        ),
    decreases replies.len(),
{
    if i == replies.len() {
        assert(replies.take(i) =~= replies);
    } else {
        lemma_visited_grows(action, start, replies.drop_last(), i);
        assert(replies.drop_last().take(i) =~= replies.take(i));
    }
}

/// An operation runs only in a scope not yet tried, which it marks.
pub(crate) proof fn lemma_execute_marks(action: Action, state: WalkState, reply: Reply)
    requires
        asked(state.stage) is Some,
        answers(asked(state.stage)->0, reply),
        step(action, state, reply).stage is Execute,
    ensures
        ({
            let after = step(action, state, reply);
            let key = after.stage->Execute_entry.scope.key();
            &&& !state.visited.contains(key)
            &&& after.visited == state.visited.push(key)
        }),
{
    reveal(next_stage);
}

/// No scope identity is operated on twice, whatever the backend answers:
/// linked sessions and looping ancestry cannot repeat a gesture.
pub proof fn lemma_scope_runs_once(
    action: Action,
    include_current: bool,
    exact_client: Option<Client>,
    continuing_client: Option<Client>,
    continuing_scope: Option<Scope>,
    replies: Seq<Reply>,
    i: int,
    j: int,
)
    requires
        0 <= i < j <= replies.len(),
        ({
            let start = begin(action, include_current, exact_client, continuing_client, continuing_scope);
            &&& well_answered(action, start, replies)
            &&& run(action, start, replies.take(i)).stage is Execute
            &&& run(action, start, replies.take(j)).stage is Execute
        }),
    ensures
        ({
            let start = begin(action, include_current, exact_client, continuing_client, continuing_scope);
            run(action, start, replies.take(i)).stage->Execute_entry.scope.key() != run(
                action,
                start,
                replies.take(j),
            ).stage->Execute_entry.scope.key()
        }),
{
    let start = begin(action, include_current, exact_client, continuing_client, continuing_scope);
    let first = run(action, start, replies.take(i));
    let last = run(action, start, replies.take(j));
    let before = run(action, start, replies.take(j - 1));
    assert(last == step(action, before, replies[j - 1])) by {
        assert(replies.take(j).drop_last() =~= replies.take(j - 1));
    }
    assert(answered_at(action, start, replies, j - 1));
    lemma_execute_marks(action, before, replies[j - 1]);
    // The first run marked its scope, and the mark is still there.
    let key = first.stage->Execute_entry.scope.key();
    assert(first.visited.len() > 0 && first.visited.last() == key) by {
        if i > 0 {
            assert(replies.take(i).drop_last() =~= replies.take(i - 1));
        } else {
            assert(replies.take(i) =~= Seq::<Reply>::empty());
        }
    }
    assert(before.visited.contains(key)) by {
        lemma_visited_grows(action, start, replies.take(j - 1), i);
        assert(replies.take(j - 1).take(i) =~= replies.take(i));
        assert(before.visited[first.visited.len() - 1] == key);
    }
}

} // verus!
