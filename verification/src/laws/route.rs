//! The way of a gesture outwards: what is asked first, and what follows each
//! answer.

use vstd::prelude::*;

use crate::navigation::walk::{
    asked, displays, next_stage, step, Entry, Reply, Request, Stage, Walk, WalkState,
};
use crate::navigation::{Action, Client, Outcome, RouteResult, Scope};

verus! {

/// How a gesture ends where it is not known to whom it belongs: a pane move is
/// declined, and anything else is an error that keeps nothing.
pub open spec fn ends_in_doubt(action: Action, client: Option<Client>, stage: Stage) -> bool {
    stage matches Stage::Done { result } && if action is PaneMove {
        result.outcome is Declined && result.client == client && result.scope is None
    } else {
        result.outcome is Error && result.client is None && result.scope is None
    }
}

/// What a gesture asks first. State of an earlier gesture is refreshed, the
/// scope before the client; else an exact source is confirmed, or the caller's
/// scope looked for; outside the caller's scope a given client is confirmed, and
/// without one the terminal is left, which a pane move never reaches.
pub proof fn lemma_first_request(
    action: Action,
    include_current: bool,
    exact: Option<Client>,
    client: Option<Client>,
    scope: Option<Scope>,
    walk: Walk,
    request: Option<Request>,
)
    requires
        call_ensures(Walk::start, (action, include_current, exact, client, scope), walk),
        call_ensures(Walk::request, (&walk,), request),
    ensures
        scope is Some ==> request == Some(Request::RefreshScope(scope->0)),
        scope is None && client is Some ==> request == Some(Request::RefreshClient(client->0)),
        scope is None && client is None && include_current && exact is Some && exact->0.exact
            ==> request == Some(Request::ValidateClient(exact->0)),
        scope is None && client is None && include_current && (exact is None || !exact->0.exact)
            ==> request == Some(Request::CurrentScope),
        scope is None && client is None && !include_current && exact is Some ==> request == Some(
            Request::ValidateClient(exact->0),
        ),
        scope is None && client is None && !include_current && exact is None && action is PaneMove
            ==> request is None,
        scope is None && client is None && !include_current && exact is None && !(
        action is PaneMove) ==> request == Some(Request::Terminal(None)),
        walk@.visited.len() == 0,
{
}

/// Each answer is taken as one step, and the next request is the one of the
/// stage that was reached.
pub proof fn lemma_requests_follow_stages(
    walk: Walk,
    reply: Reply,
    next: Walk,
    request: Option<Request>,
)
    requires
        call_ensures(Walk::answer, (walk, reply), next),
        call_ensures(Walk::request, (&next,), request),
    ensures
        next@ == step(walk.action(), walk@, reply),
        next.action() == walk.action(),
        request == asked(next@.stage),
        request is None <==> next@.stage is Done,
{
}

/// A gesture that needs a session is not tried in a scope without one: the
/// scope is inspected first. A scope of unknown provenance is inspected too
/// where the gesture starts there. No scope is tried twice: to come back to one
/// is an error.
pub proof fn lemma_entering_a_scope(
    action: Action,
    state: WalkState,
    client: Client,
    scope: Scope,
)
    requires
        state.stage == (Stage::Parent { client }),
    ensures
        ({
            let next = step(action, state, Reply::Scope(Some(scope))).stage;
            let bare = !(action is PaneSelect) && scope.session is None;
            &&& bare ==> asked(next) == Some(Request::InspectScope(scope))
            &&& !bare && !state.visited.contains(scope.key()) ==> asked(next) == Some(
                Request::Execute(scope),
            )
            &&& !bare && state.visited.contains(scope.key()) ==> (next matches Stage::Done {
                result,
            } && result.outcome is Error)
        }),
        !state.visited.contains(scope.key()) && (action is PaneSelect || scope.session is Some)
            ==> step(action, state, Reply::Scope(Some(scope))).visited == state.visited.push(
            scope.key(),
        ),
{
    reveal(next_stage);
}

/// An inspection gives the scope its session, and its client where none was
/// known; without a session a pane move is declined, and anything else an error.
pub proof fn lemma_after_inspection(
    action: Action,
    state: WalkState,
    entry: Entry,
    resolved: Option<Scope>,
    discovered: Option<Client>,
)
    requires
        state.stage == (Stage::InspectSession { entry }),
    ensures
        ({
            let next = step(action, state, Reply::Inspection(resolved, discovered)).stage;
            &&& resolved matches Some(scope) ==> !state.visited.contains(scope.key()) ==> (
            next matches Stage::Execute { entry: tried } && tried.scope == scope && tried.leg
                == entry.leg && tried.client == (if entry.client is Some {
                entry.client
            } else {
                discovered
            }))
            &&& resolved is None && action is PaneMove ==> ends_in_doubt(action, None, next)
            &&& resolved is None && !(action is PaneMove) ==> (next matches Stage::Done { result }
                && result.outcome is Error && result.client is None && result.scope == Some(
                entry.scope,
            ))
        }),
{
    reveal(next_stage);
}

/// A scope that accepts the gesture, or fails on it, ends it there. A scope that
/// declines hands it to its client: the one that is known, else the one that is
/// looked for now, and only where it was not looked for before.
pub proof fn lemma_after_execution(action: Action, state: WalkState, entry: Entry, outcome: Outcome)
    requires
        state.stage == (Stage::Execute { entry }),
    ensures
        ({
            let next = step(action, state, Reply::Outcome(outcome)).stage;
            &&& !(outcome is Declined) ==> (next matches Stage::Done { result } && result.outcome
                == outcome && result.scope == Some(entry.scope) && result.client == (
            if entry.leg is Origin {
                entry.client
            } else {
                None
            }))
            &&& outcome is Declined ==> (entry.client matches Some(client) ==> asked(next) == Some(
                Request::ValidateClient(client),
            ) && next == (Stage::BeforeParent { client }))
            &&& outcome is Declined && entry.client is None && !entry.inspected ==> asked(next)
                == Some(Request::ResolveClient(entry.scope))
            &&& outcome is Declined && entry.client is None && entry.inspected ==> ends_in_doubt(
                action,
                None,
                next,
            )
        }),
{
    reveal(next_stage);
}

/// The client that leaves a scope is confirmed before it is followed; without
/// one the gesture ends in doubt.
pub proof fn lemma_after_resolution(action: Action, state: WalkState, entry: Entry, client: Client)
    requires
        state.stage == (Stage::Resolve { entry }),
    ensures
        step(action, state, Reply::Client(Some(client))).stage == (Stage::BeforeParent { client }),
        asked(step(action, state, Reply::Client(Some(client))).stage) == Some(
            Request::ValidateClient(client),
        ),
        ends_in_doubt(action, None, step(action, state, Reply::Client(None)).stage),
{
    reveal(next_stage);
}

/// A confirmed client is followed: to the scope around it, else to its relay,
/// which is asked after it was confirmed once more, else to its terminal, after
/// it was confirmed again. A client that is not confirmed is not followed.
pub proof fn lemma_following_a_client(action: Action, visited: Seq<Seq<char>>, client: Client)
    ensures
        ({
            let at = |stage: Stage| WalkState { visited, stage };
            let before = at(Stage::BeforeParent { client });
            let parent = at(Stage::Parent { client });
            let relay = at(Stage::BeforeRelay { client });
            let asks = at(Stage::Relay { client });
            let terminal = at(Stage::BeforeTerminal { client });
            &&& asked(step(action, before, Reply::Valid(true)).stage) == Some(
                Request::ParentScope(client),
            )
            &&& ends_in_doubt(
                action,
                Some(client),
                step(action, before, Reply::Valid(false)).stage,
            )
            &&& !(action is PaneMove) ==> asked(step(action, parent, Reply::Scope(None)).stage)
                == Some(Request::ValidateClient(client)) && step(
                action,
                parent,
                Reply::Scope(None),
            ).stage == (Stage::BeforeRelay { client })
            &&& action is PaneMove ==> (step(action, parent, Reply::Scope(None)).stage
                matches Stage::Done { result } && result.outcome is Declined && result.client
                == Some(client))
            &&& asked(step(action, relay, Reply::Valid(true)).stage) == Some(Request::Relay(client))
            &&& (step(action, relay, Reply::Valid(false)).stage matches Stage::Done { result }
                && result.outcome is Error && result.client is None)
            &&& step(action, asks, Reply::Outcome(Outcome::Declined)).stage == (
            Stage::BeforeTerminal { client })
            &&& (step(action, asks, Reply::Outcome(Outcome::Handled)).stage matches Stage::Done {
                result,
            } && result.outcome is Handled && result.client == Some(client))
            &&& (step(action, asks, Reply::Outcome(Outcome::Error)).stage matches Stage::Done {
                result,
            } && result.outcome is Error && result.client == Some(client))
            &&& asked(step(action, terminal, Reply::Valid(true)).stage) == Some(
                Request::Terminal(Some(client)),
            )
            &&& (step(action, terminal, Reply::Valid(false)).stage matches Stage::Done { result }
                && result.outcome is Error && result.client is None)
        }),
{
    reveal(next_stage);
}

/// What the terminal answers is the outcome of the gesture, and its client is
/// kept.
pub proof fn lemma_after_the_terminal(
    action: Action,
    state: WalkState,
    client: Option<Client>,
    outcome: Outcome,
)
    requires
        state.stage == (Stage::Terminal { client }),
    ensures
        step(action, state, Reply::Outcome(outcome)).stage == (Stage::Done {
            result: RouteResult { outcome, client, scope: None },
        }),
{
    reveal(next_stage);
}

/// Kept state is used only where it still holds: the refreshed client must show
/// the refreshed scope, on the same server, in the same pane and session. A
/// scope or a client that is gone ends the gesture in doubt.
pub proof fn lemma_after_refreshing(
    action: Action,
    visited: Seq<Seq<char>>,
    scope: Scope,
    current: Scope,
    previous: Option<Client>,
    exact: Option<Client>,
    client: Client,
)
    ensures
        ({
            let at = |stage: Stage| WalkState { visited, stage };
            let first = at(Stage::RefreshScope { scope, previous, exact });
            let second = at(Stage::RefreshDisplay { current, previous: client });
            let third = at(Stage::RefreshClient { previous: client });
            &&& ends_in_doubt(action, None, step(action, first, Reply::Scope(None)).stage)
            &&& previous matches Some(kept) ==> asked(
                step(action, first, Reply::Scope(Some(current))).stage,
            ) == Some(Request::RefreshClient(kept))
            &&& ends_in_doubt(action, None, step(action, second, Reply::Client(None)).stage)
            &&& !displays(client, current) ==> ends_in_doubt(
                action,
                Some(client),
                step(action, second, Reply::Client(Some(client))).stage,
            )
            &&& displays(client, current) && !visited.contains(current.key()) && (
            action is PaneSelect || current.session is Some) ==> (step(
                action,
                second,
                Reply::Client(Some(client)),
            ).stage matches Stage::Execute { entry } && entry.scope == current && entry.client
                == Some(client) && entry.leg is Origin)
            &&& ends_in_doubt(action, None, step(action, third, Reply::Client(None)).stage)
            &&& displays(client, current) <==> client.socket@ == current.socket@ && client.pane@
                == current.pane@ && (current.session is Some ==> client.session@
                == current.session->0@)
        }),
{
    reveal(next_stage);
}

/// A client by itself names a scope: its server, its pane and its session.
pub proof fn lemma_scope_of_a_client(
    action: Action,
    visited: Seq<Seq<char>>,
    client: Client,
    previous: Client,
)
    ensures
        ({
            let at = |stage: Stage| WalkState { visited, stage };
            let refreshed = step(
                action,
                at(Stage::RefreshClient { previous }),
                Reply::Client(Some(client)),
            ).stage;
            let confirmed = step(
                action,
                at(Stage::ConfirmSource { source: client }),
                Reply::Valid(true),
            ).stage;
            &&& refreshed matches Stage::Execute { entry } ==> entry.scope.socket == client.socket
                && entry.scope.pane == client.pane && entry.scope.session == Some(client.session)
                && entry.client == Some(client) && entry.leg is Origin
            &&& refreshed is Execute || refreshed is Done
            &&& confirmed matches Stage::Execute { entry } ==> entry.scope.socket == client.socket
                && entry.scope.pane == client.pane && entry.client == Some(client)
                && entry.leg is Origin && (client.session@.len() > 0 ==> entry.scope.session
                == Some(client.session)) && (client.session@.len() == 0 ==> entry.scope.session
                is None)
            &&& action is PaneSelect || client.session@.len() > 0 ==> confirmed is Execute
                || confirmed is Done
            &&& ends_in_doubt(
                action,
                Some(client),
                step(
                    action,
                    at(Stage::ConfirmSource { source: client }),
                    Reply::Valid(false),
                ).stage,
            )
        }),
{
    reveal(next_stage);
}

/// The caller's scope is tried with the client that is known; one that has no
/// client yet is inspected first, so that its client is known when it declines.
/// Without a scope the gesture goes outward at once.
pub proof fn lemma_after_finding_the_scope(
    action: Action,
    state: WalkState,
    client: Option<Client>,
    scope: Scope,
)
    requires
        state.stage == (Stage::FindCurrent { client }),
        !state.visited.contains(scope.key()),
    ensures
        ({
            let found = step(action, state, Reply::Scope(Some(scope))).stage;
            let none = step(action, state, Reply::Scope(None)).stage;
            let bare = !(action is PaneSelect) && scope.session is None;
            &&& bare || client is None ==> asked(found) == Some(Request::InspectScope(scope))
            &&& !bare && client is Some ==> (found matches Stage::Execute { entry } && entry.scope
                == scope && entry.client == client && entry.leg is Origin)
            &&& action is PaneMove ==> (none matches Stage::Done { result } && result.outcome
                is Declined && result.client == client)
            &&& !(action is PaneMove) ==> asked(none) == Some(Request::Terminal(client))
        }),
{
    reveal(next_stage);
}

/// The client of the caller's scope is the one that the inspection found, and
/// it is not looked for again.
pub proof fn lemma_after_finding_the_client(
    action: Action,
    state: WalkState,
    entry: Entry,
    resolved: Option<Scope>,
    discovered: Option<Client>,
)
    requires
        state.stage == (Stage::InspectClient { entry }),
        !state.visited.contains(entry.scope.key()),
    ensures
        step(action, state, Reply::Inspection(resolved, discovered)).stage
            matches Stage::Execute { entry: tried } && tried.scope == entry.scope && tried.client
            == discovered && tried.inspected && tried.leg == entry.leg,
{
    reveal(next_stage);
}

} // verus!
