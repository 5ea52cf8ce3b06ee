//! The calls that a traversal makes.
//!
//! A backend remembers the calls of its methods ([`crate::navigation::Backend`]),
//! and a route adds exactly the calls of its traversal: [`calls_of`]. What holds
//! of one gesture, whatever the backend answers, is stated of these calls.

use vstd::prelude::*;

use crate::navigation::walk::{
    self, answered_at, answers, asked, begin, next_stage, run, step, try_scope, well_answered,
    Entry, Reply, Request, Stage, WalkState,
};
use crate::navigation::{Action, Client, Direction, Outcome, Scope};

verus! {

/// One call of a backend method: what it was asked and handed, and what it
/// returned.
#[derive(Debug, PartialEq, Eq)]
pub struct Call {
    /// The method with the scope or client it was handed.
    pub request: Request,
    /// The gesture, where the method takes it.
    pub gesture: Option<(Action, Direction)>,
    /// The start of the gesture, where the method takes it.
    pub started_at: Option<u64>,
    /// What the method returned.
    pub reply: Reply,
}

/// A call that takes neither the gesture nor its start.
pub open spec fn looked_up(request: Request, reply: Reply) -> Call {
    Call { request, gesture: None, started_at: None, reply }
}

/// A call that takes the start of the gesture.
pub open spec fn observed(request: Request, started_at: u64, reply: Reply) -> Call {
    Call { request, gesture: None, started_at: Some(started_at), reply }
}

/// A call that takes the gesture: the only calls that carry it out.
pub open spec fn carried_out(
    request: Request,
    action: Action,
    direction: Direction,
    outcome: Outcome,
) -> Call {
    Call {
        request,
        gesture: Some((action, direction)),
        started_at: None,
        reply: Reply::Outcome(outcome),
    }
}

/// A borrowed client as a value.
pub open spec fn owned_client(client: Option<&Client>) -> Option<Client> {
    match client {
        Some(client) => Some(*client),
        None => None,
    }
}

/// Whether a request may carry the gesture out.
pub open spec fn is_effect(request: Request) -> bool {
    request is Execute || request is Relay || request is Terminal
}

/// Whether a backend remembers the calls of a request. The refresh hooks leave
/// what it remembers as it is.
pub open spec fn is_remembered(request: Request) -> bool {
    !(request is RefreshScope || request is RefreshClient)
}

/// The call that a request of a gesture stands for.
pub open spec fn call_for(
    request: Request,
    action: Action,
    direction: Direction,
    started_at: u64,
    reply: Reply,
) -> Call {
    Call {
        request,
        gesture: if is_effect(request) {
            Some((action, direction))
        } else {
            None
        },
        started_at: if request is InspectScope || request is ResolveClient
            || request is ValidateClient {
            Some(started_at)
        } else {
            None
        },
        reply,
    }
}

/// What is remembered after one more request of a gesture.
pub open spec fn remembering(
    before: Seq<Call>,
    request: Request,
    action: Action,
    direction: Direction,
    started_at: u64,
    reply: Reply,
) -> Seq<Call> {
    if is_remembered(request) {
        before.push(call_for(request, action, direction, started_at, reply))
    } else {
        before
    }
}

/// The remembered calls of a traversal that gets `replies` in turn.
pub open spec fn calls_of(
    action: Action,
    direction: Direction,
    started_at: u64,
    start: WalkState,
    replies: Seq<Reply>,
) -> Seq<Call>
    decreases replies.len(),
{
    if replies.len() == 0 {
        Seq::empty()
    } else {
        let before = calls_of(action, direction, started_at, start, replies.drop_last());
        match asked(run(action, start, replies.drop_last()).stage) {
            Some(request) => remembering(
                before,
                request,
                action,
                direction,
                started_at,
                replies.last(),
            ),
            None => before,
        }
    }
}

/// The last reply of a well answered traversal answers what was asked, and the
/// replies before it are well answered.
proof fn lemma_last_answer(action: Action, start: WalkState, replies: Seq<Reply>)
    requires
        well_answered(action, start, replies),
        replies.len() > 0,
    ensures
        well_answered(action, start, replies.drop_last()),
        asked(run(action, start, replies.drop_last()).stage) is Some,
        answers(asked(run(action, start, replies.drop_last()).stage)->0, replies.last()),
{
    let shorter = replies.drop_last();
    assert(replies.take(replies.len() - 1) =~= shorter);
    assert(answered_at(action, start, replies, replies.len() - 1));
    assert forall|i: int| 0 <= i < shorter.len() implies #[trigger] answered_at(
        action,
        start,
        shorter,
        i,
    ) by {
        assert(shorter.take(i) =~= replies.take(i));
        assert(shorter[i] == replies[i]);
        assert(answered_at(action, start, replies, i));
    }
}

/// Whether no call crosses the host boundary.
pub open spec fn stays_local(calls: Seq<Call>) -> bool {
    forall|k: int|
        0 <= k < calls.len() ==> !((#[trigger] calls[k]).request is Relay)
            && !(calls[k].request is Terminal)
}

/// Pane layout is host-local: routing a pane move calls neither the relay nor
/// the terminal, whatever the backend answers.
pub proof fn lemma_pane_move_calls_stay_local(
    direction: Direction,
    started_at: u64,
    include_current: bool,
    exact_client: Option<Client>,
    continuing_client: Option<Client>,
    continuing_scope: Option<Scope>,
    replies: Seq<Reply>,
)
    ensures
        stays_local(
            calls_of(
                Action::PaneMove,
                direction,
                started_at,
                begin(
                    Action::PaneMove,
                    include_current,
                    exact_client,
                    continuing_client,
                    continuing_scope,
                ),
                replies,
            ),
        ),
    decreases replies.len(),
{
    if replies.len() > 0 {
        lemma_pane_move_calls_stay_local(
            direction,
            started_at,
            include_current,
            exact_client,
            continuing_client,
            continuing_scope,
            replies.drop_last(),
        );
        walk::lemma_pane_move_stays_local(
            include_current,
            exact_client,
            continuing_client,
            continuing_scope,
            replies.drop_last(),
        );
    }
}

/// Whether no scope identity is operated on twice.
pub open spec fn executes_once(calls: Seq<Call>) -> bool {
    forall|i: int, j: int|
        #![trigger calls[i], calls[j]]
        0 <= i < j < calls.len() && calls[i].request is Execute && calls[j].request is Execute
            ==> calls[i].request->Execute_0.key() != calls[j].request->Execute_0.key()
}

/// Whether every operation of `calls` ran in one of the scopes `visited`.
spec fn executed_within(calls: Seq<Call>, visited: Seq<Seq<char>>) -> bool {
    forall|k: int|
        #![trigger calls[k]]
        0 <= k < calls.len() && calls[k].request is Execute ==> visited.contains(
            calls[k].request->Execute_0.key(),
        )
}

/// The scopes whose operation has run, where the next one is not yet run.
spec fn tried(state: WalkState) -> Seq<Seq<char>> {
    if state.stage is Execute {
        state.visited.drop_last()
    } else {
        state.visited
    }
}

proof fn lemma_marks(
    action: Action,
    direction: Direction,
    started_at: u64,
    start: WalkState,
    replies: Seq<Reply>,
)
    requires
        well_answered(action, start, replies),
        start.stage is Execute ==> start.visited.len() > 0 && start.visited.last()
            == start.stage->Execute_entry.scope.key() && !tried(start).contains(
            start.visited.last(),
        ),
    ensures
        ({
            let state = run(action, start, replies);
            let calls = calls_of(action, direction, started_at, start, replies);
            &&& executes_once(calls)
            &&& executed_within(calls, tried(state))
            &&& state.stage is Execute ==> state.visited.len() > 0 && state.visited.last()
                == state.stage->Execute_entry.scope.key() && !tried(state).contains(
                state.visited.last(),
            )
        }),
    decreases replies.len(),
{
    if replies.len() > 0 {
        lemma_last_answer(action, start, replies);
        lemma_marks(action, direction, started_at, start, replies.drop_last());
        reveal(next_stage);
        let before = run(action, start, replies.drop_last());
        let after = run(action, start, replies);
        let earlier = calls_of(action, direction, started_at, start, replies.drop_last());
        let calls = calls_of(action, direction, started_at, start, replies);
        let reply = replies.last();
        if after.stage is Execute {
            assert(!(before.stage is Execute)) by {
                walk::lemma_step_progress(action, before, reply);
                walk::lemma_execute_marks(action, before, reply);
            }
            walk::lemma_execute_marks(action, before, reply);
            assert(after.visited.drop_last() =~= before.visited);
        } else {
            assert(after.visited == before.visited);
        }
        assert forall|k: int|
            #![trigger calls[k]]
            0 <= k < calls.len() && calls[k].request is Execute implies tried(after).contains(
            calls[k].request->Execute_0.key(),
        ) by {
            if k < earlier.len() {
                assert(calls[k] == earlier[k]);
                let key = calls[k].request->Execute_0.key();
                assert(tried(before).contains(key));
                let i = choose|i: int| 0 <= i < tried(before).len() && tried(before)[i] == key;
                assert(tried(after)[i] == key);
            } else {
                assert(before.stage is Execute);
                assert(tried(after)[tried(after).len() - 1] == calls[k].request->Execute_0.key());
            }
        }
        assert forall|i: int, j: int|
            #![trigger calls[i], calls[j]]
            0 <= i < j < calls.len() && calls[i].request is Execute
                && calls[j].request is Execute implies calls[i].request->Execute_0.key()
            != calls[j].request->Execute_0.key() by {
            assert(calls[i] == earlier[i]);
            if j < earlier.len() {
                assert(calls[j] == earlier[j]);
            } else {
                assert(before.stage is Execute);
            }
        }
    }
}

/// No gesture is repeated: routing operates at most once on each scope
/// identity, whatever the backend answers.
pub proof fn lemma_scope_called_once(
    action: Action,
    direction: Direction,
    started_at: u64,
    include_current: bool,
    exact_client: Option<Client>,
    continuing_client: Option<Client>,
    continuing_scope: Option<Scope>,
    replies: Seq<Reply>,
)
    requires
        well_answered(
            action,
            begin(action, include_current, exact_client, continuing_client, continuing_scope),
            replies,
        ),
    ensures
        executes_once(
            calls_of(
                action,
                direction,
                started_at,
                begin(action, include_current, exact_client, continuing_client, continuing_scope),
                replies,
            ),
        ),
{
    let start = begin(
        action,
        include_current,
        exact_client,
        continuing_client,
        continuing_scope,
    );
    lemma_marks(action, direction, started_at, start, replies);
}

/// Reaching a scope whose identity was already operated on ends the route with
/// an error, and nothing further is called.
pub proof fn lemma_cycle_is_an_error(
    action: Action,
    direction: Direction,
    started_at: u64,
    include_current: bool,
    exact_client: Option<Client>,
    continuing_client: Option<Client>,
    continuing_scope: Option<Scope>,
    replies: Seq<Reply>,
    k: int,
    entry: Entry,
)
    requires
        ({
            let start = begin(
                action,
                include_current,
                exact_client,
                continuing_client,
                continuing_scope,
            );
            let calls = calls_of(action, direction, started_at, start, replies);
            &&& well_answered(action, start, replies)
            &&& 0 <= k < calls.len()
            &&& calls[k].request is Execute
            &&& calls[k].request->Execute_0.key() == entry.scope.key()
        }),
    ensures
        ({
            let start = begin(
                action,
                include_current,
                exact_client,
                continuing_client,
                continuing_scope,
            );
            let reached = try_scope(action, run(action, start, replies).visited, entry);
            &&& reached is Done
            &&& reached->result.outcome is Error
            &&& asked(reached) is None
        }),
{
    let start = begin(
        action,
        include_current,
        exact_client,
        continuing_client,
        continuing_scope,
    );
    lemma_marks(action, direction, started_at, start, replies);
    let state = run(action, start, replies);
    let calls = calls_of(action, direction, started_at, start, replies);
    let key = calls[k].request->Execute_0.key();
    assert(tried(state).contains(key));
    let i = choose|i: int| 0 <= i < tried(state).len() && tried(state)[i] == key;
    assert(state.visited[i] == key);
}

/// Whether a call follows that client outward.
pub open spec fn follows(request: Request, client: Client) -> bool {
    ||| request == Request::ParentScope(client)
    ||| request == Request::Relay(client)
    ||| request == Request::Terminal(Some(client))
}

/// The call that confirms a client.
pub open spec fn confirmed(client: Client, started_at: u64) -> Call {
    observed(Request::ValidateClient(client), started_at, Reply::Valid(true))
}

/// Whether a client is followed only directly after it was confirmed, at the
/// one start of the gesture.
pub open spec fn follows_confirmed(calls: Seq<Call>, started_at: u64) -> bool {
    forall|k: int, client: Client|
        0 <= k < calls.len() && #[trigger] follows(calls[k].request, client) ==> k > 0
            && calls[k - 1] == confirmed(client, started_at)
}

/// A client is followed to its ancestry, its relay or its terminal only
/// directly after it was revalidated, always with the start of the gesture. The
/// caller's client is exact, or there is none.
pub proof fn lemma_followed_client_is_confirmed(
    action: Action,
    direction: Direction,
    started_at: u64,
    include_current: bool,
    exact_client: Option<Client>,
    continuing_client: Option<Client>,
    continuing_scope: Option<Scope>,
    replies: Seq<Reply>,
)
    requires
        exact_client is Some ==> exact_client->0.exact,
        well_answered(
            action,
            begin(action, include_current, exact_client, continuing_client, continuing_scope),
            replies,
        ),
    ensures
        follows_confirmed(
            calls_of(
                action,
                direction,
                started_at,
                begin(action, include_current, exact_client, continuing_client, continuing_scope),
                replies,
            ),
            started_at,
        ),
{
    let start = begin(
        action,
        include_current,
        exact_client,
        continuing_client,
        continuing_scope,
    );
    lemma_confirmations(action, direction, started_at, start, replies);
}

/// Whether a stage that follows a client comes directly after its confirmation.
spec fn is_confirmed(stage: Stage, calls: Seq<Call>, started_at: u64) -> bool {
    &&& forall|client: Client|
        asked(stage) is Some && #[trigger] follows(asked(stage)->0, client) ==> calls.len() > 0
            && calls.last() == confirmed(client, started_at)
    &&& stage is FindCurrent ==> stage->FindCurrent_client is None
}

/// What follows a client is asked only where the answer confirmed it.
proof fn lemma_step_confirms(action: Action, state: WalkState, reply: Reply)
    requires
        asked(state.stage) is Some,
        answers(asked(state.stage)->0, reply),
        state.stage is FindCurrent ==> state.stage->FindCurrent_client is None,
    ensures
        !(step(action, state, reply).stage is FindCurrent),
        forall|client: Client|
            asked(step(action, state, reply).stage) is Some && #[trigger] follows(
                asked(step(action, state, reply).stage)->0,
                client,
            ) ==> asked(state.stage) == Some(Request::ValidateClient(client)) && reply
                == Reply::Valid(true),
{
    reveal(next_stage);
}

proof fn lemma_confirmations(
    action: Action,
    direction: Direction,
    started_at: u64,
    start: WalkState,
    replies: Seq<Reply>,
)
    requires
        well_answered(action, start, replies),
        is_confirmed(start.stage, Seq::empty(), started_at),
    ensures
        ({
            let calls = calls_of(action, direction, started_at, start, replies);
            &&& follows_confirmed(calls, started_at)
            &&& is_confirmed(run(action, start, replies).stage, calls, started_at)
        }),
    decreases replies.len(),
{
    if replies.len() > 0 {
        lemma_last_answer(action, start, replies);
        lemma_confirmations(action, direction, started_at, start, replies.drop_last());
        let before = run(action, start, replies.drop_last());
        let after = run(action, start, replies);
        lemma_step_confirms(action, before, replies.last());
        let earlier = calls_of(action, direction, started_at, start, replies.drop_last());
        let calls = calls_of(action, direction, started_at, start, replies);
        assert forall|k: int, client: Client|
            0 <= k < calls.len() && #[trigger] follows(calls[k].request, client) implies k > 0
            && calls[k - 1] == confirmed(client, started_at) by {
            if k < earlier.len() {
                assert(calls[k] == earlier[k]);
                assert(follows(earlier[k].request, client));
                assert(calls[k - 1] == earlier[k - 1]);
            } else {
                assert(follows(asked(before.stage)->0, client));
                assert(calls[k - 1] == earlier.last());
            }
        }
        assert forall|client: Client|
            asked(after.stage) is Some && #[trigger] follows(
                asked(after.stage)->0,
                client,
            ) implies calls.len() > 0 && calls.last() == confirmed(client, started_at) by {
            assert(asked(before.stage) == Some(Request::ValidateClient(client)));
            assert(calls.last() == call_for(
                Request::ValidateClient(client),
                action,
                direction,
                started_at,
                replies.last(),
            ));
        }
    }
}

/// Whether every call before `n` that may carry the gesture out declined it.
pub open spec fn declined_before(calls: Seq<Call>, n: int) -> bool {
    forall|k: int|
        0 <= k < n && is_effect((#[trigger] calls[k]).request) ==> calls[k].reply
            == Reply::Outcome(Outcome::Declined)
}

/// Whether the calls of a finished route end with the one that decided it: all
/// earlier ones declined the gesture, an accepted or failed one is the last
/// call and gives the outcome, and no gesture is handled without one.
pub open spec fn decided_last(calls: Seq<Call>, outcome: Outcome) -> bool {
    let n = calls.len() as int;
    &&& declined_before(calls, n - 1)
    &&& n > 0 && is_effect(calls[n - 1].request) && calls[n - 1].reply != Reply::Outcome(
        Outcome::Declined,
    ) ==> calls[n - 1].reply == Reply::Outcome(outcome)
    &&& outcome is Handled ==> n > 0 && is_effect(calls[n - 1].request) && calls[n - 1].reply
        == Reply::Outcome(Outcome::Handled)
}

/// The first scope, relay or terminal that accepts the gesture or fails on it
/// is the last that is called, and its outcome is reported; a handled gesture
/// was accepted by exactly that call, after all others declined.
pub proof fn lemma_decided_call_is_last(
    action: Action,
    direction: Direction,
    started_at: u64,
    include_current: bool,
    exact_client: Option<Client>,
    continuing_client: Option<Client>,
    continuing_scope: Option<Scope>,
    replies: Seq<Reply>,
)
    requires
        ({
            let start = begin(
                action,
                include_current,
                exact_client,
                continuing_client,
                continuing_scope,
            );
            &&& well_answered(action, start, replies)
            &&& run(action, start, replies).stage is Done
        }),
    ensures
        ({
            let start = begin(
                action,
                include_current,
                exact_client,
                continuing_client,
                continuing_scope,
            );
            decided_last(
                calls_of(action, direction, started_at, start, replies),
                run(action, start, replies).stage->result.outcome,
            )
        }),
{
    let start = begin(
        action,
        include_current,
        exact_client,
        continuing_client,
        continuing_scope,
    );
    lemma_decisions(action, direction, started_at, start, replies);
}

/// A step ends the traversal exactly with a decided answer, or without one.
proof fn lemma_step_decides(action: Action, state: WalkState, reply: Reply)
    requires
        asked(state.stage) is Some,
        answers(asked(state.stage)->0, reply),
    ensures
        ({
            let effect = is_effect(asked(state.stage)->0);
            match step(action, state, reply).stage {
                Stage::Done { result } => {
                    &&& effect && reply != Reply::Outcome(Outcome::Declined) ==> reply
                        == Reply::Outcome(result.outcome)
                    &&& result.outcome is Handled ==> effect && reply == Reply::Outcome(
                        Outcome::Handled,
                    )
                },
                _ => effect ==> reply == Reply::Outcome(Outcome::Declined),
            }
        }),
{
    reveal(next_stage);
}

proof fn lemma_decisions(
    action: Action,
    direction: Direction,
    started_at: u64,
    start: WalkState,
    replies: Seq<Reply>,
)
    requires
        well_answered(action, start, replies),
        start.stage is Done ==> !(start.stage->result.outcome is Handled),
    ensures
        ({
            let calls = calls_of(action, direction, started_at, start, replies);
            match run(action, start, replies).stage {
                Stage::Done { result } => decided_last(calls, result.outcome),
                _ => declined_before(calls, calls.len() as int),
            }
        }),
    decreases replies.len(),
{
    if replies.len() > 0 {
        lemma_last_answer(action, start, replies);
        lemma_decisions(action, direction, started_at, start, replies.drop_last());
        let before = run(action, start, replies.drop_last());
        lemma_step_decides(action, before, replies.last());
        let earlier = calls_of(action, direction, started_at, start, replies.drop_last());
        let calls = calls_of(action, direction, started_at, start, replies);
        assert(!(before.stage is Done));
        assert forall|k: int|
            0 <= k < earlier.len() && is_effect((#[trigger] calls[k]).request) implies calls[k].reply
            == Reply::Outcome(Outcome::Declined) by {
            assert(calls[k] == earlier[k]);
        }
    }
}

} // verus!
