//! What a relay makes of a request, and which sockets it leaves behind.

use vstd::prelude::*;
use vstd::string::*;

use crate::focus::publish::{
    focus_line, focus_members, focus_request, lemma_focus_members, FocusRequest,
};
use crate::focus::{is_focus_token, lease_bounds};
use crate::json::{
    has_members, json_text, member, member_of, parse_json, text_member, text_of, Json, JsonValue,
    Member, MemberValue,
};
use crate::navigation::outer::wire_scope;
use crate::navigation::{lemma_direction_names_distinct, Action, Direction, Outcome};
use crate::relay::protocol::{
    lemma_navigate_members, navigate_line, navigate_members, valid_wire, wire_pair, ABORT_PATH,
    COMMIT_PATH, DECLINED, EMITTED, ERROR, FOCUS, NAVIGATE, PREPARE_PATH,
};
use crate::text::{ends_with, same, starts_with};

verus! {

/// What a request asks for.
#[derive(Debug, PartialEq, Eq)]
pub enum Operation {
    /// Nothing: it is malformed, of another version, or unknown.
    Refused,
    /// A gesture is carried on.
    Navigate { scope: String, direction: String },
    /// Focus is claimed or released.
    Focus,
    PreparePath,
    AbortPath,
    CommitPath,
}

/// What a request asks for.
#[verifier::ext_equal]
pub enum OperationAsked {
    Refused,
    Navigate { scope: Seq<char>, direction: Seq<char> },
    Focus,
    PreparePath,
    AbortPath,
    CommitPath,
}

impl View for Operation {
    type V = OperationAsked;

    open spec fn view(&self) -> OperationAsked {
        match self {
            Operation::Refused => OperationAsked::Refused,
            Operation::Navigate { scope, direction } => OperationAsked::Navigate {
                scope: scope@,
                direction: direction@,
            },
            Operation::Focus => OperationAsked::Focus,
            Operation::PreparePath => OperationAsked::PreparePath,
            Operation::AbortPath => OperationAsked::AbortPath,
            Operation::CommitPath => OperationAsked::CommitPath,
        }
    }
}

/// What a request asks for: an operation of the frozen vocabulary in the one
/// version that is spoken.
pub open spec fn operation_of(message: JsonValue) -> OperationAsked {
    if member(message, "v"@) != Some(MemberValue::Number(Some(2))) {
        OperationAsked::Refused
    } else {
        match text_member(message, "op"@) {
            Some(op) => if op == NAVIGATE@ {
                match (text_member(message, "scope"@), text_member(message, "direction"@)) {
                    (Some(scope), Some(direction)) if wire_pair(scope, direction) => {
                        OperationAsked::Navigate { scope, direction }
                    },
                    _ => OperationAsked::Refused,
                }
            } else if op == FOCUS@ {
                OperationAsked::Focus
            } else if op == PREPARE_PATH@ {
                OperationAsked::PreparePath
            } else if op == ABORT_PATH@ {
                OperationAsked::AbortPath
            } else if op == COMMIT_PATH@ {
                OperationAsked::CommitPath
            } else {
                OperationAsked::Refused
            },
            None => OperationAsked::Refused,
        }
    }
}

/// Settle what a request asks for.
pub fn dispatch(message: &Json) -> (operation: Operation)
    ensures
        operation@ == operation_of(message@),
{
    match member_of(message, "v") {
        Some(Member::Number(Some(2))) => {},
        _ => {
            return Operation::Refused;
        },
    }
    let op = match text_of(message, "op") {
        Some(op) => op,
        None => {
            return Operation::Refused;
        },
    };
    if same(op, NAVIGATE) {
        if let Some(scope) = text_of(message, "scope") {
            if let Some(direction) = text_of(message, "direction") {
                if valid_wire(scope, direction) {
                    return Operation::Navigate {
                        scope: String::from_str(scope),
                        direction: String::from_str(direction),
                    };
                }
            }
        }
        Operation::Refused
    } else if same(op, FOCUS) {
        Operation::Focus
    } else if same(op, PREPARE_PATH) {
        Operation::PreparePath
    } else if same(op, ABORT_PATH) {
        Operation::AbortPath
    } else if same(op, COMMIT_PATH) {
        Operation::CommitPath
    } else {
        Operation::Refused
    }
}

/// Read one request line: its JSON, and what that asks for.
pub fn read_request(line: &str) -> (request: (Json, Operation))
    ensures
        request.0@ == json_text(line@),
        request.1@ == operation_of(json_text(line@)),
        // A gesture that a client asked for is the gesture that is carried on.
        forall|scope: Seq<char>, direction: Seq<char>, nonce: Seq<char>|
            line@ == #[trigger] navigate_line(scope, direction, nonce) && wire_pair(
                scope,
                direction,
            ) ==> request.1@ == (OperationAsked::Navigate { scope, direction }),
        // So is a claim or a release of focus.
        forall|token: Seq<char>, lease_ms: u64|
            line@ == #[trigger] focus_line(token, Some(lease_ms)) && is_focus_token(token)
                && lease_bounds(lease_ms as int) ==> request.1@ is Focus && focus_request(
                request.0@,
            ) == (FocusRequest::Claim { token, lease_ms }),
        forall|token: Seq<char>|
            line@ == #[trigger] focus_line(token, None) && is_focus_token(token)
                ==> request.1@ is Focus && focus_request(request.0@) == (FocusRequest::Release {
                token,
            }),
{
    let message = parse_json(line);
    proof {
        reveal_strlit("navigate");
        reveal_strlit("focus");
        reveal_strlit("claim");
        reveal_strlit("release");
        assert(NAVIGATE@.len() == 8 && FOCUS@.len() == 5);
        assert("claim"@.len() == 5 && "release"@.len() == 7);
        assert forall|scope: Seq<char>, direction: Seq<char>, nonce: Seq<char>|
            line@ == #[trigger] navigate_line(scope, direction, nonce) && wire_pair(
                scope,
                direction,
            ) implies operation_of(message@) == (OperationAsked::Navigate {
            scope,
            direction,
        }) by {
            let members = navigate_members(scope, direction, nonce);
            lemma_navigate_members(scope, direction, nonce);
            assert(has_members(message@, members));
            assert(members[0].0 == "direction"@);
            assert(members[2].0 == "op"@);
            assert(members[3].0 == "scope"@);
            assert(members[4].0 == "v"@);
        }
        assert forall|token: Seq<char>, lease_ms: u64|
            line@ == #[trigger] focus_line(token, Some(lease_ms)) && is_focus_token(token)
                && lease_bounds(lease_ms as int) implies operation_of(message@) is Focus
            && focus_request(message@) == (FocusRequest::Claim { token, lease_ms }) by {
            let members = focus_members(token, Some(lease_ms));
            lemma_focus_members(token, Some(lease_ms));
            assert(has_members(message@, members));
            assert(members[0].0 == "lease_ms"@);
            assert(members[1].0 == "op"@);
            assert(members[2].0 == "state"@);
            assert(members[3].0 == "token"@);
            assert(members[4].0 == "v"@);
        }
        assert forall|token: Seq<char>|
            line@ == #[trigger] focus_line(token, None) && is_focus_token(
                token,
            ) implies operation_of(message@) is Focus && focus_request(message@) == (
        FocusRequest::Release { token }) by {
            let members = focus_members(token, None);
            lemma_focus_members(token, None);
            assert(has_members(message@, members));
            assert(members[0].0 == "op"@);
            assert(members[1].0 == "state"@);
            assert(members[2].0 == "token"@);
            assert(members[3].0 == "v"@);
        }
    }
    let operation = dispatch(&message);
    (message, operation)
}

/// The gesture that a wire scope and direction name: an action that a relay
/// may carry, and a direction that it gives a meaning.
pub open spec fn names_gesture(
    scope: Seq<char>,
    direction: Seq<char>,
    action: Action,
    way: Direction,
) -> bool {
    wire_scope(action) == Some(scope) && way.suits(action) && way.name() == direction
}

/// The gesture that a wire scope and direction name.
pub fn gesture(scope: &str, direction: &str) -> (gesture: Option<(Action, Direction)>)
    ensures
        match gesture {
            Some((action, way)) => names_gesture(scope@, direction@, action, way),
            None => forall|action: Action, way: Direction|
                !names_gesture(scope@, direction@, action, way),
        },
{
    let action = if same(scope, "pane") {
        Action::PaneSelect
    } else if same(scope, "window") {
        Action::TabSelect
    } else if same(scope, "move") {
        Action::TabMove
    } else {
        return None;
    };
    proof {
        lemma_wire_scopes_distinct(action);
    }
    match Direction::parse(action, direction) {
        Ok(way) => Some((action, way)),
        Err(_) => None,
    }
}

/// Two actions share no wire name.
proof fn lemma_wire_scopes_distinct(action: Action)
    ensures
        forall|other: Action|
            wire_scope(action) is Some && #[trigger] wire_scope(other) == wire_scope(action)
                ==> other == action,
{
    reveal_strlit("pane");
    reveal_strlit("window");
    reveal_strlit("move");
    assert("pane"@.len() == 4 && "pane"@[0] == 'p');
    assert("window"@.len() == 6);
    assert("move"@.len() == 4 && "move"@[0] == 'm');
}

/// What crosses the wire names one gesture: the one that was sent. A pair is
/// valid on the wire just where it names a gesture.
pub proof fn lemma_gesture_round_trip(action: Action, way: Direction)
    requires
        wire_scope(action) is Some,
        way.suits(action),
    ensures
        wire_pair(wire_scope(action)->0, way.name()),
        names_gesture(wire_scope(action)->0, way.name(), action, way),
        forall|other: Action, its: Direction|
            names_gesture(wire_scope(action)->0, way.name(), other, its) ==> other == action
                && its == way,
{
    lemma_wire_scopes_distinct(action);
    lemma_direction_names_distinct();
    assert forall|other: Action, its: Direction|
        names_gesture(wire_scope(action)->0, way.name(), other, its) implies other == action && its
        == way by {
        assert(wire_scope(other) == wire_scope(action));
        assert(its.name() == way.name());
    }
}

/// Where a gesture that arrived through a relay goes.
#[derive(Clone, Copy, Debug, PartialEq, Eq, Structural)]
pub enum GestureRoute {
    /// Through the scopes that enclose the relay's session.
    Enclosing,
    /// On to the next relay.
    Forward,
    /// Nowhere: the session is in no scope and has no terminal of its own.
    Decline,
}

/// Decide where a gesture goes: from whether the relay's session is in a tmux
/// pane, the next relay, and whether the session has a terminal of its own.
pub fn gesture_route(in_pane: bool, relay: &str, direct: bool) -> (route: GestureRoute)
    ensures
        route == (if in_pane {
            GestureRoute::Enclosing
        } else if relay@.len() > 0 {
            GestureRoute::Forward
        } else if direct {
            GestureRoute::Enclosing
        } else {
            GestureRoute::Decline
        }),
{
    if in_pane {
        GestureRoute::Enclosing
    } else if !relay.is_empty() {
        GestureRoute::Forward
    } else if direct {
        GestureRoute::Enclosing
    } else {
        GestureRoute::Decline
    }
}

/// The result that a navigation is answered with.
pub fn navigation_result(outcome: Outcome) -> (result: &'static str)
    ensures
        result@ == (match outcome {
            Outcome::Handled => EMITTED@,
            Outcome::Declined => DECLINED@,
            Outcome::Error => ERROR@,
        }),
{
    match outcome {
        Outcome::Handled => EMITTED,
        Outcome::Declined => DECLINED,
        Outcome::Error => ERROR,
    }
}

/// Whether a file of the runtime directory is a relay's socket, by its name.
pub open spec fn names_relay(name: Seq<char>) -> bool {
    "relay-"@.is_prefix_of(name) && ".sock"@.is_suffix_of(name)
}

/// Whether a file is swept away: a relay's socket that is old and that nobody
/// answers at any more.
pub fn is_swept(name: &str, old_enough: bool, answered: bool) -> (result: bool)
    ensures
        result == (names_relay(name@) && old_enough && !answered),
{
    starts_with(name, "relay-") && ends_with(name, ".sock") && old_enough && !answered
}

} // verus!
