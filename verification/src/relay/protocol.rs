//! The vocabulary of the frozen relay v2 wire protocol.

use vstd::prelude::*;
use vstd::string::*;

use crate::json::{flat_members, json_object, member_values, write_object, Member, MemberValue};
use crate::text::same;

verus! {

/// The wire version.
pub const VERSION: u8 = 2;

/// The request names.
pub const NAVIGATE: &'static str = "navigate";

pub const PREPARE_PATH: &'static str = "prepare-path";

pub const ABORT_PATH: &'static str = "abort-path";

pub const COMMIT_PATH: &'static str = "commit-path";

pub const FOCUS: &'static str = "focus";

/// The result names.
pub const ARMED: &'static str = "armed";

pub const CLAIMED: &'static str = "claimed";

pub const DECLINED: &'static str = "declined";

pub const EMITTED: &'static str = "emitted";

pub const ERROR: &'static str = "error";

pub const RELEASED: &'static str = "released";

/// Whether a direction means something for a wire scope.
pub open spec fn wire_pair(scope: Seq<char>, direction: Seq<char>) -> bool {
    ||| scope == "pane"@ && (direction == "left"@ || direction == "down"@ || direction == "up"@
        || direction == "right"@)
    ||| scope == "window"@ && (direction == "next"@ || direction == "previous"@)
    ||| scope == "move"@ && (direction == "left"@ || direction == "right"@)
}

/// Whether a direction means something for a wire scope.
pub fn valid_wire(scope: &str, direction: &str) -> (result: bool)
    ensures
        result == wire_pair(scope@, direction@),
{
    (same(scope, "pane") && (same(direction, "left") || same(direction, "down") || same(
        direction,
        "up",
    ) || same(direction, "right"))) || (same(scope, "window") && (same(direction, "next") || same(
        direction,
        "previous",
    ))) || (same(scope, "move") && (same(direction, "left") || same(direction, "right")))
}

/// The members of the request that asks a relay to carry a gesture on.
pub open spec fn navigate_members(
    scope: Seq<char>,
    direction: Seq<char>,
    nonce: Seq<char>,
) -> Seq<(Seq<char>, MemberValue)> {
    seq![
        ("direction"@, MemberValue::Text(direction)),
        ("nonce"@, MemberValue::Text(nonce)),
        ("op"@, MemberValue::Text(NAVIGATE@)),
        ("scope"@, MemberValue::Text(scope)),
        ("v"@, MemberValue::Number(Some(2))),
    ]
}

/// The request line that asks a relay to carry a gesture on.
pub open spec fn navigate_line(
    scope: Seq<char>,
    direction: Seq<char>,
    nonce: Seq<char>,
) -> Seq<char> {
    json_object(navigate_members(scope, direction, nonce)) + seq!['\n']
}

/// The request line that asks a relay to carry a gesture on.
pub fn navigate_request(scope: &str, direction: &str, nonce: &str) -> (line: String)
    ensures
        line@ == navigate_line(scope@, direction@, nonce@),
{
    let members: Vec<(&str, Member)> = vec![
        ("direction", Member::Text(String::from_str(direction))),
        ("nonce", Member::Text(String::from_str(nonce))),
        ("op", Member::Text(String::from_str(NAVIGATE))),
        ("scope", Member::Text(String::from_str(scope))),
        ("v", Member::Number(Some(2))),
    ];
    assert(member_values(members@) =~= navigate_members(scope@, direction@, nonce@));
    let mut line = write_object(&members);
    line.push('\n');
    line
}

/// The names in a gesture request are distinct.
pub(crate) proof fn lemma_navigate_members(
    scope: Seq<char>,
    direction: Seq<char>,
    nonce: Seq<char>,
)
    ensures
        flat_members(navigate_members(scope, direction, nonce)),
{
    reveal_strlit("direction");
    reveal_strlit("nonce");
    reveal_strlit("op");
    reveal_strlit("scope");
    reveal_strlit("v");
    assert("direction"@.len() == 9);
    assert("nonce"@.len() == 5 && "nonce"@[0] == 'n');
    assert("op"@.len() == 2);
    assert("scope"@.len() == 5 && "scope"@[0] == 's');
    assert("v"@.len() == 1);
}

/// The members of the reply that carries a result.
pub open spec fn reply_members(result: Seq<char>) -> Seq<(Seq<char>, MemberValue)> {
    seq![("result"@, MemberValue::Text(result)), ("v"@, MemberValue::Number(Some(2)))]
}

/// The reply line that carries a result.
pub open spec fn reply_text(result: Seq<char>) -> Seq<char> {
    json_object(reply_members(result)) + seq!['\n']
}

/// The reply line that carries a result.
pub fn reply_line(result: &str) -> (line: String)
    ensures
        line@ == reply_text(result@),
{
    let members: Vec<(&str, Member)> = vec![
        ("result", Member::Text(String::from_str(result))),
        ("v", Member::Number(Some(2))),
    ];
    assert(member_values(members@) =~= reply_members(result@));
    let mut line = write_object(&members);
    line.push('\n');
    line
}

/// The names in a reply are distinct.
pub(crate) proof fn lemma_reply_members(result: Seq<char>)
    ensures
        flat_members(reply_members(result)),
{
    reveal_strlit("result");
    reveal_strlit("v");
    assert("result"@.len() == 6);
    assert("v"@.len() == 1);
}

} // verus!
