//! What the relay client sends, and what it accepts as a reply.

use vstd::prelude::*;
use vstd::string::*;
use vstd::utf8::*;

use crate::digest::{hex, hex_text, is_hex_char, lemma_hex_shape};
use crate::json::{
    has_members, json_text, member, member_of, parse_json, text_member, Json, JsonValue, Member,
    MemberValue,
};
use crate::relay::protocol::{lemma_reply_members, reply_members, reply_text};
use crate::text::ends_with;

verus! {

/// The most bytes that are read of a reply, its newline included: one more
/// than a reply may have.
pub const MAX_REPLY_BYTES: u64 = 513;

/// Render the fixed-width request identity used by relay navigation from six
/// fresh bytes.
#[must_use]
pub fn new_nonce(bytes: &[u8; 6]) -> (nonce: String)
    ensures
        nonce@ == hex_text(bytes@),
        nonce@.len() == 12,
        forall|i: int| 0 <= i < 12 ==> is_hex_char(#[trigger] nonce@[i]),
{
    proof {
        lemma_hex_shape(bytes@);
    }
    hex(bytes.as_slice())
}

/// Why a reply is not accepted.
#[derive(Clone, Copy, Debug, PartialEq, Eq, Structural)]
pub enum ReplyError {
    /// It is too long, or its end was lost.
    OversizedOrTruncated,
    /// It is not JSON.
    Malformed,
    /// It is no object of this protocol version.
    UnsupportedShape,
}

impl ReplyError {
    /// The message that reports the refusal.
    pub open spec fn text(self) -> Seq<char> {
        match self {
            ReplyError::OversizedOrTruncated => "relay reply is oversized or truncated"@,
            ReplyError::Malformed => "relay reply is malformed"@,
            ReplyError::UnsupportedShape => "relay reply has an unsupported shape"@,
        }
    }

    /// The message that reports the refusal.
    pub fn message(self) -> (text: &'static str)
        ensures
            text@ == self.text(),
    {
        match self {
            ReplyError::OversizedOrTruncated => "relay reply is oversized or truncated",
            ReplyError::Malformed => "relay reply is malformed",
            ReplyError::UnsupportedShape => "relay reply has an unsupported shape",
        }
    }
}

/// Whether a line is a whole reply of bounded length.
pub open spec fn whole_line(line: Seq<char>) -> bool {
    encode_utf8(line).len() <= 512 && "\n"@.is_suffix_of(line)
}

/// What a reply is judged to be, from its line and from what the line parses
/// to.
pub open spec fn reply_verdict(line: Seq<char>, json: JsonValue) -> Result<JsonValue, ReplyError> {
    if !whole_line(line) {
        Err(ReplyError::OversizedOrTruncated)
    } else if json is Invalid {
        Err(ReplyError::Malformed)
    } else if member(json, "v"@) != Some(MemberValue::Number(Some(2))) {
        Err(ReplyError::UnsupportedShape)
    } else {
        Ok(json)
    }
}

/// Judge a reply by its line and by what the line parses to.
pub fn judge_reply(line: &str, json: Json) -> (reply: Result<Json, ReplyError>)
    ensures
        match reply {
            Ok(accepted) => reply_verdict(line@, json@) == Ok::<JsonValue, ReplyError>(accepted@),
            Err(error) => reply_verdict(line@, json@) == Err::<JsonValue, ReplyError>(error),
        },
{
    if line.as_bytes().len() > 512 || !ends_with(line, "\n") {
        return Err(ReplyError::OversizedOrTruncated);
    }
    if matches!(json, Json::Invalid) {
        return Err(ReplyError::Malformed);
    }
    match member_of(&json, "v") {
        Some(Member::Number(Some(2))) => {},
        _ => {
            return Err(ReplyError::UnsupportedShape);
        },
    }
    Ok(json)
}

/// Accept or refuse the line that a relay replied.
pub fn read_reply(line: &str) -> (reply: Result<Json, ReplyError>)
    ensures
        match reply {
            Ok(accepted) => reply_verdict(line@, json_text(line@)) == Ok::<JsonValue, ReplyError>(
                accepted@,
            ),
            Err(error) => reply_verdict(line@, json_text(line@)) == Err::<JsonValue, ReplyError>(
                error,
            ),
        },
        // The result that a relay replied with is the result that is read.
        forall|result: Seq<char>|
            line@ == #[trigger] reply_text(result) && whole_line(line@) ==> (reply matches Ok(json)
                && text_member(json@, "result"@) == Some(result)),
{
    let json = parse_json(line);
    proof {
        assert forall|result: Seq<char>| line@ == #[trigger] reply_text(result) implies member(
            json@,
            "v"@,
        ) == Some(MemberValue::Number(Some(2))) && text_member(json@, "result"@) == Some(result)
            && !(json@ is Invalid) by {
            let members = reply_members(result);
            lemma_reply_members(result);
            assert(has_members(json@, members));
            assert(members[0].0 == "result"@);
            assert(members[1].0 == "v"@);
        }
    }
    judge_reply(line, json)
}

} // verus!
