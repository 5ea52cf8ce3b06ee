//! The HTTP exchanges with editor integrations on this host.

use vstd::prelude::*;
use vstd::string::*;
use vstd::utf8::*;

use crate::json::{json_text, parse_json, Json, JsonValue};
use crate::text::{
    cut_text, decimal, lines, lines_of, push_decimal, split_once_text, starts_with, texts,
};

verus! {

/// The most bytes that are read of a response.
pub const MAX_RESPONSE_BYTES: u64 = 1048576;

/// Header lines.
pub open spec fn header_lines(headers: Seq<(Seq<char>, Seq<char>)>) -> Seq<char>
    decreases headers.len(),
{
    if headers.len() == 0 {
        Seq::empty()
    } else {
        header_lines(headers.drop_last()) + headers.last().0 + ": "@ + headers.last().1 + "\r\n"@
    }
}

/// A request that posts JSON and asks the server to close the connection.
pub open spec fn post_request(
    path: Seq<char>,
    body: Seq<char>,
    headers: Seq<(Seq<char>, Seq<char>)>,
) -> Seq<char> {
    "POST "@ + path
        + " HTTP/1.1\r\nHost: localhost\r\nContent-Type: application/json\r\nContent-Length: "@
        + decimal(encode_utf8(body).len()) + "\r\nConnection: close\r\n"@ + header_lines(headers)
        + "\r\n"@ + body
}

/// The texts of borrowed headers.
pub open spec fn header_texts(headers: Seq<(&str, &str)>) -> Seq<(Seq<char>, Seq<char>)> {
    Seq::new(headers.len(), |i: int| (headers[i].0@, headers[i].1@))
}

/// Build a request that posts JSON.
pub fn http_request(path: &str, body: &str, headers: &[(&str, &str)]) -> (request: String)
    ensures
        request@ == post_request(path@, body@, header_texts(headers@)),
{
    let ghost all = header_texts(headers@);
    let mut request = String::from_str("POST ");
    request.append(path);
    request.append(
        " HTTP/1.1\r\nHost: localhost\r\nContent-Type: application/json\r\nContent-Length: ",
    );
    let length: usize = body.as_bytes().len();
    push_decimal(&mut request, length as u64);
    request.append("\r\nConnection: close\r\n");
    let ghost prefix = request@;
    let mut i: usize = 0;
    assert(request@ =~= prefix + header_lines(all.take(0)));
    while i < headers.len()
        invariant
            i <= headers.len(),
            all == header_texts(headers@),
            request@ == prefix + header_lines(all.take(i as int)),
        decreases headers.len() - i,
    {
        let (name, value) = headers[i];
        request.append(name);
        request.append(": ");
        request.append(value);
        request.append("\r\n");
        assert(all.take(i + 1).drop_last() =~= all.take(i as int));
        i = i + 1;
        assert(request@ =~= prefix + header_lines(all.take(i as int)));
    }
    assert(all.take(i as int) =~= all);
    request.append("\r\n");
    request.append(body);
    assert(request@ =~= post_request(path@, body@, all));
    request
}

/// Whether a response reports success.
pub open spec fn is_success(response: Seq<char>) -> bool {
    lines(response).len() > 0 && "HTTP/1.1 2"@.is_prefix_of(lines(response)[0])
}

/// Whether a response reports success.
pub fn http_success(response: &str) -> (result: bool)
    ensures
        result == is_success(response@),
{
    let rows = lines_of(response);
    assert(texts(rows@).len() == rows@.len());
    if rows.len() == 0 {
        return false;
    }
    assert(texts(rows@)[0] == rows@[0]@);
    starts_with(rows[0], "HTTP/1.1 2")
}

/// The JSON that a response carries after its headers.
pub open spec fn response_json(response: Seq<char>) -> Option<JsonValue> {
    match cut_text(response, "\r\n\r\n"@) {
        Some((_, body)) => match json_text(body) {
            JsonValue::Invalid => None,
            value => Some(value),
        },
        None => None,
    }
}

/// The JSON that a response carries after its headers.
pub fn response_body(response: &str) -> (json: Option<Json>)
    ensures
        match json {
            Some(json) => response_json(response@) == Some(json@),
            None => response_json(response@) is None,
        },
{
    match split_once_text(response, "\r\n\r\n") {
        Some((_, body)) => match parse_json(body) {
            Json::Invalid => None,
            json => Some(json),
        },
        None => None,
    }
}

} // verus!
