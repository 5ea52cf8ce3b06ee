//! Semantic hyperlinks that the terminal reports under the pointer.

use vstd::prelude::*;
use vstd::string::*;
use vstd::utf8::*;

use crate::click::tokens::{is_url, url_like};
use crate::click::{
    local_file, terminal_file, Destination, Finding, Query, Question, Target, Verdict,
};
use crate::navigation::system::TmuxOutput;
use crate::text::{
    cut, from_utf8_lossy, lowered, opt_text, same, split_once, starts_with, strings, strip_prefix,
    to_lower, trim, trimmed, utf8_lossy,
};

verus! {

/// The value of a hexadecimal digit.
pub open spec fn hex_value(byte: u8) -> Option<u8> {
    if 48 <= byte <= 57 {
        Some((byte - 48) as u8)
    } else if 97 <= byte <= 102 {
        Some((byte - 87) as u8)
    } else if 65 <= byte <= 70 {
        Some((byte - 55) as u8)
    } else {
        None
    }
}

fn hex(byte: u8) -> (value: Option<u8>)
    ensures
        value == hex_value(byte),
{
    if byte >= 48 && byte <= 57 {
        Some(byte - 48)
    } else if byte >= 97 && byte <= 102 {
        Some(byte - 87)
    } else if byte >= 65 && byte <= 70 {
        Some(byte - 55)
    } else {
        None
    }
}

/// Whether bytes begin with a percent sign and two hexadecimal digits.
pub open spec fn escaped(bytes: Seq<u8>) -> bool {
    bytes.len() > 2 && bytes[0] == 37 && hex_value(bytes[1]) is Some && hex_value(bytes[2]) is Some
}

/// Bytes with every percent escape replaced by the byte it stands for.
pub open spec fn unescaped(bytes: Seq<u8>) -> Seq<u8>
    decreases bytes.len(),
{
    if bytes.len() == 0 {
        Seq::empty()
    } else if escaped(bytes) {
        seq![(hex_value(bytes[1])->0 * 16 + hex_value(bytes[2])->0) as u8] + unescaped(
            bytes.skip(3),
        )
    } else {
        seq![bytes[0]] + unescaped(bytes.skip(1))
    }
}

/// The text that a percent-encoded text stands for.
pub open spec fn decoded(value: Seq<char>) -> Seq<char> {
    utf8_lossy(unescaped(encode_utf8(value)))
}

/// Without a percent sign there is nothing to replace.
pub proof fn lemma_unescaped_plain(bytes: Seq<u8>)
    requires
        !bytes.contains(37),
    ensures
        unescaped(bytes) == bytes,
    decreases bytes.len(),
{
    if bytes.len() > 0 {
        assert(bytes[0] != 37);
        assert forall|i: int| 0 <= i < bytes.skip(1).len() implies bytes.skip(1)[i] != 37 by {
            assert(bytes[i + 1] != 37);
        }
        lemma_unescaped_plain(bytes.skip(1));
        assert(seq![bytes[0]] + bytes.skip(1) =~= bytes);
    }
}

/// Replacing percent escapes never lengthens a text.
pub proof fn lemma_unescaped_shrinks(bytes: Seq<u8>)
    ensures
        unescaped(bytes).len() <= bytes.len(),
    decreases bytes.len(),
{
    if bytes.len() > 0 {
        if escaped(bytes) {
            lemma_unescaped_shrinks(bytes.skip(3));
        } else {
            lemma_unescaped_shrinks(bytes.skip(1));
        }
    }
}

/// Decode a percent-encoded text. Text without a percent sign stays as it is.
pub fn percent_decode(value: &str) -> (result: String)
    ensures
        result@ == decoded(value@),
        valid_utf8(unescaped(encode_utf8(value@))) ==> result@ == decode_utf8(
            unescaped(encode_utf8(value@)),
        ),
        !encode_utf8(value@).contains(37) ==> result@ == value@,
{
    let bytes = value.as_bytes();
    let mut output: Vec<u8> = Vec::new();
    let mut index: usize = 0;
    assert(bytes@.skip(0) =~= bytes@);
    assert(output@ + unescaped(bytes@) =~= unescaped(bytes@));
    while index < bytes.len()
        invariant
            index <= bytes.len(),
            output@ + unescaped(bytes@.skip(index as int)) == unescaped(bytes@),
        decreases bytes.len() - index,
    {
        let ghost rest = bytes@.skip(index as int);
        let ghost before = output@;
        if bytes[index] == 37 && bytes.len() - index > 2 {
            assert(rest[1] == bytes@[index + 1] && rest[2] == bytes@[index + 2]);
            if let (Some(high), Some(low)) = (hex(bytes[index + 1]), hex(bytes[index + 2])) {
                output.push(high * 16 + low);
                assert(rest.skip(3) =~= bytes@.skip(index + 3));
                assert(output@ + unescaped(rest.skip(3)) =~= before + unescaped(rest));
                index = index + 3;
                continue;
            }
        }
        assert(!escaped(rest));
        output.push(bytes[index]);
        assert(rest.skip(1) =~= bytes@.skip(index + 1));
        assert(output@ + unescaped(rest.skip(1)) =~= before + unescaped(rest));
        index = index + 1;
    }
    assert(bytes@.skip(index as int) =~= Seq::empty());
    assert(output@ =~= unescaped(bytes@));
    proof {
        encode_utf8_valid_utf8(value@);
        encode_utf8_decode_utf8(value@);
        if !bytes@.contains(37) {
            lemma_unescaped_plain(bytes@);
        }
    }
    from_utf8_lossy(output.as_slice())
}

/// The host names that denote this host everywhere.
pub open spec fn loopback_name(host: Seq<char>) -> bool {
    host.len() == 0 || host == "localhost"@ || host == "127.0.0.1"@ || host == "::1"@
}

/// Whether a host name is one of `names`, letter case aside.
pub open spec fn named(names: Seq<Seq<char>>, host: Seq<char>) -> bool {
    exists|i: int| 0 <= i < names.len() && lowered(#[trigger] names[i]) == lowered(host)
}

/// A file on a host: local where the host is this one.
pub open spec fn host_file(
    names: Option<Seq<Seq<char>>>,
    host: Seq<char>,
    target: Seq<char>,
) -> Verdict {
    if loopback_name(lowered(host)) {
        Verdict::Settled(Some(terminal_file(target)))
    } else {
        match names {
            None => Verdict::Open(Query::LocalNames),
            Some(names) => Verdict::Settled(
                Some(
                    if named(names, host) {
                        terminal_file(target)
                    } else {
                        Destination::File { target, source: "remote"@, context: host }
                    },
                ),
            ),
        }
    }
}

/// The file that the authority and path of a link name: nothing without a
/// path.
pub open spec fn authority_file(names: Option<Seq<Seq<char>>>, value: Seq<char>) -> Verdict {
    match cut(value, '/') {
        Some((host, path)) => host_file(names, host, decoded("/"@ + path)),
        None => Verdict::Settled(None),
    }
}

/// What a hyperlink denotes.
pub open spec fn link_target(names: Option<Seq<Seq<char>>>, uri: Seq<char>) -> Verdict {
    let after = |scheme: Seq<char>| uri.skip(scheme.len() as int);
    if is_url(uri) {
        Verdict::Settled(Some(Destination::Url(uri)))
    } else if "nvim-open://"@.is_prefix_of(uri) {
        let target = decoded(after("nvim-open://"@));
        Verdict::Settled(
            Some(
                if is_url(target) {
                    Destination::Url(target)
                } else {
                    terminal_file(target)
                },
            ),
        )
    } else if "lazygit-edit://"@.is_prefix_of(uri) {
        Verdict::Settled(Some(terminal_file(decoded(after("lazygit-edit://"@)))))
    } else if "nvim-remote://"@.is_prefix_of(uri) {
        authority_file(names, after("nvim-remote://"@))
    } else if "file://"@.is_prefix_of(uri) {
        if "/"@.is_prefix_of(after("file://"@)) {
            Verdict::Settled(Some(terminal_file(decoded(after("file://"@)))))
        } else {
            authority_file(names, after("file://"@))
        }
    } else {
        Verdict::Settled(None)
    }
}

/// The texts of names that may be unknown.
pub open spec fn known_names(names: Option<Vec<String>>) -> Option<Seq<Seq<char>>> {
    match names {
        Some(names) => Some(strings(names@)),
        None => None,
    }
}

/// Whether a host name denotes this host everywhere.
pub fn is_loopback(host: &str) -> (result: bool)
    ensures
        result == loopback_name(lowered(host@)),
{
    let host = to_lower(host);
    host.as_str().is_empty() || same(host.as_str(), "localhost") || same(
        host.as_str(),
        "127.0.0.1",
    ) || same(host.as_str(), "::1")
}

/// Whether a host name denotes this host, which `names` name: everywhere, or
/// as one of them, letter case aside.
pub fn local_file_host(names: &[String], host: &str) -> (result: bool)
    ensures
        result == (loopback_name(lowered(host@)) || named(strings(names@), host@)),
{
    if is_loopback(host) {
        return true;
    }
    let wanted = to_lower(host);
    let mut i: usize = 0;
    while i < names.len()
        invariant
            i <= names.len(),
            wanted@ == lowered(host@),
            forall|j: int| 0 <= j < i ==> lowered(#[trigger] strings(names@)[j]) != wanted@,
        decreases names.len() - i,
    {
        let name = to_lower(names[i].as_str());
        assert(strings(names@)[i as int] == names@[i as int]@);
        if same(name.as_str(), wanted.as_str()) {
            return true;
        }
        i = i + 1;
    }
    false
}

fn remote_or_local_file(names: &Option<Vec<String>>, host: &str, target: String) -> (finding:
    Finding)
    ensures
        finding@ == host_file(known_names(*names), host@, target@),
{
    if is_loopback(host) {
        return Finding::Settled(Some(local_file(target)));
    }
    match names {
        None => Finding::Open(Question::LocalNames),
        Some(names) => Finding::Settled(
            Some(
                if local_file_host(names.as_slice(), host) {
                    local_file(target)
                } else {
                    Target::File {
                        target,
                        source: String::from_str("remote"),
                        context: String::from_str(host),
                    }
                },
            ),
        ),
    }
}

fn from_authority(names: &Option<Vec<String>>, value: &str) -> (finding: Finding)
    ensures
        finding@ == authority_file(known_names(*names), value@),
{
    match split_once(value, '/') {
        Some((host, path)) => {
            let mut absolute = String::from_str("/");
            absolute.append(path);
            remote_or_local_file(names, host, percent_decode(absolute.as_str()))
        },
        None => Finding::Settled(None),
    }
}

/// What a hyperlink denotes.
pub fn from_hyperlink(names: &Option<Vec<String>>, uri: &str) -> (finding: Finding)
    ensures
        finding@ == link_target(known_names(*names), uri@),
{
    if url_like(uri) {
        return Finding::Settled(Some(Target::Url(String::from_str(uri))));
    }
    if let Some(value) = strip_prefix(uri, "nvim-open://") {
        let target = percent_decode(value);
        return Finding::Settled(
            Some(
                if url_like(target.as_str()) {
                    Target::Url(target)
                } else {
                    local_file(target)
                },
            ),
        );
    }
    if let Some(value) = strip_prefix(uri, "lazygit-edit://") {
        return Finding::Settled(Some(local_file(percent_decode(value))));
    }
    if let Some(value) = strip_prefix(uri, "nvim-remote://") {
        return from_authority(names, value);
    }
    if let Some(value) = strip_prefix(uri, "file://") {
        if starts_with(value, "/") {
            return Finding::Settled(Some(local_file(percent_decode(value))));
        }
        return from_authority(names, value);
    }
    Finding::Settled(None)
}

/// A text without the prefix, as often as it begins with it.
pub open spec fn without_prefix(value: Seq<char>, prefix: Seq<char>) -> Seq<char>
    decreases value.len(),
{
    if prefix.len() > 0 && prefix.is_prefix_of(value) {
        without_prefix(value.skip(prefix.len() as int), prefix)
    } else {
        value
    }
}

fn strip_prefixes<'a>(value: &'a str, prefix: &str) -> (rest: &'a str)
    ensures
        rest@ == without_prefix(value@, prefix@),
{
    let mut rest = value;
    if prefix.is_empty() {
        return rest;
    }
    loop
        invariant
            prefix@.len() > 0,
            without_prefix(rest@, prefix@) == without_prefix(value@, prefix@),
        decreases rest@.len(),
    {
        match strip_prefix(rest, prefix) {
            Some(shorter) => {
                rest = shorter;
            },
            None => {
                return rest;
            },
        }
    }
}

/// The name of this host that the tmux server's environment publishes.
pub open spec fn published_name(output: Option<TmuxOutput>) -> Option<Seq<char>> {
    match output {
        Some(output) if output.success => Some(
            without_prefix(trimmed(utf8_lossy(output.stdout@)), "TERMNAV_REMOTE_LINK_HOST="@),
        ),
        _ => None,
    }
}

/// The name of this host that the tmux server's environment publishes.
pub fn published_host(output: &Option<TmuxOutput>) -> (name: Option<String>)
    ensures
        opt_text(name) == published_name(*output),
{
    match output {
        Some(output) => {
            if !output.success {
                return None;
            }
            let text = from_utf8_lossy(output.stdout.as_slice());
            let name = strip_prefixes(trim(text.as_str()), "TERMNAV_REMOTE_LINK_HOST=");
            Some(String::from_str(name))
        },
        None => None,
    }
}

} // verus!
