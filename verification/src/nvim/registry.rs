//! The discovery records that running editors publish.
//!
//! Each scope has an atomic `latest` record and one record for each editor
//! process. A record counts only beside the commit marker of its owner. Older
//! publishers leave one plain socket path per scope.

use vstd::prelude::*;
use vstd::string::*;
use vstd::utf8::{
    char_is_scalar, char_u32_cast, encode_scalar, encode_utf8, encode_utf8_decode_utf8,
};

use crate::digest::{hex, hex_text, is_hex_char, lemma_hex_injective, lemma_hex_shape};
use crate::paths::{absolute, below, is_absolute, join, listed_path, lists_path, same_path};
use crate::text::{
    chars_of, cut, first_where, just, last_char, lemma_first_where, lemma_last_char,
    lemma_replaced_absent, lemma_replaced_concat, lines, lines_of, opt_str, opt_texts, replaced,
    rfind_char, same, split, split_once, strings, texts,
};

verus! {

/// The socket and the server process that a `TMUX` value names; all of it is
/// the socket where it has no two commas.
pub open spec fn server_of(tmux: Seq<char>) -> (Seq<char>, Seq<char>) {
    let comma = last_char(tmux, ',');
    let head = tmux.take(comma);
    let other = last_char(head, ',');
    if comma >= 0 && other >= 0 {
        (head.take(other), head.skip(other + 1))
    } else {
        (tmux, Seq::empty())
    }
}

fn server_fields<'a>(tmux: &'a str) -> (result: (&'a str, &'a str))
    ensures
        (result.0@, result.1@) == server_of(tmux@),
{
    if let Some(comma) = rfind_char(tmux, ',') {
        let head = tmux.substring_char(0, comma);
        assert(head@ =~= tmux@.take(comma as int));
        if let Some(other) = rfind_char(head, ',') {
            let socket = head.substring_char(0, other);
            let pid = head.substring_char(other + 1, comma);
            assert(socket@ =~= head@.take(other as int));
            assert(pid@ =~= head@.skip(other + 1));
            return (socket, pid);
        }
    }
    proof {
        reveal_strlit("");
        assert(""@ =~= Seq::empty());
    }
    (tmux, "")
}

/// A text in pieces of at most a hundred and twenty characters with slashes
/// between them.
pub open spec fn chunked(s: Seq<char>) -> Seq<char>
    decreases s.len(),
{
    if s.len() <= 120 {
        s
    } else {
        s.take(120) + "/"@ + chunked(s.skip(120))
    }
}

/// What identifies a pane: its server's socket and process, and its name, with
/// zero bytes between them.
pub open spec fn pane_identity(tmux: Seq<char>, pane: Seq<char>) -> Seq<u8> {
    encode_utf8(server_of(tmux).0) + seq![0u8] + encode_utf8(server_of(tmux).1) + seq![0u8]
        + encode_utf8(pane)
}

/// The path, below the registry, of a pane's records.
pub open spec fn pane_key(tmux: Seq<char>, pane: Seq<char>) -> Seq<char> {
    "v1-"@ + chunked(hex_text(pane_identity(tmux, pane)))
}

fn push_bytes(output: &mut Vec<u8>, value: &str)
    ensures
        final(output)@ == old(output)@ + encode_utf8(value@),
{
    crate::bytes::push_all(output, value.as_bytes());
}

/// The path, below the registry, of a pane's records.
pub fn pane_key_for(tmux: &str, pane: &str) -> (key: String)
    ensures
        key@ == pane_key(tmux@, pane@),
{
    let (socket, pid) = server_fields(tmux);
    let mut bytes: Vec<u8> = Vec::new();
    push_bytes(&mut bytes, socket);
    bytes.push(0);
    push_bytes(&mut bytes, pid);
    bytes.push(0);
    push_bytes(&mut bytes, pane);
    assert(bytes@ =~= pane_identity(tmux@, pane@));
    let text = hex(bytes.as_slice());
    let length: usize = text.as_str().unicode_len();
    let mut key = String::from_str("v1-");
    let mut at: usize = 0;
    assert(text@.skip(0) =~= text@);
    while length - at > 120
        invariant
            at <= length,
            length == text@.len(),
            key@ + chunked(text@.skip(at as int)) == "v1-"@ + chunked(text@),
        decreases length - at,
    {
        let ghost rest = text@.skip(at as int);
        let ghost before = key@;
        let piece = text.as_str().substring_char(at, at + 120);
        key.append(piece);
        key.append("/");
        at = at + 120;
        proof {
            assert(piece@ =~= rest.take(120));
            assert(rest.skip(120) =~= text@.skip(at as int));
            assert(key@ + chunked(text@.skip(at as int)) =~= before + chunked(rest));
        }
    }
    let piece = text.as_str().substring_char(at, length);
    assert(piece@ =~= text@.skip(at as int));
    key.append(piece);
    key
}

proof fn lemma_chunked(s: Seq<char>)
    requires
        forall|i: int| 0 <= i < s.len() ==> is_hex_char(#[trigger] s[i]),
    ensures
        replaced(chunked(s), '/', Seq::empty()) == s,
        forall|i: int|
            0 <= i < split(chunked(s), '/').len() ==> (#[trigger] split(chunked(s), '/')[i]).len()
                <= 120,
    decreases s.len(),
{
    reveal_strlit("/");
    let none = Seq::<char>::empty();
    if s.len() <= 120 {
        lemma_replaced_absent(s, '/', none);
        assert forall|j: int| 0 <= j < s.len() implies !just('/')(#[trigger] s[j]) by {
            assert(is_hex_char(s[j]));
        }
        lemma_first_where(s, just('/'), s.len() as int);
    } else {
        let head = s.take(120);
        let tail = s.skip(120);
        let rest = chunked(tail);
        assert forall|i: int| 0 <= i < tail.len() implies is_hex_char(#[trigger] tail[i]) by {
            assert(is_hex_char(s[i + 120]));
        }
        lemma_chunked(tail);
        assert forall|j: int| 0 <= j < head.len() implies #[trigger] head[j] != '/' by {
            assert(is_hex_char(s[j]));
        }
        lemma_replaced_absent(head, '/', none);
        lemma_replaced_concat(head + "/"@, rest, '/', none);
        lemma_replaced_concat(head, "/"@, '/', none);
        assert("/"@.drop_last() =~= none);
        assert(replaced(none, '/', none) =~= none);
        assert(replaced("/"@, '/', none) =~= none);
        assert(replaced(chunked(s), '/', none) =~= head + tail);
        assert(head + tail =~= s);
        let whole = chunked(s);
        assert forall|j: int| 0 <= j < 120 implies !just('/')(#[trigger] whole[j]) by {
            assert(whole[j] == head[j]);
        }
        assert(whole[120] == '/');
        lemma_first_where(whole, just('/'), 120);
        assert(whole.take(120) =~= head);
        assert(whole.skip(121) =~= rest);
        let pieces = split(whole, '/');
        assert(pieces =~= seq![head] + split(rest, '/'));
        assert forall|i: int| 0 <= i < pieces.len() implies (#[trigger] pieces[i]).len() <= 120 by {
            if i > 0 {
                assert(pieces[i] == split(rest, '/')[i - 1]);
            }
        }
    }
}

proof fn lemma_no_zero_byte(s: Seq<char>)
    requires
        !s.contains('\0'),
    ensures
        forall|i: int| 0 <= i < encode_utf8(s).len() ==> #[trigger] encode_utf8(s)[i] != 0,
    decreases s.len(),
{
    if s.len() > 0 {
        let c = s[0];
        assert(s.contains(c));
        let scalar = c as u32;
        let rest = s.drop_first();
        assert(!rest.contains('\0')) by {
            if rest.contains('\0') {
                let i = choose|i: int| 0 <= i < rest.len() && rest[i] == '\0';
                assert(s[i + 1] == '\0');
            }
        }
        lemma_no_zero_byte(rest);
        char_is_scalar(c);
        assert(scalar != 0) by {
            char_u32_cast(c, scalar);
        }
        assert(scalar <= 0x7f ==> (scalar & 0x7f) as u8 != 0u8) by (bit_vector)
            requires
                scalar != 0u32,
        ;
        assert(0xc0u8 | ((scalar >> 6) & 0x1f) as u8 != 0u8) by (bit_vector);
        assert(0xe0u8 | ((scalar >> 12) & 0x0f) as u8 != 0u8) by (bit_vector);
        assert(0xf0u8 | ((scalar >> 18) & 0x7) as u8 != 0u8) by (bit_vector);
        assert(0x80u8 | (scalar & 0x3f) as u8 != 0u8) by (bit_vector);
        assert(0x80u8 | ((scalar >> 6) & 0x3f) as u8 != 0u8) by (bit_vector);
        assert(0x80u8 | ((scalar >> 12) & 0x3f) as u8 != 0u8) by (bit_vector);
        let first = encode_scalar(scalar);
        assert forall|i: int| 0 <= i < first.len() implies #[trigger] first[i] != 0 by {}
        assert forall|i: int| 0 <= i < encode_utf8(s).len() implies #[trigger] encode_utf8(s)[i]
            != 0 by {
            if i >= first.len() {
                assert(encode_utf8(s)[i] == encode_utf8(rest)[i - first.len()]);
            }
        }
    }
}

proof fn lemma_split_at_zero(a: Seq<u8>, b: Seq<u8>, c: Seq<u8>, d: Seq<u8>)
    requires
        forall|i: int| 0 <= i < a.len() ==> #[trigger] a[i] != 0,
        forall|i: int| 0 <= i < c.len() ==> #[trigger] c[i] != 0,
        a + seq![0u8] + b == c + seq![0u8] + d,
    ensures
        a == c,
        b == d,
{
    let left = a + seq![0u8] + b;
    let right = c + seq![0u8] + d;
    assert(left[a.len() as int] == 0);
    assert(right[c.len() as int] == 0);
    if a.len() < c.len() {
        assert(right[a.len() as int] == c[a.len() as int]);
    }
    if c.len() < a.len() {
        assert(left[c.len() as int] == a[c.len() as int]);
    }
    assert forall|i: int| 0 <= i < a.len() implies a[i] == c[i] by {
        assert(left[i] == a[i] && right[i] == c[i]);
    }
    assert(a =~= c);
    assert(left.len() == a.len() + 1 + b.len() && right.len() == c.len() + 1 + d.len());
    assert forall|i: int| 0 <= i < b.len() implies b[i] == d[i] by {
        assert(left[i + a.len() + 1] == b[i] && right[i + a.len() + 1] == d[i]);
    }
    assert(b =~= d);
}

/// Two panes have the same key only where they are the same pane of the same
/// server process at the same socket. (None of these can hold a zero byte.)
pub proof fn lemma_pane_key_injective(
    tmux: Seq<char>,
    pane: Seq<char>,
    other_tmux: Seq<char>,
    other_pane: Seq<char>,
)
    requires
        pane_key(tmux, pane) == pane_key(other_tmux, other_pane),
        !tmux.contains('\0') && !other_tmux.contains('\0'),
    ensures
        server_of(tmux) == server_of(other_tmux),
        pane == other_pane,
{
    let first = hex_text(pane_identity(tmux, pane));
    let second = hex_text(pane_identity(other_tmux, other_pane));
    lemma_hex_shape(pane_identity(tmux, pane));
    lemma_hex_shape(pane_identity(other_tmux, other_pane));
    lemma_chunked(first);
    lemma_chunked(second);
    let prefix = "v1-"@.len() as int;
    assert(pane_key(tmux, pane).skip(prefix) =~= chunked(first));
    assert(pane_key(other_tmux, other_pane).skip(prefix) =~= chunked(second));
    lemma_hex_injective(pane_identity(tmux, pane), pane_identity(other_tmux, other_pane));
    let (socket, pid) = server_of(tmux);
    let (other_socket, other_pid) = server_of(other_tmux);
    lemma_server_plain(tmux);
    lemma_server_plain(other_tmux);
    lemma_no_zero_byte(socket);
    lemma_no_zero_byte(pid);
    lemma_no_zero_byte(other_socket);
    lemma_no_zero_byte(other_pid);
    let zero = seq![0u8];
    let rest = encode_utf8(pid) + zero + encode_utf8(pane);
    let other_rest = encode_utf8(other_pid) + zero + encode_utf8(other_pane);
    assert(pane_identity(tmux, pane) =~= encode_utf8(socket) + zero + rest);
    assert(pane_identity(other_tmux, other_pane) =~= encode_utf8(other_socket) + zero + other_rest);
    lemma_split_at_zero(encode_utf8(socket), rest, encode_utf8(other_socket), other_rest);
    lemma_split_at_zero(
        encode_utf8(pid),
        encode_utf8(pane),
        encode_utf8(other_pid),
        encode_utf8(other_pane),
    );
    encode_utf8_decode_utf8(socket);
    encode_utf8_decode_utf8(other_socket);
    encode_utf8_decode_utf8(pid);
    encode_utf8_decode_utf8(other_pid);
    encode_utf8_decode_utf8(pane);
    encode_utf8_decode_utf8(other_pane);
}

proof fn lemma_server_plain(tmux: Seq<char>)
    requires
        !tmux.contains('\0'),
    ensures
        !server_of(tmux).0.contains('\0'),
        !server_of(tmux).1.contains('\0'),
{
    let (socket, pid) = server_of(tmux);
    let comma = last_char(tmux, ',');
    let other = last_char(tmux.take(comma), ',');
    lemma_last_char(tmux, ',');
    lemma_last_char(tmux.take(comma), ',');
    if socket.contains('\0') {
        let i = choose|i: int| 0 <= i < socket.len() && socket[i] == '\0';
        assert(tmux[i] == '\0');
    }
    if pid.contains('\0') {
        let i = choose|i: int| 0 <= i < pid.len() && pid[i] == '\0';
        assert(tmux[i + other + 1] == '\0');
    }
}

/// No component of a key is longer than a hundred and twenty-three characters.
pub proof fn lemma_pane_key_components(tmux: Seq<char>, pane: Seq<char>)
    ensures
        forall|i: int|
            0 <= i < split(pane_key(tmux, pane), '/').len() ==> (#[trigger] split(
                pane_key(tmux, pane),
                '/',
            )[i]).len() <= 123,
{
    reveal_strlit("v1-");
    let text = hex_text(pane_identity(tmux, pane));
    let body = chunked(text);
    let key = pane_key(tmux, pane);
    lemma_hex_shape(pane_identity(tmux, pane));
    lemma_chunked(text);
    crate::text::lemma_first_where_props(body, just('/'));
    let i = first_where(body, just('/'));
    assert forall|j: int| 0 <= j < i + 3 implies !just('/')(#[trigger] key[j]) by {
        if j >= 3 {
            assert(key[j] == body[j - 3]);
            assert(!just('/')(body[j - 3]));
        }
    }
    if i < body.len() {
        assert(key[i + 3] == body[i]);
    }
    lemma_first_where(key, just('/'), i + 3);
    let pieces = split(key, '/');
    let inner = split(body, '/');
    if i < body.len() {
        assert(key.skip(i + 4) =~= body.skip(i + 1));
        assert(pieces =~= seq![key.take(i + 3)] + split(body.skip(i + 1), '/'));
        assert(inner =~= seq![body.take(i)] + split(body.skip(i + 1), '/'));
        assert(inner[0].len() <= 120);
        assert forall|k: int| 0 <= k < pieces.len() implies (#[trigger] pieces[k]).len() <= 123 by {
            if k > 0 {
                assert(pieces[k] == inner[k]);
            }
        }
    } else {
        assert(inner =~= seq![body]);
        assert(inner[0].len() <= 120);
        assert(pieces =~= seq![key]);
    }
}

/// Whether a character may stand in a file name of the registry.
pub open spec fn plain(c: char) -> bool {
    ||| 'a' <= c <= 'z'
    ||| 'A' <= c <= 'Z'
    ||| '0' <= c <= '9'
    ||| c == '_' || c == '.' || c == '-'
}

fn is_plain(c: char) -> (result: bool)
    ensures
        result == plain(c),
{
    ('a' <= c && c <= 'z') || ('A' <= c && c <= 'Z') || ('0' <= c && c <= '9') || c == '_' || c
        == '.' || c == '-'
}

/// A text with underscores for the characters that may not stand in a file
/// name.
pub open spec fn flattened(s: Seq<char>) -> Seq<char> {
    Seq::new(
        s.len(),
        |i: int|
            if plain(s[i]) {
                s[i]
            } else {
                '_'
            },
    )
}

/// What an older publisher names a pane by.
pub open spec fn legacy_name(tmux: Seq<char>, pane: Seq<char>) -> Seq<char> {
    match cut(tmux, ',') {
        Some((socket, _)) if socket.len() > 0 => socket + ":"@ + pane,
        _ => pane,
    }
}

/// The file name of a pane's record by an older publisher.
pub fn legacy_pane_key(tmux: &str, pane: &str) -> (key: String)
    ensures
        key@ == flattened(legacy_name(tmux@, pane@)),
{
    let mut raw = String::new();
    if let Some((socket, _)) = split_once(tmux, ',') {
        if !socket.is_empty() {
            raw.append(socket);
            raw.append(":");
        }
    }
    raw.append(pane);
    assert(raw@ =~= legacy_name(tmux@, pane@));
    let mut key = String::new();
    for c in it: raw.as_str().chars()
        invariant
            it.seq() == raw@,
            key@ == flattened(raw@).take(it.index() as int),
    {
        key.push(
            if is_plain(c) {
                c
            } else {
                '_'
            },
        );
        assert(key@ =~= flattened(raw@).take(it.index() + 1));
    }
    assert(key@ =~= flattened(raw@));
    key
}

/// An owner's name: one file name of plain characters.
pub open spec fn is_owner(value: Seq<char>) -> bool {
    &&& value.len() > 0
    &&& value != "."@
    &&& value != ".."@
    &&& forall|i: int| 0 <= i < value.len() ==> plain(#[trigger] value[i])
}

/// Whether a text is an owner's name.
pub fn valid_owner(value: &str) -> (result: bool)
    ensures
        result == is_owner(value@),
{
    if value.is_empty() || same(value, ".") || same(value, "..") {
        return false;
    }
    let chars = chars_of(value);
    let mut i: usize = 0;
    while i < chars.len()
        invariant
            i <= chars.len(),
            chars@ == value@,
            forall|j: int| 0 <= j < i ==> plain(#[trigger] chars@[j]),
        decreases chars.len() - i,
    {
        if !is_plain(chars[i]) {
            return false;
        }
        i = i + 1;
    }
    true
}

/// A publication number: twenty decimal digits.
pub open spec fn is_sequence(value: Seq<char>) -> bool {
    value.len() == 20 && forall|i: int| 0 <= i < value.len() ==> '0' <= #[trigger] value[i] <= '9'
}

fn valid_sequence(value: &str) -> (result: bool)
    ensures
        result == is_sequence(value@),
{
    let chars = chars_of(value);
    if chars.len() != 20 {
        return false;
    }
    let mut i: usize = 0;
    while i < chars.len()
        invariant
            i <= chars.len(),
            chars@ == value@,
            forall|j: int| 0 <= j < i ==> '0' <= #[trigger] chars@[j] <= '9',
        decreases chars.len() - i,
    {
        if !('0' <= chars[i] && chars[i] <= '9') {
            return false;
        }
        i = i + 1;
    }
    true
}

/// One published record.
#[derive(Debug, PartialEq, Eq)]
pub struct Record {
    /// Where the record was read.
    pub path: String,
    /// The publication number.
    pub sequence: String,
    /// The editor that published it.
    pub owner: String,
    /// The editor's socket.
    pub socket: String,
}

/// What a [`Record`] says.
#[verifier::ext_equal]
pub struct RecordFields {
    pub path: Seq<char>,
    pub sequence: Seq<char>,
    pub owner: Seq<char>,
    pub socket: Seq<char>,
}

impl View for Record {
    type V = RecordFields;

    open spec fn view(&self) -> RecordFields {
        RecordFields {
            path: self.path@,
            sequence: self.sequence@,
            owner: self.owner@,
            socket: self.socket@,
        }
    }
}

/// What records say.
pub open spec fn record_fields(records: Seq<Record>) -> Seq<RecordFields> {
    Seq::new(records.len(), |i: int| records[i]@)
}

/// The record that a file holds: a version, a publication number, the owner
/// that is expected there, and a socket.
pub open spec fn record_in(
    path: Seq<char>,
    content: Seq<char>,
    expected_owner: Option<Seq<char>>,
) -> Option<RecordFields> {
    let rows = lines(content);
    if rows.len() == 4 && rows[0] == "v2"@ && is_sequence(rows[1]) && is_owner(rows[2]) && (
    expected_owner is None || expected_owner == Some(rows[2])) && rows[3].len() > 0 {
        Some(RecordFields { path, sequence: rows[1], owner: rows[2], socket: rows[3] })
    } else {
        None
    }
}

/// Read a record. It counts only where the marker of its owner does.
pub fn read_record(path: &str, content: &str, expected_owner: Option<&str>) -> (record: Option<
    Record,
>)
    ensures
        match record {
            Some(record) => record_in(path@, content@, opt_str(expected_owner)) == Some(record@),
            None => record_in(path@, content@, opt_str(expected_owner)) is None,
        },
{
    let rows = lines_of(content);
    let ghost all = lines(content@);
    assert(texts(rows@).len() == rows@.len());
    if rows.len() != 4 {
        return None;
    }
    assert forall|i: int| 0 <= i < 4 implies #[trigger] rows@[i]@ == all[i] by {
        assert(texts(rows@)[i] == all[i]);
    }
    if !same(rows[0], "v2") || !valid_sequence(rows[1]) || !valid_owner(rows[2])
        || rows[3].is_empty() {
        return None;
    }
    if let Some(owner) = expected_owner {
        if !same(owner, rows[2]) {
            return None;
        }
    }
    Some(
        Record {
            path: String::from_str(path),
            sequence: String::from_str(rows[1]),
            owner: String::from_str(rows[2]),
            socket: String::from_str(rows[3]),
        },
    )
}

/// Whether the content of an owner's marker commits its records.
pub fn marker_commits(content: &str) -> (result: bool)
    ensures
        result == (lines(content@) == seq!["v2"@]),
{
    let rows = lines_of(content);
    assert(texts(rows@).len() == rows@.len());
    if rows.len() != 1 {
        return false;
    }
    assert(texts(rows@)[0] == rows@[0]@);
    let result = same(rows[0], "v2");
    assert(result ==> lines(content@) =~= seq!["v2"@]);
    result
}

/// The socket that an older record holds: its only line.
pub open spec fn legacy_socket(content: Seq<char>) -> Option<Seq<char>> {
    let rows = lines(content);
    if rows.len() == 1 && rows[0].len() > 0 {
        Some(rows[0])
    } else {
        None
    }
}

/// The socket that an older record holds.
pub fn read_legacy_socket(content: &str) -> (socket: Option<String>)
    ensures
        match socket {
            Some(socket) => legacy_socket(content@) == Some(socket@),
            None => legacy_socket(content@) is None,
        },
{
    let rows = lines_of(content);
    assert(texts(rows@).len() == rows@.len());
    if rows.len() != 1 {
        return None;
    }
    assert(texts(rows@)[0] == rows@[0]@);
    if rows[0].is_empty() {
        return None;
    }
    Some(String::from_str(rows[0]))
}

/// Whether one text precedes another in the order of their characters.
pub open spec fn text_precedes(a: Seq<char>, b: Seq<char>) -> bool
    decreases a.len(),
{
    if b.len() == 0 {
        false
    } else if a.len() == 0 {
        true
    } else if a[0] == b[0] {
        text_precedes(a.drop_first(), b.drop_first())
    } else {
        a[0] < b[0]
    }
}

fn text_less(a: &str, b: &str) -> (result: bool)
    ensures
        result == text_precedes(a@, b@),
{
    let left = chars_of(a);
    let right = chars_of(b);
    let mut i: usize = 0;
    assert(a@.skip(0) =~= a@ && b@.skip(0) =~= b@);
    while i < left.len() && i < right.len()
        invariant
            i <= left.len() && i <= right.len(),
            left@ == a@ && right@ == b@,
            text_precedes(a@, b@) == text_precedes(a@.skip(i as int), b@.skip(i as int)),
        decreases left.len() - i,
    {
        assert(a@.skip(i as int).drop_first() =~= a@.skip(i + 1));
        assert(b@.skip(i as int).drop_first() =~= b@.skip(i + 1));
        if left[i] != right[i] {
            return left[i] < right[i];
        }
        i = i + 1;
    }
    i < right.len()
}

proof fn lemma_text_order_total(a: Seq<char>, b: Seq<char>)
    ensures
        a == b || text_precedes(a, b) || text_precedes(b, a),
        !(text_precedes(a, b) && text_precedes(b, a)),
        a == b ==> !text_precedes(a, b),
    decreases a.len(),
{
    if a.len() > 0 && b.len() > 0 && a[0] == b[0] {
        lemma_text_order_total(a.drop_first(), b.drop_first());
        if a.drop_first() == b.drop_first() {
            assert(a =~= seq![a[0]] + a.drop_first());
            assert(b =~= seq![b[0]] + b.drop_first());
        }
    } else if a.len() == 0 && b.len() == 0 {
        assert(a =~= b);
    }
}

proof fn lemma_text_order_transitive(a: Seq<char>, b: Seq<char>, c: Seq<char>)
    requires
        text_precedes(a, b),
        text_precedes(b, c),
    ensures
        text_precedes(a, c),
    decreases a.len(),
{
    if a.len() > 0 && a[0] == b[0] && b[0] == c[0] {
        lemma_text_order_transitive(a.drop_first(), b.drop_first(), c.drop_first());
    }
}

/// Whether a record may stand before another: it is newer, or as new with an
/// owner that does not precede the other's.
pub open spec fn newer(a: RecordFields, b: RecordFields) -> bool {
    text_precedes(b.sequence, a.sequence) || a.sequence == b.sequence && !text_precedes(
        a.owner,
        b.owner,
    )
}

proof fn lemma_newer_total(a: RecordFields, b: RecordFields)
    ensures
        newer(a, b) || newer(b, a),
{
    lemma_text_order_total(a.sequence, b.sequence);
    lemma_text_order_total(a.owner, b.owner);
}

proof fn lemma_newer_transitive(a: RecordFields, b: RecordFields, c: RecordFields)
    requires
        newer(a, b),
        newer(b, c),
    ensures
        newer(a, c),
{
    if text_precedes(b.sequence, a.sequence) && text_precedes(c.sequence, b.sequence) {
        lemma_text_order_transitive(c.sequence, b.sequence, a.sequence);
    }
    if a.sequence == b.sequence && b.sequence == c.sequence && text_precedes(a.owner, c.owner) {
        lemma_text_order_total(a.owner, b.owner);
        lemma_text_order_total(b.owner, c.owner);
        if text_precedes(b.owner, a.owner) {
            lemma_text_order_transitive(b.owner, a.owner, c.owner);
        }
    }
}

/// Whether records stand in order, the newest first.
pub open spec fn newest_first(records: Seq<RecordFields>) -> bool {
    forall|i: int, j: int|
        0 <= i < j < records.len() ==> newer(#[trigger] records[i], #[trigger] records[j])
}

fn is_newer(a: &Record, b: &Record) -> (result: bool)
    ensures
        result == newer(a@, b@),
{
    text_less(b.sequence.as_str(), a.sequence.as_str()) || (same(
        a.sequence.as_str(),
        b.sequence.as_str(),
    ) && !text_less(a.owner.as_str(), b.owner.as_str()))
}

/// The same records in order, the newest first.
pub fn sort_records(records: Vec<Record>) -> (sorted: Vec<Record>)
    ensures
        newest_first(record_fields(sorted@)),
        record_fields(sorted@).to_multiset() == record_fields(records@).to_multiset(),
{
    let ghost all = record_fields(records@);
    let mut left = records;
    let mut sorted: Vec<Record> = Vec::new();
    assert(record_fields(sorted@) =~= Seq::empty());
    assert(all.skip(all.len() as int) =~= Seq::empty());
    assert(all.take(all.len() as int) =~= all);
    loop
        invariant
            all == record_fields(records@),
            left@.len() <= all.len(),
            record_fields(left@) == all.take(left@.len() as int),
            newest_first(record_fields(sorted@)),
            record_fields(sorted@).to_multiset() == all.skip(
                left@.len() as int,
            ).to_multiset(),
        decreases left@.len(),
    {
        let ghost before = left@;
        let ghost old_sorted = record_fields(sorted@);
        match left.pop() {
            Some(record) => {
                let ghost n = left@.len() as int;
                assert(record@ == all[n]) by {
                    assert(record_fields(before)[n] == record@);
                }
                assert(record_fields(left@) =~= all.take(n));
                let mut p: usize = 0;
                while p < sorted.len() && is_newer(&sorted[p], &record)
                    invariant
                        p <= sorted.len(),
                        old_sorted == record_fields(sorted@),
                        forall|i: int| 0 <= i < p ==> newer(#[trigger] old_sorted[i], record@),
                    decreases sorted.len() - p,
                {
                    assert(old_sorted[p as int] == sorted@[p as int]@);
                    p = p + 1;
                }
                proof {
                    assert forall|j: int| p <= j < old_sorted.len() implies newer(
                        record@,
                        #[trigger] old_sorted[j],
                    ) by {
                        assert(old_sorted[p as int] == sorted@[p as int]@);
                        lemma_newer_total(record@, old_sorted[p as int]);
                        if j > p {
                            lemma_newer_transitive(record@, old_sorted[p as int], old_sorted[j]);
                        }
                    }
                }
                let ghost value = record@;
                sorted.insert(p, record);
                proof {
                    assert(record_fields(sorted@) =~= old_sorted.insert(p as int, value));
                    vstd::seq_lib::to_multiset_insert(old_sorted, p as int, value);
                    let rest = all.skip(n + 1);
                    assert(all.skip(n) =~= rest.insert(0, value));
                    vstd::seq_lib::to_multiset_insert(rest, 0, value);
                    let now = record_fields(sorted@);
                    assert forall|i: int, j: int| 0 <= i < j < now.len() implies newer(
                        #[trigger] now[i],
                        #[trigger] now[j],
                    ) by {
                        let a = if i < p {
                            i
                        } else {
                            i - 1
                        };
                        let b = if j < p {
                            j
                        } else {
                            j - 1
                        };
                        if i != p {
                            assert(now[i] == old_sorted[a]);
                        }
                        if j != p {
                            assert(now[j] == old_sorted[b]);
                        }
                    }
                }
            },
            None => {
                assert(all.skip(0) =~= all);
                return sorted;
            },
        }
    }
}

/// The newest path among the latest record and the owners' records.
pub open spec fn newest_path(latest: Option<Seq<char>>, owners: Seq<Seq<char>>) -> Option<
    Seq<char>,
> {
    match latest {
        Some(path) => Some(path),
        None => if owners.len() > 0 {
            Some(owners[0])
        } else {
            None
        },
    }
}

/// The newest path among the latest record and the owners' records.
pub fn newest<'a>(latest: Option<&'a str>, owners: &'a Vec<String>) -> (path: Option<&'a str>)
    ensures
        opt_str(path) == newest_path(opt_str(latest), strings(owners@)),
{
    match latest {
        Some(path) => Some(path),
        None => if owners.len() > 0 {
            assert(strings(owners@)[0] == owners@[0]@);
            Some(owners[0].as_str())
        } else {
            None
        },
    }
}

/// What is tried in order: the latest record, then the owners' records. The
/// older record comes first where it exists and nothing is newer than it, else
/// after them.
pub open spec fn record_order(
    latest: Option<Seq<char>>,
    owners: Seq<Seq<char>>,
    legacy: Seq<char>,
    legacy_first: bool,
    others: Seq<Seq<char>>,
) -> Seq<Seq<char>> {
    let versioned = match latest {
        Some(path) => seq![path] + owners,
        None => owners,
    };
    if legacy_first {
        seq![legacy] + versioned + others
    } else {
        versioned + seq![legacy] + others
    }
}

/// The records in the order in which they are tried. `overtaken` says that the
/// newest versioned record is newer than the older one.
pub fn ordered_records(
    latest: Option<&str>,
    owners: &Vec<String>,
    legacy: &str,
    legacy_exists: bool,
    overtaken: bool,
    others: &Vec<String>,
) -> (paths: Vec<String>)
    ensures
        strings(paths@) == record_order(
            opt_str(latest),
            strings(owners@),
            legacy@,
            legacy_exists && (newest_path(opt_str(latest), strings(owners@)) is None || !overtaken),
            strings(others@),
        ),
{
    let legacy_first = legacy_exists && (newest(latest, owners).is_none() || !overtaken);
    let mut paths: Vec<String> = Vec::new();
    if legacy_first {
        paths.push(String::from_str(legacy));
    }
    if let Some(path) = latest {
        paths.push(String::from_str(path));
    }
    let ghost before = strings(paths@);
    assert(before + strings(owners@) =~= (if legacy_first {
        seq![legacy@]
    } else {
        Seq::empty()
    }) + (match opt_str(latest) {
        Some(path) => seq![path] + strings(owners@),
        None => strings(owners@),
    }));
    crate::text::push_strings(&mut paths, owners.as_slice());
    let ghost middle = strings(paths@);
    if !legacy_first {
        paths.push(String::from_str(legacy));
    }
    assert(strings(paths@) =~= middle + (if legacy_first {
        Seq::<Seq<char>>::empty()
    } else {
        seq![legacy@]
    }));
    crate::text::push_strings(&mut paths, others.as_slice());
    assert(strings(paths@) =~= record_order(
        opt_str(latest),
        strings(owners@),
        legacy@,
        legacy_first,
        strings(others@),
    ));
    paths
}

/// The values of optional paths, each where it occurs first, however a later
/// one is spelled.
pub open spec fn first_occurrences(values: Seq<Option<Seq<char>>>) -> Seq<Seq<char>>
    decreases values.len(),
{
    if values.len() == 0 {
        Seq::empty()
    } else {
        let before = first_occurrences(values.drop_last());
        match values.last() {
            Some(value) if !listed_path(before, value) => before.push(value),
            _ => before,
        }
    }
}

/// The sockets to try: each of those that records hold, once, in order.
pub fn distinct_sockets(sockets: &Vec<Option<String>>) -> (distinct: Vec<String>)
    ensures
        strings(distinct@) == first_occurrences(opt_texts(sockets@)),
{
    let ghost all = opt_texts(sockets@);
    let mut distinct: Vec<String> = Vec::new();
    let mut i: usize = 0;
    assert(strings(distinct@) =~= first_occurrences(all.take(0)));
    while i < sockets.len()
        invariant
            i <= sockets.len(),
            all == opt_texts(sockets@),
            strings(distinct@) == first_occurrences(all.take(i as int)),
        decreases sockets.len() - i,
    {
        let ghost before = distinct@;
        assert(all.take(i + 1).drop_last() =~= all.take(i as int));
        assert(all.take(i + 1).last() == crate::text::opt_text(sockets@[i as int]));
        if let Some(socket) = &sockets[i] {
            if !lists_path(&distinct, socket.as_str()) {
                distinct.push(socket.clone());
                assert(strings(distinct@) =~= strings(before).push(socket@));
            }
        }
        i = i + 1;
    }
    assert(all.take(i as int) =~= all);
    distinct
}

/// No socket is tried twice, under whatever spelling.
pub proof fn lemma_sockets_distinct(values: Seq<Option<Seq<char>>>, i: int, j: int)
    requires
        0 <= i < j < first_occurrences(values).len(),
    ensures
        !same_path(first_occurrences(values)[i], first_occurrences(values)[j]),
    decreases values.len(),
{
    if values.len() > 0 {
        let before = first_occurrences(values.drop_last());
        if j < before.len() {
            lemma_sockets_distinct(values.drop_last(), i, j);
        } else {
            assert(first_occurrences(values)[i] == before[i]);
        }
    }
}

/// Where discovery state lives: below an absolute state directory, else below
/// the home; nowhere without either.
pub open spec fn state_root(state_home: Option<Seq<char>>, home: Option<Seq<char>>) -> Option<
    Seq<char>,
> {
    match state_home {
        Some(base) if absolute(base) => Some(below(base, "nvim-tmux-open"@)),
        _ => match home {
            Some(home) => Some(below(below(home, ".local/state"@), "nvim-tmux-open"@)),
            None => None,
        },
    }
}

/// Where discovery state lives.
pub fn state_directory(state_home: Option<&str>, home: Option<&str>) -> (directory: Option<String>)
    ensures
        crate::text::opt_text(directory) == state_root(opt_str(state_home), opt_str(home)),
{
    if let Some(base) = state_home {
        if is_absolute(base) {
            return Some(join(base, "nvim-tmux-open"));
        }
    }
    match home {
        Some(home) => {
            let base = join(home, ".local/state");
            Some(join(base.as_str(), "nvim-tmux-open"))
        },
        None => None,
    }
}

/// The files that one scope's records are read from.
#[derive(Debug, PartialEq, Eq)]
pub struct RecordPaths {
    pub latest: String,
    /// The directory of the owners' records.
    pub owners: String,
    pub legacy: String,
}

/// The records of the editor that was used last, whatever pane it is in.
pub fn current_paths(state: &str) -> (paths: RecordPaths)
    ensures
        paths.latest@ == below(below(state@, "registry"@), "current/latest"@),
        paths.owners@ == below(below(state@, "registry"@), "current/owners"@),
        paths.legacy@ == below(state@, "current"@),
{
    let registry = join(state, "registry");
    RecordPaths {
        latest: join(registry.as_str(), "current/latest"),
        owners: join(registry.as_str(), "current/owners"),
        legacy: join(state, "current"),
    }
}

/// The records of the editors in one pane.
pub fn pane_paths(state: &str, tmux: &str, pane: &str) -> (paths: RecordPaths)
    ensures
        ({
            let scope = below(
                below(below(state@, "registry"@), "panes"@),
                pane_key(tmux@, pane@),
            );
            &&& paths.latest@ == below(scope, "latest"@)
            &&& paths.owners@ == below(scope, "owners"@)
            &&& paths.legacy@ == below(
                below(state@, "panes"@),
                flattened(legacy_name(tmux@, pane@)),
            )
        }),
{
    let registry = join(state, "registry");
    let panes = join(registry.as_str(), "panes");
    let scope = join(panes.as_str(), pane_key_for(tmux, pane).as_str());
    let legacy = join(state, "panes");
    RecordPaths {
        latest: join(scope.as_str(), "latest"),
        owners: join(scope.as_str(), "owners"),
        legacy: join(legacy.as_str(), legacy_pane_key(tmux, pane).as_str()),
    }
}

} // verus!
