//! Bounded process execution and portable process metadata.
//!
//! Linux reads process state from procfs; macOS has no procfs and uses `ps`.
//! The readings of both forms, and the bounds on captured output, stand here.

use vstd::prelude::*;
use vstd::string::*;
use vstd::utf8::*;

use crate::bytes::{find_byte, matches_at, next_byte, occurs_at};
use crate::text::{
    blank, chars_of, first_where, from_utf8, from_utf8_lossy, is_blank, lemma_first_where, lines,
    lines_of, opt_texts, parse_number, parsed, same, starts_with, string_of, strings, strip_prefix,
    texts, trim, trim_start, trim_start_where, trimmed, utf8_lossy, white_space,
};

verus! {

/// Whether a character is ASCII white space.
pub open spec fn ascii_space(c: char) -> bool {
    c == ' ' || c == '\t' || c == '\n' || c == '\u{c}' || c == '\r'
}

/// Whether a character can begin the name of an environment variable.
pub open spec fn name_start(c: char) -> bool {
    'a' <= c <= 'z' || 'A' <= c <= 'Z' || c == '_'
}

/// Whether a character can continue the name of an environment variable.
pub open spec fn name_char(c: char) -> bool {
    name_start(c) || '0' <= c <= '9'
}

/// Whether a text is the name of an environment variable.
pub open spec fn valid_name(name: Seq<char>) -> bool {
    &&& name.len() > 0
    &&& name_start(name[0])
    &&& forall|i: int| 0 <= i < name.len() ==> name_char(#[trigger] name[i])
}

fn is_name_start(c: char) -> (result: bool)
    ensures
        result == name_start(c),
{
    ('a' <= c && c <= 'z') || ('A' <= c && c <= 'Z') || c == '_'
}

fn is_name_char(c: char) -> (result: bool)
    ensures
        result == name_char(c),
{
    is_name_start(c) || ('0' <= c && c <= '9')
}

fn is_ascii_space(c: char) -> (result: bool)
    ensures
        result == ascii_space(c),
{
    c == ' ' || c == '\t' || c == '\n' || c == '\u{c}' || c == '\r'
}

/// Whether a text is the name of an environment variable.
pub fn valid_env_name(name: &str) -> (result: bool)
    ensures
        result == valid_name(name@),
{
    let chars = chars_of(name);
    if chars.len() == 0 || !is_name_start(chars[0]) {
        return false;
    }
    let mut i: usize = 0;
    while i < chars.len()
        invariant
            i <= chars.len(),
            chars@ == name@,
            forall|j: int| 0 <= j < i ==> name_char(#[trigger] name@[j]),
        decreases chars.len() - i,
    {
        if !is_name_char(chars[i]) {
            assert(!name_char(name@[i as int]));
            return false;
        }
        i = i + 1;
    }
    true
}

/// Whether a complete `NAME=` prefix stands at position `start`.
pub open spec fn assignment_at(s: Seq<char>, start: int) -> bool {
    &&& 0 <= start < s.len()
    &&& name_start(s[start])
    &&& exists|k: int|
        start < k < s.len() && #[trigger] s[k] == '=' && forall|j: int|
            start <= j < k ==> name_char(#[trigger] s[j])
}

fn env_assignment_at(chars: &Vec<char>, start: usize) -> (result: bool)
    ensures
        result == assignment_at(chars@, start as int),
{
    if start >= chars.len() || !is_name_start(chars[start]) {
        return false;
    }
    let mut index: usize = start + 1;
    while index < chars.len()
        invariant
            start < index <= chars.len(),
            name_start(chars@[start as int]),
            forall|j: int| start <= j < index ==> name_char(#[trigger] chars@[j]),
        decreases chars.len() - index,
    {
        let c = chars[index];
        if c == '=' {
            assert(chars@[index as int] == '=');
            return true;
        }
        if !is_name_char(c) {
            assert(!name_char(chars@[index as int]));
            assert forall|k: int| start < k < chars@.len() && #[trigger] chars@[k] == '=' implies !(
            forall|j: int| start <= j < k ==> name_char(#[trigger] chars@[j])) by {
                if k <= index {
                    assert(!name_char(chars@[k]));
                    assert(k == index || name_char(chars@[k]));
                }
            }
            return false;
        }
        index = index + 1;
    }
    assert forall|k: int| start < k < chars@.len() implies #[trigger] chars@[k] != '=' by {
        assert(name_char(chars@[k]));
    }
    false
}

/// A `ps` record without the line terminator that ends it.
pub open spec fn record(output: Seq<char>) -> Seq<char> {
    let line = if output.len() > 0 && output.last() == '\n' {
        output.drop_last()
    } else {
        output
    };
    if line.len() > 0 && line.last() == '\r' {
        line.drop_last()
    } else {
        line
    }
}

/// Whether `needle` stands at position `i`, at the start of the record or
/// after white space.
pub open spec fn stands_at(s: Seq<char>, needle: Seq<char>, i: int) -> bool {
    &&& 0 <= i
    &&& i + needle.len() <= s.len()
    &&& s.subrange(i, i + needle.len()) == needle
    &&& i == 0 || ascii_space(s[i - 1])
}

/// The first position from `i` on where `needle` stands.
pub open spec fn standing(s: Seq<char>, needle: Seq<char>, i: int) -> Option<int>
    decreases s.len() - i,
{
    if i < 0 || i >= s.len() {
        None
    } else if stands_at(s, needle, i) {
        Some(i)
    } else {
        standing(s, needle, i + 1)
    }
}

/// Where the value that starts at `i` ends: before the white space that the
/// next assignment follows, else at the end of the record.
pub open spec fn value_end(s: Seq<char>, i: int) -> int
    decreases s.len() - i,
{
    if i >= s.len() {
        s.len() as int
    } else if ascii_space(s[i]) && assignment_at(s, i + 1) {
        i
    } else {
        value_end(s, i + 1)
    }
}

/// The value of a variable in the environment that `ps eww` printed.
pub open spec fn environment_value(output: Seq<char>, name: Seq<char>) -> Option<Seq<char>> {
    let s = record(output);
    let needle = name.push('=');
    if !valid_name(name) {
        None
    } else {
        match standing(s, needle, 0) {
            Some(i) => Some(
                s.subrange(i + needle.len(), value_end(s, i + needle.len())),
            ),
            None => None,
        }
    }
}

fn chars_stand_at(chars: &Vec<char>, needle: &Vec<char>, i: usize) -> (result: bool)
    ensures
        result == stands_at(chars@, needle@, i as int),
{
    if i > chars.len() || needle.len() > chars.len() - i {
        return false;
    }
    if i > 0 && !is_ascii_space(chars[i - 1]) {
        return false;
    }
    let ghost window = chars@.subrange(i as int, i + needle@.len());
    let mut k: usize = 0;
    while k < needle.len()
        invariant
            k <= needle.len() <= chars.len() - i,
            i <= chars.len(),
            window == chars@.subrange(i as int, i + needle@.len()),
            forall|j: int| 0 <= j < k ==> #[trigger] window[j] == needle@[j],
        decreases needle.len() - k,
    {
        assert(window[k as int] == chars@[i + k]);
        if chars[i + k] != needle[k] {
            return false;
        }
        k = k + 1;
    }
    assert(window =~= needle@);
    true
}

/// Extract one variable from the environment suffix printed by `ps eww`.
///
/// Values may contain spaces, so splitting the whole command line on
/// whitespace is incorrect. An environment value ends only where whitespace
/// is followed by another syntactically valid `NAME=` prefix.
#[must_use]
pub fn parse_environment(output: &str, name: &str) -> (value: Option<String>)
    ensures
        match value {
            Some(value) => environment_value(output@, name@) == Some(value@),
            None => environment_value(output@, name@) is None,
        },
{
    if !valid_env_name(name) {
        return None;
    }
    // `ps` terminates its record with a newline. When the requested variable
    // is the final environment entry, there is no following `NAME=` boundary
    // to stop the parser.
    let mut chars = chars_of(output);
    if chars.len() > 0 && chars[chars.len() - 1] == '\n' {
        chars.pop();
        assert(chars@ =~= output@.drop_last());
    }
    let ghost line = chars@;
    if chars.len() > 0 && chars[chars.len() - 1] == '\r' {
        chars.pop();
        assert(chars@ =~= line.drop_last());
    }
    assert(chars@ == record(output@));
    let mut needle = chars_of(name);
    needle.push('=');
    let ghost s = chars@;
    let mut start: usize = 0;
    while start < chars.len() && !chars_stand_at(&chars, &needle, start)
        invariant
            start <= chars.len(),
            s == chars@,
            standing(s, needle@, 0) == standing(s, needle@, start as int),
        decreases chars.len() - start,
    {
        start = start + 1;
    }
    if start == chars.len() {
        return None;
    }
    let from: usize = start + needle.len();
    let mut end: usize = from;
    while end < chars.len() && !(is_ascii_space(chars[end]) && env_assignment_at(&chars, end + 1))
        invariant
            from <= end <= chars.len(),
            s == chars@,
            value_end(s, from as int) == value_end(s, end as int),
        decreases chars.len() - end,
    {
        end = end + 1;
    }
    let value = string_of(vstd::slice::slice_subrange(chars.as_slice(), from, end));
    Some(value)
}

/// White space inside a value never precedes another assignment, so a value
/// keeps its spaces and swallows no neighbour.
pub proof fn lemma_value_is_whole(s: Seq<char>, i: int, j: int)
    requires
        0 <= i <= j < value_end(s, i),
        ascii_space(s[j]),
    ensures
        !assignment_at(s, j + 1),
    decreases s.len() - i,
{
    lemma_value_end_range(s, i);
    if j > i {
        lemma_value_end_range(s, i + 1);
        lemma_value_is_whole(s, i + 1, j);
    }
}

proof fn lemma_value_end_range(s: Seq<char>, i: int)
    ensures
        value_end(s, i) <= s.len(),
        i <= s.len() ==> i <= value_end(s, i),
        value_end(s, i) < s.len() ==> ascii_space(s[value_end(s, i)]) && assignment_at(
            s,
            value_end(s, i) + 1,
        ),
    decreases s.len() - i,
{
    if i < s.len() && !(ascii_space(s[i]) && assignment_at(s, i + 1)) {
        lemma_value_end_range(s, i + 1);
    }
}

/// The value of the first entry of a NUL-separated environment block, from
/// position `from` on, that begins with `prefix`.
pub open spec fn entry_value(block: Seq<u8>, prefix: Seq<u8>, from: int) -> Option<Seq<u8>>
    decreases block.len() - from,
{
    let end = next_byte(block, 0, from);
    if from < 0 || from > block.len() || end < from {
        None
    } else if occurs_at(block.subrange(from, end), prefix, 0) {
        Some(block.subrange(from + prefix.len(), end))
    } else if end < block.len() {
        entry_value(block, prefix, end + 1)
    } else {
        None
    }
}

/// The value of a variable in a procfs environment block, where it is text.
pub open spec fn block_value(block: Seq<u8>, name: Seq<char>) -> Option<Seq<char>> {
    match entry_value(block, encode_utf8(name.push('=')), 0) {
        Some(value) if valid_utf8(value) => Some(decode_utf8(value)),
        _ => None,
    }
}

/// Read one variable from a procfs environment block.
pub fn environment_bytes(environment: &[u8], name: &str) -> (value: Option<String>)
    ensures
        match value {
            Some(value) => block_value(environment@, name@) == Some(value@),
            None => block_value(environment@, name@) is None,
        },
{
    let mut assignment = String::from_str(name);
    assignment.push('=');
    let prefix = assignment.as_str().as_bytes();
    let mut from: usize = 0;
    loop
        invariant
            from <= environment@.len(),
            prefix@ == encode_utf8(name@.push('=')),
            entry_value(environment@, prefix@, 0) == entry_value(
                environment@,
                prefix@,
                from as int,
            ),
        decreases environment@.len() - from,
    {
        let end = find_byte(environment, 0, from);
        let entry = vstd::slice::slice_subrange(environment, from, end);
        if matches_at(entry, prefix, 0) {
            let value = vstd::slice::slice_subrange(environment, from + prefix.len(), end);
            return from_utf8(value);
        }
        if end == environment.len() {
            return None;
        }
        from = end + 1;
    }
}

/// What the values of several variables are.
pub open spec fn environment_values(output: Seq<char>, names: Seq<Seq<char>>) -> Seq<
    Option<Seq<char>>,
> {
    Seq::new(names.len(), |i: int| environment_value(output, names[i]))
}

/// The parent and the variables in one `ps` record: the first word, then the
/// environment.
pub open spec fn parent_record(output: Seq<char>, names: Seq<Seq<char>>) -> Option<
    (nat, Seq<Option<Seq<char>>>),
> {
    let s = trim_start_where(output, blank());
    let boundary = first_where(s, blank());
    match parsed(s.take(boundary), u32::MAX as nat) {
        Some(parent) if boundary < s.len() => Some(
            (parent, environment_values(trim_start_where(s.skip(boundary), blank()), names)),
        ),
        _ => None,
    }
}

/// Read the parent and several variables from one `ps` record.
pub fn parse_parent_environment(output: &str, names: &[&str]) -> (result: Option<
    (u32, Vec<Option<String>>),
>)
    ensures
        match result {
            Some((parent, values)) => parent_record(output@, texts(names@)) == Some(
                (parent as nat, opt_texts(values@)),
            ),
            None => parent_record(output@, texts(names@)) is None,
        },
{
    let output = trim_start(output);
    let chars = chars_of(output);
    let mut boundary: usize = 0;
    while boundary < chars.len() && !is_blank(chars[boundary])
        invariant
            boundary <= chars.len(),
            chars@ == output@,
            forall|j: int| 0 <= j < boundary ==> !white_space(#[trigger] chars@[j]),
        decreases chars.len() - boundary,
    {
        boundary = boundary + 1;
    }
    proof {
        lemma_first_where(output@, blank(), boundary as int);
    }
    if boundary == chars.len() {
        return None;
    }
    let first = output.substring_char(0, boundary);
    assert(first@ =~= output@.take(boundary as int));
    let parent: u32 = match parse_number(first, u32::MAX as u64) {
        Some(parent) => parent as u32,
        None => {
            return None;
        },
    };
    let rest = output.substring_char(boundary, chars.len());
    assert(rest@ =~= output@.skip(boundary as int));
    let environment = trim_start(rest);
    let mut values: Vec<Option<String>> = Vec::new();
    let mut i: usize = 0;
    while i < names.len()
        invariant
            i <= names.len(),
            opt_texts(values@) == environment_values(environment@, texts(names@)).take(
                i as int,
            ),
        decreases names.len() - i,
    {
        let ghost before = values@;
        values.push(parse_environment(environment, names[i]));
        i = i + 1;
        assert(opt_texts(values@) =~= opt_texts(before).push(
            environment_value(environment@, names@[i - 1]@),
        ));
        assert(opt_texts(values@) =~= environment_values(environment@, texts(names@)).take(
            i as int,
        ));
    }
    assert(opt_texts(values@) =~= environment_values(environment@, texts(names@)));
    Some((parent, values))
}

/// The parent that the first readable `PPid:` line names.
pub open spec fn status_line_parent(rows: Seq<Seq<char>>) -> Option<nat>
    decreases rows.len(),
{
    if rows.len() == 0 {
        None
    } else if "PPid:"@.is_prefix_of(rows[0]) && parsed(
        trimmed(rows[0].skip("PPid:"@.len() as int)),
        u32::MAX as nat,
    ) is Some {
        parsed(trimmed(rows[0].skip("PPid:"@.len() as int)), u32::MAX as nat)
    } else {
        status_line_parent(rows.drop_first())
    }
}

/// Read the parent from a procfs status file.
pub fn status_parent(status: &str) -> (parent: Option<u32>)
    ensures
        match parent {
            Some(parent) => status_line_parent(lines(status@)) == Some(parent as nat),
            None => status_line_parent(lines(status@)) is None,
        },
{
    let rows = lines_of(status);
    let ghost all = lines(status@);
    let mut i: usize = 0;
    assert(all.skip(0) =~= all);
    while i < rows.len()
        invariant
            i <= rows.len(),
            texts(rows@) == all,
            all == lines(status@),
            status_line_parent(all) == status_line_parent(all.skip(i as int)),
        decreases rows.len() - i,
    {
        assert(all.skip(i as int)[0] == texts(rows@)[i as int]);
        assert(all.skip(i as int).drop_first() =~= all.skip(i + 1));
        if let Some(value) = strip_prefix(rows[i], "PPid:") {
            if let Some(parent) = parse_number(trim(value), u32::MAX as u64) {
                return Some(parent as u32);
            }
        }
        i = i + 1;
    }
    assert(all.skip(i as int) =~= Seq::empty());
    None
}

/// The parent and the variables that procfs names.
pub open spec fn procfs_record(
    status: Seq<char>,
    environment: Seq<u8>,
    names: Seq<Seq<char>>,
) -> Option<(nat, Seq<Option<Seq<char>>>)> {
    match status_line_parent(lines(status)) {
        Some(parent) => Some(
            (parent, Seq::new(names.len(), |i: int| block_value(environment, names[i]))),
        ),
        None => None,
    }
}

/// Read the parent and several variables of a process from its procfs files.
pub fn parent_environment(status: &str, environment: &[u8], names: &[&str]) -> (result: Option<
    (u32, Vec<Option<String>>),
>)
    ensures
        match result {
            Some((parent, values)) => procfs_record(status@, environment@, texts(names@)) == Some(
                (parent as nat, opt_texts(values@)),
            ),
            None => procfs_record(status@, environment@, texts(names@)) is None,
        },
{
    let parent: u32 = match status_parent(status) {
        Some(parent) => parent,
        None => {
            return None;
        },
    };
    let ghost all = Seq::new(
        texts(names@).len(),
        |i: int| block_value(environment@, texts(names@)[i]),
    );
    let mut values: Vec<Option<String>> = Vec::new();
    let mut i: usize = 0;
    while i < names.len()
        invariant
            i <= names.len(),
            all == Seq::new(
                texts(names@).len(),
                |i: int| block_value(environment@, texts(names@)[i]),
            ),
            opt_texts(values@) == all.take(i as int),
        decreases names.len() - i,
    {
        let ghost before = values@;
        values.push(environment_bytes(environment, names[i]));
        i = i + 1;
        assert(opt_texts(values@) =~= opt_texts(before).push(
            block_value(environment@, names@[i - 1]@),
        ));
        assert(opt_texts(values@) =~= all.take(i as int));
    }
    assert(opt_texts(values@) =~= all);
    Some((parent, values))
}

/// Whether the environment of a process may be looked up for all the names.
pub fn may_look_up_all(pid: u32, names: &[&str]) -> (result: bool)
    ensures
        result == (pid != 0 && forall|i: int|
            0 <= i < names@.len() ==> valid_name(#[trigger] texts(names@)[i])),
{
    if pid == 0 {
        return false;
    }
    let mut i: usize = 0;
    while i < names.len()
        invariant
            i <= names.len(),
            forall|j: int| 0 <= j < i ==> valid_name(#[trigger] texts(names@)[j]),
        decreases names.len() - i,
    {
        assert(texts(names@)[i as int] == names@[i as int]@);
        if !valid_env_name(names[i]) {
            return false;
        }
        i = i + 1;
    }
    true
}

/// The arguments that a procfs command line holds: what stands between zero
/// bytes, from index `from` on, without the empty ones.
pub open spec fn command_arguments(bytes: Seq<u8>, from: int) -> Seq<Seq<char>>
    decreases bytes.len() + 1 - from,
{
    let end = next_byte(bytes, 0, from);
    if from < 0 || from >= bytes.len() || end < from || end > bytes.len() {
        Seq::empty()
    } else if end == from {
        command_arguments(bytes, end + 1)
    } else {
        seq![utf8_lossy(bytes.subrange(from, end))] + command_arguments(bytes, end + 1)
    }
}

/// Read a procfs command line.
pub fn parse_command_line(bytes: &[u8]) -> (arguments: Vec<String>)
    ensures
        strings(arguments@) == command_arguments(bytes@, 0),
{
    let mut arguments: Vec<String> = Vec::new();
    let mut from: usize = 0;
    assert(strings(arguments@) + command_arguments(bytes@, 0) =~= command_arguments(bytes@, 0));
    while from < bytes.len()
        invariant
            from <= bytes@.len(),
            strings(arguments@) + command_arguments(bytes@, from as int) == command_arguments(
                bytes@,
                0,
            ),
        decreases bytes@.len() - from,
    {
        let ghost before = arguments@;
        let end: usize = find_byte(bytes, 0, from);
        if end > from {
            let argument = from_utf8_lossy(vstd::slice::slice_subrange(bytes, from, end));
            arguments.push(argument);
            assert(strings(arguments@) =~= strings(before).push(argument@));
            assert(strings(arguments@) + command_arguments(bytes@, end + 1) =~= strings(before)
                + command_arguments(bytes@, from as int));
        }
        if end == bytes.len() {
            assert(command_arguments(bytes@, end + 1) =~= Seq::empty());
            assert(strings(arguments@) =~= strings(arguments@) + command_arguments(bytes@, end + 1));
            return arguments;
        }
        from = end + 1;
    }
    assert(strings(arguments@) =~= strings(arguments@) + command_arguments(bytes@, from as int));
    arguments
}

/// The parent that `ps -o ppid=` printed.
pub fn ps_parent(output: &str) -> (parent: Option<u32>)
    ensures
        match parent {
            Some(parent) => parsed(trimmed(output@), u32::MAX as nat) == Some(parent as nat),
            None => parsed(trimmed(output@), u32::MAX as nat) is None,
        },
{
    match parse_number(trim(output), u32::MAX as u64) {
        Some(parent) => Some(parent as u32),
        None => None,
    }
}

/// The tty path that `ps -o tty=` printed, which may lack its directory.
pub open spec fn tty_path(output: Seq<char>) -> Seq<char> {
    let name = trimmed(output);
    if name.len() > 0 && !"/"@.is_prefix_of(name) {
        "/dev/"@ + name
    } else {
        name
    }
}

/// Whether the tty that `ps -o tty=` printed is the expected one.
pub fn ps_tty_matches(output: &str, expected: &str) -> (result: bool)
    ensures
        result == (tty_path(output@) == expected@),
{
    let name = trim(output);
    if !name.is_empty() && !starts_with(name, "/") {
        let mut path = String::from_str("/dev/");
        path.append(name);
        same(path.as_str(), expected)
    } else {
        same(name, expected)
    }
}

/// Extract a portable integer exit code, treating signal death as failure.
#[must_use]
pub fn status_code(code: Option<i32>) -> (result: i32)
    ensures
        result == (match code {
            Some(code) => code,
            None => 1,
        }),
{
    match code {
        Some(code) => code,
        None => 1,
    }
}

/// How many bytes one stream may contribute before the other gets its turn.
pub const MAX_BYTES_PER_TURN: usize = 65536;

/// The output that a bounded capture holds so far.
pub struct Capture {
    max_bytes: usize,
    stdout: Vec<u8>,
    stderr: Vec<u8>,
    stdout_open: bool,
    stderr_open: bool,
    code: Option<i32>,
    exited: bool,
}

/// One of the two captured streams.
#[derive(Clone, Copy, Debug, PartialEq, Eq, Structural)]
pub enum Stream {
    Stdout,
    Stderr,
}

/// What became of a read.
#[derive(Clone, Copy, Debug, PartialEq, Eq, Structural)]
pub enum Drained {
    /// The stream is at its end.
    Closed,
    /// The bytes were taken, and this turn goes on.
    More,
    /// The bytes were taken, and this turn is over.
    TurnOver,
    /// The bytes exceed the limit on captured output.
    Exceeded,
}

/// What a bounded capture does next.
#[derive(Debug, PartialEq, Eq)]
pub enum CaptureStep {
    /// The child exited and both streams ended.
    Finished { code: Option<i32> },
    /// The deadline passed.
    TimedOut,
    /// Wait a moment and look again.
    Wait,
}

impl Capture {
    /// The most bytes that both streams may hold together.
    pub closed spec fn limit(&self) -> nat {
        self.max_bytes as nat
    }

    /// What a stream produced so far.
    pub closed spec fn bytes(&self, stream: Stream) -> Seq<u8> {
        match stream {
            Stream::Stdout => self.stdout@,
            Stream::Stderr => self.stderr@,
        }
    }

    /// Whether a stream has not ended yet.
    pub closed spec fn open(&self, stream: Stream) -> bool {
        match stream {
            Stream::Stdout => self.stdout_open,
            Stream::Stderr => self.stderr_open,
        }
    }

    /// How the child exited, once it did.
    pub closed spec fn exit(&self) -> Option<Option<i32>> {
        if self.exited {
            Some(self.code)
        } else {
            None
        }
    }

    /// The captured output never exceeds the limit.
    pub open spec fn valid(&self) -> bool {
        self.bytes(Stream::Stdout).len() + self.bytes(Stream::Stderr).len() <= self.limit()
    }

    /// Begin to capture a child.
    pub fn new(max_bytes: usize) -> (capture: Self)
        ensures
            capture.valid(),
            capture.limit() == max_bytes,
            forall|stream: Stream|
                #![auto]
                capture.bytes(stream) == Seq::<u8>::empty() && capture.open(stream),
            capture.exit() is None,
    {
        Capture {
            max_bytes,
            stdout: Vec::new(),
            stderr: Vec::new(),
            stdout_open: true,
            stderr_open: true,
            code: None,
            exited: false,
        }
    }

    /// Take what one read of a stream gave, after `drained` bytes of this
    /// turn. No bytes mean the end of the stream.
    pub fn accept(&mut self, stream: Stream, bytes: &[u8], drained: usize) -> (result: Drained)
        requires
            old(self).valid(),
            drained < MAX_BYTES_PER_TURN,
        ensures
            final(self).valid(),
            final(self).limit() == old(self).limit(),
            final(self).exit() == old(self).exit(),
            forall|other: Stream|
                #![auto]
                other != stream ==> final(self).bytes(other) == old(self).bytes(other)
                    && final(self).open(other) == old(self).open(other),
            ({
                let held = old(self).bytes(Stream::Stdout).len() + old(self).bytes(
                    Stream::Stderr,
                ).len();
                result == (if bytes@.len() == 0 {
                    Drained::Closed
                } else if held + bytes@.len() > old(self).limit() {
                    Drained::Exceeded
                } else if drained + bytes@.len() >= MAX_BYTES_PER_TURN {
                    Drained::TurnOver
                } else {
                    Drained::More
                })
            }),
            final(self).open(stream) == (old(self).open(stream) && result != Drained::Closed),
            final(self).bytes(stream) == old(self).bytes(stream) + (if result
                == Drained::Exceeded {
                Seq::empty()
            } else {
                bytes@
            }),
    {
        if bytes.len() == 0 {
            match stream {
                Stream::Stdout => {
                    self.stdout_open = false;
                },
                Stream::Stderr => {
                    self.stderr_open = false;
                },
            }
            proof {
                let nothing = Seq::<u8>::empty();
                assert(bytes@ =~= nothing);
                assert(old(self).bytes(stream) + bytes@ =~= old(self).bytes(stream));
            }
            return Drained::Closed;
        }
        let room: usize = self.max_bytes - self.stdout.len() - self.stderr.len();
        if bytes.len() > room {
            assert(old(self).bytes(stream) + Seq::<u8>::empty() =~= old(self).bytes(stream));
            return Drained::Exceeded;
        }
        match stream {
            Stream::Stdout => crate::bytes::push_all(&mut self.stdout, bytes),
            Stream::Stderr => crate::bytes::push_all(&mut self.stderr, bytes),
        }
        if bytes.len() >= MAX_BYTES_PER_TURN - drained {
            Drained::TurnOver
        } else {
            Drained::More
        }
    }

    /// Note how the child exited.
    pub fn exited(&mut self, code: Option<i32>)
        requires
            old(self).valid(),
        ensures
            final(self).valid(),
            final(self).limit() == old(self).limit(),
            final(self).exit() == Some(code),
            forall|stream: Stream|
                #![auto]
                final(self).bytes(stream) == old(self).bytes(stream) && final(self).open(stream)
                    == old(self).open(stream),
    {
        self.code = code;
        self.exited = true;
    }

    /// Decide what follows one round over both streams and the child.
    pub fn decide(&self, expired: bool) -> (step: CaptureStep)
        ensures
            step == (if self.exit() is Some && !self.open(Stream::Stdout) && !self.open(
                Stream::Stderr,
            ) {
                CaptureStep::Finished { code: self.exit()->0 }
            } else if expired {
                CaptureStep::TimedOut
            } else {
                CaptureStep::Wait
            }),
    {
        if self.exited && !self.stdout_open && !self.stderr_open {
            CaptureStep::Finished { code: self.code }
        } else if expired {
            CaptureStep::TimedOut
        } else {
            CaptureStep::Wait
        }
    }

    /// Whether a stream has not ended yet.
    pub fn is_open(&self, stream: Stream) -> (result: bool)
        ensures
            result == self.open(stream),
    {
        match stream {
            Stream::Stdout => self.stdout_open,
            Stream::Stderr => self.stderr_open,
        }
    }

    /// Whether the child was seen to exit.
    pub fn has_exited(&self) -> (result: bool)
        ensures
            result == (self.exit() is Some),
    {
        self.exited
    }

    /// Hand out what both streams produced.
    pub fn into_output(self) -> (output: (Vec<u8>, Vec<u8>))
        ensures
            output.0@ == self.bytes(Stream::Stdout),
            output.1@ == self.bytes(Stream::Stderr),
    {
        (self.stdout, self.stderr)
    }
}

/// What reading the procfs environment of a process gave.
pub enum BlockRead {
    /// Its bytes.
    Block(Vec<u8>),
    /// There is no such file: the host has no procfs.
    Missing,
    /// It could not be read.
    Refused,
}

/// Where the value of a variable comes from.
#[derive(Debug, PartialEq, Eq)]
pub enum Lookup {
    /// It is known to be this, or nothing.
    Known(Option<String>),
    /// `ps` must be asked.
    AskPs,
}

/// Whether the environment of a process may be looked up at all.
pub fn may_look_up(pid: u32, name: &str) -> (result: bool)
    ensures
        result == (pid != 0 && valid_name(name@)),
{
    pid != 0 && valid_env_name(name)
}

/// Settle a variable from the procfs reading, or turn to `ps` where the host
/// has no procfs.
pub fn environment_lookup(pid: u32, name: &str, read: &BlockRead) -> (lookup: Lookup)
    ensures
        match lookup {
            Lookup::Known(value) => match (pid != 0 && valid_name(name@), *read) {
                (false, _) => value is None,
                (true, BlockRead::Block(block)) => block_value(block@, name@) == (match value {
                    Some(value) => Some(value@),
                    None => None,
                }),
                (true, BlockRead::Refused) => value is None,
                (true, BlockRead::Missing) => false,
            },
            Lookup::AskPs => pid != 0 && valid_name(name@) && *read is Missing,
        },
{
    if !may_look_up(pid, name) {
        return Lookup::Known(None);
    }
    match read {
        BlockRead::Block(block) => Lookup::Known(environment_bytes(block.as_slice(), name)),
        BlockRead::Missing => Lookup::AskPs,
        BlockRead::Refused => Lookup::Known(None),
    }
}

} // verus!
