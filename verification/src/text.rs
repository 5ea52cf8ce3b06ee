//! Text primitives shared by every parser and renderer of the crate.
//!
//! Text is modelled as a sequence of Unicode scalar values, the view that
//! `str` and `String` have.

use vstd::prelude::*;
use vstd::string::*;
use vstd::utf8::*;

verus! {

/// `String::push` appends exactly the given character.
pub assume_specification[ String::push ](s: &mut String, c: char)
    ensures
        final(s)@ == old(s)@.push(c),
;

/// Whether two texts hold the same characters.
pub fn same(left: &str, right: &str) -> (equal: bool)
    ensures
        equal == (left@ == right@),
{
    let a = left.as_bytes();
    let b = right.as_bytes();
    proof {
        encode_utf8_decode_utf8(left@);
        encode_utf8_decode_utf8(right@);
    }
    if a.len() != b.len() {
        return false;
    }
    let mut i: usize = 0;
    while i < a.len()
        invariant
            i <= a.len(),
            a.len() == b.len(),
            a@ == encode_utf8(left@),
            b@ == encode_utf8(right@),
            a@.subrange(0, i as int) =~= b@.subrange(0, i as int),
        decreases a.len() - i,
    {
        if a[i] != b[i] {
            assert(a@[i as int] != b@[i as int]);
            return false;
        }
        i = i + 1;
        assert(a@.subrange(0, i as int) =~= b@.subrange(0, i as int)) by {
            assert(a@.subrange(0, i as int) =~= a@.subrange(0, i - 1).push(a@[i - 1]));
            assert(b@.subrange(0, i as int) =~= b@.subrange(0, i - 1).push(b@[i - 1]));
        }
    }
    assert(a@ =~= a@.subrange(0, a@.len() as int));
    assert(b@ =~= b@.subrange(0, b@.len() as int));
    true
}

/// The characters of a text.
pub fn chars_of(value: &str) -> (chars: Vec<char>)
    ensures
        chars@ == value@,
{
    let mut chars: Vec<char> = Vec::new();
    for c in it: value.chars()
        invariant
            it.seq() == value@,
            chars@ == value@.subrange(0, it.index() as int),
    {
        chars.push(c);
        assert(chars@ =~= value@.subrange(0, it.index() + 1));
    }
    assert(chars@ =~= value@);
    chars
}

/// The text made of the given characters.
pub fn string_of(chars: &[char]) -> (value: String)
    ensures
        value@ == chars@,
{
    let mut value = String::new();
    let mut i: usize = 0;
    while i < chars.len()
        invariant
            i <= chars.len(),
            value@ == chars@.subrange(0, i as int),
        decreases chars.len() - i,
    {
        value.push(chars[i]);
        i = i + 1;
        assert(value@ =~= chars@.subrange(0, i as int));
    }
    assert(value@ =~= chars@);
    value
}

/// The class that holds exactly one character.
pub open spec fn just(c: char) -> spec_fn(char) -> bool {
    |x: char| x == c
}

/// The class of the characters that occur in `set`.
pub open spec fn any_of(set: Seq<char>) -> spec_fn(char) -> bool {
    |x: char| set.contains(x)
}

/// Whether a character has the Unicode `White_Space` property.
pub open spec fn white_space(c: char) -> bool {
    ||| '\u{9}' <= c <= '\u{d}'
    ||| c == ' ' || c == '\u{85}' || c == '\u{a0}' || c == '\u{1680}'
    ||| '\u{2000}' <= c <= '\u{200a}'
    ||| c == '\u{2028}' || c == '\u{2029}' || c == '\u{202f}' || c == '\u{205f}' || c == '\u{3000}'
}

/// The class of white space.
pub open spec fn blank() -> spec_fn(char) -> bool {
    |x: char| white_space(x)
}

/// The class of everything but white space.
pub open spec fn ink() -> spec_fn(char) -> bool {
    |x: char| !white_space(x)
}

/// Whether a character is white space.
pub fn is_blank(c: char) -> (result: bool)
    ensures
        result == white_space(c),
{
    ('\u{9}' <= c && c <= '\u{d}') || c == ' ' || c == '\u{85}' || c == '\u{a0}' || c
        == '\u{1680}' || ('\u{2000}' <= c && c <= '\u{200a}') || c == '\u{2028}' || c
        == '\u{2029}' || c == '\u{202f}' || c == '\u{205f}' || c == '\u{3000}'
}

/// The first position of `s` whose character is in the class, or `s.len()`.
pub open spec fn first_where(s: Seq<char>, class: spec_fn(char) -> bool) -> int
    decreases s.len(),
{
    if s.len() == 0 || class(s[0]) {
        0
    } else {
        1 + first_where(s.drop_first(), class)
    }
}

/// What pins the first position down.
pub proof fn lemma_first_where(s: Seq<char>, class: spec_fn(char) -> bool, i: int)
    requires
        0 <= i <= s.len(),
        forall|j: int| 0 <= j < i ==> !class(#[trigger] s[j]),
        i < s.len() ==> class(s[i]),
    ensures
        first_where(s, class) == i,
    decreases s.len(),
{
    if i > 0 {
        assert(!class(s[0]));
        let rest = s.drop_first();
        assert forall|j: int| 0 <= j < i - 1 implies !class(#[trigger] rest[j]) by {
            assert(rest[j] == s[j + 1]);
        }
        lemma_first_where(rest, class, i - 1);
    }
}

/// The first position is in range, and nothing before it is in the class.
pub proof fn lemma_first_where_props(s: Seq<char>, class: spec_fn(char) -> bool)
    ensures
        0 <= first_where(s, class) <= s.len(),
        forall|j: int| 0 <= j < first_where(s, class) ==> !class(#[trigger] s[j]),
        first_where(s, class) < s.len() ==> class(s[first_where(s, class)]),
    decreases s.len(),
{
    if s.len() > 0 && !class(s[0]) {
        let rest = s.drop_first();
        lemma_first_where_props(rest, class);
        assert forall|j: int| 0 <= j < first_where(s, class) implies !class(#[trigger] s[j]) by {
            if j > 0 {
                assert(s[j] == rest[j - 1]);
            }
        }
    }
}

/// The text before and after the first `c`, if there is one.
pub open spec fn cut(s: Seq<char>, c: char) -> Option<(Seq<char>, Seq<char>)> {
    let i = first_where(s, just(c));
    if i < s.len() {
        Some((s.take(i), s.skip(i + 1)))
    } else {
        None
    }
}

/// The position of the first `c` in a text, counted in characters.
pub fn find_char(value: &str, c: char) -> (position: Option<usize>)
    ensures
        match position {
            Some(i) => i < value@.len() && i == first_where(value@, just(c)),
            None => first_where(value@, just(c)) == value@.len(),
        },
{
    let chars = chars_of(value);
    let mut i: usize = 0;
    while i < chars.len()
        invariant
            i <= chars.len(),
            chars@ == value@,
            forall|j: int| 0 <= j < i ==> #[trigger] chars@[j] != c,
        decreases chars.len() - i,
    {
        if chars[i] == c {
            proof {
                lemma_first_where(value@, just(c), i as int);
            }
            return Some(i);
        }
        i = i + 1;
    }
    proof {
        lemma_first_where(value@, just(c), i as int);
    }
    None
}

/// Whether a text holds `c`.
pub fn contains_char(value: &str, c: char) -> (found: bool)
    ensures
        found == value@.contains(c),
{
    proof {
        lemma_first_where_props(value@, just(c));
    }
    match find_char(value, c) {
        Some(i) => {
            assert(value@[i as int] == c);
            true
        },
        None => {
            assert forall|j: int| 0 <= j < value@.len() implies value@[j] != c by {
                assert(!just(c)(value@[j]));
            }
            false
        },
    }
}

/// Split a text at its first `c`.
pub fn split_once<'a>(value: &'a str, c: char) -> (parts: Option<(&'a str, &'a str)>)
    ensures
        match parts {
            Some((before, after)) => cut(value@, c) == Some((before@, after@)),
            None => cut(value@, c) is None,
        },
{
    match find_char(value, c) {
        Some(i) => {
            let length: usize = value.unicode_len();
            let before = value.substring_char(0, i);
            let after = value.substring_char(i + 1, length);
            assert(before@ =~= value@.take(i as int));
            assert(after@ =~= value@.skip(i + 1));
            Some((before, after))
        },
        None => None,
    }
}

/// Whether a text begins with `prefix`.
pub fn starts_with(value: &str, prefix: &str) -> (result: bool)
    ensures
        result == prefix@.is_prefix_of(value@),
{
    strip_prefix(value, prefix).is_some()
}

/// What follows `prefix` in a text that begins with it.
pub fn strip_prefix<'a>(value: &'a str, prefix: &str) -> (rest: Option<&'a str>)
    ensures
        match rest {
            Some(rest) => value@ == prefix@ + rest@,
            None => !prefix@.is_prefix_of(value@),
        },
        rest is Some ==> prefix@.is_prefix_of(value@) && rest->0@ == value@.skip(
            prefix@.len() as int,
        ),
{
    let length: usize = value.unicode_len();
    let head: usize = prefix.unicode_len();
    if head > length {
        return None;
    }
    if same(value.substring_char(0, head), prefix) {
        let rest = value.substring_char(head, length);
        assert(value@ =~= prefix@ + rest@);
        assert(rest@ =~= value@.skip(prefix@.len() as int));
        Some(rest)
    } else {
        None
    }
}

/// Whether a text ends with `suffix`.
pub fn ends_with(value: &str, suffix: &str) -> (result: bool)
    ensures
        result == suffix@.is_suffix_of(value@),
{
    strip_suffix(value, suffix).is_some()
}

/// What precedes `suffix` in a text that ends with it.
pub fn strip_suffix<'a>(value: &'a str, suffix: &str) -> (rest: Option<&'a str>)
    ensures
        match rest {
            Some(rest) => value@ == rest@ + suffix@,
            None => !suffix@.is_suffix_of(value@),
        },
        rest is Some ==> suffix@.is_suffix_of(value@) && rest->0@ == value@.take(
            value@.len() - suffix@.len(),
        ),
{
    let length: usize = value.unicode_len();
    let tail: usize = suffix.unicode_len();
    if tail > length {
        return None;
    }
    let split: usize = length - tail;
    if same(value.substring_char(split, length), suffix) {
        let rest = value.substring_char(0, split);
        assert(value@ =~= rest@ + suffix@);
        assert(rest@ =~= value@.take(value@.len() - suffix@.len()));
        Some(rest)
    } else {
        None
    }
}

/// A text without its leading characters of the class.
pub open spec fn trim_start_where(s: Seq<char>, class: spec_fn(char) -> bool) -> Seq<char>
    decreases s.len(),
{
    if s.len() > 0 && class(s[0]) {
        trim_start_where(s.drop_first(), class)
    } else {
        s
    }
}

/// A text without its trailing characters of the class.
pub open spec fn trim_end_where(s: Seq<char>, class: spec_fn(char) -> bool) -> Seq<char>
    decreases s.len(),
{
    if s.len() > 0 && class(s.last()) {
        trim_end_where(s.drop_last(), class)
    } else {
        s
    }
}

proof fn lemma_trim_start_skips(s: Seq<char>, class: spec_fn(char) -> bool, i: int)
    requires
        0 <= i <= s.len(),
        forall|j: int| 0 <= j < i ==> class(#[trigger] s[j]),
    ensures
        trim_start_where(s, class) == trim_start_where(s.skip(i), class),
    decreases i,
{
    if i == 0 {
        assert(s.skip(0) =~= s);
    } else {
        assert(class(s[0]));
        assert forall|j: int| 0 <= j < i - 1 implies class(#[trigger] s.drop_first()[j]) by {
            assert(class(s[j + 1]));
        }
        lemma_trim_start_skips(s.drop_first(), class, i - 1);
        assert(s.drop_first().skip(i - 1) =~= s.skip(i));
    }
}

proof fn lemma_trim_end_takes(s: Seq<char>, class: spec_fn(char) -> bool, n: int)
    requires
        0 <= n <= s.len(),
        forall|j: int| n <= j < s.len() ==> class(#[trigger] s[j]),
    ensures
        trim_end_where(s, class) == trim_end_where(s.take(n), class),
    decreases s.len() - n,
{
    if n == s.len() {
        assert(s.take(n) =~= s);
    } else {
        assert(class(s[s.len() - 1]));
        assert forall|j: int| n <= j < s.drop_last().len() implies class(
            #[trigger] s.drop_last()[j],
        ) by {
            assert(class(s[j]));
        }
        lemma_trim_end_takes(s.drop_last(), class, n);
        assert(s.drop_last().take(n) =~= s.take(n));
    }
}

/// Whether `c` is one of the characters of `set`.
pub fn is_any_of(set: &[char], c: char) -> (found: bool)
    ensures
        found == set@.contains(c),
{
    let mut i: usize = 0;
    while i < set.len()
        invariant
            i <= set.len(),
            forall|j: int| 0 <= j < i ==> set@[j] != c,
        decreases set.len() - i,
    {
        if set[i] == c {
            assert(set@[i as int] == c);
            return true;
        }
        i = i + 1;
    }
    false
}

/// A text without its leading characters of `set`.
pub fn trim_start_any<'a>(value: &'a str, set: &[char]) -> (rest: &'a str)
    ensures
        rest@ == trim_start_where(value@, any_of(set@)),
{
    let chars = chars_of(value);
    let mut i: usize = 0;
    while i < chars.len() && is_any_of(set, chars[i])
        invariant
            i <= chars.len(),
            chars@ == value@,
            forall|j: int| 0 <= j < i ==> set@.contains(#[trigger] chars@[j]),
        decreases chars.len() - i,
    {
        i = i + 1;
    }
    let rest = value.substring_char(i, chars.len());
    proof {
        lemma_trim_start_skips(value@, any_of(set@), i as int);
        assert(rest@ =~= value@.skip(i as int));
    }
    rest
}

/// A text without its trailing characters of `set`.
pub fn trim_end_any<'a>(value: &'a str, set: &[char]) -> (rest: &'a str)
    ensures
        rest@ == trim_end_where(value@, any_of(set@)),
{
    let chars = chars_of(value);
    let mut n: usize = chars.len();
    while n > 0 && is_any_of(set, chars[n - 1])
        invariant
            n <= chars.len(),
            chars@ == value@,
            forall|j: int| n <= j < chars.len() ==> set@.contains(#[trigger] chars@[j]),
        decreases n,
    {
        n = n - 1;
    }
    let rest = value.substring_char(0, n);
    proof {
        lemma_trim_end_takes(value@, any_of(set@), n as int);
        assert(rest@ =~= value@.take(n as int));
    }
    rest
}

/// A text without leading white space.
pub fn trim_start<'a>(value: &'a str) -> (rest: &'a str)
    ensures
        rest@ == trim_start_where(value@, blank()),
{
    let chars = chars_of(value);
    let mut i: usize = 0;
    while i < chars.len() && is_blank(chars[i])
        invariant
            i <= chars.len(),
            chars@ == value@,
            forall|j: int| 0 <= j < i ==> white_space(#[trigger] chars@[j]),
        decreases chars.len() - i,
    {
        i = i + 1;
    }
    let rest = value.substring_char(i, chars.len());
    proof {
        lemma_trim_start_skips(value@, blank(), i as int);
        assert(rest@ =~= value@.skip(i as int));
    }
    rest
}

/// A text without trailing white space.
pub fn trim_end<'a>(value: &'a str) -> (rest: &'a str)
    ensures
        rest@ == trim_end_where(value@, blank()),
{
    let chars = chars_of(value);
    let mut n: usize = chars.len();
    while n > 0 && is_blank(chars[n - 1])
        invariant
            n <= chars.len(),
            chars@ == value@,
            forall|j: int| n <= j < chars.len() ==> white_space(#[trigger] chars@[j]),
        decreases n,
    {
        n = n - 1;
    }
    let rest = value.substring_char(0, n);
    proof {
        lemma_trim_end_takes(value@, blank(), n as int);
        assert(rest@ =~= value@.take(n as int));
    }
    rest
}

/// A text without white space at either end.
pub open spec fn trimmed(s: Seq<char>) -> Seq<char> {
    trim_end_where(trim_start_where(s, blank()), blank())
}

/// A text without white space at either end.
pub fn trim<'a>(value: &'a str) -> (rest: &'a str)
    ensures
        rest@ == trimmed(value@),
{
    trim_end(trim_start(value))
}

/// An ASCII letter in lower case; any other character as it is.
pub open spec fn lower(c: char) -> char {
    if 'A' <= c <= 'Z' {
        (c as u32 + 32) as char
    } else {
        c
    }
}

/// A text with its ASCII letters in lower case.
pub open spec fn lowered(s: Seq<char>) -> Seq<char> {
    Seq::new(s.len(), |i: int| lower(s[i]))
}

/// An ASCII letter in lower case; any other character as it is.
pub fn lower_char(c: char) -> (result: char)
    ensures
        result == lower(c),
{
    if 'A' <= c && c <= 'Z' {
        let code: u8 = (c as u32) as u8;
        (code + 32) as char
    } else {
        c
    }
}

/// A text with its ASCII letters in lower case.
pub fn to_lower(value: &str) -> (result: String)
    ensures
        result@ == lowered(value@),
{
    let mut result = String::new();
    for c in it: value.chars()
        invariant
            it.seq() == value@,
            result@ == lowered(value@).take(it.index() as int),
    {
        result.push(lower_char(c));
        assert(result@ =~= lowered(value@).take(it.index() + 1));
    }
    assert(result@ =~= lowered(value@));
    result
}

/// The texts that borrowed strings hold.
pub open spec fn texts(values: Seq<&str>) -> Seq<Seq<char>> {
    Seq::new(values.len(), |i: int| values[i]@)
}

/// The texts that owned strings hold.
pub open spec fn strings(values: Seq<String>) -> Seq<Seq<char>> {
    Seq::new(values.len(), |i: int| values[i]@)
}

/// The pieces of a text between the occurrences of `c`.
pub open spec fn split(s: Seq<char>, c: char) -> Seq<Seq<char>>
    decreases s.len(),
{
    let i = first_where(s, just(c));
    if 0 <= i < s.len() {
        seq![s.take(i)] + split(s.skip(i + 1), c)
    } else {
        seq![s]
    }
}

/// The pieces of a text between the occurrences of `c`.
pub fn split_char<'a>(value: &'a str, c: char) -> (parts: Vec<&'a str>)
    ensures
        texts(parts@) == split(value@, c),
{
    let mut parts: Vec<&'a str> = Vec::new();
    let mut rest: &'a str = value;
    loop
        invariant
            texts(parts@) + split(rest@, c) == split(value@, c),
        decreases rest@.len(),
    {
        let ghost before = parts@;
        proof {
            lemma_first_where_props(rest@, just(c));
        }
        match split_once(rest, c) {
            Some((head, tail)) => {
                parts.push(head);
                proof {
                    assert(texts(parts@) =~= texts(before).push(head@));
                    assert(texts(parts@) + split(tail@, c) =~= texts(before) + (seq![head@]
                        + split(tail@, c)));
                }
                rest = tail;
            },
            None => {
                parts.push(rest);
                assert(texts(parts@) =~= texts(before) + seq![rest@]);
                return parts;
            },
        }
    }
}

/// A line without the carriage return that belongs to its terminator.
pub open spec fn without_return(s: Seq<char>) -> Seq<char> {
    if s.len() > 0 && s.last() == '\r' {
        s.drop_last()
    } else {
        s
    }
}

/// The lines of a text, without their terminators.
pub open spec fn lines(s: Seq<char>) -> Seq<Seq<char>>
    decreases s.len(),
{
    let i = first_where(s, just('\n'));
    if s.len() == 0 {
        Seq::empty()
    } else if 0 <= i < s.len() {
        seq![without_return(s.take(i))] + lines(s.skip(i + 1))
    } else {
        seq![s]
    }
}

/// The lines of a text, without their terminators.
pub fn lines_of<'a>(value: &'a str) -> (parts: Vec<&'a str>)
    ensures
        texts(parts@) == lines(value@),
{
    let mut parts: Vec<&'a str> = Vec::new();
    let mut rest: &'a str = value;
    loop
        invariant
            texts(parts@) + lines(rest@) == lines(value@),
        decreases rest@.len(),
    {
        let ghost before = parts@;
        proof {
            lemma_first_where_props(rest@, just('\n'));
        }
        if rest.is_empty() {
            assert(texts(parts@) =~= texts(parts@) + lines(rest@));
            return parts;
        }
        match split_once(rest, '\n') {
            Some((head, tail)) => {
                proof {
                    reveal_strlit("\r");
                }
                let line = match strip_suffix(head, "\r") {
                    Some(line) => {
                        assert(head@.last() == '\r');
                        assert(line@ =~= head@.drop_last());
                        line
                    },
                    None => {
                        assert(!(head@.len() > 0 && head@.last() == '\r')) by {
                            if head@.len() > 0 && head@.last() == '\r' {
                                assert("\r"@ =~= head@.subrange(head@.len() - 1, head@.len() as int));
                            }
                        }
                        head
                    },
                };
                parts.push(line);
                proof {
                    assert(texts(parts@) =~= texts(before).push(line@));
                    assert(texts(parts@) + lines(tail@) =~= texts(before) + (seq![line@]
                        + lines(tail@)));
                }
                rest = tail;
            },
            None => {
                parts.push(rest);
                assert(texts(parts@) =~= texts(before) + seq![rest@]);
                return parts;
            },
        }
    }
}

/// The maximal runs of characters that are not white space.
pub open spec fn words(s: Seq<char>) -> Seq<Seq<char>>
    decreases s.len(),
{
    let start = first_where(s, ink());
    let body = s.skip(start);
    let length = first_where(body, blank());
    if 0 <= start < s.len() && 0 < length <= body.len() {
        seq![body.take(length)] + words(body.skip(length))
    } else {
        Seq::empty()
    }
}

/// The maximal runs of characters that are not white space.
pub fn words_of<'a>(value: &'a str) -> (parts: Vec<&'a str>)
    ensures
        texts(parts@) == words(value@),
{
    let chars = chars_of(value);
    let mut parts: Vec<&'a str> = Vec::new();
    let mut at: usize = 0;
    assert(value@.skip(0) =~= value@);
    assert(texts(parts@) + words(value@) =~= words(value@));
    loop
        invariant
            at <= chars.len(),
            chars@ == value@,
            texts(parts@) + words(value@.skip(at as int)) == words(value@),
        decreases chars.len() - at,
    {
        let ghost rest = value@.skip(at as int);
        let mut start: usize = at;
        while start < chars.len() && is_blank(chars[start])
            invariant
                at <= start <= chars.len(),
                chars@ == value@,
                forall|j: int| at <= j < start ==> white_space(#[trigger] chars@[j]),
            decreases chars.len() - start,
        {
            start = start + 1;
        }
        proof {
            assert forall|j: int| 0 <= j < start - at implies !ink()(#[trigger] rest[j]) by {
                assert(white_space(chars@[j + at]));
            }
            lemma_first_where(rest, ink(), start - at);
        }
        if start == chars.len() {
            assert(words(rest) =~= Seq::empty());
            assert(texts(parts@) =~= texts(parts@) + words(rest));
            return parts;
        }
        let mut end: usize = start;
        while end < chars.len() && !is_blank(chars[end])
            invariant
                start <= end <= chars.len(),
                chars@ == value@,
                forall|j: int| start <= j < end ==> !white_space(#[trigger] chars@[j]),
            decreases chars.len() - end,
        {
            end = end + 1;
        }
        let word = value.substring_char(start, end);
        let ghost before = parts@;
        parts.push(word);
        proof {
            let body = rest.skip(start - at);
            assert forall|j: int| 0 <= j < end - start implies !blank()(#[trigger] body[j]) by {
                assert(!white_space(chars@[j + start]));
            }
            lemma_first_where(body, blank(), end - start);
            assert(body.take(end - start) =~= word@);
            assert(body.skip(end - start) =~= value@.skip(end as int));
            assert(texts(parts@) =~= texts(before).push(word@));
            assert(texts(parts@) + words(value@.skip(end as int)) =~= texts(before) + words(rest));
        }
        at = end;
    }
}

/// The parts in order, with `separator` between neighbours.
pub open spec fn joined(parts: Seq<Seq<char>>, separator: Seq<char>) -> Seq<char>
    decreases parts.len(),
{
    if parts.len() == 0 {
        Seq::empty()
    } else if parts.len() == 1 {
        parts[0]
    } else {
        joined(parts.drop_last(), separator) + separator + parts.last()
    }
}

/// The parts in order, with `separator` between neighbours.
pub fn join(parts: &[String], separator: &str) -> (result: String)
    ensures
        result@ == joined(strings(parts@), separator@),
{
    let mut result = String::new();
    let mut i: usize = 0;
    while i < parts.len()
        invariant
            i <= parts.len(),
            result@ == joined(strings(parts@).take(i as int), separator@),
        decreases parts.len() - i,
    {
        let ghost done = strings(parts@).take(i as int);
        let ghost more = strings(parts@).take(i + 1);
        assert(more.drop_last() =~= done);
        assert(more.last() == parts@[i as int]@);
        if i > 0 {
            result.append(separator);
        }
        result.append(parts[i].as_str());
        assert(result@ =~= joined(more, separator@));
        i = i + 1;
    }
    assert(strings(parts@).take(i as int) =~= strings(parts@));
    result
}

/// A text with every `c` replaced by `with`.
pub open spec fn replaced(s: Seq<char>, c: char, with: Seq<char>) -> Seq<char>
    decreases s.len(),
{
    if s.len() == 0 {
        Seq::empty()
    } else {
        replaced(s.drop_last(), c, with) + if s.last() == c {
            with
        } else {
            seq![s.last()]
        }
    }
}

/// Replacing works piece by piece.
pub proof fn lemma_replaced_concat(a: Seq<char>, b: Seq<char>, c: char, with: Seq<char>)
    ensures
        replaced(a + b, c, with) == replaced(a, c, with) + replaced(b, c, with),
    decreases b.len(),
{
    if b.len() == 0 {
        assert(a + b =~= a);
        assert(replaced(a, c, with) + replaced(b, c, with) =~= replaced(a, c, with));
    } else {
        assert((a + b).drop_last() =~= a + b.drop_last());
        lemma_replaced_concat(a, b.drop_last(), c, with);
        assert(replaced(a + b, c, with) =~= replaced(a, c, with) + replaced(b, c, with));
    }
}

/// Replacing leaves a text alone that does not hold the character.
pub proof fn lemma_replaced_absent(s: Seq<char>, c: char, with: Seq<char>)
    requires
        forall|i: int| 0 <= i < s.len() ==> #[trigger] s[i] != c,
    ensures
        replaced(s, c, with) == s,
    decreases s.len(),
{
    if s.len() > 0 {
        assert forall|i: int| 0 <= i < s.drop_last().len() implies #[trigger] s.drop_last()[i]
            != c by {
            assert(s[i] != c);
        }
        lemma_replaced_absent(s.drop_last(), c, with);
        assert(s.last() == s[s.len() - 1]);
        assert(s.drop_last() + seq![s.last()] =~= s);
    }
}

/// A text with every doubled `c` reduced to a single one.
pub open spec fn halved(s: Seq<char>, c: char) -> Seq<char>
    decreases s.len(),
{
    if s.len() == 0 {
        Seq::empty()
    } else if s.len() > 1 && s[0] == c && s[1] == c {
        seq![c] + halved(s.skip(2), c)
    } else {
        seq![s[0]] + halved(s.skip(1), c)
    }
}

/// Halving undoes doubling.
pub proof fn lemma_halved_doubled(s: Seq<char>, c: char)
    ensures
        halved(replaced(s, c, seq![c, c]), c) == s,
    decreases s.len(),
{
    let twice = seq![c, c];
    if s.len() > 0 {
        let head = s.take(1);
        let rest = s.skip(1);
        assert(s =~= head + rest);
        lemma_replaced_concat(head, rest, c, twice);
        lemma_halved_doubled(rest, c);
        assert(head.drop_last() =~= Seq::empty());
        assert(replaced(Seq::<char>::empty(), c, twice) =~= Seq::empty());
        let whole = replaced(s, c, twice);
        if s[0] == c {
            assert(replaced(head, c, twice) =~= twice);
            assert(whole.skip(2) =~= replaced(rest, c, twice));
        } else {
            assert(replaced(head, c, twice) =~= seq![s[0]]);
            assert(whole.skip(1) =~= replaced(rest, c, twice));
        }
        assert(seq![s[0]] + rest =~= s);
    }
}

/// A text with every `c` replaced by `with`.
pub fn replace_char(value: &str, c: char, with: &str) -> (result: String)
    ensures
        result@ == replaced(value@, c, with@),
{
    let mut result = String::new();
    for x in it: value.chars()
        invariant
            it.seq() == value@,
            result@ == replaced(value@.take(it.index() as int), c, with@),
    {
        let ghost more = value@.take(it.index() + 1);
        assert(more.drop_last() =~= value@.take(it.index() as int));
        assert(more.last() == x);
        if x == c {
            result.append(with);
        } else {
            result.push(x);
        }
        assert(result@ =~= replaced(more, c, with@));
    }
    assert(value@.take(value@.len() as int) =~= value@);
    result
}

/// The decimal digit of a number below ten.
pub open spec fn digit(n: nat) -> char {
    ('0' as u32 + n) as char
}

/// A number in decimal.
pub open spec fn decimal(n: nat) -> Seq<char>
    decreases n,
{
    if n < 10 {
        seq![digit(n)]
    } else {
        decimal(n / 10).push(digit(n % 10))
    }
}

/// Append a number in decimal.
pub fn push_decimal(out: &mut String, n: u64)
    ensures
        final(out)@ == old(out)@ + decimal(n as nat),
    decreases n,
{
    if n >= 10 {
        push_decimal(out, n / 10);
    }
    let code: u8 = 48 + (n % 10) as u8;
    out.push(code as char);
    assert(out@ =~= old(out)@ + decimal(n as nat));
}

/// A number in decimal.
pub fn decimal_of(n: u64) -> (result: String)
    ensures
        result@ == decimal(n as nat),
{
    let mut result = String::new();
    push_decimal(&mut result, n);
    assert(result@ =~= decimal(n as nat));
    result
}

/// Whether a character is an ASCII decimal digit.
pub open spec fn is_digit(c: char) -> bool {
    '0' <= c <= '9'
}

/// The number that decimal digits spell.
pub open spec fn digits_value(s: Seq<char>) -> nat
    decreases s.len(),
{
    if s.len() == 0 {
        0
    } else {
        digits_value(s.drop_last()) * 10 + (s.last() as nat - '0' as nat) as nat
    }
}

/// A text without one leading plus sign.
pub open spec fn unsigned(s: Seq<char>) -> Seq<char> {
    if s.len() > 0 && s[0] == '+' {
        s.skip(1)
    } else {
        s
    }
}

/// The number up to `max` that a text spells: an optional plus sign, then
/// decimal digits.
pub open spec fn parsed(s: Seq<char>, max: nat) -> Option<nat> {
    let digits = unsigned(s);
    if digits.len() > 0 && (forall|i: int| 0 <= i < digits.len() ==> is_digit(#[trigger] digits[i]))
        && digits_value(digits) <= max {
        Some(digits_value(digits))
    } else {
        None
    }
}

proof fn lemma_digits_value_grows(s: Seq<char>, i: int)
    requires
        0 <= i <= s.len(),
        forall|j: int| 0 <= j < s.len() ==> is_digit(#[trigger] s[j]),
    ensures
        digits_value(s.take(i)) <= digits_value(s),
    decreases s.len(),
{
    if i == s.len() {
        assert(s.take(i) =~= s);
    } else {
        let shorter = s.drop_last();
        assert forall|j: int| 0 <= j < shorter.len() implies is_digit(#[trigger] shorter[j]) by {
            assert(is_digit(s[j]));
        }
        lemma_digits_value_grows(shorter, i);
        assert(shorter.take(i) =~= s.take(i));
        assert(is_digit(s[s.len() - 1]));
    }
}

/// The number up to `max` that a text spells.
pub fn parse_number(value: &str, max: u64) -> (result: Option<u64>)
    ensures
        match result {
            Some(n) => parsed(value@, max as nat) == Some(n as nat),
            None => parsed(value@, max as nat) is None,
        },
{
    let chars = chars_of(value);
    let start: usize = if chars.len() > 0 && chars[0] == '+' {
        1
    } else {
        0
    };
    let ghost digits = unsigned(value@);
    assert(digits =~= value@.skip(start as int));
    if start == chars.len() {
        return None;
    }
    let mut n: u64 = 0;
    let mut i: usize = start;
    while i < chars.len()
        invariant
            start <= i <= chars.len(),
            chars@ == value@,
            start <= 1,
            digits == unsigned(value@),
            digits == value@.skip(start as int),
            n <= max,
            n == digits_value(digits.take(i - start)),
            forall|j: int| 0 <= j < i - start ==> is_digit(#[trigger] digits[j]),
        decreases chars.len() - i,
    {
        let c = chars[i];
        assert(digits[i - start] == c);
        if !('0' <= c && c <= '9') {
            return None;
        }
        let d: u64 = (c as u32 - 48) as u64;
        proof {
            let more = digits.take(i + 1 - start);
            assert(more.drop_last() =~= digits.take(i - start));
            assert(more.last() == c);
            if n * 10 + d > max
                && (forall|j: int| 0 <= j < digits.len() ==> is_digit(#[trigger] digits[j])) {
                lemma_digits_value_grows(digits, i + 1 - start);
            }
        }
        if n > max / 10 || n * 10 > max || d > max - n * 10 {
            return None;
        }
        n = n * 10 + d;
        i = i + 1;
    }
    assert(digits.take(digits.len() as int) =~= digits);
    Some(n)
}

proof fn lemma_decimal_digits(n: nat)
    ensures
        decimal(n).len() > 0,
        forall|i: int| 0 <= i < decimal(n).len() ==> is_digit(#[trigger] decimal(n)[i]),
        digits_value(decimal(n)) == n,
    decreases n,
{
    reveal_with_fuel(digits_value, 2);
    if n < 10 {
        assert(decimal(n) =~= seq![digit(n)]);
        assert(digit(n) as nat == 48 + n);
        assert(seq![digit(n)].drop_last() =~= Seq::empty());
    } else {
        lemma_decimal_digits(n / 10);
        let d = digit(n % 10);
        assert(d as nat == 48 + n % 10);
        assert(decimal(n).drop_last() =~= decimal(n / 10));
        assert(decimal(n).last() == d);
    }
}

/// A number is read back from its decimal text.
pub proof fn lemma_decimal_round_trip(n: nat, max: nat)
    requires
        n <= max,
    ensures
        parsed(decimal(n), max) == Some(n),
{
    lemma_decimal_digits(n);
    assert(is_digit(decimal(n)[0]));
    assert(unsigned(decimal(n)) == decimal(n));
}

/// What `String::from_utf8_lossy` makes of bytes.
pub uninterp spec fn utf8_lossy(bytes: Seq<u8>) -> Seq<char>;

/// Calls `String::from_utf8_lossy`. Valid UTF-8 is decoded as it is; how
/// invalid sequences are replaced is left to the standard library.
#[verifier::external_body]
pub(crate) fn from_utf8_lossy(bytes: &[u8]) -> (value: String)
    ensures
        value@ == utf8_lossy(bytes@),
        valid_utf8(bytes@) ==> value@ == decode_utf8(bytes@),
{
    String::from_utf8_lossy(bytes).into_owned()
}

/// Calls `core::str::from_utf8`, which accepts exactly the valid UTF-8
/// sequences and decodes them.
#[verifier::external_body]
pub(crate) fn from_utf8(bytes: &[u8]) -> (value: Option<String>)
    ensures
        match value {
            Some(value) => valid_utf8(bytes@) && value@ == decode_utf8(bytes@),
            None => !valid_utf8(bytes@),
        },
{
    core::str::from_utf8(bytes).ok().map(str::to_owned)
}

/// Whether `char::is_alphanumeric` holds: the Unicode `Alphabetic` property or
/// a numeric general category.
pub uninterp spec fn unicode_alphanumeric(c: char) -> bool;

/// `char::is_alphanumeric` depends on the character alone. For an ASCII
/// character it holds exactly of the letters and digits.
pub assume_specification[ char::is_alphanumeric ](c: char) -> (result: bool)
    ensures
        result == unicode_alphanumeric(c),
        c <= '\u{7f}' ==> result == ('0' <= c <= '9' || 'a' <= c <= 'z' || 'A' <= c <= 'Z'),
;

/// Append copies of the strings.
pub fn push_strings(output: &mut Vec<String>, values: &[String])
    ensures
        strings(final(output)@) == strings(old(output)@) + strings(values@),
{
    let mut i: usize = 0;
    assert(strings(output@) =~= strings(old(output)@) + strings(values@).take(0));
    while i < values.len()
        invariant
            i <= values.len(),
            strings(output@) == strings(old(output)@) + strings(values@).take(i as int),
        decreases values.len() - i,
    {
        let ghost before = output@;
        output.push(values[i].clone());
        i = i + 1;
        assert(strings(output@) =~= strings(before).push(values@[i - 1]@));
        assert(strings(output@) =~= strings(old(output)@) + strings(values@).take(i as int));
    }
    assert(strings(values@).take(i as int) =~= strings(values@));
}

/// Copies of borrowed strings.
pub fn owned(values: &Vec<&str>) -> (copies: Vec<String>)
    ensures
        strings(copies@) == texts(values@),
{
    let mut copies: Vec<String> = Vec::new();
    let mut i: usize = 0;
    while i < values.len()
        invariant
            i <= values.len(),
            copies@.len() == i,
            forall|j: int| 0 <= j < i ==> (#[trigger] copies@[j])@ == values@[j]@,
        decreases values.len() - i,
    {
        copies.push(String::from_str(values[i]));
        i = i + 1;
    }
    assert(strings(copies@) =~= texts(values@));
    copies
}

/// The last position of `c`, or -1.
pub open spec fn last_char(s: Seq<char>, c: char) -> int
    decreases s.len(),
{
    if s.len() == 0 {
        -1
    } else if s.last() == c {
        s.len() - 1
    } else {
        last_char(s.drop_last(), c)
    }
}

/// The last position of a character is one where it stands.
pub proof fn lemma_last_char(s: Seq<char>, c: char)
    ensures
        -1 <= last_char(s, c) < s.len(),
        last_char(s, c) >= 0 ==> s[last_char(s, c)] == c,
    decreases s.len(),
{
    if s.len() > 0 && s.last() != c {
        lemma_last_char(s.drop_last(), c);
    }
}

/// The last position of `c` in a text, counted in characters.
pub fn rfind_char(value: &str, c: char) -> (position: Option<usize>)
    ensures
        match position {
            Some(i) => last_char(value@, c) == i && i < value@.len() && value@[i as int] == c,
            None => last_char(value@, c) == -1,
        },
{
    let chars = chars_of(value);
    let mut n: usize = chars.len();
    assert(value@.take(n as int) =~= value@);
    while n > 0
        invariant
            n <= chars.len(),
            chars@ == value@,
            last_char(value@, c) == last_char(value@.take(n as int), c),
        decreases n,
    {
        assert(value@.take(n as int).last() == chars@[n - 1]);
        assert(value@.take(n as int).drop_last() =~= value@.take(n - 1));
        if chars[n - 1] == c {
            return Some(n - 1);
        }
        n = n - 1;
    }
    None
}

/// The first position from `from` on where `pattern` occurs in a text.
pub open spec fn find_text(s: Seq<char>, pattern: Seq<char>, from: int) -> Option<int>
    decreases s.len() - from,
{
    if from < 0 || from + pattern.len() > s.len() {
        None
    } else if s.subrange(from, from + pattern.len()) == pattern {
        Some(from)
    } else if from < s.len() {
        find_text(s, pattern, from + 1)
    } else {
        None
    }
}

/// The text before and after the first occurrence of `separator`.
pub open spec fn cut_text(s: Seq<char>, separator: Seq<char>) -> Option<(Seq<char>, Seq<char>)> {
    match find_text(s, separator, 0) {
        Some(i) => Some((s.take(i), s.skip(i + separator.len()))),
        None => None,
    }
}

/// Split a text at the first occurrence of `separator`.
pub fn split_once_text<'a>(value: &'a str, separator: &str) -> (parts: Option<(&'a str, &'a str)>)
    ensures
        match parts {
            Some((before, after)) => cut_text(value@, separator@) == Some((before@, after@)),
            None => cut_text(value@, separator@) is None,
        },
{
    let length: usize = value.unicode_len();
    let width: usize = separator.unicode_len();
    let mut i: usize = 0;
    loop
        invariant
            i <= length,
            length == value@.len(),
            width == separator@.len(),
            find_text(value@, separator@, 0) == find_text(value@, separator@, i as int),
        decreases length - i,
    {
        if width > length - i {
            return None;
        }
        if same(value.substring_char(i, i + width), separator) {
            let before = value.substring_char(0, i);
            let after = value.substring_char(i + width, length);
            assert(before@ =~= value@.take(i as int));
            assert(after@ =~= value@.skip(i + separator@.len()));
            return Some((before, after));
        }
        if i == length {
            return None;
        }
        i = i + 1;
    }
}

/// The position of a text among others, from index `i` on.
pub open spec fn position_of(values: Seq<Seq<char>>, wanted: Seq<char>, i: int) -> Option<int>
    decreases values.len() - i,
{
    if i < 0 || i >= values.len() {
        None
    } else if values[i] == wanted {
        Some(i)
    } else {
        position_of(values, wanted, i + 1)
    }
}

/// The position of a text among others.
pub fn find_position(values: &Vec<&str>, wanted: &str) -> (position: Option<usize>)
    ensures
        match position {
            Some(i) => i < values@.len() && position_of(texts(values@), wanted@, 0) == Some(
                i as int,
            ),
            None => position_of(texts(values@), wanted@, 0) is None,
        },
{
    let mut i: usize = 0;
    while i < values.len()
        invariant
            i <= values.len(),
            position_of(texts(values@), wanted@, 0) == position_of(
                texts(values@),
                wanted@,
                i as int,
            ),
        decreases values.len() - i,
    {
        assert(texts(values@)[i as int] == values@[i as int]@);
        if same(values[i], wanted) {
            return Some(i);
        }
        i = i + 1;
    }
    None
}

/// The text that an optional string holds.
pub open spec fn opt_text(value: Option<String>) -> Option<Seq<char>> {
    match value {
        Some(value) => Some(value@),
        None => None,
    }
}

/// The texts that optional strings hold.
pub open spec fn opt_texts(values: Seq<Option<String>>) -> Seq<Option<Seq<char>>> {
    Seq::new(values.len(), |i: int| opt_text(values[i]))
}

/// The text that an optional borrowed string holds.
pub open spec fn opt_str(value: Option<&str>) -> Option<Seq<char>> {
    match value {
        Some(value) => Some(value@),
        None => None,
    }
}

/// The strings from index `from` on.
pub fn strings_from(values: &[String], from: usize) -> (copies: Vec<String>)
    requires
        from <= values@.len(),
    ensures
        strings(copies@) == strings(values@).skip(from as int),
{
    let mut copies: Vec<String> = Vec::new();
    let mut i: usize = from;
    while i < values.len()
        invariant
            from <= i <= values@.len(),
            copies@.len() == i - from,
            forall|j: int| 0 <= j < copies@.len() ==> (#[trigger] copies@[j])@ == values@[from + j]@,
        decreases values.len() - i,
    {
        copies.push(values[i].clone());
        i = i + 1;
    }
    assert(strings(copies@) =~= strings(values@).skip(from as int));
    copies
}

/// Whether one of the strings equals `wanted`.
pub fn any_equal(values: &[String], wanted: &str) -> (found: bool)
    ensures
        found == strings(values@).contains(wanted@),
{
    let mut i: usize = 0;
    while i < values.len()
        invariant
            i <= values.len(),
            forall|j: int| 0 <= j < i ==> #[trigger] strings(values@)[j] != wanted@,
        decreases values.len() - i,
    {
        assert(strings(values@)[i as int] == values@[i as int]@);
        if same(values[i].as_str(), wanted) {
            return true;
        }
        i = i + 1;
    }
    false
}

/// Two texts, one after the other.
pub fn concat(first: &str, second: &str) -> (result: String)
    ensures
        result@ == first@ + second@,
{
    let mut result = String::from_str(first);
    result.append(second);
    result
}

/// The number between `min` and `max` that a text spells: an optional sign,
/// then decimal digits.
pub open spec fn parsed_signed(s: Seq<char>, min: int, max: int) -> Option<int> {
    if s.len() > 0 && s[0] == '-' {
        let digits = s.skip(1);
        if digits.len() > 0 && digits[0] != '+' && parsed(digits, -min as nat) is Some {
            Some(-(parsed(digits, -min as nat)->0 as int))
        } else {
            None
        }
    } else {
        match parsed(s, max as nat) {
            Some(value) => Some(value as int),
            None => None,
        }
    }
}

/// The number between `min` and `max` that a text spells.
pub fn parse_signed(value: &str, min: i64, max: i64) -> (result: Option<i64>)
    requires
        i64::MIN < min <= 0 <= max,
    ensures
        match result {
            Some(n) => parsed_signed(value@, min as int, max as int) == Some(n as int) && min <= n
                <= max,
            None => parsed_signed(value@, min as int, max as int) is None,
        },
{
    let chars = chars_of(value);
    if chars.len() > 0 && chars[0] == '-' {
        let digits = value.substring_char(1, chars.len());
        assert(digits@ =~= value@.skip(1));
        if chars.len() == 1 || chars[1] == '+' {
            return None;
        }
        match parse_number(digits, (-min) as u64) {
            Some(n) => Some(-(n as i64)),
            None => None,
        }
    } else {
        match parse_number(value, max as u64) {
            Some(n) => Some(n as i64),
            None => None,
        }
    }
}

} // verus!
