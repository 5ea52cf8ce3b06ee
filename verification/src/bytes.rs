//! Byte-string searches shared by the binary-safe parsers.

use vstd::prelude::*;

verus! {

/// Whether `pattern` occurs in `s` at position `i`.
pub open spec fn occurs_at(s: Seq<u8>, pattern: Seq<u8>, i: int) -> bool {
    &&& 0 <= i
    &&& i + pattern.len() <= s.len()
    &&& s.subrange(i, i + pattern.len()) == pattern
}

/// The first position from `from` on at which `pattern` occurs.
pub open spec fn first_occurrence(s: Seq<u8>, pattern: Seq<u8>, from: int) -> Option<int>
    decreases s.len() + 1 - from,
{
    if from < 0 || from > s.len() {
        None
    } else if occurs_at(s, pattern, from) {
        Some(from)
    } else {
        first_occurrence(s, pattern, from + 1)
    }
}

/// What pins the first occurrence down.
pub proof fn lemma_first_occurrence(s: Seq<u8>, pattern: Seq<u8>, from: int)
    requires
        0 <= from,
    ensures
        match first_occurrence(s, pattern, from) {
            Some(i) => from <= i && occurs_at(s, pattern, i) && forall|j: int|
                from <= j < i ==> !#[trigger] occurs_at(s, pattern, j),
            None => forall|j: int| from <= j ==> !#[trigger] occurs_at(s, pattern, j),
        },
    decreases s.len() + 1 - from,
{
    if from <= s.len() && !occurs_at(s, pattern, from) {
        lemma_first_occurrence(s, pattern, from + 1);
    }
}

/// A position with an occurrence and none before it is the first.
pub proof fn lemma_is_first_occurrence(s: Seq<u8>, pattern: Seq<u8>, from: int, i: int)
    requires
        0 <= from <= i,
        occurs_at(s, pattern, i),
        forall|j: int| from <= j < i ==> !#[trigger] occurs_at(s, pattern, j),
    ensures
        first_occurrence(s, pattern, from) == Some(i),
{
    lemma_first_occurrence(s, pattern, from);
}

/// Where there is no occurrence, none is the first.
pub proof fn lemma_no_occurrence(s: Seq<u8>, pattern: Seq<u8>, from: int)
    requires
        0 <= from,
        forall|j: int| from <= j ==> !#[trigger] occurs_at(s, pattern, j),
    ensures
        first_occurrence(s, pattern, from) is None,
{
    lemma_first_occurrence(s, pattern, from);
}

/// Whether `pattern` occurs in `s` at position `i`.
pub fn matches_at(s: &[u8], pattern: &[u8], i: usize) -> (result: bool)
    ensures
        result == occurs_at(s@, pattern@, i as int),
{
    if i > s.len() || pattern.len() > s.len() - i {
        return false;
    }
    let ghost window = s@.subrange(i as int, i + pattern@.len());
    let mut k: usize = 0;
    while k < pattern.len()
        invariant
            k <= pattern.len() <= s.len() - i,
            i <= s.len(),
            window == s@.subrange(i as int, i + pattern@.len()),
            forall|j: int| 0 <= j < k ==> #[trigger] window[j] == pattern@[j],
        decreases pattern.len() - k,
    {
        assert(window[k as int] == s@[i + k]);
        if s[i + k] != pattern[k] {
            return false;
        }
        k = k + 1;
    }
    assert(window =~= pattern@);
    true
}

/// The first position from `from` on at which `pattern` occurs.
pub fn find_from(s: &[u8], pattern: &[u8], from: usize) -> (position: Option<usize>)
    ensures
        match position {
            Some(i) => first_occurrence(s@, pattern@, from as int) == Some(i as int) && occurs_at(
                s@,
                pattern@,
                i as int,
            ) && from <= i,
            None => first_occurrence(s@, pattern@, from as int) is None,
        },
{
    let mut i: usize = from;
    while i < s.len()
        invariant
            from <= i,
            i <= s.len() || i == from,
            first_occurrence(s@, pattern@, from as int) == first_occurrence(
                s@,
                pattern@,
                i as int,
            ),
        decreases s.len() - i,
    {
        if matches_at(s, pattern, i) {
            return Some(i);
        }
        i = i + 1;
    }
    if i == s.len() && matches_at(s, pattern, i) {
        return Some(i);
    }
    proof {
        if i == s.len() {
            reveal_with_fuel(first_occurrence, 2);
        }
    }
    None
}

/// Append bytes `from..to` of a slice.
pub fn push_range(output: &mut Vec<u8>, s: &[u8], from: usize, to: usize)
    requires
        from <= to <= s@.len(),
    ensures
        final(output)@ == old(output)@ + s@.subrange(from as int, to as int),
{
    let mut i: usize = from;
    assert(output@ =~= old(output)@ + s@.subrange(from as int, from as int));
    while i < to
        invariant
            from <= i <= to <= s@.len(),
            output@ == old(output)@ + s@.subrange(from as int, i as int),
        decreases to - i,
    {
        output.push(s[i]);
        i = i + 1;
        assert(output@ =~= old(output)@ + s@.subrange(from as int, i as int));
    }
}

/// Append all bytes of a slice.
pub fn push_all(output: &mut Vec<u8>, s: &[u8])
    ensures
        final(output)@ == old(output)@ + s@,
{
    push_range(output, s, 0, s.len());
    assert(s@.subrange(0, s@.len() as int) =~= s@);
}

/// The first position from `from` on that holds `byte`, or the length.
pub open spec fn next_byte(s: Seq<u8>, byte: u8, from: int) -> int
    decreases s.len() - from,
{
    if from < 0 || from >= s.len() || s[from] == byte {
        from
    } else {
        next_byte(s, byte, from + 1)
    }
}

/// The position is in range, holds the byte unless it is the end, and nothing
/// before it does.
pub proof fn lemma_next_byte(s: Seq<u8>, byte: u8, from: int)
    requires
        0 <= from <= s.len(),
    ensures
        from <= next_byte(s, byte, from) <= s.len(),
        next_byte(s, byte, from) < s.len() ==> s[next_byte(s, byte, from)] == byte,
        forall|i: int| from <= i < next_byte(s, byte, from) ==> #[trigger] s[i] != byte,
    decreases s.len() - from,
{
    if from < s.len() && s[from] != byte {
        lemma_next_byte(s, byte, from + 1);
    }
}

/// The first position from `from` on that holds `byte`, or the length.
pub fn find_byte(s: &[u8], byte: u8, from: usize) -> (position: usize)
    requires
        from <= s@.len(),
    ensures
        position == next_byte(s@, byte, from as int),
        from <= position <= s@.len(),
        position < s@.len() ==> s@[position as int] == byte,
{
    let mut i: usize = from;
    while i < s.len() && s[i] != byte
        invariant
            from <= i <= s@.len(),
            next_byte(s@, byte, from as int) == next_byte(s@, byte, i as int),
        decreases s.len() - i,
    {
        i = i + 1;
    }
    i
}

} // verus!
