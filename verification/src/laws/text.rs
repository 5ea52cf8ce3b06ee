//! What cutting, trimming, listing and counting text means.

use vstd::prelude::*;
use vstd::string::*;

use crate::text::{
    blank, cut, decimal, find_text, first_where, ink, is_digit, joined, just, last_char,
    lemma_decimal_round_trip, lemma_first_where, lemma_first_where_props, lines, lowered, parsed,
    parsed_signed, replaced, split, trim_end_where, trim_start_where, trimmed, unsigned,
    white_space, words,
};

verus! {

/// Cutting a text at a character loses nothing but that character, which does
/// not occur in front of the cut.
pub proof fn lemma_cut(s: Seq<char>, c: char)
    ensures
        match cut(s, c) {
            Some((before, after)) => s == before + seq![c] + after && !before.contains(c),
            None => !s.contains(c),
        },
{
    lemma_first_where_props(s, just(c));
    let i = first_where(s, just(c));
    if i < s.len() {
        assert(just(c)(s[i]));
        assert(s =~= s.take(i) + seq![c] + s.skip(i + 1));
        if s.take(i).contains(c) {
            let j = choose|j: int| 0 <= j < s.take(i).len() && s.take(i)[j] == c;
            assert(!just(c)(s[j]));
        }
    } else if s.contains(c) {
        let j = choose|j: int| 0 <= j < s.len() && s[j] == c;
        assert(!just(c)(s[j]));
    }
}

/// A text put together from two parts around a character that the first does
/// not hold is cut into just these.
pub proof fn lemma_cut_at(before: Seq<char>, c: char, after: Seq<char>)
    requires
        !before.contains(c),
    ensures
        cut(before + seq![c] + after, c) == Some((before, after)),
{
    let s = before + seq![c] + after;
    assert forall|j: int| 0 <= j < before.len() implies !just(c)(#[trigger] s[j]) by {
        assert(before.contains(before[j]));
    }
    assert(just(c)(s[before.len() as int]));
    lemma_first_where(s, just(c), before.len() as int);
    assert(s.take(before.len() as int) =~= before);
    assert(s.skip(before.len() as int + 1) =~= after);
}

/// Splitting peels off the pieces one by one: a piece without the separator,
/// then the pieces of the rest.
pub proof fn lemma_split_first(piece: Seq<char>, c: char, rest: Seq<char>)
    requires
        !piece.contains(c),
    ensures
        split(piece, c) == seq![piece],
        split(piece + seq![c] + rest, c) == seq![piece] + split(rest, c),
{
    let s = piece + seq![c] + rest;
    lemma_cut_at(piece, c, rest);
    lemma_first_where_props(s, just(c));
    let i = first_where(s, just(c));
    assert(cut(s, c) == Some((s.take(i), s.skip(i + 1))));
    assert forall|j: int| 0 <= j < piece.len() implies !just(c)(#[trigger] piece[j]) by {
        assert(piece.contains(piece[j]));
    }
    lemma_first_where(piece, just(c), piece.len() as int);
}

/// No piece holds the separator, and there is always a piece.
pub proof fn lemma_split_pieces(s: Seq<char>, c: char)
    ensures
        split(s, c).len() > 0,
        forall|i: int| 0 <= i < split(s, c).len() ==> !(#[trigger] split(s, c)[i]).contains(c),
    decreases s.len(),
{
    let i = first_where(s, just(c));
    lemma_first_where_props(s, just(c));
    lemma_cut(s, c);
    if i < s.len() {
        let rest = split(s.skip(i + 1), c);
        lemma_split_pieces(s.skip(i + 1), c);
        assert forall|k: int| 0 <= k < split(s, c).len() implies !(#[trigger] split(
            s,
            c,
        )[k]).contains(c) by {
            if k > 0 {
                assert(split(s, c)[k] == rest[k - 1]);
            }
        }
    }
}

/// What is trimmed from both ends is white space, and all of it that stands
/// there: what is left begins and ends with something else, or is empty.
pub proof fn lemma_trimmed(s: Seq<char>)
    ensures
        exists|i: int, j: int|
            #![trigger s.subrange(i, j)]
            0 <= i <= j <= s.len() && trimmed(s) == s.subrange(i, j) && (forall|k: int|
                0 <= k < i || j <= k < s.len() ==> white_space(#[trigger] s[k])),
        trimmed(s).len() > 0 ==> !white_space(trimmed(s)[0]) && !white_space(trimmed(s).last()),
{
    lemma_trim_start(s);
    let front = trim_start_where(s, blank());
    let i = s.len() - front.len();
    lemma_trim_end(front);
    let back = trim_end_where(front, blank());
    let j = i + back.len();
    assert(back =~= s.subrange(i, j));
    assert forall|k: int| 0 <= k < i || j <= k < s.len() implies white_space(#[trigger] s[k]) by {
        if k >= j {
            assert(front[k - i] == s[k]);
        }
    }
    if back.len() > 0 {
        assert(back[0] == front[0]);
    }
}

proof fn lemma_trim_start(s: Seq<char>)
    ensures
        ({
            let rest = trim_start_where(s, blank());
            let i = s.len() - rest.len();
            &&& 0 <= i <= s.len()
            &&& rest == s.skip(i)
            &&& forall|k: int| 0 <= k < i ==> white_space(#[trigger] s[k])
            &&& rest.len() > 0 ==> !white_space(rest[0])
        }),
    decreases s.len(),
{
    if s.len() > 0 && white_space(s[0]) {
        let tail = s.drop_first();
        lemma_trim_start(tail);
        let rest = trim_start_where(s, blank());
        let i = s.len() - rest.len();
        assert(rest =~= s.skip(i));
        assert forall|k: int| 0 <= k < i implies white_space(#[trigger] s[k]) by {
            if k > 0 {
                assert(tail[k - 1] == s[k]);
            }
        }
    } else {
        assert(s.skip(0) =~= s);
    }
}

proof fn lemma_trim_end(s: Seq<char>)
    ensures
        ({
            let rest = trim_end_where(s, blank());
            &&& rest.len() <= s.len()
            &&& rest == s.take(rest.len() as int)
            &&& forall|k: int| rest.len() <= k < s.len() ==> white_space(#[trigger] s[k])
            &&& rest.len() > 0 ==> !white_space(rest.last())
        }),
    decreases s.len(),
{
    if s.len() > 0 && white_space(s.last()) {
        let head = s.drop_last();
        lemma_trim_end(head);
        let rest = trim_end_where(s, blank());
        assert(rest =~= s.take(rest.len() as int));
        assert forall|k: int| rest.len() <= k < s.len() implies white_space(#[trigger] s[k]) by {
            if k < head.len() {
                assert(head[k] == s[k]);
            }
        }
    } else {
        assert(s.take(s.len() as int) =~= s);
    }
}

/// A text with white space at neither end is what is left of it between any
/// white space.
pub proof fn lemma_trimmed_between(before: Seq<char>, s: Seq<char>, after: Seq<char>)
    requires
        forall|i: int| 0 <= i < before.len() ==> white_space(#[trigger] before[i]),
        forall|i: int| 0 <= i < after.len() ==> white_space(#[trigger] after[i]),
        s.len() > 0 ==> !white_space(s[0]) && !white_space(s.last()),
    ensures
        trimmed(before + s + after) == s,
{
    let whole = before + s + after;
    lemma_trimmed(whole);
    let (i, j) = choose|i: int, j: int|
        #![trigger whole.subrange(i, j)]
        0 <= i <= j <= whole.len() && trimmed(whole) == whole.subrange(i, j) && (forall|k: int|
            0 <= k < i || j <= k < whole.len() ==> white_space(#[trigger] whole[k]));
    let n = before.len() as int;
    let m = n + s.len();
    if s.len() > 0 {
        assert(whole[n] == s[0]);
        assert(whole[m - 1] == s.last());
        assert(i <= n && m <= j);
        let left = trimmed(whole);
        assert(left[0] == whole[i]);
        assert(left.last() == whole[j - 1]);
        if i < n {
            assert(whole[i] == before[i]);
        }
        if j > m {
            assert(whole[j - 1] == after[j - 1 - m]);
        }
        assert(left =~= s);
    } else {
        if i < j {
            let c = trimmed(whole)[0];
            assert(c == whole[i]);
            if i < n {
                assert(whole[i] == before[i]);
            } else {
                assert(whole[i] == after[i - n]);
            }
        }
        assert(trimmed(whole) =~= s);
    }
}

/// White space is what Unicode calls so: the tab to the carriage return, the
/// space, the next line, the fixed spaces and the two separators.
pub proof fn lemma_white_space(c: char)
    ensures
        white_space(c) <==> (c as u32 == 9 || c as u32 == 10 || c as u32 == 11 || c as u32 == 12
            || c as u32 == 13 || c as u32 == 32 || c as u32 == 0x85 || c as u32 == 0xa0 || c as u32
            == 0x1680 || 0x2000 <= c as u32 <= 0x200a || c as u32 == 0x2028 || c as u32 == 0x2029
            || c as u32 == 0x202f || c as u32 == 0x205f || c as u32 == 0x3000),
{
}

/// Lower case keeps the length and changes just the capital ASCII letters, each
/// to its small one; so two texts that differ in the case of ASCII letters only
/// become the same.
pub proof fn lemma_lowered(s: Seq<char>, i: int)
    requires
        0 <= i < s.len(),
    ensures
        lowered(s).len() == s.len(),
        65 <= s[i] as u32 <= 90 ==> lowered(s)[i] as u32 == s[i] as u32 + 32,
        !(65 <= s[i] as u32 <= 90) ==> lowered(s)[i] == s[i],
        lowered(lowered(s)) == lowered(s),
{
    assert(lowered(lowered(s)) =~= lowered(s));
}

/// A line is what precedes its line feed, without a carriage return before
/// that; the lines of the rest follow.
pub proof fn lemma_lines_first(line: Seq<char>, rest: Seq<char>)
    requires
        !line.contains('\n'),
        line.len() > 0 ==> line.last() != '\r',
    ensures
        lines(line + seq!['\n'] + rest) == seq![line] + lines(rest),
        lines(line + seq!['\r', '\n'] + rest) == seq![line] + lines(rest),
        line.len() > 0 ==> lines(line) == seq![line],
        lines(Seq::empty()) == Seq::<Seq<char>>::empty(),
{
    let plain = line + seq!['\n'] + rest;
    let returned = line + seq!['\r', '\n'] + rest;
    assert forall|j: int| 0 <= j < line.len() implies #[trigger] line[j] != '\n' by {
        assert(line.contains(line[j]));
    }
    let n = line.len() as int;
    lemma_first_where(plain, just('\n'), n);
    assert(plain.take(n) =~= line);
    assert(plain.skip(n + 1) =~= rest);
    lemma_first_where(returned, just('\n'), n + 1);
    assert(returned.take(n + 1).drop_last() =~= line);
    assert(returned.skip(n + 2) =~= rest);
    lemma_first_where(line, just('\n'), n);
}

/// Words are the longest runs without white space, in order.
pub proof fn lemma_words_first(gap: Seq<char>, word: Seq<char>, rest: Seq<char>)
    requires
        forall|i: int| 0 <= i < gap.len() ==> white_space(#[trigger] gap[i]),
        forall|i: int| 0 <= i < word.len() ==> !white_space(#[trigger] word[i]),
        word.len() > 0,
        rest.len() > 0 ==> white_space(rest[0]),
    ensures
        words(gap + word + rest) == seq![word] + words(rest),
        words(gap) == Seq::<Seq<char>>::empty(),
{
    let s = gap + word + rest;
    let n = gap.len() as int;
    assert forall|j: int| 0 <= j < n implies !ink()(#[trigger] s[j]) by {
        assert(s[j] == gap[j]);
    }
    assert(s[n] == word[0]);
    lemma_first_where(s, ink(), n);
    let body = s.skip(n);
    assert(body =~= word + rest);
    assert forall|j: int| 0 <= j < word.len() implies !blank()(#[trigger] body[j]) by {
        assert(body[j] == word[j]);
    }
    lemma_first_where(body, blank(), word.len() as int);
    assert(body.take(word.len() as int) =~= word);
    assert(body.skip(word.len() as int) =~= rest);
    lemma_first_where(gap, ink(), n);
}

/// The last place of a character is one where it stands, with none after it;
/// where there is no such place, the character does not occur.
pub proof fn lemma_last_place(s: Seq<char>, c: char)
    ensures
        -1 <= last_char(s, c) < s.len(),
        last_char(s, c) >= 0 ==> s[last_char(s, c)] == c,
        forall|i: int| last_char(s, c) < i < s.len() ==> #[trigger] s[i] != c,
    decreases s.len(),
{
    if s.len() > 0 && s.last() != c {
        let head = s.drop_last();
        lemma_last_place(head, c);
        assert forall|i: int| last_char(s, c) < i < s.len() implies #[trigger] s[i] != c by {
            if i < head.len() {
                assert(head[i] == s[i]);
            }
        }
    }
}

/// The last place of a character in a text whose end does not hold it.
pub proof fn lemma_last_place_at(before: Seq<char>, c: char, after: Seq<char>)
    requires
        !after.contains(c),
    ensures
        last_char(before + seq![c] + after, c) == before.len(),
{
    let s = before + seq![c] + after;
    lemma_last_place(s, c);
    let i = last_char(s, c);
    assert(s[before.len() as int] == c);
    if i > before.len() {
        assert(s[i] == after[i - before.len() - 1]);
    }
}

/// Replacing a character leaves every other one as it is, in its order.
pub proof fn lemma_replaced_each(before: Seq<char>, x: char, c: char, with: Seq<char>)
    ensures
        replaced(Seq::empty(), c, with) == Seq::<char>::empty(),
        x == c ==> replaced(before.push(x), c, with) == replaced(before, c, with) + with,
        x != c ==> replaced(before.push(x), c, with) == replaced(before, c, with).push(x),
{
    assert(before.push(x).drop_last() =~= before);
    assert(replaced(before, c, with) + seq![x] =~= replaced(before, c, with).push(x));
}

/// Joining puts the separator between the parts and nowhere else.
pub proof fn lemma_joined_each(parts: Seq<Seq<char>>, part: Seq<char>, separator: Seq<char>)
    ensures
        joined(Seq::empty(), separator) == Seq::<char>::empty(),
        joined(seq![part], separator) == part,
        parts.len() > 0 ==> joined(parts.push(part), separator) == joined(parts, separator)
            + separator + part,
{
    assert(parts.push(part).drop_last() =~= parts);
}

/// A number is read from its digits exactly while it is within the bound: it
/// is refused above, whatever the bound.
pub proof fn lemma_number_bound(n: nat, max: nat)
    ensures
        parsed(decimal(n), max) == if n <= max {
            Some(n)
        } else {
            None
        },
{
    lemma_decimal_round_trip(n, n);
}

/// The value of digits: each further one makes ten times the value before plus
/// its own.
pub proof fn lemma_number_grows(digits: Seq<char>, d: nat, max: nat)
    requires
        d < 10,
        parsed(digits, max) is Some,
        parsed(digits, max)->0 * 10 + d <= max,
    ensures
        parsed(digits.push((48 + d) as char), max) == Some(parsed(digits, max)->0 * 10 + d),
{
    let more = digits.push((48 + d) as char);
    let bare = unsigned(digits);
    assert(unsigned(more) =~= bare.push((48 + d) as char));
    assert(bare.push((48 + d) as char).drop_last() =~= bare);
    assert forall|i: int| 0 <= i < unsigned(more).len() implies is_digit(
        #[trigger] unsigned(more)[i],
    ) by {
        if i < bare.len() {
            assert(unsigned(more)[i] == bare[i]);
        }
    }
}

/// A leading plus sign does not count, and nothing else but digits is a number.
pub proof fn lemma_number_shape(s: Seq<char>, max: nat)
    ensures
        parsed(Seq::empty(), max) is None,
        parsed(s, max) is Some ==> parsed(s, max)->0 <= max && s.len() > 0 && (forall|i: int|
            0 <= i < s.len() ==> '0' <= #[trigger] s[i] <= '9' || i == 0 && s[i] == '+'),
        s.len() > 0 && s[0] != '+' ==> parsed(seq!['+'] + s, max) == parsed(s, max),
        parsed(seq!['+'], max) is None,
{
    assert((seq!['+'] + s).skip(1) =~= s);
    assert(seq!['+'].skip(1).len() == 0);
    if parsed(s, max) is Some {
        assert forall|i: int| 0 <= i < s.len() implies '0' <= #[trigger] s[i] <= '9' || i == 0
            && s[i] == '+' by {
            if s[0] == '+' {
                if i > 0 {
                    assert(s.skip(1)[i - 1] == s[i]);
                    assert(is_digit(unsigned(s)[i - 1]));
                }
            } else {
                assert(is_digit(unsigned(s)[i]));
            }
        }
    }
}

/// A minus sign gives the negative number, within its own bound.
pub proof fn lemma_signed_number(n: nat, min: int, max: int)
    requires
        min <= 0 <= max,
    ensures
        parsed_signed(decimal(n), min, max) == if n <= max {
            Some(n as int)
        } else {
            None
        },
        parsed_signed(seq!['-'] + decimal(n), min, max) == if n <= -min {
            Some(-(n as int))
        } else {
            None
        },
{
    lemma_number_bound(n, max as nat);
    lemma_number_bound(n, (-min) as nat);
    lemma_decimal_round_trip(n, n);
    lemma_number_shape(decimal(n), n);
    lemma_decimal_plain(n);
    assert((seq!['-'] + decimal(n)).skip(1) =~= decimal(n));
}

/// The digits of a number: no sign, and no leading zero but that of zero.
pub proof fn lemma_decimal_plain(n: nat)
    ensures
        decimal(n).len() > 0,
        forall|i: int| 0 <= i < decimal(n).len() ==> '0' <= #[trigger] decimal(n)[i] <= '9',
        decimal(n)[0] == '0' ==> n == 0,
    decreases n,
{
    if n >= 10 {
        lemma_decimal_plain(n / 10);
        let head = decimal(n / 10);
        assert(decimal(n)[0] == head[0]);
        assert forall|i: int| 0 <= i < decimal(n).len() implies '0' <= #[trigger] decimal(n)[i]
            <= '9' by {
            if i < head.len() {
                assert(decimal(n)[i] == head[i]);
            }
        }
    }
}

/// A text is found where it first stands.
pub proof fn lemma_find_text(s: Seq<char>, pattern: Seq<char>, from: int)
    requires
        0 <= from,
    ensures
        match find_text(s, pattern, from) {
            Some(i) => from <= i && i + pattern.len() <= s.len() && s.subrange(
                i,
                i + pattern.len(),
            ) == pattern && (forall|j: int|
                from <= j < i ==> #[trigger] s.subrange(j, j + pattern.len()) != pattern),
            None => forall|j: int|
                from <= j && j + pattern.len() <= s.len() ==> #[trigger] s.subrange(
                    j,
                    j + pattern.len(),
                ) != pattern,
        },
    decreases s.len() - from,
{
    if from + pattern.len() <= s.len() && s.subrange(from, from + pattern.len()) != pattern && from
        < s.len() {
        lemma_find_text(s, pattern, from + 1);
    }
}

} // verus!
