//! Where on the screen a click lies, what a hyperlink names, and what is done
//! with a click.

use vstd::prelude::*;
use vstd::string::*;
use vstd::utf8::*;

use crate::bytes::{lemma_next_byte, next_byte};
use crate::click::capture::{
    column_candidates, first_showing, is_click_row, row_candidates, row_shows,
};
use crate::click::dispatch::{
    capture_arguments, captured_rows, extension_directory, follow, parse_detection, Dispatch,
};
use crate::click::hyperlink::{host_file, link_target, published_host, unescaped, without_prefix};
use crate::click::tokens::{
    bare, chars_within, covering, embedded_target, is_path, is_url, line_target, ranges_from,
    spaced_reference, stretch, token_end, token_target, widest_path, word_char,
};
use crate::click::{
    destination, detected, resolve, Destination, Detection, Detectors, Finding, Input, Knowledge,
    Query, Target, Verdict,
};
use crate::laws::text::{lemma_cut_at, lemma_trimmed_between};
use crate::navigation::system::TmuxOutput;
use crate::paths::{absolute, below};
use crate::text::{
    blank, cut, first_where, just, lemma_first_where_props, lines, lowered, opt_str, opt_text,
    strings, unicode_alphanumeric, utf8_lossy, white_space,
};

verus! {

/// A quoted token ends with the next quote of its kind, or with the line; any
/// other ends before the next white space, or with the line.
pub proof fn lemma_token_ends(s: Seq<char>, start: int)
    requires
        0 <= start < s.len(),
        !white_space(s[start]),
    ensures
        ({
            let end = token_end(s, start);
            let quoted = s[start] == '\'' || s[start] == '"' || s[start] == '`';
            &&& start < end <= s.len()
            &&& quoted && end < s.len() ==> end > start + 1 && s[end - 1] == s[start]
            &&& quoted ==> forall|i: int| start < i < end - 1 ==> #[trigger] s[i] != s[start]
            &&& !quoted ==> forall|i: int| start <= i < end ==> !white_space(#[trigger] s[i])
            &&& !quoted && end < s.len() ==> white_space(s[end])
        }),
{
    let end = token_end(s, start);
    if s[start] == '\'' || s[start] == '"' || s[start] == '`' {
        let rest = s.skip(start + 1);
        lemma_first_where_props(rest, just(s[start]));
        let n = first_where(rest, just(s[start]));
        assert forall|i: int| start < i < end - 1 implies #[trigger] s[i] != s[start] by {
            assert(rest[i - start - 1] == s[i]);
            assert(!just(s[start])(rest[i - start - 1]));
        }
        if n < rest.len() {
            assert(just(s[start])(rest[n]));
        }
    } else {
        let rest = s.skip(start);
        lemma_first_where_props(rest, blank());
        let n = first_where(rest, blank());
        assert(rest[0] == s[start]);
        assert forall|i: int| start <= i < end implies !white_space(#[trigger] s[i]) by {
            assert(rest[i - start] == s[i]);
            assert(!blank()(rest[i - start]));
        }
        if n < rest.len() {
            assert(blank()(rest[n]));
        }
    }
}

/// The token under a position is the one that holds it; between tokens there
/// is none.
pub proof fn lemma_token_under_position(ranges: Seq<(int, int)>, x: int, i: int)
    requires
        0 <= i <= ranges.len(),
    ensures
        covering(ranges, x, i) matches Some(k) ==> i <= k < ranges.len() && ranges[k].0 <= x
            < ranges[k].1,
        covering(ranges, x, i) is None ==> forall|k: int|
            i <= k < ranges.len() ==> !((#[trigger] ranges[k]).0 <= x < ranges[k].1),
    decreases ranges.len() - i,
{
    if i < ranges.len() && !(ranges[i].0 <= x < ranges[i].1) {
        lemma_token_under_position(ranges, x, i + 1);
    }
}

/// Whether a stretch of tokens is a path.
pub open spec fn spells_path(s: Seq<char>, ranges: Seq<(int, int)>, first: int, last: int) -> bool {
    is_path(bare(s.subrange(ranges[first].0, ranges[last].1)))
}

/// Of the stretches around the clicked token that are paths the one with the
/// earliest start counts, and of those the one with the latest end. There is
/// none just where no stretch is a path.
pub proof fn lemma_widest_path(
    s: Seq<char>,
    ranges: Seq<(int, int)>,
    clicked: int,
    first: int,
    last: int,
)
    requires
        0 <= first <= clicked + 1 <= ranges.len(),
        clicked - 1 <= last < ranges.len(),
        0 <= clicked,
    ensures
        match widest_path(s, ranges, clicked, first, last) {
            Some(text) => exists|f: int, l: int|
                #[trigger] spells_path(s, ranges, f, l) && first <= f <= clicked <= l
                    < ranges.len() && (f == first ==> l <= last) && text == s.subrange(
                    ranges[f].0,
                    ranges[l].1,
                ) && (forall|g: int, m: int|
                    first <= g <= clicked <= m < ranges.len() && (g == first ==> m <= last) && (g
                        < f || g == f && m > l) ==> !#[trigger] spells_path(s, ranges, g, m)),
            None => forall|g: int, m: int|
                first <= g <= clicked <= m < ranges.len() && (g == first ==> m <= last) ==> !
                #[trigger] spells_path(s, ranges, g, m),
        },
    decreases clicked + 1 - first, last + 1,
{
    if first > clicked {
    } else if last < clicked {
        lemma_widest_path(s, ranges, clicked, first + 1, ranges.len() - 1);
    } else if spells_path(s, ranges, first, last) {
        assert(spells_path(s, ranges, first, last));
        assert(stretch(s, ranges, first, last) == s.subrange(ranges[first].0, ranges[last].1));
    } else {
        lemma_widest_path(s, ranges, clicked, first, last - 1);
    }
}

/// Byte offsets are turned into positions: the offset of a position, counted
/// in the bytes of the characters before it, is that position.
pub proof fn lemma_byte_offsets(s: Seq<char>, n: int)
    requires
        0 <= n <= s.len(),
    ensures
        chars_within(s, encode_utf8(s.take(n)).len() as int) == n,
    decreases n,
{
    if n == 0 {
        assert(s.take(0) =~= Seq::empty());
        assert(encode_utf8(s.take(0)).len() == 0);
        if s.len() > 0 {
            char_is_scalar(s[0]);
            assert(encode_scalar(s[0] as u32).len() > 0);
        }
    } else {
        let head = s.take(n);
        assert(head.drop_first() =~= s.drop_first().take(n - 1));
        assert(head[0] == s[0]);
        assert(encode_utf8(head) == encode_scalar(head[0] as u32) + encode_utf8(
            head.drop_first(),
        ));
        lemma_byte_offsets(s.drop_first(), n - 1);
    }
}

/// The position in the line and the length of a match that is to be a
/// reference by itself.
pub open spec fn by_itself(line: Seq<char>, start: int, length: int, x: int) -> bool {
    &&& start <= x < start + length
    &&& start > 0 ==> !unicode_alphanumeric(line[start - 1]) && line[start - 1] != '_'
    &&& start + length < line.len() ==> !unicode_alphanumeric(line[start + length]) && line[start
        + length] != '_'
}

/// A spaced reference is taken where it lies under the pointer and touches no
/// other word; else the next one counts. It leads to the text of its number.
pub proof fn lemma_spaced_reference(
    line: Seq<char>,
    x: int,
    offset: int,
    whole: Seq<char>,
    number: Seq<char>,
    first: Option<(int, Seq<char>)>,
    rest: Seq<Seq<Option<(int, Seq<char>)>>>,
)
    ensures
        spaced_reference(
            line,
            x,
            seq![seq![first, Some((offset, whole)), Some((0, number))]] + rest,
        ) == if by_itself(line, chars_within(line, offset), whole.len() as int, x) {
            Some("https://www.rfc-editor.org/rfc/rfc"@ + number)
        } else {
            spaced_reference(line, x, rest)
        },
        spaced_reference(line, x, Seq::empty()) is None,
{
    let all = seq![seq![first, Some((offset, whole)), Some((0, number))]] + rest;
    assert(all.drop_first() =~= rest);
    assert(all[0][1] == Some((offset, whole)));
    assert(all[0][2] == Some((0int, number)));
    let start = chars_within(line, offset);
    if start > 0 {
        assert(word_char(line[start - 1]) <==> unicode_alphanumeric(line[start - 1]) || line[start
            - 1] == '_');
    }
}

/// A line denotes a spaced reference first; then what the token under the
/// pointer denotes as a whole; then what the part of it under the pointer does.
pub proof fn lemma_line_precedence(detectors: Detectors, line: Seq<char>, x: int, i: int)
    requires
        covering(ranges_from(line, 0), x, 0) == Some(i),
        0 <= i < ranges_from(line, 0).len(),
    ensures
        ({
            let spaced = spaced_reference(
                line,
                x,
                crate::patterns::regex_all_groups(r"(?i)(RFC[[:space:]-]+([0-9]{3,5}))"@, line),
            );
            let range = ranges_from(line, 0)[i];
            let token = line.subrange(range.0, range.1);
            let whole = token_target(detectors, token);
            let verdict = line_target(detectors, line, x);
            &&& spaced is Some ==> verdict == Verdict::Settled(Some(Destination::Url(spaced->0)))
            &&& spaced is None && whole != Verdict::Settled(None) ==> verdict == whole
            &&& spaced is None && whole == Verdict::Settled(None) ==> verdict == embedded_target(
                detectors,
                token,
                x - range.0,
            )
        }),
{
}

/// Within a token the widest path around the pointer counts, else the token of
/// its own that is under the pointer, else nothing.
pub proof fn lemma_embedded_precedence(detectors: Detectors, token: Seq<char>, x: int)
    ensures
        ({
            let ranges = ranges_from(token, 0);
            let verdict = embedded_target(detectors, token, x);
            match covering(ranges, x, 0) {
                Some(i) => match widest_path(token, ranges, i, 0, ranges.len() - 1) {
                    Some(path) => verdict == token_target(detectors, path),
                    None => verdict == token_target(
                        detectors,
                        token.subrange(ranges[i].0, ranges[i].1),
                    ),
                },
                None => verdict == Verdict::Settled(None),
            }
        }),
{
}

/// What a detector said of a token holds of that token as it was found, and
/// the first answer counts; without one the question is put, and without
/// detectors nothing is.
pub proof fn lemma_detectors_answer(
    known: Seq<Detection>,
    entry: Detection,
    token: Seq<char>,
    original: Seq<char>,
)
    ensures
        detected(Detectors::Absent, token, original) == Verdict::Settled(None),
        crate::click::detection(Seq::empty(), token, original) is None,
        crate::click::detection(seq![entry] + known, token, original) == if entry.token@ == token
            && entry.original@ == original {
            Some(destination(entry.target))
        } else {
            crate::click::detection(known, token, original)
        },
{
    assert((seq![entry] + known).drop_first() =~= known);
}

/// An unanswered token is asked about, under both its spellings.
pub proof fn lemma_unknown_token_is_asked(
    known: Vec<Detection>,
    token: Seq<char>,
    original: Seq<char>,
)
    ensures
        match crate::click::detection(known@, token, original) {
            Some(target) => detected(Detectors::Asked(known), token, original) == Verdict::Settled(
                target,
            ),
            None => detected(Detectors::Asked(known), token, original) == Verdict::Open(
                Query::Detector { token, original },
            ),
        },
{
}

/// A vertical coordinate means the row of that number or the one before, and
/// the same below the top of the pane; a horizontal one likewise, except that
/// it is not counted from one at the left of the window.
pub proof fn lemma_coordinates(y: usize, x: usize, origin: usize)
    ensures
        row_candidates(None, Some(origin)) == Seq::<int>::empty(),
        row_candidates(Some(y), None) == if y > 0 {
            seq![y as int, y - 1]
        } else {
            seq![0int]
        },
        y > origin ==> row_candidates(Some(y), Some(origin)) == seq![
            y as int,
            y - 1,
            y - origin,
            y - origin - 1,
        ],
        y == origin && y > 0 ==> row_candidates(Some(y), Some(origin)) == seq![
            y as int,
            y - 1,
            0int,
        ],
        y == origin && y == 0 ==> row_candidates(Some(y), Some(origin)) == seq![0int, 0int],
        y < origin ==> row_candidates(Some(y), Some(origin)) == row_candidates(Some(y), None),
        column_candidates(x, None) == seq![x as int],
        x > origin ==> column_candidates(x, Some(origin)) == seq![
            x as int,
            x - origin,
            x - origin - 1,
        ],
        x == origin ==> column_candidates(x, Some(origin)) == seq![x as int, 0int],
        x < origin ==> column_candidates(x, Some(origin)) == seq![x as int],
{
    assert(seq![y as int, y - 1] + seq![y - origin, y - origin - 1] =~= seq![
        y as int,
        y - 1,
        y - origin,
        y - origin - 1,
    ]);
    assert(seq![y as int, y - 1] + seq![y - origin] =~= seq![y as int, y - 1, y - origin]);
    assert(seq![y as int] + seq![y - origin] =~= seq![y as int, y - origin]);
}

proof fn lemma_first_showing(
    rows: Seq<Seq<char>>,
    line: Seq<char>,
    before: Seq<int>,
    row: int,
    after: Seq<int>,
)
    requires
        forall|i: int| 0 <= i < before.len() ==> !row_shows(rows, line, #[trigger] before[i]),
        row_shows(rows, line, row),
    ensures
        first_showing(rows, line, before + seq![row] + after) == Some(row),
    decreases before.len(),
{
    let all = before + seq![row] + after;
    if before.len() == 0 {
        assert(all[0] == row);
    } else {
        assert(all[0] == before[0]);
        assert(all.drop_first() =~= before.drop_first() + seq![row] + after);
        lemma_first_showing(rows, line, before.drop_first(), row, after);
    }
}

proof fn lemma_none_showing(rows: Seq<Seq<char>>, line: Seq<char>, candidates: Seq<int>)
    requires
        forall|i: int|
            0 <= i < candidates.len() ==> !row_shows(rows, line, #[trigger] candidates[i]),
    ensures
        first_showing(rows, line, candidates) is None,
    decreases candidates.len(),
{
    if candidates.len() > 0 {
        assert(!row_shows(rows, line, candidates[0]));
        lemma_none_showing(rows, line, candidates.drop_first());
    }
}

/// The clicked row is the first that the coordinate may mean and that shows the
/// reported line. Where no such row shows it, a row that alone shows it counts,
/// wherever it is; and else the first that the coordinate may mean and that
/// exists.
pub proof fn lemma_clicked_row(
    rows: Seq<Seq<char>>,
    y: Option<usize>,
    line: Seq<char>,
    top: Option<usize>,
    k: int,
    row: Option<int>,
)
    requires
        is_click_row(rows, y, line, top, row),
    ensures
        0 <= k < row_candidates(y, top).len() && 0 <= row_candidates(y, top)[k] < rows.len() && (
        line.len() == 0 || rows[row_candidates(y, top)[k]] == line) && (forall|j: int|
            0 <= j < k ==> !row_shows(rows, line, #[trigger] row_candidates(y, top)[j])) ==> row
            == Some(row_candidates(y, top)[k]),
        line.len() > 0 && 0 <= k < rows.len() && rows[k] == line && (forall|j: int|
            0 <= j < rows.len() && j != k ==> #[trigger] rows[j] != line) ==> row == Some(k),
        line.len() > 0 && !rows.contains(line) ==> row == first_showing(
            rows,
            Seq::empty(),
            row_candidates(y, top),
        ),
{
    let candidates = row_candidates(y, top);
    if 0 <= k < candidates.len() && row_shows(rows, line, candidates[k]) && (forall|j: int|
        0 <= j < k ==> !row_shows(rows, line, #[trigger] candidates[j])) {
        let before = candidates.take(k);
        assert forall|i: int| 0 <= i < before.len() implies !row_shows(
            rows,
            line,
            #[trigger] before[i],
        ) by {
            assert(before[i] == candidates[i]);
        }
        lemma_first_showing(rows, line, before, candidates[k], candidates.skip(k + 1));
        assert(before + seq![candidates[k]] + candidates.skip(k + 1) =~= candidates);
    }
    if line.len() > 0 && 0 <= k < rows.len() && rows[k] == line && (forall|j: int|
        0 <= j < rows.len() && j != k ==> #[trigger] rows[j] != line) {
        assert(crate::click::capture::only_row(rows, line, k));
        lemma_showing_shows(rows, line, candidates);
    }
    if line.len() > 0 && !rows.contains(line) {
        lemma_showing_shows(rows, line, candidates);
        assert forall|i: int| !crate::click::capture::only_row(rows, line, i) by {}
    }
}

proof fn lemma_showing_shows(rows: Seq<Seq<char>>, line: Seq<char>, candidates: Seq<int>)
    ensures
        first_showing(rows, line, candidates) matches Some(row) ==> row_shows(rows, line, row),
    decreases candidates.len(),
{
    if candidates.len() > 0 && !row_shows(rows, line, candidates[0]) {
        lemma_showing_shows(rows, line, candidates.drop_first());
    }
}

/// A percent sign and two hexadecimal digits stand for one byte, the first
/// digit for the higher half; digits above nine may have either case. Any other
/// byte stands for itself.
pub proof fn lemma_percent_escapes(high: u8, low: u8, rest: Seq<u8>, upper: bool, other: u8)
    requires
        high < 16 && low < 16,
    ensures
        unescaped(seq![37u8, hex_digit(high, upper), hex_digit(low, upper)] + rest) == seq![
            (high * 16 + low) as u8,
        ] + unescaped(rest),
        other != 37 ==> unescaped(seq![other] + rest) == seq![other] + unescaped(rest),
        unescaped(Seq::empty()) == Seq::<u8>::empty(),
        rest.len() < 2 ==> unescaped(seq![37u8] + rest) == seq![37u8] + unescaped(rest),
        rest.len() > 0 && !is_hex(rest[0]) ==> unescaped(seq![37u8] + rest) == seq![37u8]
            + unescaped(rest),
        rest.len() > 1 && !is_hex(rest[1]) ==> unescaped(seq![37u8] + rest) == seq![37u8]
            + unescaped(rest),
{
    let whole = seq![37u8, hex_digit(high, upper), hex_digit(low, upper)] + rest;
    assert(whole[0] == 37 && whole[1] == hex_digit(high, upper) && whole[2] == hex_digit(
        low,
        upper,
    ));
    assert(whole.skip(3) =~= rest);
    let plain = seq![other] + rest;
    assert(plain[0] == other);
    assert(plain.skip(1) =~= rest);
    let sign = seq![37u8] + rest;
    assert(sign[0] == 37);
    assert(sign.skip(1) =~= rest);
    if rest.len() > 0 {
        assert(sign[1] == rest[0]);
    }
    if rest.len() > 1 {
        assert(sign[2] == rest[1]);
    }
}

/// The hexadecimal digit of a value, in either case.
pub open spec fn hex_digit(value: u8, upper: bool) -> u8 {
    if value < 10 {
        (value + 48) as u8
    } else if upper {
        (value + 55) as u8
    } else {
        (value + 87) as u8
    }
}

/// Whether a byte is a hexadecimal digit.
pub open spec fn is_hex(byte: u8) -> bool {
    48 <= byte <= 57 || 65 <= byte <= 70 || 97 <= byte <= 102
}

proof fn lemma_schemes(rest: Seq<char>)
    ensures
        ("nvim-open://"@ + rest).skip("nvim-open://"@.len() as int) == rest,
        ("lazygit-edit://"@ + rest).skip("lazygit-edit://"@.len() as int) == rest,
        ("nvim-remote://"@ + rest).skip("nvim-remote://"@.len() as int) == rest,
        ("file://"@ + rest).skip("file://"@.len() as int) == rest,
        "nvim-open://"@.is_prefix_of("nvim-open://"@ + rest),
        "lazygit-edit://"@.is_prefix_of("lazygit-edit://"@ + rest),
        "nvim-remote://"@.is_prefix_of("nvim-remote://"@ + rest),
        "file://"@.is_prefix_of("file://"@ + rest),
        !"nvim-open://"@.is_prefix_of("lazygit-edit://"@ + rest),
        !"nvim-open://"@.is_prefix_of("nvim-remote://"@ + rest),
        !"lazygit-edit://"@.is_prefix_of("nvim-remote://"@ + rest),
        !"nvim-open://"@.is_prefix_of("file://"@ + rest),
        !"lazygit-edit://"@.is_prefix_of("file://"@ + rest),
        !"nvim-remote://"@.is_prefix_of("file://"@ + rest),
{
    reveal_strlit("nvim-open://");
    reveal_strlit("lazygit-edit://");
    reveal_strlit("nvim-remote://");
    reveal_strlit("file://");
    let a = "nvim-open://"@;
    let b = "lazygit-edit://"@;
    let c = "nvim-remote://"@;
    let d = "file://"@;
    assert(a.len() == 12 && b.len() == 15 && c.len() == 14 && d.len() == 7);
    assert(a[0] == 'n' && a[5] == 'o' && b[0] == 'l' && c[0] == 'n' && c[5] == 'r' && d[0] == 'f');
    assert((a + rest).skip(a.len() as int) =~= rest);
    assert((b + rest).skip(b.len() as int) =~= rest);
    assert((c + rest).skip(c.len() as int) =~= rest);
    assert((d + rest).skip(d.len() as int) =~= rest);
    assert(a =~= (a + rest).subrange(0, a.len() as int));
    assert(b =~= (b + rest).subrange(0, b.len() as int));
    assert(c =~= (c + rest).subrange(0, c.len() as int));
    assert(d =~= (d + rest).subrange(0, d.len() as int));
    assert((b + rest)[0] == 'l');
    assert((c + rest)[0] == 'n' && (c + rest)[5] == 'r');
    assert((d + rest)[0] == 'f');
}

proof fn lemma_editor_links_are_no_urls(rest: Seq<char>)
    ensures
        !is_url("nvim-open://"@ + rest),
        !is_url("lazygit-edit://"@ + rest),
        !is_url("nvim-remote://"@ + rest),
        !is_url("file://"@ + rest),
{
    reveal_strlit("nvim-open://");
    reveal_strlit("lazygit-edit://");
    reveal_strlit("nvim-remote://");
    reveal_strlit("file://");
    reveal_strlit("nvim-open");
    reveal_strlit("lazygit-edit");
    reveal_strlit("nvim-remote");
    reveal_strlit("file");
    lemma_scheme("nvim-open"@, "//"@ + rest);
    lemma_scheme("lazygit-edit"@, "//"@ + rest);
    lemma_scheme("nvim-remote"@, "//"@ + rest);
    lemma_scheme("file"@, "//"@ + rest);
    reveal_strlit("//");
    assert("nvim-open://"@ + rest =~= "nvim-open"@ + seq![':'] + ("//"@ + rest));
    assert("lazygit-edit://"@ + rest =~= "lazygit-edit"@ + seq![':'] + ("//"@ + rest));
    assert("nvim-remote://"@ + rest =~= "nvim-remote"@ + seq![':'] + ("//"@ + rest));
    assert("file://"@ + rest =~= "file"@ + seq![':'] + ("//"@ + rest));
}

proof fn lemma_scheme(scheme: Seq<char>, rest: Seq<char>)
    requires
        forall|i: int|
            0 <= i < scheme.len() ==> 'a' <= #[trigger] scheme[i] <= 'z' || scheme[i] == '-',
        scheme == "nvim-open"@ || scheme == "lazygit-edit"@ || scheme == "nvim-remote"@ || scheme
            == "file"@,
    ensures
        !is_url(scheme + seq![':'] + rest),
{
    if scheme.contains(':') {
        let i = choose|i: int| 0 <= i < scheme.len() && scheme[i] == ':';
        assert('a' <= scheme[i] <= 'z' || scheme[i] == '-');
    }
    lemma_cut_at(scheme, ':', rest);
    assert(lowered(scheme) =~= scheme);
}

/// An editor link names a file by its percent-encoded path, of this host
/// without an authority, else of the host that the authority names. A link
/// through `nvim-open` may carry a URL instead.
pub proof fn lemma_editor_links(names: Option<Seq<Seq<char>>>, host: Seq<char>, path: Seq<char>)
    requires
        !host.contains('/'),
    ensures
        ({
            let text = crate::click::hyperlink::decoded(path);
            let here = |file: Seq<char>|
                Verdict::Settled(
                    Some(
                        Destination::File {
                            target: file,
                            source: "terminal"@,
                            context: Seq::empty(),
                        },
                    ),
                );
            let rooted = crate::click::hyperlink::decoded("/"@ + path);
            &&& link_target(names, "nvim-open://"@ + path) == if is_url(text) {
                Verdict::Settled(Some(Destination::Url(text)))
            } else {
                here(text)
            }
            &&& link_target(names, "lazygit-edit://"@ + path) == here(text)
            &&& link_target(names, "file:///"@ + path) == here(rooted)
            &&& link_target(names, "nvim-remote://"@ + (host + seq!['/'] + path)) == host_file(
                names,
                host,
                rooted,
            )
            &&& host.len() > 0 ==> link_target(names, "file://"@ + (host + seq!['/'] + path))
                == host_file(names, host, rooted)
            &&& host.len() > 0 ==> link_target(names, "file://"@ + host) == Verdict::Settled(None)
            &&& link_target(names, "nvim-remote://"@ + host) == Verdict::Settled(None)
        }),
{
    reveal_strlit("/");
    reveal_strlit("file:///");
    reveal_strlit("file://");
    let full = host + seq!['/'] + path;
    lemma_schemes(path);
    lemma_schemes(full);
    lemma_schemes(host);
    lemma_schemes("/"@ + path);
    lemma_editor_links_are_no_urls(path);
    lemma_editor_links_are_no_urls(full);
    lemma_editor_links_are_no_urls(host);
    lemma_editor_links_are_no_urls("/"@ + path);
    assert("file:///"@ + path =~= "file://"@ + ("/"@ + path));
    assert("/"@ =~= ("/"@ + path).subrange(0, 1));
    lemma_cut_at(host, '/', path);
    crate::laws::text::lemma_cut(host, '/');
    match cut(host, '/') {
        Some((before, after)) => {
            assert(host[before.len() as int] == '/');
        },
        None => {},
    }
    if host.len() > 0 {
        assert(full[0] == host[0]);
        assert(host.contains(host[0]));
        assert("/"@[0] == '/');
    }
}

/// A host is this one where it is nameless, a loopback name or address, or one
/// of the names of this host, in any case. Any other host is remote, and named.
/// The names are asked for only where they decide.
pub proof fn lemma_file_hosts(names: Option<Seq<Seq<char>>>, host: Seq<char>, target: Seq<char>)
    ensures
        ({
            let here = Destination::File { target, source: "terminal"@, context: Seq::empty() };
            let there = Destination::File { target, source: "remote"@, context: host };
            let everywhere = host.len() == 0 || lowered(host) == "localhost"@ || lowered(host)
                == "127.0.0.1"@ || lowered(host) == "::1"@;
            let verdict = host_file(names, host, target);
            &&& everywhere ==> verdict == Verdict::Settled(Some(here))
            &&& !everywhere && names is None ==> verdict == Verdict::Open(Query::LocalNames)
            &&& !everywhere && names is Some && (exists|i: int|
                0 <= i < names->0.len() && lowered(#[trigger] names->0[i]) == lowered(host))
                ==> verdict == Verdict::Settled(Some(here))
            &&& !everywhere && names is Some && (forall|i: int|
                0 <= i < names->0.len() ==> lowered(#[trigger] names->0[i]) != lowered(host))
                ==> verdict == Verdict::Settled(Some(there))
        }),
{
    assert(lowered(host).len() == host.len());
}

/// A web link is opened as it is.
pub proof fn lemma_web_links(names: Option<Seq<Seq<char>>>, uri: Seq<char>)
    ensures
        is_url(uri) ==> link_target(names, uri) == Verdict::Settled(Some(Destination::Url(uri))),
        !is_url(uri) && (uri.len() == 0 || uri[0] != 'n' && uri[0] != 'l' && uri[0] != 'f')
            ==> link_target(names, uri) == Verdict::Settled(None),
{
    reveal_strlit("nvim-open://");
    reveal_strlit("lazygit-edit://");
    reveal_strlit("nvim-remote://");
    reveal_strlit("file://");
    assert("nvim-open://"@[0] == 'n' && "lazygit-edit://"@[0] == 'l' && "nvim-remote://"@[0] == 'n'
        && "file://"@[0] == 'f');
}

/// The published name of this host is what stands behind the variable's name,
/// as tmux prints it.
pub proof fn lemma_published_host(output: Option<TmuxOutput>, host: Seq<char>, name: Option<String>)
    requires
        call_ensures(published_host, (&output,), name),
        host.len() > 0 && host[0] != 'T' && !white_space(host.last()),
    ensures
        output is None || !output->0.success ==> name is None,
        output is Some && output->0.success && utf8_lossy(output->0.stdout@)
            == "TERMNAV_REMOTE_LINK_HOST="@ + host + seq!['\n'] ==> opt_text(name) == Some(host),
{
    reveal_strlit("TERMNAV_REMOTE_LINK_HOST=");
    let prefix = "TERMNAV_REMOTE_LINK_HOST="@;
    assert(prefix.len() == 25 && prefix[0] == 'T');
    let text = prefix + host;
    lemma_trimmed_between(Seq::empty(), text, seq!['\n']);
    assert(Seq::<char>::empty() + text + seq!['\n'] =~= prefix + host + seq!['\n']);
    assert(prefix =~= text.subrange(0, 25));
    assert(text.skip(25) =~= host);
    assert(!prefix.is_prefix_of(host)) by {
        if prefix.is_prefix_of(host) {
            assert(prefix[0] == host[0]);
        }
    }
    reveal_with_fuel(without_prefix, 3);
}

/// A click is settled by the hyperlink where that denotes anything, then by the
/// pane, then by the visible text; a question is put as soon as it decides.
pub proof fn lemma_click_precedence(input: Input, known: Knowledge, finding: Finding)
    requires
        call_ensures(resolve, (&input, &known), finding),
    ensures
        ({
            let link = link_target(
                crate::click::hyperlink::known_names(known.local_names),
                input.hyperlink@,
            );
            let linked = input.hyperlink@.len() > 0 && link != Verdict::Settled(None);
            let pane = crate::click::capture_target(input, known);
            let captured = input.pane@.len() > 0 && pane != Verdict::Settled(None);
            let word = if input.word@.len() > 0 {
                token_target(known.detectors, input.word@)
            } else {
                Verdict::Settled(None)
            };
            let line = match input.x {
                Some(x) => line_target(known.detectors, input.line@, x as int),
                None => Verdict::Settled(None),
            };
            let quoted = input.line@.contains('"') || input.line@.contains('\'')
                || input.line@.contains('`');
            &&& linked ==> finding@ == link
            &&& !linked && captured ==> finding@ == pane
            &&& !linked && !captured && quoted ==> finding@ == if line != Verdict::Settled(None) {
                line
            } else {
                word
            }
            &&& !linked && !captured && !quoted ==> finding@ == if word != Verdict::Settled(
                None,
            ) {
                word
            } else {
                line
            }
        }),
{
    let line = input.line@;
    if crate::click::quotes(line) {
        let i = choose|i: int|
            0 <= i < line.len() && crate::click::tokens::is_quote(#[trigger] line[i]);
        assert(line.contains(line[i]));
    } else {
        assert forall|i: int| 0 <= i < line.len() implies !crate::click::tokens::is_quote(
            #[trigger] line[i],
        ) by {}
    }
}

/// A URL goes to the terminal under the name of the variable that opens one, a
/// file to the editor with the directory and the source, and with the host
/// where there is one; nothing is done without a target.
pub proof fn lemma_clicks_are_dispatched(input: Input, target: Option<Target>, done: Dispatch)
    requires
        call_ensures(follow, (&input, target), done),
    ensures
        target is None <==> done is Nothing,
        target matches Some(Target::Url(url)) ==> done is Terminal && done->Terminal_0@
            == encode_utf8(
            crate::terminal::framed(
                "TERMNAV_OPEN_URL"@,
                url@,
                crate::terminal::TmuxMode::Raw,
            ),
        ),
        target matches Some(Target::File { target, source, context }) ==> done is Editor
            && strings(done->Editor_0@).take(3) == seq![target@, input.cwd@, source@] && (
        context@.len() == 0 ==> done->Editor_0@.len() == 3) && (context@.len() > 0
            ==> done->Editor_0@.len() == 4 && done->Editor_0@[3]@ == context@),
{
    match target {
        Some(Target::File { target, source, context }) => {
            let all = strings(done->Editor_0@);
            assert(all.take(3) =~= seq![target@, input.cwd@, source@]);
            assert(all.len() == done->Editor_0@.len());
            if context@.len() > 0 {
                assert(all[3] == context@);
                assert(all[3] == done->Editor_0@[3]@);
            }
        },
        _ => {},
    }
}

/// A capture shows the whole screen of the pane, from its first row to its
/// last, joined or not.
pub proof fn lemma_capture_arguments(pane: &str, joined: bool, arguments: Vec<String>)
    requires
        call_ensures(capture_arguments, (pane, joined), arguments),
        pane@ != "-J"@,
    ensures
        ({
            let all = strings(arguments@);
            let n = all.len();
            &&& all[0] == "capture-pane"@
            &&& all.contains("-J"@) <==> joined
            &&& n > 7 && all.subrange(n - 6, n as int) == seq![
                "-S"@,
                "0"@,
                "-E"@,
                "-"@,
                "-t"@,
                pane@,
            ]
            &&& all.contains("-p"@)
        }),
{
    reveal_strlit("-J");
    reveal_strlit("capture-pane");
    reveal_strlit("-p");
    reveal_strlit("-S");
    reveal_strlit("0");
    reveal_strlit("-E");
    reveal_strlit("-");
    reveal_strlit("-t");
    assert("-J"@[1] == 'J' && "-p"@[1] == 'p' && "-S"@[1] == 'S' && "-E"@[1] == 'E' && "-t"@[1]
        == 't');
    assert("-J"@.len() == 2 && "0"@.len() == 1 && "-"@.len() == 1 && "capture-pane"@.len() == 12);
    let all = strings(arguments@);
    let n = all.len();
    assert(all[1] == "-p"@);
    assert(all.subrange(n - 6, n as int) =~= seq!["-S"@, "0"@, "-E"@, "-"@, "-t"@, pane@]);
    if joined {
        assert(all[2] == "-J"@);
    }
}

/// The rows of a pane are the lines that a successful capture printed.
pub proof fn lemma_captured_rows(output: Option<TmuxOutput>, rows: Option<Vec<String>>)
    requires
        call_ensures(captured_rows, (&output,), rows),
    ensures
        rows is Some <==> output is Some && output->0.success,
        rows is Some ==> strings(rows->0@) == lines(utf8_lossy(output->0.stdout@)),
{
}

/// A detector prints the kind of its target and the target, each behind a zero
/// byte or the end: what a successful one prints in that form is what it is
/// taken to mean.
pub proof fn lemma_detections_are_read_back(
    kind: Seq<char>,
    value: Seq<char>,
    rest: Seq<u8>,
    output: TmuxOutput,
    target: Option<Target>,
)
    requires
        call_ensures(parse_detection, (&Some(output),), target),
        !encode_utf8(kind).contains(0u8),
        !encode_utf8(value).contains(0u8),
        output.stdout@ == encode_utf8(kind) + seq![0u8] + encode_utf8(value) || output.stdout@
            == encode_utf8(kind) + seq![0u8] + encode_utf8(value) + seq![0u8] + rest,
    ensures
        destination(target) == if output.success && kind == "url"@ {
            Some(Destination::Url(value))
        } else if output.success && kind == "file"@ {
            Some(
                Destination::File { target: value, source: "terminal"@, context: Seq::empty() },
            )
        } else {
            None
        },
{
    let bytes = output.stdout@;
    let n = encode_utf8(kind).len() as int;
    let m = n + 1 + encode_utf8(value).len();
    lemma_next_byte(bytes, 0, 0);
    let i = next_byte(bytes, 0, 0);
    assert(bytes[n] == 0);
    if i < n {
        assert(encode_utf8(kind)[i] == bytes[i]);
    }
    assert(i == n);
    lemma_next_byte(bytes, 0, n + 1);
    let k = next_byte(bytes, 0, n + 1);
    if k < m {
        assert(encode_utf8(value)[k - n - 1] == bytes[k]);
    }
    if m < bytes.len() {
        assert(bytes[m] == 0);
    }
    assert(k == m);
    assert(bytes.subrange(0, n) =~= encode_utf8(kind));
    assert(bytes.subrange(n + 1, m) =~= encode_utf8(value));
    encode_utf8_valid_utf8(kind);
    encode_utf8_valid_utf8(value);
    encode_utf8_decode_utf8(kind);
    encode_utf8_decode_utf8(value);
    reveal_strlit("url");
    reveal_strlit("file");
    assert("url"@.len() == 3 && "file"@.len() == 4);
}

/// Detectors are looked for where they were said to be, else below an absolute
/// configuration directory, else below that of the home.
pub proof fn lemma_detector_directory(
    explicit: Option<&str>,
    config: Option<&str>,
    home: Option<&str>,
    directory: Option<String>,
)
    requires
        call_ensures(extension_directory, (explicit, config, home), directory),
    ensures
        explicit is Some ==> opt_text(directory) == Some(explicit->0@),
        explicit is None && config is Some && absolute(config->0@) ==> opt_text(directory) == Some(
            below(config->0@, "termnav/tmux-follow/extensions.d"@),
        ),
        explicit is None && (config is None || !absolute(config->0@)) ==> opt_text(directory) == (
        match opt_str(home) {
            Some(home) => Some(
                below(below(home, ".config"@), "termnav/tmux-follow/extensions.d"@),
            ),
            None => None,
        }),
{
}

} // verus!
