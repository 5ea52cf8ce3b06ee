//! Click positions in a captured pane, where tmux reports rows as displayed
//! and once more with wrapped lines joined.

use vstd::prelude::*;
use vstd::string::*;

use crate::click::tokens::{from_line, line_target};
use crate::click::{Detectors, Finding, Verdict};
use crate::text::{same, starts_with, strings};

verus! {

/// The rows that a vertical coordinate may mean, the likeliest first: as it
/// is, counted from one, and either way below the top of the pane.
pub open spec fn row_candidates(y: Option<usize>, pane_top: Option<usize>) -> Seq<int> {
    match y {
        None => Seq::empty(),
        Some(y) => {
            let plain = if y > 0 {
                seq![y as int, y - 1]
            } else {
                seq![y as int]
            };
            match pane_top {
                Some(top) if y >= top => plain + if y > top {
                    seq![y - top, y - top - 1]
                } else {
                    seq![y - top]
                },
                _ => plain,
            }
        },
    }
}

/// The columns that a horizontal coordinate may mean, the likeliest first.
pub open spec fn column_candidates(x: usize, pane_left: Option<usize>) -> Seq<int> {
    match pane_left {
        Some(left) if x >= left => if x > left {
            seq![x as int, x - left, x - left - 1]
        } else {
            seq![x as int, x - left]
        },
        _ => seq![x as int],
    }
}

/// Whether a row exists and shows the line that the mouse event reported.
pub open spec fn row_shows(rows: Seq<Seq<char>>, line: Seq<char>, row: int) -> bool {
    0 <= row < rows.len() && (line.len() == 0 || rows[row] == line)
}

/// The first candidate that shows the line.
pub open spec fn first_showing(
    rows: Seq<Seq<char>>,
    line: Seq<char>,
    candidates: Seq<int>,
) -> Option<int>
    decreases candidates.len(),
{
    if candidates.len() == 0 {
        None
    } else if row_shows(rows, line, candidates[0]) {
        Some(candidates[0])
    } else {
        first_showing(rows, line, candidates.drop_first())
    }
}

/// Whether the row is the only one that shows the line.
pub open spec fn only_row(rows: Seq<Seq<char>>, line: Seq<char>, row: int) -> bool {
    &&& 0 <= row < rows.len()
    &&& rows[row] == line
    &&& forall|j: int| 0 <= j < rows.len() && #[trigger] rows[j] == line ==> j == row
}

/// Whether `row` is the clicked one: the first candidate that shows the
/// reported line, else the only row that shows it, else the first candidate
/// that exists. `None` where there is no such row.
pub open spec fn is_click_row(
    rows: Seq<Seq<char>>,
    y: Option<usize>,
    line: Seq<char>,
    pane_top: Option<usize>,
    row: Option<int>,
) -> bool {
    let candidates = row_candidates(y, pane_top);
    if first_showing(rows, line, candidates) is Some {
        row == first_showing(rows, line, candidates)
    } else if line.len() > 0 && exists|i: int| only_row(rows, line, i) {
        row is Some && only_row(rows, line, row->0)
    } else {
        row == first_showing(rows, Seq::empty(), candidates)
    }
}

/// The clicked row is unique.
pub proof fn lemma_click_row_unique(
    rows: Seq<Seq<char>>,
    y: Option<usize>,
    line: Seq<char>,
    pane_top: Option<usize>,
    a: Option<int>,
    b: Option<int>,
)
    requires
        is_click_row(rows, y, line, pane_top, a),
        is_click_row(rows, y, line, pane_top, b),
    ensures
        a == b,
{
    if !(first_showing(rows, line, row_candidates(y, pane_top)) is Some) && line.len() > 0
        && exists|i: int| only_row(rows, line, i) {
        assert(rows[a->0] == line);
        assert(rows[b->0] == line);
    }
}

/// A row that is clicked is a row of the pane.
pub proof fn lemma_click_row_in_pane(
    rows: Seq<Seq<char>>,
    y: Option<usize>,
    line: Seq<char>,
    pane_top: Option<usize>,
    row: int,
)
    requires
        is_click_row(rows, y, line, pane_top, Some(row)),
    ensures
        0 <= row < rows.len(),
{
    lemma_first_showing_in_pane(rows, line, row_candidates(y, pane_top));
    lemma_first_showing_in_pane(rows, Seq::empty(), row_candidates(y, pane_top));
}

proof fn lemma_first_showing_in_pane(rows: Seq<Seq<char>>, line: Seq<char>, candidates: Seq<int>)
    ensures
        first_showing(rows, line, candidates) matches Some(row) ==> 0 <= row < rows.len(),
    decreases candidates.len(),
{
    if candidates.len() > 0 && !row_shows(rows, line, candidates[0]) {
        lemma_first_showing_in_pane(rows, line, candidates.drop_first());
    }
}

/// The numbers that machine integers hold.
pub open spec fn numbers(values: Seq<usize>) -> Seq<int> {
    Seq::new(values.len(), |i: int| values[i] as int)
}

fn find_showing(rows: &[String], line: &str, candidates: &Vec<usize>) -> (row: Option<usize>)
    ensures
        match row {
            Some(row) => first_showing(strings(rows@), line@, numbers(candidates@)) == Some(
                row as int,
            ),
            None => first_showing(strings(rows@), line@, numbers(candidates@)) is None,
        },
{
    let ghost all = numbers(candidates@);
    let mut i: usize = 0;
    assert(all.skip(0) =~= all);
    while i < candidates.len()
        invariant
            i <= candidates.len(),
            all == numbers(candidates@),
            first_showing(strings(rows@), line@, all) == first_showing(
                strings(rows@),
                line@,
                all.skip(i as int),
            ),
        decreases candidates.len() - i,
    {
        let row = candidates[i];
        assert(all.skip(i as int)[0] == row);
        assert(all.skip(i as int).drop_first() =~= all.skip(i + 1));
        if row < rows.len() && (line.is_empty() || same(rows[row].as_str(), line)) {
            return Some(row);
        }
        i = i + 1;
    }
    assert(all.skip(i as int) =~= Seq::empty());
    None
}

/// The clicked row of a captured pane.
pub fn click_row(
    physical: &[String],
    y: Option<usize>,
    mouse_line: &str,
    pane_top: Option<usize>,
) -> (row: Option<usize>)
    ensures
        is_click_row(
            strings(physical@),
            y,
            mouse_line@,
            pane_top,
            match row {
                Some(row) => Some(row as int),
                None => None,
            },
        ),
{
    let ghost rows = strings(physical@);
    let mut candidates: Vec<usize> = Vec::new();
    if let Some(y) = y {
        candidates.push(y);
        if y > 0 {
            candidates.push(y - 1);
        }
        if let Some(top) = pane_top {
            if y >= top {
                candidates.push(y - top);
                if y > top {
                    candidates.push(y - top - 1);
                }
            }
        }
    }
    assert(numbers(candidates@) =~= row_candidates(y, pane_top));
    if let Some(row) = find_showing(physical, mouse_line, &candidates) {
        return Some(row);
    }
    if !mouse_line.is_empty() {
        let mut only: Option<usize> = None;
        let mut several = false;
        let mut i: usize = 0;
        while i < physical.len()
            invariant
                i <= physical.len(),
                rows == strings(physical@),
                match only {
                    Some(k) => k < i && rows[k as int] == mouse_line@ && (several
                        || forall|j: int| 0 <= j < i && #[trigger] rows[j] == mouse_line@ ==> j == k),
                    None => !several && forall|j: int|
                        0 <= j < i ==> #[trigger] rows[j] != mouse_line@,
                },
                several ==> exists|j: int, k: int|
                    0 <= j < k < i && #[trigger] rows[j] == mouse_line@ && #[trigger] rows[k]
                        == mouse_line@,
            decreases physical.len() - i,
        {
            assert(rows[i as int] == physical@[i as int]@);
            if same(physical[i].as_str(), mouse_line) {
                if only.is_some() {
                    several = true;
                } else {
                    only = Some(i);
                }
            }
            i = i + 1;
        }
        if let Some(row) = only {
            if !several {
                assert(only_row(rows, mouse_line@, row as int));
                return Some(row);
            }
        }
        assert(!exists|i: int| only_row(rows, mouse_line@, i));
    }
    proof {
        reveal_strlit("");
        assert(""@ =~= Seq::empty());
    }
    find_showing(physical, "", &candidates)
}

/// Whether `part` continues the logical line after `offset` characters.
pub open spec fn continues(logical: Seq<char>, offset: int, part: Seq<char>) -> bool {
    0 <= offset <= logical.len() && part.is_prefix_of(logical.skip(offset))
}

/// Where a clicked row stands.
pub enum Place {
    /// By itself.
    Alone,
    /// In the joined line with this index, after this many characters.
    Within { line: int, offset: int },
}

/// What following one joined line through the rows gives.
pub enum Step {
    /// The clicked row was found.
    Found(Place),
    /// The next joined line goes on at this row.
    Next(int),
}

/// Follow the joined line `line` through the rows from `row` on, where
/// `offset` characters of it are consumed already and `begun` tells whether
/// any row belonged to it.
pub open spec fn follow_line(
    rows: Seq<Seq<char>>,
    joined: Seq<Seq<char>>,
    line: int,
    row: int,
    offset: int,
    begun: bool,
    clicked: int,
) -> Step
    decreases rows.len() - row,
{
    if !(0 <= row < rows.len()) {
        Step::Next(row)
    } else if !continues(joined[line], offset, rows[row]) {
        if begun {
            Step::Next(row)
        } else if row == clicked {
            Step::Found(Place::Alone)
        } else {
            Step::Next(row + 1)
        }
    } else if row == clicked {
        Step::Found(Place::Within { line, offset })
    } else if offset + rows[row].len() >= joined[line].len() {
        Step::Next(row + 1)
    } else {
        follow_line(rows, joined, line, row + 1, offset + rows[row].len(), true, clicked)
    }
}

/// Where the clicked row stands among the joined lines from `line` on, the
/// rows before `row` being accounted for.
pub open spec fn locate(
    rows: Seq<Seq<char>>,
    joined: Seq<Seq<char>>,
    line: int,
    row: int,
    clicked: int,
) -> Option<Place>
    decreases joined.len() - line,
{
    if !(0 <= line < joined.len()) {
        None
    } else {
        match follow_line(rows, joined, line, row, 0, false, clicked) {
            Step::Found(place) => Some(place),
            Step::Next(next) => locate(rows, joined, line + 1, next, clicked),
        }
    }
}

/// What a line denotes at a position; beyond the machine's counts, nothing.
pub open spec fn shifted_target(detectors: Detectors, line: Seq<char>, x: int) -> Verdict {
    if x <= usize::MAX {
        line_target(detectors, line, x)
    } else {
        Verdict::Settled(None)
    }
}

/// What the clicked row denotes at a column: in its joined line if that gives
/// a target, else by itself.
pub open spec fn joined_target(
    detectors: Detectors,
    rows: Seq<Seq<char>>,
    joined: Seq<Seq<char>>,
    clicked: int,
    x: int,
) -> Verdict {
    match locate(rows, joined, 0, 0, clicked) {
        None => Verdict::Settled(None),
        Some(Place::Alone) => line_target(detectors, rows[clicked], x),
        Some(Place::Within { line, offset }) => match shifted_target(
            detectors,
            joined[line],
            x + offset,
        ) {
            Verdict::Settled(None) => line_target(detectors, rows[clicked], x),
            decided => decided,
        },
    }
}

fn continues_at(logical: &str, offset: usize, part: &str) -> (result: bool)
    ensures
        result == continues(logical@, offset as int, part@),
{
    let total: usize = logical.unicode_len();
    if offset > total {
        return false;
    }
    let rest = logical.substring_char(offset, total);
    assert(rest@ =~= logical@.skip(offset as int));
    starts_with(rest, part)
}

/// The text of the rows from `from` up to `to`, joined.
pub open spec fn row_text(rows: Seq<Seq<char>>, from: int, to: int) -> Seq<char>
    decreases to - from,
{
    if from >= to {
        Seq::empty()
    } else {
        row_text(rows, from, to - 1) + rows[to - 1]
    }
}

/// Whether the joined lines are the rows, wrapped: the line at index `l` is
/// the text of the rows from `starts[l]` up to `starts[l + 1]`, and a line of
/// several rows has no empty one.
pub open spec fn wraps(rows: Seq<Seq<char>>, joined: Seq<Seq<char>>, starts: Seq<int>) -> bool {
    &&& starts.len() == joined.len() + 1
    &&& starts[0] == 0
    &&& starts.last() == rows.len()
    &&& forall|l: int|
        0 <= l < joined.len() ==> 0 <= #[trigger] starts[l] < starts[l + 1] <= rows.len()
            && joined[l] == row_text(rows, starts[l], starts[l + 1])
    &&& forall|l: int, r: int|
        #![trigger starts[l], rows[r]]
        0 <= l < joined.len() && starts[l] <= r < starts[l + 1] && starts[l + 1] - starts[l] > 1
            ==> rows[r].len() > 0
}

proof fn lemma_row_text(rows: Seq<Seq<char>>, from: int, middle: int, to: int)
    requires
        from <= middle <= to,
    ensures
        row_text(rows, from, to) == row_text(rows, from, middle) + row_text(rows, middle, to),
    decreases to - middle,
{
    if middle < to {
        lemma_row_text(rows, from, middle, to - 1);
        assert(row_text(rows, from, to) =~= row_text(rows, from, middle) + row_text(
            rows,
            middle,
            to,
        ));
    } else {
        assert(row_text(rows, from, middle) + row_text(rows, middle, to) =~= row_text(
            rows,
            from,
            middle,
        ));
    }
}

proof fn lemma_row_text_grows(rows: Seq<Seq<char>>, from: int, to: int)
    requires
        0 <= from < to <= rows.len(),
        forall|r: int| from <= r < to ==> (#[trigger] rows[r]).len() > 0,
    ensures
        row_text(rows, from, to).len() > 0,
{
    assert(rows[to - 1].len() > 0);
}

/// Following a line through its rows finds the clicked one among them, after
/// the text of those before it, or else ends behind the last.
proof fn lemma_follow_wrapped(
    rows: Seq<Seq<char>>,
    joined: Seq<Seq<char>>,
    starts: Seq<int>,
    line: int,
    row: int,
    clicked: int,
)
    requires
        wraps(rows, joined, starts),
        0 <= line < joined.len(),
        starts[line] <= row < starts[line + 1],
        clicked < starts[line] || clicked >= row,
    ensures
        ({
            let from = starts[line];
            follow_line(
                rows,
                joined,
                line,
                row,
                row_text(rows, from, row).len() as int,
                row > from,
                clicked,
            ) == if row <= clicked < starts[line + 1] {
                Step::Found(
                    Place::Within { line, offset: row_text(rows, from, clicked).len() as int },
                )
            } else {
                Step::Next(starts[line + 1])
            }
        }),
    decreases starts[line + 1] - row,
{
    let from = starts[line];
    let to = starts[line + 1];
    let whole = joined[line];
    let before = row_text(rows, from, row);
    lemma_row_text(rows, from, row, to);
    lemma_row_text(rows, row, row + 1, to);
    let after = row_text(rows, row + 1, to);
    assert(row_text(rows, row, row + 1) =~= rows[row]) by {
        assert(row_text(rows, row, row) =~= Seq::empty());
    }
    assert(whole.skip(before.len() as int) =~= rows[row] + after);
    assert(rows[row].is_prefix_of(whole.skip(before.len() as int)));
    assert(continues(whole, before.len() as int, rows[row]));
    assert(row_text(rows, from, row + 1) == before + rows[row]);
    if row != clicked {
        if row + 1 < to {
            assert forall|r: int| row + 1 <= r < to implies (#[trigger] rows[r]).len() > 0 by {
                assert(starts[line] <= r < starts[line + 1]);
            }
            lemma_row_text_grows(rows, row + 1, to);
            lemma_follow_wrapped(rows, joined, starts, line, row + 1, clicked);
        } else {
            assert(after =~= Seq::empty());
        }
    }
}

proof fn lemma_locate_wrapped(
    rows: Seq<Seq<char>>,
    joined: Seq<Seq<char>>,
    starts: Seq<int>,
    from: int,
    line: int,
    clicked: int,
)
    requires
        wraps(rows, joined, starts),
        0 <= from <= line < joined.len(),
        starts[line] <= clicked < starts[line + 1],
    ensures
        locate(rows, joined, from, starts[from], clicked) == Some(
            Place::Within { line, offset: row_text(rows, starts[line], clicked).len() as int },
        ),
    decreases line - from,
{
    if from < line {
        lemma_starts_grow(rows, joined, starts, from + 1, line);
    }
    assert(row_text(rows, starts[from], starts[from]) =~= Seq::empty());
    lemma_follow_wrapped(rows, joined, starts, from, starts[from], clicked);
    if from < line {
        lemma_locate_wrapped(rows, joined, starts, from + 1, line, clicked);
    }
}

proof fn lemma_starts_grow(
    rows: Seq<Seq<char>>,
    joined: Seq<Seq<char>>,
    starts: Seq<int>,
    l: int,
    m: int,
)
    requires
        wraps(rows, joined, starts),
        0 <= l <= m <= joined.len(),
    ensures
        starts[l] <= starts[m],
    decreases m - l,
{
    if l < m {
        lemma_starts_grow(rows, joined, starts, l, m - 1);
        assert(starts[m - 1] < starts[m]);
    }
}

/// A click on any row of a wrapped line is a click into the whole line, right
/// behind the characters of the rows before it, whatever characters they are.
pub proof fn lemma_wrapped_row_is_located(
    rows: Seq<Seq<char>>,
    joined: Seq<Seq<char>>,
    starts: Seq<int>,
    line: int,
    clicked: int,
)
    requires
        wraps(rows, joined, starts),
        0 <= line < joined.len(),
        starts[line] <= clicked < starts[line + 1],
    ensures
        locate(rows, joined, 0, 0, clicked) == Some(
            Place::Within { line, offset: row_text(rows, starts[line], clicked).len() as int },
        ),
        joined[line].skip(row_text(rows, starts[line], clicked).len() as int).take(
            rows[clicked].len() as int,
        ) == rows[clicked],
{
    lemma_locate_wrapped(rows, joined, starts, 0, line, clicked);
    let before = row_text(rows, starts[line], clicked);
    lemma_row_text(rows, starts[line], clicked, starts[line + 1]);
    lemma_row_text(rows, clicked, clicked + 1, starts[line + 1]);
    assert(row_text(rows, clicked, clicked) =~= Seq::empty());
    assert(row_text(rows, clicked, clicked + 1) =~= rows[clicked]);
    assert(joined[line].skip(before.len() as int).take(rows[clicked].len() as int)
        =~= rows[clicked]);
}

/// What the clicked row denotes at a column.
pub fn from_joined_capture(
    detectors: &Detectors,
    physical: &[String],
    joined: &[String],
    clicked_row: usize,
    click_x: usize,
) -> (finding: Finding)
    ensures
        finding@ == joined_target(
            *detectors,
            strings(physical@),
            strings(joined@),
            clicked_row as int,
            click_x as int,
        ),
{
    let ghost rows = strings(physical@);
    let ghost lines = strings(joined@);
    let mut row: usize = 0;
    let mut line: usize = 0;
    while line < joined.len()
        invariant
            line <= joined.len(),
            row <= physical.len(),
            rows == strings(physical@),
            lines == strings(joined@),
            locate(rows, lines, 0, 0, clicked_row as int) == locate(
                rows,
                lines,
                line as int,
                row as int,
                clicked_row as int,
            ),
        decreases joined.len() - line,
    {
        let logical = joined[line].as_str();
        let total: usize = logical.unicode_len();
        let mut offset: usize = 0;
        let mut begun = false;
        let mut ended = false;
        let ghost first = row as int;
        while row < physical.len() && !ended
            invariant
                line < joined.len(),
                row <= physical.len(),
                rows == strings(physical@),
                lines == strings(joined@),
                logical@ == lines[line as int],
                total == logical@.len(),
                offset <= total,
                locate(rows, lines, 0, 0, clicked_row as int) == locate(
                    rows,
                    lines,
                    line as int,
                    first,
                    clicked_row as int,
                ),
                ended ==> follow_line(
                    rows,
                    lines,
                    line as int,
                    first,
                    0,
                    false,
                    clicked_row as int,
                ) == Step::Next(row as int),
                !ended ==> follow_line(
                    rows,
                    lines,
                    line as int,
                    first,
                    0,
                    false,
                    clicked_row as int,
                ) == follow_line(
                    rows,
                    lines,
                    line as int,
                    row as int,
                    offset as int,
                    begun,
                    clicked_row as int,
                ),
            decreases physical.len() - row, if ended {
                0int
            } else {
                1int
            },
        {
            let part = physical[row].as_str();
            assert(part@ == rows[row as int]);
            if !continues_at(logical, offset, part) {
                if !begun {
                    if row == clicked_row {
                        return from_line(detectors, part, click_x);
                    }
                    row = row + 1;
                }
                ended = true;
            } else if row == clicked_row {
                let shifted = match click_x.checked_add(offset) {
                    Some(x) => from_line(detectors, logical, x),
                    None => Finding::Settled(None),
                };
                return match shifted {
                    Finding::Settled(None) => from_line(detectors, part, click_x),
                    decided => decided,
                };
            } else {
                let length: usize = part.unicode_len();
                begun = true;
                row = row + 1;
                if length >= total - offset {
                    ended = true;
                } else {
                    offset = offset + length;
                }
            }
        }
        line = line + 1;
    }
    Finding::Settled(None)
}

} // verus!
