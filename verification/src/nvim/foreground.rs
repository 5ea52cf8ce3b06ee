//! The foreground process of a pane, from a snapshot of the process table.

use vstd::prelude::*;
use vstd::string::*;

use crate::text::{
    blank, chars_of, first_where, is_blank, last_char, lemma_first_where, lines, lines_of,
    parse_number, parse_signed, parsed, parsed_signed, rfind_char, same, texts, trim_start,
    trim_start_where,
};

verus! {

/// One process of a snapshot.
#[derive(Debug, PartialEq, Eq)]
pub struct ProcessRow {
    pub pid: u32,
    pub parent: u32,
    pub group: i32,
    /// The foreground process group of the process's terminal.
    pub foreground: i32,
    /// The executable's name without its directory.
    pub executable: String,
    /// The command line.
    pub arguments: String,
}

/// What a [`ProcessRow`] says.
#[verifier::ext_equal]
pub struct ProcessFields {
    pub pid: u32,
    pub parent: u32,
    pub group: i32,
    pub foreground: i32,
    pub executable: Seq<char>,
    pub arguments: Seq<char>,
}

impl View for ProcessRow {
    type V = ProcessFields;

    open spec fn view(&self) -> ProcessFields {
        ProcessFields {
            pid: self.pid,
            parent: self.parent,
            group: self.group,
            foreground: self.foreground,
            executable: self.executable@,
            arguments: self.arguments@,
        }
    }
}

/// What rows say.
pub open spec fn process_fields(rows: Seq<ProcessRow>) -> Seq<ProcessFields> {
    Seq::new(rows.len(), |i: int| rows[i]@)
}

/// What follows the last slash.
pub open spec fn base_name(s: Seq<char>) -> Seq<char> {
    s.skip(last_char(s, '/') + 1)
}

/// What follows the last slash.
pub fn base_of<'a>(value: &'a str) -> (name: &'a str)
    ensures
        name@ == base_name(value@),
{
    let length: usize = value.unicode_len();
    let start: usize = match rfind_char(value, '/') {
        Some(i) => i + 1,
        None => 0,
    };
    let name = value.substring_char(start, length);
    assert(name@ =~= base_name(value@));
    name
}

/// The field that a text begins with, and what follows it after white space.
pub open spec fn next_field(s: Seq<char>) -> Option<(Seq<char>, Seq<char>)> {
    let end = first_where(s, blank());
    if end < s.len() {
        Some((s.take(end), trim_start_where(s.skip(end), blank())))
    } else {
        None
    }
}

/// The field that a text begins with, and what follows it after white space.
pub fn take_field<'a>(value: &'a str) -> (parts: Option<(&'a str, &'a str)>)
    ensures
        match parts {
            Some((field, rest)) => next_field(value@) == Some((field@, rest@)),
            None => next_field(value@) is None,
        },
{
    let chars = chars_of(value);
    let mut end: usize = 0;
    while end < chars.len() && !is_blank(chars[end])
        invariant
            end <= chars.len(),
            chars@ == value@,
            forall|j: int| 0 <= j < end ==> !blank()(#[trigger] chars@[j]),
        decreases chars.len() - end,
    {
        end = end + 1;
    }
    proof {
        lemma_first_where(value@, blank(), end as int);
    }
    if end == chars.len() {
        return None;
    }
    let field = value.substring_char(0, end);
    let tail = value.substring_char(end, chars.len());
    assert(field@ =~= value@.take(end as int));
    assert(tail@ =~= value@.skip(end as int));
    Some((field, trim_start(tail)))
}

/// The first `n` fields of a text, and what follows them.
pub open spec fn leading_fields(s: Seq<char>, n: nat) -> Option<(Seq<Seq<char>>, Seq<char>)>
    decreases n,
{
    if n == 0 {
        Some((Seq::empty(), s))
    } else {
        match leading_fields(s, (n - 1) as nat) {
            Some((fields, rest)) => match next_field(rest) {
                Some((field, rest)) => Some((fields.push(field), rest)),
                None => None,
            },
            None => None,
        }
    }
}

/// The process that a row describes: its numbers, its executable and its
/// command line.
pub open spec fn process_row(line: Seq<char>) -> Option<ProcessFields> {
    match leading_fields(trim_start_where(line, blank()), 5) {
        Some((fields, rest)) => if rest.len() > 0 && parsed(fields[0], u32::MAX as nat) is Some
            && parsed(fields[1], u32::MAX as nat) is Some && parsed_signed(
            fields[2],
            i32::MIN as int,
            i32::MAX as int,
        ) is Some && parsed_signed(fields[3], i32::MIN as int, i32::MAX as int) is Some {
            Some(
                ProcessFields {
                    pid: parsed(fields[0], u32::MAX as nat)->0 as u32,
                    parent: parsed(fields[1], u32::MAX as nat)->0 as u32,
                    group: parsed_signed(fields[2], i32::MIN as int, i32::MAX as int)->0 as i32,
                    foreground: parsed_signed(
                        fields[3],
                        i32::MIN as int,
                        i32::MAX as int,
                    )->0 as i32,
                    executable: base_name(fields[4]),
                    arguments: rest,
                },
            )
        } else {
            None
        },
        None => None,
    }
}

fn parse_u32(value: &str) -> (result: Option<u32>)
    ensures
        match result {
            Some(n) => parsed(value@, u32::MAX as nat) == Some(n as nat),
            None => parsed(value@, u32::MAX as nat) is None,
        },
{
    match parse_number(value, u32::MAX as u64) {
        Some(n) => Some(n as u32),
        None => None,
    }
}

fn parse_i32(value: &str) -> (result: Option<i32>)
    ensures
        match result {
            Some(n) => parsed_signed(value@, i32::MIN as int, i32::MAX as int) == Some(n as int),
            None => parsed_signed(value@, i32::MIN as int, i32::MAX as int) is None,
        },
{
    match parse_signed(value, i32::MIN as i64, i32::MAX as i64) {
        Some(n) => Some(n as i32),
        None => None,
    }
}

/// Parse one row of the process table.
pub fn parse_process_row(line: &str) -> (row: Option<ProcessRow>)
    ensures
        match row {
            Some(row) => process_row(line@) == Some(row@),
            None => process_row(line@) is None,
        },
{
    let start = trim_start(line);
    let ghost s = start@;
    proof {
        reveal_with_fuel(leading_fields, 6);
    }
    let (pid, rest) = match take_field(start) {
        Some(parts) => parts,
        None => {
            return None;
        },
    };
    let (parent, rest) = match take_field(rest) {
        Some(parts) => parts,
        None => {
            return None;
        },
    };
    let (group, rest) = match take_field(rest) {
        Some(parts) => parts,
        None => {
            return None;
        },
    };
    let (foreground, rest) = match take_field(rest) {
        Some(parts) => parts,
        None => {
            return None;
        },
    };
    let (executable, rest) = match take_field(rest) {
        Some(parts) => parts,
        None => {
            return None;
        },
    };
    assert(leading_fields(s, 5) == Some(
        (
            Seq::<Seq<char>>::empty().push(pid@).push(parent@).push(group@).push(
                foreground@,
            ).push(executable@),
            rest@,
        ),
    ));
    if rest.is_empty() {
        return None;
    }
    match (parse_u32(pid), parse_u32(parent), parse_i32(group), parse_i32(foreground)) {
        (Some(pid), Some(parent), Some(group), Some(foreground)) => Some(
            ProcessRow {
                pid,
                parent,
                group,
                foreground,
                executable: String::from_str(base_of(executable)),
                arguments: String::from_str(rest),
            },
        ),
        _ => None,
    }
}

/// The processes that rows describe, in order, without the malformed rows.
pub open spec fn process_rows(rows: Seq<Seq<char>>) -> Seq<ProcessFields>
    decreases rows.len(),
{
    if rows.len() == 0 {
        Seq::empty()
    } else {
        let before = process_rows(rows.drop_last());
        match process_row(rows.last()) {
            Some(row) => before.push(row),
            None => before,
        }
    }
}

/// Parse a snapshot of the process table.
pub fn parse_snapshot(snapshot: &str) -> (rows: Vec<ProcessRow>)
    ensures
        process_fields(rows@) == process_rows(lines(snapshot@)),
{
    let all_lines = lines_of(snapshot);
    let ghost all = lines(snapshot@);
    let mut rows: Vec<ProcessRow> = Vec::new();
    let mut i: usize = 0;
    assert(process_fields(rows@) =~= process_rows(all.take(0)));
    while i < all_lines.len()
        invariant
            i <= all_lines.len(),
            texts(all_lines@) == all,
            process_fields(rows@) == process_rows(all.take(i as int)),
        decreases all_lines.len() - i,
    {
        let ghost before = rows@;
        assert(all.take(i + 1).drop_last() =~= all.take(i as int));
        assert(all.take(i + 1).last() == texts(all_lines@)[i as int]);
        if let Some(row) = parse_process_row(all_lines[i]) {
            rows.push(row);
            assert(process_fields(rows@) =~= process_fields(before).push(row@));
        }
        i = i + 1;
    }
    assert(all.take(i as int) =~= all);
    rows
}

/// The parent of a process, as the first row for it from index `i` on says.
pub open spec fn parent_from(rows: Seq<ProcessFields>, pid: u32, i: int) -> Option<u32>
    decreases rows.len() - i,
{
    if i < 0 || i >= rows.len() {
        None
    } else if rows[i].pid == pid {
        Some(rows[i].parent)
    } else {
        parent_from(rows, pid, i + 1)
    }
}

/// The parent of a process.
pub open spec fn parent_in(rows: Seq<ProcessFields>, pid: u32) -> Option<u32> {
    parent_from(rows, pid, 0)
}

fn parent_of(rows: &Vec<ProcessRow>, pid: u32) -> (parent: Option<u32>)
    ensures
        parent == parent_in(process_fields(rows@), pid),
{
    let mut i: usize = 0;
    while i < rows.len()
        invariant
            i <= rows.len(),
            parent_in(process_fields(rows@), pid) == parent_from(
                process_fields(rows@),
                pid,
                i as int,
            ),
        decreases rows.len() - i,
    {
        assert(process_fields(rows@)[i as int] == rows@[i as int]@);
        if rows[i].pid == pid {
            return Some(rows[i].parent);
        }
        i = i + 1;
    }
    None
}

/// The steps from a process up to `root`, counted from `steps` on. There can
/// be no more of them than rows: a longer climb goes in a circle.
pub open spec fn climb(rows: Seq<ProcessFields>, pid: u32, root: u32, steps: nat) -> Option<nat>
    decreases rows.len() + 1 - steps,
{
    if steps > rows.len() {
        None
    } else if pid == root {
        Some(steps)
    } else {
        match parent_in(rows, pid) {
            Some(parent) => climb(rows, parent, root, steps + 1),
            None => None,
        }
    }
}

/// How deep below `root` a process is; nothing where it is not below it.
pub open spec fn depth_in(rows: Seq<ProcessFields>, pid: u32, root: u32) -> Option<nat> {
    climb(rows, pid, root, 0)
}

/// How deep below `root` a process is; nothing where it is not below it.
pub fn depth(pid: u32, root: u32, rows: &Vec<ProcessRow>) -> (depth: Option<usize>)
    ensures
        match depth {
            Some(n) => depth_in(process_fields(rows@), pid, root) == Some(n as nat),
            None => depth_in(process_fields(rows@), pid, root) is None,
        },
{
    let ghost all = process_fields(rows@);
    let mut current: u32 = pid;
    let mut steps: usize = 0;
    loop
        invariant
            steps <= rows.len(),
            all == process_fields(rows@),
            depth_in(all, pid, root) == climb(all, current, root, steps as nat),
        decreases rows.len() - steps,
    {
        if current == root {
            return Some(steps);
        }
        match parent_of(rows, current) {
            Some(parent) => {
                if steps == rows.len() {
                    assert(climb(all, parent, root, (steps + 1) as nat) is None);
                    return None;
                }
                current = parent;
                steps = steps + 1;
            },
            None => {
                return None;
            },
        }
    }
}

/// Whether a process of that name has the terminal below `root`.
pub open spec fn is_candidate(
    rows: Seq<ProcessFields>,
    root: u32,
    wanted: Seq<char>,
    i: int,
) -> bool {
    &&& rows[i].executable == wanted
    &&& rows[i].foreground > 0
    &&& rows[i].group == rows[i].foreground
    &&& depth_in(rows, rows[i].pid, root) is Some
}

/// Whether one process precedes another: it is less deep, or as deep with no
/// greater number.
pub open spec fn precedes(rows: Seq<ProcessFields>, root: u32, i: int, j: int) -> bool {
    let a = depth_in(rows, rows[i].pid, root)->0;
    let b = depth_in(rows, rows[j].pid, root)->0;
    a < b || a == b && rows[i].pid <= rows[j].pid
}

/// Whether row `i` is the deepest candidate, the one with the greatest number
/// among equally deep ones.
pub open spec fn is_foreground(
    rows: Seq<ProcessFields>,
    root: u32,
    wanted: Seq<char>,
    i: int,
) -> bool {
    &&& 0 <= i < rows.len()
    &&& is_candidate(rows, root, wanted, i)
    &&& forall|j: int|
        0 <= j < rows.len() && #[trigger] is_candidate(rows, root, wanted, j) ==> precedes(
            rows,
            root,
            j,
            i,
        ) && (j > i ==> !precedes(rows, root, i, j))
}

/// The command line of the foreground process of that name below `root`.
pub fn foreground_from_snapshot(snapshot: &str, root: u32, wanted: &str) -> (arguments: Option<
    String,
>)
    ensures
        ({
            let rows = process_rows(lines(snapshot@));
            match arguments {
                Some(arguments) => exists|i: int| #[trigger]
                    is_foreground(rows, root, wanted@, i) && rows[i].arguments == arguments@,
                None => forall|i: int|
                    0 <= i < rows.len() ==> !#[trigger] is_candidate(rows, root, wanted@, i),
            }
        }),
{
    let rows = parse_snapshot(snapshot);
    let ghost all = process_fields(rows@);
    let mut best: Option<(usize, usize)> = None;
    let mut i: usize = 0;
    while i < rows.len()
        invariant
            i <= rows.len(),
            all == process_fields(rows@),
            match best {
                Some((steps, b)) => {
                    &&& b < i
                    &&& is_candidate(all, root, wanted@, b as int)
                    &&& depth_in(all, all[b as int].pid, root) == Some(steps as nat)
                    &&& forall|j: int|
                        0 <= j < i && #[trigger] is_candidate(all, root, wanted@, j) ==> precedes(
                            all,
                            root,
                            j,
                            b as int,
                        ) && (j > b ==> !precedes(all, root, b as int, j))
                },
                None => forall|j: int|
                    0 <= j < i ==> !#[trigger] is_candidate(all, root, wanted@, j),
            },
        decreases rows.len() - i,
    {
        let row = &rows[i];
        assert(all[i as int] == row@);
        if row.foreground > 0 && row.group == row.foreground && same(
            row.executable.as_str(),
            wanted,
        ) {
            if let Some(steps) = depth(row.pid, root, &rows) {
                assert(is_candidate(all, root, wanted@, i as int));
                let better = match best {
                    Some((best_steps, b)) => best_steps < steps || best_steps == steps
                        && rows[b].pid <= row.pid,
                    None => true,
                };
                if better {
                    best = Some((steps, i));
                }
            }
        }
        i = i + 1;
    }
    match best {
        Some((_, b)) => {
            assert(is_foreground(all, root, wanted@, b as int));
            Some(rows[b].arguments.clone())
        },
        None => None,
    }
}

/// Whether no two rows are for the same process.
pub open spec fn distinct(rows: Seq<ProcessFields>) -> bool {
    forall|i: int, j: int|
        0 <= i < rows.len() && 0 <= j < rows.len() && i != j ==> #[trigger] rows[i].pid
            != #[trigger] rows[j].pid
}

proof fn lemma_parent_from(rows: Seq<ProcessFields>, pid: u32, from: int)
    requires
        0 <= from <= rows.len(),
    ensures
        match parent_from(rows, pid, from) {
            Some(parent) => exists|i: int|
                from <= i < rows.len() && (#[trigger] rows[i]).pid == pid && rows[i].parent
                    == parent,
            None => forall|i: int| from <= i < rows.len() ==> (#[trigger] rows[i]).pid != pid,
        },
    decreases rows.len() - from,
{
    if from < rows.len() && rows[from].pid != pid {
        lemma_parent_from(rows, pid, from + 1);
    }
}

proof fn lemma_reordered(a: Seq<ProcessFields>, b: Seq<ProcessFields>)
    requires
        a.to_multiset() == b.to_multiset(),
        distinct(a),
    ensures
        a.len() == b.len(),
        forall|row: ProcessFields| a.contains(row) == b.contains(row),
        distinct(b),
{
    broadcast use vstd::seq_lib::group_to_multiset_ensures;

    assert forall|row: ProcessFields| a.contains(row) == b.contains(row) by {
        assert(a.contains(row) <==> a.to_multiset().count(row) > 0);
        assert(b.contains(row) <==> b.to_multiset().count(row) > 0);
    }
    a.to_multiset_ensures();
    b.to_multiset_ensures();
    assert forall|i: int, j: int| 0 <= i < a.len() && 0 <= j < a.len() && i != j implies a[i]
        != a[j] by {
        assert(a[i].pid != a[j].pid);
    }
    a.lemma_multiset_has_no_duplicates();
    b.lemma_multiset_has_no_duplicates_conv();
    assert forall|i: int, j: int|
        0 <= i < b.len() && 0 <= j < b.len() && i != j implies #[trigger] b[i].pid
        != #[trigger] b[j].pid by {
        assert(b.contains(b[i]) && b.contains(b[j]));
        let m = choose|m: int| 0 <= m < a.len() && a[m] == b[i];
        let n = choose|n: int| 0 <= n < a.len() && a[n] == b[j];
        if b[i].pid == b[j].pid {
            assert(m == n);
            assert(b[i] == b[j]);
        }
    }
}

proof fn lemma_parent_reordered(a: Seq<ProcessFields>, b: Seq<ProcessFields>, pid: u32)
    requires
        a.to_multiset() == b.to_multiset(),
        distinct(a),
    ensures
        parent_in(a, pid) == parent_in(b, pid),
{
    lemma_reordered(a, b);
    lemma_parent_from(a, pid, 0);
    lemma_parent_from(b, pid, 0);
    if parent_in(a, pid) is Some {
        let i = choose|i: int|
            0 <= i < a.len() && (#[trigger] a[i]).pid == pid && Some(a[i].parent) == parent_in(
                a,
                pid,
            );
        assert(a.contains(a[i]));
        assert(b.contains(a[i]));
    }
    if parent_in(b, pid) is Some {
        let i = choose|i: int|
            0 <= i < b.len() && (#[trigger] b[i]).pid == pid && Some(b[i].parent) == parent_in(
                b,
                pid,
            );
        assert(b.contains(b[i]));
        assert(a.contains(b[i]));
    }
}

proof fn lemma_climb_reordered(
    a: Seq<ProcessFields>,
    b: Seq<ProcessFields>,
    pid: u32,
    root: u32,
    steps: nat,
)
    requires
        a.to_multiset() == b.to_multiset(),
        distinct(a),
    ensures
        climb(a, pid, root, steps) == climb(b, pid, root, steps),
    decreases a.len() + 1 - steps,
{
    lemma_reordered(a, b);
    if steps <= a.len() && pid != root {
        lemma_parent_reordered(a, b, pid);
        if let Some(parent) = parent_in(a, pid) {
            lemma_climb_reordered(a, b, parent, root, steps + 1);
        }
    }
}

proof fn lemma_candidate_reordered(
    a: Seq<ProcessFields>,
    b: Seq<ProcessFields>,
    root: u32,
    wanted: Seq<char>,
    i: int,
) -> (j: int)
    requires
        a.to_multiset() == b.to_multiset(),
        distinct(a),
        0 <= i < a.len(),
        is_candidate(a, root, wanted, i),
    ensures
        0 <= j < b.len(),
        b[j] == a[i],
        is_candidate(b, root, wanted, j),
        depth_in(b, b[j].pid, root) == depth_in(a, a[i].pid, root),
{
    lemma_reordered(a, b);
    assert(a.contains(a[i]));
    assert(b.contains(a[i]));
    let j = choose|j: int| 0 <= j < b.len() && b[j] == a[i];
    lemma_climb_reordered(a, b, a[i].pid, root, 0);
    j
}

/// The choice does not depend on the order in which the processes are listed:
/// the same processes in another order have the same foreground process, or
/// none as well.
pub proof fn lemma_foreground_order_independent(
    a: Seq<ProcessFields>,
    b: Seq<ProcessFields>,
    root: u32,
    wanted: Seq<char>,
)
    requires
        a.to_multiset() == b.to_multiset(),
        distinct(a),
    ensures
        forall|i: int, j: int|
            #![trigger is_foreground(a, root, wanted, i), is_foreground(b, root, wanted, j)]
            is_foreground(a, root, wanted, i) && is_foreground(b, root, wanted, j) ==> a[i]
                == b[j],
        (exists|i: int| 0 <= i < a.len() && #[trigger] is_candidate(a, root, wanted, i)) == (
        exists|j: int| 0 <= j < b.len() && #[trigger] is_candidate(b, root, wanted, j)),
{
    lemma_reordered(a, b);
    assert forall|i: int, j: int|
        #![trigger is_foreground(a, root, wanted, i), is_foreground(b, root, wanted, j)]
        is_foreground(a, root, wanted, i) && is_foreground(b, root, wanted, j) implies a[i]
        == b[j] by {
        let k = lemma_candidate_reordered(a, b, root, wanted, i);
        let m = lemma_candidate_reordered(b, a, root, wanted, j);
        assert(precedes(b, root, k, j));
        assert(precedes(a, root, m, i));
        assert(b[k].pid == b[j].pid);
        assert(k == j);
    }
    if exists|i: int| 0 <= i < a.len() && #[trigger] is_candidate(a, root, wanted, i) {
        let i = choose|i: int| 0 <= i < a.len() && #[trigger] is_candidate(a, root, wanted, i);
        let j = lemma_candidate_reordered(a, b, root, wanted, i);
    }
    if exists|j: int| 0 <= j < b.len() && #[trigger] is_candidate(b, root, wanted, j) {
        let j = choose|j: int| 0 <= j < b.len() && #[trigger] is_candidate(b, root, wanted, j);
        let i = lemma_candidate_reordered(b, a, root, wanted, j);
    }
}

/// The ancestor of a process that is `n` steps up.
pub open spec fn ancestor(rows: Seq<ProcessFields>, pid: u32, n: nat) -> Option<u32>
    decreases n,
{
    if n == 0 {
        Some(pid)
    } else {
        match parent_in(rows, pid) {
            Some(parent) => ancestor(rows, parent, (n - 1) as nat),
            None => None,
        }
    }
}

proof fn lemma_climb_exact(rows: Seq<ProcessFields>, pid: u32, root: u32, steps: nat)
    ensures
        match climb(rows, pid, root, steps) {
            Some(n) => steps <= n <= rows.len() && ancestor(rows, pid, (n - steps) as nat) == Some(
                root,
            ) && forall|k: nat| k < n - steps ==> #[trigger] ancestor(rows, pid, k) != Some(root),
            None => forall|k: nat|
                steps + k <= rows.len() ==> #[trigger] ancestor(rows, pid, k) != Some(root),
        },
    decreases rows.len() + 1 - steps,
{
    if steps <= rows.len() && pid != root {
        if let Some(parent) = parent_in(rows, pid) {
            lemma_climb_exact(rows, parent, root, steps + 1);
        }
        match climb(rows, pid, root, steps) {
            Some(n) => {
                assert forall|k: nat| k < n - steps implies #[trigger] ancestor(rows, pid, k)
                    != Some(root) by {
                    if k > 0 {
                        let parent = parent_in(rows, pid)->0;
                        assert(ancestor(rows, pid, k) == ancestor(rows, parent, (k - 1) as nat));
                    }
                }
            },
            None => {
                assert forall|k: nat| steps + k <= rows.len() implies #[trigger] ancestor(
                    rows,
                    pid,
                    k,
                ) != Some(root) by {
                    if k > 0 && parent_in(rows, pid) is Some {
                        let parent = parent_in(rows, pid)->0;
                        assert(ancestor(rows, pid, k) == ancestor(rows, parent, (k - 1) as nat));
                    }
                }
            },
        }
    }
}

proof fn lemma_ancestor_compose(rows: Seq<ProcessFields>, pid: u32, m: nat, n: nat)
    requires
        ancestor(rows, pid, m) is Some,
    ensures
        ancestor(rows, pid, m + n) == ancestor(rows, ancestor(rows, pid, m)->0, n),
    decreases m,
{
    if m > 0 {
        let parent = parent_in(rows, pid)->0;
        lemma_ancestor_compose(rows, parent, (m - 1) as nat, n);
        assert(ancestor(rows, pid, m + n) == ancestor(rows, parent, (m + n - 1) as nat));
    }
}

proof fn lemma_ancestor_prefix(rows: Seq<ProcessFields>, pid: u32, m: nat, n: nat)
    requires
        m <= n,
        ancestor(rows, pid, n) is Some,
    ensures
        ancestor(rows, pid, m) is Some,
    decreases m,
{
    if m > 0 {
        let parent = parent_in(rows, pid)->0;
        assert(ancestor(rows, pid, n) == ancestor(rows, parent, (n - 1) as nat));
        lemma_ancestor_prefix(rows, parent, (m - 1) as nat, (n - 1) as nat);
    }
}

/// The index of a row for the ancestor that is `k` steps up.
spec fn row_of(rows: Seq<ProcessFields>, pid: u32, k: nat) -> int {
    choose|i: int|
        0 <= i < rows.len() && Some((#[trigger] rows[i]).pid) == ancestor(rows, pid, k)
}

proof fn lemma_shortest_climb(rows: Seq<ProcessFields>, pid: u32, root: u32, n: nat)
    requires
        ancestor(rows, pid, n) == Some(root),
        forall|k: nat| k < n ==> #[trigger] ancestor(rows, pid, k) != Some(root),
    ensures
        n <= rows.len(),
{
    let indices = Seq::new(n, |k: int| row_of(rows, pid, k as nat));
    assert forall|k: nat| k < n implies 0 <= #[trigger] row_of(rows, pid, k) < rows.len() && Some(
        rows[row_of(rows, pid, k)].pid,
    ) == ancestor(rows, pid, k) by {
        lemma_ancestor_prefix(rows, pid, k, n);
        lemma_ancestor_prefix(rows, pid, k + 1, n);
        let current = ancestor(rows, pid, k)->0;
        lemma_ancestor_compose(rows, pid, k, 1);
        assert(ancestor(rows, current, 1) is Some);
        assert(parent_in(rows, current) is Some);
        lemma_parent_from(rows, current, 0);
    }
    assert(indices.no_duplicates()) by {
        assert forall|i: int, j: int| 0 <= i < j < n implies indices[i] != indices[j] by {
            assert(indices[i] == row_of(rows, pid, i as nat));
            assert(indices[j] == row_of(rows, pid, j as nat));
            if indices[i] == indices[j] {
                lemma_ancestor_prefix(rows, pid, i as nat, n);
                lemma_ancestor_prefix(rows, pid, j as nat, n);
                lemma_ancestor_compose(rows, pid, i as nat, (n - j) as nat);
                lemma_ancestor_compose(rows, pid, j as nat, (n - j) as nat);
                let shorter = (i + (n - j)) as nat;
                assert(ancestor(rows, pid, shorter) == Some(root));
            }
        }
    }
    let range = vstd::set_lib::set_int_range(0, rows.len() as int);
    vstd::set_lib::lemma_int_range(0, rows.len() as int);
    indices.unique_seq_to_set();
    assert forall|i: int| indices.to_set().contains(i) implies range.contains(i) by {
        let k = choose|k: int| 0 <= k < indices.len() && indices[k] == i;
        assert(indices[k] == row_of(rows, pid, k as nat));
    }
    vstd::set_lib::lemma_len_subset(indices.to_set(), range);
}

proof fn lemma_least(rows: Seq<ProcessFields>, pid: u32, root: u32, n: nat) -> (m: nat)
    requires
        ancestor(rows, pid, n) == Some(root),
    ensures
        m <= n,
        ancestor(rows, pid, m) == Some(root),
        forall|k: nat| k < m ==> #[trigger] ancestor(rows, pid, k) != Some(root),
    decreases n,
{
    if exists|k: nat| k < n && #[trigger] ancestor(rows, pid, k) == Some(root) {
        let k = choose|k: nat| k < n && #[trigger] ancestor(rows, pid, k) == Some(root);
        lemma_least(rows, pid, root, k)
    } else {
        n
    }
}

/// A process has a depth below `root` exactly where `root` is one of its
/// ancestors, however far up; the depth is the distance to the nearest one. A
/// snapshot whose parents go in a circle settles nothing and stops the climb.
pub proof fn lemma_depth_is_ancestry(rows: Seq<ProcessFields>, pid: u32, root: u32)
    ensures
        match depth_in(rows, pid, root) {
            Some(n) => ancestor(rows, pid, n) == Some(root) && forall|k: nat|
                k < n ==> #[trigger] ancestor(rows, pid, k) != Some(root),
            None => forall|k: nat| #[trigger] ancestor(rows, pid, k) != Some(root),
        },
{
    lemma_climb_exact(rows, pid, root, 0);
    if depth_in(rows, pid, root) is None {
        assert forall|k: nat| #[trigger] ancestor(rows, pid, k) != Some(root) by {
            if ancestor(rows, pid, k) == Some(root) {
                let m = lemma_least(rows, pid, root, k);
                lemma_shortest_climb(rows, pid, root, m);
            }
        }
    }
}

} // verus!
