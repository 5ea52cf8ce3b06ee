//! File system paths as text.
//!
//! A path is its characters; what it denotes is whether it is absolute and the
//! parts between its slashes. Repeated slashes and `.` parts do not count,
//! except a `.` that begins a relative path.

use vstd::prelude::*;
use vstd::string::*;

use crate::text::{
    chars_of, find_char, first_where, just, lemma_first_where, lemma_first_where_props, same, split,
    split_char, starts_with, strings, texts,
};

verus! {

/// Whether a path begins at the root.
pub open spec fn absolute(path: Seq<char>) -> bool {
    path.len() > 0 && path[0] == '/'
}

/// Whether a path begins at the root.
pub fn is_absolute(path: &str) -> (result: bool)
    ensures
        result == absolute(path@),
{
    proof {
        reveal_strlit("/");
        assert("/"@ =~= seq!['/']);
        if path@.len() > 0 {
            assert(path@[0] == '/' ==> "/"@ =~= path@.subrange(0, 1));
            assert("/"@.is_prefix_of(path@) ==> path@[0] == "/"@[0]);
        }
    }
    starts_with(path, "/")
}

/// A path below another. An absolute path stays as it is.
pub open spec fn below(base: Seq<char>, path: Seq<char>) -> Seq<char> {
    if absolute(path) || base.len() == 0 {
        path
    } else if base.last() == '/' {
        base + path
    } else {
        base + "/"@ + path
    }
}

/// A path below another.
pub fn join(base: &str, path: &str) -> (result: String)
    ensures
        result@ == below(base@, path@),
{
    if is_absolute(path) || base.is_empty() {
        return String::from_str(path);
    }
    let chars = chars_of(base);
    let mut result = String::from_str(base);
    if chars[chars.len() - 1] != '/' {
        result.append("/");
    }
    result.append(path);
    result
}

/// The pieces that count as parts of a path.
pub open spec fn counted(pieces: Seq<Seq<char>>, rooted: bool) -> Seq<Seq<char>>
    decreases pieces.len(),
{
    if pieces.len() == 0 {
        Seq::empty()
    } else {
        let before = counted(pieces.drop_last(), rooted);
        let piece = pieces.last();
        if piece.len() > 0 && (piece != "."@ || pieces.len() == 1 && !rooted) {
            before.push(piece)
        } else {
            before
        }
    }
}

/// The parts of a path.
pub open spec fn parts(path: Seq<char>) -> Seq<Seq<char>> {
    counted(split(path, '/'), absolute(path))
}

/// The parts of a path.
pub fn parts_of<'a>(path: &'a str) -> (result: Vec<&'a str>)
    ensures
        texts(result@) == parts(path@),
{
    let pieces = split_char(path, '/');
    let ghost all = split(path@, '/');
    let rooted = is_absolute(path);
    let mut result: Vec<&'a str> = Vec::new();
    let mut i: usize = 0;
    assert(texts(result@) =~= counted(all.take(0), rooted));
    while i < pieces.len()
        invariant
            i <= pieces.len(),
            texts(pieces@) == all,
            texts(result@) == counted(all.take(i as int), rooted),
        decreases pieces.len() - i,
    {
        let ghost before = result@;
        assert(all.take(i + 1).drop_last() =~= all.take(i as int));
        assert(all.take(i + 1).last() == pieces@[i as int]@);
        if !pieces[i].is_empty() && (!same(pieces[i], ".") || i == 0 && !rooted) {
            result.push(pieces[i]);
            assert(texts(result@) =~= texts(before).push(pieces@[i as int]@));
        }
        i = i + 1;
    }
    assert(all.take(i as int) =~= all);
    result
}

/// Whether two paths are spelled the same, up to what does not count.
pub open spec fn same_path(a: Seq<char>, b: Seq<char>) -> bool {
    absolute(a) == absolute(b) && parts(a) == parts(b)
}

fn equal_parts(a: &Vec<&str>, from: usize, b: &Vec<&str>) -> (result: bool)
    requires
        from + b@.len() <= a@.len(),
    ensures
        result == (texts(a@).subrange(from as int, from + b@.len()) == texts(b@)),
{
    let mut i: usize = 0;
    while i < b.len()
        invariant
            i <= b.len(),
            from + b@.len() <= a.len(),
            forall|j: int| 0 <= j < i ==> #[trigger] texts(b@)[j] == texts(a@)[from + j],
        decreases b.len() - i,
    {
        if !same(a[from + i], b[i]) {
            assert(texts(a@).subrange(from as int, from + b@.len())[i as int] == a@[from + i]@);
            assert(texts(b@)[i as int] == b@[i as int]@);
            return false;
        }
        assert(texts(b@)[i as int] == texts(a@)[from + i]);
        i = i + 1;
    }
    assert(texts(a@).subrange(from as int, from + b@.len()) =~= texts(b@));
    true
}

/// Whether two paths are spelled the same, up to what does not count.
pub fn paths_equal(a: &str, b: &str) -> (result: bool)
    ensures
        result == same_path(a@, b@),
{
    if is_absolute(a) != is_absolute(b) {
        return false;
    }
    let left = parts_of(a);
    let right = parts_of(b);
    assert(texts(left@).len() == left@.len() && texts(right@).len() == right@.len());
    if left.len() != right.len() {
        return false;
    }
    assert(texts(left@).subrange(0, right@.len() as int) =~= texts(left@));
    equal_parts(&left, 0, &right)
}

/// Whether a path is among others, however it is spelled.
pub open spec fn listed_path(paths: Seq<Seq<char>>, path: Seq<char>) -> bool {
    exists|i: int| 0 <= i < paths.len() && same_path(#[trigger] paths[i], path)
}

/// Whether a path is among others, however it is spelled.
pub fn lists_path(paths: &Vec<String>, path: &str) -> (result: bool)
    ensures
        result == listed_path(strings(paths@), path@),
{
    let mut i: usize = 0;
    while i < paths.len()
        invariant
            i <= paths.len(),
            forall|j: int| 0 <= j < i ==> !same_path(#[trigger] strings(paths@)[j], path@),
        decreases paths.len() - i,
    {
        assert(strings(paths@)[i as int] == paths@[i as int]@);
        if paths_equal(paths[i].as_str(), path) {
            return true;
        }
        i = i + 1;
    }
    false
}

/// Whether a path is another one or lies below it.
pub open spec fn beneath(path: Seq<char>, base: Seq<char>) -> bool {
    &&& absolute(path) == absolute(base) || parts(base).len() == 0 && !absolute(base)
    &&& parts(base).is_prefix_of(parts(path))
}

/// Whether a path is another one or lies below it.
pub fn is_beneath(path: &str, base: &str) -> (result: bool)
    ensures
        result == beneath(path@, base@),
{
    let whole = parts_of(path);
    let prefix = parts_of(base);
    assert(texts(whole@).len() == whole@.len() && texts(prefix@).len() == prefix@.len());
    if is_absolute(path) != is_absolute(base) && (prefix.len() > 0 || is_absolute(base)) {
        return false;
    }
    if prefix.len() > whole.len() {
        return false;
    }
    equal_parts(&whole, 0, &prefix)
}

/// Whether the last parts of a path are those of a relative one.
pub open spec fn ends_in(path: Seq<char>, suffix: Seq<char>) -> bool {
    parts(suffix).is_suffix_of(parts(path))
}

/// Whether the last parts of a path are those of a relative one.
pub fn path_ends_in(path: &str, suffix: &str) -> (result: bool)
    ensures
        result == ends_in(path@, suffix@),
{
    let whole = parts_of(path);
    let tail = parts_of(suffix);
    assert(texts(whole@).len() == whole@.len() && texts(tail@).len() == tail@.len());
    if tail.len() > whole.len() {
        return false;
    }
    let from: usize = whole.len() - tail.len();
    equal_parts(&whole, from, &tail)
}

/// Whether a text begins with a part that is just a dot.
pub open spec fn dot_first(s: Seq<char>) -> bool {
    s.len() > 0 && s[0] == '.' && (s.len() == 1 || s[1] == '/')
}

/// Whether a text ends with a part that is just a dot.
pub open spec fn dot_last(s: Seq<char>) -> bool {
    s.len() > 0 && s.last() == '.' && (s.len() == 1 || s[s.len() - 2] == '/')
}

/// A text without leading slashes and dot parts.
pub open spec fn front_trimmed(s: Seq<char>) -> Seq<char>
    decreases s.len(),
{
    if s.len() > 0 && (s[0] == '/' || dot_first(s)) {
        front_trimmed(s.skip(1))
    } else {
        s
    }
}

/// A text without trailing slashes and dot parts.
pub open spec fn back_trimmed(s: Seq<char>) -> Seq<char>
    decreases s.len(),
{
    if s.len() > 0 && (s.last() == '/' || dot_last(s)) {
        back_trimmed(s.drop_last())
    } else {
        s
    }
}

fn trim_front<'a>(value: &'a str) -> (rest: &'a str)
    ensures
        rest@ == front_trimmed(value@),
{
    let chars = chars_of(value);
    let mut i: usize = 0;
    assert(value@.skip(0) =~= value@);
    while i < chars.len() && (chars[i] == '/' || chars[i] == '.' && (i + 1 == chars.len() || chars[i
        + 1] == '/'))
        invariant
            i <= chars.len(),
            chars@ == value@,
            front_trimmed(value@) == front_trimmed(value@.skip(i as int)),
        decreases chars.len() - i,
    {
        assert(value@.skip(i as int).skip(1) =~= value@.skip(i + 1));
        i = i + 1;
    }
    let rest = value.substring_char(i, chars.len());
    assert(rest@ =~= value@.skip(i as int));
    rest
}

fn trim_back<'a>(value: &'a str) -> (rest: &'a str)
    ensures
        rest@ == back_trimmed(value@),
{
    let chars = chars_of(value);
    let mut n: usize = chars.len();
    assert(value@.take(n as int) =~= value@);
    while n > 0 && (chars[n - 1] == '/' || chars[n - 1] == '.' && (n == 1 || chars[n - 2] == '/'))
        invariant
            n <= chars.len(),
            chars@ == value@,
            back_trimmed(value@) == back_trimmed(value@.take(n as int)),
        decreases n,
    {
        assert(value@.take(n as int).drop_last() =~= value@.take(n - 1));
        n = n - 1;
    }
    let rest = value.substring_char(0, n);
    assert(rest@ =~= value@.take(n as int));
    rest
}

/// What follows the first `n` parts.
pub open spec fn after_parts(s: Seq<char>, n: nat) -> Seq<char>
    decreases n,
{
    if n == 0 {
        back_trimmed(front_trimmed(s))
    } else {
        let rest = front_trimmed(s);
        after_parts(rest.skip(first_where(rest, just('/'))), (n - 1) as nat)
    }
}

fn skip_parts<'a>(value: &'a str, n: usize) -> (rest: &'a str)
    ensures
        rest@ == after_parts(value@, n as nat),
{
    let mut left: usize = n;
    let mut rest: &'a str = value;
    while left > 0
        invariant
            after_parts(value@, n as nat) == after_parts(rest@, left as nat),
        decreases left,
    {
        let trimmed = trim_front(rest);
        let length: usize = trimmed.unicode_len();
        proof {
            lemma_first_where_props(trimmed@, just('/'));
        }
        let end: usize = match find_char(trimmed, '/') {
            Some(i) => i,
            None => length,
        };
        rest = trimmed.substring_char(end, length);
        assert(rest@ =~= trimmed@.skip(end as int));
        left = left - 1;
    }
    trim_back(trim_front(rest))
}

/// The path from `base` to `path`, where `path` lies beneath it.
pub open spec fn relative(path: Seq<char>, base: Seq<char>) -> Option<Seq<char>> {
    let n = parts(base).len();
    if !beneath(path, base) {
        None
    } else if n == 0 && !absolute(base) {
        Some(
            if absolute(path) || dot_first(path) {
                path.take(1) + back_trimmed(path.skip(1))
            } else {
                back_trimmed(path)
            },
        )
    } else if dot_first(path) {
        Some(after_parts(path.skip(1), (n - 1) as nat))
    } else {
        Some(after_parts(path, n))
    }
}

/// The path from `base` to `path`, where `path` lies beneath it.
pub fn relative_to(path: &str, base: &str) -> (result: Option<String>)
    ensures
        match result {
            Some(rest) => relative(path@, base@) == Some(rest@),
            None => relative(path@, base@) is None,
        },
{
    if !is_beneath(path, base) {
        return None;
    }
    let prefix = parts_of(base);
    assert(texts(prefix@).len() == prefix@.len());
    let n: usize = prefix.len();
    let chars = chars_of(path);
    let dotted = chars.len() > 0 && chars[0] == '.' && (chars.len() == 1 || chars[1] == '/');
    if n == 0 && !is_absolute(base) {
        if is_absolute(path) || dotted {
            let mut result = String::from_str(path.substring_char(0, 1));
            let tail = path.substring_char(1, chars.len());
            assert(tail@ =~= path@.skip(1));
            assert(result@ =~= path@.take(1));
            result.append(trim_back(tail));
            return Some(result);
        }
        return Some(String::from_str(trim_back(path)));
    }
    if dotted {
        let tail = path.substring_char(1, chars.len());
        assert(tail@ =~= path@.skip(1));
        assert(!absolute(path@));
        assert(n > 0);
        return Some(String::from_str(skip_parts(tail, n - 1)));
    }
    Some(String::from_str(skip_parts(path, n)))
}

proof fn lemma_split_join(a: Seq<char>, b: Seq<char>)
    ensures
        split(a + seq!['/'] + b, '/') == split(a, '/') + split(b, '/'),
    decreases a.len(),
{
    let whole = a + seq!['/'] + b;
    lemma_first_where_props(a, just('/'));
    let i = first_where(a, just('/'));
    if i < a.len() {
        assert forall|j: int| 0 <= j < i implies !just('/')(#[trigger] whole[j]) by {
            assert(whole[j] == a[j]);
        }
        assert(whole[i] == a[i]);
        lemma_first_where(whole, just('/'), i);
        let rest = a.skip(i + 1);
        assert(whole.take(i) =~= a.take(i));
        assert(whole.skip(i + 1) =~= rest + seq!['/'] + b);
        lemma_split_join(rest, b);
        assert(seq![a.take(i)] + (split(rest, '/') + split(b, '/')) =~= split(a, '/') + split(
            b,
            '/',
        ));
    } else {
        assert forall|j: int| 0 <= j < a.len() implies !just('/')(#[trigger] whole[j]) by {
            assert(whole[j] == a[j]);
        }
        assert(whole[a.len() as int] == '/');
        lemma_first_where(whole, just('/'), a.len() as int);
        assert(whole.take(a.len() as int) =~= a);
        assert(whole.skip(a.len() as int + 1) =~= b);
    }
}

proof fn lemma_split_nonempty(s: Seq<char>)
    ensures
        split(s, '/').len() > 0,
{
}

proof fn lemma_counted_concat(p: Seq<Seq<char>>, q: Seq<Seq<char>>, rooted: bool)
    requires
        p.len() > 0,
    ensures
        counted(p + q, rooted) == counted(p, rooted) + counted(q, true),
    decreases q.len(),
{
    if q.len() == 0 {
        assert(p + q =~= p);
        assert(counted(p, rooted) + counted(q, true) =~= counted(p, rooted));
    } else {
        lemma_counted_concat(p, q.drop_last(), rooted);
        assert((p + q).drop_last() =~= p + q.drop_last());
        assert((p + q).last() == q.last());
        assert(counted(p + q, rooted) =~= counted(p, rooted) + counted(q, true));
    }
}

proof fn lemma_counted_rooted(q: Seq<Seq<char>>, rooted: bool)
    requires
        q.len() == 0 || q[0] != "."@,
    ensures
        counted(q, rooted) == counted(q, true),
    decreases q.len(),
{
    if q.len() > 0 {
        lemma_counted_rooted(q.drop_last(), rooted);
    }
}

/// An empty path has no parts.
pub proof fn lemma_no_parts(path: Seq<char>)
    requires
        path.len() == 0,
    ensures
        parts(path).len() == 0,
{
    reveal_with_fuel(counted, 2);
}

/// A relative path that does not begin with a dot part keeps its parts below
/// another path, after those of the other.
pub proof fn lemma_below_parts(base: Seq<char>, path: Seq<char>)
    requires
        base.len() > 0,
        !absolute(path),
        parts(path).len() > 0 ==> parts(path)[0] != "."@,
    ensures
        parts(below(base, path)) == parts(base) + parts(path),
        absolute(below(base, path)) == absolute(base),
{
    reveal_strlit("/");
    assert("/"@ =~= seq!['/']);
    let q = split(path, '/');
    lemma_split_nonempty(path);
    assert(q[0] != "."@) by {
        if q[0] == "."@ {
            reveal_strlit(".");
            lemma_counted_first(q, false);
        }
    }
    lemma_counted_rooted(q, false);
    let result = below(base, path);
    if base.last() == '/' {
        let stem = base.drop_last();
        lemma_split_join(stem, path);
        lemma_split_join(stem, Seq::empty());
        assert(base =~= stem + seq!['/'] + Seq::<char>::empty());
        assert(result =~= stem + seq!['/'] + path);
        let nothing = split(Seq::<char>::empty(), '/');
        assert(nothing =~= seq![Seq::<char>::empty()]);
        lemma_split_nonempty(stem);
        lemma_counted_concat(split(stem, '/'), q, absolute(result));
        lemma_counted_concat(split(stem, '/'), nothing, absolute(base));
        reveal_with_fuel(counted, 2);
        assert(absolute(result) == absolute(base));
    } else {
        lemma_split_join(base, path);
        assert(result =~= base + seq!['/'] + path);
        lemma_split_nonempty(base);
        lemma_counted_concat(split(base, '/'), q, absolute(result));
    }
}

proof fn lemma_counted_first(q: Seq<Seq<char>>, rooted: bool)
    requires
        q.len() > 0,
        q[0].len() > 0,
        !rooted,
    ensures
        counted(q, rooted).len() > 0,
        counted(q, rooted)[0] == q[0],
    decreases q.len(),
{
    reveal_with_fuel(counted, 2);
    if q.len() > 1 {
        lemma_counted_first(q.drop_last(), rooted);
        assert(q.drop_last()[0] == q[0]);
    } else {
        assert(q.drop_last() =~= Seq::empty());
    }
}

} // verus!
