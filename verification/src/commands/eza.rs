//! `termnav eza` hyperlink adapter.

use vstd::prelude::*;
use vstd::string::*;

use crate::bytes::{
    find_from, first_occurrence, lemma_first_occurrence, lemma_is_first_occurrence,
    lemma_no_occurrence, occurs_at, push_all, push_range,
};
use crate::text::{
    chars_of, decimal, decimal_of, parse_number, parsed, same, starts_with, strings, trim, trimmed,
};

verus! {

/// A byte stream with every occurrence of `pattern`, from the left and without
/// overlap, replaced.
pub open spec fn rewritten(s: Seq<u8>, pattern: Seq<u8>, replacement: Seq<u8>) -> Seq<u8>
    decreases s.len(),
{
    match first_occurrence(s, pattern, 0) {
        Some(i) if pattern.len() > 0 && i + pattern.len() <= s.len() && 0 <= i => s.take(i)
            + replacement + rewritten(s.skip(i + pattern.len()), pattern, replacement),
        _ => s,
    }
}

/// What follows the last replaced occurrence.
pub open spec fn unmatched(s: Seq<u8>, pattern: Seq<u8>) -> Seq<u8>
    decreases s.len(),
{
    match first_occurrence(s, pattern, 0) {
        Some(i) if pattern.len() > 0 && i + pattern.len() <= s.len() && 0 <= i => unmatched(
            s.skip(i + pattern.len()),
            pattern,
        ),
        _ => s,
    }
}

/// Whether the last `length` bytes of `s` begin an occurrence that may still
/// be completed.
pub open spec fn may_begin(s: Seq<u8>, pattern: Seq<u8>, length: int) -> bool {
    &&& 0 < length < pattern.len()
    &&& length <= s.len()
    &&& s.skip(s.len() - length) == pattern.take(length)
}

/// The longest suffix shorter than `limit` that may begin an occurrence.
pub open spec fn longest_begin(s: Seq<u8>, pattern: Seq<u8>, limit: int) -> int
    decreases limit,
{
    if limit <= 1 {
        0
    } else if may_begin(s, pattern, limit - 1) {
        limit - 1
    } else {
        longest_begin(s, pattern, limit - 1)
    }
}

/// How many bytes must be held back because they may begin an occurrence.
pub open spec fn held(s: Seq<u8>, pattern: Seq<u8>) -> int {
    longest_begin(unmatched(s, pattern), pattern, pattern.len() as int)
}

proof fn lemma_longest_begin(s: Seq<u8>, pattern: Seq<u8>, limit: int)
    requires
        limit <= pattern.len(),
    ensures
        0 <= longest_begin(s, pattern, limit),
        longest_begin(s, pattern, limit) > 0 ==> may_begin(
            s,
            pattern,
            longest_begin(s, pattern, limit),
        ) && longest_begin(s, pattern, limit) < limit,
        forall|length: int|
            longest_begin(s, pattern, limit) < length < limit ==> !#[trigger] may_begin(
                s,
                pattern,
                length,
            ),
    decreases limit,
{
    if limit > 1 && !may_begin(s, pattern, limit - 1) {
        lemma_longest_begin(s, pattern, limit - 1);
    }
}

/// What is held back is a suffix of what was read, and no whole occurrence.
proof fn lemma_held_fits(s: Seq<u8>, pattern: Seq<u8>)
    requires
        pattern.len() > 0,
    ensures
        0 <= held(s, pattern) <= unmatched(s, pattern).len() <= s.len(),
        held(s, pattern) < pattern.len(),
    decreases s.len(),
{
    lemma_longest_begin(unmatched(s, pattern), pattern, pattern.len() as int);
    lemma_first_occurrence(s, pattern, 0);
    if let Some(i) = first_occurrence(s, pattern, 0) {
        lemma_held_fits(s.skip(i + pattern.len()), pattern);
    }
}

/// An occurrence seen in what was read stays the first when more arrives.
proof fn lemma_first_stays(s: Seq<u8>, more: Seq<u8>, pattern: Seq<u8>, i: int)
    requires
        first_occurrence(s, pattern, 0) == Some(i),
    ensures
        first_occurrence(s + more, pattern, 0) == Some(i),
        occurs_at(s, pattern, i),
{
    lemma_first_occurrence(s, pattern, 0);
    let all = s + more;
    assert(all.subrange(i, i + pattern.len()) =~= s.subrange(i, i + pattern.len()));
    assert forall|j: int| 0 <= j < i implies !#[trigger] occurs_at(all, pattern, j) by {
        if occurs_at(all, pattern, j) {
            assert(s.subrange(j, j + pattern.len()) =~= all.subrange(j, j + pattern.len()));
            assert(occurs_at(s, pattern, j));
        }
    }
    lemma_is_first_occurrence(all, pattern, 0, i);
}

/// Bytes before any occurrence are copied.
proof fn lemma_rewritten_copies(s: Seq<u8>, pattern: Seq<u8>, replacement: Seq<u8>, k: int)
    requires
        pattern.len() > 0,
        0 <= k <= s.len(),
        forall|j: int| 0 <= j < k ==> !#[trigger] occurs_at(s, pattern, j),
    ensures
        rewritten(s, pattern, replacement) == s.take(k) + rewritten(
            s.skip(k),
            pattern,
            replacement,
        ),
{
    let rest = s.skip(k);
    lemma_first_occurrence(s, pattern, 0);
    lemma_first_occurrence(rest, pattern, 0);
    assert forall|j: int| 0 <= j implies occurs_at(rest, pattern, j) == #[trigger] occurs_at(
        s,
        pattern,
        j + k,
    ) by {
        if j + pattern.len() <= rest.len() {
            assert(rest.subrange(j, j + pattern.len()) =~= s.subrange(
                j + k,
                j + k + pattern.len(),
            ));
        }
    }
    match first_occurrence(s, pattern, 0) {
        Some(i) => {
            assert(occurs_at(s, pattern, (i - k) + k));
            assert forall|j: int| 0 <= j < i - k implies !#[trigger] occurs_at(
                rest,
                pattern,
                j,
            ) by {
                assert(!occurs_at(s, pattern, j + k));
            }
            lemma_is_first_occurrence(rest, pattern, 0, i - k);
            assert(rest.skip(i - k + pattern.len()) =~= s.skip(i + pattern.len()));
            assert(s.take(i) =~= s.take(k) + rest.take(i - k));
            assert(rewritten(s, pattern, replacement) =~= s.take(k) + rewritten(
                rest,
                pattern,
                replacement,
            ));
        },
        None => {
            assert forall|j: int| 0 <= j implies !#[trigger] occurs_at(rest, pattern, j) by {
                assert(!occurs_at(s, pattern, j + k));
            }
            lemma_no_occurrence(rest, pattern, 0);
            assert(s =~= s.take(k) + rest);
        },
    }
}

/// The part of the rewriting of `s` that is final, whatever follows.
pub open spec fn settled(s: Seq<u8>, pattern: Seq<u8>, replacement: Seq<u8>) -> Seq<u8> {
    rewritten(s, pattern, replacement).take(
        rewritten(s, pattern, replacement).len() - held(s, pattern),
    )
}

/// Rewriting what was read and then what follows is rewriting all of it: what
/// is settled stays, and what is held back joins what follows.
pub proof fn lemma_rewriting_resumes(
    s: Seq<u8>,
    more: Seq<u8>,
    pattern: Seq<u8>,
    replacement: Seq<u8>,
)
    requires
        pattern.len() > 0,
    ensures
        0 <= held(s, pattern) <= s.len(),
        held(s, pattern) <= rewritten(s, pattern, replacement).len(),
        rewritten(s + more, pattern, replacement) == settled(s, pattern, replacement) + rewritten(
            s.skip(s.len() - held(s, pattern)) + more,
            pattern,
            replacement,
        ),
    decreases s.len(),
{
    lemma_held_fits(s, pattern);
    match first_occurrence(s, pattern, 0) {
        Some(i) => {
            lemma_first_stays(s, more, pattern, i);
            let rest = s.skip(i + pattern.len());
            lemma_held_fits(rest, pattern);
            lemma_rewriting_resumes(rest, more, pattern, replacement);
            assert((s + more).skip(i + pattern.len()) =~= rest + more);
            assert((s + more).take(i) =~= s.take(i));
            let keep = held(s, pattern);
            assert(rest.skip(rest.len() - keep) =~= s.skip(s.len() - keep));
            assert(settled(s, pattern, replacement) =~= s.take(i) + replacement + settled(
                rest,
                pattern,
                replacement,
            ));
            assert(rewritten(s + more, pattern, replacement) =~= settled(s, pattern, replacement)
                + rewritten(s.skip(s.len() - keep) + more, pattern, replacement));
        },
        None => {
            let keep = held(s, pattern);
            let all = s + more;
            let ready = s.len() - keep;
            lemma_longest_begin(s, pattern, pattern.len() as int);
            lemma_first_occurrence(s, pattern, 0);
            assert forall|j: int| 0 <= j < ready implies !#[trigger] occurs_at(all, pattern, j) by {
                if occurs_at(all, pattern, j) {
                    if j + pattern.len() <= s.len() {
                        assert(s.subrange(j, j + pattern.len()) =~= all.subrange(
                            j,
                            j + pattern.len(),
                        ));
                        assert(occurs_at(s, pattern, j));
                    } else {
                        let length = s.len() - j;
                        assert(s.skip(s.len() - length) =~= pattern.take(length)) by {
                            assert(all.subrange(j, j + pattern.len()).take(length) =~= s.skip(j));
                        }
                        assert(may_begin(s, pattern, length));
                    }
                }
            }
            lemma_rewritten_copies(all, pattern, replacement, ready);
            assert(all.skip(ready) =~= s.skip(ready) + more);
            assert(all.take(ready) =~= s.take(ready));
        },
    }
}

/// A streaming replacement of one byte pattern.
pub struct Rewriter<'a> {
    pattern: &'a [u8],
    replacement: &'a [u8],
    pending: Vec<u8>,
}

impl<'a> Rewriter<'a> {
    /// The pattern that is replaced.
    pub closed spec fn pattern(&self) -> Seq<u8> {
        self.pattern@
    }

    /// What replaces it.
    pub closed spec fn replacement(&self) -> Seq<u8> {
        self.replacement@
    }

    /// The bytes that were read but may still begin an occurrence.
    pub closed spec fn pending(&self) -> Seq<u8> {
        self.pending@
    }

    /// The pattern is not empty, and less than an occurrence is held back.
    pub open spec fn valid(&self) -> bool {
        self.pending().len() < self.pattern().len()
    }

    /// Start rewriting a stream.
    pub fn new(pattern: &'a [u8], replacement: &'a [u8]) -> (rewriter: Self)
        requires
            pattern@.len() > 0,
        ensures
            rewriter.valid(),
            rewriter.pattern() == pattern@,
            rewriter.replacement() == replacement@,
            rewriter.pending() == Seq::<u8>::empty(),
    {
        Rewriter { pattern, replacement, pending: Vec::new() }
    }

    /// Take more input and append what is settled.
    pub fn push(&mut self, bytes: &[u8], output: &mut Vec<u8>)
        requires
            old(self).valid(),
        ensures
            final(self).valid(),
            final(self).pattern() == old(self).pattern(),
            final(self).replacement() == old(self).replacement(),
            ({
                let read = old(self).pending() + bytes@;
                let keep = held(read, old(self).pattern());
                &&& final(output)@ == old(output)@ + settled(
                    read,
                    old(self).pattern(),
                    old(self).replacement(),
                )
                &&& final(self).pending() == read.skip(read.len() - keep)
            }),
    {
        let ghost before = output@;
        let ghost p = self.pattern@;
        let ghost r = self.replacement@;
        push_all(&mut self.pending, bytes);
        let ghost read = self.pending@;
        let mut consumed: usize = 0;
        assert(read.skip(0) =~= read);
        assert(output@ + rewritten(read, p, r) =~= before + rewritten(read, p, r));
        loop
            invariant
                p.len() > 0,
                self.pattern@ == p,
                self.replacement@ == r,
                self.pending@ == read,
                consumed <= read.len(),
                output@ + rewritten(read.skip(consumed as int), p, r) == before + rewritten(
                    read,
                    p,
                    r,
                ),
                unmatched(read, p) == unmatched(read.skip(consumed as int), p),
            ensures
                first_occurrence(read.skip(consumed as int), p, 0) is None,
            decreases read.len() - consumed,
        {
            let ghost rest = read.skip(consumed as int);
            proof {
                lemma_first_occurrence(rest, p, 0);
                lemma_first_occurrence(read, p, consumed as int);
                assert forall|j: int| 0 <= j implies occurs_at(rest, p, j) == #[trigger] occurs_at(
                    read,
                    p,
                    j + consumed,
                ) by {
                    if j + p.len() <= rest.len() {
                        assert(rest.subrange(j, j + p.len()) =~= read.subrange(
                            j + consumed,
                            j + consumed + p.len(),
                        ));
                    }
                }
            }
            match find_from(self.pending.as_slice(), self.pattern, consumed) {
                Some(index) => {
                    let ghost previous = output@;
                    assert(self.pending.len() == read.len());
                    proof {
                        assert(occurs_at(read, p, (index - consumed) + consumed));
                        assert forall|j: int| 0 <= j < index - consumed implies !#[trigger] occurs_at(
                            rest,
                            p,
                            j,
                        ) by {
                            assert(!occurs_at(read, p, j + consumed));
                        }
                        lemma_is_first_occurrence(rest, p, 0, index - consumed);
                    }
                    push_range(output, self.pending.as_slice(), consumed, index);
                    push_all(output, self.replacement);
                    proof {
                        assert(rest.take(index - consumed) =~= read.subrange(
                            consumed as int,
                            index as int,
                        ));
                        assert(rest.skip(index - consumed + p.len()) =~= read.skip(
                            index + p.len(),
                        ));
                        assert(output@ + rewritten(read.skip(index + p.len()), p, r) =~= previous
                            + rewritten(rest, p, r));
                    }
                    consumed = index + self.pattern.len();
                },
                None => {
                    proof {
                        assert forall|j: int| 0 <= j implies !#[trigger] occurs_at(rest, p, j) by {
                            assert(!occurs_at(read, p, j + consumed));
                        }
                        lemma_no_occurrence(rest, p, 0);
                    }
                    break;
                },
            }
        }
        // Bytes that cannot begin a future match are safe to publish now. Keep
        // only the longest suffix that is also a prefix of the search pattern.
        let ghost rest = read.skip(consumed as int);
        let retained = self.retained(consumed);
        let ready: usize = self.pending.len() - retained;
        push_range(output, self.pending.as_slice(), consumed, ready);
        let mut pending: Vec<u8> = Vec::new();
        push_range(&mut pending, self.pending.as_slice(), ready, self.pending.len());
        proof {
            assert(retained == held(read, p));
            lemma_held_fits(read, p);
            assert(pending@ =~= read.skip(read.len() - retained));
            let whole = rewritten(read, p, r);
            lemma_rewriting_resumes(read, Seq::empty(), p, r);
            assert(output@ + read.skip(ready as int) =~= before + whole);
            assert(output@ =~= before + settled(read, p, r)) by {
                assert(output@.len() == before.len() + whole.len() - retained);
                assert((before + whole).take(output@.len() as int) =~= before + whole.take(
                    whole.len() - retained,
                ));
                assert((output@ + read.skip(ready as int)).take(output@.len() as int) =~= output@);
            }
        }
        self.pending = pending;
    }

    /// How many of the pending bytes from `consumed` on may begin an
    /// occurrence.
    fn retained(&self, consumed: usize) -> (length: usize)
        requires
            consumed <= self.pending@.len(),
            self.pattern@.len() > 0,
        ensures
            length == longest_begin(
                self.pending@.skip(consumed as int),
                self.pattern@,
                self.pattern@.len() as int,
            ),
            length <= self.pending@.len() - consumed,
    {
        let ghost rest = self.pending@.skip(consumed as int);
        let mut limit: usize = self.pattern.len();
        while limit > 1
            invariant
                consumed <= self.pending@.len(),
                1 <= limit <= self.pattern@.len(),
                rest == self.pending@.skip(consumed as int),
                longest_begin(rest, self.pattern@, self.pattern@.len() as int) == longest_begin(
                    rest,
                    self.pattern@,
                    limit as int,
                ),
            decreases limit,
        {
            let length: usize = limit - 1;
            if length <= self.pending.len() - consumed {
                let start: usize = self.pending.len() - length;
                let mut k: usize = 0;
                while k < length && self.pending[start + k] == self.pattern[k]
                    invariant
                        k <= length < self.pattern@.len(),
                        start + length == self.pending.len(),
                        forall|j: int|
                            0 <= j < k ==> self.pending@[start + j] == #[trigger] self.pattern@[j],
                    decreases length - k,
                {
                    k = k + 1;
                }
                let ghost suffix = rest.skip(rest.len() - length);
                assert(suffix =~= self.pending@.skip(start as int));
                if k == length {
                    assert(suffix =~= self.pattern@.take(length as int));
                    return length;
                }
                assert(suffix[k as int] != self.pattern@.take(length as int)[k as int]);
            }
            limit = length;
        }
        0
    }

    /// Append what is still held back: nothing follows.
    pub fn finish(&mut self, output: &mut Vec<u8>)
        requires
            old(self).valid(),
        ensures
            final(self).valid(),
            final(output)@ == old(output)@ + old(self).pending(),
            final(self).pending() == Seq::<u8>::empty(),
            final(self).pattern() == old(self).pattern(),
            final(self).replacement() == old(self).replacement(),
    {
        push_all(output, self.pending.as_slice());
        self.pending = Vec::new();
    }
}

/// All bytes of the chunks, in order.
pub open spec fn gathered(chunks: Seq<Vec<u8>>) -> Seq<u8>
    decreases chunks.len(),
{
    if chunks.len() == 0 {
        Seq::empty()
    } else {
        gathered(chunks.drop_last()) + chunks.last()@
    }
}

/// Less than an occurrence is copied as it is.
proof fn lemma_short_copied(s: Seq<u8>, pattern: Seq<u8>, replacement: Seq<u8>)
    requires
        s.len() < pattern.len(),
    ensures
        rewritten(s, pattern, replacement) == s,
{
    lemma_no_occurrence(s, pattern, 0);
}

/// Rewrite a stream that arrives in chunks. Where the chunks are cut makes no
/// difference.
pub fn rewrite_stream(chunks: &[Vec<u8>], pattern: &[u8], replacement: &[u8]) -> (output: Vec<u8>)
    requires
        pattern@.len() > 0,
    ensures
        output@ == rewritten(gathered(chunks@), pattern@, replacement@),
{
    let mut rewriter = Rewriter::new(pattern, replacement);
    let mut output: Vec<u8> = Vec::new();
    let mut i: usize = 0;
    let ghost p = pattern@;
    let ghost r = replacement@;
    assert forall|future: Seq<u8>|
        output@ + #[trigger] rewritten(rewriter.pending() + future, p, r) == rewritten(
            gathered(chunks@.take(0)) + future,
            p,
            r,
        ) by {
        assert(rewriter.pending() + future =~= future);
        assert(gathered(chunks@.take(0)) + future =~= future);
        assert(output@ + rewritten(future, p, r) =~= rewritten(future, p, r));
    }
    while i < chunks.len()
        invariant
            i <= chunks.len(),
            rewriter.valid(),
            rewriter.pattern() == p,
            rewriter.replacement() == r,
            forall|future: Seq<u8>|
                output@ + #[trigger] rewritten(rewriter.pending() + future, p, r) == rewritten(
                    gathered(chunks@.take(i as int)) + future,
                    p,
                    r,
                ),
        decreases chunks.len() - i,
    {
        let ghost before = output@;
        let ghost pending = rewriter.pending();
        let ghost chunk = chunks@[i as int]@;
        rewriter.push(chunks[i].as_slice(), &mut output);
        proof {
            let more = chunks@.take(i + 1);
            assert(more.drop_last() =~= chunks@.take(i as int));
            assert forall|future: Seq<u8>|
                output@ + #[trigger] rewritten(rewriter.pending() + future, p, r) == rewritten(
                    gathered(more) + future,
                    p,
                    r,
                ) by {
                lemma_rewriting_resumes(pending + chunk, future, p, r);
                assert(pending + chunk + future =~= pending + (chunk + future));
                assert(gathered(more) + future =~= gathered(chunks@.take(i as int)) + (chunk
                    + future));
                assert(before + rewritten(pending + (chunk + future), p, r) == rewritten(
                    gathered(chunks@.take(i as int)) + (chunk + future),
                    p,
                    r,
                ));
                let read = pending + chunk;
                assert(output@ + rewritten(rewriter.pending() + future, p, r) =~= before + (settled(
                    read,
                    p,
                    r,
                ) + rewritten(rewriter.pending() + future, p, r)));
            }
        }
        i = i + 1;
    }
    let ghost pending = rewriter.pending();
    let ghost before = output@;
    rewriter.finish(&mut output);
    proof {
        let none = Seq::<u8>::empty();
        assert(pending + none =~= pending);
        lemma_short_copied(pending, p, r);
        assert(before + rewritten(pending + none, p, r) == rewritten(
            gathered(chunks@.take(i as int)) + none,
            p,
            r,
        ));
        assert(chunks@.take(i as int) =~= chunks@);
        assert(gathered(chunks@) + none =~= gathered(chunks@));
    }
    output
}

/// What one argument says of the layout: that it chooses one, or that no
/// further argument is an option.
pub open spec fn layout_choice(value: Seq<char>) -> Option<bool> {
    if value == "-1"@ || value == "--oneline"@ || value == "-l"@ || value == "--long"@ || value
        == "-G"@ || value == "--grid"@ || value == "-T"@ || value == "--tree"@ {
        Some(true)
    } else if value == "--"@ {
        Some(false)
    } else if "--oneline="@.is_prefix_of(value) || "--long="@.is_prefix_of(value)
        || "--grid="@.is_prefix_of(value) || "--tree="@.is_prefix_of(value) {
        Some(true)
    } else if "-"@.is_prefix_of(value) && !"--"@.is_prefix_of(value) && exists|i: int|
        1 <= i < value.len() && layout_flag(#[trigger] value[i]) {
        Some(true)
    } else {
        None
    }
}

/// The short options that choose a layout.
pub open spec fn layout_flag(c: char) -> bool {
    c == '1' || c == 'l' || c == 'G' || c == 'T'
}

/// Whether the arguments before any `--` choose a layout.
pub open spec fn chooses_layout(arguments: Seq<Seq<char>>) -> bool
    decreases arguments.len(),
{
    if arguments.len() == 0 {
        false
    } else {
        match layout_choice(arguments[0]) {
            Some(chosen) => chosen,
            None => chooses_layout(arguments.drop_first()),
        }
    }
}

fn layout_argument(value: &str) -> (choice: Option<bool>)
    ensures
        choice == layout_choice(value@),
{
    if same(value, "-1") || same(value, "--oneline") || same(value, "-l") || same(value, "--long")
        || same(value, "-G") || same(value, "--grid") || same(value, "-T") || same(
        value,
        "--tree",
    ) {
        return Some(true);
    }
    if same(value, "--") {
        return Some(false);
    }
    if starts_with(value, "--oneline=") || starts_with(value, "--long=") || starts_with(
        value,
        "--grid=",
    ) || starts_with(value, "--tree=") {
        return Some(true);
    }
    if starts_with(value, "-") && !starts_with(value, "--") {
        let chars = chars_of(value);
        let mut i: usize = 1;
        while i < chars.len()
            invariant
                1 <= i,
                chars@ == value@,
                forall|j: int| 1 <= j < i && j < chars@.len() ==> !layout_flag(#[trigger] chars@[j]),
                !(value@ == "-1"@ || value@ == "--oneline"@ || value@ == "-l"@ || value@
                    == "--long"@ || value@ == "-G"@ || value@ == "--grid"@ || value@ == "-T"@
                    || value@ == "--tree"@ || value@ == "--"@),
                !("--oneline="@.is_prefix_of(value@) || "--long="@.is_prefix_of(value@)
                    || "--grid="@.is_prefix_of(value@) || "--tree="@.is_prefix_of(value@)),
                "-"@.is_prefix_of(value@) && !"--"@.is_prefix_of(value@),
            decreases chars.len() - i,
        {
            let c = chars[i];
            if c == '1' || c == 'l' || c == 'G' || c == 'T' {
                assert(layout_flag(value@[i as int]));
                return Some(true);
            }
            i = i + 1;
        }
    }
    None
}

/// Whether the arguments before any `--` choose a layout.
pub fn has_layout_argument(arguments: &[String]) -> (result: bool)
    ensures
        result == chooses_layout(strings(arguments@)),
{
    let ghost all = strings(arguments@);
    let mut i: usize = 0;
    assert(all.skip(0) =~= all);
    while i < arguments.len()
        invariant
            i <= arguments.len(),
            all == strings(arguments@),
            chooses_layout(all) == chooses_layout(all.skip(i as int)),
        decreases arguments.len() - i,
    {
        assert(all.skip(i as int)[0] == arguments@[i as int]@);
        assert(all.skip(i as int).drop_first() =~= all.skip(i + 1));
        if let Some(chosen) = layout_argument(arguments[i].as_str()) {
            return chosen;
        }
        i = i + 1;
    }
    assert(all.skip(i as int) =~= Seq::empty());
    false
}

/// The option that makes this eza emit hyperlinks: recent releases want a
/// value for it.
pub fn hyperlink_argument(accepts_value: bool) -> (argument: &'static str)
    ensures
        argument@ == (if accepts_value {
            "--hyperlink=always"@
        } else {
            "--hyperlink"@
        }),
{
    if accepts_value {
        "--hyperlink=always"
    } else {
        "--hyperlink"
    }
}

/// The options that the adapter adds in front of the user's own arguments.
/// Color is forced because eza writes into a pipe; width and grid are passed
/// on where the user sees a terminal.
pub open spec fn added_options(
    hyperlink: Seq<char>,
    interactive: bool,
    width: Option<u32>,
    layout: bool,
) -> Seq<Seq<char>> {
    seq![hyperlink, "--color=always"@] + (if interactive && width is Some {
        seq!["--width"@, decimal(width->0 as nat)]
    } else {
        Seq::empty()
    }) + (if interactive && !layout {
        seq!["--grid"@]
    } else {
        Seq::empty()
    })
}

/// The complete argument vector of a rewritten eza run.
pub fn eza_arguments(
    hyperlink: &str,
    interactive: bool,
    width: Option<u32>,
    arguments: &[String],
) -> (result: Vec<String>)
    ensures
        strings(result@) == added_options(
            hyperlink@,
            interactive,
            width,
            chooses_layout(strings(arguments@)),
        ) + strings(arguments@),
{
    let mut result: Vec<String> = Vec::new();
    result.push(String::from_str(hyperlink));
    result.push(String::from_str("--color=always"));
    if interactive {
        if let Some(width) = width {
            result.push(String::from_str("--width"));
            result.push(decimal_of(width as u64));
        }
        if !has_layout_argument(arguments) {
            result.push(String::from_str("--grid"));
        }
    }
    let ghost options = strings(result@);
    assert(options =~= added_options(
        hyperlink@,
        interactive,
        width,
        chooses_layout(strings(arguments@)),
    ));
    crate::text::push_strings(&mut result, arguments);
    assert(strings(result@) =~= options + strings(arguments@));
    result
}

/// The terminal width: a positive `COLUMNS`, else what `tput cols` printed.
pub open spec fn width_choice(columns: Option<Seq<char>>, tput: Option<Seq<char>>) -> Option<nat> {
    match columns {
        Some(value) if parsed(value, u32::MAX as nat) is Some && parsed(
            value,
            u32::MAX as nat,
        )->0 > 0 => parsed(value, u32::MAX as nat),
        _ => match tput {
            Some(value) => parsed(trimmed(value), u32::MAX as nat),
            None => None,
        },
    }
}

/// The terminal width: a positive `COLUMNS`, else what `tput cols` printed.
pub fn terminal_width(columns: Option<&str>, tput: Option<&str>) -> (width: Option<u32>)
    ensures
        (match width {
            Some(width) => Some(width as nat),
            None => None,
        }) == width_choice(
            match columns {
                Some(value) => Some(value@),
                None => None,
            },
            match tput {
                Some(value) => Some(value@),
                None => None,
            },
        ),
{
    if let Some(value) = columns {
        if let Some(width) = parse_number(value, u32::MAX as u64) {
            if width > 0 {
                return Some(width as u32);
            }
        }
    }
    match tput {
        Some(value) => match parse_number(trim(value), u32::MAX as u64) {
            Some(width) => Some(width as u32),
            None => None,
        },
        None => None,
    }
}

/// The start of a file hyperlink without a host, as eza writes it.
pub open spec fn local_link() -> Seq<char> {
    "\u{1b}]8;;file:///"@
}

/// The start of a file hyperlink that names its host.
pub open spec fn host_link(host: Seq<char>) -> Seq<char> {
    "\u{1b}]8;;file://"@ + host + "/"@
}

/// The bytes that start a file hyperlink without a host.
pub fn link_pattern() -> (bytes: Vec<u8>)
    ensures
        bytes@ == vstd::utf8::encode_utf8(local_link()),
{
    "\u{1b}]8;;file:///".as_bytes_vec()
}

/// The bytes that start a file hyperlink that names its host.
pub fn link_replacement(host: &str) -> (bytes: Vec<u8>)
    ensures
        bytes@ == vstd::utf8::encode_utf8(host_link(host@)),
{
    let mut text = String::from_str("\u{1b}]8;;file://");
    text.append(host);
    text.append("/");
    text.as_str().as_bytes_vec()
}

} // verus!
