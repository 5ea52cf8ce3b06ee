//! Recognition of one token of visible text.

use vstd::prelude::*;
use vstd::string::*;
use vstd::utf8::*;

use crate::click::{
    detected, extension_target, local_file, terminal_file, Destination, Detectors, Finding, Target,
    Verdict,
};
use crate::patterns::{
    captures, captures_all, group_spans, group_texts, is_match, regex_all_groups, regex_groups,
    regex_matches, CVE, FILE_LOCATION, GENERIC_URL, GIT_REMOTE, LOCAL_ENDPOINT, RFC, SCHEMELESS_WEB,
    SPACED_RFC,
};
use crate::text::{
    any_of, blank, chars_of, contains_char, cut, first_where, ink, is_blank, just,
    lemma_first_where, lemma_first_where_props, lowered, opt_text, same, split_once, starts_with,
    strip_suffix, texts, to_lower, trim_end_any, trim_end_where, trim_start_any, trim_start_where,
    unicode_alphanumeric, white_space, words, words_of,
};

verus! {

/// The scheme of a text that is never opened as a URL, whatever follows.
pub open spec fn editor_scheme(scheme: Seq<char>) -> bool {
    scheme == "file"@ || scheme == "nvim-open"@ || scheme == "nvim-remote"@ || scheme
        == "lazygit-edit"@
}

/// The scheme of a text that is always opened as a URL.
pub open spec fn web_scheme(scheme: Seq<char>) -> bool {
    scheme == "http"@ || scheme == "https"@ || scheme == "ftp"@ || scheme == "mailto"@
}

/// Whether a text is a URL for the outer terminal.
pub open spec fn is_url(value: Seq<char>) -> bool {
    match cut(value, ':') {
        Some((scheme, _)) => !editor_scheme(lowered(scheme)) && (web_scheme(lowered(scheme))
            || regex_matches(GENERIC_URL@, value)),
        None => false,
    }
}

/// Whether a text is a URL for the outer terminal.
pub fn url_like(value: &str) -> (result: bool)
    ensures
        result == is_url(value@),
{
    match split_once(value, ':') {
        Some((scheme, _)) => {
            let scheme = to_lower(scheme);
            let scheme = scheme.as_str();
            if same(scheme, "file") || same(scheme, "nvim-open") || same(scheme, "nvim-remote")
                || same(scheme, "lazygit-edit") {
                return false;
            }
            same(scheme, "http") || same(scheme, "https") || same(scheme, "ftp") || same(
                scheme,
                "mailto",
            ) || is_match(GENERIC_URL, value)
        },
        None => false,
    }
}

/// Whether a text begins as an explicit path does.
pub open spec fn rooted(value: Seq<char>) -> bool {
    ||| "/"@.is_prefix_of(value)
    ||| "~/"@.is_prefix_of(value)
    ||| "$HOME/"@.is_prefix_of(value)
    ||| "${HOME}/"@.is_prefix_of(value)
    ||| "./"@.is_prefix_of(value)
    ||| "../"@.is_prefix_of(value)
}

/// Whether a text names a file. Text with white space does so only by an
/// explicit root or by a slash in its first word.
pub open spec fn is_path(value: Seq<char>) -> bool {
    if exists|i: int| 0 <= i < value.len() && white_space(#[trigger] value[i]) {
        rooted(value) || (words(value).len() > 0 && words(value)[0].contains('/'))
    } else {
        value.len() > 0 && (rooted(value) || value.contains('/') || regex_matches(
            FILE_LOCATION@,
            value,
        ))
    }
}

fn has_root(value: &str) -> (result: bool)
    ensures
        result == rooted(value@),
{
    starts_with(value, "/") || starts_with(value, "~/") || starts_with(value, "$HOME/")
        || starts_with(value, "${HOME}/") || starts_with(value, "./") || starts_with(value, "../")
}

fn has_blank(value: &str) -> (result: bool)
    ensures
        result == exists|i: int| 0 <= i < value@.len() && white_space(#[trigger] value@[i]),
{
    let chars = chars_of(value);
    let mut i: usize = 0;
    while i < chars.len()
        invariant
            i <= chars.len(),
            chars@ == value@,
            forall|j: int| 0 <= j < i ==> !white_space(#[trigger] chars@[j]),
        decreases chars.len() - i,
    {
        if is_blank(chars[i]) {
            assert(white_space(value@[i as int]));
            return true;
        }
        i = i + 1;
    }
    false
}

/// Whether a text names a file.
pub fn path_like(value: &str) -> (result: bool)
    ensures
        result == is_path(value@),
{
    if value.is_empty() {
        return false;
    }
    if has_blank(value) {
        if has_root(value) {
            return true;
        }
        let parts = words_of(value);
        if parts.len() == 0 {
            assert(words(value@).len() == 0) by {
                assert(texts(parts@).len() == 0);
            }
            return false;
        }
        assert(words(value@)[0] == texts(parts@)[0]);
        return contains_char(parts[0], '/');
    }
    has_root(value) || contains_char(value, '/') || is_match(FILE_LOCATION, value)
}

/// What surrounds a token in running text: quotes, brackets and trailing
/// punctuation.
pub open spec fn bare(token: Seq<char>) -> Seq<char> {
    trim_end_where(
        trim_start_where(trim_end_where(token, any_of(seq!['\r'])), any_of(openers())),
        any_of(closers()),
    )
}

/// What may precede a token.
pub open spec fn openers() -> Seq<char> {
    seq!['"', '\'', '`', '(', '[', '{', '<']
}

/// What may follow a token.
pub open spec fn closers() -> Seq<char> {
    seq!['"', '\'', '`', ')', ']', '}', '>', '.', ',', ';']
}

/// A token without what surrounds it in running text.
pub fn trim_token<'a>(token: &'a str) -> (result: &'a str)
    ensures
        result@ == bare(token@),
{
    let ends: Vec<char> = vec!['\r'];
    let opening: Vec<char> = vec!['"', '\'', '`', '(', '[', '{', '<'];
    let closing: Vec<char> = vec!['"', '\'', '`', ')', ']', '}', '>', '.', ',', ';'];
    assert(ends@ =~= seq!['\r']);
    assert(opening@ =~= openers());
    assert(closing@ =~= closers());
    let token = trim_end_any(token, ends.as_slice());
    let token = trim_start_any(token, opening.as_slice());
    trim_end_any(token, closing.as_slice())
}

/// A text without any trailing repetition of `suffix`.
pub open spec fn without_suffixes(s: Seq<char>, suffix: Seq<char>) -> Seq<char>
    decreases s.len(),
{
    if suffix.len() > 0 && suffix.is_suffix_of(s) {
        without_suffixes(s.take(s.len() - suffix.len()), suffix)
    } else {
        s
    }
}

fn trim_suffixes<'a>(value: &'a str, suffix: &str) -> (result: &'a str)
    requires
        suffix@.len() > 0,
    ensures
        result@ == without_suffixes(value@, suffix@),
    decreases value@.len(),
{
    match strip_suffix(value, suffix) {
        Some(rest) => trim_suffixes(rest, suffix),
        None => value,
    }
}

/// The group at `i` of a match, where it took part.
pub open spec fn group(groups: Seq<Option<Seq<char>>>, i: int) -> Option<Seq<char>> {
    if 0 <= i < groups.len() {
        groups[i]
    } else {
        None
    }
}

/// The URL of a public resource that a token names, given what the patterns
/// made of the token: whether it is a local endpoint, whether it is a web
/// address, and the groups of a Git remote, a CVE and an RFC.
pub open spec fn public_address(
    token: Seq<char>,
    local: bool,
    web: bool,
    git: Option<Seq<Option<Seq<char>>>>,
    cve: Option<Seq<Option<Seq<char>>>>,
    rfc: Option<Seq<Option<Seq<char>>>>,
) -> Option<Seq<char>> {
    if local {
        Some("http://"@ + token)
    } else if web {
        Some("https://"@ + token)
    } else if git is Some {
        match (group(git->0, 1), group(git->0, 2)) {
            (Some(host), Some(path)) => Some(
                "https://"@ + host + "/"@ + without_suffixes(path, ".git"@),
            ),
            _ => None,
        }
    } else if cve is Some {
        match (group(cve->0, 1), group(cve->0, 2)) {
            (Some(year), Some(number)) => Some(
                "https://www.cve.org/CVERecord?id=CVE-"@ + year + "-"@ + number,
            ),
            _ => None,
        }
    } else if rfc is Some {
        match group(rfc->0, 1) {
            Some(number) => Some("https://www.rfc-editor.org/rfc/rfc"@ + number),
            None => None,
        }
    } else {
        None
    }
}

/// The URL of a public resource that a token names.
pub open spec fn public_address_of(token: Seq<char>) -> Option<Seq<char>> {
    public_address(
        token,
        regex_matches(LOCAL_ENDPOINT@, token),
        regex_matches(SCHEMELESS_WEB@, token),
        regex_groups(GIT_REMOTE@, token),
        regex_groups(CVE@, token),
        regex_groups(RFC@, token),
    )
}

/// The groups that an optional match holds.
pub open spec fn match_groups(found: Option<Vec<Option<String>>>) -> Option<
    Seq<Option<Seq<char>>>,
> {
    match found {
        Some(groups) => Some(group_texts(groups@)),
        None => None,
    }
}

fn group_at<'a>(groups: &'a Vec<Option<String>>, i: usize) -> (text: Option<&'a str>)
    ensures
        match text {
            Some(text) => group(group_texts(groups@), i as int) == Some(text@),
            None => group(group_texts(groups@), i as int) is None,
        },
{
    if i < groups.len() {
        match &groups[i] {
            Some(text) => Some(text.as_str()),
            None => None,
        }
    } else {
        None
    }
}

/// The URL of a public resource, from what the patterns made of the token.
pub fn public_url_from(
    token: &str,
    local: bool,
    web: bool,
    git: &Option<Vec<Option<String>>>,
    cve: &Option<Vec<Option<String>>>,
    rfc: &Option<Vec<Option<String>>>,
) -> (url: Option<String>)
    ensures
        opt_text(url) == public_address(
            token@,
            local,
            web,
            match_groups(*git),
            match_groups(*cve),
            match_groups(*rfc),
        ),
{
    if local {
        let mut url = String::from_str("http://");
        url.append(token);
        return Some(url);
    }
    if web {
        let mut url = String::from_str("https://");
        url.append(token);
        return Some(url);
    }
    if let Some(groups) = git {
        if let Some(host) = group_at(groups, 1) {
            if let Some(path) = group_at(groups, 2) {
                let mut url = String::from_str("https://");
                url.append(host);
                url.append("/");
                proof {
                    reveal_strlit(".git");
                }
                url.append(trim_suffixes(path, ".git"));
                return Some(url);
            }
        }
        return None;
    }
    if let Some(groups) = cve {
        if let Some(year) = group_at(groups, 1) {
            if let Some(number) = group_at(groups, 2) {
                let mut url = String::from_str("https://www.cve.org/CVERecord?id=CVE-");
                url.append(year);
                url.append("-");
                url.append(number);
                return Some(url);
            }
        }
        return None;
    }
    if let Some(groups) = rfc {
        if let Some(number) = group_at(groups, 1) {
            let mut url = String::from_str("https://www.rfc-editor.org/rfc/rfc");
            url.append(number);
            return Some(url);
        }
    }
    None
}

/// The URL of a public resource that a token names.
pub fn public_url(token: &str) -> (url: Option<String>)
    ensures
        opt_text(url) == public_address_of(token@),
{
    public_url_from(
        token,
        is_match(LOCAL_ENDPOINT, token),
        is_match(SCHEMELESS_WEB, token),
        &captures(GIT_REMOTE, token),
        &captures(CVE, token),
        &captures(RFC, token),
    )
}

/// What one token denotes, where `extension` is what the installed detectors
/// make of it: a URL, then what a detector says, then a public resource, then
/// a path.
pub open spec fn token_verdict(token: Seq<char>, extension: Verdict) -> Verdict {
    if is_url(token) {
        Verdict::Settled(Some(Destination::Url(token)))
    } else {
        match extension {
            Verdict::Settled(None) => Verdict::Settled(
                match public_address_of(token) {
                    Some(url) => Some(Destination::Url(url)),
                    None => if is_path(token) {
                        Some(terminal_file(token))
                    } else {
                        None
                    },
                },
            ),
            decided => decided,
        }
    }
}

/// What a token found in running text denotes.
pub open spec fn token_target(detectors: Detectors, original: Seq<char>) -> Verdict {
    token_verdict(bare(original), detected(detectors, bare(original), original))
}

/// What a token found in running text denotes.
pub fn from_token(detectors: &Detectors, original: &str) -> (finding: Finding)
    ensures
        finding@ == token_target(*detectors, original@),
{
    let token = trim_token(original);
    if url_like(token) {
        return Finding::Settled(Some(Target::Url(String::from_str(token))));
    }
    match extension_target(detectors, token, original) {
        Finding::Settled(None) => {},
        decided => {
            return decided;
        },
    }
    if let Some(url) = public_url(token) {
        return Finding::Settled(Some(Target::Url(url)));
    }
    if path_like(token) {
        return Finding::Settled(Some(local_file(String::from_str(token))));
    }
    Finding::Settled(None)
}

/// The characters that quote a token.
pub open spec fn is_quote(c: char) -> bool {
    c == '\'' || c == '"' || c == '`'
}

/// Where the token that starts at `start` ends: after the closing quote of a
/// quoted token, else before the next white space, else at the end.
pub open spec fn token_end(s: Seq<char>, start: int) -> int {
    if is_quote(s[start]) {
        let close = start + 1 + first_where(s.skip(start + 1), just(s[start]));
        if close < s.len() {
            close + 1
        } else {
            s.len() as int
        }
    } else {
        start + first_where(s.skip(start), blank())
    }
}

/// The tokens of a line from position `at` on, as half-open ranges.
pub open spec fn ranges_from(s: Seq<char>, at: int) -> Seq<(int, int)>
    decreases s.len() - at,
{
    let start = at + first_where(s.skip(at), ink());
    if 0 <= at <= start < s.len() && start < token_end(s, start) <= s.len() {
        seq![(start, token_end(s, start))] + ranges_from(s, token_end(s, start))
    } else {
        Seq::empty()
    }
}

/// The pairs of positions that pairs of machine integers hold.
pub open spec fn positions(ranges: Seq<(usize, usize)>) -> Seq<(int, int)> {
    Seq::new(ranges.len(), |i: int| (ranges[i].0 as int, ranges[i].1 as int))
}

/// A token is not empty and lies within its line.
pub proof fn lemma_token_end(s: Seq<char>, start: int)
    requires
        0 <= start < s.len(),
        !white_space(s[start]),
    ensures
        start < token_end(s, start) <= s.len(),
{
    if is_quote(s[start]) {
        lemma_first_where_props(s.skip(start + 1), just(s[start]));
    } else {
        lemma_first_where_props(s.skip(start), blank());
        assert(s.skip(start)[0] == s[start]);
    }
}

/// The tokens of a line: in order, apart from each other, none empty, each
/// beginning with a character that is not white space.
pub proof fn lemma_ranges_ordered(s: Seq<char>, at: int)
    requires
        0 <= at <= s.len(),
    ensures
        ({
            let ranges = ranges_from(s, at);
            &&& forall|i: int|
                0 <= i < ranges.len() ==> at <= (#[trigger] ranges[i]).0 < ranges[i].1 <= s.len()
                    && !white_space(s[ranges[i].0])
            &&& forall|i: int, j: int|
                0 <= i < j < ranges.len() ==> (#[trigger] ranges[i]).1 <= (#[trigger] ranges[j]).0
        }),
    decreases s.len() - at,
{
    let start = at + first_where(s.skip(at), ink());
    lemma_first_where_props(s.skip(at), ink());
    if start < s.len() {
        assert(s.skip(at)[start - at] == s[start]);
        lemma_token_end(s, start);
        lemma_ranges_ordered(s, token_end(s, start));
        let rest = ranges_from(s, token_end(s, start));
        let ranges = ranges_from(s, at);
        assert(ranges =~= seq![(start, token_end(s, start))] + rest);
        assert forall|i: int| 0 <= i < ranges.len() implies at <= (#[trigger] ranges[i]).0
            < ranges[i].1 <= s.len() && !white_space(s[ranges[i].0]) by {
            if i > 0 {
                assert(ranges[i] == rest[i - 1]);
            }
        }
        assert forall|i: int, j: int| 0 <= i < j < ranges.len() implies (#[trigger] ranges[i]).1
            <= (#[trigger] ranges[j]).0 by {
            assert(ranges[j] == rest[j - 1]);
            if i > 0 {
                assert(ranges[i] == rest[i - 1]);
            }
        }
    }
}

/// Every character of a line that is not white space lies in some token.
pub proof fn lemma_ranges_cover(s: Seq<char>, at: int, x: int)
    requires
        0 <= at <= x < s.len(),
        !white_space(s[x]),
    ensures
        exists|i: int|
            0 <= i < ranges_from(s, at).len() && (#[trigger] ranges_from(s, at)[i]).0 <= x
                < ranges_from(s, at)[i].1,
    decreases s.len() - at,
{
    let start = at + first_where(s.skip(at), ink());
    lemma_first_where_props(s.skip(at), ink());
    if start > x {
        assert(!ink()(s.skip(at)[x - at]));
    }
    assert(s.skip(at)[start - at] == s[start]);
    lemma_token_end(s, start);
    let end = token_end(s, start);
    let rest = ranges_from(s, end);
    let ranges = ranges_from(s, at);
    assert(ranges =~= seq![(start, end)] + rest);
    if x < end {
        assert(ranges[0].0 <= x < ranges[0].1);
    } else {
        lemma_ranges_cover(s, end, x);
        let i = choose|i: int| 0 <= i < rest.len() && (#[trigger] rest[i]).0 <= x < rest[i].1;
        assert(ranges[i + 1] == rest[i]);
    }
}

/// The tokens of a line, as half-open ranges counted in characters.
pub fn token_ranges(line: &str) -> (ranges: Vec<(usize, usize)>)
    ensures
        positions(ranges@) == ranges_from(line@, 0),
{
    let chars = chars_of(line);
    let mut ranges: Vec<(usize, usize)> = Vec::new();
    let mut at: usize = 0;
    assert(positions(ranges@) + ranges_from(line@, 0) =~= ranges_from(line@, 0));
    loop
        invariant
            at <= chars.len(),
            chars@ == line@,
            positions(ranges@) + ranges_from(line@, at as int) == ranges_from(line@, 0),
        decreases chars.len() - at,
    {
        let mut start: usize = at;
        while start < chars.len() && is_blank(chars[start])
            invariant
                at <= start <= chars.len(),
                chars@ == line@,
                forall|j: int| at <= j < start ==> white_space(#[trigger] chars@[j]),
            decreases chars.len() - start,
        {
            start = start + 1;
        }
        proof {
            let rest = line@.skip(at as int);
            assert forall|j: int| 0 <= j < start - at implies !ink()(#[trigger] rest[j]) by {
                assert(white_space(chars@[j + at]));
            }
            lemma_first_where(rest, ink(), start - at);
        }
        if start == chars.len() {
            assert(positions(ranges@) =~= positions(ranges@) + ranges_from(line@, at as int));
            return ranges;
        }
        let end = end_of_token(&chars, start);
        proof {
            lemma_token_end(line@, start as int);
        }
        let ghost before = ranges@;
        ranges.push((start, end));
        assert(positions(ranges@) + ranges_from(line@, end as int) =~= positions(before)
            + ranges_from(line@, at as int));
        at = end;
    }
}

fn end_of_token(chars: &Vec<char>, start: usize) -> (end: usize)
    requires
        start < chars.len(),
        !white_space(chars@[start as int]),
    ensures
        end == token_end(chars@, start as int),
{
    let quote = chars[start];
    if quote == '\'' || quote == '"' || quote == '`' {
        let mut i: usize = start + 1;
        while i < chars.len() && chars[i] != quote
            invariant
                start + 1 <= i <= chars.len(),
                forall|j: int| start < j < i ==> #[trigger] chars@[j] != quote,
            decreases chars.len() - i,
        {
            i = i + 1;
        }
        proof {
            let rest = chars@.skip(start + 1);
            assert forall|j: int| 0 <= j < i - start - 1 implies !just(quote)(
                #[trigger] rest[j],
            ) by {
                assert(chars@[j + start + 1] != quote);
            }
            lemma_first_where(rest, just(quote), i - start - 1);
        }
        if i < chars.len() {
            i + 1
        } else {
            i
        }
    } else {
        let mut i: usize = start;
        while i < chars.len() && !is_blank(chars[i])
            invariant
                start <= i <= chars.len(),
                forall|j: int| start <= j < i ==> !white_space(#[trigger] chars@[j]),
            decreases chars.len() - i,
        {
            i = i + 1;
        }
        proof {
            let rest = chars@.skip(start as int);
            assert forall|j: int| 0 <= j < i - start implies !blank()(#[trigger] rest[j]) by {
                assert(!white_space(chars@[j + start]));
            }
            lemma_first_where(rest, blank(), i - start);
        }
        i
    }
}

/// How many leading characters of a text fit into its first `bytes` bytes of
/// UTF-8.
pub open spec fn chars_within(s: Seq<char>, bytes: int) -> int
    decreases s.len(),
{
    if s.len() > 0 && encode_scalar(s[0] as u32).len() <= bytes {
        1 + chars_within(s.drop_first(), bytes - encode_scalar(s[0] as u32).len())
    } else {
        0
    }
}

proof fn lemma_chars_within(s: Seq<char>, bytes: int)
    ensures
        0 <= chars_within(s, bytes) <= s.len(),
    decreases s.len(),
{
    if s.len() > 0 && encode_scalar(s[0] as u32).len() <= bytes {
        lemma_chars_within(s.drop_first(), bytes - encode_scalar(s[0] as u32).len());
    }
}

fn utf8_width(c: char) -> (width: usize)
    ensures
        width == encode_scalar(c as u32).len(),
        1 <= width <= 4,
{
    proof {
        char_is_scalar(c);
    }
    let code: u32 = c as u32;
    if code <= 0x7f {
        1
    } else if code <= 0x7ff {
        2
    } else if code <= 0xffff {
        3
    } else {
        4
    }
}

fn count_chars_within(chars: &Vec<char>, bytes: usize) -> (count: usize)
    ensures
        count == chars_within(chars@, bytes as int),
        count <= chars@.len(),
{
    let mut i: usize = 0;
    let mut left: usize = bytes;
    assert(chars@.skip(0) =~= chars@);
    while i < chars.len()
        invariant
            i <= chars.len(),
            chars_within(chars@, bytes as int) == i + chars_within(
                chars@.skip(i as int),
                left as int,
            ),
        decreases chars.len() - i,
    {
        let width = utf8_width(chars[i]);
        assert(chars@.skip(i as int)[0] == chars@[i as int]);
        assert(chars@.skip(i as int).drop_first() =~= chars@.skip(i + 1));
        if width > left {
            return i;
        }
        left = left - width;
        i = i + 1;
    }
    i
}

/// Whether a character continues a word, so that what touches it is no
/// reference of its own.
pub open spec fn word_char(c: char) -> bool {
    unicode_alphanumeric(c) || c == '_'
}

/// The span of a group of a match, where it took part.
pub open spec fn span(groups: Seq<Option<(int, Seq<char>)>>, i: int) -> Option<(int, Seq<char>)> {
    if 0 <= i < groups.len() {
        groups[i]
    } else {
        None
    }
}

/// Whether the reference of `length` characters at `start` stands alone in the
/// line and lies under position `x`.
pub open spec fn clicked_alone(line: Seq<char>, start: int, length: int, x: int) -> bool {
    &&& start <= x < start + length
    &&& !(start > 0 && word_char(line[start - 1]))
    &&& !(start + length < line.len() && word_char(line[start + length]))
}

/// The URL of the RFC under position `x`, from the matches of the spaced form
/// in the line: the first that stands alone under the pointer.
pub open spec fn spaced_reference(
    line: Seq<char>,
    x: int,
    matches: Seq<Seq<Option<(int, Seq<char>)>>>,
) -> Option<Seq<char>>
    decreases matches.len(),
{
    if matches.len() == 0 {
        None
    } else {
        match span(matches[0], 1) {
            None => None,
            Some((offset, whole)) => if clicked_alone(
                line,
                chars_within(line, offset),
                whole.len() as int,
                x,
            ) {
                match span(matches[0], 2) {
                    Some((_, number)) => Some("https://www.rfc-editor.org/rfc/rfc"@ + number),
                    None => None,
                }
            } else {
                spaced_reference(line, x, matches.drop_first())
            },
        }
    }
}

/// The matches that vectors of groups hold.
pub open spec fn match_spans(matches: Seq<Vec<Option<(usize, String)>>>) -> Seq<
    Seq<Option<(int, Seq<char>)>>,
> {
    Seq::new(matches.len(), |i: int| group_spans(matches[i]@))
}

fn span_at<'a>(groups: &'a Vec<Option<(usize, String)>>, i: usize) -> (found: Option<
    (usize, &'a str),
>)
    ensures
        match found {
            Some((start, text)) => span(group_spans(groups@), i as int) == Some(
                (start as int, text@),
            ),
            None => span(group_spans(groups@), i as int) is None,
        },
{
    if i < groups.len() {
        match &groups[i] {
            Some((start, text)) => Some((*start, text.as_str())),
            None => None,
        }
    } else {
        None
    }
}

fn continues_word(c: char) -> (result: bool)
    ensures
        result == word_char(c),
{
    c.is_alphanumeric() || c == '_'
}

/// The URL of the RFC under position `x`, from the matches of the spaced form.
pub fn spaced_rfc_from(line: &str, x: usize, matches: &Vec<Vec<Option<(usize, String)>>>) -> (url:
    Option<String>)
    ensures
        opt_text(url) == spaced_reference(line@, x as int, match_spans(matches@)),
{
    let chars = chars_of(line);
    let mut i: usize = 0;
    let ghost all = match_spans(matches@);
    assert(all.skip(0) =~= all);
    while i < matches.len()
        invariant
            i <= matches.len(),
            chars@ == line@,
            all == match_spans(matches@),
            spaced_reference(line@, x as int, all) == spaced_reference(
                line@,
                x as int,
                all.skip(i as int),
            ),
        decreases matches.len() - i,
    {
        let groups = &matches[i];
        assert(all.skip(i as int)[0] == group_spans(groups@));
        assert(all.skip(i as int).drop_first() =~= all.skip(i + 1));
        match span_at(groups, 1) {
            None => {
                return None;
            },
            Some((offset, whole)) => {
                let start = count_chars_within(&chars, offset);
                let length: usize = whole.unicode_len();
                let room: usize = chars.len() - start;
                let touched = (start > 0 && continues_word(chars[start - 1])) || (length < room
                    && continues_word(chars[start + length]));
                if !touched && start <= x && x - start < length {
                    return match span_at(groups, 2) {
                        Some((_, number)) => {
                            let mut url = String::from_str("https://www.rfc-editor.org/rfc/rfc");
                            url.append(number);
                            Some(url)
                        },
                        None => None,
                    };
                }
            },
        }
        i = i + 1;
    }
    assert(all.skip(i as int) =~= Seq::empty());
    None
}

/// The URL of the RFC under position `x`, written with a gap.
pub fn spaced_rfc(line: &str, x: usize) -> (url: Option<String>)
    ensures
        opt_text(url) == spaced_reference(
            line@,
            x as int,
            regex_all_groups(SPACED_RFC@, line@),
        ),
{
    let matches = captures_all(SPACED_RFC, line);
    assert(match_spans(matches@) =~= regex_all_groups(SPACED_RFC@, line@));
    spaced_rfc_from(line, x, &matches)
}

/// The first range from index `i` on that holds position `x`.
pub open spec fn covering(ranges: Seq<(int, int)>, x: int, i: int) -> Option<int>
    decreases ranges.len() - i,
{
    if 0 <= i < ranges.len() {
        if ranges[i].0 <= x < ranges[i].1 {
            Some(i)
        } else {
            covering(ranges, x, i + 1)
        }
    } else {
        None
    }
}

fn find_covering(ranges: &Vec<(usize, usize)>, x: usize) -> (index: Option<usize>)
    ensures
        match index {
            Some(i) => i < ranges@.len() && covering(positions(ranges@), x as int, 0) == Some(
                i as int,
            ) && ranges@[i as int].0 <= x < ranges@[i as int].1,
            None => covering(positions(ranges@), x as int, 0) is None,
        },
{
    let mut i: usize = 0;
    while i < ranges.len()
        invariant
            i <= ranges.len(),
            covering(positions(ranges@), x as int, 0) == covering(
                positions(ranges@),
                x as int,
                i as int,
            ),
        decreases ranges.len() - i,
    {
        if ranges[i].0 <= x && x < ranges[i].1 {
            return Some(i);
        }
        i = i + 1;
    }
    None
}

/// The text from the start of one token to the end of another.
pub open spec fn stretch(s: Seq<char>, ranges: Seq<(int, int)>, first: int, last: int) -> Seq<
    char,
> {
    s.subrange(ranges[first].0, ranges[last].1)
}

/// The widest stretch of tokens around `clicked` that names a path: the
/// earliest start, then the latest end, searched from `(first, last)` on.
pub open spec fn widest_path(
    s: Seq<char>,
    ranges: Seq<(int, int)>,
    clicked: int,
    first: int,
    last: int,
) -> Option<Seq<char>>
    decreases clicked + 1 - first, last + 1,
{
    if first > clicked || ranges.len() == 0 {
        None
    } else if last < clicked || last < 0 {
        widest_path(s, ranges, clicked, first + 1, ranges.len() - 1)
    } else if is_path(bare(stretch(s, ranges, first, last))) {
        Some(stretch(s, ranges, first, last))
    } else {
        widest_path(s, ranges, clicked, first, last - 1)
    }
}

/// What the part of a quoted token under position `x` denotes.
pub open spec fn embedded_target(detectors: Detectors, token: Seq<char>, x: int) -> Verdict {
    let ranges = ranges_from(token, 0);
    match covering(ranges, x, 0) {
        None => Verdict::Settled(None),
        Some(clicked) => match widest_path(token, ranges, clicked, 0, ranges.len() - 1) {
            Some(candidate) => token_target(detectors, candidate),
            None => token_target(detectors, stretch(token, ranges, clicked, clicked)),
        },
    }
}

/// What the part of a quoted token under position `x` denotes.
pub fn from_embedded_token(detectors: &Detectors, token: &str, x: usize) -> (finding: Finding)
    ensures
        finding@ == embedded_target(*detectors, token@, x as int),
{
    let ranges = token_ranges(token);
    let ghost places = ranges_from(token@, 0);
    proof {
        lemma_ranges_ordered(token@, 0);
    }
    let clicked = match find_covering(&ranges, x) {
        Some(clicked) => clicked,
        None => {
            return Finding::Settled(None);
        },
    };
    let mut first: usize = 0;
    while first <= clicked
        invariant
            first <= clicked + 1,
            clicked < ranges@.len(),
            places == ranges_from(token@, 0),
            positions(ranges@) == places,
            covering(places, x as int, 0) == Some(clicked as int),
            forall|i: int|
                0 <= i < places.len() ==> 0 <= (#[trigger] places[i]).0 < places[i].1
                    <= token@.len(),
            forall|i: int, j: int|
                0 <= i < j < places.len() ==> (#[trigger] places[i]).1 <= (#[trigger] places[j]).0,
            widest_path(token@, places, clicked as int, 0, places.len() - 1) == widest_path(
                token@,
                places,
                clicked as int,
                first as int,
                places.len() - 1,
            ),
        decreases clicked + 1 - first,
    {
        let mut last: usize = ranges.len();
        while last > clicked
            invariant
                first <= clicked < last <= ranges@.len() || last == clicked,
                first <= clicked,
                clicked < ranges@.len(),
                places == ranges_from(token@, 0),
                positions(ranges@) == places,
                covering(places, x as int, 0) == Some(clicked as int),
                forall|i: int|
                    0 <= i < places.len() ==> 0 <= (#[trigger] places[i]).0 < places[i].1
                        <= token@.len(),
                forall|i: int, j: int|
                    0 <= i < j < places.len() ==> (#[trigger] places[i]).1 <= (
                    #[trigger] places[j]).0,
                widest_path(token@, places, clicked as int, 0, places.len() - 1) == widest_path(
                    token@,
                    places,
                    clicked as int,
                    first as int,
                    last - 1,
                ),
            decreases last,
        {
            last = last - 1;
            assert(places[first as int].0 <= places[last as int].1);
            let candidate = token.substring_char(ranges[first].0, ranges[last].1);
            assert(candidate@ == stretch(token@, places, first as int, last as int));
            if path_like(trim_token(candidate)) {
                return from_token(detectors, candidate);
            }
        }
        first = first + 1;
    }
    let word = token.substring_char(ranges[clicked].0, ranges[clicked].1);
    assert(word@ == stretch(token@, places, clicked as int, clicked as int));
    from_token(detectors, word)
}

/// What a line denotes at position `x`: a spaced RFC reference, else the token
/// under the position, else the part of that token under the position.
pub open spec fn line_target(detectors: Detectors, line: Seq<char>, x: int) -> Verdict {
    match spaced_reference(line, x, regex_all_groups(SPACED_RFC@, line)) {
        Some(url) => Verdict::Settled(Some(Destination::Url(url))),
        None => {
            let ranges = ranges_from(line, 0);
            match covering(ranges, x, 0) {
                None => Verdict::Settled(None),
                Some(i) => {
                    let token = stretch(line, ranges, i, i);
                    match token_target(detectors, token) {
                        Verdict::Settled(None) => embedded_target(
                            detectors,
                            token,
                            x - ranges[i].0,
                        ),
                        decided => decided,
                    }
                },
            }
        },
    }
}

/// What a line denotes at position `x`.
pub fn from_line(detectors: &Detectors, line: &str, x: usize) -> (finding: Finding)
    ensures
        finding@ == line_target(*detectors, line@, x as int),
{
    if let Some(url) = spaced_rfc(line, x) {
        return Finding::Settled(Some(Target::Url(url)));
    }
    let ranges = token_ranges(line);
    proof {
        lemma_ranges_ordered(line@, 0);
    }
    match find_covering(&ranges, x) {
        None => Finding::Settled(None),
        Some(i) => {
            assert(positions(ranges@)[i as int] == ranges_from(line@, 0)[i as int]);
            let token = line.substring_char(ranges[i].0, ranges[i].1);
            match from_token(detectors, token) {
                Finding::Settled(None) => from_embedded_token(detectors, token, x - ranges[i].0),
                decided => decided,
            }
        },
    }
}

} // verus!
