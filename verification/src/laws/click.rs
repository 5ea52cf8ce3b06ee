//! What a clicked text denotes.

use vstd::prelude::*;
use vstd::string::*;

use crate::click::tokens::{
    bare, closers, from_token, is_path, is_url, openers, path_like, public_address_of,
    public_url_from, rooted, token_target, url_like, without_suffixes,
};
use crate::click::{detected, Destination, Detectors, Finding, Verdict};
use crate::laws::text::{lemma_cut, lemma_cut_at, lemma_words_first};
use crate::patterns::regex_matches;
use crate::text::{any_of, cut, lowered, opt_text, trim_end_where, trim_start_where, white_space};

verus! {

/// Text that is all ink.
pub open spec fn unbroken(s: Seq<char>) -> bool {
    forall|i: int| 0 <= i < s.len() ==> !white_space(#[trigger] s[i])
}

/// A token of a file name, an extension and a line number, such as
/// `main.rs:12`, opens that file, with exactly that text, where nothing that
/// comes first knows it: it is no URL, no detector recognises it, and it is no
/// public reference.
pub proof fn lemma_file_location_is_a_file(
    detectors: Detectors,
    original: &str,
    finding: Finding,
)
    requires
        call_ensures(from_token, (&detectors, original), finding),
        bare(original@).len() > 0,
        unbroken(bare(original@)),
        regex_matches(
            r"^[^/[:space:]]+\.[-A-Za-z0-9_+]+:[0-9]+(:[0-9]+)?$"@,
            bare(original@),
        ),
        !is_url(bare(original@)),
        detected(detectors, bare(original@), original@) == Verdict::Settled(None),
        public_address_of(bare(original@)) is None,
    ensures
        finding@ == Verdict::Settled(
            Some(
                Destination::File {
                    target: bare(original@),
                    source: "terminal"@,
                    context: Seq::empty(),
                },
            ),
        ),
{
}

/// Text without white space is a path just where it holds a slash or is a file
/// name with an extension and a line number; the empty text is none.
pub proof fn lemma_unbroken_paths(value: &str, result: bool)
    requires
        call_ensures(path_like, (value,), result),
        unbroken(value@),
    ensures
        result <==> value@.len() > 0 && (value@.contains('/') || regex_matches(
            r"^[^/[:space:]]+\.[-A-Za-z0-9_+]+:[0-9]+(:[0-9]+)?$"@,
            value@,
        )),
{
    lemma_rooted(value@);
    if rooted(value@) {
        let k: int = if value@[0] == '/' {
            0
        } else if value@[1] == '/' {
            1
        } else if value@[2] == '/' {
            2
        } else if value@[5] == '/' {
            5
        } else {
            7
        };
        assert(value@[k] == '/');
    }
}

/// The beginnings of an explicit path.
pub open spec fn explicit(s: Seq<char>) -> bool {
    ||| s.len() >= 1 && s[0] == '/'
    ||| s.len() >= 2 && s[0] == '~' && s[1] == '/'
    ||| s.len() >= 2 && s[0] == '.' && s[1] == '/'
    ||| s.len() >= 3 && s[0] == '.' && s[1] == '.' && s[2] == '/'
    ||| s.len() >= 6 && s.take(6) == seq!['$', 'H', 'O', 'M', 'E', '/']
    ||| s.len() >= 8 && s.take(8) == seq!['$', '{', 'H', 'O', 'M', 'E', '}', '/']
}

proof fn lemma_rooted(s: Seq<char>)
    ensures
        rooted(s) <==> explicit(s),
        rooted(s) ==> s.len() > 0 && (s[0] == '/' || s.len() > 1 && s[1] == '/' || s.len() > 2
            && s[2] == '/' || s.len() > 5 && s[5] == '/' || s.len() > 7 && s[7] == '/'),
{
    reveal_strlit("/");
    reveal_strlit("~/");
    reveal_strlit("./");
    reveal_strlit("../");
    reveal_strlit("$HOME/");
    reveal_strlit("${HOME}/");
    assert("/"@ =~= seq!['/']);
    assert("~/"@ =~= seq!['~', '/']);
    assert("./"@ =~= seq!['.', '/']);
    assert("../"@ =~= seq!['.', '.', '/']);
    assert("$HOME/"@ =~= seq!['$', 'H', 'O', 'M', 'E', '/']);
    assert("${HOME}/"@ =~= seq!['$', '{', 'H', 'O', 'M', 'E', '}', '/']);
    if s.len() >= 1 {
        assert(s.subrange(0, 1) =~= seq![s[0]]);
        assert("/"@ == s.subrange(0, 1) <==> s[0] == '/') by {
            assert("/"@[0] == '/');
        }
    }
    if s.len() >= 2 {
        assert(s.subrange(0, 2) =~= seq![s[0], s[1]]);
        assert("~/"@[0] == '~' && "~/"@[1] == '/');
        assert("./"@[0] == '.' && "./"@[1] == '/');
        assert(seq![s[0], s[1]][0] == s[0] && seq![s[0], s[1]][1] == s[1]);
    }
    if s.len() >= 3 {
        assert(s.subrange(0, 3) =~= seq![s[0], s[1], s[2]]);
        assert("../"@[0] == '.' && "../"@[1] == '.' && "../"@[2] == '/');
        let t = seq![s[0], s[1], s[2]];
        assert(t[0] == s[0] && t[1] == s[1] && t[2] == s[2]);
    }
    if s.len() >= 6 {
        assert(s.subrange(0, 6) =~= s.take(6));
        assert("$HOME/"@[5] == '/');
    }
    if s.len() >= 8 {
        assert(s.subrange(0, 8) =~= s.take(8));
        assert("${HOME}/"@[7] == '/');
    }
}

/// Text with white space is a path just where it begins as an explicit path
/// does, or where its first word holds a slash.
pub proof fn lemma_broken_paths(
    gap: Seq<char>,
    word: Seq<char>,
    rest: Seq<char>,
    value: &str,
    result: bool,
)
    requires
        call_ensures(path_like, (value,), result),
        value@ == gap + word + rest,
        forall|i: int| 0 <= i < gap.len() ==> white_space(#[trigger] gap[i]),
        unbroken(word) && word.len() > 0,
        rest.len() > 0 ==> white_space(rest[0]),
        gap.len() > 0 || rest.len() > 0,
    ensures
        result <==> explicit(value@) || word.contains('/'),
{
    lemma_words_first(gap, word, rest);
    lemma_rooted(value@);
    if gap.len() > 0 {
        assert(white_space(gap[0]));
        assert(white_space(value@[0]));
    } else {
        assert(white_space(value@[word.len() as int]));
    }
}

/// A text is a URL by the scheme before its first colon, in any case: the web's
/// schemes make one whatever follows, those of files and editors never do, and
/// any other does where an authority follows. Without a colon there is none.
pub proof fn lemma_urls(scheme: Seq<char>, rest: Seq<char>, value: &str, result: bool)
    requires
        call_ensures(url_like, (value,), result),
        !scheme.contains(':'),
        value@ == scheme + seq![':'] + rest || value@ == scheme,
    ensures
        value@ == scheme ==> !result,
        value@ != scheme && (lowered(scheme) == "http"@ || lowered(scheme) == "https"@ || lowered(
            scheme,
        ) == "ftp"@ || lowered(scheme) == "mailto"@) ==> result,
        lowered(scheme) == "file"@ || lowered(scheme) == "nvim-open"@ || lowered(scheme)
            == "nvim-remote"@ || lowered(scheme) == "lazygit-edit"@ ==> !result,
        value@ != scheme && lowered(scheme) != "http"@ && lowered(scheme) != "https"@ && lowered(
            scheme,
        ) != "ftp"@ && lowered(scheme) != "mailto"@ && lowered(scheme) != "file"@ && lowered(
            scheme,
        ) != "nvim-open"@ && lowered(scheme) != "nvim-remote"@ && lowered(scheme)
            != "lazygit-edit"@ ==> result == regex_matches(
            r"(?i)^[a-z][a-z0-9+.-]*://"@,
            value@,
        ),
{
    reveal_strlit("http");
    reveal_strlit("https");
    reveal_strlit("ftp");
    reveal_strlit("mailto");
    reveal_strlit("file");
    reveal_strlit("nvim-open");
    reveal_strlit("nvim-remote");
    reveal_strlit("lazygit-edit");
    assert("http"@.len() == 4 && "http"@[0] == 'h');
    assert("https"@.len() == 5);
    assert("ftp"@.len() == 3);
    assert("mailto"@.len() == 6);
    assert("file"@.len() == 4 && "file"@[0] == 'f');
    assert("nvim-open"@.len() == 9);
    assert("nvim-remote"@.len() == 11);
    assert("lazygit-edit"@.len() == 12);
    lemma_cut_at(scheme, ':', rest);
    if value@ == scheme {
        lemma_cut(scheme, ':');
        match cut(scheme, ':') {
            Some((before, after)) => {
                assert(scheme[before.len() as int] == ':');
            },
            None => {},
        }
    }
}

/// The patterns of the public references: a local endpoint, a web address
/// without a scheme, a Git remote, a CVE and an RFC.
pub proof fn lemma_public_patterns(token: Seq<char>)
    requires
        crate::patterns::regex_groups(
            r"^git@(github\.com|gitlab\.com|bitbucket\.org):([A-Za-z0-9_.-]+(/[A-Za-z0-9_.-]+)+)(\.git)?$"@,
            token,
        ) is None,
        crate::patterns::regex_groups(r"(?i)^CVE-([0-9]{4})-([0-9]{4,})$"@, token) is None,
        crate::patterns::regex_groups(r"(?i)^RFC-?([0-9]{3,5})$"@, token) is None,
    ensures
        public_address_of(token) == if regex_matches(
            r"^(localhost|host\.docker\.internal|127(\.[0-9]{1,3}){3}|10(\.[0-9]{1,3}){3}|192\.168(\.[0-9]{1,3}){2}|172\.(1[6-9]|2[0-9]|3[01])(\.[0-9]{1,3}){2}|0\.0\.0\.0|\[::1\]):[0-9]{2,5}($|[/?#])"@,
            token,
        ) {
            Some("http://"@ + token)
        } else if regex_matches(
            r"(?i)^(www\.([a-z0-9-]+\.)+[a-z]{2,}(:[0-9]{2,5})?($|[/?#])|([a-z0-9-]+\.)+[a-z]{2,}(:[0-9]{2,5})?/)"@,
            token,
        ) {
            Some("https://"@ + token)
        } else {
            None
        },
{
}

/// The optional text at an index.
pub open spec fn part(groups: Option<Vec<Option<String>>>, i: int) -> Option<Seq<char>> {
    match groups {
        Some(groups) => if 0 <= i < groups@.len() {
            opt_text(groups@[i])
        } else {
            None
        },
        None => None,
    }
}

/// The address of a public reference, by the first pattern that knows it: local
/// endpoints are plain HTTP and web addresses HTTPS; a Git remote is the page of
/// its repository, a CVE its record and an RFC its text.
pub proof fn lemma_public_addresses(
    token: &str,
    local: bool,
    web: bool,
    git: Option<Vec<Option<String>>>,
    cve: Option<Vec<Option<String>>>,
    rfc: Option<Vec<Option<String>>>,
    url: Option<String>,
)
    requires
        call_ensures(public_url_from, (token, local, web, &git, &cve, &rfc), url),
    ensures
        local ==> opt_text(url) == Some("http://"@ + token@),
        !local && web ==> opt_text(url) == Some("https://"@ + token@),
        !local && !web && part(git, 1) is Some && part(git, 2) is Some ==> opt_text(url) == Some(
            "https://"@ + part(git, 1)->0 + "/"@ + without_suffixes(part(git, 2)->0, ".git"@),
        ),
        !local && !web && git is None && part(cve, 1) is Some && part(cve, 2) is Some ==> opt_text(
            url,
        ) == Some(
            "https://www.cve.org/CVERecord?id=CVE-"@ + part(cve, 1)->0 + "-"@ + part(cve, 2)->0,
        ),
        !local && !web && git is None && cve is None && part(rfc, 1) is Some ==> opt_text(url)
            == Some("https://www.rfc-editor.org/rfc/rfc"@ + part(rfc, 1)->0),
        !local && !web && git is None && cve is None && part(rfc, 1) is None ==> url is None,
{
}

/// A suffix is dropped as often as it stands at the end, and only there.
pub proof fn lemma_suffixes_go(s: Seq<char>, suffix: Seq<char>)
    requires
        suffix.len() > 0,
    ensures
        without_suffixes(s + suffix, suffix) == without_suffixes(s, suffix),
        !suffix.is_suffix_of(s) ==> without_suffixes(s, suffix) == s,
{
    let whole = s + suffix;
    assert(whole.take(whole.len() - suffix.len()) =~= s);
    assert(suffix =~= whole.subrange(whole.len() - suffix.len(), whole.len() as int));
}

proof fn lemma_front(before: Seq<char>, s: Seq<char>, class: spec_fn(char) -> bool)
    requires
        forall|i: int| 0 <= i < before.len() ==> class(#[trigger] before[i]),
        s.len() > 0 ==> !class(s[0]),
    ensures
        trim_start_where(before + s, class) == s,
    decreases before.len(),
{
    let whole = before + s;
    if before.len() == 0 {
        assert(whole =~= s);
    } else {
        assert(whole[0] == before[0]);
        assert(whole.drop_first() =~= before.drop_first() + s);
        lemma_front(before.drop_first(), s, class);
    }
}

proof fn lemma_back(s: Seq<char>, after: Seq<char>, class: spec_fn(char) -> bool)
    requires
        forall|i: int| 0 <= i < after.len() ==> class(#[trigger] after[i]),
        s.len() > 0 ==> !class(s.last()),
    ensures
        trim_end_where(s + after, class) == s,
    decreases after.len(),
{
    let whole = s + after;
    if after.len() == 0 {
        assert(whole =~= s);
    } else {
        assert(whole.last() == after.last());
        assert(whole.drop_last() =~= s + after.drop_last());
        lemma_back(s, after.drop_last(), class);
    }
}

/// What may open a token in running text.
pub open spec fn opens(c: char) -> bool {
    c == '"' || c == '\'' || c == '`' || c == '(' || c == '[' || c == '{' || c == '<'
}

/// What may close a token in running text.
pub open spec fn closes(c: char) -> bool {
    ||| c == '"' || c == '\'' || c == '`' || c == ')' || c == ']' || c == '}' || c == '>'
    ||| c == '.' || c == ',' || c == ';'
}

/// A token in running text is found within any quotes and brackets, trailing
/// punctuation and line ends, and nothing else is taken from it.
pub proof fn lemma_bare_token(
    before: Seq<char>,
    token: Seq<char>,
    after: Seq<char>,
    ends: Seq<char>,
)
    requires
        forall|i: int| 0 <= i < before.len() ==> opens(#[trigger] before[i]),
        forall|i: int| 0 <= i < after.len() ==> closes(#[trigger] after[i]),
        forall|i: int| 0 <= i < ends.len() ==> #[trigger] ends[i] == '\r',
        token.len() > 0,
        !opens(token[0]),
        !closes(token.last()) && token.last() != '\r',
    ensures
        bare(before + token + after + ends) == token,
{
    let front = before + token + after;
    let tail = token + after;
    let one = any_of(seq!['\r']);
    let opening = any_of(openers());
    let closing = any_of(closers());
    assert(seq!['\r'][0] == '\r');
    assert forall|c: char| #[trigger] one(c) <==> c == '\r' by {
        assert(seq!['\r'].contains(c) <==> c == '\r');
    }
    let o = openers();
    assert(o[0] == '"' && o[1] == '\'' && o[2] == '`' && o[3] == '(' && o[4] == '[' && o[5] == '{'
        && o[6] == '<');
    assert forall|c: char| #[trigger] opening(c) <==> opens(c) by {}
    let k = closers();
    assert(k[0] == '"' && k[1] == '\'' && k[2] == '`' && k[3] == ')' && k[4] == ']' && k[5] == '}'
        && k[6] == '>' && k[7] == '.' && k[8] == ',' && k[9] == ';');
    assert forall|c: char| #[trigger] closing(c) <==> closes(c) by {}
    assert(front.last() == if after.len() > 0 {
        after.last()
    } else {
        token.last()
    });
    lemma_back(front, ends, one);
    assert(front =~= before + tail);
    assert(tail[0] == token[0]);
    lemma_front(before, tail, opening);
    lemma_back(token, after, closing);
}

/// A URL is opened as it is. Of any other token the detectors decide first,
/// where they know it or have still to be asked; then the public references;
/// then the paths; and any other token denotes nothing.
pub proof fn lemma_token_precedence(detectors: Detectors, original: Seq<char>)
    ensures
        ({
            let token = bare(original);
            let asked = detected(detectors, token, original);
            let verdict = token_target(detectors, original);
            &&& is_url(token) ==> verdict == Verdict::Settled(Some(Destination::Url(token)))
            &&& !is_url(token) && asked != Verdict::Settled(None) ==> verdict == asked
            &&& !is_url(token) && asked == Verdict::Settled(None) && public_address_of(
                token,
            ) is Some ==> verdict == Verdict::Settled(
                Some(Destination::Url(public_address_of(token)->0)),
            )
            &&& !is_url(token) && asked == Verdict::Settled(None) && public_address_of(
                token,
            ) is None && is_path(token) ==> verdict == Verdict::Settled(
                Some(
                    Destination::File {
                        target: token,
                        source: "terminal"@,
                        context: Seq::empty(),
                    },
                ),
            )
            &&& !is_url(token) && asked == Verdict::Settled(None) && public_address_of(
                token,
            ) is None && !is_path(token) ==> verdict == Verdict::Settled(None)
        }),
{
}

} // verus!
