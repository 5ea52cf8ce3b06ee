//! The regular expressions that recognise click targets, and the calls into
//! the `regex` crate that evaluate them.

use regex::Regex;
use vstd::prelude::*;

verus! {

/// A URL of any scheme with an authority.
pub const GENERIC_URL: &'static str = r"(?i)^[a-z][a-z0-9+.-]*://";

/// A local development endpoint with a port.
pub const LOCAL_ENDPOINT: &'static str = r"^(localhost|host\.docker\.internal|127(\.[0-9]{1,3}){3}|10(\.[0-9]{1,3}){3}|192\.168(\.[0-9]{1,3}){2}|172\.(1[6-9]|2[0-9]|3[01])(\.[0-9]{1,3}){2}|0\.0\.0\.0|\[::1\]):[0-9]{2,5}($|[/?#])";

/// A web address without its scheme.
pub const SCHEMELESS_WEB: &'static str = r"(?i)^(www\.([a-z0-9-]+\.)+[a-z]{2,}(:[0-9]{2,5})?($|[/?#])|([a-z0-9-]+\.)+[a-z]{2,}(:[0-9]{2,5})?/)";

/// An SSH remote of a public Git host: the host, then the repository.
pub const GIT_REMOTE: &'static str = r"^git@(github\.com|gitlab\.com|bitbucket\.org):([A-Za-z0-9_.-]+(/[A-Za-z0-9_.-]+)+)(\.git)?$";

/// A CVE identifier: the year, then the number.
pub const CVE: &'static str = r"(?i)^CVE-([0-9]{4})-([0-9]{4,})$";

/// An RFC written as one token: its number.
pub const RFC: &'static str = r"(?i)^RFC-?([0-9]{3,5})$";

/// An RFC written with a gap: all of it, then its number.
pub const SPACED_RFC: &'static str = r"(?i)(RFC[[:space:]-]+([0-9]{3,5}))";

/// A file name with an extension and a line number.
pub const FILE_LOCATION: &'static str = r"^[^/[:space:]]+\.[-A-Za-z0-9_+]+:[0-9]+(:[0-9]+)?$";

/// The patterns above. All of them compile.
pub open spec fn built_in(pattern: Seq<char>) -> bool {
    ||| pattern == GENERIC_URL@
    ||| pattern == LOCAL_ENDPOINT@
    ||| pattern == SCHEMELESS_WEB@
    ||| pattern == GIT_REMOTE@
    ||| pattern == CVE@
    ||| pattern == RFC@
    ||| pattern == SPACED_RFC@
    ||| pattern == FILE_LOCATION@
}

/// Whether `regex::Regex::is_match` finds the pattern in the text.
pub uninterp spec fn regex_matches(pattern: Seq<char>, value: Seq<char>) -> bool;

/// The groups of the first match of the pattern in the text, as
/// `regex::Regex::captures` reports them.
pub uninterp spec fn regex_groups(pattern: Seq<char>, value: Seq<char>) -> Option<
    Seq<Option<Seq<char>>>,
>;

/// For each match of the pattern in the text, its groups with their byte
/// offsets, as `regex::Regex::captures_iter` reports them.
pub uninterp spec fn regex_all_groups(pattern: Seq<char>, value: Seq<char>) -> Seq<
    Seq<Option<(int, Seq<char>)>>,
>;

/// The texts of optional groups.
pub open spec fn group_texts(groups: Seq<Option<String>>) -> Seq<Option<Seq<char>>> {
    Seq::new(
        groups.len(),
        |i: int|
            match groups[i] {
                Some(text) => Some(text@),
                None => None,
            },
    )
}

/// The offsets and texts of optional groups.
pub open spec fn group_spans(groups: Seq<Option<(usize, String)>>) -> Seq<Option<(int, Seq<char>)>> {
    Seq::new(
        groups.len(),
        |i: int|
            match groups[i] {
                Some((start, text)) => Some((start as int, text@)),
                None => None,
            },
    )
}

/// Calls `regex::Regex::is_match`. The answer depends on the pattern and the
/// text alone; what a pattern matches is left to the crate.
#[verifier::external_body]
pub(crate) fn is_match(pattern: &str, value: &str) -> (found: bool)
    requires
        built_in(pattern@),
    ensures
        found == regex_matches(pattern@, value@),
{
    Regex::new(pattern).expect("built-in pattern compiles").is_match(value)
}

/// Calls `regex::Regex::captures` and copies the groups of the first match,
/// the whole match first. They depend on the pattern and the text alone.
#[verifier::external_body]
pub(crate) fn captures(pattern: &str, value: &str) -> (groups: Option<Vec<Option<String>>>)
    requires
        built_in(pattern@),
    ensures
        match groups {
            Some(groups) => regex_groups(pattern@, value@) == Some(group_texts(groups@)),
            None => regex_groups(pattern@, value@) is None,
        },
{
    let found = Regex::new(pattern).expect("built-in pattern compiles").captures(value)?;
    Some(found.iter().map(|group| group.map(|part| part.as_str().to_owned())).collect())
}

/// Calls `regex::Regex::captures_iter` and copies, for each match in turn, the
/// groups with their byte offsets, the whole match first. They depend on the
/// pattern and the text alone.
#[verifier::external_body]
pub(crate) fn captures_all(pattern: &str, value: &str) -> (matches: Vec<
    Vec<Option<(usize, String)>>,
>)
    requires
        built_in(pattern@),
    ensures
        matches@.len() == regex_all_groups(pattern@, value@).len(),
        forall|i: int|
            0 <= i < matches@.len() ==> group_spans(#[trigger] matches@[i]@) == regex_all_groups(
                pattern@,
                value@,
            )[i],
{
    let regex = Regex::new(pattern).expect("built-in pattern compiles");
    let spans = |groups: regex::Captures| groups.iter().map(
        |group| group.map(|part| (part.start(), part.as_str().to_owned())),
    ).collect();
    regex.captures_iter(value).map(spans).collect()
}

} // verus!
