//! One tool-search policy shared by local and remote editor routing.

use vstd::prelude::*;
use vstd::string::*;

use crate::paths::{below, join, relative, relative_to};
use crate::shell::{quote, quoted};
use crate::text::{joined, opt_str, owned, split, split_char, strings, texts};

verus! {

/// The texts that are not empty.
pub open spec fn filled(values: Seq<Seq<char>>) -> Seq<Seq<char>>
    decreases values.len(),
{
    if values.len() == 0 {
        Seq::empty()
    } else if values.last().len() > 0 {
        filled(values.drop_last()).push(values.last())
    } else {
        filled(values.drop_last())
    }
}

/// The directories of a search path, in order.
pub fn search_path(value: &str) -> (directories: Vec<String>)
    ensures
        strings(directories@) == filled(split(value@, ':')),
{
    let pieces = split_char(value, ':');
    let ghost all = split(value@, ':');
    let mut directories: Vec<String> = Vec::new();
    let mut i: usize = 0;
    assert(strings(directories@) =~= filled(all.take(0)));
    while i < pieces.len()
        invariant
            i <= pieces.len(),
            texts(pieces@) == all,
            strings(directories@) == filled(all.take(i as int)),
        decreases pieces.len() - i,
    {
        let ghost before = directories@;
        assert(all.take(i + 1).drop_last() =~= all.take(i as int));
        assert(all.take(i + 1).last() == pieces@[i as int]@);
        if !pieces[i].is_empty() {
            directories.push(String::from_str(pieces[i]));
            assert(strings(directories@) =~= strings(before).push(pieces@[i as int]@));
        }
        i = i + 1;
    }
    assert(all.take(i as int) =~= all);
    directories
}

/// The directories that are searched after the inherited ones: the configured
/// ones, or the usual ones of the user and of the system.
pub open spec fn fallback_paths(home: Seq<char>, configured: Option<Seq<char>>) -> Seq<Seq<char>> {
    match configured {
        Some(value) => filled(split(value, ':')),
        None => seq![
            below(home, ".local/bin"@),
            below(home, ".local/share/mise/shims"@),
            "/opt/homebrew/bin"@,
            "/usr/local/bin"@,
        ],
    }
}

/// The directories that are searched after the inherited ones.
pub fn fallbacks(home: &str, configured: Option<&str>) -> (paths: Vec<String>)
    ensures
        strings(paths@) == fallback_paths(home@, opt_str(configured)),
{
    match configured {
        Some(value) => search_path(value),
        None => {
            let bin = join(home, ".local/bin");
            let shims = join(home, ".local/share/mise/shims");
            let paths = owned(
                &vec![bin.as_str(), shims.as_str(), "/opt/homebrew/bin", "/usr/local/bin"],
            );
            assert(strings(paths@) =~= fallback_paths(home@, None));
            paths
        },
    }
}

/// A directory as the shell of another host reads it: one below the local home
/// is taken below the home there.
pub open spec fn rebased(path: Seq<char>, home: Seq<char>) -> Seq<char> {
    match relative(path, home) {
        Some(rest) if rest.len() > 0 => "\"$HOME\"/"@ + quoted(rest),
        _ => quoted(path),
    }
}

/// A directory as the shell of another host reads it.
pub fn remote_path(path: &str, home: &str) -> (result: String)
    ensures
        result@ == rebased(path@, home@),
{
    if let Some(rest) = relative_to(path, home) {
        if !rest.as_str().is_empty() {
            let mut result = String::from_str("\"$HOME\"/");
            result.append(quote(rest.as_str()).as_str());
            return result;
        }
    }
    quote(path)
}

/// The directories as the shell of another host reads them.
pub open spec fn rebased_all(paths: Seq<Seq<char>>, home: Seq<char>) -> Seq<Seq<char>> {
    Seq::new(paths.len(), |i: int| rebased(paths[i], home))
}

/// The shell assignment that appends the directories to the search path of
/// another host.
pub open spec fn assignment(home: Seq<char>, configured: Option<Seq<char>>) -> Seq<char> {
    "PATH=\"$PATH\":"@ + joined(rebased_all(fallback_paths(home, configured), home), ":"@)
        + "; export PATH"@
}

/// The shell assignment that appends the directories to the search path of
/// another host.
pub fn remote_assignment_for(home: &str, configured: Option<&str>) -> (text: String)
    ensures
        text@ == assignment(home@, opt_str(configured)),
{
    let paths = fallbacks(home, configured);
    let ghost all = fallback_paths(home@, opt_str(configured));
    let mut rendered: Vec<String> = Vec::new();
    let mut i: usize = 0;
    while i < paths.len()
        invariant
            i <= paths.len(),
            strings(paths@) == all,
            rendered@.len() == i,
            forall|j: int| 0 <= j < i ==> (#[trigger] rendered@[j])@ == rebased(all[j], home@),
        decreases paths.len() - i,
    {
        assert(all[i as int] == paths@[i as int]@);
        rendered.push(remote_path(paths[i].as_str(), home));
        i = i + 1;
    }
    assert(strings(rendered@) =~= rebased_all(all, home@));
    let mut text = String::from_str("PATH=\"$PATH\":");
    text.append(crate::text::join(rendered.as_slice(), ":").as_str());
    text.append("; export PATH");
    text
}

/// The configured policy, where it is not empty.
pub open spec fn policy(configured: Option<Seq<char>>) -> Option<Seq<char>> {
    match configured {
        Some(value) if value.len() > 0 => Some(value),
        _ => None,
    }
}

/// The home that paths are rebased from.
pub open spec fn home_or_default(home: Option<Seq<char>>) -> Seq<char> {
    match home {
        Some(home) => home,
        None => "$HOME"@,
    }
}

/// The shell assignment that the environment asks for.
pub fn remote_assignment(home: Option<&str>, configured: Option<&str>) -> (text: String)
    ensures
        text@ == assignment(home_or_default(opt_str(home)), policy(opt_str(configured))),
{
    let base = match home {
        Some(home) => home,
        None => "$HOME",
    };
    let configured = match configured {
        Some(value) => if value.is_empty() {
            None
        } else {
            Some(value)
        },
        None => None,
    };
    remote_assignment_for(base, configured)
}

} // verus!
