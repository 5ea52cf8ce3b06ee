//! Discovery of provider-owned runtime assets.

use vstd::prelude::*;
use vstd::string::*;

use crate::paths::{
    absolute, below, beneath, is_absolute, is_beneath, lemma_below_parts, lemma_no_parts,
    parts, parts_of,
};
use crate::text::{opt_str, same, texts};

verus! {

/// What is said of an asset path that may leave the root.
pub const PATH_MESSAGE: &'static str =
    "asset path must be a non-empty relative path without parent traversal";

/// What is said of an asset that turned out to be elsewhere.
pub const ESCAPE_MESSAGE: &'static str = "asset resolves outside the Termnav provider root";

/// What is said where the root cannot be found.
pub const ROOT_MESSAGE: &'static str = "cannot derive Termnav asset root";

/// Whether a path names something below a root: it is relative, not empty, and
/// every part is a name.
pub open spec fn names_asset(relative: Seq<char>) -> bool {
    &&& relative.len() > 0
    &&& !absolute(relative)
    &&& forall|i: int|
        0 <= i < parts(relative).len() ==> #[trigger] parts(relative)[i] != "."@ && parts(
            relative,
        )[i] != ".."@
}

/// A path that names an asset stays beneath whatever root it is taken below.
pub proof fn lemma_asset_stays_beneath(root: Seq<char>, relative: Seq<char>)
    requires
        names_asset(relative),
    ensures
        beneath(below(root, relative), root),
{
    if root.len() > 0 {
        lemma_below_parts(root, relative);
    } else {
        lemma_no_parts(root);
    }
}

/// Whether a path names something below a root.
pub fn valid_relative(relative: &str) -> (result: bool)
    ensures
        result == names_asset(relative@),
{
    if relative.is_empty() || is_absolute(relative) {
        return false;
    }
    let pieces = parts_of(relative);
    let ghost all = parts(relative@);
    let mut i: usize = 0;
    while i < pieces.len()
        invariant
            i <= pieces.len(),
            texts(pieces@) == all,
            all == parts(relative@),
            forall|j: int| 0 <= j < i ==> #[trigger] all[j] != "."@ && all[j] != ".."@,
        decreases pieces.len() - i,
    {
        assert(all[i as int] == pieces@[i as int]@);
        if same(pieces[i], ".") || same(pieces[i], "..") {
            return false;
        }
        i = i + 1;
    }
    true
}

/// The root of the installation: the configured one, else the directory above
/// the one that holds the executable.
pub fn root<'a>(configured: Option<&'a str>, derived: Option<&'a str>) -> (root: Option<&'a str>)
    ensures
        opt_str(root) == (match opt_str(configured) {
            Some(root) => Some(root),
            None => opt_str(derived),
        }),
{
    match configured {
        Some(root) => Some(root),
        None => derived,
    }
}

/// Resolve one installed asset: its canonical path, where that lies beneath the
/// canonical root.
pub fn resolve(canonical_root: &str, canonical_asset: &str) -> (result: Result<
    String,
    &'static str,
>)
    ensures
        match result {
            Ok(asset) => beneath(canonical_asset@, canonical_root@) && asset@ == canonical_asset@,
            Err(message) => !beneath(canonical_asset@, canonical_root@) && message@
                == ESCAPE_MESSAGE@,
        },
{
    if is_beneath(canonical_asset, canonical_root) {
        Ok(String::from_str(canonical_asset))
    } else {
        Err(ESCAPE_MESSAGE)
    }
}

} // verus!
