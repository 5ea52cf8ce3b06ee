//! Build-version reporting shared by the CLI and release smoke tests.

use vstd::prelude::*;
use vstd::string::*;

verus! {

/// Render the user-facing version line.
#[must_use]
pub fn line(version: &str) -> (result: String)
    ensures
        result@ == "termnav "@ + version@,
{
    let mut result = String::from_str("termnav ");
    result.append(version);
    result
}

} // verus!
