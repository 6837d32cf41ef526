//! The answer of the demo entry point that the page calls with a word.

use vstd::prelude::*;
use vstd::string::StringExecFns;

verus! {

/// Answers `"ok fine"` to the word `"ok"`, and the error message `"oh no"`
/// to any other word.
pub fn open2(foo: String) -> (r: Result<String, String>)
    ensures
        foo@ == "ok"@ ==> (r matches Ok(s) && s@ == "ok fine"@),
        foo@ != "ok"@ ==> (r matches Err(e) && e@ == "oh no"@),
{
    if foo == String::from_str("ok") {
        Ok(String::from_str("ok fine"))
    } else {
        Err(String::from_str("oh no"))
    }
}

} // verus!
