//! Small string helpers used when formatting shader-side names and flags.

use vstd::prelude::*;
use vstd::string::StringExecFns;

verus! {

/// Returns a boolean rendered as the digit string `"1"` or `"0"`.
pub fn to_str(x: bool) -> (r: String)
    ensures
        x ==> r@ == "1"@,
        !x ==> r@ == "0"@,
{
    if x {
        "1".to_owned()
    } else {
        "0".to_owned()
    }
}

/// Returns the given string slice prefixed with a single underscore.
pub fn slice_to_str(x: &str) -> (r: String)
    ensures
        r@ == "_"@ + x@,
{
    let r = "_".to_owned();
    r.concat(x)
}

} // verus!
