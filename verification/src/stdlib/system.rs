use vstd::prelude::*;

verus! {

/// The version of the language.
pub fn version() -> (r: &'static str)
    ensures
        r@ == "FSL 0.2.3"@,
{
    "FSL 0.2.3"
}

} // verus!
