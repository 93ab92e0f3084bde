use vstd::prelude::*;

verus! {

/// The number of characters of a text.
pub fn length(value: &str) -> (r: usize)
    ensures
        r == value@.len(),
{
    value.unicode_len()
}

/// Whether a text has no characters.
pub fn empty(value: &str) -> (r: bool)
    ensures
        r == (value@.len() == 0),
{
    value.unicode_len() == 0
}

} // verus!
