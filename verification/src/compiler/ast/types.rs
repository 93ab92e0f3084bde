use vstd::prelude::*;

verus! {

/// The static types a checker can give an expression.
#[derive(Debug, Clone, Copy, PartialEq)]
pub enum Type {
    Number,
    String,
    Boolean,
    Array,
    Function,
    Nil,
    Unknown,
}

} // verus!
