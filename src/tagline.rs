use vstd::prelude::*;

verus! {

/// A rotating site message, as stored.
#[derive(Clone, Debug, PartialEq, Eq)]
pub struct Tagline {
    pub id: i32,
    pub content: String,
}

/// The fields of a tagline that a create or an update writes.
#[derive(Clone, Debug, PartialEq, Eq, Default)]
pub struct TaglineForm {
    pub content: String,
}

} // verus!
