use vstd::prelude::*;

verus! {

/// Songs that are fetched over the network.
pub trait Online {}

/// Songs that have details to show.
pub trait Showable {}

} // verus!
