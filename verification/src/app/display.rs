use vstd::prelude::*;

verus! {

/// How text stands in its line.
#[derive(Clone, Copy, Debug, PartialEq, Eq, Structural)]
pub enum Alignment {
    Centered,
    Left,
    Right,
}

impl Default for Alignment {
    /// Text stands left.
    fn default() -> (r: Alignment)
        ensures
            r == Alignment::Left,
    {
        Alignment::Left
    }
}

/// Which side of a line a marker is shown on.
#[derive(Clone, Copy, Debug, PartialEq, Eq, Structural)]
pub enum MarkerPos {
    Left,
    Right,
}

} // verus!
