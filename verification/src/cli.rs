//! The direction filter that the command line accepts.

use vstd::prelude::*;

verus! {

/// Direction filter accepted by the CLI (`north`/`n`, `south`/`s`).
#[derive(Debug, Clone, Copy, PartialEq, Eq, Structural)]
pub enum Direction {
    North,
    South,
}

impl Direction {
    /// The value the ETD endpoint's `dir` parameter takes: `"n"` or `"s"`.
    pub fn api_str(&self) -> (s: &'static str)
        ensures
            s@ == (match self {
                Direction::North => "n"@,
                Direction::South => "s"@,
            }),
    {
        match self {
            Direction::North => "n",
            Direction::South => "s",
        }
    }

    /// The direction of travel this filter selects.
    pub fn as_model(&self) -> (d: crate::common::Direction)
        ensures
            d == (match self {
                Direction::North => crate::common::Direction::North,
                Direction::South => crate::common::Direction::South,
            }),
    {
        match self {
            Direction::North => crate::common::Direction::North,
            Direction::South => crate::common::Direction::South,
        }
    }
}

} // verus!
