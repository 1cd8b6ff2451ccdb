//! Static markup: pieces of a view that are known up front and never
//! change.

pub mod class;
pub mod static_types;

use vstd::prelude::*;

verus! {

/// Where the next node to be written or adopted stands among its siblings.
#[derive(Clone, Copy, PartialEq, Eq, Structural, Debug)]
pub enum Position {
    Current,
    FirstChild,
    NextChild,
    OnlyChild,
    LastChild,
}

impl Position {
    /// Whether a text node written here would run into a text node written
    /// just before it, so that a marker has to keep the two apart.
    pub open spec fn follows_sibling(self) -> bool {
        self == Position::NextChild || self == Position::LastChild
    }
}

} // verus!
