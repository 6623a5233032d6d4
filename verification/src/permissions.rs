//! The access levels that a directory can be given.

use vstd::prelude::*;

verus! {

/// An access level. The three levels are labels only: nothing orders them.
#[derive(Debug, Clone, Copy, PartialEq, Eq, Structural)]
pub enum Permissions {
    /// The highest level.
    Divine,
    /// The middle level.
    Royal,
    /// The lowest level.
    Common,
}

impl Permissions {
    /// The lower-case word that names this level.
    pub open spec fn label(self) -> Seq<char> {
        match self {
            Permissions::Divine => "divine"@,
            Permissions::Royal => "royal"@,
            Permissions::Common => "common"@,
        }
    }

    /// Returns the lower-case word that names this level.
    pub fn to_str(&self) -> (word: &'static str)
        ensures
            word@ == self.label(),
    {
        match self {
            Permissions::Divine => "divine",
            Permissions::Royal => "royal",
            Permissions::Common => "common",
        }
    }
}

} // verus!
