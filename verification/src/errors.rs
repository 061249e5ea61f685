//! What can go wrong in the manager itself.

use vstd::prelude::*;

verus! {

/// A failure of the manager's own making: a name that names nothing, or
/// nothing to manage with.
#[derive(Copy, Clone, Debug, PartialEq, Eq, Structural)]
pub enum Error {
    /// The manager was given no group.
    NoGroups,
    /// A group asks for a layout that is not among the layouts.
    UnknownLayout,
    /// No group has the name.
    UnknownGroup,
}

pub type Result<T> = std::result::Result<T, Error>;

impl Error {
    /// A sentence for the log.
    pub fn message(&self) -> (message: &'static str)
        ensures
            message@ == match self {
                Error::NoGroups => "No groups were given"@,
                Error::UnknownLayout => "No layout has the name of a group's default layout"@,
                Error::UnknownGroup => "No group has this name"@,
            },
    {
        match self {
            Error::NoGroups => "No groups were given",
            Error::UnknownLayout => "No layout has the name of a group's default layout",
            Error::UnknownGroup => "No group has this name",
        }
    }
}

} // verus!
