//! Keys naming the game's resources.

use vstd::prelude::*;

verus! {

/// A resource key: the path of a resource relative to the resource root.
#[derive(Clone, Debug, PartialEq, Eq, Hash)]
pub enum Key {
    Path(String),
}

impl Key {
    /// The key of the resource at `p`.
    pub fn from_path(p: &str) -> (r: Key)
        ensures
            match r {
                Key::Path(s) => s@ == p@,
            },
    {
        Key::Path(p.to_owned())
    }
}

} // verus!
