use vstd::prelude::*;

use crate::paths::{join_path, path_join};

verus! {

/// A filesystem root treated as a shared, advisory-locked resource: its
/// path is only handed out explicitly, and joining stays within the
/// abstraction.
pub struct Filesystem {
    /// The root path of this filesystem.
    pub root: String,
}

impl View for Filesystem {
    type V = Seq<char>;

    open spec fn view(&self) -> Seq<char> {
        self.root@
    }
}

impl Filesystem {
    /// A filesystem rooted at the given path.
    pub fn new(path: String) -> (r: Filesystem)
        ensures
            r@ == path@,
    {
        Filesystem { root: path }
    }

    /// A filesystem rooted at this one joined with the given path.
    pub fn join(&self, other: &str) -> (r: Filesystem)
        ensures
            r@ == join_path(self@, other@),
    {
        Filesystem { root: path_join(&self.root, other) }
    }

    /// Pushes a path component onto this filesystem's root.
    pub fn push(&mut self, other: &str)
        ensures
            final(self)@ == join_path(old(self)@, other@),
    {
        let joined = path_join(&self.root, other);
        self.root = joined;
    }

    /// Consumes this filesystem and hands out the underlying path.
    pub fn into_path_unlocked(self) -> (r: String)
        ensures
            r@ == self@,
    {
        self.root
    }

    /// A copy of this filesystem.
    pub fn clone_fs(&self) -> (r: Filesystem)
        ensures
            r@ == self@,
    {
        Filesystem { root: self.root.clone() }
    }
}

} // verus!
