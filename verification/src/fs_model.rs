//! A snapshot model of a directory tree.
//!
//! The scanner and classifier work on plain values rather than on the live
//! filesystem: callers take a snapshot of the tree they want scanned and hand
//! it in as an [`FsTree`]. A symbolic link is recorded as an opaque leaf; it
//! is never given children, so traversal cannot follow it.

use vstd::prelude::*;

verus! {

/// What kind of filesystem entry a node is.
///
/// A symbolic link is kept distinct from the file or directory it points to:
/// it is treated as an opaque leaf, both by the classifier (it is neither a
/// regular file nor a directory) and by the scanner (it has no children).
#[derive(Clone, Copy, Debug, PartialEq, Eq, Structural)]
pub enum EntryKind {
    File,
    Dir,
    Symlink,
}

/// One node of a directory-tree snapshot: its name (a single path
/// component), its kind, and its children in directory-listing order.
#[derive(Debug)]
pub struct FsTree {
    pub name: String,
    pub kind: EntryKind,
    pub children: Vec<FsTree>,
}

impl FsTree {
    /// A snapshot is well formed when only directories have children and no
    /// two siblings share a name, as is true of any real directory tree.
    pub open spec fn wf(self) -> bool
        decreases self,
    {
        &&& (!(self.kind is Dir) ==> self.children@.len() == 0)
        &&& (forall|i: int, j: int|
            0 <= i < j < self.children@.len() ==> self.children@[i].name@
                != self.children@[j].name@)
        &&& (forall|i: int|
            0 <= i < self.children@.len() ==> (#[trigger] self.children@[i]).wf())
    }
    /// Every child of a well-formed snapshot node is itself well formed, no
    /// two of them share a name, and a node that is not a directory has
    /// none.
    pub proof fn lemma_wf_children(self)
        requires
            self.wf(),
        ensures
            !(self.kind is Dir) ==> self.children@.len() == 0,
            forall|i: int, j: int|
                0 <= i < j < self.children@.len() ==> self.children@[i].name@
                    != self.children@[j].name@,
            forall|i: int| 0 <= i < self.children@.len() ==> (#[trigger] self.children@[i]).wf(),
    {
    }
}

} // verus!
