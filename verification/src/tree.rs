//! An in-memory picture of a directory tree, as the traversal sees it: each
//! directory either lists its entries, or refuses with permission denied,
//! or cannot be listed for another reason (a plain file behaves the same
//! as the latter and is written as one).

use vstd::prelude::*;

verus! {

/// One discovered entry: its name inside the parent directory, and what
/// listing it in turn would find.
pub struct Entry {
    pub name: String,
    pub node: FsNode,
}

/// What listing a path finds.
pub enum FsNode {
    /// A directory that lists these entries, in the order they are read.
    Dir(Vec<Entry>),
    /// A plain file, or any node whose listing fails for a reason other
    /// than permissions: it yields no entries and no diagnostic.
    File,
    /// A directory whose listing fails with permission denied.
    DeniedDir,
}

/// The number of nodes in a tree, counting the node itself.
pub open spec fn node_size(n: FsNode) -> nat
    decreases n,
{
    match n {
        FsNode::Dir(es) => 1 + entries_size(es@),
        FsNode::File => 1,
        FsNode::DeniedDir => 1,
    }
}

/// The number of nodes under a sequence of entries.
pub open spec fn entries_size(es: Seq<Entry>) -> nat
    decreases es,
{
    if es.len() == 0 {
        0
    } else {
        node_size(es[0].node) + entries_size(es.drop_first())
    }
}

} // verus!
