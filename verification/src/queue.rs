//! The work queue of pending directory nodes, and the nodes themselves.
//!
//! The queue is a plain first-in first-out list.  In a concurrent run every
//! operation must be performed under exclusive access; the caller that owns
//! the run supplies that exclusion, and each operation here is a single
//! atomic step of the shared queue once it does.

use vstd::prelude::*;
use vstd::string::StringExecFns;

verus! {

/// The path of a child entry: the parent's path, a separator, the name.
pub open spec fn joined(parent: Seq<char>, name: Seq<char>) -> Seq<char> {
    parent + seq!['/'] + name
}

/// Appends one path segment to a directory path.
pub fn join_path(parent: &String, name: &String) -> (r: String)
    ensures
        r@ == joined(parent@, name@),
{
    let mut s = parent.clone();
    s.append("/");
    s.append(name.as_str());
    proof {
        reveal_strlit("/");
        assert(s@ =~= joined(parent@, name@));
    }
    s
}

/// A pending directory to expand: its path and its distance from the root.
/// A node is created when a directory entry is discovered, consumed exactly
/// once by whichever worker pops it, and never changed in between.
pub struct SearchNode {
    pub path: String,
    pub depth: u8,
}

impl SearchNode {
    /// The node the whole run starts from: the root sits at depth zero.
    pub fn root(path: String) -> (r: SearchNode)
        ensures
            r.path == path,
            r.depth == 0,
    {
        SearchNode { path, depth: 0 }
    }

    /// The node for a child entry discovered under `self`: one level deeper
    /// than its parent, at the parent's path extended by the entry name.
    pub fn child(&self, name: &String) -> (r: SearchNode)
        requires
            self.depth < u8::MAX,
        ensures
            r.path@ == joined(self.path@, name@),
            r.depth == self.depth + 1,
    {
        SearchNode { path: join_path(&self.path, name), depth: self.depth + 1 }
    }
}

/// A first-in first-out queue, viewed as the sequence of its elements from
/// front to back.
pub struct WorkQueue<T> {
    items: Vec<T>,
}

impl<T> WorkQueue<T> {
    /// The pending elements, front first.
    pub closed spec fn view(&self) -> Seq<T> {
        self.items@
    }

    /// The empty queue.
    pub fn empty() -> (r: WorkQueue<T>)
        ensures
            r@ == Seq::<T>::empty(),
    {
        WorkQueue { items: Vec::new() }
    }

    /// True when nothing is pending.
    pub fn is_empty(&self) -> (r: bool)
        ensures
            r == (self@.len() == 0),
    {
        self.items.len() == 0
    }

    /// Adds an element at the back.
    pub fn push_back(&mut self, t: T)
        ensures
            final(self)@ == old(self)@.push(t),
    {
        self.items.push(t);
    }

    /// Removes and returns the front element.  On an empty queue it returns
    /// nothing at once; it never waits for elements still to come.
    pub fn pop_front(&mut self) -> (r: Option<T>)
        ensures
            match r {
                Option::None => old(self)@.len() == 0 && final(self)@ == old(self)@,
                Option::Some(t) => old(self)@.len() > 0 && t == old(self)@[0] && final(self)@
                    == old(self)@.drop_first(),
            },
    {
        if self.items.len() == 0 {
            None
        } else {
            let t = self.items.remove(0);
            proof {
                assert(self.items@ =~= old(self).items@.drop_first());
            }
            Some(t)
        }
    }
}

} // verus!
