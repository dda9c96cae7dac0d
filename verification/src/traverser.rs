//! What the two passes have in common: each takes a tree node by node.

use vstd::prelude::*;
use crate::node::Node;

verus! {

/// A pass over a document tree. It carries state of its own from node to
/// node and threads an output through the walk.
pub trait MarkdownNodeTraverser: View + Sized {
    /// What the pass hands on from node to node and gives back at the end.
    type Output: View;

    /// The trees that the pass can take in this state: those that its
    /// counters have room for.
    spec fn admits(state: Self::V, node: Node) -> bool;

    /// The state and the output after the pass has taken `node`.
    spec fn traversed(state: Self::V, node: Node, output: <Self::Output as View>::V) -> (
        Self::V,
        <Self::Output as View>::V,
    );

    /// Takes `node` and all below it: each node goes to the handler of its
    /// kind.
    fn process_node(&mut self, node: &Node, output: Self::Output) -> (result: Self::Output)
        requires
            Self::admits(old(self)@, *node),
        ensures
            (final(self)@, result@) == Self::traversed(old(self)@, *node, output@),
    ;

    /// Takes a child of the node that the pass is at, as `process_node` does.
    fn process_child(&mut self, node: &Node, result: Self::Output) -> (output: Self::Output)
        requires
            Self::admits(old(self)@, *node),
        ensures
            (final(self)@, output@) == Self::traversed(old(self)@, *node, result@),
    ;
}

} // verus!
