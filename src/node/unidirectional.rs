//! Singly linked nodes.

use std::rc::Rc;
use vstd::prelude::*;

verus! {

/// A node that is never changed once built. Its successor is held through
/// an [Rc], so one chain can be the tail of many others.
#[derive(Debug, PartialEq)]
pub struct ImmutableNode<T> {
    /// The value held by this node.
    pub value: T,
    /// The next node of the chain, if any.
    pub next: Option<Rc<ImmutableNode<T>>>,
}

/// The values met when walking a chain from `link` to its end.
pub open spec fn chain_values<T>(link: Option<Rc<ImmutableNode<T>>>) -> Seq<T>
    decreases link,
{
    match link {
        None => Seq::empty(),
        Some(node) => seq![node.value] + chain_values(node.next),
    }
}

impl<T> ImmutableNode<T> {
    /// The values of the chain that starts at this node.
    pub open spec fn values(self) -> Seq<T> {
        seq![self.value] + chain_values(self.next)
    }

    /// Create a node with a value and no next node.
    pub fn new(value: T) -> (r: ImmutableNode<T>)
        ensures
            r.value == value,
            r.next is None,
            r.values() == seq![value],
    {
        ImmutableNode { value, next: None }
    }

    /// Create a node with a value whose next node is `next_node`.
    pub fn new_with_next(value: T, next_node: Rc<ImmutableNode<T>>) -> (r: ImmutableNode<T>)
        ensures
            r.value == value,
            r.next == Some(next_node),
            r.values() == seq![value] + next_node.values(),
    {
        ImmutableNode { value, next: Some(Rc::clone(&next_node)) }
    }
}

} // verus!
