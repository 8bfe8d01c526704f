//! A persistent stack with `push()` and `pop()`.
//!
//! The stack holds a shared reference to its top node. Pushing builds a new
//! node in front of the old top, and popping moves the stack to the next node:
//! no node is ever changed, so a chain captured by another owner keeps its
//! values.

use std::rc::Rc;
use vstd::prelude::*;

use crate::node::unidirectional::{chain_values, ImmutableNode};

verus! {

/// A last-in, first-out stack of values.
pub struct Stack<T> {
    /// The top node of the stack, or `None` when the stack is empty.
    pub head: Option<Rc<ImmutableNode<T>>>,
}

impl<T> View for Stack<T> {
    type V = Seq<T>;

    /// The values of the stack, from the top down.
    open spec fn view(&self) -> Seq<T> {
        chain_values(self.head)
    }
}

/// The link that follows the node at `link`, or `None` at the end of a chain.
pub open spec fn next_link<T>(link: Option<Rc<ImmutableNode<T>>>) -> Option<Rc<ImmutableNode<T>>> {
    match link {
        None => None,
        Some(node) => node.next,
    }
}

impl<T: Clone> Stack<T> {
    /// Create an empty stack.
    pub fn empty() -> (r: Stack<T>)
        ensures
            r.head is None,
            r@ == Seq::<T>::empty(),
    {
        Stack { head: None }
    }

    /// Create a stack that holds a single value.
    pub fn new(value: T) -> (r: Stack<T>)
        ensures
            r.head matches Some(node) && node.value == value && node.next is None,
            r@ == seq![value],
    {
        let node = Rc::new(ImmutableNode::new(value));
        Stack { head: Some(node) }
    }

    /// The number of values on the stack, counted by walking its nodes.
    pub fn size(&self) -> (r: u32)
        requires
            self@.len() <= u32::MAX,
        ensures
            r == self@.len(),
    {
        let mut size: u32 = 0;
        let mut node_pointer = &self.head;
        while node_pointer.is_some()
            invariant
                size + chain_values(*node_pointer).len() == self@.len(),
                self@.len() <= u32::MAX,
            decreases chain_values(*node_pointer).len(),
        {
            let node = node_pointer.as_ref().unwrap();
            size = size + 1;
            node_pointer = &node.next;
        }
        size
    }

    /// Whether the stack holds no value.
    pub fn is_empty(&self) -> (r: bool)
        ensures
            r == (self@.len() == 0),
            r == (self.head is None),
    {
        self.head.is_none()
    }

    /// A copy of the top value, without removing it; `None` when empty.
    pub fn peek(&self) -> (r: Option<T>)
        ensures
            r is None <==> self@.len() == 0,
            r matches Some(v) ==> cloned(self@[0], v),
    {
        match &self.head {
            None => None,
            Some(head_node) => Some(head_node.value.clone()),
        }
    }

    /// Place a value on top of the stack. The old top node is not copied:
    /// it becomes the next node of the new one.
    pub fn push(&mut self, value: T)
        ensures
            final(self).head matches Some(node) && node.value == value
                && node.next == old(self).head,
            final(self)@ == seq![value] + old(self)@,
    {
        let node = match self.head.take() {
            None => ImmutableNode::new(value),
            Some(head_node) => ImmutableNode::new_with_next(value, head_node),
        };
        self.head = Some(Rc::new(node));
    }

    /// Remove the top value and return a copy of it; `None`, with the stack
    /// unchanged, when it is empty. The stack moves on to the next node,
    /// which is shared, not copied.
    pub fn pop(&mut self) -> (r: Option<T>)
        ensures
            final(self).head == next_link(old(self).head),
            old(self)@.len() == 0 ==> r is None && final(self)@ == old(self)@,
            old(self)@.len() > 0 ==> (r matches Some(v) && cloned(old(self)@[0], v)),
            old(self)@.len() > 0 ==> final(self)@ == old(self)@.drop_first(),
    {
        match self.head.take() {
            None => None,
            Some(head_node) => {
                match &head_node.next {
                    None => self.head = None,
                    Some(node) => self.head = Some(Rc::clone(node)),
                }
                Some(head_node.value.clone())
            },
        }
    }

    /// Copies of all values, from the top of the stack down.
    pub fn to_list(&self) -> (r: Vec<T>)
        ensures
            r@.len() == self@.len(),
            forall|i: int| 0 <= i < r@.len() ==> cloned(self@[i], #[trigger] r@[i]),
    {
        let mut list: Vec<T> = Vec::new();
        let mut node_pointer = &self.head;
        while node_pointer.is_some()
            invariant
                list@.len() <= self@.len(),
                chain_values(*node_pointer) == self@.skip(list@.len() as int),
                forall|i: int| 0 <= i < list@.len() ==> cloned(self@[i], #[trigger] list@[i]),
            decreases chain_values(*node_pointer).len(),
        {
            let node = node_pointer.as_ref().unwrap();
            proof {
                let k = list@.len() as int;
                assert(self@.skip(k)[0] == self@[k]);
                assert(self@.skip(k + 1) =~= self@.skip(k).drop_first());
            }
            list.push(node.value.clone());
            node_pointer = &node.next;
        }
        list
    }
}

/// Following `next` `k` times from `link`.
pub open spec fn link_at<T>(link: Option<Rc<ImmutableNode<T>>>, k: nat) -> Option<
    Rc<ImmutableNode<T>>,
>
    decreases k,
{
    if k == 0 {
        link
    } else {
        link_at(next_link(link), (k - 1) as nat)
    }
}

/// The values of a stack that held `s`, once each value of `vs` has been
/// pushed onto it in order.
pub open spec fn push_all<T>(s: Seq<T>, vs: Seq<T>) -> Seq<T>
    decreases vs.len(),
{
    if vs.len() == 0 {
        s
    } else {
        push_all(seq![vs[0]] + s, vs.drop_first())
    }
}

proof fn lemma_push_all_onto<T>(s: Seq<T>, vs: Seq<T>)
    ensures
        push_all(s, vs) == vs.reverse() + s,
    decreases vs.len(),
{
    if vs.len() > 0 {
        let rest = vs.drop_first();
        lemma_push_all_onto(seq![vs[0]] + s, rest);
        assert(vs.reverse() =~= rest.reverse() + seq![vs[0]]);
        assert(rest.reverse() + (seq![vs[0]] + s) =~= vs.reverse() + s);
    } else {
        assert(vs.reverse() + s =~= s);
    }
}

/// Pushing values one by one onto an empty stack lists them in the reverse
/// order, and the stack then holds as many values as were pushed.
pub proof fn lemma_push_all_reverses<T>(vs: Seq<T>)
    ensures
        push_all(Seq::<T>::empty(), vs) == vs.reverse(),
        push_all(Seq::<T>::empty(), vs).len() == vs.len(),
{
    lemma_push_all_onto(Seq::<T>::empty(), vs);
    assert(vs.reverse() + Seq::<T>::empty() =~= vs.reverse());
}

/// `pop()` right after `push(x)` gives back (a copy of) `x` and restores the
/// values held before; the top of the stack is again the node that was on
/// top before the push.
pub proof fn lemma_pop_after_push<T>(before: Stack<T>, x: T, pushed: Stack<T>)
    requires
        pushed.head matches Some(node) && node.value == x && node.next == before.head,
    ensures
        pushed@.len() == before@.len() + 1,
        pushed@[0] == x,
        pushed@.drop_first() == before@,
        next_link(pushed.head) == before.head,
{
    assert(pushed@.drop_first() =~= before@);
}

/// `peek()` takes the stack by shared reference, so it changes neither its
/// size nor its values. Two peeks give copies of the same value; where
/// cloning a value gives an equal value, the two results are equal.
pub proof fn lemma_peek_repeatable<T: Clone>(s: Stack<T>, r1: Option<T>, r2: Option<T>)
    requires
        forall|a: T, b: T| #[trigger] cloned(a, b) ==> a == b,
        r1 is None <==> s@.len() == 0,
        r1 matches Some(v) ==> cloned(s@[0], v),
        r2 is None <==> s@.len() == 0,
        r2 matches Some(v) ==> cloned(s@[0], v),
    ensures
        r1 == r2,
{
}

proof fn lemma_link_at_values<T>(link: Option<Rc<ImmutableNode<T>>>, k: nat)
    requires
        k <= chain_values(link).len(),
    ensures
        chain_values(link_at(link, k)) == chain_values(link).skip(k as int),
    decreases k,
{
    if k == 0 {
        assert(chain_values(link).skip(0) =~= chain_values(link));
    } else {
        lemma_link_at_values(next_link(link), (k - 1) as nat);
        assert(chain_values(next_link(link)).skip(k - 1) =~= chain_values(link).skip(k as int));
    }
}

/// Structural sharing: a stack `b` that starts at the node reached after `k`
/// steps along stack `a` holds exactly `a`'s values from there on. Nodes are
/// never changed, and `pop()` only moves the stack it is called on to the
/// next link, so popping either stack leaves the other one's values as they
/// are.
pub proof fn lemma_shared_chain<T>(a: Stack<T>, b: Stack<T>, k: nat)
    requires
        k <= a@.len(),
        b.head == link_at(a.head, k),
    ensures
        b@ == a@.skip(k as int),
{
    lemma_link_at_values(a.head, k);
}

} // verus!
