//! A first-in, first-out queue with `enqueue()` and `dequeue()`.
//!
//! The queue keeps its nodes in an arena: a node's link to the next node is
//! the index of that node's slot. Appending at the tail changes the `next`
//! slot of the current tail node in place, which is the one mutation the
//! queue makes to a linked node. Slots left behind by `dequeue()` go on a free
//! list and are used again by later calls of `enqueue()`.

use vstd::prelude::*;

verus! {

/// A slot of a queue's arena: an optional value and the index of the slot
/// that follows it.
pub struct Node<T> {
    /// The value held here, or `None` for a free slot.
    pub value: Option<T>,
    /// The index of the next node, if any.
    pub next: Option<usize>,
}

impl<T> Node<T> {
    /// Create a node that holds no value and no link.
    pub fn empty() -> (r: Node<T>)
        ensures
            r.value is None,
            r.next is None,
    {
        Node { value: None, next: None }
    }

    /// Create a node with a value and no next node.
    pub fn new(value: T) -> (r: Node<T>)
        ensures
            r.value == Some(value),
            r.next is None,
    {
        Node { value: Some(value), next: None }
    }

    /// Create a node with a value and a link to the node at `next_node`.
    pub fn new_with_next(value: T, next_node: Option<usize>) -> (r: Node<T>)
        ensures
            r.value == Some(value),
            r.next == next_node,
    {
        Node { value: Some(value), next: next_node }
    }

    /// Whether this node holds no value.
    pub fn is_empty(&self) -> (r: bool)
        ensures
            r == (self.value is None),
    {
        self.value.is_none()
    }
}

/// A first-in, first-out queue of values.
pub struct Queue<T> {
    nodes: Vec<Node<T>>,
    head: Option<usize>,
    tail: Option<usize>,
    free: Vec<usize>,
    /// The indices of the queued nodes, from head to tail.
    chain: Ghost<Seq<usize>>,
}

impl<T> View for Queue<T> {
    type V = Seq<T>;

    /// The queued values, from the oldest to the newest.
    closed spec fn view(&self) -> Seq<T> {
        Seq::new(self.chain@.len(), |i: int| self.nodes@[self.chain@[i] as int].value->0)
    }
}

impl<T> Queue<T> {
    /// The queue's internal invariant: the queued nodes form a chain from
    /// `head` to `tail`, each holding a value, and every other slot is free.
    pub closed spec fn wf(&self) -> bool {
        let c = self.chain@;
        let n = self.nodes@;
        &&& self.head == (if c.len() == 0 { None } else { Some(c[0]) })
        &&& self.tail == (if c.len() == 0 { None } else { Some(c.last()) })
        &&& c.len() + self.free@.len() == n.len()
        &&& c.no_duplicates()
        &&& forall|i: int| 0 <= i < c.len() ==> (#[trigger] c[i] as int) < n.len()
        &&& forall|i: int| 0 <= i < c.len() ==> n[#[trigger] c[i] as int].value is Some
        &&& forall|i: int|
            0 <= i < c.len() ==> n[#[trigger] c[i] as int].next == (if i + 1 < c.len() {
                Some(c[i + 1])
            } else {
                None
            })
        &&& self.free@.no_duplicates()
        &&& forall|k: int| 0 <= k < self.free@.len() ==> (#[trigger] self.free@[k] as int) < n.len()
        &&& forall|k: int| 0 <= k < self.free@.len() ==> n[#[trigger] self.free@[k] as int].value is None
    }

    /// Create an empty queue.
    pub fn empty() -> (r: Queue<T>)
        ensures
            r.wf(),
            r@ == Seq::<T>::empty(),
    {
        Queue { nodes: Vec::new(), head: None, tail: None, free: Vec::new(), chain: Ghost(Seq::empty()) }
    }

    /// The number of queued values.
    pub fn size(&self) -> (r: usize)
        requires
            self.wf(),
        ensures
            r == self@.len(),
    {
        self.nodes.len() - self.free.len()
    }

    /// Whether the queue holds no value.
    pub fn is_empty(&self) -> (r: bool)
        requires
            self.wf(),
        ensures
            r == (self@.len() == 0),
    {
        self.head.is_none()
    }
    /// Append a value at the tail of the queue.
    pub fn enqueue(&mut self, value: T)
        requires
            old(self).wf(),
        ensures
            final(self).wf(),
            final(self)@ == old(self)@.push(value),
    {
        let ghost old_chain = self.chain@;
        let index: usize = match self.free.pop() {
            Some(slot) => {
                self.nodes.set(slot, Node::new(value));
                slot
            },
            None => {
                self.nodes.push(Node::new(value));
                self.nodes.len() - 1
            },
        };
        match self.tail {
            None => self.head = Some(index),
            Some(last) => self.nodes[last].next = Some(index),
        }
        self.tail = Some(index);
        self.chain = Ghost(old_chain.push(index));
    }

    /// Remove the value at the head of the queue and return it; `None`, with
    /// the queue unchanged, when it is empty.
    pub fn dequeue(&mut self) -> (r: Option<T>)
        requires
            old(self).wf(),
        ensures
            final(self).wf(),
            old(self)@.len() == 0 ==> r is None && final(self)@ == old(self)@,
            old(self)@.len() > 0 ==> r == Some(old(self)@[0]) && final(self)@ == old(self)@.drop_first(),
    {
        match self.head {
            None => None,
            Some(first) => {
                let ghost old_chain = self.chain@;
                let mut node = Node::empty();
                std::mem::swap(&mut self.nodes[first], &mut node);
                self.head = node.next;
                if node.next.is_none() {
                    self.tail = None;
                }
                self.free.push(first);
                self.chain = Ghost(old_chain.drop_first());
                node.value
            },
        }
    }
}

/// The outcome of a run of calls on a queue that holds `s`: each `Some(v)`
/// of `ops` stands for `enqueue(v)` and each `None` for `dequeue()`. The
/// result is the values left in the queue and the values that the calls of
/// `dequeue()` returned, in order.
pub open spec fn run_queue<T>(s: Seq<T>, ops: Seq<Option<T>>) -> (Seq<T>, Seq<T>)
    decreases ops.len(),
{
    if ops.len() == 0 {
        (s, Seq::empty())
    } else {
        match ops[0] {
            Some(v) => run_queue(s.push(v), ops.drop_first()),
            None => if s.len() == 0 {
                run_queue(s, ops.drop_first())
            } else {
                let (rest, out) = run_queue(s.drop_first(), ops.drop_first());
                (rest, seq![s[0]] + out)
            },
        }
    }
}

/// The values that a run of calls enqueues, in order.
pub open spec fn enqueued<T>(ops: Seq<Option<T>>) -> Seq<T>
    decreases ops.len(),
{
    if ops.len() == 0 {
        Seq::empty()
    } else {
        match ops[0] {
            Some(v) => seq![v] + enqueued(ops.drop_first()),
            None => enqueued(ops.drop_first()),
        }
    }
}

/// First in, first out, for any interleaving of calls: the values dequeued,
/// followed by the values still queued, are the values queued at the start
/// followed by the values enqueued, in the order they went in.
pub proof fn lemma_fifo<T>(s: Seq<T>, ops: Seq<Option<T>>)
    ensures
        run_queue(s, ops).1 + run_queue(s, ops).0 == s + enqueued(ops),
    decreases ops.len(),
{
    if ops.len() == 0 {
        assert(Seq::<T>::empty() + s =~= s + Seq::<T>::empty());
    } else {
        let rest = ops.drop_first();
        match ops[0] {
            Some(v) => {
                lemma_fifo(s.push(v), rest);
                assert(s.push(v) + enqueued(rest) =~= s + (seq![v] + enqueued(rest)));
            },
            None => {
                if s.len() == 0 {
                    lemma_fifo(s, rest);
                } else {
                    lemma_fifo(s.drop_first(), rest);
                    let (left, out) = run_queue(s.drop_first(), rest);
                    assert(seq![s[0]] + out + left =~= seq![s[0]] + (out + left));
                    assert(seq![s[0]] + (s.drop_first() + enqueued(rest)) =~= s + enqueued(rest));
                }
            },
        }
    }
}

/// The calls `enqueue(v)` for each value `v` of `vs`, in order.
pub open spec fn enqueue_calls<T>(vs: Seq<T>) -> Seq<Option<T>> {
    Seq::new(vs.len(), |i: int| Some(vs[i]))
}

/// `n` calls of `dequeue()`.
pub open spec fn dequeue_calls<T>(n: nat) -> Seq<Option<T>> {
    Seq::new(n, |i: int| None)
}

proof fn lemma_run_enqueues<T>(s: Seq<T>, vs: Seq<T>, ops: Seq<Option<T>>)
    ensures
        run_queue(s, enqueue_calls(vs) + ops) == run_queue(s + vs, ops),
    decreases vs.len(),
{
    if vs.len() == 0 {
        assert(enqueue_calls(vs) + ops =~= ops);
        assert(s + vs =~= s);
    } else {
        let all = enqueue_calls(vs) + ops;
        assert(all.drop_first() =~= enqueue_calls(vs.drop_first()) + ops);
        lemma_run_enqueues(s.push(vs[0]), vs.drop_first(), ops);
        assert(s.push(vs[0]) + vs.drop_first() =~= s + vs);
    }
}

proof fn lemma_run_dequeues<T>(s: Seq<T>)
    ensures
        run_queue(s, dequeue_calls(s.len())) == (Seq::<T>::empty(), s),
    decreases s.len(),
{
    let ops = dequeue_calls::<T>(s.len());
    if s.len() == 0 {
        assert(s =~= Seq::<T>::empty());
    } else {
        assert(ops.drop_first() =~= dequeue_calls::<T>(s.drop_first().len()));
        lemma_run_dequeues(s.drop_first());
        assert(seq![s[0]] + s.drop_first() =~= s);
    }
}

/// Values enqueued one by one onto an empty queue come out of as many calls
/// of `dequeue()` in the order they went in, and the queue is then empty.
pub proof fn lemma_fifo_drain<T>(vs: Seq<T>)
    ensures
        run_queue(Seq::<T>::empty(), enqueue_calls(vs) + dequeue_calls(vs.len())) == (
            Seq::<T>::empty(),
            vs,
        ),
{
    lemma_run_enqueues(Seq::<T>::empty(), vs, dequeue_calls(vs.len()));
    assert(Seq::<T>::empty() + vs =~= vs);
    lemma_run_dequeues(vs);
}

/// Any number of calls of `dequeue()` on an empty queue return nothing and
/// leave it empty.
pub proof fn lemma_dequeue_empty_repeatedly<T>(n: nat)
    ensures
        run_queue(Seq::<T>::empty(), dequeue_calls(n)) == (Seq::<T>::empty(), Seq::<T>::empty()),
    decreases n,
{
    if n > 0 {
        assert(dequeue_calls::<T>(n).drop_first() =~= dequeue_calls::<T>((n - 1) as nat));
        lemma_dequeue_empty_repeatedly::<T>((n - 1) as nat);
    }
}

} // verus!
