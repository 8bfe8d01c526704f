//! Linear data structures built from singly linked nodes: a persistent
//! stack whose nodes are shared through reference counting, and a queue.

pub mod node;
pub mod queue;
pub mod stack;

pub use node::ImmutableNode;
pub use queue::Queue;
pub use stack::Stack;
