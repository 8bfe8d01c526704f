//! Nodes that hold a value and a link to the next node.

pub mod unidirectional;

pub use unidirectional::ImmutableNode;
