//! A small engine for graphs of arithmetic operations.
//!
//! Nodes are added to a [`Graph`] one at a time and receive increasing
//! identifiers; a node may only refer to nodes added before it, so every graph
//! is acyclic by construction. Values are computed on demand from a chosen root,
//! with optional memoization of the nodes marked cacheable in a separate
//! [`GraphCache`].
//!
//! The engine is generic over the number type (see [`Scalar`]) and over the
//! kind of user-supplied operations (see [`Operable`]).

pub mod checked;
pub mod graph;
pub mod operation;

pub use checked::CheckedInt;
pub use graph::{Graph, GraphCache, Node};
pub use operation::{try_make_id, Operable, Operation, OperationId, Scalar};
