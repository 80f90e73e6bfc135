//! Reverse-mode automatic differentiation over a tape of recorded operations.
//!
//! A [`Tape`] records every operation applied to tracked values ([`Var`]); the backward
//! pass walks it from an output in decreasing slot order and accumulates into each
//! contributing slot the gradient that the operation's rule gives. The numeric arrays
//! are supplied by an implementation of [`TensorBackend`]. Tapes take their ids from a
//! [`TapeIds`] source, which never hands out an id twice, and only a tape makes handles
//! on its slots, so every operation can refuse the handles of another tape.

pub mod backend;
pub mod backward;
pub mod error;
pub mod indexing;
pub mod laws;
pub mod layers;
pub mod ops;
pub mod shape;
pub mod tape;

pub use backend::TensorBackend;
pub use backward::Grad;
pub use error::AutodiffError;
pub use indexing::Indexer;
pub use layers::{LinearLayer, ParameterStore};
pub use tape::{OpKind, Tape, TapeIds, Var};
