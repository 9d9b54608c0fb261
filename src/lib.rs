//! An in-memory store of fixed-dimension vectors that answers top-k queries
//! under cosine similarity by a full scan with bounded selection.
//!
//! Components, norms and similarities are held as the bit patterns of
//! single-precision floats; the caller does the float arithmetic (norms, dot
//! products and their quotients) and the store keeps the vectors, applies the
//! zero-norm rule and ranks the results in the IEEE-754 total order.

pub mod ranking;
pub mod store;

pub use ranking::SearchResult;
pub use store::{VectorStore, VectorStoreError};
