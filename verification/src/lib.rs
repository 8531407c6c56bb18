//! Read access to the leaves of Merkle trees that a state engine keeps.
//!
//! A caller names a tree and a half-open index range, optionally pinned to a
//! snapshot of the engine's state. The library validates the range, decides
//! which snapshot is read, says which leaf is fetched next, and assembles the
//! answer: the leaves that are present, in ascending index order, with the
//! unwritten slots left out.
//!
//! The engine is never reached from here. `query` gives a call as a sequence
//! of steps, each naming the one thing to ask of the engine; `client` runs
//! those steps over two functions that the caller supplies; `laws` says what
//! a whole call returns and fetches; `error` holds the failures.

pub mod client;
pub mod error;
pub mod laws;
pub mod query;
