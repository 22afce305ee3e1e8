//! Verified core of a context-menu command manager.
//!
//! The library models a hierarchical key-value store (the host registry) as a
//! tree of containers, and verifies the typed CRUD operations over that tree
//! together with a line-oriented export codec for snapshots of its subtrees.
//! The surrounding application (GUI, file and registry I/O) lives outside the
//! library and talks to it through plain values.

pub mod config;
pub mod errors;
pub mod export;
pub mod laws;
pub mod parsing;
pub mod paths;
pub mod pixels;
pub mod store;
pub mod types;
pub mod text;

pub use errors::Error;
