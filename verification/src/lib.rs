//! The logic of a blob store that keeps its containers and blobs in a directory.
//!
//! Actors call operations of the store with messages. A call is carried out in steps: the store
//! says what is to be done in the file system, is told what came of it, and goes on until the call
//! is answered. See [`provider::FileSystemProvider`].

pub mod assembly;
pub mod calls;
pub mod codec;
pub mod downloads;
pub mod interleaving;
pub mod laws;
pub mod names;
pub mod operations;
pub mod paths;
pub mod provider;
pub mod steps;
pub mod text;
pub mod types;
pub mod uploads;

pub use provider::FileSystemProvider;
