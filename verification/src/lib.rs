//! peckish converts software artifacts between packaging formats by routing
//! every conversion through one intermediate representation: an in-memory
//! virtual filesystem that preserves POSIX file semantics (regular files,
//! directories, symlinks, permission bits, ownership and timestamps).
//!
//! The crate is organised around that core:
//! - [`vfs`] holds the virtual filesystem and its disk-like operations,
//! - [`drive`] holds the generic cross-tree copy engine,
//! - [`inject`] holds the declarative mutation language applied before a
//!   producer serialises a tree,
//! - [`artifact`] holds one artifact/producer pair per packaging format,
//! - [`pipeline`] sequences producers over a configured input artifact.

pub mod artifact;
pub mod codec;
pub mod compression;
pub mod config;
pub mod drive;
pub mod errors;
pub mod inject;
pub mod laws;
pub mod paths;
pub mod pipeline;
pub mod util;
pub mod vfs;

pub use errors::Error;
pub use paths::VfsPath;
