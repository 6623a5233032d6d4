//! Access-level labelling for directory trees.
//!
//! A [`TextRepository`] holds the rules that give a directory its access
//! level from its name. A [`Walk`] decides, one step at a time, what a
//! depth-first traversal of the tree under the repository's base path does
//! next; the caller performs each request on the file system and reports the
//! outcome back.

pub mod laws;
pub mod path;
pub mod permissions;
pub mod repository;
pub mod text;
pub mod tree;
pub mod walk;

pub use permissions::Permissions;
pub use repository::TextRepository;
pub use walk::{IoError, IoOperation, Walk, WalkEvent, WalkRequest};
