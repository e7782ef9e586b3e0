//! Classification of the immediate children of a directory.
//!
//! Reading a directory is the caller's part. The library takes what was read,
//! the children with their paths and kinds or the message of the failure, and
//! gives the entries to show: for each child its path, the name that the path
//! ends in, its kind, the file-type token of the name, and an icon.

pub mod charclass;
pub mod listing;
pub mod node;
pub mod segment;
pub mod text;
pub mod token;

pub use listing::discover_path;
pub use node::{Child, PathNode};
