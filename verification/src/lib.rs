//! Extraction of `.tar`, `.tar.gz`, `.tgz` and `.zip` archives.
//!
//! The library decides everything: which archive format a file name calls
//! for (`name`), what an archive holds (`archive`), and which directories
//! to create and which files to write for it (`plan`). Reading the archive
//! bytes and touching the filesystem are left to the caller, who applies
//! the returned actions in order.

pub mod archive;
pub mod bytes;
pub mod name;
pub mod plan;
