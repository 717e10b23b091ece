//! The filesystem face of the cache.

pub mod attr;
pub mod credentials;
pub mod fusefs;
pub mod inode;
pub mod read;
pub mod util;
pub mod write;
