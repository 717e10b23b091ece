//! The copy pipeline between the backing store and the cache directory.

pub mod copy;
pub mod io;
pub mod walk;
