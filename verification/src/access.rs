//! Storage access: the file-handle cache and the commit log.

pub mod clog;
pub mod fd;
pub mod page;
pub mod pagecache;
pub mod recency;
pub mod segment;
pub mod status;
