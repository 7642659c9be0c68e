//! Directory listing, a short-lived listing cache, and a bounded recursive
//! filename search for a local file browser. The filesystem is read by the
//! caller; this crate decides what is listed, served, matched and kept.
pub mod cache;
pub mod entry;
pub mod lister;
pub mod pattern;
pub mod search;
pub mod stream;

pub use cache::{get_directory_cache, DirectoryCache};
pub use entry::{DirectoryContents, FileEntry};
pub use pattern::matches_pattern;
