//! Review notes on source locations, and the resolution of who is responsible for a line
//! range: the owner that an ownership file declares and the identity that blame gives,
//! served from a cache keyed by the file's content hash.
pub mod text;
pub mod owners;
pub mod cache;
pub mod author;
pub mod reports;
pub mod config;
pub mod cli;
pub mod dashboard;
