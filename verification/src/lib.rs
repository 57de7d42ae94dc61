//! Incremental monitor for a set of remote git repositories.
//!
//! The library keeps a durable watermark (last-seen commit id) per
//! repository, selects the commits that appeared since that watermark,
//! derives host-aware hyperlinks for them, renders an HTML report and
//! decides when the watermark store may advance.  All of that logic is
//! verified; the surrounding I/O (cloning mirrors, reading files,
//! sending mail) lives outside the library.

pub mod commits;
pub mod config;
pub mod hashing;
pub mod links;
pub mod report;
pub mod run;
pub mod state;
pub mod text;
