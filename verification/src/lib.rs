//! Preparation of a content-delivery mirror of a game-asset tree: the
//! discovery/eligibility logic that decides which files are compressed, the
//! per-item compression step, and the progress accounting of a run.
//!
//! Paths are handled as byte strings with `/` separating the components, as
//! the filesystem hands them out. The unverified binary around this library
//! walks the real directory tree, feeds the snapshot in as plain values, and
//! performs the file reads and writes that the library's decisions call for.

pub mod compress;
pub mod paths;
pub mod plan;
pub mod progress;
