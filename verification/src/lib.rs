//! Verified core of a batch uploader that mirrors a remote folder tree,
//! derives date-based destination folders, partitions a file batch across
//! workers, and drives the retry/fallback protocol for failed uploads.

pub mod dates;
pub mod digits;
pub mod engine;
pub mod filesystem;
pub mod helpers;
pub mod media;
pub mod orchestrator;
pub mod partition;
pub mod paths;
pub mod remote;
