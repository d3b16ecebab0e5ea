//! Provenance of tracked files in a version-controlled directory.
//!
//! For each content file that is a direct child of a tracked directory
//! inside a git repository, this library derives an authoritative creation
//! timestamp and an optional last-update timestamp. The derivation survives
//! file renames (followed through history with exact-content rename
//! detection) and merge histories (with a deterministic first-visit-wins
//! rule), and offers an incremental variant that recomputes records for a
//! caller-chosen subset of files while still walking the full history.
//!
//! The history itself is read through a small set of trusted wrappers over
//! the `git2` crate; everything the walk decides — change classification,
//! rename lineage, traversal order, and the provenance records — is
//! computed by verified code over plain values.

pub mod change;
pub mod errors;
mod git;
pub mod history;
pub mod ids;
pub mod incremental;
pub mod laws;
pub mod lineage;
pub mod names;
pub mod orchestrate;
pub mod ordering;
pub mod resp;
pub mod store;
pub mod times;
pub mod walk;

pub use change::Change;
pub use change::ChangeKind;
pub use change::RawChange;
pub use change::RawKind;
pub use errors::WalkError;
pub use history::History;
pub use history::RevNode;
pub use resp::BBox;
pub use resp::CharResp;
pub use resp::FeedConfig;
pub use resp::GroupResp;
pub use resp::TitleResp;
pub use names::file_name_to_id;
pub use ids::ObjectId;
pub use times::Timestamp;
