//! Verified core of a concurrent filesystem search engine.
//!
//! Given a root directory and a text query, the engine matches entry names
//! case-insensitively against the query and additionally inspects the
//! members of any zip archive encountered, treating each member as a
//! virtual searchable entry.  This crate holds the verified logic: the
//! matcher, the archive inspector, the entry locator used for on-demand
//! extraction, and the search-session state machine with its progress
//! tracking.  Walking the real filesystem, reading archive files and
//! writing extracted entries to disk are left to an unverified shell that
//! feeds plain values into these functions.

pub mod archive;
pub mod hit;
pub mod matcher;
pub mod session;
pub mod text;

pub use archive::{archive_is_readable, extract_entry, locate_entry, search_in_zip, ExtractError};
pub use hit::Hit;
pub use matcher::{is_match, is_zip_candidate};
pub use session::{run_search, EntryRecord, Phase, ProgressState, SearchStats, Session};
