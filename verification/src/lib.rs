//! Discovery of version-control repositories beneath a directory.
//!
//! The crate holds the decisions of a bounded, depth-first repository scan:
//! which entries are passed over, which directories count as repository
//! roots, where the walk may descend, and when the scan fails. It never
//! touches the file system itself.
//!
//! A [`Scanner`] takes the entries that a directory walker delivers, one at a
//! time, and answers each with what the walker is to do next.
//! [`find_git_repos`] drives a scanner over a [`Node`], a directory tree held
//! in memory, and returns what [`outcome::scan`] defines. The module [`laws`]
//! proves what holds of every scan.

pub mod laws;
pub mod outcome;
pub mod path;
pub mod report;
pub mod request;
pub mod scanner;
pub mod subtree;
pub mod tree;
pub mod walk;

pub use path::{is_component_name, is_marker, join_path, MARKER};
pub use report::render_lines;
pub use request::{
    PrunePolicy, ScanError, ScanRequest, DEFAULT_MAX_DEPTH, DEFAULT_SEARCH_PATH,
};
pub use scanner::{DirectoryEntry, Scanner, WalkAction, WalkEvent};
pub use tree::{is_git_directory, EntryKind, Node};
pub use walk::{find_git_repos, run};
