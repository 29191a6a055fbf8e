//! Finding and repairing broken symbolic links: fuzzy matching of a lost
//! target against the entries of a tree, and the decisions taken while the
//! user repairs each link.

pub mod text;
pub mod path;
pub mod fuzzy;
pub mod scanner;
pub mod resolver;

pub use fuzzy::{default_ignore, find_candidates, Score, ScoredCandidate};
pub use resolver::action::{resolve, resolve_custom, Resolved};
pub use resolver::input::{parse_choice, ParseError, ParsedInput};
pub use resolver::confirm::{confirmed, format_confirmation, needs_confirmation, parse_confirmation};
pub use resolver::fs_ops::{execute, FsError, FsOp, Step};
pub use resolver::model::{Action, RepairCase, Resolution, Summary};
pub use scanner::{output_lines, BrokenSymlink};
