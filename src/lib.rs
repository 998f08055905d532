//! Parser for change-log documents: a header, then version sections, each
//! holding task groups of task entries with optional sub-items.
pub mod ast;
pub mod error;
pub mod grammar;
pub mod text;
pub mod parser;
pub mod laws;

pub use ast::{ChangeLog, EventVersion, Task, TaskGroup, TaskId, VersionGroup};
pub use error::{ParseError, ParseErrorKind};
pub use parser::parse_changelog;
