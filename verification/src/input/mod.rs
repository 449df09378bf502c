//! What the checker is asked to look at: the files of a directory walk and
//! the edits that an agent's hook reports.
pub mod filesystem;
pub mod hook;

pub use filesystem::DiscoveredFile;
pub use hook::{HookPayload, HookTarget, ToolInput};
