//! The comments of a source file: their model, and the walk of a syntax tree
//! that finds them.
pub mod comment;
pub mod languages;
pub mod tree;

pub use tree::{collect_comments, comments_of_tree, parse_comments, Point, SyntaxNode};
