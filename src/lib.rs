//! Turning XML Schema (XSD) declarations into a tree of type entities, and the
//! text helpers used when those entities are written out as code.
use vstd::prelude::*;

pub mod comment;
pub mod names;
pub mod node;
pub mod parser;
pub mod types;

pub use comment::{get_field_comment, get_structure_comment, split_comment_line};
pub use names::{get_field_name, get_type_name, yaserde_derive, yaserde_derive_for};
pub use parser::{parse_attribute, parse_global_attribute, parse_node};

verus! {

} // verus!
