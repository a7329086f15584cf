//! Rename-and-relocate engine for declarative stack templates: a reference
//! index over a template tree, a rewriter that renames declarations and every
//! reference to them, a safety validator for moves between stacks, template
//! merge operators and the decisions of the migration workflow.

pub mod text;
pub mod value;
pub mod index;
pub mod rewrite;
pub mod validate;
pub mod ops;
pub mod workflow;
pub mod selection;
pub mod intrinsics;
pub mod laws;
pub mod marked;
