//! Rewrites a module so that every exported binding is read through one
//! shared `exports` object, keeping live bindings and unbound calls intact.

pub mod ast;
pub mod ident_set;
pub mod rewrite;
pub mod export_all;
pub mod module;
pub mod semantics;

pub use module::process_transform;
pub use rewrite::TransformVisitor;
