//! A depth-scoped browser core for flattened object trees.
//!
//! The library owns the logic of the browser: loading and validating a
//! flattened, depth-annotated store of objects, navigating it one depth
//! level at a time under a parent scope, and rendering a bounded text
//! summary of each visible object.  Terminal I/O and widget painting live
//! outside the library and only consume the values computed here.

pub mod app;
pub mod content;
pub mod display;
pub mod list;
pub mod session;
pub mod store;
pub mod summarize;
pub mod text;
