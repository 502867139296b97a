//! The context that a compiler threads through every nested evaluation step.
//!
//! A [`Route`] records how deeply the current step is nested and which files
//! were entered on the way, so that cyclic imports and runaway recursion are
//! caught. An [`Engine`] bundles a route with the handles a step needs and lets
//! a step fail without ending the compilation.

pub mod engine;
pub mod file_id;
pub mod route;
pub mod tracer;

pub use engine::Engine;
pub use file_id::FileId;
pub use route::{Frame, Handle, Route, MAX_DEPTH};
pub use tracer::Tracer;
