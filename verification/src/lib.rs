//! Incremental recompilation core for a multi-file LaTeX-like project:
//! a virtual file store, a dependency and outline scanner, a content change
//! detector, an include-scope optimizer, a memoizing compile pipeline, the
//! event protocol of a long-lived external build process, a coordinating
//! daemon and an edit-event debouncer.

pub mod text;
pub mod hashing;
pub mod config;
pub mod palette;
pub mod pdf_renderer;
pub mod perf;
pub mod latexmk;
pub mod concurrent;
pub mod vfs;
pub mod syntax;
pub mod dependencies;
pub mod compiler;
pub mod compiler_daemon;
pub mod debounce;
