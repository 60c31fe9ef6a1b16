//! Watches a text document for embedded trigger markers, extracts the
//! enclosed prompt text, and rewrites the document in place with generated
//! results, without losing or reprocessing content the user has not changed.
//!
//! The core pipeline is: detect trigger spans in the document, mark each one
//! as in progress, request generation, replace the marker text with the
//! result, and record the payload's fingerprint so identical marker text is
//! never dispatched twice within one process lifetime.

pub mod agent;
pub mod agent_file;
pub mod config;
pub mod pattern;
pub mod replace;
pub mod scan;
pub mod session;
pub mod utils;
pub mod watcher;

pub use config::Agent;
pub use config::Config;
pub use config::McpServer;
pub use config::Profile;
pub use config::Task;
pub use pattern::EccePattern;
pub use pattern::PatternDetector;
pub use pattern::PatternType;
pub use watcher::FileWatcher;

use vstd::prelude::*;

verus! {

/// The error taxonomy of the core pipeline.
///
/// `IoError` is fatal to the current poll cycle; `PatternNotFound` and
/// `GenerationError` are reported per pattern and the watch session
/// continues.
#[derive(Clone, Copy, Debug, PartialEq, Eq, Structural)]
pub enum EcceError {
    IoError,
    PatternNotFound,
    GenerationError,
}

} // verus!
