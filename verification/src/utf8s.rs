//! The traversal engine and the encoding normalizer.

pub mod code;
pub mod effort;
pub mod entry;
pub mod laws;
pub mod limiter;
pub mod scan;
pub mod tree;
pub mod visit;
pub mod walk;

pub use code::Coding;
pub use entry::{read_dir, DirEntry, EntryKind, Probe};
pub use limiter::AdmissionLimiter;
pub use scan::{scan, Outcome, ScannerExec, Task, Traversal};
pub use walk::{StepError, TaskKind, TaskState, WalkStatus};
