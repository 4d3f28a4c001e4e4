//! Core of a job runner: a client submits a source snippet under a job id,
//! the runner materializes a small buildable project for it, spawns the build
//! tool, streams the tool's output line by line, and reports a single
//! completion event per accepted job.  A running job can be cancelled by id.
//!
//! This crate holds the verified decision core: the job state machine and
//! registry, the workspace layout, the line splitter for the child's output
//! streams, and the small pure computations around them.  Process spawning,
//! filesystem writes and event transport are left to the embedding program.
pub mod events;
pub mod lines;
pub mod mode;
pub mod registry;
pub mod resources;
pub mod runner;
pub mod text;
pub mod toolchain;
pub mod workspace;
