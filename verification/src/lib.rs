//! A resumable frame-export orchestration engine.
//!
//! The engine drives an external encoding tool that burns an overlay image
//! onto every frame of a source video and writes the result as a numbered
//! sequence of still images.  The verified core covers: the resolution
//! policy, parsing of the probing tool's textual answers, the disk-space
//! estimate, the resume-point scan over the output directory's file names,
//! the composition of the encoder's invocation, and the supervision state
//! machine that turns the encoder's progress stream and a cancellation
//! signal into a stream of progress events.
//!
//! Process spawning, file reading and the interactive front end live outside
//! this crate; they hand the engine plain values and carry its decisions out.

pub mod models;
pub mod numeric;
pub mod probe;
pub mod scanner;
pub mod storage;
pub mod progress;
pub mod invocation;
pub mod orchestrator;
