//! Batch transcription client core.
//!
//! A caller bulk-transcribes a directory of audio files against a remote
//! speech-recognition service, fanning the work out across a fixed pool of
//! concurrent workers. This library holds the verified heart of that design:
//! the item source that turns directory entries into work, the bounded
//! task-queue and worker-pool model with its shutdown protocol, and the plain
//! data that the recognition and synthesis clients exchange with the remote
//! service. The asynchronous plumbing (gRPC transport, file reads and writes,
//! task spawning) lives outside, drives the decision functions defined here,
//! and is bound by their contracts.

pub mod audio;
pub mod batch;
pub mod client;
pub mod error;
pub mod pool;
pub mod synthesizer;
pub mod text;
