//! Relocates and repairs the audio-sample references inside compressed
//! XML project containers.
//!
//! The verified core is the transcode-and-rewrite pipeline: the gzip
//! decompress/recompress transcode, the streaming XML rewrite that tracks
//! sample-reference scope while rewriting path-bearing attributes, and the
//! relocation policy that decides what each new reference becomes. File and
//! directory I/O, discovery and progress delivery live outside the library.

pub mod bytes;
pub mod error;
pub mod laws;
pub mod models;
pub mod paths;
pub mod progress_events;
pub mod rewrite;
pub mod text;
pub mod tokenize;
pub mod transcode;
pub mod xml;

pub use error::Error;
pub use models::{CopifySettings, MoverProgress, MoverSettings, Progress};
pub use progress_events::{make_progress, on_error, on_skip, on_success, progress_percent};
