//! Verified parsing, validation, serialization and concatenation of
//! canonical RIFF/WAVE audio byte buffers.
//!
//! The library works on plain in-memory byte buffers: it reads the canonical
//! 44-byte WAV header, checks one header for internal arithmetic consistency,
//! checks two headers for format compatibility, and splices several compatible
//! WAV buffers into a single well-formed WAV byte stream.

pub mod header;
pub mod merge;

pub use header::WAVHeaderData;
pub use header::WavParseError;
pub use header::remove_wav_header;
pub use header::get_wav_header;
pub use header::overwrite_wav_header;
pub use header::verify_wav_header;
pub use header::verify_wav_header_compatibility;
pub use merge::ConcatError;
pub use merge::wav_concat;
