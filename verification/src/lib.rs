//! Shift subtitle timestamps by a fixed millisecond offset.
//!
//! A timestamp has the textual form `HH:MM:SS,mmm`. A range line joins two
//! timestamps with an arrow marker (`-->`). The library parses timestamps,
//! applies a signed offset with clamp-to-zero, renders them back, and rewrites
//! range lines while passing every other line through unchanged.

pub mod digits;
pub mod timestamp;
pub mod transform;

pub use timestamp::Field;
pub use transform::Config;
pub use timestamp::ParseError;
pub use timestamp::ParseErrorKind;
pub use timestamp::Timestamp;
