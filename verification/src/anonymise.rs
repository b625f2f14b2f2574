//! Removing what identifies people from a transcript.
pub mod candidate;
pub mod kind;
pub mod prompt;
pub mod replace;
pub mod response;
