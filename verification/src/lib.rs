//! The logic of Transcribe Offline, a desktop program that transcribes recordings with a local
//! engine and lets its user review, edit, anonymise and question the transcripts.
//!
//! The library holds what the program decides and computes: how transcripts are read and followed
//! during playback, what an anonymisation replaces, which runtime, model and device is used, what a
//! job, a download or a click does to the state of the window. It reads no files, runs no engine and
//! draws nothing; the program does that and hands in what it found as plain values.
//!
//! Every function states what it returns or changes. What the `regex`, `serde_json` and `strsim`
//! crates compute is named in `pattern`, `json` and `similarity`, and everything else is stated over
//! those names.
pub mod anonymise;
pub mod board;
pub mod clock;
pub mod devices;
pub mod downloads;
pub mod engine;
pub mod highlight;
pub mod hits;
pub mod json;
pub mod library;
pub mod live;
pub mod models;
pub mod pages;
pub mod path_text;
pub mod paths;
pub mod pattern;
pub mod playback;
pub mod runtime;
pub mod session;
pub mod settings;
pub mod similarity;
pub mod sizes;
pub mod speakers;
pub mod text;
pub mod transcript;
pub mod transcription;
pub mod worker;
