//! Untrusted-content defense layer of a desktop notification daemon:
//! entity decoding, markup parsing into styled segments, plain-text
//! reduction, link extraction, HTML sanitizing, and the decisions of the
//! sound-playback gatekeeper.
pub mod text;
pub mod entities;
pub mod scan;
pub mod markup_parser;
pub mod sanitizer;
pub mod audio;
pub mod config;
