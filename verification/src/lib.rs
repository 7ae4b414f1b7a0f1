//! Core of a line-oriented repetition/echo tool.
//!
//! The library decides which of three input sources drives a run (literal
//! words, a file list, or buffered standard input), caps each emitted unit
//! to an optional line limit, repeats emission a configured number of
//! times, and places an optional separator line between units. Everything
//! here is pure: callers read the sources and print the returned lines.

pub mod config;
pub mod continuous;
pub mod emit;
pub mod files;
pub mod laws;
