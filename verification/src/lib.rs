//! A line-oriented substring search library.
//!
//! Each line of an input source is scanned for the first occurrence of a
//! pattern; matching lines are split into the text before, at, and after the
//! occurrence, optionally prefixed with a one-based line number, and rendered
//! with the occurrence emphasized.

pub mod casefold;
pub mod render;
pub mod scanner;
pub mod search;
