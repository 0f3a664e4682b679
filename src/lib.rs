//! A line-oriented text search library: patterns are compiled once, applied
//! to each line of a text, and matched spans can be highlighted.

pub mod lines;
pub mod pattern;
pub mod search;
pub mod highlight;
pub mod scan;
