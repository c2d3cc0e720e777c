//! What the functions of the library promise to those who call them.
//!
//! Each law speaks of calls: of what went in, what came out, and how one call bears on the next. The
//! words for that are in `words`; they say nothing of how the library works.

pub mod words;
pub mod texts;
pub mod headers;
pub mod responses;
pub mod header_values;
pub mod codings;
pub mod messages;
pub mod servers;
pub mod pools;
