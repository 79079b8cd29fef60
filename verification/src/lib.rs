//! Wrapper types for values carried on the wire as a single comma-separated
//! text field while behaving as ordinary ordered collections in memory.
//!
//! The [`vec::CS`] wrapper holds a resizable sequence; the [`array::CS`]
//! wrapper holds exactly `N` elements, filling missing slots with the element
//! default and silently ignoring excess input. Both parse from and format to
//! the same comma-separated grammar: empty tokens produced by leading,
//! trailing or repeated commas are always discarded before element parsing.
pub mod array;
pub mod element;
pub mod laws;
pub mod text;
pub mod vec;
