//! Font resolution with per-face glyph coverage memoisation, multi-script
//! fallback selection, and line layout with wrapping, elision and alignment.
//!
//! Lengths are integers in layout units, 64 to the pixel; every computation
//! on them is exact.

pub mod cache;
pub mod coverage;
pub mod fallback;
pub mod font;
pub mod layout;
pub mod register;
pub mod script;
