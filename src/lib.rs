//! Rendering of prompt segments from user templates such as `"${version}"`.
//!
//! A template is scanned for placeholders, each placeholder is handed to a
//! resolver, and the resolved values come back as an ordered list of styled
//! segments. The PHP module shows the interpreter's version this way.
pub mod laws;
pub mod php;
pub mod segment;
pub mod template;
