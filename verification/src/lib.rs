//! Tree art: nested items drawn with branch glyphs in front of each item and
//! vertical lines under the ancestors that still have siblings to come.
//!
//! A [`TreeFormatter`] writes one line per item into a [`Sink`]. It keeps,
//! for every open level beyond the first, the glyph that the level puts in
//! front of the lines beneath it; [`FormatterState`] is that bookkeeping as
//! a value of mathematics, and every operation is stated over it.

pub mod format;
pub mod formatter;
pub mod laws;
pub mod sink;
pub mod state;

pub use format::{ContextFormat, ContextGlyphs, ItemPrefixFormat, PrefixGlyphs};
pub use formatter::{TreeDisplay, TreeFormatter};
pub use sink::{Sink, WriteFailure};
pub use state::{FormatterState, Step};
