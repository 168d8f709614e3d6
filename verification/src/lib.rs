//! A verified text-fitting engine: it renders a title string into a
//! fixed-size rectangle of a pixel canvas, choosing the largest font size
//! whose greedily word-wrapped text fits, aligning the lines, and
//! alpha-blending the glyph coverage masks onto the canvas with clipping.

pub mod article;
pub mod canvas;
pub mod font;
pub mod laws;
pub mod layout;
