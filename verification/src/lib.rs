//! Stroke-font text layout for line-drawing ("gizmo") renderers.
//!
//! A [`StrokeFont`] is a flat table of points, strokes and glyphs together
//! with global metrics, all in integer font design units. Laying a text out
//! produces exact integer geometry in sub-unit coordinates (font units
//! divided by the line-height ratio's denominator); a host applies the
//! single uniform pixel scale `font_size / (cap_height * line_height_den)`
//! and a rigid transform when it draws the polylines.

pub mod font;
pub mod laws;
pub mod layout;
pub mod render;

pub use font::Glyph;
pub use font::GlyphPoint;
pub use font::Stroke;
pub use font::StrokeFont;
pub use layout::MAX_TEXT_LEN;
pub use layout::StrokeTextLayout;
pub use render::StrokeTextRenderer;
