use bevy_math::Isometry2d;
use bevy_math::Vec2;

use bevy_text_gizmos::Glyph;
use bevy_text_gizmos::GlyphPoint;
use bevy_text_gizmos::Stroke;
use bevy_text_gizmos::StrokeFont;

fn example_font() -> StrokeFont {
    StrokeFont {
        line_height_num: 1,
        line_height_den: 1,
        ascii_start: 65,
        ascii_end: 66,
        height: 10,
        cap_height: 7,
        advance: 4,
        positions: vec![
            GlyphPoint { x: 0, y: 0 },
            GlyphPoint { x: 3, y: 7 },
            GlyphPoint { x: 6, y: 0 },
        ],
        strokes: vec![Stroke { start: 0, end: 3 }],
        glyphs: vec![Glyph { advance: 6, strokes_start: 0, strokes_end: 1 }],
    }
}

/// Anchor offset in pixels, as the host applies it: the measured size times
/// the difference between the top-left-origin correction and the anchor.
fn anchor_offset(measure_px: Vec2, anchor: Vec2) -> Vec2 {
    measure_px * (Vec2::new(-0.5, 0.5) - anchor)
}

#[test]
fn centered_anchor_halves_the_box_in_each_direction() {
    let font = example_font();
    let layout = font.layout("AA\nA");
    let (w_sub, h_sub) = layout.measure();
    let font_size = 14.0_f32;
    let scale = font_size / (font.cap_height as f32 * font.line_height_den as f32);
    let measure_px = Vec2::new(w_sub as f32 * scale, h_sub as f32 * scale);

    let offset = anchor_offset(measure_px, Vec2::ZERO);
    // The layout box spans x in [0, w] and y in [-h, 0]; anchored at the
    // center it spans half the measured size in every direction.
    let top_left = offset + Vec2::new(0.0, 0.0);
    let bottom_right = offset + Vec2::new(measure_px.x, -measure_px.y);
    assert_eq!(top_left, Vec2::new(-measure_px.x / 2.0, measure_px.y / 2.0));
    assert_eq!(bottom_right, Vec2::new(measure_px.x / 2.0, -measure_px.y / 2.0));
    assert_eq!(top_left, -bottom_right);
}

#[test]
fn identity_transform_and_zero_offset_reproduce_local_points() {
    let font = example_font();
    let layout = font.layout("A\nAA");
    let (w_sub, h_sub) = layout.measure();
    let font_size = 14.0_f32;
    let scale = font_size / (font.cap_height as f32 * font.line_height_den as f32);
    let measure_px = Vec2::new(w_sub as f32 * scale, h_sub as f32 * scale);

    // The top-left anchor cancels the offset entirely.
    let offset = anchor_offset(measure_px, Vec2::new(-0.5, 0.5));
    assert_eq!(offset, Vec2::ZERO);

    let isometry = Isometry2d::IDENTITY;
    for poly in layout.polylines() {
        for &(x_sub, y_sub) in &poly {
            let local = Vec2::new(x_sub as f32 * scale, y_sub as f32 * scale);
            let placed = isometry * (offset + local);
            assert_eq!(placed, local);
        }
    }
}
