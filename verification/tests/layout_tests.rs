use bevy_text_gizmos::Glyph;
use bevy_text_gizmos::GlyphPoint;
use bevy_text_gizmos::Stroke;
use bevy_text_gizmos::StrokeFont;

/// The worked-example font: cap height 7, fallback advance 4 (space), and a
/// single glyph 'A' with advance 6 and one stroke (0,0)-(3,7)-(6,0).
/// Line height ratio 1/1, full height 10.
fn example_font() -> StrokeFont {
    StrokeFont {
        line_height_num: 1,
        line_height_den: 1,
        ascii_start: 65,
        ascii_end: 66,
        height: 10,
        cap_height: 7,
        advance: 4,
        positions: vec![
            GlyphPoint { x: 0, y: 0 },
            GlyphPoint { x: 3, y: 7 },
            GlyphPoint { x: 6, y: 0 },
        ],
        strokes: vec![Stroke { start: 0, end: 3 }],
        glyphs: vec![Glyph { advance: 6, strokes_start: 0, strokes_end: 1 }],
    }
}

/// A font whose range covers space, '!' and '"', with the fallback advance
/// equal to the space's advance. '!' has a degenerate one-point stroke
/// before its real stroke; '"' has only the degenerate stroke.
fn punct_font() -> StrokeFont {
    StrokeFont {
        line_height_num: 3,
        line_height_den: 2,
        ascii_start: 32,
        ascii_end: 35,
        height: 10,
        cap_height: 7,
        advance: 4,
        positions: vec![
            GlyphPoint { x: 1, y: 7 }, // lone point: degenerate stroke
            GlyphPoint { x: 1, y: 7 },
            GlyphPoint { x: 1, y: 2 },
        ],
        strokes: vec![Stroke { start: 0, end: 1 }, Stroke { start: 1, end: 3 }],
        glyphs: vec![
            Glyph { advance: 4, strokes_start: 0, strokes_end: 0 }, // space
            Glyph { advance: 3, strokes_start: 0, strokes_end: 2 }, // '!'
            Glyph { advance: 5, strokes_start: 0, strokes_end: 1 }, // '"', degenerate only
        ],
    }
}

#[test]
fn validate_accepts_well_formed_tables() {
    assert!(example_font().validate());
    assert!(punct_font().validate());
}

#[test]
fn validate_rejects_stroke_out_of_bounds() {
    let mut font = example_font();
    font.strokes = vec![Stroke { start: 0, end: 4 }];
    assert!(!font.validate());
}

#[test]
fn validate_rejects_glyph_range_out_of_bounds() {
    let mut font = example_font();
    font.glyphs = vec![Glyph { advance: 6, strokes_start: 0, strokes_end: 2 }];
    assert!(!font.validate());
}

#[test]
fn validate_rejects_wrong_glyph_count() {
    let mut font = example_font();
    font.ascii_end = 67;
    assert!(!font.validate());
}

#[test]
fn measure_empty_is_zero_by_one_line() {
    let font = example_font();
    let layout = font.layout("");
    assert_eq!(layout.measure(), (0, 10));
}

#[test]
fn render_empty_is_no_polylines() {
    let font = example_font();
    let layout = font.layout("");
    assert_eq!(layout.polylines().len(), 0);
    let mut renderer = layout.render();
    assert!(renderer.next_polyline().is_none());
}

#[test]
fn measure_is_idempotent() {
    let font = example_font();
    let layout = font.layout("A\nA A");
    assert_eq!(layout.measure(), layout.measure());
}

#[test]
fn render_is_idempotent() {
    let font = example_font();
    let layout = font.layout("A\nA A");
    assert_eq!(layout.polylines(), layout.polylines());
    let mut first = layout.render();
    let mut second = layout.render();
    loop {
        let a = first.next_polyline();
        let b = second.next_polyline();
        assert_eq!(a, b);
        if a.is_none() {
            break;
        }
    }
}

#[test]
fn measure_multiline_takes_the_widest_line() {
    let font = example_font();
    // First line: one 'A' (6); second line: two 'A' (12).
    let layout = font.layout("A\nAA");
    assert_eq!(layout.measure(), (12, 20));
}

#[test]
fn newline_height_and_width_from_line_advances() {
    let font = example_font();
    // 'a' and 'b' are outside the covered range: each advances by the
    // fallback 4. Height is two line heights; width the wider line.
    let layout = font.layout("a\nbb");
    let (w, h) = layout.measure();
    assert_eq!(h, 2 * 10);
    assert_eq!(w, 8);
    assert_eq!(w, font.layout("a").measure().0.max(font.layout("bb").measure().0));
}

#[test]
fn newline_only_text_still_adds_line_heights() {
    let font = example_font();
    assert_eq!(font.layout("\n").measure(), (0, 20));
    assert_eq!(font.layout("\n\n").measure(), (0, 30));
    assert_eq!(font.layout("A\n").measure(), (6, 20));
}

#[test]
fn unsupported_character_measures_as_space() {
    let font = punct_font();
    // 'e acute' and '~' are outside the covered range; each must measure as a space.
    let with_unsupported = font.layout("\u{e9}!\n~");
    let with_spaces = font.layout(" !\n ");
    assert_eq!(with_unsupported.measure(), with_spaces.measure());
}

#[test]
fn unsupported_character_renders_no_polyline_but_advances() {
    let font = punct_font();
    // "~!": the unsupported '~' advances by the fallback 4, then '!' draws.
    let shifted = font.layout("~!").polylines();
    let plain = font.layout("!").polylines();
    assert_eq!(shifted.len(), 1);
    assert_eq!(plain.len(), 1);
    let den = 2;
    for (p_shifted, p_plain) in shifted[0].iter().zip(plain[0].iter()) {
        assert_eq!(p_shifted.0, p_plain.0 + 4 * den);
        assert_eq!(p_shifted.1, p_plain.1);
    }
}

#[test]
fn degenerate_stroke_contributes_nothing_and_advance_stands() {
    let font = punct_font();
    // '!' has a one-point stroke followed by a two-point stroke: one polyline.
    let one = font.layout("!").polylines();
    assert_eq!(one.len(), 1);
    assert_eq!(one[0].len(), 2);
    // Two '!' in a row: the second glyph's points sit exactly one advance
    // (3 font units, times the denominator 2) to the right.
    let two = font.layout("!!").polylines();
    assert_eq!(two.len(), 2);
    for (p_first, p_second) in two[0].iter().zip(two[1].iter()) {
        assert_eq!(p_second.0, p_first.0 + 3 * 2);
        assert_eq!(p_second.1, p_first.1);
    }
}

#[test]
fn glyph_with_only_degenerate_strokes_advances_only() {
    let font = punct_font();
    // '"' draws nothing, so "\"!" renders only the '!', shifted right by
    // exactly the '"' advance (5 font units, times the denominator 2).
    let shifted = font.layout("\"!").polylines();
    let plain = font.layout("!").polylines();
    assert_eq!(shifted.len(), 1);
    assert_eq!(plain.len(), 1);
    for (p_shifted, p_plain) in shifted[0].iter().zip(plain[0].iter()) {
        assert_eq!(p_shifted.0, p_plain.0 + 5 * 2);
        assert_eq!(p_shifted.1, p_plain.1);
    }
    assert_eq!(font.layout("\"").polylines().len(), 0);
    assert_eq!(font.layout("\"").measure().0, 5 * 2);
}

#[test]
fn rendered_points_stay_inside_measured_box() {
    // The example font draws within its advance cells, so every rendered
    // point lies inside the measured box.
    let font = example_font();
    let layout = font.layout("AA\nA");
    let (w, h) = layout.measure();
    let mut seen = 0;
    for poly in layout.polylines() {
        for (x, y) in poly {
            assert!(0 <= x && x <= w);
            assert!(-h <= y && y <= 0);
            seen += 1;
        }
    }
    assert_eq!(seen, 9);
}

#[test]
fn end_to_end_worked_example() {
    // Font size 14 over cap height 7: scale 2; sub-units are whole font units
    // here (denominator 1).
    let font = example_font();
    let layout = font.layout("A");
    let polys = layout.polylines();
    assert_eq!(polys, vec![vec![(0, -7), (3, 0), (6, -7)]]);

    let font_size = 14.0_f32;
    let scale = font_size / (font.cap_height as f32 * font.line_height_den as f32);
    assert_eq!(scale, 2.0);
    let px: Vec<(f32, f32)> = polys[0]
        .iter()
        .map(|&(x, y)| (x as f32 * scale, y as f32 * scale))
        .collect();
    assert_eq!(px, vec![(0.0, -14.0), (6.0, 0.0), (12.0, -14.0)]);

    let (w, h) = layout.measure();
    assert_eq!(w as f32 * scale, 12.0);
    // The measured height is exactly one line height.
    assert_eq!(h, 10);
}

#[test]
fn renderer_is_lazy_and_stays_exhausted() {
    let font = example_font();
    let layout = font.layout("AA");
    let mut renderer = layout.render();
    let first = renderer.next_polyline().expect("two glyphs render two polylines");
    assert_eq!(first, vec![(0, -7), (3, 0), (6, -7)]);
    let second = renderer.next_polyline().expect("two glyphs render two polylines");
    assert_eq!(second, vec![(6, -7), (9, 0), (12, -7)]);
    assert!(renderer.next_polyline().is_none());
    assert!(renderer.next_polyline().is_none());
}

#[test]
fn second_line_sits_one_line_height_lower() {
    let font = punct_font();
    // Line height: 3/2 of height 10 = 15 font units = 30 sub-units;
    // margin top: (3-2)*10 = 10 sub-units.
    let polys = font.layout("!\n!").polylines();
    assert_eq!(polys.len(), 2);
    for (p_top, p_bottom) in polys[0].iter().zip(polys[1].iter()) {
        assert_eq!(p_bottom.0, p_top.0);
        assert_eq!(p_bottom.1, p_top.1 - 30);
    }
    // First line cap top: y = -margin_top - den*(cap - y_raw) with y_raw = 7
    // at the cap: -10 - 0 = -10.
    assert_eq!(polys[0][0], (1 * 2, -10 - 2 * (7 - 7)));
}
