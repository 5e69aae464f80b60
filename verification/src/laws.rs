use vstd::prelude::*;
use vstd::arithmetic::mul::lemma_mul_inequality;
use vstd::arithmetic::mul::lemma_mul_nonnegative;
use vstd::math::max;

use crate::font::GlyphPoint;
use crate::font::StrokeFont;
use crate::layout::StrokeTextLayout;
use crate::layout::line_count_from;
use crate::layout::measure_width_from;
use crate::layout::spec_line_count;
use crate::layout::spec_measure_width;
use crate::render::glyph_polylines;
use crate::render::polylines_from;
use crate::render::spec_polylines;
use crate::render::stroke_len;
use crate::render::stroke_points;

verus! {

/// Measuring is idempotent: any two results that `measure` may return for
/// the same layout are identical.
pub proof fn lemma_measure_idempotent(l: &StrokeTextLayout, r1: (i64, i64), r2: (i64, i64))
    requires
        (r1.0 as int, r1.1 as int) == l.spec_measure(),
        (r2.0 as int, r2.1 as int) == l.spec_measure(),
    ensures
        r1 == r2,
{
}

/// Rendering is idempotent: any two full polyline sequences rendered from
/// the same layout are equal, point for point.
pub proof fn lemma_render_idempotent(
    l: &StrokeTextLayout,
    s1: Seq<Seq<(int, int)>>,
    s2: Seq<Seq<(int, int)>>,
)
    requires
        s1 == spec_polylines(*l.font, l.text@),
        s2 == spec_polylines(*l.font, l.text@),
    ensures
        s1 == s2,
{
}

/// Empty text measures zero width and exactly one line height, and renders
/// no polylines.
pub proof fn lemma_empty_text(l: &StrokeTextLayout)
    requires
        l.wf(),
        l.text@.len() == 0,
    ensures
        l.spec_measure().0 == 0,
        l.spec_measure().1 == l.font.line_height_sub(),
        spec_polylines(*l.font, l.text@).len() == 0,
{
    assert(spec_measure_width(*l.font, l.text@) == 0);
    assert(spec_line_count(l.text@) == 1);
}

/// Measuring from `j` on is insensitive to the characters before `s`:
/// restarting in the tail subrange gives the same width.
proof fn lemma_width_tail(font: StrokeFont, text: Seq<char>, s: int, j: int, cur: int)
    requires
        0 <= s <= j <= text.len(),
    ensures
        measure_width_from(font, text, j, cur) == measure_width_from(
            font,
            text.subrange(s, text.len() as int),
            j - s,
            cur,
        ),
    decreases text.len() - j,
{
    let post = text.subrange(s, text.len() as int);
    if j < text.len() {
        assert(post[j - s] == text[j]);
        if text[j] == '\n' {
            lemma_width_tail(font, text, s, j + 1, 0);
        } else {
            lemma_width_tail(font, text, s, j + 1, cur + font.advance_of(text[j]));
        }
    }
}

/// From any position before a newline at `i`, the measured width is the
/// maximum of the width up to the newline and the width of the rest.
proof fn lemma_width_prefix(font: StrokeFont, text: Seq<char>, i: int, j: int, cur: int)
    requires
        0 <= j <= i < text.len(),
        text[i] == '\n',
    ensures
        measure_width_from(font, text, j, cur) == max(
            measure_width_from(font, text.subrange(0, i), j, cur),
            spec_measure_width(font, text.subrange(i + 1, text.len() as int)),
        ),
    decreases i - j,
{
    let pre = text.subrange(0, i);
    if j == i {
        lemma_width_tail(font, text, i + 1, i + 1, 0);
        assert(measure_width_from(font, pre, i, cur) == cur);
    } else {
        assert(pre[j] == text[j]);
        if text[j] == '\n' {
            lemma_width_prefix(font, text, i, j + 1, 0);
        } else {
            lemma_width_prefix(font, text, i, j + 1, cur + font.advance_of(text[j]));
        }
    }
}

/// Counting lines from `j` on is insensitive to the characters before `s`.
proof fn lemma_count_tail(text: Seq<char>, s: int, j: int)
    requires
        0 <= s <= j <= text.len(),
    ensures
        line_count_from(text, j) == line_count_from(text.subrange(s, text.len() as int), j - s),
    decreases text.len() - j,
{
    let post = text.subrange(s, text.len() as int);
    if j < text.len() {
        assert(post[j - s] == text[j]);
        lemma_count_tail(text, s, j + 1);
    }
}

/// From any position before a newline at `i`, the line count is the sum of
/// the counts of the part up to the newline and of the rest.
proof fn lemma_count_prefix(text: Seq<char>, i: int, j: int)
    requires
        0 <= j <= i < text.len(),
        text[i] == '\n',
    ensures
        line_count_from(text, j) == line_count_from(text.subrange(0, i), j) + spec_line_count(
            text.subrange(i + 1, text.len() as int),
        ),
    decreases i - j,
{
    let pre = text.subrange(0, i);
    if j == i {
        lemma_count_tail(text, i + 1, i + 1);
        assert(line_count_from(pre, i) == 1);
    } else {
        assert(pre[j] == text[j]);
        lemma_count_prefix(text, i, j + 1);
    }
}

/// A newline splits the measurement: the width of a text with a newline at
/// `i` is the maximum of its two parts' widths, and its line count is the
/// sum of its two parts' line counts. In particular each newline adds one
/// full line height to the measured height.
pub proof fn lemma_newline_split(font: StrokeFont, text: Seq<char>, i: int)
    requires
        font.wf(),
        0 <= i < text.len(),
        text[i] == '\n',
    ensures
        spec_measure_width(font, text) == max(
            spec_measure_width(font, text.subrange(0, i)),
            spec_measure_width(font, text.subrange(i + 1, text.len() as int)),
        ),
        spec_line_count(text) == spec_line_count(text.subrange(0, i)) + spec_line_count(
            text.subrange(i + 1, text.len() as int),
        ),
{
    lemma_width_prefix(font, text, i, 0, 0);
    lemma_count_prefix(text, i, 0);
}

/// Characters with equal advances measure alike from any position on: used
/// to exchange an unsupported character for a space.
proof fn lemma_width_update(font: StrokeFont, text: Seq<char>, i: int, c: char, j: int, cur: int)
    requires
        0 <= i < text.len(),
        text[i] != '\n',
        c != '\n',
        font.advance_of(c) == font.advance_of(text[i]),
        0 <= j <= text.len(),
    ensures
        measure_width_from(font, text.update(i, c), j, cur) == measure_width_from(
            font,
            text,
            j,
            cur,
        ),
    decreases text.len() - j,
{
    let text2 = text.update(i, c);
    if j < text.len() {
        if text[j] == '\n' {
            lemma_width_update(font, text, i, c, j + 1, 0);
        } else {
            lemma_width_update(font, text, i, c, j + 1, cur + font.advance_of(text[j]));
        }
    }
}

/// Characters other than newline never change the line count.
proof fn lemma_count_update(text: Seq<char>, i: int, c: char, j: int)
    requires
        0 <= i < text.len(),
        text[i] != '\n',
        c != '\n',
        0 <= j <= text.len(),
    ensures
        line_count_from(text.update(i, c), j) == line_count_from(text, j),
    decreases text.len() - j,
{
    if j < text.len() {
        lemma_count_update(text, i, c, j + 1);
    }
}

/// Replacing a character that has no glyph of its own with any character of
/// the fallback advance — a space, under the convention that the fallback is
/// the space's advance — leaves the measured size unchanged. A newline is
/// no such character: it breaks the line instead of advancing.
pub proof fn lemma_unsupported_as_space(font: StrokeFont, text: Seq<char>, i: int, c: char)
    requires
        font.wf(),
        0 <= i < text.len(),
        text[i] != '\n',
        !font.spec_supported(text[i]),
        c != '\n',
        font.advance_of(c) == font.advance,
    ensures
        spec_measure_width(font, text.update(i, c)) == spec_measure_width(font, text),
        spec_line_count(text.update(i, c)) == spec_line_count(text),
{
    lemma_width_update(font, text, i, c, 0, 0);
    lemma_count_update(text, i, c, 0);
}

/// A degenerate stroke — fewer than two points — contributes no polyline.
pub proof fn lemma_degenerate_stroke(font: StrokeFont, k: int, end: int, cx: int, line: int)
    requires
        k < end,
        stroke_len(font, k) < 2,
    ensures
        glyph_polylines(font, k, end, cx, line) == glyph_polylines(font, k + 1, end, cx, line),
{
}

/// A glyph range all of whose strokes are degenerate emits nothing.
proof fn lemma_all_degenerate_empty(font: StrokeFont, k: int, end: int, cx: int, line: int)
    requires
        forall|t: int| k <= t < end ==> stroke_len(font, t) < 2,
    ensures
        glyph_polylines(font, k, end, cx, line).len() == 0,
    decreases end - k,
{
    if k < end {
        lemma_all_degenerate_empty(font, k + 1, end, cx, line);
    }
}

/// A supported glyph whose strokes are all degenerate emits no polyline but
/// still advances the cursor by exactly its declared advance.
pub proof fn lemma_degenerate_glyph(font: StrokeFont, text: Seq<char>, i: int, x: int, line: int)
    requires
        font.wf(),
        0 <= i < text.len(),
        text[i] != '\n',
        font.spec_supported(text[i]),
        forall|t: int|
            font.glyphs[font.glyph_index_of(text[i])].strokes_start <= t < font.glyphs[
                font.glyph_index_of(text[i])
            ].strokes_end ==> stroke_len(font, t) < 2,
    ensures
        polylines_from(font, text, i, x, line) == polylines_from(
            font,
            text,
            i + 1,
            x + font.glyphs[font.glyph_index_of(text[i])].advance,
            line,
        ),
{
    let g = font.glyphs[font.glyph_index_of(text[i])];
    lemma_all_degenerate_empty(font, g.strokes_start as int, g.strokes_end as int, x, line);
    assert(polylines_from(font, text, i, x, line) =~= polylines_from(
        font,
        text,
        i + 1,
        x + g.advance,
        line,
    ));
}

/// A glyph point inside its advance cell: between the glyph origin and the
/// glyph's advance horizontally, between the baseline and the cap height
/// vertically.
pub open spec fn point_in_cell(font: StrokeFont, p: GlyphPoint, adv: int) -> bool {
    0 <= p.x <= adv && 0 <= p.y <= font.cap_height
}

/// Every point of stroke `t` stays inside an advance cell of width `adv`.
pub open spec fn stroke_in_cell(font: StrokeFont, t: int, adv: int) -> bool {
    forall|j: int|
        font.strokes[t].start <= j < font.strokes[t].end ==> point_in_cell(
            font,
            #[trigger] font.positions[j],
            adv,
        )
}

/// Every stroke of glyph `k` stays inside the glyph's own advance cell.
pub open spec fn glyph_in_cell(font: StrokeFont, k: int) -> bool {
    forall|t: int|
        font.glyphs[k].strokes_start <= t < font.glyphs[k].strokes_end
            ==> #[trigger] stroke_in_cell(font, t, font.glyphs[k].advance as int)
}

/// Every glyph of the font draws inside its own advance cell.
pub open spec fn glyphs_in_cell(font: StrokeFont) -> bool {
    forall|k: int| 0 <= k < font.glyphs.len() ==> #[trigger] glyph_in_cell(font, k)
}

/// All points of one polyline lie in the box `[0, x_hi] x [y_lo, 0]`.
pub open spec fn points_within(pl: Seq<(int, int)>, x_hi: int, y_lo: int) -> bool {
    forall|b: int|
        0 <= b < pl.len() ==> {
            let q = #[trigger] pl[b];
            0 <= q.0 <= x_hi && y_lo <= q.1 <= 0
        }
}

/// All points of all polylines lie in the box `[0, x_hi] x [y_lo, 0]`.
pub open spec fn all_points_within(ps: Seq<Seq<(int, int)>>, x_hi: int, y_lo: int) -> bool {
    forall|a: int| 0 <= a < ps.len() ==> points_within(#[trigger] ps[a], x_hi, y_lo)
}

/// A larger box contains everything a smaller one does.
proof fn lemma_points_weaken(ps: Seq<Seq<(int, int)>>, x1: int, y1: int, x2: int, y2: int)
    requires
        all_points_within(ps, x1, y1),
        x1 <= x2,
        y2 <= y1,
    ensures
        all_points_within(ps, x2, y2),
{
    assert forall|a: int| 0 <= a < ps.len() implies points_within(#[trigger] ps[a], x2, y2) by {
        assert(points_within(ps[a], x1, y1));
        assert forall|b: int| 0 <= b < ps[a].len() implies {
            let q = #[trigger] ps[a][b];
            0 <= q.0 <= x2 && y2 <= q.1 <= 0
        } by {
            assert(0 <= ps[a][b].0 <= x1 && y1 <= ps[a][b].1 <= 0);
        }
    }
}

/// One stroke of a glyph placed at `(cx, line)` stays right of the glyph
/// origin, left of the glyph's advance, and within its own line's band.
proof fn lemma_stroke_points_in_box(font: StrokeFont, t: int, cx: int, line: int, adv: int)
    requires
        font.wf(),
        0 <= t < font.strokes.len(),
        stroke_in_cell(font, t, adv),
        font.cap_height <= font.height,
        font.line_height_den <= font.line_height_num,
        0 <= cx,
        0 <= line,
        0 <= adv,
    ensures
        points_within(
            stroke_points(font, t, cx, line),
            font.line_height_den * (cx + adv),
            -((line + 1) * font.line_height_sub()),
        ),
{
    let den = font.line_height_den as int;
    let lhs = font.line_height_sub();
    let sp = stroke_points(font, t, cx, line);
    lemma_mul_nonnegative(font.line_height_num as int, font.height as int);
    lemma_mul_nonnegative(font.line_height_den as int, font.height as int);
    lemma_mul_nonnegative(line, lhs);
    lemma_mul_inequality(font.cap_height as int, font.height as int, den);
    lemma_mul_inequality(
        font.line_height_den as int,
        font.line_height_num as int,
        font.height as int,
    );
    assert forall|b: int| 0 <= b < sp.len() implies {
        let q = #[trigger] sp[b];
        0 <= q.0 <= font.line_height_den * (cx + adv) && -((line + 1) * lhs) <= q.1 <= 0
    } by {
        let p = font.positions[font.strokes[t].start + b];
        assert(point_in_cell(font, p, adv));
        lemma_mul_nonnegative(den, cx + p.x);
        lemma_mul_inequality(cx + p.x, cx + adv, den);
        lemma_mul_nonnegative(den, font.cap_height - p.y);
        lemma_mul_inequality(font.cap_height - p.y, font.cap_height as int, den);
        assert((line + 1) * lhs == line * lhs + lhs) by (nonlinear_arith);
    }
}

/// All non-degenerate strokes `t0..end` of a glyph placed at `(cx, line)`
/// stay inside the glyph's advance cell on its own line.
proof fn lemma_glyph_polylines_in_box(
    font: StrokeFont,
    t0: int,
    end: int,
    cx: int,
    line: int,
    adv: int,
)
    requires
        font.wf(),
        0 <= t0,
        end <= font.strokes.len(),
        forall|t: int| t0 <= t < end ==> #[trigger] stroke_in_cell(font, t, adv),
        font.cap_height <= font.height,
        font.line_height_den <= font.line_height_num,
        0 <= cx,
        0 <= line,
        0 <= adv,
    ensures
        all_points_within(
            glyph_polylines(font, t0, end, cx, line),
            font.line_height_den * (cx + adv),
            -((line + 1) * font.line_height_sub()),
        ),
    decreases end - t0,
{
    let x_hi = font.line_height_den * (cx + adv);
    let y_lo = -((line + 1) * font.line_height_sub());
    if t0 < end {
        lemma_glyph_polylines_in_box(font, t0 + 1, end, cx, line, adv);
        let rest = glyph_polylines(font, t0 + 1, end, cx, line);
        if stroke_len(font, t0) >= 2 {
            lemma_stroke_points_in_box(font, t0, cx, line, adv);
            let sp = stroke_points(font, t0, cx, line);
            let whole = glyph_polylines(font, t0, end, cx, line);
            assert(whole == seq![sp] + rest);
            assert forall|a: int| 0 <= a < whole.len() implies points_within(
                #[trigger] whole[a],
                x_hi,
                y_lo,
            ) by {
                if a == 0 {
                    assert(whole[a] == sp);
                } else {
                    assert(whole[a] == rest[a - 1]);
                }
            }
        }
    }
}

/// Everything rendered from character `i` on, with the cursor at `(x, line)`,
/// stays inside the box measured from the same position.
proof fn lemma_polylines_in_box(font: StrokeFont, text: Seq<char>, i: int, x: int, line: int)
    requires
        font.wf(),
        glyphs_in_cell(font),
        font.cap_height <= font.height,
        font.line_height_den <= font.line_height_num,
        0 <= i <= text.len(),
        0 <= x,
        0 <= line,
    ensures
        all_points_within(
            polylines_from(font, text, i, x, line),
            font.line_height_den * measure_width_from(font, text, i, x),
            -((line + line_count_from(text, i)) * font.line_height_sub()),
        ),
    decreases text.len() - i,
{
    let den = font.line_height_den as int;
    let lhs = font.line_height_sub();
    let x_hi = den * measure_width_from(font, text, i, x);
    let y_lo = -((line + line_count_from(text, i)) * lhs);
    lemma_mul_nonnegative(font.line_height_num as int, font.height as int);
    crate::layout::lemma_line_count_bounds(text, i);
    if i < text.len() {
        if text[i] == '\n' {
            assert(measure_width_from(font, text, i, x) == max(
                x,
                measure_width_from(font, text, i + 1, 0),
            ));
            assert(line_count_from(text, i) == 1 + line_count_from(text, i + 1));
            assert(polylines_from(font, text, i, x, line) == polylines_from(
                font,
                text,
                i + 1,
                0,
                line + 1,
            ));
            lemma_polylines_in_box(font, text, i + 1, 0, line + 1);
            crate::layout::lemma_measure_width_bounds(font, text, i + 1, 0);
            assert(den * measure_width_from(font, text, i + 1, 0) <= den * measure_width_from(
                font,
                text,
                i,
                x,
            )) by (nonlinear_arith)
                requires
                    0 <= den,
                    measure_width_from(font, text, i + 1, 0) <= measure_width_from(
                        font,
                        text,
                        i,
                        x,
                    ),
            ;
            lemma_points_weaken(
                polylines_from(font, text, i, x, line),
                den * measure_width_from(font, text, i + 1, 0),
                -(((line + 1) + line_count_from(text, i + 1)) * lhs),
                x_hi,
                y_lo,
            );
        } else if !font.spec_supported(text[i]) {
            assert(measure_width_from(font, text, i, x) == measure_width_from(
                font,
                text,
                i + 1,
                x + font.advance,
            ));
            assert(line_count_from(text, i) == line_count_from(text, i + 1));
            assert(polylines_from(font, text, i, x, line) == polylines_from(
                font,
                text,
                i + 1,
                x + font.advance,
                line,
            ));
            lemma_polylines_in_box(font, text, i + 1, x + font.advance, line);
        } else {
            let k = font.glyph_index_of(text[i]);
            let g = font.glyphs[k];
            let adv = g.advance as int;
            assert(glyph_in_cell(font, k));
            assert(measure_width_from(font, text, i, x) == measure_width_from(
                font,
                text,
                i + 1,
                x + adv,
            ));
            assert(line_count_from(text, i) == line_count_from(text, i + 1));
            lemma_polylines_in_box(font, text, i + 1, x + adv, line);
            lemma_glyph_polylines_in_box(
                font,
                g.strokes_start as int,
                g.strokes_end as int,
                x,
                line,
                adv,
            );
            crate::layout::lemma_measure_width_bounds(font, text, i + 1, x + adv);
            assert(den * (x + adv) <= den * measure_width_from(font, text, i, x))
                by (nonlinear_arith)
                requires
                    0 <= den,
                    x + adv <= measure_width_from(font, text, i, x),
            ;
            assert((line + 1) * lhs <= (line + line_count_from(text, i)) * lhs)
                by (nonlinear_arith)
                requires
                    0 <= lhs,
                    line + 1 <= line + line_count_from(text, i),
            ;
            let head = glyph_polylines(font, g.strokes_start as int, g.strokes_end as int, x, line);
            let rest = polylines_from(font, text, i + 1, x + adv, line);
            lemma_points_weaken(head, den * (x + adv), -((line + 1) * lhs), x_hi, y_lo);
            let whole = polylines_from(font, text, i, x, line);
            assert(whole == head + rest);
            assert forall|a: int| 0 <= a < whole.len() implies points_within(
                #[trigger] whole[a],
                x_hi,
                y_lo,
            ) by {
                if a < head.len() {
                    assert(whole[a] == head[a]);
                } else {
                    assert(whole[a] == rest[a - head.len()]);
                }
            }
        }
    }
}

/// Measure/render consistency: for a font whose glyphs draw inside their own
/// advance cells (points between baseline and cap height, between glyph
/// origin and advance) and whose line height ratio is at least one, every
/// rendered point lies inside the measured box — x between zero and the
/// measured width, y between minus the measured height and zero.
pub proof fn lemma_render_within_measure(font: StrokeFont, text: Seq<char>)
    requires
        font.wf(),
        glyphs_in_cell(font),
        font.cap_height <= font.height,
        font.line_height_den <= font.line_height_num,
    ensures
        all_points_within(
            spec_polylines(font, text),
            font.line_height_den * spec_measure_width(font, text),
            -(spec_line_count(text) * font.line_height_sub()),
        ),
{
    lemma_polylines_in_box(font, text, 0, 0, 0);
}

} // verus!
