use vstd::prelude::*;

use crate::font::GlyphPoint;
use crate::font::StrokeFont;
use crate::layout::MAX_TEXT_LEN;
use crate::layout::StrokeTextLayout;

verus! {

/// A polyline of exec points, read as mathematical integer pairs.
pub open spec fn poly_view(s: Seq<(i64, i64)>) -> Seq<(int, int)> {
    s.map_values(|p: (i64, i64)| (p.0 as int, p.1 as int))
}

/// A sequence of exec polylines, read as mathematical integer pairs.
pub open spec fn polys_view(s: Seq<Vec<(i64, i64)>>) -> Seq<Seq<(int, int)>> {
    s.map_values(|v: Vec<(i64, i64)>| poly_view(v@))
}

/// Local layout-space position, in sub-units, of the raw font point `p` of a
/// glyph whose origin sits at cursor column `cx` (font units) on line `line`.
/// The first line's cap top sits at minus the top margin; y grows upwards.
pub open spec fn point_sub(font: StrokeFont, cx: int, line: int, p: GlyphPoint) -> (int, int) {
    (
        font.line_height_den * (cx + p.x),
        -font.margin_top_sub() - line * font.line_height_sub() - font.line_height_den * (
        font.cap_height - p.y),
    )
}

/// Number of points of stroke `k`.
pub open spec fn stroke_len(font: StrokeFont, k: int) -> int {
    font.strokes[k].end - font.strokes[k].start
}

/// The polyline of stroke `k` for a glyph origin at `(cx, line)`.
pub open spec fn stroke_points(font: StrokeFont, k: int, cx: int, line: int) -> Seq<(int, int)> {
    let s = font.strokes[k];
    Seq::new(
        (s.end - s.start) as nat,
        |j: int| point_sub(font, cx, line, font.positions[s.start + j]),
    )
}

/// Polylines of the strokes `k..end` of one glyph placed at `(cx, line)`,
/// in stroke order; degenerate strokes (fewer than two points) are skipped.
pub open spec fn glyph_polylines(font: StrokeFont, k: int, end: int, cx: int, line: int) -> Seq<
    Seq<(int, int)>,
>
    decreases end - k,
{
    if k >= end {
        Seq::empty()
    } else if stroke_len(font, k) < 2 {
        glyph_polylines(font, k + 1, end, cx, line)
    } else {
        seq![stroke_points(font, k, cx, line)] + glyph_polylines(font, k + 1, end, cx, line)
    }
}

/// Polylines of `text` from character `i` on, with the cursor at column `x`
/// (font units) on line `line`: a newline moves to the next line, an
/// unsupported character advances by the fallback advance, and a supported
/// character contributes its glyph's non-degenerate strokes and advances by
/// the glyph's advance.
pub open spec fn polylines_from(font: StrokeFont, text: Seq<char>, i: int, x: int, line: int) -> Seq<
    Seq<(int, int)>,
>
    decreases text.len() - i,
{
    if i < 0 || i >= text.len() {
        Seq::empty()
    } else if text[i] == '\n' {
        polylines_from(font, text, i + 1, 0, line + 1)
    } else if !font.spec_supported(text[i]) {
        polylines_from(font, text, i + 1, x + font.advance, line)
    } else {
        let g = font.glyphs[font.glyph_index_of(text[i])];
        glyph_polylines(font, g.strokes_start as int, g.strokes_end as int, x, line)
            + polylines_from(font, text, i + 1, x + g.advance, line)
    }
}

/// Every polyline of `text` in this font, in emission order, in sub-units.
pub open spec fn spec_polylines(font: StrokeFont, text: Seq<char>) -> Seq<Seq<(int, int)>> {
    polylines_from(font, text, 0, 0, 0)
}

/// Computes the exec-space position of one raw glyph point.
fn point_at(font: &StrokeFont, glyph_x: i64, line: i64, p: GlyphPoint) -> (r: (i64, i64))
    requires
        font.wf(),
        0 <= glyph_x <= 127 * (MAX_TEXT_LEN as int),
        0 <= line <= MAX_TEXT_LEN as int,
    ensures
        (r.0 as int, r.1 as int) == point_sub(*font, glyph_x as int, line as int, p),
{
    let den = font.line_height_den as i64;
    let height = font.height as i64;
    proof {
        assert(0 <= font.line_height_num as int * font.height as int <= 65025)
            by (nonlinear_arith)
            requires
                0 <= font.line_height_num as int <= 255,
                0 <= font.height as int <= 255,
        ;
        assert(0 <= font.line_height_den as int * font.height as int <= 65025)
            by (nonlinear_arith)
            requires
                0 <= font.line_height_den as int <= 255,
                0 <= font.height as int <= 255,
        ;
    }
    let lh = font.line_height_num as i64 * height;
    let gh = den * height;
    let margin = lh - gh;
    proof {
        assert(-(255 * 128) <= font.line_height_den as int * (glyph_x + p.x as i64) <= 255 * (127
            * (MAX_TEXT_LEN as int) + 127)) by (nonlinear_arith)
            requires
                0 <= font.line_height_den as int <= 255,
                -128 <= glyph_x + p.x as i64 <= 127 * (MAX_TEXT_LEN as int) + 127,
        ;
        assert(0 <= line as int * (lh as int) <= (MAX_TEXT_LEN as int) * 65025)
            by (nonlinear_arith)
            requires
                0 <= line as int <= MAX_TEXT_LEN as int,
                0 <= lh as int <= 65025,
        ;
        assert(-(255 * 128) <= font.line_height_den as int * (font.cap_height as int
            - p.y as int) <= 255 * 383) by (nonlinear_arith)
            requires
                0 <= font.line_height_den as int <= 255,
                -127 <= font.cap_height as int - p.y as int <= 383,
        ;
    }
    let px = den * (glyph_x + p.x as i64);
    let py = 0i64 - margin - line * lh - den * (font.cap_height as i64 - p.y as i64);
    (px, py)
}

/// A lazy renderer over one layout: an explicit state machine whose cursor
/// is the position in the text plus the pending stroke range of the glyph
/// being emitted. Each call of [`Self::next_polyline`] yields the next
/// non-degenerate stroke's polyline, in sub-unit coordinates.
pub struct StrokeTextRenderer<'a> {
    /// The font the text is laid out in.
    pub font: &'a StrokeFont,
    /// The text being rendered.
    pub text: &'a str,
    /// Character count of `text`.
    pub text_len: usize,
    /// Index of the next character to consume.
    pub pos: usize,
    /// Cursor column after the glyphs consumed so far, in font units.
    pub x: i64,
    /// Current line index, counted from the top.
    pub line: i64,
    /// Next stroke of the glyph being emitted.
    pub stroke_idx: usize,
    /// One past the last stroke of the glyph being emitted.
    pub stroke_end: usize,
    /// Cursor column at which the glyph being emitted starts, in font units.
    pub glyph_x: i64,
}

impl<'a> StrokeTextRenderer<'a> {
    /// Cursor sanity: indices in bounds and the cursor within the ranges
    /// that keep every coordinate representable.
    pub open spec fn wf(self) -> bool {
        &&& self.font.wf()
        &&& self.text@.len() <= MAX_TEXT_LEN
        &&& self.text_len == self.text@.len()
        &&& self.pos <= self.text_len
        &&& self.stroke_idx <= self.stroke_end <= self.font.strokes.len()
        &&& 0 <= self.x as int <= 127 * (self.pos as int)
        &&& 0 <= self.line as int <= self.pos as int
        &&& 0 <= self.glyph_x as int <= 127 * (self.pos as int)
    }

    /// The polylines this renderer has yet to emit: the rest of the current
    /// glyph's strokes, then everything laid out from the remaining text.
    pub open spec fn remaining(self) -> Seq<Seq<(int, int)>> {
        glyph_polylines(
            *self.font,
            self.stroke_idx as int,
            self.stroke_end as int,
            self.glyph_x as int,
            self.line as int,
        ) + polylines_from(*self.font, self.text@, self.pos as int, self.x as int, self.line as int)
    }
}

impl<'a> StrokeTextRenderer<'a> {
    /// Emits the next polyline, or `None` once the text is exhausted. Over
    /// successive calls a renderer emits exactly its initial
    /// [`Self::remaining`] sequence, element by element, in order.
    pub fn next_polyline(&mut self) -> (r: Option<Vec<(i64, i64)>>)
        requires
            old(self).wf(),
        ensures
            final(self).wf(),
            final(self).font == old(self).font,
            final(self).text == old(self).text,
            match r {
                Some(v) => {
                    &&& old(self).remaining().len() > 0
                    &&& poly_view(v@) == old(self).remaining()[0]
                    &&& final(self).remaining() == old(self).remaining().drop_first()
                },
                None => {
                    &&& old(self).remaining().len() == 0
                    &&& final(self).remaining() == old(self).remaining()
                },
            },
    {
        loop
            invariant
                self.wf(),
                self.font == old(self).font,
                self.text == old(self).text,
                self.remaining() == old(self).remaining(),
            decreases self.text_len - self.pos, self.stroke_end - self.stroke_idx,
        {
            let ghost rem_top = self.remaining();
            if self.stroke_idx < self.stroke_end {
                let font = self.font;
                let k = self.stroke_idx;
                let end = self.stroke_end;
                let gx = self.glyph_x;
                let ln = self.line;
                let s = font.strokes[k];
                self.stroke_idx = k + 1;
                if s.end - s.start >= 2 {
                    let ghost sp = stroke_points(*font, k as int, gx as int, ln as int);
                    proof {
                        assert(glyph_polylines(*font, k as int, end as int, gx as int, ln as int)
                            == seq![sp] + glyph_polylines(
                            *font,
                            k + 1 as int,
                            end as int,
                            gx as int,
                            ln as int,
                        ));
                        assert(rem_top =~= seq![sp] + self.remaining());
                    }
                    let mut v: Vec<(i64, i64)> = Vec::new();
                    let mut j: usize = s.start;
                    while j < s.end
                        invariant
                            font.wf(),
                            k < font.strokes.len(),
                            s == font.strokes[k as int],
                            s.start <= j <= s.end <= font.positions.len(),
                            0 <= gx as int <= 127 * (MAX_TEXT_LEN as int),
                            0 <= ln as int <= MAX_TEXT_LEN as int,
                            sp == stroke_points(*font, k as int, gx as int, ln as int),
                            v@.len() == j - s.start,
                            forall|t: int|
                                0 <= t < v@.len() ==> ((#[trigger] v@[t]).0 as int, v@[t].1 as int)
                                    == sp[t],
                        decreases s.end - j,
                    {
                        let p = font.positions[j];
                        let q = point_at(font, gx, ln, p);
                        v.push(q);
                        j = j + 1;
                    }
                    proof {
                        assert(poly_view(v@) =~= sp);
                        assert(old(self).remaining()[0] == sp);
                        assert(old(self).remaining().drop_first() =~= self.remaining());
                    }
                    return Some(v);
                }
                proof {
                    assert(stroke_len(*font, k as int) < 2);
                    assert(glyph_polylines(*font, k as int, end as int, gx as int, ln as int)
                        == glyph_polylines(*font, k + 1 as int, end as int, gx as int, ln as int));
                    assert(self.remaining() == rem_top);
                }
            } else if self.pos < self.text_len {
                let i = self.pos;
                let c = self.text.get_char(i);
                self.pos = i + 1;
                if c == '\n' {
                    self.x = 0;
                    self.line = self.line + 1;
                    proof {
                        assert(glyph_polylines(
                            *self.font,
                            self.stroke_idx as int,
                            self.stroke_end as int,
                            self.glyph_x as int,
                            self.line as int,
                        ) == Seq::<Seq<(int, int)>>::empty());
                        assert(self.remaining() =~= rem_top);
                    }
                } else {
                    match self.font.glyph_index(c) {
                        None => {
                            self.x = self.x + self.font.advance as i64;
                            proof {
                                assert(self.remaining() =~= rem_top);
                            }
                        },
                        Some(gi) => {
                            let g = self.font.glyphs[gi];
                            self.stroke_idx = g.strokes_start;
                            self.stroke_end = g.strokes_end;
                            self.glyph_x = self.x;
                            self.x = self.x + g.advance as i64;
                            proof {
                                assert(polylines_from(
                                    *self.font,
                                    self.text@,
                                    i as int,
                                    self.glyph_x as int,
                                    self.line as int,
                                ) == glyph_polylines(
                                    *self.font,
                                    g.strokes_start as int,
                                    g.strokes_end as int,
                                    self.glyph_x as int,
                                    self.line as int,
                                ) + polylines_from(
                                    *self.font,
                                    self.text@,
                                    i + 1 as int,
                                    self.x as int,
                                    self.line as int,
                                ));
                                assert(self.remaining() =~= rem_top);
                            }
                        },
                    }
                }
            } else {
                proof {
                    assert(self.remaining() =~= Seq::<Seq<(int, int)>>::empty());
                }
                return None;
            }
        }
    }
}

impl<'a> StrokeTextLayout<'a> {
    /// Starts rendering this layout. Each call yields a fresh, independent
    /// renderer that will emit exactly the polylines of
    /// [`spec_polylines`], in order.
    pub fn render(&self) -> (r: StrokeTextRenderer<'a>)
        requires
            self.wf(),
        ensures
            r.wf(),
            r.font == self.font,
            r.text@ == self.text@,
            r.remaining() == spec_polylines(*self.font, self.text@),
    {
        let r = StrokeTextRenderer {
            font: self.font,
            text: self.text,
            text_len: self.text.unicode_len(),
            pos: 0,
            x: 0,
            line: 0,
            stroke_idx: 0,
            stroke_end: 0,
            glyph_x: 0,
        };
        proof {
            assert(glyph_polylines(*self.font, 0, 0, 0, 0) == Seq::<Seq<(int, int)>>::empty());
            assert(r.remaining() =~= spec_polylines(*self.font, self.text@));
        }
        r
    }

    /// Renders the whole layout at once: the materialized polylines are
    /// exactly [`spec_polylines`], in emission order.
    pub fn polylines(&self) -> (r: Vec<Vec<(i64, i64)>>)
        requires
            self.wf(),
        ensures
            polys_view(r@) == spec_polylines(*self.font, self.text@),
    {
        let mut rend = self.render();
        let mut out: Vec<Vec<(i64, i64)>> = Vec::new();
        proof {
            assert(polys_view(out@) + rend.remaining() =~= spec_polylines(
                *self.font,
                self.text@,
            ));
        }
        loop
            invariant
                rend.wf(),
                rend.font == self.font,
                polys_view(out@) + rend.remaining() == spec_polylines(*self.font, self.text@),
            decreases rend.remaining().len(),
        {
            let ghost rem_top = rend.remaining();
            match rend.next_polyline() {
                Some(v) => {
                    let ghost out_top = out@;
                    out.push(v);
                    proof {
                        assert(out@ =~= out_top.push(v));
                        assert(polys_view(out@) =~= polys_view(out_top).push(poly_view(v@)));
                        assert(polys_view(out@) + rend.remaining() =~= polys_view(out_top)
                            + rem_top);
                    }
                },
                None => {
                    proof {
                        assert(polys_view(out@) =~= spec_polylines(*self.font, self.text@));
                    }
                    return out;
                },
            }
        }
    }
}

} // verus!
