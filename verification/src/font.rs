use vstd::prelude::*;

verus! {

/// A glyph outline point in font design units.
#[derive(Clone, Copy, PartialEq, Eq, Structural, Debug)]
pub struct GlyphPoint {
    pub x: i8,
    pub y: i8,
}

/// A contiguous range of indices into the point table, drawn as one open
/// polyline ("pen down, draw, pen up"). A stroke with fewer than two points
/// is degenerate and renders nothing.
#[derive(Clone, Copy, PartialEq, Eq, Structural, Debug)]
pub struct Stroke {
    pub start: usize,
    pub end: usize,
}

/// Advance and stroke range for one supported code point.
#[derive(Clone, Copy, PartialEq, Eq, Structural, Debug)]
pub struct Glyph {
    /// Horizontal advance in font units.
    pub advance: i8,
    /// First stroke index belonging to this glyph.
    pub strokes_start: usize,
    /// One past the last stroke index belonging to this glyph.
    pub strokes_end: usize,
}

/// A vector-stroke font: flat point/stroke/glyph tables plus global metrics.
///
/// All coordinates are integers in font design units. The baseline-to-baseline
/// line height is the rational `line_height_num / line_height_den` of the full
/// glyph height, so every layout quantity is exact in sub-units of
/// `1 / line_height_den` font units.
pub struct StrokeFont {
    /// Numerator of the line height ratio.
    pub line_height_num: u8,
    /// Denominator of the line height ratio.
    pub line_height_den: u8,
    /// First covered code point.
    pub ascii_start: u8,
    /// One past the last covered code point.
    pub ascii_end: u8,
    /// Full glyph height (cap plus descender) in font units.
    pub height: u8,
    /// Cap height in font units; the reference for the pixel scale.
    pub cap_height: u8,
    /// Advance used for code points outside the covered range.
    pub advance: i8,
    /// Raw glyph point positions.
    pub positions: Vec<GlyphPoint>,
    /// Stroke ranges into `positions`.
    pub strokes: Vec<Stroke>,
    /// Glyph advances and stroke ranges, indexed by code point offset.
    pub glyphs: Vec<Glyph>,
}

impl StrokeFont {
    /// Table invariant: every glyph's stroke range and every stroke's point
    /// range is in bounds, all advances are non-negative, and the metrics are
    /// non-degenerate (positive cap height, positive ratio denominator).
    pub open spec fn wf(self) -> bool {
        &&& 1 <= self.cap_height
        &&& 1 <= self.line_height_den
        &&& self.ascii_start <= self.ascii_end
        &&& self.glyphs.len() == self.ascii_end - self.ascii_start
        &&& 0 <= self.advance
        &&& forall|k: int| 0 <= k < self.glyphs.len() ==> {
                let g = #[trigger] self.glyphs[k];
                &&& 0 <= g.advance
                &&& g.strokes_start <= g.strokes_end <= self.strokes.len()
            }
        &&& forall|k: int| 0 <= k < self.strokes.len() ==> {
                let s = #[trigger] self.strokes[k];
                s.start <= s.end <= self.positions.len()
            }
    }

    /// Baseline-to-baseline line height, in sub-units.
    pub open spec fn line_height_sub(self) -> int {
        self.line_height_num * self.height
    }

    /// Full glyph height, in sub-units.
    pub open spec fn glyph_height_sub(self) -> int {
        self.line_height_den * self.height
    }

    /// Inset between the top of a line and its cap top, in sub-units.
    pub open spec fn margin_top_sub(self) -> int {
        self.line_height_sub() - self.glyph_height_sub()
    }

    /// Whether `c` has a glyph entry of its own.
    pub open spec fn spec_supported(self, c: char) -> bool {
        c as u32 <= 255 && self.ascii_start <= (c as u32) && (c as u32) < self.ascii_end
    }

    /// Table index of the glyph for a supported code point.
    pub open spec fn glyph_index_of(self, c: char) -> int {
        c as u32 - self.ascii_start
    }

    /// Horizontal advance of `c` in font units: the glyph's advance when `c`
    /// is supported, the fallback advance otherwise.
    pub open spec fn advance_of(self, c: char) -> int {
        if self.spec_supported(c) {
            self.glyphs[self.glyph_index_of(c)].advance as int
        } else {
            self.advance as int
        }
    }

    /// Looks up the glyph table slot for `c`, or `None` when `c` is outside
    /// the covered range.
    pub fn glyph_index(&self, c: char) -> (r: Option<usize>)
        requires
            self.wf(),
        ensures
            match r {
                Some(k) => self.spec_supported(c) && k == self.glyph_index_of(c)
                    && k < self.glyphs.len(),
                None => !self.spec_supported(c),
            },
    {
        let u = c as u32;
        if u <= 255 {
            let b = u as u8;
            if self.ascii_start <= b && b < self.ascii_end {
                Some((b - self.ascii_start) as usize)
            } else {
                None
            }
        } else {
            None
        }
    }

    /// The advance of `c` in font units; the fallback advance when `c` has
    /// no glyph of its own.
    pub fn char_advance(&self, c: char) -> (r: i8)
        requires
            self.wf(),
        ensures
            r as int == self.advance_of(c),
            0 <= r,
    {
        match self.glyph_index(c) {
            Some(k) => self.glyphs[k].advance,
            None => self.advance,
        }
    }

    /// Checks the table invariant at font construction time, so that the
    /// per-character paths never have to.
    pub fn validate(&self) -> (r: bool)
        ensures
            r == self.wf(),
    {
        if self.cap_height < 1 || self.line_height_den < 1 {
            return false;
        }
        if self.ascii_start > self.ascii_end {
            return false;
        }
        if self.glyphs.len() != (self.ascii_end - self.ascii_start) as usize {
            return false;
        }
        if self.advance < 0 {
            return false;
        }
        let mut k: usize = 0;
        while k < self.glyphs.len()
            invariant
                k <= self.glyphs.len(),
                forall|j: int| 0 <= j < k ==> {
                    let g = #[trigger] self.glyphs[j];
                    &&& 0 <= g.advance
                    &&& g.strokes_start <= g.strokes_end <= self.strokes.len()
                },
            decreases self.glyphs.len() - k,
        {
            let g = self.glyphs[k];
            if g.advance < 0 || g.strokes_start > g.strokes_end || g.strokes_end > self.strokes.len() {
                return false;
            }
            k = k + 1;
        }
        let mut k: usize = 0;
        while k < self.strokes.len()
            invariant
                k <= self.strokes.len(),
                forall|j: int| 0 <= j < k ==> {
                    let s = #[trigger] self.strokes[j];
                    s.start <= s.end <= self.positions.len()
                },
            decreases self.strokes.len() - k,
        {
            let s = self.strokes[k];
            if s.start > s.end || s.end > self.positions.len() {
                return false;
            }
            k = k + 1;
        }
        true
    }
}

} // verus!
