use vstd::prelude::*;
use vstd::arithmetic::mul::lemma_mul_upper_bound;
use vstd::math::max;

use crate::font::StrokeFont;

verus! {

/// Longest text, in characters, that a layout accepts; keeps every
/// intermediate width and height inside `i64`.
pub const MAX_TEXT_LEN: usize = 0x7fff_ffff;

/// Running maximum line width of `text` from position `i` on, in font units,
/// with `cur` the width of the line under construction. A newline commits the
/// current line into the maximum and starts a fresh one; every other
/// character adds its advance.
pub open spec fn measure_width_from(font: StrokeFont, text: Seq<char>, i: int, cur: int) -> int
    decreases text.len() - i,
{
    if i < 0 || i >= text.len() {
        cur
    } else if text[i] == '\n' {
        max(cur, measure_width_from(font, text, i + 1, 0))
    } else {
        measure_width_from(font, text, i + 1, cur + font.advance_of(text[i]))
    }
}

/// Width of the widest line of `text`, in font units.
pub open spec fn spec_measure_width(font: StrokeFont, text: Seq<char>) -> int {
    measure_width_from(font, text, 0, 0)
}

/// Number of lines of `text` from position `i` on: one more than the number
/// of remaining newlines, so empty text still counts one line.
pub open spec fn line_count_from(text: Seq<char>, i: int) -> int
    decreases text.len() - i,
{
    if i < 0 || i >= text.len() {
        1
    } else if text[i] == '\n' {
        1 + line_count_from(text, i + 1)
    } else {
        line_count_from(text, i + 1)
    }
}

/// Number of lines of `text`; always at least one.
pub open spec fn spec_line_count(text: Seq<char>) -> int {
    line_count_from(text, 0)
}

/// The committed width never exceeds the final maximum, and each character
/// contributes at most the largest representable advance.
pub proof fn lemma_measure_width_bounds(font: StrokeFont, text: Seq<char>, i: int, cur: int)
    requires
        font.wf(),
        0 <= i <= text.len(),
        0 <= cur,
    ensures
        cur <= measure_width_from(font, text, i, cur) <= cur + 127 * (text.len() - i),
    decreases text.len() - i,
{
    if i < text.len() {
        if text[i] == '\n' {
            lemma_measure_width_bounds(font, text, i + 1, 0);
        } else {
            lemma_measure_width_bounds(font, text, i + 1, cur + font.advance_of(text[i]));
        }
    }
}

/// Line counts lie between one and one more than the number of characters.
pub proof fn lemma_line_count_bounds(text: Seq<char>, i: int)
    requires
        0 <= i <= text.len(),
    ensures
        1 <= line_count_from(text, i) <= 1 + (text.len() - i),
    decreases text.len() - i,
{
    if i < text.len() {
        lemma_line_count_bounds(text, i + 1);
    }
}

/// A text layout: a font, a text, and the per-layout metrics derived from
/// the font, all in exact sub-unit coordinates. Immutable once created;
/// `measure` and `render` may be called any number of times.
pub struct StrokeTextLayout<'a> {
    /// The font the text is laid out in.
    pub font: &'a StrokeFont,
    /// The text to lay out.
    pub text: &'a str,
    /// Baseline-to-baseline line height, in sub-units.
    pub line_height: i64,
    /// Inset between the top of the first line and its cap top, in sub-units.
    pub margin_top: i64,
    /// Advance of an unsupported code point, in font units.
    pub space_advance: i64,
}

impl<'a> StrokeTextLayout<'a> {
    /// The derived metrics match the font, the font table is well formed,
    /// and the text is short enough for exact arithmetic.
    pub open spec fn wf(self) -> bool {
        &&& self.font.wf()
        &&& self.text@.len() <= MAX_TEXT_LEN
        &&& self.line_height == self.font.line_height_sub()
        &&& self.margin_top == self.font.margin_top_sub()
        &&& self.space_advance == self.font.advance
    }

    /// The measured size of this layout, in sub-units: the widest line's
    /// advance sum, and one line height per line.
    pub open spec fn spec_measure(self) -> (int, int) {
        (
            self.font.line_height_den * spec_measure_width(*self.font, self.text@),
            spec_line_count(self.text@) * self.font.line_height_sub(),
        )
    }

    /// Computes the bounding size of the laid-out text, in sub-units: the
    /// width of the widest line and the summed line heights. Pure and
    /// deterministic; the result is pinned by [`Self::spec_measure`].
    pub fn measure(&self) -> (r: (i64, i64))
        requires
            self.wf(),
        ensures
            (r.0 as int, r.1 as int) == self.spec_measure(),
    {
        let font = self.font;
        let text = self.text;
        let n = text.unicode_len();
        let mut max_w: i64 = 0;
        let mut line_w: i64 = 0;
        let mut newlines: i64 = 0;
        let mut i: usize = 0;
        proof {
            lemma_measure_width_bounds(*font, text@, 0, 0);
        }
        while i < n
            invariant
                font.wf(),
                n == text@.len(),
                n <= MAX_TEXT_LEN,
                i <= n,
                0 <= line_w as int <= 127 * (i as int),
                0 <= max_w as int <= 127 * (i as int),
                0 <= newlines as int <= i as int,
                spec_measure_width(*font, text@) == max(
                    max_w as int,
                    measure_width_from(*font, text@, i as int, line_w as int),
                ),
                spec_line_count(text@) == newlines + line_count_from(text@, i as int),
            decreases n - i,
        {
            let c = text.get_char(i);
            if c == '\n' {
                if line_w > max_w {
                    max_w = line_w;
                }
                line_w = 0;
                newlines = newlines + 1;
            } else {
                let a = font.char_advance(c);
                line_w = line_w + a as i64;
            }
            i = i + 1;
        }
        if line_w > max_w {
            max_w = line_w;
        }
        proof {
            lemma_line_count_bounds(text@, n as int);
            lemma_mul_upper_bound(
                self.font.line_height_den as int,
                255,
                max_w as int,
                127 * MAX_TEXT_LEN as int,
            );
            lemma_mul_upper_bound(
                self.font.line_height_num as int,
                255,
                self.font.height as int,
                255,
            );
            lemma_mul_upper_bound(newlines + 1, 1 + MAX_TEXT_LEN as int, self.line_height as int, 65025);
        }
        let w = self.font.line_height_den as i64 * max_w;
        let h = (newlines + 1) * self.line_height;
        (w, h)
    }
}

impl StrokeFont {
    /// Lays `text` out in this font. The layout only borrows the font and
    /// the text; measuring and rendering stay lazy.
    pub fn layout<'a>(&'a self, text: &'a str) -> (r: StrokeTextLayout<'a>)
        requires
            self.wf(),
            text@.len() <= MAX_TEXT_LEN,
        ensures
            r.wf(),
            r.font == self,
            r.text@ == text@,
    {
        proof {
            lemma_mul_upper_bound(self.line_height_num as int, 255, self.height as int, 255);
            lemma_mul_upper_bound(self.line_height_den as int, 255, self.height as int, 255);
        }
        StrokeTextLayout {
            font: self,
            text,
            line_height: self.line_height_num as i64 * self.height as i64,
            margin_top: self.line_height_num as i64 * self.height as i64
                - self.line_height_den as i64 * self.height as i64,
            space_advance: self.advance as i64,
        }
    }
}

} // verus!
