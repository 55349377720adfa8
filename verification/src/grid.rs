//! The character grid: the live text buffer and its mapping to glyphs.
//!
//! The grid holds the typed characters in row-major order. Its column and
//! row counts are derived from the window size and the font size every time
//! they are needed, never cached: a cell is half as wide as it is tall, so
//! `columns = floor(window_width / (font_size / 2))` and
//! `rows = floor(window_height / font_size)`. [`CharacterGrid::glyphs`]
//! positions every buffered character, centering the `columns x rows`
//! footprint in the viewport; characters beyond that capacity continue the
//! same formula and simply run off the bottom.

use vstd::prelude::*;
use vstd::arithmetic::div_mod::{lemma_fundamental_div_mod, lemma_mod_division_less_than_divisor,
    lemma_mod_multiples_basic, lemma_div_nonincreasing, lemma_div_of0};
use vstd::arithmetic::mul::{lemma_mul_upper_bound, lemma_mul_nonnegative};
use crate::frac::{Frac, frac_is};
use crate::geometry::{Vec2, Glyph, glyph_wf};

verus! {

/// Number of glyph columns in the atlas image.
pub const ATLAS_COLUMNS: u32 = 19;

/// Number of glyph rows in the atlas image.
pub const ATLAS_ROWS: u32 = 5;

/// Largest accepted font size, in pixels.
pub const MAX_FONT_SIZE: u32 = 65535;

/// Largest accepted window dimension, in pixels.
pub const MAX_WINDOW_DIM: u32 = 1048576;

/// Characters the atlas can draw: printable ASCII, `' '` through `'~'`.
pub open spec fn is_printable_ascii(c: char) -> bool {
    32 <= c as u32 <= 126
}

/// Whitespace for word deletion: blank, tab, line feed or carriage return.
pub open spec fn is_space_char(c: char) -> bool {
    c == ' ' || c == '\t' || c == '\n' || c == '\r'
}

/// Atlas column of `c`: printable ASCII is laid out row-major from `' '`;
/// anything else shares cell `(0, 0)` with the blank.
pub open spec fn atlas_col(c: char) -> int {
    if is_printable_ascii(c) {
        (c as u32 - 32) % (ATLAS_COLUMNS as int)
    } else {
        0
    }
}

/// Atlas row of `c`; see [`atlas_col`].
pub open spec fn atlas_row(c: char) -> int {
    if is_printable_ascii(c) {
        (c as u32 - 32) / (ATLAS_COLUMNS as int)
    } else {
        0
    }
}

/// The buffer after a backspace: the last character is removed; an empty
/// buffer stays empty.
pub open spec fn pop_spec(s: Seq<char>) -> Seq<char> {
    if s.len() == 0 {
        s
    } else {
        s.drop_last()
    }
}

/// `s` with its trailing run of whitespace removed.
pub open spec fn drop_trailing_spaces(s: Seq<char>) -> Seq<char>
    decreases s.len(),
{
    if s.len() > 0 && is_space_char(s.last()) {
        drop_trailing_spaces(s.drop_last())
    } else {
        s
    }
}

/// `s` with its trailing run of non-whitespace removed.
pub open spec fn drop_trailing_word(s: Seq<char>) -> Seq<char>
    decreases s.len(),
{
    if s.len() > 0 && !is_space_char(s.last()) {
        drop_trailing_word(s.drop_last())
    } else {
        s
    }
}

/// The buffer after a word deletion: trailing whitespace goes first, then
/// the word before it, back to the nearest whitespace boundary.
pub open spec fn delete_word_spec(s: Seq<char>) -> Seq<char> {
    drop_trailing_word(drop_trailing_spaces(s))
}

/// The buffer after an input event, given the current column count:
/// control-w deletes a word and any other control chord does nothing;
/// backspace pops; return or line feed pads to the next row boundary (a
/// no-op when there are no columns); any printable-ASCII or whitespace
/// character is appended; everything else is ignored.
pub open spec fn event_result(s: Seq<char>, cols: int, c: char, ctrl: bool) -> Seq<char> {
    if ctrl {
        if c == 'w' {
            delete_word_spec(s)
        } else {
            s
        }
    } else if c == '\u{f02a}' {
        pop_spec(s)
    } else if c == '\n' || c == '\u{f028}' {
        if cols <= 0 {
            s
        } else {
            s + Seq::new((cols - s.len() as int % cols) as nat, |q: int| ' ')
        }
    } else if is_printable_ascii(c) || is_space_char(c) {
        s.push(c)
    } else {
        s
    }
}

/// The glyph of buffer cell `k` of grid `g` is `out`.
///
/// Cell `k` sits at column `k % columns`, row `k / columns`. The
/// `columns x rows` footprint is centered in the window: each cell is
/// `font_size / (2 window_width)` wide and `font_size / window_height` tall
/// in the unit square, and the horizontal offset of the footprint is
/// `(1 - columns * cell_width) / 2`, so over the common denominator
/// `4 window_width` the x position is
/// `(2 window_width - columns * font_size + 2 column * font_size)`, and
/// likewise vertically. The character picks the atlas cell, each a
/// `1 / ATLAS_COLUMNS` by `1 / ATLAS_ROWS` slice of the texture.
pub open spec fn glyph_at_spec(g: &CharacterGrid, k: int, out: Glyph) -> bool {
    let f = g.spec_font_size() as int;
    let w = g.spec_window().0 as int;
    let h = g.spec_window().1 as int;
    let cols = g.spec_columns();
    let rows = g.spec_rows();
    let c = g.cells()[k];
    &&& glyph_wf(out)
    &&& frac_is(out.size.x, f, 2 * w)
    &&& frac_is(out.size.y, f, h)
    &&& frac_is(out.pos.x, 2 * w - cols * f + 2 * ((k % cols) * f), 4 * w)
    &&& frac_is(out.pos.y, h - rows * f + 2 * ((k / cols) * f), 2 * h)
    &&& frac_is(out.uv_size.x, 1, ATLAS_COLUMNS as int)
    &&& frac_is(out.uv_size.y, 1, ATLAS_ROWS as int)
    &&& frac_is(out.uv_pos.x, atlas_col(c), ATLAS_COLUMNS as int)
    &&& frac_is(out.uv_pos.y, atlas_row(c), ATLAS_ROWS as int)
}

/// The live text buffer together with the font size and window size its
/// grid dimensions are derived from.
#[derive(Debug)]
pub struct CharacterGrid {
    font_size: u32,
    window_size: (u32, u32),
    cells: Vec<char>,
}

impl CharacterGrid {
    /// The font size this grid lays out, in pixels.
    pub closed spec fn spec_font_size(&self) -> u32 {
        self.font_size
    }

    /// The window size this grid fills, in pixels.
    pub closed spec fn spec_window(&self) -> (u32, u32) {
        self.window_size
    }

    /// The buffered characters, oldest first.
    pub closed spec fn cells(&self) -> Seq<char> {
        self.cells@
    }

    /// Well-formed grid: the font size is positive and both it and the
    /// window dimensions are small enough that all layout arithmetic is
    /// exact.
    pub open spec fn wf(&self) -> bool {
        &&& 0 < self.spec_font_size() <= MAX_FONT_SIZE
        &&& self.spec_window().0 <= MAX_WINDOW_DIM
        &&& self.spec_window().1 <= MAX_WINDOW_DIM
    }

    /// Number of character columns: cells are half a font size wide.
    pub open spec fn spec_columns(&self) -> int {
        2 * self.spec_window().0 / (self.spec_font_size() as int)
    }

    /// Number of character rows: cells are one font size tall.
    pub open spec fn spec_rows(&self) -> int {
        self.spec_window().1 as int / (self.spec_font_size() as int)
    }

    /// An empty grid for the given font and window size.
    pub fn new(font_size: u32, window_size: (u32, u32)) -> (r: CharacterGrid)
        requires
            0 < font_size <= MAX_FONT_SIZE,
            window_size.0 <= MAX_WINDOW_DIM,
            window_size.1 <= MAX_WINDOW_DIM,
        ensures
            r.wf(),
            r.spec_font_size() == font_size,
            r.spec_window() == window_size,
            r.cells() == Seq::<char>::empty(),
    {
        CharacterGrid { font_size, window_size, cells: Vec::new() }
    }

    /// Retargets the grid to a resized window, keeping the buffer. The
    /// grid dimensions are derived, never cached, so the next call that
    /// needs them sees the new size.
    pub fn set_window_size(&mut self, window_size: (u32, u32))
        requires
            window_size.0 <= MAX_WINDOW_DIM,
            window_size.1 <= MAX_WINDOW_DIM,
        ensures
            final(self).spec_font_size() == old(self).spec_font_size(),
            final(self).spec_window() == window_size,
            final(self).cells() == old(self).cells(),
    {
        self.window_size = window_size;
    }

    /// The grid dimensions `(columns, rows)` derived from the window and
    /// font size.
    pub fn size(&self) -> (r: (usize, usize))
        requires
            self.wf(),
        ensures
            r.0 == self.spec_columns(),
            r.1 == self.spec_rows(),
    {
        let f = self.font_size as u64;
        let double_width = 2 * (self.window_size.0 as u64);
        let cols = double_width / f;
        let rows = (self.window_size.1 as u64) / f;
        proof {
            assert(cols <= double_width && rows <= self.window_size.1) by (nonlinear_arith)
                requires
                    f >= 1,
                    cols == double_width / f,
                    rows == (self.window_size.1 as u64) / f,
                    double_width >= 0,
            ;
        }
        (cols as usize, rows as usize)
    }

    /// Appends every character of `text` to the buffer, in order. No
    /// wrapping or capacity check happens here; layout is resolved at glyph
    /// generation time.
    pub fn insert_text(&mut self, text: &str)
        ensures
            final(self).spec_font_size() == old(self).spec_font_size(),
            final(self).spec_window() == old(self).spec_window(),
            final(self).cells() == old(self).cells() + text@,
    {
        let ghost orig = *self;
        let n = text.unicode_len();
        let mut i: usize = 0;
        while i < n
            invariant
                i <= n,
                n == text@.len(),
                self.font_size == orig.font_size,
                self.window_size == orig.window_size,
                self.cells@ == orig.cells@ + text@.subrange(0, i as int),
            decreases n - i,
        {
            let c = text.get_char(i);
            self.cells.push(c);
            proof {
                assert(text@.subrange(0, i + 1) =~= text@.subrange(0, i as int).push(text@[i as int]));
            }
            i = i + 1;
        }
        proof {
            assert(text@.subrange(0, n as int) =~= text@);
        }
    }

    /// Removes the last character; backspace. Empty buffers are left alone.
    pub fn pop(&mut self)
        ensures
            final(self).spec_font_size() == old(self).spec_font_size(),
            final(self).spec_window() == old(self).spec_window(),
            final(self).cells() == pop_spec(old(self).cells()),
    {
        if self.cells.len() > 0 {
            self.cells.pop();
            proof {
                assert(self.cells@ =~= old(self).cells@.drop_last());
            }
        }
    }

    /// Removes the trailing whitespace run and the word before it;
    /// control-backspace. Never underflows an empty buffer.
    pub fn delete_word(&mut self)
        ensures
            final(self).spec_font_size() == old(self).spec_font_size(),
            final(self).spec_window() == old(self).spec_window(),
            final(self).cells() == delete_word_spec(old(self).cells()),
    {
        let ghost whole = *self;
        let ghost orig = self.cells@;
        let mut n = self.cells.len();
        proof {
            assert(orig.subrange(0, n as int) =~= orig);
        }
        while n > 0 && is_space(self.cells[n - 1])
            invariant
                *self == whole,
                orig == whole.cells@,
                n <= orig.len(),
                drop_trailing_spaces(orig) == drop_trailing_spaces(orig.subrange(0, n as int)),
            decreases n,
        {
            proof {
                let s = orig.subrange(0, n as int);
                assert(s.last() == orig[n - 1]);
                assert(s.drop_last() =~= orig.subrange(0, n - 1));
            }
            n = n - 1;
        }
        proof {
            assert(drop_trailing_spaces(orig) == orig.subrange(0, n as int));
        }
        let ghost spaced = n as int;
        while n > 0 && !is_space(self.cells[n - 1])
            invariant
                *self == whole,
                orig == whole.cells@,
                n as int <= spaced <= orig.len(),
                drop_trailing_spaces(orig) == orig.subrange(0, spaced),
                drop_trailing_word(orig.subrange(0, spaced)) == drop_trailing_word(
                    orig.subrange(0, n as int),
                ),
            decreases n,
        {
            proof {
                let s = orig.subrange(0, n as int);
                assert(s.last() == orig[n - 1]);
                assert(s.drop_last() =~= orig.subrange(0, n - 1));
            }
            n = n - 1;
        }
        proof {
            assert(drop_trailing_word(orig.subrange(0, spaced)) == orig.subrange(0, n as int));
        }
        self.cells.truncate(n);
    }

    /// Pads the buffer with blanks up to the next multiple of the column
    /// count; return/enter. A buffer already at a row boundary advances by
    /// a whole row. With zero columns there is no row to advance to and the
    /// buffer is left alone.
    pub fn fill_line(&mut self)
        requires
            old(self).wf(),
        ensures
            final(self).spec_font_size() == old(self).spec_font_size(),
            final(self).spec_window() == old(self).spec_window(),
            old(self).spec_columns() == 0 ==> final(self).cells() == old(self).cells(),
            old(self).spec_columns() > 0 ==> final(self).cells() == old(self).cells() + Seq::new(
                (old(self).spec_columns() - old(self).cells().len() as int % old(self).spec_columns()) as nat,
                |q: int| ' ',
            ),
            old(self).spec_columns() > 0 ==> final(self).cells().len() as int % old(self).spec_columns() == 0,
            old(self).spec_columns() > 0 ==> old(self).cells().len() < final(self).cells().len() <= old(
                self,
            ).cells().len() + old(self).spec_columns(),
    {
        let ghost orig = *self;
        let cols = self.size().0;
        if cols == 0 {
            return;
        }
        let len = self.cells.len();
        let rem = len % cols;
        let need = cols - rem;
        let mut q: usize = 0;
        while q < need
            invariant
                q <= need,
                self.font_size == orig.font_size,
                self.window_size == orig.window_size,
                self.cells@ == orig.cells@ + Seq::new(q as nat, |p: int| ' '),
            decreases need - q,
        {
            self.cells.push(' ');
            proof {
                assert(Seq::new((q + 1) as nat, |p: int| ' ') =~= Seq::new(q as nat, |p: int| ' ').push(
                    ' ',
                ));
            }
            q = q + 1;
        }
        proof {
            let c = orig.spec_columns();
            let l = orig.cells@.len() as int;
            lemma_fundamental_div_mod(l, c);
            lemma_mod_division_less_than_divisor(l, c);
            assert(self.cells@.len() == c * (l / c) + (l % c) + (c - l % c));
            assert(self.cells@.len() == c * (l / c) + c);
            assert(c * (l / c) + c == ((l / c) + 1) * c) by (nonlinear_arith);
            lemma_mod_multiples_basic((l / c) + 1, c);
        }
    }

    /// Applies one input event to the buffer; see [`event_result`] for the
    /// mapping from events to edits.
    pub fn apply_char_event(&mut self, character: char, ctrl: bool)
        requires
            old(self).wf(),
        ensures
            final(self).spec_font_size() == old(self).spec_font_size(),
            final(self).spec_window() == old(self).spec_window(),
            final(self).cells() == event_result(
                old(self).cells(),
                old(self).spec_columns(),
                character,
                ctrl,
            ),
    {
        if ctrl {
            if character == 'w' {
                self.delete_word();
            }
        } else if character == '\u{f02a}' {
            self.pop();
        } else if character == '\n' || character == '\u{f028}' {
            self.fill_line();
        } else {
            let code = character as u32;
            if (32 <= code && code <= 126) || is_space(character) {
                self.cells.push(character);
            }
        }
    }

    /// The glyph for every buffered character, in buffer order: a pure
    /// function of the current state, recomputed from scratch on every
    /// call. Characters beyond the `columns x rows` capacity keep the same
    /// placement formula and run off the viewport; that is accepted
    /// overflow, not an error.
    pub fn glyphs(&self) -> (r: Vec<Glyph>)
        requires
            self.wf(),
            self.cells().len() > 0 ==> self.spec_columns() >= 1 && self.spec_window().1 >= 1,
        ensures
            r@.len() == self.cells().len(),
            forall|k: int| 0 <= k < r@.len() ==> glyph_at_spec(self, k, #[trigger] r@[k]),
    {
        let mut out: Vec<Glyph> = Vec::new();
        let n = self.cells.len();
        if n == 0 {
            return out;
        }
        let dims = self.size();
        let cols = dims.0;
        let row_count = dims.1;
        proof {
            lemma_div_nonincreasing(2 * self.spec_window().0 as int, self.spec_font_size() as int);
            lemma_div_nonincreasing(self.spec_window().1 as int, self.spec_font_size() as int);
            // a zero-width window would mean zero columns
            if self.spec_window().0 == 0 {
                lemma_div_of0(self.spec_font_size() as int);
                assert(self.spec_columns() == 0);
            }
        }
        let f = self.font_size as i128;
        let w = self.window_size.0 as i128;
        let h = self.window_size.1 as i128;
        proof {
            lemma_mul_upper_bound(cols as int, 2097152, f as int, 65535);
            lemma_mul_upper_bound(row_count as int, 1048576, f as int, 65535);
            lemma_mul_nonnegative(cols as int, f as int);
            lemma_mul_nonnegative(row_count as int, f as int);
            lemma_fundamental_div_mod(2 * w as int, f as int);
            lemma_mod_division_less_than_divisor(2 * w as int, f as int);
            lemma_fundamental_div_mod(h as int, f as int);
            lemma_mod_division_less_than_divisor(h as int, f as int);
        }
        let cf = (cols as i128) * f;
        let rf = (row_count as i128) * f;
        let mut k: usize = 0;
        while k < n
            invariant
                self.wf(),
                k <= n,
                n == self.cells@.len(),
                cols as int == self.spec_columns(),
                row_count as int == self.spec_rows(),
                1 <= cols <= 2097152,
                row_count <= 1048576,
                f == self.spec_font_size() as i128,
                w == self.spec_window().0 as i128,
                h == self.spec_window().1 as i128,
                1 <= f <= 65535,
                1 <= w <= 1048576,
                1 <= h <= 1048576,
                cf == cols as i128 * f,
                rf == row_count as i128 * f,
                0 <= cf <= 2 * w,
                0 <= rf <= h,
                out@.len() == k,
                forall|kk: int| 0 <= kk < k ==> glyph_at_spec(self, kk, #[trigger] out@[kk]),
            decreases n - k,
        {
            let i = k % cols;
            let j = k / cols;
            let ch = self.cells[k];
            let code = ch as u32;
            let mut a: u32 = 0;
            let mut b: u32 = 0;
            if 32 <= code && code <= 126 {
                let v = code - 32;
                a = v % ATLAS_COLUMNS;
                b = v / ATLAS_COLUMNS;
            }
            let ii = i as i128;
            let jj = j as i128;
            proof {
                lemma_mul_upper_bound(ii as int, 18446744073709551615, f as int, 65535);
                lemma_mul_upper_bound(jj as int, 18446744073709551615, f as int, 65535);
                lemma_mul_nonnegative(ii as int, f as int);
                lemma_mul_nonnegative(jj as int, f as int);
            }
            let px = 2 * w - cf + 2 * (ii * f);
            let py = h - rf + 2 * (jj * f);
            let glyph = Glyph {
                size: Vec2 {
                    x: Frac { num: f, den: 2 * w },
                    y: Frac { num: f, den: h },
                },
                pos: Vec2 {
                    x: Frac { num: px, den: 4 * w },
                    y: Frac { num: py, den: 2 * h },
                },
                uv_pos: Vec2 {
                    x: Frac { num: a as i128, den: ATLAS_COLUMNS as i128 },
                    y: Frac { num: b as i128, den: ATLAS_ROWS as i128 },
                },
                uv_size: Vec2 {
                    x: Frac { num: 1, den: ATLAS_COLUMNS as i128 },
                    y: Frac { num: 1, den: ATLAS_ROWS as i128 },
                },
            };
            proof {
                assert(glyph_at_spec(self, k as int, glyph));
            }
            out.push(glyph);
            k = k + 1;
        }
        out
    }
}

/// The buffer after `n` backspaces.
pub open spec fn pop_n_spec(s: Seq<char>, n: nat) -> Seq<char>
    decreases n,
{
    if n == 0 {
        s
    } else {
        pop_spec(pop_n_spec(s, (n - 1) as nat))
    }
}

/// Inserting text and then backspacing once per inserted character returns
/// the buffer to exactly its previous content: [`CharacterGrid::insert_text`]
/// appends `text` and [`CharacterGrid::pop`] removes one trailing character,
/// so `text.len()` pops undo the insertion.
pub proof fn lemma_pop_inverts_insert(cells: Seq<char>, text: Seq<char>)
    ensures
        pop_n_spec(cells + text, text.len()) == cells,
    decreases text.len(),
{
    if text.len() == 0 {
        assert(cells + text =~= cells);
    } else {
        let shorter = text.drop_last();
        lemma_pop_inverts_insert(cells, shorter);
        assert((cells + text).drop_last() =~= cells + shorter);
        lemma_pop_n_of_drop_last(cells + text, shorter.len());
    }
}

/// Helper for [`lemma_pop_inverts_insert`]: on a buffer longer than `n`,
/// the first of `n + 1` pops commutes with the remaining `n`.
proof fn lemma_pop_n_of_drop_last(s: Seq<char>, n: nat)
    requires
        n < s.len(),
    ensures
        pop_n_spec(s, n + 1) == pop_n_spec(s.drop_last(), n),
    decreases n,
{
    if n == 0 {
        assert(pop_n_spec(s, 1) == pop_spec(pop_n_spec(s, 0)));
    } else {
        lemma_pop_n_of_drop_last(s, (n - 1) as nat);
        assert(pop_n_spec(s, n) == pop_n_spec(s.drop_last(), (n - 1) as nat));
        assert(pop_n_spec(s, n + 1) == pop_spec(pop_n_spec(s, n)));
        assert(pop_n_spec(s.drop_last(), n) == pop_spec(pop_n_spec(s.drop_last(), (n - 1) as nat)));
    }
}

/// Whether `c` counts as whitespace for word deletion.
fn is_space(c: char) -> (r: bool)
    ensures
        r == is_space_char(c),
{
    c == ' ' || c == '\t' || c == '\n' || c == '\r'
}

} // verus!
