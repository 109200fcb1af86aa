use vstd::prelude::*;
use vstd::utf8::*;
use crate::terminal::StringInfo;

verus! {

/// The quantisation step of a palette of `p` glyphs: `ceil(255 / p)`.
pub open spec fn step_of(p: nat) -> nat {
    if p == 0 { 255 } else { ((254 + p as int) / (p as int)) as nat }
}

/// The palette index that brightness `b` selects in a palette of `p` glyphs:
/// `floor(b / step)`, clamped to the last glyph.
pub open spec fn index_of(b: nat, p: nat) -> nat {
    let q = b / step_of(p);
    if q < p { q } else { (p - 1) as nat }
}

/// The UTF-8 bytes of a glyph.
pub open spec fn glyph_bytes(c: char) -> Seq<u8> {
    encode_scalar(c as u32)
}

/// The widest UTF-8 encoding among the glyphs of a palette.
pub open spec fn max_glyph_len(chars: Seq<char>) -> nat
    decreases chars.len(),
{
    if chars.len() == 0 {
        0
    } else {
        let rest = max_glyph_len(chars.drop_last());
        let last = glyph_bytes(chars.last()).len();
        if rest < last { last } else { rest }
    }
}

/// A glyph's bytes, zero-padded on the right to `width` bytes.
pub open spec fn padded_glyph(c: char, width: nat) -> Seq<u8> {
    glyph_bytes(c) + Seq::new((width - glyph_bytes(c).len()) as nat, |_k: int| 0u8)
}

/// A glyph's UTF-8 encoding takes one to four bytes.
pub proof fn lemma_glyph_len(c: char)
    ensures
        1 <= glyph_bytes(c).len() <= 4,
{
}

/// The cell width of a palette bounds every glyph's encoding and is at most
/// four bytes.
pub proof fn lemma_max_glyph_len(chars: Seq<char>)
    ensures
        chars.len() > 0 ==> 1 <= max_glyph_len(chars) <= 4,
        forall|i: int| 0 <= i < chars.len() ==> glyph_bytes(#[trigger] chars[i]).len() <= max_glyph_len(chars),
    decreases chars.len(),
{
    if chars.len() > 0 {
        lemma_max_glyph_len(chars.drop_last());
        lemma_glyph_len(chars.last());
        if chars.drop_last().len() == 0 {
            assert(max_glyph_len(chars.drop_last()) == 0);
        }
        assert forall|i: int| 0 <= i < chars.len() implies glyph_bytes(#[trigger] chars[i]).len() <= max_glyph_len(chars) by {
            if i < chars.len() - 1 {
                assert(chars.drop_last()[i] == chars[i]);
            }
        }
    }
}

/// Every brightness of a byte selects a glyph of the palette, whatever its size.
pub proof fn lemma_index_in_palette(b: nat, p: nat)
    requires
        b <= 255,
        p > 0,
    ensures
        0 <= index_of(b, p) <= p - 1,
{
}

/// The step lies in `1 ..= 255`, and is one for palettes of 255 glyphs or more.
pub proof fn lemma_step_bounds(p: nat)
    requires
        p > 0,
    ensures
        1 <= step_of(p) <= 255,
        p >= 255 ==> step_of(p) == 1,
{
    let s = (254 + p as int) / (p as int);
    assert(1 <= s <= 255) by (nonlinear_arith)
        requires s == (254 + p as int) / (p as int), p > 0;
    if p >= 255 {
        assert(s == 1) by (nonlinear_arith)
            requires s == (254 + p as int) / (p as int), p >= 255;
    }
}

/// Where the palette size does not divide 255, the clamp in `index_of` never
/// acts: the index is the plain quotient `floor(b / ceil(255 / p))`.
pub proof fn lemma_quotient_needs_no_clamp(b: nat, p: nat)
    requires
        b <= 255,
        p > 0,
        255int % (p as int) != 0,
    ensures
        index_of(b, p) == b / step_of(p),
        b / step_of(p) <= p - 1,
{
    let s = step_of(p);
    lemma_step_bounds(p);
    assert(s * p >= 255) by (nonlinear_arith)
        requires s == (254 + p as int) / (p as int), p > 0;
    assert(s * p != 255) by (nonlinear_arith)
        requires s == (254 + p as int) / (p as int), p > 0, 255int % (p as int) != 0;
    assert(b / s < p) by (nonlinear_arith)
        requires s * p > 255, b <= 255, s > 0;
}

/// Maps brightness samples to the glyphs of a palette, ordered dark to bright.
pub struct AsciiConverter {
    chars: Vec<char>,
    step: u32,
    char_len: u32,
    glyphs: Vec<u8>,
}

impl View for AsciiConverter {
    type V = Seq<char>;

    closed spec fn view(&self) -> Seq<char> {
        self.chars@
    }
}

impl AsciiConverter {
    /// The converter's fields agree with its palette.
    pub closed spec fn wf(&self) -> bool {
        &&& self.chars@.len() > 0
        &&& self.step as nat == step_of(self.chars@.len())
        &&& self.char_len as nat == max_glyph_len(self.chars@)
        &&& self.glyphs@ == glyph_table(self.chars@, self.char_len as nat)
    }

    /// Builds the converter of a palette given as a string of glyphs.
    pub fn new(string: &String) -> (r: Self)
        requires
            string@.len() > 0,
        ensures
            r.wf(),
            r@ == string@,
    {
        let s = string.as_str();
        let p = s.unicode_len();
        let mut chars: Vec<char> = Vec::new();
        let mut width: usize = 0;
        let mut i: usize = 0;
        while i < p
            invariant
                p == s@.len(),
                s@ == string@,
                i <= p,
                chars@ == s@.subrange(0, i as int),
                width as nat == max_glyph_len(chars@),
                width <= 4,
            decreases p - i,
        {
            let c = s.get_char(i);
            let g = glyph_of(s, i);
            chars.push(c);
            assert(chars@.drop_last() == s@.subrange(0, i as int));
            if g.len() > width {
                width = g.len();
            }
            i = i + 1;
        }
        assert(chars@ == s@);
        proof {
            lemma_step_bounds(p as nat);
        }
        let step: u32 = if p >= 255 { 1 } else { ((254 + p) / p) as u32 };
        proof {
            lemma_max_glyph_len(chars@);
        }
        let glyphs = build_table(s, &chars, width);
        AsciiConverter { chars, step, char_len: width as u32, glyphs }
    }

    /// The quantisation step, `ceil(255 / palette size)`.
    pub fn step(&self) -> (r: u32)
        requires
            self.wf(),
        ensures
            r as nat == step_of(self@.len()),
    {
        self.step
    }

    /// The byte width of every cell: the widest glyph's UTF-8 length.
    pub fn char_len(&self) -> (r: u32)
        requires
            self.wf(),
        ensures
            r as nat == max_glyph_len(self@),
            1 <= r <= 4,
    {
        proof {
            lemma_max_glyph_len(self@);
        }
        self.char_len
    }

    /// The number of glyphs.
    pub fn len(&self) -> (r: usize)
        requires
            self.wf(),
        ensures
            r == self@.len(),
    {
        self.chars.len()
    }

    /// The palette index that a brightness selects.
    pub fn index(&self, brightness: u8) -> (r: usize)
        requires
            self.wf(),
        ensures
            r as nat == index_of(brightness as nat, self@.len()),
            r < self@.len(),
    {
        let p = self.chars.len();
        proof {
            lemma_step_bounds(p as nat);
        }
        let q = (brightness as u32 / self.step) as usize;
        if q < p { q } else { p - 1 }
    }

    /// Renders a row-major pixel buffer of rows `width` pixels wide. Each row
    /// becomes a separator cell (a newline) followed by one cell per pixel,
    /// whose glyph its brightness selects. A color frame gives every cell a
    /// color: a pixel's own, and for a separator that of its row's first pixel.
    pub fn convert(&self, pixels: &Vec<u8>, width: usize, grayscale: bool) -> (r: StringInfo)
        requires
            self.wf(),
            width > 0,
            pixel_count(pixels@.len(), grayscale) % (width as nat) == 0,
            pixels@.len() <= usize::MAX / 8,
        ensures
            r.wf(),
            r.char_len as nat == max_glyph_len(self@),
            r.cells() == frame_cells(pixel_count(pixels@.len(), grayscale), width as nat),
            r.string@ == rendered_cells(self@, pixels@, grayscale, width as nat),
            r.rgb@ == rendered_colors(pixels@, grayscale, width as nat),
    {
        proof {
            lemma_max_glyph_len(self@);
            lemma_newline_glyph();
        }
        let w = self.char_len as usize;
        let len = pixels.len();
        let n = if grayscale { len } else { len / 3 };
        let rows = n / width;
        proof {
            vstd::arithmetic::div_mod::lemma_fundamental_div_mod(n as int, width as int);
            assert(rows * width == n) by (nonlinear_arith)
                requires n == width * rows + 0;
            assert(rows * (width + 1) <= 2 * n) by (nonlinear_arith)
                requires rows * width == n, width >= 1;
        }
        let total = n + rows;
        assert(total == rows * (width + 1)) by (nonlinear_arith)
            requires total == n + rows, rows * width == n;
        let ghost chars = self@;
        let ghost glyph = |k: int| cell_glyph(self@, pixels@, grayscale, width as nat, k);
        let ghost color = |k: int| cell_color(pixels@, width as nat, k);
        let mut out: Vec<u8> = Vec::new();
        let mut rgb: Vec<u8> = Vec::new();
        let mut k: usize = 0;
        let mut row: usize = 0;
        let mut col: usize = 0;
        while k < total
            invariant
                self.wf(),
                chars == self@,
                w as nat == max_glyph_len(self@),
                1 <= w <= 4,
                width > 0,
                len == pixels@.len(),
                len <= usize::MAX / 8,
                n == pixel_count(len as nat, grayscale),
                rows * width == n,
                total == rows * (width + 1),
                total <= 2 * n,
                k <= total,
                col <= width,
                k == row * (width + 1) + col,
                k < total ==> row < rows,
                glyph == (|k: int| cell_glyph(self@, pixels@, grayscale, width as nat, k)),
                color == (|k: int| cell_color(pixels@, width as nat, k)),
                out@ == blocks(glyph, w as nat, k as nat),
                grayscale ==> rgb@.len() == 0,
                !grayscale ==> rgb@ == blocks(color, 3, k as nat),
            decreases total - k,
        {
            proof {
                lemma_cell_pos(row as int, col as int, (width + 1) as int);
                assert(row * width + width <= n) by (nonlinear_arith)
                    requires row < rows, rows * width == n;
                assert(k * w <= total * w) by (nonlinear_arith)
                    requires k <= total;
                assert(total * w <= 8 * len) by (nonlinear_arith)
                    requires total <= 2 * n, n <= len, w <= 4;
            }
            let src = if col == 0 { row * width } else { row * width + col - 1 };
            assert(src == source_pixel(k as int, width as nat));
            let ghost before = out@;
            if col == 0 {
                self.push_padded(&mut out, None);
            } else {
                let b: u8 = if grayscale {
                    pixels[src]
                } else {
                    ((pixels[3 * src] as u32 + pixels[3 * src + 1] as u32 + pixels[3 * src + 2] as u32) / 3) as u8
                };
                let idx = self.index(b);
                self.push_padded(&mut out, Some(idx));
            }
            proof {
                assert(out@ == before + glyph(k as int));
                if col != 0 {
                    let br = brightness(pixels@, grayscale, src as int);
                    assert(br <= 255);
                    lemma_index_in_palette(br, self@.len());
                    let i = index_of(br, self@.len()) as int;
                    lemma_max_glyph_len(self@);
                    assert(glyph_bytes(self@[i]).len() <= w);
                }
                lemma_newline_glyph();
                assert(glyph(k as int).len() == w);
                lemma_blocks_step(glyph, w as nat, k as nat);
            }
            if !grayscale {
                let ghost rbefore = rgb@;
                rgb.push(pixels[3 * src]);
                rgb.push(pixels[3 * src + 1]);
                rgb.push(pixels[3 * src + 2]);
                proof {
                    assert(rgb@ == rbefore + color(k as int));
                    lemma_blocks_step(color, 3, k as nat);
                }
            }
            k = k + 1;
            if col == width {
                assert((row + 1) * (width + 1) == row * (width + 1) + width + 1) by (nonlinear_arith);
                col = 0;
                row = row + 1;
            } else {
                col = col + 1;
            }
            proof {
                if k < total {
                    assert(row < rows) by (nonlinear_arith)
                        requires k == row * (width + 1) + col, k < total, total == rows * (width + 1), col >= 0;
                }
            }
        }
        proof {
            assert(total as nat == frame_cells(n as nat, width as nat));
            assert((total * w) as int / (w as int) == total) by {
                vstd::arithmetic::div_mod::lemma_fundamental_div_mod_converse((total * w) as int, w as int, total as int, 0);
            }
            assert((total * w) as int % (w as int) == 0) by {
                vstd::arithmetic::div_mod::lemma_fundamental_div_mod_converse((total * w) as int, w as int, total as int, 0);
            }
        }
        StringInfo { char_len: self.char_len, string: out, rgb }
    }

    /// Appends a glyph of the palette, or the row separator for `None`,
    /// padded to the cell width.
    fn push_padded(&self, out: &mut Vec<u8>, glyph: Option<usize>)
        requires
            self.wf(),
            glyph is Some ==> glyph->Some_0 < self@.len(),
        ensures
            final(out)@ == old(out)@ + padded_glyph(
                if glyph is Some { self@[glyph->Some_0 as int] } else { ROW_SEPARATOR },
                max_glyph_len(self@),
            ),
    {
        proof {
            lemma_max_glyph_len(self@);
            lemma_newline_glyph();
        }
        let w = self.char_len as usize;
        let gl = self.glyphs.len();
        assert(gl == self@.len() * w);
        let ghost c = if glyph is Some { self@[glyph->Some_0 as int] } else { ROW_SEPARATOR };
        let ghost target = padded_glyph(c, w as nat);
        proof {
            if glyph is Some {
                assert(glyph_bytes(c).len() <= w);
            }
        }
        let mut j: usize = 0;
        while j < w
            invariant
                self.wf(),
                w as nat == max_glyph_len(self@),
                1 <= w <= 4,
                glyph is Some ==> glyph->Some_0 < self@.len(),
                c == (if glyph is Some { self@[glyph->Some_0 as int] } else { ROW_SEPARATOR }),
                target == padded_glyph(c, w as nat),
                target.len() == w,
                gl == self.glyphs@.len(),
                self.glyphs@ == glyph_table(self@, w as nat),
                gl == self@.len() * w,
                glyph is None ==> target == seq![0x0au8] + Seq::new((w - 1) as nat, |_k: int| 0u8),
                j <= w,
                out@ == old(out)@ + target.subrange(0, j as int),
            decreases w - j,
        {
            let b: u8 = match glyph {
                Some(idx) => {
                    proof {
                        assert((idx + 1) * w <= self@.len() * w) by (nonlinear_arith)
                            requires idx < self@.len(), w >= 1;
                        assert(idx * w + w == (idx + 1) * w) by (nonlinear_arith);
                        lemma_cell_pos(idx as int, j as int, w as int);
                    }
                    assert(self.glyphs@[idx * w + j] == target[j as int]);
                    self.glyphs[idx * w + j]
                },
                None => if j == 0 { 0x0a } else { 0 },
            };
            out.push(b);
            proof {
                assert(target.subrange(0, j + 1) == target.subrange(0, j as int).push(target[j as int]));
            }
            j = j + 1;
        }
        assert(target.subrange(0, w as int) == target);
    }

    /// The glyphs' bytes, each zero-padded to `char_len`, one after the other.
    pub fn glyph_table(&self) -> (r: Vec<u8>)
        requires
            self.wf(),
        ensures
            r@ == glyph_table(self@, max_glyph_len(self@)),
    {
        self.glyphs.clone()
    }
}

/// The number of pixels in a buffer of `len` bytes: one byte per pixel for
/// grayscale, three (red, green, blue) for color.
pub open spec fn pixel_count(len: nat, grayscale: bool) -> nat {
    if grayscale { len } else { len / 3 }
}

/// The brightness of pixel `i`: the sample itself, or the truncated mean of
/// its red, green and blue.
pub open spec fn brightness(pixels: Seq<u8>, grayscale: bool, i: int) -> nat {
    if grayscale {
        pixels[i] as nat
    } else {
        ((pixels[3 * i] + pixels[3 * i + 1] + pixels[3 * i + 2]) / 3) as nat
    }
}

/// The character that separates rows.
pub const ROW_SEPARATOR: char = '\n';

/// The cells of a frame of `n` pixels in rows of `width`: one separator and
/// `width` pixel cells per row.
pub open spec fn frame_cells(n: nat, width: nat) -> nat {
    (n / width) * (width + 1)
}

/// Cell `k` opens its row: it is the row's separator.
pub open spec fn is_separator(k: int, width: nat) -> bool {
    k % (width + 1) as int == 0
}

/// The pixel behind cell `k`: for a separator, its row's first pixel.
pub open spec fn source_pixel(k: int, width: nat) -> int {
    let col = k % (width + 1) as int;
    (k / (width + 1) as int) * width + if col == 0 { 0 } else { col - 1 }
}

/// The bytes of cell `k`: the padded separator, or the padded glyph that
/// the brightness of the cell's pixel selects.
pub open spec fn cell_glyph(chars: Seq<char>, pixels: Seq<u8>, grayscale: bool, width: nat, k: int) -> Seq<u8> {
    let w = max_glyph_len(chars);
    if is_separator(k, width) {
        padded_glyph(ROW_SEPARATOR, w)
    } else {
        padded_glyph(chars[index_of(brightness(pixels, grayscale, source_pixel(k, width)), chars.len()) as int], w)
    }
}

/// The red, green and blue of cell `k`: those of its pixel.
pub open spec fn cell_color(pixels: Seq<u8>, width: nat, k: int) -> Seq<u8> {
    let p = source_pixel(k, width);
    seq![pixels[3 * p], pixels[3 * p + 1], pixels[3 * p + 2]]
}

/// The first `k` blocks `g(0), g(1), ...`, each `w` long, laid end to end.
pub open spec fn blocks(g: spec_fn(int) -> Seq<u8>, w: nat, k: nat) -> Seq<u8> {
    Seq::new(k * w, |m: int| g(m / w as int)[m % w as int])
}

/// The cells of a frame, one after the other.
pub open spec fn rendered_cells(chars: Seq<char>, pixels: Seq<u8>, grayscale: bool, width: nat) -> Seq<u8> {
    blocks(
        |k: int| cell_glyph(chars, pixels, grayscale, width, k),
        max_glyph_len(chars),
        frame_cells(pixel_count(pixels.len(), grayscale), width),
    )
}

/// The colors of a frame's cells, or nothing for a grayscale frame.
pub open spec fn rendered_colors(pixels: Seq<u8>, grayscale: bool, width: nat) -> Seq<u8> {
    if grayscale {
        Seq::empty()
    } else {
        blocks(|k: int| cell_color(pixels, width, k), 3, frame_cells(pixel_count(pixels.len(), grayscale), width))
    }
}

/// Every pixel cell of a rendered frame shows a glyph of the palette: the
/// brightness of its pixel selects an index below the palette's size.
pub proof fn lemma_frame_glyphs_in_palette(chars: Seq<char>, pixels: Seq<u8>, grayscale: bool, width: nat, k: int)
    requires
        chars.len() > 0,
        width > 0,
        0 <= k < frame_cells(pixel_count(pixels.len(), grayscale), width),
        pixel_count(pixels.len(), grayscale) % width == 0,
    ensures
        0 <= source_pixel(k, width) < pixel_count(pixels.len(), grayscale),
        index_of(brightness(pixels, grayscale, source_pixel(k, width)), chars.len()) < chars.len(),
{
    let n = pixel_count(pixels.len(), grayscale);
    let rows = n / width;
    let row = k / (width + 1) as int;
    let col = k % (width + 1) as int;
    vstd::arithmetic::div_mod::lemma_fundamental_div_mod(n as int, width as int);
    vstd::arithmetic::div_mod::lemma_fundamental_div_mod(k, (width + 1) as int);
    assert(row < rows) by (nonlinear_arith)
        requires k == (width + 1) * row + col, 0 <= col, k < rows * (width + 1), width >= 0;
    assert(0 <= row) by (nonlinear_arith)
        requires k == (width + 1) * row + col, col < width + 1, k >= 0;
    assert(row * width + width <= n) by (nonlinear_arith)
        requires row < rows, n == width * rows + 0;
    assert(0 <= row * width) by (nonlinear_arith)
        requires 0 <= row, width > 0;
    let p = source_pixel(k, width);
    assert(p < n);
    let br = brightness(pixels, grayscale, p);
    if !grayscale {
        assert(3 * p + 2 < pixels.len());
    }
    assert(br <= 255);
    lemma_index_in_palette(br, chars.len());
}

proof fn lemma_blocks_step(g: spec_fn(int) -> Seq<u8>, w: nat, k: nat)
    requires
        w > 0,
        g(k as int).len() == w,
    ensures
        blocks(g, w, k + 1) == blocks(g, w, k) + g(k as int),
{
    assert((k + 1) * w == k * w + w) by (nonlinear_arith);
    let lhs = blocks(g, w, k + 1);
    let rhs = blocks(g, w, k) + g(k as int);
    assert forall|m: int| 0 <= m < lhs.len() implies lhs[m] == rhs[m] by {
        vstd::arithmetic::div_mod::lemma_fundamental_div_mod(m, w as int);
        let q = m / w as int;
        let r = m % w as int;
        if m < k * w {
            assert(q < k) by (nonlinear_arith)
                requires m == w * q + r, 0 <= r < w, m < k * w;
        } else {
            lemma_cell_pos(k as int, m - k * w, w as int);
        }
    }
    assert(lhs =~= rhs);
}

proof fn lemma_newline_glyph()
    ensures
        glyph_bytes(ROW_SEPARATOR) == seq![0x0au8],
{
    assert(ROW_SEPARATOR as u32 == 10);
    assert(10u32 & 0x7f == 10) by (bit_vector);
}

/// All glyphs of a palette, padded to `width` and laid end to end.
pub open spec fn glyph_table(chars: Seq<char>, width: nat) -> Seq<u8> {
    Seq::new(chars.len() * width, |k: int| padded_glyph(chars[k / width as int], width)[k % width as int])
}

/// The UTF-8 bytes of the glyph at position `i` of a string.
fn glyph_of(s: &str, i: usize) -> (r: Vec<u8>)
    requires
        i < s@.len() <= usize::MAX,
    ensures
        r@ == glyph_bytes(s@[i as int]),
        1 <= r@.len() <= 4,
{
    let one = s.substring_char(i, i + 1);
    let r = one.as_bytes_vec();
    proof {
        let c = s@[i as int];
        vstd::utf8::char_is_scalar(c);
        assert(one@ == seq![c]);
        assert(one@.drop_first() == Seq::<char>::empty());
        assert(encode_utf8(Seq::<char>::empty()) == Seq::<u8>::empty());
        assert(encode_utf8(one@) == encode_scalar(c as u32) + encode_utf8(one@.drop_first()));
        assert(r@ == glyph_bytes(c));
        lemma_glyph_len(c);
    }
    r
}

proof fn lemma_cell_pos(k: int, j: int, w: int)
    requires
        0 <= k,
        0 <= j < w,
    ensures
        (k * w + j) / w == k,
        (k * w + j) % w == j,
{
    vstd::arithmetic::div_mod::lemma_fundamental_div_mod_converse(k * w + j, w, k, j);
}

fn build_table(s: &str, chars: &Vec<char>, width: usize) -> (r: Vec<u8>)
    requires
        chars@ == s@,
        chars@.len() > 0,
        width as nat == max_glyph_len(chars@),
        width <= 4,
        forall|i: int| 0 <= i < chars@.len() ==> glyph_bytes(#[trigger] chars@[i]).len() <= width,
    ensures
        r@ == glyph_table(chars@, width as nat),
{
    let p = chars.len();
    let mut out: Vec<u8> = Vec::new();
    let mut i: usize = 0;
    while i < p
        invariant
            p == chars@.len(),
            chars@ == s@,
            width <= 4,
            width > 0 || p == 0,
            forall|i: int| 0 <= i < chars@.len() ==> glyph_bytes(#[trigger] chars@[i]).len() <= width,
            i <= p,
            out@.len() == i * width,
            forall|k: int, j: int| 0 <= k < i && 0 <= j < width ==> out@[k * width + j]
                == #[trigger] padded_glyph(chars@[k], width as nat)[j],
        decreases p - i,
    {
        let g = glyph_of(s, i);
        let ghost before = out@;
        let mut j: usize = 0;
        while j < width
            invariant
                i < p,
                p == chars@.len(),
                width <= 4,
                g@ == glyph_bytes(chars@[i as int]),
                g@.len() <= width,
                j <= width,
                out@.len() == i * width + j,
                before.len() == i * width,
                forall|m: int| 0 <= m < i * width ==> out@[m] == before[m],
                forall|jj: int| 0 <= jj < j ==> out@[i * width + jj]
                    == #[trigger] padded_glyph(chars@[i as int], width as nat)[jj],
            decreases width - j,
        {
            let b: u8 = if j < g.len() { g[j] } else { 0 };
            out.push(b);
            j = j + 1;
        }
        assert forall|k: int, j: int| 0 <= k < i + 1 && 0 <= j < width implies out@[k * width + j]
            == #[trigger] padded_glyph(chars@[k], width as nat)[j] by {
            if k < i {
                assert(k * width + j < i * width) by (nonlinear_arith)
                    requires k < i, 0 <= j < width;
            }
        }
        assert(out@.len() == (i + 1) * width) by (nonlinear_arith)
            requires out@.len() == i * width + width;
        i = i + 1;
    }
    assert(out@ == glyph_table(chars@, width as nat)) by {
        assert forall|m: int| 0 <= m < out@.len() implies out@[m] == glyph_table(chars@, width as nat)[m] by {
            let k = m / width as int;
            let j = m % width as int;
            vstd::arithmetic::div_mod::lemma_fundamental_div_mod(m, width as int);
            assert(0 <= k < p) by (nonlinear_arith)
                requires m == width * k + j, 0 <= j < width, 0 <= m < p * width;
            assert(m == k * width + j) by (nonlinear_arith)
                requires m == width * k + j;
        }
    }
    out
}

} // verus!
