use vstd::prelude::*;

use crate::bpp1::{bit_at, lemma_mask_bit, lemma_packed_at, packed, packed_at};

verus! {

/// Metrics of one bitmap glyph and where its 1bpp pixels start in the bitmap blob.
#[derive(Debug, Clone, Copy, PartialEq, Eq)]
pub struct Glyph {
    pub bitmap_offset: u32,
    pub width: u16,
    pub height: u16,
    pub x_offset: i16,
    pub y_offset: i16,
    pub x_advance: i16,
}

/// Static font data: the string of indexed characters, the design size, the packed
/// bitmap bytes and one glyph per indexed character.
#[derive(Debug, Clone, Copy)]
pub struct FontData<'a> {
    pub index: &'a str,
    pub char_size: usize,
    pub bitmap: &'a [u8],
    pub glyphs: &'a [Glyph],
}

/// The first position of `ch` in `s`, if any.
pub open spec fn first_position(s: Seq<char>, ch: char) -> Option<int> {
    if exists|i: int| 0 <= i < s.len() && s[i] == ch {
        Some(choose|i: int| 0 <= i < s.len() && s[i] == ch && forall|j: int| 0 <= j < i ==> s[j] != ch)
    } else {
        None
    }
}

/// Where no character before `k` is `ch`, the first position of `ch` is not before `k`.
pub proof fn lemma_first_position_not_before(s: Seq<char>, ch: char, k: int)
    requires
        forall|j: int| 0 <= j < k && j < s.len() ==> s[j] != ch,
    ensures
        match first_position(s, ch) {
            Some(p) => k <= p < s.len() && s[p] == ch,
            None => forall|j: int| 0 <= j < s.len() ==> s[j] != ch,
        },
{
    if exists|i: int| 0 <= i < s.len() && s[i] == ch {
        let w = choose|i: int| 0 <= i < s.len() && s[i] == ch;
        lemma_first_occurrence_exists(s, ch, w);
    }
}

/// Any occurrence of `ch` yields a first occurrence.
proof fn lemma_first_occurrence_exists(s: Seq<char>, ch: char, w: int)
    requires
        0 <= w < s.len(),
        s[w] == ch,
    ensures
        exists|i: int| 0 <= i < s.len() && s[i] == ch && forall|j: int| 0 <= j < i ==> s[j] != ch,
    decreases w,
{
    if exists|j: int| 0 <= j < w && s[j] == ch {
        let v = choose|j: int| 0 <= j < w && s[j] == ch;
        lemma_first_occurrence_exists(s, ch, v);
    } else {
        assert(forall|j: int| 0 <= j < w ==> s[j] != ch);
    }
}

/// The first position of `ch` is the one with no earlier `ch`.
pub proof fn lemma_first_position_at(s: Seq<char>, ch: char, i: int)
    requires
        0 <= i < s.len(),
        s[i] == ch,
        forall|j: int| 0 <= j < i ==> s[j] != ch,
    ensures
        first_position(s, ch) == Some(i),
{
    lemma_first_position_not_before(s, ch, i);
    let p = first_position(s, ch)->0;
    assert(forall|j: int| 0 <= j < p ==> s[j] != ch);
}

impl<'a> FontData<'a> {
    /// The slot of the glyph table that belongs to `ch`: its first position in the
    /// index string, when the glyph table is long enough to hold it.
    pub open spec fn glyph_slot(&self, ch: char) -> Option<int> {
        match first_position(self.index@, ch) {
            Some(i) => if i < self.glyphs@.len() { Some(i) } else { None },
            None => None,
        }
    }

    pub fn glyph(&self, ch: char) -> (res: Option<&Glyph>)
        ensures
            match self.glyph_slot(ch) {
                Some(i) => res == Some(&self.glyphs@[i]),
                None => res is None,
            },
    {
        let n = self.glyphs.len();
        let mut i: usize = 0;
        for c in it: self.index.chars()
            invariant
                n == self.glyphs@.len(),
                i == it.index(),
                i <= n,
                it.seq() == self.index@,
                forall|j: int| 0 <= j < i ==> self.index@[j] != ch,
        {
            if i >= n {
                proof { lemma_first_position_not_before(self.index@, ch, i as int); }
                return None;
            }
            if c == ch {
                proof { lemma_first_position_at(self.index@, ch, i as int); }
                return Some(&self.glyphs[i]);
            }
            i = i + 1;
        }
        proof { lemma_first_position_not_before(self.index@, ch, i as int); }
        None
    }

    /// The bit index, in the bitmap blob, of pixel `(x, y)` of `glyph`.
    pub open spec fn pixel_bit(glyph: Glyph, x: int, y: int) -> int {
        glyph.bitmap_offset * 8 + y * glyph.width + x
    }

    /// Whether pixel `(x, y)` of `glyph` is set: outside the glyph's box, or past the end
    /// of the bitmap blob, it is not.
    pub open spec fn spec_glyph_pixel(&self, glyph: Glyph, x: int, y: int) -> bool {
        &&& 0 <= x < glyph.width
        &&& 0 <= y < glyph.height
        &&& bit_at(self.bitmap@, Self::pixel_bit(glyph, x, y))
    }

    pub fn glyph_pixel(&self, glyph: &Glyph, x: u16, y: u16) -> (res: bool)
        ensures
            res == self.spec_glyph_pixel(*glyph, x as int, y as int),
    {
        if x >= glyph.width || y >= glyph.height {
            return false;
        }
        assert(y as int * glyph.width as int <= 0xffff * 0xffff) by (nonlinear_arith)
            requires
                y <= 0xffff,
                glyph.width <= 0xffff,
        ;
        let pixel_index: u64 = y as u64 * glyph.width as u64 + x as u64;
        let bit_index: u64 = glyph.bitmap_offset as u64 * 8 + pixel_index;
        let byte_index: u64 = bit_index / 8;
        let byte: u8 = if byte_index < self.bitmap.len() as u64 {
            self.bitmap[byte_index as usize]
        } else {
            0
        };
        let bit: u8 = (bit_index % 8) as u8;
        proof {
            lemma_mask_bit(byte, bit);
            if byte_index >= self.bitmap.len() as u64 {
                assert(((0u8 >> ((7 - bit) as u8)) & 1u8) != 1u8) by (bit_vector)
                    requires
                        bit < 8,
                ;
            }
        }
        byte & (1u8 << (7 - bit)) != 0
    }
}

} // verus!

verus! {

/// Reading a glyph back gives the pixels it was packed from: where the bitmap blob holds,
/// at the glyph's bitmap offset, the 1bpp packing of `width * height` row-major pixels,
/// each pixel of the glyph's box reads as it was written, and every pixel outside the box
/// reads as unset.
pub proof fn law_glyph_pixels_read_back(
    font: FontData,
    glyph: Glyph,
    before: Seq<u8>,
    pixels: Seq<bool>,
    after: Seq<u8>,
    x: int,
    y: int,
)
    requires
        font.bitmap@ == before + packed(pixels) + after,
        glyph.bitmap_offset == before.len(),
        pixels.len() == glyph.width * glyph.height,
    ensures
        font.spec_glyph_pixel(glyph, x, y) == (0 <= x < glyph.width && 0 <= y < glyph.height
            && pixels[y * glyph.width + x]),
{
    lemma_packed_at(before, pixels, after);
    if 0 <= x < glyph.width && 0 <= y < glyph.height {
        let i = y * glyph.width + x;
        assert(0 <= i < pixels.len()) by (nonlinear_arith)
            requires
                0 <= x < glyph.width,
                0 <= y < glyph.height,
                i == y * glyph.width + x,
                pixels.len() == glyph.width * glyph.height,
        ;
        assert(bit_at(font.bitmap@, glyph.bitmap_offset * 8 + i) == pixels[i]);
    }
}

} // verus!
