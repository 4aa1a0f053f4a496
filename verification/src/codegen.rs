use vstd::prelude::*;

use crate::bpp1::{pack_bpp1, packed};
use crate::font::{law_glyph_pixels_read_back, FontData, Glyph};
use crate::rust_text::{
    binary8, byte_escaped, char_literal, digits, push_binary8, push_byte_escaped, push_char_literal, push_decimal,
    push_signed, push_str, signed_decimal, holds_text, lemma_holds_append_any, lemma_holds_end, lemma_holds_prepend, lemma_holds_tail,
};

verus! {

/// The pixels of a glyph in a bit depth.
#[derive(Debug, Clone, PartialEq, Eq)]
pub enum GlyphBitmap {
    Bpp1(Vec<bool>),
}

/// A glyph to generate: its character, metrics and pixels (row by row).
#[derive(Debug, Clone, PartialEq, Eq)]
pub struct BitmapGlyph {
    pub codepoint: char,
    pub width: u16,
    pub height: u16,
    pub x_offset: i16,
    pub y_offset: i16,
    pub x_advance: i16,
    pub bitmap: GlyphBitmap,
}

/// A font to generate Rust source for.
#[derive(Debug, Clone, PartialEq, Eq)]
pub struct CodegenFont {
    pub ident: String,
    pub size: u16,
    pub ascent: i16,
    pub descent: i16,
    pub line_gap: i16,
    pub glyphs: Vec<BitmapGlyph>,
}

/// The pixels of a glyph.
pub open spec fn pixels_of(g: BitmapGlyph) -> Seq<bool> {
    match g.bitmap {
        GlyphBitmap::Bpp1(p) => p@,
    }
}

/// `gs` with `g` inserted after every glyph whose codepoint is not greater than `g`'s.
pub open spec fn insert_by_codepoint(s: Seq<BitmapGlyph>, g: BitmapGlyph) -> Seq<BitmapGlyph>
    decreases s.len(),
{
    if s.len() == 0 {
        seq![g]
    } else if (s.last().codepoint as u32) <= (g.codepoint as u32) {
        s.push(g)
    } else {
        insert_by_codepoint(s.drop_last(), g).push(s.last())
    }
}

/// `gs` sorted by codepoint, glyphs with equal codepoints keeping their order.
pub open spec fn sorted_by_codepoint(s: Seq<BitmapGlyph>) -> Seq<BitmapGlyph>
    decreases s.len(),
{
    if s.len() == 0 {
        Seq::empty()
    } else {
        insert_by_codepoint(sorted_by_codepoint(s.drop_last()), s.last())
    }
}

/// Insertion lands after the last glyph whose codepoint is not greater.
proof fn lemma_insert_at(s: Seq<BitmapGlyph>, g: BitmapGlyph, p: int)
    requires
        0 <= p <= s.len(),
        forall|j: int| p <= j < s.len() ==> (#[trigger] s[j].codepoint as u32) > (g.codepoint as u32),
        p > 0 ==> (s[p - 1].codepoint as u32) <= (g.codepoint as u32),
    ensures
        insert_by_codepoint(s, g) == s.take(p) + seq![g] + s.skip(p),
    decreases s.len(),
{
    if s.len() == 0 {
        assert(s.take(p) + seq![g] + s.skip(p) =~= seq![g]);
    } else if (s.last().codepoint as u32) <= (g.codepoint as u32) {
        if p < s.len() {
            assert(s[s.len() - 1] == s.last());
        }
        assert(s.take(p) + seq![g] + s.skip(p) =~= s.push(g));
    } else {
        let t = s.drop_last();
        lemma_insert_at(t, g, p);
        assert(s.take(p) + seq![g] + s.skip(p) =~= (t.take(p) + seq![g] + t.skip(p)).push(s.last()));
    }
}

/// The glyph indices of `glyphs` in codepoint order (equal codepoints keeping their order).
pub fn codepoint_order(glyphs: &Vec<BitmapGlyph>) -> (order: Vec<usize>)
    ensures
        forall|k: int| 0 <= k < order@.len() ==> #[trigger] order@[k] < glyphs@.len(),
        order@.map_values(|i: usize| glyphs@[i as int]) == sorted_by_codepoint(glyphs@),
{
    let mut order: Vec<usize> = Vec::new();
    let n = glyphs.len();
    proof {
        assert(glyphs@.take(0) =~= Seq::<BitmapGlyph>::empty());
        assert(order@.map_values(|i: usize| glyphs@[i as int]) =~= Seq::<BitmapGlyph>::empty());
    }
    for i in 0..n
        invariant
            n == glyphs@.len(),
            forall|k: int| 0 <= k < order@.len() ==> #[trigger] order@[k] < n,
            order@.map_values(|i: usize| glyphs@[i as int]) == sorted_by_codepoint(glyphs@.take(i as int)),
    {
        let ghost sorted = order@.map_values(|i: usize| glyphs@[i as int]);
        let key = glyphs[i].codepoint as u32;
        let mut p = order.len();
        while p > 0 && glyphs[order[p - 1]].codepoint as u32 > key
            invariant
                n == glyphs@.len(),
                i < n,
                key == glyphs@[i as int].codepoint as u32,
                p <= order@.len(),
                forall|k: int| 0 <= k < order@.len() ==> #[trigger] order@[k] < n,
                sorted == order@.map_values(|i: usize| glyphs@[i as int]),
                forall|j: int| p <= j < sorted.len() ==> (#[trigger] sorted[j].codepoint as u32) > key,
            decreases p,
        {
            p = p - 1;
        }
        proof {
            lemma_insert_at(sorted, glyphs@[i as int], p as int);
            assert(glyphs@.take(i + 1).drop_last() =~= glyphs@.take(i as int));
            assert(glyphs@.take(i + 1).last() == glyphs@[i as int]);
        }
        order.insert(p, i);
        proof {
            assert(order@.map_values(|i: usize| glyphs@[i as int]) =~= sorted.take(p as int) + seq![glyphs@[i as int]] + sorted.skip(p as int));
        }
    }
    proof {
        assert(glyphs@.take(n as int) =~= glyphs@);
    }
    order
}


/// The packed bitmaps of `gs`, one after another.
pub open spec fn packed_glyphs(gs: Seq<BitmapGlyph>) -> Seq<u8>
    decreases gs.len(),
{
    if gs.len() == 0 {
        Seq::empty()
    } else {
        packed_glyphs(gs.drop_last()) + packed(pixels_of(gs.last()))
    }
}

/// Packing two runs of glyphs one after the other packs each run in turn.
proof fn lemma_packed_glyphs_concat(a: Seq<BitmapGlyph>, b: Seq<BitmapGlyph>)
    ensures
        packed_glyphs(a + b) == packed_glyphs(a) + packed_glyphs(b),
    decreases b.len(),
{
    if b.len() == 0 {
        assert(a + b =~= a);
        assert(packed_glyphs(a) + packed_glyphs(b) =~= packed_glyphs(a));
    } else {
        lemma_packed_glyphs_concat(a, b.drop_last());
        assert((a + b).drop_last() =~= a + b.drop_last());
        assert((a + b).last() == b.last());
        assert(packed_glyphs(a + b) =~= packed_glyphs(a) + packed_glyphs(b));
    }
}

/// A font whose bitmap is the packed bitmaps of `gs` one after another, read through a
/// glyph that points where the `k`-th glyph's bitmap starts and has its size, gives back
/// every pixel of that glyph, and no pixel outside it.
pub proof fn law_generated_glyphs_read_back(font: FontData, gs: Seq<BitmapGlyph>, k: int, glyph: Glyph, x: int, y: int)
    requires
        font.bitmap@ == packed_glyphs(gs),
        0 <= k < gs.len(),
        glyph.bitmap_offset == packed_glyphs(gs.take(k)).len(),
        glyph.width == gs[k].width,
        glyph.height == gs[k].height,
        pixels_of(gs[k]).len() == gs[k].width * gs[k].height,
    ensures
        font.spec_glyph_pixel(glyph, x, y) == (0 <= x < gs[k].width && 0 <= y < gs[k].height
            && pixels_of(gs[k])[y * gs[k].width + x]),
{
    let head = gs.take(k + 1);
    let tail = gs.skip(k + 1);
    lemma_packed_glyphs_concat(head, tail);
    assert(head + tail =~= gs);
    assert(head.drop_last() =~= gs.take(k));
    assert(head.last() == gs[k]);
    assert(font.bitmap@ == packed_glyphs(gs.take(k)) + packed(pixels_of(gs[k])) + packed_glyphs(tail));
    law_glyph_pixels_read_back(font, glyph, packed_glyphs(gs.take(k)), pixels_of(gs[k]), packed_glyphs(tail), x, y);
}

/// The glyphs `glyphs` in the order `order`.
pub open spec fn in_order(glyphs: Seq<BitmapGlyph>, order: Seq<usize>) -> Seq<BitmapGlyph> {
    order.map_values(|i: usize| glyphs[i as int])
}

/// Packs the bitmaps of the glyphs in the order `order` into one blob, and returns it with
/// each glyph's starting byte in it.
pub fn pack_glyphs(glyphs: &Vec<BitmapGlyph>, order: &Vec<usize>) -> (res: (Vec<u8>, Vec<u32>))
    requires
        forall|k: int| 0 <= k < order@.len() ==> #[trigger] order@[k] < glyphs@.len(),
    ensures
        res.0@ == packed_glyphs(in_order(glyphs@, order@)),
        res.1@.len() == order@.len(),
        forall|k: int| 0 <= k < order@.len() ==> #[trigger] res.1@[k] == packed_glyphs(
            in_order(glyphs@, order@).take(k),
        ).len() as u32,
{
    let ghost gs = in_order(glyphs@, order@);
    let mut bitmap: Vec<u8> = Vec::new();
    let mut offsets: Vec<u32> = Vec::new();
    proof {
        assert(gs.take(0) =~= Seq::<BitmapGlyph>::empty());
    }
    for k in 0..order.len()
        invariant
            gs == in_order(glyphs@, order@),
            forall|j: int| 0 <= j < order@.len() ==> #[trigger] order@[j] < glyphs@.len(),
            bitmap@ == packed_glyphs(gs.take(k as int)),
            offsets@.len() == k,
            forall|j: int| 0 <= j < k ==> #[trigger] offsets@[j] == packed_glyphs(gs.take(j)).len() as u32,
    {
        let glyph = &glyphs[order[k]];
        proof {
            assert(gs.take(k + 1).drop_last() =~= gs.take(k as int));
            assert(gs.take(k + 1).last() == *glyph);
        }
        offsets.push(bitmap.len() as u32);
        match &glyph.bitmap {
            GlyphBitmap::Bpp1(pixels) => pack_bpp1(pixels.as_slice(), &mut bitmap),
        }
    }
    proof {
        assert(gs.take(order@.len() as int) =~= gs);
    }
    (bitmap, offsets)
}

/// One entry of the generated glyph table.
pub open spec fn glyph_entry(g: BitmapGlyph, offset: u32) -> Seq<char> {
    "    GlyphMetrics {\n"@
        + "        codepoint: "@ + char_literal(g.codepoint) + ",\n"@
        + "        bitmap_offset: "@ + digits(offset as nat, 10) + ",\n"@
        + "        width: "@ + digits(g.width as nat, 10) + ",\n"@
        + "        height: "@ + digits(g.height as nat, 10) + ",\n"@
        + "        x_offset: "@ + signed_decimal(g.x_offset as int) + ",\n"@
        + "        y_offset: "@ + signed_decimal(g.y_offset as int) + ",\n"@
        + "        x_advance: "@ + signed_decimal(g.x_advance as int) + ",\n"@
        + "    },\n"@
}

fn push_glyph_entry(s: &mut String, g: &BitmapGlyph, offset: u32)
    ensures
        final(s)@ == old(s)@ + glyph_entry(*g, offset),
{
    let ghost start = s@;
    push_str(s, "    GlyphMetrics {\n");
    push_str(s, "        codepoint: ");
    push_char_literal(s, g.codepoint);
    push_str(s, ",\n");
    push_str(s, "        bitmap_offset: ");
    push_decimal(s, offset as u64);
    push_str(s, ",\n");
    push_str(s, "        width: ");
    push_decimal(s, g.width as u64);
    push_str(s, ",\n");
    push_str(s, "        height: ");
    push_decimal(s, g.height as u64);
    push_str(s, ",\n");
    push_str(s, "        x_offset: ");
    push_signed(s, g.x_offset);
    push_str(s, ",\n");
    push_str(s, "        y_offset: ");
    push_signed(s, g.y_offset);
    push_str(s, ",\n");
    push_str(s, "        x_advance: ");
    push_signed(s, g.x_advance);
    push_str(s, ",\n");
    push_str(s, "    },\n");
    assert(s@ =~= start + glyph_entry(*g, offset));
}

/// Each entry of the generated glyph table sets every field of `GlyphMetrics` to the
/// glyph's own value: its codepoint, the offset of its pixels, its width and height, its
/// x and y offsets and its advance, each on a line of its own under the field's name.
pub proof fn law_glyph_entry_fields(g: BitmapGlyph, offset: u32)
    ensures
        holds_text(glyph_entry(g, offset), "        codepoint: "@ + char_literal(g.codepoint) + ",\n"@),
        holds_text(glyph_entry(g, offset), "        bitmap_offset: "@ + digits(offset as nat, 10) + ",\n"@),
        holds_text(glyph_entry(g, offset), "        width: "@ + digits(g.width as nat, 10) + ",\n"@),
        holds_text(glyph_entry(g, offset), "        height: "@ + digits(g.height as nat, 10) + ",\n"@),
        holds_text(glyph_entry(g, offset), "        x_offset: "@ + signed_decimal(g.x_offset as int) + ",\n"@),
        holds_text(glyph_entry(g, offset), "        y_offset: "@ + signed_decimal(g.y_offset as int) + ",\n"@),
        holds_text(glyph_entry(g, offset), "        x_advance: "@ + signed_decimal(g.x_advance as int) + ",\n"@),
{
    lemma_holds_append_any();
    lemma_holds_tail("    GlyphMetrics {\n"@, "        codepoint: "@, char_literal(g.codepoint), ",\n"@);
    lemma_holds_tail("    GlyphMetrics {\n"@ + "        codepoint: "@ + char_literal(g.codepoint) + ",\n"@, "        bitmap_offset: "@, digits(offset as nat, 10), ",\n"@);
    lemma_holds_tail("    GlyphMetrics {\n"@ + "        codepoint: "@ + char_literal(g.codepoint) + ",\n"@ + "        bitmap_offset: "@ + digits(offset as nat, 10) + ",\n"@, "        width: "@, digits(g.width as nat, 10), ",\n"@);
    lemma_holds_tail("    GlyphMetrics {\n"@ + "        codepoint: "@ + char_literal(g.codepoint) + ",\n"@ + "        bitmap_offset: "@ + digits(offset as nat, 10) + ",\n"@ + "        width: "@ + digits(g.width as nat, 10) + ",\n"@, "        height: "@, digits(g.height as nat, 10), ",\n"@);
    lemma_holds_tail("    GlyphMetrics {\n"@ + "        codepoint: "@ + char_literal(g.codepoint) + ",\n"@ + "        bitmap_offset: "@ + digits(offset as nat, 10) + ",\n"@ + "        width: "@ + digits(g.width as nat, 10) + ",\n"@ + "        height: "@ + digits(g.height as nat, 10) + ",\n"@, "        x_offset: "@, signed_decimal(g.x_offset as int), ",\n"@);
    lemma_holds_tail("    GlyphMetrics {\n"@ + "        codepoint: "@ + char_literal(g.codepoint) + ",\n"@ + "        bitmap_offset: "@ + digits(offset as nat, 10) + ",\n"@ + "        width: "@ + digits(g.width as nat, 10) + ",\n"@ + "        height: "@ + digits(g.height as nat, 10) + ",\n"@ + "        x_offset: "@ + signed_decimal(g.x_offset as int) + ",\n"@, "        y_offset: "@, signed_decimal(g.y_offset as int), ",\n"@);
    lemma_holds_tail("    GlyphMetrics {\n"@ + "        codepoint: "@ + char_literal(g.codepoint) + ",\n"@ + "        bitmap_offset: "@ + digits(offset as nat, 10) + ",\n"@ + "        width: "@ + digits(g.width as nat, 10) + ",\n"@ + "        height: "@ + digits(g.height as nat, 10) + ",\n"@ + "        x_offset: "@ + signed_decimal(g.x_offset as int) + ",\n"@ + "        y_offset: "@ + signed_decimal(g.y_offset as int) + ",\n"@, "        x_advance: "@, signed_decimal(g.x_advance as int), ",\n"@);
}

/// The glyph table entries of `gs`, each with its glyph's offset in the packed blob.
pub open spec fn glyph_entries(gs: Seq<BitmapGlyph>) -> Seq<char>
    decreases gs.len(),
{
    if gs.len() == 0 {
        Seq::empty()
    } else {
        glyph_entries(gs.drop_last()) + glyph_entry(gs.last(), packed_glyphs(gs.drop_last()).len() as u32)
    }
}

proof fn lemma_entries_hold(gs: Seq<BitmapGlyph>, k: int)
    requires
        0 <= k < gs.len(),
    ensures
        holds_text(glyph_entries(gs), glyph_entry(gs[k], packed_glyphs(gs.take(k)).len() as u32)),
    decreases gs.len(),
{
    let d = gs.drop_last();
    let e = glyph_entry(gs.last(), packed_glyphs(d).len() as u32);
    if k == gs.len() - 1 {
        assert(gs.take(k) =~= d);
        lemma_holds_end(glyph_entries(d), e);
    } else {
        lemma_entries_hold(d, k);
        assert(d.take(k) =~= gs.take(k));
        lemma_holds_append_any();
    }
}

/// The generated source lists every glyph of the font in codepoint order, each with the
/// offset at which its packed pixels start: the `k`-th glyph in that order has its entry
/// in the glyph table (whose fields `law_glyph_entry_fields` gives).
pub proof fn law_source_lists_each_glyph(font: CodegenFont, k: int)
    requires
        0 <= k < sorted_by_codepoint(font.glyphs@).len(),
    ensures
        holds_text(
            font_source(font),
            glyph_entry(
                sorted_by_codepoint(font.glyphs@)[k],
                packed_glyphs(sorted_by_codepoint(font.glyphs@).take(k)).len() as u32,
            ),
        ),
{
    let gs = sorted_by_codepoint(font.glyphs@);
    lemma_entries_hold(gs, k);
    lemma_holds_prepend("const GLYPHS: [GlyphMetrics; "@ + digits(gs.len(), 10) + "] = [\n"@, glyph_entries(gs), glyph_entry(gs[k], packed_glyphs(gs.take(k)).len() as u32));
    lemma_holds_append_any();
}

/// A byte literal for the ASCII character `c`.
pub open spec fn byte_literal(c: char) -> Seq<char> {
    "b'"@ + byte_escaped(c) + "'"@
}

/// The assignments of the ASCII map for the ASCII glyphs of `gs`, each to the glyph's
/// position in `gs`.
pub open spec fn ascii_entries(gs: Seq<BitmapGlyph>) -> Seq<char>
    decreases gs.len(),
{
    if gs.len() == 0 {
        Seq::empty()
    } else if (gs.last().codepoint as u32) < 128 {
        ascii_entries(gs.drop_last()) + "    map["@ + byte_literal(gs.last().codepoint) + " as usize] = "@
            + digits(((gs.len() - 1) as u16) as nat, 10) + ";\n"@
    } else {
        ascii_entries(gs.drop_last())
    }
}

/// The sparse map entries for the glyphs of `gs` past ASCII, each with the glyph's position.
pub open spec fn cmap_entries(gs: Seq<BitmapGlyph>) -> Seq<char>
    decreases gs.len(),
{
    if gs.len() == 0 {
        Seq::empty()
    } else if (gs.last().codepoint as u32) < 128 {
        cmap_entries(gs.drop_last())
    } else {
        cmap_entries(gs.drop_last()) + "    ("@ + char_literal(gs.last().codepoint) + ", "@
            + digits(((gs.len() - 1) as u16) as nat, 10) + "),\n"@
    }
}

/// How many glyphs of `gs` are past ASCII.
pub open spec fn non_ascii_count(gs: Seq<BitmapGlyph>) -> nat
    decreases gs.len(),
{
    if gs.len() == 0 {
        0
    } else if (gs.last().codepoint as u32) < 128 {
        non_ascii_count(gs.drop_last())
    } else {
        non_ascii_count(gs.drop_last()) + 1
    }
}

/// The lines of the generated bitmap array, one binary byte literal per line.
pub open spec fn byte_lines(bytes: Seq<u8>) -> Seq<char>
    decreases bytes.len(),
{
    if bytes.len() == 0 {
        Seq::empty()
    } else {
        byte_lines(bytes.drop_last()) + "    0b"@ + binary8(bytes.last()) + ",\n"@
    }
}


/// The generated glyph table.
pub open spec fn glyph_table(gs: Seq<BitmapGlyph>) -> Seq<char> {
    "const GLYPHS: [GlyphMetrics; "@ + digits(gs.len(), 10) + "] = [\n"@ + glyph_entries(gs) + "];\n\n"@
}

fn push_glyph_table(s: &mut String, glyphs: &Vec<BitmapGlyph>, order: &Vec<usize>, offsets: &Vec<u32>)
    requires
        forall|k: int| 0 <= k < order@.len() ==> #[trigger] order@[k] < glyphs@.len(),
        offsets@.len() == order@.len(),
        forall|k: int| 0 <= k < order@.len() ==> #[trigger] offsets@[k] == packed_glyphs(
            in_order(glyphs@, order@).take(k),
        ).len() as u32,
    ensures
        final(s)@ == old(s)@ + glyph_table(in_order(glyphs@, order@)),
{
    let ghost gs = in_order(glyphs@, order@);
    let ghost start = s@;
    push_str(s, "const GLYPHS: [GlyphMetrics; ");
    push_decimal(s, order.len() as u64);
    push_str(s, "] = [\n");
    let ghost head = s@;
    proof {
        assert(gs.take(0) =~= Seq::<BitmapGlyph>::empty());
    }
    for k in 0..order.len()
        invariant
            gs == in_order(glyphs@, order@),
            forall|j: int| 0 <= j < order@.len() ==> #[trigger] order@[j] < glyphs@.len(),
            offsets@.len() == order@.len(),
            forall|j: int| 0 <= j < order@.len() ==> #[trigger] offsets@[j] == packed_glyphs(gs.take(j)).len() as u32,
            s@ == head + glyph_entries(gs.take(k as int)),
    {
        proof {
            assert(gs.take(k + 1).drop_last() =~= gs.take(k as int));
            assert(gs.take(k + 1).last() == glyphs@[order@[k as int] as int]);
        }
        push_glyph_entry(s, &glyphs[order[k]], offsets[k]);
    }
    proof {
        assert(gs.take(order@.len() as int) =~= gs);
    }
    push_str(s, "];\n\n");
    assert(s@ =~= start + glyph_table(gs));
}

/// The generated bitmap array.
pub open spec fn bitmap_array(bytes: Seq<u8>) -> Seq<char> {
    "const BITMAP: [u8; "@ + digits(bytes.len(), 10) + "] = [\n"@ + byte_lines(bytes) + "];\n\n"@
}

pub(crate) fn push_bitmap_array(s: &mut String, bytes: &Vec<u8>)
    ensures
        final(s)@ == old(s)@ + bitmap_array(bytes@),
{
    let ghost start = s@;
    push_str(s, "const BITMAP: [u8; ");
    push_decimal(s, bytes.len() as u64);
    push_str(s, "] = [\n");
    let ghost head = s@;
    proof {
        assert(bytes@.take(0) =~= Seq::<u8>::empty());
    }
    for k in 0..bytes.len()
        invariant
            s@ == head + byte_lines(bytes@.take(k as int)),
    {
        proof {
            assert(bytes@.take(k + 1).drop_last() =~= bytes@.take(k as int));
        }
        let ghost before = s@;
        push_str(s, "    0b");
        push_binary8(s, bytes[k]);
        push_str(s, ",\n");
        assert(s@ =~= head + byte_lines(bytes@.take(k + 1)));
    }
    proof {
        assert(bytes@.take(bytes@.len() as int) =~= bytes@);
    }
    push_str(s, "];\n\n");
    assert(s@ =~= start + bitmap_array(bytes@));
}

/// The generated ASCII map: glyph positions of ASCII characters, `u16::MAX` elsewhere.
pub open spec fn ascii_map(gs: Seq<BitmapGlyph>) -> Seq<char> {
    "const ASCII_MAP: [u16; 128] = {\n    let mut map = [u16::MAX; 128];\n"@ + ascii_entries(gs) + "    map\n};\n\n"@
}

fn push_ascii_map(s: &mut String, glyphs: &Vec<BitmapGlyph>, order: &Vec<usize>)
    requires
        forall|k: int| 0 <= k < order@.len() ==> #[trigger] order@[k] < glyphs@.len(),
    ensures
        final(s)@ == old(s)@ + ascii_map(in_order(glyphs@, order@)),
{
    let ghost gs = in_order(glyphs@, order@);
    let ghost start = s@;
    push_str(s, "const ASCII_MAP: [u16; 128] = {\n    let mut map = [u16::MAX; 128];\n");
    let ghost head = s@;
    proof {
        assert(gs.take(0) =~= Seq::<BitmapGlyph>::empty());
    }
    for k in 0..order.len()
        invariant
            gs == in_order(glyphs@, order@),
            forall|j: int| 0 <= j < order@.len() ==> #[trigger] order@[j] < glyphs@.len(),
            s@ == head + ascii_entries(gs.take(k as int)),
    {
        let c = glyphs[order[k]].codepoint;
        proof {
            assert(gs.take(k + 1).drop_last() =~= gs.take(k as int));
            assert(gs.take(k + 1).last().codepoint == c);
        }
        if (c as u32) < 128 {
            push_str(s, "    map[");
            push_str(s, "b'");
            push_byte_escaped(s, c);
            push_str(s, "'");
            push_str(s, " as usize] = ");
            push_decimal(s, (k as u16) as u64);
            push_str(s, ";\n");
            assert(s@ =~= head + ascii_entries(gs.take(k + 1)));
        }
    }
    proof {
        assert(gs.take(order@.len() as int) =~= gs);
    }
    push_str(s, "    map\n};\n\n");
    assert(s@ =~= start + ascii_map(gs));
}

/// The generated sparse map of the characters past ASCII.
pub open spec fn sparse_map(gs: Seq<BitmapGlyph>) -> Seq<char> {
    "const CMAP: [(char, u16); "@ + digits(non_ascii_count(gs), 10) + "] = [\n"@ + cmap_entries(gs) + "];\n\n"@
}

fn push_sparse_map(s: &mut String, glyphs: &Vec<BitmapGlyph>, order: &Vec<usize>)
    requires
        forall|k: int| 0 <= k < order@.len() ==> #[trigger] order@[k] < glyphs@.len(),
    ensures
        final(s)@ == old(s)@ + sparse_map(in_order(glyphs@, order@)),
{
    let ghost gs = in_order(glyphs@, order@);
    let ghost start = s@;
    let mut count: u64 = 0;
    proof {
        assert(gs.take(0) =~= Seq::<BitmapGlyph>::empty());
    }
    for k in 0..order.len()
        invariant
            gs == in_order(glyphs@, order@),
            forall|j: int| 0 <= j < order@.len() ==> #[trigger] order@[j] < glyphs@.len(),
            count == non_ascii_count(gs.take(k as int)),
            count <= k,
    {
        proof {
            assert(gs.take(k + 1).drop_last() =~= gs.take(k as int));
        }
        if (glyphs[order[k]].codepoint as u32) >= 128 {
            count = count + 1;
        }
    }
    proof {
        assert(gs.take(order@.len() as int) =~= gs);
    }
    push_str(s, "const CMAP: [(char, u16); ");
    push_decimal(s, count);
    push_str(s, "] = [\n");
    let ghost head = s@;
    for k in 0..order.len()
        invariant
            gs == in_order(glyphs@, order@),
            forall|j: int| 0 <= j < order@.len() ==> #[trigger] order@[j] < glyphs@.len(),
            s@ == head + cmap_entries(gs.take(k as int)),
    {
        let c = glyphs[order[k]].codepoint;
        proof {
            assert(gs.take(k + 1).drop_last() =~= gs.take(k as int));
            assert(gs.take(k + 1).last().codepoint == c);
        }
        if (c as u32) >= 128 {
            push_str(s, "    (");
            push_char_literal(s, c);
            push_str(s, ", ");
            push_decimal(s, (k as u16) as u64);
            push_str(s, "),\n");
            assert(s@ =~= head + cmap_entries(gs.take(k + 1)));
        }
    }
    proof {
        assert(gs.take(order@.len() as int) =~= gs);
    }
    push_str(s, "];\n\n");
    assert(s@ =~= start + sparse_map(gs));
}

/// The generated public static that ties the tables together.
pub open spec fn font_static(font: CodegenFont) -> Seq<char> {
    "pub static "@ + font.ident@ + ": BitmapFont<'static> = BitmapFont {\n    size: "@
        + digits(font.size as nat, 10) + ",\n    ascent: "@ + signed_decimal(font.ascent as int)
        + ",\n    descent: "@ + signed_decimal(font.descent as int) + ",\n    line_gap: "@
        + signed_decimal(font.line_gap as int)
        + ",\n    glyphs: &GLYPHS,\n    bitmap: &BITMAP,\n    ascii_map: &ASCII_MAP,\n    cmap: &CMAP,\n};\n"@
}

fn push_font_static(s: &mut String, font: &CodegenFont)
    ensures
        final(s)@ == old(s)@ + font_static(*font),
{
    let ghost start = s@;
    push_str(s, "pub static ");
    push_str(s, font.ident.as_str());
    push_str(s, ": BitmapFont<'static> = BitmapFont {\n    size: ");
    push_decimal(s, font.size as u64);
    push_str(s, ",\n    ascent: ");
    push_signed(s, font.ascent);
    push_str(s, ",\n    descent: ");
    push_signed(s, font.descent);
    push_str(s, ",\n    line_gap: ");
    push_signed(s, font.line_gap);
    push_str(s, ",\n    glyphs: &GLYPHS,\n    bitmap: &BITMAP,\n    ascii_map: &ASCII_MAP,\n    cmap: &CMAP,\n};\n");
    assert(s@ =~= start + font_static(*font));
}

/// The formatting error of `std::fmt`, which writing into a `String` never produces.
#[verifier::external_type_specification]
#[verifier::external_body]
pub struct ExFmtError(std::fmt::Error);

/// The Rust source generated for `font`: its glyphs sorted by codepoint (equal codepoints
/// keeping their order), their bitmaps packed one after another, the glyph table, the
/// packed bitmap, the ASCII map, the sparse map of other characters, and the public static.
pub open spec fn font_source(font: CodegenFont) -> Seq<char> {
    let gs = sorted_by_codepoint(font.glyphs@);
    glyph_table(gs) + bitmap_array(packed_glyphs(gs)) + ascii_map(gs) + sparse_map(gs) + font_static(font)
}

/// Writes Rust source for a font.
pub struct FontWriter {
    pub font: CodegenFont,
}

impl FontWriter {
    pub fn new(font: CodegenFont) -> (w: FontWriter)
        ensures
            w.font == font,
    {
        FontWriter { font }
    }

    /// The Rust source of the font's static data (see `font_source`).
    pub fn write_rust_source(&self) -> (res: Result<String, std::fmt::Error>)
        ensures
            res matches Ok(s) && s@ == font_source(self.font),
    {
        let glyphs = &self.font.glyphs;
        let order = codepoint_order(glyphs);
        let (bitmap, offsets) = pack_glyphs(glyphs, &order);
        let mut source = String::new();
        push_glyph_table(&mut source, glyphs, &order, &offsets);
        push_bitmap_array(&mut source, &bitmap);
        push_ascii_map(&mut source, glyphs, &order);
        push_sparse_map(&mut source, glyphs, &order);
        push_font_static(&mut source, &self.font);
        proof {
            let gs = sorted_by_codepoint(glyphs@);
            assert(in_order(glyphs@, order@) == gs);
            assert(source@ =~= font_source(self.font));
        }
        Ok(source)
    }
}

} // verus!

verus! {

/// The codepoint of a glyph as a number.
pub open spec fn key(g: BitmapGlyph) -> int {
    g.codepoint as u32 as int
}

/// The glyphs come in strictly increasing codepoint order.
pub open spec fn strictly_sorted(s: Seq<BitmapGlyph>) -> bool {
    forall|i: int, j: int| 0 <= i < j < s.len() ==> key(#[trigger] s[i]) < key(#[trigger] s[j])
}

/// No two glyphs share a codepoint.
pub open spec fn distinct_codepoints(s: Seq<BitmapGlyph>) -> bool {
    forall|i: int, j: int| 0 <= i < j < s.len() ==> (#[trigger] s[i]).codepoint != (#[trigger] s[j]).codepoint
}

proof fn lemma_push_contains(s: Seq<BitmapGlyph>, x: BitmapGlyph)
    ensures
        forall|y: BitmapGlyph| #![trigger s.push(x).contains(y)] #![trigger s.contains(y)]
            s.push(x).contains(y) <==> (s.contains(y) || y == x),
{
    assert forall|y: BitmapGlyph| s.push(x).contains(y) implies (s.contains(y) || y == x) by {
        let i = choose|i: int| 0 <= i < s.push(x).len() && s.push(x)[i] == y;
        if i < s.len() {
            assert(s[i] == y);
        }
    }
    assert forall|y: BitmapGlyph| (s.contains(y) || y == x) implies s.push(x).contains(y) by {
        if s.contains(y) {
            let i = choose|i: int| 0 <= i < s.len() && s[i] == y;
            assert(s.push(x)[i] == y);
        } else {
            assert(s.push(x)[s.len() as int] == x);
        }
    }
}

proof fn lemma_insert_strict(s: Seq<BitmapGlyph>, g: BitmapGlyph)
    requires
        strictly_sorted(s),
        forall|i: int| 0 <= i < s.len() ==> key(#[trigger] s[i]) != key(g),
    ensures
        strictly_sorted(insert_by_codepoint(s, g)),
        insert_by_codepoint(s, g).len() == s.len() + 1,
        forall|y: BitmapGlyph| #![trigger insert_by_codepoint(s, g).contains(y)] #![trigger s.contains(y)]
            insert_by_codepoint(s, g).contains(y) <==> (s.contains(y) || y == g),
    decreases s.len(),
{
    let r = insert_by_codepoint(s, g);
    if s.len() == 0 {
        lemma_push_contains(s, g);
        assert(r =~= s.push(g));
    } else if key(s.last()) <= key(g) {
        lemma_push_contains(s, g);
        assert(key(s[s.len() - 1]) != key(g));
    } else {
        let t = s.drop_last();
        let l = s.last();
        assert(strictly_sorted(t)) by {
            assert forall|i: int, j: int| 0 <= i < j < t.len() implies key(#[trigger] t[i]) < key(#[trigger] t[j]) by {
                assert(t[i] == s[i] && t[j] == s[j]);
            }
        }
        assert forall|i: int| 0 <= i < t.len() implies key(#[trigger] t[i]) != key(g) by {
            assert(t[i] == s[i]);
        }
        lemma_insert_strict(t, g);
        let rt = insert_by_codepoint(t, g);
        assert(r == rt.push(l));
        lemma_push_contains(rt, l);
        lemma_push_contains(t, l);
        assert(s =~= t.push(l));
        assert forall|i: int| 0 <= i < rt.len() implies key(#[trigger] rt[i]) < key(l) by {
            assert(rt.contains(rt[i]));
            if rt[i] != g {
                assert(t.contains(rt[i]));
                let k = choose|k: int| 0 <= k < t.len() && t[k] == rt[i];
                assert(s[k] == t[k]);
                assert(key(s[k]) < key(s[s.len() - 1]));
            }
        }
        assert forall|i: int, j: int| 0 <= i < j < r.len() implies key(#[trigger] r[i]) < key(#[trigger] r[j]) by {
            if j == r.len() - 1 {
                assert(r[j] == l);
                assert(r[i] == rt[i]);
            } else {
                assert(r[i] == rt[i] && r[j] == rt[j]);
            }
        }
    }
}

proof fn lemma_sorted_by_codepoint(s: Seq<BitmapGlyph>)
    requires
        distinct_codepoints(s),
    ensures
        strictly_sorted(sorted_by_codepoint(s)),
        sorted_by_codepoint(s).len() == s.len(),
        forall|y: BitmapGlyph| #![trigger sorted_by_codepoint(s).contains(y)] #![trigger s.contains(y)]
            sorted_by_codepoint(s).contains(y) <==> s.contains(y),
    decreases s.len(),
{
    if s.len() > 0 {
        let t = s.drop_last();
        let l = s.last();
        assert(distinct_codepoints(t)) by {
            assert forall|i: int, j: int| 0 <= i < j < t.len() implies (#[trigger] t[i]).codepoint != (#[trigger] t[j]).codepoint by {
                assert(t[i] == s[i] && t[j] == s[j]);
            }
        }
        lemma_sorted_by_codepoint(t);
        let st = sorted_by_codepoint(t);
        assert forall|i: int| 0 <= i < st.len() implies key(#[trigger] st[i]) != key(l) by {
            assert(st.contains(st[i]));
            assert(t.contains(st[i]));
            let k = choose|k: int| 0 <= k < t.len() && t[k] == st[i];
            assert(t[k] == s[k]);
            assert(s[k].codepoint != s[s.len() - 1].codepoint);
        }
        lemma_insert_strict(st, l);
        lemma_push_contains(t, l);
        assert(s =~= t.push(l));
        assert(sorted_by_codepoint(s) == insert_by_codepoint(st, l));
    }
}

proof fn lemma_strict_same_elements(a: Seq<BitmapGlyph>, b: Seq<BitmapGlyph>, i: int)
    requires
        strictly_sorted(a),
        strictly_sorted(b),
        a.len() == b.len(),
        forall|y: BitmapGlyph| a.contains(y) <==> b.contains(y),
        0 <= i < a.len(),
    ensures
        a[i] == b[i],
    decreases i,
{
    assert forall|k: int| 0 <= k < i implies a[k] == b[k] by {
        lemma_strict_same_elements(a, b, k);
    }
    assert(a.contains(a[i]));
    let j = choose|j: int| 0 <= j < b.len() && b[j] == a[i];
    assert(b.contains(b[i]));
    let k = choose|k: int| 0 <= k < a.len() && a[k] == b[i];
    if j < i {
        assert(a[j] == b[j]);
        assert(key(a[j]) < key(a[i]));
    } else if j > i {
        assert(key(b[i]) < key(b[j]));
        if k < i {
            assert(a[k] == b[k]);
            assert(key(b[k]) < key(b[i]));
        } else if k > i {
            assert(key(a[i]) < key(a[k]));
        }
    }
}

/// Writing a font does not depend on the order of its glyphs where no two share a
/// codepoint: two fonts alike but for holding the same glyphs in another order give the
/// same source.
pub proof fn law_source_ignores_glyph_order(f1: CodegenFont, f2: CodegenFont)
    requires
        f1.ident@ == f2.ident@,
        f1.size == f2.size,
        f1.ascent == f2.ascent,
        f1.descent == f2.descent,
        f1.line_gap == f2.line_gap,
        f1.glyphs@.len() == f2.glyphs@.len(),
        forall|g: BitmapGlyph| f1.glyphs@.contains(g) <==> f2.glyphs@.contains(g),
        distinct_codepoints(f1.glyphs@),
        distinct_codepoints(f2.glyphs@),
    ensures
        font_source(f1) == font_source(f2),
{
    let a = sorted_by_codepoint(f1.glyphs@);
    let b = sorted_by_codepoint(f2.glyphs@);
    lemma_sorted_by_codepoint(f1.glyphs@);
    lemma_sorted_by_codepoint(f2.glyphs@);
    assert forall|y: BitmapGlyph| a.contains(y) <==> b.contains(y) by {
        assert(a.contains(y) <==> f1.glyphs@.contains(y));
        assert(b.contains(y) <==> f2.glyphs@.contains(y));
    }
    assert forall|i: int| 0 <= i < a.len() implies a[i] == b[i] by {
        lemma_strict_same_elements(a, b, i);
    }
    assert(a =~= b);
    assert(font_static(f1) == font_static(f2));
}

} // verus!
