use vstd::prelude::*;

use crate::layout::in_i32;
use crate::style::half_toward_zero;

verus! {

/// A rasterized glyph before packing: its metrics and one `bool` per pixel, row by row.
#[derive(Debug, Clone, PartialEq, Eq)]
pub struct BitmapGlyph {
    pub codepoint: char,
    pub width: u16,
    pub height: u16,
    pub x_offset: i16,
    pub y_offset: i16,
    pub bitmap: Vec<bool>,
}

/// The x offset that centres a glyph `glyph` pixels wide in a design box `design` wide,
/// rounding toward zero.
pub fn centered_offset(design: u16, glyph: u16) -> (r: i16)
    ensures
        r == half_toward_zero(design - glyph),
{
    ((design as i32 - glyph as i32) / 2) as i16
}

/// The row of a glyph's top edge, counted down from the top of a design box `design` tall.
pub open spec fn top_of(design: int, glyph: BitmapGlyph) -> int {
    design - glyph.y_offset
}

/// The row just below a glyph's bottom edge.
pub open spec fn bottom_of(design: int, glyph: BitmapGlyph) -> int {
    top_of(design, glyph) + glyph.height
}

/// The row of the glyph's top edge in a design box `design_size` tall.
pub fn glyph_top(design_size: i32, glyph: &BitmapGlyph) -> (r: i32)
    requires
        in_i32(top_of(design_size as int, *glyph)),
    ensures
        r == top_of(design_size as int, *glyph),
{
    design_size - glyph.y_offset as i32
}

/// The row just below the glyph's bottom edge in a design box `design_size` tall.
pub fn glyph_bottom(design_size: i32, glyph: &BitmapGlyph) -> (r: i32)
    requires
        in_i32(top_of(design_size as int, *glyph)),
        in_i32(bottom_of(design_size as int, *glyph)),
    ensures
        r == bottom_of(design_size as int, *glyph),
{
    glyph_top(design_size, glyph) + glyph.height as i32
}

/// The highest top edge of the glyphs `gs` (which must not be empty).
pub open spec fn min_top(design: int, gs: Seq<BitmapGlyph>) -> int
    decreases gs.len(),
{
    if gs.len() <= 1 {
        top_of(design, gs[0])
    } else {
        let m = min_top(design, gs.drop_last());
        let t = top_of(design, gs.last());
        if t < m {
            t
        } else {
            m
        }
    }
}

/// The lowest bottom edge of the glyphs `gs` (which must not be empty).
pub open spec fn max_bottom(design: int, gs: Seq<BitmapGlyph>) -> int
    decreases gs.len(),
{
    if gs.len() <= 1 {
        bottom_of(design, gs[0])
    } else {
        let m = max_bottom(design, gs.drop_last());
        let b = bottom_of(design, gs.last());
        if b > m {
            b
        } else {
            m
        }
    }
}

/// Moving every glyph of `gs` up by `d` rows leaves them all inside the design box.
pub open spec fn fits_after_shift(design: int, gs: Seq<BitmapGlyph>, d: int) -> bool {
    forall|i: int|
        0 <= i < gs.len() ==> 0 <= #[trigger] top_of(design, gs[i]) - d && bottom_of(design, gs[i]) - d
            <= design
}

/// The shift that the whole block of glyphs gets: none for no glyphs; where some shift
/// fits every glyph inside the design box, the fitting shift nearest to zero; otherwise
/// the shift that centres the block's rows in the box (rounding toward zero).
pub open spec fn block_shift(design: int, gs: Seq<BitmapGlyph>) -> int {
    if gs.len() == 0 {
        0
    } else {
        let lo = max_bottom(design, gs) - design;
        let hi = min_top(design, gs);
        if lo <= hi {
            if 0 < lo {
                lo
            } else if hi < 0 {
                hi
            } else {
                0
            }
        } else {
            half_toward_zero(min_top(design, gs) + max_bottom(design, gs) - design)
        }
    }
}

/// The highest top is the top of some glyph, and no glyph's top is higher; likewise the
/// lowest bottom.
pub proof fn lemma_block_edges(design: int, gs: Seq<BitmapGlyph>)
    requires
        gs.len() > 0,
    ensures
        forall|i: int| 0 <= i < gs.len() ==> min_top(design, gs) <= #[trigger] top_of(design, gs[i]),
        forall|i: int| 0 <= i < gs.len() ==> max_bottom(design, gs) >= #[trigger] bottom_of(design, gs[i]),
        exists|i: int| 0 <= i < gs.len() && min_top(design, gs) == #[trigger] top_of(design, gs[i]),
        exists|i: int| 0 <= i < gs.len() && max_bottom(design, gs) == #[trigger] bottom_of(design, gs[i]),
    decreases gs.len(),
{
    if gs.len() > 1 {
        let prev = gs.drop_last();
        lemma_block_edges(design, prev);
        assert forall|i: int| 0 <= i < gs.len() - 1 implies gs[i] == prev[i] by {}
        let it = choose|i: int| 0 <= i < prev.len() && min_top(design, prev) == #[trigger] top_of(design, prev[i]);
        let ib = choose|i: int| 0 <= i < prev.len() && max_bottom(design, prev) == #[trigger] bottom_of(design, prev[i]);
        assert(top_of(design, gs[it]) == top_of(design, prev[it]));
        assert(bottom_of(design, gs[ib]) == bottom_of(design, prev[ib]));
        assert(top_of(design, gs[gs.len() - 1]) == top_of(design, gs.last()));
        assert(bottom_of(design, gs[gs.len() - 1]) == bottom_of(design, gs.last()));
        assert forall|i: int| 0 <= i < gs.len() implies min_top(design, gs) <= #[trigger] top_of(design, gs[i]) by {
            if i < gs.len() - 1 {
                assert(top_of(design, gs[i]) == top_of(design, prev[i]));
            }
        }
        assert forall|i: int| 0 <= i < gs.len() implies max_bottom(design, gs) >= #[trigger] bottom_of(design, gs[i]) by {
            if i < gs.len() - 1 {
                assert(bottom_of(design, gs[i]) == bottom_of(design, prev[i]));
            }
        }
    } else {
        assert(top_of(design, gs[0]) == min_top(design, gs));
        assert(bottom_of(design, gs[0]) == max_bottom(design, gs));
    }
}

/// A block of glyphs gets one shared vertical shift. Where some shift fits every glyph
/// inside the design box, the chosen shift fits them too, and moves the block no further
/// than that shift: glyphs that already fit stay in place, and a block that sticks out is
/// moved just far enough.
pub proof fn law_block_shift_fits(design: u16, gs: Seq<BitmapGlyph>, d: int)
    requires
        fits_after_shift(design as int, gs, d),
    ensures
        fits_after_shift(design as int, gs, block_shift(design as int, gs)),
        d >= 0 ==> 0 <= block_shift(design as int, gs) <= d,
        d <= 0 ==> d <= block_shift(design as int, gs) <= 0,
{
    let design = design as int;
    if gs.len() > 0 {
        lemma_block_edges(design, gs);
        let it = choose|i: int| 0 <= i < gs.len() && min_top(design, gs) == #[trigger] top_of(design, gs[i]);
        let ib = choose|i: int| 0 <= i < gs.len() && max_bottom(design, gs) == #[trigger] bottom_of(design, gs[i]);
        assert(0 <= top_of(design, gs[it]) - d);
        assert(bottom_of(design, gs[ib]) - d <= design);
    }
}


/// Where no shift fits a block of glyphs inside the design box, the chosen shift centres
/// the block: with `i` a glyph of the highest top and `j` one of the lowest bottom, the
/// rows by which the block sticks out above the box and those by which it sticks out below
/// differ by at most one.
pub proof fn law_block_shift_centres(design: u16, gs: Seq<BitmapGlyph>, i: int, j: int)
    requires
        0 <= i < gs.len(),
        0 <= j < gs.len(),
        forall|k: int| 0 <= k < gs.len() ==> top_of(design as int, gs[i]) <= #[trigger] top_of(design as int, gs[k]),
        forall|k: int| 0 <= k < gs.len() ==> #[trigger] bottom_of(design as int, gs[k]) <= bottom_of(design as int, gs[j]),
        forall|d: int| !fits_after_shift(design as int, gs, d),
    ensures
        -1 <= (block_shift(design as int, gs) - top_of(design as int, gs[i])) - (bottom_of(design as int, gs[j])
            - block_shift(design as int, gs) - design) <= 1,
{
    let dz = design as int;
    lemma_block_edges(dz, gs);
    let it = choose|k: int| 0 <= k < gs.len() && min_top(dz, gs) == #[trigger] top_of(dz, gs[k]);
    let ib = choose|k: int| 0 <= k < gs.len() && max_bottom(dz, gs) == #[trigger] bottom_of(dz, gs[k]);
    assert(top_of(dz, gs[i]) <= top_of(dz, gs[it]));
    assert(bottom_of(dz, gs[ib]) <= bottom_of(dz, gs[j]));
    let lo = max_bottom(dz, gs) - dz;
    let hi = min_top(dz, gs);
    assert(lo > hi) by {
        if lo <= hi {
            assert(fits_after_shift(dz, gs, hi));
        }
    }
    let x = min_top(dz, gs) + max_bottom(dz, gs) - dz;
    assert(-1 <= x - 2 * half_toward_zero(x) <= 1);
}

/// The glyphs `gs` each moved up by `d` rows (their y offsets raised by `d`).
pub open spec fn shifted(gs: Seq<BitmapGlyph>, d: int) -> Seq<BitmapGlyph> {
    gs.map_values(|g: BitmapGlyph| BitmapGlyph { y_offset: (g.y_offset + d) as i16, ..g })
}

/// Raising every y offset by `d` stays within `i16`.
pub open spec fn shift_fits(gs: Seq<BitmapGlyph>, d: int) -> bool {
    forall|i: int| 0 <= i < gs.len() ==> i16::MIN <= #[trigger] gs[i].y_offset + d <= i16::MAX
}

proof fn lemma_shifted_edges(design: int, gs: Seq<BitmapGlyph>, d: int)
    requires
        gs.len() > 0,
        shift_fits(gs, d),
    ensures
        min_top(design, shifted(gs, d)) == min_top(design, gs) - d,
        max_bottom(design, shifted(gs, d)) == max_bottom(design, gs) - d,
    decreases gs.len(),
{
    let sg = shifted(gs, d);
    assert(gs[0].y_offset + d == sg[0].y_offset);
    if gs.len() > 1 {
        let prev = gs.drop_last();
        assert(shifted(prev, d) =~= sg.drop_last());
        assert(shift_fits(prev, d)) by {
            assert forall|i: int| 0 <= i < prev.len() implies i16::MIN <= #[trigger] prev[i].y_offset + d <= i16::MAX by {
                assert(prev[i] == gs[i]);
            }
        }
        lemma_shifted_edges(design, prev, d);
        assert(gs.last().y_offset + d == sg.last().y_offset) by {
            assert(gs[gs.len() - 1].y_offset + d <= i16::MAX);
        }
    }
}

/// After a block has been moved by its shift, its shift is zero: moving it again changes
/// nothing, whether it fit the design box or was centred in it.
pub proof fn law_block_shift_settles(design: u16, gs: Seq<BitmapGlyph>)
    requires
        shift_fits(gs, block_shift(design as int, gs)),
    ensures
        block_shift(design as int, shifted(gs, block_shift(design as int, gs))) == 0,
{
    let dz = design as int;
    let d = block_shift(dz, gs);
    if gs.len() > 0 {
        lemma_shifted_edges(dz, gs, d);
    }
}

/// Bounds on the edges of glyphs in a design box at most `u16::MAX` tall.
proof fn lemma_edge_bounds(design: int, gs: Seq<BitmapGlyph>)
    requires
        0 <= design <= u16::MAX,
        gs.len() > 0,
    ensures
        -0x8000 <= min_top(design, gs) <= 0x20000,
        -0x8000 <= max_bottom(design, gs) <= 0x30000,
{
    lemma_block_edges(design, gs);
    let it = choose|i: int| 0 <= i < gs.len() && min_top(design, gs) == #[trigger] top_of(design, gs[i]);
    let ib = choose|i: int| 0 <= i < gs.len() && max_bottom(design, gs) == #[trigger] bottom_of(design, gs[i]);
    assert(top_of(design, gs[it]) == design - gs[it].y_offset);
    assert(bottom_of(design, gs[ib]) == design - gs[ib].y_offset + gs[ib].height);
}

/// The shift that the block of glyphs gets (see `block_shift`).
pub fn y_offset_delta(design_size: u16, glyphs: &[BitmapGlyph]) -> (r: i32)
    ensures
        r == block_shift(design_size as int, glyphs@),
{
    if glyphs.len() == 0 {
        return 0;
    }
    let design: i32 = design_size as i32;
    let ghost gs = glyphs@;
    let mut min_top_v = glyph_top(design, &glyphs[0]);
    let mut max_bottom_v = glyph_bottom(design, &glyphs[0]);
    proof {
        assert(gs.take(1).len() == 1);
        assert(gs.take(1)[0] == gs[0]);
    }
    let mut k: usize = 1;
    while k < glyphs.len()
        invariant
            gs == glyphs@,
            design == design_size,
            1 <= k <= gs.len(),
            min_top_v == min_top(design as int, gs.take(k as int)),
            max_bottom_v == max_bottom(design as int, gs.take(k as int)),
        decreases gs.len() - k,
    {
        let t = glyph_top(design, &glyphs[k]);
        let b = glyph_bottom(design, &glyphs[k]);
        proof {
            assert(gs.take(k + 1).drop_last() =~= gs.take(k as int));
            assert(gs.take(k + 1).last() == gs[k as int]);
        }
        if t < min_top_v {
            min_top_v = t;
        }
        if b > max_bottom_v {
            max_bottom_v = b;
        }
        k = k + 1;
    }
    proof {
        assert(gs.take(gs.len() as int) =~= gs);
        lemma_edge_bounds(design as int, gs);
    }
    let min_delta = max_bottom_v - design;
    let max_delta = min_top_v;
    if min_delta <= max_delta {
        if 0 < min_delta {
            min_delta
        } else if max_delta < 0 {
            max_delta
        } else {
            0
        }
    } else {
        (min_top_v + max_bottom_v - design) / 2
    }
}

/// Moves every glyph of the block by the block's shared shift (see `block_shift`).
pub fn apply_auto_y_offset(design_size: u16, glyphs: &mut Vec<BitmapGlyph>)
    ensures
        final(glyphs)@.len() == old(glyphs)@.len(),
        forall|i: int| 0 <= i < old(glyphs)@.len() ==> #[trigger] final(glyphs)@[i] == (BitmapGlyph {
            y_offset: (old(glyphs)@[i].y_offset + block_shift(design_size as int, old(glyphs)@)) as i16,
            ..old(glyphs)@[i]
        }),
        final(glyphs)@ == shifted(old(glyphs)@, block_shift(design_size as int, old(glyphs)@)),
{
    let delta = y_offset_delta(design_size, glyphs.as_slice());
    proof {
        if old(glyphs)@.len() > 0 {
            lemma_edge_bounds(design_size as int, old(glyphs)@);
        }
    }
    let n = glyphs.len();
    let mut i: usize = 0;
    while i < n
        invariant
            n == old(glyphs)@.len(),
            glyphs@.len() == n,
            i <= n,
            delta == block_shift(design_size as int, old(glyphs)@),
            -0x40000 <= delta <= 0x40000,
            forall|j: int| 0 <= j < i ==> #[trigger] glyphs@[j] == (BitmapGlyph {
                y_offset: (old(glyphs)@[j].y_offset + delta) as i16,
                ..old(glyphs)@[j]
            }),
            forall|j: int| i <= j < n ==> #[trigger] glyphs@[j] == old(glyphs)@[j],
        decreases n - i,
    {
        let y = (glyphs[i].y_offset as i32 + delta) as i16;
        glyphs[i].y_offset = y;
        i = i + 1;
    }
    assert(glyphs@ =~= shifted(old(glyphs)@, delta as int));
}
/// A rasterized dimension, at least one pixel, taken as `u16`.
pub open spec fn at_least_one(v: usize) -> u16 {
    (if v > 1 { v } else { 1 }) as u16
}

/// The 1bpp pixels of a rasterized glyph: coverage values of at least 96 are set; a glyph
/// with no area becomes a blank `width` by `height` box.
pub open spec fn raster_pixels(width: usize, height: usize, coverage: Seq<u8>) -> Seq<bool> {
    if width == 0 || height == 0 {
        Seq::new(
            ((at_least_one(width) as int) * (at_least_one(height) as int)) as nat,
            |i: int| false,
        )
    } else {
        coverage.map_values(|a: u8| a >= 96)
    }
}

/// The glyph that rasterizing `codepoint` at design size `size` gives, from the rasterized
/// bitmap's `width`, `height`, bottom row `ymin` and coverage values: its box at least one
/// pixel on each side, centred horizontally in the design box, with its top `height + ymin`
/// rows above the baseline.
pub fn glyph_from_raster(codepoint: char, size: u16, width: usize, height: usize, ymin: i32, coverage: Vec<u8>) -> (g: BitmapGlyph)
    requires
        in_i32((height as i32) + ymin),
    ensures
        g.codepoint == codepoint,
        g.width == at_least_one(width),
        g.height == at_least_one(height),
        g.x_offset == half_toward_zero(size - at_least_one(width)),
        g.y_offset == (((height as i32) + ymin) as i16),
        g.bitmap@ == raster_pixels(width, height, coverage@),
{
    let w: u16 = (if width > 1 { width } else { 1 }) as u16;
    let h: u16 = (if height > 1 { height } else { 1 }) as u16;
    let mut pixels: Vec<bool> = Vec::new();
    if width == 0 || height == 0 {
        assert(w as int * h as int <= 0xffff * 0xffff) by (nonlinear_arith)
            requires
                w <= 0xffff,
                h <= 0xffff,
        ;
        let n: usize = w as usize * h as usize;
        for i in 0..n
            invariant
                pixels@ =~= Seq::new(i as nat, |j: int| false),
        {
            pixels.push(false);
        }
    } else {
        for i in 0..coverage.len()
            invariant
                pixels@ =~= coverage@.take(i as int).map_values(|a: u8| a >= 96),
        {
            pixels.push(coverage[i] >= 96);
        }
        assert(coverage@.take(coverage@.len() as int) =~= coverage@);
    }
    BitmapGlyph {
        codepoint,
        width: w,
        height: h,
        x_offset: centered_offset(size, w),
        y_offset: (height as i32 + ymin) as i16,
        bitmap: pixels,
    }
}

} // verus!
