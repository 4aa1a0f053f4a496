use vstd::prelude::*;

use crate::codegen::{
    bitmap_array, codepoint_order, in_order, pack_glyphs, packed_glyphs, sorted_by_codepoint,
    BitmapGlyph,
};
use crate::rust_text::{
    char_literal, push_char, push_char_literal,
    digits, push_decimal, push_signed, push_str, push_string_literal, signed_decimal,
    string_literal, holds_text, lemma_holds_append_any, lemma_holds_end, lemma_holds_prepend, lemma_holds_tail,
};
use crate::style::half_toward_zero;
use std::collections::BTreeMap;

verus! {

/// The x offset that centres a glyph `glyph_width` pixels wide in a design box
/// `design_size` wide, rounding toward zero.
pub fn centered_x_offset(design_size: u16, glyph_width: u16) -> (r: i16)
    ensures
        r == half_toward_zero(design_size - glyph_width),
{
    ((design_size as i32 - glyph_width as i32) / 2) as i16
}

/// Whether `c` occurs in `s`.
fn contains_char(s: &Vec<char>, c: char) -> (r: bool)
    ensures
        r == s@.contains(c),
{
    for i in 0..s.len()
        invariant
            forall|j: int| 0 <= j < i ==> s@[j] != c,
    {
        if s[i] == c {
            return true;
        }
    }
    false
}

/// The characters of `s` in order of first occurrence, each once.
pub open spec fn dedup(s: Seq<char>) -> Seq<char>
    decreases s.len(),
{
    if s.len() == 0 {
        Seq::empty()
    } else if dedup(s.drop_last()).contains(s.last()) {
        dedup(s.drop_last())
    } else {
        dedup(s.drop_last()).push(s.last())
    }
}

/// `dedup` keeps exactly the characters of `s`, none twice.
pub proof fn lemma_dedup(s: Seq<char>)
    ensures
        forall|c: char| dedup(s).contains(c) <==> s.contains(c),
        forall|i: int, j: int| 0 <= i < j < dedup(s).len() ==> dedup(s)[i] != dedup(s)[j],
    decreases s.len(),
{
    if s.len() > 0 {
        let p = s.drop_last();
        lemma_dedup(p);
        assert forall|c: char| s.contains(c) <==> (p.contains(c) || c == s.last()) by {
            if s.contains(c) {
                let i = choose|i: int| 0 <= i < s.len() && s[i] == c;
                if i < s.len() - 1 {
                    assert(p[i] == c);
                }
            }
            if p.contains(c) {
                let i = choose|i: int| 0 <= i < p.len() && p[i] == c;
                assert(s[i] == c);
            }
            if c == s.last() {
                assert(s[s.len() - 1] == c);
            }
        }
        if !dedup(p).contains(s.last()) {
            let d = dedup(p).push(s.last());
            assert forall|c: char| d.contains(c) <==> (dedup(p).contains(c) || c == s.last()) by {
                if d.contains(c) {
                    let i = choose|i: int| 0 <= i < d.len() && d[i] == c;
                    if i < d.len() - 1 {
                        assert(dedup(p)[i] == c);
                    }
                }
                if dedup(p).contains(c) {
                    let i = choose|i: int| 0 <= i < dedup(p).len() && dedup(p)[i] == c;
                    assert(d[i] == c);
                }
                if c == s.last() {
                    assert(d[d.len() - 1] == c);
                }
            }
        }
    }
}

/// Two font blocks share no character.
pub open spec fn disjoint(a: Seq<char>, b: Seq<char>) -> bool {
    forall|c: char| !(a.contains(c) && b.contains(c))
}

/// Block `b` shares a character with an earlier block.
pub open spec fn clashes(indices: Seq<Seq<char>>, b: int) -> bool {
    exists|a: int| 0 <= a < b && !disjoint(#[trigger] indices[a], indices[b])
}

/// A character of one block that an earlier block already has: the character, the first
/// block that has it, and the block where it comes again.
#[derive(Debug, Clone, Copy, PartialEq, Eq, Structural)]
pub struct DuplicateIndexChar {
    pub ch: char,
    pub first_block: usize,
    pub block: usize,
}

/// The message for a character that two blocks share.
pub open spec fn duplicate_index(ch: char, first_index: Seq<char>) -> Seq<char> {
    "duplicate index character "@ + char_literal(ch) + "; first seen in index "@ + string_literal(first_index)
}

impl DuplicateIndexChar {
    /// The message for the shared character, given the index of the block that has it first.
    pub fn message(&self, first_index: &str) -> (m: String)
        ensures
            m@ == duplicate_index(self.ch, first_index@),
    {
        let mut m = String::new();
        push_str(&mut m, "duplicate index character ");
        push_char_literal(&mut m, self.ch);
        push_str(&mut m, "; first seen in index ");
        push_string_literal(&mut m, first_index);
        m
    }
}

/// What indexing the blocks gives: each block's characters once, in order of first
/// occurrence, where no character is in two blocks; otherwise the first block that repeats
/// a character of an earlier block, its first such character (in its index order), and the
/// earliest block that has that character.
pub open spec fn index_blocks_result(indices: Seq<Seq<char>>, r: Result<Seq<Seq<char>>, DuplicateIndexChar>) -> bool {
    match r {
        Ok(blocks) => {
            &&& forall|b: int| 0 <= b < indices.len() ==> !clashes(indices, b)
            &&& blocks.len() == indices.len()
            &&& forall|b: int| 0 <= b < indices.len() ==> #[trigger] blocks[b] == dedup(indices[b])
        },
        Err(e) => {
            let b = e.block as int;
            let a = e.first_block as int;
            &&& 0 <= a < b < indices.len()
            &&& clashes(indices, b)
            &&& forall|k: int| 0 <= k < b ==> !clashes(indices, k)
            &&& exists|j: int| {
                &&& 0 <= j < indices[b].len()
                &&& indices[b][j] == e.ch
                &&& forall|i: int| 0 <= i < j ==> forall|x: int| 0 <= x < b ==> !(#[trigger] indices[x]).contains(#[trigger] indices[b][i])
            }
            &&& indices[a].contains(e.ch)
            &&& forall|x: int| 0 <= x < a ==> !(#[trigger] indices[x]).contains(e.ch)
        },
    }
}

/// The index strings of blocks as character sequences.
pub open spec fn index_chars(indices: Seq<String>) -> Seq<Seq<char>> {
    indices.map_values(|s: String| s@)
}

/// The blocks' character lists as sequences.
pub open spec fn blocks_view(r: Result<Vec<Vec<char>>, DuplicateIndexChar>) -> Result<Seq<Seq<char>>, DuplicateIndexChar> {
    match r {
        Ok(v) => Ok(v@.map_values(|b: Vec<char>| b@)),
        Err(e) => Err(e),
    }
}

/// The block recorded for the character numbered `k`, if any.
fn seen_get(seen: &BTreeMap<u32, usize>, k: u32) -> (r: Option<usize>)
    ensures
        r matches Some(v) ==> seen@.contains_key(k) && seen@[k] == v,
        r is None ==> !seen@.contains_key(k),
{
    broadcast use vstd::laws_cmp::group_laws_cmp;
    match seen.get(&k) {
        Some(v) => Some(*v),
        None => None,
    }
}

/// Records block `v` for the character numbered `k`.
fn seen_insert(seen: &mut BTreeMap<u32, usize>, k: u32, v: usize)
    ensures
        final(seen)@ == old(seen)@.insert(k, v),
{
    broadcast use vstd::laws_cmp::group_laws_cmp;
    seen.insert(k, v);
}

/// The number of a character, as the map of seen characters keys it.
pub open spec fn code(c: char) -> u32 {
    c as u32
}

proof fn lemma_code_injective(c: char, d: char)
    ensures
        c != d ==> code(c) != code(d),
{
}

/// Block `v` is the first of the blocks `idx` whose index holds `c`.
pub open spec fn first_holder(idx: Seq<Seq<char>>, c: char, v: int) -> bool {
    &&& 0 <= v < idx.len()
    &&& idx[v].contains(c)
    &&& forall|y: int| 0 <= y < v ==> !(#[trigger] idx[y]).contains(c)
}

/// The characters of each font block's index, each once, rejecting a character that two
/// blocks share (see `index_blocks_result`). A map from each character seen so far to the
/// first block that has it finds the earlier block.
#[verifier::spinoff_prover]
pub fn indexed_blocks(indices: &Vec<String>) -> (res: Result<Vec<Vec<char>>, DuplicateIndexChar>)
    ensures
        index_blocks_result(index_chars(indices@), blocks_view(res)),
{
    let ghost idx = index_chars(indices@);
    let mut out: Vec<Vec<char>> = Vec::new();
    let mut seen: BTreeMap<u32, usize> = BTreeMap::new();
    for b in 0..indices.len()
        invariant
            idx == index_chars(indices@),
            out@.len() == b,
            forall|x: int| 0 <= x < b ==> (#[trigger] out@[x])@ == dedup(idx[x]),
            forall|k: int| 0 <= k < b ==> !clashes(idx, k),
            forall|c: char| #[trigger] seen@.contains_key(code(c)) ==> seen@[code(c)] < b
                && first_holder(idx, c, seen@[code(c)] as int),
            forall|c: char, x: int| 0 <= x < b && (#[trigger] idx[x]).contains(c) ==> #[trigger] seen@.contains_key(code(c)),
    {
        let index: &str = indices[b].as_str();
        let ghost cur = idx[b as int];
        assert(index@ == cur);
        let mut chars: Vec<char> = Vec::new();
        proof {
            assert(cur.take(0) =~= Seq::<char>::empty());
        }
        for ch in it: index.chars()
            invariant
                idx == index_chars(indices@),
                cur == idx[b as int],
                b < idx.len(),
                it.seq() == cur,
                0 <= it.index() <= cur.len(),
                out@.len() == b,
                forall|x: int| 0 <= x < b ==> (#[trigger] out@[x])@ == dedup(idx[x]),
                forall|k: int| 0 <= k < b ==> !clashes(idx, k),
                chars@ == dedup(cur.take(it.index())),
                forall|i: int|
                    0 <= i < it.index() ==> forall|x: int| 0 <= x < b ==> !(#[trigger] idx[x]).contains(#[trigger] cur[i]),
                forall|c: char| #[trigger] seen@.contains_key(code(c)) ==> (seen@[code(c)] < b
                    && first_holder(idx, c, seen@[code(c)] as int))
                    || (seen@[code(c)] == b && cur.take(it.index()).contains(c)),
                forall|c: char, x: int| 0 <= x < b && (#[trigger] idx[x]).contains(c) ==> #[trigger] seen@.contains_key(code(c)),
                forall|i: int| 0 <= i < it.index() ==> #[trigger] seen@.contains_key(code(cur[i])),
        {
            let ghost j = it.index();
            proof {
                assert(cur.take(j + 1).drop_last() =~= cur.take(j));
                assert(cur.take(j + 1).last() == ch);
                assert(cur.take(j + 1) =~= cur.take(j).push(ch));
                assert(j < cur.len() && cur[j] == ch);
                lemma_dedup(cur.take(j));
                assert forall|c: char| cur.take(j).contains(c) implies cur.take(j + 1).contains(c) by {
                    let i = choose|i: int| 0 <= i < cur.take(j).len() && cur.take(j)[i] == c;
                    assert(cur.take(j + 1)[i] == c);
                }
            }
            if contains_char(&chars, ch) {
                proof {
                    assert(dedup(cur.take(j)).contains(ch));
                    assert(cur.take(j).contains(ch));
                    let i = choose|i: int| 0 <= i < cur.take(j).len() && cur.take(j)[i] == ch;
                    assert(cur.take(j)[i] == cur[i]);
                    assert forall|x: int| 0 <= x < b implies !(#[trigger] idx[x]).contains(cur[j]) by {
                        assert(!idx[x].contains(cur[i]));
                    }
                    assert(seen@.contains_key(code(cur[i])));
                }
            } else {
                proof {
                    assert(!cur.take(j).contains(ch)) by {
                        if cur.take(j).contains(ch) {
                            assert(dedup(cur.take(j)).contains(ch));
                        }
                    }
                }
                match seen_get(&seen, ch as u32) {
                    Some(first) => {
                        let a: usize = first;
                        proof {
                            assert(seen@.contains_key(code(ch)));
                            assert(a < b && first_holder(idx, ch, a as int));
                            assert(!disjoint(idx[a as int], idx[b as int])) by {
                                assert(cur.contains(ch));
                            }
                            assert(clashes(idx, b as int));
                            let e = DuplicateIndexChar { ch, first_block: a, block: b };
                            assert(exists|jj: int| {
                                &&& 0 <= jj < idx[b as int].len()
                                &&& idx[b as int][jj] == e.ch
                                &&& forall|i: int| 0 <= i < jj ==> forall|x: int| 0 <= x < b ==> !(#[trigger] idx[x]).contains(#[trigger] idx[b as int][i])
                            }) by {
                                assert(idx[b as int][j] == e.ch);
                            }
                            assert(index_blocks_result(idx, Err(e)));
                            assert(blocks_view(Err::<Vec<Vec<char>>, DuplicateIndexChar>(e)) == Err::<Seq<Seq<char>>, DuplicateIndexChar>(e));
                        }
                        return Err(DuplicateIndexChar { ch, first_block: a, block: b });
                    },
                    None => {
                        proof {
                            assert(!seen@.contains_key(code(ch)));
                            assert forall|x: int| 0 <= x < b implies !(#[trigger] idx[x]).contains(cur[j]) by {
                                if idx[x].contains(ch) {
                                    assert(seen@.contains_key(code(ch)));
                                }
                            }
                        }
                        seen_insert(&mut seen, ch as u32, b);
                        chars.push(ch);
                        proof {
                            assert forall|c: char| #[trigger] seen@.contains_key(code(c)) implies (seen@[code(c)] < b
                                && first_holder(idx, c, seen@[code(c)] as int))
                                || (seen@[code(c)] == b && cur.take(j + 1).contains(c)) by {
                                if c == ch {
                                    assert(cur.take(j + 1)[j] == c);
                                } else {
                                    lemma_code_injective(c, ch);
                                }
                            }
                        }
                    },
                }
            }
        }
        proof {
            assert(cur.take(cur.len() as int) =~= cur);
            assert forall|x: int| 0 <= x < b implies disjoint(#[trigger] idx[x], idx[b as int]) by {
                assert forall|c: char| !(idx[x].contains(c) && idx[b as int].contains(c)) by {
                    if idx[b as int].contains(c) {
                        let i = choose|i: int| 0 <= i < cur.len() && cur[i] == c;
                        assert(!idx[x].contains(cur[i]));
                    }
                }
            }
            assert forall|c: char| #[trigger] seen@.contains_key(code(c)) implies seen@[code(c)] < b + 1
                && first_holder(idx, c, seen@[code(c)] as int) by {
                if seen@[code(c)] == b {
                    assert(cur.contains(c));
                    let i = choose|i: int| 0 <= i < cur.len() && cur[i] == c;
                    assert forall|y: int| 0 <= y < b implies !(#[trigger] idx[y]).contains(c) by {
                        assert(!idx[y].contains(cur[i]));
                    }
                }
            }
            assert forall|c: char, x: int| 0 <= x < b + 1 && (#[trigger] idx[x]).contains(c) implies #[trigger] seen@.contains_key(code(c)) by {
                if x == b {
                    let i = choose|i: int| 0 <= i < cur.len() && cur[i] == c;
                    assert(seen@.contains_key(code(cur[i])));
                }
            }
        }
        out.push(chars);
    }
    proof {
        let v = out@.map_values(|b: Vec<char>| b@);
        assert forall|b: int| 0 <= b < idx.len() implies #[trigger] v[b] == dedup(idx[b]) by {
            assert(out@[b]@ == dedup(idx[b]));
        }
    }
    Ok(out)
}

/// Indexing keeps each block's characters once and in order of first occurrence, and
/// succeeds exactly when no two blocks share a character: so the resulting blocks repeat
/// no character, inside one block or across blocks.
pub proof fn law_blocks_unique_and_disjoint(indices: Seq<Seq<char>>, r: Result<Seq<Seq<char>>, DuplicateIndexChar>)
    requires
        index_blocks_result(indices, r),
    ensures
        r is Ok <==> forall|a: int, b: int| 0 <= a < b < indices.len() ==> disjoint(indices[a], indices[b]),
        r matches Ok(blocks) ==> forall|b: int, i: int, j: int|
            0 <= b < blocks.len() && 0 <= i < j < blocks[b].len() ==> blocks[b][i] != blocks[b][j],
        r matches Ok(blocks) ==> forall|b: int, c: char|
            0 <= b < blocks.len() ==> (blocks[b].contains(c) <==> indices[b].contains(c)),
        r matches Ok(blocks) ==> forall|a: int, b: int|
            0 <= a < b < blocks.len() ==> disjoint(#[trigger] blocks[a], #[trigger] blocks[b]),
{
    match r {
        Ok(blocks) => {
            assert forall|a: int, b: int| 0 <= a < b < indices.len() implies disjoint(indices[a], indices[b]) by {
                assert(!clashes(indices, b));
                assert(!(0 <= a < b && !disjoint(indices[a], indices[b])));
            }
            assert forall|b: int| 0 <= b < blocks.len() implies #[trigger] blocks[b] == dedup(indices[b]) by {}
            assert forall|b: int, i: int, j: int|
                0 <= b < blocks.len() && 0 <= i < j < blocks[b].len() implies blocks[b][i] != blocks[b][j] by {
                lemma_dedup(indices[b]);
            }
            assert forall|b: int, c: char| 0 <= b < blocks.len() implies (blocks[b].contains(c) <==> indices[b].contains(c)) by {
                lemma_dedup(indices[b]);
            }
            assert forall|a: int, b: int| 0 <= a < b < blocks.len() implies disjoint(#[trigger] blocks[a], #[trigger] blocks[b]) by {
                lemma_dedup(indices[a]);
                lemma_dedup(indices[b]);
                assert(!clashes(indices, b));
                assert(!(0 <= a < b && !disjoint(indices[a], indices[b])));
            }
        },
        Err(e) => {
            let b = e.block as int;
            let a = choose|a: int| 0 <= a < b && !disjoint(#[trigger] indices[a], indices[b]);
            assert(!disjoint(indices[a], indices[b]));
        },
    }
}

/// `s` is in strictly increasing character order.
pub open spec fn strictly_increasing(s: Seq<char>) -> bool {
    forall|i: int, j: int| 0 <= i < j < s.len() ==> s[i] < s[j]
}

/// The characters of `chars` in increasing order, each once.
pub fn sorted_unique_chars(chars: Vec<char>) -> (res: Vec<char>)
    ensures
        strictly_increasing(res@),
        forall|c: char| res@.contains(c) <==> chars@.contains(c),
{
    let mut out: Vec<char> = Vec::new();
    for k in 0..chars.len()
        invariant
            strictly_increasing(out@),
            forall|c: char| out@.contains(c) <==> chars@.take(k as int).contains(c),
    {
        let c = chars[k];
        let mut p = out.len();
        while p > 0 && out[p - 1] > c
            invariant
                p <= out@.len(),
                forall|j: int| p <= j < out@.len() ==> out@[j] > c,
            decreases p,
        {
            p = p - 1;
        }
        let ghost before = out@;
        proof {
            assert forall|x: char| chars@.take(k + 1).contains(x) <==> (chars@.take(k as int).contains(x) || x == c) by {
                if chars@.take(k + 1).contains(x) {
                    let i = choose|i: int| 0 <= i < k + 1 && #[trigger] chars@.take(k + 1)[i] == x;
                    if i < k {
                        assert(chars@.take(k as int)[i] == x);
                    }
                }
                if chars@.take(k as int).contains(x) {
                    let i = choose|i: int| 0 <= i < k && #[trigger] chars@.take(k as int)[i] == x;
                    assert(chars@.take(k + 1)[i] == x);
                }
                if x == c {
                    assert(chars@.take(k + 1)[k as int] == x);
                }
            }
        }
        if p > 0 && out[p - 1] == c {
            proof {
                assert(before[p - 1] == c);
                assert(before.contains(c));
                assert forall|x: char| out@.contains(x) <==> chars@.take(k + 1).contains(x) by {
                    assert(out@.contains(x) <==> chars@.take(k as int).contains(x));
                }
            }
        } else {
            out.insert(p, c);
            proof {
                assert(p > 0 ==> before[p - 1] < c);
                assert forall|i: int, j: int| 0 <= i < j < out@.len() implies out@[i] < out@[j] by {
                    if j < p {
                        assert(out@[i] == before[i] && out@[j] == before[j]);
                    } else if j == p {
                        assert(out@[i] == before[i]);
                        assert(before[i] <= before[p - 1]);
                    } else if i < p {
                        assert(out@[i] == before[i] && out@[j] == before[j - 1]);
                    } else if i == p {
                        assert(out@[j] == before[j - 1]);
                    } else {
                        assert(out@[i] == before[i - 1] && out@[j] == before[j - 1]);
                    }
                }
                assert forall|x: char| out@.contains(x) <==> (before.contains(x) || x == c) by {
                    if out@.contains(x) {
                        let i = choose|i: int| 0 <= i < out@.len() && out@[i] == x;
                        if i < p {
                            assert(before[i] == x);
                        } else if i > p {
                            assert(before[i - 1] == x);
                        }
                    }
                    if before.contains(x) {
                        let i = choose|i: int| 0 <= i < before.len() && before[i] == x;
                        if i < p {
                            assert(out@[i] == x);
                        } else {
                            assert(out@[i + 1] == x);
                        }
                    }
                    if x == c {
                        assert(out@[p as int] == x);
                    }
                }
                assert forall|x: char| out@.contains(x) <==> chars@.take(k + 1).contains(x) by {
                    assert(before.contains(x) <==> chars@.take(k as int).contains(x));
                }
            }
        }
    }
    proof {
        assert(chars@.take(chars@.len() as int) =~= chars@);
    }
    out
}

/// One entry of the glyph table of a generated font expression.
pub open spec fn glyph_struct(g: BitmapGlyph, offset: u32) -> Seq<char> {
    "    embedded_bitmap_font::Glyph {\n"@
        + "        bitmap_offset: "@ + digits(offset as nat, 10) + ",\n"@
        + "        width: "@ + digits(g.width as nat, 10) + ",\n"@
        + "        height: "@ + digits(g.height as nat, 10) + ",\n"@
        + "        x_offset: "@ + signed_decimal(g.x_offset as int) + ",\n"@
        + "        y_offset: "@ + signed_decimal(g.y_offset as int) + ",\n"@
        + "        x_advance: "@ + signed_decimal(g.x_advance as int) + ",\n"@
        + "    },\n"@
}

fn push_glyph_struct(s: &mut String, g: &BitmapGlyph, offset: u32)
    ensures
        final(s)@ == old(s)@ + glyph_struct(*g, offset),
{
    let ghost start = s@;
    push_str(s, "    embedded_bitmap_font::Glyph {\n");
    push_str(s, "        bitmap_offset: ");
    push_decimal(s, offset as u64);
    push_str(s, ",\n");
    push_str(s, "        width: ");
    push_decimal(s, g.width as u64);
    push_str(s, ",\n");
    push_str(s, "        height: ");
    push_decimal(s, g.height as u64);
    push_str(s, ",\n");
    push_str(s, "        x_offset: ");
    push_signed(s, g.x_offset);
    push_str(s, ",\n");
    push_str(s, "        y_offset: ");
    push_signed(s, g.y_offset);
    push_str(s, ",\n");
    push_str(s, "        x_advance: ");
    push_signed(s, g.x_advance);
    push_str(s, ",\n");
    push_str(s, "    },\n");
    assert(s@ =~= start + glyph_struct(*g, offset));
}

/// Each entry of the glyph table of a font expression sets every field of `Glyph` to the
/// glyph's own value: the offset of its pixels, its width and height, its x and y offsets
/// and its advance, each on a line of its own under the field's name.
pub proof fn law_glyph_struct_fields(g: BitmapGlyph, offset: u32)
    ensures
        holds_text(glyph_struct(g, offset), "        bitmap_offset: "@ + digits(offset as nat, 10) + ",\n"@),
        holds_text(glyph_struct(g, offset), "        width: "@ + digits(g.width as nat, 10) + ",\n"@),
        holds_text(glyph_struct(g, offset), "        height: "@ + digits(g.height as nat, 10) + ",\n"@),
        holds_text(glyph_struct(g, offset), "        x_offset: "@ + signed_decimal(g.x_offset as int) + ",\n"@),
        holds_text(glyph_struct(g, offset), "        y_offset: "@ + signed_decimal(g.y_offset as int) + ",\n"@),
        holds_text(glyph_struct(g, offset), "        x_advance: "@ + signed_decimal(g.x_advance as int) + ",\n"@),
{
    lemma_holds_append_any();
    lemma_holds_tail("    embedded_bitmap_font::Glyph {\n"@, "        bitmap_offset: "@, digits(offset as nat, 10), ",\n"@);
    lemma_holds_tail("    embedded_bitmap_font::Glyph {\n"@ + "        bitmap_offset: "@ + digits(offset as nat, 10) + ",\n"@, "        width: "@, digits(g.width as nat, 10), ",\n"@);
    lemma_holds_tail("    embedded_bitmap_font::Glyph {\n"@ + "        bitmap_offset: "@ + digits(offset as nat, 10) + ",\n"@ + "        width: "@ + digits(g.width as nat, 10) + ",\n"@, "        height: "@, digits(g.height as nat, 10), ",\n"@);
    lemma_holds_tail("    embedded_bitmap_font::Glyph {\n"@ + "        bitmap_offset: "@ + digits(offset as nat, 10) + ",\n"@ + "        width: "@ + digits(g.width as nat, 10) + ",\n"@ + "        height: "@ + digits(g.height as nat, 10) + ",\n"@, "        x_offset: "@, signed_decimal(g.x_offset as int), ",\n"@);
    lemma_holds_tail("    embedded_bitmap_font::Glyph {\n"@ + "        bitmap_offset: "@ + digits(offset as nat, 10) + ",\n"@ + "        width: "@ + digits(g.width as nat, 10) + ",\n"@ + "        height: "@ + digits(g.height as nat, 10) + ",\n"@ + "        x_offset: "@ + signed_decimal(g.x_offset as int) + ",\n"@, "        y_offset: "@, signed_decimal(g.y_offset as int), ",\n"@);
    lemma_holds_tail("    embedded_bitmap_font::Glyph {\n"@ + "        bitmap_offset: "@ + digits(offset as nat, 10) + ",\n"@ + "        width: "@ + digits(g.width as nat, 10) + ",\n"@ + "        height: "@ + digits(g.height as nat, 10) + ",\n"@ + "        x_offset: "@ + signed_decimal(g.x_offset as int) + ",\n"@ + "        y_offset: "@ + signed_decimal(g.y_offset as int) + ",\n"@, "        x_advance: "@, signed_decimal(g.x_advance as int), ",\n"@);
}

/// The glyph table entries of `gs`, each with its glyph's offset in the packed blob.
pub open spec fn glyph_structs(gs: Seq<BitmapGlyph>) -> Seq<char>
    decreases gs.len(),
{
    if gs.len() == 0 {
        Seq::empty()
    } else {
        glyph_structs(gs.drop_last()) + glyph_struct(gs.last(), packed_glyphs(gs.drop_last()).len() as u32)
    }
}

proof fn lemma_structs_hold(gs: Seq<BitmapGlyph>, k: int)
    requires
        0 <= k < gs.len(),
    ensures
        holds_text(glyph_structs(gs), glyph_struct(gs[k], packed_glyphs(gs.take(k)).len() as u32)),
    decreases gs.len(),
{
    let d = gs.drop_last();
    let e = glyph_struct(gs.last(), packed_glyphs(d).len() as u32);
    if k == gs.len() - 1 {
        assert(gs.take(k) =~= d);
        lemma_holds_end(glyph_structs(d), e);
    } else {
        lemma_structs_hold(d, k);
        assert(d.take(k) =~= gs.take(k));
        lemma_holds_append_any();
    }
}

/// A font expression lists every glyph in codepoint order, each with the offset at which
/// its packed pixels start: the `k`-th glyph in that order has its entry in the glyph
/// table (whose fields `law_glyph_struct_fields` gives).
pub proof fn law_expression_lists_each_glyph(size: u16, glyphs: Seq<BitmapGlyph>, k: int)
    requires
        0 <= k < sorted_by_codepoint(glyphs).len(),
    ensures
        holds_text(
            font_expression(size, glyphs),
            glyph_struct(sorted_by_codepoint(glyphs)[k], packed_glyphs(sorted_by_codepoint(glyphs).take(k)).len() as u32),
        ),
{
    let gs = sorted_by_codepoint(glyphs);
    lemma_structs_hold(gs, k);
    lemma_holds_prepend(
        "const GLYPHS: [embedded_bitmap_font::Glyph; "@ + digits(gs.len(), 10) + "] = [\n"@,
        glyph_structs(gs),
        glyph_struct(gs[k], packed_glyphs(gs.take(k)).len() as u32),
    );
    lemma_holds_append_any();
}

/// The codepoints of `gs`, in order.
pub open spec fn codepoints(gs: Seq<BitmapGlyph>) -> Seq<char> {
    gs.map_values(|g: BitmapGlyph| g.codepoint)
}

/// The Rust source of a font expression for `glyphs` at design size `size`: the glyphs
/// sorted by codepoint (equal codepoints keeping their order), their glyph table, their
/// packed bitmap, and a `FontData` whose index lists their codepoints in that order.
pub open spec fn font_expression(size: u16, glyphs: Seq<BitmapGlyph>) -> Seq<char> {
    let gs = sorted_by_codepoint(glyphs);
    "const GLYPHS: [embedded_bitmap_font::Glyph; "@ + digits(gs.len(), 10) + "] = [\n"@ + glyph_structs(gs)
        + "];\n\n"@ + bitmap_array(packed_glyphs(gs)) + "embedded_bitmap_font::FontData {\n    index: "@
        + string_literal(codepoints(gs)) + ",\n    char_size: "@ + digits(size as nat, 10)
        + ",\n    bitmap: &BITMAP,\n    glyphs: &GLYPHS,\n}\n"@
}

/// The Rust source of a font expression (see `font_expression`).
pub fn write_font_expression_source(size: u16, glyphs: Vec<BitmapGlyph>) -> (res: Result<String, std::fmt::Error>)
    ensures
        res matches Ok(s) && s@ == font_expression(size, glyphs@),
{
    let order = codepoint_order(&glyphs);
    let (bitmap, offsets) = pack_glyphs(&glyphs, &order);
    let ghost gs = in_order(glyphs@, order@);
    let mut source = String::new();
    push_str(&mut source, "const GLYPHS: [embedded_bitmap_font::Glyph; ");
    push_decimal(&mut source, order.len() as u64);
    push_str(&mut source, "] = [\n");
    let ghost head = source@;
    let mut index = String::new();
    proof {
        assert(gs.take(0) =~= Seq::<BitmapGlyph>::empty());
        assert(codepoints(gs.take(0)) =~= Seq::<char>::empty());
    }
    for k in 0..order.len()
        invariant
            gs == in_order(glyphs@, order@),
            forall|j: int| 0 <= j < order@.len() ==> #[trigger] order@[j] < glyphs@.len(),
            offsets@.len() == order@.len(),
            forall|j: int| 0 <= j < order@.len() ==> #[trigger] offsets@[j] == packed_glyphs(gs.take(j)).len() as u32,
            source@ == head + glyph_structs(gs.take(k as int)),
            index@ == codepoints(gs.take(k as int)),
    {
        let g = &glyphs[order[k]];
        proof {
            assert(gs.take(k + 1).drop_last() =~= gs.take(k as int));
            assert(gs.take(k + 1).last() == *g);
            assert(codepoints(gs.take(k + 1)) =~= codepoints(gs.take(k as int)).push(g.codepoint));
        }
        push_glyph_struct(&mut source, g, offsets[k]);
        push_char(&mut index, g.codepoint);
    }
    proof {
        assert(gs.take(order@.len() as int) =~= gs);
        assert(in_order(glyphs@, order@) == sorted_by_codepoint(glyphs@));
    }
    push_str(&mut source, "];\n\n");
    crate::codegen::push_bitmap_array(&mut source, &bitmap);
    push_str(&mut source, "embedded_bitmap_font::FontData {\n    index: ");
    push_string_literal(&mut source, index.as_str());
    push_str(&mut source, ",\n    char_size: ");
    push_decimal(&mut source, size as u64);
    push_str(&mut source, ",\n    bitmap: &BITMAP,\n    glyphs: &GLYPHS,\n}\n");
    assert(source@ =~= font_expression(size, glyphs@));
    Ok(source)
}

/// Whether raising every glyph by `y_offset` rows keeps each y offset within `i16`.
pub open spec fn raise_fits(glyphs: Seq<BitmapGlyph>, y_offset: i16) -> bool {
    forall|i: int| 0 <= i < glyphs.len() ==> i16::MIN <= #[trigger] glyphs[i].y_offset + y_offset <= i16::MAX
}

/// Raises every glyph by `y_offset` rows (a negative offset lowers them).
pub fn raise_glyphs(glyphs: &mut Vec<BitmapGlyph>, y_offset: i16)
    requires
        raise_fits(old(glyphs)@, y_offset),
    ensures
        final(glyphs)@.len() == old(glyphs)@.len(),
        forall|i: int| 0 <= i < old(glyphs)@.len() ==> #[trigger] final(glyphs)@[i] == (BitmapGlyph {
            y_offset: (old(glyphs)@[i].y_offset + y_offset) as i16,
            ..old(glyphs)@[i]
        }),
{
    let n = glyphs.len();
    let mut i: usize = 0;
    while i < n
        invariant
            n == old(glyphs)@.len(),
            glyphs@.len() == n,
            i <= n,
            raise_fits(old(glyphs)@, y_offset),
            forall|j: int| 0 <= j < i ==> #[trigger] glyphs@[j] == (BitmapGlyph {
                y_offset: (old(glyphs)@[j].y_offset + y_offset) as i16,
                ..old(glyphs)@[j]
            }),
            forall|j: int| i <= j < n ==> #[trigger] glyphs@[j] == old(glyphs)@[j],
        decreases n - i,
    {
        assert(i16::MIN <= old(glyphs)@[i as int].y_offset + y_offset <= i16::MAX);
        let y = glyphs[i].y_offset + y_offset;
        glyphs[i].y_offset = y;
        i = i + 1;
    }
}

} // verus!
