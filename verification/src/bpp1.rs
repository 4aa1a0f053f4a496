use vstd::prelude::*;

verus! {

/// Bit `j` of a byte, counting from the most significant bit (`j == 0`).
pub open spec fn byte_bit(b: u8, j: u8) -> bool {
    ((b >> ((7 - j) as u8)) & 1u8) == 1u8
}

/// Bit `i` of a byte string read most-significant-bit first; bits past the end read as unset.
pub open spec fn bit_at(bytes: Seq<u8>, i: int) -> bool {
    &&& 0 <= i
    &&& i / 8 < bytes.len()
    &&& byte_bit(bytes[i / 8], (i % 8) as u8)
}

/// The number of bytes that 1bpp packing of `n` pixels takes.
pub open spec fn packed_len(n: int) -> int {
    (n + 7) / 8
}

/// Pixel `i`, where pixels past the end are unset.
pub open spec fn pixel(pixels: Seq<bool>, i: int) -> bool {
    0 <= i < pixels.len() && pixels[i]
}

/// The byte with bits `b0` (most significant) to `b7` (least significant).
pub open spec fn byte_from_bits(b0: bool, b1: bool, b2: bool, b3: bool, b4: bool, b5: bool, b6: bool, b7: bool) -> u8 {
    (if b0 { 0x80u8 } else { 0u8 }) | (if b1 { 0x40u8 } else { 0u8 }) | (if b2 { 0x20u8 } else { 0u8 })
        | (if b3 { 0x10u8 } else { 0u8 }) | (if b4 { 0x08u8 } else { 0u8 }) | (if b5 { 0x04u8 } else { 0u8 })
        | (if b6 { 0x02u8 } else { 0u8 }) | (if b7 { 0x01u8 } else { 0u8 })
}

/// Byte `k` of the packing: pixels `8k` to `8k + 7`, most significant bit first.
pub open spec fn packed_byte(pixels: Seq<bool>, k: int) -> u8 {
    byte_from_bits(
        pixel(pixels, 8 * k),
        pixel(pixels, 8 * k + 1),
        pixel(pixels, 8 * k + 2),
        pixel(pixels, 8 * k + 3),
        pixel(pixels, 8 * k + 4),
        pixel(pixels, 8 * k + 5),
        pixel(pixels, 8 * k + 6),
        pixel(pixels, 8 * k + 7),
    )
}

/// The 1bpp packing of `pixels`: eight pixels to a byte, most significant bit first, the
/// last byte padded with unset bits.
pub open spec fn packed(pixels: Seq<bool>) -> Seq<u8> {
    Seq::new(packed_len(pixels.len() as int) as nat, |k: int| packed_byte(pixels, k))
}

/// `bytes` holds, from byte `start` on, the 1bpp packing of `pixels`: every pixel is the bit
/// at its position and the padding bits of the last byte are unset.
pub open spec fn packed_at(bytes: Seq<u8>, start: int, pixels: Seq<bool>) -> bool {
    &&& 0 <= start
    &&& start + packed_len(pixels.len() as int) <= bytes.len()
    &&& forall|i: int|
        0 <= i < 8 * packed_len(pixels.len() as int) ==> #[trigger] bit_at(bytes, start * 8 + i) == (i
            < pixels.len() && pixels[i])
}

proof fn lemma_byte_from_bits(b0: bool, b1: bool, b2: bool, b3: bool, b4: bool, b5: bool, b6: bool, b7: bool, j: u8)
    by (bit_vector)
    requires
        j < 8,
    ensures
        ((byte_from_bits(b0, b1, b2, b3, b4, b5, b6, b7) >> ((7 - j) as u8)) & 1u8 == 1u8) == (
        if j == 0 { b0 } else if j == 1 { b1 } else if j == 2 { b2 } else if j == 3 { b3 }
        else if j == 4 { b4 } else if j == 5 { b5 } else if j == 6 { b6 } else { b7 }),
{
}

proof fn lemma_same_bits(a: u8, b: u8)
    by (bit_vector)
    requires
        ((a >> 7u8) & 1u8 == 1u8) == ((b >> 7u8) & 1u8 == 1u8),
        ((a >> 6u8) & 1u8 == 1u8) == ((b >> 6u8) & 1u8 == 1u8),
        ((a >> 5u8) & 1u8 == 1u8) == ((b >> 5u8) & 1u8 == 1u8),
        ((a >> 4u8) & 1u8 == 1u8) == ((b >> 4u8) & 1u8 == 1u8),
        ((a >> 3u8) & 1u8 == 1u8) == ((b >> 3u8) & 1u8 == 1u8),
        ((a >> 2u8) & 1u8 == 1u8) == ((b >> 2u8) & 1u8 == 1u8),
        ((a >> 1u8) & 1u8 == 1u8) == ((b >> 1u8) & 1u8 == 1u8),
        ((a >> 0u8) & 1u8 == 1u8) == ((b >> 0u8) & 1u8 == 1u8),
    ensures
        a == b,
{
}

/// Bit `j` of packed byte `k` is pixel `8k + j`.
pub proof fn lemma_packed_byte_bit(pixels: Seq<bool>, k: int, j: u8)
    requires
        j < 8,
    ensures
        byte_bit(packed_byte(pixels, k), j) == pixel(pixels, 8 * k + j),
{
    lemma_byte_from_bits(
        pixel(pixels, 8 * k),
        pixel(pixels, 8 * k + 1),
        pixel(pixels, 8 * k + 2),
        pixel(pixels, 8 * k + 3),
        pixel(pixels, 8 * k + 4),
        pixel(pixels, 8 * k + 5),
        pixel(pixels, 8 * k + 6),
        pixel(pixels, 8 * k + 7),
        j,
    );
}

/// A byte whose bits are pixels `8k` to `8k + 7` is packed byte `k`.
proof fn lemma_is_packed_byte(b: u8, pixels: Seq<bool>, k: int)
    requires
        forall|j: u8| j < 8 ==> #[trigger] byte_bit(b, j) == pixel(pixels, 8 * k + j),
    ensures
        b == packed_byte(pixels, k),
{
    let p = packed_byte(pixels, k);
    assert forall|j: u8| j < 8 implies #[trigger] byte_bit(p, j) == byte_bit(b, j) by {
        lemma_packed_byte_bit(pixels, k, j);
    }
    assert(byte_bit(b, 0) == byte_bit(p, 0));
    assert(byte_bit(b, 1) == byte_bit(p, 1));
    assert(byte_bit(b, 2) == byte_bit(p, 2));
    assert(byte_bit(b, 3) == byte_bit(p, 3));
    assert(byte_bit(b, 4) == byte_bit(p, 4));
    assert(byte_bit(b, 5) == byte_bit(p, 5));
    assert(byte_bit(b, 6) == byte_bit(p, 6));
    assert(byte_bit(b, 7) == byte_bit(p, 7));
    lemma_same_bits(b, p);
}

/// The packing holds its pixels bit for bit, wherever it is placed.
pub proof fn lemma_packed_at(prefix: Seq<u8>, pixels: Seq<bool>, suffix: Seq<u8>)
    ensures
        packed_at(prefix + packed(pixels) + suffix, prefix.len() as int, pixels),
{
    let bytes = prefix + packed(pixels) + suffix;
    let start = prefix.len() as int;
    let n = pixels.len() as int;
    assert(packed(pixels).len() == packed_len(n));
    assert(bytes.len() == prefix.len() + packed_len(n) + suffix.len());
    assert forall|i: int| 0 <= i < 8 * packed_len(pixels.len() as int) implies #[trigger] bit_at(bytes, start * 8 + i) == (i
        < pixels.len() && pixels[i]) by {
        let k = i / 8;
        let j = (i % 8) as u8;
        assert((start * 8 + i) / 8 == start + k);
        assert((start * 8 + i) % 8 == i % 8);
        assert(bytes[start + k] == packed_byte(pixels, k));
        lemma_packed_byte_bit(pixels, k, j);
        assert(8 * k + j == i);
    }
}

proof fn lemma_set_bit(b: u8, m: u8, j: u8)
    by (bit_vector)
    requires
        m < 8,
        j < 8,
    ensures
        (((b | (1u8 << ((7 - m) as u8))) >> ((7 - j) as u8)) & 1u8 == 1u8) == ((((b >> ((7 - j) as u8)) & 1u8) == 1u8)
            || j == m),
{
}

proof fn lemma_zero_bits(j: u8)
    by (bit_vector)
    requires
        j < 8,
    ensures
        ((0u8 >> ((7 - j) as u8)) & 1u8) != 1u8,
{
}

/// Reads bit `j` (most significant first) of a byte with a mask.
pub proof fn lemma_mask_bit(b: u8, j: u8)
    by (bit_vector)
    requires
        j < 8,
    ensures
        ((b & (1u8 << ((7 - j) as u8))) != 0u8) == (((b >> ((7 - j) as u8)) & 1u8) == 1u8),
{
}

/// Packs 1bpp pixels eight to a byte, most significant bit first, and appends the bytes
/// to `output`; a last partial byte is padded with unset bits.
pub fn pack_bpp1(pixels: &[bool], output: &mut Vec<u8>)
    ensures
        final(output)@ == old(output)@ + packed(pixels@),
{
    let ghost base = old(output)@;
    let ghost n = pixels@.len() as int;
    let mut byte = 0u8;
    proof {
        assert forall|j: u8| j < 8 implies !byte_bit(byte, j) by {
            lemma_zero_bits(j);
        }
    }
    for index in 0..pixels.len()
        invariant
            n == pixels@.len(),
            base == old(output)@,
            output@ == base + packed(pixels@).take((index / 8) as int),
            forall|j: u8| j < 8 ==> #[trigger] byte_bit(byte, j) == (j < index % 8
                && pixels@[index - index % 8 + j]),
    {
        let m = (index % 8) as u8;
        if pixels[index] {
            proof {
                assert forall|j: u8| j < 8 implies #[trigger] byte_bit(byte | (1u8 << ((7 - m) as u8)), j)
                    == (byte_bit(byte, j) || j == m) by {
                    lemma_set_bit(byte, m, j);
                }
            }
            byte = byte | (1u8 << ((7 - m) as u8));
        }
        assert(forall|j: u8| j < 8 ==> #[trigger] byte_bit(byte, j) == (j <= m
            && pixels@[index - index % 8 + j]));
        if index % 8 == 7 {
            proof {
                lemma_is_packed_byte(byte, pixels@, (index / 8) as int);
                assert(packed(pixels@).take((index / 8) as int).push(byte) =~= packed(pixels@).take((index + 1) / 8));
            }
            output.push(byte);
            byte = 0;
            proof {
                assert forall|j: u8| j < 8 implies !byte_bit(byte, j) by {
                    lemma_zero_bits(j);
                }
            }
        }
    }
    if pixels.len() % 8 != 0 {
        proof {
            lemma_is_packed_byte(byte, pixels@, n / 8);
            assert(packed(pixels@).take(n / 8).push(byte) =~= packed(pixels@));
        }
        output.push(byte);
    } else {
        assert(packed(pixels@).take(n / 8) =~= packed(pixels@));
    }
}

} // verus!
