use vstd::prelude::*;

verus! {

/// The big-endian 16-bit number at byte `i` of `b`.
pub open spec fn u16_at(b: Seq<u8>, i: int) -> int {
    b[i] as int * 256 + b[i + 1] as int
}

/// The big-endian 32-bit number at byte `i` of `b`.
pub open spec fn u32_at(b: Seq<u8>, i: int) -> int {
    u16_at(b, i) * 65536 + u16_at(b, i + 2)
}

pub open spec fn is_high_surrogate(u: int) -> bool {
    0xD800 <= u < 0xDC00
}

pub open spec fn is_low_surrogate(u: int) -> bool {
    0xDC00 <= u < 0xE000
}

/// The `k`-th of the `n` UTF-16 units from byte `start` is in its place: a high surrogate is
/// followed by a low one, and a low surrogate follows a high one.
pub open spec fn unit_in_place(b: Seq<u8>, start: int, n: int, k: int) -> bool {
    let u = u16_at(b, start + 2 * k);
    &&& is_high_surrogate(u) ==> k + 1 < n && is_low_surrogate(u16_at(b, start + 2 * k + 2))
    &&& is_low_surrogate(u) ==> k > 0 && is_high_surrogate(u16_at(b, start + 2 * k - 2))
}

/// The `len` bytes from `start` are well-formed big-endian UTF-16: whole units, surrogates
/// paired.
pub open spec fn utf16_valid(b: Seq<u8>, start: int, len: int) -> bool {
    &&& len % 2 == 0
    &&& forall|k: int| 0 <= k < len / 2 ==> #[trigger] unit_in_place(b, start, len / 2, k)
}

/// Whether a name record's platform and encoding make its text UTF-16: the Unicode
/// platform, or the Windows platform with the symbol or BMP encoding.
pub open spec fn unicode_encoding(platform: int, encoding: int) -> bool {
    platform == 0 || (platform == 3 && (encoding == 0 || encoding == 1))
}

/// Where the name records of the naming table at `t` start: after the header, and for
/// version 1 after the language tags.
pub open spec fn records_start(b: Seq<u8>, t: int) -> int {
    if u16_at(b, t) == 1 {
        8 + 4 * u16_at(b, t + 6)
    } else {
        6
    }
}

/// Where the strings of the naming table at `t` start: at its storage offset, but not
/// before the end of the name records.
pub open spec fn storage_start(b: Seq<u8>, t: int) -> int {
    let after = records_start(b, t) + 12 * u16_at(b, t + 2);
    let so = u16_at(b, t + 4);
    if so > after {
        so
    } else {
        after
    }
}

/// The naming table of `tlen` bytes at `t` is read: version 0, or version 1 with its
/// language tags counted within 16 bits, and room for its records and strings.
pub open spec fn name_table_read(b: Seq<u8>, t: int, tlen: int) -> bool {
    let version = u16_at(b, t);
    &&& tlen >= 6
    &&& version == 0 || (version == 1 && tlen >= 8 && 4 * u16_at(b, t + 6) <= 0xFFFF)
    &&& records_start(b, t) + 12 * u16_at(b, t + 2) <= tlen
    &&& storage_start(b, t) <= tlen
}

/// The byte where name record `j` of the naming table at `t` starts.
pub open spec fn record_at(b: Seq<u8>, t: int, j: int) -> int {
    t + records_start(b, t) + 12 * j
}

/// Name record `j` can be read: a known platform, and text that lies inside the strings.
pub open spec fn record_readable(b: Seq<u8>, t: int, tlen: int, j: int) -> bool {
    let p = record_at(b, t, j);
    &&& u16_at(b, p) <= 4
    &&& storage_start(b, t) + u16_at(b, p + 10) + u16_at(b, p + 8) <= tlen
}

/// Name record `j` is a readable full name in UTF-16.
pub open spec fn full_name(b: Seq<u8>, t: int, tlen: int, j: int) -> bool {
    let p = record_at(b, t, j);
    &&& record_readable(b, t, tlen, j)
    &&& u16_at(b, p + 6) == 4
    &&& unicode_encoding(u16_at(b, p), u16_at(b, p + 2))
}

/// Name record `j` is the full name that reading the records in order reaches first:
/// every earlier record can be read and is no full name in UTF-16.
pub open spec fn first_full_name(b: Seq<u8>, t: int, tlen: int, j: int) -> bool {
    &&& full_name(b, t, tlen, j)
    &&& forall|i: int| 0 <= i < j ==> #[trigger] record_readable(b, t, tlen, i) && !full_name(b, t, tlen, i)
}

/// The naming table of `tlen` bytes at `t`, where it is read, has its first full name in
/// UTF-16 well-formed.
pub open spec fn name_table_ok(b: Seq<u8>, t: int, tlen: int) -> bool {
    name_table_read(b, t, tlen) ==> forall|j: int|
        0 <= j < u16_at(b, t + 2) && #[trigger] first_full_name(b, t, tlen, j) ==> {
            let p = record_at(b, t, j);
            utf16_valid(b, t + storage_start(b, t) + u16_at(b, p + 10), u16_at(b, p + 8))
        }
}

/// A font's magic number: TrueType or OpenType.
pub open spec fn face_magic(m: int) -> bool {
    m == 0x00010000 || m == 0x74727565 || m == 0x4F54544F
}

/// Where the face whose tables are read begins, where its header can be found: the start
/// of the file, or for a font collection the first face's offset.
pub open spec fn face_start(b: Seq<u8>) -> Option<int> {
    if b.len() < 4 {
        None
    } else if u32_at(b, 0) == 0x74746366 {
        if b.len() < 12 {
            None
        } else {
            let after = 12 + 4 * u32_at(b, 8);
            if u32_at(b, 8) == 0 || after > b.len() {
                None
            } else {
                let f = u32_at(b, 12);
                if f < after || f + 4 > b.len() || !face_magic(u32_at(b, f)) {
                    None
                } else {
                    Some(f)
                }
            }
        }
    } else if face_magic(u32_at(b, 0)) {
        Some(0)
    } else {
        None
    }
}

/// The face at `f` has its table directory in the file.
pub open spec fn directory_read(b: Seq<u8>, f: int) -> bool {
    f + 12 + 16 * u16_at(b, f + 4) <= b.len()
}

/// Table record `k` of the directory at `f` is tagged `name`.
pub open spec fn names_record(b: Seq<u8>, f: int, k: int) -> bool {
    let r = f + 12 + 16 * k;
    b[r] == 0x6e && b[r + 1] == 0x61 && b[r + 2] == 0x6d && b[r + 3] == 0x65
}

/// Table record `k` is the last one tagged `name`, the one whose table is read.
pub open spec fn last_names_record(b: Seq<u8>, f: int, k: int) -> bool {
    &&& 0 <= k < u16_at(b, f + 4)
    &&& names_record(b, f, k)
    &&& forall|i: int| k < i < u16_at(b, f + 4) ==> !#[trigger] names_record(b, f, i)
}

/// The full name that `fontdue` decodes from the font file `b` is well-formed UTF-16:
/// the first full name in UTF-16 that reading the records in order reaches, in the
/// naming table of the last table record tagged `name`, where the file's face and its
/// directory and that table can be read.
pub open spec fn font_names_decode(b: Seq<u8>) -> bool {
    match face_start(b) {
        None => true,
        Some(f) => directory_read(b, f) ==> forall|k: int| #[trigger] last_names_record(b, f, k) ==> {
            let r = f + 12 + 16 * k;
            u32_at(b, r + 8) + u32_at(b, r + 12) <= b.len() ==> name_table_ok(b, u32_at(b, r + 8), u32_at(b, r + 12))
        },
    }
}

fn read_u16(b: &Vec<u8>, i: u64) -> (r: u64)
    requires
        i + 1 < b@.len(),
    ensures
        r == u16_at(b@, i as int),
        r < 0x10000,
{
    let n: usize = b.len();
    let j: usize = i as usize;
    b[j] as u64 * 256 + b[j + 1] as u64
}

fn read_u8(b: &Vec<u8>, i: u64) -> (r: u8)
    requires
        i < b@.len(),
    ensures
        r == b@[i as int],
{
    let n: usize = b.len();
    b[i as usize]
}

fn read_u32(b: &Vec<u8>, i: u64) -> (r: u64)
    requires
        i + 3 < b@.len(),
        b@.len() <= u64::MAX,
    ensures
        r == u32_at(b@, i as int),
        r < 0x1_0000_0000,
{
    read_u16(b, i) * 65536 + read_u16(b, i + 2)
}

/// Whether the `len` bytes from `start` are well-formed UTF-16 (see `utf16_valid`).
fn check_utf16(b: &Vec<u8>, start: u64, len: u64) -> (r: bool)
    requires
        start + len <= b@.len(),
        b@.len() <= u64::MAX,
    ensures
        r == utf16_valid(b@, start as int, len as int),
{
    if len % 2 != 0 {
        return false;
    }
    let n = len / 2;
    let mut k: u64 = 0;
    while k < n
        invariant
            start + len <= b@.len(),
            b@.len() <= u64::MAX,
            len % 2 == 0,
            n == len / 2,
            k <= n,
            forall|j: int| 0 <= j < k ==> #[trigger] unit_in_place(b@, start as int, n as int, j),
        decreases n - k,
    {
        let u = read_u16(b, start + 2 * k);
        if 0xD800 <= u && u < 0xDC00 {
            if k + 1 >= n {
                assert(!unit_in_place(b@, start as int, n as int, k as int));
                return false;
            }
            let next = read_u16(b, start + 2 * k + 2);
            if !(0xDC00 <= next && next < 0xE000) {
                assert(!unit_in_place(b@, start as int, n as int, k as int));
                return false;
            }
        }
        if 0xDC00 <= u && u < 0xE000 {
            if k == 0 {
                assert(!unit_in_place(b@, start as int, n as int, k as int));
                return false;
            }
            let prev = read_u16(b, start + 2 * k - 2);
            if !(0xD800 <= prev && prev < 0xDC00) {
                assert(!unit_in_place(b@, start as int, n as int, k as int));
                return false;
            }
        }
        assert(unit_in_place(b@, start as int, n as int, k as int));
        k = k + 1;
    }
    true
}

/// Whether the naming table of `tlen` bytes at `t` is fine (see `name_table_ok`).
fn check_name_table(b: &Vec<u8>, t: u64, tlen: u64) -> (r: bool)
    requires
        t + tlen <= b@.len(),
        t + tlen < 0x1_0000_0000_0000,
        b@.len() <= u64::MAX,
    ensures
        r == name_table_ok(b@, t as int, tlen as int),
{
    if tlen < 6 {
        return true;
    }
    let version = read_u16(b, t);
    let count = read_u16(b, t + 2);
    let so = read_u16(b, t + 4);
    if !(version == 0 || (version == 1 && tlen >= 8 && 4 * read_u16(b, t + 6) <= 0xFFFF)) {
        return true;
    }
    let rs: u64 = if version == 1 { 8 + 4 * read_u16(b, t + 6) } else { 6 };
    assert(rs == records_start(b@, t as int));
    let after = rs + 12 * count;
    let ss: u64 = if so > after { so } else { after };
    assert(ss == storage_start(b@, t as int));
    if after > tlen || ss > tlen {
        return true;
    }
    assert(name_table_read(b@, t as int, tlen as int));
    let mut j: u64 = 0;
    while j < count
        invariant
            t + tlen <= b@.len(),
            t + tlen < 0x1_0000_0000_0000,
            b@.len() <= u64::MAX,
            name_table_read(b@, t as int, tlen as int),
            count == u16_at(b@, t as int + 2),
            rs == records_start(b@, t as int),
            ss == storage_start(b@, t as int),
            rs + 12 * count <= tlen,
            ss <= tlen,
            j <= count,
            forall|i: int| 0 <= i < j ==> #[trigger] record_readable(b@, t as int, tlen as int, i)
                && !full_name(b@, t as int, tlen as int, i),
        decreases count - j,
    {
        let p = t + rs + 12 * j;
        assert(p == record_at(b@, t as int, j as int));
        let platform = read_u16(b, p);
        let encoding = read_u16(b, p + 2);
        let name_id = read_u16(b, p + 6);
        let length = read_u16(b, p + 8);
        let offset = read_u16(b, p + 10);
        if platform > 4 || ss + offset + length > tlen {
            proof {
                assert(!record_readable(b@, t as int, tlen as int, j as int));
                assert forall|jj: int| 0 <= jj < count && #[trigger] first_full_name(b@, t as int, tlen as int, jj)
                    implies false by {
                    if jj > j {
                        assert(record_readable(b@, t as int, tlen as int, j as int));
                    }
                }
            }
            return true;
        }
        if name_id == 4 && (platform == 0 || (platform == 3 && (encoding == 0 || encoding == 1))) {
            assert(first_full_name(b@, t as int, tlen as int, j as int));
            let ok = check_utf16(b, t + ss + offset, length);
            proof {
                assert forall|jj: int| 0 <= jj < count && #[trigger] first_full_name(b@, t as int, tlen as int, jj)
                    implies jj == j by {
                    if jj > j {
                        assert(!full_name(b@, t as int, tlen as int, j as int));
                    }
                }
            }
            return ok;
        }
        assert(record_readable(b@, t as int, tlen as int, j as int) && !full_name(b@, t as int, tlen as int, j as int));
        j = j + 1;
    }
    proof {
        assert forall|jj: int| 0 <= jj < count && #[trigger] first_full_name(b@, t as int, tlen as int, jj) implies false by {
            assert(!full_name(b@, t as int, tlen as int, jj));
        }
    }
    true
}

/// Whether the full name that `fontdue` decodes from the font file is well-formed (see
/// `font_names_decode`).
pub fn check_font_names(b: &Vec<u8>) -> (r: bool)
    ensures
        r == font_names_decode(b@),
{
    let n: usize = b.len();
    assert(n as int <= u64::MAX);
    let len = n as u64;
    if len < 4 {
        return true;
    }
    let magic = read_u32(b, 0);
    let f: u64 = if magic == 0x74746366 {
        if len < 12 {
            return true;
        }
        let faces = read_u32(b, 8);
        let after = 12 + 4 * faces;
        if faces == 0 || after > len {
            return true;
        }
        let f = read_u32(b, 12);
        if f < after || f + 4 > len {
            return true;
        }
        let m = read_u32(b, f);
        if !(m == 0x00010000 || m == 0x74727565 || m == 0x4F54544F) {
            return true;
        }
        f
    } else if magic == 0x00010000 || magic == 0x74727565 || magic == 0x4F54544F {
        0
    } else {
        return true;
    };
    assert(face_start(b@) == Some(f as int));
    if f + 6 > len {
        return true;
    }
    let nt = read_u16(b, f + 4);
    if f + 12 + 16 * nt > len {
        return true;
    }
    assert(directory_read(b@, f as int));
    let mut last: Option<u64> = None;
    let mut k: u64 = 0;
    while k < nt
        invariant
            len == b@.len(),
            b@.len() <= u64::MAX,
            f < 0x1_0000_0000,
            nt == u16_at(b@, f as int + 4),
            f + 12 + 16 * nt <= len,
            k <= nt,
            match last {
                Some(x) => x < k && names_record(b@, f as int, x as int)
                    && forall|i: int| x < i < k ==> !#[trigger] names_record(b@, f as int, i),
                None => forall|i: int| 0 <= i < k ==> !#[trigger] names_record(b@, f as int, i),
            },
        decreases nt - k,
    {
        let r = f + 12 + 16 * k;
        if read_u8(b, r) == 0x6e && read_u8(b, r + 1) == 0x61 && read_u8(b, r + 2) == 0x6d
            && read_u8(b, r + 3) == 0x65 {
            last = Some(k);
        } else {
            assert(!names_record(b@, f as int, k as int));
        }
        k = k + 1;
    }
    match last {
        None => {
            assert forall|kk: int| #[trigger] last_names_record(b@, f as int, kk) implies false by {}
            true
        },
        Some(x) => {
            assert(last_names_record(b@, f as int, x as int));
            assert forall|kk: int| #[trigger] last_names_record(b@, f as int, kk) implies kk == x by {
                if kk < x {
                    assert(names_record(b@, f as int, x as int));
                }
            }
            let r = f + 12 + 16 * x;
            let offset = read_u32(b, r + 8);
            let length = read_u32(b, r + 12);
            if offset + length > len {
                true
            } else {
                check_name_table(b, offset, length)
            }
        },
    }
}

} // verus!
