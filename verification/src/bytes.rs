//! Bounds-checked little-endian readers over a raw byte view, and the
//! padding rule for fixed-width text fields.
//!
//! The shared-memory image is a plain byte buffer; every access into it goes
//! through these functions, each of which demands in its `requires` that the
//! read stays inside the buffer.

use vstd::prelude::*;

verus! {

/// The `u32` stored little-endian at `off`.
pub open spec fn le_u32_at(b: Seq<u8>, off: int) -> u32
    recommends
        0 <= off,
        off + 4 <= b.len(),
{
    (b[off] + b[off + 1] * 0x100 + b[off + 2] * 0x1_0000 + b[off + 3] * 0x100_0000) as u32
}

/// The `u64` stored little-endian at `off`.
pub open spec fn le_u64_at(b: Seq<u8>, off: int) -> u64
    recommends
        0 <= off,
        off + 8 <= b.len(),
{
    (b[off] + b[off + 1] * 0x100 + b[off + 2] * 0x1_0000 + b[off + 3] * 0x100_0000 + b[off + 4]
        * 0x1_0000_0000 + b[off + 5] * 0x100_0000_0000 + b[off + 6] * 0x1_0000_0000_0000 + b[off
        + 7] * 0x100_0000_0000_0000) as u64
}

/// The `i64` stored little-endian at `off`: the `u64` bit pattern read as
/// a two's-complement signed value.
pub open spec fn le_i64_at(b: Seq<u8>, off: int) -> i64
    recommends
        0 <= off,
        off + 8 <= b.len(),
{
    le_u64_at(b, off) as i64
}

/// Reads the little-endian `u32` at `off`.
pub fn read_u32_le(b: &[u8], off: usize) -> (r: u32)
    requires
        off + 4 <= b@.len(),
    ensures
        r == le_u32_at(b@, off as int),
{
    (b[off] as u32) + (b[off + 1] as u32) * 0x100 + (b[off + 2] as u32) * 0x1_0000 + (b[off
        + 3] as u32) * 0x100_0000
}

/// Reads the little-endian `u64` at `off`.
pub fn read_u64_le(b: &[u8], off: usize) -> (r: u64)
    requires
        off + 8 <= b@.len(),
    ensures
        r == le_u64_at(b@, off as int),
{
    (b[off] as u64) + (b[off + 1] as u64) * 0x100 + (b[off + 2] as u64) * 0x1_0000 + (b[off
        + 3] as u64) * 0x100_0000 + (b[off + 4] as u64) * 0x1_0000_0000 + (b[off + 5] as u64)
        * 0x100_0000_0000 + (b[off + 6] as u64) * 0x1_0000_0000_0000 + (b[off + 7] as u64)
        * 0x100_0000_0000_0000
}

/// Reads the little-endian `i64` at `off`.
pub fn read_i64_le(b: &[u8], off: usize) -> (r: i64)
    requires
        off + 8 <= b@.len(),
    ensures
        r == le_i64_at(b@, off as int),
{
    let v = read_u64_le(b, off);
    #[verifier::truncate] (v as i64)
}

/// `s` with every trailing NUL padding byte removed.
pub open spec fn trim_trailing_nuls(s: Seq<u8>) -> Seq<u8>
    decreases s.len(),
{
    if s.len() > 0 && s[s.len() - 1] == 0 {
        trim_trailing_nuls(s.drop_last())
    } else {
        s
    }
}

/// A prefix that ends at the last non-NUL byte is exactly the trimmed sequence.
proof fn lemma_trim_is_prefix(s: Seq<u8>, k: int)
    requires
        0 <= k <= s.len(),
        forall|i: int| k <= i < s.len() ==> s[i] == 0,
        k == 0 || s[k - 1] != 0,
    ensures
        trim_trailing_nuls(s) == s.subrange(0, k),
    decreases s.len(),
{
    if s.len() > 0 && s[s.len() - 1] == 0 {
        assert(k < s.len());
        lemma_trim_is_prefix(s.drop_last(), k);
        assert(s.drop_last().subrange(0, k) =~= s.subrange(0, k));
    } else {
        assert(k == s.len());
        assert(s.subrange(0, k) =~= s);
    }
}

/// The trimmed sequence ends in a non-NUL byte (or is empty) and is a prefix
/// of the original.
pub proof fn lemma_trim_trailing_nuls_shape(s: Seq<u8>)
    ensures
        trim_trailing_nuls(s).len() <= s.len(),
        trim_trailing_nuls(s) == s.subrange(0, trim_trailing_nuls(s).len() as int),
        trim_trailing_nuls(s).len() > 0 ==> trim_trailing_nuls(s).last() != 0,
    decreases s.len(),
{
    if s.len() > 0 && s[s.len() - 1] == 0 {
        lemma_trim_trailing_nuls_shape(s.drop_last());
        let t = trim_trailing_nuls(s);
        assert(s.drop_last().subrange(0, t.len() as int) =~= s.subrange(0, t.len() as int));
    } else {
        assert(s.subrange(0, s.len() as int) =~= s);
    }
}

/// Copies the `len` bytes at `off` and strips their trailing NUL padding.
pub fn read_trimmed_field(b: &[u8], off: usize, len: usize) -> (r: Vec<u8>)
    requires
        off + len <= b@.len(),
    ensures
        r@ == trim_trailing_nuls(b@.subrange(off as int, off + len)),
{
    // The executable length pins the buffer below `usize::MAX`, so the
    // offset arithmetic cannot overflow.
    let _buf_len = b.len();
    let mut end: usize = off + len;
    while end > off && b[end - 1] == 0
        invariant
            off <= end <= off + len,
            off + len <= b@.len(),
            forall|i: int| end <= i < off + len ==> b@[i] == 0,
        decreases end,
    {
        end = end - 1;
    }
    let mut r: Vec<u8> = Vec::new();
    let mut j: usize = off;
    while j < end
        invariant
            off <= j <= end <= off + len,
            off + len <= b@.len(),
            r@ == b@.subrange(off as int, j as int),
        decreases end - j,
    {
        r.push(b[j]);
        assert(r@ =~= b@.subrange(off as int, j + 1));
        j = j + 1;
    }
    proof {
        let s = b@.subrange(off as int, off + len);
        lemma_trim_is_prefix(s, end - off);
        assert(r@ =~= s.subrange(0, end - off));
    }
    r
}

} // verus!
