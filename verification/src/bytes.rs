//! Little-endian integer reads at byte offsets, failing (rather than panicking)
//! when the field does not lie inside the buffer.
use vstd::prelude::*;

verus! {

/// The 16-bit little-endian value stored at offset `o` of `s`, if two bytes are there.
pub open spec fn le_u16(s: Seq<u8>, o: int) -> Option<u16> {
    if 0 <= o && o + 2 <= s.len() {
        Some((s[o] + 0x100 * s[o + 1]) as u16)
    } else {
        None
    }
}

/// The 32-bit little-endian value stored at offset `o` of `s`, if four bytes are there.
pub open spec fn le_u32(s: Seq<u8>, o: int) -> Option<u32> {
    if 0 <= o && o + 4 <= s.len() {
        Some((s[o] + 0x100 * s[o + 1] + 0x1_0000 * s[o + 2] + 0x100_0000 * s[o + 3]) as u32)
    } else {
        None
    }
}

/// The 64-bit little-endian value stored at offset `o` of `s`, if eight bytes are there.
pub open spec fn le_u64(s: Seq<u8>, o: int) -> Option<u64> {
    if 0 <= o && o + 8 <= s.len() {
        Some(
            (s[o] + 0x100 * s[o + 1] + 0x1_0000 * s[o + 2] + 0x100_0000 * s[o + 3]
                + 0x1_0000_0000 * s[o + 4] + 0x100_0000_0000 * s[o + 5]
                + 0x1_0000_0000_0000 * s[o + 6] + 0x100_0000_0000_0000 * s[o + 7]) as u64,
        )
    } else {
        None
    }
}

/// Whether `n` bytes starting at `o` lie inside a buffer of `len` bytes; computed without overflow.
fn fits(len: usize, o: u64, n: u64) -> (r: bool)
    ensures
        r == (o + n <= len),
{
    let l = len as u64;
    o <= l && n <= l - o
}

/// Reads a little-endian `u16` at byte offset `o`.
pub fn rd_u16(b: &[u8], o: u64) -> (r: Option<u16>)
    ensures
        r == le_u16(b@, o as int),
{
    if fits(b.len(), o, 2) {
        let i = o as usize;
        Some(b[i] as u16 + (b[i + 1] as u16) * 0x100)
    } else {
        None
    }
}

/// Reads a little-endian `u32` at byte offset `o`.
pub fn rd_u32(b: &[u8], o: u64) -> (r: Option<u32>)
    ensures
        r == le_u32(b@, o as int),
{
    if fits(b.len(), o, 4) {
        let i = o as usize;
        Some(
            b[i] as u32 + (b[i + 1] as u32) * 0x100 + (b[i + 2] as u32) * 0x1_0000 + (b[i + 3] as u32)
                * 0x100_0000,
        )
    } else {
        None
    }
}

/// Reads a little-endian `u64` at byte offset `o`.
pub fn rd_u64(b: &[u8], o: u64) -> (r: Option<u64>)
    ensures
        r == le_u64(b@, o as int),
{
    if fits(b.len(), o, 8) {
        let i = o as usize;
        Some(
            b[i] as u64 + (b[i + 1] as u64) * 0x100 + (b[i + 2] as u64) * 0x1_0000 + (b[i + 3] as u64)
                * 0x100_0000 + (b[i + 4] as u64) * 0x1_0000_0000 + (b[i + 5] as u64)
                * 0x100_0000_0000 + (b[i + 6] as u64) * 0x1_0000_0000_0000 + (b[i + 7] as u64)
                * 0x100_0000_0000_0000,
        )
    } else {
        None
    }
}

/// The offset `base + index * stride + at`, or `None` when it does not fit in a `u64`
/// (and so lies beyond any buffer).
fn field_offset(base: u64, index: u64, stride: u64, at: u64) -> (r: Option<u64>)
    ensures
        r matches Some(o) ==> o == base + index * stride + at,
        r is None ==> base + index * stride + at > u64::MAX,
{
    match index.checked_mul(stride) {
        None => {
            assert(index * stride >= 0) by (nonlinear_arith);
            None
        },
        Some(p) => match base.checked_add(p) {
            None => None,
            Some(q) => q.checked_add(at),
        },
    }
}

/// Reads the `u16` field at `at` of entry `index` of a table of `stride`-byte entries at `base`.
pub fn field_u16(b: &[u8], base: u64, index: u64, stride: u64, at: u64) -> (r: Option<u16>)
    ensures
        r == le_u16(b@, base + index * stride + at),
{
    match field_offset(base, index, stride, at) {
        Some(o) => rd_u16(b, o),
        None => {
            let n: usize = b.len();
            assert(b@.len() == n);
            None
        },
    }
}

/// Reads the `u32` field at `at` of entry `index` of a table of `stride`-byte entries at `base`.
pub fn field_u32(b: &[u8], base: u64, index: u64, stride: u64, at: u64) -> (r: Option<u32>)
    ensures
        r == le_u32(b@, base + index * stride + at),
{
    match field_offset(base, index, stride, at) {
        Some(o) => rd_u32(b, o),
        None => {
            let n: usize = b.len();
            assert(b@.len() == n);
            None
        },
    }
}

/// Reads the `u64` field at `at` of entry `index` of a table of `stride`-byte entries at `base`.
pub fn field_u64(b: &[u8], base: u64, index: u64, stride: u64, at: u64) -> (r: Option<u64>)
    ensures
        r == le_u64(b@, base + index * stride + at),
{
    match field_offset(base, index, stride, at) {
        Some(o) => rd_u64(b, o),
        None => {
            let n: usize = b.len();
            assert(b@.len() == n);
            None
        },
    }
}

/// The index of the first NUL byte of `s`, or its length when it holds none.
pub open spec fn nul_index(s: Seq<u8>) -> nat
    decreases s.len(),
{
    if s.len() == 0 {
        0
    } else if s[0] == 0 {
        0
    } else {
        1 + nul_index(s.drop_first())
    }
}

/// The bytes of `s` before its first NUL (all of `s` when it holds none).
pub open spec fn cstr_prefix(s: Seq<u8>) -> Seq<u8> {
    s.take(nul_index(s) as int)
}

/// `nul_index` is the first position holding a zero byte, or the length.
pub proof fn lemma_nul_index(s: Seq<u8>, n: int)
    requires
        0 <= n <= s.len(),
        forall|j: int| 0 <= j < n ==> s[j] != 0,
        n == s.len() || s[n] == 0,
    ensures
        nul_index(s) == n,
    decreases s.len(),
{
    if s.len() > 0 && n > 0 {
        assert forall|j: int| 0 <= j < n - 1 implies s.drop_first()[j] != 0 by {
            assert(s.drop_first()[j] == s[j + 1]);
        }
        lemma_nul_index(s.drop_first(), n - 1);
    }
}

/// The position of the first zero byte in `b[start..end]`, relative to `start`
/// (`end - start` when there is none).
pub fn nul_offset(b: &[u8], start: usize, end: usize) -> (n: usize)
    requires
        start <= end <= b@.len(),
    ensures
        n == nul_index(b@.subrange(start as int, end as int)),
        n <= end - start,
{
    let ghost sub = b@.subrange(start as int, end as int);
    let mut i: usize = start;
    while i < end && b[i] != 0
        invariant
            start <= i <= end <= b@.len(),
            sub == b@.subrange(start as int, end as int),
            forall|j: int| 0 <= j < i - start ==> sub[j] != 0,
        decreases end - i,
    {
        i = i + 1;
    }
    proof {
        lemma_nul_index(sub, i - start);
    }
    i - start
}

/// Whether `b[start..start + want.len()]` equals `want`.
pub fn bytes_match_at(b: &[u8], start: usize, want: &[u8]) -> (r: bool)
    requires
        start + want@.len() <= b@.len(),
    ensures
        r == (b@.subrange(start as int, start + want@.len()) == want@),
{
    let blen: usize = b.len();
    let mut i: usize = 0;
    while i < want.len()
        invariant
            i <= want@.len(),
            blen == b@.len(),
            start + want@.len() <= b@.len(),
            forall|j: int| 0 <= j < i ==> b@[start + j] == want@[j],
        decreases want@.len() - i,
    {
        if b[start + i] != want[i] {
            assert(b@.subrange(start as int, start + want@.len())[i as int] != want@[i as int]);
            return false;
        }
        i = i + 1;
    }
    assert(b@.subrange(start as int, start + want@.len()) =~= want@);
    true
}

/// The byte at offset `o` of `s`, if there is one.
pub open spec fn byte_at(s: Seq<u8>, o: int) -> Option<u8> {
    if 0 <= o < s.len() {
        Some(s[o])
    } else {
        None
    }
}

/// Whether `n` bytes starting at the wide offset `o` lie inside a buffer of `len` bytes.
fn fits_wide(len: usize, o: u128, n: u128) -> (r: bool)
    requires
        n <= 8,
    ensures
        r == (o + n <= len),
{
    let l = len as u128;
    o <= l && n <= l - o
}

/// Reads the byte at the wide offset `o`.
pub fn at_u8(b: &[u8], o: u128) -> (r: Option<u8>)
    ensures
        r == byte_at(b@, o as int),
{
    if fits_wide(b.len(), o, 1) {
        Some(b[o as usize])
    } else {
        None
    }
}

/// Reads a little-endian `u16` at the wide offset `o`.
pub fn at_u16(b: &[u8], o: u128) -> (r: Option<u16>)
    ensures
        r == le_u16(b@, o as int),
{
    if fits_wide(b.len(), o, 2) {
        rd_u16(b, o as u64)
    } else {
        None
    }
}

/// Reads a little-endian `u32` at the wide offset `o`.
pub fn at_u32(b: &[u8], o: u128) -> (r: Option<u32>)
    ensures
        r == le_u32(b@, o as int),
{
    if fits_wide(b.len(), o, 4) {
        rd_u32(b, o as u64)
    } else {
        None
    }
}

/// Reads a little-endian `u64` at the wide offset `o`.
pub fn at_u64(b: &[u8], o: u128) -> (r: Option<u64>)
    ensures
        r == le_u64(b@, o as int),
{
    if fits_wide(b.len(), o, 8) {
        rd_u64(b, o as u64)
    } else {
        None
    }
}

} // verus!
