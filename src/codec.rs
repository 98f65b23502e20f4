//! Four-byte little-endian fields.
use vstd::prelude::*;

verus! {

/// The unsigned integer held little-endian in `b[off..off + 4]`.
pub open spec fn le_u32(b: Seq<u8>, off: int) -> int {
    b[off] + 256 * b[off + 1] + 65536 * b[off + 2] + 16777216 * b[off + 3]
}

/// The four little-endian bytes of `v`.
pub open spec fn u32_bytes(v: u32) -> Seq<u8> {
    seq![
        (v % 256) as u8,
        (v / 256 % 256) as u8,
        (v / 65536 % 256) as u8,
        (v / 16777216) as u8,
    ]
}

/// The field at `off`, where four bytes fit there.
pub open spec fn u32_at(b: Seq<u8>, off: int) -> Option<u32> {
    if 0 <= off && off + 4 <= b.len() {
        Some(le_u32(b, off) as u32)
    } else {
        None
    }
}

/// `b` with the four bytes at `off` replaced by those of `v`.
pub open spec fn patch_u32(b: Seq<u8>, off: int, v: u32) -> Seq<u8> {
    b.subrange(0, off) + u32_bytes(v) + b.subrange(off + 4, b.len() as int)
}

proof fn lemma_le_u32_bound(b: Seq<u8>, off: int)
    requires
        0 <= off && off + 4 <= b.len(),
    ensures
        0 <= le_u32(b, off) < 0x1_0000_0000,
{
    let (a0, a1, a2, a3) = (b[off] as int, b[off + 1] as int, b[off + 2] as int, b[off + 3] as int);
    assert(0 <= a0 + 256 * a1 + 65536 * a2 + 16777216 * a3 < 0x1_0000_0000) by (nonlinear_arith)
        requires
            0 <= a0 < 256,
            0 <= a1 < 256,
            0 <= a2 < 256,
            0 <= a3 < 256,
    ;
}

/// Reading a field back after writing it gives the value written.
pub proof fn lemma_write_read(b: Seq<u8>, off: int, v: u32)
    requires
        0 <= off && off + 4 <= b.len(),
    ensures
        patch_u32(b, off, v).len() == b.len(),
        u32_at(patch_u32(b, off, v), off) == Some(v),
        forall|i: int|
            0 <= i < b.len() && !(off <= i < off + 4) ==> #[trigger] patch_u32(b, off, v)[i] == b[i],
{
    let p = patch_u32(b, off, v);
    assert(p[off] == (v % 256) as u8);
    assert(p[off + 1] == (v / 256 % 256) as u8);
    assert(p[off + 2] == (v / 65536 % 256) as u8);
    assert(p[off + 3] == (v / 16777216) as u8);
    let x = v as int;
    assert(x % 256 + 256 * (x / 256 % 256) + 65536 * (x / 65536 % 256) + 16777216 * (x / 16777216)
        == x) by (nonlinear_arith)
        requires
            0 <= x < 0x1_0000_0000,
    ;
}

/// Writing back the value that a field holds leaves the buffer as it was.
pub proof fn lemma_write_same(b: Seq<u8>, off: int)
    requires
        0 <= off && off + 4 <= b.len(),
    ensures
        patch_u32(b, off, le_u32(b, off) as u32) == b,
{
    lemma_le_u32_bound(b, off);
    let x = le_u32(b, off);
    let (a0, a1, a2, a3) = (b[off] as int, b[off + 1] as int, b[off + 2] as int, b[off + 3] as int);
    assert(x % 256 == a0 && x / 256 % 256 == a1 && x / 65536 % 256 == a2 && x / 16777216 == a3)
        by (nonlinear_arith)
        requires
            x == a0 + 256 * a1 + 65536 * a2 + 16777216 * a3,
            0 <= a0 < 256,
            0 <= a1 < 256,
            0 <= a2 < 256,
            0 <= a3 < 256,
    ;
    assert(patch_u32(b, off, x as u32) =~= b);
}

/// The field at `off`, or `None` where the buffer ends before four bytes.
pub fn read_u32_le(buf: &[u8], off: usize) -> (r: Option<u32>)
    ensures
        r == u32_at(buf@, off as int),
{
    if off > buf.len() || buf.len() - off < 4 {
        return None;
    }
    proof {
        lemma_le_u32_bound(buf@, off as int);
    }
    let a0 = buf[off] as u32;
    let a1 = buf[off + 1] as u32;
    let a2 = buf[off + 2] as u32;
    let a3 = buf[off + 3] as u32;
    Some(a0 + 256 * a1 + 65536 * a2 + 16777216 * a3)
}

/// Overwrites the four bytes at `off` with `v`, little-endian.
pub fn write_u32_le(buf: &mut Vec<u8>, off: usize, v: u32)
    requires
        off + 4 <= old(buf)@.len(),
    ensures
        final(buf)@ == patch_u32(old(buf)@, off as int, v),
{
    let n = buf.len();
    buf.set(off, (v % 256) as u8);
    assert(buf@.len() == n);
    buf.set(off + 1, (v / 256 % 256) as u8);
    buf.set(off + 2, (v / 65536 % 256) as u8);
    buf.set(off + 3, (v / 16777216) as u8);
    assert(buf@ =~= patch_u32(old(buf)@, off as int, v));
}

/// The four little-endian bytes of `v`, as a vector.
pub fn u32_le_bytes(v: u32) -> (r: Vec<u8>)
    ensures
        r@ == u32_bytes(v),
{
    let r = vec![(v % 256) as u8, (v / 256 % 256) as u8, (v / 65536 % 256) as u8, (v / 16777216) as u8];
    assert(r@ =~= u32_bytes(v));
    r
}

} // verus!
